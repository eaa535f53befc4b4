//! The cell references a workbook's XML may hold, and whether the spreadsheet
//! reader can take them: every `r` or `ref` attribute value whose parts have
//! a column name of at most six letters and a row number of at most nine
//! digits, and whose ranges run forwards.

use vstd::prelude::*;

verus! {

/// ASCII whitespace, as `u8::is_ascii_whitespace` has it.
pub open spec fn ascii_ws(b: u8) -> bool {
    b == 0x20 || b == 0x09 || b == 0x0a || b == 0x0c || b == 0x0d
}

pub open spec fn ascii_letter(b: u8) -> bool {
    (0x41 <= b <= 0x5a) || (0x61 <= b <= 0x7a)
}

pub open spec fn ascii_digit(b: u8) -> bool {
    0x30 <= b <= 0x39
}

/// The number of letters in a row from position `j`.
pub open spec fn letters_run(v: Seq<u8>, j: int) -> nat
    decreases v.len() - j,
{
    if 0 <= j < v.len() && ascii_letter(v[j]) {
        1 + letters_run(v, j + 1)
    } else {
        0
    }
}

/// The number of digits in a row from position `j`.
pub open spec fn digits_run(v: Seq<u8>, j: int) -> nat
    decreases v.len() - j,
{
    if 0 <= j < v.len() && ascii_digit(v[j]) {
        1 + digits_run(v, j + 1)
    } else {
        0
    }
}

/// The part of a reference starting at `j` reads without overflow: a column
/// name of at most six letters, and after it a row number of at most nine
/// digits.
pub open spec fn part_safe(v: Seq<u8>, j: int) -> bool {
    let l = letters_run(v, j);
    &&& l <= 6
    &&& (j + l < v.len() && ascii_digit(v[j + l]) ==> digits_run(v, j + l) <= 9)
}

/// Position `j` starts no part, or a part that reads without overflow.
pub open spec fn part_ok(v: Seq<u8>, j: int) -> bool {
    (j == 0 || v[j - 1] == 0x3a) ==> part_safe(v, j)
}

/// Every `:`-separated part of `v` reads without overflow.
pub open spec fn parts_safe(v: Seq<u8>) -> bool {
    forall|j: int| 0 <= j <= v.len() ==> #[trigger] part_ok(v, j)
}

/// The number of colons in `v`.
pub open spec fn colon_count(v: Seq<u8>) -> nat
    decreases v.len(),
{
    if v.len() == 0 {
        0
    } else {
        colon_count(v.drop_last()) + if v.last() == 0x3a {
            1nat
        } else {
            0nat
        }
    }
}

/// A whole cell reference: letters, then digits, then nothing, within the
/// bounds that `part_safe` sets.
pub open spec fn pure_ref(p: Seq<u8>) -> bool {
    let l = letters_run(p, 0);
    let d = digits_run(p, l as int);
    &&& 1 <= l <= 6
    &&& 1 <= d <= 9
    &&& l + d == p.len()
}

/// The value of one letter of a column name: `A` (or `a`) is 1.
pub open spec fn letter_value(b: u8) -> int {
    if b >= 0x61 {
        b - 0x61 + 1
    } else {
        b - 0x41 + 1
    }
}

/// A column name's number: letters in base 26, `A` being 1.
pub open spec fn letters_value(s: Seq<u8>) -> int
    decreases s.len(),
{
    if s.len() == 0 {
        0
    } else {
        letters_value(s.drop_last()) * 26 + letter_value(s.last())
    }
}

/// A row number's value.
pub open spec fn digits_value(s: Seq<u8>) -> int
    decreases s.len(),
{
    if s.len() == 0 {
        0
    } else {
        digits_value(s.drop_last()) * 10 + (s.last() - 0x30)
    }
}

/// The column number of a whole reference.
pub open spec fn ref_col(p: Seq<u8>) -> int {
    letters_value(p.subrange(0, letters_run(p, 0) as int))
}

/// The row number of a whole reference.
pub open spec fn ref_row(p: Seq<u8>) -> int {
    digits_value(p.subrange(letters_run(p, 0) as int, p.len() as int))
}

/// A range of two whole references, split at its only colon `k`, runs
/// forwards: neither its column nor its row goes back.
pub open spec fn colon_ok(v: Seq<u8>, k: int) -> bool {
    let p0 = v.subrange(0, k);
    let p1 = v.subrange(k + 1, v.len() as int);
    (v[k] == 0x3a && colon_count(v) == 1 && pure_ref(p0) && pure_ref(p1)) ==> ref_col(p0) <= ref_col(p1)
        && ref_row(p0) <= ref_row(p1)
}

/// An attribute value the reader can take: its parts read without overflow,
/// and a range of two references runs forwards.
pub open spec fn value_safe(v: Seq<u8>) -> bool {
    &&& parts_safe(v)
    &&& forall|k: int| 0 <= k < v.len() ==> #[trigger] colon_ok(v, k)
}

/// The last position at or before `j` that holds no whitespace, or -1.
pub open spec fn back_skip(d: Seq<u8>, j: int) -> int
    decreases j + 1,
{
    if j < 0 {
        -1
    } else if ascii_ws(d[j]) {
        back_skip(d, j - 1)
    } else {
        j
    }
}

/// The first position from `j` on that holds no whitespace, or the length.
pub open spec fn fwd_skip(d: Seq<u8>, j: int) -> int
    decreases d.len() - j,
{
    if j < 0 || j >= d.len() {
        d.len() as int
    } else if ascii_ws(d[j]) {
        fwd_skip(d, j + 1)
    } else {
        j
    }
}

/// The first position from `j` on that holds `q`, or the length.
pub open spec fn close_at(d: Seq<u8>, j: int, q: u8) -> int
    decreases d.len() - j,
{
    if j < 0 || j >= d.len() {
        d.len() as int
    } else if d[j] == q {
        j
    } else {
        close_at(d, j + 1, q)
    }
}

/// An `=` at `i` whose key ends in `r` or `f` (as `r` and `ref` do) and whose
/// value is quoted has a value the reader takes.
pub open spec fn eq_ok(d: Seq<u8>, i: int) -> bool {
    let b = back_skip(d, i - 1);
    let q = fwd_skip(d, i + 1);
    (d[i] == 0x3d && b >= 0 && (d[b] == 0x72 || d[b] == 0x66) && q < d.len() && (d[q] == 0x22 || d[q]
        == 0x27)) ==> value_safe(d.subrange(q + 1, close_at(d, q + 1, d[q])))
}

/// Every attribute value of XML text `d` that the reader may take as a cell
/// reference is one it takes.
pub open spec fn refs_fit(d: Seq<u8>) -> bool {
    forall|i: int| 0 <= i < d.len() ==> #[trigger] eq_ok(d, i)
}

/// The bytes at even positions: the ASCII characters of UTF-16 text whose
/// units are little-endian.
pub open spec fn even_bytes(d: Seq<u8>) -> Seq<u8> {
    Seq::new((d.len() + 1) as nat / 2, |k: int| d[2 * k])
}

/// The bytes at odd positions: the ASCII characters of big-endian UTF-16 text.
pub open spec fn odd_bytes(d: Seq<u8>) -> Seq<u8> {
    Seq::new(d.len() / 2, |k: int| d[2 * k + 1])
}

/// A file of a workbook holds no reference the reader cannot take, read as
/// UTF-8 (or any encoding that keeps ASCII as it is) or as UTF-16.
pub open spec fn file_fits(d: Seq<u8>) -> bool {
    refs_fit(d) && refs_fit(even_bytes(d)) && refs_fit(odd_bytes(d))
}

/// No file of a workbook holds a reference the reader cannot take.
pub open spec fn files_fit(fs: Seq<Seq<u8>>) -> bool {
    forall|i: int| 0 <= i < fs.len() ==> #[trigger] file_fits(fs[i])
}

/// The bytes start as a compound (OLE) file may, with the first byte of its
/// signature.
pub open spec fn ole_start(bytes: Seq<u8>) -> bool {
    bytes.len() > 0 && bytes[0] == 0xd0
}

/// The workbook is no compound file, its archive reads, and none of its
/// files holds a cell reference or range that the spreadsheet reader's `u32`
/// arithmetic cannot take.
pub open spec fn xlsx_references_fit(bytes: Seq<u8>) -> bool {
    &&& !ole_start(bytes)
    &&& match crate::externals::zip_files(bytes) {
        Some(fs) => files_fit(fs),
        None => false,
    }
}

/// `27` to the power `n`.
pub open spec fn p27(n: nat) -> nat
    decreases n,
{
    if n == 0 {
        1
    } else {
        27 * p27((n - 1) as nat)
    }
}

/// `10` to the power `n`.
pub open spec fn p10(n: nat) -> nat
    decreases n,
{
    if n == 0 {
        1
    } else {
        10 * p10((n - 1) as nat)
    }
}

fn is_letter(b: u8) -> (r: bool)
    ensures
        r == ascii_letter(b),
{
    (0x41 <= b && b <= 0x5a) || (0x61 <= b && b <= 0x7a)
}

fn is_digit(b: u8) -> (r: bool)
    ensures
        r == ascii_digit(b),
{
    0x30 <= b && b <= 0x39
}

fn is_ws(b: u8) -> (r: bool)
    ensures
        r == ascii_ws(b),
{
    b == 0x20 || b == 0x09 || b == 0x0a || b == 0x0c || b == 0x0d
}

fn letters_run_exec(v: &Vec<u8>, j: usize) -> (r: usize)
    requires
        j <= v.len(),
    ensures
        r == letters_run(v@, j as int),
        j + r <= v.len(),
{
    let mut k = j;
    while k < v.len() && is_letter(v[k])
        invariant
            j <= k <= v.len(),
            letters_run(v@, j as int) == (k - j) + letters_run(v@, k as int),
        decreases v.len() - k,
    {
        k = k + 1;
    }
    k - j
}

fn digits_run_exec(v: &Vec<u8>, j: usize) -> (r: usize)
    requires
        j <= v.len(),
    ensures
        r == digits_run(v@, j as int),
        j + r <= v.len(),
{
    let mut k = j;
    while k < v.len() && is_digit(v[k])
        invariant
            j <= k <= v.len(),
            digits_run(v@, j as int) == (k - j) + digits_run(v@, k as int),
        decreases v.len() - k,
    {
        k = k + 1;
    }
    k - j
}

fn part_safe_exec(v: &Vec<u8>, j: usize) -> (r: bool)
    requires
        j <= v.len(),
    ensures
        r == part_safe(v@, j as int),
{
    let l = letters_run_exec(v, j);
    if l > 6 {
        return false;
    }
    let p = j + l;
    if p < v.len() && is_digit(v[p]) {
        digits_run_exec(v, p) <= 9
    } else {
        true
    }
}

fn parts_safe_exec(v: &Vec<u8>) -> (r: bool)
    ensures
        r == parts_safe(v@),
{
    let mut j: usize = 0;
    while j < v.len()
        invariant
            j <= v.len(),
            forall|k: int| 0 <= k < j ==> #[trigger] part_ok(v@, k),
        decreases v.len() - j,
    {
        if j == 0 || v[j - 1] == 0x3a {
            if !part_safe_exec(v, j) {
                proof {
                    assert(!part_ok(v@, j as int));
                }
                return false;
            }
        }
        j = j + 1;
    }
    proof {
        assert(letters_run(v@, v.len() as int) == 0);
        assert(part_ok(v@, v.len() as int));
    }
    true
}

proof fn lemma_colon_count_pos(v: Seq<u8>, a: int)
    requires
        0 <= a < v.len(),
        v[a] == 0x3a,
    ensures
        colon_count(v) >= 1,
    decreases v.len(),
{
    if a < v.len() - 1 {
        lemma_colon_count_pos(v.drop_last(), a);
    }
}

proof fn lemma_two_colons(v: Seq<u8>, a: int, b: int)
    requires
        0 <= a < b < v.len(),
        v[a] == 0x3a,
        v[b] == 0x3a,
    ensures
        colon_count(v) >= 2,
    decreases v.len(),
{
    if b < v.len() - 1 {
        lemma_two_colons(v.drop_last(), a, b);
    } else {
        lemma_colon_count_pos(v.drop_last(), a);
    }
}

/// The number of colons, and where the last of them stands.
fn colons_exec(v: &Vec<u8>) -> (r: (usize, usize))
    ensures
        r.0 == colon_count(v@),
        r.0 >= 1 ==> r.1 < v.len() && v@[r.1 as int] == 0x3a,
{
    let mut n: usize = 0;
    let mut pos: usize = 0;
    let mut i: usize = 0;
    while i < v.len()
        invariant
            i <= v.len(),
            n == colon_count(v@.subrange(0, i as int)),
            n <= i,
            n >= 1 ==> pos < i && v@[pos as int] == 0x3a,
        decreases v.len() - i,
    {
        proof {
            assert(v@.subrange(0, i + 1).drop_last() =~= v@.subrange(0, i as int));
        }
        if v[i] == 0x3a {
            n = n + 1;
            pos = i;
        }
        i = i + 1;
    }
    proof {
        assert(v@.subrange(0, i as int) =~= v@);
    }
    (n, pos)
}

fn copy_range(v: &Vec<u8>, a: usize, b: usize) -> (r: Vec<u8>)
    requires
        a <= b <= v.len(),
    ensures
        r@ == v@.subrange(a as int, b as int),
{
    let mut r: Vec<u8> = Vec::new();
    let mut i = a;
    while i < b
        invariant
            a <= i <= b,
            b <= v.len(),
            r@ == v@.subrange(a as int, i as int),
        decreases b - i,
    {
        r.push(v[i]);
        proof {
            assert(v@.subrange(a as int, i + 1) =~= v@.subrange(a as int, i as int).push(v@[i as int]));
        }
        i = i + 1;
    }
    r
}

fn pure_exec(p: &Vec<u8>) -> (r: (bool, usize))
    ensures
        r.0 == pure_ref(p@),
        r.1 == letters_run(p@, 0),
{
    let l = letters_run_exec(p, 0);
    let d = digits_run_exec(p, l);
    (1 <= l && l <= 6 && 1 <= d && d <= 9 && l + d == p.len(), l)
}

fn letters_value_exec(p: &Vec<u8>, n: usize) -> (r: u64)
    requires
        n <= p.len(),
        n <= 6,
        forall|i: int| 0 <= i < n ==> ascii_letter(#[trigger] p@[i]),
    ensures
        r == letters_value(p@.subrange(0, n as int)),
{
    let mut r: u64 = 0;
    let mut i: usize = 0;
    proof {
        assert(p@.subrange(0, 0) =~= Seq::<u8>::empty());
    }
    while i < n
        invariant
            i <= n <= 6,
            n <= p.len(),
            forall|k: int| 0 <= k < n ==> ascii_letter(#[trigger] p@[k]),
            r == letters_value(p@.subrange(0, i as int)),
            r < p27(i as nat),
        decreases n - i,
    {
        let b = p[i];
        assert(ascii_letter(p@[i as int]));
        let lv: u64 = if b >= 0x61 {
            (b - 0x61 + 1) as u64
        } else {
            (b - 0x41 + 1) as u64
        };
        proof {
            assert(p@.subrange(0, i + 1).drop_last() =~= p@.subrange(0, i as int));
            assert(p@.subrange(0, i + 1).last() == b);
            lemma_p27_bound((i + 1) as nat);
        }
        r = r * 26 + lv;
        i = i + 1;
    }
    r
}

fn digits_value_exec(p: &Vec<u8>, a: usize, b: usize) -> (r: u64)
    requires
        a <= b <= p.len(),
        b - a <= 9,
        forall|i: int| a <= i < b ==> ascii_digit(#[trigger] p@[i]),
    ensures
        r == digits_value(p@.subrange(a as int, b as int)),
{
    let mut r: u64 = 0;
    let mut i: usize = a;
    proof {
        assert(p@.subrange(a as int, a as int) =~= Seq::<u8>::empty());
    }
    while i < b
        invariant
            a <= i <= b,
            b <= p.len(),
            b - a <= 9,
            forall|k: int| a <= k < b ==> ascii_digit(#[trigger] p@[k]),
            r == digits_value(p@.subrange(a as int, i as int)),
            r < p10((i - a) as nat),
        decreases b - i,
    {
        let c = p[i];
        assert(ascii_digit(p@[i as int]));
        proof {
            assert(p@.subrange(a as int, i + 1).drop_last() =~= p@.subrange(a as int, i as int));
            assert(p@.subrange(a as int, i + 1).last() == c);
            lemma_p10_bound((i + 1 - a) as nat);
        }
        r = r * 10 + (c - 0x30) as u64;
        i = i + 1;
    }
    r
}

proof fn lemma_p10_bound(i: nat)
    requires
        i <= 9,
    ensures
        p10(i) <= 1000000000,
{
    reveal_with_fuel(p10, 10);
    if i == 0 {
    } else if i == 1 {
    } else if i == 2 {
    } else if i == 3 {
    } else if i == 4 {
    } else if i == 5 {
    } else if i == 6 {
    } else if i == 7 {
    } else if i == 8 {
    } else {
    }
}

proof fn lemma_letters_prefix(p: Seq<u8>, j: int, k: int)
    requires
        0 <= j <= k <= j + letters_run(p, j),
    ensures
        forall|i: int| j <= i < k ==> ascii_letter(#[trigger] p[i]),
        letters_run(p, j) == (k - j) + letters_run(p, k),
    decreases k - j,
{
    if j < k {
        lemma_letters_prefix(p, j + 1, k);
    }
}

proof fn lemma_digits_prefix(p: Seq<u8>, j: int, k: int)
    requires
        0 <= j <= k <= j + digits_run(p, j),
    ensures
        forall|i: int| j <= i < k ==> ascii_digit(#[trigger] p[i]),
        digits_run(p, j) == (k - j) + digits_run(p, k),
    decreases k - j,
{
    if j < k {
        lemma_digits_prefix(p, j + 1, k);
    }
}

/// The column and row numbers of a whole reference.
fn ref_position(p: &Vec<u8>, l: usize) -> (r: (u64, u64))
    requires
        pure_ref(p@),
        l == letters_run(p@, 0),
    ensures
        r.0 == ref_col(p@),
        r.1 == ref_row(p@),
{
    proof {
        lemma_letters_prefix(p@, 0, l as int);
        lemma_digits_prefix(p@, l as int, p.len() as int);
    }
    let c = letters_value_exec(p, l);
    let w = digits_value_exec(p, l, p.len());
    (c, w)
}

/// Whether an attribute value is one the reader takes: `value_safe`.
pub fn value_safe_exec(v: &Vec<u8>) -> (r: bool)
    ensures
        r == value_safe(v@),
{
    if !parts_safe_exec(v) {
        return false;
    }
    let (n, k) = colons_exec(v);
    if n != 1 {
        return true;
    }
    proof {
        assert forall|m: int| 0 <= m < v.len() && m != k implies v@[m] != 0x3a by {
            if v@[m] == 0x3a {
                if m < k {
                    lemma_two_colons(v@, m, k as int);
                } else {
                    lemma_two_colons(v@, k as int, m);
                }
            }
        }
    }
    let p0 = copy_range(v, 0, k);
    let p1 = copy_range(v, k + 1, v.len());
    let (pure0, l0) = pure_exec(&p0);
    let (pure1, l1) = pure_exec(&p1);
    if pure0 && pure1 {
        let (c0, r0) = ref_position(&p0, l0);
        let (c1, r1) = ref_position(&p1, l1);
        let ok = c0 <= c1 && r0 <= r1;
        proof {
            if !ok {
                assert(!colon_ok(v@, k as int));
            }
        }
        ok
    } else {
        true
    }
}

fn back_skip_exec(d: &Vec<u8>, i: usize) -> (r: Option<usize>)
    requires
        i <= d.len(),
    ensures
        r matches Some(p) ==> back_skip(d@, i - 1) == p && p < i,
        r is None ==> back_skip(d@, i - 1) == -1,
{
    let mut k = i;
    while k > 0 && is_ws(d[k - 1])
        invariant
            k <= i <= d.len(),
            back_skip(d@, i - 1) == back_skip(d@, k - 1),
        decreases k,
    {
        k = k - 1;
    }
    if k == 0 {
        None
    } else {
        Some(k - 1)
    }
}

fn fwd_skip_exec(d: &Vec<u8>, j: usize) -> (r: usize)
    requires
        j <= d.len(),
    ensures
        r == fwd_skip(d@, j as int),
        j <= r <= d.len(),
{
    let mut k = j;
    while k < d.len() && is_ws(d[k])
        invariant
            j <= k <= d.len(),
            fwd_skip(d@, j as int) == fwd_skip(d@, k as int),
        decreases d.len() - k,
    {
        k = k + 1;
    }
    k
}

fn close_exec(d: &Vec<u8>, j: usize, q: u8) -> (r: usize)
    requires
        j <= d.len(),
    ensures
        r == close_at(d@, j as int, q),
        j <= r <= d.len(),
{
    let mut k = j;
    while k < d.len() && d[k] != q
        invariant
            j <= k <= d.len(),
            close_at(d@, j as int, q) == close_at(d@, k as int, q),
        decreases d.len() - k,
    {
        k = k + 1;
    }
    k
}

/// Whether XML text holds only cell references the reader takes: `refs_fit`.
pub fn refs_fit_exec(d: &Vec<u8>) -> (r: bool)
    ensures
        r == refs_fit(d@),
{
    let mut i: usize = 0;
    while i < d.len()
        invariant
            i <= d.len(),
            forall|k: int| 0 <= k < i ==> #[trigger] eq_ok(d@, k),
        decreases d.len() - i,
    {
        if d[i] == 0x3d {
            let kb = back_skip_exec(d, i);
            let key_end = match kb {
                Some(b) => d[b] == 0x72 || d[b] == 0x66,
                None => false,
            };
            if key_end {
                let q = fwd_skip_exec(d, i + 1);
                if q < d.len() && (d[q] == 0x22 || d[q] == 0x27) {
                    let e = close_exec(d, q + 1, d[q]);
                    let v = copy_range(d, q + 1, e);
                    if !value_safe_exec(&v) {
                        proof {
                            assert(!eq_ok(d@, i as int));
                        }
                        return false;
                    }
                }
            }
        }
        proof {
            assert(eq_ok(d@, i as int));
        }
        i = i + 1;
    }
    true
}

/// The bytes at even positions.
fn even_exec(d: &Vec<u8>) -> (r: Vec<u8>)
    ensures
        r@ == even_bytes(d@),
{
    let t = d.len() / 2 + d.len() % 2;
    let mut r: Vec<u8> = Vec::new();
    let mut k: usize = 0;
    while k < t
        invariant
            t == d.len() / 2 + d.len() % 2,
            k <= t,
            r.len() == k,
            forall|m: int| 0 <= m < k ==> r@[m] == d@[2 * m],
        decreases t - k,
    {
        r.push(d[2 * k]);
        k = k + 1;
    }
    proof {
        assert(r@ =~= even_bytes(d@));
    }
    r
}

/// The bytes at odd positions.
fn odd_exec(d: &Vec<u8>) -> (r: Vec<u8>)
    ensures
        r@ == odd_bytes(d@),
{
    let t = d.len() / 2;
    let mut r: Vec<u8> = Vec::new();
    let mut k: usize = 0;
    while k < t
        invariant
            t == d.len() / 2,
            k <= t,
            r.len() == k,
            forall|m: int| 0 <= m < k ==> r@[m] == d@[2 * m + 1],
        decreases t - k,
    {
        r.push(d[2 * k + 1]);
        k = k + 1;
    }
    proof {
        assert(r@ =~= odd_bytes(d@));
    }
    r
}

/// Whether a workbook is no compound file, its archive reads and none of its
/// files holds a cell reference the reader cannot take: `xlsx_references_fit`.
pub fn references_fit(bytes: &[u8]) -> (r: bool)
    ensures
        r == xlsx_references_fit(bytes@),
{
    if bytes.len() > 0 && bytes[0] == 0xd0 {
        return false;
    }
    let files = match crate::externals::read_zip_files(bytes) {
        Some(f) => f,
        None => return false,
    };
    let ghost fs = files@.map_values(|f: Vec<u8>| f@);
    let mut i: usize = 0;
    while i < files.len()
        invariant
            i <= files.len(),
            fs == files@.map_values(|f: Vec<u8>| f@),
            crate::externals::zip_files(bytes@) == Some(fs),
            forall|k: int| 0 <= k < i ==> #[trigger] file_fits(fs[k]),
        decreases files.len() - i,
    {
        let f = &files[i];
        let ok = refs_fit_exec(f) && refs_fit_exec(&even_exec(f)) && refs_fit_exec(&odd_exec(f));
        if !ok {
            proof {
                assert(fs[i as int] == files@[i as int]@);
                assert(!file_fits(fs[i as int]));
                assert(!files_fit(fs));
            }
            return false;
        }
        proof {
            assert(fs[i as int] == files@[i as int]@);
        }
        i = i + 1;
    }
    true
}

proof fn lemma_p27_bound(i: nat)
    requires
        i <= 6,
    ensures
        p27(i) <= 387420489,
{
    reveal_with_fuel(p27, 7);
    if i == 0 {
    } else if i == 1 {
    } else if i == 2 {
    } else if i == 3 {
    } else if i == 4 {
    } else if i == 5 {
    } else {
    }
}

} // verus!
