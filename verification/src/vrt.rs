//! The `vrt` format: one `tag "text"` entry per line, the text written as a
//! JSON string. This module splits a buffer into lines, repairs the usual
//! damage at the end of an entry and reads each entry's text.

use vstd::prelude::*;
use vstd::utf8::*;

use crate::externals::{json_parse_text, nom_rest, nom_take_until_space, utf8_decode};
use crate::text::{chars_to_string, to_chars, trim, trim_bounds};

verus! {

/// The first index at which `x` occurs in `s`.
pub open spec fn first_index<A>(s: Seq<A>, x: A) -> Option<int> {
    if exists|i: int| 0 <= i < s.len() && s[i] == x {
        Some(choose|i: int| 0 <= i < s.len() && s[i] == x && forall|j: int| 0 <= j < i ==> s[j] != x)
    } else {
        None
    }
}

/// The last index at which `x` occurs in `s`.
pub open spec fn last_index<A>(s: Seq<A>, x: A) -> Option<int> {
    if exists|i: int| 0 <= i < s.len() && s[i] == x {
        Some(choose|i: int| 0 <= i < s.len() && s[i] == x && forall|j: int| i < j < s.len() ==> s[j] != x)
    } else {
        None
    }
}

proof fn lemma_last_below<A>(s: Seq<A>, x: A, k: int) -> (p: int)
    requires
        0 <= k <= s.len(),
        forall|j: int| k <= j < s.len() ==> s[j] != x,
        exists|i: int| 0 <= i < k && s[i] == x,
    ensures
        0 <= p < s.len(),
        s[p] == x,
        forall|j: int| p < j < s.len() ==> s[j] != x,
    decreases k,
{
    if s[k - 1] == x {
        k - 1
    } else {
        lemma_last_below(s, x, k - 1)
    }
}

/// What `last_index` finds: the last position holding `x`, if any does.
pub proof fn lemma_last_index<A>(s: Seq<A>, x: A)
    ensures
        last_index(s, x) matches Some(p) ==> 0 <= p < s.len() && s[p] == x && forall|j: int| p < j < s.len() ==> s[j] != x,
        last_index(s, x) is None ==> forall|j: int| 0 <= j < s.len() ==> s[j] != x,
{
    if exists|i: int| 0 <= i < s.len() && s[i] == x {
        let _p = lemma_last_below(s, x, s.len() as int);
    }
}

proof fn lemma_first_from<A>(s: Seq<A>, x: A, k: int) -> (p: int)
    requires
        0 <= k <= s.len(),
        forall|j: int| 0 <= j < k ==> s[j] != x,
        exists|i: int| k <= i < s.len() && s[i] == x,
    ensures
        0 <= p < s.len(),
        s[p] == x,
        forall|j: int| 0 <= j < p ==> s[j] != x,
    decreases s.len() - k,
{
    if s[k] == x {
        k
    } else {
        lemma_first_from(s, x, k + 1)
    }
}

/// What `first_index` finds: the first position holding `x`, if any does.
pub proof fn lemma_first_index_found<A>(s: Seq<A>, x: A)
    ensures
        first_index(s, x) matches Some(p) ==> 0 <= p < s.len() && s[p] == x && forall|j: int| 0 <= j < p ==> s[j] != x,
        first_index(s, x) is None ==> forall|j: int| 0 <= j < s.len() ==> s[j] != x,
{
    if exists|i: int| 0 <= i < s.len() && s[i] == x {
        let _p = lemma_first_from(s, x, 0);
    }
}

pub proof fn lemma_first_index<A>(s: Seq<A>, x: A, i: int)
    requires
        0 <= i < s.len(),
        s[i] == x,
        forall|j: int| 0 <= j < i ==> s[j] != x,
    ensures
        first_index(s, x) == Some(i),
{
    let k = choose|k: int| 0 <= k < s.len() && s[k] == x && forall|j: int| 0 <= j < k ==> s[j] != x;
    assert(0 <= k < s.len() && s[k] == x);
    if k < i {
        assert(s[k] != x);
    }
    if i < k {
        assert(s[i] != x);
    }
}

/// The lines of a buffer as `BufRead::lines` cuts them: pieces between line
/// feeds, with no piece after a final line feed.
#[verifier::opaque]
pub open spec fn split_lines(b: Seq<u8>) -> Seq<Seq<u8>>
    decreases b.len(),
{
    if b.len() == 0 {
        Seq::empty()
    } else {
        match first_index(b, 10u8) {
            Some(i) => {
                if 0 <= i < b.len() {
                    seq![b.subrange(0, i)] + split_lines(b.subrange(i + 1, b.len() as int))
                } else {
                    Seq::empty()
                }
            },
            None => seq![b],
        }
    }
}

/// A line without its final carriage return.
pub open spec fn strip_cr(l: Seq<u8>) -> Seq<u8> {
    if l.len() > 0 && l.last() == 13u8 {
        l.drop_last()
    } else {
        l
    }
}

/// Every line of the buffer is valid UTF-8.
pub open spec fn all_lines_valid(b: Seq<u8>) -> bool {
    forall|k: int| 0 <= k < split_lines(b).len() ==> valid_utf8(#[trigger] strip_cr(split_lines(b)[k]))
}

/// The text of each line of the buffer.
pub open spec fn decoded_lines(b: Seq<u8>) -> Seq<Seq<char>> {
    decode_all(split_lines(b))
}

/// The kind of repair an entry's text needed.
#[derive(Debug, Clone, Copy, PartialEq, Eq, Structural)]
pub enum RepairKind {
    Clean,
    Excess,
    NoQuote,
    ExtraQuote,
}

/// The position of the last quote of `e`, not counting its first character.
pub open spec fn last_quote(e: Seq<char>) -> Option<int> {
    if exists|i: int| 1 <= i < e.len() && e[i] == '"' {
        Some(choose|i: int| 1 <= i < e.len() && e[i] == '"' && forall|j: int| i < j < e.len() ==> e[j] != '"')
    } else {
        None
    }
}

/// `e` ends with two quotes, the first of them not escaped.
pub open spec fn ends_with_extra_quote(e: Seq<char>) -> bool {
    &&& e.len() >= 2
    &&& e[e.len() - 1] == '"'
    &&& e[e.len() - 2] == '"'
    &&& !(e.len() >= 3 && e[e.len() - 3] == '\\')
}

/// The repaired entry text: an extra final quote dropped, characters after
/// the closing quote dropped, or a missing closing quote added.
pub open spec fn repair(e: Seq<char>) -> (RepairKind, Seq<char>) {
    match last_quote(e) {
        Some(q) => if ends_with_extra_quote(e) {
            (RepairKind::ExtraQuote, e.subrange(0, q))
        } else if q + 1 < e.len() {
            (RepairKind::Excess, e.subrange(0, q + 1))
        } else {
            (RepairKind::Clean, e)
        },
        None => (RepairKind::NoQuote, e.push('"')),
    }
}

proof fn lemma_quote_below(e: Seq<char>, k: int) -> (q: int)
    requires
        1 <= k <= e.len(),
        forall|j: int| k <= j < e.len() ==> e[j] != '"',
        exists|i: int| 1 <= i < k && e[i] == '"',
    ensures
        1 <= q < e.len(),
        e[q] == '"',
        forall|j: int| q < j < e.len() ==> e[j] != '"',
    decreases k,
{
    if e[k - 1] == '"' {
        k - 1
    } else {
        lemma_quote_below(e, k - 1)
    }
}

/// What `last_quote` finds: the last quote after the first character.
proof fn lemma_last_quote(e: Seq<char>)
    ensures
        last_quote(e) matches Some(q) ==> 1 <= q < e.len() && e[q] == '"' && forall|j: int| q < j < e.len() ==> e[j] != '"',
        last_quote(e) is None ==> forall|j: int| 1 <= j < e.len() ==> e[j] != '"',
{
    if exists|i: int| 1 <= i < e.len() && e[i] == '"' {
        let _q = lemma_quote_below(e, e.len() as int);
    }
}

/// A repaired entry ends with a quote, whatever its repair was: the
/// closing quote is kept, or added where there was none.
pub proof fn lemma_repair_ends_with_quote(e: Seq<char>)
    requires
        e.len() > 0,
    ensures
        repair(e).1.len() > 0,
        repair(e).1.last() == '"',
        repair(e).1.len() <= e.len() + 1,
{
    lemma_last_quote(e);
    match last_quote(e) {
        Some(q) => {
            if ends_with_extra_quote(e) {
                assert(q == e.len() - 1);
                assert(repair(e).1 =~= e.subrange(0, q));
                assert(e.subrange(0, q).last() == e[e.len() - 2]);
            } else if q + 1 < e.len() {
                assert(repair(e).1.last() == e[q]);
            } else {
                assert(repair(e).1.last() == e[e.len() - 1]);
            }
        },
        None => {},
    }
}

/// An entry can be repaired: it is not empty and starts with a one-byte character.
pub open spec fn repairable(e: Seq<char>) -> bool {
    e.len() > 0 && (e[0] as int) < 128
}

/// The entry part of a line: everything from its first space on, trimmed.
pub open spec fn entry_of(line: Seq<char>, space: int) -> Seq<char> {
    trim(line.subrange(space, line.len() as int))
}

/// Reading the line does not fail: either it has no space, or its entry can
/// be repaired.
pub open spec fn vrt_line_safe(line: Seq<char>) -> bool {
    match first_index(line, ' ') {
        Some(i) => repairable(entry_of(line, i)),
        None => true,
    }
}

/// The (tag, text) a line holds: `None` where it has no space or its
/// repaired entry is not JSON.
pub open spec fn vrt_line(line: Seq<char>) -> Option<(Seq<char>, Seq<char>)> {
    match first_index(line, ' ') {
        Some(i) => match crate::externals::json_text(repair(entry_of(line, i)).1) {
            Some(t) => Some((trim(line.subrange(0, i)), t)),
            None => None,
        },
        None => None,
    }
}

/// The (tag, text) pairs of a list of lines, in order.
pub open spec fn vrt_entries(lines: Seq<Seq<char>>) -> Seq<(Seq<char>, Seq<char>)>
    decreases lines.len(),
{
    if lines.len() == 0 {
        Seq::empty()
    } else {
        let prev = vrt_entries(lines.drop_last());
        match vrt_line(lines.last()) {
            Some(p) => prev.push(p),
            None => prev,
        }
    }
}

/// Reading the buffer does not fail before it reaches an invalid line.
#[verifier::opaque]
pub open spec fn vrt_buffer_safe(b: Seq<u8>) -> bool {
    forall|k: int|
        #![trigger split_lines(b)[k]]
        0 <= k < split_lines(b).len() ==> (forall|j: int| 0 <= j <= k ==> valid_utf8(#[trigger] strip_cr(split_lines(b)[j])))
            ==> vrt_line_safe(decode_utf8(strip_cr(split_lines(b)[k])))
}

/// The views of a list of string pairs.
pub open spec fn pair_views(v: Seq<(String, String)>) -> Seq<(Seq<char>, Seq<char>)> {
    v.map_values(|p: (String, String)| (p.0@, p.1@))
}

/// An entry's text after repair.
pub enum ParseResult {
    Clean(String),
    Excess(String),
    NoQuote(String),
    ExtraQuote(String),
}

impl ParseResult {
    pub open spec fn kind(&self) -> RepairKind {
        match self {
            ParseResult::Clean(_) => RepairKind::Clean,
            ParseResult::Excess(_) => RepairKind::Excess,
            ParseResult::NoQuote(_) => RepairKind::NoQuote,
            ParseResult::ExtraQuote(_) => RepairKind::ExtraQuote,
        }
    }

    pub open spec fn data(&self) -> Seq<char> {
        match self {
            ParseResult::Clean(s) => s@,
            ParseResult::Excess(s) => s@,
            ParseResult::NoQuote(s) => s@,
            ParseResult::ExtraQuote(s) => s@,
        }
    }

    /// The repaired text, whatever the repair was.
    pub fn extract_data(&self) -> (s: &str)
        ensures
            s@ == self.data(),
    {
        match self {
            ParseResult::Clean(line) => line.as_str(),
            ParseResult::Excess(line) => line.as_str(),
            ParseResult::NoQuote(line) => line.as_str(),
            ParseResult::ExtraQuote(line) => line.as_str(),
        }
    }
}

/// Repairs the end of an entry's text. `full_line` is the line it came from.
pub fn repair_vrt_line_end(line_entry: &str, full_line: &str) -> (r: ParseResult)
    requires
        repairable(line_entry@),
    ensures
        r.kind() == repair(line_entry@).0,
        r.data() == repair(line_entry@).1,
{
    let e = to_chars(line_entry);
    let n = e.len();
    // the last quote after the first character
    let mut k = n;
    while k > 1 && e[k - 1] != '"'
        invariant
            1 <= k <= n,
            n == e@.len(),
            forall|j: int| k <= j < n ==> e@[j] != '"',
        decreases k,
    {
        k = k - 1;
    }
    if k > 1 {
        let q = k - 1;
        proof {
            let qq = choose|i: int| 1 <= i < e@.len() && e@[i] == '"' && forall|j: int| i < j < e@.len() ==> e@[j] != '"';
            assert(1 <= q < e@.len() && e@[q as int] == '"');
            if qq < q {
                assert(e@[q as int] != '"');
            }
            if q < qq {
                assert(e@[qq] != '"');
            }
        }
        let extra = n >= 2 && e[n - 1] == '"' && e[n - 2] == '"' && !(n >= 3 && e[n - 3] == '\\');
        if extra {
            return ParseResult::ExtraQuote(chars_to_string(&e, 0, q));
        }
        if q + 1 < n {
            return ParseResult::Excess(chars_to_string(&e, 0, q + 1));
        }
        ParseResult::Clean(String::from_str(line_entry))
    } else {
        let mut s = String::from_str(line_entry);
        crate::externals::push_char(&mut s, '"');
        ParseResult::NoQuote(s)
    }
}

/// The tag and text of one line, if it holds them.
pub fn read_vrt_line(line: &str) -> (r: Option<(String, String)>)
    requires
        vrt_line_safe(line@),
    ensures
        r matches Some(p) ==> vrt_line(line@) == Some((p.0@, p.1@)),
        r is None ==> vrt_line(line@) is None,
{
    let chars = to_chars(line);
    let n = chars.len();
    let mut eq: usize = 0;
    while eq < n && chars[eq] != ' '
        invariant
            eq <= n,
            n == chars@.len(),
            forall|j: int| 0 <= j < eq ==> chars@[j] != ' ',
        decreases n - eq,
    {
        eq = eq + 1;
    }
    if eq == n {
        proof {
            if exists|i: int| 0 <= i < line@.len() && line@[i] == ' ' {
                let i = choose|i: int| 0 <= i < line@.len() && line@[i] == ' ';
                assert(chars@[i] != ' ');
            }
        }
        return None;
    }
    proof {
        lemma_first_index(line@, ' ', eq as int);
    }
    let (tlo, thi) = trim_bounds(&chars, 0, eq);
    let tag = chars_to_string(&chars, tlo, thi);
    let (elo, ehi) = trim_bounds(&chars, eq, n);
    let entry = chars_to_string(&chars, elo, ehi);
    let val = repair_vrt_line_end(entry.as_str(), line);
    match json_parse_text(val.extract_data()) {
        Some(text) => Some((tag, text)),
        None => None,
    }
}

proof fn lemma_split_step(b: Seq<u8>, start: int, i: int)
    requires
        0 <= start <= i < b.len(),
        b[i] == 10u8,
        forall|j: int| start <= j < i ==> b[j] != 10u8,
    ensures
        split_lines(b.subrange(start, b.len() as int)) == seq![b.subrange(start, i)] + split_lines(
            b.subrange(i + 1, b.len() as int),
        ),
{
    reveal_with_fuel(split_lines, 1);
    let s = b.subrange(start, b.len() as int);
    let i2 = i - start;
    assert forall|j: int| 0 <= j < i2 implies s[j] != 10u8 by {
        assert(s[j] == b[start + j]);
    }
    lemma_first_index(s, 10u8, i2);
    assert(split_lines(s) == seq![s.subrange(0, i2)] + split_lines(s.subrange(i2 + 1, s.len() as int)));
    assert(s.subrange(0, i2) =~= b.subrange(start, i));
    assert(s.subrange(i2 + 1, s.len() as int) =~= b.subrange(i + 1, b.len() as int));
}

proof fn lemma_split_last(b: Seq<u8>, start: int)
    requires
        0 <= start < b.len(),
        forall|j: int| start <= j < b.len() ==> b[j] != 10u8,
    ensures
        split_lines(b.subrange(start, b.len() as int)) == seq![b.subrange(start, b.len() as int)],
{
    reveal_with_fuel(split_lines, 1);
    let s = b.subrange(start, b.len() as int);
    if exists|i: int| 0 <= i < s.len() && s[i] == 10u8 {
        let i = choose|i: int| 0 <= i < s.len() && s[i] == 10u8;
        assert(b[start + i] == 10u8);
    }
}

/// The bytes `b[from..to]`, without a final carriage return.
fn line_bytes(b: &[u8], from: usize, to: usize) -> (v: Vec<u8>)
    requires
        from <= to <= b@.len(),
    ensures
        v@ == strip_cr(b@.subrange(from as int, to as int)),
{
    let mut end = to;
    if to > from && b[to - 1] == 13u8 {
        end = to - 1;
    }
    let mut v: Vec<u8> = Vec::new();
    let mut k = from;
    while k < end
        invariant
            from <= k <= end <= to <= b@.len(),
            v@ == b@.subrange(from as int, k as int),
        decreases end - k,
    {
        v.push(b[k]);
        k = k + 1;
        assert(v@ =~= b@.subrange(from as int, k as int));
    }
    proof {
        let l = b@.subrange(from as int, to as int);
        if to > from && b@[to - 1] == 13u8 {
            assert(l.drop_last() =~= b@.subrange(from as int, end as int));
        }
    }
    v
}

/// The text of each line in a list of lines.
pub open spec fn decode_all(ls: Seq<Seq<u8>>) -> Seq<Seq<char>> {
    ls.map_values(|l: Seq<u8>| decode_utf8(strip_cr(l)))
}

/// Every line in a list of lines is valid UTF-8.
pub open spec fn valid_all(ls: Seq<Seq<u8>>) -> bool {
    forall|j: int| 0 <= j < ls.len() ==> valid_utf8(#[trigger] strip_cr(ls[j]))
}

proof fn lemma_line_safe(b: Seq<u8>, done: Seq<Seq<u8>>, piece: Seq<u8>)
    requires
        vrt_buffer_safe(b),
        valid_all(done),
        valid_utf8(strip_cr(piece)),
        done.len() < split_lines(b).len(),
        split_lines(b)[done.len() as int] == piece,
        forall|j: int| 0 <= j < done.len() ==> split_lines(b)[j] == done[j],
    ensures
        vrt_line_safe(decode_utf8(strip_cr(piece))),
{
    reveal(vrt_buffer_safe);
    let k = done.len() as int;
    assert forall|j: int| 0 <= j <= k implies valid_utf8(#[trigger] strip_cr(split_lines(b)[j])) by {
        if j < k {
            assert(split_lines(b)[j] == done[j]);
        }
    }
    assert(split_lines(b)[k] == piece);
}

proof fn lemma_line_invalid(b: Seq<u8>, k: int, piece: Seq<u8>)
    requires
        0 <= k < split_lines(b).len(),
        split_lines(b)[k] == piece,
        !valid_utf8(strip_cr(piece)),
    ensures
        !all_lines_valid(b),
{
    assert(!valid_utf8(strip_cr(split_lines(b)[k])));
}

proof fn lemma_entries_push(done: Seq<Seq<u8>>, piece: Seq<u8>)
    ensures
        decode_all(done.push(piece)) == decode_all(done).push(decode_utf8(strip_cr(piece))),
        vrt_entries(decode_all(done.push(piece))) == match vrt_line(decode_utf8(strip_cr(piece))) {
            Some(p) => vrt_entries(decode_all(done)).push(p),
            None => vrt_entries(decode_all(done)),
        },
{
    let d = decode_all(done.push(piece));
    assert(d =~= decode_all(done).push(decode_utf8(strip_cr(piece))));
    assert(d.drop_last() =~= decode_all(done));
}

proof fn lemma_valid_push(done: Seq<Seq<u8>>, piece: Seq<u8>)
    requires
        valid_all(done),
        valid_utf8(strip_cr(piece)),
    ensures
        valid_all(done.push(piece)),
{
    assert forall|j: int| 0 <= j < done.len() + 1 implies valid_utf8(#[trigger] strip_cr(done.push(piece)[j])) by {
        if j < done.len() {
            assert(done.push(piece)[j] == done[j]);
        }
    }
}

/// The end of the line starting at `start`: the next line feed, or the end.
fn line_end(buffer: &[u8], start: usize) -> (end: usize)
    requires
        start <= buffer@.len(),
    ensures
        start <= end <= buffer@.len(),
        forall|j: int| start <= j < end ==> buffer@[j] != 10u8,
        end < buffer@.len() ==> buffer@[end as int] == 10u8,
{
    let n = buffer.len();
    let mut end = start;
    while end < n && buffer[end] != 10u8
        invariant
            start <= end <= n,
            n == buffer@.len(),
            forall|j: int| start <= j < end ==> buffer@[j] != 10u8,
        decreases n - end,
    {
        end = end + 1;
    }
    end
}

proof fn lemma_split_empty(b: Seq<u8>)
    ensures
        split_lines(b.subrange(b.len() as int, b.len() as int)) == Seq::<Seq<u8>>::empty(),
{
    reveal_with_fuel(split_lines, 1);
}

proof fn lemma_split_advance(b: Seq<u8>, done: Seq<Seq<u8>>, start: int, end: int)
    requires
        0 <= start <= end <= b.len(),
        start < b.len(),
        split_lines(b) == done + split_lines(b.subrange(start, b.len() as int)),
        forall|j: int| start <= j < end ==> b[j] != 10u8,
        end < b.len() ==> b[end] == 10u8,
    ensures
        split_lines(b) == done.push(b.subrange(start, end)) + split_lines(
            b.subrange(if end < b.len() { end + 1 } else { b.len() as int }, b.len() as int),
        ),
        split_lines(b)[done.len() as int] == b.subrange(start, end),
        forall|j: int| 0 <= j < done.len() ==> split_lines(b)[j] == done[j],
{
    let piece = b.subrange(start, end);
    if end < b.len() {
        lemma_split_step(b, start, end);
    } else {
        lemma_split_last(b, start);
        lemma_split_empty(b);
    }
    let next = if end < b.len() { end + 1 } else { b.len() as int };
    assert(split_lines(b) =~= done.push(piece) + split_lines(b.subrange(next, b.len() as int)));
}

/// The (tag, text) pairs of a `vrt` buffer, or `InvalidUtf8` where a line is
/// not valid UTF-8.
pub fn read_vrt(buffer: &[u8]) -> (r: Result<Vec<(String, String)>, LoadError>)
    requires
        vrt_buffer_safe(buffer@),
    ensures
        r matches Ok(v) ==> all_lines_valid(buffer@) && pair_views(v@) == vrt_entries(decoded_lines(buffer@)),
        r matches Err(e) ==> e == LoadError::InvalidUtf8 && !all_lines_valid(buffer@),
{
    let ghost b = buffer@;
    let n = buffer.len();
    let mut ret: Vec<(String, String)> = Vec::new();
    let mut start: usize = 0;
    let ghost mut done: Seq<Seq<u8>> = Seq::empty();
    proof {
        assert(b.subrange(0, n as int) =~= b);
        assert(done + split_lines(b) =~= split_lines(b));
        assert(pair_views(ret@) =~= Seq::<(Seq<char>, Seq<char>)>::empty());
        assert(decode_all(done) =~= Seq::<Seq<char>>::empty());
    }
    while start < n
        invariant
            n == b.len(),
            b == buffer@,
            start <= n,
            split_lines(b) == done + split_lines(b.subrange(start as int, n as int)),
            valid_all(done),
            pair_views(ret@) == vrt_entries(decode_all(done)),
            vrt_buffer_safe(b),
        decreases n - start,
    {
        let end = line_end(buffer, start);
        let ghost piece = b.subrange(start as int, end as int);
        proof {
            lemma_split_advance(b, done, start as int, end as int);
        }
        let bytes = line_bytes(buffer, start, end);
        match utf8_decode(bytes.as_slice()) {
            None => {
                proof {
                    lemma_line_invalid(b, done.len() as int, piece);
                }
                return Err(LoadError::InvalidUtf8);
            },
            Some(line) => {
                proof {
                    lemma_line_safe(b, done, piece);
                    lemma_entries_push(done, piece);
                    lemma_valid_push(done, piece);
                }
                let parsed = read_vrt_line(line.as_str());
                match parsed {
                    Some(p) => {
                        let ghost old_ret = ret@;
                        ret.push(p);
                        proof {
                            assert(pair_views(ret@) =~= pair_views(old_ret).push((p.0@, p.1@)));
                        }
                    },
                    None => {},
                }
                proof {
                    done = done.push(piece);
                }
                if end < n {
                    start = end + 1;
                } else {
                    start = n;
                }
            },
        }
    }
    proof {
        lemma_split_empty(b);
        assert(split_lines(b) =~= done);
        assert forall|k: int| 0 <= k < split_lines(b).len() implies valid_utf8(#[trigger] strip_cr(split_lines(b)[k])) by {
            assert(strip_cr(done[k]) == strip_cr(split_lines(b)[k]));
        }
    }
    Ok(ret)
}

/// Whether reading `line` does not fail: see `vrt_line_safe`.
pub fn vrt_line_is_safe(line: &str) -> (r: bool)
    ensures
        r == vrt_line_safe(line@),
{
    let chars = to_chars(line);
    let n = chars.len();
    let mut eq: usize = 0;
    while eq < n && chars[eq] != ' '
        invariant
            eq <= n,
            n == chars@.len(),
            forall|j: int| 0 <= j < eq ==> chars@[j] != ' ',
        decreases n - eq,
    {
        eq = eq + 1;
    }
    if eq == n {
        proof {
            if exists|i: int| 0 <= i < line@.len() && line@[i] == ' ' {
                let i = choose|i: int| 0 <= i < line@.len() && line@[i] == ' ';
                assert(chars@[i] != ' ');
            }
        }
        return true;
    }
    proof {
        lemma_first_index(line@, ' ', eq as int);
    }
    let (elo, ehi) = trim_bounds(&chars, eq, n);
    proof {
        let e = chars@.subrange(elo as int, ehi as int);
        assert(e == entry_of(line@, eq as int));
        if elo < ehi {
            assert(e[0] == chars@[elo as int]);
        }
    }
    elo < ehi && chars[elo] < '\u{80}'
}

/// Every line of the buffer holding the first `m` lines up to an invalid
/// one can be read.
spec fn safe_prefix(b: Seq<u8>, m: int) -> bool {
    forall|k: int|
        #![trigger split_lines(b)[k]]
        0 <= k < m ==> (forall|j: int| 0 <= j <= k ==> valid_utf8(#[trigger] strip_cr(split_lines(b)[j])))
            ==> vrt_line_safe(decode_utf8(strip_cr(split_lines(b)[k])))
}

/// Whether reading the buffer does not fail: see `vrt_buffer_safe`. Callers
/// outside the verified library test this before handing a buffer to a
/// reader.
pub fn vrt_buffer_is_safe(buffer: &[u8]) -> (r: bool)
    ensures
        r == vrt_buffer_safe(buffer@),
{
    let ghost b = buffer@;
    let n = buffer.len();
    let mut start: usize = 0;
    let ghost mut done: Seq<Seq<u8>> = Seq::empty();
    proof {
        reveal(vrt_buffer_safe);
        assert(b.subrange(0, n as int) =~= b);
        assert(done + split_lines(b) =~= split_lines(b));
    }
    while start < n
        invariant
            n == b.len(),
            b == buffer@,
            start <= n,
            split_lines(b) == done + split_lines(b.subrange(start as int, n as int)),
            valid_all(done),
            done.len() <= split_lines(b).len(),
            forall|j: int| 0 <= j < done.len() ==> split_lines(b)[j] == done[j],
            safe_prefix(b, done.len() as int),
        decreases n - start,
    {
        let end = line_end(buffer, start);
        let ghost piece = b.subrange(start as int, end as int);
        proof {
            lemma_split_advance(b, done, start as int, end as int);
        }
        let bytes = line_bytes(buffer, start, end);
        let ghost k = done.len() as int;
        match utf8_decode(bytes.as_slice()) {
            None => {
                proof {
                    reveal(vrt_buffer_safe);
                    assert forall|m: int|
                        #![trigger split_lines(b)[m]]
                        0 <= m < split_lines(b).len() && (forall|j: int| 0 <= j <= m ==> valid_utf8(#[trigger] strip_cr(split_lines(b)[j])))
                        implies vrt_line_safe(decode_utf8(strip_cr(split_lines(b)[m]))) by {
                        if m >= k {
                            assert(valid_utf8(strip_cr(split_lines(b)[k])));
                        }
                    }
                }
                return true;
            },
            Some(line) => {
                proof {
                    assert(split_lines(b)[k] == piece);
                    assert forall|j: int| 0 <= j <= k implies valid_utf8(#[trigger] strip_cr(split_lines(b)[j])) by {
                        if j < k {
                            assert(split_lines(b)[j] == done[j]);
                        }
                    }
                }
                if !vrt_line_is_safe(line.as_str()) {
                    proof {
                        reveal(vrt_buffer_safe);
                        assert(!vrt_line_safe(decode_utf8(strip_cr(split_lines(b)[k]))));
                    }
                    return false;
                }
                proof {
                    lemma_valid_push(done, piece);
                    let d2 = done.push(piece);
                    assert forall|m: int|
                        #![trigger split_lines(b)[m]]
                        0 <= m < d2.len() && (forall|j: int| 0 <= j <= m ==> valid_utf8(#[trigger] strip_cr(split_lines(b)[j])))
                        implies vrt_line_safe(decode_utf8(strip_cr(split_lines(b)[m]))) by {
                        if m < k {
                            assert(safe_prefix(b, k));
                        }
                    }
                    done = d2;
                }
                if end < n {
                    start = end + 1;
                } else {
                    start = n;
                }
            },
        }
    }
    proof {
        reveal(vrt_buffer_safe);
        lemma_split_empty(b);
        assert(split_lines(b) =~= done);
    }
    true
}

/// A line cut at its first space: (the tag before it, the rest from the space
/// on). `None` for an empty line or one without a space.
pub fn nom_vrt_line(line: &str) -> (r: Option<(String, String)>)
    ensures
        r is Some <==> line@.len() > 0 && line@.contains(' '),
        r matches Some(p) ==> p.0@ + p.1@ == line@ && !p.0@.contains(' ') && p.1@.len() > 0
            && p.1@[0] == ' ',
{
    if line.is_empty() {
        return None;
    }
    match nom_take_until_space(line) {
        Some((input, tag)) => {
            let (_remaining, rest) = nom_rest(input);
            Some((String::from_str(tag), String::from_str(rest)))
        },
        None => None,
    }
}

/// Why loading failed.
#[derive(Debug, Clone, Copy, PartialEq, Eq, Structural)]
pub enum LoadError {
    /// The buffer's format has no reader yet.
    FormatNotImplemented(LoadFormat),
    /// A line of the buffer is not valid UTF-8.
    InvalidUtf8,
}

/// The formats dictionary files come in.
#[derive(Debug, Clone, Copy, PartialEq, Eq, Structural)]
pub enum LoadFormat {
    Vrt,
    Csv,
    Json,
}

impl Default for LoadFormat {
    fn default() -> (f: Self)
        ensures
            f == LoadFormat::Vrt,
    {
        LoadFormat::Vrt
    }
}

impl LoadFormat {
    /// The (tag, text) pairs of a buffer in this format. Only `vrt` has a reader.
    pub fn load(&self, buffer: &[u8]) -> (r: Result<Vec<(String, String)>, LoadError>)
        requires
            *self == LoadFormat::Vrt ==> vrt_buffer_safe(buffer@),
        ensures
            *self != LoadFormat::Vrt ==> r == Err::<Vec<(String, String)>, LoadError>(
                LoadError::FormatNotImplemented(*self),
            ),
            *self == LoadFormat::Vrt ==> (r is Ok <==> all_lines_valid(buffer@)),
            r matches Ok(v) ==> pair_views(v@) == vrt_entries(decoded_lines(buffer@)),
            r matches Err(e) ==> *self == LoadFormat::Vrt ==> e == LoadError::InvalidUtf8,
    {
        match self {
            LoadFormat::Vrt => read_vrt(buffer),
            _ => Err(LoadError::FormatNotImplemented(*self)),
        }
    }
}

} // verus!
