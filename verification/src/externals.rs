//! The calls this library makes into std functions that vstd does not specify
//! and into the outside crates it uses. Each item states what its callee does;
//! Verus believes these contracts, so each is kept to what the callee's
//! documentation or source shows.

use vstd::prelude::*;
use vstd::utf8::*;
use calamine::{DataType, ReaderRef};
use nom::Parser;

use crate::file_loader::{XlsxCell, XlsxRead, XlsxReadView, XlsxSheet, record_views, triple_views};
use crate::text::decimal;

verus! {

/// `String::push`: appends one character to the end of the string.
#[verifier::external_body]
pub(crate) fn push_char(s: &mut String, c: char)
    ensures
        final(s)@ == old(s)@.push(c),
{
    s.push(c);
}

/// `std::str::from_utf8`: succeeds exactly on valid UTF-8 and yields the
/// decoded characters.
#[verifier::external_body]
pub(crate) fn utf8_decode(bytes: &[u8]) -> (r: Option<String>)
    ensures
        r is Some <==> valid_utf8(bytes@),
        r matches Some(s) ==> s@ == decode_utf8(bytes@),
{
    match std::str::from_utf8(bytes) {
        Ok(s) => Some(s.to_string()),
        Err(_) => None,
    }
}

/// What `json::parse` followed by the parsed value's `Display` yields for a
/// source text: `None` where the text is not JSON.
pub uninterp spec fn json_text(source: Seq<char>) -> Option<Seq<char>>;

/// `json::parse(source)` and, on success, the parsed value's `to_string()`
/// (a string value displays without its quotes). The result is named by
/// `json_text`; nothing more is claimed of the JSON grammar.
#[verifier::external_body]
pub(crate) fn json_parse_text(source: &str) -> (r: Option<String>)
    ensures
        r matches Some(s) ==> json_text(source@) == Some(s@),
        r is None ==> json_text(source@) is None,
{
    match json::parse(source) {
        Ok(value) => Some(value.to_string()),
        Err(_) => None,
    }
}

/// The number of words that `words_count::count` finds in a text.
pub uninterp spec fn word_count(text: Seq<char>) -> nat;

/// `words_count::count(text).words`. The count is named by `word_count`;
/// the source counts each word at one of its own characters, so it never
/// exceeds the number of characters.
#[verifier::external_body]
pub(crate) fn count_words(text: &str) -> (n: usize)
    ensures
        n == word_count(text@),
        n <= text@.len(),
{
    words_count::count(text).words
}

/// `nom::bytes::complete::take_until(" ")` applied to `line`: on success the
/// pair (rest, taken), where `taken` is everything before the first space and
/// `rest` starts at that space; an error where `line` holds no space.
#[verifier::external_body]
pub(crate) fn nom_take_until_space(line: &str) -> (r: Option<(&str, &str)>)
    ensures
        r is None <==> !line@.contains(' '),
        r matches Some((rest, taken)) ==> {
            &&& taken@ + rest@ == line@
            &&& !taken@.contains(' ')
            &&& rest@.len() > 0
            &&& rest@[0] == ' '
        },
{
    match nom::bytes::complete::take_until::<_, _, nom::error::Error<&str>>(" ").parse(line) {
        Ok((rest, taken)) => Some((rest, taken)),
        Err(_) => None,
    }
}

/// `nom::combinator::rest`: always succeeds with (empty remainder, whole input).
#[verifier::external_body]
pub(crate) fn nom_rest(input: &str) -> (r: (&str, &str))
    ensures
        r.0@ == Seq::<char>::empty(),
        r.1@ == input@,
{
    match nom::combinator::rest::<_, nom::error::Error<&str>>(input) {
        Ok((remaining, taken)) => (remaining, taken),
        Err(_) => (input, input),
    }
}

/// The text `versions::SemVer` displays for a version with no pre-release
/// and no metadata: `major.minor.patch` in decimal.
#[verifier::external_body]
pub(crate) fn semver_text(major: u32, minor: u32, patch: u32) -> (s: String)
    ensures
        s@ == decimal(major as nat) + seq!['.'] + decimal(minor as nat) + seq!['.'] + decimal(
            patch as nat,
        ),
{
    versions::SemVer { major, minor, patch, pre_rel: None, meta: None }.to_string()
}

/// `Path::parent` on the path `path`, as a string: the path without its
/// final component. The parent is a leading part of the path; the empty
/// path and the root `/` have none. For a path made of plain names (`plain_parent`), such as
/// `foo`, `/foo` or `/foo/bar`, it is the path without its last name: `""`,
/// `/` and `/foo`, as the documentation's examples show. Of other paths,
/// whose parent depends on the platform's separators and prefixes, nothing
/// more is claimed.
#[verifier::external_body]
pub(crate) fn path_parent(path: &str) -> (r: Option<String>)
    ensures
        r matches Some(p) ==> p@.len() <= path@.len() && p@ == path@.subrange(0, p@.len() as int),
        path@.len() == 0 ==> r is None,
        path@ == seq!['/'] ==> r is None,
        crate::loader::plain_parent(path@) matches Some(q) ==> r is Some && r->0@ == q,
{
    std::path::Path::new(path).parent().map(|p| p.to_string_lossy().to_string())
}

/// The records that `csv`'s reader, built with no header row, reads from
/// a buffer, in order: each as its fields, or `None` where the reader
/// reported an error for it.
pub uninterp spec fn csv_records(bytes: Seq<u8>) -> Seq<Option<Seq<Seq<char>>>>;

/// `csv::ReaderBuilder::new().has_headers(false).from_reader(bytes)` and
/// every item of its `records()`, each record's fields as strings. What
/// comes out is named by `csv_records`.
#[verifier::external_body]
pub(crate) fn read_csv_records(bytes: &[u8]) -> (r: Vec<Option<Vec<String>>>)
    ensures
        record_views(r@) == csv_records(bytes@),
{
    let mut reader = csv::ReaderBuilder::new().has_headers(false).from_reader(bytes);
    reader.records().map(|res| res.ok().map(|rec| rec.iter().map(|f| f.to_string()).collect())).collect()
}

/// A lower-case hexadecimal digit.
pub open spec fn hex_digit(d: int) -> char {
    if d < 10 {
        ((48 + d) as u32) as char
    } else {
        ((87 + d) as u32) as char
    }
}

/// How `json`'s generator writes one character inside a string: a quote,
/// backslash and the control characters with a short escape are escaped
/// with a backslash; the other control characters as `\u00` and two
/// hexadecimal digits; every other character as itself.
pub open spec fn json_escaped_char(c: char) -> Seq<char> {
    let u = c as u32;
    if c == '"' {
        seq!['\\', '"']
    } else if c == '\\' {
        seq!['\\', '\\']
    } else if u == 0x08 {
        seq!['\\', 'b']
    } else if u == 0x09 {
        seq!['\\', 't']
    } else if u == 0x0a {
        seq!['\\', 'n']
    } else if u == 0x0c {
        seq!['\\', 'f']
    } else if u == 0x0d {
        seq!['\\', 'r']
    } else if u < 0x20 {
        seq!['\\', 'u', '0', '0', hex_digit(u as int / 16), hex_digit(u as int % 16)]
    } else {
        seq![c]
    }
}

/// The characters of a string, each as `json_escaped_char` writes it.
pub open spec fn json_escaped(text: Seq<char>) -> Seq<char>
    decreases text.len(),
{
    if text.len() == 0 {
        Seq::empty()
    } else {
        json_escaped(text.drop_last()) + json_escaped_char(text.last())
    }
}

/// What `json::stringify` makes of a string: the string as a JSON string,
/// between quotes and with its characters escaped.
pub open spec fn json_string_literal(text: Seq<char>) -> Seq<char> {
    seq!['"'] + json_escaped(text) + seq!['"']
}

/// `json::stringify(text)`: the string value's `dump`, which writes it as
/// `json_string_literal` says.
#[verifier::external_body]
pub(crate) fn json_stringify(text: &str) -> (s: String)
    ensures
        s@ == json_string_literal(text@),
{
    json::stringify(text)
}

/// The entries of a JSON text's top value as (key, its `value` member, its
/// `context` member), the members as their `to_string()` shows them; none
/// for a top value that is no object; `None` where the text is not JSON.
pub uninterp spec fn json_context_entries(text: Seq<char>) -> Option<Seq<(Seq<char>, Seq<char>, Seq<char>)>>;

/// `json::parse(text)` and, on success, the parsed value's `entries()`,
/// each as (key, `value["value"].to_string()`, `value["context"].to_string()`).
/// What comes out is named by `json_context_entries`.
#[verifier::external_body]
pub(crate) fn read_json_context_entries(text: &str) -> (r: Option<Vec<(String, String, String)>>)
    ensures
        r is None <==> json_context_entries(text@) is None,
        r matches Some(v) ==> json_context_entries(text@) == Some(triple_views(v@)),
{
    json::parse(text).ok().map(|parsed| {
        parsed.entries().map(|(k, v)| (k.to_string(), v["value"].to_string(), v["context"].to_string())).collect()
    })
}

/// The contents of every file of a zip archive, in the archive's order;
/// `None` where the archive, or one of its files, does not read.
pub uninterp spec fn zip_files(bytes: Seq<u8>) -> Option<Seq<Seq<u8>>>;

/// `zip::ZipArchive::new` on the bytes, then each file by its index, read
/// to its end. Named by `zip_files`.
#[verifier::external_body]
pub(crate) fn read_zip_files(bytes: &[u8]) -> (r: Option<Vec<Vec<u8>>>)
    ensures
        r matches Some(v) ==> zip_files(bytes@) == Some(v@.map_values(|f: Vec<u8>| f@)),
        r is None ==> zip_files(bytes@) is None,
{
    let mut archive = zip::ZipArchive::new(std::io::Cursor::new(bytes)).ok()?;
    let mut files = Vec::new();
    for i in 0..archive.len() {
        let mut data = Vec::new();
        std::io::Read::read_to_end(&mut archive.by_index(i).ok()?, &mut data).ok()?;
        files.push(data);
    }
    Some(files)
}

/// What `calamine` reads of a workbook's first sheet.
pub uninterp spec fn xlsx_first_sheet(bytes: Seq<u8>) -> XlsxReadView;

/// `calamine::open_workbook_from_rs` as an `Xlsx` workbook and its
/// `worksheet_range_at_ref(0)`: the range's start and its rows, each cell as
/// whether it is not empty and its `as_string()`. Named by `xlsx_first_sheet`.
///
/// calamine computes cell positions from the cell references of the sheet's
/// XML (the `dimension`'s `ref`, each row's and cell's `r`) with unchecked
/// `u32` arithmetic, which overflows on a column name or a row number too
/// long for a `u32` and on a range written backwards; where overflow checks
/// are on, the call then panics. `requires` leaves out every workbook whose
/// archive holds such a reference in any of its files (`xlsx_references_fit`,
/// which reads every `r` and `ref` value, as UTF-8 and as UTF-16 text), and
/// bytes that start as a compound file, which calamine would first parse as
/// one to look for encryption.
/// What a sheet whose cells span a very large area needs in memory depends
/// on the machine, and is not stated.
#[verifier::external_body]
pub(crate) fn read_xlsx_sheet(bytes: &[u8]) -> (r: XlsxRead)
    requires
        crate::sheet_refs::xlsx_references_fit(bytes@),
    ensures
        r@ == xlsx_first_sheet(bytes@),
{
    let Ok(mut book) = calamine::open_workbook_from_rs::<calamine::Xlsx<_>, _>(std::io::Cursor::new(bytes.to_vec())) else {
        return XlsxRead::Unreadable;
    };
    match book.worksheet_range_at_ref(0) {
        None => XlsxRead::NoSheet,
        Some(Err(_)) => XlsxRead::NoRange,
        Some(Ok(range)) => XlsxRead::Sheet(XlsxSheet {
            start_row: range.start().map_or(0, |s| s.0),
            start_col: range.start().map_or(0, |s| s.1),
            rows: range.rows().map(|r| r.iter().map(|c| XlsxCell { used: !c.is_empty(), text: c.as_string() }).collect()).collect(),
        }),
    }
}

} // verus!
