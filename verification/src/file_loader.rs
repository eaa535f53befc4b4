//! Loading one language file of any format the editor reads lines from:
//! `csv`, `json` with context, `vrt`, and spreadsheets handed back by
//! translators.

use vstd::prelude::*;
use vstd::utf8::*;

use crate::externals::{
    csv_records, json_context_entries, json_string_literal, json_stringify, read_csv_records,
    read_json_context_entries, read_xlsx_sheet, utf8_decode, xlsx_first_sheet, zip_files,
};
use crate::loader::{Loaded, LoadedView, opt_str_view};
use crate::sheet_refs::{files_fit, ole_start, references_fit, xlsx_references_fit};
use crate::tags::{TagMap, opt_view, views};
use crate::text::{chars_to_string, to_chars, trim, trim_bounds};
use crate::vrt::{all_lines_valid, decoded_lines, pair_views, read_vrt, vrt_buffer_safe, vrt_entries};

verus! {

/// A cell of a spreadsheet: whether it holds anything, and its text where it
/// holds text or a number.
#[derive(Debug)]
pub struct XlsxCell {
    pub used: bool,
    pub text: Option<String>,
}

/// The used range of a sheet: where it starts in the sheet (row, column),
/// and its rows of cells.
#[derive(Debug)]
pub struct XlsxSheet {
    pub start_row: u32,
    pub start_col: u32,
    pub rows: Vec<Vec<XlsxCell>>,
}

/// What reading the first sheet of a workbook gives.
#[derive(Debug)]
pub enum XlsxRead {
    /// The bytes are no workbook.
    Unreadable,
    /// The workbook has no sheet.
    NoSheet,
    /// The first sheet's cells could not be read.
    NoRange,
    Sheet(XlsxSheet),
}

/// A cell as (used, text).
pub type CellView = (bool, Option<Seq<char>>);

pub struct XlsxSheetView {
    pub start_row: u32,
    pub start_col: u32,
    pub rows: Seq<Seq<CellView>>,
}

pub enum XlsxReadView {
    Unreadable,
    NoSheet,
    NoRange,
    Sheet(XlsxSheetView),
}

impl View for XlsxCell {
    type V = CellView;

    open spec fn view(&self) -> CellView {
        (self.used, opt_view(self.text))
    }
}

pub open spec fn row_view(r: Vec<XlsxCell>) -> Seq<CellView> {
    r@.map_values(|c: XlsxCell| c@)
}

impl View for XlsxSheet {
    type V = XlsxSheetView;

    open spec fn view(&self) -> XlsxSheetView {
        XlsxSheetView {
            start_row: self.start_row,
            start_col: self.start_col,
            rows: self.rows@.map_values(|r: Vec<XlsxCell>| row_view(r)),
        }
    }
}

impl View for XlsxRead {
    type V = XlsxReadView;

    open spec fn view(&self) -> XlsxReadView {
        match self {
            XlsxRead::Unreadable => XlsxReadView::Unreadable,
            XlsxRead::NoSheet => XlsxReadView::NoSheet,
            XlsxRead::NoRange => XlsxReadView::NoRange,
            XlsxRead::Sheet(s) => XlsxReadView::Sheet(s@),
        }
    }
}

/// The records of a `csv` read, each as its fields' text.
pub open spec fn record_views(r: Seq<Option<Vec<String>>>) -> Seq<Option<Seq<Seq<char>>>> {
    r.map_values(
        |rec: Option<Vec<String>>|
            match rec {
                Some(v) => Some(views(v@)),
                None => None,
            },
    )
}

/// Entries as (tag, text, context) by view.
pub open spec fn triple_views(v: Seq<(String, String, String)>) -> Seq<(Seq<char>, Seq<char>, Seq<char>)> {
    v.map_values(|t: (String, String, String)| (t.0@, t.1@, t.2@))
}

/// A line to add: (tag, text, context).
pub type LineToAdd = (Seq<char>, Seq<char>, Option<Seq<char>>);

/// The view after adding each line in order, counting its words.
pub open spec fn add_lines(v: LoadedView, lines: Seq<LineToAdd>) -> LoadedView
    decreases lines.len(),
{
    if lines.len() == 0 {
        v
    } else {
        let l = lines.last();
        add_lines(v, lines.drop_last()).add_line(l.0, l.1, l.2, true)
    }
}

/// The lines of `csv` records: each record of two fields gives its trimmed
/// first field as tag and its second field, quoted as JSON, as text.
pub open spec fn csv_lines(records: Seq<Option<Seq<Seq<char>>>>) -> Seq<LineToAdd>
    decreases records.len(),
{
    if records.len() == 0 {
        Seq::empty()
    } else {
        let prev = csv_lines(records.drop_last());
        match records.last() {
            Some(rec) => if rec.len() == 2 {
                prev.push((trim(rec[0]), json_string_literal(rec[1]), None))
            } else {
                prev
            },
            None => prev,
        }
    }
}

/// The lines of `json` entries: trimmed key, value and context.
pub open spec fn json_lines(entries: Seq<(Seq<char>, Seq<char>, Seq<char>)>) -> Seq<LineToAdd> {
    entries.map_values(|e: (Seq<char>, Seq<char>, Seq<char>)| (trim(e.0), e.1, Some(e.2)))
}

/// The lines of (tag, text) pairs, tags trimmed or as they are.
pub open spec fn pair_lines(pairs: Seq<(Seq<char>, Seq<char>)>, trimmed: bool) -> Seq<LineToAdd> {
    pairs.map_values(
        |p: (Seq<char>, Seq<char>)|
            (
                if trimmed {
                    trim(p.0)
                } else {
                    p.0
                },
                p.1,
                None::<Seq<char>>,
            ),
    )
}

/// The lines of spreadsheet (tag, text) rows: the text quoted as JSON.
pub open spec fn xlsx_lines(pairs: Seq<(Seq<char>, Seq<char>)>) -> Seq<LineToAdd> {
    pairs.map_values(|p: (Seq<char>, Seq<char>)| (p.0, json_string_literal(p.1), None::<Seq<char>>))
}

// -------------------
// Spreadsheets

/// The cell at a position of the sheet (row, column), where its range holds one.
pub open spec fn cell_at(sheet: XlsxSheetView, row: int, col: int) -> Option<CellView> {
    let r = row - sheet.start_row;
    let c = col - sheet.start_col;
    if 0 <= r < sheet.rows.len() && 0 <= c < sheet.rows[r].len() {
        Some(sheet.rows[r][c])
    } else {
        None
    }
}

pub open spec fn used_at(sheet: XlsxSheetView, row: int, col: int) -> bool {
    cell_at(sheet, row, col) matches Some(c) && c.0
}

/// The first used column from `col` to I (the ninth) in a row of the sheet.
pub open spec fn first_used_in_row(sheet: XlsxSheetView, row: int, col: int) -> Option<int>
    decreases 9 - col,
{
    if col > 8 || col < 0 {
        None
    } else if used_at(sheet, row, col) {
        Some(col)
    } else {
        first_used_in_row(sheet, row, col + 1)
    }
}

/// The column of the first used cell from D to I, rows `row` to `last` in order.
pub open spec fn first_used_from(sheet: XlsxSheetView, row: int, last: int) -> Option<int>
    decreases last + 1 - row,
{
    if row > last {
        None
    } else {
        match first_used_in_row(sheet, row, 3) {
            Some(c) => Some(c),
            None => first_used_from(sheet, row + 1, last),
        }
    }
}

/// The column each row's text is read from: the first used column from D to
/// I, rows taken from the first to the one numbered as the range's height,
/// less one; D where none is used.
pub open spec fn string_column(sheet: XlsxSheetView) -> int {
    let last = ((sheet.rows.len() - 1) as u32) as int;
    match first_used_from(sheet, 0, last) {
        Some(c) => c,
        None => 3,
    }
}

/// The sheet can be read: it has rows, and each reaches its text column.
pub open spec fn xlsx_readable(sheet: XlsxSheetView) -> bool {
    &&& sheet.rows.len() > 0
    &&& forall|r: int| 0 <= r < sheet.rows.len() ==> #[trigger] sheet.rows[r].len() > string_column(sheet)
}

/// The (tag, text) pairs of the sheet's rows: a row gives one where its
/// first cell and its text column both hold text.
pub open spec fn xlsx_pairs(sheet: XlsxSheetView, n: int) -> Seq<(Seq<char>, Seq<char>)>
    decreases n,
{
    if n <= 0 {
        Seq::empty()
    } else {
        let prev = xlsx_pairs(sheet, n - 1);
        let row = sheet.rows[n - 1];
        match (row[0].1, row[string_column(sheet)].1) {
            (Some(tag), Some(text)) => prev.push((tag, text)),
            _ => prev,
        }
    }
}

/// Whether a sheet cell is used, by position.
fn used_cell(sheet: &XlsxSheet, row: u64, col: u64) -> (b: bool)
    ensures
        b == used_at(sheet@, row as int, col as int),
{
    let sr = sheet.start_row as u64;
    let sc = sheet.start_col as u64;
    if row < sr || col < sc {
        return false;
    }
    let r = row - sr;
    let c = col - sc;
    if r >= sheet.rows.len() as u64 {
        return false;
    }
    let cells = &sheet.rows[r as usize];
    proof {
        assert(sheet@.rows[r as int] == row_view(*cells));
    }
    if c >= cells.len() as u64 {
        return false;
    }
    cells[c as usize].used
}

/// The column each row's text is read from: see `string_column`.
fn text_column(sheet: &XlsxSheet) -> (c: usize)
    requires
        sheet.rows.len() > 0,
    ensures
        c == string_column(sheet@),
{
    let last = (sheet.rows.len() - 1) as u32;
    let mut row: u64 = 0;
    while row <= last as u64
        invariant
            sheet.rows.len() > 0,
            last == ((sheet@.rows.len() - 1) as u32),
            row <= last as u64 + 1,
            first_used_from(sheet@, 0, last as int) == first_used_from(sheet@, row as int, last as int),
        decreases last as u64 + 1 - row,
    {
        let mut col: u64 = 3;
        while col <= 8
            invariant
                3 <= col <= 9,
                row <= last as u64,
                sheet.rows.len() > 0,
                last == ((sheet@.rows.len() - 1) as u32),
                first_used_from(sheet@, 0, last as int) == first_used_from(sheet@, row as int, last as int),
                first_used_in_row(sheet@, row as int, 3) == first_used_in_row(sheet@, row as int, col as int),
            decreases 9 - col,
        {
            if used_cell(sheet, row, col) {
                return col as usize;
            }
            col = col + 1;
        }
        proof {
            assert(first_used_in_row(sheet@, row as int, 9) is None);
        }
        row = row + 1;
    }
    3
}

/// Whether the sheet can be read: see `xlsx_readable`.
pub fn sheet_is_readable(sheet: &XlsxSheet) -> (b: bool)
    ensures
        b == xlsx_readable(sheet@),
{
    if sheet.rows.len() == 0 {
        return false;
    }
    let c = text_column(sheet);
    let mut r: usize = 0;
    while r < sheet.rows.len()
        invariant
            r <= sheet.rows.len(),
            sheet.rows.len() > 0,
            c == string_column(sheet@),
            forall|k: int| 0 <= k < r ==> #[trigger] sheet@.rows[k].len() > c,
        decreases sheet.rows.len() - r,
    {
        proof {
            assert(sheet@.rows[r as int] == row_view(sheet.rows@[r as int]));
        }
        if sheet.rows[r].len() <= c {
            return false;
        }
        r = r + 1;
    }
    true
}

/// The (tag, text) pairs of a readable sheet's rows: see `xlsx_pairs`.
pub fn sheet_rows(sheet: &XlsxSheet) -> (v: Vec<(String, String)>)
    requires
        xlsx_readable(sheet@),
    ensures
        pair_views(v@) == xlsx_pairs(sheet@, sheet@.rows.len() as int),
{
    let c = text_column(sheet);
    let mut v: Vec<(String, String)> = Vec::new();
    let mut r: usize = 0;
    while r < sheet.rows.len()
        invariant
            r <= sheet.rows.len(),
            xlsx_readable(sheet@),
            c == string_column(sheet@),
            pair_views(v@) == xlsx_pairs(sheet@, r as int),
        decreases sheet.rows.len() - r,
    {
        let row = &sheet.rows[r];
        proof {
            assert(sheet@.rows[r as int] == row_view(*row));
            assert(sheet@.rows[r as int].len() > c);
        }
        let ghost prev = v@;
        match (&row[0].text, &row[c].text) {
            (Some(tag), Some(text)) => {
                v.push((tag.clone(), text.clone()));
                proof {
                    assert(pair_views(v@) =~= pair_views(prev).push((tag@, text@)));
                }
            },
            _ => {},
        }
        r = r + 1;
    }
    v
}

/// Why a file could not be loaded.
#[derive(Debug, PartialEq, Eq)]
pub enum FileLoadError {
    /// The file name has no extension to tell its format by.
    NoExtension,
    /// The extension is none the loader reads.
    UnknownExtension(String),
    /// A `vrt` line, or a whole `json` file, is not valid UTF-8.
    InvalidUtf8,
    /// The `json` text does not parse.
    InvalidJson,
    /// The bytes are no workbook.
    UnreadableWorkbook,
    /// A row of the first sheet does not reach its text column.
    NarrowSheet,
    /// The workbook holds a cell reference or range that the spreadsheet
    /// reader cannot take.
    ReferenceOutOfRange,
}

/// What reading a workbook's first sheet gives: the (tag, text) pairs of
/// the sheet, none where it has no sheet or no cells to read.
pub open spec fn xlsx_result(bytes: Seq<u8>, r: Result<Vec<(String, String)>, FileLoadError>) -> bool {
    match xlsx_first_sheet(bytes) {
        XlsxReadView::Unreadable => r == Err::<Vec<(String, String)>, FileLoadError>(FileLoadError::UnreadableWorkbook),
        XlsxReadView::NoSheet => r matches Ok(v) && v@.len() == 0,
        XlsxReadView::NoRange => r matches Ok(v) && v@.len() == 0,
        XlsxReadView::Sheet(s) => if xlsx_readable(s) {
            r matches Ok(v) && pair_views(v@) == xlsx_pairs(s, s.rows.len() as int)
        } else {
            r == Err::<Vec<(String, String)>, FileLoadError>(FileLoadError::NarrowSheet)
        },
    }
}

/// The (tag, text) pairs of a workbook's first sheet: none where it has no
/// sheet or no cells to read. The workbook's cell references must be ones
/// the reader takes (`references_fit` tests this).
pub fn read_xlsx(bytes: &[u8]) -> (r: Result<Vec<(String, String)>, FileLoadError>)
    requires
        xlsx_references_fit(bytes@),
    ensures
        xlsx_result(bytes@, r),
{
    match read_xlsx_sheet(bytes) {
        XlsxRead::Unreadable => Err(FileLoadError::UnreadableWorkbook),
        XlsxRead::NoSheet => Ok(Vec::new()),
        XlsxRead::NoRange => Ok(Vec::new()),
        XlsxRead::Sheet(sheet) => {
            if sheet_is_readable(&sheet) {
                Ok(sheet_rows(&sheet))
            } else {
                Err(FileLoadError::NarrowSheet)
            }
        },
    }
}

/// A workbook's first sheet as `read_xlsx` reads it, once the workbook is
/// tested: bytes that start as a compound file, or whose archive does not
/// read, are no workbook, and one holding a cell reference or range the
/// reader cannot take is refused.
pub fn read_xlsx_checked(bytes: &[u8]) -> (r: Result<Vec<(String, String)>, FileLoadError>)
    ensures
        ole_start(bytes@) || zip_files(bytes@) is None ==> r == Err::<Vec<(String, String)>, FileLoadError>(
            FileLoadError::UnreadableWorkbook,
        ),
        !ole_start(bytes@) ==> (zip_files(bytes@) matches Some(fs) && !files_fit(fs) ==> r == Err::<
            Vec<(String, String)>,
            FileLoadError,
        >(FileLoadError::ReferenceOutOfRange)),
        xlsx_references_fit(bytes@) ==> xlsx_result(bytes@, r),
{
    if references_fit(bytes) {
        read_xlsx(bytes)
    } else if (bytes.len() > 0 && bytes[0] == 0xd0) || crate::externals::read_zip_files(bytes).is_none() {
        Err(FileLoadError::UnreadableWorkbook)
    } else {
        Err(FileLoadError::ReferenceOutOfRange)
    }
}

/// The name of a file inside an archive with `/` for every `\`.
pub fn archive_path(path: &str) -> (s: String)
    ensures
        s@ == path@.map_values(|c: char| if c == '\\' { '/' } else { c }),
{
    let chars = to_chars(path);
    let mut s = String::new();
    let mut i: usize = 0;
    while i < chars.len()
        invariant
            i <= chars.len(),
            chars@ == path@,
            s@ == path@.take(i as int).map_values(|c: char| if c == '\\' { '/' } else { c }),
        decreases chars.len() - i,
    {
        let c = if chars[i] == '\\' {
            '/'
        } else {
            chars[i]
        };
        crate::externals::push_char(&mut s, c);
        proof {
            assert(path@.take(i + 1) =~= path@.take(i as int).push(path@[i as int]));
            assert(path@.take(i + 1).map_values(|c: char| if c == '\\' { '/' } else { c }) =~= path@.take(
                i as int,
            ).map_values(|c: char| if c == '\\' { '/' } else { c }).push(c));
        }
        i = i + 1;
    }
    proof {
        assert(path@.take(i as int) =~= path@);
    }
    s
}

// -------------------
// One file

/// Lines to add, by view.
pub open spec fn line_views(v: Seq<(String, String, Option<String>)>) -> Seq<LineToAdd> {
    v.map_values(|t: (String, String, Option<String>)| (t.0@, t.1@, opt_view(t.2)))
}

/// The text of an optional context: empty where there is none.
pub open spec fn context_text(c: Option<Seq<char>>) -> Seq<char> {
    match c {
        Some(t) => t,
        None => Seq::empty(),
    }
}

/// The trimmed text of a string.
fn trimmed(s: &str) -> (t: String)
    ensures
        t@ == trim(s@),
{
    let chars = to_chars(s);
    let (lo, hi) = trim_bounds(&chars, 0, chars.len());
    proof {
        assert(chars@.subrange(0, chars@.len() as int) =~= chars@);
    }
    chars_to_string(&chars, lo, hi)
}

/// One language file loaded on its own: its name, and its lines by tag.
#[derive(Debug)]
pub struct LoaderOld {
    file: String,
    loaded: Loaded,
}

impl LoaderOld {
    /// The name of the file.
    pub closed spec fn file(&self) -> Seq<char> {
        self.file@
    }

    /// The lines loaded so far, by tag, with the line and word counts.
    pub closed spec fn content(&self) -> LoadedView {
        self.loaded@
    }

    /// Nothing loaded yet from `file`.
    pub fn empty(file: String) -> (l: Self)
        ensures
            l.file() == file@,
            l.content() == LoadedView::empty(),
    {
        LoaderOld { file, loaded: Loaded::new() }
    }

    /// Loads a file by its extension: `csv` records of two fields, `json`
    /// entries with a value and a context, or `vrt` lines, tags trimmed.
    /// `contents` are the file's bytes.
    pub fn new(filename: String, extension: Option<&str>, contents: &[u8]) -> (r: Result<LoaderOld, FileLoadError>)
        requires
            opt_str_view(extension) == Some("vrt"@) ==> vrt_buffer_safe(contents@),
        ensures
            extension is None ==> r == Err::<LoaderOld, FileLoadError>(FileLoadError::NoExtension),
            r matches Ok(l) ==> l.file() == filename@,
            extension matches Some(e) ==> if e@ == "csv"@ {
                r matches Ok(l) && l.content() == add_lines(LoadedView::empty(), csv_lines(csv_records(contents@)))
            } else if e@ == "json"@ {
                if !valid_utf8(contents@) {
                    r == Err::<LoaderOld, FileLoadError>(FileLoadError::InvalidUtf8)
                } else {
                    match json_context_entries(decode_utf8(contents@)) {
                        None => r == Err::<LoaderOld, FileLoadError>(FileLoadError::InvalidJson),
                        Some(es) => r matches Ok(l) && l.content() == add_lines(LoadedView::empty(), json_lines(es)),
                    }
                }
            } else if e@ == "vrt"@ {
                if all_lines_valid(contents@) {
                    r matches Ok(l) && l.content() == add_lines(
                        LoadedView::empty(),
                        pair_lines(vrt_entries(decoded_lines(contents@)), true),
                    )
                } else {
                    r == Err::<LoaderOld, FileLoadError>(FileLoadError::InvalidUtf8)
                }
            } else {
                r matches Err(FileLoadError::UnknownExtension(x)) && x@ == e@
            },
    {
        proof {
            reveal_strlit("csv");
            reveal_strlit("json");
            reveal_strlit("vrt");
        }
        let ext = match extension {
            Some(e) => e,
            None => return Err(FileLoadError::NoExtension),
        };
        let mut loader = LoaderOld::empty(filename);
        if crate::languages::string_eq(ext, "csv") {
            let lines = csv_file_lines(contents);
            loader.add_all(&lines);
            Ok(loader)
        } else if crate::languages::string_eq(ext, "json") {
            let text = match utf8_decode(contents) {
                Some(t) => t,
                None => return Err(FileLoadError::InvalidUtf8),
            };
            let entries = match read_json_context_entries(text.as_str()) {
                Some(es) => es,
                None => return Err(FileLoadError::InvalidJson),
            };
            let lines = json_file_lines(&entries);
            loader.add_all(&lines);
            Ok(loader)
        } else if crate::languages::string_eq(ext, "vrt") {
            let pairs = match read_vrt(contents) {
                Ok(p) => p,
                Err(_) => return Err(FileLoadError::InvalidUtf8),
            };
            let lines = pair_file_lines(&pairs, true);
            loader.add_all(&lines);
            Ok(loader)
        } else {
            Err(FileLoadError::UnknownExtension(String::from_str(ext)))
        }
    }

    /// Adds each (tag, text, context) line in order, counting its words.
    fn add_all(&mut self, lines: &Vec<(String, String, Option<String>)>)
        requires
            old(self).content().lines + lines.len() <= usize::MAX,
        ensures
            final(self).content() == add_lines(old(self).content(), line_views(lines@)),
            final(self).file() == old(self).file(),
    {
        let ghost start = self.content();
        let mut i: usize = 0;
        while i < lines.len()
            invariant
                i <= lines.len(),
                start.lines + lines.len() <= usize::MAX,
                self.content() == add_lines(start, line_views(lines@).take(i as int)),
                self.content().lines == start.lines + i,
                self.file() == old(self).file(),
            decreases lines.len() - i,
        {
            let (tag, text, context) = (&lines[i].0, &lines[i].1, &lines[i].2);
            let ctx = match context {
                Some(c) => Some(c.as_str()),
                None => None,
            };
            self.loaded.add_line(tag.as_str(), text.as_str(), ctx, true);
            proof {
                let lv = line_views(lines@);
                assert(lv.take(i + 1).drop_last() =~= lv.take(i as int));
                assert(lv.take(i + 1).last() == lv[i as int]);
            }
            i = i + 1;
        }
        proof {
            assert(line_views(lines@).take(i as int) =~= line_views(lines@));
        }
    }

    /// Adds a line; a later line for the same tag replaces the earlier one.
    pub fn add_line(&mut self, id: &str, text: &str, context: Option<&str>, count_words: bool)
        requires
            old(self).content().lines < usize::MAX,
        ensures
            final(self).content() == old(self).content().add_line(id@, text@, opt_str_view(context), count_words),
            final(self).file() == old(self).file(),
    {
        self.loaded.add_line(id, text, context, count_words);
    }

    /// Counts a line that held no tag.
    pub fn add_empty_line(&mut self)
        requires
            old(self).content().lines < usize::MAX,
        ensures
            final(self).content() == (LoadedView { lines: old(self).content().lines + 1, ..old(self).content() }),
            final(self).file() == old(self).file(),
    {
        self.loaded.add_empty_line();
    }

    /// Adds (tag, text) pairs read out of a `vrt` file in an archive, tags as they are.
    pub fn add_vrt_lines(&mut self, pairs: &Vec<(String, String)>)
        requires
            old(self).content().lines + pairs.len() <= usize::MAX,
        ensures
            final(self).content() == add_lines(old(self).content(), pair_lines(pair_views(pairs@), false)),
            final(self).file() == old(self).file(),
    {
        let lines = pair_file_lines(pairs, false);
        self.add_all(&lines);
    }

    /// Adds the (tag, text) rows of a spreadsheet, each text quoted as JSON.
    pub fn add_xlsx_rows(&mut self, pairs: &Vec<(String, String)>)
        requires
            old(self).content().lines + pairs.len() <= usize::MAX,
        ensures
            final(self).content() == add_lines(old(self).content(), xlsx_lines(pair_views(pairs@))),
            final(self).file() == old(self).file(),
    {
        let lines = xlsx_file_lines(pairs);
        self.add_all(&lines);
    }

    /// The name of the file.
    pub fn filename(&self) -> (s: &str)
        ensures
            s@ == self.file(),
    {
        self.file.as_str()
    }

    /// The number of tags.
    pub fn len(&self) -> (n: usize)
        ensures
            self.content().tags.dom().finite(),
            n == self.content().tags.dom().len(),
    {
        self.loaded.len()
    }

    /// The number of lines added.
    pub fn lines(&self) -> (n: usize)
        ensures
            n == self.content().lines,
    {
        self.loaded.lines()
    }

    /// The running word count.
    pub fn words(&self) -> (n: usize)
        ensures
            n == self.content().words,
    {
        self.loaded.words()
    }

    /// The text of a tag.
    pub fn get_line(&self, tag: &str) -> (r: Option<&str>)
        ensures
            r matches Some(s) ==> self.content().tags.contains_key(tag@) && self.content().tags[tag@].0 == s@,
            r is None ==> !self.content().tags.contains_key(tag@),
    {
        self.loaded.get_line(tag)
    }

    /// The context of a tag: empty where the line has none.
    pub fn get_context(&self, tag: &str) -> (r: Option<&str>)
        ensures
            r matches Some(s) ==> self.content().tags.contains_key(tag@) && context_text(self.content().tags[tag@].1) == s@,
            r is None ==> !self.content().tags.contains_key(tag@),
    {
        match self.loaded.get_entry(tag) {
            Some(e) => match &e.context {
                Some(c) => Some(c.as_str()),
                None => {
                    proof {
                        reveal_strlit("");
                    }
                    Some("")
                },
            },
            None => None,
        }
    }

    /// Takes a tag and its line out of the file's lines.
    pub fn remove_line(&mut self, tag: &str) -> (r: Option<(String, Option<String>)>)
        ensures
            final(self).content() == (LoadedView { tags: old(self).content().tags.remove(tag@), ..old(self).content() }),
            r matches Some(p) ==> old(self).content().tags.contains_key(tag@) && old(self).content().tags[tag@] == (
                p.0@,
                opt_view(p.1),
            ),
            r is None ==> !old(self).content().tags.contains_key(tag@),
            final(self).file() == old(self).file(),
    {
        self.loaded.remove_line(tag)
    }

    /// The tags, sorted.
    pub fn tags(&self) -> (v: Vec<String>)
        ensures
            v.len() == self.content().tags.dom().len(),
            views(v@).to_set() == self.content().tags.dom(),
            crate::tags::sorted_strictly(views(v@)),
    {
        self.loaded.tags()
    }

    /// The context of every tag, in the order of `tags`: empty where a line
    /// has none.
    pub fn all_context(&self) -> (v: Vec<String>)
        ensures
            exists|order: Seq<Seq<char>>|
                {
                    &&& crate::tags::sorted_strictly(order)
                    &&& order.to_set() == self.content().tags.dom()
                    &&& order.len() == v.len()
                    &&& forall|i: int| 0 <= i < v.len() ==> #[trigger] v@[i]@ == context_text(
                        self.content().tags[order[i]].1,
                    )
                },
    {
        let tags = self.loaded.tags();
        let mut v: Vec<String> = Vec::new();
        let mut i: usize = 0;
        while i < tags.len()
            invariant
                i <= tags.len(),
                v.len() == i,
                views(tags@).to_set() == self.content().tags.dom(),
                forall|k: int| 0 <= k < i ==> #[trigger] v@[k]@ == context_text(self.content().tags[tags@[k]@].1),
            decreases tags.len() - i,
        {
            proof {
                assert(views(tags@)[i as int] == tags@[i as int]@);
                assert(views(tags@).contains(tags@[i as int]@));
                assert(views(tags@).to_set().contains(tags@[i as int]@));
            }
            match self.loaded.get_entry(tags[i].as_str()) {
                Some(e) => {
                    let c = match &e.context {
                        Some(c) => c.clone(),
                        None => String::new(),
                    };
                    v.push(c);
                },
                None => {
                    proof {
                        assert(false);
                    }
                },
            }
            i = i + 1;
        }
        proof {
            let order = views(tags@);
            assert forall|k: int| 0 <= k < v.len() implies #[trigger] v@[k]@ == context_text(self.content().tags[order[k]].1) by {
                assert(order[k] == tags@[k]@);
            }
        }
        v
    }

    /// A copy of the lines, by tag.
    pub fn leftovers(&self) -> (m: TagMap)
        ensures
            m.wf(),
            m@ == self.content().tags,
    {
        self.loaded.all_lines()
    }
}

/// The lines of a `csv` file's records.
fn csv_file_lines(contents: &[u8]) -> (v: Vec<(String, String, Option<String>)>)
    ensures
        line_views(v@) == csv_lines(csv_records(contents@)),
        v.len() <= usize::MAX,
{
    let records = read_csv_records(contents);
    let ghost rv = record_views(records@);
    let mut v: Vec<(String, String, Option<String>)> = Vec::new();
    let mut i: usize = 0;
    while i < records.len()
        invariant
            i <= records.len(),
            rv == record_views(records@),
            line_views(v@) == csv_lines(rv.take(i as int)),
        decreases records.len() - i,
    {
        let ghost prev = v@;
        proof {
            assert(rv.take(i + 1).drop_last() =~= rv.take(i as int));
            assert(rv.take(i + 1).last() == rv[i as int]);
        }
        match &records[i] {
            Some(rec) => {
                if rec.len() == 2 {
                    let tag = trimmed(rec[0].as_str());
                    let text = json_stringify(rec[1].as_str());
                    v.push((tag, text, None));
                    proof {
                        assert(line_views(v@) =~= line_views(prev).push((trim(rec@[0]@), json_string_literal(rec@[1]@), None)));
                    }
                }
            },
            None => {},
        }
        i = i + 1;
    }
    proof {
        assert(rv.take(i as int) =~= rv);
    }
    v
}

/// The lines of a `json` file's entries.
fn json_file_lines(entries: &Vec<(String, String, String)>) -> (v: Vec<(String, String, Option<String>)>)
    ensures
        line_views(v@) == json_lines(triple_views(entries@)),
        v.len() == entries.len(),
{
    let mut v: Vec<(String, String, Option<String>)> = Vec::new();
    let mut i: usize = 0;
    while i < entries.len()
        invariant
            i <= entries.len(),
            v.len() == i,
            line_views(v@) == json_lines(triple_views(entries@)).take(i as int),
        decreases entries.len() - i,
    {
        let ghost prev = v@;
        let tag = trimmed(entries[i].0.as_str());
        v.push((tag, entries[i].1.clone(), Some(entries[i].2.clone())));
        proof {
            assert(line_views(v@) =~= json_lines(triple_views(entries@)).take(i + 1));
        }
        i = i + 1;
    }
    proof {
        assert(json_lines(triple_views(entries@)).take(i as int) =~= json_lines(triple_views(entries@)));
    }
    v
}

/// The lines of (tag, text) pairs, tags trimmed or as they are.
fn pair_file_lines(pairs: &Vec<(String, String)>, trim_tags: bool) -> (v: Vec<(String, String, Option<String>)>)
    ensures
        line_views(v@) == pair_lines(pair_views(pairs@), trim_tags),
        v.len() == pairs.len(),
{
    let mut v: Vec<(String, String, Option<String>)> = Vec::new();
    let mut i: usize = 0;
    while i < pairs.len()
        invariant
            i <= pairs.len(),
            v.len() == i,
            line_views(v@) == pair_lines(pair_views(pairs@), trim_tags).take(i as int),
        decreases pairs.len() - i,
    {
        let tag = if trim_tags {
            trimmed(pairs[i].0.as_str())
        } else {
            pairs[i].0.clone()
        };
        v.push((tag, pairs[i].1.clone(), None));
        proof {
            assert(line_views(v@) =~= pair_lines(pair_views(pairs@), trim_tags).take(i + 1));
        }
        i = i + 1;
    }
    proof {
        assert(pair_lines(pair_views(pairs@), trim_tags).take(i as int) =~= pair_lines(pair_views(pairs@), trim_tags));
    }
    v
}

/// The lines of spreadsheet rows: each text quoted as JSON.
fn xlsx_file_lines(pairs: &Vec<(String, String)>) -> (v: Vec<(String, String, Option<String>)>)
    ensures
        line_views(v@) == xlsx_lines(pair_views(pairs@)),
        v.len() == pairs.len(),
{
    let mut v: Vec<(String, String, Option<String>)> = Vec::new();
    let mut i: usize = 0;
    while i < pairs.len()
        invariant
            i <= pairs.len(),
            v.len() == i,
            line_views(v@) == xlsx_lines(pair_views(pairs@)).take(i as int),
        decreases pairs.len() - i,
    {
        let text = json_stringify(pairs[i].1.as_str());
        v.push((pairs[i].0.clone(), text, None));
        proof {
            assert(line_views(v@) =~= xlsx_lines(pair_views(pairs@)).take(i + 1));
        }
        i = i + 1;
    }
    proof {
        assert(xlsx_lines(pair_views(pairs@)).take(i as int) =~= xlsx_lines(pair_views(pairs@)));
    }
    v
}

} // verus!
