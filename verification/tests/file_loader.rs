use std::io::{Cursor, Write};

use local_words::sheet_refs::{references_fit, refs_fit_exec, value_safe_exec};
use zip::{write::SimpleFileOptions, ZipWriter};

use local_words::file_loader::{
    archive_path, read_xlsx_checked, sheet_is_readable, sheet_rows, FileLoadError, LoaderOld, XlsxCell,
    XlsxSheet,
};

fn cell(text: Option<&str>) -> XlsxCell {
    XlsxCell { used: text.is_some(), text: text.map(|t| t.to_string()) }
}

#[test]
fn csv_file_lines() {
    let l = LoaderOld::new(
        "fr.csv".to_string(),
        Some("csv"),
        b" greet , Hello\nbye,Goodbye\nlonely\n",
    )
    .unwrap();
    assert_eq!(l.filename(), "fr.csv");
    assert_eq!(l.len(), 2);
    assert_eq!(l.get_line("greet"), Some("\" Hello\""));
    assert_eq!(l.get_line("bye"), Some("\"Goodbye\""));
    assert_eq!(l.get_line("lonely"), None);
    assert_eq!(l.lines(), 2);
}

#[test]
fn csv_file_with_two_fields_everywhere() {
    let l = LoaderOld::new("fr.csv".to_string(), Some("csv"), b"a,x\nb,\"y, z\"\n").unwrap();
    assert_eq!(l.tags(), vec!["a", "b"]);
    assert_eq!(l.get_line("b"), Some("\"y, z\""));
    assert_eq!(l.words(), 3);
}

#[test]
fn csv_text_is_escaped_as_json() {
    let l = LoaderOld::new(
        "fr.csv".to_string(),
        Some("csv"),
        b"q,\"say \"\"hi\"\"\"\nt,a\tb\\c\x01\n",
    )
    .unwrap();
    assert_eq!(l.get_line("q"), Some("\"say \\\"hi\\\"\""));
    assert_eq!(l.get_line("t"), Some("\"a\\tb\\\\c\\u0001\""));
}

#[test]
fn json_file_lines_with_context() {
    let l = LoaderOld::new(
        "fr.json".to_string(),
        Some("json"),
        br#"{" a ": {"value": "Ah", "context": "greeting"}, "b": {"value": 3}}"#,
    )
    .unwrap();
    assert_eq!(l.get_line("a"), Some("Ah"));
    assert_eq!(l.get_context("a"), Some("greeting"));
    assert_eq!(l.get_line("b"), Some("3"));
    assert_eq!(l.get_context("b"), Some("null"));
    assert_eq!(l.get_context("c"), None);
    assert_eq!(l.all_context(), vec!["greeting", "null"]);
}

#[test]
fn json_file_errors() {
    assert!(matches!(
        LoaderOld::new("x.json".to_string(), Some("json"), b"{ not json"),
        Err(FileLoadError::InvalidJson)
    ));
    assert!(matches!(
        LoaderOld::new("x.json".to_string(), Some("json"), b"\xff"),
        Err(FileLoadError::InvalidUtf8)
    ));
    // a value that is no object has no entries
    let l = LoaderOld::new("x.json".to_string(), Some("json"), b"[1, 2]").unwrap();
    assert_eq!(l.len(), 0);
}

#[test]
fn vrt_file_lines() {
    let l = LoaderOld::new("en.vrt".to_string(), Some("vrt"), b"a \"Ay\"\nb \"Bee\"\n").unwrap();
    assert_eq!(l.tags(), vec!["a", "b"]);
    assert_eq!(l.get_line("b"), Some("Bee"));
    assert!(matches!(
        LoaderOld::new("en.vrt".to_string(), Some("vrt"), b"a \"\xff\"\n"),
        Err(FileLoadError::InvalidUtf8)
    ));
}

#[test]
fn extensions_decide_the_format() {
    assert!(matches!(
        LoaderOld::new("readme".to_string(), None, b""),
        Err(FileLoadError::NoExtension)
    ));
    match LoaderOld::new("notes.txt".to_string(), Some("txt"), b"") {
        Err(FileLoadError::UnknownExtension(e)) => assert_eq!(e, "txt"),
        _ => panic!("expected an unknown extension"),
    }
}

#[test]
fn lines_can_be_removed_and_copied() {
    let mut l = LoaderOld::empty("x".to_string());
    l.add_line("a", "one", Some("ctx"), true);
    l.add_empty_line();
    assert_eq!(l.lines(), 2);
    let copy = l.leftovers();
    assert_eq!(copy.len(), 1);
    assert_eq!(l.remove_line("a"), Some(("one".to_string(), Some("ctx".to_string()))));
    assert_eq!(l.remove_line("a"), None);
    assert_eq!(l.len(), 0);
    assert_eq!(copy.get("a").map(|s| s.as_str()), Some("one"));
}

#[test]
fn archive_variants() {
    let mut l = LoaderOld::empty("x".to_string());
    l.add_vrt_lines(&vec![(" t ".to_string(), "v".to_string())]);
    assert_eq!(l.get_line(" t "), Some("v"));
    l.add_xlsx_rows(&vec![("q".to_string(), "He said \"hi\"".to_string())]);
    assert_eq!(l.get_line("q"), Some("\"He said \\\"hi\\\"\""));
    assert_eq!(archive_path("dir\\sub\\file.xlsx"), "dir/sub/file.xlsx");
}

#[test]
fn spreadsheet_rows() {
    // columns A..E; text in column E (the first used column from D on is E)
    let sheet = XlsxSheet {
        start_row: 0,
        start_col: 0,
        rows: vec![
            vec![cell(Some("greet")), cell(None), cell(None), cell(None), cell(Some("Hello"))],
            vec![cell(Some("bye")), cell(None), cell(None), cell(None), cell(None)],
            vec![cell(None), cell(None), cell(None), cell(None), cell(Some("orphan"))],
        ],
    };
    assert!(sheet_is_readable(&sheet));
    assert_eq!(sheet_rows(&sheet), vec![("greet".to_string(), "Hello".to_string())]);
    // too narrow for the text column
    let narrow = XlsxSheet { start_row: 0, start_col: 0, rows: vec![vec![cell(Some("a")), cell(Some("b"))]] };
    assert!(!sheet_is_readable(&narrow));
    let empty = XlsxSheet { start_row: 0, start_col: 0, rows: vec![] };
    assert!(!sheet_is_readable(&empty));
}

#[test]
fn workbook_errors() {
    assert_eq!(read_xlsx_checked(b"not a workbook"), Err(FileLoadError::UnreadableWorkbook));
}

fn archive_of(name: &str, xml: &[u8]) -> Vec<u8> {
    let mut writer = ZipWriter::new(Cursor::new(Vec::new()));
    writer.start_file(name, SimpleFileOptions::default()).unwrap();
    writer.write_all(xml).unwrap();
    writer.finish().unwrap().into_inner()
}

#[test]
fn reference_values_the_reader_takes() {
    assert!(value_safe_exec(&b"A1:C3".to_vec()));
    assert!(value_safe_exec(&b"XFD1048576".to_vec()));
    assert!(value_safe_exec(&b"B2:B2".to_vec()));
    assert!(!value_safe_exec(&b"B5:A1".to_vec()));
    assert!(!value_safe_exec(&b"A5:B1".to_vec()));
    assert!(!value_safe_exec(&b"ABCDEFG1".to_vec()));
    assert!(!value_safe_exec(&b"A12345678901".to_vec()));
    assert!(value_safe_exec(&b"A1 B2:C3".to_vec()));
}

#[test]
fn xml_references_are_found_by_key() {
    assert!(refs_fit_exec(&b"<dimension ref=\"A1:C3\"/><c r='B2'/>".to_vec()));
    assert!(!refs_fit_exec(&b"<dimension ref = \"C3:A1\"/>".to_vec()));
    assert!(!refs_fit_exec(&b"<row r=\"123456789012\">".to_vec()));
    assert!(refs_fit_exec(&b"<x name=\"ABCDEFGHIJ\"/>".to_vec()));
}

#[test]
fn workbook_references_are_tested_before_reading() {
    let bad = archive_of("xl/worksheets/sheet1.xml", b"<worksheet><dimension ref=\"B5:A1\"/></worksheet>");
    assert!(!references_fit(&bad));
    assert_eq!(read_xlsx_checked(&bad), Err(FileLoadError::ReferenceOutOfRange));
    let utf16: Vec<u8> = "<c r=\"AAAAAAAAA1\"/>".bytes().flat_map(|b| [b, 0]).collect();
    let bad16 = archive_of("xl/worksheets/sheet1.xml", &utf16);
    assert!(!references_fit(&bad16));
    let good = archive_of("xl/worksheets/sheet1.xml", b"<worksheet><dimension ref=\"A1:B2\"/></worksheet>");
    assert!(references_fit(&good));
    assert_eq!(read_xlsx_checked(&good), Err(FileLoadError::UnreadableWorkbook));
    let mut ole = good.clone();
    ole[0] = 0xd0;
    assert!(!references_fit(&ole));
    assert_eq!(read_xlsx_checked(&ole), Err(FileLoadError::UnreadableWorkbook));
}
