use std::collections::HashMap;
use std::io::{BufRead, BufReader, Cursor, Write};

use local_words::vrt::{
    nom_vrt_line, read_vrt, read_vrt_line, repair_vrt_line_end, vrt_buffer_is_safe,
    vrt_line_is_safe, LoadError, LoadFormat, ParseResult,
};
use zip::write::SimpleFileOptions;
use zip::{ZipArchive, ZipWriter};

fn kind(r: &ParseResult) -> &'static str {
    match r {
        ParseResult::Clean(_) => "clean",
        ParseResult::Excess(_) => "excess",
        ParseResult::NoQuote(_) => "no quote",
        ParseResult::ExtraQuote(_) => "extra quote",
    }
}

#[test]
fn repair_clean_entry() {
    let r = repair_vrt_line_end("\"Hello\"", "tag \"Hello\"");
    assert_eq!(kind(&r), "clean");
    assert_eq!(r.extract_data(), "\"Hello\"");
}

#[test]
fn repair_excess_characters() {
    let r = repair_vrt_line_end("\"Hello\";", "tag \"Hello\";");
    assert_eq!(kind(&r), "excess");
    assert_eq!(r.extract_data(), "\"Hello\"");
}

#[test]
fn repair_missing_quote() {
    let r = repair_vrt_line_end("\"Hello", "tag \"Hello");
    assert_eq!(kind(&r), "no quote");
    assert_eq!(r.extract_data(), "\"Hello\"");
}

#[test]
fn repair_extra_quote() {
    let r = repair_vrt_line_end("\"Hello\"\"", "tag \"Hello\"\"");
    assert_eq!(kind(&r), "extra quote");
    assert_eq!(r.extract_data(), "\"Hello\"");
}

#[test]
fn repair_keeps_escaped_quote() {
    let r = repair_vrt_line_end("\"say \\\"\"", "tag \"say \\\"\"");
    assert_eq!(kind(&r), "clean");
    assert_eq!(r.extract_data(), "\"say \\\"\"");
}

#[test]
fn read_one_line() {
    assert_eq!(
        read_vrt_line("greeting \"Hello world\""),
        Some(("greeting".to_string(), "Hello world".to_string()))
    );
    // escapes are decoded by the JSON reader
    assert_eq!(
        read_vrt_line("quote \"say \\\"hi\\\"\""),
        Some(("quote".to_string(), "say \"hi\"".to_string()))
    );
    // no space: no line
    assert_eq!(read_vrt_line("nothing"), None);
    // not JSON after repair
    assert_eq!(read_vrt_line("bad \"unterminated \\\""), None);
}

#[test]
fn read_whole_buffer() {
    let buffer = b"b \"Bee\"\r\na \"Ay\"\nempty\nc   \"Sea\";\n  d \"Dee\"\n";
    let lines = read_vrt(buffer).unwrap();
    assert_eq!(
        lines,
        vec![
            ("b".to_string(), "Bee".to_string()),
            ("a".to_string(), "Ay".to_string()),
            ("c".to_string(), "Sea".to_string()),
        ]
    );
}

#[test]
fn read_rejects_invalid_utf8() {
    let buffer: &[u8] = b"a \"Ay\"\n\xff\xfe \"x\"\n";
    assert!(vrt_buffer_is_safe(buffer));
    assert_eq!(read_vrt(buffer), Err(LoadError::InvalidUtf8));
    assert_eq!(LoadFormat::Vrt.load(buffer), Err(LoadError::InvalidUtf8));
}

#[test]
fn other_formats_have_no_reader() {
    assert_eq!(
        LoadFormat::Csv.load(b"a,b"),
        Err(LoadError::FormatNotImplemented(LoadFormat::Csv))
    );
    assert_eq!(
        LoadFormat::Json.load(b"{}"),
        Err(LoadError::FormatNotImplemented(LoadFormat::Json))
    );
    assert_eq!(LoadFormat::default(), LoadFormat::Vrt);
}

#[test]
fn safety_checks() {
    assert!(vrt_line_is_safe("tag \"x\""));
    assert!(vrt_line_is_safe("no-space"));
    // an entry of spaces only cannot be repaired
    assert!(!vrt_line_is_safe("tag    "));
    // an entry starting with a multi-byte character cannot be repaired
    assert!(!vrt_line_is_safe("tag é\""));
    assert!(vrt_buffer_is_safe(b"a \"x\"\nb \"y\"\n"));
    assert!(!vrt_buffer_is_safe(b"a \"x\"\nb \n"));
    assert!(vrt_buffer_is_safe(b""));
}

#[test]
fn nom_line_splits_at_first_space() {
    assert_eq!(
        nom_vrt_line("tag \"some text\""),
        Some(("tag".to_string(), " \"some text\"".to_string()))
    );
    assert_eq!(nom_vrt_line(""), None);
    assert_eq!(nom_vrt_line("nospace"), None);
}

#[test]
fn nom_vrt() {
    // A dictionary archive with an i18n/english.vrt file, read line by line.
    let mut writer = ZipWriter::new(Cursor::new(Vec::new()));
    writer
        .start_file("i18n/english.vrt", SimpleFileOptions::default())
        .unwrap();
    writer
        .write_all(b"greeting \"Hello\"\n  farewell \"Goodbye\"  \nbroken\n\n")
        .unwrap();
    let cursor = writer.finish().unwrap();
    let mut zfile = ZipArchive::new(Cursor::new(cursor.into_inner())).unwrap();
    let arc = zfile.by_name("i18n/english.vrt").unwrap();
    let buf = BufReader::new(arc);
    let mut lines = HashMap::new();
    for line in buf.lines().map_while(Result::ok) {
        if let Some((tag, value)) = nom_vrt_line(line.trim()) {
            lines.insert(tag, value);
        }
    }
    assert_eq!(lines.len(), 2);
    assert_eq!(lines.get("greeting"), Some(&" \"Hello\"".to_string()));
    assert_eq!(lines.get("farewell"), Some(&" \"Goodbye\"".to_string()));
}
