use local_words::dictionary::{ContentType, UpdateReplace};
use local_words::languages::Language;
use local_words::loader::Loaded;
use local_words::translation::{contains_index, position_of, string_if_non_zero, LineData, Translation};
use local_words::vrt::LoadFormat;

fn tags(v: &[&str]) -> Vec<String> {
    v.iter().map(|s| s.to_string()).collect()
}

#[test]
fn line_data_shows_modification() {
    let mut l = LineData::new("Hello".to_string());
    assert_eq!(l.base_line(), "Hello");
    assert_eq!(l.current_line(), ("Hello", ContentType::Master));
    l.replace_modified(Some("Hi".to_string()));
    assert_eq!(l.current_line(), ("Hi", ContentType::InProgress));
    assert_eq!(l.base_line(), "Hello");
    // a modification equal to the main line is no modification
    l.replace_modified(Some("Hello".to_string()));
    assert_eq!(l.current_line(), ("Hello", ContentType::Master));
    l.replace_modified(Some("Hey".to_string()));
    l.replace_modified(None);
    assert_eq!(l.current_line(), ("Hello", ContentType::Master));
    l.replace_modified(Some(String::new()));
    assert!(l.is_empty());
    l.replace_main("New".to_string());
    assert_eq!(l.current_line(), ("New", ContentType::Master));
    assert!(!l.is_empty());
    assert!(LineData::default().is_empty());
}

#[test]
fn translation_from_loaded_lines() {
    let loaded =
        Loaded::load_with_tags(&tags(&["a", "b", "c"]), LoadFormat::Vrt, b"a \"Ah\"\nc \"Sea\"\nz \"Zed\"\n")
            .unwrap();
    let t = Translation::from_loaded(&loaded, Language::French, &tags(&["a", "b", "c"]));
    assert_eq!(*t.language(), Language::French);
    assert_eq!(t.lines().len(), 3);
    assert_eq!(t.line(0), ("Ah", ContentType::Master));
    assert_eq!(t.line(1), ("", ContentType::Master));
    assert_eq!(t.line(2), ("Sea", ContentType::Master));
    assert_eq!(t.line(3), ("", ContentType::Master));
    assert_eq!(t.missing_lines(), &vec![1]);
    assert_eq!(t.overview_counts(), (2, 1, 1));
    assert_eq!(t.current_lines(), vec!["Ah", "", "Sea"]);
}

#[test]
fn overview_string_joins_phrases() {
    let all = tags(&["a", "b"]);
    let loaded = Loaded::load_with_tags(&all, LoadFormat::Vrt, b"a \"Ah\"\nb \"Bee\"\n").unwrap();
    let t = Translation::from_loaded(&loaded, Language::German, &all);
    assert_eq!(t.overview_string("Deutsch: 2 lines", "x extra", "y missing"), "Deutsch: 2 lines");
    let loaded = Loaded::load_with_tags(&all, LoadFormat::Vrt, b"a \"Ah\"\nq \"Q\"\n").unwrap();
    let t = Translation::from_loaded(&loaded, Language::German, &all);
    assert_eq!(
        t.overview_string("Deutsch: 1 lines", "1 extra", "1 missing"),
        "Deutsch: 1 lines, 1 extra, 1 missing"
    );
}

#[test]
fn update_makes_modifications() {
    let all = tags(&["a", "b"]);
    let first = Loaded::load_with_tags(&all, LoadFormat::Vrt, b"a \"Ah\"\nb \"Bee\"\n").unwrap();
    let mut t = Translation::from_loaded(&first, Language::French, &all);
    let second = Loaded::load_with_tags(&all, LoadFormat::Vrt, b"a \"Aah\"\nb \"Bee\"\n").unwrap();
    t.update_from_loaded(&second, &all, UpdateReplace::Update);
    assert_eq!(t.line(0), ("Aah", ContentType::InProgress));
    assert_eq!(t.lines()[0].base_line(), "Ah");
    assert_eq!(t.line(1), ("Bee", ContentType::Master));
}

#[test]
fn replace_takes_new_lines() {
    let all = tags(&["a", "b", "c"]);
    let first = Loaded::load_with_tags(&all, LoadFormat::Vrt, b"b \"Bee\"\n").unwrap();
    let mut t = Translation::from_loaded(&first, Language::French, &all);
    assert_eq!(t.missing_lines(), &vec![0, 2]);
    let second = Loaded::load_with_tags(&all, LoadFormat::Vrt, b"a \"Aah\"\n").unwrap();
    t.update_from_loaded(&second, &all, UpdateReplace::Replace);
    assert_eq!(t.line(0), ("Aah", ContentType::Master));
    assert_eq!(t.line(1), ("Bee", ContentType::Master));
    assert_eq!(t.line(2), ("", ContentType::Master));
    assert_eq!(t.missing_lines(), &vec![2]);
}

#[test]
fn duplicate_is_equal() {
    let all = tags(&["a"]);
    let loaded = Loaded::load_with_tags(&all, LoadFormat::Vrt, b"a \"Ah\"\n").unwrap();
    let t = Translation::from_loaded(&loaded, Language::Chinese, &all);
    let d = t.duplicate();
    assert_eq!(d.line(0), t.line(0));
    assert_eq!(*d.language(), Language::Chinese);
}

#[test]
fn counts_as_text() {
    assert_eq!(string_if_non_zero(0), "");
    assert_eq!(string_if_non_zero(7), "7");
    assert_eq!(string_if_non_zero(1234), "1234");
    assert!(contains_index(&vec![3, 5], 5));
    assert!(!contains_index(&vec![3, 5], 4));
}

#[test]
fn replace_drops_found_positions_by_value() {
    let all = tags(&["a", "b", "c"]);
    let first = Loaded::load_with_tags(&all, LoadFormat::Vrt, b"a \"Ah\"\n").unwrap();
    let mut t = Translation::from_loaded(&first, Language::French, &all);
    assert_eq!(t.missing_lines(), &vec![1, 2]);
    let second = Loaded::load_with_tags(&all, LoadFormat::Vrt, b"b \"Bee\"\n").unwrap();
    t.update_from_loaded(&second, &all, UpdateReplace::Replace);
    assert_eq!(t.missing_lines(), &vec![2]);
    assert_eq!(t.line(1), ("Bee", ContentType::Master));
}

#[test]
fn position_of_finds_first() {
    assert_eq!(position_of(&vec![4, 7, 7], 7), Some(1));
    assert_eq!(position_of(&vec![4, 7], 5), None);
}
