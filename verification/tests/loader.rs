use local_words::languages::Language;
use local_words::loader::{archive_dir, contains_string, Loaded, Loader, LoaderContainer};
use local_words::vrt::{LoadError, LoadFormat};

#[test]
fn added_line_is_found_again() {
    let mut l = Loaded::new();
    l.add_line("greet", "Hello world", None, true);
    assert_eq!(l.get_line("greet"), Some("Hello world"));
    assert_eq!(l.get_line("other"), None);
    assert_eq!(l.len(), 1);
    assert_eq!(l.lines(), 1);
    assert_eq!(l.words(), 2);
}

#[test]
fn repeated_line_counts_once() {
    let mut l = Loaded::default();
    l.add_line("greet", "Hello world", None, true);
    l.add_line("greet", "Hello world", None, true);
    assert_eq!(l.len(), 1);
    assert_eq!(l.lines(), 2);
    assert_eq!(l.words(), 2);
    // a different text replaces the line and its words are counted too
    l.add_line("greet", "Hi", Some("context"), true);
    assert_eq!(l.get_line("greet"), Some("Hi"));
    assert_eq!(l.words(), 3);
    // not counting words
    l.add_line("bye", "Good bye now", None, false);
    assert_eq!(l.words(), 3);
    assert_eq!(l.len(), 2);
}

#[test]
fn unknown_lines_are_kept_apart() {
    let mut l = Loaded::new();
    l.add_unknown("odd", "text", None);
    l.add_unknown("odd", "other", None);
    assert_eq!(l.unknowns(), 1);
    assert_eq!(l.len(), 0);
    let u = l.all_unknowns();
    assert_eq!(u.get("odd").map(|s| s.as_str()), Some("other"));
}

#[test]
fn tags_come_sorted() {
    let mut l = Loaded::new();
    l.add_line("zeta", "z", None, true);
    l.add_line("alpha", "a", None, true);
    l.add_line("Mid", "m", None, true);
    l.add_line("alpha", "a2", None, true);
    assert_eq!(l.tags(), vec!["Mid", "alpha", "zeta"]);
}

#[test]
fn load_primary_trims_tags() {
    let l = Loaded::load_primary_language(LoadFormat::Vrt, b"b  \"Bee\"\na \"Ay\"\n").unwrap();
    assert_eq!(l.tags(), vec!["a", "b"]);
    assert_eq!(l.get_line("b"), Some("Bee"));
    assert_eq!(l.unknowns(), 0);
    assert!(matches!(
        Loaded::load_primary_language(LoadFormat::Json, b""),
        Err(LoadError::FormatNotImplemented(LoadFormat::Json))
    ));
}

#[test]
fn load_with_tags_separates_unknowns() {
    let tags = vec!["a".to_string(), "b".to_string()];
    let l = Loaded::load_with_tags(&tags, LoadFormat::Vrt, b"a \"Ah\"\nc \"Sea\"\n").unwrap();
    assert_eq!(l.len(), 1);
    assert_eq!(l.unknowns(), 1);
    assert_eq!(l.get_line("a"), Some("Ah"));
    assert_eq!(l.get_line("c"), None);
    assert!(matches!(
        Loaded::load_with_tags(&tags, LoadFormat::Vrt, b"a \"\xff\"\n"),
        Err(LoadError::InvalidUtf8)
    ));
}

#[test]
fn archive_directories() {
    assert_eq!(archive_dir("i18n/english/00-base.vrt"), Some("english".to_string()));
    assert_eq!(archive_dir("i18n/english.vrt"), Some("english.vrt".to_string()));
    assert_eq!(archive_dir("i18n/"), None);
    assert_eq!(archive_dir("other/english/x.vrt"), None);
    assert_eq!(archive_dir("./i18n/english/x.vrt"), None);
    assert_eq!(archive_dir("/i18n/english/x.vrt"), None);
    assert_eq!(archive_dir("i18n//german/x"), Some("german".to_string()));
}

#[test]
fn list_languages_of_an_archive() {
    let loader = Loader::zip_loader("/data/mod.zip".to_string());
    let listing: Vec<String> = vec![
        "i18n/",
        "i18n/english/00-base.vrt",
        "i18n/english/01-extra.vrt",
        "i18n/french/00-base.vrt",
        "i18n/klingon/00-base.vrt",
        "readme.txt",
    ]
    .into_iter()
    .map(String::from)
    .collect();
    let (langs, unused) = loader.list_languages(&listing);
    assert_eq!(langs.len(), 2);
    assert!(langs.contains(&Language::English));
    assert!(langs.contains(&Language::French));
    assert_eq!(unused, vec!["klingon"]);
}

#[test]
fn list_languages_of_a_directory() {
    let loader = Loader::dir_loader("/data/mod".to_string());
    let listing: Vec<String> = vec!["german", "notes", "chinese", "german"]
        .into_iter()
        .map(String::from)
        .collect();
    let (langs, unused) = loader.list_languages(&listing);
    assert_eq!(langs.len(), 2);
    assert!(langs.contains(&Language::German));
    assert!(langs.contains(&Language::Chinese));
    assert_eq!(unused, vec!["notes"]);
}

#[test]
fn load_directory_is_the_parent() {
    let loader = Loader::zip_loader("/data/mods/mod.zip".to_string());
    assert_eq!(loader.load_directory(), Some("/data/mods".to_string()));
}

#[test]
fn load_directory_of_plain_names() {
    let loader = Loader::zip_loader("mod.zip".to_string());
    assert_eq!(loader.load_directory(), Some(String::new()));
    let loader = Loader::dir_loader("/dictionary".to_string());
    assert_eq!(loader.load_directory(), Some("/".to_string()));
    let loader = Loader::dir_loader("data/dictionary".to_string());
    assert_eq!(loader.load_directory(), Some("data".to_string()));
}

#[test]
fn language_files() {
    let zip = LoaderContainer::ZipLoader("x.zip".to_string());
    assert_eq!(zip.language_file(Language::French), "i18n/french/00-base.vrt");
    let dir = LoaderContainer::DirLoader("x".to_string());
    assert_eq!(dir.language_file(Language::French), "french/00-base.vrt");
}

#[test]
fn contains_string_finds_equal_text() {
    let list = vec!["a".to_string(), "b".to_string()];
    assert!(contains_string(&list, &"b".to_string()));
    assert!(!contains_string(&list, &"c".to_string()));
}
