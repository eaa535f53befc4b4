use local_words::dictionary::{
    set_extension, ContentType, ContentVersions, Dictionary, DictionaryState, DictionaryVersion,
    LanguageType, Location, LocationPaths, ShowState,
};
use local_words::languages::{Language, LanguageNames};
use local_words::loader::Loaded;
use local_words::translation::Translation;
use local_words::vrt::{LoadError, LoadFormat};

fn names() -> LanguageNames {
    LanguageNames {
        names: [
            "English".to_string(),
            "French".to_string(),
            "German".to_string(),
            "Chinese".to_string(),
            "Portuguese".to_string(),
        ],
    }
}

fn dictionary() -> Dictionary {
    Dictionary::new(
        Language::English,
        b"b \"Bee\"\na \"Ay\"\nc \"Sea\"\n",
        &names(),
        "initial version".to_string(),
    )
    .unwrap()
}

#[test]
fn new_dictionary_from_primary_buffer() {
    let d = dictionary();
    assert_eq!(d.tags(), &vec!["a", "b", "c"]);
    assert_eq!(d.number_tags(), 3);
    assert_eq!(d.master_line(0), ("Ay", ContentType::Master));
    assert_eq!(d.master_line(1), ("Bee", ContentType::Master));
    assert_eq!(d.master_line(9), ("", ContentType::Master));
    assert!(d.master_translation().missing_lines().is_empty());
    assert_eq!(d.current_state(), DictionaryState::Overview);
    assert_eq!(d.selected_tag(), 0);
    // the other languages in name order; the first is selected
    assert_eq!(d.selected_translation(), Language::Chinese);
    assert_eq!(d.translation_page(), DictionaryState::Translation(Language::Chinese));
    let offered: Vec<usize> = d.translation_list().iter().map(|(i, _)| *i).collect();
    assert_eq!(offered, vec![3, 1, 2, 4]);
    assert_eq!(d.selected_position(), 0);
    assert_eq!(d.export_options(), (false, false, false));
    assert_eq!(d.master_language_name(&names()), "English");
    assert!(d.translations().is_empty());
    assert!(d.external_translations_empty());
    assert_eq!(
        d.versions().to_text("Core", "Work"),
        "Core: 1.0.0 (initial version), Work: 1.0.0 (initial version)"
    );
}

#[test]
fn new_dictionary_refuses_invalid_utf8() {
    let r = Dictionary::new(Language::English, b"a \"\xff\"\n", &names(), String::new());
    assert!(matches!(r, Err(LoadError::InvalidUtf8)));
}

#[test]
fn loading_translations() {
    let mut d = dictionary();
    d.load_translation(Language::French, b"a \"Ah\"\nz \"Zed\"\n", LanguageType::Internal).unwrap();
    assert_eq!(d.translation_line(Language::French, 0), ("Ah", ContentType::Master));
    assert_eq!(d.translation_line(Language::French, 1), ("", ContentType::Master));
    assert_eq!(d.missing_lines(Some(Language::French)), vec![1, 2]);
    assert_eq!(d.missing_lines(None), Vec::<usize>::new());
    // no translation held: a space is shown
    assert_eq!(d.translation_line(Language::German, 0), (" ", ContentType::Master));
    assert_eq!(d.missing_lines(Some(Language::German)), Vec::<usize>::new());
    // the primary language shows its own lines
    assert_eq!(d.translation_line(Language::English, 1), ("Bee", ContentType::Master));
    // a second load under the same language and kind keeps the first
    d.load_translation(Language::French, b"a \"Other\"\n", LanguageType::Internal).unwrap();
    assert_eq!(d.translation_line(Language::French, 0), ("Ah", ContentType::Master));
    // a load under a greater kind is shown instead
    d.load_translation(Language::French, b"a \"Ext\"\n", LanguageType::External).unwrap();
    assert_eq!(d.translation_line(Language::French, 0), ("Ext", ContentType::Master));
    assert!(!d.external_translations_empty());
    let ts = d.translations();
    assert_eq!(ts.len(), 1);
    assert_eq!(*ts[0].language(), Language::French);
    // the tags and primary lines never change
    assert_eq!(d.tags(), &vec!["a", "b", "c"]);
    assert_eq!(d.master_line(0), ("Ay", ContentType::Master));
}

#[test]
fn load_translation_failure_changes_nothing() {
    let mut d = dictionary();
    let r = d.load_translation(Language::German, b"a \"\xfe\"\n", LanguageType::Internal);
    assert_eq!(r, Err(LoadError::InvalidUtf8));
    assert!(d.translations().is_empty());
}

#[test]
fn translations_sorted_by_name() {
    let mut d = dictionary();
    d.load_translation(Language::PortugueseBr, b"a \"P\"\n", LanguageType::Internal).unwrap();
    d.load_translation(Language::German, b"a \"G\"\n", LanguageType::Internal).unwrap();
    d.load_translation(Language::Chinese, b"a \"C\"\n", LanguageType::InProgress).unwrap();
    let order: Vec<Language> = d.translations_by_name(&names()).iter().map(|t| *t.language()).collect();
    assert_eq!(order, vec![Language::Chinese, Language::German, Language::PortugueseBr]);
}

#[test]
fn external_translations_added() {
    let mut d = dictionary();
    let tags = d.tags().clone();
    let loaded = Loaded::load_with_tags(&tags, LoadFormat::Vrt, b"b \"Bi\"\n").unwrap();
    let t = Translation::from_loaded(&loaded, Language::German, &tags);
    let t2 = t.duplicate();
    d.add_translations(vec![t, t2]);
    assert_eq!(d.translation_line(Language::German, 1), ("Bi", ContentType::Master));
    assert!(!d.external_translations_empty());
    assert_eq!(d.translations().len(), 1);
}

#[test]
fn external_primary_translation_does_not_count() {
    let mut d = dictionary();
    d.load_translation(Language::English, b"a \"Other\"\n", LanguageType::External).unwrap();
    assert!(d.external_translations_empty());
    // the primary language still shows its own lines
    assert_eq!(d.translation_line(Language::English, 0), ("Ay", ContentType::Master));
}

#[test]
fn pages_and_selection() {
    let mut d = dictionary();
    assert!(d.set_state(DictionaryState::Primary));
    assert!(!d.set_state(DictionaryState::Primary));
    assert_eq!(d.current_state(), DictionaryState::Primary);
    // choosing the language already selected changes nothing
    assert!(!d.choose_translation(0));
    assert_eq!(d.current_state(), DictionaryState::Primary);
    // choosing another language turns to its page
    assert!(d.choose_translation(2));
    assert_eq!(d.selected_translation(), Language::German);
    assert_eq!(d.current_state(), DictionaryState::Translation(Language::German));
    assert_eq!(d.selected_position(), 2);
    d.set_export_options(true, false, true);
    assert_eq!(d.export_options(), (true, false, true));
}

#[test]
fn tag_selection_stays_in_range() {
    let mut d = dictionary();
    d.select_previous_tag();
    assert_eq!(d.selected_tag(), 0);
    d.select_next_tag();
    d.select_next_tag();
    assert_eq!(d.selected_tag(), 2);
    d.select_next_tag();
    assert_eq!(d.selected_tag(), 2);
    d.select_previous_tag();
    assert_eq!(d.selected_tag(), 1);
    d.set_selected_tag(2);
    d.select_next_tag();
    assert_eq!(d.selected_tag(), 2);
    d.set_selected_tag(0);
    assert_eq!(d.selected_tag(), 0);
}

#[test]
fn tag_labels_flag_missing_lines() {
    let d = dictionary();
    let labels = d.tag_labels(&vec![1]);
    assert_eq!(
        labels,
        vec![
            ("a".to_string(), false),
            ("* b".to_string(), true),
            ("c".to_string(), false)
        ]
    );
}

#[test]
fn master_rows_for_translators() {
    let d = Dictionary::new(Language::French, b"", &names(), String::new()).unwrap();
    assert_eq!(d.number_tags(), 0);
    assert!(d.master_context().is_empty());
    assert!(d.master_rows().is_empty());
    assert_eq!(d.selected_translation(), Language::Chinese);
}

#[test]
fn versions_move_on() {
    let v = DictionaryVersion::initial("first".to_string());
    assert_eq!(v.to_text(), "1.0.0 (first)");
    let m = v.new_minor_version("minor".to_string());
    assert_eq!(m.to_text(), "1.1.0 (minor)");
    let p = m.new_patch_version("patch".to_string());
    assert_eq!(p.to_text(), "1.1.1 (patch)");
    let j = p.new_major_version("major".to_string());
    assert_eq!(j.to_text(), "2.0.0 (major)");
    assert_eq!(j.duplicate().to_text(), "2.0.0 (major)");
}

#[test]
fn content_versions() {
    let mut c = ContentVersions::new("start".to_string());
    c.incremental_version(ContentType::Master, "m".to_string());
    assert_eq!(c.current_version(ContentType::Master).to_text(), "1.1.0 (m)");
    assert_eq!(c.current_version(ContentType::InProgress).to_text(), "1.0.0 (start)");
    c.incremental_version(ContentType::InProgress, "w".to_string());
    assert_eq!(c.current_version(ContentType::InProgress).to_text(), "1.0.1 (w)");
    c.major_version("big".to_string());
    assert_eq!(c.current_version(ContentType::Master).to_text(), "2.0.0 (big)");
    assert_eq!(c.current_version(ContentType::InProgress).to_text(), "2.0.0 (big)");
    assert_eq!(c.to_text("A", "B"), "A: 2.0.0 (big), B: 2.0.0 (big)");
}

#[test]
fn location_paths() {
    let p = LocationPaths::new(Location::External, "/mods/x".to_string());
    assert_eq!(p.get_path(Location::External), Some((Location::External, "/mods/x")));
    assert_eq!(p.get_path(Location::Internal), None);
}

#[test]
fn locations_and_kinds() {
    assert_eq!(Location::Internal.extensions(), vec!["json", "vrt"]);
    assert_eq!(Location::External.extensions(), vec!["vrt"]);
    assert_eq!(Location::InProgress.extensions(), vec!["csv", "json"]);
    assert_eq!(Location::InProgress.to_text(), "translation");
    assert_eq!(LanguageType::InProgress.to_text(), "translation");
    assert_eq!(LanguageType::External.ordinal(), 2);
    assert!(LanguageType::Internal < LanguageType::External);
    assert_eq!(DictionaryState::default(), DictionaryState::Overview);
}

#[test]
fn show_state_default() {
    let s = ShowState::default_not(Language::German, &names());
    let d = format!("{:?}", s);
    assert!(d.contains("Overview"));
}

#[test]
fn file_names_per_location() {
    assert_eq!(Location::InProgress.file_names("French"), vec!["French.csv", "French.json"]);
    assert_eq!(Location::External.file_names("German"), vec!["German.vrt"]);
    assert_eq!(set_extension("a.b", "vrt"), "a.vrt");
    assert_eq!(set_extension(".hidden", "csv"), ".hidden.csv");
    assert_eq!(set_extension("x.", "json"), "x.json");
    assert_eq!(set_extension("plain", "vrt"), "plain.vrt");
}
