use local_words::languages::Language;
use local_words::loader::Loaded;
use local_words::translation::Translation;
use local_words::vrt::{read_vrt, LoadFormat};
use local_words::writer::{
    csv_rows, externals_zip_entries, lang_vrt_text, translation_vrt_text, vrt_zip_entries, FormatVersion,
};

fn tags(v: &[&str]) -> Vec<String> {
    v.iter().map(|s| s.to_string()).collect()
}

#[test]
fn vrt_text_one_line_per_tag() {
    let text = lang_vrt_text(&tags(&["a", "b"]), &tags(&["\"Ay\"", "\"Bee\""]));
    assert_eq!(text, "a \"Ay\"\nb \"Bee\"\n");
    assert_eq!(lang_vrt_text(&vec![], &vec![]), "");
    // what is written in quotes reads back
    let back = read_vrt(text.as_bytes()).unwrap();
    assert_eq!(back, vec![("a".to_string(), "Ay".to_string()), ("b".to_string(), "Bee".to_string())]);
}

#[test]
fn translation_text_stops_at_shorter_list() {
    let all = tags(&["a", "b"]);
    let loaded = Loaded::load_with_tags(&all, LoadFormat::Vrt, b"a \"Ah\"\n").unwrap();
    let t = Translation::from_loaded(&loaded, Language::French, &all);
    assert_eq!(translation_vrt_text(&all, &t), "a Ah\nb \n");
    assert_eq!(translation_vrt_text(&tags(&["x"]), &t), "x Ah\n");
}

#[test]
fn archive_entries() {
    let all = tags(&["a"]);
    let loaded = Loaded::load_with_tags(&all, LoadFormat::Vrt, b"a \"Ah\"\n").unwrap();
    let fr = Translation::from_loaded(&loaded, Language::French, &all);
    let de = Translation::from_loaded(&loaded, Language::German, &all);
    let entries = vrt_zip_entries(FormatVersion::Version1, &all, &vec![fr.duplicate(), de.duplicate()]);
    assert_eq!(
        entries,
        vec![
            ("french/00-base.vrt".to_string(), "a Ah\n".to_string()),
            ("german/00-base.vrt".to_string(), "a Ah\n".to_string())
        ]
    );
    let entries = vrt_zip_entries(FormatVersion::Version0, &all, &vec![fr.duplicate()]);
    assert_eq!(entries[0].0, "french.vrt");
    let entries = externals_zip_entries(&all, &vec![de]);
    assert_eq!(entries, vec![("german.vrt".to_string(), "a Ah\n".to_string())]);
}

#[test]
fn csv_rows_pair_each_tag() {
    let rows = csv_rows(&tags(&["a", "b"]), &tags(&["Ay", "Bee"]), &tags(&["first", ""]));
    assert_eq!(
        rows,
        vec![
            ("a".to_string(), "Ay".to_string(), "first".to_string()),
            ("b".to_string(), "Bee".to_string(), String::new()),
        ]
    );
}
