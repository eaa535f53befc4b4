use local_words::languages::{Language, LanguageNames, Languages};
use local_words::writer::FormatVersion;

fn names() -> LanguageNames {
    LanguageNames {
        names: [
            "English".to_string(),
            "Français".to_string(),
            "Deutsch".to_string(),
            "中文".to_string(),
            "Português".to_string(),
        ],
    }
}

#[test]
fn all_languages_in_declaration_order() {
    assert_eq!(
        Languages::all(),
        vec![
            Language::English,
            Language::French,
            Language::German,
            Language::Chinese,
            Language::PortugueseBr
        ]
    );
}

#[test]
fn language_index_matches_order() {
    for (i, l) in Languages::all().into_iter().enumerate() {
        assert_eq!(l.language_index(), i);
        assert_eq!(Languages::from_index(i), Some(l));
    }
    assert_eq!(Languages::from_index(5), None);
    assert_eq!(Languages::from_index(usize::MAX), None);
}

#[test]
fn internal_and_external_names() {
    assert_eq!(Language::English.internal(), "english");
    assert_eq!(Language::PortugueseBr.internal(), "portuguese-br");
    assert_eq!(Language::Chinese.external(), "zho-CN");
    assert_eq!(Language::French.external(), "fre");
    assert_eq!(Language::German.language_data(), ["german", "ger", "text"]);
    assert_eq!(Language::Chinese.language_data(), ["chinese", "zho-CN", "chinese"]);
    assert_eq!(Language::Chinese.font_family(), "chinese");
    assert_eq!(Language::English.font_family(), "text");
    assert_eq!(Language::German.name_id(), "german");
    assert_eq!(Language::default(), Language::English);
}

#[test]
fn find_internal_round_trip() {
    for l in Languages::all() {
        assert_eq!(Languages::find_internal(l.internal()), Some(l));
    }
    assert_eq!(Languages::find_internal("klingon"), None);
    assert_eq!(Languages::find_internal("English"), None);
}

#[test]
fn file_names() {
    assert_eq!(Language::French.external_file_name("MyMod"), "MyMod_fre");
    assert_eq!(
        Language::German.internal_main_file_name(FormatVersion::Version0),
        "german.vrt"
    );
    assert_eq!(
        Language::German.internal_main_file_name(FormatVersion::Version1),
        "german/00-base.vrt"
    );
    assert_eq!(Language::Chinese.internal_category_file_name(), "chinese.vrt");
}

#[test]
fn localised_names() {
    let n = names();
    assert_eq!(Language::French.name(&n), "Français");
    assert_eq!(
        Languages::name_list(&n),
        vec!["English", "Français", "Deutsch", "中文", "Português"]
    );
    assert_eq!(Languages::find_language("Deutsch", &n), Some(Language::German));
    assert_eq!(Languages::find_language("German", &n), None);
}

#[test]
fn find_language_takes_first_of_equal_names() {
    let n = LanguageNames {
        names: [
            "A".to_string(),
            "B".to_string(),
            "B".to_string(),
            "C".to_string(),
            "D".to_string(),
        ],
    };
    assert_eq!(Languages::find_language("B", &n), Some(Language::French));
}

#[test]
fn list_not_sorted_by_name_without_the_language() {
    let n = names();
    let list = Languages::list_not(Language::English, &n);
    assert_eq!(
        list,
        vec![
            (2, "Deutsch".to_string()),
            (1, "Français".to_string()),
            (4, "Português".to_string()),
            (3, "中文".to_string()),
        ]
    );
    let list = Languages::list_not(Language::Chinese, &n);
    assert_eq!(list.len(), 4);
    assert!(list.iter().all(|(i, _)| *i != 3));
}

#[test]
fn list_not_keeps_declaration_order_for_equal_names() {
    let n = LanguageNames {
        names: [
            "Same".to_string(),
            "Same".to_string(),
            "Same".to_string(),
            "Same".to_string(),
            "Same".to_string(),
        ],
    };
    let list = Languages::list_not(Language::German, &n);
    let order: Vec<usize> = list.iter().map(|(i, _)| *i).collect();
    assert_eq!(order, vec![0, 1, 3, 4]);
}

#[test]
fn sorted_by_name_holds_every_language() {
    let n = names();
    let list = Languages::sorted_by_name(&n);
    let order: Vec<usize> = list.iter().map(|(i, _)| *i).collect();
    assert_eq!(order, vec![2, 0, 1, 4, 3]);
}
