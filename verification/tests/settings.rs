use local_words::languages::{Language, LanguageNames};
use local_words::settings::{SaveSettings1, Settings, Theme, SAVE1_VERSION};

fn names() -> LanguageNames {
    LanguageNames {
        names: [
            "English".to_string(),
            "French".to_string(),
            "German".to_string(),
            "Chinese".to_string(),
            "Portuguese".to_string(),
        ],
    }
}

#[test]
fn saved_settings_validate_their_version() {
    let s = SaveSettings1 {
        save_version: SAVE1_VERSION,
        theme: Theme::Dark,
        default_master_language: "German".to_string(),
        ui_language: "en-US".to_string(),
    };
    assert!(s.validate());
    let old = SaveSettings1 { save_version: 0, ..s };
    assert!(!old.validate());
}

#[test]
fn settings_from_saved() {
    let s = SaveSettings1 {
        save_version: 1,
        theme: Theme::Dark,
        default_master_language: "German".to_string(),
        ui_language: "fr".to_string(),
    };
    let settings = Settings::from_saved(s, &names());
    assert_eq!(settings.master_language(), Language::German);
    assert_eq!(settings.theme(), Theme::Dark);
    assert_eq!(settings.internal_path(), "");
    assert_eq!(settings.ui_language(), "fr");
    let unknown = SaveSettings1 {
        save_version: 1,
        theme: Theme::Light,
        default_master_language: "Elvish".to_string(),
        ui_language: "en".to_string(),
    };
    assert_eq!(Settings::from_saved(unknown, &names()).master_language(), Language::English);
}

#[test]
fn settings_round_trip() {
    let mut settings = Settings::new("/home/me/words", Language::Chinese, "en".to_string());
    assert_eq!(settings.theme(), Theme::Light);
    assert_eq!(settings.internal_path(), "/home/me/words");
    settings.set_theme(Theme::Dark);
    let saved = settings.to_saved(&names());
    assert_eq!(saved.save_version, 1);
    assert_eq!(saved.default_master_language, "Chinese");
    let back = Settings::from_saved(saved, &names());
    assert_eq!(back.master_language(), Language::Chinese);
    assert_eq!(back.theme(), Theme::Dark);
    assert_eq!(Settings::new("", Language::English, String::new()).internal_path(), "");
}

#[test]
fn selections() {
    let mut settings = Settings::new("", Language::English, "en".to_string());
    let available = vec!["de".to_string(), "en".to_string(), "fr".to_string()];
    assert_eq!(settings.ui_language_position(&available), Some(1));
    assert!(settings.select_ui_language(&available, 2));
    assert_eq!(settings.ui_language(), "fr");
    assert!(!settings.select_ui_language(&available, 3));
    assert_eq!(settings.ui_language(), "fr");
    assert_eq!(settings.ui_language_position(&vec!["de".to_string()]), None);
    assert!(settings.select_master_language(4));
    assert_eq!(settings.master_language(), Language::PortugueseBr);
    assert!(!settings.select_master_language(5));
    assert_eq!(settings.master_language(), Language::PortugueseBr);
}

#[test]
fn theme_names() {
    assert_eq!(Theme::Light.to_text(), "Light");
    assert_eq!(Theme::Dark.to_text(), "Dark");
    assert_eq!(Theme::default(), Theme::Light);
}
