use local_words::interface::{lang_info, set_first_language, LangInfo, FONT_BASE};

#[test]
fn interface_language_names() {
    let en = lang_info("en");
    assert_eq!(en.name, "English");
    assert_eq!(en.font, FONT_BASE);
    let other = lang_info("de");
    assert_eq!(other.name, "unknown");
    assert_eq!(other.font, "text");
    let info = LangInfo::from(("Deutsch", "text"));
    assert_eq!(info.name, "Deutsch");
}

#[test]
fn requested_language_moves_first() {
    let mut list = vec!["en-US".to_string(), "fr".to_string(), "de".to_string()];
    set_first_language(&mut list, "de".to_string());
    assert_eq!(list, vec!["de", "en-US", "fr"]);
    set_first_language(&mut list, "pt-BR".to_string());
    assert_eq!(list, vec!["pt-BR", "de", "en-US", "fr"]);
    set_first_language(&mut list, "pt-BR".to_string());
    assert_eq!(list, vec!["pt-BR", "de", "en-US", "fr"]);
}
