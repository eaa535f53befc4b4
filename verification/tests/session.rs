use local_words::dictionary::Dictionary;
use local_words::languages::{Language, LanguageNames};
use local_words::session::{
    create_step, dialog_update, AppStatus, CreateAction, CreateData, CreateEvent, CreateStage,
    DialogAction, FileDialogType, FileTarget, NoDataChoice, Session,
};

fn names() -> LanguageNames {
    LanguageNames {
        names: [
            "English".to_string(),
            "French".to_string(),
            "German".to_string(),
            "Chinese".to_string(),
            "Portuguese".to_string(),
        ],
    }
}

fn setup_data(stage: &CreateStage) -> Option<CreateData> {
    match stage {
        CreateStage::Setup(d) => Some(*d),
        _ => None,
    }
}

#[test]
fn create_data_default() {
    let d = CreateData::default();
    assert_eq!(d.primary_language, Language::English);
    assert!(d.load_translations);
}

#[test]
fn languages_to_load_skip_primary() {
    let d = CreateData { primary_language: Language::French, load_translations: true };
    let listed = vec![Language::English, Language::French, Language::German];
    assert_eq!(d.languages_to_load(&listed), vec![Language::English, Language::German]);
    let none = CreateData { load_translations: false, ..d };
    assert!(none.languages_to_load(&listed).is_empty());
}

#[test]
fn setup_choices() {
    let cd = CreateData::default();
    let (stage, action) = create_step(CreateStage::Setup(cd), CreateEvent::LanguageSelected(2));
    assert!(matches!(action, CreateAction::Nothing));
    assert_eq!(setup_data(&stage).unwrap().primary_language, Language::German);
    let (stage, _) = create_step(stage, CreateEvent::LanguageSelected(9));
    assert_eq!(setup_data(&stage).unwrap().primary_language, Language::German);
    let (stage, _) = create_step(stage, CreateEvent::LoadTranslationsSet(false));
    assert!(!setup_data(&stage).unwrap().load_translations);
    let (stage, action) = create_step(stage, CreateEvent::ZipRequested);
    assert!(matches!(stage, CreateStage::SelectZip(_)));
    assert!(matches!(
        action,
        CreateAction::OpenDialog(FileDialogType::LoadMasterZip, FileTarget::MasterZip)
    ));
}

#[test]
fn cancelled_dialog_returns_to_setup() {
    let cd = CreateData::default();
    let (stage, _) = create_step(CreateStage::SelectDirectory(cd), CreateEvent::FileChosen(None));
    assert!(matches!(stage, CreateStage::SelectDirectory(_)));
    let (stage, _) = create_step(stage, CreateEvent::FileChosen(Some(String::new())));
    assert_eq!(setup_data(&stage), Some(cd));
}

#[test]
fn picked_path_starts_loading() {
    let cd = CreateData::default();
    let (stage, _) = create_step(CreateStage::SelectZip(cd), CreateEvent::FileChosen(Some("/m.zip".to_string())));
    match &stage {
        CreateStage::Create(d, loader) => {
            assert_eq!(*d, cd);
            assert_eq!(loader.load_directory(), Some("/".to_string()));
        }
        _ => panic!("expected the create stage"),
    }
    let (stage, action) = create_step(stage, CreateEvent::Frame);
    assert!(matches!(stage, CreateStage::WaitLoad(_)));
    assert!(matches!(action, CreateAction::StartLoad(_, _)));
}

#[test]
fn session_flow_to_a_dictionary() {
    let mut s = Session::new();
    assert!(matches!(s.current_status(), AppStatus::Starting));
    s.start_frame();
    assert!(matches!(s.current_status(), AppStatus::Ready));
    let menu = s.menu_state();
    assert!(menu.load && !menu.save && !menu.export && menu.settings);
    s.no_data_choice(NoDataChoice::MakeNew, Language::German);
    match s.current_status() {
        AppStatus::CreateNew(CreateStage::Setup(d)) => assert_eq!(d.primary_language, Language::German),
        _ => panic!("expected the setup stage"),
    }
    let a = s.create_event(CreateEvent::DirectoryRequested);
    assert!(matches!(a, CreateAction::OpenDialog(FileDialogType::LoadMasterDir, FileTarget::MasterDir)));
    s.create_event(CreateEvent::FileChosen(Some("/mods/x".to_string())));
    let a = s.create_event(CreateEvent::Frame);
    assert!(matches!(a, CreateAction::StartLoad(_, _)));
    let d = Dictionary::new(Language::German, b"a \"A\"\n", &names(), String::new()).unwrap();
    s.load_finished(Ok(d));
    assert!(matches!(s.current_status(), AppStatus::Ready));
    assert!(s.dictionary().is_some());
    let menu = s.menu_state();
    assert!(menu.save && menu.save_as && menu.import && menu.export);
}

#[test]
fn failed_load_shows_message() {
    let mut s = Session::new();
    s.start_frame();
    s.no_data_choice(NoDataChoice::MakeNew, Language::English);
    s.create_event(CreateEvent::ZipRequested);
    s.create_event(CreateEvent::FileChosen(Some("/x.zip".to_string())));
    s.create_event(CreateEvent::Frame);
    s.load_finished(Err("no such file".to_string()));
    assert!(matches!(s.current_status(), AppStatus::Ready));
    assert_eq!(s.message_text(), Some("Unable to create Dictionary: no such file"));
    assert!(s.dictionary().is_none());
    s.acknowledge_error();
    assert_eq!(s.message_text(), None);
}

#[test]
fn results_outside_waiting_are_ignored() {
    let mut s = Session::new();
    s.load_finished(Err("late".to_string()));
    assert!(matches!(s.current_status(), AppStatus::Starting));
    assert_eq!(s.message_text(), None);
    assert!(matches!(s.create_event(CreateEvent::Frame), CreateAction::Nothing));
}

#[test]
fn restart_and_settings() {
    let mut s = Session::new();
    s.start_frame();
    s.no_data_choice(NoDataChoice::LoadExisting, Language::English);
    assert!(matches!(s.current_status(), AppStatus::Load));
    s.open_settings();
    assert!(matches!(s.current_status(), AppStatus::Settings));
    assert!(!s.menu_state().settings);
    s.settings_done();
    assert!(matches!(s.current_status(), AppStatus::Ready));
    let d = Dictionary::new(Language::English, b"", &names(), String::new()).unwrap();
    s.put_dictionary(d);
    s.restart();
    assert!(matches!(s.current_status(), AppStatus::Starting));
    s.start_frame();
    assert!(s.dictionary().is_none());
    let taken = s.take_dictionary();
    assert!(taken.is_none());
}

#[test]
fn dialogs() {
    assert_eq!(FileDialogType::LoadMasterDir.action(), DialogAction::PickDirectory);
    assert_eq!(FileDialogType::ImportZip.action(), DialogAction::PickFile);
    assert_eq!(FileDialogType::ExportZip.action(), DialogAction::SaveFile);
    assert_eq!(FileTarget::MasterZip.default_name_id(), "load_master_zip");
    assert!(!FileTarget::MasterDir.filters_archives());
    assert!(FileTarget::ExternalsZip.filters_archives());
    assert_eq!(dialog_update(false, Some("x".to_string()), true), (false, None));
    assert_eq!(dialog_update(true, Some("x".to_string()), true), (false, Some(Some("x".to_string()))));
    assert_eq!(dialog_update(true, None, true), (false, Some(Some(String::new()))));
    assert_eq!(dialog_update(true, None, false), (true, Some(None)));
}
