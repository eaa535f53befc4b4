//! What the editor is doing, and how each action of the user and each
//! finished task moves it on. The windows, the file dialogs and the thread
//! that builds a dictionary stand outside the library: they report here and
//! carry out what these functions answer.

use vstd::prelude::*;

use crate::dictionary::Dictionary;
use crate::languages::{Language, Languages, all_languages};
use crate::loader::{Loader, LoaderContainer};
use crate::tags::opt_view;
use crate::text::joined;

verus! {

/// What a new dictionary is made with: its primary language, and whether
/// the other languages found beside it are loaded as well.
#[derive(Debug, Clone, Copy, PartialEq, Eq, Structural)]
pub struct CreateData {
    pub primary_language: Language,
    pub load_translations: bool,
}

impl Default for CreateData {
    fn default() -> (d: Self)
        ensures
            d == (CreateData { primary_language: Language::English, load_translations: true }),
    {
        CreateData { primary_language: Language::English, load_translations: true }
    }
}

/// `s` without the elements equal to `x`, in order.
pub open spec fn without(s: Seq<Language>, x: Language) -> Seq<Language>
    decreases s.len(),
{
    if s.len() == 0 {
        Seq::empty()
    } else {
        let prev = without(s.drop_last(), x);
        if s.last() == x {
            prev
        } else {
            prev.push(s.last())
        }
    }
}

/// Leaving out one language keeps every other listed language, in order:
/// it is the listing filtered by "is not that language".
pub proof fn lemma_without_is_filter(s: Seq<Language>, x: Language)
    ensures
        without(s, x) == s.filter(|y: Language| y != x),
        forall|l: Language| #[trigger] without(s, x).contains(l) <==> s.contains(l) && l != x,
    decreases s.len(),
{
    broadcast use vstd::seq_lib::group_seq_properties;
    if s.len() > 0 {
        lemma_without_is_filter(s.drop_last(), x);
        assert(s == s.drop_last().push(s.last()));
        s.drop_last().lemma_filter_push(s.last(), |y: Language| y != x);
    } else {
        reveal(Seq::filter);
    }
    assert forall|l: Language| #[trigger] without(s, x).contains(l) <==> s.contains(l) && l != x by {
        let f = s.filter(|y: Language| y != x);
        if s.contains(l) && l != x {
            let i = choose|i: int| 0 <= i < s.len() && s[i] == l;
            s.lemma_filter_contains(|y: Language| y != x, i);
        }
        if f.contains(l) {
            let j = choose|j: int| 0 <= j < f.len() && f[j] == l;
            s.lemma_filter_pred(|y: Language| y != x, j);
            s.lemma_filter_contains_rev(|y: Language| y != x, l);
        }
    }
}

impl CreateData {
    /// The languages to load beside the primary one, out of those `listed`:
    /// all but the primary language, in order, where translations are
    /// loaded; none otherwise.
    pub fn languages_to_load(&self, listed: &Vec<Language>) -> (v: Vec<Language>)
        ensures
            v@ == if self.load_translations {
                without(listed@, self.primary_language)
            } else {
                Seq::<Language>::empty()
            },
            self.load_translations ==> v@ == listed@.filter(|l: Language| l != self.primary_language),
            self.load_translations ==> forall|l: Language| #[trigger] v@.contains(l) <==> listed@.contains(l) && l
                != self.primary_language,
    {
        proof {
            lemma_without_is_filter(listed@, self.primary_language);
        }
        let mut v: Vec<Language> = Vec::new();
        if !self.load_translations {
            return v;
        }
        let mut i: usize = 0;
        while i < listed.len()
            invariant
                i <= listed.len(),
                v@ == without(listed@.take(i as int), self.primary_language),
            decreases listed.len() - i,
        {
            if listed[i] != self.primary_language {
                v.push(listed[i]);
            }
            proof {
                assert(listed@.take(i + 1).drop_last() =~= listed@.take(i as int));
            }
            i = i + 1;
        }
        proof {
            assert(listed@.take(i as int) =~= listed@);
        }
        v
    }
}

/// The kinds of file dialog the editor opens.
#[derive(Debug, Clone, Copy, PartialEq, Eq, Structural)]
pub enum FileDialogType {
    LoadMasterZip,
    LoadMasterDir,
    ImportZip,
    ExportZip,
}

/// What a file dialog is opened for; each has its own dialog.
#[derive(Debug, Clone, Copy, PartialEq, Eq, Structural)]
pub enum FileTarget {
    MasterZip,
    MasterDir,
    ImportZip,
    ExportZip,
    ExternalsZip,
}

/// What a file dialog asks the user for.
#[derive(Debug, Clone, Copy, PartialEq, Eq, Structural)]
pub enum DialogAction {
    PickFile,
    PickDirectory,
    SaveFile,
}

impl FileDialogType {
    /// What the dialog asks for: a file to open, a directory, or a file to save to.
    pub fn action(&self) -> (a: DialogAction)
        ensures
            a == match self {
                FileDialogType::LoadMasterZip => DialogAction::PickFile,
                FileDialogType::ImportZip => DialogAction::PickFile,
                FileDialogType::LoadMasterDir => DialogAction::PickDirectory,
                FileDialogType::ExportZip => DialogAction::SaveFile,
            },
    {
        match self {
            FileDialogType::LoadMasterZip => DialogAction::PickFile,
            FileDialogType::ImportZip => DialogAction::PickFile,
            FileDialogType::LoadMasterDir => DialogAction::PickDirectory,
            FileDialogType::ExportZip => DialogAction::SaveFile,
        }
    }
}

/// The extension of the archives the dialogs offer.
pub const ZIP_EXTENSION: &'static str = "zip";

impl FileTarget {
    /// The identifier of the localised default file name the dialog offers.
    pub fn default_name_id(&self) -> (s: &'static str)
        ensures
            s@ == match self {
                FileTarget::MasterDir => "load_master_directory"@,
                FileTarget::MasterZip => "load_master_zip"@,
                FileTarget::ImportZip => "default_import_zip_file"@,
                FileTarget::ExportZip => "default_export_zip_file"@,
                FileTarget::ExternalsZip => "default_externals_zip_file"@,
            },
    {
        match self {
            FileTarget::MasterDir => "load_master_directory",
            FileTarget::MasterZip => "load_master_zip",
            FileTarget::ImportZip => "default_import_zip_file",
            FileTarget::ExportZip => "default_export_zip_file",
            FileTarget::ExternalsZip => "default_externals_zip_file",
        }
    }

    /// Whether the dialog offers archives only: every target but a directory.
    pub fn filters_archives(&self) -> (b: bool)
        ensures
            b == !(*self is MasterDir),
    {
        match self {
            FileTarget::MasterDir => false,
            _ => true,
        }
    }
}

/// One frame of a file dialog: whether it stays open, and what it reports.
/// A closed dialog reports nothing; an open one reports the path picked, an
/// empty path where the user cancelled, or no path yet.
pub fn dialog_update(showing: bool, picked: Option<String>, cancelled: bool) -> (r: (bool, Option<Option<String>>))
    ensures
        !showing ==> r == (false, None::<Option<String>>),
        showing && picked is Some ==> r == (false, Some(picked)),
        showing && picked is None && cancelled ==> !r.0 && (r.1 matches Some(Some(p)) && p@.len() == 0),
        showing && picked is None && !cancelled ==> r == (true, Some(None::<String>)),
{
    if showing {
        match picked {
            Some(path) => (false, Some(Some(path))),
            None => {
                if cancelled {
                    (false, Some(Some(String::new())))
                } else {
                    (true, Some(None))
                }
            },
        }
    } else {
        (false, None)
    }
}

/// The stages of making a new dictionary.
#[derive(Debug)]
pub enum CreateStage {
    /// Choosing the primary language and whether to load the others.
    Setup(CreateData),
    /// Waiting for the user to pick the dictionary's archive.
    SelectZip(CreateData),
    /// Waiting for the user to pick the dictionary's directory.
    SelectDirectory(CreateData),
    /// Ready to read the dictionary.
    Create(CreateData, Loader),
    /// Waiting for the dictionary to be read.
    WaitLoad(CreateData),
}

/// What the user does, or what happens, while a dictionary is being made.
#[derive(Debug)]
pub enum CreateEvent {
    /// The primary language at this position in declaration order was chosen.
    LanguageSelected(usize),
    /// Loading the other languages was switched on or off.
    LoadTranslationsSet(bool),
    /// Making the dictionary from an archive was asked for.
    ZipRequested,
    /// Making the dictionary from a directory was asked for.
    DirectoryRequested,
    /// What the file dialog reported: no path yet, a path, or an empty path
    /// where the user cancelled.
    FileChosen(Option<String>),
    /// A frame of the editor passed.
    Frame,
}

/// What the editor must do after a step of making a dictionary.
#[derive(Debug)]
pub enum CreateAction {
    Nothing,
    /// Open a file dialog of this kind for this target.
    OpenDialog(FileDialogType, FileTarget),
    /// Start reading the dictionary with this loader.
    StartLoad(CreateData, Loader),
}

/// A step of making a new dictionary: the next stage and what to do.
pub open spec fn create_transition(stage: CreateStage, event: CreateEvent) -> (CreateStage, CreateAction) {
    match stage {
        CreateStage::Setup(cd) => match event {
            CreateEvent::LanguageSelected(i) => (
                CreateStage::Setup(
                    if i < 5 {
                        CreateData { primary_language: all_languages()[i as int], ..cd }
                    } else {
                        cd
                    },
                ),
                CreateAction::Nothing,
            ),
            CreateEvent::LoadTranslationsSet(b) => (
                CreateStage::Setup(CreateData { load_translations: b, ..cd }),
                CreateAction::Nothing,
            ),
            CreateEvent::ZipRequested => (
                CreateStage::SelectZip(cd),
                CreateAction::OpenDialog(FileDialogType::LoadMasterZip, FileTarget::MasterZip),
            ),
            CreateEvent::DirectoryRequested => (
                CreateStage::SelectDirectory(cd),
                CreateAction::OpenDialog(FileDialogType::LoadMasterDir, FileTarget::MasterDir),
            ),
            _ => (CreateStage::Setup(cd), CreateAction::Nothing),
        },
        CreateStage::SelectZip(cd) => match event {
            CreateEvent::FileChosen(Some(f)) => if f@.len() > 0 {
                (CreateStage::Create(cd, Loader { container: LoaderContainer::ZipLoader(f) }), CreateAction::Nothing)
            } else {
                (CreateStage::Setup(cd), CreateAction::Nothing)
            },
            _ => (CreateStage::SelectZip(cd), CreateAction::Nothing),
        },
        CreateStage::SelectDirectory(cd) => match event {
            CreateEvent::FileChosen(Some(f)) => if f@.len() > 0 {
                (CreateStage::Create(cd, Loader { container: LoaderContainer::DirLoader(f) }), CreateAction::Nothing)
            } else {
                (CreateStage::Setup(cd), CreateAction::Nothing)
            },
            _ => (CreateStage::SelectDirectory(cd), CreateAction::Nothing),
        },
        CreateStage::Create(cd, loader) => match event {
            CreateEvent::Frame => (CreateStage::WaitLoad(cd), CreateAction::StartLoad(cd, loader)),
            _ => (CreateStage::Create(cd, loader), CreateAction::Nothing),
        },
        CreateStage::WaitLoad(cd) => (CreateStage::WaitLoad(cd), CreateAction::Nothing),
    }
}

/// Cancelling the file dialog, which reports an empty path, goes back to
/// choosing the primary language with the same choices; a path picked moves
/// on to reading the dictionary from it.
pub proof fn lemma_cancel_returns_to_setup(cd: CreateData, f: String)
    ensures
        f@.len() == 0 ==> create_transition(CreateStage::SelectZip(cd), CreateEvent::FileChosen(Some(f)))
            == (CreateStage::Setup(cd), CreateAction::Nothing),
        f@.len() == 0 ==> create_transition(CreateStage::SelectDirectory(cd), CreateEvent::FileChosen(Some(f)))
            == (CreateStage::Setup(cd), CreateAction::Nothing),
        f@.len() > 0 ==> (create_transition(CreateStage::SelectZip(cd), CreateEvent::FileChosen(Some(f))).0
            matches CreateStage::Create(d, l) && d == cd && l.container.in_archive() && l.container.path() == f@),
        f@.len() > 0 ==> (create_transition(CreateStage::SelectDirectory(cd), CreateEvent::FileChosen(Some(f))).0
            matches CreateStage::Create(d, l) && d == cd && !l.container.in_archive() && l.container.path() == f@),
{
}

/// The choices a stage holds: the primary language and whether to load the
/// other languages.
pub open spec fn stage_data(stage: CreateStage) -> CreateData {
    match stage {
        CreateStage::Setup(cd) => cd,
        CreateStage::SelectZip(cd) => cd,
        CreateStage::SelectDirectory(cd) => cd,
        CreateStage::Create(cd, _) => cd,
        CreateStage::WaitLoad(cd) => cd,
    }
}

/// Only choosing them changes the user's choices: outside the setup stage,
/// a step keeps them. The load that starts is started only from the stage
/// that is ready, on a frame, with exactly the choices and the loader that
/// stage holds; and a ready stage always starts it on a frame.
pub proof fn lemma_load_carries_choices(stage: CreateStage, event: CreateEvent)
    ensures
        !(stage is Setup) ==> stage_data(create_transition(stage, event).0) == stage_data(stage),
        match create_transition(stage, event).1 {
            CreateAction::StartLoad(d, l) => match stage {
                CreateStage::Create(cd, l0) => d == cd && l == l0 && event is Frame
                    && create_transition(stage, event).0 == CreateStage::WaitLoad(cd),
                _ => false,
            },
            _ => true,
        },
        match stage {
            CreateStage::Create(cd, l0) => event is Frame ==> create_transition(stage, event).1
                == CreateAction::StartLoad(cd, l0),
            _ => true,
        },
{
}

/// Takes a step of making a new dictionary.
pub fn create_step(stage: CreateStage, event: CreateEvent) -> (r: (CreateStage, CreateAction))
    ensures
        r == create_transition(stage, event),
{
    match stage {
        CreateStage::Setup(cd) => match event {
            CreateEvent::LanguageSelected(i) => {
                let data = match Languages::from_index(i) {
                    Some(language) => CreateData { primary_language: language, load_translations: cd.load_translations },
                    None => cd,
                };
                (CreateStage::Setup(data), CreateAction::Nothing)
            },
            CreateEvent::LoadTranslationsSet(b) => (
                CreateStage::Setup(CreateData { primary_language: cd.primary_language, load_translations: b }),
                CreateAction::Nothing,
            ),
            CreateEvent::ZipRequested => (
                CreateStage::SelectZip(cd),
                CreateAction::OpenDialog(FileDialogType::LoadMasterZip, FileTarget::MasterZip),
            ),
            CreateEvent::DirectoryRequested => (
                CreateStage::SelectDirectory(cd),
                CreateAction::OpenDialog(FileDialogType::LoadMasterDir, FileTarget::MasterDir),
            ),
            _ => (CreateStage::Setup(cd), CreateAction::Nothing),
        },
        CreateStage::SelectZip(cd) => match event {
            CreateEvent::FileChosen(Some(f)) => {
                if f.unicode_len() > 0 {
                    (CreateStage::Create(cd, Loader::zip_loader(f)), CreateAction::Nothing)
                } else {
                    (CreateStage::Setup(cd), CreateAction::Nothing)
                }
            },
            _ => (CreateStage::SelectZip(cd), CreateAction::Nothing),
        },
        CreateStage::SelectDirectory(cd) => match event {
            CreateEvent::FileChosen(Some(f)) => {
                if f.unicode_len() > 0 {
                    (CreateStage::Create(cd, Loader::dir_loader(f)), CreateAction::Nothing)
                } else {
                    (CreateStage::Setup(cd), CreateAction::Nothing)
                }
            },
            _ => (CreateStage::SelectDirectory(cd), CreateAction::Nothing),
        },
        CreateStage::Create(cd, loader) => match event {
            CreateEvent::Frame => (CreateStage::WaitLoad(cd), CreateAction::StartLoad(cd, loader)),
            _ => (CreateStage::Create(cd, loader), CreateAction::Nothing),
        },
        CreateStage::WaitLoad(cd) => (CreateStage::WaitLoad(cd), CreateAction::Nothing),
    }
}

/// What the editor is doing.
#[derive(Debug)]
pub enum AppStatus {
    Starting,
    Settings,
    Ready,
    CreateNew(CreateStage),
    Load,
    SaveTo,
    SaveAs,
}

impl Default for AppStatus {
    fn default() -> (s: Self)
        ensures
            s is Starting,
    {
        AppStatus::Starting
    }
}

/// What the user chooses where the editor holds no dictionary.
#[derive(Debug, Clone, Copy, PartialEq, Eq, Structural)]
pub enum NoDataChoice {
    MakeNew,
    LoadExisting,
}

/// Which entries of the menu are enabled.
#[derive(Debug, Clone, Copy, PartialEq, Eq, Structural)]
pub struct MenuState {
    pub load: bool,
    pub save: bool,
    pub save_as: bool,
    pub import: bool,
    pub export: bool,
    pub settings: bool,
}

/// The text of the message shown where making a dictionary failed.
pub open spec fn create_failure(error: Seq<char>) -> Seq<char> {
    "Unable to create Dictionary: "@ + error
}

/// The editor's state: what it is doing, the dictionary it holds, and the
/// error message it shows.
#[derive(Debug)]
pub struct Session {
    status: AppStatus,
    data: Option<Dictionary>,
    message: Option<String>,
}

impl Session {
    pub closed spec fn status(&self) -> AppStatus {
        self.status
    }

    pub closed spec fn data(&self) -> Option<Dictionary> {
        self.data
    }

    pub closed spec fn message(&self) -> Option<Seq<char>> {
        opt_view(self.message)
    }

    /// Starting, with no dictionary and no message.
    pub fn new() -> (s: Self)
        ensures
            s.status() is Starting,
            s.data() is None,
            s.message() is None,
    {
        Session { status: AppStatus::Starting, data: None, message: None }
    }

    /// What the editor is doing.
    pub fn current_status(&self) -> (s: &AppStatus)
        ensures
            *s == self.status(),
    {
        &self.status
    }

    /// The error message shown, if any.
    pub fn message_text(&self) -> (m: Option<&str>)
        ensures
            m is Some <==> self.message() is Some,
            m matches Some(t) ==> self.message() == Some(t@),
    {
        match &self.message {
            Some(m) => Some(m.as_str()),
            None => None,
        }
    }

    /// The dictionary held, if any.
    pub fn dictionary(&self) -> (d: Option<&Dictionary>)
        ensures
            d is Some <==> self.data() is Some,
            d matches Some(x) ==> self.data() == Some(*x),
    {
        match &self.data {
            Some(d) => Some(d),
            None => None,
        }
    }

    /// Takes the dictionary out, to work on it; `put_dictionary` gives it back.
    pub fn take_dictionary(&mut self) -> (d: Option<Dictionary>)
        ensures
            d == old(self).data(),
            final(self).data() is None,
            final(self).status() == old(self).status(),
            final(self).message() == old(self).message(),
    {
        let mut d: Option<Dictionary> = None;
        std::mem::swap(&mut d, &mut self.data);
        d
    }

    /// Holds `d` as the dictionary.
    pub fn put_dictionary(&mut self, d: Dictionary)
        ensures
            final(self).data() == Some(d),
            final(self).status() == old(self).status(),
            final(self).message() == old(self).message(),
    {
        self.data = Some(d);
    }

    /// The start of a frame: a starting editor drops any dictionary and is ready.
    pub fn start_frame(&mut self)
        ensures
            old(self).status() is Starting ==> final(self).status() is Ready && final(self).data() is None,
            !(old(self).status() is Starting) ==> final(self).status() == old(self).status() && final(self).data()
                == old(self).data(),
            final(self).message() == old(self).message(),
    {
        if let AppStatus::Starting = self.status {
            self.data = None;
            self.status = AppStatus::Ready;
        }
    }

    /// Which menu entries are enabled: loading only when ready; saving and
    /// importing only when ready with a dictionary; exporting likewise; the
    /// settings unless they are shown.
    pub fn menu_state(&self) -> (m: MenuState)
        ensures
            m.load == self.status() is Ready,
            m.save == (self.status() is Ready && self.data() is Some),
            m.save_as == (self.status() is Ready && self.data() is Some),
            m.import == (self.status() is Ready && self.data() is Some),
            m.export == (self.status() is Ready && self.data() is Some),
            m.settings == !(self.status() is Settings),
    {
        let load = match self.status {
            AppStatus::Ready => true,
            _ => false,
        };
        let has_data = self.data.is_some();
        let in_settings = match self.status {
            AppStatus::Settings => true,
            _ => false,
        };
        let save_as = load && has_data;
        MenuState {
            load,
            save: save_as,
            save_as,
            import: load && has_data,
            export: save_as && has_data,
            settings: !in_settings,
        }
    }

    /// Restarts the editor: it starts again and drops its message.
    pub fn restart(&mut self)
        ensures
            final(self).status() is Starting,
            final(self).message() is None,
            final(self).data() == old(self).data(),
    {
        self.status = AppStatus::Starting;
        self.message = None;
    }

    /// Shows the settings and drops the message.
    pub fn open_settings(&mut self)
        ensures
            final(self).status() is Settings,
            final(self).message() is None,
            final(self).data() == old(self).data(),
    {
        self.status = AppStatus::Settings;
        self.message = None;
    }

    /// The settings are done with: the editor is ready.
    pub fn settings_done(&mut self)
        ensures
            final(self).status() is Ready,
            final(self).message() == old(self).message(),
            final(self).data() == old(self).data(),
    {
        self.status = AppStatus::Ready;
    }

    /// The user acknowledged the message: it is dropped.
    pub fn acknowledge_error(&mut self)
        ensures
            final(self).message() is None,
            final(self).status() == old(self).status(),
            final(self).data() == old(self).data(),
    {
        self.message = None;
    }

    /// The user's choice where a ready editor holds no dictionary: making a
    /// new one starts with `master` as its primary language and loads the
    /// other languages; loading one starts loading. Elsewhere nothing changes.
    pub fn no_data_choice(&mut self, choice: NoDataChoice, master: Language)
        ensures
            old(self).status() is Ready && old(self).data() is None ==> final(self).status() == match choice {
                NoDataChoice::MakeNew => AppStatus::CreateNew(
                    CreateStage::Setup(CreateData { primary_language: master, load_translations: true }),
                ),
                NoDataChoice::LoadExisting => AppStatus::Load,
            },
            !(old(self).status() is Ready && old(self).data() is None) ==> final(self).status() == old(self).status(),
            final(self).message() == old(self).message(),
            final(self).data() == old(self).data(),
    {
        let ready = match self.status {
            AppStatus::Ready => true,
            _ => false,
        };
        if ready && self.data.is_none() {
            self.status = match choice {
                NoDataChoice::MakeNew => AppStatus::CreateNew(
                    CreateStage::Setup(CreateData { primary_language: master, load_translations: true }),
                ),
                NoDataChoice::LoadExisting => AppStatus::Load,
            };
        }
    }

    /// A step of making a new dictionary, taken where the editor is making
    /// one and holds none: see `create_transition`. Elsewhere nothing changes
    /// and nothing is to be done.
    pub fn create_event(&mut self, event: CreateEvent) -> (a: CreateAction)
        ensures
            match old(self).status() {
                AppStatus::CreateNew(stage) => if old(self).data() is None {
                    final(self).status() == AppStatus::CreateNew(create_transition(stage, event).0)
                        && a == create_transition(stage, event).1
                } else {
                    final(self).status() == old(self).status() && a is Nothing
                },
                _ => final(self).status() == old(self).status() && a is Nothing,
            },
            final(self).message() == old(self).message(),
            final(self).data() == old(self).data(),
    {
        if self.data.is_some() {
            return CreateAction::Nothing;
        }
        let mut status = AppStatus::Ready;
        std::mem::swap(&mut status, &mut self.status);
        match status {
            AppStatus::CreateNew(stage) => {
                let (next, action) = create_step(stage, event);
                self.status = AppStatus::CreateNew(next);
                action
            },
            other => {
                self.status = other;
                CreateAction::Nothing
            },
        }
    }

    /// The dictionary being read is done, or failed with `Err(error)`. Where
    /// the editor waits for it and holds none, it takes the dictionary, or
    /// shows `Unable to create Dictionary: {error}`; either way it is ready.
    /// Elsewhere nothing changes.
    pub fn load_finished(&mut self, result: Result<Dictionary, String>)
        ensures
            (old(self).status() matches AppStatus::CreateNew(CreateStage::WaitLoad(_))) && old(self).data() is None ==> {
                &&& final(self).status() is Ready
                &&& match result {
                    Ok(d) => final(self).data() == Some(d) && final(self).message() == old(self).message(),
                    Err(e) => final(self).data() is None && final(self).message() == Some(create_failure(e@)),
                }
            },
            !((old(self).status() matches AppStatus::CreateNew(CreateStage::WaitLoad(_))) && old(self).data() is None)
                ==> final(self).status() == old(self).status() && final(self).data() == old(self).data()
                && final(self).message() == old(self).message(),
    {
        let waiting = match &self.status {
            AppStatus::CreateNew(CreateStage::WaitLoad(_)) => true,
            _ => false,
        };
        if !waiting || self.data.is_some() {
            return;
        }
        match result {
            Ok(d) => {
                self.data = Some(d);
            },
            Err(e) => {
                self.message = Some(joined("Unable to create Dictionary: ", e.as_str()));
                proof {
                    reveal_strlit("Unable to create Dictionary: ");
                }
            },
        }
        self.status = AppStatus::Ready;
    }
}

} // verus!
