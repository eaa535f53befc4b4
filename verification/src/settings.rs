//! The editor's settings, but for its zoom, and the form they are saved in.

use vstd::prelude::*;

use crate::languages::{Language, LanguageNames, Languages, first_language_named};

verus! {

/// The version of the saved form the editor writes.
pub const SAVE1_VERSION: u16 = 1;

/// The colour theme.
#[derive(Debug, Clone, Copy, PartialEq, Eq, Structural)]
pub enum Theme {
    Dark,
    Light,
}

impl Default for Theme {
    fn default() -> (t: Self)
        ensures
            t == Theme::Light,
    {
        Theme::Light
    }
}

impl Theme {
    /// The theme's name: `Light` or `Dark`.
    pub fn to_text(&self) -> (s: &'static str)
        ensures
            s@ == match self {
                Theme::Light => "Light"@,
                Theme::Dark => "Dark"@,
            },
    {
        match self {
            Theme::Light => "Light",
            Theme::Dark => "Dark",
        }
    }
}

/// Settings as saved, in the form of version 1.
#[derive(Debug)]
pub struct SaveSettings1 {
    pub save_version: u16,
    pub theme: Theme,
    /// The localised name of the primary language for new dictionaries.
    pub default_master_language: String,
    /// The identifier of the interface language, such as `en-US`.
    pub ui_language: String,
}

impl SaveSettings1 {
    /// Whether the saved settings are of the version this form reads.
    pub fn validate(&self) -> (b: bool)
        ensures
            b == (self.save_version == SAVE1_VERSION),
    {
        self.save_version == SAVE1_VERSION
    }
}

/// The settings the editor runs with: its theme, the directory of its own
/// data, the primary language of new dictionaries and the identifier of its
/// interface language.
#[derive(Debug)]
pub struct Settings {
    theme: Theme,
    internal_path: Option<String>,
    default_master_language: Language,
    ui_language: String,
}

impl Settings {
    pub closed spec fn spec_theme(&self) -> Theme {
        self.theme
    }

    pub closed spec fn spec_internal_path(&self) -> Option<Seq<char>> {
        crate::tags::opt_view(self.internal_path)
    }

    pub closed spec fn spec_master_language(&self) -> Language {
        self.default_master_language
    }

    pub closed spec fn spec_ui_language(&self) -> Seq<char> {
        self.ui_language@
    }

    /// Settings with the light theme; an empty `internal_path` means none.
    pub fn new(internal_path: &str, master_language: Language, ui_language: String) -> (s: Self)
        ensures
            s.spec_theme() == Theme::Light,
            s.spec_internal_path() == if internal_path@.len() > 0 {
                Some(internal_path@)
            } else {
                None::<Seq<char>>
            },
            s.spec_master_language() == master_language,
            s.spec_ui_language() == ui_language@,
    {
        let internal = if internal_path.unicode_len() > 0 {
            Some(String::from_str(internal_path))
        } else {
            None
        };
        Settings { theme: Theme::Light, internal_path: internal, default_master_language: master_language, ui_language }
    }

    pub fn theme(&self) -> (t: Theme)
        ensures
            t == self.spec_theme(),
    {
        self.theme
    }

    /// The directory of the editor's own data; empty where there is none.
    pub fn internal_path(&self) -> (s: String)
        ensures
            s@ == match self.spec_internal_path() {
                Some(p) => p,
                None => Seq::<char>::empty(),
            },
    {
        match &self.internal_path {
            Some(internal) => internal.clone(),
            None => String::new(),
        }
    }

    /// The primary language of new dictionaries.
    pub fn master_language(&self) -> (l: Language)
        ensures
            l == self.spec_master_language(),
    {
        self.default_master_language
    }

    /// The identifier of the interface language.
    pub fn ui_language(&self) -> (s: &str)
        ensures
            s@ == self.spec_ui_language(),
    {
        self.ui_language.as_str()
    }

    pub fn set_theme(&mut self, theme: Theme)
        ensures
            final(self).spec_theme() == theme,
            final(self).spec_internal_path() == old(self).spec_internal_path(),
            final(self).spec_master_language() == old(self).spec_master_language(),
            final(self).spec_ui_language() == old(self).spec_ui_language(),
    {
        self.theme = theme;
    }

    /// Where the interface language stands among the `available` ones: the
    /// first position holding it.
    pub fn ui_language_position(&self, available: &Vec<String>) -> (r: Option<usize>)
        ensures
            r matches Some(p) ==> p < available.len() && available@[p as int]@ == self.spec_ui_language()
                && forall|j: int| 0 <= j < p ==> available@[j]@ != self.spec_ui_language(),
            r is None ==> forall|j: int| 0 <= j < available.len() ==> available@[j]@ != self.spec_ui_language(),
    {
        let mut i: usize = 0;
        while i < available.len()
            invariant
                i <= available.len(),
                forall|j: int| 0 <= j < i ==> available@[j]@ != self.spec_ui_language(),
            decreases available.len() - i,
        {
            if crate::languages::string_eq(available[i].as_str(), self.ui_language.as_str()) {
                return Some(i);
            }
            i = i + 1;
        }
        None
    }

    /// Takes the interface language at `selected` among the `available`
    /// ones; false, with nothing changed, where there is none.
    pub fn select_ui_language(&mut self, available: &Vec<String>, selected: usize) -> (changed: bool)
        ensures
            changed == (selected < available.len()),
            final(self).spec_ui_language() == if changed {
                available@[selected as int]@
            } else {
                old(self).spec_ui_language()
            },
            final(self).spec_theme() == old(self).spec_theme(),
            final(self).spec_internal_path() == old(self).spec_internal_path(),
            final(self).spec_master_language() == old(self).spec_master_language(),
    {
        if selected < available.len() {
            self.ui_language = available[selected].clone();
            true
        } else {
            false
        }
    }

    /// Takes the language at `selected` in declaration order as the primary
    /// language of new dictionaries; false, with nothing changed, where there
    /// is none.
    pub fn select_master_language(&mut self, selected: usize) -> (changed: bool)
        ensures
            changed == (selected < 5),
            final(self).spec_master_language() == if changed {
                crate::languages::all_languages()[selected as int]
            } else {
                old(self).spec_master_language()
            },
            final(self).spec_theme() == old(self).spec_theme(),
            final(self).spec_internal_path() == old(self).spec_internal_path(),
            final(self).spec_ui_language() == old(self).spec_ui_language(),
    {
        match Languages::from_index(selected) {
            Some(language) => {
                self.default_master_language = language;
                true
            },
            None => false,
        }
    }

    /// The settings saved in `saved`: its theme and interface language, and
    /// the language whose localised name it holds, English where none has it.
    /// No directory of the editor's own data is saved.
    pub fn from_saved(saved: SaveSettings1, names: &LanguageNames) -> (s: Self)
        ensures
            s.spec_theme() == saved.theme,
            s.spec_internal_path() is None,
            s.spec_master_language() == match first_language_named(names, saved.default_master_language@) {
                Some(l) => l,
                None => Language::English,
            },
            s.spec_ui_language() == saved.ui_language@,
    {
        let default_master_language = match Languages::find_language(saved.default_master_language.as_str(), names) {
            Some(language) => language,
            None => Language::English,
        };
        Settings {
            theme: saved.theme,
            internal_path: None,
            default_master_language,
            ui_language: saved.ui_language,
        }
    }

    /// The settings in their saved form: the current version, the theme,
    /// the localised name of the primary language and the interface language.
    pub fn to_saved(&self, names: &LanguageNames) -> (s: SaveSettings1)
        ensures
            s.save_version == SAVE1_VERSION,
            s.theme == self.spec_theme(),
            s.default_master_language@ == names.name_of(self.spec_master_language()),
            s.ui_language@ == self.spec_ui_language(),
    {
        SaveSettings1 {
            save_version: SAVE1_VERSION,
            theme: self.theme,
            default_master_language: self.default_master_language.name(names),
            ui_language: self.ui_language.clone(),
        }
    }
}

} // verus!
