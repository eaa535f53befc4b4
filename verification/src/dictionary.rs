//! The dictionary: a primary language, the tags of its lines and the
//! translations loaded against those tags, with the state of what the editor
//! shows and the version history of the content.

use vstd::prelude::*;

use crate::externals::semver_text;
use crate::languages::{
    Language, LanguageNames, Languages, all_languages, entry_lt, lemma_entry_lt_irreflexive,
    lemma_language_at_index, offered_index,
};
use crate::loader::{Loaded, primary_view, tagged_view};
use crate::tags::{views, sorted_strictly};
use crate::text::{chars_to_string, decimal, joined, to_chars};
use crate::translation::{Translation, TranslationView, current_text};
use crate::vrt::{LoadError, LoadFormat, all_lines_valid, decoded_lines, vrt_buffer_safe, vrt_entries};

verus! {

/// Whether a line's text is the adopted one or a modification in progress.
#[derive(Debug, Clone, Copy, PartialEq, Eq, Structural, PartialOrd, Ord, Hash)]
pub enum ContentType {
    Master,
    InProgress,
}

/// How a later load of a translation is taken in.
#[derive(Debug, Clone, Copy, PartialEq, Eq, Structural)]
pub enum UpdateReplace {
    /// Loaded lines become modifications of the current lines.
    Update,
    /// Loaded lines replace the current lines.
    Replace,
}

/// Where a language's files come from.
#[derive(Debug, Clone, Copy, PartialEq, Eq, Structural, Hash)]
pub enum Location {
    Internal,
    External,
    InProgress,
}

pub const JSON_EXT: &'static str = "json";
pub const CSV_EXT: &'static str = "csv";
pub const XLSX_EXT: &'static str = "xlsx";

/// The texts of a sequence of string slices.
pub open spec fn str_views(v: Seq<&str>) -> Seq<Seq<char>> {
    v.map_values(|s: &str| s@)
}

impl Location {
    /// The file extensions tried for the location, in order.
    pub open spec fn spec_extensions(self) -> Seq<Seq<char>> {
        match self {
            Location::Internal => seq![JSON_EXT@, crate::languages::INTERNAL_EXT@],
            Location::External => seq![crate::languages::INTERNAL_EXT@],
            Location::InProgress => seq![CSV_EXT@, JSON_EXT@],
        }
    }

    pub fn extensions(&self) -> (v: Vec<&'static str>)
        ensures
            str_views(v@) == self.spec_extensions(),
            v.len() == self.spec_extensions().len(),
            forall|i: int| 0 <= i < v.len() ==> #[trigger] v@[i]@ == self.spec_extensions()[i],
    {
        let v = match self {
            Location::Internal => vec![JSON_EXT, crate::languages::INTERNAL_EXT],
            Location::External => vec![crate::languages::INTERNAL_EXT],
            Location::InProgress => vec![CSV_EXT, JSON_EXT],
        };
        assert(str_views(v@) =~= self.spec_extensions());
        v
    }

    /// The names a language's file may have at the location, in the order
    /// they are tried: `name` with each of the location's extensions in place
    /// of its own (see `with_extension`).
    pub fn file_names(&self, name: &str) -> (v: Vec<String>)
        ensures
            v.len() == self.spec_extensions().len(),
            forall|i: int| 0 <= i < v.len() ==> #[trigger] v@[i]@ == with_extension(name@, self.spec_extensions()[i]),
    {
        let exts = self.extensions();
        let mut v: Vec<String> = Vec::new();
        let mut i: usize = 0;
        while i < exts.len()
            invariant
                i <= exts.len(),
                v.len() == i,
                str_views(exts@) == self.spec_extensions(),
                forall|k: int| 0 <= k < i ==> #[trigger] v@[k]@ == with_extension(name@, self.spec_extensions()[k]),
            decreases exts.len() - i,
        {
            proof {
                assert(exts@.map_values(|s: &str| s@)[i as int] == exts@[i as int]@);
            }
            v.push(set_extension(name, exts[i]));
            i = i + 1;
        }
        v
    }

    /// The location's name: `internal`, `external` or `translation`.
    pub fn to_text(&self) -> (s: &'static str)
        ensures
            s@ == match self {
                Location::Internal => "internal"@,
                Location::External => "external"@,
                Location::InProgress => "translation"@,
            },
    {
        match self {
            Location::Internal => "internal",
            Location::External => "external",
            Location::InProgress => "translation",
        }
    }
}

/// A file name with its extension set to `ext`: the part after its last
/// dot is replaced, unless that dot is its first character; a name with no
/// such dot gets `.` and `ext` added.
pub open spec fn with_extension(name: Seq<char>, ext: Seq<char>) -> Seq<char> {
    match crate::vrt::last_index(name, '.') {
        Some(i) => if i > 0 {
            name.subrange(0, i) + seq!['.'] + ext
        } else {
            name + seq!['.'] + ext
        },
        None => name + seq!['.'] + ext,
    }
}

/// A file name with its extension set to `ext`: see `with_extension`.
pub fn set_extension(name: &str, ext: &str) -> (s: String)
    ensures
        s@ == with_extension(name@, ext@),
{
    let chars = to_chars(name);
    let mut k = chars.len();
    while k > 0 && chars[k - 1] != '.'
        invariant
            k <= chars.len(),
            chars@ == name@,
            forall|j: int| k <= j < chars.len() ==> chars@[j] != '.',
        decreases k,
    {
        k = k - 1;
    }
    proof {
        crate::vrt::lemma_last_index(name@, '.');
        if k > 0 {
            assert(name@[k - 1] == '.');
            match crate::vrt::last_index(name@, '.') {
                Some(i) => {
                    if i < k - 1 {
                        assert(name@[k - 1] != '.');
                    }
                    if i > k - 1 {
                        assert(name@[i] != '.');
                    }
                },
                None => {},
            }
        } else {
            match crate::vrt::last_index(name@, '.') {
                Some(i) => {
                    assert(name@[i] != '.');
                },
                None => {},
            }
        }
        reveal_strlit(".");
    }
    let stem = if k > 1 {
        chars_to_string(&chars, 0, k - 1)
    } else {
        proof {
            assert(chars@.subrange(0, chars@.len() as int) =~= chars@);
        }
        chars_to_string(&chars, 0, chars.len())
    };
    let head = joined(stem.as_str(), ".");
    joined(head.as_str(), ext)
}

/// The kind of a translation held by the dictionary, ordered from the
/// dictionary's own content to content handed in from outside.
#[derive(Debug, PartialEq, Eq, Structural, Clone, Copy, PartialOrd, Ord, Hash)]
pub enum LanguageType {
    Internal,
    InProgress,
    External,
}

impl LanguageType {
    /// The position of the kind in its order.
    pub open spec fn rank(self) -> nat {
        match self {
            LanguageType::Internal => 0,
            LanguageType::InProgress => 1,
            LanguageType::External => 2,
        }
    }

    pub fn ordinal(&self) -> (r: u8)
        ensures
            r == self.rank(),
    {
        match self {
            LanguageType::Internal => 0,
            LanguageType::InProgress => 1,
            LanguageType::External => 2,
        }
    }

    /// The kind's name: `internal`, `translation` or `external`.
    pub fn to_text(&self) -> (s: &'static str)
        ensures
            s@ == match self {
                LanguageType::Internal => "internal"@,
                LanguageType::InProgress => "translation"@,
                LanguageType::External => "external"@,
            },
    {
        match self {
            LanguageType::Internal => "internal",
            LanguageType::InProgress => "translation",
            LanguageType::External => "external",
        }
    }
}

// -------------------
// DictionaryVersion

/// A version of the dictionary's content: a semantic version and a note.
#[derive(Debug)]
pub struct DictionaryVersion {
    pub major: u32,
    pub minor: u32,
    pub patch: u32,
    pub note: String,
}

/// A version as (major, minor, patch, note).
pub type VersionView = (u32, u32, u32, Seq<char>);

impl View for DictionaryVersion {
    type V = VersionView;

    open spec fn view(&self) -> VersionView {
        (self.major, self.minor, self.patch, self.note@)
    }
}

/// A version as text: `major.minor.patch (note)`.
pub open spec fn version_text(v: VersionView) -> Seq<char> {
    decimal(v.0 as nat) + seq!['.'] + decimal(v.1 as nat) + seq!['.'] + decimal(v.2 as nat) + " ("@ + v.3 + ")"@
}

/// `a` is an earlier version number than `b`.
pub open spec fn version_lt(a: VersionView, b: VersionView) -> bool {
    a.0 < b.0 || (a.0 == b.0 && (a.1 < b.1 || (a.1 == b.1 && a.2 < b.2)))
}

/// Each new version is later than the one it follows: a new major, minor
/// or patch version alike.
pub proof fn lemma_new_versions_later(v: VersionView, note: Seq<char>)
    ensures
        v.0 < u32::MAX ==> version_lt(v, ((v.0 + 1) as u32, 0u32, 0u32, note)),
        v.1 < u32::MAX ==> version_lt(v, (v.0, (v.1 + 1) as u32, 0u32, note)),
        v.2 < u32::MAX ==> version_lt(v, (v.0, v.1, (v.2 + 1) as u32, note)),
        !version_lt(v, v),
{
}

impl DictionaryVersion {
    /// The first version, 1.0.0, with the given note.
    pub fn initial(note: String) -> (v: Self)
        ensures
            v@ == (1u32, 0u32, 0u32, note@),
    {
        DictionaryVersion { major: 1, minor: 0, patch: 0, note }
    }

    /// A copy of the version.
    pub fn duplicate(&self) -> (v: Self)
        ensures
            v@ == self@,
    {
        DictionaryVersion { major: self.major, minor: self.minor, patch: self.patch, note: self.note.clone() }
    }

    /// A new major version sets minor and patch to 0, and carries a new note.
    pub fn new_major_version(&self, note: String) -> (v: Self)
        requires
            self.major < u32::MAX,
        ensures
            v@ == ((self.major + 1) as u32, 0u32, 0u32, note@),
    {
        DictionaryVersion { major: self.major + 1, minor: 0, patch: 0, note }
    }

    /// A new minor version keeps the major, sets the patch to 0, and carries a new note.
    pub fn new_minor_version(&self, note: String) -> (v: Self)
        requires
            self.minor < u32::MAX,
        ensures
            v@ == (self.major, (self.minor + 1) as u32, 0u32, note@),
    {
        DictionaryVersion { major: self.major, minor: self.minor + 1, patch: 0, note }
    }

    /// A new patch version keeps the major and minor, and carries a new note.
    pub fn new_patch_version(&self, note: String) -> (v: Self)
        requires
            self.patch < u32::MAX,
        ensures
            v@ == (self.major, self.minor, (self.patch + 1) as u32, note@),
    {
        DictionaryVersion { major: self.major, minor: self.minor, patch: self.patch + 1, note }
    }

    /// `major.minor.patch (note)`.
    pub fn to_text(&self) -> (s: String)
        ensures
            s@ == version_text(self@),
    {
        let v = semver_text(self.major, self.minor, self.patch);
        let a = joined(v.as_str(), " (");
        let b = joined(a.as_str(), self.note.as_str());
        joined(b.as_str(), ")")
    }
}

// -------------------
// ContentVersions

/// The current version of each kind of content.
#[derive(Debug)]
pub struct ContentVersions {
    master: DictionaryVersion,
    in_progress: DictionaryVersion,
}

impl ContentVersions {
    /// The current version of a kind of content.
    pub closed spec fn version(&self, c: ContentType) -> VersionView {
        match c {
            ContentType::Master => self.master@,
            ContentType::InProgress => self.in_progress@,
        }
    }

    /// Every kind of content at the first version, with the given note.
    pub fn new(initial_note: String) -> (v: Self)
        ensures
            forall|c: ContentType| #[trigger] v.version(c) == (1u32, 0u32, 0u32, initial_note@),
    {
        let first_ver = DictionaryVersion::initial(initial_note);
        let second = first_ver.duplicate();
        ContentVersions { master: first_ver, in_progress: second }
    }

    pub fn current_version(&self, version: ContentType) -> (v: &DictionaryVersion)
        ensures
            v@ == self.version(version),
    {
        match version {
            ContentType::Master => &self.master,
            ContentType::InProgress => &self.in_progress,
        }
    }

    /// Takes in an update to one kind of content: the adopted content gets a
    /// new minor version, content in progress a new patch version. The other
    /// kind keeps its version.
    pub fn incremental_version(&mut self, version: ContentType, note: String)
        requires
            version == ContentType::Master ==> old(self).version(version).1 < u32::MAX,
            version == ContentType::InProgress ==> old(self).version(version).2 < u32::MAX,
        ensures
            final(self).version(version) == match version {
                ContentType::Master => {
                    let v = old(self).version(version);
                    (v.0, (v.1 + 1) as u32, 0u32, note@)
                },
                ContentType::InProgress => {
                    let v = old(self).version(version);
                    (v.0, v.1, (v.2 + 1) as u32, note@)
                },
            },
            forall|c: ContentType| c != version ==> #[trigger] final(self).version(c) == old(self).version(c),
    {
        match version {
            ContentType::Master => {
                let v = self.master.new_minor_version(note);
                self.master = v;
            },
            ContentType::InProgress => {
                let v = self.in_progress.new_patch_version(note);
                self.in_progress = v;
            },
        }
    }

    /// Each kind of content with its current version, adopted content first:
    /// `{master_label}: {version}, {in_progress_label}: {version}`. The labels
    /// are the names shown for the two kinds.
    pub fn to_text(&self, master_label: &str, in_progress_label: &str) -> (s: String)
        ensures
            s@ == master_label@ + ": "@ + version_text(self.version(ContentType::Master)) + ", "@
                + in_progress_label@ + ": "@ + version_text(self.version(ContentType::InProgress)),
    {
        let m = self.master.to_text();
        let p = self.in_progress.to_text();
        let a = joined(master_label, ": ");
        let b = joined(a.as_str(), m.as_str());
        let c = joined(b.as_str(), ", ");
        let d = joined(c.as_str(), in_progress_label);
        let e = joined(d.as_str(), ": ");
        joined(e.as_str(), p.as_str())
    }

    /// Moves everything to a new major version of the adopted content.
    pub fn major_version(&mut self, note: String)
        requires
            old(self).version(ContentType::Master).0 < u32::MAX,
        ensures
            forall|c: ContentType| #[trigger] final(self).version(c) == (
                (old(self).version(ContentType::Master).0 + 1) as u32,
                0u32,
                0u32,
                note@,
            ),
    {
        let new_version = self.master.new_major_version(note);
        let copy = new_version.duplicate();
        self.master = new_version;
        self.in_progress = copy;
    }
}

// -------------------
// Location paths

/// The paths the dictionary's files were found at, by location.
#[derive(Debug)]
pub struct LocationPaths {
    paths: Vec<(Location, String)>,
}

impl LocationPaths {
    pub closed spec fn spec_get(&self, location: Location) -> Option<Seq<char>> {
        if exists|i: int| 0 <= i < self.paths.len() && self.paths@[i].0 == location {
            let i = choose|i: int|
                0 <= i < self.paths.len() && self.paths@[i].0 == location && forall|j: int|
                    0 <= j < i ==> self.paths@[j].0 != location;
            Some(self.paths@[i].1@)
        } else {
            None
        }
    }

    /// Paths holding only `base_path` for `base_loc`.
    pub fn new(base_loc: Location, base_path: String) -> (p: Self)
        ensures
            p.spec_get(base_loc) == Some(base_path@),
            forall|l: Location| l != base_loc ==> #[trigger] p.spec_get(l) is None,
    {
        let p = LocationPaths { paths: vec![(base_loc, base_path)] };
        proof {
            assert(p.paths@[0].0 == base_loc);
            let k = choose|k: int|
                0 <= k < p.paths.len() && p.paths@[k].0 == base_loc && forall|j: int|
                    0 <= j < k ==> p.paths@[j].0 != base_loc;
            assert(k == 0);
        }
        p
    }

    /// The path for a location, with the location.
    pub fn get_path(&self, location: Location) -> (r: Option<(Location, &str)>)
        ensures
            r matches Some(p) ==> p.0 == location && self.spec_get(location) == Some(p.1@),
            r is None ==> self.spec_get(location) is None,
    {
        let mut i: usize = 0;
        while i < self.paths.len()
            invariant
                i <= self.paths.len(),
                forall|j: int| 0 <= j < i ==> self.paths@[j].0 != location,
            decreases self.paths.len() - i,
        {
            if self.paths[i].0 == location {
                proof {
                    let k = choose|k: int|
                        0 <= k < self.paths.len() && self.paths@[k].0 == location && forall|j: int|
                            0 <= j < k ==> self.paths@[j].0 != location;
                    assert(0 <= k < self.paths.len() && self.paths@[k].0 == location);
                    if k < i {
                        assert(self.paths@[k].0 != location);
                    }
                    if i < k {
                        assert(self.paths@[i as int].0 != location);
                    }
                }
                return Some((location, self.paths[i].1.as_str()));
            }
            i = i + 1;
        }
        None
    }
}

// -------------------
// Words

/// The greatest kind under which `m` holds a translation of `l`.
pub open spec fn best_kind(m: Map<(Language, LanguageType), TranslationView>, l: Language) -> Option<LanguageType> {
    if m.contains_key((l, LanguageType::External)) {
        Some(LanguageType::External)
    } else if m.contains_key((l, LanguageType::InProgress)) {
        Some(LanguageType::InProgress)
    } else if m.contains_key((l, LanguageType::Internal)) {
        Some(LanguageType::Internal)
    } else {
        None
    }
}

/// The translation shown for a language other than the primary one is held
/// under the greatest of its kinds, in the order internal, in progress,
/// external: every kind the language is held under is that kind, or the
/// internal kind, or the shown kind is the external one. None is shown
/// exactly when the language is held under no kind.
pub proof fn lemma_shown_is_greatest_kind(m: Map<(Language, LanguageType), TranslationView>, l: Language)
    ensures
        best_kind(m, l) is None <==> forall|k: LanguageType| !#[trigger] m.contains_key((l, k)),
        best_kind(m, l) matches Some(b) ==> m.contains_key((l, b)) && forall|k: LanguageType|
            #[trigger] m.contains_key((l, k)) ==> k == b || k == LanguageType::Internal || b
                == LanguageType::External,
{
    if best_kind(m, l) is None {
        assert forall|k: LanguageType| !#[trigger] m.contains_key((l, k)) by {
            match k {
                LanguageType::Internal => {},
                LanguageType::InProgress => {},
                LanguageType::External => {},
            }
        }
    }
}

/// What a dictionary shows for a language other than its primary one is the
/// translation held under the greatest of the language's kinds (internal,
/// then in progress, then external), and nothing where none is held.
pub proof fn lemma_dictionary_shows_greatest_kind(d: &Dictionary, l: Language)
    requires
        l != d.primary(),
    ensures
        d.shown(l) is None <==> forall|k: LanguageType| !#[trigger] d.translations_held().contains_key((l, k)),
        d.shown(l) matches Some(t) ==> exists|b: LanguageType| #[trigger] d.translations_held().contains_key((l, b))
            && d.translations_held()[(l, b)] == t && forall|k: LanguageType| #[trigger] d.translations_held().contains_key(
            (l, k)) ==> k == b || k == LanguageType::Internal || b == LanguageType::External,
{
    lemma_shown_is_greatest_kind(d.translations_held(), l);
}

/// A translation held under its language and kind.
#[derive(Debug)]
struct TranslationSlot {
    language: Language,
    kind: LanguageType,
    translation: Translation,
}

/// The tags, the primary language's lines and the translations of a dictionary.
#[derive(Debug)]
struct Words {
    master: Translation,
    tags: Vec<String>,
    core_translations: Vec<TranslationSlot>,
    work_translations: Vec<TranslationSlot>,
    master_context: Vec<String>,
    versions: ContentVersions,
}

impl Words {
    #[verifier::type_invariant]
    closed spec fn inv(self) -> bool {
        &&& forall|i: int, j: int|
            0 <= i < j < self.core_translations.len() ==> (self.core_translations@[i].language, self.core_translations@[i].kind)
                != (self.core_translations@[j].language, self.core_translations@[j].kind)
        &&& forall|i: int| 0 <= i < self.core_translations.len() ==> #[trigger] self.core_translations@[i].translation@.language
            == self.core_translations@[i].language
    }

    closed spec fn slots(&self) -> Map<(Language, LanguageType), TranslationView> {
        Map::new(
            |k: (Language, LanguageType)|
                exists|i: int|
                    0 <= i < self.core_translations.len() && (self.core_translations@[i].language, self.core_translations@[i].kind) == k,
            |k: (Language, LanguageType)|
                {
                    let i = choose|i: int|
                        0 <= i < self.core_translations.len() && (self.core_translations@[i].language, self.core_translations@[i].kind) == k;
                    self.core_translations@[i].translation@
                },
        )
    }

    proof fn lemma_slot(&self, i: int)
        requires
            self.inv(),
            0 <= i < self.core_translations.len(),
        ensures
            self.slots().contains_key((self.core_translations@[i].language, self.core_translations@[i].kind)),
            self.slots()[(self.core_translations@[i].language, self.core_translations@[i].kind)]
                == self.core_translations@[i].translation@,
    {
        let k = (self.core_translations@[i].language, self.core_translations@[i].kind);
        assert(self.slots().contains_key(k));
        let j = choose|j: int|
            0 <= j < self.core_translations.len() && (self.core_translations@[j].language, self.core_translations@[j].kind) == k;
        if j != i {
            assert((self.core_translations@[j].language, self.core_translations@[j].kind) != k);
        }
    }

    /// A translation held under a language is a translation of that language.
    proof fn lemma_slot_language(&self, k: (Language, LanguageType))
        requires
            self.inv(),
            self.slots().contains_key(k),
        ensures
            self.slots()[k].language == k.0,
    {
        let j = choose|j: int|
            0 <= j < self.core_translations.len() && (self.core_translations@[j].language, self.core_translations@[j].kind) == k;
        self.lemma_slot(j);
    }

    /// Whether a translation of `language` is held under any kind.
    fn holds_language(&self, language: Language) -> (r: bool)
        ensures
            r == (best_kind(self.slots(), language) is Some),
    {
        let mut i: usize = 0;
        while i < self.core_translations.len()
            invariant
                i <= self.core_translations.len(),
                forall|j: int| 0 <= j < i ==> self.core_translations@[j].language != language,
            decreases self.core_translations.len() - i,
        {
            if self.core_translations[i].language == language {
                proof {
                    let k = self.core_translations@[i as int].kind;
                    assert(self.slots().contains_key((language, k)));
                }
                return true;
            }
            i = i + 1;
        }
        proof {
            assert forall|k: LanguageType| !self.slots().contains_key((language, k)) by {
                if self.slots().contains_key((language, k)) {
                    let j = choose|j: int|
                        0 <= j < self.core_translations.len() && (self.core_translations@[j].language, self.core_translations@[j].kind) == (language, k);
                    assert(self.core_translations@[j].language == language);
                }
            }
        }
        false
    }

    fn new(master: Translation, tags: Vec<String>, versions: ContentVersions) -> (w: Self)
        ensures
            w.slots() == Map::<(Language, LanguageType), TranslationView>::empty(),
            w.master@ == master@,
            w.tags@ == tags@,
            w.master_context@ == Seq::<String>::empty(),
            forall|c: ContentType| #[trigger] w.versions.version(c) == versions.version(c),
    {
        let w = Words {
            master,
            tags,
            core_translations: Vec::new(),
            work_translations: Vec::new(),
            master_context: Vec::new(),
            versions,
        };
        assert(w.slots() =~= Map::<(Language, LanguageType), TranslationView>::empty());
        w
    }

    /// The languages holding a translation, each once.
    fn translation_languages(&self) -> (v: Vec<Language>)
        ensures
            v@.no_duplicates(),
            forall|l: Language| v@.contains(l) <==> best_kind(self.slots(), l) is Some,
    {
        proof {
            use_type_invariant(self);
        }
        let mut v: Vec<Language> = Vec::new();
        let mut i: usize = 0;
        while i < self.core_translations.len()
            invariant
                i <= self.core_translations.len(),
                v@.no_duplicates(),
                forall|l: Language| v@.contains(l) <==> exists|j: int| 0 <= j < i && self.core_translations@[j].language == l,
            decreases self.core_translations.len() - i,
        {
            let l = self.core_translations[i].language;
            let ghost v0 = v@;
            if !crate::languages::contains_language(&v, l) {
                v.push(l);
                proof {
                    crate::loader::lemma_push_contains(v0, l);
                }
            }
            proof {
                assert forall|m: Language| v@.contains(m) <==> exists|j: int| 0 <= j < i + 1 && self.core_translations@[j].language == m by {
                    if exists|j: int| 0 <= j < i + 1 && self.core_translations@[j].language == m {
                        let j = choose|j: int| 0 <= j < i + 1 && self.core_translations@[j].language == m;
                        if j < i {
                            assert(v0.contains(m));
                        }
                    }
                    if v0.contains(m) {
                        let j = choose|j: int| 0 <= j < i && self.core_translations@[j].language == m;
                        assert(0 <= j < i + 1 && self.core_translations@[j].language == m);
                    }
                    if m == l {
                        assert(self.core_translations@[i as int].language == m);
                    }
                }
            }
            i = i + 1;
        }
        proof {
            assert forall|l: Language| v@.contains(l) <==> best_kind(self.slots(), l) is Some by {
                if v@.contains(l) {
                    let j = choose|j: int| 0 <= j < i && self.core_translations@[j].language == l;
                    self.lemma_slot(j);
                    let k = self.core_translations@[j].kind;
                    assert(self.slots().contains_key((l, k)));
                }
                if best_kind(self.slots(), l) is Some {
                    let k = best_kind(self.slots(), l)->0;
                    assert(self.slots().contains_key((l, k)));
                    let j = choose|j: int|
                        0 <= j < self.core_translations.len() && (self.core_translations@[j].language, self.core_translations@[j].kind) == (l, k);
                    assert(self.core_translations@[j].language == l);
                }
            }
        }
        v
    }

    /// Adds a translation under its language and `language_type`, unless the
    /// dictionary already holds one under both.
    fn add_translation(&mut self, translation: &Translation, language_type: LanguageType)
        ensures
            final(self).slots() == if old(self).slots().contains_key((translation@.language, language_type)) {
                old(self).slots()
            } else {
                old(self).slots().insert((translation@.language, language_type), translation@)
            },
            final(self).master@ == old(self).master@,
            final(self).tags@ == old(self).tags@,
            final(self).master_context@ == old(self).master_context@,
            forall|c: ContentType| #[trigger] final(self).versions.version(c) == old(self).versions.version(c),
    {
        proof {
            use_type_invariant(&*self);
        }
        let language = *translation.language();
        let mut i: usize = 0;
        while i < self.core_translations.len()
            invariant
                self.inv(),
                *self == *old(self),
                language == translation@.language,
                i <= self.core_translations.len(),
                forall|j: int| 0 <= j < i ==> (self.core_translations@[j].language, self.core_translations@[j].kind) != (language, language_type),
            decreases self.core_translations.len() - i,
        {
            if self.core_translations[i].language == language && self.core_translations[i].kind == language_type {
                proof {
                    self.lemma_slot(i as int);
                }
                return;
            }
            i = i + 1;
        }
        let ghost old_slots = self.slots();
        let slot = TranslationSlot { language, kind: language_type, translation: translation.duplicate() };
        let mut core: Vec<TranslationSlot> = Vec::new();
        std::mem::swap(&mut core, &mut self.core_translations);
        let ghost old_core = core@;
        core.push(slot);
        self.core_translations = core;
        proof {
            let k0 = (language, language_type);
            let n = old_core.len() as int;
            assert(!old_slots.contains_key(k0)) by {
                if old_slots.contains_key(k0) {
                    let j = choose|j: int| 0 <= j < old_core.len() && (old_core[j].language, old_core[j].kind) == k0;
                    assert((old_core[j].language, old_core[j].kind) != k0);
                }
            }
            assert forall|k: (Language, LanguageType)| #[trigger] self.slots().contains_key(k) == old_slots.insert(k0, translation@).contains_key(k) by {
                if self.slots().contains_key(k) {
                    let j = choose|j: int| 0 <= j < self.core_translations.len() && (self.core_translations@[j].language, self.core_translations@[j].kind) == k;
                    if j < n {
                        assert(old_core[j] == self.core_translations@[j]);
                        assert(old_slots.contains_key(k));
                    }
                }
                if old_slots.contains_key(k) {
                    let j = choose|j: int| 0 <= j < old_core.len() && (old_core[j].language, old_core[j].kind) == k;
                    assert(self.core_translations@[j] == old_core[j]);
                }
                if k == k0 {
                    assert(self.core_translations@[n].language == language);
                }
            }
            assert forall|k: (Language, LanguageType)| self.slots().contains_key(k) implies #[trigger] self.slots()[k] == old_slots.insert(k0, translation@)[k] by {
                let j = choose|j: int| 0 <= j < self.core_translations.len() && (self.core_translations@[j].language, self.core_translations@[j].kind) == k;
                self.lemma_slot(j);
                if j < n {
                    assert(self.core_translations@[j] == old_core[j]);
                    old(self).lemma_slot(j);
                }
            }
            assert(self.slots() =~= old_slots.insert(k0, translation@));
        }
    }

    /// The translation shown for a language, with its kind: the primary
    /// language's own lines for it, else the one of greatest kind.
    fn translation_language(&self, language: Language) -> (r: Option<(&Translation, LanguageType)>)
        ensures
            language == self.master@.language ==> (r matches Some(p) && p.0@ == self.master@ && p.1 == LanguageType::Internal),
            language != self.master@.language ==> match best_kind(self.slots(), language) {
                Some(k) => (r matches Some(p) && p.1 == k && p.0@ == self.slots()[(language, k)]),
                None => r is None,
            },
    {
        proof {
            use_type_invariant(self);
        }
        if language == *self.master.language() {
            return Some((&self.master, LanguageType::Internal));
        }
        let mut best: Option<usize> = None;
        let mut i: usize = 0;
        while i < self.core_translations.len()
            invariant
                i <= self.core_translations.len(),
                best matches Some(b) ==> b < i && self.core_translations@[b as int].language == language
                    && forall|j: int| 0 <= j < i && self.core_translations@[j].language == language
                        ==> self.core_translations@[j].kind.rank() <= self.core_translations@[b as int].kind.rank(),
                best is None ==> forall|j: int| 0 <= j < i ==> self.core_translations@[j].language != language,
            decreases self.core_translations.len() - i,
        {
            if self.core_translations[i].language == language {
                match best {
                    Some(b) => {
                        if self.core_translations[i].kind.ordinal() > self.core_translations[b].kind.ordinal() {
                            best = Some(i);
                        }
                    },
                    None => {
                        best = Some(i);
                    },
                }
            }
            i = i + 1;
        }
        match best {
            Some(b) => {
                proof {
                    self.lemma_slot(b as int);
                    let kb = self.core_translations@[b as int].kind;
                    assert forall|k: LanguageType| self.slots().contains_key((language, k)) implies k.rank() <= kb.rank() by {
                        let j = choose|j: int| 0 <= j < self.core_translations.len() && (self.core_translations@[j].language, self.core_translations@[j].kind) == (language, k);
                        assert(self.core_translations@[j].language == language);
                    }
                    assert(self.slots().contains_key((language, kb)));
                }
                Some((&self.core_translations[b].translation, self.core_translations[b].kind))
            },
            None => {
                proof {
                    assert forall|k: LanguageType| !self.slots().contains_key((language, k)) by {
                        if self.slots().contains_key((language, k)) {
                            let j = choose|j: int| 0 <= j < self.core_translations.len() && (self.core_translations@[j].language, self.core_translations@[j].kind) == (language, k);
                            assert(self.core_translations@[j].language != language);
                        }
                    }
                }
                None
            },
        }
    }
}

// -------------------
// What the editor shows

/// The page of the dictionary the editor shows.
#[derive(Debug, Clone, Copy, PartialEq, Eq, Structural)]
pub enum DictionaryState {
    Overview,
    Primary,
    Translation(Language),
    Export,
}

impl Default for DictionaryState {
    fn default() -> (s: Self)
        ensures
            s == DictionaryState::Overview,
    {
        DictionaryState::Overview
    }
}

/// Every entry of `list` names a known language, and one names `selected`.
spec fn offers(list: Seq<(usize, String)>, selected: Language) -> bool {
    &&& forall|i: int| 0 <= i < list.len() ==> #[trigger] list[i].0 < 5
    &&& exists|i: int| 0 <= i < list.len() && #[trigger] list[i].0 == selected.index()
}

/// What the editor shows of a dictionary and how.
#[derive(Debug)]
pub struct ShowState {
    state: DictionaryState,
    selected_translation: Language,
    selected_tag: usize,
    export_only_new: bool,
    export_existing: bool,
    export_combine: bool,
    translation_list: Vec<(usize, String)>,
}

/// `v` offers every language but `not` once, as (index, localised name),
/// sorted by name (equal names in declaration order).
pub open spec fn offers_others(v: Seq<(usize, Seq<char>)>, not: Language, names: &LanguageNames) -> bool {
    &&& v.len() == 4
    &&& forall|i: int| 0 <= i < 4 ==> (#[trigger] v[i]).0 < 5 && v[i].0 != not.index()
        && v[i].1 == names.name_of(all_languages()[v[i].0 as int])
    &&& forall|i: int, j: int| 0 <= i < j < 4 ==> entry_lt(v[i], v[j])
    &&& forall|j: int| #[trigger] offered_index(Some(not), j) ==> exists|i: int| 0 <= i < 4 && v[i].0 == j
}

/// The entries of a list of (index, name) pairs, names taken by view.
pub open spec fn entry_views(v: Seq<(usize, String)>) -> Seq<(usize, Seq<char>)> {
    v.map_values(|p: (usize, String)| (p.0, p.1@))
}

impl ShowState {
    #[verifier::type_invariant]
    closed spec fn inv(self) -> bool {
        offers(self.translation_list@, self.selected_translation)
    }

    /// The page shown.
    pub closed spec fn page(&self) -> DictionaryState {
        self.state
    }

    /// The translation selected.
    pub closed spec fn selection(&self) -> Language {
        self.selected_translation
    }

    /// The position of the tag selected.
    pub closed spec fn tag_position(&self) -> usize {
        self.selected_tag
    }

    /// The export options: only new lines, existing translations, combined.
    pub closed spec fn exports(&self) -> (bool, bool, bool) {
        (self.export_only_new, self.export_existing, self.export_combine)
    }

    /// The languages offered as translations, as (index, localised name).
    pub closed spec fn languages_offered(&self) -> Seq<(usize, Seq<char>)> {
        entry_views(self.translation_list@)
    }

    /// Shows the overview, offering every language but `not_selected` (in
    /// name order) and selecting the first of them as the translation.
    pub fn default_not(not_selected: Language, names: &LanguageNames) -> (s: Self)
        ensures
            s.page() == DictionaryState::Overview,
            s.tag_position() == 0,
            s.exports() == (false, false, false),
            offers_others(s.languages_offered(), not_selected, names),
            s.selection() == all_languages()[s.languages_offered()[0].0 as int],
            s.selection() != not_selected,
    {
        let translation_list = Languages::list_not(not_selected, names);
        let i = translation_list[0].0;
        let selected_translation = match Languages::from_index(i) {
            Some(l) => l,
            None => not_selected,
        };
        proof {
            assert(translation_list@[0].0 == i);
            lemma_index_of_all(i as int);
            assert(selected_translation.index() == i);
            assert(translation_list@[0].0 == selected_translation.index());
            assert(offers(translation_list@, selected_translation));
        }
        let s = ShowState {
            state: DictionaryState::Overview,
            selected_translation,
            selected_tag: 0,
            export_only_new: false,
            export_existing: false,
            export_combine: false,
            translation_list,
        };
        proof {
            assert forall|j: int| #[trigger] offered_index(Some(not_selected), j) implies exists|i: int| 0 <= i < 4 && s.languages_offered()[i].0 == j by {
                let k = choose|k: int| 0 <= k < s.translation_list.len() && s.translation_list@[k].0 == j;
                assert(s.languages_offered()[k].0 == j);
            }
        }
        s
    }

    /// Where the selected translation stands in the list of languages offered.
    fn selected_position(&self) -> (p: usize)
        ensures
            p < self.translation_list.len(),
            self.translation_list@[p as int].0 == self.selected_translation.index(),
    {
        proof {
            use_type_invariant(self);
        }
        let index = self.selected_translation.language_index();
        let mut p: usize = 0;
        while p < self.translation_list.len()
            invariant
                self.inv(),
                index == self.selected_translation.index(),
                p <= self.translation_list.len(),
                forall|j: int| 0 <= j < p ==> self.translation_list@[j].0 != index,
            decreases self.translation_list.len() - p,
        {
            if self.translation_list[p].0 == index {
                return p;
            }
            p = p + 1;
        }
        proof {
            let j = choose|j: int| 0 <= j < self.translation_list.len() && #[trigger] self.translation_list@[j].0 == self.selected_translation.index();
            assert(self.translation_list@[j].0 != index);
        }
        0
    }

}

proof fn lemma_index_of_all(i: int)
    requires
        0 <= i < 5,
    ensures
        all_languages()[i].index() == i,
{
}

/// A dictionary's primary language, its tags, their lines in every language
/// it holds, and what the editor shows of it.
#[derive(Debug)]
pub struct Dictionary {
    primary_language: Language,
    words: Words,
    show: ShowState,
}

/// The translations held after adding each of `ts` as an external one.
pub open spec fn add_all_external(
    slots: Map<(Language, LanguageType), TranslationView>,
    ts: Seq<TranslationView>,
) -> Map<(Language, LanguageType), TranslationView>
    decreases ts.len(),
{
    if ts.len() == 0 {
        slots
    } else {
        let prev = add_all_external(slots, ts.drop_last());
        let t = ts.last();
        if prev.contains_key((t.language, LanguageType::External)) {
            prev
        } else {
            prev.insert((t.language, LanguageType::External), t)
        }
    }
}

/// The translations held after holding `t` under language `l` and kind `k`,
/// unless one is held there already.
pub open spec fn hold(
    m: Map<(Language, LanguageType), TranslationView>,
    l: Language,
    k: LanguageType,
    t: TranslationView,
) -> Map<(Language, LanguageType), TranslationView> {
    if m.contains_key((l, k)) {
        m
    } else {
        m.insert((l, k), t)
    }
}

/// The translations held after each step in turn: a translation, its
/// language and its kind.
pub open spec fn held_after(
    m: Map<(Language, LanguageType), TranslationView>,
    steps: Seq<(Language, LanguageType, TranslationView)>,
) -> Map<(Language, LanguageType), TranslationView>
    decreases steps.len(),
{
    if steps.len() == 0 {
        m
    } else {
        let s = steps.last();
        hold(held_after(m, steps.drop_last()), s.0, s.1, s.2)
    }
}

/// Translations as steps that hold each as an external one.
pub open spec fn as_external(ts: Seq<TranslationView>) -> Seq<(Language, LanguageType, TranslationView)> {
    ts.map_values(|t: TranslationView| (t.language, LanguageType::External, t))
}

/// Some language other than `primary` holds an external translation.
pub open spec fn has_external(m: Map<(Language, LanguageType), TranslationView>, primary: Language) -> bool {
    exists|l: Language| l != primary && #[trigger] m.contains_key((l, LanguageType::External))
}

/// Adding translations as external ones is holding each, in turn, as an
/// external one.
pub proof fn lemma_add_all_external_steps(
    m: Map<(Language, LanguageType), TranslationView>,
    ts: Seq<TranslationView>,
)
    ensures
        add_all_external(m, ts) == held_after(m, as_external(ts)),
    decreases ts.len(),
{
    if ts.len() > 0 {
        lemma_add_all_external_steps(m, ts.drop_last());
        assert(as_external(ts).drop_last() =~= as_external(ts.drop_last()));
    }
}

/// Holding the steps of `a` and then those of `b` is holding the steps of
/// both in order.
pub proof fn lemma_held_after_concat(
    m: Map<(Language, LanguageType), TranslationView>,
    a: Seq<(Language, LanguageType, TranslationView)>,
    b: Seq<(Language, LanguageType, TranslationView)>,
)
    ensures
        held_after(held_after(m, a), b) == held_after(m, a + b),
    decreases b.len(),
{
    if b.len() > 0 {
        lemma_held_after_concat(m, a, b.drop_last());
        assert((a + b).drop_last() =~= a + b.drop_last());
        assert((a + b).last() == b.last());
    } else {
        assert(a + b =~= a);
    }
}

/// A dictionary holds an external translation of a language other than its
/// primary one exactly when some step held one: starting from no translations
/// (as `Dictionary::new` leaves it), with each `load_translation` one step and
/// each `add_translations` the steps `as_external` gives, whatever the order
/// of the calls, `external_translations_empty` is true exactly when no step
/// is an external one for another language.
pub proof fn lemma_external_translations(primary: Language, steps: Seq<(Language, LanguageType, TranslationView)>)
    ensures
        has_external(held_after(Map::empty(), steps), primary) <==> exists|i: int|
            0 <= i < steps.len() && (#[trigger] steps[i]).0 != primary && steps[i].1 == LanguageType::External,
    decreases steps.len(),
{
    if steps.len() > 0 {
        let prev_steps = steps.drop_last();
        lemma_external_translations(primary, prev_steps);
        let prev = held_after(Map::empty(), prev_steps);
        let s = steps.last();
        let now = held_after(Map::empty(), steps);
        assert(now == hold(prev, s.0, s.1, s.2));
        if has_external(prev, primary) {
            let l = choose|l: Language| l != primary && #[trigger] prev.contains_key((l, LanguageType::External));
            assert(now.contains_key((l, LanguageType::External)));
            let i = choose|i: int| 0 <= i < prev_steps.len() && (#[trigger] prev_steps[i]).0 != primary
                && prev_steps[i].1 == LanguageType::External;
            assert(steps[i] == prev_steps[i]);
        } else {
            assert(forall|i: int| 0 <= i < prev_steps.len() ==> !((#[trigger] prev_steps[i]).0 != primary
                && prev_steps[i].1 == LanguageType::External));
            if s.0 != primary && s.1 == LanguageType::External {
                assert(now.contains_key((s.0, LanguageType::External)));
                assert(steps[steps.len() - 1] == s);
            } else {
                assert forall|l: Language| l != primary implies !#[trigger] now.contains_key((l, LanguageType::External)) by {
                    assert(!prev.contains_key((l, LanguageType::External)));
                }
                assert forall|i: int| 0 <= i < steps.len() implies !((#[trigger] steps[i]).0 != primary
                    && steps[i].1 == LanguageType::External) by {
                    if i < steps.len() - 1 {
                        assert(steps[i] == prev_steps[i]);
                    }
                }
            }
        }
    }
}

impl Dictionary {
    #[verifier::type_invariant]
    closed spec fn inv(self) -> bool {
        &&& self.words.master@.language == self.primary_language
        &&& self.words.master@.lines.len() == self.words.tags.len()
        &&& forall|i: int| 0 <= i < self.show.translation_list.len()
            ==> #[trigger] self.show.translation_list@[i].0 != self.primary_language.index()
        &&& (self.show.selected_tag == 0 || self.show.selected_tag < self.words.tags.len())
    }

    pub closed spec fn primary(&self) -> Language {
        self.primary_language
    }

    /// The tags of the primary language's lines, in their order.
    pub closed spec fn tag_list(&self) -> Seq<Seq<char>> {
        views(self.words.tags@)
    }

    /// The primary language's lines.
    pub closed spec fn master(&self) -> TranslationView {
        self.words.master@
    }

    /// The translations held, by language and kind.
    pub closed spec fn translations_held(&self) -> Map<(Language, LanguageType), TranslationView> {
        self.words.slots()
    }

    /// The translation shown for a language.
    pub open spec fn shown(&self, l: Language) -> Option<TranslationView> {
        if l == self.primary() {
            Some(self.master())
        } else {
            match best_kind(self.translations_held(), l) {
                Some(k) => Some(self.translations_held()[(l, k)]),
                None => None,
            }
        }
    }

    pub closed spec fn state(&self) -> DictionaryState {
        self.show.state
    }

    pub closed spec fn spec_selected_translation(&self) -> Language {
        self.show.selected_translation
    }

    pub closed spec fn spec_selected_tag(&self) -> usize {
        self.show.selected_tag
    }

    /// The languages offered as translations, as (index, localised name).
    pub closed spec fn offered(&self) -> Seq<(usize, Seq<char>)> {
        self.show.languages_offered()
    }

    /// The export options: only new lines, existing translations, combined.
    pub closed spec fn export_flags(&self) -> (bool, bool, bool) {
        self.show.exports()
    }

    /// The context of the primary language's lines, one per tag where known.
    pub closed spec fn context(&self) -> Seq<Seq<char>> {
        views(self.words.master_context@)
    }

    /// The current version of a kind of content.
    pub closed spec fn content_version(&self, c: ContentType) -> VersionView {
        self.words.versions.version(c)
    }

    /// Builds a dictionary from the primary language's `vrt` buffer: its tags
    /// are the loaded tags in sorted order and its lines the loaded lines.
    /// `names` are the localised language names and `initial_note` the note of
    /// the first version.
    pub fn new(primary_language: Language, buffer: &[u8], names: &LanguageNames, initial_note: String) -> (r: Result<Dictionary, LoadError>)
        requires
            vrt_buffer_safe(buffer@),
        ensures
            r is Ok <==> all_lines_valid(buffer@),
            r matches Err(e) ==> e == LoadError::InvalidUtf8,
            r matches Ok(d) ==> {
                let lv = primary_view(vrt_entries(decoded_lines(buffer@)));
                &&& d.primary() == primary_language
                &&& d.tag_list().to_set() == lv.tags.dom()
                &&& d.tag_list().len() == lv.tags.dom().len()
                &&& sorted_strictly(d.tag_list())
                &&& d.master() == crate::translation::translation_from(lv, primary_language, d.tag_list())
                &&& d.master().missing.len() == 0
                &&& d.translations_held() == Map::<(Language, LanguageType), TranslationView>::empty()
                &&& d.state() == DictionaryState::Overview
                &&& d.spec_selected_tag() == 0
                &&& d.spec_selected_translation() != primary_language
                &&& offers_others(d.offered(), primary_language, names)
                &&& d.spec_selected_translation() == all_languages()[d.offered()[0].0 as int]
                &&& d.export_flags() == (false, false, false)
                &&& d.context() == Seq::<Seq<char>>::empty()
                &&& forall|c: ContentType| #[trigger] d.content_version(c) == (1u32, 0u32, 0u32, initial_note@)
            },
    {
        let loaded = match Loaded::load_primary_language(LoadFormat::Vrt, buffer) {
            Ok(l) => l,
            Err(e) => return Err(e),
        };
        let tags = loaded.tags();
        let primary = Translation::from_loaded(&loaded, primary_language, &tags);
        let versions = ContentVersions::new(initial_note);
        let words = Words::new(primary, tags, versions);
        let show = ShowState::default_not(primary_language, names);
        proof {
            let lv = primary_view(vrt_entries(decoded_lines(buffer@)));
            assert forall|i: int| 0 <= i < views(tags@).len() implies lv.tags.contains_key(#[trigger] views(tags@)[i]) by {
                assert(views(tags@).to_set().contains(views(tags@)[i]));
            }
            crate::translation::lemma_complete_load_misses_nothing(lv, primary_language, views(tags@));
            assert(views(words.master_context@) =~= Seq::<Seq<char>>::empty());
            assert forall|i: int| 0 <= i < show.translation_list.len() implies #[trigger] show.translation_list@[i].0
                != primary_language.index() by {
                assert(show.languages_offered()[i].0 == show.translation_list@[i].0);
            }
        }
        Ok(Dictionary { primary_language, words, show })
    }

    /// Reads the lines of `language` out of its `vrt` buffer against the
    /// dictionary's tags and holds them under `language_type`, unless lines
    /// are already held under that language and kind.
    pub fn load_translation(&mut self, language: Language, buffer: &[u8], language_type: LanguageType) -> (r: Result<(), LoadError>)
        requires
            vrt_buffer_safe(buffer@),
        ensures
            r is Ok <==> all_lines_valid(buffer@),
            r matches Err(e) ==> e == LoadError::InvalidUtf8 && final(self).translations_held() == old(self).translations_held(),
            r is Ok ==> {
                let t = crate::translation::translation_from(
                    tagged_view(old(self).tag_list(), vrt_entries(decoded_lines(buffer@))),
                    language,
                    old(self).tag_list(),
                );
                final(self).translations_held() == hold(old(self).translations_held(), language, language_type, t)
            },
            final(self).tag_list() == old(self).tag_list(),
            final(self).master() == old(self).master(),
            final(self).primary() == old(self).primary(),
            final(self).context() == old(self).context(),
            forall|c: ContentType| #[trigger] final(self).content_version(c) == old(self).content_version(c),
            same_show(final(self), old(self)),
    {
        let loaded = match Loaded::load_with_tags(&self.words.tags, LoadFormat::Vrt, buffer) {
            Ok(l) => l,
            Err(e) => return Err(e),
        };
        let translation = Translation::from_loaded(&loaded, language, &self.words.tags);
        self.add_translation(translation, language_type);
        Ok(())
    }

    fn add_translation(&mut self, translation: Translation, language_type: LanguageType)
        ensures
            final(self).translations_held() == if old(self).translations_held().contains_key((translation@.language, language_type)) {
                old(self).translations_held()
            } else {
                old(self).translations_held().insert((translation@.language, language_type), translation@)
            },
            final(self).tag_list() == old(self).tag_list(),
            final(self).master() == old(self).master(),
            final(self).primary() == old(self).primary(),
            final(self).context() == old(self).context(),
            forall|c: ContentType| #[trigger] final(self).content_version(c) == old(self).content_version(c),
            same_show(final(self), old(self)),
    {
        proof {
            use_type_invariant(&*self);
            use_type_invariant(&self.show);
        }
        let selected = self.show.selected_tag;
        self.show.selected_tag = 0;
        let mut words = Words::new(
            Translation::from_loaded(&Loaded::new(), self.primary_language, &Vec::new()),
            Vec::new(),
            ContentVersions::new(String::new()),
        );
        std::mem::swap(&mut words, &mut self.words);
        words.add_translation(&translation, language_type);
        self.words = words;
        self.show.selected_tag = selected;
    }

    /// Adds each translation as an external one.
    pub fn add_translations(&mut self, translations: Vec<Translation>)
        ensures
            final(self).translations_held() == add_all_external(
                old(self).translations_held(),
                translations@.map_values(|t: Translation| t@),
            ),
            final(self).translations_held() == held_after(
                old(self).translations_held(),
                as_external(translations@.map_values(|t: Translation| t@)),
            ),
            final(self).tag_list() == old(self).tag_list(),
            final(self).master() == old(self).master(),
            final(self).primary() == old(self).primary(),
            final(self).context() == old(self).context(),
            forall|c: ContentType| #[trigger] final(self).content_version(c) == old(self).content_version(c),
            same_show(final(self), old(self)),
    {
        let ghost ts = translations@.map_values(|t: Translation| t@);
        let mut i: usize = 0;
        while i < translations.len()
            invariant
                i <= translations.len(),
                ts == translations@.map_values(|t: Translation| t@),
                self.translations_held() == add_all_external(old(self).translations_held(), ts.subrange(0, i as int)),
                self.tag_list() == old(self).tag_list(),
                self.master() == old(self).master(),
                self.primary() == old(self).primary(),
                self.context() == old(self).context(),
                forall|c: ContentType| #[trigger] self.content_version(c) == old(self).content_version(c),
                same_show(self, old(self)),
            decreases translations.len() - i,
        {
            let t = translations[i].duplicate();
            self.add_translation(t, LanguageType::External);
            proof {
                assert(ts.subrange(0, i + 1).drop_last() =~= ts.subrange(0, i as int));
                assert(ts.subrange(0, i + 1).last() == translations@[i as int]@);
            }
            i = i + 1;
        }
        proof {
            assert(ts.subrange(0, i as int) =~= ts);
            lemma_add_all_external_steps(old(self).translations_held(), ts);
        }
    }
}


/// A line of a translation as the editor shows it: the text it shows and
/// whether that is a modification; an empty adopted line past the end.
pub open spec fn line_shown(t: TranslationView, id: int) -> (Seq<char>, ContentType) {
    if 0 <= id < t.lines.len() {
        (
            current_text(t.lines[id]),
            if t.lines[id].1 is Some {
                ContentType::InProgress
            } else {
                ContentType::Master
            },
        )
    } else {
        (Seq::empty(), ContentType::Master)
    }
}

/// What the editor shows is the same in `a` and `b`.
pub open spec fn same_show(a: &Dictionary, b: &Dictionary) -> bool {
    &&& a.state() == b.state()
    &&& a.spec_selected_translation() == b.spec_selected_translation()
    &&& a.spec_selected_tag() == b.spec_selected_tag()
    &&& a.offered() == b.offered()
    &&& a.export_flags() == b.export_flags()
}

/// Everything but what the editor shows is the same in `a` and `b`.
pub open spec fn same_words(a: &Dictionary, b: &Dictionary) -> bool {
    &&& a.primary() == b.primary()
    &&& a.tag_list() == b.tag_list()
    &&& a.master() == b.master()
    &&& a.translations_held() == b.translations_held()
    &&& a.context() == b.context()
    &&& forall|c: ContentType| #[trigger] a.content_version(c) == b.content_version(c)
}

/// The label of the tag at `i`: `* {tag}` where its line is missing.
pub open spec fn tag_label(tag: Seq<char>, missing: bool) -> Seq<char> {
    if missing {
        "* "@ + tag
    } else {
        tag
    }
}

impl Dictionary {
    /// The page the editor shows.
    pub fn current_state(&self) -> (s: DictionaryState)
        ensures
            s == self.state(),
    {
        self.show.state
    }

    /// Turns to `new_state`; true if that changed the page.
    pub fn set_state(&mut self, new_state: DictionaryState) -> (changed: bool)
        ensures
            changed == (new_state != old(self).state()),
            final(self).state() == new_state,
            final(self).spec_selected_translation() == old(self).spec_selected_translation(),
            final(self).spec_selected_tag() == old(self).spec_selected_tag(),
            final(self).offered() == old(self).offered(),
            final(self).export_flags() == old(self).export_flags(),
            same_words(final(self), old(self)),
    {
        proof {
            use_type_invariant(&*self);
            use_type_invariant(&self.show);
        }
        if new_state != self.show.state {
            self.show.state = new_state;
            true
        } else {
            false
        }
    }

    /// The page of the translation selected.
    pub fn translation_page(&self) -> (s: DictionaryState)
        ensures
            s == DictionaryState::Translation(self.spec_selected_translation()),
    {
        DictionaryState::Translation(self.show.selected_translation)
    }

    /// The translation selected; never the primary language.
    pub fn selected_translation(&self) -> (l: Language)
        ensures
            l == self.spec_selected_translation(),
            l != self.primary(),
    {
        proof {
            use_type_invariant(self);
            use_type_invariant(&self.show);
            let i = choose|i: int|
                0 <= i < self.show.translation_list.len() && #[trigger] self.show.translation_list@[i].0
                    == self.show.selected_translation.index();
            assert(self.show.translation_list@[i].0 != self.primary_language.index());
        }
        self.show.selected_translation
    }

    /// The languages offered as translations, as (index, localised name).
    pub fn translation_list(&self) -> (v: &Vec<(usize, String)>)
        ensures
            entry_views(v@) == self.offered(),
    {
        &self.show.translation_list
    }

    /// Where the selected translation stands among the languages offered.
    pub fn selected_position(&self) -> (p: usize)
        ensures
            p < self.offered().len(),
            self.offered()[p as int].0 == self.spec_selected_translation().index(),
    {
        self.show.selected_position()
    }

    /// Selects the language offered at `position`. Where that changes the
    /// selection the editor turns to that language's page; true if it did.
    pub fn choose_translation(&mut self, position: usize) -> (changed: bool)
        requires
            position < old(self).offered().len(),
        ensures
            final(self).spec_selected_translation() == all_languages()[old(self).offered()[position as int].0 as int],
            changed == (final(self).spec_selected_translation() != old(self).spec_selected_translation()),
            final(self).state() == if changed {
                DictionaryState::Translation(final(self).spec_selected_translation())
            } else {
                old(self).state()
            },
            final(self).offered() == old(self).offered(),
            final(self).spec_selected_tag() == old(self).spec_selected_tag(),
            final(self).export_flags() == old(self).export_flags(),
            same_words(final(self), old(self)),
    {
        proof {
            use_type_invariant(&*self);
            use_type_invariant(&self.show);
        }
        let new_index = self.show.translation_list[position].0;
        proof {
            assert(self.show.translation_list@[position as int].0 < 5);
            assert(self.offered()[position as int].0 == new_index);
        }
        match Languages::from_index(new_index) {
            Some(new_lang) => {
                if new_lang != self.show.selected_translation {
                    proof {
                        lemma_index_of_all(new_index as int);
                        assert(self.show.translation_list@[position as int].0 == new_lang.index());
                        assert(offers(self.show.translation_list@, new_lang));
                    }
                    self.show.selected_translation = new_lang;
                    self.show.state = DictionaryState::Translation(new_lang);
                    return true;
                }
                false
            },
            None => false,
        }
    }

    /// The position of the tag selected.
    pub fn selected_tag(&self) -> (t: usize)
        ensures
            t == self.spec_selected_tag(),
            t == 0 || t < self.tag_list().len(),
    {
        proof {
            use_type_invariant(self);
        }
        self.show.selected_tag
    }

    /// Selects the tag at `tag`: the first, or a position among the tags.
    pub fn set_selected_tag(&mut self, tag: usize)
        requires
            tag == 0 || tag < old(self).tag_list().len(),
        ensures
            final(self).spec_selected_tag() == tag,
            final(self).state() == old(self).state(),
            final(self).spec_selected_translation() == old(self).spec_selected_translation(),
            final(self).offered() == old(self).offered(),
            final(self).export_flags() == old(self).export_flags(),
            same_words(final(self), old(self)),
    {
        proof {
            use_type_invariant(&*self);
            use_type_invariant(&self.show);
        }
        self.show.selected_tag = tag;
    }

    /// Moves the selection one tag up, stopping at the first.
    pub fn select_previous_tag(&mut self)
        ensures
            final(self).spec_selected_tag() == if old(self).spec_selected_tag() > 0 {
                (old(self).spec_selected_tag() - 1) as usize
            } else {
                0usize
            },
            final(self).state() == old(self).state(),
            final(self).spec_selected_translation() == old(self).spec_selected_translation(),
            final(self).offered() == old(self).offered(),
            final(self).export_flags() == old(self).export_flags(),
            same_words(final(self), old(self)),
    {
        proof {
            use_type_invariant(&*self);
        }
        let t = self.show.selected_tag.saturating_sub(1);
        self.set_selected_tag(t);
    }

    /// Moves the selection one tag down, stopping at the last.
    pub fn select_next_tag(&mut self)
        requires
            old(self).tag_list().len() > 0,
        ensures
            final(self).spec_selected_tag() == if old(self).spec_selected_tag() + 1 < old(self).tag_list().len() {
                (old(self).spec_selected_tag() + 1) as usize
            } else {
                (old(self).tag_list().len() - 1) as usize
            },
            final(self).state() == old(self).state(),
            final(self).spec_selected_translation() == old(self).spec_selected_translation(),
            final(self).offered() == old(self).offered(),
            final(self).export_flags() == old(self).export_flags(),
            same_words(final(self), old(self)),
    {
        let last = self.words.tags.len() - 1;
        let next = self.show.selected_tag.saturating_add(1);
        let t = if next < last {
            next
        } else {
            last
        };
        self.set_selected_tag(t);
    }

    /// The export options: only new lines, existing translations, combined.
    pub fn export_options(&self) -> (r: (bool, bool, bool))
        ensures
            r == self.export_flags(),
    {
        (self.show.export_only_new, self.show.export_existing, self.show.export_combine)
    }

    /// Sets the export options.
    pub fn set_export_options(&mut self, only_new: bool, existing: bool, combine: bool)
        ensures
            final(self).export_flags() == (only_new, existing, combine),
            final(self).state() == old(self).state(),
            final(self).spec_selected_translation() == old(self).spec_selected_translation(),
            final(self).spec_selected_tag() == old(self).spec_selected_tag(),
            final(self).offered() == old(self).offered(),
            same_words(final(self), old(self)),
    {
        proof {
            use_type_invariant(&*self);
            use_type_invariant(&self.show);
        }
        self.show.export_only_new = only_new;
        self.show.export_existing = existing;
        self.show.export_combine = combine;
    }

    /// The number of tags.
    pub fn number_tags(&self) -> (n: usize)
        ensures
            n == self.tag_list().len(),
    {
        self.words.tags.len()
    }

    /// The tags, in their order.
    pub fn tags(&self) -> (v: &Vec<String>)
        ensures
            views(v@) == self.tag_list(),
    {
        &self.words.tags
    }

    /// The context of the primary language's lines.
    pub fn master_context(&self) -> (v: &Vec<String>)
        ensures
            views(v@) == self.context(),
    {
        &self.words.master_context
    }

    /// The primary language's lines.
    pub fn master_translation(&self) -> (t: &Translation)
        ensures
            t@ == self.master(),
    {
        &self.words.master
    }

    /// The localised name of the primary language.
    pub fn master_language_name(&self, names: &LanguageNames) -> (s: String)
        ensures
            s@ == names.name_of(self.primary()),
    {
        self.primary_language.name(names)
    }

    /// The current versions of the content.
    pub fn versions(&self) -> (v: &ContentVersions)
        ensures
            forall|c: ContentType| #[trigger] v.version(c) == self.content_version(c),
    {
        &self.words.versions
    }

    /// The labels the tag selector shows, in tag order: `* {tag}` for a tag
    /// whose position is in `missing`, the tag itself otherwise, each with
    /// whether it is flagged.
    pub fn tag_labels(&self, missing: &Vec<usize>) -> (v: Vec<(String, bool)>)
        ensures
            v.len() == self.tag_list().len(),
            forall|i: int| 0 <= i < v.len() ==> (#[trigger] v@[i]).1 == missing@.contains(i as usize)
                && v@[i].0@ == tag_label(self.tag_list()[i], v@[i].1),
    {
        let mut v: Vec<(String, bool)> = Vec::new();
        let mut i: usize = 0;
        while i < self.words.tags.len()
            invariant
                i <= self.words.tags.len(),
                v.len() == i,
                self.tag_list() == views(self.words.tags@),
                forall|k: int| 0 <= k < i ==> (#[trigger] v@[k]).1 == missing@.contains(k as usize)
                    && v@[k].0@ == tag_label(self.tag_list()[k], v@[k].1),
            decreases self.words.tags.len() - i,
        {
            let flagged = crate::translation::contains_index(missing, i);
            let label = if flagged {
                joined("* ", self.words.tags[i].as_str())
            } else {
                self.words.tags[i].clone()
            };
            proof {
                reveal_strlit("* ");
            }
            v.push((label, flagged));
            i = i + 1;
        }
        v
    }

    /// The primary language's line at `string_id`, as the editor shows it.
    pub fn master_line(&self, string_id: usize) -> (r: (&str, ContentType))
        ensures
            (r.0@, r.1) == line_shown(self.master(), string_id as int),
    {
        self.words.master.line(string_id)
    }

    /// The line at `string_id` of the translation shown for `language`, as
    /// the editor shows it; a single space where no translation is held.
    pub fn translation_line(&self, language: Language, string_id: usize) -> (r: (&str, ContentType))
        ensures
            match self.shown(language) {
                Some(t) => (r.0@, r.1) == line_shown(t, string_id as int),
                None => r.0@ == " "@ && r.1 == ContentType::Master,
            },
    {
        proof {
            use_type_invariant(self);
        }
        match self.words.translation_language(language) {
            Some((translation, _kind)) => translation.line(string_id),
            None => {
                proof {
                    reveal_strlit(" ");
                }
                (" ", ContentType::Master)
            },
        }
    }

    /// The positions of the lines missing from the translation shown for
    /// `language`; none where there is no language or no translation.
    pub fn missing_lines(&self, language: Option<Language>) -> (v: Vec<usize>)
        ensures
            v@ == match language {
                Some(l) => match self.shown(l) {
                    Some(t) => t.missing,
                    None => Seq::<usize>::empty(),
                },
                None => Seq::<usize>::empty(),
            },
    {
        proof {
            use_type_invariant(self);
        }
        if let Some(language) = language {
            if let Some((translation, _kind)) = self.words.translation_language(language) {
                return translation.missing_lines().clone();
            }
        }
        Vec::new()
    }

    /// The translation shown for each language a translation is held for,
    /// each language once.
    pub fn translations(&self) -> (v: Vec<&Translation>)
        ensures
            forall|i: int| 0 <= i < v.len() ==> best_kind(self.translations_held(), (#[trigger] v@[i])@.language) is Some
                && self.shown(v@[i]@.language) == Some(v@[i]@),
            forall|l: Language| #[trigger] best_kind(self.translations_held(), l) is Some
                ==> exists|i: int| 0 <= i < v.len() && v@[i]@.language == l,
            forall|i: int, j: int| 0 <= i < j < v.len() ==> v@[i]@.language != v@[j]@.language,
    {
        proof {
            use_type_invariant(self);
            use_type_invariant(&self.words);
        }
        let langs = self.words.translation_languages();
        let mut v: Vec<&Translation> = Vec::new();
        let mut i: usize = 0;
        while i < langs.len()
            invariant
                self.inv(),
                self.words.inv(),
                i <= langs.len(),
                v.len() == i,
                langs@.no_duplicates(),
                forall|l: Language| langs@.contains(l) <==> best_kind(self.words.slots(), l) is Some,
                forall|k: int| 0 <= k < i ==> (#[trigger] v@[k])@.language == langs@[k]
                    && self.shown(langs@[k]) == Some(v@[k]@),
            decreases langs.len() - i,
        {
            let l = langs[i];
            proof {
                assert(langs@.contains(l));
            }
            match self.words.translation_language(l) {
                Some((t, _kind)) => {
                    proof {
                        if l != self.primary_language {
                            let k = best_kind(self.words.slots(), l)->0;
                            self.words.lemma_slot_language((l, k));
                        }
                    }
                    v.push(t);
                },
                None => {
                    proof {
                        assert(false);
                    }
                },
            }
            i = i + 1;
        }
        proof {
            assert forall|l: Language| #[trigger] best_kind(self.translations_held(), l) is Some
                implies exists|k: int| 0 <= k < v.len() && v@[k]@.language == l by {
                assert(langs@.contains(l));
                let k = choose|k: int| 0 <= k < langs.len() && langs@[k] == l;
                assert(v@[k]@.language == l);
            }
            assert forall|k: int| 0 <= k < v.len() implies best_kind(self.translations_held(), (#[trigger] v@[k])@.language) is Some
                && self.shown(v@[k]@.language) == Some(v@[k]@) by {
                assert(langs@.contains(langs@[k]));
            }
            assert forall|a: int, b: int| 0 <= a < b < v.len() implies v@[a]@.language != v@[b]@.language by {
                assert(v@[a]@.language == langs@[a]);
                assert(v@[b]@.language == langs@[b]);
            }
        }
        v
    }

    /// The translations of `translations`, in the order of their languages'
    /// localised names (equal names in declaration order): the order of the
    /// overview.
    pub fn translations_by_name(&self, names: &LanguageNames) -> (v: Vec<&Translation>)
        ensures
            forall|i: int| 0 <= i < v.len() ==> best_kind(self.translations_held(), (#[trigger] v@[i])@.language) is Some
                && self.shown(v@[i]@.language) == Some(v@[i]@),
            forall|l: Language| #[trigger] best_kind(self.translations_held(), l) is Some
                ==> exists|i: int| 0 <= i < v.len() && v@[i]@.language == l,
            forall|i: int, j: int| 0 <= i < j < v.len() ==> v@[i]@.language != v@[j]@.language,
            forall|i: int, j: int|
                0 <= i < j < v.len() ==> entry_lt(
                    (v@[i]@.language.index() as usize, names.name_of(v@[i]@.language)),
                    (v@[j]@.language.index() as usize, names.name_of(v@[j]@.language)),
                ),
    {
        proof {
            use_type_invariant(self);
            use_type_invariant(&self.words);
        }
        let order = Languages::sorted_by_name(names);
        let mut v: Vec<&Translation> = Vec::new();
        let ghost mut pos: Seq<int> = Seq::empty();
        let mut k: usize = 0;
        while k < order.len()
            invariant
                self.inv(),
                self.words.inv(),
                k <= order.len(),
                order.len() == 5,
                forall|i: int| 0 <= i < order.len() ==> (#[trigger] order@[i]).0 < 5
                    && order@[i].1@ == names.name_of(all_languages()[order@[i].0 as int]),
                forall|i: int, j: int|
                    0 <= i < j < order.len() ==> entry_lt((order@[i].0, order@[i].1@), (order@[j].0, order@[j].1@)),
                v.len() == pos.len(),
                forall|m: int| 0 <= m < v.len() ==> 0 <= #[trigger] pos[m] < k
                    && v@[m]@.language == all_languages()[order@[pos[m]].0 as int]
                    && best_kind(self.words.slots(), v@[m]@.language) is Some
                    && self.shown(v@[m]@.language) == Some(v@[m]@),
                forall|m: int, n: int| 0 <= m < n < v.len() ==> pos[m] < pos[n],
                forall|p: int| 0 <= p < k && best_kind(self.words.slots(), all_languages()[(#[trigger] order@[p]).0 as int]) is Some
                    ==> exists|m: int| 0 <= m < v.len() && pos[m] == p,
            decreases order.len() - k,
        {
            let ghost pos0 = pos;
            let idx = order[k].0;
            if let Some(l) = Languages::from_index(idx) {
                if self.words.holds_language(l) {
                    if let Some((t, _kind)) = self.words.translation_language(l) {
                        proof {
                            if l != self.primary_language {
                                let kind = best_kind(self.words.slots(), l)->0;
                                self.words.lemma_slot_language((l, kind));
                            }
                        }
                        v.push(t);
                        proof {
                            pos = pos.push(k as int);
                            assert(pos[pos.len() - 1] == k);
                        }
                    }
                }
            }
            proof {
                assert(order@[k as int].0 < 5);
                assert forall|p: int| 0 <= p < k + 1 && best_kind(self.words.slots(), all_languages()[(#[trigger] order@[p]).0 as int]) is Some
                    implies exists|m: int| 0 <= m < v.len() && pos[m] == p by {
                    if p == k {
                        assert(pos[v.len() - 1] == k);
                    } else {
                        let m = choose|m: int| 0 <= m < pos0.len() && pos0[m] == p;
                        assert(pos[m] == p);
                    }
                }
            }
            k = k + 1;
        }
        proof {
            assert forall|i: int| 0 <= i < v.len() implies best_kind(self.translations_held(), (#[trigger] v@[i])@.language) is Some
                && self.shown(v@[i]@.language) == Some(v@[i]@) by {
                assert(pos[i] < k);
            }
            assert forall|i: int, j: int| 0 <= i < j < v.len() implies entry_lt(
                (v@[i]@.language.index() as usize, names.name_of(v@[i]@.language)),
                (v@[j]@.language.index() as usize, names.name_of(v@[j]@.language)),
            ) by {
                lemma_index_of_all(order@[pos[i]].0 as int);
                lemma_index_of_all(order@[pos[j]].0 as int);
                assert(order@[pos[i]].0 < 5);
                assert(order@[pos[j]].0 < 5);
            }
            assert forall|i: int, j: int| 0 <= i < j < v.len() implies v@[i]@.language != v@[j]@.language by {
                let a = (v@[i]@.language.index() as usize, names.name_of(v@[i]@.language));
                lemma_entry_lt_irreflexive(a);
            }
            assert forall|l: Language| #[trigger] best_kind(self.translations_held(), l) is Some
                implies exists|i: int| 0 <= i < v.len() && v@[i]@.language == l by {
                lemma_language_at_index(l);
                assert(offered_index(None, l.index() as int));
                let p = choose|p: int| 0 <= p < order.len() && order@[p].0 == l.index();
                assert(best_kind(self.words.slots(), all_languages()[order@[p].0 as int]) is Some);
                let m = choose|m: int| 0 <= m < v.len() && pos[m] == p;
                assert(v@[m]@.language == l);
            }
        }
        v
    }

    /// Whether no language but the primary one holds an external translation.
    pub fn external_translations_empty(&self) -> (r: bool)
        ensures
            r == !has_external(self.translations_held(), self.primary()),
    {
        proof {
            use_type_invariant(self);
        }
        let langs = self.words.translation_languages();
        let mut i: usize = 0;
        while i < langs.len()
            invariant
                self.inv(),
                i <= langs.len(),
                forall|l: Language| langs@.contains(l) <==> best_kind(self.words.slots(), l) is Some,
                forall|k: int| 0 <= k < i ==> langs@[k] == self.primary_language
                    || !self.words.slots().contains_key((#[trigger] langs@[k], LanguageType::External)),
            decreases langs.len() - i,
        {
            if let Some((_t, kind)) = self.words.translation_language(langs[i]) {
                if kind.ordinal() >= LanguageType::External.ordinal() {
                    proof {
                        let l = langs@[i as int];
                        assert(kind == LanguageType::External);
                        assert(l != self.primary_language);
                        assert(self.words.slots().contains_key((l, LanguageType::External)));
                        assert(l != self.primary() && self.translations_held().contains_key((l, LanguageType::External)));
                    }
                    return false;
                }
            }
            i = i + 1;
        }
        proof {
            assert forall|l: Language| l != self.primary() implies !self.translations_held().contains_key(
                (l, LanguageType::External),
            ) by {
                if self.translations_held().contains_key((l, LanguageType::External)) {
                    assert(langs@.contains(l));
                    let k = choose|k: int| 0 <= k < langs.len() && langs@[k] == l;
                    assert(!self.words.slots().contains_key((langs@[k], LanguageType::External)));
                }
            }
        }
        true
    }

    /// The rows of the primary language's file for translators: each tag
    /// with the text its line shows and its context.
    pub fn master_rows(&self) -> (rows: Vec<(String, String, String)>)
        requires
            self.context().len() == self.tag_list().len(),
        ensures
            rows.len() == self.tag_list().len(),
            forall|i: int| 0 <= i < rows.len() ==> (#[trigger] rows@[i]).0@ == self.tag_list()[i]
                && rows@[i].1@ == current_text(self.master().lines[i]) && rows@[i].2@ == self.context()[i],
    {
        proof {
            use_type_invariant(self);
        }
        let texts = self.words.master.current_lines();
        crate::writer::csv_rows(&self.words.tags, &texts, &self.words.master_context)
    }
}

} // verus!
