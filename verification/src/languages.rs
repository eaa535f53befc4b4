//! The languages a dictionary can hold, their file names and the lists the
//! editor offers.

use vstd::prelude::*;
use vstd::string::*;

use crate::text::{joined, to_chars};
use crate::writer::FormatVersion;

verus! {

/// The extension of the files the library reads and writes itself.
pub const INTERNAL_EXT: &'static str = "vrt";

/// A language the editor knows.
#[derive(Debug, Clone, Copy, PartialEq, Eq, Structural, Hash, PartialOrd, Ord)]
pub enum Language {
    English,
    French,
    German,
    Chinese,
    PortugueseBr,
}

/// The number of known languages.
pub open spec fn num_languages() -> nat {
    5
}

/// All known languages, in declaration order.
pub open spec fn all_languages() -> Seq<Language> {
    seq![
        Language::English,
        Language::French,
        Language::German,
        Language::Chinese,
        Language::PortugueseBr,
    ]
}

impl Default for Language {
    fn default() -> (l: Self)
        ensures
            l == Language::English,
    {
        Language::English
    }
}

impl Language {
    /// The position of the language in the declaration order.
    pub open spec fn index(self) -> nat {
        match self {
            Language::English => 0,
            Language::French => 1,
            Language::German => 2,
            Language::Chinese => 3,
            Language::PortugueseBr => 4,
        }
    }

    /// The name used for the language's files inside a dictionary.
    pub open spec fn internal_name(self) -> Seq<char> {
        match self {
            Language::English => "english"@,
            Language::French => "french"@,
            Language::German => "german"@,
            Language::Chinese => "chinese"@,
            Language::PortugueseBr => "portuguese-br"@,
        }
    }

    /// The code used for the language in files handed to translators.
    pub open spec fn external_name(self) -> Seq<char> {
        match self {
            Language::English => "eng"@,
            Language::French => "fre"@,
            Language::German => "ger"@,
            Language::Chinese => "zho-CN"@,
            Language::PortugueseBr => "por-BR"@,
        }
    }

    /// The font family the language's text is shown in.
    pub open spec fn font_name(self) -> Seq<char> {
        match self {
            Language::Chinese => "chinese"@,
            _ => "text"@,
        }
    }

    /// The identifier of the language's localised name.
    pub open spec fn name_key(self) -> Seq<char> {
        self.internal_name()
    }

    pub fn language_index(&self) -> (i: usize)
        ensures
            i == self.index(),
    {
        match self {
            Language::English => 0,
            Language::French => 1,
            Language::German => 2,
            Language::Chinese => 3,
            Language::PortugueseBr => 4,
        }
    }

    /// The language's internal name, external code and font family.
    pub fn language_data(&self) -> (d: [&'static str; 3])
        ensures
            d@[0]@ == self.internal_name(),
            d@[1]@ == self.external_name(),
            d@[2]@ == self.font_name(),
    {
        match self {
            Language::English => ["english", "eng", "text"],
            Language::French => ["french", "fre", "text"],
            Language::German => ["german", "ger", "text"],
            Language::Chinese => ["chinese", "zho-CN", "chinese"],
            Language::PortugueseBr => ["portuguese-br", "por-BR", "text"],
        }
    }

    pub fn internal(&self) -> (s: &'static str)
        ensures
            s@ == self.internal_name(),
    {
        self.language_data()[0]
    }

    pub fn external(&self) -> (s: &'static str)
        ensures
            s@ == self.external_name(),
    {
        self.language_data()[1]
    }

    /// The font family for the language's text.
    pub fn font_family(&self) -> (s: &'static str)
        ensures
            s@ == self.font_name(),
    {
        self.language_data()[2]
    }

    /// The identifier under which the localisation holds the language's name.
    pub fn name_id(&self) -> (s: &'static str)
        ensures
            s@ == self.name_key(),
    {
        self.internal()
    }

    /// The localised name of the language, taken from `names`.
    pub fn name(&self, names: &LanguageNames) -> (s: String)
        ensures
            s@ == names.name_of(*self),
    {
        names.names[self.language_index()].clone()
    }

    /// `{master_name}_{external}`: the file name for this language's copy of
    /// a file handed to translators.
    pub fn external_file_name(&self, master_name: &str) -> (s: String)
        ensures
            s@ == master_name@ + seq!['_'] + self.external_name(),
    {
        let head = joined(master_name, "_");
        proof {
            reveal_strlit("_");
        }
        joined(head.as_str(), self.external())
    }

    /// The file holding the language's main lines, in the given layout:
    /// `{internal}.vrt` or `{internal}/00-base.vrt`.
    pub fn internal_main_file_name(&self, format: FormatVersion) -> (s: String)
        ensures
            s@ == main_file_name(*self, format),
    {
        match format {
            FormatVersion::Version0 => {
                let head = joined(self.internal(), ".");
                proof {
                    reveal_strlit(".");
                }
                joined(head.as_str(), INTERNAL_EXT)
            },
            FormatVersion::Version1 => {
                let head = joined(self.internal(), "/00-base.");
                joined(head.as_str(), INTERNAL_EXT)
            },
        }
    }

    /// `{internal}.vrt`: the file holding the language in a category archive.
    pub fn internal_category_file_name(&self) -> (s: String)
        ensures
            s@ == self.internal_name() + seq!['.'] + INTERNAL_EXT@,
    {
        let head = joined(self.internal(), ".");
        proof {
            reveal_strlit(".");
        }
        joined(head.as_str(), INTERNAL_EXT)
    }
}

/// The file name of a language's main lines in the given layout.
pub open spec fn main_file_name(l: Language, format: FormatVersion) -> Seq<char> {
    match format {
        FormatVersion::Version0 => l.internal_name() + seq!['.'] + INTERNAL_EXT@,
        FormatVersion::Version1 => l.internal_name() + "/00-base."@ + INTERNAL_EXT@,
    }
}

/// The localised names of the languages, one per language in declaration order.
/// The library does not localise; whoever shows names hands them in here.
pub struct LanguageNames {
    pub names: [String; 5],
}

impl LanguageNames {
    pub open spec fn name_of(&self, l: Language) -> Seq<char> {
        self.names@[l.index() as int]@
    }
}

/// The first language, in declaration order, whose localised name is `name`.
pub open spec fn first_language_named(names: &LanguageNames, name: Seq<char>) -> Option<Language> {
    if exists|i: int| 0 <= i < 5 && names.name_of(all_languages()[i]) == name {
        let i = choose|i: int|
            0 <= i < 5 && names.name_of(all_languages()[i]) == name && forall|j: int|
                0 <= j < i ==> names.name_of(all_languages()[j]) != name;
        Some(all_languages()[i])
    } else {
        None
    }
}

proof fn lemma_first_named(names: &LanguageNames, name: Seq<char>, i: int)
    requires
        0 <= i < 5,
        names.name_of(all_languages()[i]) == name,
        forall|j: int| 0 <= j < i ==> names.name_of(all_languages()[j]) != name,
    ensures
        first_language_named(names, name) == Some(all_languages()[i]),
{
    let k = choose|k: int|
        0 <= k < 5 && names.name_of(all_languages()[k]) == name && forall|j: int|
            0 <= j < k ==> names.name_of(all_languages()[j]) != name;
    assert(0 <= k < 5 && names.name_of(all_languages()[k]) == name);
    if k < i {
        assert(names.name_of(all_languages()[k]) != name);
    }
    if i < k {
        assert(names.name_of(all_languages()[i]) != name);
    }
}

/// `a` sorts before `b`: lexicographic order on code points, as `String`'s `Ord` gives.
pub open spec fn text_lt(a: Seq<char>, b: Seq<char>) -> bool
    decreases a.len(),
{
    if a.len() == 0 {
        b.len() > 0
    } else if b.len() == 0 {
        false
    } else if (a[0] as int) < (b[0] as int) {
        true
    } else if a[0] == b[0] {
        text_lt(a.drop_first(), b.drop_first())
    } else {
        false
    }
}

/// Entries ordered by name, ties broken by language index (a stable sort of
/// entries given in index order).
pub open spec fn entry_lt(a: (usize, Seq<char>), b: (usize, Seq<char>)) -> bool {
    text_lt(a.1, b.1) || (a.1 == b.1 && a.0 < b.0)
}

/// The namespace of functions over all known languages.
pub struct Languages;

impl Languages {
    pub fn all() -> (v: Vec<Language>)
        ensures
            v@ == all_languages(),
    {
        let v = vec![
            Language::English,
            Language::French,
            Language::German,
            Language::Chinese,
            Language::PortugueseBr,
        ];
        assert(v@ =~= all_languages());
        v
    }

    /// The language whose internal name is `name`.
    pub fn find_internal(name: &str) -> (r: Option<Language>)
        ensures
            r matches Some(l) ==> l.internal_name() == name@,
            r is None ==> forall|l: Language| l.internal_name() != name@,
    {
        let langs = Languages::all();
        let mut i: usize = 0;
        while i < langs.len()
            invariant
                langs@ == all_languages(),
                i <= langs.len(),
                forall|j: int| 0 <= j < i ==> langs@[j].internal_name() != name@,
            decreases langs.len() - i,
        {
            let l = langs[i];
            let internal = l.internal();
            if string_eq(internal, name) {
                return Some(l);
            }
            i = i + 1;
        }
        proof {
            assert forall|l: Language| l.internal_name() != name@ by {
                assert(langs@[l.index() as int] == l);
            }
        }
        None
    }

    /// The language at `index` in declaration order.
    pub fn from_index(index: usize) -> (r: Option<Language>)
        ensures
            index < 5 ==> r == Some(all_languages()[index as int]),
            index >= 5 ==> r is None,
    {
        let langs = Languages::all();
        if index < langs.len() {
            Some(langs[index])
        } else {
            None
        }
    }

    /// The localised names of all languages, in declaration order.
    pub fn name_list(names: &LanguageNames) -> (v: Vec<String>)
        ensures
            v.len() == 5,
            forall|i: int| 0 <= i < 5 ==> #[trigger] v@[i]@ == names.name_of(all_languages()[i]),
    {
        let langs = Languages::all();
        let mut v: Vec<String> = Vec::new();
        let mut i: usize = 0;
        while i < langs.len()
            invariant
                langs@ == all_languages(),
                i <= langs.len(),
                v.len() == i,
                forall|j: int| 0 <= j < i ==> #[trigger] v@[j]@ == names.name_of(all_languages()[j]),
            decreases langs.len() - i,
        {
            v.push(langs[i].name(names));
            i = i + 1;
        }
        v
    }

    /// The first language whose localised name is `name`.
    pub fn find_language(name: &str, names: &LanguageNames) -> (r: Option<Language>)
        ensures
            r == first_language_named(names, name@),
    {
        let langs = Languages::all();
        let mut i: usize = 0;
        while i < langs.len()
            invariant
                langs@ == all_languages(),
                i <= langs.len(),
                forall|j: int| 0 <= j < i ==> names.name_of(all_languages()[j]) != name@,
            decreases langs.len() - i,
        {
            let l = langs[i];
            let n = l.name(names);
            if string_eq(n.as_str(), name) {
                proof {
                    lemma_first_named(names, name@, i as int);
                }
                return Some(l);
            }
            i = i + 1;
        }
        None
    }

    /// Every language but `not`, as (index, localised name), sorted by name
    /// (languages with equal names keep their declaration order).
    pub fn list_not(not: Language, names: &LanguageNames) -> (v: Vec<(usize, String)>)
        ensures
            v.len() == 4,
            forall|i: int| 0 <= i < v.len() ==> (#[trigger] v@[i]).0 < 5 && v@[i].0 != not.index()
                && v@[i].1@ == names.name_of(all_languages()[v@[i].0 as int]),
            forall|i: int, j: int|
                0 <= i < j < v.len() ==> entry_lt((v@[i].0, v@[i].1@), (v@[j].0, v@[j].1@)),
            forall|j: int| #[trigger] offered_index(Some(not), j) ==> exists|i: int| 0 <= i < v.len() && v@[i].0 == j,
    {
        sorted_languages(Some(not), names)
    }

    /// Every language as (index, localised name), sorted by name (languages
    /// with equal names keep their declaration order).
    pub fn sorted_by_name(names: &LanguageNames) -> (v: Vec<(usize, String)>)
        ensures
            v.len() == 5,
            forall|i: int| 0 <= i < v.len() ==> (#[trigger] v@[i]).0 < 5
                && v@[i].1@ == names.name_of(all_languages()[v@[i].0 as int]),
            forall|i: int, j: int|
                0 <= i < j < v.len() ==> entry_lt((v@[i].0, v@[i].1@), (v@[j].0, v@[j].1@)),
            forall|j: int| #[trigger] offered_index(None, j) ==> exists|i: int| 0 <= i < v.len() && v@[i].0 == j,
    {
        sorted_languages(None, names)
    }
}

/// Distinct languages have distinct indexes.
pub proof fn lemma_index_injective(a: Language, b: Language)
    ensures
        a.index() == b.index() <==> a == b,
        a.index() < 5,
{
    match a {
        Language::English => {},
        Language::French => {},
        Language::German => {},
        Language::Chinese => {},
        Language::PortugueseBr => {},
    }
    match b {
        Language::English => {},
        Language::French => {},
        Language::German => {},
        Language::Chinese => {},
        Language::PortugueseBr => {},
    }
}

/// A language stands at its index in the declaration order.
pub proof fn lemma_language_at_index(l: Language)
    ensures
        l.index() < 5,
        all_languages()[l.index() as int] == l,
{
    match l {
        Language::English => {},
        Language::French => {},
        Language::German => {},
        Language::Chinese => {},
        Language::PortugueseBr => {},
    }
}

/// No entry sorts before itself.
pub proof fn lemma_entry_lt_irreflexive(a: (usize, Seq<char>))
    ensures
        !entry_lt(a, a),
{
    lemma_text_lt_trichotomy(a.1, a.1);
}

/// Index `j` names a language and not the one skipped.
pub open spec fn offered_index(skip: Option<Language>, j: int) -> bool {
    &&& 0 <= j < 5
    &&& skip matches Some(s) ==> j != s.index()
}

/// The languages but the one skipped, as (index, localised name), sorted by
/// (name, index).
fn sorted_languages(skip: Option<Language>, names: &LanguageNames) -> (v: Vec<(usize, String)>)
    ensures
        v.len() == if skip is Some { 4int } else { 5int },
        forall|i: int| 0 <= i < v.len() ==> offered_index(skip, (#[trigger] v@[i]).0 as int)
            && v@[i].1@ == names.name_of(all_languages()[v@[i].0 as int]),
        forall|i: int, j: int|
            0 <= i < j < v.len() ==> entry_lt((v@[i].0, v@[i].1@), (v@[j].0, v@[j].1@)),
        forall|j: int| #[trigger] offered_index(skip, j) ==> exists|i: int| 0 <= i < v.len() && v@[i].0 == j,
{
    let langs = Languages::all();
    let mut v: Vec<(usize, String)> = Vec::new();
    let mut keys: Vec<Vec<char>> = Vec::new();
    let mut i: usize = 0;
    while i < langs.len()
        invariant
            langs@ == all_languages(),
            i <= langs.len(),
            v.len() == keys.len(),
            v.len() == match skip {
                Some(s) => if i > s.index() { i - 1 } else { i as int },
                None => i as int,
            },
            forall|k: int| 0 <= k < v.len() ==> (#[trigger] v@[k]).0 < i && offered_index(skip, v@[k].0 as int)
                && v@[k].1@ == names.name_of(all_languages()[v@[k].0 as int])
                && keys@[k]@ == v@[k].1@,
            forall|a: int, b: int|
                0 <= a < b < v.len() ==> entry_lt((v@[a].0, v@[a].1@), (v@[b].0, v@[b].1@)),
            forall|j: int| 0 <= j < i && #[trigger] offered_index(skip, j) ==> exists|k: int| 0 <= k < v.len() && v@[k].0 == j,
        decreases langs.len() - i,
    {
        let l = langs[i];
        let keep = match skip {
            Some(s) => l != s,
            None => true,
        };
        if keep {
            let n = l.name(names);
            let key = to_chars(n.as_str());
            // insert (i, n) after every entry that sorts before it
            let mut pos = v.len();
            while pos > 0 && chars_lt(&key, &keys[pos - 1])
                invariant
                    pos <= v.len(),
                    v.len() == keys.len(),
                    forall|k: int| 0 <= k < v.len() ==> keys@[k]@ == v@[k].1@,
                    forall|k: int| pos <= k < v.len() ==> text_lt(key@, v@[k].1@),
                    key@ == n@,
                decreases pos,
            {
                pos = pos - 1;
            }
            proof {
                lemma_entries_before(v@, key@, i, pos as int);
            }
            let ghost old_v = v@;
            v.insert(pos, (i, n));
            keys.insert(pos, key);
            proof {
                assert(l.index() == i);
                assert forall|j: int| 0 <= j < i + 1 && #[trigger] offered_index(skip, j) implies exists|k: int| 0 <= k < v.len() && v@[k].0 == j by {
                    if j < i {
                        let k = choose|k: int| 0 <= k < old_v.len() && old_v[k].0 == j;
                        if k < pos {
                            assert(v@[k] == old_v[k]);
                        } else {
                            assert(v@[k + 1] == old_v[k]);
                        }
                    } else {
                        assert(v@[pos as int].0 == j);
                    }
                }
            }
        } else {
            proof {
                assert forall|j: int| 0 <= j < i + 1 && #[trigger] offered_index(skip, j) implies exists|k: int| 0 <= k < v.len() && v@[k].0 == j by {
                    if j == i {
                        assert(l.index() == i);
                        assert(!offered_index(skip, j));
                    }
                }
            }
        }
        i = i + 1;
    }
    v
}

/// Whether `a` sorts strictly before `b`.
pub fn chars_lt(a: &Vec<char>, b: &Vec<char>) -> (r: bool)
    ensures
        r == text_lt(a@, b@),
{
    let mut i: usize = 0;
    assert(a@.subrange(0, a.len() as int) =~= a@);
    assert(b@.subrange(0, b.len() as int) =~= b@);
    while i < a.len() && i < b.len() && a[i] == b[i]
        invariant
            i <= a.len(),
            i <= b.len(),
            text_lt(a@, b@) == text_lt(a@.subrange(i as int, a.len() as int), b@.subrange(i as int, b.len() as int)),
        decreases a.len() - i,
    {
        proof {
            let sa = a@.subrange(i as int, a.len() as int);
            let sb = b@.subrange(i as int, b.len() as int);
            assert(sa.drop_first() =~= a@.subrange(i + 1, a.len() as int));
            assert(sb.drop_first() =~= b@.subrange(i + 1, b.len() as int));
        }
        i = i + 1;
    }
    proof {
        let sa = a@.subrange(i as int, a.len() as int);
        let sb = b@.subrange(i as int, b.len() as int);
        if i < a.len() && i < b.len() {
            assert(sa[0] == a@[i as int] && sb[0] == b@[i as int]);
        }
    }
    if i == a.len() {
        i < b.len()
    } else if i == b.len() {
        false
    } else {
        a[i] < b[i]
    }
}

/// Whether two strings hold the same characters.
pub fn string_eq(a: &str, b: &str) -> (r: bool)
    ensures
        r == (a@ == b@),
{
    let x = String::from_str(a);
    let y = String::from_str(b);
    x == y
}

pub proof fn lemma_text_lt_trichotomy(a: Seq<char>, b: Seq<char>)
    ensures
        a != b ==> (text_lt(a, b) || text_lt(b, a)),
        !(text_lt(a, b) && text_lt(b, a)),
    decreases a.len(),
{
    if a.len() > 0 && b.len() > 0 {
        lemma_text_lt_trichotomy(a.drop_first(), b.drop_first());
        if a[0] == b[0] && a != b {
            assert(a =~= seq![a[0]] + a.drop_first());
            assert(b =~= seq![b[0]] + b.drop_first());
        }
        if a[0] != b[0] {
            assert((a[0] as int) != (b[0] as int));
        }
    } else if a.len() == 0 && b.len() == 0 {
        assert(a =~= b);
    }
}

pub proof fn lemma_text_lt_transitive(a: Seq<char>, b: Seq<char>, c: Seq<char>)
    requires
        text_lt(a, b),
        text_lt(b, c),
    ensures
        text_lt(a, c),
    decreases a.len(),
{
    if a.len() > 0 && b.len() > 0 && c.len() > 0 {
        if a[0] == b[0] && b[0] == c[0] {
            lemma_text_lt_transitive(a.drop_first(), b.drop_first(), c.drop_first());
        }
    }
}

/// Inserting entry `(i, key)` at `pos` keeps the entries ordered.
proof fn lemma_entries_before(v: Seq<(usize, String)>, key: Seq<char>, i: usize, pos: int)
    requires
        0 <= pos <= v.len(),
        forall|k: int| 0 <= k < v.len() ==> (#[trigger] v[k]).0 < i,
        forall|a: int, b: int|
            0 <= a < b < v.len() ==> entry_lt((v[a].0, v[a].1@), (v[b].0, v[b].1@)),
        forall|k: int| pos <= k < v.len() ==> text_lt(key, v[k].1@),
        pos > 0 ==> !text_lt(key, v[pos - 1].1@),
    ensures
        forall|k: int| 0 <= k < pos ==> entry_lt((v[k].0, v[k].1@), (i, key)),
        forall|k: int| pos <= k < v.len() ==> entry_lt((i, key), (v[k].0, v[k].1@)),
{
    if pos > 0 {
        lemma_text_lt_trichotomy(key, v[pos - 1].1@);
        assert(entry_lt((v[pos - 1].0, v[pos - 1].1@), (i, key)));
    }
    assert forall|k: int| 0 <= k < pos implies entry_lt((v[k].0, v[k].1@), (i, key)) by {
        if k < pos - 1 {
            lemma_entry_lt_transitive((v[k].0, v[k].1@), (v[pos - 1].0, v[pos - 1].1@), (i, key));
        }
    }
}

proof fn lemma_entry_lt_transitive(a: (usize, Seq<char>), b: (usize, Seq<char>), c: (usize, Seq<char>))
    requires
        entry_lt(a, b),
        entry_lt(b, c),
    ensures
        entry_lt(a, c),
{
    if text_lt(a.1, b.1) && text_lt(b.1, c.1) {
        lemma_text_lt_transitive(a.1, b.1, c.1);
    }
}

/// Whether `v` holds `l`.
pub fn contains_language(v: &Vec<Language>, l: Language) -> (r: bool)
    ensures
        r == v@.contains(l),
{
    let mut i: usize = 0;
    while i < v.len()
        invariant
            i <= v.len(),
            forall|j: int| 0 <= j < i ==> v@[j] != l,
        decreases v.len() - i,
    {
        if v[i] == l {
            return true;
        }
        i = i + 1;
    }
    false
}

} // verus!
