//! A language's lines for every tag of a dictionary, each with an optional
//! modification waiting to be adopted.

use vstd::prelude::*;

use crate::dictionary::{ContentType, UpdateReplace};
use crate::languages::Language;
use crate::loader::{Loaded, LoadedView};
use crate::tags::{LineEntry, TagMap, views};
use crate::text::decimal;

verus! {

/// A line as its main text and an optional modification of it.
pub type LineView = (Seq<char>, Option<Seq<char>>);

/// The modification a `replace_modified` call leaves: none where the new
/// line is absent or equal to the main line.
pub open spec fn modified_to(main: Seq<char>, new_line: Option<Seq<char>>) -> Option<Seq<char>> {
    match new_line {
        Some(n) => if n == main {
            None
        } else {
            Some(n)
        },
        None => None,
    }
}

/// The text a line shows: its modification if it has one, else its main text.
pub open spec fn current_text(l: LineView) -> Seq<char> {
    match l.1 {
        Some(m) => m,
        None => l.0,
    }
}

/// One line of a translation.
#[derive(Debug)]
pub struct LineData {
    main_line: String,
    modification: Option<String>,
}

impl View for LineData {
    type V = LineView;

    closed spec fn view(&self) -> LineView {
        (self.main_line@, crate::tags::opt_view(self.modification))
    }
}

impl Default for LineData {
    fn default() -> (d: Self)
        ensures
            d@ == (Seq::<char>::empty(), None::<Seq<char>>),
    {
        LineData::new(String::new())
    }
}

impl LineData {
    pub fn new(line: String) -> (d: Self)
        ensures
            d@ == (line@, None::<Seq<char>>),
    {
        LineData { main_line: line, modification: None }
    }

    /// A copy of the line.
    pub fn duplicate(&self) -> (d: Self)
        ensures
            d@ == self@,
    {
        let modification = match &self.modification {
            Some(m) => Some(m.clone()),
            None => None,
        };
        LineData { main_line: self.main_line.clone(), modification }
    }

    /// Replaces the main text and drops any modification.
    pub fn replace_main(&mut self, line: String)
        ensures
            final(self)@ == (line@, None::<Seq<char>>),
    {
        self.main_line = line;
        self.modification = None;
    }

    /// Sets the modification; one equal to the main text is no modification.
    pub fn replace_modified(&mut self, opt_line: Option<String>)
        ensures
            final(self)@ == (old(self)@.0, modified_to(old(self)@.0, crate::tags::opt_view(opt_line))),
            final(self)@.1 != Some(final(self)@.0),
    {
        self.modification = match opt_line {
            Some(new_line) => if new_line == self.main_line {
                None
            } else {
                Some(new_line)
            },
            None => None,
        };
    }

    pub fn base_line(&self) -> (s: &str)
        ensures
            s@ == self@.0,
    {
        self.main_line.as_str()
    }

    /// The text the line shows, and whether it is a modification.
    pub fn current_line(&self) -> (r: (&str, ContentType))
        ensures
            r.0@ == current_text(self@),
            r.1 == if self@.1 is Some { ContentType::InProgress } else { ContentType::Master },
    {
        match &self.modification {
            Some(mod_line) => (mod_line.as_str(), ContentType::InProgress),
            None => (self.main_line.as_str(), ContentType::Master),
        }
    }

    /// Whether the text the line shows is empty.
    pub fn is_empty(&self) -> (b: bool)
        ensures
            b == (current_text(self@).len() == 0),
    {
        match &self.modification {
            Some(mod_line) => mod_line.as_str().is_empty(),
            None => self.main_line.as_str().is_empty(),
        }
    }
}

/// What a translation holds.
pub struct TranslationView {
    pub language: Language,
    pub lines: Seq<LineView>,
    pub extra: Map<Seq<char>, LineEntry>,
    pub missing: Seq<usize>,
}

/// The positions of the tags that `known` has no line for, in order.
pub open spec fn missing_of(tags: Seq<Seq<char>>, known: Map<Seq<char>, LineEntry>) -> Seq<usize>
    decreases tags.len(),
{
    if tags.len() == 0 {
        Seq::empty()
    } else {
        let prev = missing_of(tags.drop_last(), known);
        if known.contains_key(tags.last()) {
            prev
        } else {
            prev.push((tags.len() - 1) as usize)
        }
    }
}

/// The line built for a tag from a load: its text, or empty where the load has none.
pub open spec fn loaded_line(tag: Seq<char>, known: Map<Seq<char>, LineEntry>) -> LineView {
    if known.contains_key(tag) {
        (known[tag].0, None)
    } else {
        (Seq::empty(), None)
    }
}

/// The text a load holds for a tag.
pub open spec fn loaded_text(tag: Seq<char>, known: Map<Seq<char>, LineEntry>) -> Option<Seq<char>> {
    if known.contains_key(tag) {
        Some(known[tag].0)
    } else {
        None
    }
}

/// `s` without the first occurrence of `x`, if it holds `x`.
pub open spec fn remove_value(s: Seq<usize>, x: usize) -> Seq<usize> {
    match crate::vrt::first_index(s, x) {
        Some(p) => s.remove(p),
        None => s,
    }
}

/// The missing list after replacing lines: the position of each tag found,
/// in order, is no longer missing.
pub open spec fn replace_missing(missing: Seq<usize>, found: Seq<bool>) -> Seq<usize>
    decreases found.len(),
{
    if found.len() == 0 {
        missing
    } else {
        let prev = replace_missing(missing, found.drop_last());
        if found.last() {
            remove_value(prev, (found.len() - 1) as usize)
        } else {
            prev
        }
    }
}

/// Replacing lines reaches no line that does not exist: every tag found has
/// a line.
pub open spec fn replace_safe(found: Seq<bool>, n_lines: nat) -> bool {
    forall|k: int| 0 <= k < found.len() && #[trigger] found[k] ==> k < n_lines
}

/// Removing a value keeps a list free of duplicates and drops exactly that value.
proof fn lemma_remove_value(s: Seq<usize>, i: usize)
    requires
        s.no_duplicates(),
    ensures
        remove_value(s, i).no_duplicates(),
        forall|x: usize| #[trigger] remove_value(s, i).contains(x) <==> (s.contains(x) && x != i),
{
    crate::vrt::lemma_first_index_found(s, i);
    match crate::vrt::first_index(s, i) {
        Some(p) => {
            let r = s.remove(p);
            assert forall|a: int, b: int| 0 <= a < b < r.len() implies r[a] != r[b] by {
                let a2 = if a < p { a } else { a + 1 };
                let b2 = if b < p { b } else { b + 1 };
                assert(r[a] == s[a2] && r[b] == s[b2]);
            }
            assert forall|x: usize| #[trigger] r.contains(x) <==> (s.contains(x) && x != i) by {
                if r.contains(x) {
                    let j = choose|j: int| 0 <= j < r.len() && r[j] == x;
                    let j2 = if j < p { j } else { j + 1 };
                    assert(s[j2] == x);
                    assert(j2 != p);
                }
                if s.contains(x) && x != i {
                    let j = choose|j: int| 0 <= j < s.len() && s[j] == x;
                    if j < p {
                        assert(r[j] == x);
                    } else {
                        assert(r[j - 1] == x);
                    }
                }
            }
        },
        None => {},
    }
}

/// Where the missing list holds each position once, replacing drops exactly
/// the positions found: a position is missing afterwards if and only if it
/// was missing before and its tag was not found.
pub proof fn lemma_replace_drops_found(missing: Seq<usize>, found: Seq<bool>)
    requires
        missing.no_duplicates(),
        found.len() <= usize::MAX,
    ensures
        replace_missing(missing, found).no_duplicates(),
        forall|x: usize| #[trigger] replace_missing(missing, found).contains(x) <==> (missing.contains(x)
            && !(x < found.len() && found[x as int])),
    decreases found.len(),
{
    if found.len() > 0 {
        let prev = replace_missing(missing, found.drop_last());
        lemma_replace_drops_found(missing, found.drop_last());
        let i = (found.len() - 1) as usize;
        lemma_remove_value(prev, i);
        assert forall|x: usize| #[trigger] replace_missing(missing, found).contains(x) <==> (missing.contains(x)
            && !(x < found.len() && found[x as int])) by {
            assert(prev.contains(x) <==> (missing.contains(x) && !(x < found.len() - 1
                && found.drop_last()[x as int])));
            if x < found.len() - 1 {
                assert(found.drop_last()[x as int] == found[x as int]);
            }
            if x == i {
                assert(found[x as int] == found.last());
            }
            if found.last() {
                assert(replace_missing(missing, found) == remove_value(prev, i));
            } else {
                assert(replace_missing(missing, found) == prev);
            }
        }
    }
}

/// The positions in `s` only grow.
pub open spec fn increasing(s: Seq<usize>) -> bool {
    forall|i: int, j: int| 0 <= i < j < s.len() ==> s[i] < s[j]
}

/// The missing positions of a translation are in increasing order, and each
/// is the position of a line whose main text is empty.
pub open spec fn missing_wf(t: TranslationView) -> bool {
    &&& increasing(t.missing)
    &&& forall|i: int| 0 <= i < t.missing.len() ==> (#[trigger] t.missing[i]) < t.lines.len()
        && t.lines[t.missing[i] as int].0.len() == 0
}

proof fn lemma_remove_increasing(s: Seq<usize>, x: usize)
    requires
        increasing(s),
    ensures
        increasing(remove_value(s, x)),
{
    crate::vrt::lemma_first_index_found(s, x);
    match crate::vrt::first_index(s, x) {
        Some(p) => {
            let r = s.remove(p);
            assert forall|a: int, b: int| 0 <= a < b < r.len() implies r[a] < r[b] by {
                let a2 = if a < p { a } else { a + 1 };
                let b2 = if b < p { b } else { b + 1 };
                assert(r[a] == s[a2] && r[b] == s[b2]);
            }
        },
        None => {},
    }
}

/// Replacing lines keeps the missing positions in increasing order, and
/// leaves only positions that were missing and whose tag was not found.
pub proof fn lemma_replace_increasing(missing: Seq<usize>, found: Seq<bool>)
    requires
        increasing(missing),
        found.len() <= usize::MAX,
    ensures
        increasing(replace_missing(missing, found)),
        forall|x: usize| #[trigger] replace_missing(missing, found).contains(x) ==> missing.contains(x)
            && !(x < found.len() && found[x as int]),
    decreases found.len(),
{
    assert(missing.no_duplicates()) by {
        assert forall|i: int, j: int| 0 <= i < missing.len() && 0 <= j < missing.len() && i != j implies missing[i]
            != missing[j] by {
            if i < j {
                assert(missing[i] < missing[j]);
            } else {
                assert(missing[j] < missing[i]);
            }
        }
    }
    lemma_replace_drops_found(missing, found);
    if found.len() > 0 {
        lemma_replace_increasing(missing, found.drop_last());
        let prev = replace_missing(missing, found.drop_last());
        if found.last() {
            lemma_remove_increasing(prev, (found.len() - 1) as usize);
        }
    }
}

/// The missing list stays well formed where each position left missing was
/// missing before and kept its main text.
proof fn lemma_missing_kept(
    old_lines: Seq<LineView>,
    old_missing: Seq<usize>,
    lines: Seq<LineView>,
    missing: Seq<usize>,
)
    requires
        increasing(old_missing),
        forall|i: int| 0 <= i < old_missing.len() ==> (#[trigger] old_missing[i]) < old_lines.len()
            && old_lines[old_missing[i] as int].0.len() == 0,
        lines.len() == old_lines.len(),
        increasing(missing),
        forall|x: usize| #[trigger] missing.contains(x) ==> old_missing.contains(x) && lines[x as int].0
            == old_lines[x as int].0,
    ensures
        forall|i: int| 0 <= i < missing.len() ==> (#[trigger] missing[i]) < lines.len()
            && lines[missing[i] as int].0.len() == 0,
{
    assert forall|i: int| 0 <= i < missing.len() implies (#[trigger] missing[i]) < lines.len()
        && lines[missing[i] as int].0.len() == 0 by {
        let x = missing[i];
        assert(missing.contains(x));
        let k = choose|k: int| 0 <= k < old_missing.len() && old_missing[k] == x;
        assert(old_missing[k] < old_lines.len());
    }
}

/// For each tag, whether the load has a line for it.
pub open spec fn found_tags(tags: Seq<Seq<char>>, known: Map<Seq<char>, LineEntry>) -> Seq<bool> {
    tags.map_values(|t: Seq<char>| known.contains_key(t))
}

/// The translation built from a load for the dictionary's tags.
pub open spec fn translation_from(lv: LoadedView, language: Language, tags: Seq<Seq<char>>) -> TranslationView {
    TranslationView {
        language,
        lines: Seq::new(tags.len(), |i: int| loaded_line(tags[i], lv.tags)),
        extra: lv.unknowns,
        missing: missing_of(tags, lv.tags),
    }
}

/// The missing positions are exactly the positions of the tags the load has
/// no line for, in increasing order.
pub proof fn lemma_missing_positions(tags: Seq<Seq<char>>, known: Map<Seq<char>, LineEntry>)
    requires
        tags.len() <= usize::MAX,
    ensures
        forall|p: usize| #[trigger] missing_of(tags, known).contains(p) <==> p < tags.len() && !known.contains_key(tags[p as int]),
        forall|i: int, j: int| 0 <= i < j < missing_of(tags, known).len() ==> missing_of(tags, known)[i] < missing_of(tags, known)[j],
        forall|i: int| 0 <= i < missing_of(tags, known).len() ==> missing_of(tags, known)[i] < tags.len(),
    decreases tags.len(),
{
    if tags.len() > 0 {
        let prev = missing_of(tags.drop_last(), known);
        lemma_missing_positions(tags.drop_last(), known);
        let m = missing_of(tags, known);
        let last = (tags.len() - 1) as usize;
        assert(last == tags.len() - 1);
        assert forall|p: usize| #[trigger] m.contains(p) <==> p < tags.len() && !known.contains_key(tags[p as int]) by {
            if p < tags.len() - 1 {
                assert(tags.drop_last()[p as int] == tags[p as int]);
            }
            if known.contains_key(tags.last()) {
                assert(m == prev);
            } else {
                assert(m == prev.push(last));
                if m.contains(p) {
                    let k = choose|k: int| 0 <= k < m.len() && m[k] == p;
                    if k < prev.len() {
                        assert(prev.contains(p));
                    }
                }
                if prev.contains(p) {
                    let k = choose|k: int| 0 <= k < prev.len() && prev[k] == p;
                    assert(m[k] == p);
                }
                if p == last {
                    assert(m[prev.len() as int] == p);
                }
            }
        }
    }
}

/// A translation built from a load that has a line for every tag misses
/// none: the primary language, whose tags are those of its own load, is
/// never missing a line.
pub proof fn lemma_complete_load_misses_nothing(lv: LoadedView, language: Language, tags: Seq<Seq<char>>)
    requires
        forall|i: int| 0 <= i < tags.len() ==> lv.tags.contains_key(#[trigger] tags[i]),
        tags.len() <= usize::MAX,
    ensures
        translation_from(lv, language, tags).missing.len() == 0,
{
    lemma_missing_positions(tags, lv.tags);
    let m = missing_of(tags, lv.tags);
    if m.len() > 0 {
        assert(m.contains(m[0]));
        assert(lv.tags.contains_key(tags[m[0] as int]));
    }
}

/// One language's lines for the tags of a dictionary.
#[derive(Debug)]
pub struct Translation {
    language: Language,
    lines: Vec<LineData>,
    extra_lines: TagMap,
    missing: Vec<usize>,
}

impl View for Translation {
    type V = TranslationView;

    closed spec fn view(&self) -> TranslationView {
        TranslationView {
            language: self.language,
            lines: self.lines@.map_values(|l: LineData| l@),
            extra: self.extra_lines@,
            missing: self.missing@,
        }
    }
}

impl Translation {
    #[verifier::type_invariant]
    closed spec fn inv(self) -> bool {
        &&& self.extra_lines.wf()
        &&& self.missing.len() <= self.lines.len()
        &&& forall|i: int| 0 <= i < self.missing.len() ==> self.missing@[i] < self.lines.len()
        &&& increasing(self.missing@)
        &&& forall|i: int| 0 <= i < self.missing.len() ==> self.lines@[#[trigger] self.missing@[i] as int]@.0.len()
            == 0
    }

    /// The translation a load gives for the dictionary's tags: the loaded
    /// text for each tag (empty where the load has none), the positions of the
    /// tags without text, and the load's unknown lines.
    pub fn from_loaded(loaded: &Loaded, language: Language, tags: &Vec<String>) -> (t: Self)
        ensures
            t@.language == language,
            t@.lines.len() == tags.len(),
            forall|i: int| 0 <= i < tags.len() ==> #[trigger] t@.lines[i] == loaded_line(tags@[i]@, loaded@.tags),
            t@.missing == missing_of(views(tags@), loaded@.tags),
            t@.extra == loaded@.unknowns,
            t@ == translation_from(loaded@, language, views(tags@)),
    {
        let extra_lines = loaded.all_unknowns();
        let mut lines: Vec<LineData> = Vec::new();
        let mut missing: Vec<usize> = Vec::new();
        let mut i: usize = 0;
        while i < tags.len()
            invariant
                i <= tags.len(),
                lines.len() == i,
                forall|k: int| 0 <= k < i ==> #[trigger] lines@[k]@ == loaded_line(tags@[k]@, loaded@.tags),
                missing@ == missing_of(views(tags@).subrange(0, i as int), loaded@.tags),
                missing.len() <= i,
                forall|k: int| 0 <= k < missing.len() ==> missing@[k] < i,
            decreases tags.len() - i,
        {
            let line = match loaded.get_line(tags[i].as_str()) {
                Some(line) => String::from_str(line),
                None => {
                    missing.push(i);
                    String::new()
                },
            };
            lines.push(LineData::new(line));
            proof {
                let tv = views(tags@);
                assert(tv.subrange(0, i + 1).drop_last() =~= tv.subrange(0, i as int));
                assert(tv.subrange(0, i + 1).last() == tags@[i as int]@);
            }
            i = i + 1;
        }
        proof {
            assert(views(tags@).subrange(0, i as int) =~= views(tags@));
            lemma_missing_positions(views(tags@), loaded@.tags);
            assert forall|k: int| 0 <= k < missing.len() implies lines@[#[trigger] missing@[k] as int]@.0.len() == 0 by {
                let p = missing@[k];
                assert(missing@.contains(p));
                assert(!loaded@.tags.contains_key(views(tags@)[p as int]));
                assert(views(tags@)[p as int] == tags@[p as int]@);
            }
        }
        let t = Translation { language, lines, extra_lines, missing };
        proof {
            assert forall|k: int| 0 <= k < tags.len() implies #[trigger] t@.lines[k] == loaded_line(tags@[k]@, loaded@.tags) by {
                assert(t@.lines[k] == t.lines@[k]@);
            }
            let tv = translation_from(loaded@, language, views(tags@));
            assert(t@.lines =~= tv.lines);
        }
        t
    }

    /// Takes in a later load of the same language. With `Replace`, each tag
    /// the load has replaces the main text of its line, and its position is
    /// dropped from the missing list by value (`replace_missing`): the list
    /// holds positions, so it is the entry equal to the position that goes,
    /// never the entry that happens to stand at that index, and the list keeps
    /// naming exactly the lines still without text (`missing_wf`); with
    /// `Update`, each tag's loaded text becomes the line's modification. The
    /// load's unknown lines are added to the extra lines in either case.
    #[verifier::rlimit(30)]
    pub fn update_from_loaded(&mut self, loaded: &Loaded, tags: &Vec<String>, replace: UpdateReplace)
        requires
            replace == UpdateReplace::Update ==> tags.len() <= old(self)@.lines.len(),
            replace == UpdateReplace::Replace ==> replace_safe(
                found_tags(views(tags@), loaded@.tags),
                old(self)@.lines.len(),
            ),
        ensures
            final(self)@.language == old(self)@.language,
            final(self)@.lines.len() == old(self)@.lines.len(),
            final(self)@.extra == old(self)@.extra.union_prefer_right(loaded@.unknowns),
            replace == UpdateReplace::Update ==> {
                &&& final(self)@.missing == old(self)@.missing
                &&& forall|i: int| 0 <= i < old(self)@.lines.len() ==> #[trigger] final(self)@.lines[i] == if i < tags.len() {
                    (old(self)@.lines[i].0, modified_to(old(self)@.lines[i].0, loaded_text(tags@[i]@, loaded@.tags)))
                } else {
                    old(self)@.lines[i]
                }
            },
            replace == UpdateReplace::Replace ==> {
                &&& final(self)@.missing == replace_missing(old(self)@.missing, found_tags(views(tags@), loaded@.tags))
                &&& forall|i: int| 0 <= i < old(self)@.lines.len() ==> #[trigger] final(self)@.lines[i] == if i < tags.len()
                    && loaded@.tags.contains_key(tags@[i]@) {
                    (loaded@.tags[tags@[i]@].0, None::<Seq<char>>)
                } else {
                    old(self)@.lines[i]
                }
            },
    {
        proof {
            use_type_invariant(&*self);
        }
        let extra = loaded.all_unknowns();
        let mut tmp = Translation {
            language: self.language,
            lines: Vec::new(),
            extra_lines: TagMap::new(),
            missing: Vec::new(),
        };
        std::mem::swap(self, &mut tmp);
        proof {
            use_type_invariant(&tmp);
        }
        let Translation { language, mut lines, mut extra_lines, mut missing } = tmp;
        let ghost old_lines = lines@.map_values(|l: LineData| l@);
        let ghost old_missing = missing@;
        proof {
            assert forall|k: int| 0 <= k < old_missing.len() implies (#[trigger] old_missing[k]) < old_lines.len()
                && old_lines[old_missing[k] as int].0.len() == 0 by {
                assert(old_lines[old_missing[k] as int] == lines@[old_missing[k] as int]@);
            }
        }
        let ghost found = found_tags(views(tags@), loaded@.tags);
        let n = lines.len();
        match replace {
            UpdateReplace::Replace => {
                let mut i: usize = 0;
                while i < tags.len()
                    invariant
                        i <= tags.len(),
                        lines.len() == n,
                        n == old_lines.len(),
                        found == found_tags(views(tags@), loaded@.tags),
                        found.len() == tags.len(),
                        replace_safe(found, n as nat),
                        missing@ == replace_missing(old(self)@.missing, found.subrange(0, i as int)),
                        missing.len() <= n,
                        forall|k: int| 0 <= k < missing.len() ==> missing@[k] < n,
                        forall|k: int| 0 <= k < n ==> #[trigger] lines@[k]@ == if k < i && loaded@.tags.contains_key(tags@[k]@) {
                            (loaded@.tags[tags@[k]@].0, None::<Seq<char>>)
                        } else {
                            old_lines[k]
                        },
                    decreases tags.len() - i,
                {
                    proof {
                        assert(found[i as int] == loaded@.tags.contains_key(tags@[i as int]@));
                        assert(found.subrange(0, i + 1).drop_last() =~= found.subrange(0, i as int));
                    }
                    match loaded.get_line(tags[i].as_str()) {
                        Some(line) => {
                            let ghost before = lines@;
                            let mut ld = lines.remove(i);
                            ld.replace_main(String::from_str(line));
                            lines.insert(i, ld);
                            proof {
                                assert(lines@ =~= before.update(i as int, ld));
                            }
                            let ghost prev = missing@;
                            proof {
                                crate::vrt::lemma_first_index_found(missing@, i);
                            }
                            match position_of(&missing, i) {
                                Some(p) => {
                                    let _removed = missing.remove(p);
                                },
                                None => {},
                            }
                            proof {
                                assert(found[i as int]);
                                assert(missing@ == remove_value(prev, i));
                            }
                        },
                        None => {},
                    }
                    i = i + 1;
                }
                proof {
                    assert(found.subrange(0, i as int) =~= found);
                    lemma_replace_increasing(old_missing, found);
                    assert forall|x: usize| #[trigger] missing@.contains(x) implies old_missing.contains(x)
                        && lines@[x as int]@.0 == old_lines[x as int].0 by {
                        if x < tags.len() {
                            assert(found[x as int] == loaded@.tags.contains_key(views(tags@)[x as int]));
                            assert(views(tags@)[x as int] == tags@[x as int]@);
                        }
                        let k = choose|k: int| 0 <= k < old_missing.len() && old_missing[k] == x;
                        assert(old_missing[k] < old_lines.len());
                    }
                    lemma_missing_kept(old_lines, old_missing, lines@.map_values(|l: LineData| l@), missing@);
                }
            },
            UpdateReplace::Update => {
                let mut i: usize = 0;
                while i < tags.len()
                    invariant
                        i <= tags.len(),
                        tags.len() <= n,
                        lines.len() == n,
                        n == old_lines.len(),
                        missing@ == old_missing,
                        forall|k: int| 0 <= k < n ==> #[trigger] lines@[k]@ == if k < i {
                            (old_lines[k].0, modified_to(old_lines[k].0, loaded_text(tags@[k]@, loaded@.tags)))
                        } else {
                            old_lines[k]
                        },
                    decreases tags.len() - i,
                {
                    let opt_line = match loaded.get_line(tags[i].as_str()) {
                        Some(line) => Some(String::from_str(line)),
                        None => None,
                    };
                    let ghost before = lines@;
                    let mut ld = lines.remove(i);
                    ld.replace_modified(opt_line);
                    lines.insert(i, ld);
                    proof {
                        assert(lines@ =~= before.update(i as int, ld));
                    }
                    i = i + 1;
                }
                proof {
                    assert forall|x: usize| #[trigger] missing@.contains(x) implies old_missing.contains(x)
                        && lines@[x as int]@.0 == old_lines[x as int].0 by {
                        let k = choose|k: int| 0 <= k < old_missing.len() && old_missing[k] == x;
                        assert(old_missing[k] < old_lines.len());
                    }
                    lemma_missing_kept(old_lines, old_missing, lines@.map_values(|l: LineData| l@), missing@);
                }
            },
        }
        extra_lines.extend(&extra);
        *self = Translation { language, lines, extra_lines, missing };
        proof {
            assert(self@.lines.len() == n);
            assert forall|k: int| 0 <= k < n implies #[trigger] self@.lines[k] == self.lines@[k]@ by {}
        }
    }

    pub fn language(&self) -> (l: &Language)
        ensures
            *l == self@.language,
    {
        &self.language
    }

    /// The lines, one per tag.
    pub fn lines(&self) -> (v: &Vec<LineData>)
        ensures
            v@.map_values(|l: LineData| l@) == self@.lines,
    {
        &self.lines
    }

    /// The text line `string_id` shows, and whether it is a modification;
    /// an empty main line past the end.
    pub fn line(&self, string_id: usize) -> (r: (&str, ContentType))
        ensures
            string_id < self@.lines.len() ==> r.0@ == current_text(self@.lines[string_id as int]) && r.1 == if self@.lines[string_id as int].1 is Some {
                ContentType::InProgress
            } else {
                ContentType::Master
            },
            string_id >= self@.lines.len() ==> r.0@ == Seq::<char>::empty() && r.1 == ContentType::Master,
    {
        if string_id < self.lines.len() {
            self.lines[string_id].current_line()
        } else {
            proof {
                reveal_strlit("");
            }
            ("", ContentType::Master)
        }
    }

    /// The positions of the tags the translation has no text for.
    pub fn missing_lines(&self) -> (v: &Vec<usize>)
        ensures
            v@ == self@.missing,
            missing_wf(self@),
    {
        proof {
            use_type_invariant(self);
            assert forall|i: int| 0 <= i < self@.missing.len() implies (#[trigger] self@.missing[i]) < self@.lines.len()
                && self@.lines[self@.missing[i] as int].0.len() == 0 by {
                assert(self@.lines[self@.missing[i] as int] == self.lines@[self.missing@[i] as int]@);
            }
        }
        &self.missing
    }

    /// The number of lines with text, the number of extra lines and the
    /// number of missing lines: the figures the overview shows.
    pub fn overview_counts(&self) -> (r: (usize, usize, usize))
        ensures
            r.0 == self@.lines.len() - self@.missing.len(),
            r.1 == self@.extra.dom().len(),
            r.2 == self@.missing.len(),
    {
        proof {
            use_type_invariant(self);
        }
        (self.lines.len() - self.missing.len(), self.extra_lines.len(), self.missing.len())
    }

    /// The line the overview shows for the translation: `info`, then
    /// `, {extra}` where it has extra lines and `, {missing}` where it has
    /// missing lines. The phrases are the localised texts for the language
    /// and the counts of `overview_counts`.
    pub fn overview_string(&self, info: &str, extra: &str, missing: &str) -> (s: String)
        ensures
            s@ == info@ + (if self@.extra.dom().len() > 0 {
                ", "@ + extra@
            } else {
                Seq::<char>::empty()
            }) + (if self@.missing.len() > 0 {
                ", "@ + missing@
            } else {
                Seq::<char>::empty()
            }),
    {
        let (_lines, extra_count, missing_count) = self.overview_counts();
        let mut s = String::from_str(info);
        proof {
            reveal_strlit(", ");
        }
        if extra_count > 0 {
            s.append(", ");
            s.append(extra);
        }
        if missing_count > 0 {
            s.append(", ");
            s.append(missing);
        }
        proof {
            assert(Seq::<char>::empty() + Seq::<char>::empty() =~= Seq::<char>::empty());
        }
        s
    }

    /// The text each line shows, in order.
    pub fn current_lines(&self) -> (v: Vec<String>)
        ensures
            v.len() == self@.lines.len(),
            forall|i: int| 0 <= i < v.len() ==> #[trigger] v@[i]@ == current_text(self@.lines[i]),
    {
        let mut v: Vec<String> = Vec::new();
        let mut i: usize = 0;
        while i < self.lines.len()
            invariant
                i <= self.lines.len(),
                v.len() == i,
                forall|k: int| 0 <= k < i ==> #[trigger] v@[k]@ == current_text(self@.lines[k]),
            decreases self.lines.len() - i,
        {
            let (text, _kind) = self.lines[i].current_line();
            v.push(text.to_string());
            i = i + 1;
        }
        v
    }

    /// A copy of the translation.
    pub fn duplicate(&self) -> (t: Self)
        ensures
            t@ == self@,
    {
        proof {
            use_type_invariant(self);
        }
        let mut lines: Vec<LineData> = Vec::new();
        let mut i: usize = 0;
        while i < self.lines.len()
            invariant
                i <= self.lines.len(),
                lines.len() == i,
                forall|k: int| 0 <= k < i ==> #[trigger] lines@[k]@ == self.lines@[k]@,
            decreases self.lines.len() - i,
        {
            lines.push(self.lines[i].duplicate());
            i = i + 1;
        }
        let t = Translation {
            language: self.language,
            lines,
            extra_lines: self.extra_lines.duplicate(),
            missing: self.missing.clone(),
        };
        proof {
            assert(t@.lines =~= self@.lines);
        }
        t
    }
}

/// Whether `v` holds the value `x`.
pub fn contains_index(v: &Vec<usize>, x: usize) -> (r: bool)
    ensures
        r == v@.contains(x),
{
    let mut i: usize = 0;
    while i < v.len()
        invariant
            i <= v.len(),
            forall|j: int| 0 <= j < i ==> v@[j] != x,
        decreases v.len() - i,
    {
        if v[i] == x {
            return true;
        }
        i = i + 1;
    }
    false
}

/// The position of the first occurrence of `x` in `v`, if any.
pub fn position_of(v: &Vec<usize>, x: usize) -> (r: Option<usize>)
    ensures
        r matches Some(p) ==> crate::vrt::first_index(v@, x) == Some(p as int),
        r is None ==> crate::vrt::first_index(v@, x) is None,
{
    let mut i: usize = 0;
    while i < v.len()
        invariant
            i <= v.len(),
            forall|j: int| 0 <= j < i ==> v@[j] != x,
        decreases v.len() - i,
    {
        if v[i] == x {
            proof {
                crate::vrt::lemma_first_index(v@, x, i as int);
            }
            return Some(i);
        }
        i = i + 1;
    }
    None
}

/// The decimal text of a positive count, and the empty string for zero.
pub fn string_if_non_zero(value: usize) -> (s: String)
    ensures
        value > 0 ==> s@ == decimal(value as nat),
        value == 0 ==> s@ == Seq::<char>::empty(),
{
    if value > 0 {
        crate::text::decimal_string(value)
    } else {
        String::new()
    }
}

} // verus!
