//! Loading a language's lines: what a loaded file holds, and where the loader
//! finds the languages of a dictionary.

use vstd::prelude::*;

use crate::externals::count_words as word_total;
use crate::languages::{Language, Languages};
use crate::tags::{LineEntry, TagMap, opt_view, sorted_strictly, views};
use crate::text::{chars_to_string, to_chars, trim, trim_bounds};
use crate::vrt::{LoadError, LoadFormat, pair_views, vrt_buffer_safe, vrt_entries, decoded_lines, all_lines_valid};

verus! {

/// What a load has gathered so far.
pub struct LoadedView {
    /// The lines whose tags the dictionary knows, by tag.
    pub tags: Map<Seq<char>, LineEntry>,
    /// How many lines were added, repeats included.
    pub lines: nat,
    /// The running word count (it wraps around at the machine's word size).
    pub words: usize,
    /// The lines whose tags the dictionary does not know, by tag.
    pub unknowns: Map<Seq<char>, LineEntry>,
}

impl LoadedView {
    pub open spec fn empty() -> LoadedView {
        LoadedView { tags: Map::empty(), lines: 0, words: 0, unknowns: Map::empty() }
    }

    /// The view after `add_line`: the tag maps to the new text and context,
    /// and the words of the text are counted unless the tag already held the
    /// same text.
    pub open spec fn add_line(
        self,
        id: Seq<char>,
        text: Seq<char>,
        context: Option<Seq<char>>,
        count: bool,
    ) -> LoadedView {
        let counted = count && (!self.tags.contains_key(id) || self.tags[id].0 != text);
        LoadedView {
            tags: self.tags.insert(id, (text, context)),
            lines: self.lines + 1,
            words: if counted {
                self.words.wrapping_add(crate::externals::word_count(text) as usize)
            } else {
                self.words
            },
            unknowns: self.unknowns,
        }
    }

    /// The view after `add_unknown`: only the unknown lines change.
    pub open spec fn add_unknown(self, id: Seq<char>, text: Seq<char>, context: Option<Seq<char>>) -> LoadedView {
        LoadedView { unknowns: self.unknowns.insert(id, (text, context)), ..self }
    }
}

/// The view of loading the primary language from (tag, text) pairs: every pair
/// is added under its trimmed tag and its words are counted.
pub open spec fn primary_view(entries: Seq<(Seq<char>, Seq<char>)>) -> LoadedView
    decreases entries.len(),
{
    if entries.len() == 0 {
        LoadedView::empty()
    } else {
        primary_view(entries.drop_last()).add_line(trim(entries.last().0), entries.last().1, None, true)
    }
}

/// The words of all the texts of (tag, text) pairs.
pub open spec fn texts_words(entries: Seq<(Seq<char>, Seq<char>)>) -> nat
    decreases entries.len(),
{
    if entries.len() == 0 {
        0
    } else {
        texts_words(entries.drop_last()) + crate::externals::word_count(entries.last().1)
    }
}

/// No two pairs have the same tag once trimmed.
pub open spec fn distinct_tags(entries: Seq<(Seq<char>, Seq<char>)>) -> bool {
    forall|i: int, j: int| 0 <= i < j < entries.len() ==> trim(#[trigger] entries[i].0) != trim(#[trigger] entries[j].0)
}

/// The primary language's lines are keyed by their trimmed tags.
pub proof fn lemma_primary_tags(entries: Seq<(Seq<char>, Seq<char>)>)
    ensures
        forall|t: Seq<char>| #[trigger] primary_view(entries).tags.contains_key(t) <==> exists|i: int|
            0 <= i < entries.len() && trim(entries[i].0) == t,
    decreases entries.len(),
{
    if entries.len() > 0 {
        let prev = entries.drop_last();
        lemma_primary_tags(prev);
        assert forall|t: Seq<char>| #[trigger] primary_view(entries).tags.contains_key(t) <==> exists|i: int|
            0 <= i < entries.len() && trim(entries[i].0) == t by {
            if primary_view(prev).tags.contains_key(t) {
                let i = choose|i: int| 0 <= i < prev.len() && trim(prev[i].0) == t;
                assert(entries[i] == prev[i]);
            }
            if exists|i: int| 0 <= i < entries.len() && trim(entries[i].0) == t {
                let i = choose|i: int| 0 <= i < entries.len() && trim(entries[i].0) == t;
                if i < entries.len() - 1 {
                    assert(entries[i] == prev[i]);
                }
            }
        }
    }
}

/// Loading the primary language counts the words of every line: where no
/// two lines share a tag and the count fits in a machine word, the word count
/// is the sum of the words of all the loaded texts.
pub proof fn lemma_primary_words(entries: Seq<(Seq<char>, Seq<char>)>)
    requires
        distinct_tags(entries),
        texts_words(entries) <= usize::MAX,
    ensures
        primary_view(entries).words == texts_words(entries),
    decreases entries.len(),
{
    if entries.len() > 0 {
        let prev = entries.drop_last();
        assert forall|i: int, j: int| 0 <= i < j < prev.len() implies trim(#[trigger] prev[i].0) != trim(
            #[trigger] prev[j].0,
        ) by {
            assert(prev[i] == entries[i] && prev[j] == entries[j]);
        }
        lemma_primary_words(prev);
        lemma_primary_tags(prev);
        let t = trim(entries.last().0);
        if primary_view(prev).tags.contains_key(t) {
            let i = choose|i: int| 0 <= i < prev.len() && trim(prev[i].0) == t;
            assert(prev[i] == entries[i]);
            assert(entries.last() == entries[entries.len() - 1]);
        }
    }
}

/// The view of loading another language's (tag, text) pairs: pairs whose
/// tag is in `known` are added as lines, the others as unknowns.
pub open spec fn tagged_view(known: Seq<Seq<char>>, entries: Seq<(Seq<char>, Seq<char>)>) -> LoadedView
    decreases entries.len(),
{
    if entries.len() == 0 {
        LoadedView::empty()
    } else {
        let prev = tagged_view(known, entries.drop_last());
        let (tag, text) = entries.last();
        if known.contains(tag) {
            prev.add_line(trim(tag), text, None, true)
        } else {
            prev.add_unknown(trim(tag), text, None)
        }
    }
}

/// The lines of one loaded language file.
#[derive(Debug)]
pub struct Loaded {
    tags: TagMap,
    lines: usize,
    words: usize,
    unknowns: TagMap,
}

impl View for Loaded {
    type V = LoadedView;

    closed spec fn view(&self) -> LoadedView {
        LoadedView { tags: self.tags@, lines: self.lines as nat, words: self.words, unknowns: self.unknowns@ }
    }
}

impl Default for Loaded {
    fn default() -> (l: Self)
        ensures
            l@ == LoadedView::empty(),
    {
        Loaded::new()
    }
}

impl Loaded {
    #[verifier::type_invariant]
    closed spec fn inv(self) -> bool {
        self.tags.wf() && self.unknowns.wf()
    }

    /// Nothing loaded yet.
    pub fn new() -> (l: Self)
        ensures
            l@ == LoadedView::empty(),
    {
        Loaded { tags: TagMap::new(), lines: 0, words: 0, unknowns: TagMap::new() }
    }

    /// Adds a line for a known tag; a later line for the same tag replaces the earlier one.
    pub fn add_line(&mut self, id: &str, text: &str, context: Option<&str>, count_words: bool)
        requires
            old(self)@.lines < usize::MAX,
        ensures
            final(self)@ == old(self)@.add_line(id@, text@, opt_str_view(context), count_words),
    {
        proof {
            use_type_invariant(&*self);
        }
        let ctx = match context {
            Some(c) => Some(String::from_str(c)),
            None => None,
        };
        self.lines = self.lines + 1;
        let mut tags = TagMap::new();
        std::mem::swap(&mut tags, &mut self.tags);
        let old_entry = tags.insert(String::from_str(id), String::from_str(text), ctx);
        self.tags = tags;
        let counted = match old_entry {
            Some((old_val, _old_con)) => count_words && !crate::languages::string_eq(old_val.as_str(), text),
            None => count_words,
        };
        if counted {
            let n = word_total(text);
            self.words = self.words.wrapping_add(n);
        }
    }

    /// Adds a line whose tag the dictionary does not know.
    pub fn add_unknown(&mut self, id: &str, text: &str, context: Option<&str>)
        ensures
            final(self)@ == old(self)@.add_unknown(id@, text@, opt_str_view(context)),
    {
        proof {
            use_type_invariant(&*self);
        }
        let ctx = match context {
            Some(c) => Some(String::from_str(c)),
            None => None,
        };
        let mut unknowns = TagMap::new();
        std::mem::swap(&mut unknowns, &mut self.unknowns);
        let _old = unknowns.insert(String::from_str(id), String::from_str(text), ctx);
        self.unknowns = unknowns;
    }

    /// Counts a line that held no tag.
    pub fn add_empty_line(&mut self)
        requires
            old(self)@.lines < usize::MAX,
        ensures
            final(self)@ == (LoadedView { lines: old(self)@.lines + 1, ..old(self)@ }),
    {
        proof {
            use_type_invariant(&*self);
        }
        self.lines = self.lines + 1;
    }

    /// The text and context of a known tag.
    pub fn get_entry(&self, tag: &str) -> (r: Option<&crate::tags::TagEntry>)
        ensures
            r matches Some(e) ==> self@.tags.contains_key(tag@) && self@.tags[tag@] == (e.text@, opt_view(e.context)),
            r is None ==> !self@.tags.contains_key(tag@),
    {
        proof {
            use_type_invariant(self);
        }
        self.tags.get_entry(tag)
    }

    /// Takes a known tag's line out, handing back its text and context.
    pub fn remove_line(&mut self, tag: &str) -> (r: Option<(String, Option<String>)>)
        ensures
            final(self)@ == (LoadedView { tags: old(self)@.tags.remove(tag@), ..old(self)@ }),
            r matches Some(p) ==> old(self)@.tags.contains_key(tag@) && old(self)@.tags[tag@] == (p.0@, opt_view(p.1)),
            r is None ==> !old(self)@.tags.contains_key(tag@),
    {
        proof {
            use_type_invariant(&*self);
        }
        let mut tags = TagMap::new();
        std::mem::swap(&mut tags, &mut self.tags);
        let r = tags.remove(tag);
        self.tags = tags;
        r
    }

    /// A copy of the known lines.
    pub fn all_lines(&self) -> (m: TagMap)
        ensures
            m.wf(),
            m@ == self@.tags,
    {
        proof {
            use_type_invariant(self);
        }
        self.tags.duplicate()
    }

    /// The number of known tags.
    pub fn len(&self) -> (n: usize)
        ensures
            self@.tags.dom().finite(),
            n == self@.tags.dom().len(),
    {
        proof {
            use_type_invariant(self);
        }
        self.tags.len()
    }

    /// The number of lines added.
    pub fn lines(&self) -> (n: usize)
        ensures
            n == self@.lines,
    {
        self.lines
    }

    /// The running word count.
    pub fn words(&self) -> (n: usize)
        ensures
            n == self@.words,
    {
        self.words
    }

    /// The number of unknown tags.
    pub fn unknowns(&self) -> (n: usize)
        ensures
            self@.unknowns.dom().finite(),
            n == self@.unknowns.dom().len(),
    {
        proof {
            use_type_invariant(self);
        }
        self.unknowns.len()
    }

    /// The text of a known tag.
    pub fn get_line(&self, tag: &str) -> (r: Option<&str>)
        ensures
            r matches Some(s) ==> self@.tags.contains_key(tag@) && self@.tags[tag@].0 == s@,
            r is None ==> !self@.tags.contains_key(tag@),
    {
        proof {
            use_type_invariant(self);
        }
        match self.tags.get(tag) {
            Some(s) => Some(s.as_str()),
            None => None,
        }
    }

    /// The known tags, sorted.
    pub fn tags(&self) -> (v: Vec<String>)
        ensures
            v.len() == self@.tags.dom().len(),
            views(v@).to_set() == self@.tags.dom(),
            sorted_strictly(views(v@)),
    {
        proof {
            use_type_invariant(self);
        }
        self.tags.sorted_tags()
    }

    /// A copy of the unknown lines.
    pub fn all_unknowns(&self) -> (m: TagMap)
        ensures
            m.wf(),
            m@ == self@.unknowns,
    {
        proof {
            use_type_invariant(self);
        }
        self.unknowns.duplicate()
    }

    /// Loads the primary language: every line of the buffer becomes a known line.
    pub fn load_primary_language(format: LoadFormat, buffer: &[u8]) -> (r: Result<Loaded, LoadError>)
        requires
            format == LoadFormat::Vrt ==> vrt_buffer_safe(buffer@),
        ensures
            r is Ok <==> format == LoadFormat::Vrt && all_lines_valid(buffer@),
            r matches Ok(l) ==> l@ == primary_view(vrt_entries(decoded_lines(buffer@))),
            r matches Ok(l) ==> (distinct_tags(vrt_entries(decoded_lines(buffer@))) && texts_words(
                vrt_entries(decoded_lines(buffer@)),
            ) <= usize::MAX ==> l@.words == texts_words(vrt_entries(decoded_lines(buffer@)))),
            r matches Err(e) ==> e == if format == LoadFormat::Vrt {
                LoadError::InvalidUtf8
            } else {
                LoadError::FormatNotImplemented(format)
            },
    {
        proof {
            let es = vrt_entries(decoded_lines(buffer@));
            if distinct_tags(es) && texts_words(es) <= usize::MAX {
                lemma_primary_words(es);
            }
        }
        let lines = match format.load(buffer) {
            Ok(v) => v,
            Err(e) => return Err(e),
        };
        let mut loaded = Loaded::new();
        let mut i: usize = 0;
        while i < lines.len()
            invariant
                i <= lines.len(),
                loaded@ == primary_view(pair_views(lines@).subrange(0, i as int)),
                loaded@.lines == i,
            decreases lines.len() - i,
        {
            let (tag, line) = (&lines[i].0, &lines[i].1);
            let tag_chars = to_chars(tag.as_str());
            let (lo, hi) = trim_bounds(&tag_chars, 0, tag_chars.len());
            let key = chars_to_string(&tag_chars, lo, hi);
            proof {
                assert(tag_chars@.subrange(0, tag_chars@.len() as int) =~= tag_chars@);
            }
            loaded.add_line(key.as_str(), line.as_str(), None, true);
            proof {
                let pv = pair_views(lines@);
                assert(pv.subrange(0, i + 1).drop_last() =~= pv.subrange(0, i as int));
                assert(pv.subrange(0, i + 1).last() == pv[i as int]);
            }
            i = i + 1;
        }
        proof {
            assert(pair_views(lines@).subrange(0, i as int) =~= pair_views(lines@));
        }
        Ok(loaded)
    }

    /// Loads a translation: lines whose tags are in `tags` become known
    /// lines, the others unknown lines.
    pub fn load_with_tags(tags: &Vec<String>, format: LoadFormat, buffer: &[u8]) -> (r: Result<Loaded, LoadError>)
        requires
            format == LoadFormat::Vrt ==> vrt_buffer_safe(buffer@),
        ensures
            r is Ok <==> format == LoadFormat::Vrt && all_lines_valid(buffer@),
            r matches Ok(l) ==> l@ == tagged_view(views(tags@), vrt_entries(decoded_lines(buffer@))),
            r matches Err(e) ==> e == if format == LoadFormat::Vrt {
                LoadError::InvalidUtf8
            } else {
                LoadError::FormatNotImplemented(format)
            },
    {
        let lines = match format.load(buffer) {
            Ok(v) => v,
            Err(e) => return Err(e),
        };
        let mut loaded = Loaded::new();
        let mut i: usize = 0;
        while i < lines.len()
            invariant
                i <= lines.len(),
                loaded@ == tagged_view(views(tags@), pair_views(lines@).subrange(0, i as int)),
                loaded@.lines <= i,
            decreases lines.len() - i,
        {
            let (tag, line) = (&lines[i].0, &lines[i].1);
            let tag_chars = to_chars(tag.as_str());
            let (lo, hi) = trim_bounds(&tag_chars, 0, tag_chars.len());
            let key = chars_to_string(&tag_chars, lo, hi);
            proof {
                assert(tag_chars@.subrange(0, tag_chars@.len() as int) =~= tag_chars@);
            }
            if contains_string(tags, tag) {
                loaded.add_line(key.as_str(), line.as_str(), None, true);
            } else {
                loaded.add_unknown(key.as_str(), line.as_str(), None);
            }
            proof {
                let pv = pair_views(lines@);
                assert(pv.subrange(0, i + 1).drop_last() =~= pv.subrange(0, i as int));
                assert(pv.subrange(0, i + 1).last() == pv[i as int]);
            }
            i = i + 1;
        }
        proof {
            assert(pair_views(lines@).subrange(0, i as int) =~= pair_views(lines@));
        }
        Ok(loaded)
    }
}

/// The view of an optional string slice.
pub open spec fn opt_str_view(o: Option<&str>) -> Option<Seq<char>> {
    match o {
        Some(s) => Some(s@),
        None => None,
    }
}

/// Whether `list` holds a string equal to `s`.
pub fn contains_string(list: &Vec<String>, s: &String) -> (r: bool)
    ensures
        r == views(list@).contains(s@),
{
    let mut i: usize = 0;
    while i < list.len()
        invariant
            i <= list.len(),
            forall|j: int| 0 <= j < i ==> list@[j]@ != s@,
        decreases list.len() - i,
    {
        if list[i] == *s {
            proof {
                assert(views(list@)[i as int] == s@);
            }
            return true;
        }
        i = i + 1;
    }
    proof {
        if views(list@).contains(s@) {
            let j = choose|j: int| 0 <= j < views(list@).len() && views(list@)[j] == s@;
            assert(list@[j]@ == s@);
        }
    }
    false
}

/// A path component that is a name: not empty, not `.` or `..`, and free of
/// separators and of the colon that marks a drive.
pub open spec fn plain_name(s: Seq<char>) -> bool {
    &&& s.len() > 0
    &&& s != "."@
    &&& s != ".."@
    &&& forall|i: int| 0 <= i < s.len() ==> s[i] != '/' && s[i] != '\\' && s[i] != ':'
}

/// A directory path that `/` separates from a following name: not empty, free
/// of backslashes and colons, not starting with two slashes, and ending in a
/// component that is neither empty nor `.`.
pub open spec fn plain_dir(a: Seq<char>) -> bool {
    &&& a.len() > 0
    &&& forall|i: int| 0 <= i < a.len() ==> a[i] != '\\' && a[i] != ':'
    &&& a.last() != '/'
    &&& a != "."@
    &&& !(a.len() >= 2 && a[a.len() - 2] == '/' && a[a.len() - 1] == '.')
    &&& !(a.len() >= 2 && a[0] == '/' && a[1] == '/')
}

/// The parent of a path made of names, on every platform: the path without
/// its final name. `None` for a path of another shape, of which nothing is
/// said here.
pub open spec fn plain_parent(p: Seq<char>) -> Option<Seq<char>> {
    match crate::vrt::last_index(p, '/') {
        None => if plain_name(p) {
            Some(Seq::empty())
        } else {
            None
        },
        Some(i) => {
            let a = p.subrange(0, i);
            if plain_name(p.subrange(i + 1, p.len() as int)) {
                if i == 0 {
                    Some(seq!['/'])
                } else if plain_dir(a) {
                    Some(a)
                } else {
                    None
                }
            } else {
                None
            }
        },
    }
}

/// The directory inside a dictionary archive that holds the languages.
pub const LANGUAGE_DIRECTORY: &'static str = "i18n/";

/// The pieces of a relative path that are neither empty nor `.`, in order:
/// the names its components carry.
#[verifier::opaque]
pub open spec fn normal_components(s: Seq<char>) -> Seq<Seq<char>>
    decreases s.len(),
{
    match crate::vrt::first_index(s, '/') {
        Some(i) => if 0 <= i < s.len() {
            keep_component(s.subrange(0, i)) + normal_components(s.subrange(i + 1, s.len() as int))
        } else {
            Seq::empty()
        },
        None => keep_component(s),
    }
}

/// A piece of a path as a component name: none for an empty piece or `.`.
pub open spec fn keep_component(p: Seq<char>) -> Seq<Seq<char>> {
    if p.len() > 0 && p != "."@ {
        seq![p]
    } else {
        Seq::empty()
    }
}

/// The path starts at the root or with a `.` component.
pub open spec fn path_anchored(s: Seq<char>) -> bool {
    (s.len() > 0 && s[0] == '/') || (s.len() >= 1 && s[0] == '.' && (s.len() == 1 || s[1] == '/'))
}

/// The language directory a file of a dictionary archive lies in: the
/// component after a leading `i18n`.
pub open spec fn archive_language_dir(name: Seq<char>) -> Option<Seq<char>> {
    let c = normal_components(name);
    if !path_anchored(name) && c.len() >= 2 && c[0] == "i18n"@ {
        Some(c[1])
    } else {
        None
    }
}

/// The directory name a listed file or directory stands for.
pub open spec fn listing_dir(in_archive: bool, name: Seq<char>) -> Option<Seq<char>> {
    if in_archive {
        archive_language_dir(name)
    } else {
        Some(name)
    }
}

/// Some language's internal name is `d`.
pub open spec fn is_language_dir(d: Seq<char>) -> bool {
    exists|l: Language| l.internal_name() == d
}

/// The listed directory names that are no language's, in listing order.
pub open spec fn unused_dirs(in_archive: bool, names: Seq<Seq<char>>) -> Seq<Seq<char>>
    decreases names.len(),
{
    if names.len() == 0 {
        Seq::empty()
    } else {
        let prev = unused_dirs(in_archive, names.drop_last());
        match listing_dir(in_archive, names.last()) {
            Some(d) => if is_language_dir(d) {
                prev
            } else {
                prev.push(d)
            },
            None => prev,
        }
    }
}

/// Some listed name stands for language `l`'s directory.
pub open spec fn listed_language(in_archive: bool, names: Seq<Seq<char>>, l: Language) -> bool {
    exists|i: int| 0 <= i < names.len() && listing_dir(in_archive, names[i]) == Some(l.internal_name())
}

proof fn lemma_components_step(s: Seq<char>, start: int, i: int)
    requires
        0 <= start <= i < s.len(),
        s[i] == '/',
        forall|j: int| start <= j < i ==> s[j] != '/',
    ensures
        normal_components(s.subrange(start, s.len() as int)) == keep_component(s.subrange(start, i))
            + normal_components(s.subrange(i + 1, s.len() as int)),
{
    reveal_with_fuel(normal_components, 1);
    let t = s.subrange(start, s.len() as int);
    let i2 = i - start;
    assert forall|j: int| 0 <= j < i2 implies t[j] != '/' by {
        assert(t[j] == s[start + j]);
    }
    crate::vrt::lemma_first_index(t, '/', i2);
    assert(t.subrange(0, i2) =~= s.subrange(start, i));
    assert(t.subrange(i2 + 1, t.len() as int) =~= s.subrange(i + 1, s.len() as int));
}

proof fn lemma_components_last(s: Seq<char>, start: int)
    requires
        0 <= start <= s.len(),
        forall|j: int| start <= j < s.len() ==> s[j] != '/',
    ensures
        normal_components(s.subrange(start, s.len() as int)) == keep_component(s.subrange(start, s.len() as int)),
{
    reveal_with_fuel(normal_components, 1);
    let t = s.subrange(start, s.len() as int);
    if exists|i: int| 0 <= i < t.len() && t[i] == '/' {
        let i = choose|i: int| 0 <= i < t.len() && t[i] == '/';
        assert(s[start + i] == '/');
    }
}

/// The first two component names of a relative path.
fn first_two_components(s: &Vec<char>) -> (r: (Option<Vec<char>>, Option<Vec<char>>))
    ensures
        normal_components(s@).len() >= 1 ==> (r.0 matches Some(a) && a@ == normal_components(s@)[0]),
        normal_components(s@).len() == 0 ==> r.0 is None,
        normal_components(s@).len() >= 2 ==> (r.1 matches Some(b) && b@ == normal_components(s@)[1]),
        normal_components(s@).len() < 2 ==> r.1 is None,
{
    let n = s.len();
    let mut first: Option<Vec<char>> = None;
    let mut second: Option<Vec<char>> = None;
    let mut found: usize = 0;
    let mut start: usize = 0;
    let ghost mut done: Seq<Seq<char>> = Seq::empty();
    proof {
        assert(s@.subrange(0, n as int) =~= s@);
        assert(done + normal_components(s@) =~= normal_components(s@));
    }
    loop
        invariant
            n == s@.len(),
            start <= n,
            normal_components(s@) == done + normal_components(s@.subrange(start as int, n as int)),
            found == if done.len() < 2 { done.len() as int } else { 2 },
            done.len() >= 1 ==> (first matches Some(a) && a@ == done[0]),
            done.len() == 0 ==> first is None,
            done.len() >= 2 ==> (second matches Some(b) && b@ == done[1]),
            done.len() < 2 ==> second is None,
        decreases n - start,
    {
        let mut end = start;
        while end < n && s[end] != '/'
            invariant
                start <= end <= n,
                n == s@.len(),
                forall|j: int| start <= j < end ==> s@[j] != '/',
            decreases n - end,
        {
            end = end + 1;
        }
        let piece = slice_chars(s, start, end);
        let keep = piece.len() > 0 && !(piece.len() == 1 && piece[0] == '.');
        proof {
            reveal_strlit(".");
            if piece@.len() == 1 && piece@[0] == '.' {
                assert(piece@ =~= "."@);
            }
            if piece@ == "."@ {
                assert(piece@.len() == 1 && piece@[0] == '.');
            }
            if end < n {
                lemma_components_step(s@, start as int, end as int);
            } else {
                lemma_components_last(s@, start as int);
            }
        }
        if keep {
            if found == 0 {
                first = Some(piece);
                found = 1;
            } else if found == 1 {
                second = Some(piece);
                found = 2;
            }
            proof {
                done = done.push(s@.subrange(start as int, end as int));
            }
        }
        if end < n {
            start = end + 1;
            proof {
                assert(normal_components(s@) =~= done + normal_components(s@.subrange(start as int, n as int)));
            }
        } else {
            proof {
                reveal_with_fuel(normal_components, 1);
                assert(normal_components(s@.subrange(n as int, n as int)) =~= Seq::<Seq<char>>::empty());
                assert(normal_components(s@) =~= done);
            }
            return (first, second);
        }
    }
}

/// `s[from..to]` as a new vector.
fn slice_chars(s: &Vec<char>, from: usize, to: usize) -> (v: Vec<char>)
    requires
        from <= to <= s.len(),
    ensures
        v@ == s@.subrange(from as int, to as int),
{
    let mut v: Vec<char> = Vec::new();
    let mut k = from;
    while k < to
        invariant
            from <= k <= to <= s.len(),
            v@ == s@.subrange(from as int, k as int),
        decreases to - k,
    {
        v.push(s[k]);
        k = k + 1;
        assert(v@ =~= s@.subrange(from as int, k as int));
    }
    v
}

/// The language directory a file of a dictionary archive lies in.
pub fn archive_dir(name: &str) -> (r: Option<String>)
    ensures
        r matches Some(d) ==> archive_language_dir(name@) == Some(d@),
        r is None ==> archive_language_dir(name@) is None,
{
    let chars = to_chars(name);
    let n = chars.len();
    let anchored = (n > 0 && chars[0] == '/') || (n >= 1 && chars[0] == '.' && (n == 1 || chars[1] == '/'));
    if anchored {
        return None;
    }
    let (first, second) = first_two_components(&chars);
    match (first, second) {
        (Some(a), Some(b)) => {
            let a_str = chars_to_string(&a, 0, a.len());
            proof {
                assert(a@.subrange(0, a@.len() as int) =~= a@);
                assert(b@.subrange(0, b@.len() as int) =~= b@);
            }
            if crate::languages::string_eq(a_str.as_str(), "i18n") {
                Some(chars_to_string(&b, 0, b.len()))
            } else {
                None
            }
        },
        _ => None,
    }
}

/// Where a dictionary's languages are read from.
#[derive(Debug, Clone)]
pub enum LoaderContainer {
    /// A dictionary archive, by its file path.
    ZipLoader(String),
    /// A dictionary directory, by its path.
    DirLoader(String),
}

impl LoaderContainer {
    pub open spec fn in_archive(&self) -> bool {
        self is ZipLoader
    }

    pub open spec fn path(&self) -> Seq<char> {
        match self {
            LoaderContainer::ZipLoader(p) => p@,
            LoaderContainer::DirLoader(p) => p@,
        }
    }

    /// The directory the archive or directory lies in. The path must have a
    /// parent: the empty path and the root `/` have none. `None` where,
    /// as the platform decides, the path ends in a prefix and so has none.
    pub fn load_directory(&self) -> (r: Option<String>)
        requires
            self.path().len() > 0,
            self.path() != seq!['/'],
        ensures
            r matches Some(p) ==> p@ == self.path().subrange(0, p@.len() as int) && p@.len() <= self.path().len(),
            plain_parent(self.path()) matches Some(q) ==> r is Some && r->0@ == q,
    {
        match self {
            LoaderContainer::ZipLoader(directory) => crate::externals::path_parent(directory.as_str()),
            LoaderContainer::DirLoader(directory) => crate::externals::path_parent(directory.as_str()),
        }
    }

    /// Where a language's main lines are: inside the archive, or relative to
    /// the directory.
    pub fn language_file(&self, language: Language) -> (s: String)
        ensures
            self.in_archive() ==> s@ == LANGUAGE_DIRECTORY@ + crate::languages::main_file_name(
                language,
                crate::writer::FormatVersion::Version1,
            ),
            !self.in_archive() ==> s@ == crate::languages::main_file_name(
                language,
                crate::writer::FormatVersion::Version1,
            ),
    {
        let name = language.internal_main_file_name(crate::writer::FormatVersion::Version1);
        match self {
            LoaderContainer::ZipLoader(_) => crate::text::joined(LANGUAGE_DIRECTORY, name.as_str()),
            LoaderContainer::DirLoader(_) => name,
        }
    }

    /// Sorts a listing of the container into the languages it holds and the
    /// directory names that are no language's. For an archive the listing is
    /// its file names; for a directory, the names of its subdirectories.
    pub fn list_languages(&self, listing: &Vec<String>) -> (r: (Vec<Language>, Vec<String>))
        ensures
            r.0@.no_duplicates(),
            forall|l: Language| r.0@.contains(l) <==> listed_language(self.in_archive(), views(listing@), l),
            views(r.1@) == unused_dirs(self.in_archive(), views(listing@)),
    {
        let in_archive = match self {
            LoaderContainer::ZipLoader(_) => true,
            LoaderContainer::DirLoader(_) => false,
        };
        let ghost names = views(listing@);
        let mut set: Vec<Language> = Vec::new();
        let mut unused: Vec<String> = Vec::new();
        let mut i: usize = 0;
        while i < listing.len()
            invariant
                in_archive == self.in_archive(),
                names == views(listing@),
                i <= listing.len(),
                set@.no_duplicates(),
                forall|l: Language| set@.contains(l) <==> listed_language(in_archive, names.subrange(0, i as int), l),
                views(unused@) == unused_dirs(in_archive, names.subrange(0, i as int)),
            decreases listing.len() - i,
        {
            let dir = if in_archive {
                archive_dir(listing[i].as_str())
            } else {
                Some(listing[i].clone())
            };
            let ghost prefix = names.subrange(0, i as int);
            let ghost next = names.subrange(0, i + 1);
            proof {
                assert(next.drop_last() =~= prefix);
                assert(next.last() == listing@[i as int]@);
            }
            match dir {
                Some(d) => {
                    proof {
                        assert(listing_dir(in_archive, next[i as int]) == Some(d@));
                    }
                    match Languages::find_internal(d.as_str()) {
                        Some(lang) => {
                            let ghost s0 = set@;
                            proof {
                                assert(forall|l: Language| s0.contains(l) <==> listed_language(in_archive, prefix, l));
                                assert(d@ == lang.internal_name());
                            }
                            if !crate::languages::contains_language(&set, lang) {
                                set.push(lang);
                                proof {
                                    lemma_push_contains(s0, lang);
                                }
                            }
                            proof {
                                assert(forall|l: Language| set@.contains(l) <==> (s0.contains(l) || l == lang));
                                assert forall|l: Language| set@.contains(l) <==> listed_language(in_archive, next, l) by {
                                    if listed_language(in_archive, next, l) {
                                        let k = choose|k: int| 0 <= k < next.len() && listing_dir(in_archive, next[k]) == Some(l.internal_name());
                                        if k < i {
                                            assert(prefix[k] == next[k]);
                                            assert(listed_language(in_archive, prefix, l));
                                            assert(s0.contains(l));
                                        } else {
                                            assert(k == i);
                                            assert(d@ == l.internal_name());
                                            lemma_internal_unique(l, lang);
                                        }
                                        assert(set@.contains(l));
                                    }
                                    if set@.contains(l) {
                                        if s0.contains(l) {
                                            assert(listed_language(in_archive, prefix, l));
                                            let k = choose|k: int| 0 <= k < prefix.len() && listing_dir(in_archive, prefix[k]) == Some(l.internal_name());
                                            assert(next[k] == prefix[k]);
                                            assert(listing_dir(in_archive, next[k]) == Some(l.internal_name()));
                                        } else {
                                            assert(l == lang);
                                            assert(listing_dir(in_archive, next[i as int]) == Some(l.internal_name()));
                                        }
                                        assert(listed_language(in_archive, next, l));
                                    }
                                }
                            }
                        },
                        None => {
                            let ghost old_unused = views(unused@);
                            unused.push(d);
                            proof {
                                assert(views(unused@) =~= old_unused.push(d@));
                                assert forall|l: Language| set@.contains(l) <==> listed_language(in_archive, next, l) by {
                                    if listed_language(in_archive, next, l) {
                                        let k = choose|k: int| 0 <= k < next.len() && listing_dir(in_archive, next[k]) == Some(l.internal_name());
                                        if k < i {
                                            assert(prefix[k] == next[k]);
                                        }
                                    }
                                    if listed_language(in_archive, prefix, l) {
                                        let k = choose|k: int| 0 <= k < prefix.len() && listing_dir(in_archive, prefix[k]) == Some(l.internal_name());
                                        assert(next[k] == prefix[k]);
                                    }
                                }
                            }
                        },
                    }
                },
                None => {
                    proof {
                        assert forall|l: Language| set@.contains(l) <==> listed_language(in_archive, next, l) by {
                            if listed_language(in_archive, next, l) {
                                let k = choose|k: int| 0 <= k < next.len() && listing_dir(in_archive, next[k]) == Some(l.internal_name());
                                if k < i {
                                    assert(prefix[k] == next[k]);
                                }
                            }
                            if listed_language(in_archive, prefix, l) {
                                let k = choose|k: int| 0 <= k < prefix.len() && listing_dir(in_archive, prefix[k]) == Some(l.internal_name());
                                assert(next[k] == prefix[k]);
                            }
                        }
                    }
                },
            }
            i = i + 1;
        }
        proof {
            assert(names.subrange(0, i as int) =~= names);
        }
        (set, unused)
    }
}

/// Each language has its own internal name, so a language is found again
/// from its internal name.
pub proof fn lemma_internal_unique(a: Language, b: Language)
    requires
        a.internal_name() == b.internal_name(),
    ensures
        a == b,
{
    reveal_strlit("english");
    reveal_strlit("french");
    reveal_strlit("german");
    reveal_strlit("chinese");
    reveal_strlit("portuguese-br");
    assert(internal_code(a) == internal_code(b));
    lemma_internal_code(a);
    lemma_internal_code(b);
}

spec fn internal_code(l: Language) -> (nat, char) {
    (l.internal_name().len(), l.internal_name()[0])
}

proof fn lemma_internal_code(l: Language)
    ensures
        l == Language::English <==> internal_code(l) == (7nat, 'e'),
        l == Language::French <==> internal_code(l) == (6nat, 'f'),
        l == Language::German <==> internal_code(l) == (6nat, 'g'),
        l == Language::Chinese <==> internal_code(l) == (7nat, 'c'),
        l == Language::PortugueseBr <==> internal_code(l) == (13nat, 'p'),
{
    reveal_strlit("english");
    reveal_strlit("french");
    reveal_strlit("german");
    reveal_strlit("chinese");
    reveal_strlit("portuguese-br");
}

/// After a line is added for a tag, the tag holds that line's text and
/// context, and every other tag keeps its line.
pub proof fn lemma_add_line_then_get(
    v: LoadedView,
    id: Seq<char>,
    text: Seq<char>,
    context: Option<Seq<char>>,
    count: bool,
    other: Seq<char>,
)
    ensures
        v.add_line(id, text, context, count).tags.contains_key(id),
        v.add_line(id, text, context, count).tags[id] == (text, context),
        other != id ==> v.add_line(id, text, context, count).tags.contains_key(other) == v.tags.contains_key(other),
        other != id && v.tags.contains_key(other) ==> v.add_line(id, text, context, count).tags[other] == v.tags[other],
        v.add_line(id, text, context, count).lines == v.lines + 1,
        v.add_line(id, text, context, count).unknowns == v.unknowns,
{
}

/// Taking out the line of a tag that was just added for the first time
/// gives back the lines held before.
pub proof fn lemma_remove_undoes_add(
    v: LoadedView,
    id: Seq<char>,
    text: Seq<char>,
    context: Option<Seq<char>>,
    count: bool,
)
    requires
        !v.tags.contains_key(id),
    ensures
        v.add_line(id, text, context, count).tags.remove(id) == v.tags,
{
    assert(v.add_line(id, text, context, count).tags.remove(id) =~= v.tags);
}

/// Adding again the text a tag already holds leaves the word count as it
/// was; so does adding a line without counting its words.
pub proof fn lemma_repeat_line_keeps_count(
    v: LoadedView,
    id: Seq<char>,
    text: Seq<char>,
    context: Option<Seq<char>>,
    count: bool,
)
    requires
        (v.tags.contains_key(id) && v.tags[id].0 == text) || !count,
    ensures
        v.add_line(id, text, context, count).words == v.words,
{
}

/// Reads a dictionary's languages from an archive or a directory.
#[derive(Debug, Clone)]
pub struct Loader {
    pub container: LoaderContainer,
}

impl Loader {
    /// The directory the dictionary lies in, as
    /// `LoaderContainer::load_directory` gives it; the path must have a parent.
    pub fn load_directory(&self) -> (r: Option<String>)
        requires
            self.container.path().len() > 0,
            self.container.path() != seq!['/'],
        ensures
            r matches Some(p) ==> p@ == self.container.path().subrange(0, p@.len() as int),
            plain_parent(self.container.path()) matches Some(q) ==> r is Some && r->0@ == q,
    {
        self.container.load_directory()
    }

    pub fn zip_loader(zip_file: String) -> (l: Loader)
        ensures
            l.container == LoaderContainer::ZipLoader(zip_file),
    {
        Loader { container: LoaderContainer::ZipLoader(zip_file) }
    }

    pub fn dir_loader(directory: String) -> (l: Loader)
        ensures
            l.container == LoaderContainer::DirLoader(directory),
    {
        Loader { container: LoaderContainer::DirLoader(directory) }
    }

    /// The languages a listing of the dictionary holds, and the directory
    /// names that are no language's.
    pub fn list_languages(&self, listing: &Vec<String>) -> (r: (Vec<Language>, Vec<String>))
        ensures
            r.0@.no_duplicates(),
            forall|l: Language| r.0@.contains(l) <==> listed_language(self.container.in_archive(), views(listing@), l),
            views(r.1@) == unused_dirs(self.container.in_archive(), views(listing@)),
    {
        self.container.list_languages(listing)
    }
}

pub proof fn lemma_push_contains(s: Seq<Language>, x: Language)
    requires
        s.no_duplicates(),
        !s.contains(x),
    ensures
        s.push(x).no_duplicates(),
        forall|l: Language| s.push(x).contains(l) <==> (s.contains(l) || l == x),
{
    let t = s.push(x);
    assert forall|l: Language| t.contains(l) <==> (s.contains(l) || l == x) by {
        if t.contains(l) {
            let k = choose|k: int| 0 <= k < t.len() && t[k] == l;
            if k < s.len() {
                assert(s[k] == l);
            }
        }
        if s.contains(l) {
            let k = choose|k: int| 0 <= k < s.len() && s[k] == l;
            assert(t[k] == l);
        }
        if l == x {
            assert(t[s.len() as int] == l);
        }
    }
    assert forall|a: int, b: int| 0 <= a < t.len() && 0 <= b < t.len() && a != b implies t[a] != t[b] by {
        if a < s.len() && b < s.len() {
            assert(s[a] != s[b]);
        } else if a < s.len() {
            assert(s.contains(s[a]));
        } else if b < s.len() {
            assert(s.contains(s[b]));
        }
    }
}

} // verus!
