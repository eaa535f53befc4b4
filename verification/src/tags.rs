//! A map from tags to lines, as the loaders and translations keep them.

use vstd::prelude::*;

use crate::languages::{chars_lt, text_lt};
use crate::text::to_chars;

verus! {

/// What a tag maps to: the line's text and an optional context.
pub type LineEntry = (Seq<char>, Option<Seq<char>>);

/// The view of an optional string.
pub open spec fn opt_view(o: Option<String>) -> Option<Seq<char>> {
    match o {
        Some(s) => Some(s@),
        None => None,
    }
}

/// One tag and its line.
#[derive(Debug)]
pub struct TagEntry {
    pub tag: String,
    pub text: String,
    pub context: Option<String>,
}

/// Tags mapped to their lines; each tag occurs once. Entries keep the order in
/// which their tags were first inserted.
#[derive(Debug)]
pub struct TagMap {
    entries: Vec<TagEntry>,
}

impl Clone for TagEntry {
    fn clone(&self) -> (r: Self)
        ensures
            r.tag@ == self.tag@,
            r.text@ == self.text@,
            opt_view(r.context) == opt_view(self.context),
    {
        let context = match &self.context {
            Some(c) => Some(c.clone()),
            None => None,
        };
        TagEntry { tag: self.tag.clone(), text: self.text.clone(), context }
    }
}

impl TagMap {
    /// A copy of the map.
    pub fn duplicate(&self) -> (r: Self)
        requires
            self.wf(),
        ensures
            r@ == self@,
            r.wf(),
            r.order() == self.order(),
    {
        let mut entries: Vec<TagEntry> = Vec::new();
        let mut i: usize = 0;
        while i < self.entries.len()
            invariant
                i <= self.entries.len(),
                entries.len() == i,
                forall|j: int| 0 <= j < i ==> #[trigger] entries@[j].tag@ == self.entries@[j].tag@
                    && entries@[j].text@ == self.entries@[j].text@ && opt_view(entries@[j].context)
                    == opt_view(self.entries@[j].context),
            decreases self.entries.len() - i,
        {
            entries.push(self.entries[i].clone());
            i = i + 1;
        }
        let r = TagMap { entries };
        proof {
            assert(r.order() =~= self.order());
            assert forall|t: Seq<char>| #[trigger] r@.contains_key(t) == self@.contains_key(t) by {
                if r@.contains_key(t) {
                    let k = choose|k: int| 0 <= k < r.entries.len() && r.entries@[k].tag@ == t;
                    assert(self.entries@[k].tag@ == t);
                }
                if self@.contains_key(t) {
                    let k = choose|k: int| 0 <= k < self.entries.len() && self.entries@[k].tag@ == t;
                    assert(r.entries@[k].tag@ == t);
                }
            }
            assert forall|t: Seq<char>| r@.contains_key(t) implies #[trigger] r@[t] == self@[t] by {
                let k = choose|k: int| 0 <= k < r.entries.len() && r.entries@[k].tag@ == t;
                let k2 = choose|k2: int| 0 <= k2 < self.entries.len() && self.entries@[k2].tag@ == t;
                if k != k2 {
                    assert(self.entries@[k2].tag@ != self.entries@[k].tag@);
                }
            }
            assert(r@ =~= self@);
        }
        r
    }
}

impl View for TagMap {
    type V = Map<Seq<char>, LineEntry>;

    closed spec fn view(&self) -> Map<Seq<char>, LineEntry> {
        Map::new(
            |t: Seq<char>| exists|i: int| 0 <= i < self.entries.len() && self.entries@[i].tag@ == t,
            |t: Seq<char>|
                {
                    let i = choose|i: int| 0 <= i < self.entries.len() && self.entries@[i].tag@ == t;
                    (self.entries@[i].text@, opt_view(self.entries@[i].context))
                },
        )
    }
}

impl TagMap {
    /// Each tag occurs in one entry only.
    pub closed spec fn wf(&self) -> bool {
        forall|i: int, j: int|
            0 <= i < j < self.entries.len() ==> self.entries@[i].tag@ != self.entries@[j].tag@
    }

    /// The tags in the order they were first inserted.
    pub closed spec fn order(&self) -> Seq<Seq<char>> {
        self.entries@.map_values(|e: TagEntry| e.tag@)
    }

    proof fn lemma_view_at(&self, i: int)
        requires
            self.wf(),
            0 <= i < self.entries.len(),
        ensures
            self@.contains_key(self.entries@[i].tag@),
            self@[self.entries@[i].tag@] == (self.entries@[i].text@, opt_view(
                self.entries@[i].context,
            )),
    {
        let t = self.entries@[i].tag@;
        assert(self@.contains_key(t));
        let k = choose|k: int| 0 <= k < self.entries.len() && self.entries@[k].tag@ == t;
        if k != i {
            assert(self.entries@[k].tag@ != self.entries@[i].tag@);
        }
    }

    /// The tags in insertion order are exactly the map's tags, each once.
    pub proof fn lemma_order(&self)
        requires
            self.wf(),
        ensures
            self@.dom().finite(),
            self@.dom() == self.order().to_set(),
            self.order().no_duplicates(),
            self.order().len() == self@.dom().len(),
    {
        self.lemma_finite();
    }

    proof fn lemma_finite(&self)
        requires
            self.wf(),
        ensures
            self@.dom().finite(),
            self@.dom().len() == self.entries.len(),
            self@.dom() == self.order().to_set(),
            self.order().no_duplicates(),
            self.order().len() == self@.dom().len(),
    {
        let o = self.order();
        assert forall|t: Seq<char>| self@.dom().contains(t) <==> o.to_set().contains(t) by {
            if self@.dom().contains(t) {
                let i = choose|i: int| 0 <= i < self.entries.len() && self.entries@[i].tag@ == t;
                assert(o[i] == t);
            }
            if o.to_set().contains(t) {
                let i = choose|i: int| 0 <= i < o.len() && o[i] == t;
                assert(self.entries@[i].tag@ == t);
            }
        }
        assert(self@.dom() =~= o.to_set());
        assert(o.no_duplicates());
        o.unique_seq_to_set();
    }

    pub fn new() -> (m: Self)
        ensures
            m.wf(),
            m@ == Map::<Seq<char>, LineEntry>::empty(),
            m.order() == Seq::<Seq<char>>::empty(),
    {
        let m = TagMap { entries: Vec::new() };
        assert(m@ =~= Map::<Seq<char>, LineEntry>::empty());
        assert(m.order() =~= Seq::<Seq<char>>::empty());
        m
    }

    /// The number of tags.
    pub fn len(&self) -> (n: usize)
        requires
            self.wf(),
        ensures
            self@.dom().finite(),
            n == self@.dom().len(),
    {
        proof {
            self.lemma_finite();
        }
        self.entries.len()
    }

    /// Where `tag` stands among the entries.
    fn position(&self, tag: &String) -> (r: Option<usize>)
        requires
            self.wf(),
        ensures
            r matches Some(i) ==> i < self.entries.len() && self.entries@[i as int].tag@ == tag@,
            r is None ==> !self@.contains_key(tag@),
    {
        let mut i: usize = 0;
        while i < self.entries.len()
            invariant
                i <= self.entries.len(),
                forall|j: int| 0 <= j < i ==> self.entries@[j].tag@ != tag@,
            decreases self.entries.len() - i,
        {
            if self.entries[i].tag == *tag {
                return Some(i);
            }
            i = i + 1;
        }
        None
    }

    /// The text `tag` maps to.
    pub fn get(&self, tag: &str) -> (r: Option<&String>)
        requires
            self.wf(),
        ensures
            r matches Some(s) ==> self@.contains_key(tag@) && self@[tag@].0 == s@,
            r is None ==> !self@.contains_key(tag@),
    {
        let key = String::from_str(tag);
        match self.position(&key) {
            Some(i) => {
                proof {
                    self.lemma_view_at(i as int);
                }
                Some(&self.entries[i].text)
            },
            None => None,
        }
    }

    /// The text and context `tag` maps to.
    pub fn get_entry(&self, tag: &str) -> (r: Option<&TagEntry>)
        requires
            self.wf(),
        ensures
            r matches Some(e) ==> self@.contains_key(tag@) && self@[tag@] == (e.text@, opt_view(
                e.context,
            )) && e.tag@ == tag@,
            r is None ==> !self@.contains_key(tag@),
    {
        let key = String::from_str(tag);
        match self.position(&key) {
            Some(i) => {
                proof {
                    self.lemma_view_at(i as int);
                }
                Some(&self.entries[i])
            },
            None => None,
        }
    }

    /// Maps `tag` to `(text, context)`, and hands back what it mapped to before.
    pub fn insert(&mut self, tag: String, text: String, context: Option<String>) -> (old_entry: Option<(
        String,
        Option<String>,
    )>)
        requires
            old(self).wf(),
        ensures
            final(self).wf(),
            final(self)@ == old(self)@.insert(tag@, (text@, opt_view(context))),
            old_entry matches Some(p) ==> old(self)@.contains_key(tag@) && old(self)@[tag@] == (
                p.0@,
                opt_view(p.1),
            ),
            old_entry is None ==> !old(self)@.contains_key(tag@),
            old(self)@.contains_key(tag@) ==> final(self).order() == old(self).order(),
            !old(self)@.contains_key(tag@) ==> final(self).order() == old(self).order().push(tag@),
    {
        let ghost old_map = self@;
        match self.position(&tag) {
            Some(i) => {
                proof {
                    self.lemma_view_at(i as int);
                }
                let entry = TagEntry { tag, text, context };
                let old_e = self.entries.remove(i);
                self.entries.insert(i, entry);
                assert(self.entries@ =~= old(self).entries@.update(i as int, entry));
                proof {
                    assert forall|t: Seq<char>| #[trigger]
                        self@.contains_key(t) == old_map.insert(tag@, (text@, opt_view(context))).contains_key(t) by {
                        if old_map.contains_key(t) {
                            let k = choose|k: int| 0 <= k < old(self).entries.len() && old(self).entries@[k].tag@ == t;
                            assert(self.entries@[k].tag@ == t);
                        }
                        if self@.contains_key(t) {
                            let k = choose|k: int| 0 <= k < self.entries.len() && self.entries@[k].tag@ == t;
                            if k != i {
                                assert(old(self).entries@[k].tag@ == t);
                            }
                        }
                    }
                    assert forall|t: Seq<char>| self@.contains_key(t) implies #[trigger] self@[t]
                        == old_map.insert(tag@, (text@, opt_view(context)))[t] by {
                        let k = choose|k: int| 0 <= k < self.entries.len() && self.entries@[k].tag@ == t;
                        self.lemma_view_at(k);
                        if k != i {
                            old(self).lemma_view_at(k);
                        }
                    }
                    assert(self@ =~= old_map.insert(tag@, (text@, opt_view(context))));
                    assert(self.order() =~= old(self).order());
                }
                Some((old_e.text, old_e.context))
            },
            None => {
                let entry = TagEntry { tag, text, context };
                self.entries.push(entry);
                proof {
                    let n = self.entries.len() - 1;
                    assert forall|t: Seq<char>| #[trigger]
                        self@.contains_key(t) == old_map.insert(tag@, (text@, opt_view(context))).contains_key(t) by {
                        if old_map.contains_key(t) {
                            let k = choose|k: int| 0 <= k < old(self).entries.len() && old(self).entries@[k].tag@ == t;
                            assert(self.entries@[k].tag@ == t);
                        }
                        if t == tag@ {
                            assert(self.entries@[n].tag@ == t);
                        }
                        if self@.contains_key(t) {
                            let k = choose|k: int| 0 <= k < self.entries.len() && self.entries@[k].tag@ == t;
                            if k != n {
                                assert(old(self).entries@[k].tag@ == t);
                            }
                        }
                    }
                    assert forall|t: Seq<char>| self@.contains_key(t) implies #[trigger] self@[t]
                        == old_map.insert(tag@, (text@, opt_view(context)))[t] by {
                        let k = choose|k: int| 0 <= k < self.entries.len() && self.entries@[k].tag@ == t;
                        self.lemma_view_at(k);
                        if k != n {
                            old(self).lemma_view_at(k);
                        }
                    }
                    assert(self@ =~= old_map.insert(tag@, (text@, opt_view(context))));
                    assert(self.order() =~= old(self).order().push(tag@));
                }
                None
            },
        }
    }
}

impl TagMap {
    /// Takes `tag` out of the map, handing back what it mapped to.
    pub fn remove(&mut self, tag: &str) -> (r: Option<(String, Option<String>)>)
        requires
            old(self).wf(),
        ensures
            final(self).wf(),
            final(self)@ == old(self)@.remove(tag@),
            r matches Some(p) ==> old(self)@.contains_key(tag@) && old(self)@[tag@] == (p.0@, opt_view(p.1)),
            r is None ==> !old(self)@.contains_key(tag@),
    {
        let key = String::from_str(tag);
        match self.position(&key) {
            Some(i) => {
                proof {
                    self.lemma_view_at(i as int);
                }
                let ghost old_map = self@;
                let e = self.entries.remove(i);
                proof {
                    assert forall|a: int, b: int| 0 <= a < b < self.entries.len() implies self.entries@[a].tag@
                        != self.entries@[b].tag@ by {
                        let a0 = if a < i { a } else { a + 1 };
                        let b0 = if b < i { b } else { b + 1 };
                        assert(self.entries@[a] == old(self).entries@[a0]);
                        assert(self.entries@[b] == old(self).entries@[b0]);
                    }
                    assert forall|t: Seq<char>| #[trigger] self@.contains_key(t) == old_map.remove(tag@).contains_key(t) by {
                        if self@.contains_key(t) {
                            let k = choose|k: int| 0 <= k < self.entries.len() && self.entries@[k].tag@ == t;
                            let k0 = if k < i { k } else { k + 1 };
                            assert(old(self).entries@[k0].tag@ == t);
                            assert(k0 != i);
                        }
                        if old_map.remove(tag@).contains_key(t) {
                            let k = choose|k: int| 0 <= k < old(self).entries.len() && old(self).entries@[k].tag@ == t;
                            assert(k != i);
                            if k < i {
                                assert(self.entries@[k].tag@ == t);
                            } else {
                                assert(self.entries@[k - 1].tag@ == t);
                            }
                        }
                    }
                    assert forall|t: Seq<char>| self@.contains_key(t) implies #[trigger] self@[t] == old_map.remove(tag@)[t] by {
                        let k = choose|k: int| 0 <= k < self.entries.len() && self.entries@[k].tag@ == t;
                        self.lemma_view_at(k);
                        let k0 = if k < i { k } else { k + 1 };
                        assert(self.entries@[k] == old(self).entries@[k0]);
                        old(self).lemma_view_at(k0);
                    }
                    assert(self@ =~= old_map.remove(tag@));
                }
                Some((e.text, e.context))
            },
            None => {
                proof {
                    assert(self@ =~= self@.remove(tag@));
                }
                None
            },
        }
    }

    /// Inserts every entry of `other`, which wins where both hold a tag.
    pub fn extend(&mut self, other: &TagMap)
        requires
            old(self).wf(),
            other.wf(),
        ensures
            final(self).wf(),
            final(self)@ == old(self)@.union_prefer_right(other@),
    {
        let ghost start = self@;
        let mut i: usize = 0;
        while i < other.entries.len()
            invariant
                self.wf(),
                other.wf(),
                i <= other.entries.len(),
                self@ == start.union_prefer_right(
                    other@.restrict(Set::new(|t: Seq<char>| exists|j: int| 0 <= j < i && other.entries@[j].tag@ == t)),
                ),
            decreases other.entries.len() - i,
        {
            let e = other.entries[i].clone();
            proof {
                other.lemma_view_at(i as int);
            }
            self.insert(e.tag, e.text, e.context);
            proof {
                let s_old = Set::new(|t: Seq<char>| exists|j: int| 0 <= j < i && other.entries@[j].tag@ == t);
                let s_new = Set::new(|t: Seq<char>| exists|j: int| 0 <= j < i + 1 && other.entries@[j].tag@ == t);
                assert forall|t: Seq<char>| s_new.contains(t) == (s_old.contains(t) || t == other.entries@[i as int].tag@) by {
                    if s_new.contains(t) {
                        let j = choose|j: int| 0 <= j < i + 1 && other.entries@[j].tag@ == t;
                        if j < i {
                            assert(s_old.contains(t));
                        }
                    }
                    if s_old.contains(t) {
                        let j = choose|j: int| 0 <= j < i && other.entries@[j].tag@ == t;
                        assert(0 <= j < i + 1 && other.entries@[j].tag@ == t);
                    }
                    if t == other.entries@[i as int].tag@ {
                        assert(0 <= i < i + 1 && other.entries@[i as int].tag@ == t);
                    }
                }
                assert(self@ =~= start.union_prefer_right(other@.restrict(s_new)));
            }
            i = i + 1;
        }
        proof {
            let s_all = Set::new(|t: Seq<char>| exists|j: int| 0 <= j < other.entries.len() && other.entries@[j].tag@ == t);
            assert(other@.restrict(s_all) =~= other@);
        }
    }

    /// The tags, sorted.
    pub fn sorted_tags(&self) -> (v: Vec<String>)
        requires
            self.wf(),
        ensures
            v.len() == self@.dom().len(),
            views(v@).to_set() == self@.dom(),
            sorted_strictly(views(v@)),
    {
        proof {
            self.lemma_finite();
        }
        let mut v: Vec<String> = Vec::new();
        let mut keys: Vec<Vec<char>> = Vec::new();
        let mut i: usize = 0;
        while i < self.entries.len()
            invariant
                self.wf(),
                i <= self.entries.len(),
                v.len() == i,
                keys_match(keys@, v@),
                views(v@).to_set() == self.order().subrange(0, i as int).to_set(),
                sorted_strictly(views(v@)),
                self.order().no_duplicates(),
            decreases self.entries.len() - i,
        {
            let t = self.entries[i].tag.clone();
            proof {
                assert(self.order()[i as int] == t@);
                if views(v@).contains(t@) {
                    assert(self.order().subrange(0, i as int).to_set().contains(t@));
                    let j = choose|j: int| 0 <= j < i && self.order().subrange(0, i as int)[j] == t@;
                    assert(self.order()[j] == self.order()[i as int]);
                }
            }
            insert_sorted(&mut v, &mut keys, t);
            proof {
                assert(self.order().subrange(0, i + 1) =~= self.order().subrange(0, i as int).push(t@));
                lemma_push_to_set(self.order().subrange(0, i as int), t@);
            }
            i = i + 1;
        }
        proof {
            assert(self.order().subrange(0, i as int) =~= self.order());
            lemma_sorted_distinct(views(v@));
            views(v@).unique_seq_to_set();
        }
        v
    }
}

/// The character sequences of a list of strings.
pub open spec fn views(v: Seq<String>) -> Seq<Seq<char>> {
    v.map_values(|s: String| s@)
}

/// Each element sorts strictly before the next ones.
pub open spec fn sorted_strictly(s: Seq<Seq<char>>) -> bool {
    forall|a: int, b: int| 0 <= a < b < s.len() ==> text_lt(s[a], s[b])
}

spec fn keys_match(keys: Seq<Vec<char>>, v: Seq<String>) -> bool {
    &&& keys.len() == v.len()
    &&& forall|k: int| 0 <= k < v.len() ==> #[trigger] keys[k]@ == v[k]@
}

proof fn lemma_push_to_set(s: Seq<Seq<char>>, x: Seq<char>)
    ensures
        s.push(x).to_set() == s.to_set().insert(x),
{
    assert forall|y: Seq<char>| s.push(x).to_set().contains(y) == s.to_set().insert(x).contains(y) by {
        if s.push(x).to_set().contains(y) {
            let j = choose|j: int| 0 <= j < s.len() + 1 && s.push(x)[j] == y;
            if j < s.len() {
                assert(s[j] == y);
            }
        }
        if s.to_set().contains(y) {
            let j = choose|j: int| 0 <= j < s.len() && s[j] == y;
            assert(s.push(x)[j] == y);
        }
        if y == x {
            assert(s.push(x)[s.len() as int] == y);
        }
    }
    assert(s.push(x).to_set() =~= s.to_set().insert(x));
}

proof fn lemma_sorted_distinct(s: Seq<Seq<char>>)
    requires
        sorted_strictly(s),
    ensures
        s.no_duplicates(),
{
    assert forall|a: int, b: int| 0 <= a < s.len() && 0 <= b < s.len() && a != b implies s[a] != s[b] by {
        crate::languages::lemma_text_lt_trichotomy(s[a], s[b]);
        if a < b {
            assert(text_lt(s[a], s[b]));
        } else {
            assert(text_lt(s[b], s[a]));
        }
    }
}

/// Inserts `t` into a strictly sorted list that does not hold it.
fn insert_sorted(v: &mut Vec<String>, keys: &mut Vec<Vec<char>>, t: String)
    requires
        keys_match(old(keys)@, old(v)@),
        sorted_strictly(views(old(v)@)),
        !views(old(v)@).contains(t@),
    ensures
        keys_match(final(keys)@, final(v)@),
        sorted_strictly(views(final(v)@)),
        final(v).len() == old(v).len() + 1,
        views(final(v)@).to_set() == views(old(v)@).to_set().insert(t@),
{
    let key = to_chars(t.as_str());
    let mut pos = v.len();
    while pos > 0 && chars_lt(&key, &keys[pos - 1])
        invariant
            pos <= v.len(),
            keys_match(keys@, v@),
            forall|k: int| pos <= k < v.len() ==> text_lt(key@, v@[k]@),
            key@ == t@,
        decreases pos,
    {
        pos = pos - 1;
    }
    let ghost old_vv = views(v@);
    proof {
        if pos > 0 {
            assert(old_vv[pos - 1] == v@[pos - 1]@);
            if old_vv[pos - 1] == key@ {
                assert(old_vv.contains(t@));
            }
            lemma_text_lt_total(key@, old_vv[pos - 1]);
        }
        assert forall|k: int| pos <= k < old_vv.len() implies text_lt(key@, old_vv[k]) by {
            assert(old_vv[k] == v@[k]@);
        }
        lemma_sorted_insert(old_vv, key@, pos as int);
    }
    v.insert(pos, t);
    keys.insert(pos, key);
    proof {
        assert(views(v@) =~= old_vv.insert(pos as int, key@));
        assert forall|y: Seq<char>| views(v@).to_set().contains(y) == old_vv.to_set().insert(key@).contains(y) by {
            let nv = views(v@);
            if nv.to_set().contains(y) {
                let j = choose|j: int| 0 <= j < nv.len() && nv[j] == y;
                if j < pos {
                    assert(old_vv[j] == y);
                } else if j > pos {
                    assert(old_vv[j - 1] == y);
                }
            }
            if old_vv.to_set().contains(y) {
                let j = choose|j: int| 0 <= j < old_vv.len() && old_vv[j] == y;
                if j < pos {
                    assert(nv[j] == y);
                } else {
                    assert(nv[j + 1] == y);
                }
            }
            if y == key@ {
                assert(nv[pos as int] == y);
            }
        }
        assert(views(v@).to_set() =~= old_vv.to_set().insert(t@));
    }
}

proof fn lemma_text_lt_total(a: Seq<char>, b: Seq<char>)
    requires
        a != b,
        !text_lt(a, b),
    ensures
        text_lt(b, a),
{
    crate::languages::lemma_text_lt_trichotomy(a, b);
}

/// Inserting `key` at `pos`, after everything that does not sort after it and
/// before everything that does, keeps a strictly sorted sequence sorted.
proof fn lemma_sorted_insert(s: Seq<Seq<char>>, key: Seq<char>, pos: int)
    requires
        0 <= pos <= s.len(),
        forall|a: int, b: int| 0 <= a < b < s.len() ==> text_lt(s[a], s[b]),
        forall|k: int| pos <= k < s.len() ==> text_lt(key, s[k]),
        pos > 0 ==> text_lt(s[pos - 1], key),
    ensures
        forall|a: int, b: int| 0 <= a < b < s.len() + 1 ==> text_lt(s.insert(pos, key)[a], s.insert(pos, key)[b]),
{
    let t = s.insert(pos, key);
    assert forall|a: int, b: int| 0 <= a < b < s.len() + 1 implies text_lt(t[a], t[b]) by {
        if a < pos && b == pos {
            if a < pos - 1 {
                crate::languages::lemma_text_lt_transitive(s[a], s[pos - 1], key);
            }
        }
        if a < pos && b > pos {
            if a < pos - 1 {
                crate::languages::lemma_text_lt_transitive(s[a], s[pos - 1], key);
            }
            crate::languages::lemma_text_lt_transitive(s[a], key, s[b - 1]);
        }
    }
}

} // verus!
