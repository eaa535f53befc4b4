//! The languages of the editor's own interface: their names, the fonts they
//! are shown in, and the order in which they are requested.

use vstd::prelude::*;

use crate::tags::views;
use crate::vrt::first_index;

verus! {

/// The font family most interface text is shown in.
pub const FONT_BASE: &'static str = "text";

/// The name of an interface language and the font family it is shown in.
#[derive(Debug, Clone, Copy)]
pub struct LangInfo {
    pub name: &'static str,
    pub font: &'static str,
}

impl From<(&'static str, &'static str)> for LangInfo {
    fn from(value: (&'static str, &'static str)) -> (r: Self) {
        LangInfo { name: value.0, font: value.1 }
    }
}

impl vstd::std_specs::convert::FromSpecImpl<(&'static str, &'static str)> for LangInfo {
    open spec fn obeys_from_spec() -> bool {
        true
    }

    open spec fn from_spec(v: (&'static str, &'static str)) -> Self {
        LangInfo { name: v.0, font: v.1 }
    }
}

/// The name and font of the interface language with identifier `id`:
/// English for `en`, `unknown` in the base font for any other.
pub fn lang_info(id: &str) -> (r: LangInfo)
    ensures
        r.font@ == FONT_BASE@,
        r.name@ == if id@ == "en"@ {
            "English"@
        } else {
            "unknown"@
        },
{
    if crate::languages::string_eq(id, "en") {
        LangInfo::from(("English", FONT_BASE))
    } else {
        LangInfo::from(("unknown", FONT_BASE))
    }
}

/// The requested languages after `lang` is put first: it moves to the front
/// from where it stood first, or is added at the front.
pub open spec fn put_first(languages: Seq<Seq<char>>, lang: Seq<char>) -> Seq<Seq<char>> {
    match first_index(languages, lang) {
        Some(p) => seq![lang] + languages.remove(p),
        None => seq![lang] + languages,
    }
}

/// After `lang` is put first, it stands first, every language requested
/// before is still requested, and none is added but `lang`.
pub proof fn lemma_put_first(languages: Seq<Seq<char>>, lang: Seq<char>)
    ensures
        put_first(languages, lang).len() > 0,
        put_first(languages, lang)[0] == lang,
        put_first(languages, lang).to_set() == languages.to_set().insert(lang),
        put_first(languages, lang).len() == if languages.contains(lang) {
            languages.len()
        } else {
            languages.len() + 1
        },
{
    let r = put_first(languages, lang);
    crate::vrt::lemma_first_index_found(languages, lang);
    match first_index(languages, lang) {
        Some(p) => {
            assert(0 <= p < languages.len() && languages[p] == lang);
            assert(languages.contains(lang));
            assert forall|x: Seq<char>| r.to_set().contains(x) == languages.to_set().insert(lang).contains(x) by {
                if r.to_set().contains(x) {
                    let k = choose|k: int| 0 <= k < r.len() && r[k] == x;
                    if k > 0 {
                        assert(languages.remove(p)[k - 1] == x);
                        if k - 1 < p {
                            assert(languages[k - 1] == x);
                        } else {
                            assert(languages[k] == x);
                        }
                    }
                }
                if languages.to_set().contains(x) {
                    let k = choose|k: int| 0 <= k < languages.len() && languages[k] == x;
                    if k < p {
                        assert(r[k + 1] == x);
                    } else if k > p {
                        assert(r[k] == x);
                    } else {
                        assert(r[0] == x);
                    }
                }
                if x == lang {
                    assert(r[0] == x);
                }
            }
            assert(r.to_set() =~= languages.to_set().insert(lang));
        },
        None => {
            if languages.contains(lang) {
                let k = choose|k: int| 0 <= k < languages.len() && languages[k] == lang;
                assert(languages[k] != lang);
            }
            assert forall|x: Seq<char>| r.to_set().contains(x) == languages.to_set().insert(lang).contains(x) by {
                if r.to_set().contains(x) {
                    let k = choose|k: int| 0 <= k < r.len() && r[k] == x;
                    if k > 0 {
                        assert(languages[k - 1] == x);
                    }
                }
                if languages.to_set().contains(x) {
                    let k = choose|k: int| 0 <= k < languages.len() && languages[k] == x;
                    assert(r[k + 1] == x);
                }
                if x == lang {
                    assert(r[0] == x);
                }
            }
            assert(r.to_set() =~= languages.to_set().insert(lang));
        },
    }
}

/// Putting the same language first again changes nothing.
pub proof fn lemma_put_first_twice(languages: Seq<Seq<char>>, lang: Seq<char>)
    ensures
        put_first(put_first(languages, lang), lang) == put_first(languages, lang),
{
    let r = put_first(languages, lang);
    lemma_put_first(languages, lang);
    crate::vrt::lemma_first_index(r, lang, 0);
    assert(seq![lang] + r.remove(0) =~= r);
}

/// Puts `lang` first among the requested interface languages (by identifier).
pub fn set_first_language(languages: &mut Vec<String>, lang: String)
    ensures
        views(final(languages)@) == put_first(views(old(languages)@), lang@),
{
    let ghost old_views = views(languages@);
    let mut i: usize = 0;
    while i < languages.len() && !crate::languages::string_eq(languages[i].as_str(), lang.as_str())
        invariant
            i <= languages.len(),
            views(languages@) == old_views,
            forall|j: int| 0 <= j < i ==> languages@[j]@ != lang@,
        decreases languages.len() - i,
    {
        i = i + 1;
    }
    let found = i < languages.len();
    if found {
        proof {
            crate::vrt::lemma_first_index(old_views, lang@, i as int);
        }
        let first = languages.remove(i);
        languages.insert(0, first);
        proof {
            assert(views(languages@) =~= seq![lang@] + old_views.remove(i as int));
        }
    } else {
        proof {
            if exists|j: int| 0 <= j < old_views.len() && old_views[j] == lang@ {
                let j = choose|j: int| 0 <= j < old_views.len() && old_views[j] == lang@;
                assert(languages@[j]@ != lang@);
            }
        }
        languages.insert(0, lang);
        proof {
            assert(views(languages@) =~= seq![lang@] + old_views);
        }
    }
}

} // verus!
