//! What the library writes: the layout versions of exported archives and the
//! text of `vrt` files.

use vstd::prelude::*;

use crate::languages::main_file_name;
use crate::tags::views;
use crate::translation::{Translation, current_text};

verus! {

/// The directory layout of an exported archive.
#[derive(Debug, Clone, Copy, PartialEq, Eq, Structural)]
pub enum FormatVersion {
    /// `i18n/lang.vrt`
    Version0,
    /// `i18n/lang/00-base.vrt`
    Version1,
}

/// The text of a `vrt` file holding (tag, text) pairs: `{tag} {text}` for
/// each pair, each followed by a line feed.
pub open spec fn vrt_text(pairs: Seq<(Seq<char>, Seq<char>)>) -> Seq<char>
    decreases pairs.len(),
{
    if pairs.len() == 0 {
        Seq::empty()
    } else {
        vrt_text(pairs.drop_last()) + pairs.last().0 + seq![' '] + pairs.last().1 + seq!['\n']
    }
}

/// The elements of `a` paired with those of `b`, as far as both go.
pub open spec fn zip_pairs(a: Seq<Seq<char>>, b: Seq<Seq<char>>) -> Seq<(Seq<char>, Seq<char>)> {
    Seq::new(
        if a.len() <= b.len() {
            a.len()
        } else {
            b.len()
        },
        |i: int| (a[i], b[i]),
    )
}

/// The text each line of a translation shows.
pub open spec fn shown_texts(t: crate::translation::TranslationView) -> Seq<Seq<char>> {
    t.lines.map_values(|l: crate::translation::LineView| current_text(l))
}

/// The `vrt` text of `tags` paired with `items`, as far as both go.
fn pairs_text(tags: &Vec<String>, items: &Vec<String>) -> (s: String)
    ensures
        s@ == vrt_text(zip_pairs(views(tags@), views(items@))),
{
    let n = if tags.len() <= items.len() {
        tags.len()
    } else {
        items.len()
    };
    let ghost pairs = zip_pairs(views(tags@), views(items@));
    let mut s = String::new();
    let mut i: usize = 0;
    proof {
        assert(pairs.take(0) =~= Seq::<(Seq<char>, Seq<char>)>::empty());
        reveal_strlit(" ");
        reveal_strlit("\n");
    }
    while i < n
        invariant
            i <= n,
            n == pairs.len(),
            n <= tags.len(),
            n <= items.len(),
            pairs == zip_pairs(views(tags@), views(items@)),
            s@ == vrt_text(pairs.take(i as int)),
        decreases n - i,
    {
        s.append(tags[i].as_str());
        s.append(" ");
        s.append(items[i].as_str());
        s.append("\n");
        proof {
            reveal_strlit(" ");
            reveal_strlit("\n");
            assert(pairs.take(i + 1).drop_last() =~= pairs.take(i as int));
            assert(pairs.take(i + 1).last() == (tags@[i as int]@, items@[i as int]@));
            assert(" "@ =~= seq![' ']);
            assert("\n"@ =~= seq!['\n']);
        }
        i = i + 1;
    }
    proof {
        assert(pairs.take(n as int) =~= pairs);
    }
    s
}

/// The text of a language's `vrt` file: each tag with its string.
pub fn lang_vrt_text(tags: &Vec<String>, lang_strings: &Vec<String>) -> (s: String)
    requires
        tags.len() == lang_strings.len(),
    ensures
        s@ == vrt_text(zip_pairs(views(tags@), views(lang_strings@))),
{
    pairs_text(tags, lang_strings)
}

/// The records of a language's `csv` file: each tag with its string and
/// its context.
pub fn csv_rows(tags: &Vec<String>, lang_strings: &Vec<String>, context: &Vec<String>) -> (rows: Vec<(String, String, String)>)
    requires
        tags.len() == lang_strings.len(),
        tags.len() == context.len(),
    ensures
        rows.len() == tags.len(),
        forall|i: int| 0 <= i < rows.len() ==> (#[trigger] rows@[i]).0@ == tags@[i]@ && rows@[i].1@
            == lang_strings@[i]@ && rows@[i].2@ == context@[i]@,
{
    let mut rows: Vec<(String, String, String)> = Vec::new();
    let mut i: usize = 0;
    while i < tags.len()
        invariant
            i <= tags.len(),
            tags.len() == lang_strings.len(),
            tags.len() == context.len(),
            rows.len() == i,
            forall|k: int| 0 <= k < i ==> (#[trigger] rows@[k]).0@ == tags@[k]@ && rows@[k].1@
                == lang_strings@[k]@ && rows@[k].2@ == context@[k]@,
        decreases tags.len() - i,
    {
        rows.push((tags[i].clone(), lang_strings[i].clone(), context[i].clone()));
        i = i + 1;
    }
    rows
}

/// The text of a translation's `vrt` file: each tag with the text its line
/// shows, as far as both go.
pub fn translation_vrt_text(tags: &Vec<String>, translation: &Translation) -> (s: String)
    ensures
        s@ == vrt_text(zip_pairs(views(tags@), shown_texts(translation@))),
{
    let lines = translation.current_lines();
    proof {
        assert(views(lines@) =~= shown_texts(translation@));
    }
    pairs_text(tags, &lines)
}

/// The files of an exported archive, one per translation in order: its main
/// file name in `format`, relative to the archive's language directory, and
/// its text.
pub fn vrt_zip_entries(format: FormatVersion, tags: &Vec<String>, translations: &Vec<Translation>) -> (v: Vec<(String, String)>)
    ensures
        v.len() == translations.len(),
        forall|i: int| 0 <= i < v.len() ==> (#[trigger] v@[i]).0@ == main_file_name(translations@[i]@.language, format)
            && v@[i].1@ == vrt_text(zip_pairs(views(tags@), shown_texts(translations@[i]@))),
{
    let mut v: Vec<(String, String)> = Vec::new();
    let mut i: usize = 0;
    while i < translations.len()
        invariant
            i <= translations.len(),
            v.len() == i,
            forall|k: int| 0 <= k < i ==> (#[trigger] v@[k]).0@ == main_file_name(translations@[k]@.language, format)
                && v@[k].1@ == vrt_text(zip_pairs(views(tags@), shown_texts(translations@[k]@))),
        decreases translations.len() - i,
    {
        let t = &translations[i];
        let name = t.language().internal_main_file_name(format);
        let text = translation_vrt_text(tags, t);
        v.push((name, text));
        i = i + 1;
    }
    v
}

/// The files of an archive of translations handed in from outside, one per
/// translation in order: `{internal}.vrt` for its language and its text.
pub fn externals_zip_entries(main_tags: &Vec<String>, translations: &Vec<Translation>) -> (v: Vec<(String, String)>)
    ensures
        v.len() == translations.len(),
        forall|i: int| 0 <= i < v.len() ==> (#[trigger] v@[i]).0@ == translations@[i]@.language.internal_name() + seq!['.']
            + crate::languages::INTERNAL_EXT@ && v@[i].1@ == vrt_text(zip_pairs(views(main_tags@), shown_texts(translations@[i]@))),
{
    let mut v: Vec<(String, String)> = Vec::new();
    let mut i: usize = 0;
    while i < translations.len()
        invariant
            i <= translations.len(),
            v.len() == i,
            forall|k: int| 0 <= k < i ==> (#[trigger] v@[k]).0@ == translations@[k]@.language.internal_name() + seq!['.']
                + crate::languages::INTERNAL_EXT@ && v@[k].1@ == vrt_text(zip_pairs(views(main_tags@), shown_texts(translations@[k]@))),
        decreases translations.len() - i,
    {
        let t = &translations[i];
        let name = t.language().internal_category_file_name();
        let text = translation_vrt_text(main_tags, t);
        v.push((name, text));
        i = i + 1;
    }
    v
}

} // verus!
