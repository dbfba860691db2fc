//! Localization: which language a character speaks, and which content of a
//! dialogue is used for it.
use vstd::prelude::*;
use bevy::platform::collections::HashMap;
use indexmap::IndexMap;
use isolang::Language;

use crate::model::Dialogue;
use crate::outside::{content_entries, contents_get_index, contents_len, language_eq, variable_map};
use crate::template::{render, replace_templates};

verus! {

/// The language of a request: the request's own, else the character's
/// default, else the global one, else none.
pub open spec fn preferred_language(
    request: Option<Language>,
    character: Option<Language>,
    global: Option<Language>,
) -> Option<Language> {
    if request is Some {
        request
    } else if character is Some {
        character
    } else {
        global
    }
}

/// Content in language `entry` is usable for `lang`: any language is when
/// none is asked for.
pub open spec fn usable(entry: Language, lang: Option<Language>) -> bool {
    lang matches Some(l) ==> entry == l
}

/// Position `i` holds the first content usable for `lang`.
pub open spec fn is_chosen(entries: Seq<(Language, Seq<char>)>, lang: Option<Language>, i: int) -> bool {
    &&& 0 <= i < entries.len()
    &&& usable(entries[i].0, lang)
    &&& forall|j: int| 0 <= j < i ==> !usable(#[trigger] entries[j].0, lang)
}

/// The first content usable for `lang`, if any.
pub open spec fn chosen_content(entries: Seq<(Language, Seq<char>)>, lang: Option<Language>) -> Option<Seq<char>> {
    if exists|i: int| is_chosen(entries, lang, i) {
        Some(entries[choose|i: int| is_chosen(entries, lang, i)].1)
    } else {
        None
    }
}

/// The line a dialogue gives in `lang`, with its variables filled in: one
/// line, or none when the dialogue has no content usable for `lang`.
pub open spec fn line_of(d: Dialogue, lang: Option<Language>, vars: Map<Seq<char>, Seq<char>>) -> Seq<Seq<char>> {
    match chosen_content(content_entries(d.contents), lang) {
        Some(c) => seq![render(c, vars)],
        None => seq![],
    }
}

/// The request's language wins over the character's default, which wins over
/// the global language.
pub fn resolve_language(
    request: Option<Language>,
    character: Option<Language>,
    global: Option<Language>,
) -> (r: Option<Language>)
    ensures
        r == preferred_language(request, character, global),
{
    if request.is_some() {
        request
    } else if character.is_some() {
        character
    } else if global.is_some() {
        global
    } else {
        None
    }
}

/// The first content of `contents` usable for `lang`.
pub fn pick_content(contents: &IndexMap<Language, String>, lang: Option<Language>) -> (r: Option<&String>)
    ensures
        match r {
            Some(c) => chosen_content(content_entries(*contents), lang) == Some(c@),
            None => chosen_content(content_entries(*contents), lang) is None,
        },
{
    let ghost entries = content_entries(*contents);
    let n = contents_len(contents);
    let mut i: usize = 0;
    while i < n
        invariant
            n == entries.len(),
            entries == content_entries(*contents),
            i <= n,
            forall|j: int| 0 <= j < i ==> !usable(#[trigger] entries[j].0, lang),
        decreases n - i,
    {
        match contents_get_index(contents, i) {
            Some((entry_lang, content)) => {
                let fits = match lang {
                    Some(l) => language_eq(entry_lang, l),
                    None => true,
                };
                if fits {
                    proof {
                        assert(is_chosen(entries, lang, i as int));
                        let k = choose|k: int| is_chosen(entries, lang, k);
                        if k < i {
                            assert(!usable(entries[k].0, lang));
                        } else if k > i {
                            assert(!usable(entries[i as int].0, lang));
                        }
                    }
                    return Some(content);
                }
            },
            None => {},
        }
        i = i + 1;
    }
    proof {
        if exists|k: int| is_chosen(entries, lang, k) {
            let k = choose|k: int| is_chosen(entries, lang, k);
            assert(!usable(entries[k].0, lang));
        }
    }
    None
}

/// The line of dialogue `d` in `lang`, with the variables of `vars` filled in.
pub fn line_of_dialogue(d: &Dialogue, lang: Option<Language>, vars: &HashMap<String, String>) -> (r: Option<String>)
    ensures
        match r {
            Some(s) => line_of(*d, lang, variable_map(*vars)) == seq![s@],
            None => line_of(*d, lang, variable_map(*vars)) == Seq::<Seq<char>>::empty(),
        },
{
    match pick_content(&d.contents, lang) {
        Some(content) => Some(replace_templates(content.as_str(), vars)),
        None => None,
    }
}

/// With no language asked for, the first content of a dialogue is used.
pub proof fn lemma_no_language_takes_first(entries: Seq<(Language, Seq<char>)>)
    ensures
        chosen_content(entries, None) == if entries.len() > 0 {
            Some(entries[0].1)
        } else {
            None::<Seq<char>>
        },
{
    if entries.len() > 0 {
        assert(is_chosen(entries, None, 0));
        let k = choose|k: int| is_chosen(entries, None, k);
        assert(k == 0) by {
            if k > 0 {
                assert(usable(entries[0].0, None));
            }
        }
    }
}

/// The language of a request is the request's own whenever it has one;
/// without it the character's default; without both the global one.
pub proof fn lemma_language_priority(request: Option<Language>, character: Option<Language>, global: Option<Language>)
    ensures
        request matches Some(l) ==> preferred_language(request, character, global) == Some(l),
        request is None && character is Some ==> preferred_language(request, character, global) == character,
        request is None && character is None ==> preferred_language(request, character, global) == global,
{
}

/// The content used for language `l` is that of the first entry in `l`;
/// there is none when no entry is in `l`.
pub proof fn lemma_content_in_language(entries: Seq<(Language, Seq<char>)>, l: Language)
    ensures
        forall|i: int| 0 <= i < entries.len() && entries[i].0 == l
            && (forall|j: int| 0 <= j < i ==> entries[j].0 != l)
            ==> chosen_content(entries, Some(l)) == Some(entries[i].1),
        (forall|i: int| 0 <= i < entries.len() ==> entries[i].0 != l) ==> chosen_content(entries, Some(l)) is None,
{
    assert forall|i: int| 0 <= i < entries.len() && entries[i].0 == l
        && (forall|j: int| 0 <= j < i ==> entries[j].0 != l)
        implies chosen_content(entries, Some(l)) == Some(entries[i].1) by {
        assert(is_chosen(entries, Some(l), i));
        let k = choose|k: int| is_chosen(entries, Some(l), k);
        if k < i {
            assert(entries[k].0 != l);
        } else if k > i {
            assert(!usable(entries[i].0, Some(l)));
        }
    }
    if forall|i: int| 0 <= i < entries.len() ==> entries[i].0 != l {
        if exists|k: int| is_chosen(entries, Some(l), k) {
            let k = choose|k: int| is_chosen(entries, Some(l), k);
            assert(entries[k].0 == l);
        }
    }
}

} // verus!
