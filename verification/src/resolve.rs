//! Finding the formatter that answers to a language tag.

use crate::settings::{entries_view, Lang, LangView, Settings};
use crate::text::{lowercase_of, to_lowercase};
use vstd::prelude::*;

verus! {

/// The descriptor that answers to the lower-case tag `id`: the last one in
/// table order whose tags hold `id`, or `None` where no descriptor does.
pub open spec fn resolve(id: Seq<char>, entries: Seq<(Seq<char>, LangView)>) -> Option<LangView>
    decreases entries.len(),
{
    if entries.len() == 0 {
        None
    } else if entries.last().1.answers_to(id) {
        Some(entries.last().1)
    } else {
        resolve(id, entries.drop_last())
    }
}

/// True when the entry at position `i` answers to `id` and none behind it does.
pub open spec fn last_answer(id: Seq<char>, entries: Seq<(Seq<char>, LangView)>, i: int) -> bool {
    &&& 0 <= i < entries.len()
    &&& entries[i].1.answers_to(id)
    &&& forall|j: int| i < j < entries.len() ==> !(#[trigger] entries[j]).1.answers_to(id)
}

/// What `resolve` returns, entry by entry: the descriptor of an entry that
/// answers to `id` and after which no entry does; `None` exactly when no
/// entry answers to `id`.
pub proof fn lemma_resolve(id: Seq<char>, entries: Seq<(Seq<char>, LangView)>)
    ensures
        match resolve(id, entries) {
            Some(lang) => exists|i: int| last_answer(id, entries, i) && entries[i].1 == lang,
            None => forall|j: int|
                0 <= j < entries.len() ==> !(#[trigger] entries[j]).1.answers_to(id),
        },
    decreases entries.len(),
{
    if entries.len() > 0 {
        let rest = entries.drop_last();
        let last = entries.len() - 1;
        if entries.last().1.answers_to(id) {
            assert(last_answer(id, entries, last));
        } else {
            lemma_resolve(id, rest);
            match resolve(id, rest) {
                Some(lang) => {
                    let i = choose|i: int| last_answer(id, rest, i) && rest[i].1 == lang;
                    assert(rest[i] == entries[i]);
                    assert forall|j: int| i < j < entries.len() implies !(#[trigger] entries[j])
                        .1.answers_to(id) by {
                        if j < rest.len() {
                            assert(rest[j] == entries[j]);
                        }
                    }
                    assert(last_answer(id, entries, i) && entries[i].1 == lang);
                },
                None => {
                    assert forall|j: int| 0 <= j < entries.len() implies !(#[trigger] entries[j])
                        .1.answers_to(id) by {
                        if j < rest.len() {
                            assert(rest[j] == entries[j]);
                        }
                    }
                },
            }
        }
    }
}

/// Finds the formatter for a tag that is already in lower case.
pub fn find_lang(id: &String, settings: &Settings) -> (res: Option<Lang>)
    ensures
        res.deep_view() == resolve(id@, settings@),
{
    let entries = settings.entries();
    let mut found: Option<Lang> = None;
    let mut i: usize = 0;
    while i < entries.len()
        invariant
            i <= entries.len(),
            entries_view(entries@) == settings@,
            found.deep_view() == resolve(id@, settings@.take(i as int)),
        decreases entries.len() - i,
    {
        let lang = &entries[i].1;
        proof {
            let upto = settings@.take(i + 1);
            assert(upto.last() == settings@[i as int]);
            assert(upto.drop_last() =~= settings@.take(i as int));
        }
        if lang.contain_language_name(id) {
            found = Some(lang.clone());
        }
        i += 1;
    }
    assert(settings@.take(i as int) =~= settings@);
    found
}

/// Finds the formatter for a language tag, whatever its case.
pub fn detect_lang(lang_name: &String, settings: &Settings) -> (res: Option<Lang>)
    ensures
        res.deep_view() == resolve(lowercase_of(lang_name@), settings@),
{
    let id = to_lowercase(lang_name.as_str());
    find_lang(&id, settings)
}

} // verus!
