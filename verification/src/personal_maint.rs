//! Aging, validation and size accounting of the personal store.

use vstd::prelude::*;
use crate::context::AUTOSUGGEST_UNK_ID;
use crate::personal_types::{
    ctx_ids, entry_key_lt, is_text_context_id, spec_empty_ctx, spec_entry_suggestion, text_key_lt,
    PersonalAutosuggestSuggestion, PersonalEntry, TextEntryView,
};
use crate::personal_cache::cache_insert;
use crate::personal::entries_sorted;
use crate::personal_text::text_sorted;

verus! {

pub open spec fn halved(e: PersonalEntry) -> PersonalEntry {
    PersonalEntry { count: (e.count / 2) as u16, ..e }
}

/// `es[..n]` with every count halved; entries that reach zero are dropped.
pub open spec fn decayed_upto(es: Seq<PersonalEntry>, n: int) -> Seq<PersonalEntry>
    decreases n,
{
    if n <= 0 {
        Seq::empty()
    } else {
        let d = decayed_upto(es, n - 1);
        if es[n - 1].count / 2 > 0 {
            d.push(halved(es[n - 1]))
        } else {
            d
        }
    }
}

pub open spec fn decayed(es: Seq<PersonalEntry>) -> Seq<PersonalEntry> {
    decayed_upto(es, es.len() as int)
}

pub open spec fn halved_text(e: TextEntryView) -> TextEntryView {
    TextEntryView { count: (e.count / 2) as u16, ..e }
}

pub open spec fn decayed_text_upto(ts: Seq<TextEntryView>, n: int) -> Seq<TextEntryView>
    decreases n,
{
    if n <= 0 {
        Seq::empty()
    } else {
        let d = decayed_text_upto(ts, n - 1);
        if ts[n - 1].count / 2 > 0 {
            d.push(halved_text(ts[n - 1]))
        } else {
            d
        }
    }
}

pub open spec fn decayed_text(ts: Seq<TextEntryView>) -> Seq<TextEntryView> {
    decayed_text_upto(ts, ts.len() as int)
}

/// The ranked cache of the context-free entries among `es[..n]`.
pub open spec fn unigram_rebuild_upto(es: Seq<PersonalEntry>, n: int) -> Seq<PersonalAutosuggestSuggestion>
    decreases n,
{
    if n <= 0 {
        Seq::empty()
    } else {
        let c = unigram_rebuild_upto(es, n - 1);
        if es[n - 1].context == spec_empty_ctx() {
            cache_insert(c, spec_entry_suggestion(es[n - 1]))
        } else {
            c
        }
    }
}

pub open spec fn unigram_rebuild(es: Seq<PersonalEntry>) -> Seq<PersonalAutosuggestSuggestion> {
    unigram_rebuild_upto(es, es.len() as int)
}

/// Decay keeps the entries sorted, and every kept entry is below the rest.
pub proof fn lemma_decayed_sorted(es: Seq<PersonalEntry>, n: int)
    requires
        entries_sorted(es),
        0 <= n <= es.len(),
        forall|k: int| 0 <= k < es.len() ==> crate::personal::entry_ok(#[trigger] es[k]),
    ensures
        entries_sorted(decayed_upto(es, n)),
        forall|j: int, k: int|
            0 <= j < decayed_upto(es, n).len() && n <= k < es.len() ==> entry_key_lt(
                #[trigger] decayed_upto(es, n)[j],
                #[trigger] es[k],
            ),
        forall|j: int| 0 <= j < decayed_upto(es, n).len() ==> crate::personal::entry_ok(#[trigger] decayed_upto(es, n)[j]),
        decayed_upto(es, n).len() <= n,
    decreases n,
{
    if n > 0 {
        lemma_decayed_sorted(es, n - 1);
        let d = decayed_upto(es, n - 1);
        if es[n - 1].count / 2 > 0 {
            let d2 = d.push(halved(es[n - 1]));
            assert forall|j: int, k: int| 0 <= j < d2.len() && n <= k < es.len() implies entry_key_lt(
                #[trigger] d2[j],
                #[trigger] es[k],
            ) by {
                if j < d.len() {
                    assert(entry_key_lt(d[j], es[k]));
                } else {
                    assert(entry_key_lt(es[n - 1], es[k]));
                }
            }
            assert forall|i: int, j: int| 0 <= i < j < d2.len() implies entry_key_lt(#[trigger] d2[i], #[trigger] d2[j]) by {
                if j < d.len() {
                    assert(entry_key_lt(d[i], d[j]));
                } else {
                    assert(entry_key_lt(d[i], es[n - 1]));
                }
            }
            assert forall|j: int| 0 <= j < d2.len() implies crate::personal::entry_ok(#[trigger] d2[j]) by {
                if j < d.len() {
                    assert(d2[j] == d[j]);
                }
            }
        }
    }
}

pub proof fn lemma_decayed_text_sorted(ts: Seq<TextEntryView>, n: int)
    requires
        text_sorted(ts),
        crate::personal_text::text_bounded(ts),
        0 <= n <= ts.len(),
    ensures
        text_sorted(decayed_text_upto(ts, n)),
        forall|j: int, k: int|
            0 <= j < decayed_text_upto(ts, n).len() && n <= k < ts.len() ==> text_key_lt(
                #[trigger] decayed_text_upto(ts, n)[j],
                #[trigger] ts[k],
            ),
        forall|j: int|
            0 <= j < decayed_text_upto(ts, n).len() ==> crate::personal_types::spec_is_personal_text(
                (#[trigger] decayed_text_upto(ts, n)[j]).text,
            ) && decayed_text_upto(ts, n)[j].context.len <= 3 && decayed_text_upto(ts, n)[j].count >= 1,
        crate::personal_text::text_total(decayed_text_upto(ts, n)) <= crate::personal_text::text_total(ts.take(n)),
        decayed_text_upto(ts, n).len() <= n,
    decreases n,
{
    if n > 0 {
        lemma_decayed_text_sorted(ts, n - 1);
        let d = decayed_text_upto(ts, n - 1);
        if ts[n - 1].count / 2 > 0 {
            let d2 = d.push(halved_text(ts[n - 1]));
            assert forall|j: int, k: int| 0 <= j < d2.len() && n <= k < ts.len() implies text_key_lt(
                #[trigger] d2[j],
                #[trigger] ts[k],
            ) by {
                if j < d.len() {
                    assert(text_key_lt(d[j], ts[k]));
                } else {
                    assert(text_key_lt(ts[n - 1], ts[k]));
                }
            }
            assert forall|i: int, j: int| 0 <= i < j < d2.len() implies text_key_lt(#[trigger] d2[i], #[trigger] d2[j]) by {
                if j < d.len() {
                    assert(text_key_lt(d[i], d[j]));
                } else {
                    assert(text_key_lt(d[i], ts[n - 1]));
                }
            }
            assert forall|j: int| 0 <= j < d2.len() implies crate::personal_types::spec_is_personal_text(
                (#[trigger] d2[j]).text,
            ) && d2[j].context.len <= 3 && d2[j].count >= 1 by {
                if j < d.len() {
                    assert(d2[j] == d[j]);
                }
            }
            assert(d2.drop_last() =~= d);
        }
        crate::personal_text::lemma_text_total_take(ts, n - 1);
        if ts[n - 1].count / 2 <= 0 {
            crate::personal_text::lemma_text_total_nonneg(ts.take(n).drop_last());
            assert(ts.take(n).drop_last() =~= ts.take(n - 1));
            assert(ts.take(n).last() == ts[n - 1]);
        }
    }
}

/// A context id is valid for a model of `vocab` words when it is a private
/// personal-word id, or an id of the vocabulary other than `<pad>` and `<unk>`.
pub open spec fn valid_context_id(id: u32, vocab: int) -> bool {
    is_text_context_id(id) || (id != 0 && id != AUTOSUGGEST_UNK_ID && id < vocab)
}

/// A target is valid when it is a word id of the vocabulary.
pub open spec fn valid_target_id(id: u32, vocab: int) -> bool {
    id > AUTOSUGGEST_UNK_ID && id < vocab
}

/// The first invalid id of `ids`, if any.
pub open spec fn first_bad_context_id(ids: Seq<u32>, vocab: int) -> Option<u32>
    decreases ids.len(),
{
    if ids.len() == 0 {
        None
    } else if !valid_context_id(ids[0], vocab) {
        Some(ids[0])
    } else {
        first_bad_context_id(ids.drop_first(), vocab)
    }
}

pub open spec fn entry_error(e: PersonalEntry, vocab: int) -> Option<u32> {
    match first_bad_context_id(ctx_ids(e.context), vocab) {
        Some(x) => Some(x),
        None => if !valid_target_id(e.target_id, vocab) {
            Some(e.target_id)
        } else {
            None
        },
    }
}

/// The first invalid id among the entries from `i` on (context ids of an
/// entry before its target).
pub open spec fn entries_error(es: Seq<PersonalEntry>, i: int, vocab: int) -> Option<u32>
    decreases es.len() - i,
{
    if i >= es.len() || i < 0 {
        None
    } else {
        match entry_error(es[i], vocab) {
            Some(x) => Some(x),
            None => entries_error(es, i + 1, vocab),
        }
    }
}

pub open spec fn text_entries_error(ts: Seq<TextEntryView>, i: int, vocab: int) -> Option<u32>
    decreases ts.len() - i,
{
    if i >= ts.len() || i < 0 {
        None
    } else {
        match first_bad_context_id(ctx_ids(ts[i].context), vocab) {
            Some(x) => Some(x),
            None => text_entries_error(ts, i + 1, vocab),
        }
    }
}

/// Compact snapshot length: header, fixed-size transitions, and each
/// personal word with its header.
pub open spec fn snapshot_len_of(n_entries: int, ts: Seq<TextEntryView>) -> int {
    40 + 28 * n_entries + 28 * ts.len() + crate::personal_text::text_total(ts)
}

} // verus!
