//! What the personal store suggests for a context: entries of the longest
//! matching context first, then shorter ones, then context-free ones.

use vstd::prelude::*;
use crate::personal_types::{
    ctx_lt, ctx_ids, entry_key_lt, spec_empty_ctx, spec_entry_suggestion, spec_from_suffix,
    spec_sentence_start_ctx, spec_text_suggestion, PersonalAutosuggestSuggestion,
    PersonalAutosuggestTextSuggestion, PersonalContext, PersonalEntry, TextEntryView,
    PERSONAL_UNIGRAM_CACHE_LIMIT,
};
use crate::personal_cache::{cache_collect, insert_bounded, insert_text_bounded};
use crate::personal_context::PersonalContextView;
use crate::personal_text::text_sorted;

verus! {

pub open spec fn ctx_le(a: PersonalContext, b: PersonalContext) -> bool {
    ctx_lt(a, b) || a == b
}

pub proof fn lemma_ctx_order(a: PersonalContext, b: PersonalContext, c: PersonalContext)
    ensures
        ctx_lt(a, b) && ctx_lt(b, c) ==> ctx_lt(a, c),
        ctx_le(a, b) && ctx_lt(b, c) ==> ctx_lt(a, c),
        ctx_lt(a, b) && ctx_le(b, c) ==> ctx_lt(a, c),
        !ctx_lt(a, a),
        !ctx_lt(a, b) ==> ctx_le(b, a),
        ctx_lt(a, b) ==> !ctx_le(b, a),
{
}

/// The contexts of sorted entries are in order.
pub proof fn lemma_sorted_ctx(es: Seq<PersonalEntry>, i: int, j: int)
    requires
        forall|a: int, b: int| 0 <= a < b < es.len() ==> entry_key_lt(#[trigger] es[a], #[trigger] es[b]),
        0 <= i <= j < es.len(),
    ensures
        ctx_le(es[i].context, es[j].context),
{
    if i < j {
        assert(entry_key_lt(es[i], es[j]));
    }
}

pub proof fn lemma_text_sorted_ctx(ts: Seq<TextEntryView>, i: int, j: int)
    requires
        text_sorted(ts),
        0 <= i <= j < ts.len(),
    ensures
        ctx_le(ts[i].context, ts[j].context),
{
    if i < j {
        assert(crate::personal_types::text_key_lt(ts[i], ts[j]));
    }
}

pub open spec fn has_token(out: Seq<PersonalAutosuggestSuggestion>, id: u32) -> bool {
    exists|j: int| 0 <= j < out.len() && (#[trigger] out[j]).token_id == id
}

/// Scans `es[i..]` for entries of context `ctx`: each one that reaches
/// `min_count` and whose target is not yet suggested is placed by rank into
/// the list of at most `limit`.
pub open spec fn scan_ids(
    es: Seq<PersonalEntry>,
    i: int,
    ctx: PersonalContext,
    limit: int,
    min_count: u16,
    out: Seq<PersonalAutosuggestSuggestion>,
) -> Seq<PersonalAutosuggestSuggestion>
    decreases es.len() - i,
{
    if i >= es.len() || i < 0 {
        out
    } else {
        let e = es[i];
        let o2 = if e.context == ctx && e.count >= min_count && !has_token(out, e.target_id) {
            insert_bounded(out, spec_entry_suggestion(e), limit)
        } else {
            out
        };
        scan_ids(es, i + 1, ctx, limit, min_count, o2)
    }
}

pub proof fn lemma_scan_ids_skip(
    es: Seq<PersonalEntry>,
    i: int,
    j: int,
    ctx: PersonalContext,
    limit: int,
    min_count: u16,
    out: Seq<PersonalAutosuggestSuggestion>,
)
    requires
        0 <= i <= j <= es.len(),
        forall|k: int| i <= k < j ==> (#[trigger] es[k]).context != ctx,
    ensures
        scan_ids(es, i, ctx, limit, min_count, out) == scan_ids(es, j, ctx, limit, min_count, out),
    decreases j - i,
{
    if i < j {
        lemma_scan_ids_skip(es, i + 1, j, ctx, limit, min_count, out);
    }
}

/// The context-free suggestions come from the ranked cache; only a limit
/// beyond the cache's size also scans the context-free entries.
pub open spec fn collect_ids(
    es: Seq<PersonalEntry>,
    cache: Seq<PersonalAutosuggestSuggestion>,
    ctx: PersonalContext,
    limit: int,
    min_count: u16,
    out: Seq<PersonalAutosuggestSuggestion>,
) -> Seq<PersonalAutosuggestSuggestion> {
    if ctx.len == 0 {
        let o1 = cache_collect(cache, 0, limit, min_count, out);
        if o1.len() >= limit || limit <= PERSONAL_UNIGRAM_CACHE_LIMIT {
            o1
        } else {
            scan_ids(es, 0, ctx, limit, min_count, o1)
        }
    } else {
        scan_ids(es, 0, ctx, limit, min_count, out)
    }
}

/// The contexts queried for a personal context: the sentence start (when
/// at one), the suffixes of the recent ids from the longest, then the empty
/// context.
pub open spec fn query_keys(p: PersonalContextView) -> Seq<PersonalContext> {
    let ids = ctx_ids(p.ctx);
    let n: int = if ids.len() < 3 {
        ids.len() as int
    } else {
        3
    };
    (if p.is_sentence_start() {
        seq![spec_sentence_start_ctx()]
    } else {
        Seq::empty()
    }) + Seq::new(n as nat, |i: int| spec_from_suffix(ids, n - i)) + seq![spec_empty_ctx()]
}

/// Collects over `keys[i..]` until the list is full.
pub open spec fn collect_ids_keys(
    es: Seq<PersonalEntry>,
    cache: Seq<PersonalAutosuggestSuggestion>,
    keys: Seq<PersonalContext>,
    i: int,
    limit: int,
    min_count: u16,
    out: Seq<PersonalAutosuggestSuggestion>,
) -> Seq<PersonalAutosuggestSuggestion>
    decreases keys.len() - i,
{
    if i >= keys.len() || i < 0 || out.len() >= limit {
        out
    } else {
        collect_ids_keys(es, cache, keys, i + 1, limit, min_count, collect_ids(es, cache, keys[i], limit, min_count, out))
    }
}

pub open spec fn text_in(ts: Seq<TextEntryView>, out: Seq<PersonalAutosuggestTextSuggestion>, t: Seq<char>) -> bool {
    exists|j: int|
        0 <= j < out.len() && 0 <= (#[trigger] out[j]).entry_index < ts.len() && ts[out[j].entry_index as int].text
            == t
}

/// Text variant of [`scan_ids`]; duplicates are recognised by their text.
pub open spec fn scan_texts(
    ts: Seq<TextEntryView>,
    i: int,
    ctx: PersonalContext,
    limit: int,
    min_count: u16,
    out: Seq<PersonalAutosuggestTextSuggestion>,
) -> Seq<PersonalAutosuggestTextSuggestion>
    decreases ts.len() - i,
{
    if i >= ts.len() || i < 0 {
        out
    } else {
        let e = ts[i];
        let o2 = if e.context == ctx && e.count >= min_count && !text_in(ts, out, e.text) {
            insert_text_bounded(out, spec_text_suggestion(e, i), limit)
        } else {
            out
        };
        scan_texts(ts, i + 1, ctx, limit, min_count, o2)
    }
}

pub proof fn lemma_scan_texts_skip(
    ts: Seq<TextEntryView>,
    i: int,
    j: int,
    ctx: PersonalContext,
    limit: int,
    min_count: u16,
    out: Seq<PersonalAutosuggestTextSuggestion>,
)
    requires
        0 <= i <= j <= ts.len(),
        forall|k: int| i <= k < j ==> (#[trigger] ts[k]).context != ctx,
    ensures
        scan_texts(ts, i, ctx, limit, min_count, out) == scan_texts(ts, j, ctx, limit, min_count, out),
    decreases j - i,
{
    if i < j {
        lemma_scan_texts_skip(ts, i + 1, j, ctx, limit, min_count, out);
    }
}

/// Appends the cached personal words, in order, that reach `min_count` and
/// whose text is not yet suggested, until `out` holds `limit`.
pub open spec fn text_cache_collect(
    ts: Seq<TextEntryView>,
    c: Seq<PersonalAutosuggestTextSuggestion>,
    i: int,
    limit: int,
    min_count: u16,
    out: Seq<PersonalAutosuggestTextSuggestion>,
) -> Seq<PersonalAutosuggestTextSuggestion>
    decreases c.len() - i,
{
    if i >= c.len() || i < 0 || out.len() >= limit {
        out
    } else {
        let s = c[i];
        let valid = 0 <= s.entry_index < ts.len();
        let skip = s.count < min_count || (valid && text_in(ts, out, ts[s.entry_index as int].text));
        text_cache_collect(
            ts,
            c,
            i + 1,
            limit,
            min_count,
            if skip {
                out
            } else {
                out.push(s)
            },
        )
    }
}

pub open spec fn collect_texts(
    ts: Seq<TextEntryView>,
    cache: Seq<PersonalAutosuggestTextSuggestion>,
    ctx: PersonalContext,
    limit: int,
    min_count: u16,
    out: Seq<PersonalAutosuggestTextSuggestion>,
) -> Seq<PersonalAutosuggestTextSuggestion> {
    if ctx.len == 0 {
        let o1 = text_cache_collect(ts, cache, 0, limit, min_count, out);
        if o1.len() >= limit || limit <= PERSONAL_UNIGRAM_CACHE_LIMIT {
            o1
        } else {
            scan_texts(ts, 0, ctx, limit, min_count, o1)
        }
    } else {
        scan_texts(ts, 0, ctx, limit, min_count, out)
    }
}

pub open spec fn collect_texts_keys(
    ts: Seq<TextEntryView>,
    cache: Seq<PersonalAutosuggestTextSuggestion>,
    keys: Seq<PersonalContext>,
    i: int,
    limit: int,
    min_count: u16,
    out: Seq<PersonalAutosuggestTextSuggestion>,
) -> Seq<PersonalAutosuggestTextSuggestion>
    decreases keys.len() - i,
{
    if i >= keys.len() || i < 0 || out.len() >= limit {
        out
    } else {
        collect_texts_keys(ts, cache, keys, i + 1, limit, min_count, collect_texts(ts, cache, keys[i], limit, min_count, out))
    }
}

} // verus!
