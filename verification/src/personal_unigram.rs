//! The context-free suggestion cache of the personal store: at most
//! [`PERSONAL_UNIGRAM_CACHE_LIMIT`] suggestions, ranked, one per word, each
//! the suggestion of a stored context-free entry.

use vstd::prelude::*;
use crate::personal::{has_key_at, key_pos, lemma_first_index_exists, observe_key_v, unigram_touch, weakest, PersonalView};
use crate::personal_cache::{
    cache_distinct, cache_insert, cache_ranked, cache_remove, lemma_cache_insert_keeps, lemma_cache_remove_keeps,
};
use crate::personal_maint::{unigram_rebuild, unigram_rebuild_upto};
use crate::personal_types::{
    spec_empty_ctx, spec_entry_suggestion, PersonalAutosuggestSuggestion, PersonalContext, PersonalEntry,
    PERSONAL_UNIGRAM_CACHE_LIMIT,
};

verus! {

/// Entry `k` of `es` is context-free and `s` is its suggestion.
pub open spec fn stored_as(es: Seq<PersonalEntry>, k: int, s: PersonalAutosuggestSuggestion) -> bool {
    0 <= k < es.len() && es[k].context.len == 0 && spec_entry_suggestion(es[k]) == s
}

pub open spec fn in_store(es: Seq<PersonalEntry>, s: PersonalAutosuggestSuggestion) -> bool {
    exists|k: int| #[trigger] stored_as(es, k, s)
}

/// The cache invariant.
pub open spec fn unigram_cache_ok(c: Seq<PersonalAutosuggestSuggestion>, es: Seq<PersonalEntry>) -> bool {
    &&& c.len() <= PERSONAL_UNIGRAM_CACHE_LIMIT
    &&& cache_ranked(c)
    &&& cache_distinct(c)
    &&& forall|i: int| 0 <= i < c.len() ==> in_store(es, #[trigger] c[i])
}

proof fn lemma_in_store_update(es: Seq<PersonalEntry>, p: int, e: PersonalEntry, x: PersonalAutosuggestSuggestion)
    requires
        0 <= p < es.len(),
        in_store(es, x),
        es[p].context.len != 0 || x.token_id != es[p].target_id,
    ensures
        in_store(es.update(p, e), x),
{
    let k = choose|k: int| #[trigger] stored_as(es, k, x);
    assert(k != p);
    assert(stored_as(es.update(p, e), k, x));
}

proof fn lemma_in_store_insert(es: Seq<PersonalEntry>, p: int, e: PersonalEntry, x: PersonalAutosuggestSuggestion)
    requires
        0 <= p <= es.len(),
        in_store(es, x),
    ensures
        in_store(es.insert(p, e), x),
{
    let k = choose|k: int| #[trigger] stored_as(es, k, x);
    if k < p {
        assert(stored_as(es.insert(p, e), k, x));
    } else {
        assert(stored_as(es.insert(p, e), k + 1, x));
    }
}

proof fn lemma_in_store_remove(es: Seq<PersonalEntry>, w: int, x: PersonalAutosuggestSuggestion)
    requires
        0 <= w < es.len(),
        in_store(es, x),
        es[w].context.len != 0 || x.token_id != es[w].target_id,
    ensures
        in_store(es.remove(w), x),
{
    let k = choose|k: int| #[trigger] stored_as(es, k, x);
    assert(k != w);
    if k < w {
        assert(stored_as(es.remove(w), k, x));
    } else {
        assert(stored_as(es.remove(w), k - 1, x));
    }
}

/// The cache after entry `p` of `es2` changed or arrived (`es2[p] == e`),
/// when every other cached suggestion is still stored in `es2`.
proof fn lemma_touch_ok(
    c: Seq<PersonalAutosuggestSuggestion>,
    es2: Seq<PersonalEntry>,
    p: int,
    e: PersonalEntry,
)
    requires
        c.len() <= PERSONAL_UNIGRAM_CACHE_LIMIT,
        cache_ranked(c),
        cache_distinct(c),
        0 <= p < es2.len(),
        es2[p] == e,
        forall|i: int|
            0 <= i < c.len() && (e.context.len != 0 || (#[trigger] c[i]).token_id != e.target_id) ==> in_store(es2, c[i]),
    ensures
        unigram_cache_ok(unigram_touch(c, e), es2),
{
    if e.context.len == 0 {
        let s = spec_entry_suggestion(e);
        lemma_cache_insert_keeps(c, s);
        let r = cache_insert(c, s);
        assert forall|i: int| 0 <= i < r.len() implies in_store(es2, #[trigger] r[i]) by {
            if r[i] == s {
                assert(stored_as(es2, p, s));
            } else {
                let j = choose|j: int| 0 <= j < c.len() && c[j] == r[i];
                assert(c[j].token_id != e.target_id);
            }
        }
    } else {
        assert forall|i: int| 0 <= i < c.len() implies in_store(es2, #[trigger] c[i]) by {}
    }
}

proof fn lemma_weakest_bound(es: Seq<PersonalEntry>, n: int)
    requires
        n >= 1,
    ensures
        0 <= crate::personal::weakest_upto(es, n) < n,
    decreases n,
{
    if n > 1 {
        lemma_weakest_bound(es, n - 1);
    }
}

/// One learning event keeps the cache invariant.
pub proof fn lemma_observe_key_cache(v: PersonalView, ctx: PersonalContext, target: u32, weight: u16)
    requires
        unigram_cache_ok(v.unigram_cache, v.entries),
    ensures
        unigram_cache_ok(
            observe_key_v(v, ctx, target, weight).unigram_cache,
            observe_key_v(v, ctx, target, weight).entries,
        ),
{
    let es = v.entries;
    let c = v.unigram_cache;
    let p = key_pos(es, ctx, target);
    lemma_first_index_exists(es, crate::personal::key_not_below(ctx, target));
    let fresh = PersonalEntry { context: ctx, target_id: target, count: weight, last_seen: v.tick };
    if has_key_at(es, p, ctx, target) {
        let e = PersonalEntry { count: crate::personal::sat_add_u16(es[p].count, weight), last_seen: v.tick, ..es[p] };
        let es2 = es.update(p, e);
        assert forall|i: int|
            0 <= i < c.len() && (e.context.len != 0 || (#[trigger] c[i]).token_id != e.target_id) implies in_store(
            es2,
            c[i],
        ) by {
            lemma_in_store_update(es, p, e, c[i]);
        }
        lemma_touch_ok(c, es2, p, e);
    } else if es.len() < v.config.max_entries {
        let es2 = es.insert(p, fresh);
        assert forall|i: int|
            0 <= i < c.len() && (fresh.context.len != 0 || (#[trigger] c[i]).token_id != fresh.target_id) implies in_store(
            es2,
            c[i],
        ) by {
            lemma_in_store_insert(es, p, fresh, c[i]);
        }
        lemma_touch_ok(c, es2, p, fresh);
    } else if es.len() > 0 && crate::personal_types::entry_stronger(fresh, es[weakest(es)]) {
        let w = weakest(es);
        lemma_weakest_bound(es, es.len() as int);
        let gone = es[w];
        let es1 = es.remove(w);
        let c1 = if gone.context.len == 0 {
            cache_remove(c, gone.target_id)
        } else {
            c
        };
        lemma_cache_remove_keeps(c, gone.target_id);
        assert forall|i: int| 0 <= i < c1.len() implies in_store(es1, #[trigger] c1[i]) by {
            if gone.context.len == 0 {
                assert(c.contains(c1[i]));
                let j = choose|j: int| 0 <= j < c.len() && c[j] == c1[i];
                assert(in_store(es, c[j]));
            }
            lemma_in_store_remove(es, w, c1[i]);
        }
        let q = key_pos(es1, ctx, target);
        lemma_first_index_exists(es1, crate::personal::key_not_below(ctx, target));
        let es2 = es1.insert(q, fresh);
        assert forall|i: int|
            0 <= i < c1.len() && (fresh.context.len != 0 || (#[trigger] c1[i]).token_id != fresh.target_id) implies in_store(
            es2,
            c1[i],
        ) by {
            lemma_in_store_insert(es1, q, fresh, c1[i]);
        }
        lemma_touch_ok(c1, es2, q, fresh);
    } else {
    }
}

/// Rebuilding the cache from the entries gives a cache that keeps the
/// invariant.
pub proof fn lemma_unigram_rebuild_ok(es: Seq<PersonalEntry>, n: int)
    requires
        0 <= n <= es.len(),
    ensures
        unigram_cache_ok(unigram_rebuild_upto(es, n), es),
    decreases n,
{
    if n > 0 {
        lemma_unigram_rebuild_ok(es, n - 1);
        let c = unigram_rebuild_upto(es, n - 1);
        if es[n - 1].context == spec_empty_ctx() {
            let s = spec_entry_suggestion(es[n - 1]);
            lemma_cache_insert_keeps(c, s);
            let r = cache_insert(c, s);
            assert forall|i: int| 0 <= i < r.len() implies in_store(es, #[trigger] r[i]) by {
                if r[i] == s {
                    assert(stored_as(es, n - 1, s));
                } else {
                    let j = choose|j: int| 0 <= j < c.len() && c[j] == r[i];
                    assert(in_store(es, c[j]));
                }
            }
        }
    }
}

pub proof fn lemma_unigram_rebuild_all_ok(es: Seq<PersonalEntry>)
    ensures
        unigram_cache_ok(unigram_rebuild(es), es),
{
    lemma_unigram_rebuild_ok(es, es.len() as int);
}

} // verus!
