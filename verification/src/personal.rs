//! The bounded on-device personal store: learned transitions between known
//! words, learned out-of-vocabulary Bangla words, and their ranked recall.

use vstd::prelude::*;
use crate::bytes::{lex_lt, byte_order, ByteOrder};
use crate::candidate::{is_first, first_index, lemma_first_index};
use crate::context::{AutosuggestContext, ContextView, AUTOSUGGEST_UNK_ID};
use crate::artifact::AutosuggestArtifactError;
use crate::lm::{AutosuggestLm, LmView};
use crate::text::{analyze_context_token, spec_trimmed, spec_trailing_boundary};
use crate::personal_context::{PersonalAutosuggestContext, PersonalContextView, personal_of_static};
use crate::personal_types::{
    ctx_lt, ctx_ids, compare_contexts, spec_sentence_start_ctx, spec_from_suffix, is_personal_text_token, entry_key_lt, entry_stronger, entry_stronger_exec,
    entry_suggestion, spec_empty_ctx, spec_entry_suggestion, text_bytes, text_entry_stronger,
    text_entry_stronger_exec, text_key_lt, spec_is_personal_text, spec_text_suggestion,
    KeyOrder, CommitStrength, spec_weight, PersonalAutosuggestConfig, PersonalAutosuggestSuggestion,
    PersonalAutosuggestTextSuggestion, PersonalContext, PersonalEntry, PersonalTextEntry,
    TextEntryView, DEFAULT_PERSONAL_TEXT_AUTOSUGGEST_ENTRIES, PERSONAL_TEXT_TOKEN_MAX_BYTES,
    PERSONAL_TEXT_TOTAL_MAX_BYTES, PERSONAL_UNIGRAM_CACHE_LIMIT, PERSONAL_TEXT_CONTEXT_ID_MARKER,
    sat_add, sat_mul,
};
use crate::personal_text::{
    text_sorted, text_total, text_bounded, text_pos, has_text_at, weakest_text, weakest_text_upto,
    can_insert_text, can_replace_text, observe_text_key_s, text_key_below, text_not_below,
    lemma_text_key_order, lemma_text_probe_order, lemma_text_insert_sorted, lemma_text_remove_sorted,
    lemma_text_update_sorted, lemma_text_total_insert, lemma_text_total_remove,
    lemma_text_total_update, lemma_text_total_take, lemma_text_total_nonneg, lemma_weakest_text_bound,
    lemma_text_bytes_injective,
};
use crate::personal_query::{
    ctx_le, lemma_ctx_order, lemma_sorted_ctx, lemma_text_sorted_ctx, has_token, scan_ids,
    lemma_scan_ids_skip, collect_ids, query_keys, collect_ids_keys, text_in, scan_texts,
    lemma_scan_texts_skip, text_cache_collect, collect_texts, collect_texts_keys,
};
use crate::personal_maint::{
    decayed, decayed_upto, decayed_text, decayed_text_upto, unigram_rebuild, unigram_rebuild_upto,
    lemma_decayed_sorted, lemma_decayed_text_sorted, first_bad_context_id, entries_error,
    text_entries_error, snapshot_len_of,
};
use crate::personal_snapshot::{
    parse_snapshot, parse_snapshot_exec, loaded_wf, snapshot_bytes, entries_bytes, texts_bytes,
    entry_bytes, entry_words, text_entry_bytes, words, personal_magic, PersonalAutosuggestError,
    PersonalAutosuggestSnapshotError, PERSONAL_VERSION,
};
use crate::bytes::push_u32_le;
use crate::capacity::{vec_capacity, string_capacity, reserve_to};
use crate::personal_cache::{contains_token, cache_collect_exec, insert_bounded_exec,
    cache_insert, cache_remove, cache_insert_exec, cache_remove_exec, insert_text_bounded,
    insert_text_bounded_exec,
};

verus! {

pub const PERSONAL_INITIAL_ENTRY_CAPACITY: usize = 16;
pub const PERSONAL_TEXT_INITIAL_ENTRY_CAPACITY: usize = 8;

/// The state of a [`PersonalAutosuggest`].
pub struct PersonalView {
    pub config: PersonalAutosuggestConfig,
    /// Learned transitions, strictly sorted by (context, target).
    pub entries: Seq<PersonalEntry>,
    /// Learned personal words, strictly sorted by (context, text bytes).
    pub text_entries: Seq<TextEntryView>,
    /// Ranked context-free suggestions kept for the hot path.
    pub unigram_cache: Seq<PersonalAutosuggestSuggestion>,
    pub model_fingerprint: u32,
    /// Logical clock of the last learning event.
    pub tick: u32,
}

pub open spec fn sat_add_u16(a: u16, b: u16) -> u16 {
    if a + b > u16::MAX {
        u16::MAX
    } else {
        (a + b) as u16
    }
}

pub open spec fn key_below(e: PersonalEntry, ctx: PersonalContext, target: u32) -> bool {
    ctx_lt(e.context, ctx) || (e.context == ctx && e.target_id < target)
}

pub open spec fn key_not_below(ctx: PersonalContext, target: u32) -> spec_fn(PersonalEntry) -> bool {
    |e: PersonalEntry| !key_below(e, ctx, target)
}

/// Where the key (ctx, target) is, or would be inserted.
pub open spec fn key_pos(es: Seq<PersonalEntry>, ctx: PersonalContext, target: u32) -> int {
    first_index(es, key_not_below(ctx, target))
}

pub open spec fn has_key_at(es: Seq<PersonalEntry>, p: int, ctx: PersonalContext, target: u32) -> bool {
    0 <= p < es.len() && es[p].context == ctx && es[p].target_id == target
}

pub open spec fn entries_sorted(es: Seq<PersonalEntry>) -> bool {
    forall|i: int, j: int| 0 <= i < j < es.len() ==> entry_key_lt(#[trigger] es[i], #[trigger] es[j])
}

/// The first of the weakest among `es[..n]`.
pub open spec fn weakest_upto(es: Seq<PersonalEntry>, n: int) -> int
    decreases n,
{
    if n <= 1 {
        0
    } else {
        let w = weakest_upto(es, n - 1);
        if entry_stronger(es[w], es[n - 1]) {
            n - 1
        } else {
            w
        }
    }
}

pub open spec fn weakest(es: Seq<PersonalEntry>) -> int {
    weakest_upto(es, es.len() as int)
}

/// The unigram cache after a context-free entry changed.
pub open spec fn unigram_touch(
    c: Seq<PersonalAutosuggestSuggestion>,
    e: PersonalEntry,
) -> Seq<PersonalAutosuggestSuggestion> {
    if e.context.len == 0 {
        cache_insert(c, spec_entry_suggestion(e))
    } else {
        c
    }
}

/// One learning event for the key (ctx, target): a known key gains `weight`
/// (saturating) and is stamped with the tick; a new key is inserted while
/// there is room, or replaces the first weakest entry when it is stronger;
/// otherwise nothing changes.
pub open spec fn observe_key_v(v: PersonalView, ctx: PersonalContext, target: u32, weight: u16) -> PersonalView {
    let es = v.entries;
    let p = key_pos(es, ctx, target);
    let fresh = PersonalEntry { context: ctx, target_id: target, count: weight, last_seen: v.tick };
    if has_key_at(es, p, ctx, target) {
        let e = PersonalEntry { count: sat_add_u16(es[p].count, weight), last_seen: v.tick, ..es[p] };
        PersonalView { entries: es.update(p, e), unigram_cache: unigram_touch(v.unigram_cache, e), ..v }
    } else if es.len() < v.config.max_entries {
        PersonalView {
            entries: es.insert(p, fresh),
            unigram_cache: unigram_touch(v.unigram_cache, fresh),
            ..v
        }
    } else if es.len() > 0 && entry_stronger(fresh, es[weakest(es)]) {
        let w = weakest(es);
        let gone = es[w];
        let es1 = es.remove(w);
        let c1 = if gone.context.len == 0 {
            cache_remove(v.unigram_cache, gone.target_id)
        } else {
            v.unigram_cache
        };
        PersonalView {
            entries: es1.insert(key_pos(es1, ctx, target), fresh),
            unigram_cache: unigram_touch(c1, fresh),
            ..v
        }
    } else {
        v
    }
}

/// Learning events for each key of `keys`, in order.
pub open spec fn observe_keys_v(v: PersonalView, keys: Seq<PersonalContext>, target: u32, weight: u16) -> PersonalView
    decreases keys.len(),
{
    if keys.len() == 0 {
        v
    } else {
        observe_key_v(observe_keys_v(v, keys.drop_last(), target, weight), keys.last(), target, weight)
    }
}

pub proof fn lemma_key_order(a: PersonalEntry, b: PersonalEntry, c: PersonalEntry)
    ensures
        entry_key_lt(a, b) && entry_key_lt(b, c) ==> entry_key_lt(a, c),
        !entry_key_lt(a, a),
        !entry_key_lt(a, b) && !entry_key_lt(b, a) ==> a.context == b.context && a.target_id
            == b.target_id,
        entry_key_lt(a, b) ==> !entry_key_lt(b, a),
{
}

pub proof fn lemma_probe_order(a: PersonalEntry, b: PersonalEntry, ctx: PersonalContext, target: u32)
    ensures
        entry_key_lt(a, b) && key_below(b, ctx, target) ==> key_below(a, ctx, target),
        entry_key_lt(a, b) && !key_below(a, ctx, target) ==> !key_below(b, ctx, target),
        entry_key_lt(a, b) && !key_below(a, ctx, target) ==> !(b.context == ctx && b.target_id
            == target),
        entry_key_lt(a, b) && b.context == ctx && b.target_id == target ==> key_below(a, ctx, target),
{
}

/// Inserting a new key at its position keeps the entries sorted.
pub proof fn lemma_insert_sorted(es: Seq<PersonalEntry>, e: PersonalEntry)
    requires
        entries_sorted(es),
        !has_key_at(es, key_pos(es, e.context, e.target_id), e.context, e.target_id),
    ensures
        entries_sorted(es.insert(key_pos(es, e.context, e.target_id), e)),
        key_pos(es, e.context, e.target_id) <= es.len(),
{
    let p = key_pos(es, e.context, e.target_id);
    let pr = key_not_below(e.context, e.target_id);
    lemma_first_index_exists(es, pr);
    let r = es.insert(p, e);
    assert forall|i: int, j: int| 0 <= i < j < r.len() implies entry_key_lt(#[trigger] r[i], #[trigger] r[j]) by {
        if j < p {
            assert(r[i] == es[i] && r[j] == es[j]);
        } else if j == p {
            assert(r[i] == es[i]);
            assert(!pr(es[i]));
        } else if i == p {
            assert(r[j] == es[j - 1]);
            assert(pr(es[p]));
            if j - 1 > p {
                lemma_key_order(es[p], es[j - 1], es[j - 1]);
            }
            assert(pr(es[j - 1])) by {
                if j - 1 > p {
                    lemma_probe_order(es[p], es[j - 1], e.context, e.target_id);
                }
            }
            assert(!(es[j - 1].context == e.context && es[j - 1].target_id == e.target_id)) by {
                if j - 1 > p {
                    lemma_probe_order(es[p], es[j - 1], e.context, e.target_id);
                }
            }
        } else if i < p {
            assert(r[i] == es[i] && r[j] == es[j - 1]);
            if i < j - 1 {
            } else {
                assert(i == j - 1);
                assert(false);
            }
        } else {
            assert(r[i] == es[i - 1] && r[j] == es[j - 1]);
        }
    }
}

pub proof fn lemma_first_index_exists<T>(s: Seq<T>, p: spec_fn(T) -> bool)
    ensures
        is_first(s, p, first_index(s, p)),
{
    lemma_first_from(s, p, 0);
}

proof fn lemma_first_from<T>(s: Seq<T>, p: spec_fn(T) -> bool, k: int)
    requires
        0 <= k <= s.len(),
        forall|j: int| 0 <= j < k ==> !p(#[trigger] s[j]),
    ensures
        exists|i: int| is_first(s, p, i),
    decreases s.len() - k,
{
    if k == s.len() || p(s[k]) {
        assert(is_first(s, p, k));
    } else {
        lemma_first_from(s, p, k + 1);
    }
}

/// Removing an entry keeps the entries sorted.
pub proof fn lemma_remove_sorted(es: Seq<PersonalEntry>, w: int)
    requires
        entries_sorted(es),
        0 <= w < es.len(),
    ensures
        entries_sorted(es.remove(w)),
{
    let r = es.remove(w);
    assert forall|i: int, j: int| 0 <= i < j < r.len() implies entry_key_lt(#[trigger] r[i], #[trigger] r[j]) by {
        let a = if i < w { i } else { i + 1 };
        let b = if j < w { j } else { j + 1 };
        assert(r[i] == es[a] && r[j] == es[b]);
    }
}

/// Updating an entry's count and tick keeps its key and the order.
pub proof fn lemma_update_sorted(es: Seq<PersonalEntry>, p: int, e: PersonalEntry)
    requires
        entries_sorted(es),
        0 <= p < es.len(),
        e.context == es[p].context,
        e.target_id == es[p].target_id,
    ensures
        entries_sorted(es.update(p, e)),
{
    let r = es.update(p, e);
    assert forall|i: int, j: int| 0 <= i < j < r.len() implies entry_key_lt(#[trigger] r[i], #[trigger] r[j]) by {
        assert(entry_key_lt(es[i], es[j]));
    }
}

pub open spec fn text_views(ts: Seq<PersonalTextEntry>) -> Seq<TextEntryView> {
    ts.map_values(|e: PersonalTextEntry| e@)
}

/// The ranked cache of context-free personal words among `ts[..n]`.
pub open spec fn text_cache_upto(ts: Seq<TextEntryView>, n: int) -> Seq<PersonalAutosuggestTextSuggestion>
    decreases n,
{
    if n <= 0 {
        Seq::empty()
    } else {
        let c = text_cache_upto(ts, n - 1);
        if ts[n - 1].context == spec_empty_ctx() {
            insert_text_bounded(c, spec_text_suggestion(ts[n - 1], n - 1), PERSONAL_UNIGRAM_CACHE_LIMIT as int)
        } else {
            c
        }
    }
}

pub open spec fn text_cache(ts: Seq<TextEntryView>) -> Seq<PersonalAutosuggestTextSuggestion> {
    text_cache_upto(ts, ts.len() as int)
}

/// The bounded personal autosuggest store.
#[derive(Debug)]
pub struct PersonalAutosuggest {
    config: PersonalAutosuggestConfig,
    entries: Vec<PersonalEntry>,
    text_entries: Vec<PersonalTextEntry>,
    unigram_cache: Vec<PersonalAutosuggestSuggestion>,
    text_unigram_cache: Vec<PersonalAutosuggestTextSuggestion>,
    model_fingerprint: u32,
    tick: u32,
}

impl View for PersonalAutosuggest {
    type V = PersonalView;

    closed spec fn view(&self) -> PersonalView {
        PersonalView {
            config: self.config,
            entries: self.entries@,
            text_entries: text_views(self.text_entries@),
            unigram_cache: self.unigram_cache@,
            model_fingerprint: self.model_fingerprint,
            tick: self.tick,
        }
    }
}

/// The invariant of the store's state.
pub open spec fn personal_wf(v: PersonalView) -> bool {
    &&& entries_sorted(v.entries)
    &&& v.entries.len() <= v.config.max_entries
    &&& forall|i: int| 0 <= i < v.entries.len() ==> entry_ok(#[trigger] v.entries[i])
    &&& text_sorted(v.text_entries)
    &&& text_bounded(v.text_entries)
    &&& forall|i: int| 0 <= i < v.text_entries.len() ==> (#[trigger] v.text_entries[i]).count >= 1
}

/// A stored transition: a context of at most three ids, a word target and a
/// positive count.
pub open spec fn entry_ok(e: PersonalEntry) -> bool {
    e.context.len <= 3 && e.target_id > AUTOSUGGEST_UNK_ID && e.count >= 1
}

impl PersonalAutosuggest {
    pub closed spec fn wf(&self) -> bool {
        &&& personal_wf(self@)
        &&& self.text_unigram_cache@ == text_cache(self@.text_entries)
        &&& crate::personal_unigram::unigram_cache_ok(self@.unigram_cache, self@.entries)
    }

    /// A well-formed store keeps its transitions in key order, at most
    /// `max_entries` of them, each with a context of at most three ids, a
    /// word target and a positive count; and its personal words in key order,
    /// within the text bounds, each with a positive count.
    pub proof fn lemma_wf_bounds(&self)
        requires
            self.wf(),
        ensures
            personal_wf(self@),
    {
    }

    /// An empty store.
    pub fn new(config: PersonalAutosuggestConfig) -> (p: Self)
        ensures
            p.wf(),
            p@ == (PersonalView {
                config,
                entries: Seq::empty(),
                text_entries: Seq::empty(),
                unigram_cache: Seq::empty(),
                model_fingerprint: 0,
                tick: 0,
            }),
    {
        let p = PersonalAutosuggest {
            config,
            entries: Vec::new(),
            text_entries: Vec::new(),
            unigram_cache: Vec::new(),
            text_unigram_cache: Vec::new(),
            model_fingerprint: 0,
            tick: 0,
        };
        assert(text_views(p.text_entries@) =~= Seq::<TextEntryView>::empty());
        p
    }

    pub fn config(&self) -> (c: PersonalAutosuggestConfig)
        ensures
            c == self@.config,
    {
        self.config
    }

    pub fn model_fingerprint(&self) -> (fp: u32)
        ensures
            fp == self@.model_fingerprint,
    {
        self.model_fingerprint
    }

    /// Number of learned transitions.
    pub fn len(&self) -> (n: usize)
        ensures
            n == self@.entries.len(),
    {
        self.entries.len()
    }

    /// Number of learned personal words (per context).
    pub fn text_len(&self) -> (n: usize)
        ensures
            n == self@.text_entries.len(),
    {
        self.text_entries.len()
    }

    pub fn is_empty(&self) -> (b: bool)
        ensures
            b == (self@.entries.len() == 0 && self@.text_entries.len() == 0),
    {
        self.entries.len() == 0 && self.text_entries.len() == 0
    }

    /// The learned transitions, sorted by key.
    pub fn entries(&self) -> (s: &[PersonalEntry])
        ensures
            s@ == self@.entries,
    {
        self.entries.as_slice()
    }

    /// The ranked context-free suggestions kept for the hot path.
    pub fn unigram_cache(&self) -> (s: &[PersonalAutosuggestSuggestion])
        ensures
            s@ == self@.unigram_cache,
    {
        self.unigram_cache.as_slice()
    }

    /// Where the key is (`Ok`) or would be inserted (`Err`).
    fn find_entry(&self, ctx: PersonalContext, target: u32) -> (r: Result<usize, usize>)
        requires
            entries_sorted(self@.entries),
        ensures
            match r {
                Ok(i) => i == key_pos(self@.entries, ctx, target) && has_key_at(self@.entries, i as int, ctx, target),
                Err(i) => i == key_pos(self@.entries, ctx, target) && !has_key_at(self@.entries, i as int, ctx, target),
            },
    {
        let ghost es = self.entries@;
        let ghost pr = key_not_below(ctx, target);
        let probe = PersonalEntry { context: ctx, target_id: target, count: 0, last_seen: 0 };
        let mut lo: usize = 0;
        let mut hi: usize = self.entries.len();
        while lo < hi
            invariant
                es == self.entries@,
                pr == key_not_below(ctx, target),
                probe.context == ctx && probe.target_id == target,
                entries_sorted(es),
                0 <= lo <= hi <= es.len(),
                forall|k: int| 0 <= k < lo ==> key_below(#[trigger] es[k], ctx, target),
                forall|k: int| hi <= k < es.len() ==> entry_key_lt(probe, #[trigger] es[k]),
            decreases hi - lo,
        {
            let mid = lo + (hi - lo) / 2;
            let e = self.entries[mid];
            let c = compare_contexts(&e.context, &ctx);
            let below = c == KeyOrder::Less || (c == KeyOrder::Equal && e.target_id < target);
            let above = c == KeyOrder::Greater || (c == KeyOrder::Equal && e.target_id > target);
            if below {
                proof {
                    assert(key_below(es[mid as int], ctx, target));
                    assert forall|k: int| 0 <= k <= mid implies key_below(#[trigger] es[k], ctx, target) by {
                        if k < mid {
                            assert(entry_key_lt(es[k], es[mid as int]));
                            lemma_probe_order(es[k], es[mid as int], ctx, target);
                        }
                    }
                }
                lo = mid + 1;
            } else if above {
                proof {
                    assert(e == es[mid as int]);
                    assert(c == KeyOrder::Greater || c == KeyOrder::Equal);
                    if c == KeyOrder::Greater {
                        assert(ctx_lt(ctx, e.context));
                    } else {
                        assert(e.context == ctx);
                        assert(e.target_id > target);
                    }
                    assert(entry_key_lt(probe, es[mid as int]));
                    assert forall|k: int| mid <= k < es.len() implies entry_key_lt(probe, #[trigger] es[k]) by {
                        if k > mid {
                            assert(entry_key_lt(es[mid as int], es[k]));
                            lemma_key_order(probe, es[mid as int], es[k]);
                        }
                    }
                }
                hi = mid;
            } else {
                proof {
                    assert(es[mid as int].context == ctx && es[mid as int].target_id == target);
                    assert forall|k: int| 0 <= k < mid implies !pr(#[trigger] es[k]) by {
                        if k >= lo {
                            assert(entry_key_lt(es[k], es[mid as int]));
                            lemma_probe_order(es[k], es[mid as int], ctx, target);
                        }
                    }
                    lemma_first_index(es, pr, mid as int);
                }
                return Ok(mid);
            }
        }
        proof {
            assert forall|k: int| 0 <= k < lo implies !pr(#[trigger] es[k]) by {}
            if lo < es.len() {
                assert(entry_key_lt(probe, es[lo as int]));
            }
            lemma_first_index(es, pr, lo as int);
        }
        Err(lo)
    }

    /// The first of the weakest entries (`None` when there are none).
    pub fn weakest_entry_index(&self) -> (r: Option<usize>)
        ensures
            match r {
                Some(i) => self@.entries.len() > 0 && i == weakest(self@.entries) && i < self@.entries.len(),
                None => self@.entries.len() == 0,
            },
    {
        let n = self.entries.len();
        if n == 0 {
            return None;
        }
        let mut w: usize = 0;
        let mut i: usize = 1;
        while i < n
            invariant
                n == self.entries@.len(),
                1 <= i <= n,
                w == weakest_upto(self.entries@, i as int),
                w < i,
            decreases n - i,
        {
            if entry_stronger_exec(&self.entries[w], &self.entries[i]) {
                w = i;
            }
            i = i + 1;
        }
        Some(w)
    }

    /// Applies one learning event for the key (ctx, target).
    fn observe_key(&mut self, ctx: PersonalContext, target: u32, weight: u16)
        requires
            old(self).wf(),
            ctx.len <= 3,
            target > AUTOSUGGEST_UNK_ID,
            weight >= 1,
        ensures
            final(self).wf(),
            final(self)@ == observe_key_v(old(self)@, ctx, target, weight),
    {
        let ghost v = self@;
        let ghost es = self.entries@;
        let tick = self.tick;
        let fresh = PersonalEntry { context: ctx, target_id: target, count: weight, last_seen: tick };
        match self.find_entry(ctx, target) {
            Ok(p) => {
                let old_e = self.entries[p];
                let count = if old_e.count > u16::MAX - weight {
                    u16::MAX
                } else {
                    old_e.count + weight
                };
                let e = PersonalEntry { count, last_seen: tick, ..old_e };
                proof {
                    lemma_update_sorted(es, p as int, e);
                }
                self.entries.set(p, e);
                if e.context.len == 0 {
                    cache_insert_exec(&mut self.unigram_cache, entry_suggestion(e));
                }
                proof {
                    assert forall|i: int| 0 <= i < self.entries@.len() implies (#[trigger] self.entries@[i]).context.len <= 3 by {
                        assert(i != p ==> self.entries@[i] == es[i]);
                    }
                }
            },
            Err(p) => {
                if self.entries.len() < self.config.max_entries {
                    proof {
                        lemma_insert_sorted(es, fresh);
                    }
                    self.ensure_entry_capacity_for_insert();
                    self.entries.insert(p, fresh);
                    if ctx.len == 0 {
                        cache_insert_exec(&mut self.unigram_cache, entry_suggestion(fresh));
                    }
                    proof {
                        assert forall|i: int| 0 <= i < self.entries@.len() implies (#[trigger] self.entries@[i]).context.len <= 3 by {
                            if i < p {
                                assert(self.entries@[i] == es[i]);
                            } else if i > p {
                                assert(self.entries@[i] == es[i - 1]);
                            }
                        }
                    }
                } else {
                    match self.weakest_entry_index() {
                        Some(w) => {
                            if entry_stronger_exec(&fresh, &self.entries[w]) {
                                let gone = self.entries.remove(w);
                                proof {
                                    lemma_remove_sorted(es, w as int);
                                }
                                if gone.context.len == 0 {
                                    cache_remove_exec(&mut self.unigram_cache, gone.target_id);
                                }
                                let ghost es1 = self.entries@;
                                let q = match self.find_entry(ctx, target) {
                                    Ok(q) => {
                                        proof {
                                            // the key was absent before the removal
                                            let qq = q as int;
                                            let orig = if qq < w { qq } else { qq + 1 };
                                            assert(es1[qq] == es[orig]);
                                            lemma_first_index_exists(es, key_not_below(ctx, target));
                                            let kp = key_pos(es, ctx, target);
                                            if orig < kp {
                                                assert(!key_not_below(ctx, target)(es[orig]));
                                            } else if orig > kp {
                                                lemma_probe_order(es[kp], es[orig], ctx, target);
                                            }
                                            assert(false);
                                        }
                                        q
                                    },
                                    Err(q) => q,
                                };
                                proof {
                                    lemma_insert_sorted(es1, fresh);
                                }
                                self.entries.insert(q, fresh);
                                if ctx.len == 0 {
                                    cache_insert_exec(&mut self.unigram_cache, entry_suggestion(fresh));
                                }
                                proof {
                                    assert forall|i: int| 0 <= i < self.entries@.len() implies (#[trigger] self.entries@[i]).context.len <= 3 by {
                                        if i < q {
                                            assert(self.entries@[i] == es1[i]);
                                        } else if i > q {
                                            assert(self.entries@[i] == es1[i - 1]);
                                        }
                                        if i != q {
                                            let k = if i < q { i } else { i - 1 };
                                            assert(es1[k] == es[if k < w { k } else { k + 1 }]);
                                        }
                                    }
                                }
                            }
                        },
                        None => {},
                    }
                }
            },
        }
        assert(self@.text_entries == v.text_entries);
        proof {
            crate::personal_unigram::lemma_observe_key_cache(v, ctx, target, weight);
        }
    }
}


/// The suggestion of the personal word at `index`.
pub fn text_suggestion(e: &PersonalTextEntry, index: usize) -> (s: PersonalAutosuggestTextSuggestion)
    ensures
        s == spec_text_suggestion(e@, index as int),
{
    PersonalAutosuggestTextSuggestion {
        entry_index: index,
        context_len: e.context.len as usize,
        count: e.count,
        last_seen: e.last_seen,
        score: e.count as i32,
    }
}

pub proof fn lemma_views_insert(ts: Seq<PersonalTextEntry>, p: int, e: PersonalTextEntry)
    requires
        0 <= p <= ts.len(),
    ensures
        text_views(ts.insert(p, e)) == text_views(ts).insert(p, e@),
{
    assert(text_views(ts.insert(p, e)) =~= text_views(ts).insert(p, e@));
}

pub proof fn lemma_views_remove(ts: Seq<PersonalTextEntry>, p: int)
    requires
        0 <= p < ts.len(),
    ensures
        text_views(ts.remove(p)) == text_views(ts).remove(p),
{
    assert(text_views(ts.remove(p)) =~= text_views(ts).remove(p));
}

pub proof fn lemma_views_update(ts: Seq<PersonalTextEntry>, p: int, e: PersonalTextEntry)
    requires
        0 <= p < ts.len(),
    ensures
        text_views(ts.update(p, e)) == text_views(ts).update(p, e@),
{
    assert(text_views(ts.update(p, e)) =~= text_views(ts).update(p, e@));
}

impl PersonalAutosuggest {
    /// Where the personal word is (`Ok`) or would be inserted (`Err`).
    fn find_text_entry(&self, ctx: PersonalContext, text: &str) -> (r: Result<usize, usize>)
        requires
            text_sorted(self@.text_entries),
        ensures
            match r {
                Ok(i) => i == text_pos(self@.text_entries, ctx, text@) && has_text_at(
                    self@.text_entries,
                    i as int,
                    ctx,
                    text@,
                ),
                Err(i) => i == text_pos(self@.text_entries, ctx, text@) && !has_text_at(
                    self@.text_entries,
                    i as int,
                    ctx,
                    text@,
                ),
            },
    {
        let ghost ts = self@.text_entries;
        let ghost pr = text_not_below(ctx, text@);
        let ghost probe = TextEntryView { context: ctx, text: text@, count: 0, last_seen: 0 };
        let tb = text.as_bytes();
        let mut lo: usize = 0;
        let mut hi: usize = self.text_entries.len();
        while lo < hi
            invariant
                ts == self@.text_entries,
                ts.len() == self.text_entries@.len(),
                pr == text_not_below(ctx, text@),
                probe.context == ctx && probe.text == text@,
                tb@ == text_bytes(text@),
                text_sorted(ts),
                0 <= lo <= hi <= ts.len(),
                forall|k: int| 0 <= k < lo ==> text_key_below(#[trigger] ts[k], ctx, text@),
                forall|k: int| hi <= k < ts.len() ==> text_key_lt(probe, #[trigger] ts[k]),
            decreases hi - lo,
        {
            let mid = lo + (hi - lo) / 2;
            let e = &self.text_entries[mid];
            assert(e@ == ts[mid as int]);
            let c = compare_contexts(&e.context, &ctx);
            let o = byte_order(e.text.as_str().as_bytes(), tb);
            proof {
                lemma_text_bytes_injective(e.text@, text@);
            }
            let below = c == KeyOrder::Less || (c == KeyOrder::Equal && o == ByteOrder::Less);
            let above = c == KeyOrder::Greater || (c == KeyOrder::Equal && o == ByteOrder::Greater);
            if below {
                proof {
                    assert(text_key_below(ts[mid as int], ctx, text@));
                    assert forall|k: int| 0 <= k <= mid implies text_key_below(#[trigger] ts[k], ctx, text@) by {
                        if k < mid {
                            assert(text_key_lt(ts[k], ts[mid as int]));
                            lemma_text_probe_order(ts[k], ts[mid as int], ctx, text@);
                        }
                    }
                }
                lo = mid + 1;
            } else if above {
                proof {
                    crate::bytes::lemma_lex_lt_trichotomy(text_bytes(e.text@), tb@);
                    assert(text_key_lt(probe, ts[mid as int]));
                    assert forall|k: int| mid <= k < ts.len() implies text_key_lt(probe, #[trigger] ts[k]) by {
                        if k > mid {
                            assert(text_key_lt(ts[mid as int], ts[k]));
                            lemma_text_key_order(probe, ts[mid as int], ts[k]);
                        }
                    }
                }
                hi = mid;
            } else {
                proof {
                    assert(ts[mid as int].context == ctx && ts[mid as int].text == text@);
                    crate::bytes::lemma_lex_lt_irreflexive(text_bytes(text@));
                    assert forall|k: int| 0 <= k < mid implies !pr(#[trigger] ts[k]) by {
                        if k >= lo {
                            assert(text_key_lt(ts[k], ts[mid as int]));
                            lemma_text_probe_order(ts[k], ts[mid as int], ctx, text@);
                        }
                    }
                    lemma_first_index(ts, pr, mid as int);
                }
                return Ok(mid);
            }
        }
        proof {
            assert forall|k: int| 0 <= k < lo implies !pr(#[trigger] ts[k]) by {}
            if lo < ts.len() {
                assert(text_key_lt(probe, ts[lo as int]));
                lemma_text_key_order(probe, ts[lo as int], ts[lo as int]);
                crate::bytes::lemma_lex_lt_irreflexive(text_bytes(text@));
            }
            lemma_first_index(ts, pr, lo as int);
        }
        Err(lo)
    }

    /// The first of the weakest personal words (`None` when there are none).
    fn weakest_text_entry_index(&self) -> (r: Option<usize>)
        ensures
            match r {
                Some(i) => self@.text_entries.len() > 0 && i == weakest_text(self@.text_entries) && i
                    < self@.text_entries.len(),
                None => self@.text_entries.len() == 0,
            },
    {
        let ghost ts = self@.text_entries;
        let n = self.text_entries.len();
        if n == 0 {
            return None;
        }
        let mut w: usize = 0;
        let mut i: usize = 1;
        while i < n
            invariant
                ts == self@.text_entries,
                n == ts.len(),
                n == self.text_entries@.len(),
                1 <= i <= n,
                w == weakest_text_upto(ts, i as int),
                w < i,
            decreases n - i,
        {
            assert(self.text_entries@[w as int]@ == ts[w as int]);
            assert(self.text_entries@[i as int]@ == ts[i as int]);
            if text_entry_stronger_exec(&self.text_entries[w], &self.text_entries[i]) {
                w = i;
            }
            i = i + 1;
        }
        Some(w)
    }

    /// Total bytes of the personal words.
    fn text_total_bytes(&self) -> (n: usize)
        requires
            text_bounded(self@.text_entries),
        ensures
            n == text_total(self@.text_entries),
    {
        let ghost ts = self@.text_entries;
        let mut sum: usize = 0;
        let mut i: usize = 0;
        while i < self.text_entries.len()
            invariant
                ts == self@.text_entries,
                text_bounded(ts),
                ts.len() == self.text_entries@.len(),
                i <= ts.len(),
                sum == text_total(ts.take(i as int)),
                sum <= i * PERSONAL_TEXT_TOKEN_MAX_BYTES,
            decreases ts.len() - i,
        {
            proof {
                lemma_text_total_take(ts, i as int);
                assert(spec_is_personal_text(ts[i as int].text));
            }
            let l = self.text_entries[i].text.as_str().len();
            assert(self.text_entries@[i as int]@ == ts[i as int]);
            sum = sum + l;
            i = i + 1;
        }
        assert(ts.take(ts.len() as int) =~= ts);
        sum
    }

    /// Recomputes the ranked cache of context-free personal words.
    fn rebuild_text_cache(&mut self)
        ensures
            final(self).text_unigram_cache@ == text_cache(text_views(final(self).text_entries@)),
            final(self).text_entries@ == old(self).text_entries@,
            final(self)@ == old(self)@,
    {
        let ghost ts = text_views(self.text_entries@);
        self.text_unigram_cache.clear();
        let mut i: usize = 0;
        while i < self.text_entries.len()
            invariant
                ts == text_views(self.text_entries@),
                self.text_entries@ == old(self).text_entries@,
                self@ == old(self)@,
                i <= ts.len(),
                self.text_unigram_cache@ == text_cache_upto(ts, i as int),
            decreases ts.len() - i,
        {
            let e = &self.text_entries[i];
            assert(e@ == ts[i as int]);
            if e.context == PersonalContext::empty() {
                let sg = text_suggestion(e, i);
                insert_text_bounded_exec(&mut self.text_unigram_cache, sg, PERSONAL_UNIGRAM_CACHE_LIMIT);
            }
            i = i + 1;
        }
    }
}

impl PersonalAutosuggest {
    /// Applies one learning event for the personal word `text` after `ctx`.
    #[verifier::rlimit(60)]
    fn observe_text_key(&mut self, ctx: PersonalContext, text: &str, weight: u16)
        requires
            old(self).wf(),
            weight >= 1,
            ctx.len <= 3,
            spec_is_personal_text(text@),
        ensures
            final(self).wf(),
            final(self)@ == (PersonalView {
                text_entries: observe_text_key_s(old(self)@.text_entries, old(self)@.tick, ctx, text@, weight),
                ..old(self)@
            }),
    {
        let ghost v = self@;
        let ghost ts = self@.text_entries;
        let ghost raw = self.text_entries@;
        let tick = self.tick;
        let ghost fresh_v = TextEntryView { context: ctx, text: text@, count: weight, last_seen: tick };
        match self.find_text_entry(ctx, text) {
            Ok(p) => {
                let mut tmp = PersonalTextEntry {
                    context: PersonalContext::empty(),
                    text: String::new(),
                    count: 0,
                    last_seen: 0,
                };
                self.text_entries.set_and_swap(p, &mut tmp);
                assert(tmp@ == ts[p as int]);
                let c = if tmp.count > u16::MAX - weight {
                    u16::MAX
                } else {
                    tmp.count + weight
                };
                tmp.count = c;
                tmp.last_seen = tick;
                let ghost upd = tmp@;
                let ghost tmp_g = tmp;
                self.text_entries.set_and_swap(p, &mut tmp);
                proof {
                    assert(self.text_entries@ =~= raw.update(p as int, tmp_g));
                    lemma_views_update(raw, p as int, tmp_g);
                    assert(text_views(self.text_entries@) =~= ts.update(p as int, upd));
                    assert forall|i: int| 0 <= i < ts.len() implies (#[trigger] ts.update(p as int, upd)[i]).count >= 1 by {
                        if i != p {
                            assert(ts.update(p as int, upd)[i] == ts[i]);
                        }
                    }
                    lemma_text_update_sorted(ts, p as int, upd);
                    lemma_text_total_update(ts, p as int, upd);
                }
            },
            Err(p) => {
                let total = self.text_total_bytes();
                let e = PersonalTextEntry { context: ctx, text: text.to_owned(), count: weight, last_seen: tick };
                assert(e@ == fresh_v);
                let len = text.len();
                if self.text_entries.len() < DEFAULT_PERSONAL_TEXT_AUTOSUGGEST_ENTRIES && total + len
                    <= PERSONAL_TEXT_TOTAL_MAX_BYTES {
                    proof {
                        lemma_text_insert_sorted(ts, fresh_v);
                        lemma_text_total_insert(ts, p as int, fresh_v);
                        lemma_views_insert(raw, p as int, e);
                    }
                    self.ensure_text_entry_capacity_for_insert();
                    self.text_entries.insert(p, e);
                    proof {
                        let nts = ts.insert(p as int, fresh_v);
                        assert(text_views(self.text_entries@) == nts);
                        assert forall|i: int| 0 <= i < nts.len() implies spec_is_personal_text(#[trigger] nts[i].text) && nts[i].context.len <= 3 && nts[i].count >= 1 by {
                            if i < p {
                                assert(nts[i] == ts[i]);
                            } else if i > p {
                                assert(nts[i] == ts[i - 1]);
                            }
                        }
                    }
                } else {
                    match self.weakest_text_entry_index() {
                        Some(w) => {
                            assert(self.text_entries@[w as int]@ == ts[w as int]);
                            let replaced = self.text_entries[w].text.as_str().len();
                            proof {
                                lemma_text_total_remove(ts, w as int);
                            }
                            if text_entry_stronger_exec(&e, &self.text_entries[w]) && total - replaced + len
                                <= PERSONAL_TEXT_TOTAL_MAX_BYTES {
                                self.text_entries.remove(w);
                                let ghost ts1 = ts.remove(w as int);
                                proof {
                                    lemma_views_remove(raw, w as int);
                                    lemma_text_remove_sorted(ts, w as int);
                                }
                                let ghost raw1 = self.text_entries@;
                                assert(text_views(raw1) == ts1);
                                let q = match self.find_text_entry(ctx, text) {
                                    Ok(q) => {
                                        proof {
                                            let qq = q as int;
                                            let orig = if qq < w { qq } else { qq + 1 };
                                            assert(ts1[qq] == ts[orig]);
                                            crate::personal_text::lemma_text_first_exists(ts, text_not_below(ctx, text@));
                                            let kp = text_pos(ts, ctx, text@);
                                            crate::bytes::lemma_lex_lt_irreflexive(text_bytes(text@));
                                            if orig < kp {
                                                assert(!text_not_below(ctx, text@)(ts[orig]));
                                            } else if orig > kp {
                                                assert(text_key_lt(ts[kp], ts[orig]));
                                                lemma_text_probe_order(ts[kp], ts[orig], ctx, text@);
                                            }
                                            assert(false);
                                        }
                                        q
                                    },
                                    Err(q) => q,
                                };
                                proof {
                                    lemma_text_insert_sorted(ts1, fresh_v);
                                    lemma_text_total_insert(ts1, q as int, fresh_v);
                                    lemma_views_insert(raw1, q as int, e);
                                }
                                self.text_entries.insert(q, e);
                                proof {
                                    let nts = ts1.insert(q as int, fresh_v);
                                    assert(text_views(self.text_entries@) == nts);
                                    assert forall|i: int| 0 <= i < nts.len() implies spec_is_personal_text(#[trigger] nts[i].text) && nts[i].context.len <= 3 && nts[i].count >= 1 by {
                                        if i != q {
                                            let k = if i < q { i } else { i - 1 };
                                            assert(nts[i] == ts1[k]);
                                            assert(ts1[k] == ts[if k < w { k } else { k + 1 }]);
                                        }
                                    }
                                }
                            }
                        },
                        None => {},
                    }
                }
            },
        }
        self.rebuild_text_cache();
    }
}

pub open spec fn next_tick(t: u32) -> u32 {
    if t == u32::MAX {
        0
    } else {
        (t + 1) as u32
    }
}

pub open spec fn ticked(v: PersonalView) -> PersonalView {
    PersonalView { tick: next_tick(v.tick), ..v }
}

pub open spec fn usable_len(ids: Seq<u32>) -> int {
    if ids.len() < 3 {
        ids.len() as int
    } else {
        3
    }
}

/// The learning keys of a target: the empty context, then either the
/// sentence start or each suffix of the recent ids (shortest first).
pub open spec fn target_keys(start: bool, ids: Seq<u32>) -> Seq<PersonalContext> {
    seq![spec_empty_ctx()] + if start {
        seq![spec_sentence_start_ctx()]
    } else {
        Seq::new(usable_len(ids) as nat, |i: int| spec_from_suffix(ids, i + 1))
    }
}

/// Learning a known target: nothing when the store has no room at all or the
/// target is reserved; otherwise the tick advances and each key learns.
pub open spec fn observe_target_v(v: PersonalView, start: bool, ids: Seq<u32>, target: u32, weight: u16) -> PersonalView {
    if v.config.max_entries == 0 || target <= AUTOSUGGEST_UNK_ID {
        v
    } else {
        observe_keys_v(ticked(v), target_keys(start, ids), target, weight)
    }
}

/// Learning events for the personal word under each key of `keys`.
pub open spec fn observe_text_keys_s(
    ts: Seq<TextEntryView>,
    tick: u32,
    keys: Seq<PersonalContext>,
    t: Seq<char>,
    weight: u16,
) -> Seq<TextEntryView>
    decreases keys.len(),
{
    if keys.len() == 0 {
        ts
    } else {
        observe_text_key_s(observe_text_keys_s(ts, tick, keys.drop_last(), t, weight), tick, keys.last(), t, weight)
    }
}

/// Learning a personal word: nothing unless it is a learnable Bangla word;
/// otherwise the tick advances and each key learns.
pub open spec fn observe_text_target_v(v: PersonalView, start: bool, ids: Seq<u32>, t: Seq<char>, weight: u16) -> PersonalView {
    if !spec_is_personal_text(t) {
        v
    } else {
        PersonalView {
            tick: next_tick(v.tick),
            text_entries: observe_text_keys_s(v.text_entries, next_tick(v.tick), target_keys(start, ids), t, weight),
            ..v
        }
    }
}

impl PersonalAutosuggest {
    fn advance_tick(&mut self)
        ensures
            final(self)@ == ticked(old(self)@),
            final(self).wf() == old(self).wf(),
    {
        self.tick = if self.tick == u32::MAX {
            0
        } else {
            self.tick + 1
        };
    }

    fn observe_target(&mut self, start: bool, ids: &[u32], target: u32, weight: u16)
        requires
            old(self).wf(),
            weight >= 1,
        ensures
            final(self).wf(),
            final(self)@ == observe_target_v(old(self)@, start, ids@, target, weight),
    {
        if self.config.max_entries == 0 || target <= AUTOSUGGEST_UNK_ID {
            return ;
        }
        self.advance_tick();
        let ghost v1 = self@;
        let ghost keys = target_keys(start, ids@);
        proof {
            assert(keys.take(1).drop_last() =~= Seq::<PersonalContext>::empty());
            assert(keys.take(1).last() == keys[0]);
        }
        assert(observe_keys_v(v1, keys.take(1).drop_last(), target, weight) == v1);
        self.observe_key(PersonalContext::empty(), target, weight);
        assert(self@ == observe_keys_v(v1, keys.take(1), target, weight));
        if start {
            proof {
                assert(keys.take(2).drop_last() =~= keys.take(1));
                assert(keys =~= keys.take(2));
            }
            self.observe_key(PersonalContext::sentence_start(), target, weight);
            assert(self@ == observe_keys_v(v1, keys.take(2), target, weight));
            return ;
        }
        let usable = if ids.len() < 3 {
            ids.len()
        } else {
            3
        };
        let mut len: usize = 1;
        while len <= usable
            invariant
                self.wf(),
                weight >= 1,
                target > AUTOSUGGEST_UNK_ID,
                1 <= len <= usable + 1,
                usable == usable_len(ids@),
                !start,
                keys == target_keys(start, ids@),
                keys.len() == usable + 1,
                self@ == observe_keys_v(v1, keys.take(len as int), target, weight),
            decreases usable + 1 - len,
        {
            proof {
                assert(keys.take(len as int + 1).drop_last() =~= keys.take(len as int));
                assert(keys.take(len as int + 1).last() == spec_from_suffix(ids@, len as int));
            }
            self.observe_key(PersonalContext::from_suffix(ids, len), target, weight);
            len = len + 1;
        }
        assert(keys.take(len as int) =~= keys);
    }

    fn observe_text_target(&mut self, start: bool, ids: &[u32], text: &str, weight: u16) -> (b: bool)
        requires
            old(self).wf(),
            weight >= 1,
        ensures
            final(self).wf(),
            b == spec_is_personal_text(text@),
            final(self)@ == observe_text_target_v(old(self)@, start, ids@, text@, weight),
    {
        if !is_personal_text_token(text) {
            return false;
        }
        self.advance_tick();
        let ghost v1 = self@;
        let ghost keys = target_keys(start, ids@);
        proof {
            assert(keys.take(1).drop_last() =~= Seq::<PersonalContext>::empty());
            assert(keys.take(1).last() == keys[0]);
        }
        assert(observe_text_keys_s(v1.text_entries, v1.tick, keys.take(1).drop_last(), text@, weight) == v1.text_entries);
        self.observe_text_key(PersonalContext::empty(), text, weight);
        assert(self@.text_entries == observe_text_keys_s(v1.text_entries, v1.tick, keys.take(1), text@, weight));
        if start {
            proof {
                assert(keys.take(2).drop_last() =~= keys.take(1));
                assert(keys =~= keys.take(2));
            }
            self.observe_text_key(PersonalContext::sentence_start(), text, weight);
            assert(self@.text_entries == observe_text_keys_s(v1.text_entries, v1.tick, keys.take(2), text@, weight));
            return true;
        }
        let usable = if ids.len() < 3 {
            ids.len()
        } else {
            3
        };
        let mut len: usize = 1;
        while len <= usable
            invariant
                self.wf(),
                weight >= 1,
                spec_is_personal_text(text@),
                1 <= len <= usable + 1,
                usable == usable_len(ids@),
                !start,
                keys == target_keys(start, ids@),
                keys.len() == usable + 1,
                self@ == (PersonalView {
                    text_entries: observe_text_keys_s(v1.text_entries, v1.tick, keys.take(len as int), text@, weight),
                    ..v1
                }),
            decreases usable + 1 - len,
        {
            proof {
                assert(keys.take(len as int + 1).drop_last() =~= keys.take(len as int));
                assert(keys.take(len as int + 1).last() == spec_from_suffix(ids@, len as int));
            }
            self.observe_text_key(PersonalContext::from_suffix(ids, len), text, weight);
            len = len + 1;
        }
        assert(keys.take(len as int) =~= keys);
        true
    }
}

/// The store and both contexts, as one committed token changes them.
pub struct CommitState {
    pub store: PersonalView,
    pub context: ContextView,
    pub personal: PersonalContextView,
}

/// Committing an already resolved token: a word id above `<unk>` is learned
/// after the current personal context and extends both contexts; anything
/// else only clears their recent ids. A trailing boundary is applied last.
/// The flag tells whether a word was learned.
pub open spec fn resolved_commit(s: CommitState, token_id: Option<u32>, boundary: bool, weight: u16) -> (CommitState, bool) {
    let learned = token_id matches Some(id) && id > AUTOSUGGEST_UNK_ID;
    let store = if learned {
        observe_target_v(s.store, s.personal.is_sentence_start(), ctx_ids(s.personal.ctx), token_id->0, weight)
    } else {
        s.store
    };
    let pushed = if learned {
        token_id
    } else {
        None
    };
    let c1 = s.context.pushed(pushed);
    let p1 = s.personal.pushed(pushed);
    (
        CommitState {
            store,
            context: if boundary {
                c1.bounded()
            } else {
                c1
            },
            personal: if boundary {
                p1.bounded()
            } else {
                p1
            },
        },
        learned,
    )
}

/// Committing a raw token: edge punctuation is trimmed; a known word takes
/// the resolved path; an unknown word is learned as a personal word (when it
/// is one) and clears the static context; a trailing sentence boundary is
/// applied last. A failed lookup changes nothing.
pub open spec fn raw_commit(lm: LmView, s: CommitState, raw: Seq<char>, weight: u16) -> Result<
    (CommitState, bool),
    AutosuggestArtifactError,
> {
    let t = spec_trimmed(raw);
    let b = spec_trailing_boundary(raw);
    if t.len() > 0 {
        match lm.lookup_token(text_bytes(t)) {
            Err(e) => Err(e),
            Ok(Some(id)) => Ok(resolved_commit(s, Some(id), b, weight)),
            Ok(None) => {
                let store = observe_text_target_v(
                    s.store,
                    s.personal.is_sentence_start(),
                    ctx_ids(s.personal.ctx),
                    t,
                    weight,
                );
                let c1 = s.context.pushed(None);
                let p1 = s.personal.pushed_text(t);
                Ok(
                    (
                        CommitState {
                            store,
                            context: if b {
                                c1.bounded()
                            } else {
                                c1
                            },
                            personal: if b {
                                p1.bounded()
                            } else {
                                p1
                            },
                        },
                        spec_is_personal_text(t),
                    ),
                )
            },
        }
    } else {
        Ok(
            (
                CommitState {
                    store: s.store,
                    context: if b {
                        s.context.bounded()
                    } else {
                        s.context
                    },
                    personal: if b {
                        s.personal.bounded()
                    } else {
                        s.personal
                    },
                },
                false,
            ),
        )
    }
}

impl PersonalAutosuggest {
    /// Learns `target_id` after a static context (weight 1).
    pub fn observe_context_target(&mut self, context: AutosuggestContext, target_id: u32)
        requires
            old(self).wf(),
        ensures
            final(self).wf(),
            final(self)@ == observe_target_v(old(self)@, context@.is_sentence_start(), context@.recent, target_id, 1),
    {
        let ids = context.recent_token_ids();
        self.observe_target(context.is_sentence_start(), ids, target_id, 1);
    }

    /// Learns `target_id` after explicit context ids, oldest first (weight 1).
    pub fn observe_context_ids_target(&mut self, context_ids: &[u32], target_id: u32)
        requires
            old(self).wf(),
        ensures
            final(self).wf(),
            final(self)@ == observe_target_v(old(self)@, false, context_ids@, target_id, 1),
    {
        self.observe_target(false, context_ids, target_id, 1);
    }

    /// Learns a personal word after a static context; returns whether it is a
    /// learnable word.
    pub fn observe_context_text_target(&mut self, context: AutosuggestContext, text: &str) -> (b: bool)
        requires
            old(self).wf(),
        ensures
            final(self).wf(),
            b == spec_is_personal_text(text@),
            final(self)@ == observe_text_target_v(
                old(self)@,
                personal_of_static(context@).is_sentence_start(),
                ctx_ids(personal_of_static(context@).ctx),
                text@,
                1,
            ),
    {
        self.observe_personal_context_text_target(PersonalAutosuggestContext::from_static(context), text)
    }

    /// Learns `target_id` after a personal context (weight 1).
    pub fn observe_personal_context_target(&mut self, context: PersonalAutosuggestContext, target_id: u32)
        requires
            old(self).wf(),
        ensures
            final(self).wf(),
            final(self)@ == observe_target_v(
                old(self)@,
                context@.is_sentence_start(),
                ctx_ids(context@.ctx),
                target_id,
                1,
            ),
    {
        let ids = context.recent_context_ids();
        self.observe_target(context.is_sentence_start(), ids.as_slice(), target_id, 1);
    }

    /// Learns a personal word after a personal context; returns whether it
    /// is a learnable word.
    pub fn observe_personal_context_text_target(&mut self, context: PersonalAutosuggestContext, text: &str) -> (b: bool)
        requires
            old(self).wf(),
        ensures
            final(self).wf(),
            b == spec_is_personal_text(text@),
            final(self)@ == observe_text_target_v(
                old(self)@,
                context@.is_sentence_start(),
                ctx_ids(context@.ctx),
                text@,
                1,
            ),
    {
        let ids = context.recent_context_ids();
        self.observe_text_target(context.is_sentence_start(), ids.as_slice(), text, 1)
    }

    fn resolved_token_id_weighted(
        &mut self,
        context: &mut AutosuggestContext,
        personal_context: &mut PersonalAutosuggestContext,
        token_id: Option<u32>,
        boundary_after: bool,
        weight: u16,
    ) -> (learned: bool)
        requires
            old(self).wf(),
            weight >= 1,
            old(context)@.count < usize::MAX,
            old(personal_context)@.count < usize::MAX,
        ensures
            final(self).wf(),
            (CommitState { store: final(self)@, context: final(context)@, personal: final(personal_context)@ }, learned)
                == resolved_commit(
                CommitState { store: old(self)@, context: old(context)@, personal: old(personal_context)@ },
                token_id,
                boundary_after,
                weight,
            ),
    {
        let learned = match token_id {
            Some(id) => {
                if id > AUTOSUGGEST_UNK_ID {
                    let ids = personal_context.recent_context_ids();
                    self.observe_target(personal_context.is_sentence_start(), ids.as_slice(), id, weight);
                    context.push_token_id(Some(id));
                    personal_context.push_token_id(Some(id));
                    true
                } else {
                    context.push_unknown();
                    personal_context.push_unknown();
                    false
                }
            },
            None => {
                context.push_unknown();
                personal_context.push_unknown();
                false
            },
        };
        if boundary_after {
            context.push_boundary();
            personal_context.push_boundary();
        }
        learned
    }

    /// Commits a token id the caller already resolved (not checked against a
    /// model): a word id is learned and extends the contexts; `None` or a
    /// reserved id clears them. Returns whether a word was learned.
    pub fn observe_resolved_token_id_with_personal_context(
        &mut self,
        context: &mut AutosuggestContext,
        personal_context: &mut PersonalAutosuggestContext,
        token_id: Option<u32>,
        boundary_after: bool,
    ) -> (learned: bool)
        requires
            old(self).wf(),
            old(context)@.count < usize::MAX,
            old(personal_context)@.count < usize::MAX,
        ensures
            final(self).wf(),
            (CommitState { store: final(self)@, context: final(context)@, personal: final(personal_context)@ }, learned)
                == resolved_commit(
                CommitState { store: old(self)@, context: old(context)@, personal: old(personal_context)@ },
                token_id,
                boundary_after,
                1,
            ),
    {
        self.resolved_token_id_weighted(context, personal_context, token_id, boundary_after, 1)
    }

    /// [`Self::observe_resolved_token_id_with_personal_context`] with the
    /// personal context derived from the static one.
    pub fn observe_resolved_token_id(
        &mut self,
        context: &mut AutosuggestContext,
        token_id: Option<u32>,
        boundary_after: bool,
    ) -> (learned: bool)
        requires
            old(self).wf(),
            old(context)@.count < usize::MAX,
        ensures
            final(self).wf(),
            ({
                let (st, l) = resolved_commit(
                    CommitState { store: old(self)@, context: old(context)@, personal: personal_of_static(old(context)@) },
                    token_id,
                    boundary_after,
                    1,
                );
                final(self)@ == st.store && final(context)@ == st.context && learned == l
            }),
    {
        let mut personal_context = PersonalAutosuggestContext::from_static(*context);
        self.resolved_token_id_weighted(context, &mut personal_context, token_id, boundary_after, 1)
    }

    pub(crate) fn committed_token_weighted(
        &mut self,
        lm: &AutosuggestLm,
        context: &mut AutosuggestContext,
        personal_context: &mut PersonalAutosuggestContext,
        raw_token: &str,
        weight: u16,
    ) -> (r: Result<bool, AutosuggestArtifactError>)
        requires
            old(self).wf(),
            weight >= 1,
            old(context)@.count < usize::MAX,
            old(personal_context)@.count < usize::MAX,
        ensures
            final(self).wf(),
            ({
                let s0 = CommitState { store: old(self)@, context: old(context)@, personal: old(personal_context)@ };
                let s1 = CommitState { store: final(self)@, context: final(context)@, personal: final(personal_context)@ };
                match raw_commit(lm@, s0, raw_token@, weight) {
                    Ok((st, l)) => r == Ok::<bool, AutosuggestArtifactError>(l) && s1 == st,
                    Err(e) => r == Err::<bool, AutosuggestArtifactError>(e) && s1 == s0,
                }
            }),
    {
        let token = analyze_context_token(raw_token);
        match token.text {
            Some(text) => {
                let id = match lm.token_id(text.as_str()) {
                    Ok(id) => id,
                    Err(e) => return Err(e),
                };
                match id {
                    Some(id) => Ok(
                        self.resolved_token_id_weighted(context, personal_context, Some(id), token.boundary_after, weight),
                    ),
                    None => {
                        let ids = personal_context.recent_context_ids();
                        let learned = self.observe_text_target(
                            personal_context.is_sentence_start(),
                            ids.as_slice(),
                            text.as_str(),
                            weight,
                        );
                        context.push_unknown();
                        personal_context.push_text_token(text.as_str());
                        if token.boundary_after {
                            context.push_boundary();
                            personal_context.push_boundary();
                        }
                        Ok(learned)
                    },
                }
            },
            None => {
                if token.boundary_after {
                    context.push_boundary();
                    personal_context.push_boundary();
                }
                Ok(false)
            },
        }
    }

    /// Commits a raw token: the word is resolved against the model and
    /// learned after the current personal context (see [`raw_commit`]).
    pub fn observe_committed_token_with_personal_context(
        &mut self,
        lm: &AutosuggestLm,
        context: &mut AutosuggestContext,
        personal_context: &mut PersonalAutosuggestContext,
        raw_token: &str,
    ) -> (r: Result<bool, AutosuggestArtifactError>)
        requires
            old(self).wf(),
            old(context)@.count < usize::MAX,
            old(personal_context)@.count < usize::MAX,
        ensures
            final(self).wf(),
            ({
                let s0 = CommitState { store: old(self)@, context: old(context)@, personal: old(personal_context)@ };
                let s1 = CommitState { store: final(self)@, context: final(context)@, personal: final(personal_context)@ };
                match raw_commit(lm@, s0, raw_token@, 1) {
                    Ok((st, l)) => r == Ok::<bool, AutosuggestArtifactError>(l) && s1 == st,
                    Err(e) => r == Err::<bool, AutosuggestArtifactError>(e) && s1 == s0,
                }
            }),
    {
        self.committed_token_weighted(lm, context, personal_context, raw_token, 1)
    }

    /// [`Self::observe_committed_token_with_personal_context`] where the
    /// commit counts with the weight of `strength`.
    pub fn observe_committed_token_with_personal_context_and_strength(
        &mut self,
        lm: &AutosuggestLm,
        context: &mut AutosuggestContext,
        personal_context: &mut PersonalAutosuggestContext,
        raw_token: &str,
        strength: CommitStrength,
    ) -> (r: Result<bool, AutosuggestArtifactError>)
        requires
            old(self).wf(),
            old(context)@.count < usize::MAX,
            old(personal_context)@.count < usize::MAX,
        ensures
            final(self).wf(),
            ({
                let s0 = CommitState { store: old(self)@, context: old(context)@, personal: old(personal_context)@ };
                let s1 = CommitState { store: final(self)@, context: final(context)@, personal: final(personal_context)@ };
                match raw_commit(lm@, s0, raw_token@, spec_weight(strength)) {
                    Ok((st, l)) => r == Ok::<bool, AutosuggestArtifactError>(l) && s1 == st,
                    Err(e) => r == Err::<bool, AutosuggestArtifactError>(e) && s1 == s0,
                }
            }),
    {
        self.committed_token_weighted(lm, context, personal_context, raw_token, strength.weight())
    }

    /// [`Self::observe_committed_token_with_personal_context`] with the
    /// personal context derived from the static one.
    pub fn observe_committed_token(
        &mut self,
        lm: &AutosuggestLm,
        context: &mut AutosuggestContext,
        raw_token: &str,
    ) -> (r: Result<bool, AutosuggestArtifactError>)
        requires
            old(self).wf(),
            old(context)@.count < usize::MAX,
        ensures
            final(self).wf(),
            ({
                let s0 = CommitState { store: old(self)@, context: old(context)@, personal: personal_of_static(old(context)@) };
                match raw_commit(lm@, s0, raw_token@, 1) {
                    Ok((st, l)) => r == Ok::<bool, AutosuggestArtifactError>(l) && final(self)@ == st.store
                        && final(context)@ == st.context,
                    Err(e) => r == Err::<bool, AutosuggestArtifactError>(e) && final(self)@ == old(self)@
                        && final(context)@ == old(context)@,
                }
            }),
    {
        let mut personal_context = PersonalAutosuggestContext::from_static(*context);
        self.committed_token_weighted(lm, context, &mut personal_context, raw_token, 1)
    }

    /// [`Self::observe_committed_token`] where the commit counts with the
    /// weight of `strength`.
    pub fn observe_committed_token_with_strength(
        &mut self,
        lm: &AutosuggestLm,
        context: &mut AutosuggestContext,
        raw_token: &str,
        strength: CommitStrength,
    ) -> (r: Result<bool, AutosuggestArtifactError>)
        requires
            old(self).wf(),
            old(context)@.count < usize::MAX,
        ensures
            final(self).wf(),
            ({
                let s0 = CommitState { store: old(self)@, context: old(context)@, personal: personal_of_static(old(context)@) };
                match raw_commit(lm@, s0, raw_token@, spec_weight(strength)) {
                    Ok((st, l)) => r == Ok::<bool, AutosuggestArtifactError>(l) && final(self)@ == st.store
                        && final(context)@ == st.context,
                    Err(e) => r == Err::<bool, AutosuggestArtifactError>(e) && final(self)@ == old(self)@
                        && final(context)@ == old(context)@,
                }
            }),
    {
        let mut personal_context = PersonalAutosuggestContext::from_static(*context);
        self.committed_token_weighted(lm, context, &mut personal_context, raw_token, strength.weight())
    }
}

pub open spec fn is_text_key_free(t: Seq<char>) -> spec_fn(TextEntryView) -> bool {
    |e: TextEntryView| e.context.len == 0 && e.text == t
}

pub open spec fn is_token_key_free(id: u32) -> spec_fn(PersonalEntry) -> bool {
    |e: PersonalEntry| e.context.len == 0 && e.target_id == id
}

/// The count of the first context-free entry of the personal word `t`, or 0.
pub open spec fn committed_text_weight_v(v: PersonalView, t: Seq<char>) -> u16 {
    let p = first_index(v.text_entries, is_text_key_free(t));
    if p < v.text_entries.len() {
        v.text_entries[p].count
    } else {
        0
    }
}

/// The count of the first context-free entry of the word id, or 0.
pub open spec fn committed_token_weight_v(v: PersonalView, id: u32) -> u16 {
    let p = first_index(v.entries, is_token_key_free(id));
    if p < v.entries.len() {
        v.entries[p].count
    } else {
        0
    }
}

/// Whether two texts are equal, by their bytes.
pub fn same_text(a: &str, b: &str) -> (r: bool)
    ensures
        r == (a@ == b@),
{
    let o = byte_order(a.as_bytes(), b.as_bytes());
    proof {
        lemma_text_bytes_injective(a@, b@);
    }
    o == ByteOrder::Equal
}

impl PersonalAutosuggest {
    /// Post-decay evidence that the user committed `text` as a personal word:
    /// the count of its context-free entry (0 when there is none).
    pub fn committed_text_weight(&self, text: &str) -> (w: u16)
        ensures
            w == committed_text_weight_v(self@, text@),
    {
        let ghost ts = self@.text_entries;
        let ghost pr = is_text_key_free(text@);
        let mut i: usize = 0;
        while i < self.text_entries.len()
            invariant
                ts == self@.text_entries,
                pr == is_text_key_free(text@),
                ts.len() == self.text_entries@.len(),
                i <= ts.len(),
                forall|j: int| 0 <= j < i ==> !pr(#[trigger] ts[j]),
            decreases ts.len() - i,
        {
            let e = &self.text_entries[i];
            assert(e@ == ts[i as int]);
            if e.context.len == 0 && same_text(e.text.as_str(), text) {
                proof {
                    lemma_first_index(ts, pr, i as int);
                }
                return e.count;
            }
            i = i + 1;
        }
        proof {
            lemma_first_index(ts, pr, i as int);
        }
        0
    }

    /// Post-decay evidence for a committed known word: the count of its
    /// context-free entry (0 when there is none).
    pub fn committed_token_weight(&self, token_id: u32) -> (w: u16)
        ensures
            w == committed_token_weight_v(self@, token_id),
    {
        let ghost es = self@.entries;
        let ghost pr = is_token_key_free(token_id);
        let mut i: usize = 0;
        while i < self.entries.len()
            invariant
                es == self@.entries,
                pr == is_token_key_free(token_id),
                es.len() == self.entries@.len(),
                i <= es.len(),
                forall|j: int| 0 <= j < i ==> !pr(#[trigger] es[j]),
            decreases es.len() - i,
        {
            let e = self.entries[i];
            if e.context.len == 0 && e.target_id == token_id {
                proof {
                    lemma_first_index(es, pr, i as int);
                }
                return e.count;
            }
            i = i + 1;
        }
        proof {
            lemma_first_index(es, pr, i as int);
        }
        0
    }

    /// Whether `text` has at least `max(min_weight, 1)` post-decay evidence.
    pub fn is_text_established(&self, text: &str, min_weight: u16) -> (b: bool)
        ensures
            b == (committed_text_weight_v(self@, text@) >= if min_weight < 1 {
                1
            } else {
                min_weight
            }),
    {
        let floor = if min_weight < 1 {
            1
        } else {
            min_weight
        };
        self.committed_text_weight(text) >= floor
    }
}

impl PersonalAutosuggest {
    /// The first entry whose context is not below `ctx`.
    fn entries_lower_bound(&self, ctx: PersonalContext) -> (i: usize)
        requires
            entries_sorted(self@.entries),
        ensures
            i <= self@.entries.len(),
            forall|k: int| 0 <= k < i ==> ctx_lt((#[trigger] self@.entries[k]).context, ctx),
            forall|k: int| i <= k < self@.entries.len() ==> !ctx_lt((#[trigger] self@.entries[k]).context, ctx),
    {
        let ghost es = self@.entries;
        let mut lo: usize = 0;
        let mut hi: usize = self.entries.len();
        while lo < hi
            invariant
                es == self@.entries,
                es.len() == self.entries@.len(),
                entries_sorted(es),
                0 <= lo <= hi <= es.len(),
                forall|k: int| 0 <= k < lo ==> ctx_lt((#[trigger] es[k]).context, ctx),
                forall|k: int| hi <= k < es.len() ==> !ctx_lt((#[trigger] es[k]).context, ctx),
            decreases hi - lo,
        {
            let mid = lo + (hi - lo) / 2;
            let c = compare_contexts(&self.entries[mid].context, &ctx);
            if c == KeyOrder::Less {
                proof {
                    assert forall|k: int| 0 <= k <= mid implies ctx_lt((#[trigger] es[k]).context, ctx) by {
                        lemma_sorted_ctx(es, k, mid as int);
                        lemma_ctx_order(es[k].context, es[mid as int].context, ctx);
                    }
                }
                lo = mid + 1;
            } else {
                proof {
                    assert forall|k: int| mid <= k < es.len() implies !ctx_lt((#[trigger] es[k]).context, ctx) by {
                        lemma_sorted_ctx(es, mid as int, k);
                        lemma_ctx_order(ctx, es[mid as int].context, es[k].context);
                        lemma_ctx_order(es[k].context, ctx, es[mid as int].context);
                        lemma_ctx_order(es[mid as int].context, ctx, ctx);
                    }
                }
                hi = mid;
            }
        }
        lo
    }

    fn collect_scan(&self, ctx: PersonalContext, limit: usize, out: &mut Vec<PersonalAutosuggestSuggestion>)
        requires
            entries_sorted(self@.entries),
        ensures
            final(out)@ == scan_ids(self@.entries, 0, ctx, limit as int, self@.config.min_count, old(out)@),
    {
        let ghost es = self@.entries;
        let min_count = self.config.min_count;
        let start = self.entries_lower_bound(ctx);
        proof {
            assert forall|k: int| 0 <= k < start implies (#[trigger] es[k]).context != ctx by {
                lemma_ctx_order(ctx, ctx, ctx);
            }
            lemma_scan_ids_skip(es, 0, start as int, ctx, limit as int, min_count, old(out)@);
        }
        let mut i = start;
        while i < self.entries.len() && self.entries[i].context == ctx
            invariant
                es == self@.entries,
                es.len() == self.entries@.len(),
                entries_sorted(es),
                min_count == self@.config.min_count,
                start <= i <= es.len(),
                forall|k: int| start <= k < es.len() ==> !ctx_lt((#[trigger] es[k]).context, ctx),
                scan_ids(es, i as int, ctx, limit as int, min_count, out@) == scan_ids(
                    es,
                    0,
                    ctx,
                    limit as int,
                    min_count,
                    old(out)@,
                ),
            decreases es.len() - i,
        {
            let e = self.entries[i];
            if e.count >= min_count && !contains_token(out, e.target_id) {
                insert_bounded_exec(out, entry_suggestion(e), limit);
            }
            i = i + 1;
        }
        proof {
            if i < es.len() {
                assert forall|k: int| i <= k < es.len() implies (#[trigger] es[k]).context != ctx by {
                    lemma_sorted_ctx(es, i as int, k);
                    assert(!ctx_lt(es[i as int].context, ctx));
                    lemma_ctx_order(es[i as int].context, ctx, ctx);
                    lemma_ctx_order(ctx, es[i as int].context, es[k].context);
                }
                lemma_scan_ids_skip(es, i as int, es.len() as int, ctx, limit as int, min_count, out@);
            }
        }
    }

    fn collect_for_context(&self, ctx: PersonalContext, limit: usize, out: &mut Vec<PersonalAutosuggestSuggestion>)
        requires
            entries_sorted(self@.entries),
        ensures
            final(out)@ == collect_ids(
                self@.entries,
                self@.unigram_cache,
                ctx,
                limit as int,
                self@.config.min_count,
                old(out)@,
            ),
    {
        if ctx.len == 0 {
            cache_collect_exec(&self.unigram_cache, limit, self.config.min_count, out);
            if out.len() >= limit || limit <= PERSONAL_UNIGRAM_CACHE_LIMIT {
                return ;
            }
        }
        self.collect_scan(ctx, limit, out);
    }

    /// Personal suggestions after a personal context: the entries of the
    /// sentence start (when at one), of each recent suffix from the longest,
    /// then context-free entries, until `max(limit, 1)` are found. The
    /// output buffer is cleared first and reused.
    pub fn suggest_token_ids_for_personal_context_into(
        &self,
        context: PersonalAutosuggestContext,
        limit: usize,
        output: &mut Vec<PersonalAutosuggestSuggestion>,
    )
        requires
            self.wf(),
        ensures
            final(output)@ == collect_ids_keys(
                self@.entries,
                self@.unigram_cache,
                query_keys(context@),
                0,
                if limit < 1 {
                    1
                } else {
                    limit as int
                },
                self@.config.min_count,
                Seq::empty(),
            ),
    {
        output.clear();
        let lim = if limit < 1 {
            1
        } else {
            limit
        };
        let ghost es = self@.entries;
        let ghost cache = self@.unigram_cache;
        let ghost mc = self@.config.min_count;
        let ghost keys = query_keys(context@);
        let ghost goal = collect_ids_keys(es, cache, keys, 0, lim as int, mc, Seq::empty());
        let start = context.is_sentence_start();
        let mut k: usize = 0;
        if start {
            assert(keys[0] == spec_sentence_start_ctx());
            assert(goal == collect_ids_keys(es, cache, keys, 1, lim as int, mc, collect_ids(es, cache, keys[0], lim as int, mc, output@)));
            self.collect_for_context(PersonalContext::sentence_start(), lim, output);
            k = 1;
            if output.len() >= lim {
                assert(collect_ids_keys(es, cache, keys, 1, lim as int, mc, output@) == output@);
                return ;
            }
        }
        let ids = context.recent_context_ids();
        let usable = if ids.len() < 3 {
            ids.len()
        } else {
            3
        };
        let mut len = usable;
        while len >= 1
            invariant
                self.wf(),
                es == self@.entries && cache == self@.unigram_cache && mc == self@.config.min_count,
                keys == query_keys(context@),
                ids@ == ctx_ids(context@.ctx),
                usable == (if ids@.len() < 3 { ids@.len() as int } else { 3 }),
                len <= usable,
                k == (if start { 1int } else { 0 }) + (usable - len),
                keys.len() == (if start { 1int } else { 0 }) + usable + 1,
                start == context@.is_sentence_start(),
                lim >= 1,
                lim == (if limit < 1 { 1 } else { limit }),
                goal == collect_ids_keys(es, cache, keys, 0, lim as int, mc, Seq::empty()),
                collect_ids_keys(es, cache, keys, k as int, lim as int, mc, output@) == goal,
                output@.len() < lim,
            decreases len,
        {
            assert(keys[k as int] == spec_from_suffix(ids@, len as int));
            assert(collect_ids_keys(es, cache, keys, k as int, lim as int, mc, output@) == collect_ids_keys(es, cache, keys, k + 1, lim as int, mc, collect_ids(es, cache, keys[k as int], lim as int, mc, output@)));
            self.collect_for_context(PersonalContext::from_suffix(ids.as_slice(), len), lim, output);
            k = k + 1;
            len = len - 1;
            if output.len() >= lim {
                assert(collect_ids_keys(es, cache, keys, k as int, lim as int, mc, output@) == output@);
                return ;
            }
        }
        assert(keys[k as int] == spec_empty_ctx());
        assert(collect_ids_keys(es, cache, keys, k as int, lim as int, mc, output@) == collect_ids_keys(es, cache, keys, k + 1, lim as int, mc, collect_ids(es, cache, keys[k as int], lim as int, mc, output@)));
        self.collect_for_context(PersonalContext::empty(), lim, output);
        assert(collect_ids_keys(es, cache, keys, k + 1, lim as int, mc, output@) == output@);
    }

    /// [`Self::suggest_token_ids_for_personal_context_into`] with the
    /// personal context derived from a static one.
    pub fn suggest_token_ids_into(
        &self,
        context: AutosuggestContext,
        limit: usize,
        output: &mut Vec<PersonalAutosuggestSuggestion>,
    )
        requires
            self.wf(),
        ensures
            final(output)@ == collect_ids_keys(
                self@.entries,
                self@.unigram_cache,
                query_keys(personal_of_static(context@)),
                0,
                if limit < 1 {
                    1
                } else {
                    limit as int
                },
                self@.config.min_count,
                Seq::empty(),
            ),
    {
        self.suggest_token_ids_for_personal_context_into(PersonalAutosuggestContext::from_static(context), limit, output);
    }
}

impl PersonalAutosuggest {
    /// The text of a personal-word suggestion (`None` for a stale index).
    pub fn text_suggestion_text(&self, suggestion: PersonalAutosuggestTextSuggestion) -> (r: Option<&str>)
        ensures
            match r {
                Some(t) => suggestion.entry_index < self@.text_entries.len() && t@
                    == self@.text_entries[suggestion.entry_index as int].text,
                None => suggestion.entry_index >= self@.text_entries.len(),
            },
    {
        if suggestion.entry_index < self.text_entries.len() {
            let e = &self.text_entries[suggestion.entry_index];
            assert(e@ == self@.text_entries[suggestion.entry_index as int]);
            Some(e.text.as_str())
        } else {
            None
        }
    }

    fn text_in_output(&self, out: &Vec<PersonalAutosuggestTextSuggestion>, text: &str) -> (b: bool)
        ensures
            b == text_in(self@.text_entries, out@, text@),
    {
        let ghost ts = self@.text_entries;
        let mut i: usize = 0;
        while i < out.len()
            invariant
                ts == self@.text_entries,
                ts.len() == self.text_entries@.len(),
                i <= out@.len(),
                forall|j: int|
                    0 <= j < i ==> !(0 <= (#[trigger] out@[j]).entry_index < ts.len() && ts[out@[j].entry_index as int].text
                        == text@),
            decreases out@.len() - i,
        {
            let k = out[i].entry_index;
            if k < self.text_entries.len() {
                assert(self.text_entries@[k as int]@ == ts[k as int]);
                if same_text(self.text_entries[k].text.as_str(), text) {
                    return true;
                }
            }
            i = i + 1;
        }
        false
    }

    /// The first personal word whose context is not below `ctx`.
    fn text_lower_bound(&self, ctx: PersonalContext) -> (i: usize)
        requires
            text_sorted(self@.text_entries),
        ensures
            i <= self@.text_entries.len(),
            forall|k: int| 0 <= k < i ==> ctx_lt((#[trigger] self@.text_entries[k]).context, ctx),
            forall|k: int| i <= k < self@.text_entries.len() ==> !ctx_lt((#[trigger] self@.text_entries[k]).context, ctx),
    {
        let ghost ts = self@.text_entries;
        let mut lo: usize = 0;
        let mut hi: usize = self.text_entries.len();
        while lo < hi
            invariant
                ts == self@.text_entries,
                ts.len() == self.text_entries@.len(),
                text_sorted(ts),
                0 <= lo <= hi <= ts.len(),
                forall|k: int| 0 <= k < lo ==> ctx_lt((#[trigger] ts[k]).context, ctx),
                forall|k: int| hi <= k < ts.len() ==> !ctx_lt((#[trigger] ts[k]).context, ctx),
            decreases hi - lo,
        {
            let mid = lo + (hi - lo) / 2;
            assert(self.text_entries@[mid as int]@ == ts[mid as int]);
            let c = compare_contexts(&self.text_entries[mid].context, &ctx);
            if c == KeyOrder::Less {
                proof {
                    assert forall|k: int| 0 <= k <= mid implies ctx_lt((#[trigger] ts[k]).context, ctx) by {
                        lemma_text_sorted_ctx(ts, k, mid as int);
                        lemma_ctx_order(ts[k].context, ts[mid as int].context, ctx);
                    }
                }
                lo = mid + 1;
            } else {
                proof {
                    assert forall|k: int| mid <= k < ts.len() implies !ctx_lt((#[trigger] ts[k]).context, ctx) by {
                        lemma_text_sorted_ctx(ts, mid as int, k);
                        lemma_ctx_order(ctx, ts[mid as int].context, ts[k].context);
                        lemma_ctx_order(ts[k].context, ctx, ts[mid as int].context);
                        lemma_ctx_order(ts[mid as int].context, ctx, ctx);
                    }
                }
                hi = mid;
            }
        }
        lo
    }

    fn collect_text_scan(&self, ctx: PersonalContext, limit: usize, out: &mut Vec<PersonalAutosuggestTextSuggestion>)
        requires
            text_sorted(self@.text_entries),
        ensures
            final(out)@ == scan_texts(self@.text_entries, 0, ctx, limit as int, self@.config.min_count, old(out)@),
    {
        let ghost ts = self@.text_entries;
        let min_count = self.config.min_count;
        let start = self.text_lower_bound(ctx);
        proof {
            assert forall|k: int| 0 <= k < start implies (#[trigger] ts[k]).context != ctx by {
                lemma_ctx_order(ctx, ctx, ctx);
            }
            lemma_scan_texts_skip(ts, 0, start as int, ctx, limit as int, min_count, old(out)@);
        }
        let mut i = start;
        while i < self.text_entries.len() && self.text_entries[i].context == ctx
            invariant
                ts == self@.text_entries,
                ts.len() == self.text_entries@.len(),
                text_sorted(ts),
                min_count == self@.config.min_count,
                start <= i <= ts.len(),
                forall|k: int| start <= k < ts.len() ==> !ctx_lt((#[trigger] ts[k]).context, ctx),
                scan_texts(ts, i as int, ctx, limit as int, min_count, out@) == scan_texts(
                    ts,
                    0,
                    ctx,
                    limit as int,
                    min_count,
                    old(out)@,
                ),
            decreases ts.len() - i,
        {
            let e = &self.text_entries[i];
            assert(e@ == ts[i as int]);
            if e.count >= min_count && !self.text_in_output(out, e.text.as_str()) {
                insert_text_bounded_exec(out, text_suggestion(e, i), limit);
            }
            i = i + 1;
        }
        proof {
            if i < ts.len() {
                assert(self.text_entries@[i as int]@ == ts[i as int]);
                assert forall|k: int| i <= k < ts.len() implies (#[trigger] ts[k]).context != ctx by {
                    lemma_text_sorted_ctx(ts, i as int, k);
                    assert(!ctx_lt(ts[i as int].context, ctx));
                    lemma_ctx_order(ts[i as int].context, ctx, ctx);
                    lemma_ctx_order(ctx, ts[i as int].context, ts[k].context);
                }
                lemma_scan_texts_skip(ts, i as int, ts.len() as int, ctx, limit as int, min_count, out@);
            }
        }
    }

    fn text_cache_collect_exec(&self, limit: usize, out: &mut Vec<PersonalAutosuggestTextSuggestion>)
        ensures
            final(out)@ == text_cache_collect(
                self@.text_entries,
                self.text_unigram_cache@,
                0,
                limit as int,
                self@.config.min_count,
                old(out)@,
            ),
    {
        let ghost ts = self@.text_entries;
        let ghost c = self.text_unigram_cache@;
        let min_count = self.config.min_count;
        let mut i: usize = 0;
        while i < self.text_unigram_cache.len() && out.len() < limit
            invariant
                ts == self@.text_entries,
                ts.len() == self.text_entries@.len(),
                c == self.text_unigram_cache@,
                min_count == self@.config.min_count,
                i <= c.len(),
                text_cache_collect(ts, c, i as int, limit as int, min_count, out@) == text_cache_collect(
                    ts,
                    c,
                    0,
                    limit as int,
                    min_count,
                    old(out)@,
                ),
            decreases c.len() - i,
        {
            let sg = self.text_unigram_cache[i];
            let mut skip = sg.count < min_count;
            if !skip && sg.entry_index < self.text_entries.len() {
                assert(self.text_entries@[sg.entry_index as int]@ == ts[sg.entry_index as int]);
                skip = self.text_in_output(out, self.text_entries[sg.entry_index].text.as_str());
            }
            if !skip {
                out.push(sg);
            }
            i = i + 1;
        }
    }

    fn collect_text_for_context(&self, ctx: PersonalContext, limit: usize, out: &mut Vec<PersonalAutosuggestTextSuggestion>)
        requires
            text_sorted(self@.text_entries),
        ensures
            final(out)@ == collect_texts(
                self@.text_entries,
                self.text_unigram_cache@,
                ctx,
                limit as int,
                self@.config.min_count,
                old(out)@,
            ),
    {
        if ctx.len == 0 {
            self.text_cache_collect_exec(limit, out);
            if out.len() >= limit || limit <= PERSONAL_UNIGRAM_CACHE_LIMIT {
                return ;
            }
        }
        self.collect_text_scan(ctx, limit, out);
    }

    /// The personal words to suggest after a personal context, found as
    /// [`Self::suggest_token_ids_for_personal_context_into`] finds ids; a
    /// word is suggested once, by its text.
    pub fn suggest_text_for_personal_context_into(
        &self,
        context: PersonalAutosuggestContext,
        limit: usize,
        output: &mut Vec<PersonalAutosuggestTextSuggestion>,
    )
        requires
            self.wf(),
        ensures
            final(output)@ == collect_texts_keys(
                self@.text_entries,
                text_cache(self@.text_entries),
                query_keys(context@),
                0,
                if limit < 1 {
                    1
                } else {
                    limit as int
                },
                self@.config.min_count,
                Seq::empty(),
            ),
    {
        output.clear();
        let lim = if limit < 1 {
            1
        } else {
            limit
        };
        let ghost ts = self@.text_entries;
        let ghost cache = self.text_unigram_cache@;
        let ghost mc = self@.config.min_count;
        let ghost keys = query_keys(context@);
        let ghost goal = collect_texts_keys(ts, cache, keys, 0, lim as int, mc, Seq::empty());
        let start = context.is_sentence_start();
        let mut k: usize = 0;
        if start {
            assert(keys[0] == spec_sentence_start_ctx());
            assert(goal == collect_texts_keys(ts, cache, keys, 1, lim as int, mc, collect_texts(ts, cache, keys[0], lim as int, mc, output@)));
            self.collect_text_for_context(PersonalContext::sentence_start(), lim, output);
            k = 1;
            if output.len() >= lim {
                assert(collect_texts_keys(ts, cache, keys, 1, lim as int, mc, output@) == output@);
                return ;
            }
        }
        let ids = context.recent_context_ids();
        let usable = if ids.len() < 3 {
            ids.len()
        } else {
            3
        };
        let mut len = usable;
        while len >= 1
            invariant
                self.wf(),
                ts == self@.text_entries && cache == self.text_unigram_cache@ && mc == self@.config.min_count,
                keys == query_keys(context@),
                ids@ == ctx_ids(context@.ctx),
                usable == (if ids@.len() < 3 { ids@.len() as int } else { 3 }),
                len <= usable,
                k == (if start { 1int } else { 0 }) + (usable - len),
                keys.len() == (if start { 1int } else { 0 }) + usable + 1,
                start == context@.is_sentence_start(),
                lim >= 1,
                lim == (if limit < 1 { 1 } else { limit }),
                goal == collect_texts_keys(ts, cache, keys, 0, lim as int, mc, Seq::empty()),
                collect_texts_keys(ts, cache, keys, k as int, lim as int, mc, output@) == goal,
                output@.len() < lim,
            decreases len,
        {
            assert(keys[k as int] == spec_from_suffix(ids@, len as int));
            assert(collect_texts_keys(ts, cache, keys, k as int, lim as int, mc, output@) == collect_texts_keys(ts, cache, keys, k + 1, lim as int, mc, collect_texts(ts, cache, keys[k as int], lim as int, mc, output@)));
            self.collect_text_for_context(PersonalContext::from_suffix(ids.as_slice(), len), lim, output);
            k = k + 1;
            len = len - 1;
            if output.len() >= lim {
                assert(collect_texts_keys(ts, cache, keys, k as int, lim as int, mc, output@) == output@);
                return ;
            }
        }
        assert(keys[k as int] == spec_empty_ctx());
        assert(collect_texts_keys(ts, cache, keys, k as int, lim as int, mc, output@) == collect_texts_keys(ts, cache, keys, k + 1, lim as int, mc, collect_texts(ts, cache, keys[k as int], lim as int, mc, output@)));
        self.collect_text_for_context(PersonalContext::empty(), lim, output);
        assert(collect_texts_keys(ts, cache, keys, k + 1, lim as int, mc, output@) == output@);
    }

    /// [`Self::suggest_text_for_personal_context_into`] with the personal
    /// context derived from a static one.
    pub fn suggest_text_into(
        &self,
        context: AutosuggestContext,
        limit: usize,
        output: &mut Vec<PersonalAutosuggestTextSuggestion>,
    )
        requires
            self.wf(),
        ensures
            final(output)@ == collect_texts_keys(
                self@.text_entries,
                text_cache(self@.text_entries),
                query_keys(personal_of_static(context@)),
                0,
                if limit < 1 {
                    1
                } else {
                    limit as int
                },
                self@.config.min_count,
                Seq::empty(),
            ),
    {
        self.suggest_text_for_personal_context_into(PersonalAutosuggestContext::from_static(context), limit, output);
    }
}

/// A model fingerprint check between a store and a model: both stamped and
/// different is a mismatch.
pub open spec fn fingerprint_error(snapshot: u32, model: u32) -> Option<AutosuggestArtifactError> {
    if snapshot != 0 && model != 0 && snapshot != model {
        Some(AutosuggestArtifactError::ModelFingerprintMismatch { expected: model, actual: snapshot })
    } else {
        None
    }
}

/// The outcome of validating a store against a model of `vocab` words.
pub open spec fn validate_ids_v(v: PersonalView, vocab: int) -> Result<(), AutosuggestArtifactError> {
    match entries_error(v.entries, 0, vocab) {
        Some(x) => Err(AutosuggestArtifactError::InvalidTokenId(x)),
        None => match text_entries_error(v.text_entries, 0, vocab) {
            Some(x) => Err(AutosuggestArtifactError::InvalidTokenId(x)),
            None => Ok(()),
        },
    }
}

pub open spec fn validate_model_v(v: PersonalView, vocab: int, fingerprint: u32) -> Result<(), AutosuggestArtifactError> {
    match validate_ids_v(v, vocab) {
        Err(e) => Err(e),
        Ok(()) => match fingerprint_error(v.model_fingerprint, fingerprint) {
            Some(e) => Err(e),
            None => Ok(()),
        },
    }
}

/// Aging: every count is halved, entries that reach zero are dropped, and
/// the context-free cache is rebuilt from what is left.
pub open spec fn decay_v(v: PersonalView) -> PersonalView {
    PersonalView {
        entries: decayed(v.entries),
        text_entries: decayed_text(v.text_entries),
        unigram_cache: unigram_rebuild(decayed(v.entries)),
        ..v
    }
}

pub fn validate_personal_model_fingerprint(snapshot: u32, model: u32) -> (r: Result<(), AutosuggestArtifactError>)
    ensures
        match fingerprint_error(snapshot, model) {
            Some(e) => r == Err::<(), AutosuggestArtifactError>(e),
            None => r == Ok::<(), AutosuggestArtifactError>(()),
        },
{
    if snapshot != 0 && model != 0 && snapshot != model {
        return Err(AutosuggestArtifactError::ModelFingerprintMismatch { expected: model, actual: snapshot });
    }
    Ok(())
}

fn check_context_ids(c: &PersonalContext, vocab_size: usize) -> (r: Option<u32>)
    requires
        c.len <= 3,
    ensures
        r == first_bad_context_id(ctx_ids(*c), vocab_size as int),
{
    let ids = c.ids();
    let ghost s = ids@;
    assert(s.skip(0) =~= s);
    let mut i: usize = 0;
    while i < ids.len()
        invariant
            s == ids@,
            s == ctx_ids(*c),
            i <= s.len(),
            first_bad_context_id(s.skip(i as int), vocab_size as int) == first_bad_context_id(s, vocab_size as int),
        decreases s.len() - i,
    {
        let id = ids[i];
        proof {
            assert(s.skip(i as int)[0] == id);
            assert(s.skip(i as int).drop_first() =~= s.skip(i as int + 1));
        }
        if !(id >= PERSONAL_TEXT_CONTEXT_ID_MARKER || (id != 0 && id != AUTOSUGGEST_UNK_ID && (id as usize) < vocab_size)) {
            assert(!crate::personal_maint::valid_context_id(id, vocab_size as int));
            assert(s.skip(i as int).len() > 0);
            assert(first_bad_context_id(s.skip(i as int), vocab_size as int) == Some(id));
            return Some(id);
        }
        i = i + 1;
    }
    proof {
        assert(s.skip(i as int) =~= Seq::<u32>::empty());
    }
    None
}

impl PersonalAutosuggest {
    /// Checks every stored id against a model of `vocab_size` words: context
    /// ids must be vocabulary ids other than `<pad>`/`<unk>` (or private
    /// personal-word ids), targets must be word ids; the first bad id is
    /// reported.
    pub fn validate_token_ids(&self, vocab_size: usize) -> (r: Result<(), AutosuggestArtifactError>)
        requires
            self.wf(),
        ensures
            r == validate_ids_v(self@, vocab_size as int),
    {
        let ghost es = self@.entries;
        let ghost ts = self@.text_entries;
        let ghost vocab = vocab_size as int;
        let mut i: usize = 0;
        while i < self.entries.len()
            invariant
                self.wf(),
                es == self@.entries,
                es.len() == self.entries@.len(),
                i <= es.len(),
                entries_error(es, i as int, vocab) == entries_error(es, 0, vocab),
                vocab == vocab_size as int,
            decreases es.len() - i,
        {
            let e = self.entries[i];
            match check_context_ids(&e.context, vocab_size) {
                Some(x) => return Err(AutosuggestArtifactError::InvalidTokenId(x)),
                None => {},
            }
            if !(e.target_id > AUTOSUGGEST_UNK_ID && (e.target_id as usize) < vocab_size) {
                return Err(AutosuggestArtifactError::InvalidTokenId(e.target_id));
            }
            i = i + 1;
        }
        let mut j: usize = 0;
        while j < self.text_entries.len()
            invariant
                self.wf(),
                ts == self@.text_entries,
                es == self@.entries,
                ts.len() == self.text_entries@.len(),
                j <= ts.len(),
                entries_error(es, 0, vocab) is None,
                text_entries_error(ts, j as int, vocab) == text_entries_error(ts, 0, vocab),
                vocab == vocab_size as int,
            decreases ts.len() - j,
        {
            let e = &self.text_entries[j];
            assert(e@ == ts[j as int]);
            match check_context_ids(&e.context, vocab_size) {
                Some(x) => {
                    assert(text_entries_error(ts, j as int, vocab) == Some(x));
                    return Err(AutosuggestArtifactError::InvalidTokenId(x));
                },
                None => {},
            }
            j = j + 1;
        }
        Ok(())
    }

    /// [`Self::validate_token_ids`], then the model fingerprint check.
    pub fn validate_for_model(&self, vocab_size: usize, model_fingerprint: u32) -> (r: Result<(), AutosuggestArtifactError>)
        requires
            self.wf(),
        ensures
            r == validate_model_v(self@, vocab_size as int, model_fingerprint),
    {
        match self.validate_token_ids(vocab_size) {
            Ok(()) => {},
            Err(e) => return Err(e),
        }
        validate_personal_model_fingerprint(self.model_fingerprint, model_fingerprint)
    }

    /// Records the model the store belongs to.
    pub fn stamp_model_fingerprint(&mut self, model_fingerprint: u32)
        requires
            old(self).wf(),
        ensures
            final(self).wf(),
            final(self)@ == (PersonalView { model_fingerprint, ..old(self)@ }),
    {
        self.model_fingerprint = model_fingerprint;
    }

    /// Forgets everything learned (the configuration and model fingerprint
    /// stay).
    pub fn clear(&mut self)
        ensures
            final(self).wf(),
            final(self)@ == (PersonalView {
                entries: Seq::empty(),
                text_entries: Seq::empty(),
                unigram_cache: Seq::empty(),
                tick: 0,
                ..old(self)@
            }),
    {
        self.entries.clear();
        self.text_entries.clear();
        self.unigram_cache.clear();
        self.text_unigram_cache.clear();
        self.tick = 0;
        assert(text_views(self.text_entries@) =~= Seq::<TextEntryView>::empty());
    }

    fn rebuild_unigram_cache(&mut self)
        ensures
            final(self)@ == (PersonalView { unigram_cache: unigram_rebuild(old(self)@.entries), ..old(self)@ }),
            final(self).text_unigram_cache@ == old(self).text_unigram_cache@,
    {
        let ghost es = self@.entries;
        self.unigram_cache.clear();
        let mut i: usize = 0;
        while i < self.entries.len()
            invariant
                es == self@.entries,
                es.len() == self.entries@.len(),
                self@ == (PersonalView { unigram_cache: self@.unigram_cache, ..old(self)@ }),
                self.text_unigram_cache@ == old(self).text_unigram_cache@,
                i <= es.len(),
                self.unigram_cache@ == unigram_rebuild_upto(es, i as int),
            decreases es.len() - i,
        {
            let e = self.entries[i];
            if e.context == PersonalContext::empty() {
                cache_insert_exec(&mut self.unigram_cache, entry_suggestion(e));
            }
            i = i + 1;
        }
    }

    /// Halves every count, drops entries that reach zero, and rebuilds the
    /// ranked caches.
    pub fn decay_counts(&mut self)
        requires
            old(self).wf(),
        ensures
            final(self).wf(),
            final(self)@ == decay_v(old(self)@),
    {
        let ghost v = self@;
        let ghost es = self@.entries;
        let ghost ts = self@.text_entries;
        let mut kept: Vec<PersonalEntry> = Vec::new();
        let mut i: usize = 0;
        while i < self.entries.len()
            invariant
                es == self.entries@,
                i <= es.len(),
                kept@ == decayed_upto(es, i as int),
            decreases es.len() - i,
        {
            let e = self.entries[i];
            if e.count / 2 > 0 {
                kept.push(PersonalEntry { count: e.count / 2, ..e });
            }
            i = i + 1;
        }
        let mut kept_text: Vec<PersonalTextEntry> = Vec::new();
        let mut j: usize = 0;
        while j < self.text_entries.len()
            invariant
                ts == text_views(self.text_entries@),
                j <= ts.len(),
                text_views(kept_text@) == decayed_text_upto(ts, j as int),
            decreases ts.len() - j,
        {
            let e = &self.text_entries[j];
            assert(e@ == ts[j as int]);
            if e.count / 2 > 0 {
                let h = PersonalTextEntry {
                    context: e.context,
                    text: e.text.clone(),
                    count: e.count / 2,
                    last_seen: e.last_seen,
                };
                let ghost before = kept_text@;
                kept_text.push(h);
                proof {
                    assert(text_views(kept_text@) =~= text_views(before).push(h@));
                }
            }
            j = j + 1;
        }
        proof {
            lemma_decayed_sorted(es, es.len() as int);
            lemma_decayed_text_sorted(ts, ts.len() as int);
            assert(ts.take(ts.len() as int) =~= ts);
        }
        self.entries = kept;
        self.text_entries = kept_text;
        self.rebuild_unigram_cache();
        self.rebuild_text_cache();
        proof {
            crate::personal_unigram::lemma_unigram_rebuild_all_ok(self@.entries);
        }
    }

    /// Bytes of the compact snapshot of this store.
    pub fn compact_snapshot_len(&self) -> (n: usize)
        requires
            self.wf(),
            snapshot_len_of(self@.entries.len() as int, self@.text_entries) <= usize::MAX,
        ensures
            n == snapshot_len_of(self@.entries.len() as int, self@.text_entries),
    {
        proof {
            lemma_text_total_nonneg(self@.text_entries);
        }
        let total = self.text_total_bytes();
        40 + 28 * self.entries.len() + 28 * self.text_entries.len() + total
    }

    pub fn heap_limit_bytes(&self) -> (n: usize)
        ensures
            n == sat_add(
                sat_add(
                    sat_mul(self@.config.max_entries as int, vstd::layout::size_of::<PersonalEntry>() as int),
                    sat_mul(
                        DEFAULT_PERSONAL_TEXT_AUTOSUGGEST_ENTRIES as int,
                        vstd::layout::size_of::<PersonalTextEntry>() as int,
                    ),
                ),
                PERSONAL_TEXT_TOTAL_MAX_BYTES as int,
            ),
    {
        self.config.heap_limit_bytes()
    }

    pub fn compact_snapshot_limit_bytes(&self) -> (n: usize)
        ensures
            n == sat_add(
                sat_add(40, sat_mul(self@.config.max_entries as int, 28)),
                DEFAULT_PERSONAL_TEXT_AUTOSUGGEST_ENTRIES * (28 + PERSONAL_TEXT_TOKEN_MAX_BYTES),
            ),
    {
        self.config.compact_snapshot_limit_bytes()
    }
}

impl Default for PersonalAutosuggest {
    fn default() -> (p: Self)
        ensures
            p.wf(),
            p@ == (PersonalView {
                config: PersonalAutosuggestConfig {
                    max_entries: crate::personal_types::DEFAULT_PERSONAL_AUTOSUGGEST_ENTRIES,
                    min_count: crate::personal_types::DEFAULT_PERSONAL_AUTOSUGGEST_MIN_COUNT,
                },
                entries: Seq::empty(),
                text_entries: Seq::empty(),
                unigram_cache: Seq::empty(),
                model_fingerprint: 0,
                tick: 0,
            }),
    {
        Self::new(PersonalAutosuggestConfig::default())
    }
}

/// Appends the little-endian encodings of `xs`.
fn push_words(out: &mut Vec<u8>, xs: &[u32])
    ensures
        final(out)@ == old(out)@ + words(xs@),
{
    let mut i: usize = 0;
    assert(old(out)@ + words(xs@.take(0)) =~= old(out)@);
    while i < xs.len()
        invariant
            i <= xs@.len(),
            out@ == old(out)@ + words(xs@.take(i as int)),
        decreases xs@.len() - i,
    {
        proof {
            assert(xs@.take(i as int + 1).drop_last() =~= xs@.take(i as int));
            assert(xs@.take(i as int + 1).last() == xs@[i as int]);
        }
        push_u32_le(out, xs[i]);
        assert(out@ =~= old(out)@ + words(xs@.take(i as int + 1)));
        i = i + 1;
    }
    assert(xs@.take(xs@.len() as int) =~= xs@);
}

fn push_bytes(out: &mut Vec<u8>, b: &[u8])
    ensures
        final(out)@ == old(out)@ + b@,
{
    let mut i: usize = 0;
    while i < b.len()
        invariant
            i <= b@.len(),
            out@ == old(out)@ + b@.take(i as int),
        decreases b@.len() - i,
    {
        out.push(b[i]);
        assert(out@ =~= old(out)@ + b@.take(i as int + 1));
        i = i + 1;
    }
    assert(b@.take(b@.len() as int) =~= b@);
}

impl PersonalAutosuggest {
    /// Builds a store from loaded contents.
    fn from_parts(
        config: PersonalAutosuggestConfig,
        entries: Vec<PersonalEntry>,
        text_entries: Vec<PersonalTextEntry>,
        model_fingerprint: u32,
        tick: u32,
    ) -> (p: Self)
        requires
            loaded_wf(entries@, text_views(text_entries@), config.max_entries as int),
        ensures
            p.wf(),
            p@ == (PersonalView {
                config,
                entries: entries@,
                text_entries: text_views(text_entries@),
                unigram_cache: unigram_rebuild(entries@),
                model_fingerprint,
                tick,
            }),
    {
        let mut p = PersonalAutosuggest {
            config,
            entries,
            text_entries,
            unigram_cache: Vec::new(),
            text_unigram_cache: Vec::new(),
            model_fingerprint,
            tick,
        };
        p.rebuild_unigram_cache();
        p.rebuild_text_cache();
        proof {
            crate::personal_unigram::lemma_unigram_rebuild_all_ok(p@.entries);
        }
        p
    }

    /// Loads a compact snapshot into a store with `config` (see
    /// [`parse_snapshot`]: the strongest transitions up to the cap, one per
    /// key; the newest tick becomes the store's tick).
    pub fn from_compact_bytes(config: PersonalAutosuggestConfig, bytes: &[u8]) -> (r: Result<Self, PersonalAutosuggestError>)
        requires
            bytes@.len() <= isize::MAX,
        ensures
            match parse_snapshot(bytes@, config.max_entries as int) {
                Ok((es, ts, fp, m)) => r matches Ok(p) && p.wf() && p@ == (PersonalView {
                    config,
                    entries: es,
                    text_entries: ts,
                    unigram_cache: unigram_rebuild(es),
                    model_fingerprint: fp,
                    tick: m,
                }),
                Err(e) => r matches Err(x) && x == e,
            },
    {
        match parse_snapshot_exec(bytes, config.max_entries) {
            Ok((entries, texts, fp, m)) => Ok(Self::from_parts(config, entries, texts, fp, m)),
            Err(e) => Err(e),
        }
    }

    /// Loads a snapshot for a model: the snapshot must parse, its ids must
    /// fit the model's vocabulary and its fingerprint must not belong to
    /// another model; the loaded store is stamped with the model's
    /// fingerprint.
    pub fn from_compact_bytes_for_model(
        config: PersonalAutosuggestConfig,
        bytes: &[u8],
        vocab_size: usize,
        model_fingerprint: u32,
    ) -> (r: Result<Self, PersonalAutosuggestSnapshotError>)
        requires
            bytes@.len() <= isize::MAX,
        ensures
            match parse_snapshot(bytes@, config.max_entries as int) {
                Ok((es, ts, fp, m)) => {
                    let v = PersonalView {
                        config,
                        entries: es,
                        text_entries: ts,
                        unigram_cache: unigram_rebuild(es),
                        model_fingerprint: fp,
                        tick: m,
                    };
                    match validate_model_v(v, vocab_size as int, model_fingerprint) {
                        Ok(()) => r matches Ok(p) && p.wf() && p@ == (PersonalView { model_fingerprint, ..v }),
                        Err(e) => r == Err::<Self, PersonalAutosuggestSnapshotError>(PersonalAutosuggestSnapshotError::Model(e)),
                    }
                },
                Err(e) => r == Err::<Self, PersonalAutosuggestSnapshotError>(PersonalAutosuggestSnapshotError::Snapshot(e)),
            },
    {
        let mut personal = match Self::from_compact_bytes(config, bytes) {
            Ok(p) => p,
            Err(e) => return Err(PersonalAutosuggestSnapshotError::Snapshot(e)),
        };
        match personal.validate_for_model(vocab_size, model_fingerprint) {
            Ok(()) => {},
            Err(e) => return Err(PersonalAutosuggestSnapshotError::Model(e)),
        }
        personal.stamp_model_fingerprint(model_fingerprint);
        Ok(personal)
    }

    /// Writes the compact snapshot of this store, stamped with
    /// `model_fingerprint`, into a reused buffer (cleared first).
    pub fn write_compact_bytes_with_model_fingerprint_into(&self, bytes: &mut Vec<u8>, model_fingerprint: u32)
        requires
            self.wf(),
        ensures
            final(bytes)@ == snapshot_bytes(self@.entries, self@.text_entries, self@.tick, model_fingerprint),
    {
        let ghost es = self@.entries;
        let ghost ts = self@.text_entries;
        bytes.clear();
        let magic: [u8; 16] = [0x4f, 0x42, 0x50, 0x45, 0x52, 0x53, 0x55, 0x47, 0x4c, 0x4d, 0x5f, 0x56, 0x31, 0, 0, 0];
        assert(magic@ =~= personal_magic());
        push_bytes(bytes, &magic);
        let header: [u32; 6] = [
            PERSONAL_VERSION,
            self.tick,
            self.entries.len() as u32,
            model_fingerprint,
            self.text_entries.len() as u32,
            0,
        ];
        assert(header@ =~= seq![PERSONAL_VERSION, self@.tick, es.len() as u32, model_fingerprint, ts.len() as u32, 0u32]);
        push_words(bytes, &header);
        let ghost head = bytes@;
        assert(entries_bytes(es.take(0)) =~= Seq::<u8>::empty());
        let mut i: usize = 0;
        while i < self.entries.len()
            invariant
                es == self@.entries,
                es.len() == self.entries@.len(),
                i <= es.len(),
                bytes@ == head + entries_bytes(es.take(i as int)),
            decreases es.len() - i,
        {
            let e = self.entries[i];
            let w: [u32; 7] = [
                e.context.len as u32,
                e.context.id0,
                e.context.id1,
                e.context.id2,
                e.target_id,
                e.count as u32,
                e.last_seen,
            ];
            assert(w@ =~= entry_words(e));
            proof {
                assert(es.take(i as int + 1).drop_last() =~= es.take(i as int));
                assert(es.take(i as int + 1).last() == e);
            }
            push_words(bytes, &w);
            assert(bytes@ =~= head + entries_bytes(es.take(i as int + 1)));
            i = i + 1;
        }
        assert(es.take(es.len() as int) =~= es);
        let ghost mid = bytes@;
        assert(texts_bytes(ts.take(0)) =~= Seq::<u8>::empty());
        let mut j: usize = 0;
        while j < self.text_entries.len()
            invariant
                ts == self@.text_entries,
                ts.len() == self.text_entries@.len(),
                j <= ts.len(),
                bytes@ == mid + texts_bytes(ts.take(j as int)),
            decreases ts.len() - j,
        {
            let e = &self.text_entries[j];
            assert(e@ == ts[j as int]);
            let tb = e.text.as_str().as_bytes();
            let w: [u32; 7] = [
                e.context.len as u32,
                e.context.id0,
                e.context.id1,
                e.context.id2,
                e.count as u32,
                e.last_seen,
                tb.len() as u32,
            ];
            proof {
                assert(ts.take(j as int + 1).drop_last() =~= ts.take(j as int));
                assert(ts.take(j as int + 1).last() == e@);
            }
            let ghost before = bytes@;
            push_words(bytes, &w);
            push_bytes(bytes, tb);
            assert(w@ =~= seq![
                e@.context.len as u32,
                e@.context.id0,
                e@.context.id1,
                e@.context.id2,
                e@.count as u32,
                e@.last_seen,
                text_bytes(e@.text).len() as u32,
            ]);
            assert(bytes@ =~= before + text_entry_bytes(e@));
            assert(bytes@ =~= mid + texts_bytes(ts.take(j as int + 1)));
            j = j + 1;
        }
        assert(ts.take(ts.len() as int) =~= ts);
    }

    /// Writes the compact snapshot with the store's own fingerprint.
    pub fn write_compact_bytes_into(&self, bytes: &mut Vec<u8>)
        requires
            self.wf(),
        ensures
            final(bytes)@ == snapshot_bytes(self@.entries, self@.text_entries, self@.tick, self@.model_fingerprint),
    {
        self.write_compact_bytes_with_model_fingerprint_into(bytes, self.model_fingerprint);
    }

    /// The compact snapshot with the store's own fingerprint.
    pub fn to_compact_bytes(&self) -> (b: Vec<u8>)
        requires
            self.wf(),
        ensures
            b@ == snapshot_bytes(self@.entries, self@.text_entries, self@.tick, self@.model_fingerprint),
    {
        let mut bytes: Vec<u8> = Vec::new();
        self.write_compact_bytes_into(&mut bytes);
        bytes
    }
}

impl PersonalAutosuggest {
    /// Grows the transition buffer in small blocks (16 first, then doubling)
    /// up to the configured cap, so a new store does not reserve its cap.
    fn ensure_entry_capacity_for_insert(&mut self)
        ensures
            final(self)@ == old(self)@,
            final(self).entries@ == old(self).entries@,
            final(self).text_entries@ == old(self).text_entries@,
            final(self).text_unigram_cache@ == old(self).text_unigram_cache@,
    {
        let cap = vec_capacity(&self.entries);
        if self.entries.len() < cap || self.config.max_entries == 0 {
            return ;
        }
        let grown = if cap == 0 {
            PERSONAL_INITIAL_ENTRY_CAPACITY
        } else if cap > usize::MAX / 2 {
            usize::MAX
        } else {
            cap * 2
        };
        let target = if self.config.max_entries < grown {
            self.config.max_entries
        } else {
            grown
        };
        reserve_to(&mut self.entries, target);
    }

    fn ensure_text_entry_capacity_for_insert(&mut self)
        ensures
            final(self)@ == old(self)@,
            final(self).entries@ == old(self).entries@,
            final(self).text_entries@ == old(self).text_entries@,
            final(self).text_unigram_cache@ == old(self).text_unigram_cache@,
    {
        let cap = vec_capacity(&self.text_entries);
        if self.text_entries.len() < cap {
            return ;
        }
        let grown = if cap == 0 {
            PERSONAL_TEXT_INITIAL_ENTRY_CAPACITY
        } else if cap > usize::MAX / 2 {
            usize::MAX
        } else {
            cap * 2
        };
        let target = if DEFAULT_PERSONAL_TEXT_AUTOSUGGEST_ENTRIES < grown {
            DEFAULT_PERSONAL_TEXT_AUTOSUGGEST_ENTRIES
        } else {
            grown
        };
        reserve_to(&mut self.text_entries, target);
    }

    /// Heap bytes held: the transition and personal-word buffers by their
    /// capacities, plus each word's text capacity (saturating). Capacities
    /// are whatever the allocator gave, each at least the length in use.
    pub fn estimated_heap_bytes(&self) -> (n: usize)
        requires
            self.wf(),
        ensures
            exists|c1: int, c2: int, t: int|
                c1 >= self@.entries.len() && c2 >= self@.text_entries.len() && t >= text_total(self@.text_entries)
                    && n == sat_add(
                    sat_add(
                        sat_mul(c1, vstd::layout::size_of::<PersonalEntry>() as int),
                        sat_mul(c2, vstd::layout::size_of::<PersonalTextEntry>() as int),
                    ),
                    t,
                ),
    {
        let ghost ts = self@.text_entries;
        let c1 = vec_capacity(&self.entries);
        let c2 = vec_capacity(&self.text_entries);
        let mut t: usize = 0;
        let mut i: usize = 0;
        while i < self.text_entries.len()
            invariant
                ts == self@.text_entries,
                ts.len() == self.text_entries@.len(),
                text_bounded(ts),
                i <= ts.len(),
                t >= text_total(ts.take(i as int)),
            decreases ts.len() - i,
        {
            proof {
                lemma_text_total_take(ts, i as int);
            }
            assert(self.text_entries@[i as int]@ == ts[i as int]);
            let c = string_capacity(&self.text_entries[i].text);
            t = crate::personal_types::saturating_add_usize(t, c);
            proof {
                lemma_text_total_nonneg(ts.take(i as int + 1));
                crate::personal_text::lemma_text_total_concat(ts.take(i as int), seq![ts[i as int]]);
                assert(ts.take(i as int + 1) =~= ts.take(i as int) + seq![ts[i as int]]);
                crate::personal_text::lemma_text_total_single(ts[i as int]);
                assert(text_total(ts.take(i as int + 1)) <= PERSONAL_TEXT_TOTAL_MAX_BYTES) by {
                    assert(ts =~= ts.take(i as int + 1) + ts.skip(i as int + 1));
                    crate::personal_text::lemma_text_total_concat(ts.take(i as int + 1), ts.skip(i as int + 1));
                    lemma_text_total_nonneg(ts.skip(i as int + 1));
                }
            }
            i = i + 1;
        }
        assert(ts.take(ts.len() as int) =~= ts);
        let a = crate::personal_types::saturating_mul_usize(c1, core::mem::size_of::<PersonalEntry>());
        let b = crate::personal_types::saturating_mul_usize(c2, core::mem::size_of::<PersonalTextEntry>());
        let r = crate::personal_types::saturating_add_usize(crate::personal_types::saturating_add_usize(a, b), t);
        assert(c1 >= self@.entries.len() && c2 >= ts.len() && t >= text_total(ts));
        r
    }
}

impl PersonalAutosuggest {
    /// How many transitions the store holds without reallocating (at least
    /// its length; the exact value is the allocator's).
    pub fn entry_capacity(&self) -> (c: usize)
        ensures
            c >= self@.entries.len(),
    {
        vec_capacity(&self.entries)
    }
}

/// Every store's context-free suggestion cache holds at most
/// [`PERSONAL_UNIGRAM_CACHE_LIMIT`] suggestions, ranked, one per word, and
/// each is the suggestion of a context-free entry the store holds.
pub proof fn lemma_unigram_cache_bounded_and_ranked(p: &PersonalAutosuggest)
    requires
        p.wf(),
    ensures
        crate::personal_unigram::unigram_cache_ok(p@.unigram_cache, p@.entries),
{
}
} // verus!
