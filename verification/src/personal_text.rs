//! Order, caps and learning events of the personal-word entries.

use vstd::prelude::*;
use crate::bytes::{lex_lt, lemma_lex_lt_irreflexive, lemma_lex_lt_transitive, lemma_lex_lt_trichotomy};
use crate::candidate::{is_first, first_index};
use crate::personal_types::{
    ctx_lt, spec_is_personal_text, text_bytes, text_entry_stronger, text_key_lt, PersonalContext,
    TextEntryView, DEFAULT_PERSONAL_TEXT_AUTOSUGGEST_ENTRIES, PERSONAL_TEXT_TOKEN_MAX_BYTES,
    PERSONAL_TEXT_TOTAL_MAX_BYTES,
};

verus! {

pub open spec fn text_key_below(e: TextEntryView, ctx: PersonalContext, t: Seq<char>) -> bool {
    ctx_lt(e.context, ctx) || (e.context == ctx && lex_lt(text_bytes(e.text), text_bytes(t)))
}

pub open spec fn text_not_below(ctx: PersonalContext, t: Seq<char>) -> spec_fn(TextEntryView) -> bool {
    |e: TextEntryView| !text_key_below(e, ctx, t)
}

/// Where the key (ctx, text) is, or would be inserted.
pub open spec fn text_pos(ts: Seq<TextEntryView>, ctx: PersonalContext, t: Seq<char>) -> int {
    first_index(ts, text_not_below(ctx, t))
}

pub open spec fn has_text_at(ts: Seq<TextEntryView>, p: int, ctx: PersonalContext, t: Seq<char>) -> bool {
    0 <= p < ts.len() && ts[p].context == ctx && ts[p].text == t
}

pub open spec fn text_sorted(ts: Seq<TextEntryView>) -> bool {
    forall|i: int, j: int| 0 <= i < j < ts.len() ==> text_key_lt(#[trigger] ts[i], #[trigger] ts[j])
}

/// Total bytes of the texts of `ts`.
pub open spec fn text_total(ts: Seq<TextEntryView>) -> int
    decreases ts.len(),
{
    if ts.len() == 0 {
        0
    } else {
        text_total(ts.drop_last()) + text_bytes(ts.last().text).len()
    }
}

/// The personal-word part of the store is within its fixed caps.
pub open spec fn text_bounded(ts: Seq<TextEntryView>) -> bool {
    &&& ts.len() <= DEFAULT_PERSONAL_TEXT_AUTOSUGGEST_ENTRIES
    &&& text_total(ts) <= PERSONAL_TEXT_TOTAL_MAX_BYTES
    &&& forall|i: int| 0 <= i < ts.len() ==> spec_is_personal_text(#[trigger] ts[i].text)
    &&& forall|i: int| 0 <= i < ts.len() ==> (#[trigger] ts[i]).context.len <= 3
}

/// The first of the weakest among `ts[..n]`.
pub open spec fn weakest_text_upto(ts: Seq<TextEntryView>, n: int) -> int
    decreases n,
{
    if n <= 1 {
        0
    } else {
        let w = weakest_text_upto(ts, n - 1);
        if text_entry_stronger(ts[w], ts[n - 1]) {
            n - 1
        } else {
            w
        }
    }
}

pub open spec fn weakest_text(ts: Seq<TextEntryView>) -> int {
    weakest_text_upto(ts, ts.len() as int)
}

/// A new word fits without eviction.
pub open spec fn can_insert_text(ts: Seq<TextEntryView>, t: Seq<char>) -> bool {
    ts.len() < DEFAULT_PERSONAL_TEXT_AUTOSUGGEST_ENTRIES && text_total(ts) + text_bytes(t).len()
        <= PERSONAL_TEXT_TOTAL_MAX_BYTES
}

/// A new word fits in place of entry `w`.
pub open spec fn can_replace_text(ts: Seq<TextEntryView>, w: int, t: Seq<char>) -> bool {
    text_total(ts) - text_bytes(ts[w].text).len() + text_bytes(t).len() <= PERSONAL_TEXT_TOTAL_MAX_BYTES
}

/// One learning event for the personal word `t` after `ctx`: a known key
/// gains `weight` (saturating) and the tick; a new key is inserted while the
/// entry and byte caps allow, or replaces the first weakest entry when it is
/// stronger and the bytes still fit; otherwise nothing changes.
pub open spec fn observe_text_key_s(
    ts: Seq<TextEntryView>,
    tick: u32,
    ctx: PersonalContext,
    t: Seq<char>,
    weight: u16,
) -> Seq<TextEntryView> {
    let p = text_pos(ts, ctx, t);
    let fresh = TextEntryView { context: ctx, text: t, count: weight, last_seen: tick };
    if has_text_at(ts, p, ctx, t) {
        let c = if ts[p].count + weight > u16::MAX {
            u16::MAX
        } else {
            (ts[p].count + weight) as u16
        };
        ts.update(p, TextEntryView { count: c, last_seen: tick, ..ts[p] })
    } else if can_insert_text(ts, t) {
        ts.insert(p, fresh)
    } else if ts.len() > 0 && text_entry_stronger(fresh, ts[weakest_text(ts)]) && can_replace_text(
        ts,
        weakest_text(ts),
        t,
    ) {
        let ts1 = ts.remove(weakest_text(ts));
        ts1.insert(text_pos(ts1, ctx, t), fresh)
    } else {
        ts
    }
}

pub proof fn lemma_text_bytes_injective(a: Seq<char>, b: Seq<char>)
    ensures
        text_bytes(a) == text_bytes(b) ==> a == b,
{
    vstd::utf8::encode_utf8_decode_utf8(a);
    vstd::utf8::encode_utf8_decode_utf8(b);
}

pub proof fn lemma_text_key_order(a: TextEntryView, b: TextEntryView, c: TextEntryView)
    ensures
        text_key_lt(a, b) && text_key_lt(b, c) ==> text_key_lt(a, c),
        !text_key_lt(a, a),
        !text_key_lt(a, b) && !text_key_lt(b, a) ==> a.context == b.context && a.text == b.text,
        text_key_lt(a, b) ==> !text_key_lt(b, a),
{
    let (x, y, z) = (text_bytes(a.text), text_bytes(b.text), text_bytes(c.text));
    lemma_lex_lt_irreflexive(x);
    lemma_lex_lt_trichotomy(x, y);
    lemma_text_bytes_injective(a.text, b.text);
    if lex_lt(x, y) && lex_lt(y, z) {
        lemma_lex_lt_transitive(x, y, z);
    }
}

pub proof fn lemma_text_probe_order(a: TextEntryView, b: TextEntryView, ctx: PersonalContext, t: Seq<char>)
    ensures
        text_key_lt(a, b) && text_key_below(b, ctx, t) ==> text_key_below(a, ctx, t),
        text_key_lt(a, b) && !text_key_below(a, ctx, t) ==> !text_key_below(b, ctx, t) && !(
        b.context == ctx && b.text == t),
        text_key_lt(a, b) && b.context == ctx && b.text == t ==> text_key_below(a, ctx, t),
{
    let (x, y, z) = (text_bytes(a.text), text_bytes(b.text), text_bytes(t));
    lemma_lex_lt_irreflexive(y);
    lemma_lex_lt_trichotomy(x, z);
    lemma_lex_lt_trichotomy(y, z);
    lemma_text_bytes_injective(a.text, t);
    if lex_lt(x, y) && lex_lt(y, z) {
        lemma_lex_lt_transitive(x, y, z);
    }
    if lex_lt(z, x) && lex_lt(x, y) {
        lemma_lex_lt_transitive(z, x, y);
    }
}

pub proof fn lemma_text_first_exists(s: Seq<TextEntryView>, p: spec_fn(TextEntryView) -> bool)
    ensures
        is_first(s, p, first_index(s, p)),
{
    crate::personal::lemma_first_index_exists(s, p);
}

/// Inserting a new key at its position keeps the entries sorted.
pub proof fn lemma_text_insert_sorted(ts: Seq<TextEntryView>, e: TextEntryView)
    requires
        text_sorted(ts),
        !has_text_at(ts, text_pos(ts, e.context, e.text), e.context, e.text),
    ensures
        text_sorted(ts.insert(text_pos(ts, e.context, e.text), e)),
        0 <= text_pos(ts, e.context, e.text) <= ts.len(),
{
    let p = text_pos(ts, e.context, e.text);
    let pr = text_not_below(e.context, e.text);
    lemma_text_first_exists(ts, pr);
    let r = ts.insert(p, e);
    assert forall|i: int, j: int| 0 <= i < j < r.len() implies text_key_lt(#[trigger] r[i], #[trigger] r[j]) by {
        if j < p {
            assert(r[i] == ts[i] && r[j] == ts[j]);
        } else if j == p {
            assert(r[i] == ts[i]);
            assert(!pr(ts[i]));
        } else if i == p {
            assert(r[j] == ts[j - 1]);
            assert(pr(ts[p]));
            if j - 1 > p {
                assert(text_key_lt(ts[p], ts[j - 1]));
                lemma_text_probe_order(ts[p], ts[j - 1], e.context, e.text);
            }
            lemma_text_bytes_injective(ts[j - 1].text, e.text);
            lemma_lex_lt_trichotomy(text_bytes(ts[j - 1].text), text_bytes(e.text));
        } else if i < p {
            assert(r[i] == ts[i] && r[j] == ts[j - 1]);
        } else {
            assert(r[i] == ts[i - 1] && r[j] == ts[j - 1]);
        }
    }
}

pub proof fn lemma_text_remove_sorted(ts: Seq<TextEntryView>, w: int)
    requires
        text_sorted(ts),
        0 <= w < ts.len(),
    ensures
        text_sorted(ts.remove(w)),
{
    let r = ts.remove(w);
    assert forall|i: int, j: int| 0 <= i < j < r.len() implies text_key_lt(#[trigger] r[i], #[trigger] r[j]) by {
        let a = if i < w { i } else { i + 1 };
        let b = if j < w { j } else { j + 1 };
        assert(r[i] == ts[a] && r[j] == ts[b]);
    }
}

pub proof fn lemma_text_update_sorted(ts: Seq<TextEntryView>, p: int, e: TextEntryView)
    requires
        text_sorted(ts),
        0 <= p < ts.len(),
        e.context == ts[p].context,
        e.text == ts[p].text,
    ensures
        text_sorted(ts.update(p, e)),
{
    let r = ts.update(p, e);
    assert forall|i: int, j: int| 0 <= i < j < r.len() implies text_key_lt(#[trigger] r[i], #[trigger] r[j]) by {
        assert(text_key_lt(ts[i], ts[j]));
    }
}

pub proof fn lemma_text_total_nonneg(ts: Seq<TextEntryView>)
    ensures
        text_total(ts) >= 0,
    decreases ts.len(),
{
    if ts.len() > 0 {
        lemma_text_total_nonneg(ts.drop_last());
    }
}

pub proof fn lemma_text_total_concat(a: Seq<TextEntryView>, b: Seq<TextEntryView>)
    ensures
        text_total(a + b) == text_total(a) + text_total(b),
    decreases b.len(),
{
    if b.len() == 0 {
        assert(a + b =~= a);
    } else {
        lemma_text_total_concat(a, b.drop_last());
        assert((a + b).drop_last() =~= a + b.drop_last());
        assert((a + b).last() == b.last());
    }
}

pub proof fn lemma_text_total_single(e: TextEntryView)
    ensures
        text_total(seq![e]) == text_bytes(e.text).len(),
{
    assert(seq![e].drop_last() =~= Seq::<TextEntryView>::empty());
    assert(text_total(Seq::<TextEntryView>::empty()) == 0);
    assert(seq![e].last() == e);
}

pub proof fn lemma_text_total_insert(ts: Seq<TextEntryView>, p: int, e: TextEntryView)
    requires
        0 <= p <= ts.len(),
    ensures
        text_total(ts.insert(p, e)) == text_total(ts) + text_bytes(e.text).len(),
{
    let (a, b) = (ts.take(p), ts.skip(p));
    assert(ts =~= a + b);
    assert(ts.insert(p, e) =~= a + seq![e] + b);
    lemma_text_total_concat(a, b);
    lemma_text_total_concat(a + seq![e], b);
    lemma_text_total_concat(a, seq![e]);
    lemma_text_total_single(e);
}

pub proof fn lemma_text_total_remove(ts: Seq<TextEntryView>, w: int)
    requires
        0 <= w < ts.len(),
    ensures
        text_total(ts.remove(w)) == text_total(ts) - text_bytes(ts[w].text).len(),
        text_total(ts) >= text_bytes(ts[w].text).len(),
{
    let r = ts.remove(w);
    assert(ts =~= r.insert(w, ts[w]));
    lemma_text_total_insert(r, w, ts[w]);
    lemma_text_total_nonneg(r);
}

pub proof fn lemma_text_total_update(ts: Seq<TextEntryView>, p: int, e: TextEntryView)
    requires
        0 <= p < ts.len(),
        e.text == ts[p].text,
    ensures
        text_total(ts.update(p, e)) == text_total(ts),
{
    let r = ts.remove(p);
    assert(ts =~= r.insert(p, ts[p]));
    assert(ts.update(p, e) =~= r.insert(p, e));
    lemma_text_total_insert(r, p, ts[p]);
    lemma_text_total_insert(r, p, e);
}

pub proof fn lemma_text_total_take(ts: Seq<TextEntryView>, i: int)
    requires
        0 <= i < ts.len(),
    ensures
        text_total(ts.take(i + 1)) == text_total(ts.take(i)) + text_bytes(ts[i].text).len(),
{
    assert(ts.take(i + 1).drop_last() =~= ts.take(i));
}

/// The weakest position lies among the first `n`.
pub proof fn lemma_weakest_text_bound(ts: Seq<TextEntryView>, n: int)
    requires
        n >= 1,
    ensures
        0 <= weakest_text_upto(ts, n) < n,
    decreases n,
{
    if n > 1 {
        lemma_weakest_text_bound(ts, n - 1);
    }
}

} // verus!
