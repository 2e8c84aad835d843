//! Laws of the personal store: what a snapshot gives back, and the bounds
//! its suggestions keep.

use vstd::prelude::*;
use vstd::seq_lib::{to_multiset_insert, to_multiset_build, to_multiset_contains, to_multiset_remove, to_multiset_len};
use crate::candidate::first_index;
use crate::personal::{entries_sorted, lemma_first_index_exists, lemma_key_order};
use crate::personal_snapshot::{
    cap, dedup_entries, dedup_texts, ins_entry, ins_text, keys_nondecreasing, loaded_entries,
    loaded_texts, preceded_entry, preceded_text, sort_entries, sort_texts, text_keys_nondecreasing,
    lemma_sort_entries_keys, lemma_sort_texts_keys,
};
use crate::personal_text::{text_sorted, lemma_text_key_order};
use crate::personal_types::{entry_key_lt, text_key_lt, text_bytes, PersonalEntry, TextEntryView};
use crate::bytes::{spec_u32_le, spec_u32_bytes, lemma_u32_bytes_round_trip, lemma_u32_le_concat, lemma_u32_le_prefix};
use crate::personal_snapshot::{
    parse_header, parse_entries, parse_entry, parse_text_at, parse_texts, parse_snapshot, records_end,
    personal_magic, snapshot_bytes, SnapHeader, PersonalAutosuggestError, PERSONAL_VERSION, text_fits,
    words, entry_words, entry_bytes, entries_bytes, text_entry_bytes, texts_bytes, max_u32,
};
use crate::personal_text::text_total;
use crate::personal_types::{
    spec_weight, spec_entry_suggestion, suggestion_precedes, CommitStrength, PersonalAutosuggestSuggestion, ctx_ids,
    PersonalContext, DEFAULT_PERSONAL_AUTOSUGGEST_MIN_COUNT,
};
use crate::personal_cache::{cache_collect, insert_bounded, preceded_by_suggestion, lemma_suggestion_order};
use crate::personal_context::PersonalContextView;
use crate::personal_query::{
    collect_ids, collect_ids_keys, collect_texts, collect_texts_keys, has_token, query_keys, scan_ids, scan_texts,
    text_cache_collect, text_in,
};
use crate::personal::{text_cache, text_cache_upto};
use crate::personal_unigram::{in_store, stored_as, unigram_cache_ok};
use crate::personal_cache::{insert_text_bounded, preceded_by_text_key};
use crate::personal_types::{
    spec_empty_ctx, spec_text_suggestion, text_key_precedes, PersonalAutosuggestTextSuggestion, PERSONAL_UNIGRAM_CACHE_LIMIT,
};
use crate::personal_types::{sat_add, sat_mul, DEFAULT_PERSONAL_TEXT_AUTOSUGGEST_ENTRIES, PERSONAL_TEXT_TOKEN_MAX_BYTES, PERSONAL_TEXT_TOTAL_MAX_BYTES};

verus! {

pub proof fn lemma_sort_entries_multiset(s: Seq<PersonalEntry>, k: bool)
    ensures
        sort_entries(s, k).to_multiset() == s.to_multiset(),
    decreases s.len(),
{
    if s.len() == 0 {
        assert(sort_entries(s, k) =~= s);
    } else {
        let t = s.drop_last();
        lemma_sort_entries_multiset(t, k);
        let acc = sort_entries(t, k);
        lemma_first_index_exists(acc, preceded_entry(s.last(), k));
        let q = first_index(acc, preceded_entry(s.last(), k));
        to_multiset_insert(acc, q, s.last());
        assert(t.push(s.last()) =~= s);
        to_multiset_build(t, s.last());
        assert(acc.insert(q, s.last()).to_multiset() =~= s.to_multiset());
    }
}

pub proof fn lemma_sort_texts_multiset(s: Seq<TextEntryView>, k: bool)
    ensures
        sort_texts(s, k).to_multiset() == s.to_multiset(),
    decreases s.len(),
{
    if s.len() == 0 {
        assert(sort_texts(s, k) =~= s);
    } else {
        let t = s.drop_last();
        lemma_sort_texts_multiset(t, k);
        let acc = sort_texts(t, k);
        lemma_first_index_exists(acc, preceded_text(s.last(), k));
        let q = first_index(acc, preceded_text(s.last(), k));
        to_multiset_insert(acc, q, s.last());
        assert(t.push(s.last()) =~= s);
        to_multiset_build(t, s.last());
        assert(acc.insert(q, s.last()).to_multiset() =~= s.to_multiset());
    }
}

/// A key-ordered rearrangement of strictly sorted entries is the entries
/// themselves.
pub proof fn lemma_sorted_unique(a: Seq<PersonalEntry>, b: Seq<PersonalEntry>)
    requires
        entries_sorted(a),
        keys_nondecreasing(b),
        a.to_multiset() == b.to_multiset(),
    ensures
        a == b,
    decreases a.len(),
{
    to_multiset_len(a);
    to_multiset_len(b);
    if a.len() == 0 {
        assert(a =~= b);
    } else {
        to_multiset_contains(b, a[0]);
        to_multiset_contains(a, a[0]);
        to_multiset_contains(a, b[0]);
        to_multiset_contains(b, b[0]);
        assert(a.contains(a[0]));
        assert(b.contains(a[0]));
        let j = choose|j: int| 0 <= j < b.len() && b[j] == a[0];
        if j > 0 {
            assert(!entry_key_lt(b[j], b[0]));
        }
        assert(!entry_key_lt(a[0], b[0]));
        assert(a.contains(b[0]));
        let i = choose|i: int| 0 <= i < a.len() && a[i] == b[0];
        if i > 0 {
            assert(entry_key_lt(a[0], a[i]));
        }
        assert(a[0] == b[0]);
        to_multiset_remove(a, 0);
        to_multiset_remove(b, 0);
        let a1 = a.remove(0);
        let b1 = b.remove(0);
        assert forall|x: int, y: int| 0 <= x < y < a1.len() implies entry_key_lt(#[trigger] a1[x], #[trigger] a1[y]) by {
            assert(a1[x] == a[x + 1] && a1[y] == a[y + 1]);
        }
        assert forall|x: int, y: int| 0 <= x < y < b1.len() implies !entry_key_lt(#[trigger] b1[y], #[trigger] b1[x]) by {
            assert(b1[x] == b[x + 1] && b1[y] == b[y + 1]);
        }
        lemma_sorted_unique(a1, b1);
        assert(a =~= b) by {
            assert forall|x: int| 0 <= x < a.len() implies a[x] == b[x] by {
                if x > 0 {
                    assert(a[x] == a1[x - 1] && b[x] == b1[x - 1]);
                }
            }
        }
    }
}

pub proof fn lemma_text_sorted_unique(a: Seq<TextEntryView>, b: Seq<TextEntryView>)
    requires
        text_sorted(a),
        text_keys_nondecreasing(b),
        a.to_multiset() == b.to_multiset(),
    ensures
        a == b,
    decreases a.len(),
{
    to_multiset_len(a);
    to_multiset_len(b);
    if a.len() == 0 {
        assert(a =~= b);
    } else {
        to_multiset_contains(b, a[0]);
        to_multiset_contains(a, a[0]);
        to_multiset_contains(a, b[0]);
        to_multiset_contains(b, b[0]);
        assert(a.contains(a[0]));
        assert(b.contains(a[0]));
        let j = choose|j: int| 0 <= j < b.len() && b[j] == a[0];
        lemma_text_key_order(a[0], a[0], a[0]);
        if j > 0 {
            assert(!text_key_lt(b[j], b[0]));
        }
        assert(!text_key_lt(a[0], b[0]));
        assert(a.contains(b[0]));
        let i = choose|i: int| 0 <= i < a.len() && a[i] == b[0];
        if i > 0 {
            assert(text_key_lt(a[0], a[i]));
        }
        assert(a[0] == b[0]);
        to_multiset_remove(a, 0);
        to_multiset_remove(b, 0);
        let a1 = a.remove(0);
        let b1 = b.remove(0);
        assert forall|x: int, y: int| 0 <= x < y < a1.len() implies text_key_lt(#[trigger] a1[x], #[trigger] a1[y]) by {
            assert(a1[x] == a[x + 1] && a1[y] == a[y + 1]);
        }
        assert forall|x: int, y: int| 0 <= x < y < b1.len() implies !text_key_lt(#[trigger] b1[y], #[trigger] b1[x]) by {
            assert(b1[x] == b[x + 1] && b1[y] == b[y + 1]);
        }
        lemma_text_sorted_unique(a1, b1);
        assert(a =~= b) by {
            assert forall|x: int| 0 <= x < a.len() implies a[x] == b[x] by {
                if x > 0 {
                    assert(a[x] == a1[x - 1] && b[x] == b1[x - 1]);
                }
            }
        }
    }
}

pub proof fn lemma_dedup_sorted_noop(s: Seq<PersonalEntry>)
    requires
        entries_sorted(s),
    ensures
        dedup_entries(s) == s,
    decreases s.len(),
{
    if s.len() > 0 {
        let t = s.drop_last();
        assert forall|x: int, y: int| 0 <= x < y < t.len() implies entry_key_lt(#[trigger] t[x], #[trigger] t[y]) by {
            assert(t[x] == s[x] && t[y] == s[y]);
        }
        lemma_dedup_sorted_noop(t);
        if t.len() > 0 {
            assert(entry_key_lt(s[s.len() - 2], s.last()));
            lemma_key_order(s.last(), s.last(), s.last());
        }
        assert(t.push(s.last()) =~= s);
    }
}

pub proof fn lemma_dedup_texts_noop(s: Seq<TextEntryView>)
    requires
        text_sorted(s),
    ensures
        dedup_texts(s) == s,
    decreases s.len(),
{
    if s.len() > 0 {
        let t = s.drop_last();
        assert forall|x: int, y: int| 0 <= x < y < t.len() implies text_key_lt(#[trigger] t[x], #[trigger] t[y]) by {
            assert(t[x] == s[x] && t[y] == s[y]);
        }
        lemma_dedup_texts_noop(t);
        if t.len() > 0 {
            assert(text_key_lt(s[s.len() - 2], s.last()));
            lemma_text_key_order(s.last(), s.last(), s.last());
        }
        assert(t.push(s.last()) =~= s);
    }
}

/// Loading strictly sorted entries within the cap keeps them as they are.
pub proof fn lemma_loaded_entries_identity(es: Seq<PersonalEntry>, max_entries: int)
    requires
        entries_sorted(es),
        es.len() <= max_entries,
    ensures
        loaded_entries(es, max_entries) == es,
{
    let s1 = sort_entries(es, false);
    lemma_sort_entries_multiset(es, false);
    to_multiset_len(es);
    to_multiset_len(s1);
    assert(cap(s1, max_entries) == s1);
    let s2 = sort_entries(s1, true);
    lemma_sort_entries_multiset(s1, true);
    lemma_sort_entries_keys(s1);
    lemma_sorted_unique(es, s2);
    lemma_dedup_sorted_noop(es);
}

/// Loading strictly sorted personal words within the entry cap keeps them.
pub proof fn lemma_loaded_texts_identity(ts: Seq<TextEntryView>)
    requires
        text_sorted(ts),
        ts.len() <= crate::personal_types::DEFAULT_PERSONAL_TEXT_AUTOSUGGEST_ENTRIES,
    ensures
        loaded_texts(ts) == ts,
{
    let s1 = sort_texts(ts, false);
    lemma_sort_texts_multiset(ts, false);
    to_multiset_len(ts);
    to_multiset_len(s1);
    assert(cap(s1, crate::personal_types::DEFAULT_PERSONAL_TEXT_AUTOSUGGEST_ENTRIES as int) == s1);
    let s2 = sort_texts(s1, true);
    lemma_sort_texts_multiset(s1, true);
    lemma_sort_texts_keys(s1);
    lemma_text_sorted_unique(ts, s2);
    lemma_dedup_texts_noop(ts);
}


pub proof fn lemma_words(xs: Seq<u32>)
    ensures
        words(xs).len() == 4 * xs.len(),
        forall|k: int| 0 <= k < xs.len() ==> spec_u32_le(words(xs), 4 * k) == #[trigger] xs[k],
    decreases xs.len(),
{
    if xs.len() > 0 {
        let t = xs.drop_last();
        lemma_words(t);
        lemma_u32_bytes_round_trip(xs.last());
        assert forall|k: int| 0 <= k < xs.len() implies spec_u32_le(words(xs), 4 * k) == #[trigger] xs[k] by {
            if k < t.len() {
                lemma_u32_le_prefix(words(t), spec_u32_bytes(xs.last()), 4 * k);
                assert(xs[k] == t[k]);
            } else {
                lemma_u32_le_concat(words(t), spec_u32_bytes(xs.last()), 0);
            }
        }
    }
}

/// Reading a word of `w` inside `p + w + r`.
pub proof fn lemma_read_middle(p: Seq<u8>, w: Seq<u8>, r: Seq<u8>, off: int)
    requires
        0 <= off,
        off + 4 <= w.len(),
    ensures
        spec_u32_le(p + w + r, p.len() + off) == spec_u32_le(w, off),
{
    lemma_u32_le_prefix(p + w, r, p.len() + off);
    lemma_u32_le_concat(p, w, off);
}

pub proof fn lemma_entries_bytes_concat(a: Seq<PersonalEntry>, b: Seq<PersonalEntry>)
    ensures
        entries_bytes(a + b) == entries_bytes(a) + entries_bytes(b),
    decreases b.len(),
{
    if b.len() == 0 {
        assert(a + b =~= a);
        assert(entries_bytes(a) + entries_bytes(b) =~= entries_bytes(a));
    } else {
        lemma_entries_bytes_concat(a, b.drop_last());
        assert((a + b).drop_last() =~= a + b.drop_last());
        assert((a + b).last() == b.last());
        assert(entries_bytes(a) + entries_bytes(b) =~= entries_bytes(a) + entries_bytes(b.drop_last()) + entry_bytes(b.last()));
    }
}

pub proof fn lemma_entries_bytes_len(es: Seq<PersonalEntry>)
    ensures
        entries_bytes(es).len() == 28 * es.len(),
    decreases es.len(),
{
    if es.len() > 0 {
        lemma_entries_bytes_len(es.drop_last());
        lemma_words(entry_words(es.last()));
    }
}

pub proof fn lemma_texts_bytes_concat(a: Seq<TextEntryView>, b: Seq<TextEntryView>)
    ensures
        texts_bytes(a + b) == texts_bytes(a) + texts_bytes(b),
    decreases b.len(),
{
    if b.len() == 0 {
        assert(a + b =~= a);
        assert(texts_bytes(a) + texts_bytes(b) =~= texts_bytes(a));
    } else {
        lemma_texts_bytes_concat(a, b.drop_last());
        assert((a + b).drop_last() =~= a + b.drop_last());
        assert((a + b).last() == b.last());
        assert(texts_bytes(a) + texts_bytes(b) =~= texts_bytes(a) + texts_bytes(b.drop_last()) + text_entry_bytes(b.last()));
    }
}

pub open spec fn text_header_words(t: TextEntryView) -> Seq<u32> {
    seq![
        t.context.len as u32,
        t.context.id0,
        t.context.id1,
        t.context.id2,
        t.count as u32,
        t.last_seen,
        text_bytes(t.text).len() as u32,
    ]
}

pub proof fn lemma_texts_bytes_len(ts: Seq<TextEntryView>)
    ensures
        texts_bytes(ts).len() == 28 * ts.len() + text_total(ts),
    decreases ts.len(),
{
    if ts.len() > 0 {
        lemma_texts_bytes_len(ts.drop_last());
        lemma_words(text_header_words(ts.last()));
    }
}

/// The newest tick among the personal words, starting from `m`.
pub open spec fn max_seen_texts(ts: Seq<TextEntryView>, m: u32) -> u32
    decreases ts.len(),
{
    if ts.len() == 0 {
        m
    } else {
        max_u32(max_seen_texts(ts.drop_last(), m), ts.last().last_seen)
    }
}

pub proof fn lemma_text_total_prefix(ts: Seq<TextEntryView>, j: int)
    requires
        0 <= j <= ts.len(),
    ensures
        text_total(ts.take(j)) <= text_total(ts),
{
    assert(ts =~= ts.take(j) + ts.skip(j));
    crate::personal_text::lemma_text_total_concat(ts.take(j), ts.skip(j));
    crate::personal_text::lemma_text_total_nonneg(ts.skip(j));
}

pub open spec fn written_header(n: int, tn: int, tick: u32, fp: u32) -> SnapHeader {
    SnapHeader {
        version: PERSONAL_VERSION,
        tick,
        count: n as u32,
        fingerprint: fp,
        text_count: tn as u32,
        slots: 3,
        entry_len: 28,
        header_len: 40,
    }
}

pub open spec fn header_words(n: int, tn: int, tick: u32, fp: u32) -> Seq<u32> {
    seq![PERSONAL_VERSION, tick, n as u32, fp, tn as u32, 0u32]
}

pub proof fn lemma_written_header(es: Seq<PersonalEntry>, ts: Seq<TextEntryView>, tick: u32, fp: u32)
    ensures
        parse_header(snapshot_bytes(es, ts, tick, fp)) == Ok::<SnapHeader, PersonalAutosuggestError>(
            written_header(es.len() as int, ts.len() as int, tick, fp),
        ),
{
    let m = personal_magic();
    let hw = header_words(es.len() as int, ts.len() as int, tick, fp);
    let h = words(hw);
    let rest = entries_bytes(es) + texts_bytes(ts);
    let b = snapshot_bytes(es, ts, tick, fp);
    assert(b =~= m + h + rest);
    lemma_words(hw);
    assert(b.subrange(0, 16) =~= m);
    assert forall|k: int| 0 <= k < 6 implies spec_u32_le(b, 16 + 4 * k) == #[trigger] hw[k] by {
        lemma_read_middle(m, h, rest, 4 * k);
    }
    assert(spec_u32_le(b, 16) == hw[0]);
    assert(spec_u32_le(b, 20) == hw[1]);
    assert(spec_u32_le(b, 24) == hw[2]);
    assert(spec_u32_le(b, 28) == hw[3]);
    assert(spec_u32_le(b, 32) == hw[4]);
    assert(spec_u32_le(b, 36) == hw[5]);
}

pub proof fn lemma_entries_bytes_split(es: Seq<PersonalEntry>, i: int)
    requires
        0 <= i < es.len(),
    ensures
        entries_bytes(es) == entries_bytes(es.take(i)) + entry_bytes(es[i]) + entries_bytes(es.skip(i + 1)),
        entries_bytes(es.take(i)).len() == 28 * i,
{
    assert(es =~= es.take(i) + (seq![es[i]] + es.skip(i + 1)));
    lemma_entries_bytes_concat(es.take(i), seq![es[i]] + es.skip(i + 1));
    lemma_entries_bytes_concat(seq![es[i]], es.skip(i + 1));
    assert(seq![es[i]].drop_last() =~= Seq::<PersonalEntry>::empty());
    assert(entries_bytes(Seq::<PersonalEntry>::empty()) =~= Seq::<u8>::empty());
    assert(entries_bytes(seq![es[i]]) =~= entry_bytes(es[i]));
    lemma_entries_bytes_len(es.take(i));
    assert(entries_bytes(es.take(i)) + (entry_bytes(es[i]) + entries_bytes(es.skip(i + 1))) =~= entries_bytes(
        es.take(i),
    ) + entry_bytes(es[i]) + entries_bytes(es.skip(i + 1)));
}

/// Where the words of record `j` lie in a written snapshot.
#[verifier::spinoff_prover]
pub proof fn lemma_entry_layout(es: Seq<PersonalEntry>, ts: Seq<TextEntryView>, tick: u32, fp: u32, j: int)
    requires
        0 <= j < es.len(),
    ensures
        forall|k: int|
            0 <= k < 7 ==> spec_u32_le(snapshot_bytes(es, ts, tick, fp), 40 + 28 * j + 4 * k)
                == #[trigger] entry_words(es[j])[k],
{
    let b = snapshot_bytes(es, ts, tick, fp);
    let e = es[j];
    lemma_entries_bytes_split(es, j);
    let hw = header_words(es.len() as int, ts.len() as int, tick, fp);
    let pre = personal_magic() + words(hw) + entries_bytes(es.take(j));
    let w = entry_bytes(e);
    let post = entries_bytes(es.skip(j + 1)) + texts_bytes(ts);
    assert(b =~= pre + w + post);
    lemma_words(hw);
    assert(pre.len() == 40 + 28 * j);
    lemma_words(entry_words(e));
    assert forall|k: int| 0 <= k < 7 implies spec_u32_le(b, 40 + 28 * j + 4 * k) == #[trigger] entry_words(e)[k] by {
        lemma_read_middle(pre, w, post, 4 * k);
    }
}

/// A record whose words stand at its place reads back as that entry.
#[verifier::spinoff_prover]
pub proof fn lemma_parse_entry_of(b: Seq<u8>, h: SnapHeader, j: int, e: PersonalEntry)
    requires
        0 <= j,
        h.header_len == 40,
        h.entry_len == 28,
        h.slots == 3,
        forall|k: int| 0 <= k < 7 ==> spec_u32_le(b, 40 + 28 * j + 4 * k) == #[trigger] entry_words(e)[k],
        crate::personal::entry_ok(e),
    ensures
        parse_entry(b, h, j) == Ok::<PersonalEntry, PersonalAutosuggestError>(e),
{
    let ew = entry_words(e);
    assert(h.header_len + j * h.entry_len == 40 + 28 * j);
    assert(spec_u32_le(b, 40 + 28 * j + 4 * 0) == ew[0]);
    assert(spec_u32_le(b, 40 + 28 * j + 4 * 1) == ew[1]);
    assert(spec_u32_le(b, 40 + 28 * j + 4 * 2) == ew[2]);
    assert(spec_u32_le(b, 40 + 28 * j + 4 * 3) == ew[3]);
    assert(spec_u32_le(b, 40 + 28 * j + 4 * 4) == ew[4]);
    assert(spec_u32_le(b, 40 + 28 * j + 4 * 5) == ew[5]);
    assert(spec_u32_le(b, 40 + 28 * j + 4 * 6) == ew[6]);
}

/// Record `j` of a written snapshot reads back as entry `j`.
pub proof fn lemma_written_entry(es: Seq<PersonalEntry>, ts: Seq<TextEntryView>, tick: u32, fp: u32, j: int)
    requires
        0 <= j < es.len(),
        crate::personal::entry_ok(es[j]),
    ensures
        parse_entry(snapshot_bytes(es, ts, tick, fp), written_header(es.len() as int, ts.len() as int, tick, fp), j)
            == Ok::<PersonalEntry, PersonalAutosuggestError>(es[j]),
{
    lemma_entry_layout(es, ts, tick, fp, j);
    lemma_parse_entry_of(
        snapshot_bytes(es, ts, tick, fp),
        written_header(es.len() as int, ts.len() as int, tick, fp),
        j,
        es[j],
    );
}

/// Records that each read back as their entry read back as the sequence.
pub proof fn lemma_parse_entries_of(b: Seq<u8>, h: SnapHeader, es: Seq<PersonalEntry>, i: int)
    requires
        0 <= i <= es.len(),
        forall|k: int| 0 <= k < es.len() ==> parse_entry(b, h, k) == Ok::<PersonalEntry, PersonalAutosuggestError>(#[trigger] es[k]),
    ensures
        parse_entries(b, h, i) == Ok::<Seq<PersonalEntry>, PersonalAutosuggestError>(es.take(i)),
    decreases i,
{
    if i == 0 {
        assert(es.take(0) =~= Seq::<PersonalEntry>::empty());
    } else {
        lemma_parse_entries_of(b, h, es, i - 1);
        assert(parse_entry(b, h, i - 1) == Ok::<PersonalEntry, PersonalAutosuggestError>(es[i - 1]));
        assert(es.take(i - 1).push(es[i - 1]) =~= es.take(i));
    }
}

pub proof fn lemma_written_entries(es: Seq<PersonalEntry>, ts: Seq<TextEntryView>, tick: u32, fp: u32)
    requires
        forall|k: int| 0 <= k < es.len() ==> crate::personal::entry_ok(#[trigger] es[k]),
    ensures
        parse_entries(
            snapshot_bytes(es, ts, tick, fp),
            written_header(es.len() as int, ts.len() as int, tick, fp),
            es.len() as int,
        ) == Ok::<Seq<PersonalEntry>, PersonalAutosuggestError>(es),
{
    let b = snapshot_bytes(es, ts, tick, fp);
    let h = written_header(es.len() as int, ts.len() as int, tick, fp);
    assert forall|k: int| 0 <= k < es.len() implies parse_entry(b, h, k) == Ok::<PersonalEntry, PersonalAutosuggestError>(
        #[trigger] es[k],
    ) by {
        lemma_written_entry(es, ts, tick, fp, k);
    }
    lemma_parse_entries_of(b, h, es, es.len() as int);
    assert(es.take(es.len() as int) =~= es);
}

pub proof fn lemma_texts_bytes_split(ts: Seq<TextEntryView>, j: int)
    requires
        0 <= j < ts.len(),
    ensures
        texts_bytes(ts) == texts_bytes(ts.take(j)) + text_entry_bytes(ts[j]) + texts_bytes(ts.skip(j + 1)),
{
    assert(ts =~= ts.take(j) + (seq![ts[j]] + ts.skip(j + 1)));
    lemma_texts_bytes_concat(ts.take(j), seq![ts[j]] + ts.skip(j + 1));
    lemma_texts_bytes_concat(seq![ts[j]], ts.skip(j + 1));
    assert(seq![ts[j]].drop_last() =~= Seq::<TextEntryView>::empty());
    assert(texts_bytes(Seq::<TextEntryView>::empty()) =~= Seq::<u8>::empty());
    assert(texts_bytes(seq![ts[j]]) =~= text_entry_bytes(ts[j]));
    assert(texts_bytes(ts.take(j)) + (text_entry_bytes(ts[j]) + texts_bytes(ts.skip(j + 1))) =~= texts_bytes(
        ts.take(j),
    ) + text_entry_bytes(ts[j]) + texts_bytes(ts.skip(j + 1)));
}

/// Where personal word `j` starts in a written snapshot.
pub open spec fn text_offset(n: int, ts: Seq<TextEntryView>, j: int) -> int {
    40 + 28 * n + texts_bytes(ts.take(j)).len()
}

/// Where the header and the bytes of personal word `j` lie in a written
/// snapshot.
#[verifier::rlimit(40)]
pub proof fn lemma_text_layout(es: Seq<PersonalEntry>, ts: Seq<TextEntryView>, tick: u32, fp: u32, j: int)
    requires
        0 <= j < ts.len(),
    ensures
        ({
            let b = snapshot_bytes(es, ts, tick, fp);
            let off = text_offset(es.len() as int, ts, j);
            let tb = text_bytes(ts[j].text);
            &&& off + 28 + tb.len() == text_offset(es.len() as int, ts, j + 1)
            &&& off + 28 + tb.len() <= b.len()
            &&& forall|k: int| 0 <= k < 7 ==> spec_u32_le(b, off + 4 * k) == #[trigger] text_header_words(ts[j])[k]
            &&& b.subrange(off + 28, off + 28 + tb.len()) == tb
        }),
{
    let b = snapshot_bytes(es, ts, tick, fp);
    let t = ts[j];
    let tb = text_bytes(t.text);
    lemma_texts_bytes_split(ts, j);
    let hw = header_words(es.len() as int, ts.len() as int, tick, fp);
    lemma_words(hw);
    lemma_entries_bytes_len(es);
    let pre = personal_magic() + words(hw) + entries_bytes(es) + texts_bytes(ts.take(j));
    let thw = text_header_words(t);
    let w = words(thw);
    let post = texts_bytes(ts.skip(j + 1));
    assert(text_entry_bytes(t) =~= w + tb);
    assert(b =~= pre + w + (tb + post));
    lemma_words(thw);
    let off = text_offset(es.len() as int, ts, j);
    assert(pre.len() == off);
    assert forall|k: int| 0 <= k < 7 implies spec_u32_le(b, off + 4 * k) == #[trigger] text_header_words(t)[k] by {
        lemma_read_middle(pre, w, tb + post, 4 * k);
    }
    assert(b.subrange(off + 28, off + 28 + tb.len()) =~= tb);
    assert(ts.take(j + 1) =~= ts.take(j).push(t));
    assert(ts.take(j).push(t).drop_last() =~= ts.take(j));
    assert(texts_bytes(ts.take(j + 1)) == texts_bytes(ts.take(j)) + text_entry_bytes(t));
}

/// A personal word whose header words and text bytes stand at `off` reads
/// back as that word.
#[verifier::rlimit(40)]
pub proof fn lemma_parse_text_at_of(b: Seq<u8>, off: int, t: TextEntryView)
    requires
        0 <= off,
        off + 28 + text_bytes(t.text).len() <= b.len() <= usize::MAX,
        forall|k: int| 0 <= k < 7 ==> spec_u32_le(b, off + 4 * k) == #[trigger] text_header_words(t)[k],
        b.subrange(off + 28, off + 28 + text_bytes(t.text).len()) == text_bytes(t.text),
        crate::personal_types::spec_is_personal_text(t.text),
        t.context.len <= 3,
        t.count >= 1,
    ensures
        parse_text_at(b, off) == Ok::<(TextEntryView, int), PersonalAutosuggestError>(
            (t, off + 28 + text_bytes(t.text).len()),
        ),
{
    let thw = text_header_words(t);
    let tb = text_bytes(t.text);
    assert(spec_u32_le(b, off + 4 * 0) == thw[0]);
    assert(spec_u32_le(b, off + 4 * 1) == thw[1]);
    assert(spec_u32_le(b, off + 4 * 2) == thw[2]);
    assert(spec_u32_le(b, off + 4 * 3) == thw[3]);
    assert(spec_u32_le(b, off + 4 * 4) == thw[4]);
    assert(spec_u32_le(b, off + 4 * 5) == thw[5]);
    assert(spec_u32_le(b, off + 4 * 6) == thw[6]);
    assert(tb.len() <= 72);
    vstd::utf8::encode_utf8_valid_utf8(t.text);
    vstd::utf8::encode_utf8_decode_utf8(t.text);
}

/// Personal word `j` of a written snapshot reads back, ending where the
/// next one starts.
pub proof fn lemma_written_text(es: Seq<PersonalEntry>, ts: Seq<TextEntryView>, tick: u32, fp: u32, j: int)
    requires
        0 <= j < ts.len(),
        crate::personal_types::spec_is_personal_text(ts[j].text),
        ts[j].context.len <= 3,
        ts[j].count >= 1,
        snapshot_bytes(es, ts, tick, fp).len() <= usize::MAX,
    ensures
        parse_text_at(snapshot_bytes(es, ts, tick, fp), text_offset(es.len() as int, ts, j)) == Ok::<
            (TextEntryView, int),
            PersonalAutosuggestError,
        >((ts[j], text_offset(es.len() as int, ts, j + 1))),
{
    lemma_text_layout(es, ts, tick, fp, j);
    lemma_texts_bytes_len(ts.take(j));
    lemma_parse_text_at_of(snapshot_bytes(es, ts, tick, fp), text_offset(es.len() as int, ts, j), ts[j]);
}

/// Personal words that each read back where the previous one ended are
/// read back in order, all kept while they fit the store's caps.
#[verifier::spinoff_prover]
#[verifier::rlimit(80)]
pub proof fn lemma_parse_texts_of(b: Seq<u8>, n: int, ts: Seq<TextEntryView>, m0: u32, j: int)
    requires
        0 <= j <= ts.len(),
        crate::personal_text::text_bounded(ts),
        forall|k: int|
            0 <= k < ts.len() ==> parse_text_at(b, text_offset(n, ts, k)) == Ok::<(TextEntryView, int), PersonalAutosuggestError>(
                (#[trigger] ts[k], text_offset(n, ts, k + 1)),
            ),
    ensures
        parse_texts(b, text_offset(n, ts, 0), ts.len() as int, Seq::empty(), m0) == parse_texts(
            b,
            text_offset(n, ts, j),
            ts.len() - j,
            ts.take(j),
            max_seen_texts(ts.take(j), m0),
        ),
    decreases j,
{
    if j == 0 {
        assert(ts.take(0) =~= Seq::<TextEntryView>::empty());
    } else {
        let i = j - 1;
        lemma_parse_texts_of(b, n, ts, m0, i);
        let t = ts[i];
        assert(parse_text_at(b, text_offset(n, ts, i)) == Ok::<(TextEntryView, int), PersonalAutosuggestError>(
            (t, text_offset(n, ts, i + 1)),
        ));
        crate::personal_text::lemma_text_total_take(ts, i);
        lemma_text_total_prefix(ts, j);
        assert(text_fits(ts.take(i), t.text));
        assert(ts.take(i).push(t) =~= ts.take(j));
        assert(ts.take(j).drop_last() =~= ts.take(i));
    }
}

/// All personal words of a written snapshot read back, ending at its end.
#[verifier::spinoff_prover]
pub proof fn lemma_written_texts(es: Seq<PersonalEntry>, ts: Seq<TextEntryView>, tick: u32, fp: u32, m0: u32)
    requires
        crate::personal_text::text_bounded(ts),
        forall|k: int| 0 <= k < ts.len() ==> (#[trigger] ts[k]).count >= 1,
        snapshot_bytes(es, ts, tick, fp).len() <= usize::MAX,
    ensures
        parse_texts(snapshot_bytes(es, ts, tick, fp), 40 + 28 * es.len() as int, ts.len() as int, Seq::empty(), m0)
            == Ok::<(Seq<TextEntryView>, int, u32), PersonalAutosuggestError>(
            (ts, snapshot_bytes(es, ts, tick, fp).len() as int, max_seen_texts(ts, m0)),
        ),
{
    let b = snapshot_bytes(es, ts, tick, fp);
    let n = es.len() as int;
    assert(ts.take(0) =~= Seq::<TextEntryView>::empty());
    assert(texts_bytes(Seq::<TextEntryView>::empty()) =~= Seq::<u8>::empty());
    assert(text_offset(n, ts, 0) == 40 + 28 * n);
    assert forall|k: int| 0 <= k < ts.len() implies parse_text_at(b, text_offset(n, ts, k)) == Ok::<
        (TextEntryView, int),
        PersonalAutosuggestError,
    >((#[trigger] ts[k], text_offset(n, ts, k + 1))) by {
        lemma_written_text(es, ts, tick, fp, k);
    }
    lemma_parse_texts_of(b, n, ts, m0, ts.len() as int);
    assert(ts.take(ts.len() as int) =~= ts);
    lemma_snapshot_len(es, ts, tick, fp);
    lemma_texts_bytes_len(ts);
    lemma_entries_bytes_len(es);
}

/// Decoding a snapshot whose header, records and personal words read back
/// gives them back, when they are already in key order within the caps.
#[verifier::spinoff_prover]
pub proof fn lemma_parse_snapshot_of(
    b: Seq<u8>,
    es: Seq<PersonalEntry>,
    ts: Seq<TextEntryView>,
    tick: u32,
    fp: u32,
    max_entries: int,
)
    requires
        es.len() <= u32::MAX,
        ts.len() <= u32::MAX,
        b.len() == 40 + 28 * es.len() + 28 * ts.len() + text_total(ts) <= usize::MAX,
        text_total(ts) >= 0,
        parse_header(b) == Ok::<SnapHeader, PersonalAutosuggestError>(
            written_header(es.len() as int, ts.len() as int, tick, fp),
        ),
        parse_entries(b, written_header(es.len() as int, ts.len() as int, tick, fp), es.len() as int)
            == Ok::<Seq<PersonalEntry>, PersonalAutosuggestError>(es),
        parse_texts(b, 40 + 28 * es.len() as int, ts.len() as int, Seq::empty(), crate::personal_snapshot::max_seen_entries(es, tick))
            matches Ok((kept, end, _)) && kept == ts && end == b.len(),
        entries_sorted(es),
        es.len() <= max_entries,
        text_sorted(ts),
        ts.len() <= DEFAULT_PERSONAL_TEXT_AUTOSUGGEST_ENTRIES,
    ensures
        parse_snapshot(b, max_entries) matches Ok((es2, ts2, f, m)) && es2 == es && ts2 == ts && f == fp
            && m == (parse_texts(
            b,
            40 + 28 * es.len() as int,
            ts.len() as int,
            Seq::empty(),
            crate::personal_snapshot::max_seen_entries(es, tick),
        )->Ok_0).2,
{
    let h = written_header(es.len() as int, ts.len() as int, tick, fp);
    assert(records_end(b, h) == Ok::<int, PersonalAutosuggestError>(40 + 28 * es.len() as int));
    lemma_loaded_entries_identity(es, max_entries);
    lemma_loaded_texts_identity(ts);
}

/// Reading what the store writes gives back its transitions and personal
/// words, and the fingerprint written, when the store is well formed and
/// the snapshot fits in memory.
pub proof fn lemma_snapshot_round_trip(v: crate::personal::PersonalView, fp: u32)
    requires
        crate::personal::personal_wf(v),
        v.entries.len() <= u32::MAX,
        crate::personal_maint::snapshot_len_of(v.entries.len() as int, v.text_entries) <= usize::MAX,
    ensures
        parse_snapshot(snapshot_bytes(v.entries, v.text_entries, v.tick, fp), v.config.max_entries as int) matches Ok(
            (es, ts, f, m),
        ) && es == v.entries && ts == v.text_entries && f == fp,
{
    let es = v.entries;
    let ts = v.text_entries;
    let b = snapshot_bytes(es, ts, v.tick, fp);
    lemma_written_header(es, ts, v.tick, fp);
    lemma_snapshot_len(es, ts, v.tick, fp);
    crate::personal_text::lemma_text_total_nonneg(ts);
    lemma_written_entries(es, ts, v.tick, fp);
    lemma_written_texts(es, ts, v.tick, fp, crate::personal_snapshot::max_seen_entries(es, v.tick));
    lemma_parse_snapshot_of(b, es, ts, v.tick, fp, v.config.max_entries as int);
}

/// The compact snapshot is exactly as long as `snapshot_len_of` says: the
/// header, one fixed record per transition and, per personal word, a fixed
/// header and its UTF-8 bytes.
pub proof fn lemma_snapshot_len(es: Seq<PersonalEntry>, ts: Seq<TextEntryView>, tick: u32, fp: u32)
    ensures
        snapshot_bytes(es, ts, tick, fp).len() == crate::personal_maint::snapshot_len_of(es.len() as int, ts),
{
    lemma_words(header_words(es.len() as int, ts.len() as int, tick, fp));
    lemma_entries_bytes_len(es);
    lemma_texts_bytes_len(ts);
}

/// A well-formed store's snapshot never exceeds the conservative cap of its
/// configuration: the header, `max_entries` transitions and the most
/// personal words of the longest text.
pub proof fn lemma_snapshot_within_limit(v: crate::personal::PersonalView)
    requires
        crate::personal::personal_wf(v),
    ensures
        crate::personal_maint::snapshot_len_of(v.entries.len() as int, v.text_entries) <= 40 + 28
            * v.config.max_entries + DEFAULT_PERSONAL_TEXT_AUTOSUGGEST_ENTRIES * (28 + PERSONAL_TEXT_TOKEN_MAX_BYTES),
        crate::personal_maint::snapshot_len_of(v.entries.len() as int, v.text_entries) <= usize::MAX
            ==> crate::personal_maint::snapshot_len_of(v.entries.len() as int, v.text_entries) <= sat_add(
            sat_add(40, sat_mul(v.config.max_entries as int, 28)),
            DEFAULT_PERSONAL_TEXT_AUTOSUGGEST_ENTRIES * (28 + PERSONAL_TEXT_TOKEN_MAX_BYTES),
        ),
{
    let ts = v.text_entries;
    assert(28 * v.entries.len() <= 28 * v.config.max_entries);
    assert(text_total(ts) <= PERSONAL_TEXT_TOTAL_MAX_BYTES);
}

/// Committing with the default strength counts one, as a plain commit does;
/// a rejected correction alone reaches the default suggestion threshold, and
/// a manual addition counts at least as much.
pub proof fn lemma_commit_strength_weights()
    ensures
        spec_weight(CommitStrength::Committed) == 1,
        spec_weight(CommitStrength::CorrectionRejected) >= DEFAULT_PERSONAL_AUTOSUGGEST_MIN_COUNT,
        spec_weight(CommitStrength::ManuallyAdded) >= spec_weight(CommitStrength::CorrectionRejected),
{
}

/// Entry `k` of `es` gives the suggestion `s`.
pub open spec fn learned(es: Seq<PersonalEntry>, k: int, s: PersonalAutosuggestSuggestion) -> bool {
    0 <= k < es.len() && spec_entry_suggestion(es[k]) == s
}

pub open spec fn learned_any(es: Seq<PersonalEntry>, s: PersonalAutosuggestSuggestion) -> bool {
    exists|k: int| #[trigger] learned(es, k, s)
}

/// At most `limit` suggestions, no word twice, each the suggestion of a
/// stored entry seen `min_count` times.
pub open spec fn id_list_ok(
    es: Seq<PersonalEntry>,
    out: Seq<PersonalAutosuggestSuggestion>,
    limit: int,
    min_count: u16,
) -> bool {
    &&& out.len() <= limit
    &&& forall|i: int, j: int| 0 <= i < j < out.len() ==> (#[trigger] out[i]).token_id != (#[trigger] out[j]).token_id
    &&& forall|i: int| 0 <= i < out.len() ==> (#[trigger] out[i]).count >= min_count
    &&& forall|i: int| 0 <= i < out.len() ==> learned_any(es, #[trigger] out[i])
}

pub proof fn lemma_insert_bounded_list(
    es: Seq<PersonalEntry>,
    out: Seq<PersonalAutosuggestSuggestion>,
    s: PersonalAutosuggestSuggestion,
    limit: int,
    min_count: u16,
)
    requires
        id_list_ok(es, out, limit, min_count),
        limit >= 1,
        s.count >= min_count,
        learned_any(es, s),
        !has_token(out, s.token_id),
    ensures
        id_list_ok(es, insert_bounded(out, s, limit), limit, min_count),
{
    if out.len() >= limit && out.len() > 0 && !suggestion_precedes(s, out.last()) {
        assert(insert_bounded(out, s, limit) == out);
    } else {
        let o2 = if out.len() >= limit && out.len() > 0 {
            out.drop_last()
        } else {
            out
        };
        lemma_first_index_exists(o2, preceded_by_suggestion(s));
        let k = first_index(o2, preceded_by_suggestion(s));
        let r = o2.insert(k, s);
        assert(r == insert_bounded(out, s, limit));
        assert forall|i: int| 0 <= i < o2.len() implies (#[trigger] o2[i]).token_id != s.token_id by {
            assert(o2[i] == out[i]);
        }
        assert forall|i: int, j: int| 0 <= i < j < r.len() implies (#[trigger] r[i]).token_id != (#[trigger] r[j]).token_id by {
            if i < k {
                assert(r[i] == o2[i]);
                if j < k {
                    assert(r[j] == o2[j]);
                    assert(o2[i] == out[i] && o2[j] == out[j]);
                } else if j > k {
                    assert(r[j] == o2[j - 1]);
                    assert(o2[i] == out[i] && o2[j - 1] == out[j - 1]);
                }
            } else if i == k {
                assert(r[j] == o2[j - 1]);
            } else {
                assert(r[i] == o2[i - 1] && r[j] == o2[j - 1]);
                assert(o2[i - 1] == out[i - 1] && o2[j - 1] == out[j - 1]);
            }
        }
        assert forall|i: int| 0 <= i < r.len() implies (#[trigger] r[i]).count >= min_count && learned_any(es, r[i]) by {
            let src = if i < k {
                i
            } else {
                i - 1
            };
            if i != k {
                assert(r[i] == o2[src] && o2[src] == out[src]);
                assert(learned_any(es, out[src]));
                let m = choose|m: int| #[trigger] learned(es, m, out[src]);
                assert(learned(es, m, r[i]));
            } else {
                let m = choose|m: int| #[trigger] learned(es, m, s);
                assert(learned(es, m, r[i]));
            }
        }
    }
}

pub proof fn lemma_scan_ids_list(
    es: Seq<PersonalEntry>,
    i: int,
    ctx: PersonalContext,
    limit: int,
    min_count: u16,
    out: Seq<PersonalAutosuggestSuggestion>,
)
    requires
        id_list_ok(es, out, limit, min_count),
        limit >= 1,
    ensures
        id_list_ok(es, scan_ids(es, i, ctx, limit, min_count, out), limit, min_count),
    decreases es.len() - i,
{
    if i >= es.len() || i < 0 {
    } else {
        let e = es[i];
        if e.context == ctx && e.count >= min_count && !has_token(out, e.target_id) {
            assert(learned(es, i, spec_entry_suggestion(e)));
            lemma_insert_bounded_list(es, out, spec_entry_suggestion(e), limit, min_count);
            lemma_scan_ids_list(es, i + 1, ctx, limit, min_count, insert_bounded(out, spec_entry_suggestion(e), limit));
        } else {
            lemma_scan_ids_list(es, i + 1, ctx, limit, min_count, out);
        }
    }
}

pub proof fn lemma_cache_collect_list(
    es: Seq<PersonalEntry>,
    c: Seq<PersonalAutosuggestSuggestion>,
    i: int,
    limit: int,
    min_count: u16,
    out: Seq<PersonalAutosuggestSuggestion>,
)
    requires
        0 <= i,
        id_list_ok(es, out, limit, min_count),
        forall|k: int| 0 <= k < c.len() ==> in_store(es, #[trigger] c[k]),
    ensures
        id_list_ok(es, cache_collect(c, i, limit, min_count, out), limit, min_count),
    decreases c.len() - i,
{
    if i >= c.len() || out.len() >= limit {
    } else {
        let s = c[i];
        let skip = s.count < min_count || exists|j: int| 0 <= j < out.len() && (#[trigger] out[j]).token_id == s.token_id;
        if skip {
            lemma_cache_collect_list(es, c, i + 1, limit, min_count, out);
        } else {
            let o = out.push(s);
            assert(in_store(es, s));
            let w = choose|w: int| #[trigger] stored_as(es, w, s);
            assert(learned(es, w, s));
            assert forall|a: int, b: int| 0 <= a < b < o.len() implies (#[trigger] o[a]).token_id != (#[trigger] o[b]).token_id by {
                if b == out.len() {
                    assert(o[a] == out[a]);
                } else {
                    assert(o[a] == out[a] && o[b] == out[b]);
                }
            }
            assert forall|a: int| 0 <= a < o.len() implies (#[trigger] o[a]).count >= min_count && learned_any(es, o[a]) by {
                if a < out.len() {
                    assert(o[a] == out[a]);
                    assert(learned_any(es, out[a]));
                    let m = choose|m: int| #[trigger] learned(es, m, out[a]);
                    assert(learned(es, m, o[a]));
                } else {
                    assert(learned(es, w, o[a]));
                }
            }
            lemma_cache_collect_list(es, c, i + 1, limit, min_count, o);
        }
    }
}

pub proof fn lemma_collect_ids_keys_list(
    es: Seq<PersonalEntry>,
    cache: Seq<PersonalAutosuggestSuggestion>,
    keys: Seq<PersonalContext>,
    i: int,
    limit: int,
    min_count: u16,
    out: Seq<PersonalAutosuggestSuggestion>,
)
    requires
        id_list_ok(es, out, limit, min_count),
        forall|k: int| 0 <= k < cache.len() ==> in_store(es, #[trigger] cache[k]),
        limit >= 1,
    ensures
        id_list_ok(es, collect_ids_keys(es, cache, keys, i, limit, min_count, out), limit, min_count),
    decreases keys.len() - i,
{
    if i >= keys.len() || i < 0 || out.len() >= limit {
    } else {
        let ctx = keys[i];
        if ctx.len == 0 {
            lemma_cache_collect_list(es, cache, 0, limit, min_count, out);
            let o1 = cache_collect(cache, 0, limit, min_count, out);
            lemma_scan_ids_list(es, 0, ctx, limit, min_count, o1);
        } else {
            lemma_scan_ids_list(es, 0, ctx, limit, min_count, out);
        }
        lemma_collect_ids_keys_list(es, cache, keys, i + 1, limit, min_count, collect_ids(es, cache, ctx, limit, min_count, out));
    }
}

/// Whatever the personal context and the limit, the store suggests at most
/// `limit` words (at least one is asked for), never the same word twice,
/// each the suggestion of an entry it learned at least `min_count` times.
pub proof fn lemma_personal_suggestions_bounded(v: crate::personal::PersonalView, p: PersonalContextView, limit: usize)
    requires
        unigram_cache_ok(v.unigram_cache, v.entries),
    ensures
        id_list_ok(
            v.entries,
            collect_ids_keys(
                v.entries,
                v.unigram_cache,
                query_keys(p),
                0,
                if limit < 1 {
                    1
                } else {
                    limit as int
                },
                v.config.min_count,
                Seq::empty(),
            ),
            if limit < 1 {
                1
            } else {
                limit as int
            },
            v.config.min_count,
        ),
{
    let lim: int = if limit < 1 {
        1
    } else {
        limit as int
    };
    lemma_collect_ids_keys_list(v.entries, v.unigram_cache, query_keys(p), 0, lim, v.config.min_count, Seq::empty());
}

/// At most `limit` personal-word suggestions, each pointing at a stored
/// word seen `min_count` times, no word twice.
pub open spec fn text_list_ok(
    ts: Seq<TextEntryView>,
    out: Seq<PersonalAutosuggestTextSuggestion>,
    limit: int,
    min_count: u16,
) -> bool {
    &&& out.len() <= limit
    &&& forall|i: int| 0 <= i < out.len() ==> 0 <= (#[trigger] out[i]).entry_index < ts.len() && out[i].count >= min_count
    &&& forall|i: int, j: int|
        0 <= i < j < out.len() ==> ts[(#[trigger] out[i]).entry_index as int].text != ts[(#[trigger] out[j]).entry_index as int].text
}

pub proof fn lemma_insert_text_bounded_list(
    ts: Seq<TextEntryView>,
    out: Seq<PersonalAutosuggestTextSuggestion>,
    s: PersonalAutosuggestTextSuggestion,
    limit: int,
    min_count: u16,
)
    requires
        text_list_ok(ts, out, limit, min_count),
        limit >= 1,
        0 <= s.entry_index < ts.len(),
        s.count >= min_count,
        !text_in(ts, out, ts[s.entry_index as int].text),
    ensures
        text_list_ok(ts, insert_text_bounded(out, s, limit), limit, min_count),
{
    if out.len() >= limit && out.len() > 0 && !text_key_precedes(s, out.last()) {
    } else {
        let o2 = if out.len() >= limit && out.len() > 0 {
            out.drop_last()
        } else {
            out
        };
        lemma_first_index_exists(o2, preceded_by_text_key(s));
        let k = first_index(o2, preceded_by_text_key(s));
        let r = o2.insert(k, s);
        assert(r == insert_text_bounded(out, s, limit));
        let t = ts[s.entry_index as int].text;
        assert forall|i: int| 0 <= i < o2.len() implies ts[(#[trigger] o2[i]).entry_index as int].text != t by {
            assert(o2[i] == out[i]);
            if ts[o2[i].entry_index as int].text == t {
                assert(text_in(ts, out, t));
            }
        }
        assert forall|i: int| 0 <= i < r.len() implies 0 <= (#[trigger] r[i]).entry_index < ts.len() && r[i].count
            >= min_count by {
            if i < k {
                assert(r[i] == o2[i] && o2[i] == out[i]);
            } else if i > k {
                assert(r[i] == o2[i - 1] && o2[i - 1] == out[i - 1]);
            }
        }
        assert forall|i: int, j: int| 0 <= i < j < r.len() implies ts[(#[trigger] r[i]).entry_index as int].text
            != ts[(#[trigger] r[j]).entry_index as int].text by {
            if i < k {
                assert(r[i] == o2[i]);
                if j < k {
                    assert(r[j] == o2[j]);
                    assert(o2[i] == out[i] && o2[j] == out[j]);
                } else if j > k {
                    assert(r[j] == o2[j - 1]);
                    assert(o2[i] == out[i] && o2[j - 1] == out[j - 1]);
                }
            } else if i == k {
                assert(r[j] == o2[j - 1]);
            } else {
                assert(r[i] == o2[i - 1] && r[j] == o2[j - 1]);
                assert(o2[i - 1] == out[i - 1] && o2[j - 1] == out[j - 1]);
            }
        }
    }
}

pub proof fn lemma_scan_texts_list(
    ts: Seq<TextEntryView>,
    i: int,
    ctx: PersonalContext,
    limit: int,
    min_count: u16,
    out: Seq<PersonalAutosuggestTextSuggestion>,
)
    requires
        text_list_ok(ts, out, limit, min_count),
        limit >= 1,
        ts.len() <= usize::MAX,
    ensures
        text_list_ok(ts, scan_texts(ts, i, ctx, limit, min_count, out), limit, min_count),
    decreases ts.len() - i,
{
    if i >= ts.len() || i < 0 {
    } else {
        let e = ts[i];
        if e.context == ctx && e.count >= min_count && !text_in(ts, out, e.text) {
            let sg = spec_text_suggestion(e, i);
            assert(sg.entry_index == i);
            lemma_insert_text_bounded_list(ts, out, sg, limit, min_count);
            lemma_scan_texts_list(ts, i + 1, ctx, limit, min_count, insert_text_bounded(out, sg, limit));
        } else {
            lemma_scan_texts_list(ts, i + 1, ctx, limit, min_count, out);
        }
    }
}

/// Every cached personal word points at one of the first `n` stored words.
pub proof fn lemma_text_cache_valid(ts: Seq<TextEntryView>, n: int)
    requires
        0 <= n <= ts.len() <= usize::MAX,
    ensures
        forall|k: int|
            0 <= k < text_cache_upto(ts, n).len() ==> 0 <= (#[trigger] text_cache_upto(ts, n)[k]).entry_index < n,
    decreases n,
{
    if n > 0 {
        lemma_text_cache_valid(ts, n - 1);
        let c = text_cache_upto(ts, n - 1);
        if ts[n - 1].context == spec_empty_ctx() {
            let s = spec_text_suggestion(ts[n - 1], n - 1);
            let lim = PERSONAL_UNIGRAM_CACHE_LIMIT as int;
            if c.len() >= lim && c.len() > 0 && !text_key_precedes(s, c.last()) {
            } else {
                let o2 = if c.len() >= lim && c.len() > 0 {
                    c.drop_last()
                } else {
                    c
                };
                lemma_first_index_exists(o2, preceded_by_text_key(s));
                let k = first_index(o2, preceded_by_text_key(s));
                let r = o2.insert(k, s);
                assert(r == text_cache_upto(ts, n));
                assert forall|m: int| 0 <= m < r.len() implies 0 <= (#[trigger] r[m]).entry_index < n by {
                    if m < k {
                        assert(r[m] == o2[m] && o2[m] == c[m]);
                    } else if m > k {
                        assert(r[m] == o2[m - 1] && o2[m - 1] == c[m - 1]);
                    }
                }
            }
        }
    }
}

pub proof fn lemma_text_cache_collect_list(
    ts: Seq<TextEntryView>,
    c: Seq<PersonalAutosuggestTextSuggestion>,
    i: int,
    limit: int,
    min_count: u16,
    out: Seq<PersonalAutosuggestTextSuggestion>,
)
    requires
        text_list_ok(ts, out, limit, min_count),
        forall|k: int| 0 <= k < c.len() ==> 0 <= (#[trigger] c[k]).entry_index < ts.len(),
    ensures
        text_list_ok(ts, text_cache_collect(ts, c, i, limit, min_count, out), limit, min_count),
    decreases c.len() - i,
{
    if i >= c.len() || i < 0 || out.len() >= limit {
    } else {
        let s = c[i];
        let t = ts[s.entry_index as int].text;
        let skip = s.count < min_count || text_in(ts, out, t);
        if skip {
            lemma_text_cache_collect_list(ts, c, i + 1, limit, min_count, out);
        } else {
            let o = out.push(s);
            assert forall|a: int| 0 <= a < o.len() implies 0 <= (#[trigger] o[a]).entry_index < ts.len() && o[a].count
                >= min_count by {
                if a < out.len() {
                    assert(o[a] == out[a]);
                }
            }
            assert forall|a: int, b: int| 0 <= a < b < o.len() implies ts[(#[trigger] o[a]).entry_index as int].text
                != ts[(#[trigger] o[b]).entry_index as int].text by {
                assert(o[a] == out[a]);
                if b == out.len() {
                    if ts[out[a].entry_index as int].text == t {
                        assert(text_in(ts, out, t));
                    }
                } else {
                    assert(o[b] == out[b]);
                }
            }
            lemma_text_cache_collect_list(ts, c, i + 1, limit, min_count, o);
        }
    }
}

pub proof fn lemma_collect_texts_keys_list(
    ts: Seq<TextEntryView>,
    keys: Seq<PersonalContext>,
    i: int,
    limit: int,
    min_count: u16,
    out: Seq<PersonalAutosuggestTextSuggestion>,
)
    requires
        text_list_ok(ts, out, limit, min_count),
        limit >= 1,
        ts.len() <= usize::MAX,
    ensures
        text_list_ok(ts, collect_texts_keys(ts, text_cache(ts), keys, i, limit, min_count, out), limit, min_count),
    decreases keys.len() - i,
{
    if i >= keys.len() || i < 0 || out.len() >= limit {
    } else {
        let ctx = keys[i];
        let c = text_cache(ts);
        if ctx.len == 0 {
            lemma_text_cache_valid(ts, ts.len() as int);
            lemma_text_cache_collect_list(ts, c, 0, limit, min_count, out);
            let o1 = text_cache_collect(ts, c, 0, limit, min_count, out);
            lemma_scan_texts_list(ts, 0, ctx, limit, min_count, o1);
        } else {
            lemma_scan_texts_list(ts, 0, ctx, limit, min_count, out);
        }
        lemma_collect_texts_keys_list(ts, keys, i + 1, limit, min_count, collect_texts(ts, c, ctx, limit, min_count, out));
    }
}

/// Whatever the personal context and the limit, the personal words
/// suggested are at most `limit` (at least one is asked for), each a stored
/// word learned at least `min_count` times, no word twice.
pub proof fn lemma_personal_text_suggestions_bounded(v: crate::personal::PersonalView, p: PersonalContextView, limit: usize)
    requires
        v.text_entries.len() <= usize::MAX,
    ensures
        text_list_ok(
            v.text_entries,
            collect_texts_keys(
                v.text_entries,
                text_cache(v.text_entries),
                query_keys(p),
                0,
                if limit < 1 {
                    1
                } else {
                    limit as int
                },
                v.config.min_count,
                Seq::empty(),
            ),
            if limit < 1 {
                1
            } else {
                limit as int
            },
            v.config.min_count,
        ),
{
    let lim: int = if limit < 1 {
        1
    } else {
        limit as int
    };
    lemma_collect_texts_keys_list(v.text_entries, query_keys(p), 0, lim, v.config.min_count, Seq::empty());
}

/// Reading what a well-formed store writes gives back its transitions, its
/// personal words and the fingerprint written, whenever the snapshot fits in
/// memory.
pub proof fn lemma_store_snapshot_round_trip(p: crate::personal::PersonalAutosuggest, fp: u32)
    requires
        p.wf(),
        p@.entries.len() <= u32::MAX,
        crate::personal_maint::snapshot_len_of(p@.entries.len() as int, p@.text_entries) <= usize::MAX,
    ensures
        parse_snapshot(snapshot_bytes(p@.entries, p@.text_entries, p@.tick, fp), p@.config.max_entries as int) matches Ok(
            (es, ts, f, m),
        ) && es == p@.entries && ts == p@.text_entries && f == fp,
{
    p.lemma_wf_bounds();
    lemma_snapshot_round_trip(p@, fp);
}


/// The list is in suggestion order: a longer context first, then a higher
/// count, then more recent use, then the lower token id.
pub open spec fn suggestions_ranked(s: Seq<PersonalAutosuggestSuggestion>) -> bool {
    forall|i: int, j: int| 0 <= i < j < s.len() ==> suggestion_precedes(#[trigger] s[i], #[trigger] s[j])
}

/// Every suggestion of the list was learned under a context of at least
/// `n` ids.
pub open spec fn contexts_at_least(s: Seq<PersonalAutosuggestSuggestion>, n: int) -> bool {
    forall|i: int| 0 <= i < s.len() ==> (#[trigger] s[i]).context_len >= n
}

proof fn lemma_insert_bounded_ranked(out: Seq<PersonalAutosuggestSuggestion>, s: PersonalAutosuggestSuggestion, limit: int)
    requires
        suggestions_ranked(out),
        !has_token(out, s.token_id),
    ensures
        suggestions_ranked(insert_bounded(out, s, limit)),
        forall|n: int| contexts_at_least(out, n) && s.context_len >= n ==> contexts_at_least(insert_bounded(out, s, limit), n),
{
    if out.len() >= limit && out.len() > 0 && !suggestion_precedes(s, out.last()) {
    } else {
        let o2 = if out.len() >= limit && out.len() > 0 {
            out.drop_last()
        } else {
            out
        };
        lemma_first_index_exists(o2, preceded_by_suggestion(s));
        let k = first_index(o2, preceded_by_suggestion(s));
        let r = o2.insert(k, s);
        assert(r == insert_bounded(out, s, limit));
        assert forall|i: int| 0 <= i < o2.len() implies (#[trigger] o2[i]) == out[i] && o2[i].token_id != s.token_id by {
            assert(o2[i] == out[i]);
            if o2[i].token_id == s.token_id {
                assert(has_token(out, s.token_id));
            }
        }
        assert forall|i: int, j: int| 0 <= i < j < r.len() implies suggestion_precedes(#[trigger] r[i], #[trigger] r[j]) by {
            if j < k {
                assert(r[i] == o2[i] && r[j] == o2[j]);
            } else if j == k {
                assert(r[i] == o2[i]);
                assert(!suggestion_precedes(s, o2[i]));
                lemma_suggestion_order(o2[i], s, s);
            } else if i == k {
                assert(r[j] == o2[j - 1]);
                assert(suggestion_precedes(s, o2[k]));
                if j - 1 > k {
                    lemma_suggestion_order(s, o2[k], o2[j - 1]);
                }
            } else if i < k {
                assert(r[i] == o2[i] && r[j] == o2[j - 1]);
            } else {
                assert(r[i] == o2[i - 1] && r[j] == o2[j - 1]);
            }
        }
        assert forall|n: int| contexts_at_least(out, n) && s.context_len >= n implies contexts_at_least(r, n) by {
            assert forall|i: int| 0 <= i < r.len() implies (#[trigger] r[i]).context_len >= n by {
                if i < k {
                    assert(r[i] == o2[i]);
                } else if i > k {
                    assert(r[i] == o2[i - 1]);
                }
            }
        }
    }
}

proof fn lemma_scan_ids_ranked(
    es: Seq<PersonalEntry>,
    i: int,
    ctx: PersonalContext,
    limit: int,
    min_count: u16,
    out: Seq<PersonalAutosuggestSuggestion>,
)
    requires
        suggestions_ranked(out),
    ensures
        suggestions_ranked(scan_ids(es, i, ctx, limit, min_count, out)),
        forall|n: int|
            contexts_at_least(out, n) && ctx.len >= n ==> contexts_at_least(scan_ids(es, i, ctx, limit, min_count, out), n),
    decreases es.len() - i,
{
    if i >= es.len() || i < 0 {
    } else {
        let e = es[i];
        if e.context == ctx && e.count >= min_count && !has_token(out, e.target_id) {
            let s = spec_entry_suggestion(e);
            lemma_insert_bounded_ranked(out, s, limit);
            lemma_scan_ids_ranked(es, i + 1, ctx, limit, min_count, insert_bounded(out, s, limit));
        } else {
            lemma_scan_ids_ranked(es, i + 1, ctx, limit, min_count, out);
        }
    }
}

proof fn lemma_cache_collect_ranked(
    c: Seq<PersonalAutosuggestSuggestion>,
    i: int,
    limit: int,
    min_count: u16,
    out: Seq<PersonalAutosuggestSuggestion>,
)
    requires
        0 <= i,
        suggestions_ranked(out),
        suggestions_ranked(c),
        forall|a: int, j: int|
            0 <= a < out.len() && i <= j < c.len() && (#[trigger] out[a]).token_id != (#[trigger] c[j]).token_id
                ==> suggestion_precedes(out[a], c[j]),
    ensures
        suggestions_ranked(cache_collect(c, i, limit, min_count, out)),
    decreases c.len() - i,
{
    if i >= c.len() || out.len() >= limit {
    } else {
        let s = c[i];
        let skip = s.count < min_count || exists|j: int| 0 <= j < out.len() && (#[trigger] out[j]).token_id == s.token_id;
        if skip {
            lemma_cache_collect_ranked(c, i + 1, limit, min_count, out);
        } else {
            let o = out.push(s);
            assert forall|a: int, b: int| 0 <= a < b < o.len() implies suggestion_precedes(#[trigger] o[a], #[trigger] o[b]) by {
                if b == out.len() {
                    assert(o[a] == out[a] && o[b] == c[i]);
                    assert(out[a].token_id != c[i].token_id);
                } else {
                    assert(o[a] == out[a] && o[b] == out[b]);
                }
            }
            assert forall|a: int, j: int|
                0 <= a < o.len() && i + 1 <= j < c.len() && (#[trigger] o[a]).token_id != (#[trigger] c[j]).token_id implies suggestion_precedes(
                o[a],
                c[j],
            ) by {
                if a == out.len() {
                    assert(o[a] == c[i]);
                } else {
                    assert(o[a] == out[a]);
                }
            }
            lemma_cache_collect_ranked(c, i + 1, limit, min_count, o);
        }
    }
}

proof fn lemma_collect_ids_keys_ranked(
    es: Seq<PersonalEntry>,
    cache: Seq<PersonalAutosuggestSuggestion>,
    keys: Seq<PersonalContext>,
    i: int,
    limit: int,
    min_count: u16,
    out: Seq<PersonalAutosuggestSuggestion>,
)
    requires
        suggestions_ranked(out),
        unigram_cache_ok(cache, es),
        forall|k: int| 0 <= k < keys.len() - 1 ==> (#[trigger] keys[k]).len > 0,
        i < keys.len() ==> contexts_at_least(out, 1),
    ensures
        suggestions_ranked(collect_ids_keys(es, cache, keys, i, limit, min_count, out)),
    decreases keys.len() - i,
{
    if i >= keys.len() || i < 0 || out.len() >= limit {
    } else {
        let ctx = keys[i];
        if ctx.len == 0 {
            assert forall|a: int, j: int|
                0 <= a < out.len() && 0 <= j < cache.len() && (#[trigger] out[a]).token_id != (#[trigger] cache[j]).token_id
                    implies suggestion_precedes(out[a], cache[j]) by {
                assert(in_store(es, cache[j]));
                let w = choose|w: int| #[trigger] stored_as(es, w, cache[j]);
                assert(cache[j].context_len == 0);
            }
            lemma_cache_collect_ranked(cache, 0, limit, min_count, out);
            let o1 = cache_collect(cache, 0, limit, min_count, out);
            lemma_scan_ids_ranked(es, 0, ctx, limit, min_count, o1);
        } else {
            lemma_scan_ids_ranked(es, 0, ctx, limit, min_count, out);
        }
        lemma_collect_ids_keys_ranked(es, cache, keys, i + 1, limit, min_count, collect_ids(es, cache, ctx, limit, min_count, out));
    }
}

/// The store's suggestions for a personal context come in suggestion order
/// ([`suggestions_ranked`]): a longer context first, then a higher count,
/// then more recent use, then the lower token id.
pub proof fn lemma_personal_suggestions_ranked(v: crate::personal::PersonalView, p: PersonalContextView, limit: usize)
    requires
        unigram_cache_ok(v.unigram_cache, v.entries),
    ensures
        suggestions_ranked(
            collect_ids_keys(
                v.entries,
                v.unigram_cache,
                query_keys(p),
                0,
                if limit < 1 {
                    1
                } else {
                    limit as int
                },
                v.config.min_count,
                Seq::empty(),
            ),
        ),
{
    let keys = query_keys(p);
    let ids = crate::personal_types::ctx_ids(p.ctx);
    let n: int = if ids.len() < 3 {
        ids.len() as int
    } else {
        3
    };
    let head = if p.is_sentence_start() {
        seq![crate::personal_types::spec_sentence_start_ctx()]
    } else {
        Seq::<PersonalContext>::empty()
    };
    let mid = Seq::new(n as nat, |i: int| crate::personal_types::spec_from_suffix(ids, n - i));
    assert(keys == head + mid + seq![spec_empty_ctx()]);
    assert forall|k: int| 0 <= k < keys.len() - 1 implies (#[trigger] keys[k]).len > 0 by {
        if k < head.len() {
            assert(keys[k] == head[k]);
        } else {
            assert(keys[k] == mid[k - head.len()]);
        }
    }
    lemma_collect_ids_keys_ranked(
        v.entries,
        v.unigram_cache,
        keys,
        0,
        if limit < 1 {
            1
        } else {
            limit as int
        },
        v.config.min_count,
        Seq::empty(),
    );
}


/// Committing a raw token fails exactly when pushing it onto the static
/// context fails, with the same error; otherwise the static context advances
/// exactly as pushing it would, and the personal context advances by as
/// many tokens as the static one.
pub proof fn lemma_commit_advances_context(
    lm: crate::lm::LmView,
    s: crate::personal::CommitState,
    raw: Seq<char>,
    weight: u16,
)
    ensures
        crate::personal::raw_commit(lm, s, raw, weight) matches Err(e) ==> crate::lm::spec_push_token(lm, s.context, raw)
            == Err::<crate::context::ContextView, crate::artifact::AutosuggestArtifactError>(e),
        crate::personal::raw_commit(lm, s, raw, weight) matches Ok((st, l)) ==> crate::lm::spec_push_token(
            lm,
            s.context,
            raw,
        ) == Ok::<crate::context::ContextView, crate::artifact::AutosuggestArtifactError>(st.context)
            && st.personal.count - s.personal.count == st.context.count - s.context.count,
{
}

/// A commit of strength `Committed` is the plain commit (weight one): the
/// same result and the same store, contexts and learned flag.
pub proof fn lemma_committed_strength_is_plain_commit(
    lm: crate::lm::LmView,
    s: crate::personal::CommitState,
    raw: Seq<char>,
)
    ensures
        crate::personal::raw_commit(lm, s, raw, spec_weight(CommitStrength::Committed))
            == crate::personal::raw_commit(lm, s, raw, 1),
{
}


/// The compact snapshot of transitions `es`, personal words `ts`, clock
/// `tick` and fingerprint `fp`: as long as [`snapshot_len_of`] says (the
/// 40-byte header, 28 bytes per transition, 28 bytes plus the UTF-8 text per
/// personal word), starting with the magic, then the little-endian words
/// version, tick, transition count, fingerprint, word count and zero.
///
/// [`snapshot_len_of`]: crate::personal_maint::snapshot_len_of
pub proof fn lemma_compact_snapshot_layout(es: Seq<PersonalEntry>, ts: Seq<TextEntryView>, tick: u32, fp: u32)
    ensures
        ({
            let b = snapshot_bytes(es, ts, tick, fp);
            &&& b.len() == crate::personal_maint::snapshot_len_of(es.len() as int, ts)
            &&& b.subrange(0, 16) == personal_magic()
            &&& spec_u32_le(b, 16) == PERSONAL_VERSION
            &&& spec_u32_le(b, 20) == tick
            &&& spec_u32_le(b, 24) == es.len() as u32
            &&& spec_u32_le(b, 28) == fp
            &&& spec_u32_le(b, 32) == ts.len() as u32
            &&& spec_u32_le(b, 36) == 0
        }),
{
    lemma_snapshot_len(es, ts, tick, fp);
    let m = personal_magic();
    let hw = header_words(es.len() as int, ts.len() as int, tick, fp);
    let h = words(hw);
    let rest = entries_bytes(es) + texts_bytes(ts);
    let b = snapshot_bytes(es, ts, tick, fp);
    assert(b =~= m + h + rest);
    lemma_words(hw);
    assert(b.subrange(0, 16) =~= m);
    assert forall|k: int| 0 <= k < 6 implies spec_u32_le(b, 16 + 4 * k) == #[trigger] hw[k] by {
        lemma_read_middle(m, h, rest, 4 * k);
    }
    assert(spec_u32_le(b, 16) == hw[0]);
    assert(spec_u32_le(b, 20) == hw[1]);
    assert(spec_u32_le(b, 24) == hw[2]);
    assert(spec_u32_le(b, 28) == hw[3]);
    assert(spec_u32_le(b, 32) == hw[4]);
    assert(spec_u32_le(b, 36) == hw[5]);
}


proof fn lemma_max_seen_entries_le(es: Seq<PersonalEntry>, m: u32)
    requires
        forall|k: int| 0 <= k < es.len() ==> (#[trigger] es[k]).last_seen <= m,
    ensures
        crate::personal_snapshot::max_seen_entries(es, m) == m,
    decreases es.len(),
{
    if es.len() > 0 {
        lemma_max_seen_entries_le(es.drop_last(), m);
    }
}

proof fn lemma_max_seen_texts_le(ts: Seq<TextEntryView>, m: u32)
    requires
        forall|k: int| 0 <= k < ts.len() ==> (#[trigger] ts[k]).last_seen <= m,
    ensures
        max_seen_texts(ts, m) == m,
    decreases ts.len(),
{
    if ts.len() > 0 {
        lemma_max_seen_texts_le(ts.drop_last(), m);
    }
}

/// Reading what a well-formed store writes gives back its transitions, its
/// personal words, the fingerprint written and, when no entry was used after
/// the store's clock (the clock has not wrapped), the clock too; so loading
/// the snapshot and writing it again gives the same bytes.
pub proof fn lemma_store_snapshot_reencodes(p: crate::personal::PersonalAutosuggest, fp: u32)
    requires
        p.wf(),
        p@.entries.len() <= u32::MAX,
        crate::personal_maint::snapshot_len_of(p@.entries.len() as int, p@.text_entries) <= usize::MAX,
        forall|k: int| 0 <= k < p@.entries.len() ==> (#[trigger] p@.entries[k]).last_seen <= p@.tick,
        forall|k: int| 0 <= k < p@.text_entries.len() ==> (#[trigger] p@.text_entries[k]).last_seen <= p@.tick,
    ensures
        parse_snapshot(snapshot_bytes(p@.entries, p@.text_entries, p@.tick, fp), p@.config.max_entries as int)
            == Ok::<(Seq<PersonalEntry>, Seq<TextEntryView>, u32, u32), PersonalAutosuggestError>(
            (p@.entries, p@.text_entries, fp, p@.tick),
        ),
{
    p.lemma_wf_bounds();
    let v = p@;
    let es = v.entries;
    let ts = v.text_entries;
    let b = snapshot_bytes(es, ts, v.tick, fp);
    lemma_written_header(es, ts, v.tick, fp);
    lemma_snapshot_len(es, ts, v.tick, fp);
    crate::personal_text::lemma_text_total_nonneg(ts);
    lemma_written_entries(es, ts, v.tick, fp);
    lemma_max_seen_entries_le(es, v.tick);
    lemma_written_texts(es, ts, v.tick, fp, v.tick);
    lemma_max_seen_texts_le(ts, v.tick);
    lemma_parse_snapshot_of(b, es, ts, v.tick, fp, v.config.max_entries as int);
}


proof fn lemma_first_bad_context_id_none(ids: Seq<u32>, vocab: int)
    ensures
        crate::personal_maint::first_bad_context_id(ids, vocab) is None <==> forall|k: int|
            0 <= k < ids.len() ==> crate::personal_maint::valid_context_id(#[trigger] ids[k], vocab),
    decreases ids.len(),
{
    if ids.len() > 0 {
        lemma_first_bad_context_id_none(ids.drop_first(), vocab);
        if crate::personal_maint::first_bad_context_id(ids, vocab) is None {
            assert forall|k: int| 0 <= k < ids.len() implies crate::personal_maint::valid_context_id(#[trigger] ids[k], vocab) by {
                if k > 0 {
                    assert(ids[k] == ids.drop_first()[k - 1]);
                }
            }
        }
        if forall|k: int| 0 <= k < ids.len() ==> crate::personal_maint::valid_context_id(#[trigger] ids[k], vocab) {
            assert forall|k: int| 0 <= k < ids.drop_first().len() implies crate::personal_maint::valid_context_id(
                #[trigger] ids.drop_first()[k],
                vocab,
            ) by {
                assert(ids.drop_first()[k] == ids[k + 1]);
            }
        }
    }
}

/// Every id an entry holds is valid for a vocabulary of `vocab` words: each
/// context id is a personal-word id or a vocabulary id other than `<pad>`
/// and `<unk>`, and the target is a word id of the vocabulary.
pub open spec fn entry_ids_valid(e: PersonalEntry, vocab: int) -> bool {
    &&& forall|k: int| 0 <= k < ctx_ids(e.context).len() ==> crate::personal_maint::valid_context_id(
        #[trigger] ctx_ids(e.context)[k],
        vocab,
    )
    &&& crate::personal_maint::valid_target_id(e.target_id, vocab)
}

/// Every context id a personal word holds is valid for `vocab` words.
pub open spec fn text_ids_valid(t: TextEntryView, vocab: int) -> bool {
    forall|k: int| 0 <= k < ctx_ids(t.context).len() ==> crate::personal_maint::valid_context_id(
        #[trigger] ctx_ids(t.context)[k],
        vocab,
    )
}

proof fn lemma_entries_error_none(es: Seq<PersonalEntry>, i: int, vocab: int)
    requires
        0 <= i,
    ensures
        crate::personal_maint::entries_error(es, i, vocab) is None <==> forall|k: int|
            i <= k < es.len() ==> entry_ids_valid(#[trigger] es[k], vocab),
    decreases es.len() - i,
{
    if i < es.len() {
        lemma_entries_error_none(es, i + 1, vocab);
        lemma_first_bad_context_id_none(ctx_ids(es[i].context), vocab);
    }
}

proof fn lemma_text_entries_error_none(ts: Seq<TextEntryView>, i: int, vocab: int)
    requires
        0 <= i,
    ensures
        crate::personal_maint::text_entries_error(ts, i, vocab) is None <==> forall|k: int|
            i <= k < ts.len() ==> text_ids_valid(#[trigger] ts[k], vocab),
    decreases ts.len() - i,
{
    if i < ts.len() {
        lemma_text_entries_error_none(ts, i + 1, vocab);
        lemma_first_bad_context_id_none(ctx_ids(ts[i].context), vocab);
    }
}

/// A store passes the id check for a vocabulary of `vocab` words exactly
/// when every id it holds is valid for it ([`entry_ids_valid`],
/// [`text_ids_valid`]); otherwise the error names an invalid id.
pub proof fn lemma_validate_ids_iff(v: crate::personal::PersonalView, vocab: int)
    ensures
        crate::personal::validate_ids_v(v, vocab) is Ok <==> (forall|k: int|
            0 <= k < v.entries.len() ==> entry_ids_valid(#[trigger] v.entries[k], vocab)) && (forall|k: int|
            0 <= k < v.text_entries.len() ==> text_ids_valid(#[trigger] v.text_entries[k], vocab)),
{
    lemma_entries_error_none(v.entries, 0, vocab);
    lemma_text_entries_error_none(v.text_entries, 0, vocab);
}


/// Text suggestions in suggestion order.
pub open spec fn texts_ranked(s: Seq<PersonalAutosuggestTextSuggestion>) -> bool {
    forall|i: int, j: int| 0 <= i < j < s.len() ==> text_key_precedes(#[trigger] s[i], #[trigger] s[j])
}

/// Every text suggestion points at one of the first `n` entries.
pub open spec fn text_indices_below(s: Seq<PersonalAutosuggestTextSuggestion>, n: int) -> bool {
    forall|i: int| 0 <= i < s.len() ==> (#[trigger] s[i]).entry_index < n
}

/// Every text suggestion was learned under a context of at least `n` ids.
pub open spec fn text_contexts_at_least(s: Seq<PersonalAutosuggestTextSuggestion>, n: int) -> bool {
    forall|i: int| 0 <= i < s.len() ==> (#[trigger] s[i]).context_len >= n
}

proof fn lemma_text_suggestion_order(
    a: PersonalAutosuggestTextSuggestion,
    b: PersonalAutosuggestTextSuggestion,
    c: PersonalAutosuggestTextSuggestion,
)
    ensures
        a.entry_index != b.entry_index ==> text_key_precedes(a, b) || text_key_precedes(b, a),
        text_key_precedes(a, b) && text_key_precedes(b, c) ==> text_key_precedes(a, c),
{
}

proof fn lemma_insert_text_bounded_ranked(
    out: Seq<PersonalAutosuggestTextSuggestion>,
    s: PersonalAutosuggestTextSuggestion,
    limit: int,
)
    requires
        texts_ranked(out),
        forall|i: int| 0 <= i < out.len() ==> (#[trigger] out[i]).entry_index != s.entry_index,
    ensures
        texts_ranked(insert_text_bounded(out, s, limit)),
        forall|n: int| text_indices_below(out, n) && s.entry_index < n ==> text_indices_below(insert_text_bounded(out, s, limit), n),
        forall|n: int| text_contexts_at_least(out, n) && s.context_len >= n ==> text_contexts_at_least(
            insert_text_bounded(out, s, limit),
            n,
        ),
{
    if out.len() >= limit && out.len() > 0 && !text_key_precedes(s, out.last()) {
    } else {
        let o2 = if out.len() >= limit && out.len() > 0 {
            out.drop_last()
        } else {
            out
        };
        lemma_first_index_exists(o2, preceded_by_text_key(s));
        let k = first_index(o2, preceded_by_text_key(s));
        let r = o2.insert(k, s);
        assert(r == insert_text_bounded(out, s, limit));
        assert forall|i: int| 0 <= i < o2.len() implies #[trigger] o2[i] == out[i] by {}
        assert forall|i: int, j: int| 0 <= i < j < r.len() implies text_key_precedes(#[trigger] r[i], #[trigger] r[j]) by {
            if j < k {
                assert(r[i] == o2[i] && r[j] == o2[j]);
            } else if j == k {
                assert(r[i] == o2[i]);
                assert(!text_key_precedes(s, o2[i]));
                lemma_text_suggestion_order(o2[i], s, s);
            } else if i == k {
                assert(r[j] == o2[j - 1]);
                assert(text_key_precedes(s, o2[k]));
                if j - 1 > k {
                    lemma_text_suggestion_order(s, o2[k], o2[j - 1]);
                }
            } else if i < k {
                assert(r[i] == o2[i] && r[j] == o2[j - 1]);
            } else {
                assert(r[i] == o2[i - 1] && r[j] == o2[j - 1]);
            }
        }
        assert forall|n: int| text_indices_below(out, n) && s.entry_index < n implies text_indices_below(r, n) by {
            assert forall|i: int| 0 <= i < r.len() implies (#[trigger] r[i]).entry_index < n by {
                if i < k {
                    assert(r[i] == o2[i]);
                } else if i > k {
                    assert(r[i] == o2[i - 1]);
                }
            }
        }
        assert forall|n: int| text_contexts_at_least(out, n) && s.context_len >= n implies text_contexts_at_least(r, n) by {
            assert forall|i: int| 0 <= i < r.len() implies (#[trigger] r[i]).context_len >= n by {
                if i < k {
                    assert(r[i] == o2[i]);
                } else if i > k {
                    assert(r[i] == o2[i - 1]);
                }
            }
        }
    }
}

/// An entry index already in the list is recognised by its text.
proof fn lemma_index_in_list_means_text_in(
    ts: Seq<TextEntryView>,
    out: Seq<PersonalAutosuggestTextSuggestion>,
    idx: int,
)
    requires
        text_indices_below(out, ts.len() as int),
        0 <= idx < ts.len(),
        !text_in(ts, out, ts[idx].text),
    ensures
        forall|i: int| 0 <= i < out.len() ==> (#[trigger] out[i]).entry_index != idx,
{
    assert forall|i: int| 0 <= i < out.len() implies (#[trigger] out[i]).entry_index != idx by {
        if out[i].entry_index == idx {
            assert(0 <= out[i].entry_index < ts.len() && ts[out[i].entry_index as int].text == ts[idx].text);
        }
    }
}

proof fn lemma_scan_texts_ranked(
    ts: Seq<TextEntryView>,
    i: int,
    ctx: PersonalContext,
    limit: int,
    min_count: u16,
    out: Seq<PersonalAutosuggestTextSuggestion>,
)
    requires
        0 <= i,
        ts.len() <= usize::MAX,
        texts_ranked(out),
        text_indices_below(out, ts.len() as int),
    ensures
        texts_ranked(scan_texts(ts, i, ctx, limit, min_count, out)),
        text_indices_below(scan_texts(ts, i, ctx, limit, min_count, out), ts.len() as int),
        forall|n: int|
            text_contexts_at_least(out, n) && ctx.len >= n ==> text_contexts_at_least(
                scan_texts(ts, i, ctx, limit, min_count, out),
                n,
            ),
    decreases ts.len() - i,
{
    if i >= ts.len() {
    } else {
        let e = ts[i];
        if e.context == ctx && e.count >= min_count && !text_in(ts, out, e.text) {
            let sg = spec_text_suggestion(e, i);
            lemma_index_in_list_means_text_in(ts, out, i);
            lemma_insert_text_bounded_ranked(out, sg, limit);
            lemma_scan_texts_ranked(ts, i + 1, ctx, limit, min_count, insert_text_bounded(out, sg, limit));
        } else {
            lemma_scan_texts_ranked(ts, i + 1, ctx, limit, min_count, out);
        }
    }
}

proof fn lemma_text_cache_upto_ranked(ts: Seq<TextEntryView>, n: int)
    requires
        0 <= n <= ts.len(),
        ts.len() <= usize::MAX,
    ensures
        texts_ranked(text_cache_upto(ts, n)),
        text_indices_below(text_cache_upto(ts, n), n),
        forall|i: int| 0 <= i < text_cache_upto(ts, n).len() ==> (#[trigger] text_cache_upto(ts, n)[i]).context_len == 0,
    decreases n,
{
    if n > 0 {
        lemma_text_cache_upto_ranked(ts, n - 1);
        let c = text_cache_upto(ts, n - 1);
        assert(text_indices_below(c, n));
        if ts[n - 1].context == spec_empty_ctx() {
            let sg = spec_text_suggestion(ts[n - 1], n - 1);
            lemma_insert_text_bounded_ranked(c, sg, PERSONAL_UNIGRAM_CACHE_LIMIT as int);
            let r = insert_text_bounded(c, sg, PERSONAL_UNIGRAM_CACHE_LIMIT as int);
            assert(text_contexts_at_least(c, 0));
            assert forall|i: int| 0 <= i < r.len() implies (#[trigger] r[i]).context_len == 0 by {
                let q = first_index(c, preceded_by_text_key(sg));
                if !(c.len() >= PERSONAL_UNIGRAM_CACHE_LIMIT && c.len() > 0 && !text_key_precedes(sg, c.last())) {
                    let o2 = if c.len() >= PERSONAL_UNIGRAM_CACHE_LIMIT && c.len() > 0 {
                        c.drop_last()
                    } else {
                        c
                    };
                    lemma_first_index_exists(o2, preceded_by_text_key(sg));
                    let k = first_index(o2, preceded_by_text_key(sg));
                    o2.insert_ensures(k, sg);
                    if i < k {
                        assert(r[i] == o2[i] && o2[i] == c[i]);
                    } else if i > k {
                        assert(r[i] == o2[i - 1] && o2[i - 1] == c[i - 1]);
                    }
                }
            }
        }
    }
}

proof fn lemma_text_cache_collect_ranked(
    ts: Seq<TextEntryView>,
    c: Seq<PersonalAutosuggestTextSuggestion>,
    i: int,
    limit: int,
    min_count: u16,
    out: Seq<PersonalAutosuggestTextSuggestion>,
)
    requires
        0 <= i,
        texts_ranked(out),
        texts_ranked(c),
        text_indices_below(out, ts.len() as int),
        text_indices_below(c, ts.len() as int),
        forall|a: int, j: int|
            0 <= a < out.len() && i <= j < c.len() && (#[trigger] out[a]).entry_index != (#[trigger] c[j]).entry_index
                ==> text_key_precedes(out[a], c[j]),
    ensures
        texts_ranked(text_cache_collect(ts, c, i, limit, min_count, out)),
        text_indices_below(text_cache_collect(ts, c, i, limit, min_count, out), ts.len() as int),
    decreases c.len() - i,
{
    if i >= c.len() || out.len() >= limit {
    } else {
        let sg = c[i];
        let skip = sg.count < min_count || text_in(ts, out, ts[sg.entry_index as int].text);
        if skip {
            lemma_text_cache_collect_ranked(ts, c, i + 1, limit, min_count, out);
        } else {
            lemma_index_in_list_means_text_in(ts, out, sg.entry_index as int);
            let o = out.push(sg);
            assert forall|a: int, b: int| 0 <= a < b < o.len() implies text_key_precedes(#[trigger] o[a], #[trigger] o[b]) by {
                if b == out.len() {
                    assert(o[a] == out[a] && o[b] == c[i]);
                } else {
                    assert(o[a] == out[a] && o[b] == out[b]);
                }
            }
            assert forall|a: int, j: int|
                0 <= a < o.len() && i + 1 <= j < c.len() && (#[trigger] o[a]).entry_index != (#[trigger] c[j]).entry_index implies text_key_precedes(
                o[a],
                c[j],
            ) by {
                if a == out.len() {
                    assert(o[a] == c[i]);
                } else {
                    assert(o[a] == out[a]);
                }
            }
            assert forall|a: int| 0 <= a < o.len() implies (#[trigger] o[a]).entry_index < ts.len() by {
                if a < out.len() {
                    assert(o[a] == out[a]);
                }
            }
            lemma_text_cache_collect_ranked(ts, c, i + 1, limit, min_count, o);
        }
    }
}

proof fn lemma_collect_texts_keys_ranked(
    ts: Seq<TextEntryView>,
    keys: Seq<PersonalContext>,
    i: int,
    limit: int,
    min_count: u16,
    out: Seq<PersonalAutosuggestTextSuggestion>,
)
    requires
        0 <= i,
        ts.len() <= usize::MAX,
        texts_ranked(out),
        text_indices_below(out, ts.len() as int),
        forall|k: int| 0 <= k < keys.len() - 1 ==> (#[trigger] keys[k]).len > 0,
        i < keys.len() ==> text_contexts_at_least(out, 1),
    ensures
        texts_ranked(collect_texts_keys(ts, text_cache(ts), keys, i, limit, min_count, out)),
    decreases keys.len() - i,
{
    let cache = text_cache(ts);
    if i >= keys.len() || out.len() >= limit {
    } else {
        let ctx = keys[i];
        lemma_text_cache_upto_ranked(ts, ts.len() as int);
        if ctx.len == 0 {
            assert forall|a: int, j: int|
                0 <= a < out.len() && 0 <= j < cache.len() && (#[trigger] out[a]).entry_index != (#[trigger] cache[j]).entry_index
                    implies text_key_precedes(out[a], cache[j]) by {
                assert(cache[j].context_len == 0);
            }
            lemma_text_cache_collect_ranked(ts, cache, 0, limit, min_count, out);
            let o1 = text_cache_collect(ts, cache, 0, limit, min_count, out);
            lemma_scan_texts_ranked(ts, 0, ctx, limit, min_count, o1);
        } else {
            lemma_scan_texts_ranked(ts, 0, ctx, limit, min_count, out);
        }
        lemma_collect_texts_keys_ranked(ts, keys, i + 1, limit, min_count, collect_texts(ts, cache, ctx, limit, min_count, out));
    }
}

/// The store's personal-word suggestions for a personal context come with a
/// longer context first; within the same context length, a higher count
/// first; then the more recent; then the earlier entry.
pub proof fn lemma_personal_text_suggestions_ranked(v: crate::personal::PersonalView, p: PersonalContextView, limit: usize)
    requires
        v.text_entries.len() <= usize::MAX,
    ensures
        ({
            let out = collect_texts_keys(
                v.text_entries,
                text_cache(v.text_entries),
                query_keys(p),
                0,
                if limit < 1 {
                    1
                } else {
                    limit as int
                },
                v.config.min_count,
                Seq::empty(),
            );
            forall|i: int, j: int|
                0 <= i < j < out.len() ==> (#[trigger] out[i]).context_len > (#[trigger] out[j]).context_len || (
                out[i].context_len == out[j].context_len && (out[i].count > out[j].count || (out[i].count
                == out[j].count && (out[i].last_seen > out[j].last_seen || (out[i].last_seen == out[j].last_seen
                && out[i].entry_index < out[j].entry_index)))))
        }),
{
    let keys = query_keys(p);
    let ids = crate::personal_types::ctx_ids(p.ctx);
    let n: int = if ids.len() < 3 {
        ids.len() as int
    } else {
        3
    };
    let head = if p.is_sentence_start() {
        seq![crate::personal_types::spec_sentence_start_ctx()]
    } else {
        Seq::<PersonalContext>::empty()
    };
    let mid = Seq::new(n as nat, |i: int| crate::personal_types::spec_from_suffix(ids, n - i));
    assert(keys == head + mid + seq![spec_empty_ctx()]);
    assert forall|k: int| 0 <= k < keys.len() - 1 implies (#[trigger] keys[k]).len > 0 by {
        if k < head.len() {
            assert(keys[k] == head[k]);
        } else {
            assert(keys[k] == mid[k - head.len()]);
        }
    }
    lemma_collect_texts_keys_ranked(
        v.text_entries,
        keys,
        0,
        if limit < 1 {
            1
        } else {
            limit as int
        },
        v.config.min_count,
        Seq::empty(),
    );
}


proof fn lemma_decayed_upto_halves(es: Seq<PersonalEntry>, n: int)
    requires
        0 <= n <= es.len(),
    ensures
        forall|k: int|
            0 <= k < crate::personal_maint::decayed_upto(es, n).len() ==> exists|j: int|
                0 <= j < n && (#[trigger] es[j]).context == (#[trigger] crate::personal_maint::decayed_upto(es, n)[k]).context
                    && es[j].target_id == crate::personal_maint::decayed_upto(es, n)[k].target_id
                    && es[j].last_seen == crate::personal_maint::decayed_upto(es, n)[k].last_seen
                    && 2 * crate::personal_maint::decayed_upto(es, n)[k].count <= es[j].count
                    <= 2 * crate::personal_maint::decayed_upto(es, n)[k].count + 1,
        forall|j: int|
            0 <= j < n && (#[trigger] es[j]).count >= 2 ==> exists|k: int|
                0 <= k < crate::personal_maint::decayed_upto(es, n).len() && (#[trigger] crate::personal_maint::decayed_upto(
                    es,
                    n,
                )[k]).context == es[j].context && crate::personal_maint::decayed_upto(es, n)[k].target_id
                    == es[j].target_id && crate::personal_maint::decayed_upto(es, n)[k].count == es[j].count / 2,
    decreases n,
{
    if n > 0 {
        lemma_decayed_upto_halves(es, n - 1);
        let d = crate::personal_maint::decayed_upto(es, n - 1);
        let r = crate::personal_maint::decayed_upto(es, n);
        let e = es[n - 1];
        assert forall|k: int| 0 <= k < r.len() implies exists|j: int|
            0 <= j < n && (#[trigger] es[j]).context == (#[trigger] r[k]).context && es[j].target_id == r[k].target_id
                && es[j].last_seen == r[k].last_seen && 2 * r[k].count <= es[j].count <= 2 * r[k].count + 1 by {
            if k < d.len() {
                assert(r[k] == d[k]);
                let j = choose|j: int|
                    0 <= j < n - 1 && (#[trigger] es[j]).context == (#[trigger] d[k]).context && es[j].target_id
                        == d[k].target_id && es[j].last_seen == d[k].last_seen && 2 * d[k].count <= es[j].count <= 2
                        * d[k].count + 1;
                assert(es[j].context == r[k].context);
            } else {
                assert(r[k] == crate::personal_maint::halved(e));
                assert(es[n - 1].context == r[k].context);
            }
        }
        assert forall|j: int| 0 <= j < n && (#[trigger] es[j]).count >= 2 implies exists|k: int|
            0 <= k < r.len() && (#[trigger] r[k]).context == es[j].context && r[k].target_id == es[j].target_id
                && r[k].count == es[j].count / 2 by {
            if j < n - 1 {
                let k = choose|k: int|
                    0 <= k < d.len() && (#[trigger] d[k]).context == es[j].context && d[k].target_id == es[j].target_id
                        && d[k].count == es[j].count / 2;
                assert(r[k] == d[k]);
            } else {
                assert(r[d.len() as int] == crate::personal_maint::halved(e));
            }
        }
    }
}

/// Aging halves every count: each transition left after aging comes from
/// one with the same context, target and last use whose count was twice
/// its new count (rounded down), and every transition counted at least
/// twice survives with half its count.
pub proof fn lemma_decay_halves_counts(v: crate::personal::PersonalView)
    ensures
        ({
            let w = crate::personal::decay_v(v);
            &&& forall|k: int|
                0 <= k < w.entries.len() ==> exists|j: int|
                    0 <= j < v.entries.len() && (#[trigger] v.entries[j]).context == (#[trigger] w.entries[k]).context
                        && v.entries[j].target_id == w.entries[k].target_id && v.entries[j].last_seen
                        == w.entries[k].last_seen && 2 * w.entries[k].count <= v.entries[j].count <= 2
                        * w.entries[k].count + 1
            &&& forall|j: int|
                0 <= j < v.entries.len() && (#[trigger] v.entries[j]).count >= 2 ==> exists|k: int|
                    0 <= k < w.entries.len() && (#[trigger] w.entries[k]).context == v.entries[j].context
                        && w.entries[k].target_id == v.entries[j].target_id && w.entries[k].count == v.entries[j].count / 2
        }),
{
    let w = crate::personal::decay_v(v);
    assert(w.entries == crate::personal_maint::decayed_upto(v.entries, v.entries.len() as int));
    lemma_decayed_upto_halves(v.entries, v.entries.len() as int);
}


proof fn lemma_decayed_text_upto_halves(ts: Seq<TextEntryView>, n: int)
    requires
        0 <= n <= ts.len(),
    ensures
        forall|k: int|
            0 <= k < crate::personal_maint::decayed_text_upto(ts, n).len() ==> exists|j: int|
                0 <= j < n && (#[trigger] ts[j]).context == (#[trigger] crate::personal_maint::decayed_text_upto(ts, n)[k]).context
                    && ts[j].text == crate::personal_maint::decayed_text_upto(ts, n)[k].text
                    && 2 * crate::personal_maint::decayed_text_upto(ts, n)[k].count <= ts[j].count
                    <= 2 * crate::personal_maint::decayed_text_upto(ts, n)[k].count + 1,
    decreases n,
{
    if n > 0 {
        lemma_decayed_text_upto_halves(ts, n - 1);
        let d = crate::personal_maint::decayed_text_upto(ts, n - 1);
        let r = crate::personal_maint::decayed_text_upto(ts, n);
        assert forall|k: int| 0 <= k < r.len() implies exists|j: int|
            0 <= j < n && (#[trigger] ts[j]).context == (#[trigger] r[k]).context && ts[j].text == r[k].text
                && 2 * r[k].count <= ts[j].count <= 2 * r[k].count + 1 by {
            if k < d.len() {
                assert(r[k] == d[k]);
                let j = choose|j: int|
                    0 <= j < n - 1 && (#[trigger] ts[j]).context == (#[trigger] d[k]).context && ts[j].text == d[k].text
                        && 2 * d[k].count <= ts[j].count <= 2 * d[k].count + 1;
                assert(ts[j].context == r[k].context);
            } else {
                assert(r[k] == crate::personal_maint::halved_text(ts[n - 1]));
                assert(ts[n - 1].context == r[k].context);
            }
        }
    }
}

/// Aging halves the count of every personal word too: each one left after
/// aging comes from one with the same context and text whose count was
/// twice its new count (rounded down).
pub proof fn lemma_decay_halves_text_counts(v: crate::personal::PersonalView)
    ensures
        ({
            let w = crate::personal::decay_v(v);
            forall|k: int|
                0 <= k < w.text_entries.len() ==> exists|j: int|
                    0 <= j < v.text_entries.len() && (#[trigger] v.text_entries[j]).context
                        == (#[trigger] w.text_entries[k]).context && v.text_entries[j].text == w.text_entries[k].text
                        && 2 * w.text_entries[k].count <= v.text_entries[j].count <= 2 * w.text_entries[k].count + 1
        }),
{
    let w = crate::personal::decay_v(v);
    assert(w.text_entries == crate::personal_maint::decayed_text_upto(v.text_entries, v.text_entries.len() as int));
    lemma_decayed_text_upto_halves(v.text_entries, v.text_entries.len() as int);
}

/// The store's word suggestions for a personal context come with a longer
/// context first; within the same context length, a higher count first;
/// then the more recent; then the lower token id.
pub proof fn lemma_personal_suggestions_order(v: crate::personal::PersonalView, p: PersonalContextView, limit: usize)
    requires
        unigram_cache_ok(v.unigram_cache, v.entries),
    ensures
        ({
            let out = collect_ids_keys(
                v.entries,
                v.unigram_cache,
                query_keys(p),
                0,
                if limit < 1 {
                    1
                } else {
                    limit as int
                },
                v.config.min_count,
                Seq::empty(),
            );
            forall|i: int, j: int|
                0 <= i < j < out.len() ==> (#[trigger] out[i]).context_len > (#[trigger] out[j]).context_len || (
                out[i].context_len == out[j].context_len && (out[i].count > out[j].count || (out[i].count
                == out[j].count && (out[i].last_seen > out[j].last_seen || (out[i].last_seen == out[j].last_seen
                && out[i].token_id < out[j].token_id)))))
        }),
{
    lemma_personal_suggestions_ranked(v, p, limit);
}

} // verus!
