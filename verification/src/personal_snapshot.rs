//! The compact personal snapshot: a fixed header, fixed-size transition
//! records, then personal words with their UTF-8 text.

use vstd::prelude::*;
use crate::bytes::{spec_u32_le, spec_u32_bytes, u32_le_at, push_u32_le, utf8_str, sub_slice};
use crate::candidate::first_index;
use crate::context::AUTOSUGGEST_UNK_ID;
use crate::personal_types::{
    entry_key_lt, entry_stronger, spec_is_personal_text, text_bytes, text_entry_stronger,
    text_key_lt, PersonalContext, PersonalEntry, TextEntryView,
    DEFAULT_PERSONAL_TEXT_AUTOSUGGEST_ENTRIES, PERSONAL_TEXT_TOTAL_MAX_BYTES,
};
use crate::personal_text::text_total;
use crate::personal::text_views;
use crate::personal_types::{
    PersonalTextEntry, is_personal_text_token, compare_contexts, KeyOrder, entry_stronger_exec,
    text_entry_stronger_exec,
};
use crate::bytes::{byte_order, ByteOrder};

verus! {

pub const PERSONAL_VERSION_V1: u32 = 1;
pub const PERSONAL_VERSION_V2: u32 = 2;
pub const PERSONAL_VERSION: u32 = 3;
pub const PERSONAL_V1_V2_HEADER_LEN: usize = 32;
pub const PERSONAL_V1_CONTEXT_TOKENS: usize = 2;
pub const PERSONAL_V1_ENTRY_LEN: usize = 24;

/// Errors of reading a personal snapshot.
#[derive(Debug, Clone, Copy, PartialEq, Eq, Structural)]
pub enum PersonalAutosuggestError {
    UnexpectedEof,
    InvalidMagic,
    UnsupportedVersion(u32),
    InvalidLayout,
}

/// Errors of importing a snapshot for a model: the bytes, or the ids and
/// fingerprint against the model.
#[derive(Debug, Clone, Copy, PartialEq, Eq, Structural)]
pub enum PersonalAutosuggestSnapshotError {
    Snapshot(PersonalAutosuggestError),
    Model(crate::artifact::AutosuggestArtifactError),
}

impl From<PersonalAutosuggestError> for PersonalAutosuggestSnapshotError {
    fn from(error: PersonalAutosuggestError) -> (r: Self) {
        PersonalAutosuggestSnapshotError::Snapshot(error)
    }
}

impl vstd::std_specs::convert::FromSpecImpl<PersonalAutosuggestError> for PersonalAutosuggestSnapshotError {
    open spec fn obeys_from_spec() -> bool {
        true
    }

    open spec fn from_spec(v: PersonalAutosuggestError) -> Self {
        PersonalAutosuggestSnapshotError::Snapshot(v)
    }
}

impl From<crate::artifact::AutosuggestArtifactError> for PersonalAutosuggestSnapshotError {
    fn from(error: crate::artifact::AutosuggestArtifactError) -> (r: Self) {
        PersonalAutosuggestSnapshotError::Model(error)
    }
}

impl vstd::std_specs::convert::FromSpecImpl<crate::artifact::AutosuggestArtifactError> for PersonalAutosuggestSnapshotError {
    open spec fn obeys_from_spec() -> bool {
        true
    }

    open spec fn from_spec(v: crate::artifact::AutosuggestArtifactError) -> Self {
        PersonalAutosuggestSnapshotError::Model(v)
    }
}

/// `OBPERSUGLM_V1` followed by three zero bytes.
pub open spec fn personal_magic() -> Seq<u8> {
    seq![0x4fu8, 0x42, 0x50, 0x45, 0x52, 0x53, 0x55, 0x47, 0x4c, 0x4d, 0x5f, 0x56, 0x31, 0, 0, 0]
}

/// Little-endian encodings of `xs`, in order.
pub open spec fn words(xs: Seq<u32>) -> Seq<u8>
    decreases xs.len(),
{
    if xs.len() == 0 {
        Seq::empty()
    } else {
        words(xs.drop_last()) + spec_u32_bytes(xs.last())
    }
}

pub open spec fn entry_words(e: PersonalEntry) -> Seq<u32> {
    seq![e.context.len as u32, e.context.id0, e.context.id1, e.context.id2, e.target_id, e.count as u32, e.last_seen]
}

pub open spec fn entry_bytes(e: PersonalEntry) -> Seq<u8> {
    words(entry_words(e))
}

pub open spec fn text_entry_bytes(t: TextEntryView) -> Seq<u8> {
    words(
        seq![
            t.context.len as u32,
            t.context.id0,
            t.context.id1,
            t.context.id2,
            t.count as u32,
            t.last_seen,
            text_bytes(t.text).len() as u32,
        ],
    ) + text_bytes(t.text)
}

pub open spec fn entries_bytes(es: Seq<PersonalEntry>) -> Seq<u8>
    decreases es.len(),
{
    if es.len() == 0 {
        Seq::empty()
    } else {
        entries_bytes(es.drop_last()) + entry_bytes(es.last())
    }
}

pub open spec fn texts_bytes(ts: Seq<TextEntryView>) -> Seq<u8>
    decreases ts.len(),
{
    if ts.len() == 0 {
        Seq::empty()
    } else {
        texts_bytes(ts.drop_last()) + text_entry_bytes(ts.last())
    }
}

/// A current-version snapshot of the given contents.
pub open spec fn snapshot_bytes(
    entries: Seq<PersonalEntry>,
    texts: Seq<TextEntryView>,
    tick: u32,
    fingerprint: u32,
) -> Seq<u8> {
    personal_magic() + words(
        seq![PERSONAL_VERSION, tick, entries.len() as u32, fingerprint, texts.len() as u32, 0u32],
    ) + entries_bytes(entries) + texts_bytes(texts)
}

/// The fixed header fields of a snapshot.
pub struct SnapHeader {
    pub version: u32,
    pub tick: u32,
    pub count: u32,
    pub fingerprint: u32,
    pub text_count: u32,
    pub slots: int,
    pub entry_len: int,
    pub header_len: int,
}

pub open spec fn parse_header(b: Seq<u8>) -> Result<SnapHeader, PersonalAutosuggestError> {
    if b.len() < 32 {
        Err(PersonalAutosuggestError::UnexpectedEof)
    } else if b.subrange(0, 16) != personal_magic() {
        Err(PersonalAutosuggestError::InvalidMagic)
    } else {
        let version = spec_u32_le(b, 16);
        if version != PERSONAL_VERSION_V1 && version != PERSONAL_VERSION_V2 && version != PERSONAL_VERSION {
            Err(PersonalAutosuggestError::UnsupportedVersion(version))
        } else if version == PERSONAL_VERSION && b.len() < 40 {
            Err(PersonalAutosuggestError::UnexpectedEof)
        } else if version == PERSONAL_VERSION && spec_u32_le(b, 36) != 0 {
            Err(PersonalAutosuggestError::InvalidLayout)
        } else {
            Ok(
                SnapHeader {
                    version,
                    tick: spec_u32_le(b, 20),
                    count: spec_u32_le(b, 24),
                    fingerprint: spec_u32_le(b, 28),
                    text_count: if version == PERSONAL_VERSION {
                        spec_u32_le(b, 32)
                    } else {
                        0
                    },
                    slots: if version == PERSONAL_VERSION_V1 {
                        2
                    } else {
                        3
                    },
                    entry_len: if version == PERSONAL_VERSION_V1 {
                        24
                    } else {
                        28
                    },
                    header_len: if version == PERSONAL_VERSION {
                        40
                    } else {
                        32
                    },
                },
            )
        }
    }
}

/// Where the personal words start, or the layout error of the records.
pub open spec fn records_end(b: Seq<u8>, h: SnapHeader) -> Result<int, PersonalAutosuggestError> {
    let id_len = h.count * h.entry_len;
    if id_len > usize::MAX || h.header_len + id_len > usize::MAX {
        Err(PersonalAutosuggestError::InvalidLayout)
    } else if h.header_len + id_len > b.len() {
        Err(PersonalAutosuggestError::UnexpectedEof)
    } else if h.version != PERSONAL_VERSION && h.header_len + id_len != b.len() {
        Err(PersonalAutosuggestError::InvalidLayout)
    } else {
        Ok(h.header_len + id_len)
    }
}

/// Transition record `i`; its context has `slots` stored ids (missing slots
/// are zero). A reserved target or a count outside 1..=65535 is invalid.
pub open spec fn parse_entry(b: Seq<u8>, h: SnapHeader, i: int) -> Result<PersonalEntry, PersonalAutosuggestError> {
    let off = h.header_len + i * h.entry_len;
    let cl = spec_u32_le(b, off);
    let toff = off + 4 + h.slots * 4;
    let target = spec_u32_le(b, toff);
    let count = spec_u32_le(b, toff + 4);
    if cl > h.slots {
        Err(PersonalAutosuggestError::InvalidLayout)
    } else if target <= AUTOSUGGEST_UNK_ID || count == 0 || count > u16::MAX {
        Err(PersonalAutosuggestError::InvalidLayout)
    } else {
        Ok(
            PersonalEntry {
                context: PersonalContext {
                    id0: spec_u32_le(b, off + 4),
                    id1: spec_u32_le(b, off + 8),
                    id2: if h.slots > 2 {
                        spec_u32_le(b, off + 12)
                    } else {
                        0
                    },
                    len: cl as u8,
                },
                target_id: target,
                count: count as u16,
                last_seen: spec_u32_le(b, toff + 8),
            },
        )
    }
}

/// The first `n` transition records, or the first record error.
pub open spec fn parse_entries(b: Seq<u8>, h: SnapHeader, n: int) -> Result<Seq<PersonalEntry>, PersonalAutosuggestError>
    decreases n,
{
    if n <= 0 {
        Ok(Seq::empty())
    } else {
        match parse_entries(b, h, n - 1) {
            Err(e) => Err(e),
            Ok(s) => match parse_entry(b, h, n - 1) {
                Err(e) => Err(e),
                Ok(e) => Ok(s.push(e)),
            },
        }
    }
}

pub open spec fn max_u32(a: u32, b: u32) -> u32 {
    if a < b {
        b
    } else {
        a
    }
}

/// The newest tick among `es`, starting from `m`.
pub open spec fn max_seen_entries(es: Seq<PersonalEntry>, m: u32) -> u32
    decreases es.len(),
{
    if es.len() == 0 {
        m
    } else {
        max_u32(max_seen_entries(es.drop_last(), m), es.last().last_seen)
    }
}

/// The personal-word record at `off` and where it ends.
pub open spec fn parse_text_at(b: Seq<u8>, off: int) -> Result<(TextEntryView, int), PersonalAutosuggestError> {
    if off + 4 > b.len() {
        Err(PersonalAutosuggestError::UnexpectedEof)
    } else if spec_u32_le(b, off) > 3 {
        Err(PersonalAutosuggestError::InvalidLayout)
    } else if off + 28 > b.len() {
        Err(PersonalAutosuggestError::UnexpectedEof)
    } else {
        let count = spec_u32_le(b, off + 16);
        let start = off + 28;
        let end = start + spec_u32_le(b, off + 24);
        if end > usize::MAX {
            Err(PersonalAutosuggestError::InvalidLayout)
        } else if end > b.len() {
            Err(PersonalAutosuggestError::UnexpectedEof)
        } else if !vstd::utf8::valid_utf8(b.subrange(start, end)) {
            Err(PersonalAutosuggestError::InvalidLayout)
        } else {
            let t = vstd::utf8::decode_utf8(b.subrange(start, end));
            if count == 0 || count > u16::MAX || !spec_is_personal_text(t) {
                Err(PersonalAutosuggestError::InvalidLayout)
            } else {
                Ok(
                    (
                        TextEntryView {
                            context: PersonalContext {
                                id0: spec_u32_le(b, off + 4),
                                id1: spec_u32_le(b, off + 8),
                                id2: spec_u32_le(b, off + 12),
                                len: spec_u32_le(b, off) as u8,
                            },
                            text: t,
                            count: count as u16,
                            last_seen: spec_u32_le(b, off + 20),
                        },
                        end,
                    ),
                )
            }
        }
    }
}

/// Whether a personal word read from a snapshot is kept: while the entry
/// and byte caps allow.
pub open spec fn text_fits(kept: Seq<TextEntryView>, t: Seq<char>) -> bool {
    kept.len() < DEFAULT_PERSONAL_TEXT_AUTOSUGGEST_ENTRIES && text_total(kept) + text_bytes(t).len()
        <= PERSONAL_TEXT_TOTAL_MAX_BYTES
}

/// Reads `k` more personal words from `off`: the kept words, the end offset
/// and the newest tick seen.
pub open spec fn parse_texts(
    b: Seq<u8>,
    off: int,
    k: int,
    kept: Seq<TextEntryView>,
    m: u32,
) -> Result<(Seq<TextEntryView>, int, u32), PersonalAutosuggestError>
    decreases k,
{
    if k <= 0 {
        Ok((kept, off, m))
    } else {
        match parse_text_at(b, off) {
            Err(e) => Err(e),
            Ok((t, end)) => parse_texts(
                b,
                end,
                k - 1,
                if text_fits(kept, t.text) {
                    kept.push(t)
                } else {
                    kept
                },
                max_u32(m, t.last_seen),
            ),
        }
    }
}

pub open spec fn entry_before(a: PersonalEntry, b: PersonalEntry, key_order: bool) -> bool {
    if key_order {
        entry_key_lt(a, b)
    } else {
        entry_stronger(a, b)
    }
}

pub open spec fn preceded_entry(x: PersonalEntry, key_order: bool) -> spec_fn(PersonalEntry) -> bool {
    |y: PersonalEntry| entry_before(x, y, key_order)
}

/// `x` placed before the first element it must precede.
pub open spec fn ins_entry(acc: Seq<PersonalEntry>, x: PersonalEntry, key_order: bool) -> Seq<PersonalEntry> {
    acc.insert(first_index(acc, preceded_entry(x, key_order)), x)
}

/// Stable insertion sort by key order or by strength (strongest first).
pub open spec fn sort_entries(s: Seq<PersonalEntry>, key_order: bool) -> Seq<PersonalEntry>
    decreases s.len(),
{
    if s.len() == 0 {
        Seq::empty()
    } else {
        ins_entry(sort_entries(s.drop_last(), key_order), s.last(), key_order)
    }
}

/// Drops each entry whose key equals its predecessor's.
pub open spec fn dedup_entries(s: Seq<PersonalEntry>) -> Seq<PersonalEntry>
    decreases s.len(),
{
    if s.len() == 0 {
        Seq::empty()
    } else {
        let d = dedup_entries(s.drop_last());
        if d.len() > 0 && d.last().context == s.last().context && d.last().target_id == s.last().target_id {
            d
        } else {
            d.push(s.last())
        }
    }
}

pub open spec fn text_before(a: TextEntryView, b: TextEntryView, key_order: bool) -> bool {
    if key_order {
        text_key_lt(a, b)
    } else {
        text_entry_stronger(a, b)
    }
}

pub open spec fn preceded_text(x: TextEntryView, key_order: bool) -> spec_fn(TextEntryView) -> bool {
    |y: TextEntryView| text_before(x, y, key_order)
}

pub open spec fn ins_text(acc: Seq<TextEntryView>, x: TextEntryView, key_order: bool) -> Seq<TextEntryView> {
    acc.insert(first_index(acc, preceded_text(x, key_order)), x)
}

pub open spec fn sort_texts(s: Seq<TextEntryView>, key_order: bool) -> Seq<TextEntryView>
    decreases s.len(),
{
    if s.len() == 0 {
        Seq::empty()
    } else {
        ins_text(sort_texts(s.drop_last(), key_order), s.last(), key_order)
    }
}

pub open spec fn dedup_texts(s: Seq<TextEntryView>) -> Seq<TextEntryView>
    decreases s.len(),
{
    if s.len() == 0 {
        Seq::empty()
    } else {
        let d = dedup_texts(s.drop_last());
        if d.len() > 0 && d.last().context == s.last().context && d.last().text == s.last().text {
            d
        } else {
            d.push(s.last())
        }
    }
}

pub open spec fn cap<T>(s: Seq<T>, n: int) -> Seq<T> {
    if s.len() > n {
        s.take(n)
    } else {
        s
    }
}

/// The transitions a snapshot loads into a store of `max_entries`: the
/// strongest `max_entries` by count, then recency, then lower target id
/// (entries equal in all three keep file order), in key order, one per key.
pub open spec fn loaded_entries(parsed: Seq<PersonalEntry>, max_entries: int) -> Seq<PersonalEntry> {
    dedup_entries(sort_entries(cap(sort_entries(parsed, false), max_entries), true))
}

/// The personal words a snapshot loads: the strongest 512, in key order,
/// one per key.
pub open spec fn loaded_texts(kept: Seq<TextEntryView>) -> Seq<TextEntryView> {
    dedup_texts(sort_texts(cap(sort_texts(kept, false), DEFAULT_PERSONAL_TEXT_AUTOSUGGEST_ENTRIES as int), true))
}

/// The contents a snapshot decodes to: transitions, personal words, the
/// model fingerprint and the newest tick; or the first error.
pub open spec fn parse_snapshot(b: Seq<u8>, max_entries: int) -> Result<
    (Seq<PersonalEntry>, Seq<TextEntryView>, u32, u32),
    PersonalAutosuggestError,
> {
    match parse_header(b) {
        Err(e) => Err(e),
        Ok(h) => match records_end(b, h) {
            Err(e) => Err(e),
            Ok(off) => match parse_entries(b, h, h.count as int) {
                Err(e) => Err(e),
                Ok(es) => match parse_texts(b, off, h.text_count as int, Seq::empty(), max_seen_entries(es, h.tick)) {
                    Err(e) => Err(e),
                    Ok((kept, end, m)) => if end != b.len() {
                        Err(PersonalAutosuggestError::InvalidLayout)
                    } else {
                        Ok((loaded_entries(es, max_entries), loaded_texts(kept), h.fingerprint, m))
                    },
                },
            },
        },
    }
}


pub open spec fn keys_nondecreasing(s: Seq<PersonalEntry>) -> bool {
    forall|i: int, j: int| 0 <= i < j < s.len() ==> !entry_key_lt(#[trigger] s[j], #[trigger] s[i])
}

pub open spec fn text_keys_nondecreasing(s: Seq<TextEntryView>) -> bool {
    forall|i: int, j: int| 0 <= i < j < s.len() ==> !text_key_lt(#[trigger] s[j], #[trigger] s[i])
}

/// Sorting keeps the length and every property that all elements have.
pub proof fn lemma_sort_entries_all(s: Seq<PersonalEntry>, k: bool, p: spec_fn(PersonalEntry) -> bool)
    requires
        forall|i: int| 0 <= i < s.len() ==> p(#[trigger] s[i]),
    ensures
        sort_entries(s, k).len() == s.len(),
        forall|i: int| 0 <= i < sort_entries(s, k).len() ==> p(#[trigger] sort_entries(s, k)[i]),
    decreases s.len(),
{
    if s.len() > 0 {
        let t = s.drop_last();
        assert forall|i: int| 0 <= i < t.len() implies p(#[trigger] t[i]) by {
            assert(t[i] == s[i]);
        }
        lemma_sort_entries_all(t, k, p);
        let acc = sort_entries(t, k);
        crate::personal::lemma_first_index_exists(acc, preceded_entry(s.last(), k));
        let q = first_index(acc, preceded_entry(s.last(), k));
        let r = acc.insert(q, s.last());
        assert forall|i: int| 0 <= i < r.len() implies p(#[trigger] r[i]) by {
            if i < q {
                assert(r[i] == acc[i]);
            } else if i > q {
                assert(r[i] == acc[i - 1]);
            }
        }
    }
}

/// The key sort orders by key.
pub proof fn lemma_sort_entries_keys(s: Seq<PersonalEntry>)
    ensures
        keys_nondecreasing(sort_entries(s, true)),
    decreases s.len(),
{
    if s.len() > 0 {
        let t = s.drop_last();
        lemma_sort_entries_keys(t);
        let acc = sort_entries(t, true);
        let x = s.last();
        let pr = preceded_entry(x, true);
        crate::personal::lemma_first_index_exists(acc, pr);
        let q = first_index(acc, pr);
        let r = acc.insert(q, x);
        assert forall|i: int, j: int| 0 <= i < j < r.len() implies !entry_key_lt(#[trigger] r[j], #[trigger] r[i]) by {
            if j < q {
                assert(r[i] == acc[i] && r[j] == acc[j]);
            } else if j == q {
                assert(r[i] == acc[i] && r[j] == x);
                assert(!pr(acc[i]));
            } else if i == q {
                assert(r[j] == acc[j - 1]);
                assert(pr(acc[q]));
                if j - 1 > q {
                    assert(!entry_key_lt(acc[j - 1], acc[q]));
                }
                crate::personal::lemma_key_order(acc[j - 1], x, acc[q]);
            } else if i < q {
                assert(r[i] == acc[i] && r[j] == acc[j - 1]);
            } else {
                assert(r[i] == acc[i - 1] && r[j] == acc[j - 1]);
            }
        }
    }
}

/// Dropping repeated keys of a key-ordered sequence leaves it strictly
/// sorted, with every element at most the last one.
pub proof fn lemma_dedup_entries(s: Seq<PersonalEntry>, p: spec_fn(PersonalEntry) -> bool)
    requires
        keys_nondecreasing(s),
        forall|i: int| 0 <= i < s.len() ==> p(#[trigger] s[i]),
    ensures
        crate::personal::entries_sorted(dedup_entries(s)),
        dedup_entries(s).len() <= s.len(),
        forall|i: int| 0 <= i < dedup_entries(s).len() ==> p(#[trigger] dedup_entries(s)[i]),
        s.len() > 0 ==> forall|i: int| 0 <= i < dedup_entries(s).len() ==> !entry_key_lt(s.last(), #[trigger] dedup_entries(s)[i]),
    decreases s.len(),
{
    if s.len() > 0 {
        let t = s.drop_last();
        assert forall|i: int, j: int| 0 <= i < j < t.len() implies !entry_key_lt(#[trigger] t[j], #[trigger] t[i]) by {
            assert(t[i] == s[i] && t[j] == s[j]);
        }
        assert forall|i: int| 0 <= i < t.len() implies p(#[trigger] t[i]) by {
            assert(t[i] == s[i]);
        }
        lemma_dedup_entries(t, p);
        let d = dedup_entries(t);
        let x = s.last();
        if t.len() > 0 {
            assert(!entry_key_lt(x, t.last())) by {
                assert(t.last() == s[s.len() - 2]);
            }
        }
        assert forall|i: int| 0 <= i < d.len() implies !entry_key_lt(x, #[trigger] d[i]) by {
            crate::personal::lemma_key_order(x, t.last(), d[i]);
            crate::personal::lemma_key_order(d[i], t.last(), x);
        }
        if d.len() > 0 && d.last().context == x.context && d.last().target_id == x.target_id {
        } else {
            let d2 = d.push(x);
            if d.len() > 0 {
                crate::personal::lemma_key_order(d.last(), x, x);
                assert(entry_key_lt(d.last(), x));
            }
            assert forall|i: int, j: int| 0 <= i < j < d2.len() implies entry_key_lt(#[trigger] d2[i], #[trigger] d2[j]) by {
                if j < d.len() {
                    assert(entry_key_lt(d[i], d[j]));
                } else {
                    if i < d.len() - 1 {
                        assert(entry_key_lt(d[i], d.last()));
                        crate::personal::lemma_key_order(d[i], d.last(), x);
                    }
                }
            }
            assert forall|i: int| 0 <= i < d2.len() implies !entry_key_lt(x, #[trigger] d2[i]) by {
                if i == d.len() {
                    crate::personal::lemma_key_order(x, x, x);
                }
            }
            assert forall|i: int| 0 <= i < d2.len() implies p(#[trigger] d2[i]) by {
                if i < d.len() {
                    assert(d2[i] == d[i]);
                }
            }
        }
    }
}

pub proof fn lemma_cap_all<T>(s: Seq<T>, n: int, p: spec_fn(T) -> bool)
    requires
        forall|i: int| 0 <= i < s.len() ==> p(#[trigger] s[i]),
        n >= 0,
    ensures
        cap(s, n).len() <= n,
        cap(s, n).len() <= s.len(),
        forall|i: int| 0 <= i < cap(s, n).len() ==> p(#[trigger] cap(s, n)[i]),
{
    if s.len() > n {
        assert forall|i: int| 0 <= i < cap(s, n).len() implies p(#[trigger] cap(s, n)[i]) by {
            assert(cap(s, n)[i] == s[i]);
        }
    }
}

/// Sorting personal words keeps the length, every common property and the
/// total bytes.
pub proof fn lemma_sort_texts_all(s: Seq<TextEntryView>, k: bool, p: spec_fn(TextEntryView) -> bool)
    requires
        forall|i: int| 0 <= i < s.len() ==> p(#[trigger] s[i]),
    ensures
        sort_texts(s, k).len() == s.len(),
        forall|i: int| 0 <= i < sort_texts(s, k).len() ==> p(#[trigger] sort_texts(s, k)[i]),
        text_total(sort_texts(s, k)) == text_total(s),
    decreases s.len(),
{
    if s.len() > 0 {
        let t = s.drop_last();
        assert forall|i: int| 0 <= i < t.len() implies p(#[trigger] t[i]) by {
            assert(t[i] == s[i]);
        }
        lemma_sort_texts_all(t, k, p);
        let acc = sort_texts(t, k);
        crate::personal::lemma_first_index_exists(acc, preceded_text(s.last(), k));
        let q = first_index(acc, preceded_text(s.last(), k));
        let r = acc.insert(q, s.last());
        crate::personal_text::lemma_text_total_insert(acc, q, s.last());
        assert forall|i: int| 0 <= i < r.len() implies p(#[trigger] r[i]) by {
            if i < q {
                assert(r[i] == acc[i]);
            } else if i > q {
                assert(r[i] == acc[i - 1]);
            }
        }
    }
}

pub proof fn lemma_sort_texts_keys(s: Seq<TextEntryView>)
    ensures
        text_keys_nondecreasing(sort_texts(s, true)),
    decreases s.len(),
{
    if s.len() > 0 {
        let t = s.drop_last();
        lemma_sort_texts_keys(t);
        let acc = sort_texts(t, true);
        let x = s.last();
        let pr = preceded_text(x, true);
        crate::personal::lemma_first_index_exists(acc, pr);
        let q = first_index(acc, pr);
        let r = acc.insert(q, x);
        assert forall|i: int, j: int| 0 <= i < j < r.len() implies !text_key_lt(#[trigger] r[j], #[trigger] r[i]) by {
            if j < q {
                assert(r[i] == acc[i] && r[j] == acc[j]);
            } else if j == q {
                assert(r[i] == acc[i] && r[j] == x);
                assert(!pr(acc[i]));
            } else if i == q {
                assert(r[j] == acc[j - 1]);
                assert(pr(acc[q]));
                if j - 1 > q {
                    assert(!text_key_lt(acc[j - 1], acc[q]));
                }
                crate::personal_text::lemma_text_key_order(acc[j - 1], x, acc[q]);
            } else if i < q {
                assert(r[i] == acc[i] && r[j] == acc[j - 1]);
            } else {
                assert(r[i] == acc[i - 1] && r[j] == acc[j - 1]);
            }
        }
    }
}

pub proof fn lemma_dedup_texts(s: Seq<TextEntryView>, p: spec_fn(TextEntryView) -> bool)
    requires
        text_keys_nondecreasing(s),
        forall|i: int| 0 <= i < s.len() ==> p(#[trigger] s[i]),
    ensures
        crate::personal_text::text_sorted(dedup_texts(s)),
        dedup_texts(s).len() <= s.len(),
        forall|i: int| 0 <= i < dedup_texts(s).len() ==> p(#[trigger] dedup_texts(s)[i]),
        text_total(dedup_texts(s)) <= text_total(s),
        s.len() > 0 ==> forall|i: int| 0 <= i < dedup_texts(s).len() ==> !text_key_lt(s.last(), #[trigger] dedup_texts(s)[i]),
    decreases s.len(),
{
    if s.len() > 0 {
        let t = s.drop_last();
        assert forall|i: int, j: int| 0 <= i < j < t.len() implies !text_key_lt(#[trigger] t[j], #[trigger] t[i]) by {
            assert(t[i] == s[i] && t[j] == s[j]);
        }
        assert forall|i: int| 0 <= i < t.len() implies p(#[trigger] t[i]) by {
            assert(t[i] == s[i]);
        }
        lemma_dedup_texts(t, p);
        let d = dedup_texts(t);
        let x = s.last();
        if t.len() > 0 {
            assert(!text_key_lt(x, t.last())) by {
                assert(t.last() == s[s.len() - 2]);
            }
        }
        assert forall|i: int| 0 <= i < d.len() implies !text_key_lt(x, #[trigger] d[i]) by {
            crate::personal_text::lemma_text_key_order(x, t.last(), d[i]);
            crate::personal_text::lemma_text_key_order(d[i], t.last(), x);
            crate::personal_text::lemma_text_key_order(x, d[i], t.last());
        }
        if d.len() > 0 && d.last().context == x.context && d.last().text == x.text {
            crate::personal_text::lemma_text_total_nonneg(t);
            assert(text_total(s) == text_total(t) + text_bytes(x.text).len());
        } else {
            let d2 = d.push(x);
            assert(d2.drop_last() =~= d);
            if d.len() > 0 {
                crate::personal_text::lemma_text_key_order(d.last(), x, x);
                assert(text_key_lt(d.last(), x));
            }
            assert forall|i: int, j: int| 0 <= i < j < d2.len() implies text_key_lt(#[trigger] d2[i], #[trigger] d2[j]) by {
                if j < d.len() {
                    assert(text_key_lt(d[i], d[j]));
                } else {
                    if i < d.len() - 1 {
                        assert(text_key_lt(d[i], d.last()));
                        crate::personal_text::lemma_text_key_order(d[i], d.last(), x);
                    }
                }
            }
            assert forall|i: int| 0 <= i < d2.len() implies !text_key_lt(x, #[trigger] d2[i]) by {
                if i == d.len() {
                    crate::personal_text::lemma_text_key_order(x, x, x);
                }
            }
            assert forall|i: int| 0 <= i < d2.len() implies p(#[trigger] d2[i]) by {
                if i < d.len() {
                    assert(d2[i] == d[i]);
                }
            }
        }
    }
}

pub proof fn lemma_cap_texts_total(s: Seq<TextEntryView>, n: int)
    requires
        n >= 0,
    ensures
        text_total(cap(s, n)) <= text_total(s),
{
    if s.len() > n {
        assert(s =~= s.take(n) + s.skip(n));
        crate::personal_text::lemma_text_total_concat(s.take(n), s.skip(n));
        crate::personal_text::lemma_text_total_nonneg(s.skip(n));
    }
}

/// The fixed header fields, as read.
pub struct SnapHeaderExec {
    pub version: u32,
    pub tick: u32,
    pub count: u32,
    pub fingerprint: u32,
    pub text_count: u32,
    pub slots: usize,
    pub entry_len: usize,
    pub header_len: usize,
}

impl SnapHeaderExec {
    pub open spec fn fields(self) -> SnapHeader {
        SnapHeader {
            version: self.version,
            tick: self.tick,
            count: self.count,
            fingerprint: self.fingerprint,
            text_count: self.text_count,
            slots: self.slots as int,
            entry_len: self.entry_len as int,
            header_len: self.header_len as int,
        }
    }
}

fn has_personal_magic(bytes: &[u8]) -> (r: bool)
    requires
        bytes@.len() >= 16,
    ensures
        r == (bytes@.subrange(0, 16) == personal_magic()),
{
    let m: [u8; 16] = [0x4f, 0x42, 0x50, 0x45, 0x52, 0x53, 0x55, 0x47, 0x4c, 0x4d, 0x5f, 0x56, 0x31, 0, 0, 0];
    assert(m@ =~= personal_magic());
    let mut i: usize = 0;
    while i < 16
        invariant
            i <= 16,
            bytes@.len() >= 16,
            m@ == personal_magic(),
            forall|j: int| 0 <= j < i ==> bytes@[j] == m@[j],
        decreases 16 - i,
    {
        if bytes[i] != m[i] {
            assert(bytes@.subrange(0, 16)[i as int] != personal_magic()[i as int]);
            return false;
        }
        i = i + 1;
    }
    assert(bytes@.subrange(0, 16) =~= personal_magic());
    true
}

/// Reads the fixed header.
pub fn read_snapshot_header(bytes: &[u8]) -> (r: Result<SnapHeaderExec, PersonalAutosuggestError>)
    ensures
        match parse_header(bytes@) {
            Ok(h) => r matches Ok(x) && x.fields() == h,
            Err(e) => r matches Err(x) && x == e,
        },
{
    if bytes.len() < 32 {
        return Err(PersonalAutosuggestError::UnexpectedEof);
    }
    if !has_personal_magic(bytes) {
        return Err(PersonalAutosuggestError::InvalidMagic);
    }
    let version = u32_le_at(bytes, 16);
    if version != PERSONAL_VERSION_V1 && version != PERSONAL_VERSION_V2 && version != PERSONAL_VERSION {
        return Err(PersonalAutosuggestError::UnsupportedVersion(version));
    }
    if version == PERSONAL_VERSION && bytes.len() < 40 {
        return Err(PersonalAutosuggestError::UnexpectedEof);
    }
    if version == PERSONAL_VERSION && u32_le_at(bytes, 36) != 0 {
        return Err(PersonalAutosuggestError::InvalidLayout);
    }
    Ok(
        SnapHeaderExec {
            version,
            tick: u32_le_at(bytes, 20),
            count: u32_le_at(bytes, 24),
            fingerprint: u32_le_at(bytes, 28),
            text_count: if version == PERSONAL_VERSION {
                u32_le_at(bytes, 32)
            } else {
                0
            },
            slots: if version == PERSONAL_VERSION_V1 {
                2
            } else {
                3
            },
            entry_len: if version == PERSONAL_VERSION_V1 {
                24
            } else {
                28
            },
            header_len: if version == PERSONAL_VERSION {
                40
            } else {
                32
            },
        },
    )
}

pub open spec fn header_ok(h: SnapHeader) -> bool {
    &&& (h.slots == 2 && h.entry_len == 24) || (h.slots == 3 && h.entry_len == 28)
    &&& h.header_len == 32 || h.header_len == 40
}

pub proof fn lemma_header_ok(b: Seq<u8>)
    ensures
        parse_header(b) matches Ok(h) ==> header_ok(h),
{
}

fn records_end_exec(bytes: &[u8], h: &SnapHeaderExec) -> (r: Result<usize, PersonalAutosuggestError>)
    requires
        header_ok(h.fields()),
    ensures
        match records_end(bytes@, h.fields()) {
            Ok(o) => r matches Ok(x) && x == o,
            Err(e) => r matches Err(x) && x == e,
        },
{
    let id_len = match (h.count as usize).checked_mul(h.entry_len) {
        Some(x) => x,
        None => return Err(PersonalAutosuggestError::InvalidLayout),
    };
    let end = match h.header_len.checked_add(id_len) {
        Some(x) => x,
        None => return Err(PersonalAutosuggestError::InvalidLayout),
    };
    if end > bytes.len() {
        return Err(PersonalAutosuggestError::UnexpectedEof);
    }
    if h.version != PERSONAL_VERSION && end != bytes.len() {
        return Err(PersonalAutosuggestError::InvalidLayout);
    }
    Ok(end)
}

fn read_entry(bytes: &[u8], h: &SnapHeaderExec, i: usize) -> (r: Result<PersonalEntry, PersonalAutosuggestError>)
    requires
        header_ok(h.fields()),
        h.header_len + (i + 1) * h.entry_len <= bytes@.len(),
    ensures
        match parse_entry(bytes@, h.fields(), i as int) {
            Ok(e) => r matches Ok(x) && x == e,
            Err(e) => r matches Err(x) && x == e,
        },
        r matches Ok(e) ==> crate::personal::entry_ok(e),
{
    let ghost el = h.entry_len as int;
    let ghost ii = i as int;
    proof {
        assert((ii + 1) * el == ii * el + el) by (nonlinear_arith);
        assert(ii * el >= 0) by (nonlinear_arith)
            requires
                ii >= 0,
                el >= 0,
        ;
    }
    let blen = bytes.len();
    assert(h.header_len + ii * el + el <= blen);
    assert(ii * el <= usize::MAX);
    let prod = i * h.entry_len;
    let off = h.header_len + prod;
    let cl = u32_le_at(bytes, off);
    if cl as usize > h.slots {
        return Err(PersonalAutosuggestError::InvalidLayout);
    }
    let id0 = u32_le_at(bytes, off + 4);
    let id1 = u32_le_at(bytes, off + 8);
    let id2 = if h.slots > 2 {
        u32_le_at(bytes, off + 12)
    } else {
        0
    };
    let toff = off + 4 + h.slots * 4;
    let target = u32_le_at(bytes, toff);
    let count = u32_le_at(bytes, toff + 4);
    let last_seen = u32_le_at(bytes, toff + 8);
    if target <= AUTOSUGGEST_UNK_ID || count == 0 || count > 65535 {
        return Err(PersonalAutosuggestError::InvalidLayout);
    }
    Ok(
        PersonalEntry {
            context: PersonalContext { id0, id1, id2, len: cl as u8 },
            target_id: target,
            count: count as u16,
            last_seen,
        },
    )
}

/// Reads all transition records, and the newest tick among them and the
/// header's.
fn read_entries(bytes: &[u8], h: &SnapHeaderExec, end: usize) -> (r: Result<(Vec<PersonalEntry>, u32), PersonalAutosuggestError>)
    requires
        header_ok(h.fields()),
        records_end(bytes@, h.fields()) == Ok::<int, PersonalAutosuggestError>(end as int),
    ensures
        match parse_entries(bytes@, h.fields(), h.count as int) {
            Ok(es) => r matches Ok((v, m)) && v@ == es && m == max_seen_entries(es, h.tick),
            Err(e) => r matches Err(x) && x == e,
        },
        r matches Ok((v, m)) ==> forall|i: int| 0 <= i < v@.len() ==> crate::personal::entry_ok(#[trigger] v@[i]),
{
    let mut out: Vec<PersonalEntry> = Vec::new();
    let mut m = h.tick;
    let n = h.count as usize;
    let mut i: usize = 0;
    while i < n
        invariant
            header_ok(h.fields()),
            records_end(bytes@, h.fields()) == Ok::<int, PersonalAutosuggestError>(end as int),
            n == h.count,
            i <= n,
            parse_entries(bytes@, h.fields(), i as int) == Ok::<Seq<PersonalEntry>, PersonalAutosuggestError>(out@),
            m == max_seen_entries(out@, h.tick),
            forall|j: int| 0 <= j < out@.len() ==> crate::personal::entry_ok(#[trigger] out@[j]),
        decreases n - i,
    {
        proof {
            assert((i + 1) * h.entry_len <= n * h.entry_len) by (nonlinear_arith)
                requires
                    i + 1 <= n,
                    h.entry_len >= 0,
            ;
        }
        let e = match read_entry(bytes, h, i) {
            Ok(e) => e,
            Err(x) => {
                proof {
                    lemma_parse_entries_err(bytes@, h.fields(), i as int, n as int);
                }
                return Err(x);
            },
        };
        let ghost before = out@;
        out.push(e);
        proof {
            assert(out@.drop_last() =~= before);
            assert forall|j: int| 0 <= j < out@.len() implies crate::personal::entry_ok(#[trigger] out@[j]) by {
                if j < before.len() {
                    assert(out@[j] == before[j]);
                }
            }
        }
        if m < e.last_seen {
            m = e.last_seen;
        }
        i = i + 1;
    }
    Ok((out, m))
}

/// An error at record `i` is the error of reading all `n` records.
pub proof fn lemma_parse_entries_err(b: Seq<u8>, h: SnapHeader, i: int, n: int)
    requires
        0 <= i < n,
        parse_entries(b, h, i) is Ok,
        parse_entry(b, h, i) is Err,
    ensures
        parse_entries(b, h, n) == Err::<Seq<PersonalEntry>, PersonalAutosuggestError>(parse_entry(b, h, i)->Err_0),
    decreases n - i,
{
    if n > i + 1 {
        lemma_parse_entries_err(b, h, i, n - 1);
    }
}

fn read_text_at(bytes: &[u8], off: usize) -> (r: Result<(PersonalTextEntry, usize), PersonalAutosuggestError>)
    requires
        off <= bytes@.len(),
        bytes@.len() <= isize::MAX,
    ensures
        match parse_text_at(bytes@, off as int) {
            Ok((t, end)) => r matches Ok((x, e)) && x@ == t && e == end,
            Err(e) => r matches Err(x) && x == e,
        },
{
    let len = bytes.len();
    if len - off < 4 {
        return Err(PersonalAutosuggestError::UnexpectedEof);
    }
    let cl = u32_le_at(bytes, off);
    if cl > 3 {
        return Err(PersonalAutosuggestError::InvalidLayout);
    }
    if len - off < 28 {
        return Err(PersonalAutosuggestError::UnexpectedEof);
    }
    let id0 = u32_le_at(bytes, off + 4);
    let id1 = u32_le_at(bytes, off + 8);
    let id2 = u32_le_at(bytes, off + 12);
    let count = u32_le_at(bytes, off + 16);
    let last_seen = u32_le_at(bytes, off + 20);
    let tl = u32_le_at(bytes, off + 24);
    let start = off + 28;
    let end = match start.checked_add(tl as usize) {
        Some(e) => e,
        None => return Err(PersonalAutosuggestError::InvalidLayout),
    };
    if end > len {
        return Err(PersonalAutosuggestError::UnexpectedEof);
    }
    let tb = sub_slice(bytes, start, end);
    let t = match utf8_str(tb) {
        Some(t) => t,
        None => return Err(PersonalAutosuggestError::InvalidLayout),
    };
    proof {
        vstd::utf8::encode_utf8_decode_utf8(t@);
    }
    if count == 0 || count > 65535 || !is_personal_text_token(t) {
        return Err(PersonalAutosuggestError::InvalidLayout);
    }
    Ok(
        (
            PersonalTextEntry {
                context: PersonalContext { id0, id1, id2, len: cl as u8 },
                text: t.to_owned(),
                count: count as u16,
                last_seen,
            },
            end,
        ),
    )
}

/// Reads `k` personal words from `off`, keeping those that fit the caps.
fn read_texts(bytes: &[u8], off: usize, k: u32, m0: u32) -> (r: Result<
    (Vec<PersonalTextEntry>, usize, u32),
    PersonalAutosuggestError,
>)
    requires
        off <= bytes@.len(),
        bytes@.len() <= isize::MAX,
    ensures
        match parse_texts(bytes@, off as int, k as int, Seq::empty(), m0) {
            Ok((kept, end, m)) => r matches Ok((v, e, mm)) && text_views(v@) == kept && e == end && mm == m,
            Err(e) => r matches Err(x) && x == e,
        },
        r matches Ok((v, e, mm)) ==> crate::personal_text::text_bounded(text_views(v@)) && forall|i: int|
            0 <= i < v@.len() ==> (#[trigger] text_views(v@)[i]).count >= 1,
{
    let mut kept: Vec<PersonalTextEntry> = Vec::new();
    let mut total: usize = 0;
    let mut cur = off;
    let mut m = m0;
    let mut i: u32 = 0;
    proof {
        assert(text_views(kept@) =~= Seq::<TextEntryView>::empty());
    }
    while i < k
        invariant
            cur <= bytes@.len(),
            bytes@.len() <= isize::MAX,
            i <= k,
            parse_texts(bytes@, cur as int, (k - i) as int, text_views(kept@), m) == parse_texts(
                bytes@,
                off as int,
                k as int,
                Seq::empty(),
                m0,
            ),
            total == text_total(text_views(kept@)),
            crate::personal_text::text_bounded(text_views(kept@)),
            forall|j: int| 0 <= j < kept@.len() ==> (#[trigger] text_views(kept@)[j]).count >= 1,
        decreases k - i,
    {
        let (t, end) = match read_text_at(bytes, cur) {
            Ok(x) => x,
            Err(e) => return Err(e),
        };
        let tl = t.text.as_str().len();
        let ls = t.last_seen;
        if kept.len() < DEFAULT_PERSONAL_TEXT_AUTOSUGGEST_ENTRIES && total + tl <= PERSONAL_TEXT_TOTAL_MAX_BYTES {
            let ghost before = kept@;
            let ghost tv = t@;
            kept.push(t);
            proof {
                assert(text_views(kept@) =~= text_views(before).push(tv));
                crate::personal_text::lemma_text_total_insert(text_views(before), before.len() as int, tv);
                assert(text_views(before).insert(before.len() as int, tv) =~= text_views(before).push(tv));
                let nv = text_views(kept@);
                assert forall|j: int| 0 <= j < nv.len() implies crate::personal_types::spec_is_personal_text(#[trigger] nv[j].text) && nv[j].context.len <= 3 && nv[j].count >= 1 by {
                    if j < before.len() {
                        assert(nv[j] == text_views(before)[j]);
                    }
                }
            }
            total = total + tl;
        }
        if m < ls {
            m = ls;
        }
        i = i + 1;
        cur = end;
    }
    Ok((kept, cur, m))
}

fn entry_before_exec(a: &PersonalEntry, b: &PersonalEntry, key_order: bool) -> (r: bool)
    ensures
        r == entry_before(*a, *b, key_order),
{
    if key_order {
        match compare_contexts(&a.context, &b.context) {
            KeyOrder::Less => true,
            KeyOrder::Greater => false,
            KeyOrder::Equal => a.target_id < b.target_id,
        }
    } else {
        entry_stronger_exec(a, b)
    }
}

/// Stable insertion sort (see [`sort_entries`]).
fn sort_entries_exec(v: &Vec<PersonalEntry>, key_order: bool) -> (r: Vec<PersonalEntry>)
    ensures
        r@ == sort_entries(v@, key_order),
{
    let mut out: Vec<PersonalEntry> = Vec::new();
    let mut i: usize = 0;
    while i < v.len()
        invariant
            i <= v@.len(),
            out@ == sort_entries(v@.take(i as int), key_order),
        decreases v@.len() - i,
    {
        let x = v[i];
        let ghost pr = preceded_entry(x, key_order);
        let mut p: usize = 0;
        while p < out.len() && !entry_before_exec(&x, &out[p], key_order)
            invariant
                p <= out@.len(),
                pr == preceded_entry(x, key_order),
                forall|j: int| 0 <= j < p ==> !pr(#[trigger] out@[j]),
            decreases out@.len() - p,
        {
            p = p + 1;
        }
        proof {
            crate::candidate::lemma_first_index(out@, pr, p as int);
            assert(v@.take(i as int + 1).drop_last() =~= v@.take(i as int));
            assert(v@.take(i as int + 1).last() == x);
        }
        out.insert(p, x);
        i = i + 1;
    }
    assert(v@.take(v@.len() as int) =~= v@);
    out
}

fn dedup_entries_exec(v: &Vec<PersonalEntry>) -> (r: Vec<PersonalEntry>)
    ensures
        r@ == dedup_entries(v@),
{
    let mut out: Vec<PersonalEntry> = Vec::new();
    let mut i: usize = 0;
    while i < v.len()
        invariant
            i <= v@.len(),
            out@ == dedup_entries(v@.take(i as int)),
        decreases v@.len() - i,
    {
        let x = v[i];
        proof {
            assert(v@.take(i as int + 1).drop_last() =~= v@.take(i as int));
            assert(v@.take(i as int + 1).last() == x);
        }
        let n = out.len();
        if !(n > 0 && out[n - 1].context == x.context && out[n - 1].target_id == x.target_id) {
            out.push(x);
        }
        i = i + 1;
    }
    assert(v@.take(v@.len() as int) =~= v@);
    out
}

fn text_before_exec(a: &PersonalTextEntry, b: &PersonalTextEntry, key_order: bool) -> (r: bool)
    ensures
        r == text_before(a@, b@, key_order),
{
    if key_order {
        match compare_contexts(&a.context, &b.context) {
            KeyOrder::Less => true,
            KeyOrder::Greater => false,
            KeyOrder::Equal => {
                proof {
                    crate::bytes::lemma_lex_lt_irreflexive(text_bytes(a@.text));
                }
                byte_order(a.text.as_str().as_bytes(), b.text.as_str().as_bytes()) == ByteOrder::Less
            },
        }
    } else {
        text_entry_stronger_exec(a, b)
    }
}

fn copy_text_entry(e: &PersonalTextEntry) -> (c: PersonalTextEntry)
    ensures
        c@ == e@,
{
    PersonalTextEntry { context: e.context, text: e.text.clone(), count: e.count, last_seen: e.last_seen }
}

fn sort_texts_exec(v: &Vec<PersonalTextEntry>, key_order: bool) -> (r: Vec<PersonalTextEntry>)
    ensures
        text_views(r@) == sort_texts(text_views(v@), key_order),
{
    let ghost vs = text_views(v@);
    let mut out: Vec<PersonalTextEntry> = Vec::new();
    assert(text_views(out@) =~= sort_texts(vs.take(0), key_order));
    let mut i: usize = 0;
    while i < v.len()
        invariant
            vs == text_views(v@),
            i <= v@.len(),
            text_views(out@) == sort_texts(vs.take(i as int), key_order),
        decreases v@.len() - i,
    {
        let x = copy_text_entry(&v[i]);
        assert(x@ == vs[i as int]);
        let ghost pr = preceded_text(x@, key_order);
        let ghost ov = text_views(out@);
        let mut p: usize = 0;
        while p < out.len() && !text_before_exec(&x, &out[p], key_order)
            invariant
                p <= out@.len(),
                ov == text_views(out@),
                pr == preceded_text(x@, key_order),
                forall|j: int| 0 <= j < p ==> !pr(#[trigger] ov[j]),
            decreases out@.len() - p,
        {
            assert(out@[p as int]@ == ov[p as int]);
            p = p + 1;
        }
        proof {
            crate::candidate::lemma_first_index(ov, pr, p as int);
            assert(vs.take(i as int + 1).drop_last() =~= vs.take(i as int));
            assert(vs.take(i as int + 1).last() == x@);
        }
        let ghost before = out@;
        let ghost xv = x@;
        out.insert(p, x);
        proof {
            assert(text_views(out@) =~= text_views(before).insert(p as int, xv));
        }
        i = i + 1;
    }
    assert(vs.take(vs.len() as int) =~= vs);
    out
}

fn dedup_texts_exec(v: &Vec<PersonalTextEntry>) -> (r: Vec<PersonalTextEntry>)
    ensures
        text_views(r@) == dedup_texts(text_views(v@)),
{
    let ghost vs = text_views(v@);
    let mut out: Vec<PersonalTextEntry> = Vec::new();
    assert(text_views(out@) =~= dedup_texts(vs.take(0)));
    let mut i: usize = 0;
    while i < v.len()
        invariant
            vs == text_views(v@),
            i <= v@.len(),
            text_views(out@) == dedup_texts(vs.take(i as int)),
        decreases v@.len() - i,
    {
        let x = copy_text_entry(&v[i]);
        assert(x@ == vs[i as int]);
        proof {
            assert(vs.take(i as int + 1).drop_last() =~= vs.take(i as int));
            assert(vs.take(i as int + 1).last() == x@);
        }
        let n = out.len();
        let dup = if n > 0 {
            assert(out@[n - 1]@ == text_views(out@).last());
            out[n - 1].context == x.context && crate::personal::same_text(out[n - 1].text.as_str(), x.text.as_str())
        } else {
            false
        };
        if !dup {
            let ghost before = out@;
            let ghost xv = x@;
            out.push(x);
            proof {
                assert(text_views(out@) =~= text_views(before).push(xv));
            }
        }
        i = i + 1;
    }
    assert(vs.take(vs.len() as int) =~= vs);
    out
}

/// Decodes a snapshot into what a store of `max_entries` loads: the
/// transitions, the personal words, the model fingerprint and the newest
/// tick (see [`parse_snapshot`]).
pub fn parse_snapshot_exec(bytes: &[u8], max_entries: usize) -> (r: Result<
    (Vec<PersonalEntry>, Vec<PersonalTextEntry>, u32, u32),
    PersonalAutosuggestError,
>)
    requires
        bytes@.len() <= isize::MAX,
    ensures
        match parse_snapshot(bytes@, max_entries as int) {
            Ok((es, ts, fp, m)) => r matches Ok((a, b, c, d)) && a@ == es && text_views(b@) == ts && c == fp && d == m,
            Err(e) => r matches Err(x) && x == e,
        },
        r matches Ok((a, b, c, d)) ==> loaded_wf(a@, text_views(b@), max_entries as int),
{
    let h = match read_snapshot_header(bytes) {
        Ok(h) => h,
        Err(e) => return Err(e),
    };
    proof {
        lemma_header_ok(bytes@);
    }
    let off = match records_end_exec(bytes, &h) {
        Ok(o) => o,
        Err(e) => return Err(e),
    };
    let (parsed, m0) = match read_entries(bytes, &h, off) {
        Ok(x) => x,
        Err(e) => return Err(e),
    };
    let (kept, end, m) = match read_texts(bytes, off, h.text_count, m0) {
        Ok(x) => x,
        Err(e) => return Err(e),
    };
    if end != bytes.len() {
        return Err(PersonalAutosuggestError::InvalidLayout);
    }
    let mut strongest = sort_entries_exec(&parsed, false);
    let ghost sv = strongest@;
    strongest.truncate(max_entries);
    assert(strongest@ =~= cap(sv, max_entries as int));
    let by_key = sort_entries_exec(&strongest, true);
    let entries = dedup_entries_exec(&by_key);
    let mut strongest_texts = sort_texts_exec(&kept, false);
    let ghost tv = strongest_texts@;
    strongest_texts.truncate(DEFAULT_PERSONAL_TEXT_AUTOSUGGEST_ENTRIES);
    proof {
        assert(text_views(strongest_texts@) =~= cap(text_views(tv), DEFAULT_PERSONAL_TEXT_AUTOSUGGEST_ENTRIES as int));
    }
    let texts_by_key = sort_texts_exec(&strongest_texts, true);
    let texts = dedup_texts_exec(&texts_by_key);
    proof {
        let pe = |e: PersonalEntry| crate::personal::entry_ok(e);
        lemma_sort_entries_all(parsed@, false, pe);
        lemma_cap_all(sv, max_entries as int, pe);
        lemma_sort_entries_all(strongest@, true, pe);
        lemma_sort_entries_keys(strongest@);
        lemma_dedup_entries(by_key@, pe);
        let pt = |t: TextEntryView| crate::personal_types::spec_is_personal_text(t.text) && t.context.len <= 3 && t.count >= 1;
        let kv = text_views(kept@);
        assert forall|i: int| 0 <= i < kv.len() implies pt(#[trigger] kv[i]) by {}
        lemma_sort_texts_all(kv, false, pt);
        lemma_cap_all(text_views(tv), DEFAULT_PERSONAL_TEXT_AUTOSUGGEST_ENTRIES as int, pt);
        lemma_cap_texts_total(text_views(tv), DEFAULT_PERSONAL_TEXT_AUTOSUGGEST_ENTRIES as int);
        lemma_sort_texts_all(text_views(strongest_texts@), true, pt);
        lemma_sort_texts_keys(text_views(strongest_texts@));
        lemma_dedup_texts(text_views(texts_by_key@), pt);
        let fv = text_views(texts@);
        assert forall|i: int| 0 <= i < fv.len() implies crate::personal_types::spec_is_personal_text(#[trigger] fv[i].text) && fv[i].context.len <= 3 && fv[i].count >= 1 by {
            assert(pt(fv[i]));
        }
        assert forall|i: int| 0 <= i < entries@.len() implies crate::personal::entry_ok(#[trigger] entries@[i]) by {
            assert(pe(entries@[i]));
        }
    }
    Ok((entries, texts, h.fingerprint, m))
}

/// What a loaded store satisfies: sorted unique keys within the caps.
pub open spec fn loaded_wf(es: Seq<PersonalEntry>, ts: Seq<TextEntryView>, max_entries: int) -> bool {
    &&& crate::personal::entries_sorted(es)
    &&& es.len() <= max_entries
    &&& forall|i: int| 0 <= i < es.len() ==> crate::personal::entry_ok(#[trigger] es[i])
    &&& crate::personal_text::text_sorted(ts)
    &&& crate::personal_text::text_bounded(ts)
    &&& forall|i: int| 0 <= i < ts.len() ==> (#[trigger] ts[i]).count >= 1
}
} // verus!
