//! Keys, entries and suggestions of the on-device personal overlay.

use vstd::prelude::*;
use vstd::string::StringSliceAdditionalSpecFns;
use crate::context::{AUTOSUGGEST_BOS_ID, AUTOSUGGEST_UNK_ID, MAX_AUTOSUGGEST_CONTEXT_TOKENS};
use crate::bytes::{lex_lt, spec_byte_order, byte_order, ByteOrder};
use crate::text::{spec_is_bangla_letter, spec_is_personal_text_char, chars_of, is_bangla_letter, is_personal_text_char};
use crate::fnv::{fnv64, FNV64_OFFSET, fnv64_of};

verus! {

pub const MAX_PERSONAL_CONTEXT_TOKENS: usize = 3;
pub const DEFAULT_PERSONAL_AUTOSUGGEST_ENTRIES: usize = 4096;
pub const DEFAULT_PERSONAL_AUTOSUGGEST_MIN_COUNT: u16 = 2;
pub const DEFAULT_PERSONAL_TEXT_AUTOSUGGEST_ENTRIES: usize = 512;
pub const PERSONAL_TEXT_TOKEN_MAX_BYTES: usize = 72;
pub const PERSONAL_TEXT_TOTAL_MAX_BYTES: usize = 16384;
pub const PERSONAL_TEXT_CONTEXT_ID_MARKER: u32 = 0x8000_0000;
pub const PERSONAL_TEXT_CONTEXT_ID_MASK: u32 = 0x7fff_ffff;
pub const PERSONAL_UNIGRAM_CACHE_LIMIT: usize = 16;
pub const PERSONAL_HEADER_LEN: usize = 40;
pub const PERSONAL_ENTRY_LEN: usize = 28;
pub const PERSONAL_TEXT_ENTRY_HEADER_LEN: usize = 28;

/// How strongly a committed word counts as user-established vocabulary.
#[derive(Debug, Clone, Copy, PartialEq, Eq, Structural)]
pub enum CommitStrength {
    /// An ordinary commit (weight 1).
    Committed,
    /// The user rejected an offered correction to keep this word.
    CorrectionRejected,
    /// The user added the word explicitly.
    ManuallyAdded,
}

pub open spec fn spec_weight(s: CommitStrength) -> u16 {
    match s {
        CommitStrength::Committed => 1,
        CommitStrength::CorrectionRejected => 3,
        CommitStrength::ManuallyAdded => 4,
    }
}

impl CommitStrength {
    /// Evidence weight this strength contributes to a personal entry.
    pub fn weight(self) -> (w: u16)
        ensures
            w == spec_weight(self),
            w >= 1,
    {
        match self {
            CommitStrength::Committed => 1,
            CommitStrength::CorrectionRejected => 3,
            CommitStrength::ManuallyAdded => 4,
        }
    }
}

#[derive(Debug, Clone, Copy, PartialEq, Eq)]
pub struct PersonalAutosuggestConfig {
    pub max_entries: usize,
    pub min_count: u16,
}

impl Default for PersonalAutosuggestConfig {
    fn default() -> (c: Self)
        ensures
            c.max_entries == DEFAULT_PERSONAL_AUTOSUGGEST_ENTRIES,
            c.min_count == DEFAULT_PERSONAL_AUTOSUGGEST_MIN_COUNT,
    {
        PersonalAutosuggestConfig {
            max_entries: DEFAULT_PERSONAL_AUTOSUGGEST_ENTRIES,
            min_count: DEFAULT_PERSONAL_AUTOSUGGEST_MIN_COUNT,
        }
    }
}

pub open spec fn sat_mul(a: int, b: int) -> int {
    if a * b > usize::MAX {
        usize::MAX as int
    } else {
        a * b
    }
}

pub open spec fn sat_add(a: int, b: int) -> int {
    if a + b > usize::MAX {
        usize::MAX as int
    } else {
        a + b
    }
}

pub fn saturating_mul_usize(a: usize, b: usize) -> (r: usize)
    ensures
        r == sat_mul(a as int, b as int),
{
    if b != 0 && a > usize::MAX / b {
        proof {
            assert(a * b > usize::MAX) by (nonlinear_arith)
                requires
                    b != 0,
                    a > usize::MAX / b,
            ;
        }
        usize::MAX
    } else {
        proof {
            if b != 0 {
                assert(a * b <= usize::MAX) by (nonlinear_arith)
                    requires
                        b != 0,
                        a <= usize::MAX / b,
                ;
            }
        }
        a * b
    }
}

pub fn saturating_add_usize(a: usize, b: usize) -> (r: usize)
    ensures
        r == sat_add(a as int, b as int),
{
    if a > usize::MAX - b {
        usize::MAX
    } else {
        a + b
    }
}

impl PersonalAutosuggestConfig {
    /// Upper bound of the heap bytes a personal store with this config holds.
    pub fn heap_limit_bytes(self) -> (n: usize)
        ensures
            n == sat_add(
                sat_add(
                    sat_mul(self.max_entries as int, vstd::layout::size_of::<PersonalEntry>() as int),
                    sat_mul(
                        DEFAULT_PERSONAL_TEXT_AUTOSUGGEST_ENTRIES as int,
                        vstd::layout::size_of::<PersonalTextEntry>() as int,
                    ),
                ),
                PERSONAL_TEXT_TOTAL_MAX_BYTES as int,
            ),
    {
        let a = saturating_mul_usize(self.max_entries, core::mem::size_of::<PersonalEntry>());
        let b = saturating_mul_usize(
            DEFAULT_PERSONAL_TEXT_AUTOSUGGEST_ENTRIES,
            core::mem::size_of::<PersonalTextEntry>(),
        );
        saturating_add_usize(saturating_add_usize(a, b), PERSONAL_TEXT_TOTAL_MAX_BYTES)
    }

    /// Upper bound of the compact snapshot length for this config.
    pub fn compact_snapshot_limit_bytes(self) -> (n: usize)
        ensures
            n == sat_add(
                sat_add(PERSONAL_HEADER_LEN as int, sat_mul(self.max_entries as int, PERSONAL_ENTRY_LEN as int)),
                DEFAULT_PERSONAL_TEXT_AUTOSUGGEST_ENTRIES * (PERSONAL_TEXT_ENTRY_HEADER_LEN
                    + PERSONAL_TEXT_TOKEN_MAX_BYTES),
            ),
    {
        let a = saturating_add_usize(
            PERSONAL_HEADER_LEN,
            saturating_mul_usize(self.max_entries, PERSONAL_ENTRY_LEN),
        );
        saturating_add_usize(
            a,
            DEFAULT_PERSONAL_TEXT_AUTOSUGGEST_ENTRIES * (PERSONAL_TEXT_ENTRY_HEADER_LEN
                + PERSONAL_TEXT_TOKEN_MAX_BYTES),
        )
    }
}

/// A context key: up to three newest context ids (word ids or private ids of
/// personal words), oldest first. Unused slots are normally zero.
#[derive(Debug, Clone, Copy, PartialEq, Eq, Structural, PartialOrd, Ord)]
pub struct PersonalContext {
    pub id0: u32,
    pub id1: u32,
    pub id2: u32,
    pub len: u8,
}

/// Key order of contexts: the id slots, then the length.
pub open spec fn ctx_lt(a: PersonalContext, b: PersonalContext) -> bool {
    a.id0 < b.id0 || (a.id0 == b.id0 && (a.id1 < b.id1 || (a.id1 == b.id1 && (a.id2 < b.id2 || (
    a.id2 == b.id2 && a.len < b.len)))))
}

/// The context's ids (its length is clamped to the three slots).
pub open spec fn ctx_ids(c: PersonalContext) -> Seq<u32> {
    seq![c.id0, c.id1, c.id2].subrange(
        0,
        if c.len <= 3 {
            c.len as int
        } else {
            3
        },
    )
}

/// Three-way comparison result.
#[derive(Debug, Clone, Copy, PartialEq, Eq, Structural)]
pub enum KeyOrder {
    Less,
    Equal,
    Greater,
}

pub fn compare_contexts(a: &PersonalContext, b: &PersonalContext) -> (r: KeyOrder)
    ensures
        (r == KeyOrder::Less) == ctx_lt(*a, *b),
        (r == KeyOrder::Equal) == (*a == *b),
        (r == KeyOrder::Greater) == ctx_lt(*b, *a),
{
    if a.id0 != b.id0 {
        if a.id0 < b.id0 {
            KeyOrder::Less
        } else {
            KeyOrder::Greater
        }
    } else if a.id1 != b.id1 {
        if a.id1 < b.id1 {
            KeyOrder::Less
        } else {
            KeyOrder::Greater
        }
    } else if a.id2 != b.id2 {
        if a.id2 < b.id2 {
            KeyOrder::Less
        } else {
            KeyOrder::Greater
        }
    } else if a.len != b.len {
        if a.len < b.len {
            KeyOrder::Less
        } else {
            KeyOrder::Greater
        }
    } else {
        KeyOrder::Equal
    }
}

pub open spec fn spec_empty_ctx() -> PersonalContext {
    PersonalContext { id0: 0, id1: 0, id2: 0, len: 0 }
}

pub open spec fn spec_sentence_start_ctx() -> PersonalContext {
    PersonalContext { id0: AUTOSUGGEST_BOS_ID, id1: 0, id2: 0, len: 1 }
}

impl PersonalContext {
    pub fn empty() -> (c: PersonalContext)
        ensures
            c == spec_empty_ctx(),
    {
        PersonalContext { id0: 0, id1: 0, id2: 0, len: 0 }
    }

    /// The `<bos>` context of a true sentence start.
    pub fn sentence_start() -> (c: PersonalContext)
        ensures
            c == spec_sentence_start_ctx(),
    {
        PersonalContext { id0: AUTOSUGGEST_BOS_ID, id1: 0, id2: 0, len: 1 }
    }

    /// The context of the newest `len` ids (at most three).
    pub fn from_suffix(ids: &[u32], len: usize) -> (c: PersonalContext)
        ensures
            c == spec_from_suffix(ids@, len as int),
    {
        let mut l = if len < 3 {
            len
        } else {
            3
        };
        if ids.len() < l {
            l = ids.len();
        }
        let start = ids.len() - l;
        PersonalContext {
            id0: if 0 < l {
                ids[start]
            } else {
                0
            },
            id1: if 1 < l {
                ids[start + 1]
            } else {
                0
            },
            id2: if 2 < l {
                ids[start + 2]
            } else {
                0
            },
            len: l as u8,
        }
    }

    pub fn is_empty(self) -> (b: bool)
        ensures
            b == (self.len == 0),
    {
        self.len == 0
    }

    /// The context's ids as a vector.
    pub fn ids(&self) -> (v: Vec<u32>)
        ensures
            v@ == ctx_ids(*self),
    {
        let mut v: Vec<u32> = Vec::new();
        if self.len >= 1 {
            v.push(self.id0);
        }
        if self.len >= 2 {
            v.push(self.id1);
        }
        if self.len >= 3 {
            v.push(self.id2);
        }
        assert(v@ =~= ctx_ids(*self));
        v
    }

    /// Appends an id, dropping the oldest one when all three slots are used.
    pub fn push_id(&mut self, id: u32)
        ensures
            *final(self) == spec_push_id(*old(self), id),
    {
        if self.len == 0 {
            self.id0 = id;
            self.len = 1;
        } else if self.len == 1 {
            self.id1 = id;
            self.len = 2;
        } else if self.len == 2 {
            self.id2 = id;
            self.len = 3;
        } else {
            self.id0 = self.id1;
            self.id1 = self.id2;
            self.id2 = id;
        }
    }
}

pub open spec fn spec_from_suffix(ids: Seq<u32>, len: int) -> PersonalContext {
    let l0 = if len < 3 {
        len
    } else {
        3
    };
    let l = if ids.len() < l0 {
        ids.len() as int
    } else {
        l0
    };
    let start = ids.len() - l;
    PersonalContext {
        id0: if 0 < l {
            ids[start]
        } else {
            0
        },
        id1: if 1 < l {
            ids[start + 1]
        } else {
            0
        },
        id2: if 2 < l {
            ids[start + 2]
        } else {
            0
        },
        len: l as u8,
    }
}

pub open spec fn spec_push_id(c: PersonalContext, id: u32) -> PersonalContext {
    if c.len == 0 {
        PersonalContext { id0: id, len: 1, ..c }
    } else if c.len == 1 {
        PersonalContext { id1: id, len: 2, ..c }
    } else if c.len == 2 {
        PersonalContext { id2: id, len: 3, ..c }
    } else {
        PersonalContext { id0: c.id1, id1: c.id2, id2: id, len: c.len }
    }
}

/// A learned transition: in `context`, the user committed `target_id`.
#[derive(Debug, Clone, Copy, PartialEq, Eq, Structural)]
pub struct PersonalEntry {
    pub context: PersonalContext,
    pub target_id: u32,
    pub count: u16,
    pub last_seen: u32,
}

/// A learned out-of-vocabulary Bangla word after `context`.
#[derive(Debug)]
pub struct PersonalTextEntry {
    pub context: PersonalContext,
    pub text: String,
    pub count: u16,
    pub last_seen: u32,
}

/// The value of a text entry.
pub struct TextEntryView {
    pub context: PersonalContext,
    pub text: Seq<char>,
    pub count: u16,
    pub last_seen: u32,
}

impl View for PersonalTextEntry {
    type V = TextEntryView;

    open spec fn view(&self) -> TextEntryView {
        TextEntryView {
            context: self.context,
            text: self.text@,
            count: self.count,
            last_seen: self.last_seen,
        }
    }
}

#[derive(Debug, Clone, Copy, PartialEq, Eq)]
pub struct PersonalAutosuggestSuggestion {
    pub token_id: u32,
    pub context_len: usize,
    pub count: u16,
    pub last_seen: u32,
    pub score: i32,
}

#[derive(Debug, Clone, Copy, PartialEq, Eq)]
pub struct PersonalAutosuggestTextSuggestion {
    pub entry_index: usize,
    pub context_len: usize,
    pub count: u16,
    pub last_seen: u32,
    pub score: i32,
}

pub open spec fn spec_entry_suggestion(e: PersonalEntry) -> PersonalAutosuggestSuggestion {
    PersonalAutosuggestSuggestion {
        token_id: e.target_id,
        context_len: e.context.len as usize,
        count: e.count,
        last_seen: e.last_seen,
        score: e.count as i32,
    }
}

pub fn entry_suggestion(e: PersonalEntry) -> (s: PersonalAutosuggestSuggestion)
    ensures
        s == spec_entry_suggestion(e),
{
    PersonalAutosuggestSuggestion {
        token_id: e.target_id,
        context_len: e.context.len as usize,
        count: e.count,
        last_seen: e.last_seen,
        score: e.count as i32,
    }
}

pub open spec fn spec_text_suggestion(e: TextEntryView, index: int) -> PersonalAutosuggestTextSuggestion {
    PersonalAutosuggestTextSuggestion {
        entry_index: index as usize,
        context_len: e.context.len as usize,
        count: e.count,
        last_seen: e.last_seen,
        score: e.count as i32,
    }
}

/// Suggestion order: longer context, then higher count, then more recent,
/// then the smaller token id.
pub open spec fn suggestion_precedes(a: PersonalAutosuggestSuggestion, b: PersonalAutosuggestSuggestion) -> bool {
    a.context_len > b.context_len || (a.context_len == b.context_len && (a.count > b.count || (
    a.count == b.count && (a.last_seen > b.last_seen || (a.last_seen == b.last_seen && a.token_id
        < b.token_id)))))
}

pub fn suggestion_precedes_exec(a: &PersonalAutosuggestSuggestion, b: &PersonalAutosuggestSuggestion) -> (r: bool)
    ensures
        r == suggestion_precedes(*a, *b),
{
    a.context_len > b.context_len || (a.context_len == b.context_len && (a.count > b.count || (
    a.count == b.count && (a.last_seen > b.last_seen || (a.last_seen == b.last_seen && a.token_id
        < b.token_id)))))
}

/// Text suggestion order by key: longer context, higher count, more recent,
/// then the smaller entry index.
pub open spec fn text_key_precedes(
    a: PersonalAutosuggestTextSuggestion,
    b: PersonalAutosuggestTextSuggestion,
) -> bool {
    a.context_len > b.context_len || (a.context_len == b.context_len && (a.count > b.count || (
    a.count == b.count && (a.last_seen > b.last_seen || (a.last_seen == b.last_seen
        && a.entry_index < b.entry_index)))))
}

pub fn text_key_precedes_exec(
    a: &PersonalAutosuggestTextSuggestion,
    b: &PersonalAutosuggestTextSuggestion,
) -> (r: bool)
    ensures
        r == text_key_precedes(*a, *b),
{
    a.context_len > b.context_len || (a.context_len == b.context_len && (a.count > b.count || (
    a.count == b.count && (a.last_seen > b.last_seen || (a.last_seen == b.last_seen
        && a.entry_index < b.entry_index)))))
}

/// Entry strength: higher count, then more recent, then the smaller target.
pub open spec fn entry_stronger(a: PersonalEntry, b: PersonalEntry) -> bool {
    a.count > b.count || (a.count == b.count && (a.last_seen > b.last_seen || (a.last_seen
        == b.last_seen && a.target_id < b.target_id)))
}

pub fn entry_stronger_exec(a: &PersonalEntry, b: &PersonalEntry) -> (r: bool)
    ensures
        r == entry_stronger(*a, *b),
{
    a.count > b.count || (a.count == b.count && (a.last_seen > b.last_seen || (a.last_seen
        == b.last_seen && a.target_id < b.target_id)))
}

/// The UTF-8 bytes of a text.
pub open spec fn text_bytes(t: Seq<char>) -> Seq<u8> {
    vstd::utf8::encode_utf8(t)
}

/// Text entry strength: higher count, then more recent, then the smaller text.
pub open spec fn text_entry_stronger(a: TextEntryView, b: TextEntryView) -> bool {
    a.count > b.count || (a.count == b.count && (a.last_seen > b.last_seen || (a.last_seen
        == b.last_seen && lex_lt(text_bytes(a.text), text_bytes(b.text)))))
}

pub fn text_entry_stronger_exec(a: &PersonalTextEntry, b: &PersonalTextEntry) -> (r: bool)
    ensures
        r == text_entry_stronger(a@, b@),
{
    if a.count != b.count {
        return a.count > b.count;
    }
    if a.last_seen != b.last_seen {
        return a.last_seen > b.last_seen;
    }
    let o = byte_order(a.text.as_str().as_bytes(), b.text.as_str().as_bytes());
    proof {
        crate::bytes::lemma_lex_lt_irreflexive(text_bytes(a@.text));
    }
    o == ByteOrder::Less
}

/// Entry key order: context, then target id.
pub open spec fn entry_key_lt(a: PersonalEntry, b: PersonalEntry) -> bool {
    ctx_lt(a.context, b.context) || (a.context == b.context && a.target_id < b.target_id)
}

/// Text entry key order: context, then text bytes.
pub open spec fn text_key_lt(a: TextEntryView, b: TextEntryView) -> bool {
    ctx_lt(a.context, b.context) || (a.context == b.context && lex_lt(
        text_bytes(a.text),
        text_bytes(b.text),
    ))
}

/// A text is a learnable personal word: 1 to 72 bytes of Bengali-block
/// characters (no danda or taka) with at least one Bengali letter.
pub open spec fn spec_is_personal_text(t: Seq<char>) -> bool {
    &&& t.len() > 0
    &&& text_bytes(t).len() <= PERSONAL_TEXT_TOKEN_MAX_BYTES
    &&& exists|i: int| 0 <= i < t.len() && spec_is_bangla_letter(#[trigger] t[i])
    &&& forall|i: int| 0 <= i < t.len() ==> spec_is_personal_text_char(#[trigger] t[i])
}

pub fn is_personal_text_token(text: &str) -> (b: bool)
    ensures
        b == spec_is_personal_text(text@),
{
    let n_bytes = text.as_bytes().len();
    let cs = chars_of(text);
    proof {
        vstd::utf8::encode_utf8_valid_utf8(text@);
    }
    if cs.len() == 0 || n_bytes > PERSONAL_TEXT_TOKEN_MAX_BYTES {
        return false;
    }
    let mut any_letter = false;
    let mut i: usize = 0;
    while i < cs.len()
        invariant
            cs@ == text@,
            i <= cs@.len(),
            forall|j: int| 0 <= j < i ==> spec_is_personal_text_char(#[trigger] cs@[j]),
            any_letter == exists|j: int| 0 <= j < i && spec_is_bangla_letter(#[trigger] cs@[j]),
        decreases cs@.len() - i,
    {
        if !is_personal_text_char(cs[i]) {
            return false;
        }
        if is_bangla_letter(cs[i]) {
            any_letter = true;
        }
        i = i + 1;
    }
    any_letter
}

/// The private context id of a personal word: a 31-bit fold of its 64-bit
/// FNV-1a hash with the marker bit set (never zero in the low bits).
pub open spec fn spec_text_context_id(t: Seq<char>) -> u32 {
    let hash = fnv64(FNV64_OFFSET, text_bytes(t));
    let folded = (((hash >> 31u64) as u32) ^ (hash as u32)) & PERSONAL_TEXT_CONTEXT_ID_MASK;
    PERSONAL_TEXT_CONTEXT_ID_MARKER | (if folded < 1 {
        1
    } else {
        folded
    })
}

pub fn personal_text_context_id(text: &str) -> (r: Option<u32>)
    ensures
        r == (if spec_is_personal_text(text@) {
            Some(spec_text_context_id(text@))
        } else {
            None
        }),
{
    if !is_personal_text_token(text) {
        return None;
    }
    let hash = fnv64_of(text.as_bytes());
    let folded = (((hash >> 31u64) as u32) ^ (hash as u32)) & PERSONAL_TEXT_CONTEXT_ID_MASK;
    Some(
        PERSONAL_TEXT_CONTEXT_ID_MARKER | (if folded < 1 {
            1
        } else {
            folded
        }),
    )
}

pub open spec fn is_text_context_id(id: u32) -> bool {
    id >= PERSONAL_TEXT_CONTEXT_ID_MARKER
}

pub fn is_personal_text_context_id(id: u32) -> (b: bool)
    ensures
        b == is_text_context_id(id),
{
    id >= PERSONAL_TEXT_CONTEXT_ID_MARKER
}

} // verus!
