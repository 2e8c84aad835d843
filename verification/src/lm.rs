//! The compact n-gram next-word model: token lookup and candidate generation
//! with suffix backoff.

use vstd::prelude::*;
use vstd::utf8::valid_utf8;
use vstd::string::StringSliceAdditionalSpecFns;
use crate::artifact::{
    AutosuggestArtifactError, Layout, spec_parse_layout, layout_consistent, parse_layout,
    lemma_parsed_layout_consistent, VERSION_V2, ID_TOKEN_RECORD_LEN, TOKEN_INDEX_RECORD_LEN,
    CANDIDATE_RECORD_LEN, COUNT_CANDIDATE_RECORD_LEN, BIGRAM_ROW_LEN, TRIGRAM_ROW_LEN,
    FOURGRAM_ROW_LEN,
};
use crate::bytes::{spec_u32_le, spec_i32_of, u32_le_at, i32_of_u32, spec_byte_order, byte_order,
    ByteOrder, utf8_str, sub_slice, spec_u32_bytes};
use crate::candidate::{
    AutosuggestCandidateId, AutosuggestCandidate, AutosuggestSource, AutosuggestOptions,
    MergeStatus, merge_step, append_step, merge_candidate_id, append_candidate_id, ranked_list,
    lemma_merge_step_keeps_ranked_list, lemma_append_step_keeps_distinct, distinct_ids, word_ids,
    id_of, first_index, same_id, preceded_by, precedes,
};
use crate::personal::lemma_first_index_exists;
use crate::merge::some_text_fails;
use crate::context::{
    AutosuggestContext, ContextView, AUTOSUGGEST_PAD_ID, AUTOSUGGEST_BOS_ID, AUTOSUGGEST_UNK_ID,
    MAX_AUTOSUGGEST_CONTEXT_TOKENS,
};
use crate::fnv::{fnv32, fnv64, FNV32_OFFSET, FNV64_OFFSET, fnv32_update, fnv32_update_u32, fnv64_of,
    lemma_fnv32_concat};

verus! {

pub const V1_CONTEXT_TOKENS: usize = 2;

/// How candidate records are combined across context orders.
#[derive(Debug, Clone, Copy, PartialEq, Eq, Structural)]
pub enum ScoreMode {
    /// Counts only: the most specific context fills the list first.
    BackoffOrder,
    /// Interpolated scores: every order competes by score.
    InterpolatedScore,
}

/// A candidate record as stored: token id, count and score (the count,
/// clamped to `i32::MAX`, in count-only artifacts).
#[derive(Debug, Clone, Copy)]
pub struct CandidateRecord {
    pub token_id: u32,
    pub count: u32,
    pub score: i32,
}

/// A run of candidate records: `count` records of the artifact's record length
/// starting at byte `base`, all tagged with `source`.
pub struct Level {
    pub base: int,
    pub count: int,
    pub source: AutosuggestSource,
}

/// The candidate record stored at byte `off`.
pub open spec fn record_in(b: Seq<u8>, l: Layout, off: int) -> CandidateRecord {
    let count = spec_u32_le(b, off + 4);
    CandidateRecord {
        token_id: spec_u32_le(b, off),
        count,
        score: if l.header.candidate_record_len == COUNT_CANDIDATE_RECORD_LEN {
            if count <= i32::MAX {
                count as i32
            } else {
                i32::MAX
            }
        } else {
            spec_i32_of(spec_u32_le(b, off + 8))
        },
    }
}

/// The mathematical state of a loaded model.
pub struct LmView {
    pub bytes: Seq<u8>,
    pub layout: Layout,
    pub mode: ScoreMode,
    pub vocab_fingerprint: u32,
}

impl LmView {
    pub open spec fn rd(self, off: int) -> u32 {
        spec_u32_le(self.bytes, off)
    }

    pub open spec fn rl(self) -> int {
        self.layout.header.candidate_record_len as int
    }

    pub open spec fn vocab_size(self) -> u32 {
        self.layout.header.vocab_size
    }

    pub open spec fn record_at(self, off: int) -> CandidateRecord {
        record_in(self.bytes, self.layout, off)
    }

    pub open spec fn candidate_at(self, off: int, source: AutosuggestSource) -> AutosuggestCandidateId {
        let r = self.record_at(off);
        AutosuggestCandidateId { token_id: r.token_id, source, count: r.count, score: r.score }
    }

    /// The bytes of token text at (`off`, `len`) within the token byte section.
    pub open spec fn token_range(self, off: u32, len: u32) -> Result<Seq<u8>, AutosuggestArtifactError> {
        let start = self.layout.sections.token_bytes + off;
        let end = start + len;
        if start > usize::MAX || end > usize::MAX {
            Err(AutosuggestArtifactError::InvalidSectionLayout)
        } else if end > self.bytes.len() {
            Err(AutosuggestArtifactError::UnexpectedEof)
        } else {
            Ok(self.bytes.subrange(start, end))
        }
    }

    /// The stored text bytes of token `id`.
    pub open spec fn token_text_bytes(self, id: u32) -> Result<Seq<u8>, AutosuggestArtifactError> {
        if id >= self.vocab_size() {
            Err(AutosuggestArtifactError::InvalidTokenId(id))
        } else {
            let rec = self.layout.sections.id_tokens + id * ID_TOKEN_RECORD_LEN;
            self.token_range(self.rd(rec), self.rd(rec + 4))
        }
    }

    /// The text of token `id`: its bytes when they are valid UTF-8.
    pub open spec fn token_text(self, id: u32) -> Result<Seq<u8>, AutosuggestArtifactError> {
        match self.token_text_bytes(id) {
            Err(e) => Err(e),
            Ok(b) => if valid_utf8(b) {
                Ok(b)
            } else {
                Err(AutosuggestArtifactError::InvalidUtf8)
            },
        }
    }

    pub open spec fn index_record(self, i: int) -> (u32, u32, u32) {
        let off = self.layout.sections.token_index + i * TOKEN_INDEX_RECORD_LEN;
        (self.rd(off), self.rd(off + 4), self.rd(off + 8))
    }

    /// Binary search of the sorted token index for `target`, as the reader
    /// performs it.
    pub open spec fn search_token(self, target: Seq<u8>, low: int, high: int) -> Result<
        Option<u32>,
        AutosuggestArtifactError,
    >
        decreases high - low,
    {
        if low >= high {
            Ok(None)
        } else {
            let mid = low + (high - low) / 2;
            let (off, len, id) = self.index_record(mid);
            match self.token_range(off, len) {
                Err(e) => Err(e),
                Ok(t) => match spec_byte_order(t, target) {
                    ByteOrder::Less => self.search_token(target, mid + 1, high),
                    ByteOrder::Equal => Ok(Some(id)),
                    ByteOrder::Greater => self.search_token(target, low, mid),
                },
            }
        }
    }

    pub open spec fn lookup_token(self, target: Seq<u8>) -> Result<Option<u32>, AutosuggestArtifactError> {
        self.search_token(target, 0, self.layout.header.token_index_count as int)
    }

    pub open spec fn bigram_row(self, i: int) -> (u32, u32, u32) {
        let off = self.layout.sections.bigram_rows + i * BIGRAM_ROW_LEN;
        (self.rd(off), self.rd(off + 4), self.rd(off + 8))
    }

    pub open spec fn search_bigram(self, p: u32, low: int, high: int) -> Option<(u32, u32)>
        decreases high - low,
    {
        if low >= high {
            None
        } else {
            let mid = low + (high - low) / 2;
            let (rp, s, l) = self.bigram_row(mid);
            if rp < p {
                self.search_bigram(p, mid + 1, high)
            } else if rp == p {
                Some((s, l))
            } else {
                self.search_bigram(p, low, mid)
            }
        }
    }

    pub open spec fn trigram_row(self, i: int) -> (u32, u32, u32, u32) {
        let off = self.layout.sections.trigram_rows + i * TRIGRAM_ROW_LEN;
        (self.rd(off), self.rd(off + 4), self.rd(off + 8), self.rd(off + 12))
    }

    pub open spec fn search_trigram(self, p1: u32, p2: u32, low: int, high: int) -> Option<(u32, u32)>
        decreases high - low,
    {
        if low >= high {
            None
        } else {
            let mid = low + (high - low) / 2;
            let (a, b, s, l) = self.trigram_row(mid);
            if a < p1 || (a == p1 && b < p2) {
                self.search_trigram(p1, p2, mid + 1, high)
            } else if a == p1 && b == p2 {
                Some((s, l))
            } else {
                self.search_trigram(p1, p2, low, mid)
            }
        }
    }

    pub open spec fn fourgram_row(self, i: int) -> (u32, u32, u32, u32, u32) {
        let off = self.layout.sections.fourgram_rows + i * FOURGRAM_ROW_LEN;
        (self.rd(off), self.rd(off + 4), self.rd(off + 8), self.rd(off + 12), self.rd(off + 16))
    }

    pub open spec fn search_fourgram(self, p1: u32, p2: u32, p3: u32, low: int, high: int) -> Option<
        (u32, u32),
    >
        decreases high - low,
    {
        if low >= high {
            None
        } else {
            let mid = low + (high - low) / 2;
            let (a, b, c, s, l) = self.fourgram_row(mid);
            if a < p1 || (a == p1 && (b < p2 || (b == p2 && c < p3))) {
                self.search_fourgram(p1, p2, p3, mid + 1, high)
            } else if a == p1 && b == p2 && c == p3 {
                Some((s, l))
            } else {
                self.search_fourgram(p1, p2, p3, low, mid)
            }
        }
    }

    pub open spec fn find_bigram(self, p: u32) -> Option<(u32, u32)> {
        self.search_bigram(p, 0, self.layout.header.bigram_row_count as int)
    }

    pub open spec fn find_trigram(self, p1: u32, p2: u32) -> Option<(u32, u32)> {
        self.search_trigram(p1, p2, 0, self.layout.header.trigram_row_count as int)
    }

    pub open spec fn find_fourgram(self, p1: u32, p2: u32, p3: u32) -> Option<(u32, u32)> {
        self.search_fourgram(p1, p2, p3, 0, self.layout.header.fourgram_row_count as int)
    }

    /// Bounded ranked merge of the records `i..` of a level; a `Stop` ends the
    /// level.
    pub open spec fn merge_from(self, out: Seq<AutosuggestCandidateId>, lv: Level, i: int, limit: int) -> Seq<
        AutosuggestCandidateId,
    >
        decreases lv.count - i,
    {
        if i >= lv.count {
            out
        } else {
            let (o2, st) = merge_step(out, self.candidate_at(lv.base + i * self.rl(), lv.source), limit);
            if st == MergeStatus::Stop {
                out
            } else {
                self.merge_from(o2, lv, i + 1, limit)
            }
        }
    }

    /// Backoff-order appending of the records `i..` of a level until full.
    pub open spec fn append_from(self, out: Seq<AutosuggestCandidateId>, lv: Level, i: int, limit: int) -> Seq<
        AutosuggestCandidateId,
    >
        decreases lv.count - i,
    {
        if i >= lv.count || out.len() >= limit {
            out
        } else {
            self.append_from(
                append_step(out, self.candidate_at(lv.base + i * self.rl(), lv.source)),
                lv,
                i + 1,
                limit,
            )
        }
    }

    pub open spec fn run_level(self, out: Seq<AutosuggestCandidateId>, lv: Level, limit: int) -> Seq<
        AutosuggestCandidateId,
    > {
        if self.mode == ScoreMode::BackoffOrder {
            self.append_from(out, lv, 0, limit)
        } else {
            self.merge_from(out, lv, 0, limit)
        }
    }

    /// The candidates a ranked merge of the records `i..` inserts, in the
    /// order it inserts them (each is in the list at that moment, whatever a
    /// later record evicts).
    pub open spec fn merge_trace(self, out: Seq<AutosuggestCandidateId>, lv: Level, i: int, limit: int) -> Seq<
        AutosuggestCandidateId,
    >
        decreases lv.count - i,
    {
        if i >= lv.count {
            Seq::empty()
        } else {
            let c = self.candidate_at(lv.base + i * self.rl(), lv.source);
            let (o2, st) = merge_step(out, c, limit);
            if st == MergeStatus::Stop {
                Seq::empty()
            } else if st == MergeStatus::Accepted {
                seq![c] + self.merge_trace(o2, lv, i + 1, limit)
            } else {
                self.merge_trace(o2, lv, i + 1, limit)
            }
        }
    }

    /// The candidates a backoff-order append of the records `i..` adds, in
    /// order.
    pub open spec fn append_trace(self, out: Seq<AutosuggestCandidateId>, lv: Level, i: int, limit: int) -> Seq<
        AutosuggestCandidateId,
    >
        decreases lv.count - i,
    {
        if i >= lv.count || out.len() >= limit {
            Seq::empty()
        } else {
            let c = self.candidate_at(lv.base + i * self.rl(), lv.source);
            let o2 = append_step(out, c);
            if o2.len() > out.len() {
                seq![c] + self.append_trace(o2, lv, i + 1, limit)
            } else {
                self.append_trace(o2, lv, i + 1, limit)
            }
        }
    }

    /// The candidates one level adds to the list, in the order it adds them.
    pub open spec fn run_level_trace(self, out: Seq<AutosuggestCandidateId>, lv: Level, limit: int) -> Seq<
        AutosuggestCandidateId,
    > {
        if self.mode == ScoreMode::BackoffOrder {
            self.append_trace(out, lv, 0, limit)
        } else {
            self.merge_trace(out, lv, 0, limit)
        }
    }

    /// The candidates a context row adds to the list, in order (none when
    /// the row is skipped, missing or runs past the candidate section).
    pub open spec fn apply_row_trace(
        self,
        out: Seq<AutosuggestCandidateId>,
        row: Option<(u32, u32)>,
        source: AutosuggestSource,
        limit: int,
    ) -> Seq<AutosuggestCandidateId> {
        if self.mode == ScoreMode::BackoffOrder && out.len() >= limit {
            Seq::empty()
        } else {
            match row {
                None => Seq::empty(),
                Some((s, l)) => if s + l > self.layout.header.candidate_count {
                    Seq::empty()
                } else {
                    self.run_level_trace(
                        out,
                        Level { base: self.layout.sections.candidates + s * self.rl(), count: l as int, source },
                        limit,
                    )
                },
            }
        }
    }

    /// Adds the candidates of a context row (if one was found); a row that
    /// runs past the candidate section is an error. In backoff order a full
    /// list skips the row.
    pub open spec fn apply_row(
        self,
        out: Seq<AutosuggestCandidateId>,
        row: Option<(u32, u32)>,
        source: AutosuggestSource,
        limit: int,
    ) -> Result<Seq<AutosuggestCandidateId>, (Seq<AutosuggestCandidateId>, AutosuggestArtifactError)> {
        if self.mode == ScoreMode::BackoffOrder && out.len() >= limit {
            Ok(out)
        } else {
            match row {
                None => Ok(out),
                Some((s, l)) => if s + l > self.layout.header.candidate_count {
                    Err((out, AutosuggestArtifactError::InvalidSectionLayout))
                } else {
                    Ok(
                        self.run_level(
                            out,
                            Level {
                                base: self.layout.sections.candidates + s * self.rl(),
                                count: l as int,
                                source,
                            },
                            limit,
                        ),
                    )
                },
            }
        }
    }

    pub open spec fn unigram_level(self) -> Level {
        Level {
            base: self.layout.sections.unigrams as int,
            count: self.layout.header.unigram_count as int,
            source: AutosuggestSource::Unigram,
        }
    }

    /// Candidate generation for model context `ctx` (newest id last): the
    /// fourgram, trigram and bigram rows of its suffixes, then the unigrams.
    /// `Err` carries the list as it stood when a malformed row was met.
    pub open spec fn suggest(self, ctx: Seq<u32>, limit: int) -> Result<
        Seq<AutosuggestCandidateId>,
        (Seq<AutosuggestCandidateId>, AutosuggestArtifactError),
    > {
        let n = ctx.len();
        let r4 = if n >= 3 {
            self.find_fourgram(ctx[n - 3], ctx[n - 2], ctx[n - 1])
        } else {
            None
        };
        match self.apply_row(Seq::empty(), r4, AutosuggestSource::Fourgram, limit) {
            Err(e) => Err(e),
            Ok(o1) => {
                let r3 = if n >= 2 {
                    self.find_trigram(ctx[n - 2], ctx[n - 1])
                } else {
                    None
                };
                match self.apply_row(o1, r3, AutosuggestSource::Trigram, limit) {
                    Err(e) => Err(e),
                    Ok(o2) => {
                        let r2 = if n >= 1 {
                            self.find_bigram(ctx[n - 1])
                        } else {
                            None
                        };
                        match self.apply_row(o2, r2, AutosuggestSource::Bigram, limit) {
                            Err(e) => Err(e),
                            Ok(o3) => if self.mode == ScoreMode::BackoffOrder && o3.len() >= limit {
                                Ok(o3)
                            } else {
                                Ok(self.run_level(o3, self.unigram_level(), limit))
                            },
                        }
                    },
                }
            },
        }
    }

    /// The candidates [`Self::suggest`] adds to its list, in the order it
    /// adds them, up to the row that fails if one does.
    pub open spec fn suggest_trace(self, ctx: Seq<u32>, limit: int) -> Seq<AutosuggestCandidateId> {
        let n = ctx.len();
        let r4 = if n >= 3 {
            self.find_fourgram(ctx[n - 3], ctx[n - 2], ctx[n - 1])
        } else {
            None
        };
        let t4 = self.apply_row_trace(Seq::empty(), r4, AutosuggestSource::Fourgram, limit);
        match self.apply_row(Seq::empty(), r4, AutosuggestSource::Fourgram, limit) {
            Err(_) => t4,
            Ok(o1) => {
                let r3 = if n >= 2 {
                    self.find_trigram(ctx[n - 2], ctx[n - 1])
                } else {
                    None
                };
                let t3 = self.apply_row_trace(o1, r3, AutosuggestSource::Trigram, limit);
                match self.apply_row(o1, r3, AutosuggestSource::Trigram, limit) {
                    Err(_) => t4 + t3,
                    Ok(o2) => {
                        let r2 = if n >= 1 {
                            self.find_bigram(ctx[n - 1])
                        } else {
                            None
                        };
                        let t2 = self.apply_row_trace(o2, r2, AutosuggestSource::Bigram, limit);
                        match self.apply_row(o2, r2, AutosuggestSource::Bigram, limit) {
                            Err(_) => t4 + t3 + t2,
                            Ok(o3) => if self.mode == ScoreMode::BackoffOrder && o3.len() >= limit {
                                t4 + t3 + t2
                            } else {
                                t4 + t3 + t2 + self.run_level_trace(o3, self.unigram_level(), limit)
                            },
                        }
                    },
                }
            },
        }
    }

    /// How many context ids the model's rows can use.
    pub open spec fn context_limit(self) -> int {
        if self.layout.header.version >= VERSION_V2 && self.layout.header.fourgram_row_count > 0 {
            MAX_AUTOSUGGEST_CONTEXT_TOKENS as int
        } else {
            V1_CONTEXT_TOKENS as int
        }
    }

    /// The ids handed to the rows: `<bos>` at a true sentence start, otherwise
    /// the newest `context_limit()` recent ids.
    pub open spec fn model_context(self, c: ContextView) -> Seq<u32> {
        if c.is_sentence_start() {
            seq![AUTOSUGGEST_BOS_ID]
        } else {
            let k = if c.recent.len() < self.context_limit() {
                c.recent.len() as int
            } else {
                self.context_limit()
            };
            c.recent.subrange(c.recent.len() - k, c.recent.len() as int)
        }
    }

    /// The first model-context id outside the vocabulary, if any.
    pub open spec fn first_invalid(self, ids: Seq<u32>) -> Option<u32> {
        if exists|i: int| 0 <= i < ids.len() && ids[i] >= self.vocab_size() {
            let i = choose|i: int|
                0 <= i < ids.len() && ids[i] >= self.vocab_size() && forall|j: int|
                    0 <= j < i ==> ids[j] < self.vocab_size();
            Some(ids[i])
        } else {
            None
        }
    }

    /// Candidate ids for a context, as the reader computes them.
    pub open spec fn suggest_for(self, c: ContextView, limit: int) -> Result<
        Seq<AutosuggestCandidateId>,
        (Seq<AutosuggestCandidateId>, AutosuggestArtifactError),
    > {
        let ids = self.model_context(c);
        match self.first_invalid(ids) {
            Some(id) => Err((Seq::empty(), AutosuggestArtifactError::InvalidTokenId(id))),
            None => self.suggest(ids, limit),
        }
    }

    /// The candidates [`Self::suggest_for`] adds to its list, in order.
    pub open spec fn suggest_for_trace(self, c: ContextView, limit: int) -> Seq<AutosuggestCandidateId> {
        let ids = self.model_context(c);
        match self.first_invalid(ids) {
            Some(_) => Seq::empty(),
            None => self.suggest_trace(ids, limit),
        }
    }

    /// The context words that matched model rows: none at a sentence start.
    pub open spec fn matched_count(self, c: ContextView) -> int {
        if c.is_sentence_start() {
            0
        } else {
            self.model_context(c).len() as int
        }
    }
}

/// The score mode the reader infers: count-only records, or a sample of up
/// to eight unigram records whose scores equal their counts, mean backoff
/// order.
pub open spec fn spec_score_mode(b: Seq<u8>, l: Layout) -> ScoreMode {
    let v = LmView { bytes: b, layout: l, mode: ScoreMode::BackoffOrder, vocab_fingerprint: 0 };
    let n = if l.header.unigram_count < 8 {
        l.header.unigram_count as int
    } else {
        8
    };
    if l.header.candidate_record_len == COUNT_CANDIDATE_RECORD_LEN {
        ScoreMode::BackoffOrder
    } else if n == 0 {
        ScoreMode::InterpolatedScore
    } else if forall|i: int|
        0 <= i < n ==> {
            let r = #[trigger] v.record_at(l.sections.unigrams + i * v.rl());
            r.score >= 0 && r.score as u32 == r.count
        } {
        ScoreMode::BackoffOrder
    } else {
        ScoreMode::InterpolatedScore
    }
}

/// FNV-1a over the vocabulary header counts, the id → token records and the
/// token bytes; never 0.
pub open spec fn spec_vocab_fingerprint(b: Seq<u8>, l: Layout) -> u32 {
    let h = fnv32(
        FNV32_OFFSET,
        spec_u32_bytes(l.header.vocab_size) + spec_u32_bytes(l.header.token_index_count)
            + spec_u32_bytes(l.header.token_bytes_len) + b.subrange(
            l.sections.id_tokens as int,
            l.sections.token_index as int,
        ) + b.subrange(l.sections.token_bytes as int, l.sections.end as int),
    );
    if h == 0 {
        1
    } else {
        h
    }
}

/// What loading a blob gives: the layout's error, a fingerprint mismatch when
/// the header records a fingerprint that differs from the computed one, or the
/// model.
pub open spec fn spec_load(b: Seq<u8>) -> Result<LmView, AutosuggestArtifactError> {
    match spec_parse_layout(b) {
        Err(e) => Err(e),
        Ok(l) => {
            let fp = spec_vocab_fingerprint(b, l);
            if l.header.vocab_fingerprint != 0 && l.header.vocab_fingerprint != fp {
                Err(
                    AutosuggestArtifactError::ModelFingerprintMismatch {
                        expected: l.header.vocab_fingerprint,
                        actual: fp,
                    },
                )
            } else {
                Ok(LmView { bytes: b, layout: l, mode: spec_score_mode(b, l), vocab_fingerprint: fp })
            }
        },
    }
}

pub proof fn lemma_record_in(base: int, i: int, n: int, rl: int)
    requires
        0 <= i < n,
        rl >= 0,
    ensures
        base + i * rl + rl <= base + n * rl,
        0 <= i * rl,
{
    assert(i * rl + rl <= n * rl) by (nonlinear_arith)
        requires
            0 <= i < n,
            rl >= 0,
    ;
    assert(0 <= i * rl) by (nonlinear_arith)
        requires
            0 <= i,
            rl >= 0,
    ;
}

/// A loaded next-word model over an artifact held in memory.
#[derive(Debug)]
pub struct AutosuggestLm {
    bytes: Vec<u8>,
    layout: Layout,
    score_mode: ScoreMode,
    vocab_fingerprint: u32,
}

impl View for AutosuggestLm {
    type V = LmView;

    closed spec fn view(&self) -> LmView {
        LmView {
            bytes: self.bytes@,
            layout: self.layout,
            mode: self.score_mode,
            vocab_fingerprint: self.vocab_fingerprint,
        }
    }
}

/// A loaded model is what `spec_load` makes of its bytes.
pub open spec fn lm_wf(v: LmView) -> bool {
    spec_load(v.bytes) == Ok::<LmView, AutosuggestArtifactError>(v)
}

impl AutosuggestLm {
    #[verifier::type_invariant]
    spec fn inv(self) -> bool {
        lm_wf(self@)
    }

    /// Validates and loads an artifact held in memory.
    pub fn from_bytes(bytes: Vec<u8>) -> (r: Result<Self, AutosuggestArtifactError>)
        ensures
            match r {
                Ok(lm) => spec_load(bytes@) == Ok::<LmView, AutosuggestArtifactError>(lm@),
                Err(e) => spec_load(bytes@) == Err::<LmView, AutosuggestArtifactError>(e),
            },
    {
        let layout = match parse_layout(bytes.as_slice()) {
            Ok(l) => l,
            Err(e) => return Err(e),
        };
        proof {
            lemma_parsed_layout_consistent(bytes@);
        }
        let score_mode = detect_score_mode(&bytes, layout);
        let fp = compute_vocab_fingerprint(&bytes, layout);
        if layout.header.vocab_fingerprint != 0 && layout.header.vocab_fingerprint != fp {
            return Err(
                AutosuggestArtifactError::ModelFingerprintMismatch {
                    expected: layout.header.vocab_fingerprint,
                    actual: fp,
                },
            );
        }
        let lm = AutosuggestLm { bytes, layout, score_mode, vocab_fingerprint: fp };
        Ok(lm)
    }

    pub fn vocab_size(&self) -> (n: usize)
        ensures
            n == self@.layout.header.vocab_size,
    {
        self.layout.header.vocab_size as usize
    }

    pub fn unigram_count(&self) -> (n: usize)
        ensures
            n == self@.layout.header.unigram_count,
    {
        self.layout.header.unigram_count as usize
    }

    pub fn bigram_row_count(&self) -> (n: usize)
        ensures
            n == self@.layout.header.bigram_row_count,
    {
        self.layout.header.bigram_row_count as usize
    }

    pub fn trigram_row_count(&self) -> (n: usize)
        ensures
            n == self@.layout.header.trigram_row_count,
    {
        self.layout.header.trigram_row_count as usize
    }

    pub fn fourgram_row_count(&self) -> (n: usize)
        ensures
            n == self@.layout.header.fourgram_row_count,
    {
        self.layout.header.fourgram_row_count as usize
    }

    pub fn candidate_record_len(&self) -> (n: usize)
        ensures
            n == self@.layout.header.candidate_record_len,
    {
        self.layout.header.candidate_record_len as usize
    }

    fn model_context_token_limit(&self) -> (n: usize)
        ensures
            n == self@.context_limit(),
    {
        if self.layout.header.version >= VERSION_V2 && self.layout.header.fourgram_row_count > 0 {
            MAX_AUTOSUGGEST_CONTEXT_TOKENS
        } else {
            V1_CONTEXT_TOKENS
        }
    }

    /// The artifact's length in bytes.
    pub fn artifact_bytes(&self) -> (n: usize)
        ensures
            n == self@.bytes.len(),
    {
        proof {
            use_type_invariant(self);
            lemma_parsed_layout_consistent(self@.bytes);
        }
        self.layout.sections.end
    }

    pub fn vocab_fingerprint(&self) -> (fp: u32)
        ensures
            fp == self@.vocab_fingerprint,
            fp == spec_vocab_fingerprint(self@.bytes, self@.layout),
            fp != 0,
    {
        proof {
            use_type_invariant(self);
        }
        self.vocab_fingerprint
    }

    /// The artifact's header identity and sizes.
    pub fn model_info(&self) -> (info: AutosuggestModelInfo)
        ensures
            info.artifact_kind@ == AUTOSUGGEST_ARTIFACT_KIND@,
            info.version == self@.layout.header.version,
            info.artifact_bytes == self@.bytes.len(),
            info.vocab_size == self@.layout.header.vocab_size,
            info.vocab_fingerprint == self@.vocab_fingerprint,
            info.unigram_count == self@.layout.header.unigram_count,
            info.bigram_rows == self@.layout.header.bigram_row_count,
            info.trigram_rows == self@.layout.header.trigram_row_count,
            info.fourgram_rows == self@.layout.header.fourgram_row_count,
            info.candidate_record_len == self@.layout.header.candidate_record_len,
    {
        AutosuggestModelInfo {
            artifact_kind: AUTOSUGGEST_ARTIFACT_KIND,
            version: self.layout.header.version,
            artifact_bytes: self.artifact_bytes(),
            vocab_size: self.vocab_size(),
            vocab_fingerprint: self.vocab_fingerprint,
            unigram_count: self.unigram_count(),
            bigram_rows: self.bigram_row_count(),
            trigram_rows: self.trigram_row_count(),
            fourgram_rows: self.fourgram_row_count(),
            candidate_record_len: self.candidate_record_len(),
        }
    }

    /// 64-bit FNV-1a of the whole artifact (scans every byte).
    pub fn artifact_fingerprint(&self) -> (fp: u64)
        ensures
            fp == fnv64(FNV64_OFFSET, self@.bytes),
    {
        fnv64_of(self.bytes.as_slice())
    }

    fn word(&self, off: usize) -> (v: u32)
        requires
            off + 4 <= self@.bytes.len(),
        ensures
            v == self@.rd(off as int),
    {
        u32_le_at(self.bytes.as_slice(), off)
    }

    fn token_bytes(&self, offset: u32, len: u32) -> (r: Result<&[u8], AutosuggestArtifactError>)
        ensures
            match r {
                Ok(s) => self@.token_range(offset, len) == Ok::<Seq<u8>, AutosuggestArtifactError>(s@),
                Err(e) => self@.token_range(offset, len) == Err::<Seq<u8>, AutosuggestArtifactError>(e),
            },
    {
        let base = self.layout.sections.token_bytes;
        if base > usize::MAX - offset as usize {
            return Err(AutosuggestArtifactError::InvalidSectionLayout);
        }
        let start = base + offset as usize;
        if start > usize::MAX - len as usize {
            return Err(AutosuggestArtifactError::InvalidSectionLayout);
        }
        let end = start + len as usize;
        if end > self.bytes.len() {
            return Err(AutosuggestArtifactError::UnexpectedEof);
        }
        Ok(sub_slice(self.bytes.as_slice(), start, end))
    }

    /// Looks a word up in the sorted token index.
    pub fn token_id(&self, token: &str) -> (r: Result<Option<u32>, AutosuggestArtifactError>)
        ensures
            r == self@.lookup_token(token.spec_bytes()),
    {
        proof {
            use_type_invariant(self);
            lemma_parsed_layout_consistent(self@.bytes);
        }
        let target = token.as_bytes();
        assert(target@ == token.spec_bytes());
        let mut low: usize = 0;
        let n = self.layout.header.token_index_count as usize;
        let mut high: usize = n;
        let ghost v = self@;
        while low < high
            invariant
                v == self@,
                target@ == token.spec_bytes(),
                layout_consistent(v.layout, v.bytes.len() as int),
                n == v.layout.header.token_index_count,
                low <= high <= n,
                v.search_token(target@, low as int, high as int) == v.lookup_token(target@),
            decreases high - low,
        {
            let mid = low + (high - low) / 2;
            proof {
                lemma_record_in(
                    v.layout.sections.token_index as int,
                    mid as int,
                    n as int,
                    TOKEN_INDEX_RECORD_LEN as int,
                );
            }
            let offset = self.layout.sections.token_index + mid * TOKEN_INDEX_RECORD_LEN;
            let token_offset = self.word(offset);
            let token_len = self.word(offset + 4);
            let id = self.word(offset + 8);
            assert(v.index_record(mid as int) == (token_offset, token_len, id));
            let t = match self.token_bytes(token_offset, token_len) {
                Ok(t) => t,
                Err(e) => {
                    assert(mid as int == low as int + (high as int - low as int) / 2);
                    assert(v.search_token(target@, low as int, high as int) == Err::<Option<u32>, AutosuggestArtifactError>(e));
                    return Err(e);
                },
            };
            match byte_order(t, target) {
                ByteOrder::Less => low = mid + 1,
                ByteOrder::Equal => return Ok(Some(id)),
                ByteOrder::Greater => high = mid,
            }
        }
        Ok(None)
    }

    /// The text of a token id.
    pub fn token_text(&self, token_id: u32) -> (r: Result<&str, AutosuggestArtifactError>)
        ensures
            match r {
                Ok(s) => self@.token_text(token_id) == Ok::<Seq<u8>, AutosuggestArtifactError>(
                    s.spec_bytes(),
                ),
                Err(e) => self@.token_text(token_id) == Err::<Seq<u8>, AutosuggestArtifactError>(e),
            },
    {
        proof {
            use_type_invariant(self);
            lemma_parsed_layout_consistent(self@.bytes);
        }
        if token_id >= self.layout.header.vocab_size {
            return Err(AutosuggestArtifactError::InvalidTokenId(token_id));
        }
        proof {
            lemma_record_in(
                self@.layout.sections.id_tokens as int,
                token_id as int,
                self@.layout.header.vocab_size as int,
                ID_TOKEN_RECORD_LEN as int,
            );
        }
        let offset = self.layout.sections.id_tokens + token_id as usize * ID_TOKEN_RECORD_LEN;
        let token_offset = self.word(offset);
        let token_len = self.word(offset + 4);
        let b = match self.token_bytes(token_offset, token_len) {
            Ok(b) => b,
            Err(e) => return Err(e),
        };
        match utf8_str(b) {
            Some(s) => Ok(s),
            None => Err(AutosuggestArtifactError::InvalidUtf8),
        }
    }

    /// True only for ids of commit-worthy words: above the reserved `<pad>`,
    /// `<bos>`, `<unk>` and inside the vocabulary.
    pub fn is_word_token_id(&self, token_id: u32) -> (b: bool)
        ensures
            b == (token_id > AUTOSUGGEST_UNK_ID && token_id < self@.vocab_size()),
    {
        token_id > AUTOSUGGEST_UNK_ID && token_id < self.layout.header.vocab_size
    }

    pub fn validate_word_token_id(&self, token_id: u32) -> (r: Result<(), AutosuggestArtifactError>)
        ensures
            r is Ok <==> (token_id > AUTOSUGGEST_UNK_ID && token_id < self@.vocab_size()),
            r is Err ==> r == Err::<(), AutosuggestArtifactError>(
                AutosuggestArtifactError::InvalidTokenId(token_id),
            ),
    {
        if !self.is_word_token_id(token_id) {
            return Err(AutosuggestArtifactError::InvalidTokenId(token_id));
        }
        Ok(())
    }
}

pub const AUTOSUGGEST_ARTIFACT_KIND: &'static str = "obadh-autosuggest-ngram";

/// Static identity and sizing metadata for an autosuggest model.
#[derive(Debug, Clone, Copy, PartialEq, Eq)]
pub struct AutosuggestModelInfo {
    pub artifact_kind: &'static str,
    pub version: u32,
    pub artifact_bytes: usize,
    pub vocab_size: usize,
    pub vocab_fingerprint: u32,
    pub unigram_count: usize,
    pub bigram_rows: usize,
    pub trigram_rows: usize,
    pub fourgram_rows: usize,
    pub candidate_record_len: usize,
}

fn read_record(bytes: &Vec<u8>, layout: Layout, off: usize) -> (r: CandidateRecord)
    requires
        layout_consistent(layout, bytes@.len() as int),
        off + layout.header.candidate_record_len <= bytes@.len(),
    ensures
        r == record_in(bytes@, layout, off as int),
{
    let token_id = u32_le_at(bytes.as_slice(), off);
    let count = u32_le_at(bytes.as_slice(), off + 4);
    let score = if layout.header.candidate_record_len as usize == COUNT_CANDIDATE_RECORD_LEN {
        if count <= 0x7fff_ffff {
            count as i32
        } else {
            i32::MAX
        }
    } else {
        i32_of_u32(u32_le_at(bytes.as_slice(), off + 8))
    };
    CandidateRecord { token_id, count, score }
}

fn detect_score_mode(bytes: &Vec<u8>, layout: Layout) -> (m: ScoreMode)
    requires
        layout_consistent(layout, bytes@.len() as int),
    ensures
        m == spec_score_mode(bytes@, layout),
{
    let ghost v = LmView { bytes: bytes@, layout, mode: ScoreMode::BackoffOrder, vocab_fingerprint: 0 };
    if layout.header.candidate_record_len as usize == COUNT_CANDIDATE_RECORD_LEN {
        return ScoreMode::BackoffOrder;
    }
    let n: usize = if layout.header.unigram_count < 8 {
        layout.header.unigram_count as usize
    } else {
        8
    };
    if n == 0 {
        return ScoreMode::InterpolatedScore;
    }
    let rl = layout.header.candidate_record_len as usize;
    let mut i: usize = 0;
    while i < n
        invariant
            layout_consistent(layout, bytes@.len() as int),
            v == (LmView { bytes: bytes@, layout, mode: ScoreMode::BackoffOrder, vocab_fingerprint: 0 }),
            rl == layout.header.candidate_record_len,
            rl == CANDIDATE_RECORD_LEN,
            n <= layout.header.unigram_count,
            n <= 8,
            i <= n,
            forall|j: int|
                0 <= j < i ==> {
                    let r = #[trigger] v.record_at(layout.sections.unigrams + j * v.rl());
                    r.score >= 0 && r.score as u32 == r.count
                },
        decreases n - i,
    {
        proof {
            lemma_record_in(
                layout.sections.unigrams as int,
                i as int,
                layout.header.unigram_count as int,
                rl as int,
            );
        }
        let r = read_record(bytes, layout, layout.sections.unigrams + i * rl);
        assert(r == v.record_at(layout.sections.unigrams + i * v.rl()));
        if r.score < 0 || r.score as u32 != r.count {
            return ScoreMode::InterpolatedScore;
        }
        i = i + 1;
    }
    ScoreMode::BackoffOrder
}

fn compute_vocab_fingerprint(bytes: &Vec<u8>, layout: Layout) -> (fp: u32)
    requires
        layout_consistent(layout, bytes@.len() as int),
    ensures
        fp == spec_vocab_fingerprint(bytes@, layout),
{
    let h1 = fnv32_update_u32(FNV32_OFFSET, layout.header.vocab_size);
    let h2 = fnv32_update_u32(h1, layout.header.token_index_count);
    let h3 = fnv32_update_u32(h2, layout.header.token_bytes_len);
    let h4 = fnv32_update(h3, bytes.as_slice(), layout.sections.id_tokens, layout.sections.token_index);
    let h5 = fnv32_update(h4, bytes.as_slice(), layout.sections.token_bytes, layout.sections.end);
    proof {
        let a = spec_u32_bytes(layout.header.vocab_size);
        let b = spec_u32_bytes(layout.header.token_index_count);
        let c = spec_u32_bytes(layout.header.token_bytes_len);
        let d = bytes@.subrange(layout.sections.id_tokens as int, layout.sections.token_index as int);
        let e = bytes@.subrange(layout.sections.token_bytes as int, layout.sections.end as int);
        lemma_fnv32_concat(FNV32_OFFSET, a, b);
        lemma_fnv32_concat(FNV32_OFFSET, a + b, c);
        lemma_fnv32_concat(FNV32_OFFSET, a + b + c, d);
        lemma_fnv32_concat(FNV32_OFFSET, a + b + c + d, e);
    }
    if h5 == 0 {
        1
    } else {
        h5
    }
}


/// Law: merging a level into a ranked list keeps it ranked, duplicate-free,
/// word-only and within the limit.
pub proof fn lemma_merge_from_ranked(v: LmView, out: Seq<AutosuggestCandidateId>, lv: Level, i: int, limit: int)
    requires
        limit >= 1,
        ranked_list(out, limit),
    ensures
        ranked_list(v.merge_from(out, lv, i, limit), limit),
    decreases lv.count - i,
{
    if i < lv.count {
        let c = v.candidate_at(lv.base + i * v.rl(), lv.source);
        lemma_merge_step_keeps_ranked_list(out, c, limit);
        let (o2, st) = merge_step(out, c, limit);
        if st != MergeStatus::Stop {
            lemma_merge_from_ranked(v, o2, lv, i + 1, limit);
        }
    }
}

/// Law: appending a level keeps the list duplicate-free, word-only and within
/// the limit.
pub proof fn lemma_append_from_distinct(v: LmView, out: Seq<AutosuggestCandidateId>, lv: Level, i: int, limit: int)
    requires
        distinct_ids(out),
        word_ids(out),
        out.len() <= limit,
    ensures
        distinct_ids(v.append_from(out, lv, i, limit)),
        word_ids(v.append_from(out, lv, i, limit)),
        v.append_from(out, lv, i, limit).len() <= limit,
    decreases lv.count - i,
{
    if i < lv.count && out.len() < limit {
        let c = v.candidate_at(lv.base + i * v.rl(), lv.source);
        lemma_append_step_keeps_distinct(out, c);
        lemma_append_from_distinct(v, append_step(out, c), lv, i + 1, limit);
    }
}

/// The list invariant of either mode: duplicate-free word ids within the
/// limit, and, when scores compete, in ranking order.
pub open spec fn mode_list(v: LmView, s: Seq<AutosuggestCandidateId>, limit: int) -> bool {
    &&& distinct_ids(s)
    &&& word_ids(s)
    &&& s.len() <= limit
    &&& v.mode == ScoreMode::InterpolatedScore ==> crate::candidate::ranked(s)
}

pub proof fn lemma_run_level(v: LmView, out: Seq<AutosuggestCandidateId>, lv: Level, limit: int)
    requires
        limit >= 1,
        mode_list(v, out, limit),
    ensures
        mode_list(v, v.run_level(out, lv, limit), limit),
{
    if v.mode == ScoreMode::BackoffOrder {
        lemma_append_from_distinct(v, out, lv, 0, limit);
    } else {
        lemma_merge_from_ranked(v, out, lv, 0, limit);
    }
}

pub proof fn lemma_apply_row(
    v: LmView,
    out: Seq<AutosuggestCandidateId>,
    row: Option<(u32, u32)>,
    source: AutosuggestSource,
    limit: int,
)
    requires
        limit >= 1,
        mode_list(v, out, limit),
    ensures
        match v.apply_row(out, row, source, limit) {
            Ok(o) => mode_list(v, o, limit),
            Err((o, _)) => mode_list(v, o, limit),
        },
{
    match row {
        Some((s, l)) => {
            if !(v.mode == ScoreMode::BackoffOrder && out.len() >= limit) && s + l
                <= v.layout.header.candidate_count {
                lemma_run_level(
                    v,
                    out,
                    Level { base: v.layout.sections.candidates + s * v.rl(), count: l as int, source },
                    limit,
                );
            }
        },
        None => {},
    }
}

/// Law: whatever the context, generated candidates are duplicate-free word ids
/// within the limit, ranked when the artifact is scored.
pub proof fn lemma_suggest_list(v: LmView, ctx: Seq<u32>, limit: int)
    requires
        limit >= 1,
    ensures
        match v.suggest(ctx, limit) {
            Ok(o) => mode_list(v, o, limit),
            Err((o, _)) => mode_list(v, o, limit),
        },
{
    let n = ctx.len();
    let e: Seq<AutosuggestCandidateId> = Seq::empty();
    let r4 = if n >= 3 {
        v.find_fourgram(ctx[n - 3], ctx[n - 2], ctx[n - 1])
    } else {
        None
    };
    lemma_apply_row(v, e, r4, AutosuggestSource::Fourgram, limit);
    if let Ok(o1) = v.apply_row(e, r4, AutosuggestSource::Fourgram, limit) {
        let r3 = if n >= 2 {
            v.find_trigram(ctx[n - 2], ctx[n - 1])
        } else {
            None
        };
        lemma_apply_row(v, o1, r3, AutosuggestSource::Trigram, limit);
        if let Ok(o2) = v.apply_row(o1, r3, AutosuggestSource::Trigram, limit) {
            let r2 = if n >= 1 {
                v.find_bigram(ctx[n - 1])
            } else {
                None
            };
            lemma_apply_row(v, o2, r2, AutosuggestSource::Bigram, limit);
            if let Ok(o3) = v.apply_row(o2, r2, AutosuggestSource::Bigram, limit) {
                lemma_run_level(v, o3, v.unigram_level(), limit);
            }
        }
    }
}

/// Law: for any context, the candidate list (also the partial one left by an
/// error) is duplicate-free word ids within the limit, ranked when scored.
pub proof fn lemma_suggest_for_list(v: LmView, c: ContextView, limit: int)
    requires
        limit >= 1,
    ensures
        match v.suggest_for(c, limit) {
            Ok(o) => mode_list(v, o, limit),
            Err((o, _)) => mode_list(v, o, limit),
        },
{
    if v.first_invalid(v.model_context(c)) is None {
        lemma_suggest_list(v, v.model_context(c), limit);
    }
}

#[derive(Debug, Clone, Copy, PartialEq, Eq)]
pub struct AutosuggestMetadata {
    pub context_token_count: usize,
    pub matched_context_token_count: usize,
}

#[derive(Debug, Clone, PartialEq, Eq)]
pub struct AutosuggestResult<'a> {
    pub context_token_count: usize,
    pub matched_context_token_count: usize,
    pub candidates: Vec<AutosuggestCandidate<'a>>,
}

/// Some candidate of `s` has token `id`.
pub open spec fn has_id(s: Seq<AutosuggestCandidateId>, id: u32) -> bool {
    exists|k: int| 0 <= k < s.len() && (#[trigger] s[k]).token_id == id
}

/// Every candidate of `r` shares its token with a candidate of `a` or of `b`.
pub open spec fn ids_within(
    r: Seq<AutosuggestCandidateId>,
    a: Seq<AutosuggestCandidateId>,
    b: Seq<AutosuggestCandidateId>,
) -> bool {
    forall|m: int| 0 <= m < r.len() ==> has_id(a, (#[trigger] r[m]).token_id) || has_id(b, r[m].token_id)
}

proof fn lemma_has_id_at(s: Seq<AutosuggestCandidateId>, k: int)
    requires
        0 <= k < s.len(),
    ensures
        has_id(s, s[k].token_id),
{
}

proof fn lemma_has_id_concat(a: Seq<AutosuggestCandidateId>, b: Seq<AutosuggestCandidateId>, id: u32)
    ensures
        has_id(a, id) ==> has_id(a + b, id),
        has_id(b, id) ==> has_id(a + b, id),
{
    if has_id(a, id) {
        let k = choose|k: int| 0 <= k < a.len() && (#[trigger] a[k]).token_id == id;
        assert((a + b)[k] == a[k]);
        lemma_has_id_at(a + b, k);
    }
    if has_id(b, id) {
        let k = choose|k: int| 0 <= k < b.len() && (#[trigger] b[k]).token_id == id;
        assert((a + b)[a.len() + k] == b[k]);
        lemma_has_id_at(a + b, a.len() + k);
    }
}

proof fn lemma_ids_within_trans(
    r: Seq<AutosuggestCandidateId>,
    a: Seq<AutosuggestCandidateId>,
    b: Seq<AutosuggestCandidateId>,
    c: Seq<AutosuggestCandidateId>,
    d: Seq<AutosuggestCandidateId>,
)
    requires
        ids_within(r, a, b),
        ids_within(a, c, d),
    ensures
        ids_within(r, c, d + b),
{
    assert forall|m: int| 0 <= m < r.len() implies has_id(c, (#[trigger] r[m]).token_id) || has_id(d + b, r[m].token_id) by {
        let id = r[m].token_id;
        lemma_has_id_concat(d, b, id);
        if has_id(a, id) {
            let k = choose|k: int| 0 <= k < a.len() && (#[trigger] a[k]).token_id == id;
            assert(has_id(c, a[k].token_id) || has_id(d, a[k].token_id));
        }
    }
}

/// Each candidate a merge step leaves in the list was there before, or is
/// the one it accepted.
proof fn lemma_merge_step_members(out: Seq<AutosuggestCandidateId>, c: AutosuggestCandidateId, limit: int)
    ensures
        forall|m: int|
            0 <= m < merge_step(out, c, limit).0.len() ==> has_id(out, (#[trigger] merge_step(out, c, limit).0[m]).token_id)
                || (merge_step(out, c, limit).1 == MergeStatus::Accepted && merge_step(out, c, limit).0[m].token_id
                == c.token_id),
{
    let o2 = merge_step(out, c, limit).0;
    if c.token_id > AUTOSUGGEST_UNK_ID {
        let p = first_index(out, same_id(c.token_id));
        let s2 = if p < out.len() && precedes(c, out[p]) {
            out.remove(p)
        } else if out.len() >= limit && out.len() > 0 {
            out.drop_last()
        } else {
            out
        };
        assert forall|m: int| 0 <= m < s2.len() implies has_id(out, (#[trigger] s2[m]).token_id) by {
            lemma_first_index_exists(out, same_id(c.token_id));
            if p < out.len() && precedes(c, out[p]) {
                out.remove_ensures(p);
                if m < p {
                    lemma_has_id_at(out, m);
                } else {
                    assert(s2[m] == out[m + 1]);
                    lemma_has_id_at(out, m + 1);
                }
            } else {
                assert(s2[m] == out[m]);
                lemma_has_id_at(out, m);
            }
        }
        if merge_step(out, c, limit).1 == MergeStatus::Accepted {
            let q = first_index(s2, preceded_by(c));
            lemma_first_index_exists(s2, preceded_by(c));
            s2.insert_ensures(q, c);
            assert(o2 == s2.insert(q, c));
            assert forall|m: int| 0 <= m < o2.len() implies has_id(out, (#[trigger] o2[m]).token_id) || o2[m].token_id
                == c.token_id by {
                if m < q {
                    assert(o2[m] == s2[m]);
                } else if m > q {
                    assert(o2[m] == s2[m - 1]);
                }
            }
        } else {
            assert forall|m: int| 0 <= m < o2.len() implies has_id(out, (#[trigger] o2[m]).token_id) by {
                lemma_has_id_at(out, m);
            }
        }
    }
}

/// What a ranked merge of records `i..` leaves in the list was there
/// before or was inserted on the way.
proof fn lemma_merge_trace_members(v: LmView, out: Seq<AutosuggestCandidateId>, lv: Level, i: int, limit: int)
    ensures
        ids_within(v.merge_from(out, lv, i, limit), out, v.merge_trace(out, lv, i, limit)),
    decreases lv.count - i,
{
    let r = v.merge_from(out, lv, i, limit);
    let t = v.merge_trace(out, lv, i, limit);
    if i >= lv.count {
        assert forall|m: int| 0 <= m < r.len() implies has_id(out, (#[trigger] r[m]).token_id) || has_id(t, r[m].token_id) by {
            lemma_has_id_at(out, m);
        }
    } else {
        let c = v.candidate_at(lv.base + i * v.rl(), lv.source);
        let (o2, st) = merge_step(out, c, limit);
        if st == MergeStatus::Stop {
            assert forall|m: int| 0 <= m < r.len() implies has_id(out, (#[trigger] r[m]).token_id) || has_id(t, r[m].token_id) by {
                lemma_has_id_at(out, m);
            }
        } else {
            lemma_merge_trace_members(v, o2, lv, i + 1, limit);
            lemma_merge_step_members(out, c, limit);
            let t2 = v.merge_trace(o2, lv, i + 1, limit);
            let head = if st == MergeStatus::Accepted {
                seq![c]
            } else {
                Seq::<AutosuggestCandidateId>::empty()
            };
            assert(t == head + t2);
            assert(ids_within(o2, out, head)) by {
                assert forall|m: int| 0 <= m < o2.len() implies has_id(out, (#[trigger] o2[m]).token_id) || has_id(head, o2[m].token_id) by {
                    if !has_id(out, o2[m].token_id) {
                        assert(head[0] == c);
                        lemma_has_id_at(head, 0);
                    }
                }
            }
            lemma_ids_within_trans(r, o2, t2, out, head);
        }
    }
}

/// What a backoff-order append of records `i..` leaves in the list was
/// there before or was appended on the way.
proof fn lemma_append_trace_members(v: LmView, out: Seq<AutosuggestCandidateId>, lv: Level, i: int, limit: int)
    ensures
        ids_within(v.append_from(out, lv, i, limit), out, v.append_trace(out, lv, i, limit)),
    decreases lv.count - i,
{
    let r = v.append_from(out, lv, i, limit);
    let t = v.append_trace(out, lv, i, limit);
    if i >= lv.count || out.len() >= limit {
        assert forall|m: int| 0 <= m < r.len() implies has_id(out, (#[trigger] r[m]).token_id) || has_id(t, r[m].token_id) by {
            lemma_has_id_at(out, m);
        }
    } else {
        let c = v.candidate_at(lv.base + i * v.rl(), lv.source);
        let o2 = append_step(out, c);
        lemma_append_trace_members(v, o2, lv, i + 1, limit);
        let t2 = v.append_trace(o2, lv, i + 1, limit);
        let head = if o2.len() > out.len() {
            seq![c]
        } else {
            Seq::<AutosuggestCandidateId>::empty()
        };
        assert(t == head + t2);
        assert(ids_within(o2, out, head)) by {
            assert forall|m: int| 0 <= m < o2.len() implies has_id(out, (#[trigger] o2[m]).token_id) || has_id(head, o2[m].token_id) by {
                if m < out.len() {
                    lemma_has_id_at(out, m);
                } else {
                    assert(o2 == out.push(c));
                    assert(head[0] == c);
                    lemma_has_id_at(head, 0);
                }
            }
        }
        lemma_ids_within_trans(r, o2, t2, out, head);
    }
}

proof fn lemma_apply_row_members(
    v: LmView,
    out: Seq<AutosuggestCandidateId>,
    row: Option<(u32, u32)>,
    source: AutosuggestSource,
    limit: int,
)
    ensures
        v.apply_row(out, row, source, limit) matches Ok(o) ==> ids_within(o, out, v.apply_row_trace(out, row, source, limit)),
{
    if let Ok(o) = v.apply_row(out, row, source, limit) {
        let t = v.apply_row_trace(out, row, source, limit);
        if o == out {
            assert forall|m: int| 0 <= m < o.len() implies has_id(out, (#[trigger] o[m]).token_id) || has_id(t, o[m].token_id) by {
                lemma_has_id_at(out, m);
            }
        } else {
            let (s, l) = row.unwrap();
            let lv = Level { base: v.layout.sections.candidates + s * v.rl(), count: l as int, source };
            if v.mode == ScoreMode::BackoffOrder {
                lemma_append_trace_members(v, out, lv, 0, limit);
            } else {
                lemma_merge_trace_members(v, out, lv, 0, limit);
            }
        }
    }
}

proof fn lemma_ids_within_empty(r: Seq<AutosuggestCandidateId>, t: Seq<AutosuggestCandidateId>)
    requires
        ids_within(r, Seq::empty(), t),
    ensures
        forall|m: int| 0 <= m < r.len() ==> has_id(t, (#[trigger] r[m]).token_id),
{
    assert forall|m: int| 0 <= m < r.len() implies has_id(t, (#[trigger] r[m]).token_id) by {
        if has_id(Seq::<AutosuggestCandidateId>::empty(), r[m].token_id) {
            let k = choose|k: int| 0 <= k < Seq::<AutosuggestCandidateId>::empty().len() && (#[trigger] Seq::<
                AutosuggestCandidateId,
            >::empty()[k]).token_id == r[m].token_id;
        }
    }
}

/// Every candidate the query returns entered its list on the way.
pub proof fn lemma_suggest_for_members(v: LmView, c: ContextView, limit: int)
    ensures
        v.suggest_for(c, limit) matches Ok(o) ==> forall|m: int|
            0 <= m < o.len() ==> has_id(v.suggest_for_trace(c, limit), (#[trigger] o[m]).token_id),
{
    if let Ok(o) = v.suggest_for(c, limit) {
        let ctx = v.model_context(c);
        let n = ctx.len();
        let e: Seq<AutosuggestCandidateId> = Seq::empty();
        let r4 = if n >= 3 {
            v.find_fourgram(ctx[n - 3], ctx[n - 2], ctx[n - 1])
        } else {
            None
        };
        let r3 = if n >= 2 {
            v.find_trigram(ctx[n - 2], ctx[n - 1])
        } else {
            None
        };
        let r2 = if n >= 1 {
            v.find_bigram(ctx[n - 1])
        } else {
            None
        };
        let o1 = v.apply_row(e, r4, AutosuggestSource::Fourgram, limit)->Ok_0;
        let o2 = v.apply_row(o1, r3, AutosuggestSource::Trigram, limit)->Ok_0;
        let o3 = v.apply_row(o2, r2, AutosuggestSource::Bigram, limit)->Ok_0;
        let t4 = v.apply_row_trace(e, r4, AutosuggestSource::Fourgram, limit);
        let t3 = v.apply_row_trace(o1, r3, AutosuggestSource::Trigram, limit);
        let t2 = v.apply_row_trace(o2, r2, AutosuggestSource::Bigram, limit);
        lemma_apply_row_members(v, e, r4, AutosuggestSource::Fourgram, limit);
        lemma_apply_row_members(v, o1, r3, AutosuggestSource::Trigram, limit);
        lemma_apply_row_members(v, o2, r2, AutosuggestSource::Bigram, limit);
        lemma_ids_within_trans(o2, o1, t3, e, t4);
        lemma_ids_within_trans(o3, o2, t2, e, t4 + t3);
        if v.mode == ScoreMode::BackoffOrder && o3.len() >= limit {
            assert(o == o3);
            lemma_ids_within_empty(o, t4 + t3 + t2);
        } else {
            let u = v.unigram_level();
            if v.mode == ScoreMode::BackoffOrder {
                lemma_append_trace_members(v, o3, u, 0, limit);
            } else {
                lemma_merge_trace_members(v, o3, u, 0, limit);
            }
            lemma_ids_within_trans(o, o3, v.run_level_trace(o3, u, limit), e, t4 + t3 + t2);
            lemma_ids_within_empty(o, t4 + t3 + t2 + v.run_level_trace(o3, u, limit));
        }
    }
}

/// No candidate of `s` is marked as a personal one.
pub open spec fn no_personal_source(s: Seq<AutosuggestCandidateId>) -> bool {
    forall|k: int| 0 <= k < s.len() ==> (#[trigger] s[k]).source != AutosuggestSource::Personal
}

proof fn lemma_merge_step_sources(out: Seq<AutosuggestCandidateId>, c: AutosuggestCandidateId, limit: int)
    requires
        no_personal_source(out),
        c.source != AutosuggestSource::Personal,
    ensures
        no_personal_source(merge_step(out, c, limit).0),
{
    let o2 = merge_step(out, c, limit).0;
    if c.token_id > AUTOSUGGEST_UNK_ID && merge_step(out, c, limit).1 == MergeStatus::Accepted {
        let p = first_index(out, same_id(c.token_id));
        lemma_first_index_exists(out, same_id(c.token_id));
        let s2 = if p < out.len() && precedes(c, out[p]) {
            out.remove(p)
        } else if out.len() >= limit && out.len() > 0 {
            out.drop_last()
        } else {
            out
        };
        assert(no_personal_source(s2)) by {
            if p < out.len() && precedes(c, out[p]) {
                out.remove_ensures(p);
                assert forall|m: int| 0 <= m < s2.len() implies (#[trigger] s2[m]).source != AutosuggestSource::Personal by {
                    if m >= p {
                        assert(s2[m] == out[m + 1]);
                    }
                }
            } else {
                assert forall|m: int| 0 <= m < s2.len() implies (#[trigger] s2[m]).source != AutosuggestSource::Personal by {
                    assert(s2[m] == out[m]);
                }
            }
        }
        let q = first_index(s2, preceded_by(c));
        lemma_first_index_exists(s2, preceded_by(c));
        s2.insert_ensures(q, c);
        assert(o2 == s2.insert(q, c));
        assert forall|m: int| 0 <= m < o2.len() implies (#[trigger] o2[m]).source != AutosuggestSource::Personal by {
            if m < q {
                assert(o2[m] == s2[m]);
            } else if m > q {
                assert(o2[m] == s2[m - 1]);
            }
        }
    }
}

proof fn lemma_level_sources(v: LmView, out: Seq<AutosuggestCandidateId>, lv: Level, i: int, limit: int)
    requires
        no_personal_source(out),
        lv.source != AutosuggestSource::Personal,
    ensures
        no_personal_source(v.merge_from(out, lv, i, limit)),
        no_personal_source(v.append_from(out, lv, i, limit)),
    decreases lv.count - i,
{
    if i < lv.count {
        let c = v.candidate_at(lv.base + i * v.rl(), lv.source);
        lemma_merge_step_sources(out, c, limit);
        lemma_level_sources(v, merge_step(out, c, limit).0, lv, i + 1, limit);
        let o2 = append_step(out, c);
        assert(no_personal_source(o2)) by {
            assert forall|m: int| 0 <= m < o2.len() implies (#[trigger] o2[m]).source != AutosuggestSource::Personal by {
                if m < out.len() {
                    assert(o2[m] == out[m]);
                }
            }
        }
        lemma_level_sources(v, o2, lv, i + 1, limit);
    }
}

proof fn lemma_apply_row_sources(
    v: LmView,
    out: Seq<AutosuggestCandidateId>,
    row: Option<(u32, u32)>,
    source: AutosuggestSource,
    limit: int,
)
    requires
        no_personal_source(out),
        source != AutosuggestSource::Personal,
    ensures
        v.apply_row(out, row, source, limit) matches Ok(o) ==> no_personal_source(o),
{
    if let Some((s, l)) = row {
        let lv = Level { base: v.layout.sections.candidates + s * v.rl(), count: l as int, source };
        lemma_level_sources(v, out, lv, 0, limit);
    }
}

/// No candidate the model query returns is marked as a personal one.
pub proof fn lemma_suggest_for_sources(v: LmView, c: ContextView, limit: int)
    ensures
        v.suggest_for(c, limit) matches Ok(o) ==> no_personal_source(o),
{
    if let Ok(o) = v.suggest_for(c, limit) {
        let ctx = v.model_context(c);
        let n = ctx.len();
        let e: Seq<AutosuggestCandidateId> = Seq::empty();
        let r4 = if n >= 3 {
            v.find_fourgram(ctx[n - 3], ctx[n - 2], ctx[n - 1])
        } else {
            None
        };
        let r3 = if n >= 2 {
            v.find_trigram(ctx[n - 2], ctx[n - 1])
        } else {
            None
        };
        let r2 = if n >= 1 {
            v.find_bigram(ctx[n - 1])
        } else {
            None
        };
        lemma_apply_row_sources(v, e, r4, AutosuggestSource::Fourgram, limit);
        let o1 = v.apply_row(e, r4, AutosuggestSource::Fourgram, limit)->Ok_0;
        lemma_apply_row_sources(v, o1, r3, AutosuggestSource::Trigram, limit);
        let o2 = v.apply_row(o1, r3, AutosuggestSource::Trigram, limit)->Ok_0;
        lemma_apply_row_sources(v, o2, r2, AutosuggestSource::Bigram, limit);
        let o3 = v.apply_row(o2, r2, AutosuggestSource::Bigram, limit)->Ok_0;
        lemma_level_sources(v, o3, v.unigram_level(), 0, limit);
    }
}

/// The candidates' texts are the model's texts of their token ids.
pub open spec fn materialized(v: LmView, ids: Seq<AutosuggestCandidateId>, out: Seq<AutosuggestCandidate>) -> bool {
    &&& out.len() == ids.len()
    &&& forall|i: int|
        0 <= i < out.len() ==> id_of(#[trigger] out[i]) == ids[i] && v.token_text(ids[i].token_id)
            == Ok::<Seq<u8>, AutosuggestArtifactError>(out[i].text.spec_bytes())
}

pub open spec fn limit_of(options: AutosuggestOptions) -> int {
    if options.max_candidates < 1 {
        1
    } else {
        options.max_candidates as int
    }
}

/// Some candidate's text cannot be read, and `e` is the error of the first
/// such candidate.
pub open spec fn text_error(v: LmView, ids: Seq<AutosuggestCandidateId>, e: AutosuggestArtifactError) -> bool {
    exists|i: int| first_text_error(v, ids, i, e)
}

/// The first candidate whose text cannot be read, with its error.
pub open spec fn first_text_error(v: LmView, ids: Seq<AutosuggestCandidateId>, i: int, e: AutosuggestArtifactError) -> bool {
    &&& 0 <= i < ids.len()
    &&& v.token_text(ids[i].token_id) == Err::<Seq<u8>, AutosuggestArtifactError>(e)
    &&& forall|j: int| 0 <= j < i ==> #[trigger] v.token_text(ids[j].token_id) is Ok
}

impl AutosuggestLm {
    fn find_bigram_row(&self, prefix: u32) -> (r: Option<(u32, u32)>)
        ensures
            r == self@.find_bigram(prefix),
    {
        proof {
            use_type_invariant(self);
            lemma_parsed_layout_consistent(self@.bytes);
        }
        let ghost v = self@;
        let n = self.layout.header.bigram_row_count as usize;
        let mut low: usize = 0;
        let mut high: usize = n;
        while low < high
            invariant
                v == self@,
                layout_consistent(v.layout, v.bytes.len() as int),
                n == v.layout.header.bigram_row_count,
                low <= high <= n,
                v.search_bigram(prefix, low as int, high as int) == v.find_bigram(prefix),
            decreases high - low,
        {
            let mid = low + (high - low) / 2;
            proof {
                lemma_record_in(v.layout.sections.bigram_rows as int, mid as int, n as int, BIGRAM_ROW_LEN as int);
            }
            let offset = self.layout.sections.bigram_rows + mid * BIGRAM_ROW_LEN;
            let row_prefix = self.word(offset);
            if row_prefix < prefix {
                low = mid + 1;
            } else if row_prefix == prefix {
                let start = self.word(offset + 4);
                let len = self.word(offset + 8);
                return Some((start, len));
            } else {
                high = mid;
            }
        }
        None
    }

    fn find_trigram_row(&self, prefix1: u32, prefix2: u32) -> (r: Option<(u32, u32)>)
        ensures
            r == self@.find_trigram(prefix1, prefix2),
    {
        proof {
            use_type_invariant(self);
            lemma_parsed_layout_consistent(self@.bytes);
        }
        let ghost v = self@;
        let n = self.layout.header.trigram_row_count as usize;
        let mut low: usize = 0;
        let mut high: usize = n;
        while low < high
            invariant
                v == self@,
                layout_consistent(v.layout, v.bytes.len() as int),
                n == v.layout.header.trigram_row_count,
                low <= high <= n,
                v.search_trigram(prefix1, prefix2, low as int, high as int) == v.find_trigram(prefix1, prefix2),
            decreases high - low,
        {
            let mid = low + (high - low) / 2;
            proof {
                lemma_record_in(v.layout.sections.trigram_rows as int, mid as int, n as int, TRIGRAM_ROW_LEN as int);
            }
            let offset = self.layout.sections.trigram_rows + mid * TRIGRAM_ROW_LEN;
            let a = self.word(offset);
            let b = self.word(offset + 4);
            if a < prefix1 || (a == prefix1 && b < prefix2) {
                low = mid + 1;
            } else if a == prefix1 && b == prefix2 {
                let start = self.word(offset + 8);
                let len = self.word(offset + 12);
                return Some((start, len));
            } else {
                high = mid;
            }
        }
        None
    }

    fn find_fourgram_row(&self, prefix1: u32, prefix2: u32, prefix3: u32) -> (r: Option<(u32, u32)>)
        ensures
            r == self@.find_fourgram(prefix1, prefix2, prefix3),
    {
        proof {
            use_type_invariant(self);
            lemma_parsed_layout_consistent(self@.bytes);
        }
        let ghost v = self@;
        let n = self.layout.header.fourgram_row_count as usize;
        let mut low: usize = 0;
        let mut high: usize = n;
        while low < high
            invariant
                v == self@,
                layout_consistent(v.layout, v.bytes.len() as int),
                n == v.layout.header.fourgram_row_count,
                low <= high <= n,
                v.search_fourgram(prefix1, prefix2, prefix3, low as int, high as int)
                    == v.find_fourgram(prefix1, prefix2, prefix3),
            decreases high - low,
        {
            let mid = low + (high - low) / 2;
            proof {
                lemma_record_in(v.layout.sections.fourgram_rows as int, mid as int, n as int, FOURGRAM_ROW_LEN as int);
            }
            let offset = self.layout.sections.fourgram_rows + mid * FOURGRAM_ROW_LEN;
            let a = self.word(offset);
            let b = self.word(offset + 4);
            let c = self.word(offset + 8);
            if a < prefix1 || (a == prefix1 && (b < prefix2 || (b == prefix2 && c < prefix3))) {
                low = mid + 1;
            } else if a == prefix1 && b == prefix2 && c == prefix3 {
                let start = self.word(offset + 12);
                let len = self.word(offset + 16);
                return Some((start, len));
            } else {
                high = mid;
            }
        }
        None
    }

    /// Runs one level of records (`count` records from byte `base`).
    fn run_level_exec(
        &self,
        base: usize,
        count: usize,
        source: AutosuggestSource,
        limit: usize,
        output: &mut Vec<AutosuggestCandidateId>,
        record: bool,
        trace: &mut Vec<AutosuggestCandidateId>,
    )
        requires
            base + count * self@.rl() <= self@.bytes.len(),
        ensures
            final(output)@ == self@.run_level(
                old(output)@,
                Level { base: base as int, count: count as int, source },
                limit as int,
            ),
            final(trace)@ == old(trace)@ + (if record {
                self@.run_level_trace(old(output)@, Level { base: base as int, count: count as int, source }, limit as int)
            } else {
                Seq::empty()
            }),
    {
        proof {
            use_type_invariant(self);
            lemma_parsed_layout_consistent(self@.bytes);
        }
        let ghost v = self@;
        let ghost lv = Level { base: base as int, count: count as int, source };
        let ghost target = v.run_level(old(output)@, lv, limit as int);
        let ghost ttarget = old(trace)@ + (if record {
            v.run_level_trace(old(output)@, lv, limit as int)
        } else {
            Seq::empty()
        });
        let rl = self.layout.header.candidate_record_len as usize;
        let backoff = self.score_mode == ScoreMode::BackoffOrder;
        let mut i: usize = 0;
        let mut stopped = false;
        while i < count && !stopped
            invariant
                v == self@,
                lv == (Level { base: base as int, count: count as int, source }),
                layout_consistent(v.layout, v.bytes.len() as int),
                rl == v.rl(),
                backoff == (v.mode == ScoreMode::BackoffOrder),
                base + count * rl <= v.bytes.len(),
                i <= count,
                target == v.run_level(old(output)@, lv, limit as int),
                stopped ==> output@ == target,
                !stopped && backoff ==> v.append_from(output@, lv, i as int, limit as int) == target,
                !stopped && !backoff ==> v.merge_from(output@, lv, i as int, limit as int) == target,
                ttarget == old(trace)@ + (if record {
                    v.run_level_trace(old(output)@, lv, limit as int)
                } else {
                    Seq::empty()
                }),
                !record ==> trace@ == old(trace)@,
                record && stopped ==> trace@ == ttarget,
                record && !stopped && backoff ==> trace@ + v.append_trace(output@, lv, i as int, limit as int) == ttarget,
                record && !stopped && !backoff ==> trace@ + v.merge_trace(output@, lv, i as int, limit as int) == ttarget,
            decreases count - i + (if stopped { 0int } else { 1int }),
        {
            if backoff && output.len() >= limit {
                stopped = true;
                proof {
                    if record {
                        assert(v.append_trace(output@, lv, i as int, limit as int) =~= Seq::<AutosuggestCandidateId>::empty());
                        assert(trace@ =~= trace@ + v.append_trace(output@, lv, i as int, limit as int));
                    }
                }
            } else {
                proof {
                    lemma_record_in(base as int, i as int, count as int, rl as int);
                }
                let off = base + i * rl;
                let r = read_record(&self.bytes, self.layout, off);
                let c = AutosuggestCandidateId {
                    token_id: r.token_id,
                    source,
                    count: r.count,
                    score: r.score,
                };
                let ghost out0 = output@;
                let ghost tr0 = trace@;
                assert(c == v.candidate_at(lv.base + i * v.rl(), lv.source));
                if backoff {
                    let before = output.len();
                    append_candidate_id(output, c);
                    if record && output.len() > before {
                        trace.push(c);
                    }
                    assert(v.append_from(out0, lv, i as int, limit as int) == v.append_from(output@, lv, i + 1, limit as int));
                    proof {
                        if record {
                            if output@.len() > out0.len() {
                                assert(v.append_trace(out0, lv, i as int, limit as int) == seq![c] + v.append_trace(
                                    output@,
                                    lv,
                                    i + 1,
                                    limit as int,
                                ));
                                assert(tr0 + v.append_trace(out0, lv, i as int, limit as int) =~= trace@ + v.append_trace(
                                    output@,
                                    lv,
                                    i + 1,
                                    limit as int,
                                ));
                            } else {
                                assert(v.append_trace(out0, lv, i as int, limit as int) == v.append_trace(
                                    output@,
                                    lv,
                                    i + 1,
                                    limit as int,
                                ));
                            }
                        }
                    }
                } else {
                    let st = merge_candidate_id(output, c, limit);
                    if st == MergeStatus::Stop {
                        stopped = true;
                        assert(output@ == out0);
                        proof {
                            if record {
                                assert(v.merge_trace(out0, lv, i as int, limit as int) =~= Seq::<AutosuggestCandidateId>::empty());
                                assert(trace@ =~= tr0 + v.merge_trace(out0, lv, i as int, limit as int));
                            }
                        }
                    } else {
                        if record && st == MergeStatus::Accepted {
                            trace.push(c);
                        }
                        assert(v.merge_from(out0, lv, i as int, limit as int) == v.merge_from(output@, lv, i + 1, limit as int));
                        proof {
                            if record {
                                if st == MergeStatus::Accepted {
                                    assert(v.merge_trace(out0, lv, i as int, limit as int) == seq![c] + v.merge_trace(
                                        output@,
                                        lv,
                                        i + 1,
                                        limit as int,
                                    ));
                                    assert(tr0 + v.merge_trace(out0, lv, i as int, limit as int) =~= trace@ + v.merge_trace(
                                        output@,
                                        lv,
                                        i + 1,
                                        limit as int,
                                    ));
                                } else {
                                    assert(v.merge_trace(out0, lv, i as int, limit as int) == v.merge_trace(
                                        output@,
                                        lv,
                                        i + 1,
                                        limit as int,
                                    ));
                                }
                            }
                        }
                    }
                }
                i = i + 1;
            }
        }
        proof {
            if record && !stopped {
                if backoff {
                    assert(v.append_trace(output@, lv, i as int, limit as int) =~= Seq::<AutosuggestCandidateId>::empty());
                    assert(trace@ =~= trace@ + v.append_trace(output@, lv, i as int, limit as int));
                } else {
                    assert(v.merge_trace(output@, lv, i as int, limit as int) =~= Seq::<AutosuggestCandidateId>::empty());
                    assert(trace@ =~= trace@ + v.merge_trace(output@, lv, i as int, limit as int));
                }
            }
            if !record {
                assert(trace@ =~= old(trace)@ + Seq::<AutosuggestCandidateId>::empty());
            }
        }
    }

    /// Adds a found context row, checking it against the candidate section.
    fn apply_row_exec(
        &self,
        row: Option<(u32, u32)>,
        source: AutosuggestSource,
        limit: usize,
        output: &mut Vec<AutosuggestCandidateId>,
        record: bool,
        trace: &mut Vec<AutosuggestCandidateId>,
    ) -> (r: Result<(), AutosuggestArtifactError>)
        ensures
            match self@.apply_row(old(output)@, row, source, limit as int) {
                Ok(o) => r is Ok && final(output)@ == o,
                Err((o, e)) => r == Err::<(), AutosuggestArtifactError>(e) && final(output)@ == o,
            },
            final(trace)@ == old(trace)@ + (if record {
                self@.apply_row_trace(old(output)@, row, source, limit as int)
            } else {
                Seq::empty()
            }),
    {
        proof {
            use_type_invariant(self);
            lemma_parsed_layout_consistent(self@.bytes);
        }
        assert(old(trace)@ =~= old(trace)@ + Seq::<AutosuggestCandidateId>::empty());
        if self.score_mode == ScoreMode::BackoffOrder && output.len() >= limit {
            return Ok(());
        }
        match row {
            None => Ok(()),
            Some((s, l)) => {
                if s as u64 + l as u64 > self.layout.header.candidate_count as u64 {
                    return Err(AutosuggestArtifactError::InvalidSectionLayout);
                }
                let rl = self.layout.header.candidate_record_len as usize;
                proof {
                    let cc = self@.layout.header.candidate_count as int;
                    assert(s * rl + l * rl <= cc * rl) by (nonlinear_arith)
                        requires
                            s + l <= cc,
                            rl >= 0,
                    ;
                    assert(0 <= s * rl) by (nonlinear_arith)
                        requires
                            rl >= 0,
                    ;
                    assert(0 <= l * rl) by (nonlinear_arith)
                        requires
                            rl >= 0,
                    ;
                }
                let base = self.layout.sections.candidates + s as usize * rl;
                self.run_level_exec(base, l as usize, source, limit, output, record, trace);
                Ok(())
            },
        }
    }

    /// Candidate generation for explicit model-context ids.
    #[verifier::rlimit(40)]
    fn suggest_ids_for_token_ids(
        &self,
        ctx: &Vec<u32>,
        limit: usize,
        output: &mut Vec<AutosuggestCandidateId>,
        record: bool,
        trace: &mut Vec<AutosuggestCandidateId>,
    ) -> (r: Result<(), AutosuggestArtifactError>)
        requires
            old(output)@.len() == 0,
        ensures
            match self@.suggest(ctx@, limit as int) {
                Ok(o) => r is Ok && final(output)@ == o,
                Err((o, e)) => r == Err::<(), AutosuggestArtifactError>(e) && final(output)@ == o,
            },
            final(trace)@ == old(trace)@ + (if record {
                self@.suggest_trace(ctx@, limit as int)
            } else {
                Seq::empty()
            }),
    {
        proof {
            use_type_invariant(self);
            lemma_parsed_layout_consistent(self@.bytes);
            assert(old(output)@ =~= Seq::<AutosuggestCandidateId>::empty());
        }
        let ghost v = self@;
        let ghost t0 = trace@;
        let n = ctx.len();
        let r4 = if n >= 3 {
            self.find_fourgram_row(ctx[n - 3], ctx[n - 2], ctx[n - 1])
        } else {
            None
        };
        let ghost t4 = v.apply_row_trace(Seq::empty(), r4, AutosuggestSource::Fourgram, limit as int);
        match self.apply_row_exec(r4, AutosuggestSource::Fourgram, limit, output, record, trace) {
            Ok(()) => {},
            Err(e) => {
                assert(v.suggest_trace(ctx@, limit as int) == t4);
                return Err(e);
            },
        }
        let ghost o1 = output@;
        let r3 = if n >= 2 {
            self.find_trigram_row(ctx[n - 2], ctx[n - 1])
        } else {
            None
        };
        let ghost t3 = v.apply_row_trace(o1, r3, AutosuggestSource::Trigram, limit as int);
        match self.apply_row_exec(r3, AutosuggestSource::Trigram, limit, output, record, trace) {
            Ok(()) => {},
            Err(e) => {
                proof {
                    assert(v.suggest_trace(ctx@, limit as int) == t4 + t3);
                    if record {
                        assert(trace@ =~= t0 + (t4 + t3));
                    } else {
                        assert(trace@ =~= t0 + Seq::<AutosuggestCandidateId>::empty());
                    }
                }
                return Err(e);
            },
        }
        let ghost o2 = output@;
        let r2 = if n >= 1 {
            self.find_bigram_row(ctx[n - 1])
        } else {
            None
        };
        let ghost t2 = v.apply_row_trace(o2, r2, AutosuggestSource::Bigram, limit as int);
        match self.apply_row_exec(r2, AutosuggestSource::Bigram, limit, output, record, trace) {
            Ok(()) => {},
            Err(e) => {
                proof {
                    assert(v.suggest_trace(ctx@, limit as int) == t4 + t3 + t2);
                    if record {
                        assert(trace@ =~= t0 + (t4 + t3 + t2));
                    } else {
                        assert(trace@ =~= t0 + Seq::<AutosuggestCandidateId>::empty());
                    }
                }
                return Err(e);
            },
        }
        let ghost o3 = output@;
        if self.score_mode == ScoreMode::BackoffOrder && output.len() >= limit {
            proof {
                assert(v.suggest_trace(ctx@, limit as int) == t4 + t3 + t2);
                if record {
                    assert(trace@ =~= t0 + (t4 + t3 + t2));
                } else {
                    assert(trace@ =~= t0 + Seq::<AutosuggestCandidateId>::empty());
                }
            }
            return Ok(());
        }
        let ghost tu = v.run_level_trace(o3, v.unigram_level(), limit as int);
        self.run_level_exec(
            self.layout.sections.unigrams,
            self.layout.header.unigram_count as usize,
            AutosuggestSource::Unigram,
            limit,
            output,
            record,
            trace,
        );
        proof {
            assert(v.suggest_trace(ctx@, limit as int) == t4 + t3 + t2 + tu);
            if record {
                assert(trace@ =~= t0 + (t4 + t3 + t2 + tu));
            } else {
                assert(trace@ =~= t0 + Seq::<AutosuggestCandidateId>::empty());
            }
        }
        Ok(())
    }

    /// The model-context ids for a context.
    fn copy_model_context_ids(&self, context: AutosuggestContext) -> (ids: Vec<u32>)
        ensures
            ids@ == self@.model_context(context@),
    {
        let mut ids: Vec<u32> = Vec::new();
        if context.is_sentence_start() {
            ids.push(AUTOSUGGEST_BOS_ID);
            assert(ids@ =~= seq![AUTOSUGGEST_BOS_ID]);
            return ids;
        }
        let recent = context.recent_token_ids();
        let limit = self.model_context_token_limit();
        let k = if recent.len() < limit {
            recent.len()
        } else {
            limit
        };
        let start = recent.len() - k;
        let mut i = start;
        while i < recent.len()
            invariant
                start <= i <= recent@.len(),
                recent@ == context@.recent,
                ids@ == recent@.subrange(start as int, i as int),
            decreases recent@.len() - i,
        {
            ids.push(recent[i]);
            assert(recent@.subrange(start as int, i + 1) =~= recent@.subrange(start as int, i as int).push(recent@[i as int]));
            i = i + 1;
        }
        ids
    }

    fn check_context_ids(&self, ids: &Vec<u32>) -> (r: Result<(), AutosuggestArtifactError>)
        ensures
            match self@.first_invalid(ids@) {
                Some(id) => r == Err::<(), AutosuggestArtifactError>(AutosuggestArtifactError::InvalidTokenId(id)),
                None => r is Ok,
            },
    {
        let mut i: usize = 0;
        while i < ids.len()
            invariant
                i <= ids@.len(),
                forall|j: int| 0 <= j < i ==> ids@[j] < self@.vocab_size(),
            decreases ids@.len() - i,
        {
            if ids[i] >= self.layout.header.vocab_size {
                proof {
                    let w = choose|w: int|
                        0 <= w < ids@.len() && ids@[w] >= self@.vocab_size() && forall|j: int|
                            0 <= j < w ==> ids@[j] < self@.vocab_size();
                    assert(0 <= i < ids@.len() && ids@[i as int] >= self@.vocab_size() && forall|j: int|
                        0 <= j < i ==> ids@[j] < self@.vocab_size());
                    if w < i {
                    } else if w > i {
                        assert(ids@[i as int] < self@.vocab_size());
                    }
                }
                return Err(AutosuggestArtifactError::InvalidTokenId(ids[i]));
            }
            i = i + 1;
        }
        Ok(())
    }

    /// Candidate ids for a context: the newest suffix of the context is looked
    /// up in the fourgram, trigram and bigram rows, then unigrams fill in.
    /// The output buffer is cleared first and reused.
    pub fn suggest_ids_for_context_into(
        &self,
        context: AutosuggestContext,
        options: AutosuggestOptions,
        output: &mut Vec<AutosuggestCandidateId>,
    ) -> (r: Result<AutosuggestMetadata, AutosuggestArtifactError>)
        ensures
            ({
                let limit = limit_of(options);
                match self@.suggest_for(context@, limit) {
                    Ok(o) => final(output)@ == o && r == Ok::<AutosuggestMetadata, AutosuggestArtifactError>(
                        AutosuggestMetadata {
                            context_token_count: context@.count as usize,
                            matched_context_token_count: self@.matched_count(context@) as usize,
                        },
                    ),
                    Err((o, e)) => final(output)@ == o && r == Err::<AutosuggestMetadata, AutosuggestArtifactError>(e),
                }
            }),
            ({
                let limit = limit_of(options);
                mode_list(self@, final(output)@, limit)
            }),
    {
        let mut unused: Vec<AutosuggestCandidateId> = Vec::new();
        self.suggest_ids_traced(context, options, output, false, &mut unused)
    }

    /// [`Self::suggest_ids_for_context_into`], also recording (when asked)
    /// each candidate as it enters the list.
    fn suggest_ids_traced(
        &self,
        context: AutosuggestContext,
        options: AutosuggestOptions,
        output: &mut Vec<AutosuggestCandidateId>,
        record: bool,
        trace: &mut Vec<AutosuggestCandidateId>,
    ) -> (r: Result<AutosuggestMetadata, AutosuggestArtifactError>)
        ensures
            ({
                let limit = limit_of(options);
                match self@.suggest_for(context@, limit) {
                    Ok(o) => final(output)@ == o && r == Ok::<AutosuggestMetadata, AutosuggestArtifactError>(
                        AutosuggestMetadata {
                            context_token_count: context@.count as usize,
                            matched_context_token_count: self@.matched_count(context@) as usize,
                        },
                    ),
                    Err((o, e)) => final(output)@ == o && r == Err::<AutosuggestMetadata, AutosuggestArtifactError>(e),
                }
            }),
            ({
                let limit = limit_of(options);
                mode_list(self@, final(output)@, limit)
            }),
            final(trace)@ == old(trace)@ + (if record {
                self@.suggest_for_trace(context@, limit_of(options))
            } else {
                Seq::empty()
            }),
    {
        output.clear();
        let limit = if options.max_candidates < 1 { 1 } else { options.max_candidates };
        proof {
            lemma_suggest_for_list(self@, context@, limit as int);
        }
        let ids = self.copy_model_context_ids(context);
        match self.check_context_ids(&ids) {
            Ok(()) => {},
            Err(e) => {
                assert(old(trace)@ =~= old(trace)@ + Seq::<AutosuggestCandidateId>::empty());
                return Err(e);
            },
        }
        let matched = if context.is_sentence_start() {
            0
        } else {
            ids.len()
        };
        match self.suggest_ids_for_token_ids(&ids, limit, output, record, trace) {
            Ok(()) => {},
            Err(e) => return Err(e),
        }
        Ok(AutosuggestMetadata { context_token_count: context.token_count(), matched_context_token_count: matched })
    }

    /// The text candidate for a candidate id.
    pub fn materialize_candidate(&self, candidate: AutosuggestCandidateId) -> (r: Result<
        AutosuggestCandidate<'_>,
        AutosuggestArtifactError,
    >)
        ensures
            match r {
                Ok(c) => id_of(c) == candidate && self@.token_text(candidate.token_id) == Ok::<
                    Seq<u8>,
                    AutosuggestArtifactError,
                >(c.text.spec_bytes()),
                Err(e) => self@.token_text(candidate.token_id) == Err::<Seq<u8>, AutosuggestArtifactError>(e),
            },
    {
        let text = match self.token_text(candidate.token_id) {
            Ok(t) => t,
            Err(e) => return Err(e),
        };
        Ok(
            AutosuggestCandidate {
                text,
                token_id: candidate.token_id,
                source: candidate.source,
                count: candidate.count,
                score: candidate.score,
            },
        )
    }

    /// Materializes a list of candidate ids, stopping at the first unreadable
    /// text.
    fn materialize_into<'a>(
        &'a self,
        ids: &Vec<AutosuggestCandidateId>,
        output: &mut Vec<AutosuggestCandidate<'a>>,
    ) -> (r: Result<(), AutosuggestArtifactError>)
        requires
            old(output)@.len() == 0,
        ensures
            r is Ok ==> materialized(self@, ids@, final(output)@),
            r matches Err(e) ==> text_error(self@, ids@, e),
    {
        let mut i: usize = 0;
        while i < ids.len()
            invariant
                i <= ids@.len(),
                output@.len() == i,
                forall|j: int|
                    0 <= j < i ==> id_of(#[trigger] output@[j]) == ids@[j] && self@.token_text(
                        ids@[j].token_id,
                    ) == Ok::<Seq<u8>, AutosuggestArtifactError>(output@[j].text.spec_bytes()),
            decreases ids@.len() - i,
        {
            let c = match self.materialize_candidate(ids[i]) {
                Ok(c) => c,
                Err(e) => {
                    proof {
                        assert forall|j: int| 0 <= j < i implies #[trigger] self@.token_text(ids@[j].token_id) is Ok by {
                            assert(id_of(output@[j]) == ids@[j]);
                        }
                        assert(first_text_error(self@, ids@, i as int, e));
                    }
                    return Err(e);
                },
            };
            output.push(c);
            i = i + 1;
        }
        Ok(())
    }

    /// Text candidates for a context: the candidate ids of
    /// [`Self::suggest_ids_for_context_into`] with their texts, each text read
    /// as its candidate enters the list ([`text_outcome`]). The output buffer
    /// is cleared first, and left empty on an error.
    pub fn suggest_for_context_into<'a>(
        &'a self,
        context: AutosuggestContext,
        options: AutosuggestOptions,
        output: &mut Vec<AutosuggestCandidate<'a>>,
    ) -> (r: Result<AutosuggestMetadata, AutosuggestArtifactError>)
        ensures
            text_outcome(self@, context@, limit_of(options), r, final(output)@),
            r is Err ==> final(output)@.len() == 0,
    {
        output.clear();
        let ghost limit = limit_of(options);
        let mut ids: Vec<AutosuggestCandidateId> = Vec::new();
        let mut trace: Vec<AutosuggestCandidateId> = Vec::new();
        let res = self.suggest_ids_traced(context, options, &mut ids, true, &mut trace);
        assert(trace@ =~= self@.suggest_for_trace(context@, limit));
        let mut entered: Vec<AutosuggestCandidate<'a>> = Vec::new();
        match self.materialize_into(&trace, &mut entered) {
            Ok(()) => {},
            Err(e) => {
                proof {
                    let i = choose|i: int| first_text_error(self@, trace@, i, e);
                    assert(self@.token_text(trace@[i].token_id) is Err);
                }
                return Err(e);
            },
        }
        proof {
            assert forall|j: int| 0 <= j < trace@.len() implies !(#[trigger] self@.token_text(trace@[j].token_id) is Err) by {
                assert(id_of(entered@[j]) == trace@[j]);
            }
        }
        let metadata = match res {
            Ok(m) => m,
            Err(e) => return Err(e),
        };
        proof {
            lemma_suggest_for_members(self@, context@, limit);
        }
        match self.materialize_into(&ids, output) {
            Ok(()) => Ok(metadata),
            Err(e) => {
                proof {
                    let i = choose|i: int| first_text_error(self@, ids@, i, e);
                    assert(has_id(trace@, ids@[i].token_id));
                    let k = choose|k: int| 0 <= k < trace@.len() && (#[trigger] trace@[k]).token_id == ids@[i].token_id;
                    assert(!(self@.token_text(trace@[k].token_id) is Err));
                }
                output.clear();
                Err(e)
            },
        }
    }

    pub fn suggest_for_context(
        &self,
        context: AutosuggestContext,
        options: AutosuggestOptions,
    ) -> (r: Result<AutosuggestResult<'_>, AutosuggestArtifactError>)
        ensures
            match r {
                Ok(res) => text_outcome(
                    self@,
                    context@,
                    limit_of(options),
                    Ok(
                        AutosuggestMetadata {
                            context_token_count: res.context_token_count,
                            matched_context_token_count: res.matched_context_token_count,
                        },
                    ),
                    res.candidates@,
                ),
                Err(e) => text_outcome(self@, context@, limit_of(options), Err(e), Seq::empty()),
            },
    {
        let mut candidates: Vec<AutosuggestCandidate<'_>> = Vec::new();
        let metadata = match self.suggest_for_context_into(context, options, &mut candidates) {
            Ok(m) => m,
            Err(e) => return Err(e),
        };
        Ok(
            AutosuggestResult {
                context_token_count: metadata.context_token_count,
                matched_context_token_count: metadata.matched_context_token_count,
                candidates,
            },
        )
    }
}


#[derive(Debug, Clone, Copy, PartialEq, Eq)]
pub struct AutosuggestRerankInputMetadata {
    pub context_token_count: usize,
    pub matched_context_token_count: usize,
    pub scorer_context_token_count: usize,
    pub candidate_count: usize,
}

#[derive(Debug, Clone, Copy, PartialEq, Eq)]
pub struct AutosuggestContextPriorOptions {
    pub max_prior_candidates: usize,
}

impl Default for AutosuggestContextPriorOptions {
    fn default() -> (o: Self)
        ensures
            o.max_prior_candidates == 64,
    {
        AutosuggestContextPriorOptions { max_prior_candidates: 64 }
    }
}

#[derive(Debug, Clone, Copy, PartialEq, Eq)]
pub struct AutosuggestContextPriorMetadata {
    pub context_token_count: usize,
    pub matched_context_token_count: usize,
    pub prior_candidate_count: usize,
    pub matched_candidate_count: usize,
}

#[derive(Debug, Clone, Copy, PartialEq, Eq)]
pub struct AutosuggestCandidatePrior {
    pub candidate_index: usize,
    pub token_id: u32,
    pub prior_rank: usize,
    pub source: AutosuggestSource,
    pub count: u32,
    pub score: i32,
}

pub const AUTOSUGGEST_PAD_I32: i32 = 0;
pub const AUTOSUGGEST_BOS_I32: i32 = 1;
pub const AUTOSUGGEST_UNK_I32: i32 = 2;

/// A sequence of `n` copies of `x`.
pub open spec fn filled<T>(x: T, n: int) -> Seq<T> {
    Seq::new(n as nat, |i: int| x)
}

/// The context state after committing one raw token: its word (if any) is
/// resolved and pushed, then a trailing sentence boundary is applied.
pub open spec fn spec_push_token(v: LmView, c: ContextView, raw: Seq<char>) -> Result<ContextView, AutosuggestArtifactError> {
    let t = crate::text::spec_trimmed(raw);
    let b = crate::text::spec_trailing_boundary(raw);
    if t.len() > 0 {
        match v.lookup_token(vstd::utf8::encode_utf8(t)) {
            Err(e) => Err(e),
            Ok(id) => Ok(
                if b {
                    c.pushed(id).bounded()
                } else {
                    c.pushed(id)
                },
            ),
        }
    } else {
        Ok(
            if b {
                c.bounded()
            } else {
                c
            },
        )
    }
}

/// Committing the whitespace-separated tokens of `cs[i..]` (a token is pending
/// from `start`); line and paragraph separators also end the sentence.
pub open spec fn spec_push_text_from(
    v: LmView,
    c: ContextView,
    cs: Seq<char>,
    i: int,
    start: Option<int>,
) -> Result<ContextView, AutosuggestArtifactError>
    decreases cs.len() - i,
{
    if i >= cs.len() {
        match start {
            Some(s) => spec_push_token(v, c, cs.subrange(s, cs.len() as int)),
            None => Ok(c),
        }
    } else if crate::text::spec_is_whitespace(cs[i]) {
        let r = match start {
            Some(s) => spec_push_token(v, c, cs.subrange(s, i)),
            None => Ok(c),
        };
        match r {
            Err(e) => Err(e),
            Ok(c2) => spec_push_text_from(
                v,
                if crate::text::spec_is_editor_boundary(cs[i]) {
                    c2.bounded()
                } else {
                    c2
                },
                cs,
                i + 1,
                None,
            ),
        }
    } else {
        spec_push_text_from(
            v,
            c,
            cs,
            i + 1,
            if start is None {
                Some(i)
            } else {
                start
            },
        )
    }
}

pub open spec fn fresh_context() -> ContextView {
    ContextView { count: 0, recent: Seq::empty(), at_start: true }
}

/// The context state after committing the tokens of a list, in order.
pub open spec fn spec_push_tokens(v: LmView, c: ContextView, toks: Seq<Seq<char>>) -> Result<ContextView, AutosuggestArtifactError>
    decreases toks.len(),
{
    if toks.len() == 0 {
        Ok(c)
    } else {
        match spec_push_tokens(v, c, toks.drop_last()) {
            Err(e) => Err(e),
            Ok(c2) => spec_push_token(v, c2, toks.last()),
        }
    }
}

/// The outcome of the text-candidate query for a context, as stated by
/// [`AutosuggestLm::suggest_for_context_into`]: each candidate's text is read
/// as it enters the list, so the first unreadable text among the candidates
/// the query adds (see [`LmView::suggest_for_trace`]) is the error, even when
/// a later record evicts that candidate; otherwise the id query's outcome,
/// with texts.
pub open spec fn text_outcome(
    v: LmView,
    c: ContextView,
    limit: int,
    r: Result<AutosuggestMetadata, AutosuggestArtifactError>,
    out: Seq<AutosuggestCandidate>,
) -> bool {
    let t = v.suggest_for_trace(c, limit);
    if some_text_fails(v, t) {
        r matches Err(e) && text_error(v, t, e)
    } else {
        match v.suggest_for(c, limit) {
            Ok(o) => materialized(v, o, out) && r == Ok::<AutosuggestMetadata, AutosuggestArtifactError>(
                AutosuggestMetadata {
                    context_token_count: c.count as usize,
                    matched_context_token_count: v.matched_count(c) as usize,
                },
            ),
            Err((o, e)) => r == Err::<AutosuggestMetadata, AutosuggestArtifactError>(e),
        }
    }
}

/// Copies the candidates' token ids into a fixed scorer buffer, padding the
/// rest; returns how many were copied.
pub fn scorer_candidate_ids_for_candidates_into(
    candidates: &[AutosuggestCandidateId],
    output: &mut [u32],
) -> (n: usize)
    ensures
        n == (if candidates@.len() < old(output)@.len() { candidates@.len() } else { old(output)@.len() }),
        final(output)@.len() == old(output)@.len(),
        forall|i: int| 0 <= i < n ==> #[trigger] final(output)@[i] == candidates@[i].token_id,
        forall|i: int| n <= i < final(output)@.len() ==> #[trigger] final(output)@[i] == AUTOSUGGEST_PAD_ID,
{
    let len = if candidates.len() < output.len() {
        candidates.len()
    } else {
        output.len()
    };
    let mut i: usize = 0;
    while i < output.len()
        invariant
            len <= candidates@.len(),
            len <= output@.len(),
            output@.len() == old(output)@.len(),
            i <= output@.len(),
            forall|j: int| 0 <= j < i && j < len ==> #[trigger] output@[j] == candidates@[j].token_id,
            forall|j: int| len <= j < i ==> #[trigger] output@[j] == AUTOSUGGEST_PAD_ID,
        decreases output@.len() - i,
    {
        if i < len {
            output[i] = candidates[i].token_id;
        } else {
            output[i] = AUTOSUGGEST_PAD_ID;
        }
        i = i + 1;
    }
    len
}

/// `token_id` as a Core ML `int32`, or an error when it does not fit.
pub fn scorer_i32_from_token_id(token_id: u32) -> (r: Result<i32, AutosuggestArtifactError>)
    ensures
        token_id <= i32::MAX ==> r == Ok::<i32, AutosuggestArtifactError>(token_id as i32),
        token_id > i32::MAX ==> r == Err::<i32, AutosuggestArtifactError>(
            AutosuggestArtifactError::InvalidTokenId(token_id),
        ),
{
    if token_id <= 0x7fff_ffff {
        Ok(token_id as i32)
    } else {
        Err(AutosuggestArtifactError::InvalidTokenId(token_id))
    }
}

/// `out[..k]` holds the candidates' ids as `i32`.
pub open spec fn i32_prefix(out: Seq<i32>, cands: Seq<AutosuggestCandidateId>, k: int) -> bool {
    forall|j: int| 0 <= j < k ==> #[trigger] out[j] == cands[j].token_id as i32
}

/// `out[k..]` is padding.
pub open spec fn i32_pad_from(out: Seq<i32>, k: int) -> bool {
    forall|j: int| k <= j < out.len() ==> #[trigger] out[j] == AUTOSUGGEST_PAD_I32
}

/// The candidates' ids before `k` fit in `i32`.
pub open spec fn fit_prefix(cands: Seq<AutosuggestCandidateId>, k: int) -> bool {
    forall|j: int| 0 <= j < k ==> #[trigger] cands[j].token_id <= i32::MAX
}

/// The `int32` variant of [`scorer_candidate_ids_for_candidates_into`]: the
/// buffer is padded first, then filled until an id does not fit in `i32`.
pub fn scorer_candidate_i32s_for_candidates_into(
    candidates: &[AutosuggestCandidateId],
    output: &mut [i32],
) -> (r: Result<usize, AutosuggestArtifactError>)
    ensures
        final(output)@.len() == old(output)@.len(),
        ({
            let n = if candidates@.len() < old(output)@.len() { candidates@.len() as int } else { old(output)@.len() as int };
            &&& fit_prefix(candidates@, n) ==> r == Ok::<usize, AutosuggestArtifactError>(n as usize)
            &&& r is Ok ==> fit_prefix(candidates@, n) && i32_prefix(final(output)@, candidates@, n) && i32_pad_from(final(output)@, n)
            &&& r matches Err(e) ==> exists|k: int|
                0 <= k < n && candidates@[k].token_id > i32::MAX && e == AutosuggestArtifactError::InvalidTokenId(candidates@[k].token_id)
                && fit_prefix(candidates@, k) && i32_prefix(final(output)@, candidates@, k) && i32_pad_from(final(output)@, k)
        }),
{
    let mut i: usize = 0;
    while i < output.len()
        invariant
            output@.len() == old(output)@.len(),
            i <= output@.len(),
            forall|j: int| 0 <= j < i ==> #[trigger] output@[j] == AUTOSUGGEST_PAD_I32,
        decreases output@.len() - i,
    {
        output[i] = AUTOSUGGEST_PAD_I32;
        i = i + 1;
    }
    let len = if candidates.len() < output.len() {
        candidates.len()
    } else {
        output.len()
    };
    let mut k: usize = 0;
    while k < len
        invariant
            len <= candidates@.len(),
            len <= output@.len(),
            output@.len() == old(output)@.len(),
            k <= len,
            fit_prefix(candidates@, k as int),
            i32_prefix(output@, candidates@, k as int),
            i32_pad_from(output@, k as int),
        decreases len - k,
    {
        match scorer_i32_from_token_id(candidates[k].token_id) {
            Ok(v) => {
                output[k] = v;
                assert(i32_prefix(output@, candidates@, k + 1));
                assert(i32_pad_from(output@, k + 1));
            },
            Err(e) => {
                return Err(e);
            },
        }
        k = k + 1;
    }
    Ok(len)
}

/// Outcome of filling a scorer context buffer of `n` slots: right-aligned
/// newest known ids (`<bos>` alone at a true sentence start), left-padded.
pub open spec fn spec_scorer_ids(v: LmView, c: ContextView, n: int) -> Result<(int, Seq<u32>), AutosuggestArtifactError> {
    if n == 0 {
        Ok((0, Seq::empty()))
    } else if c.is_sentence_start() {
        Ok((1, filled(AUTOSUGGEST_PAD_ID, n - 1).push(AUTOSUGGEST_BOS_ID)))
    } else {
        let k = if c.recent.len() < n {
            c.recent.len() as int
        } else {
            n
        };
        let ids = c.recent.subrange(c.recent.len() - k, c.recent.len() as int);
        match v.first_invalid(ids) {
            Some(id) => Err(AutosuggestArtifactError::InvalidTokenId(id)),
            None => Ok((k, filled(AUTOSUGGEST_PAD_ID, n - k) + ids)),
        }
    }
}

impl AutosuggestLm {
    /// Commits one raw token to `context`: the token is trimmed of edge
    /// punctuation, resolved (unknown words clear the recent ids) and a
    /// trailing sentence boundary starts a new sentence.
    pub fn push_context_token(&self, context: &mut AutosuggestContext, raw_token: &str) -> (r: Result<
        (),
        AutosuggestArtifactError,
    >)
        requires
            old(context)@.count < usize::MAX,
        ensures
            match spec_push_token(self@, old(context)@, raw_token@) {
                Ok(c) => r is Ok && final(context)@ == c,
                Err(e) => r == Err::<(), AutosuggestArtifactError>(e) && final(context)@ == old(context)@,
            },
    {
        let token = crate::text::analyze_context_token(raw_token);
        match token.text {
            Some(text) => {
                let id = match self.token_id(text.as_str()) {
                    Ok(id) => id,
                    Err(e) => return Err(e),
                };
                context.push_token_id(id);
            },
            None => {},
        }
        if token.boundary_after {
            context.push_boundary();
        }
        Ok(())
    }

    /// Commits the whitespace-separated tokens of `text`; line and paragraph
    /// separators also start a new sentence.
    pub fn push_context_text(&self, context: &mut AutosuggestContext, text: &str) -> (r: Result<
        (),
        AutosuggestArtifactError,
    >)
        requires
            old(context)@.count + text@.len() < usize::MAX,
        ensures
            match spec_push_text_from(self@, old(context)@, text@, 0, None) {
                Ok(c) => r is Ok && final(context)@ == c,
                Err(e) => r == Err::<(), AutosuggestArtifactError>(e),
            },
    {
        let cs = crate::text::chars_of(text);
        let n = cs.len();
        let ghost c0 = context@.count;
        let mut start: Option<usize> = None;
        let mut i: usize = 0;
        while i < n
            invariant
                n == cs@.len(),
                cs@ == text@,
                i <= n,
                c0 + n < usize::MAX,
                match start {
                    Some(s) => s < i && context@.count <= c0 + s,
                    None => context@.count <= c0 + i,
                },
                spec_push_text_from(self@, context@, cs@, i as int, match start { Some(s) => Some(s as int), None => None })
                    == spec_push_text_from(self@, old(context)@, text@, 0, None),
            decreases n - i,
        {
            let ch = cs[i];
            if crate::text::is_whitespace(ch) {
                match start {
                    Some(s) => {
                        let token = crate::text::string_of_chars(&cs, s, i);
                        match self.push_context_token(context, token.as_str()) {
                            Ok(()) => {},
                            Err(e) => return Err(e),
                        }
                    },
                    None => {},
                }
                start = None;
                if crate::text::is_editor_boundary(ch) {
                    context.push_boundary();
                }
            } else if start.is_none() {
                start = Some(i);
            }
            i = i + 1;
        }
        match start {
            Some(s) => {
                let token = crate::text::string_of_chars(&cs, s, n);
                match self.push_context_token(context, token.as_str()) {
                    Ok(()) => {},
                    Err(e) => return Err(e),
                }
            },
            None => {},
        }
        Ok(())
    }

    /// Text candidates after the committed text `context`.
    pub fn suggest_for_text_into<'a>(
        &'a self,
        context: &str,
        options: AutosuggestOptions,
        output: &mut Vec<AutosuggestCandidate<'a>>,
    ) -> (r: Result<AutosuggestMetadata, AutosuggestArtifactError>)
        requires
            context@.len() + 1 < usize::MAX,
        ensures
            match spec_push_text_from(self@, fresh_context(), context@, 0, None) {
                Ok(c) => text_outcome(self@, c, limit_of(options), r, final(output)@),
                Err(e) => r == Err::<AutosuggestMetadata, AutosuggestArtifactError>(e),
            },
    {
        let mut ctx = AutosuggestContext::new();
        match self.push_context_text(&mut ctx, context) {
            Ok(()) => {},
            Err(e) => return Err(e),
        }
        self.suggest_for_context_into(ctx, options, output)
    }

    pub fn suggest_for_text(&self, context: &str, options: AutosuggestOptions) -> (r: Result<
        AutosuggestResult<'_>,
        AutosuggestArtifactError,
    >)
        requires
            context@.len() + 1 < usize::MAX,
        ensures
            match spec_push_text_from(self@, fresh_context(), context@, 0, None) {
                Ok(c) => match r {
                    Ok(res) => text_outcome(
                        self@,
                        c,
                        limit_of(options),
                        Ok(AutosuggestMetadata {
                            context_token_count: res.context_token_count,
                            matched_context_token_count: res.matched_context_token_count,
                        }),
                        res.candidates@,
                    ),
                    Err(e) => text_outcome(self@, c, limit_of(options), Err(e), Seq::empty()),
                },
                Err(e) => r == Err::<AutosuggestResult, AutosuggestArtifactError>(e),
            },
    {
        let mut candidates: Vec<AutosuggestCandidate<'_>> = Vec::new();
        let metadata = match self.suggest_for_text_into(context, options, &mut candidates) {
            Ok(m) => m,
            Err(e) => return Err(e),
        };
        Ok(
            AutosuggestResult {
                context_token_count: metadata.context_token_count,
                matched_context_token_count: metadata.matched_context_token_count,
                candidates,
            },
        )
    }

    /// Text candidates after committing each token of `context_tokens`.
    pub fn suggest_for_tokens_into<'a>(
        &'a self,
        context_tokens: &[&str],
        options: AutosuggestOptions,
        output: &mut Vec<AutosuggestCandidate<'a>>,
    ) -> (r: Result<AutosuggestMetadata, AutosuggestArtifactError>)
        ensures
            match spec_push_tokens(self@, fresh_context(), context_tokens@.map_values(|t: &str| t@)) {
                Ok(c) => text_outcome(self@, c, limit_of(options), r, final(output)@),
                Err(e) => r == Err::<AutosuggestMetadata, AutosuggestArtifactError>(e),
            },
    {
        let mut ctx = AutosuggestContext::new();
        let ghost toks = context_tokens@.map_values(|t: &str| t@);
        let mut i: usize = 0;
        while i < context_tokens.len()
            invariant
                i <= context_tokens@.len(),
                toks == context_tokens@.map_values(|t: &str| t@),
                ctx@.count <= i,
                spec_push_tokens(self@, fresh_context(), toks.take(i as int)) == Ok::<ContextView, AutosuggestArtifactError>(ctx@),
            decreases context_tokens@.len() - i,
        {
            let ghost before = ctx@;
            match self.push_context_token(&mut ctx, context_tokens[i]) {
                Ok(()) => {},
                Err(e) => {
                    proof {
                        assert(toks.take(i + 1).drop_last() =~= toks.take(i as int));
                        lemma_push_tokens_err_prefix(self@, toks, i as int + 1, e);
                    }
                    return Err(e);
                },
            }
            proof {
                assert(toks.take(i + 1).drop_last() =~= toks.take(i as int));
            }
            i = i + 1;
        }
        assert(toks.take(i as int) =~= toks);
        self.suggest_for_context_into(ctx, options, output)
    }

    pub fn suggest_for_tokens(&self, context_tokens: &[&str], options: AutosuggestOptions) -> (r: Result<
        AutosuggestResult<'_>,
        AutosuggestArtifactError,
    >)
        ensures
            match spec_push_tokens(self@, fresh_context(), context_tokens@.map_values(|t: &str| t@)) {
                Ok(c) => match r {
                    Ok(res) => text_outcome(
                        self@,
                        c,
                        limit_of(options),
                        Ok(AutosuggestMetadata {
                            context_token_count: res.context_token_count,
                            matched_context_token_count: res.matched_context_token_count,
                        }),
                        res.candidates@,
                    ),
                    Err(e) => text_outcome(self@, c, limit_of(options), Err(e), Seq::empty()),
                },
                Err(e) => r == Err::<AutosuggestResult, AutosuggestArtifactError>(e),
            },
    {
        let mut candidates: Vec<AutosuggestCandidate<'_>> = Vec::new();
        let metadata = match self.suggest_for_tokens_into(context_tokens, options, &mut candidates) {
            Ok(m) => m,
            Err(e) => return Err(e),
        };
        Ok(
            AutosuggestResult {
                context_token_count: metadata.context_token_count,
                matched_context_token_count: metadata.matched_context_token_count,
                candidates,
            },
        )
    }

    /// Fills a scorer context buffer with left-padded token ids: the newest
    /// known ids right-aligned, or `<bos>` alone at a true sentence start.
    /// An id outside the vocabulary leaves the buffer all padding.
    pub fn scorer_context_ids_for_context_into(&self, context: AutosuggestContext, output: &mut [u32]) -> (r:
        Result<usize, AutosuggestArtifactError>)
        ensures
            final(output)@.len() == old(output)@.len(),
            match spec_scorer_ids(self@, context@, old(output)@.len() as int) {
                Ok((k, s)) => r == Ok::<usize, AutosuggestArtifactError>(k as usize) && final(output)@ == s,
                Err(e) => r == Err::<usize, AutosuggestArtifactError>(e) && final(output)@ == filled(
                    AUTOSUGGEST_PAD_ID,
                    old(output)@.len() as int,
                ),
            },
    {
        let n = output.len();
        let mut i: usize = 0;
        while i < n
            invariant
                n == output@.len(),
                output@.len() == old(output)@.len(),
                i <= n,
                forall|j: int| 0 <= j < i ==> #[trigger] output@[j] == AUTOSUGGEST_PAD_ID,
            decreases n - i,
        {
            output[i] = AUTOSUGGEST_PAD_ID;
            i = i + 1;
        }
        assert(output@ =~= filled(AUTOSUGGEST_PAD_ID, n as int));
        if n == 0 {
            assert(output@ =~= Seq::<u32>::empty());
            return Ok(0);
        }
        if context.is_sentence_start() {
            output[n - 1] = AUTOSUGGEST_BOS_ID;
            assert(output@ =~= filled(AUTOSUGGEST_PAD_ID, n - 1).push(AUTOSUGGEST_BOS_ID));
            return Ok(1);
        }
        let recent = context.recent_token_ids();
        let k = if recent.len() < n {
            recent.len()
        } else {
            n
        };
        let first = recent.len() - k;
        let mut ids: Vec<u32> = Vec::new();
        let mut j = first;
        while j < recent.len()
            invariant
                first <= j <= recent@.len(),
                ids@ == recent@.subrange(first as int, j as int),
            decreases recent@.len() - j,
        {
            ids.push(recent[j]);
            assert(recent@.subrange(first as int, j + 1) =~= recent@.subrange(first as int, j as int).push(recent@[j as int]));
            j = j + 1;
        }
        match self.check_context_ids(&ids) {
            Ok(()) => {},
            Err(e) => return Err(e),
        }
        let start = n - k;
        let mut t: usize = 0;
        while t < k
            invariant
                n == output@.len(),
                ids@.len() == k,
                k <= n,
                start == n - k,
                t <= k,
                forall|q: int| 0 <= q < start ==> #[trigger] output@[q] == AUTOSUGGEST_PAD_ID,
                forall|q: int| 0 <= q < t ==> #[trigger] output@[start + q] == ids@[q],
            decreases k - t,
        {
            output[start + t] = ids[t];
            t = t + 1;
        }
        assert forall|q: int| start <= q < n implies #[trigger] output@[q] == ids@[q - start] by {
            assert(output@[start + (q - start)] == ids@[q - start]);
        }
        assert(output@ =~= filled(AUTOSUGGEST_PAD_ID, (n - k) as int) + ids@);
        Ok(k)
    }

    /// The Core ML `int32` variant of
    /// [`Self::scorer_context_ids_for_context_into`]; an id that does not fit
    /// in `i32` is reported after the ids before it were written.
    pub fn scorer_context_i32s_for_context_into(&self, context: AutosuggestContext, output: &mut [i32]) -> (r:
        Result<usize, AutosuggestArtifactError>)
        ensures
            final(output)@.len() == old(output)@.len(),
            match spec_scorer_ids(self@, context@, old(output)@.len() as int) {
                Ok((k, s)) => {
                    &&& (forall|i: int| 0 <= i < s.len() ==> s[i] <= i32::MAX) ==> r == Ok::<usize, AutosuggestArtifactError>(k as usize)
                        && (forall|i: int| 0 <= i < s.len() ==> #[trigger] final(output)@[i] == s[i] as i32)
                    &&& r is Ok ==> (forall|i: int| 0 <= i < s.len() ==> s[i] <= i32::MAX)
                    &&& r matches Err(e) ==> exists|i: int|
                        0 <= i < s.len() && s[i] > i32::MAX && (forall|j: int| 0 <= j < i ==> s[j] <= i32::MAX) && e
                            == AutosuggestArtifactError::InvalidTokenId(s[i])
                },
                Err(e) => r == Err::<usize, AutosuggestArtifactError>(e) && final(output)@ == filled(
                    AUTOSUGGEST_PAD_I32,
                    old(output)@.len() as int,
                ),
            },
    {
        let n = output.len();
        let mut ids: Vec<u32> = Vec::new();
        let mut i: usize = 0;
        while i < n
            invariant
                ids@.len() == i,
                i <= n,
                forall|j: int| 0 <= j < i ==> #[trigger] ids@[j] == AUTOSUGGEST_PAD_ID,
            decreases n - i,
        {
            ids.push(AUTOSUGGEST_PAD_ID);
            i = i + 1;
        }
        let r = self.scorer_context_ids_for_context_into(context, ids.as_mut_slice());
        match r {
            Err(e) => {
                let mut q: usize = 0;
                while q < n
                    invariant
                        n == output@.len(),
                        output@.len() == old(output)@.len(),
                        q <= n,
                        forall|j: int| 0 <= j < q ==> #[trigger] output@[j] == AUTOSUGGEST_PAD_I32,
                    decreases n - q,
                {
                    output[q] = AUTOSUGGEST_PAD_I32;
                    q = q + 1;
                }
                assert(output@ =~= filled(AUTOSUGGEST_PAD_I32, n as int));
                Err(e)
            },
            Ok(k) => {
                let mut q: usize = 0;
                while q < n
                    invariant
                        n == output@.len(),
                        n == ids@.len(),
                        n == old(output)@.len(),
                        match spec_scorer_ids(self@, context@, n as int) {
                            Ok((kk, ss)) => ss == ids@ && kk == k,
                            Err(_) => false,
                        },
                        output@.len() == old(output)@.len(),
                        q <= n,
                        forall|j: int| 0 <= j < q ==> #[trigger] output@[j] == ids@[j] as i32,
                        forall|j: int| 0 <= j < q ==> ids@[j] <= i32::MAX,
                    decreases n - q,
                {
                    match scorer_i32_from_token_id(ids[q]) {
                        Ok(x) => {
                            output[q] = x;
                        },
                        Err(e) => {
                            assert(0 <= q < ids@.len() && ids@[q as int] > i32::MAX && e == AutosuggestArtifactError::InvalidTokenId(ids@[q as int]));
                            assert(forall|j: int| 0 <= j < q ==> ids@[j] <= i32::MAX);
                            return Err(e);
                        },
                    }
                    q = q + 1;
                }
                Ok(k)
            },
        }
    }

    /// Fixed-shape scorer inputs for a context: the left-padded scorer context
    /// and the n-gram candidate ids.
    pub fn rerank_input_for_context_into(
        &self,
        context: AutosuggestContext,
        options: AutosuggestOptions,
        scorer_context_ids: &mut [u32],
        candidates: &mut Vec<AutosuggestCandidateId>,
    ) -> (r: Result<AutosuggestRerankInputMetadata, AutosuggestArtifactError>)
        ensures
            final(scorer_context_ids)@.len() == old(scorer_context_ids)@.len(),
            match spec_scorer_ids(self@, context@, old(scorer_context_ids)@.len() as int) {
                Err(e) => r == Err::<AutosuggestRerankInputMetadata, AutosuggestArtifactError>(e)
                    && final(candidates)@.len() == 0,
                Ok((k, s)) => final(scorer_context_ids)@ == s && match self@.suggest_for(context@, limit_of(options)) {
                    Ok(o) => final(candidates)@ == o && r == Ok::<AutosuggestRerankInputMetadata, AutosuggestArtifactError>(
                        AutosuggestRerankInputMetadata {
                            context_token_count: context@.count as usize,
                            matched_context_token_count: self@.matched_count(context@) as usize,
                            scorer_context_token_count: k as usize,
                            candidate_count: o.len() as usize,
                        },
                    ),
                    Err((o, e)) => final(candidates)@ == o && r == Err::<AutosuggestRerankInputMetadata, AutosuggestArtifactError>(e),
                },
            },
    {
        candidates.clear();
        let scorer_count = match self.scorer_context_ids_for_context_into(context, scorer_context_ids) {
            Ok(n) => n,
            Err(e) => return Err(e),
        };
        let metadata = match self.suggest_ids_for_context_into(context, options, candidates) {
            Ok(m) => m,
            Err(e) => return Err(e),
        };
        Ok(
            AutosuggestRerankInputMetadata {
                context_token_count: metadata.context_token_count,
                matched_context_token_count: metadata.matched_context_token_count,
                scorer_context_token_count: scorer_count,
                candidate_count: candidates.len(),
            },
        )
    }
}

proof fn lemma_push_tokens_err_prefix(v: LmView, toks: Seq<Seq<char>>, i: int, e: AutosuggestArtifactError)
    requires
        0 < i <= toks.len(),
        spec_push_tokens(v, fresh_context(), toks.take(i)) == Err::<ContextView, AutosuggestArtifactError>(e),
    ensures
        spec_push_tokens(v, fresh_context(), toks) == Err::<ContextView, AutosuggestArtifactError>(e),
    decreases toks.len() - i,
{
    if i < toks.len() {
        assert(toks.take(i + 1).drop_last() =~= toks.take(i));
        lemma_push_tokens_err_prefix(v, toks, i + 1, e);
    } else {
        assert(toks.take(i) =~= toks);
    }
}


/// Annotations for the first `n` candidate texts: each text that is a known
/// word found in the prior pool gets the pool entry's rank (1-based) and
/// record; lookup errors stop the scan.
pub open spec fn spec_priors(
    v: LmView,
    pool: Seq<AutosuggestCandidateId>,
    texts: Seq<Seq<u8>>,
    n: int,
) -> Result<Seq<AutosuggestCandidatePrior>, AutosuggestArtifactError>
    decreases n,
{
    if n <= 0 {
        Ok(Seq::empty())
    } else {
        match spec_priors(v, pool, texts, n - 1) {
            Err(e) => Err(e),
            Ok(out) => match v.lookup_token(texts[n - 1]) {
                Err(e) => Err(e),
                Ok(None) => Ok(out),
                Ok(Some(id)) => {
                    let p = crate::candidate::first_index(pool, crate::candidate::same_id(id));
                    if p < pool.len() {
                        Ok(
                            out.push(
                                AutosuggestCandidatePrior {
                                    candidate_index: (n - 1) as usize,
                                    token_id: id,
                                    prior_rank: (p + 1) as usize,
                                    source: pool[p].source,
                                    count: pool[p].count,
                                    score: pool[p].score,
                                },
                            ),
                        )
                    } else {
                        Ok(out)
                    }
                },
            },
        }
    }
}

impl AutosuggestLm {
    /// Next-word priors for an already bounded list of candidate texts: a pool
    /// of up to `max_prior_candidates` (at least one) candidate ids is
    /// generated, and each text found in it is annotated with its rank.
    pub fn context_priors_for_candidate_texts_into(
        &self,
        context: AutosuggestContext,
        candidate_texts: &[&str],
        options: AutosuggestContextPriorOptions,
        prior_scratch: &mut Vec<AutosuggestCandidateId>,
        output: &mut Vec<AutosuggestCandidatePrior>,
    ) -> (r: Result<AutosuggestContextPriorMetadata, AutosuggestArtifactError>)
        ensures
            ({
                let pool_limit = if options.max_prior_candidates < 1 { 1 } else { options.max_prior_candidates as int };
                let texts = candidate_texts@.map_values(|t: &str| t.spec_bytes());
                match self@.suggest_for(context@, pool_limit) {
                    Err((o, e)) => r == Err::<AutosuggestContextPriorMetadata, AutosuggestArtifactError>(e)
                        && final(prior_scratch)@ == o && final(output)@.len() == 0,
                    Ok(pool) => final(prior_scratch)@ == pool && match spec_priors(self@, pool, texts, texts.len() as int) {
                        Err(e) => r == Err::<AutosuggestContextPriorMetadata, AutosuggestArtifactError>(e),
                        Ok(priors) => final(output)@ == priors && r == Ok::<AutosuggestContextPriorMetadata, AutosuggestArtifactError>(
                            AutosuggestContextPriorMetadata {
                                context_token_count: context@.count as usize,
                                matched_context_token_count: self@.matched_count(context@) as usize,
                                prior_candidate_count: pool.len() as usize,
                                matched_candidate_count: priors.len() as usize,
                            },
                        ),
                    },
                }
            }),
    {
        output.clear();
        prior_scratch.clear();
        let pool_size = if options.max_prior_candidates < 1 {
            1
        } else {
            options.max_prior_candidates
        };
        assert(limit_of(AutosuggestOptions { max_candidates: pool_size }) == (if options.max_prior_candidates < 1 { 1 } else { options.max_prior_candidates as int }));
        let metadata = match self.suggest_ids_for_context_into(
            context,
            AutosuggestOptions { max_candidates: pool_size },
            prior_scratch,
        ) {
            Ok(m) => m,
            Err(e) => return Err(e),
        };
        let ghost texts = candidate_texts@.map_values(|t: &str| t.spec_bytes());
        let mut i: usize = 0;
        while i < candidate_texts.len()
            invariant
                i <= candidate_texts@.len(),
                texts == candidate_texts@.map_values(|t: &str| t.spec_bytes()),
                self@.suggest_for(context@, if options.max_prior_candidates < 1 { 1 } else { options.max_prior_candidates as int })
                    == Ok::<Seq<AutosuggestCandidateId>, (Seq<AutosuggestCandidateId>, AutosuggestArtifactError)>(prior_scratch@),
                spec_priors(self@, prior_scratch@, texts, i as int) == Ok::<Seq<AutosuggestCandidatePrior>, AutosuggestArtifactError>(output@),
            decreases candidate_texts@.len() - i,
        {
            let id = match self.token_id(candidate_texts[i]) {
                Ok(id) => id,
                Err(e) => {
                    proof {
                        lemma_priors_err_prefix(self@, prior_scratch@, texts, i as int + 1, e);
                    }
                    return Err(e);
                },
            };
            match id {
                None => {},
                Some(token_id) => {
                    let p = crate::candidate::position_of_id(prior_scratch, token_id);
                    if p < prior_scratch.len() {
                        let prior = prior_scratch[p];
                        output.push(
                            AutosuggestCandidatePrior {
                                candidate_index: i,
                                token_id,
                                prior_rank: p + 1,
                                source: prior.source,
                                count: prior.count,
                                score: prior.score,
                            },
                        );
                    }
                },
            }
            i = i + 1;
        }
        Ok(
            AutosuggestContextPriorMetadata {
                context_token_count: metadata.context_token_count,
                matched_context_token_count: metadata.matched_context_token_count,
                prior_candidate_count: prior_scratch.len(),
                matched_candidate_count: output.len(),
            },
        )
    }
}

proof fn lemma_priors_err_prefix(
    v: LmView,
    pool: Seq<AutosuggestCandidateId>,
    texts: Seq<Seq<u8>>,
    i: int,
    e: AutosuggestArtifactError,
)
    requires
        0 < i <= texts.len(),
        spec_priors(v, pool, texts, i) == Err::<Seq<AutosuggestCandidatePrior>, AutosuggestArtifactError>(e),
    ensures
        spec_priors(v, pool, texts, texts.len() as int) == Err::<Seq<AutosuggestCandidatePrior>, AutosuggestArtifactError>(e),
    decreases texts.len() - i,
{
    if i < texts.len() {
        lemma_priors_err_prefix(v, pool, texts, i + 1, e);
    }
}

} // verus!
