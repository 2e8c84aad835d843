//! Taking a generator's top-k output back: the buffers must have the
//! declared length, every id must lie inside the vocabulary, and the kept
//! proposals are the word ids in model order, each once, with their rank.
//! The model's scores stay with the caller, found again by rank.

use vstd::prelude::*;
use crate::artifact::AutosuggestArtifactError;
use crate::context::AUTOSUGGEST_UNK_ID;
use crate::candidate::{AutosuggestCandidateId, AutosuggestOptions};
use crate::context::{AutosuggestContext, AUTOSUGGEST_PAD_ID};
use crate::lm::{filled, limit_of, spec_scorer_ids, AutosuggestLm, LmView, AUTOSUGGEST_PAD_I32};

verus! {

#[derive(Debug, Clone, Copy, PartialEq, Eq)]
pub enum AutosuggestGeneratorHandoffError {
    Artifact(AutosuggestArtifactError),
    InvalidBuffer { field: &'static str, expected: usize, actual: usize },
    MissingCandidatePool,
    MissingScoredUnionPolicy,
    InvalidGeneratedTokenId { index: usize, token_id: i64 },
}

impl From<AutosuggestArtifactError> for AutosuggestGeneratorHandoffError {
    fn from(error: AutosuggestArtifactError) -> (r: Self) {
        AutosuggestGeneratorHandoffError::Artifact(error)
    }
}

impl vstd::std_specs::convert::FromSpecImpl<AutosuggestArtifactError> for AutosuggestGeneratorHandoffError {
    open spec fn obeys_from_spec() -> bool {
        true
    }

    open spec fn from_spec(v: AutosuggestArtifactError) -> Self {
        AutosuggestGeneratorHandoffError::Artifact(v)
    }
}

/// A kept proposal: its word and its rank in the model's output.
#[derive(Debug, Clone, Copy, PartialEq, Eq)]
pub struct AutosuggestGeneratedCandidateRank {
    pub token_id: u32,
    pub model_rank: usize,
}

/// Both output buffers must hold `top_k_output` entries; the id buffer is
/// checked first.
pub open spec fn output_buffers_error(top_k_output: usize, ids_len: usize, scores_len: usize) -> Option<
    AutosuggestGeneratorHandoffError,
> {
    if ids_len != top_k_output {
        Some(AutosuggestGeneratorHandoffError::InvalidBuffer { field: "token_ids", expected: top_k_output, actual: ids_len })
    } else if scores_len != top_k_output {
        Some(
            AutosuggestGeneratorHandoffError::InvalidBuffer {
                field: "model_scores",
                expected: top_k_output,
                actual: scores_len,
            },
        )
    } else {
        None
    }
}

pub fn require_output_buffers(top_k_output: usize, ids_len: usize, scores_len: usize) -> (r: Result<
    (),
    AutosuggestGeneratorHandoffError,
>)
    ensures
        match output_buffers_error(top_k_output, ids_len, scores_len) {
            Some(e) => r == Err::<(), AutosuggestGeneratorHandoffError>(e),
            None => r is Ok,
        },
{
    if ids_len != top_k_output {
        return Err(
            AutosuggestGeneratorHandoffError::InvalidBuffer { field: "token_ids", expected: top_k_output, actual: ids_len },
        );
    }
    if scores_len != top_k_output {
        return Err(
            AutosuggestGeneratorHandoffError::InvalidBuffer {
                field: "model_scores",
                expected: top_k_output,
                actual: scores_len,
            },
        );
    }
    Ok(())
}

pub open spec fn has_rank_id(out: Seq<AutosuggestGeneratedCandidateRank>, id: u32) -> bool {
    exists|j: int| 0 <= j < out.len() && (#[trigger] out[j]).token_id == id
}

/// The model's id `id` at rank `rank` joins the kept proposals: an id past
/// the vocabulary is an error; a reserved id or one already kept is passed
/// over.
pub open spec fn generated_step(
    lm: LmView,
    out: Seq<AutosuggestGeneratedCandidateRank>,
    rank: int,
    id: u32,
) -> Result<Seq<AutosuggestGeneratedCandidateRank>, AutosuggestGeneratorHandoffError> {
    if id >= lm.vocab_size() {
        Err(AutosuggestGeneratorHandoffError::InvalidGeneratedTokenId { index: rank as usize, token_id: id as i64 })
    } else if !(id > AUTOSUGGEST_UNK_ID) || has_rank_id(out, id) {
        Ok(out)
    } else {
        Ok(out.push(AutosuggestGeneratedCandidateRank { token_id: id, model_rank: rank as usize }))
    }
}

/// The kept proposals of `ids[..n]` (signed ids: a negative one is an
/// error at its rank), or the first error with what was kept before it.
pub open spec fn generated_upto(lm: LmView, ids: Seq<i64>, n: int) -> (
    Seq<AutosuggestGeneratedCandidateRank>,
    Option<AutosuggestGeneratorHandoffError>,
)
    decreases n,
{
    if n <= 0 {
        (Seq::empty(), None)
    } else {
        let (out, err) = generated_upto(lm, ids, n - 1);
        if err is Some {
            (out, err)
        } else {
            let id = ids[n - 1];
            if id < 0 || id > u32::MAX {
                (out, Some(AutosuggestGeneratorHandoffError::InvalidGeneratedTokenId { index: (n - 1) as usize, token_id: id }))
            } else {
                match generated_step(lm, out, n - 1, id as u32) {
                    Ok(o2) => (o2, None),
                    Err(e) => (out, Some(e)),
                }
            }
        }
    }
}

/// What taking an output of `ids` (with `scores_len` scores) gives: the
/// buffer error (nothing kept), or the kept proposals and the first id
/// error, if any.
pub open spec fn generated_outcome(lm: LmView, top_k_output: usize, ids: Seq<i64>, scores_len: usize) -> (
    Seq<AutosuggestGeneratedCandidateRank>,
    Option<AutosuggestGeneratorHandoffError>,
) {
    match output_buffers_error(top_k_output, ids.len() as usize, scores_len) {
        Some(e) => (Seq::empty(), Some(e)),
        None => generated_upto(lm, ids, ids.len() as int),
    }
}

pub open spec fn widen_u32(ids: Seq<u32>) -> Seq<i64> {
    Seq::new(ids.len(), |i: int| ids[i] as i64)
}

pub open spec fn widen_i32(ids: Seq<i32>) -> Seq<i64> {
    Seq::new(ids.len(), |i: int| ids[i] as i64)
}

fn contains_rank_id(out: &Vec<AutosuggestGeneratedCandidateRank>, id: u32) -> (b: bool)
    ensures
        b == has_rank_id(out@, id),
{
    let mut i: usize = 0;
    while i < out.len()
        invariant
            i <= out@.len(),
            forall|j: int| 0 <= j < i ==> (#[trigger] out@[j]).token_id != id,
        decreases out@.len() - i,
    {
        if out[i].token_id == id {
            return true;
        }
        i = i + 1;
    }
    false
}

fn push_generated_candidate(
    lm: &AutosuggestLm,
    token_id: u32,
    model_rank: usize,
    output: &mut Vec<AutosuggestGeneratedCandidateRank>,
) -> (r: Result<(), AutosuggestGeneratorHandoffError>)
    ensures
        match generated_step(lm@, old(output)@, model_rank as int, token_id) {
            Ok(o) => r is Ok && final(output)@ == o,
            Err(e) => r == Err::<(), AutosuggestGeneratorHandoffError>(e) && final(output)@ == old(output)@,
        },
{
    if token_id as usize >= lm.vocab_size() {
        return Err(
            AutosuggestGeneratorHandoffError::InvalidGeneratedTokenId { index: model_rank, token_id: token_id as i64 },
        );
    }
    if !lm.is_word_token_id(token_id) || contains_rank_id(output, token_id) {
        return Ok(());
    }
    output.push(AutosuggestGeneratedCandidateRank { token_id, model_rank });
    Ok(())
}

/// The buffer shape a generator was packaged with: its context window, its
/// top-k output and, when it scores a static pool, that pool's size.
#[derive(Debug, Clone, Copy, PartialEq, Eq)]
pub struct AutosuggestGeneratorShape {
    pub context_window: usize,
    pub top_k_output: usize,
    pub candidate_pool: Option<usize>,
}

impl AutosuggestGeneratorShape {
    /// The scorer context for `context` into a buffer of the context window
    /// (see [`spec_scorer_ids`]).
    pub fn u32_context_for_context_into(
        &self,
        lm: &AutosuggestLm,
        context: AutosuggestContext,
        context_ids: &mut [u32],
    ) -> (r: Result<usize, AutosuggestGeneratorHandoffError>)
        ensures
            final(context_ids)@.len() == old(context_ids)@.len(),
            old(context_ids)@.len() != self.context_window ==> r == Err::<usize, AutosuggestGeneratorHandoffError>(
                AutosuggestGeneratorHandoffError::InvalidBuffer {
                    field: "context_ids",
                    expected: self.context_window,
                    actual: old(context_ids)@.len() as usize,
                },
            ) && final(context_ids)@ == old(context_ids)@,
            old(context_ids)@.len() == self.context_window ==> match spec_scorer_ids(
                lm@,
                context@,
                old(context_ids)@.len() as int,
            ) {
                Ok((k, s)) => r == Ok::<usize, AutosuggestGeneratorHandoffError>(k as usize) && final(context_ids)@ == s,
                Err(e) => r == Err::<usize, AutosuggestGeneratorHandoffError>(AutosuggestGeneratorHandoffError::Artifact(e))
                    && final(context_ids)@ == filled(AUTOSUGGEST_PAD_ID, old(context_ids)@.len() as int),
            },
    {
        if context_ids.len() != self.context_window {
            return Err(
                AutosuggestGeneratorHandoffError::InvalidBuffer {
                    field: "context_ids",
                    expected: self.context_window,
                    actual: context_ids.len(),
                },
            );
        }
        match lm.scorer_context_ids_for_context_into(context, context_ids) {
            Ok(k) => Ok(k),
            Err(e) => Err(AutosuggestGeneratorHandoffError::Artifact(e)),
        }
    }

    /// The `int32` variant of [`Self::u32_context_for_context_into`]: a
    /// context id that does not fit in `i32` is an error.
    pub fn coreml_context_for_context_into(
        &self,
        lm: &AutosuggestLm,
        context: AutosuggestContext,
        context_ids: &mut [i32],
    ) -> (r: Result<usize, AutosuggestGeneratorHandoffError>)
        ensures
            final(context_ids)@.len() == old(context_ids)@.len(),
            old(context_ids)@.len() != self.context_window ==> r == Err::<usize, AutosuggestGeneratorHandoffError>(
                AutosuggestGeneratorHandoffError::InvalidBuffer {
                    field: "context_ids",
                    expected: self.context_window,
                    actual: old(context_ids)@.len() as usize,
                },
            ) && final(context_ids)@ == old(context_ids)@,
            old(context_ids)@.len() == self.context_window ==> match spec_scorer_ids(
                lm@,
                context@,
                old(context_ids)@.len() as int,
            ) {
                Ok((k, s)) => if exists|i: int| 0 <= i < s.len() && s[i] > i32::MAX {
                    r matches Err(AutosuggestGeneratorHandoffError::Artifact(e)) && exists|i: int|
                        0 <= i < s.len() && s[i] > i32::MAX && (forall|j: int| 0 <= j < i ==> s[j] <= i32::MAX) && e
                            == AutosuggestArtifactError::InvalidTokenId(s[i])
                } else {
                    r == Ok::<usize, AutosuggestGeneratorHandoffError>(k as usize) && forall|i: int|
                        0 <= i < s.len() ==> #[trigger] final(context_ids)@[i] == s[i] as i32
                },
                Err(e) => r == Err::<usize, AutosuggestGeneratorHandoffError>(AutosuggestGeneratorHandoffError::Artifact(e))
                    && final(context_ids)@ == filled(AUTOSUGGEST_PAD_I32, old(context_ids)@.len() as int),
            },
    {
        if context_ids.len() != self.context_window {
            return Err(
                AutosuggestGeneratorHandoffError::InvalidBuffer {
                    field: "context_ids",
                    expected: self.context_window,
                    actual: context_ids.len(),
                },
            );
        }
        match lm.scorer_context_i32s_for_context_into(context, context_ids) {
            Ok(k) => Ok(k),
            Err(e) => Err(AutosuggestGeneratorHandoffError::Artifact(e)),
        }
    }

    /// The model's static candidate pool for `context`, of the declared pool
    /// size; a generator without a pool cannot have one.
    pub fn static_candidates_for_context_into(
        &self,
        lm: &AutosuggestLm,
        context: AutosuggestContext,
        output: &mut Vec<AutosuggestCandidateId>,
    ) -> (r: Result<(), AutosuggestGeneratorHandoffError>)
        ensures
            match self.candidate_pool {
                None => r == Err::<(), AutosuggestGeneratorHandoffError>(AutosuggestGeneratorHandoffError::MissingCandidatePool)
                    && final(output)@ == old(output)@,
                Some(pool) => match lm@.suggest_for(context@, limit_of(AutosuggestOptions { max_candidates: pool })) {
                    Ok(o) => r is Ok && final(output)@ == o,
                    Err((o, e)) => r == Err::<(), AutosuggestGeneratorHandoffError>(AutosuggestGeneratorHandoffError::Artifact(e))
                        && final(output)@ == o,
                },
            },
    {
        let pool = match self.candidate_pool {
            Some(p) => p,
            None => return Err(AutosuggestGeneratorHandoffError::MissingCandidatePool),
        };
        match lm.suggest_ids_for_context_into(context, AutosuggestOptions { max_candidates: pool }, output) {
            Ok(_) => Ok(()),
            Err(e) => Err(AutosuggestGeneratorHandoffError::Artifact(e)),
        }
    }

    /// Takes a generator's unsigned id output back (see [`generated_outcome`]).
    pub fn generated_u32_candidates_into(
        &self,
        lm: &AutosuggestLm,
        token_ids: &[u32],
    model_scores_len: usize,
    output: &mut Vec<AutosuggestGeneratedCandidateRank>,
) -> (r: Result<(), AutosuggestGeneratorHandoffError>)
    ensures
        ({
            let (o, e) = generated_outcome(lm@, self.top_k_output, widen_u32(token_ids@), model_scores_len);
            &&& (match e {
                Some(x) => r == Err::<(), AutosuggestGeneratorHandoffError>(x),
                None => r is Ok,
            })
            &&& (e is Some && output_buffers_error(self.top_k_output, token_ids@.len() as usize, model_scores_len) is Some
                ==> final(output)@ == old(output)@)
            &&& (output_buffers_error(self.top_k_output, token_ids@.len() as usize, model_scores_len) is None
                ==> final(output)@ == o)
        }),
{
    match require_output_buffers(self.top_k_output, token_ids.len(), model_scores_len) {
        Ok(()) => {},
        Err(e) => return Err(e),
    }
    output.clear();
    let ghost w = widen_u32(token_ids@);
    let mut i: usize = 0;
    while i < token_ids.len()
        invariant
            w == widen_u32(token_ids@),
            w.len() == token_ids@.len(),
            output_buffers_error(self.top_k_output, token_ids@.len() as usize, model_scores_len) is None,
            i <= token_ids@.len(),
            generated_upto(lm@, w, i as int) == (output@, None::<AutosuggestGeneratorHandoffError>),
        decreases token_ids@.len() - i,
    {
        let id = token_ids[i];
        let ghost before = output@;
        assert(w[i as int] == id as i64);
        match push_generated_candidate(lm, id, i, output) {
            Ok(()) => {},
            Err(e) => {
                proof {
                    assert(generated_upto(lm@, w, i as int + 1) == (before, Some(e)));
                    lemma_generated_upto_stops(lm@, w, i as int + 1, token_ids@.len() as int);
                }
                return Err(e);
            },
        }
        i = i + 1;
    }
    proof {
        assert(token_ids@.len() == w.len());
    }
    Ok(())
}

    /// Takes a generator's signed id output back (see [`generated_outcome`]);
    /// a negative id is an error at its rank.
    pub fn generated_i32_candidates_into(
        &self,
        lm: &AutosuggestLm,
        token_ids: &[i32],
    model_scores_len: usize,
    output: &mut Vec<AutosuggestGeneratedCandidateRank>,
) -> (r: Result<(), AutosuggestGeneratorHandoffError>)
    ensures
        ({
            let (o, e) = generated_outcome(lm@, self.top_k_output, widen_i32(token_ids@), model_scores_len);
            &&& (match e {
                Some(x) => r == Err::<(), AutosuggestGeneratorHandoffError>(x),
                None => r is Ok,
            })
            &&& (e is Some && output_buffers_error(self.top_k_output, token_ids@.len() as usize, model_scores_len) is Some
                ==> final(output)@ == old(output)@)
            &&& (output_buffers_error(self.top_k_output, token_ids@.len() as usize, model_scores_len) is None
                ==> final(output)@ == o)
        }),
{
    match require_output_buffers(self.top_k_output, token_ids.len(), model_scores_len) {
        Ok(()) => {},
        Err(e) => return Err(e),
    }
    output.clear();
    let ghost w = widen_i32(token_ids@);
    let mut i: usize = 0;
    while i < token_ids.len()
        invariant
            w == widen_i32(token_ids@),
            w.len() == token_ids@.len(),
            output_buffers_error(self.top_k_output, token_ids@.len() as usize, model_scores_len) is None,
            i <= token_ids@.len(),
            generated_upto(lm@, w, i as int) == (output@, None::<AutosuggestGeneratorHandoffError>),
        decreases token_ids@.len() - i,
    {
        let id = token_ids[i];
        let ghost before = output@;
        assert(w[i as int] == id as i64);
        if id < 0 {
            let e = AutosuggestGeneratorHandoffError::InvalidGeneratedTokenId { index: i, token_id: id as i64 };
            proof {
                assert(generated_upto(lm@, w, i as int + 1) == (before, Some(e)));
                lemma_generated_upto_stops(lm@, w, i as int + 1, token_ids@.len() as int);
            }
            return Err(e);
        }
        assert((id as i64) as u32 == id as u32);
        match push_generated_candidate(lm, id as u32, i, output) {
            Ok(()) => {},
            Err(e) => {
                proof {
                    assert(generated_upto(lm@, w, i as int + 1) == (before, Some(e)));
                    lemma_generated_upto_stops(lm@, w, i as int + 1, token_ids@.len() as int);
                }
                return Err(e);
            },
        }
        i = i + 1;
    }
    proof {
        assert(token_ids@.len() == w.len());
    }
    Ok(())
}
}

/// Once an error is found, reading further changes nothing.
proof fn lemma_generated_upto_stops(lm: LmView, ids: Seq<i64>, n: int, m: int)
    requires
        0 < n <= m,
        generated_upto(lm, ids, n).1 is Some,
    ensures
        generated_upto(lm, ids, m) == generated_upto(lm, ids, n),
    decreases m - n,
{
    if n < m {
        lemma_generated_upto_stops(lm, ids, n, m - 1);
    }
}


/// Kept proposals are word ids of the model, each once, in increasing rank
/// below `n`.
pub open spec fn ranks_ok(lm: LmView, out: Seq<AutosuggestGeneratedCandidateRank>, n: int) -> bool {
    &&& forall|i: int|
        0 <= i < out.len() ==> AUTOSUGGEST_UNK_ID < (#[trigger] out[i]).token_id < lm.vocab_size() && out[i].model_rank
            < n
    &&& forall|i: int, j: int|
        0 <= i < j < out.len() ==> (#[trigger] out[i]).token_id != (#[trigger] out[j]).token_id && out[i].model_rank
            < out[j].model_rank
}

/// Whatever the model returns, the proposals kept (also those kept before an
/// error) are word ids of the model, each once, in model order.
pub proof fn lemma_generated_ranks(lm: LmView, ids: Seq<i64>, n: int)
    requires
        0 <= n <= ids.len(),
        n <= usize::MAX,
    ensures
        ranks_ok(lm, generated_upto(lm, ids, n).0, n),
    decreases n,
{
    if n > 0 {
        lemma_generated_ranks(lm, ids, n - 1);
        let (out, err) = generated_upto(lm, ids, n - 1);
        if err is None {
            let id = ids[n - 1];
            if !(id < 0 || id > u32::MAX) {
                let r = generated_step(lm, out, n - 1, id as u32);
                if let Ok(o2) = r {
                    if o2 != out {
                        assert(o2 == out.push(AutosuggestGeneratedCandidateRank { token_id: id as u32, model_rank: (n - 1) as usize }));
                        assert forall|a: int, b: int| 0 <= a < b < o2.len() implies (#[trigger] o2[a]).token_id
                            != (#[trigger] o2[b]).token_id && o2[a].model_rank < o2[b].model_rank by {
                            assert(o2[a] == out[a]);
                            if b < out.len() {
                                assert(o2[b] == out[b]);
                            } else {
                                assert(!has_rank_id(out, id as u32));
                            }
                        }
                        assert forall|a: int| 0 <= a < o2.len() implies AUTOSUGGEST_UNK_ID < (#[trigger] o2[a]).token_id
                            < lm.vocab_size() && o2[a].model_rank < n by {
                            if a < out.len() {
                                assert(o2[a] == out[a]);
                            }
                        }
                    }
                }
            }
        }
    }
}
} // verus!
