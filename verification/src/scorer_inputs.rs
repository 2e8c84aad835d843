//! Fixed-shape inputs for a platform scorer: the buffers must have the shape
//! the scorer was packaged with, then they receive the scorer context and
//! the n-gram candidate pool, without reading any candidate text.

use vstd::prelude::*;
use crate::artifact::AutosuggestArtifactError;
use crate::candidate::{AutosuggestCandidateId, AutosuggestOptions};
use crate::context::{AutosuggestContext, AUTOSUGGEST_PAD_ID};
use crate::lm::{
    filled, fit_prefix, i32_pad_from, i32_prefix, limit_of, scorer_candidate_i32s_for_candidates_into,
    scorer_candidate_ids_for_candidates_into, spec_scorer_ids, AutosuggestLm, AutosuggestRerankInputMetadata,
    AUTOSUGGEST_PAD_I32,
};

verus! {

/// A score buffer that does not match the candidates.
#[derive(Debug, Clone, Copy, PartialEq, Eq)]
pub enum AutosuggestRerankError {
    ScoreLengthMismatch { candidates: usize, scores: usize },
}

#[derive(Debug, Clone, Copy, PartialEq, Eq)]
pub enum AutosuggestScorerHandoffError {
    Artifact(AutosuggestArtifactError),
    Rerank(AutosuggestRerankError),
    InvalidBuffer { field: &'static str, expected: usize, actual: usize },
}

impl From<AutosuggestArtifactError> for AutosuggestScorerHandoffError {
    fn from(error: AutosuggestArtifactError) -> (r: Self) {
        AutosuggestScorerHandoffError::Artifact(error)
    }
}

impl vstd::std_specs::convert::FromSpecImpl<AutosuggestArtifactError> for AutosuggestScorerHandoffError {
    open spec fn obeys_from_spec() -> bool {
        true
    }

    open spec fn from_spec(v: AutosuggestArtifactError) -> Self {
        AutosuggestScorerHandoffError::Artifact(v)
    }
}

impl From<AutosuggestRerankError> for AutosuggestScorerHandoffError {
    fn from(error: AutosuggestRerankError) -> (r: Self) {
        AutosuggestScorerHandoffError::Rerank(error)
    }
}

impl vstd::std_specs::convert::FromSpecImpl<AutosuggestRerankError> for AutosuggestScorerHandoffError {
    open spec fn obeys_from_spec() -> bool {
        true
    }

    open spec fn from_spec(v: AutosuggestRerankError) -> Self {
        AutosuggestScorerHandoffError::Rerank(v)
    }
}

/// The buffer shape a scorer was packaged with: its context window and its
/// candidate pool.
#[derive(Debug, Clone, Copy, PartialEq, Eq)]
pub struct AutosuggestScorerShape {
    pub context_window: usize,
    pub candidate_pool: usize,
}

/// The buffer error for buffers of lengths `ctx_len` and `cand_len`, the
/// context buffer checked first.
pub open spec fn shape_error(shape: AutosuggestScorerShape, ctx_len: usize, cand_len: usize) -> Option<
    AutosuggestScorerHandoffError,
> {
    if ctx_len != shape.context_window {
        Some(
            AutosuggestScorerHandoffError::InvalidBuffer {
                field: "context_ids",
                expected: shape.context_window,
                actual: ctx_len,
            },
        )
    } else if cand_len != shape.candidate_pool {
        Some(
            AutosuggestScorerHandoffError::InvalidBuffer {
                field: "candidate_ids",
                expected: shape.candidate_pool,
                actual: cand_len,
            },
        )
    } else {
        None
    }
}

pub fn require_buffer(field: &'static str, expected: usize, actual: usize) -> (r: Result<(), AutosuggestScorerHandoffError>)
    ensures
        expected == actual ==> r is Ok,
        expected != actual ==> r == Err::<(), AutosuggestScorerHandoffError>(
            AutosuggestScorerHandoffError::InvalidBuffer { field, expected, actual },
        ),
{
    if actual != expected {
        return Err(AutosuggestScorerHandoffError::InvalidBuffer { field, expected, actual });
    }
    Ok(())
}

impl AutosuggestScorerShape {
    /// Scorer inputs for `context`: the scorer context ids (see
    /// [`spec_scorer_ids`]), the model's candidate pool of
    /// `candidate_pool` and its ids padded to the candidate buffer.
    pub fn u32_inputs_for_context_into(
        &self,
        lm: &AutosuggestLm,
        context: AutosuggestContext,
        context_ids: &mut [u32],
        candidate_ids: &mut [u32],
        candidates: &mut Vec<AutosuggestCandidateId>,
    ) -> (r: Result<AutosuggestRerankInputMetadata, AutosuggestScorerHandoffError>)
        ensures
            final(context_ids)@.len() == old(context_ids)@.len(),
            final(candidate_ids)@.len() == old(candidate_ids)@.len(),
            match shape_error(*self, old(context_ids)@.len() as usize, old(candidate_ids)@.len() as usize) {
                Some(e) => r == Err::<AutosuggestRerankInputMetadata, AutosuggestScorerHandoffError>(e)
                    && final(context_ids)@ == old(context_ids)@ && final(candidate_ids)@ == old(candidate_ids)@
                    && final(candidates)@ == old(candidates)@,
                None => match spec_scorer_ids(lm@, context@, old(context_ids)@.len() as int) {
                    Err(e) => r == Err::<AutosuggestRerankInputMetadata, AutosuggestScorerHandoffError>(
                        AutosuggestScorerHandoffError::Artifact(e),
                    ) && final(context_ids)@ == filled(AUTOSUGGEST_PAD_ID, old(context_ids)@.len() as int),
                    Ok((k, s)) => final(context_ids)@ == s && match lm@.suggest_for(
                        context@,
                        limit_of(AutosuggestOptions { max_candidates: self.candidate_pool }),
                    ) {
                        Ok(o) => {
                            let n = if o.len() < old(candidate_ids)@.len() {
                                o.len() as int
                            } else {
                                old(candidate_ids)@.len() as int
                            };
                            &&& final(candidates)@ == o
                            &&& (forall|i: int| 0 <= i < n ==> #[trigger] final(candidate_ids)@[i] == o[i].token_id)
                            &&& (forall|i: int|
                                n <= i < final(candidate_ids)@.len() ==> #[trigger] final(candidate_ids)@[i] == AUTOSUGGEST_PAD_ID)
                            &&& r == Ok::<AutosuggestRerankInputMetadata, AutosuggestScorerHandoffError>(
                                AutosuggestRerankInputMetadata {
                                    context_token_count: context@.count as usize,
                                    matched_context_token_count: lm@.matched_count(context@) as usize,
                                    scorer_context_token_count: k as usize,
                                    candidate_count: o.len() as usize,
                                },
                            )
                        },
                        Err((o, e)) => final(candidates)@ == o && r == Err::<
                            AutosuggestRerankInputMetadata,
                            AutosuggestScorerHandoffError,
                        >(AutosuggestScorerHandoffError::Artifact(e)),
                    },
                },
            },
    {
        match require_buffer("context_ids", self.context_window, context_ids.len()) {
            Ok(()) => {},
            Err(e) => return Err(e),
        }
        match require_buffer("candidate_ids", self.candidate_pool, candidate_ids.len()) {
            Ok(()) => {},
            Err(e) => return Err(e),
        }
        let k = match lm.scorer_context_ids_for_context_into(context, context_ids) {
            Ok(k) => k,
            Err(e) => return Err(AutosuggestScorerHandoffError::Artifact(e)),
        };
        let metadata = match lm.suggest_ids_for_context_into(
            context,
            AutosuggestOptions { max_candidates: self.candidate_pool },
            candidates,
        ) {
            Ok(m) => m,
            Err(e) => return Err(AutosuggestScorerHandoffError::Artifact(e)),
        };
        scorer_candidate_ids_for_candidates_into(candidates.as_slice(), candidate_ids);
        Ok(
            AutosuggestRerankInputMetadata {
                context_token_count: metadata.context_token_count,
                matched_context_token_count: metadata.matched_context_token_count,
                scorer_context_token_count: k,
                candidate_count: candidates.len(),
            },
        )
    }

    /// The `int32` variant of [`Self::u32_inputs_for_context_into`]: an id
    /// that does not fit in `i32`, in the context or among the candidates,
    /// is an error.
    pub fn coreml_inputs_for_context_into(
        &self,
        lm: &AutosuggestLm,
        context: AutosuggestContext,
        context_ids: &mut [i32],
        candidate_ids: &mut [i32],
        candidates: &mut Vec<AutosuggestCandidateId>,
    ) -> (r: Result<AutosuggestRerankInputMetadata, AutosuggestScorerHandoffError>)
        ensures
            final(context_ids)@.len() == old(context_ids)@.len(),
            final(candidate_ids)@.len() == old(candidate_ids)@.len(),
            match shape_error(*self, old(context_ids)@.len() as usize, old(candidate_ids)@.len() as usize) {
                Some(e) => r == Err::<AutosuggestRerankInputMetadata, AutosuggestScorerHandoffError>(e)
                    && final(context_ids)@ == old(context_ids)@ && final(candidate_ids)@ == old(candidate_ids)@
                    && final(candidates)@ == old(candidates)@,
                None => match spec_scorer_ids(lm@, context@, old(context_ids)@.len() as int) {
                    Err(e) => r == Err::<AutosuggestRerankInputMetadata, AutosuggestScorerHandoffError>(
                        AutosuggestScorerHandoffError::Artifact(e),
                    ) && final(context_ids)@ == filled(AUTOSUGGEST_PAD_I32, old(context_ids)@.len() as int),
                    Ok((k, s)) => if exists|i: int| 0 <= i < s.len() && s[i] > i32::MAX {
                        r matches Err(AutosuggestScorerHandoffError::Artifact(e)) && exists|i: int|
                            0 <= i < s.len() && s[i] > i32::MAX && (forall|j: int| 0 <= j < i ==> s[j] <= i32::MAX) && e
                                == AutosuggestArtifactError::InvalidTokenId(s[i])
                    } else {
                        &&& (forall|i: int| 0 <= i < s.len() ==> #[trigger] final(context_ids)@[i] == s[i] as i32)
                        &&& match lm@.suggest_for(context@, limit_of(AutosuggestOptions { max_candidates: self.candidate_pool })) {
                            Ok(o) => {
                                let n = if o.len() < old(candidate_ids)@.len() {
                                    o.len() as int
                                } else {
                                    old(candidate_ids)@.len() as int
                                };
                                &&& final(candidates)@ == o
                                &&& (fit_prefix(o, n) ==> r == Ok::<AutosuggestRerankInputMetadata, AutosuggestScorerHandoffError>(
                                    AutosuggestRerankInputMetadata {
                                        context_token_count: context@.count as usize,
                                        matched_context_token_count: lm@.matched_count(context@) as usize,
                                        scorer_context_token_count: k as usize,
                                        candidate_count: o.len() as usize,
                                    },
                                ) && i32_prefix(final(candidate_ids)@, o, n) && i32_pad_from(final(candidate_ids)@, n))
                                &&& (!fit_prefix(o, n) ==> (r matches Err(AutosuggestScorerHandoffError::Artifact(e))
                                    && exists|q: int|
                                    0 <= q < n && o[q].token_id > i32::MAX && fit_prefix(o, q) && e
                                        == AutosuggestArtifactError::InvalidTokenId(o[q].token_id)))
                            },
                            Err((o, e)) => final(candidates)@ == o && r == Err::<
                                AutosuggestRerankInputMetadata,
                                AutosuggestScorerHandoffError,
                            >(AutosuggestScorerHandoffError::Artifact(e)),
                        }
                    },
                },
            },
    {
        match require_buffer("context_ids", self.context_window, context_ids.len()) {
            Ok(()) => {},
            Err(e) => return Err(e),
        }
        match require_buffer("candidate_ids", self.candidate_pool, candidate_ids.len()) {
            Ok(()) => {},
            Err(e) => return Err(e),
        }
        let k = match lm.scorer_context_i32s_for_context_into(context, context_ids) {
            Ok(k) => k,
            Err(e) => return Err(AutosuggestScorerHandoffError::Artifact(e)),
        };
        let metadata = match lm.suggest_ids_for_context_into(
            context,
            AutosuggestOptions { max_candidates: self.candidate_pool },
            candidates,
        ) {
            Ok(m) => m,
            Err(e) => return Err(AutosuggestScorerHandoffError::Artifact(e)),
        };
        match scorer_candidate_i32s_for_candidates_into(candidates.as_slice(), candidate_ids) {
            Ok(_) => {},
            Err(e) => return Err(AutosuggestScorerHandoffError::Artifact(e)),
        }
        Ok(
            AutosuggestRerankInputMetadata {
                context_token_count: metadata.context_token_count,
                matched_context_token_count: metadata.matched_context_token_count,
                scorer_context_token_count: k,
                candidate_count: candidates.len(),
            },
        )
    }
}

} // verus!
