//! Blending personal and model candidates, with a guard that demotes a
//! candidate which would repeat a recent phrase.

use vstd::prelude::*;
use vstd::string::StringSliceAdditionalSpecFns;
use crate::artifact::AutosuggestArtifactError;
use crate::candidate::{
    contains_id, id_of, AutosuggestCandidate, AutosuggestCandidateId, AutosuggestOptions,
    AutosuggestSource,
};
use crate::context::{AutosuggestContext, ContextView, AUTOSUGGEST_UNK_ID};
use crate::lm::{
    limit_of, materialized, text_error, AutosuggestLm, AutosuggestMetadata, AutosuggestResult, LmView,
};
use crate::personal::PersonalAutosuggest;
use crate::personal_context::{PersonalAutosuggestContext, PersonalContextView, personal_of_static};
use crate::personal_query::{collect_ids_keys, query_keys};
use crate::personal_types::{ctx_ids, PersonalAutosuggestSuggestion};

verus! {

pub const SESSION_REPETITION_GUARD_MIN_NGRAM: usize = 3;
pub const SESSION_REPETITION_GUARD_MAX_POOL: usize = 64;
pub const SESSION_REPETITION_HISTORY_TOKENS: usize = 256;

pub open spec fn spec_pool_limit(limit: int) -> int {
    let l = if limit < 1 {
        1
    } else {
        limit
    };
    let m = if l * 4 > usize::MAX {
        usize::MAX as int
    } else {
        l * 4
    };
    let c = if m < SESSION_REPETITION_GUARD_MAX_POOL {
        m
    } else {
        SESSION_REPETITION_GUARD_MAX_POOL as int
    };
    if c < l {
        l
    } else {
        c
    }
}

/// How many candidates each source contributes before the repetition guard
/// picks: four times the limit, capped at 64, never below the limit.
pub fn session_repetition_guard_pool_limit(limit: usize) -> (n: usize)
    ensures
        n == spec_pool_limit(limit as int),
{
    let l = if limit < 1 {
        1
    } else {
        limit
    };
    let m = if l > usize::MAX / 4 {
        usize::MAX
    } else {
        l * 4
    };
    let c = if m < SESSION_REPETITION_GUARD_MAX_POOL {
        m
    } else {
        SESSION_REPETITION_GUARD_MAX_POOL
    };
    if c < l {
        l
    } else {
        c
    }
}

/// The `order - 1` newest ids followed by `cand` already occurred as an
/// n-gram of `ctx`.
pub open spec fn repeats_of_order(ctx: Seq<u32>, cand: u32, order: int) -> bool {
    &&& order >= 2
    &&& ctx.len() + 1 >= order
    &&& exists|i: int|
        0 <= i && i + order <= ctx.len() && #[trigger] ctx.subrange(i, i + order - 1) == ctx.subrange(
            ctx.len() - (order - 1),
            ctx.len() as int,
        ) && ctx[i + order - 1] == cand
}

/// Suggesting `cand` would repeat a recent trigram or fourgram.
pub open spec fn repeats_recent_ngram(ctx: Seq<u32>, cand: u32) -> bool {
    let max_order = if ctx.len() + 1 < 4 {
        ctx.len() + 1
    } else {
        4
    };
    (max_order >= 4 && repeats_of_order(ctx, cand, 4)) || (max_order >= 3 && repeats_of_order(ctx, cand, 3))
}

fn same_run(ctx: &[u32], a: usize, b: usize, n: usize) -> (r: bool)
    requires
        a + n <= ctx@.len(),
        b + n <= ctx@.len(),
    ensures
        r == (ctx@.subrange(a as int, a + n) == ctx@.subrange(b as int, b + n)),
{
    let l = ctx.len();
    let mut k: usize = 0;
    while k < n
        invariant
            k <= n,
            l == ctx@.len(),
            a + n <= ctx@.len(),
            b + n <= ctx@.len(),
            ctx@.subrange(a as int, a + k) == ctx@.subrange(b as int, b + k),
        decreases n - k,
    {
        if ctx[a + k] != ctx[b + k] {
            assert(ctx@.subrange(a as int, a + n)[k as int] != ctx@.subrange(b as int, b + n)[k as int]);
            return false;
        }
        assert(ctx@.subrange(a as int, a + k + 1) =~= ctx@.subrange(a as int, a + k).push(ctx@[a + k]));
        assert(ctx@.subrange(b as int, b + k + 1) =~= ctx@.subrange(b as int, b + k).push(ctx@[b + k]));
        k = k + 1;
    }
    true
}

fn repeats_of_order_exec(ctx: &[u32], cand: u32, order: usize) -> (r: bool)
    requires
        order <= 4,
    ensures
        r == repeats_of_order(ctx@, cand, order as int),
{
    let len = ctx.len();
    if order < 2 || len < order - 1 {
        return false;
    }
    if len < order {
        proof {
            assert forall|i: int| !(0 <= i && i + order <= ctx@.len() && #[trigger] ctx@.subrange(i, i + order - 1)
                == ctx@.subrange(ctx@.len() - (order - 1), ctx@.len() as int) && ctx@[i + order - 1] == cand) by {}
        }
        return false;
    }
    let prefix = order - 1;
    let mut i: usize = 0;
    while i <= len - order
        invariant
            len == ctx@.len(),
            2 <= order <= 4,
            order <= len,
            prefix == order - 1,
            forall|j: int|
                0 <= j < i ==> !(j + order <= ctx@.len() && #[trigger] ctx@.subrange(j, j + order - 1) == ctx@.subrange(
                    ctx@.len() - (order - 1),
                    ctx@.len() as int,
                ) && ctx@[j + order - 1] == cand),
        decreases len - i,
    {
        if same_run(ctx, i, len - prefix, prefix) && ctx[i + prefix] == cand {
            assert(ctx@.subrange(i as int, i + order - 1) == ctx@.subrange(
                ctx@.len() - (order - 1),
                ctx@.len() as int,
            ));
            return true;
        }
        i = i + 1;
    }
    proof {
        assert forall|j: int| !(0 <= j && j + order <= ctx@.len() && #[trigger] ctx@.subrange(j, j + order - 1)
            == ctx@.subrange(ctx@.len() - (order - 1), ctx@.len() as int) && ctx@[j + order - 1] == cand) by {
            if 0 <= j && j + order <= ctx@.len() {
                assert(j < i);
            }
        }
    }
    false
}

/// Whether suggesting `candidate_id` would repeat a recent trigram or
/// fourgram of the context ids.
pub fn candidate_repeats_recent_ngram(context_ids: &[u32], candidate_id: u32) -> (r: bool)
    requires
        context_ids@.len() < usize::MAX,
    ensures
        r == repeats_recent_ngram(context_ids@, candidate_id),
{
    let max_order = if context_ids.len() + 1 < 4 {
        context_ids.len() + 1
    } else {
        4
    };
    let mut order = max_order;
    while order >= SESSION_REPETITION_GUARD_MIN_NGRAM
        invariant
            order <= max_order <= 4,
            max_order == (if context_ids@.len() + 1 < 4 { context_ids@.len() + 1 } else { 4 }),
            forall|o: int| order < o <= max_order && o >= 3 ==> !repeats_of_order(context_ids@, candidate_id, o),
        decreases order,
    {
        if repeats_of_order_exec(context_ids, candidate_id, order) {
            return true;
        }
        order = order - 1;
    }
    false
}

pub open spec fn personal_candidate(s: PersonalAutosuggestSuggestion) -> AutosuggestCandidateId {
    AutosuggestCandidateId {
        token_id: s.token_id,
        source: AutosuggestSource::Personal,
        count: s.count as u32,
        score: s.score,
    }
}

/// The personal candidates of `p`: all of them (`mode` 0), those with a
/// context (1), or the context-free ones (2), in order.
pub open spec fn personal_ids(p: Seq<PersonalAutosuggestSuggestion>, mode: int) -> Seq<AutosuggestCandidateId>
    decreases p.len(),
{
    if p.len() == 0 {
        Seq::empty()
    } else {
        let rest = personal_ids(p.drop_last(), mode);
        let s = p.last();
        if mode == 0 || (mode == 1 && s.context_len > 0) || (mode == 2 && s.context_len == 0) {
            rest.push(personal_candidate(s))
        } else {
            rest
        }
    }
}

/// The order candidates are considered in: personal ones (only those with a
/// context when the query has one), the model's, then the context-free
/// personal ones.
pub open spec fn merge_order(
    personal: Seq<PersonalAutosuggestSuggestion>,
    model: Seq<AutosuggestCandidateId>,
    has_context: bool,
) -> Seq<AutosuggestCandidateId> {
    if has_context {
        personal_ids(personal, 1) + model + personal_ids(personal, 2)
    } else {
        personal_ids(personal, 0) + model
    }
}

pub open spec fn has_id(out: Seq<AutosuggestCandidateId>, id: u32) -> bool {
    exists|j: int| 0 <= j < out.len() && (#[trigger] out[j]).token_id == id
}

/// One pass over the candidates: a candidate whose repetition status equals
/// `admit_repeated` and whose id is new is appended, until `limit`.
pub open spec fn merge_pass(
    cands: Seq<AutosuggestCandidateId>,
    i: int,
    ctx: Seq<u32>,
    admit_repeated: bool,
    limit: int,
    out: Seq<AutosuggestCandidateId>,
) -> Seq<AutosuggestCandidateId>
    decreases cands.len() - i,
{
    if i >= cands.len() || i < 0 || out.len() >= limit {
        out
    } else {
        let c = cands[i];
        merge_pass(
            cands,
            i + 1,
            ctx,
            admit_repeated,
            limit,
            if repeats_recent_ngram(ctx, c.token_id) == admit_repeated && !has_id(out, c.token_id) {
                out.push(c)
            } else {
                out
            },
        )
    }
}

/// The blended list: candidates that repeat no recent phrase first, then
/// the repeating ones, each pass in [`merge_order`], at most `limit`.
pub open spec fn merged(
    personal: Seq<PersonalAutosuggestSuggestion>,
    model: Seq<AutosuggestCandidateId>,
    has_context: bool,
    ctx: Seq<u32>,
    limit: int,
) -> Seq<AutosuggestCandidateId> {
    let cands = merge_order(personal, model, has_context);
    merge_pass(cands, 0, ctx, true, limit, merge_pass(cands, 0, ctx, false, limit, Seq::empty()))
}

fn push_personal_ids(p: &Vec<PersonalAutosuggestSuggestion>, mode: u8, out: &mut Vec<AutosuggestCandidateId>)
    ensures
        final(out)@ == old(out)@ + personal_ids(p@, mode as int),
{
    let mut i: usize = 0;
    assert(personal_ids(p@.take(0), mode as int) =~= Seq::<AutosuggestCandidateId>::empty());
    assert(old(out)@ + Seq::<AutosuggestCandidateId>::empty() =~= old(out)@);
    while i < p.len()
        invariant
            i <= p@.len(),
            out@ == old(out)@ + personal_ids(p@.take(i as int), mode as int),
        decreases p@.len() - i,
    {
        let s = p[i];
        proof {
            assert(p@.take(i as int + 1).drop_last() =~= p@.take(i as int));
            assert(p@.take(i as int + 1).last() == s);
        }
        if mode == 0 || (mode == 1 && s.context_len > 0) || (mode == 2 && s.context_len == 0) {
            out.push(
                AutosuggestCandidateId {
                    token_id: s.token_id,
                    source: AutosuggestSource::Personal,
                    count: s.count as u32,
                    score: s.score,
                },
            );
        }
        assert(out@ =~= old(out)@ + personal_ids(p@.take(i as int + 1), mode as int));
        i = i + 1;
    }
    assert(p@.take(p@.len() as int) =~= p@);
}

fn merge_pass_exec(
    cands: &Vec<AutosuggestCandidateId>,
    ctx: &[u32],
    admit_repeated: bool,
    limit: usize,
    out: &mut Vec<AutosuggestCandidateId>,
)
    requires
        ctx@.len() < usize::MAX,
    ensures
        final(out)@ == merge_pass(cands@, 0, ctx@, admit_repeated, limit as int, old(out)@),
{
    let mut i: usize = 0;
    while i < cands.len() && out.len() < limit
        invariant
            i <= cands@.len(),
            ctx@.len() < usize::MAX,
            merge_pass(cands@, i as int, ctx@, admit_repeated, limit as int, out@) == merge_pass(
                cands@,
                0,
                ctx@,
                admit_repeated,
                limit as int,
                old(out)@,
            ),
        decreases cands@.len() - i,
    {
        let c = cands[i];
        if candidate_repeats_recent_ngram(ctx, c.token_id) == admit_repeated && !contains_id(out, c.token_id) {
            out.push(c);
        }
        i = i + 1;
    }
}

/// Blends into `output` (cleared first); see [`merged`].
fn merge_into(
    personal: &Vec<PersonalAutosuggestSuggestion>,
    model: &Vec<AutosuggestCandidateId>,
    has_context: bool,
    ctx: &[u32],
    limit: usize,
    output: &mut Vec<AutosuggestCandidateId>,
)
    requires
        ctx@.len() < usize::MAX,
    ensures
        final(output)@ == merged(personal@, model@, has_context, ctx@, limit as int),
{
    let mut cands: Vec<AutosuggestCandidateId> = Vec::new();
    if has_context {
        push_personal_ids(personal, 1, &mut cands);
        push_model(model, &mut cands);
        push_personal_ids(personal, 2, &mut cands);
    } else {
        push_personal_ids(personal, 0, &mut cands);
        push_model(model, &mut cands);
    }
    assert(cands@ =~= merge_order(personal@, model@, has_context));
    output.clear();
    merge_pass_exec(&cands, ctx, false, limit, output);
    merge_pass_exec(&cands, ctx, true, limit, output);
}

fn push_model(model: &Vec<AutosuggestCandidateId>, out: &mut Vec<AutosuggestCandidateId>)
    ensures
        final(out)@ == old(out)@ + model@,
{
    let mut i: usize = 0;
    while i < model.len()
        invariant
            i <= model@.len(),
            out@ == old(out)@ + model@.take(i as int),
        decreases model@.len() - i,
    {
        out.push(model[i]);
        assert(out@ =~= old(out)@ + model@.take(i as int + 1));
        i = i + 1;
    }
    assert(model@.take(model@.len() as int) =~= model@);
}

/// The query has a specific personal context: a sentence start or recent ids.
pub open spec fn has_specific_context(p: PersonalContextView) -> bool {
    p.is_sentence_start() || ctx_ids(p.ctx).len() > 0
}

/// The personal suggestions a blended query draws from.
pub open spec fn personal_pool(
    v: crate::personal::PersonalView,
    p: PersonalContextView,
    pool: int,
) -> Seq<PersonalAutosuggestSuggestion> {
    collect_ids_keys(v.entries, v.unigram_cache, query_keys(p), 0, pool, v.config.min_count, Seq::empty())
}

/// What a blended id query returns: the model's error, or the blend of the
/// personal pool and the model's pool (both of [`spec_pool_limit`] size)
/// with its metadata.
pub open spec fn blended_ids(
    v: crate::personal::PersonalView,
    lm: LmView,
    c: ContextView,
    p: PersonalContextView,
    rep: Seq<u32>,
    limit: int,
) -> Result<(Seq<AutosuggestCandidateId>, AutosuggestMetadata), AutosuggestArtifactError> {
    let pool = spec_pool_limit(limit);
    let l = if limit < 1 {
        1
    } else {
        limit
    };
    match lm.suggest_for(c, pool) {
        Err((o, e)) => Err(e),
        Ok(o) => Ok(
            (
                merged(personal_pool(v, p, pool), o, has_specific_context(p), rep, l),
                AutosuggestMetadata {
                    context_token_count: c.count as usize,
                    matched_context_token_count: lm.matched_count(c) as usize,
                },
            ),
        ),
    }
}

/// Some candidate of `ids` has no readable text.
pub open spec fn some_text_fails(lm: LmView, ids: Seq<AutosuggestCandidateId>) -> bool {
    exists|i: int| 0 <= i < ids.len() && (#[trigger] lm.token_text(ids[i].token_id)) is Err
}

/// The outcome of a blended text query, as stated by
/// [`PersonalAutosuggest::suggest_with_lm_for_personal_context_into`]: the
/// model's text pool is read as its candidates enter it, so the first
/// unreadable text among them is the error (see
/// [`LmView::suggest_for_trace`](crate::lm::LmView::suggest_for_trace));
/// otherwise the model query's error, or the blended ids with their texts,
/// the first unreadable one being the error.
pub open spec fn blend_outcome(
    p: crate::personal::PersonalView,
    lm: LmView,
    c: ContextView,
    pc: PersonalContextView,
    rep: Seq<u32>,
    max_candidates: int,
    r: Result<AutosuggestMetadata, AutosuggestArtifactError>,
    out: Seq<AutosuggestCandidate>,
) -> bool {
    let pool = spec_pool_limit(max_candidates);
    let t = lm.suggest_for_trace(c, pool);
    if some_text_fails(lm, t) {
        r matches Err(e) && text_error(lm, t, e)
    } else {
        match lm.suggest_for(c, pool) {
            Err((o, e)) => r == Err::<AutosuggestMetadata, AutosuggestArtifactError>(e),
            Ok(o) => match blended_ids(p, lm, c, pc, rep, max_candidates) {
                Ok((ids, meta)) => {
                    &&& r is Ok <==> !some_text_fails(lm, ids)
                    &&& r is Ok ==> r == Ok::<AutosuggestMetadata, AutosuggestArtifactError>(meta) && materialized(
                        lm,
                        ids,
                        out,
                    )
                    &&& r matches Err(e) ==> text_error(lm, ids, e)
                },
                Err(e) => false,
            },
        }
    }
}

/// The model's text pool a blended text query leaves behind: the model's
/// candidates with their texts when the query reads them all, and nothing
/// otherwise.
pub open spec fn model_pool_outcome(lm: LmView, c: ContextView, pool: int, out: Seq<AutosuggestCandidate>) -> bool {
    if some_text_fails(lm, lm.suggest_for_trace(c, pool)) {
        out.len() == 0
    } else {
        match lm.suggest_for(c, pool) {
            Ok(o) => materialized(lm, o, out),
            Err(_) => out.len() == 0,
        }
    }
}

fn materialize_all<'a>(
    lm: &'a AutosuggestLm,
    ids: &Vec<AutosuggestCandidateId>,
    output: &mut Vec<AutosuggestCandidate<'a>>,
) -> (r: Result<(), AutosuggestArtifactError>)
    ensures
        r is Ok <==> !some_text_fails(lm@, ids@),
        r is Ok ==> materialized(lm@, ids@, final(output)@),
        r matches Err(e) ==> text_error(lm@, ids@, e),
{
    output.clear();
    let mut i: usize = 0;
    while i < ids.len()
        invariant
            i <= ids@.len(),
            output@.len() == i,
            forall|j: int|
                0 <= j < i ==> id_of(#[trigger] output@[j]) == ids@[j] && lm@.token_text(ids@[j].token_id)
                    == Ok::<Seq<u8>, AutosuggestArtifactError>(output@[j].text.spec_bytes()),
        decreases ids@.len() - i,
    {
        let c = match lm.materialize_candidate(ids[i]) {
            Ok(c) => c,
            Err(e) => {
                proof {
                    assert forall|j: int| 0 <= j < i implies #[trigger] lm@.token_text(ids@[j].token_id) is Ok by {
                        assert(id_of(output@[j]) == ids@[j]);
                    }
                    assert(crate::lm::first_text_error(lm@, ids@, i as int, e));
                    assert(lm@.token_text(ids@[i as int].token_id) is Err);
                }
                return Err(e);
            },
        };
        output.push(c);
        i = i + 1;
    }
    proof {
        assert forall|j: int| 0 <= j < ids@.len() implies !(#[trigger] lm@.token_text(ids@[j].token_id) is Err) by {
            assert(id_of(output@[j]) == ids@[j]);
        }
    }
    Ok(())
}

impl PersonalAutosuggest {
    /// Blended candidate ids for a static context and a personal context:
    /// see [`blended_ids`]; `repetition_context_ids` are the recent ids the
    /// repetition guard looks at. Output buffers are cleared and reused.
    pub fn suggest_ids_with_lm_for_personal_context_into(
        &self,
        lm: &AutosuggestLm,
        context: AutosuggestContext,
        personal_context: PersonalAutosuggestContext,
        repetition_context_ids: &[u32],
        options: AutosuggestOptions,
        personal_scratch: &mut Vec<PersonalAutosuggestSuggestion>,
        model_scratch: &mut Vec<AutosuggestCandidateId>,
        output: &mut Vec<AutosuggestCandidateId>,
    ) -> (r: Result<AutosuggestMetadata, AutosuggestArtifactError>)
        requires
            self.wf(),
            repetition_context_ids@.len() < usize::MAX,
        ensures
            match blended_ids(self@, lm@, context@, personal_context@, repetition_context_ids@, options.max_candidates as int) {
                Ok((ids, meta)) => r == Ok::<AutosuggestMetadata, AutosuggestArtifactError>(meta) && final(output)@ == ids,
                Err(e) => r == Err::<AutosuggestMetadata, AutosuggestArtifactError>(e),
            },
            final(personal_scratch)@ == personal_pool(
                self@,
                personal_context@,
                spec_pool_limit(options.max_candidates as int),
            ),
            final(model_scratch)@ == match lm@.suggest_for(context@, spec_pool_limit(options.max_candidates as int)) {
                Ok(o) => o,
                Err((o, e)) => o,
            },
    {
        output.clear();
        let limit = if options.max_candidates < 1 {
            1
        } else {
            options.max_candidates
        };
        let pool = session_repetition_guard_pool_limit(limit);
        assert(spec_pool_limit(limit as int) == spec_pool_limit(options.max_candidates as int));
        self.suggest_token_ids_for_personal_context_into(personal_context, pool, personal_scratch);
        let has_context = personal_context.is_sentence_start() || personal_context.recent_context_ids().len() > 0;
        let metadata = match lm.suggest_ids_for_context_into(context, AutosuggestOptions { max_candidates: pool }, model_scratch) {
            Ok(m) => m,
            Err(e) => return Err(e),
        };
        merge_into(personal_scratch, model_scratch, has_context, repetition_context_ids, limit, output);
        Ok(metadata)
    }

    /// [`Self::suggest_ids_with_lm_for_personal_context_into`] for a static
    /// context alone (its personal mirror and recent ids).
    pub fn suggest_ids_with_lm_into(
        &self,
        lm: &AutosuggestLm,
        context: AutosuggestContext,
        options: AutosuggestOptions,
        personal_scratch: &mut Vec<PersonalAutosuggestSuggestion>,
        model_scratch: &mut Vec<AutosuggestCandidateId>,
        output: &mut Vec<AutosuggestCandidateId>,
    ) -> (r: Result<AutosuggestMetadata, AutosuggestArtifactError>)
        requires
            self.wf(),
        ensures
            match blended_ids(self@, lm@, context@, personal_of_static(context@), context@.recent, options.max_candidates as int) {
                Ok((ids, meta)) => r == Ok::<AutosuggestMetadata, AutosuggestArtifactError>(meta) && final(output)@ == ids,
                Err(e) => r == Err::<AutosuggestMetadata, AutosuggestArtifactError>(e),
            },
    {
        let ids = context.recent_token_ids();
        self.suggest_ids_with_lm_for_personal_context_into(
            lm,
            context,
            PersonalAutosuggestContext::from_static(context),
            ids,
            options,
            personal_scratch,
            model_scratch,
            output,
        )
    }

    /// Blended text candidates: the model's text pool must be readable, and
    /// the blended ids (as [`Self::suggest_ids_with_lm_for_personal_context_into`])
    /// come with their texts; a candidate without readable text is an error.
    pub fn suggest_with_lm_for_personal_context_into<'a>(
        &self,
        lm: &'a AutosuggestLm,
        context: AutosuggestContext,
        personal_context: PersonalAutosuggestContext,
        repetition_context_ids: &[u32],
        options: AutosuggestOptions,
        personal_scratch: &mut Vec<PersonalAutosuggestSuggestion>,
        model_scratch: &mut Vec<AutosuggestCandidate<'a>>,
        output: &mut Vec<AutosuggestCandidate<'a>>,
    ) -> (r: Result<AutosuggestMetadata, AutosuggestArtifactError>)
        requires
            self.wf(),
            repetition_context_ids@.len() < usize::MAX,
        ensures
            blend_outcome(
                self@,
                lm@,
                context@,
                personal_context@,
                repetition_context_ids@,
                options.max_candidates as int,
                r,
                final(output)@,
            ),
            final(personal_scratch)@ == personal_pool(
                self@,
                personal_context@,
                spec_pool_limit(options.max_candidates as int),
            ),
            model_pool_outcome(lm@, context@, spec_pool_limit(options.max_candidates as int), final(model_scratch)@),
    {
        output.clear();
        let limit = if options.max_candidates < 1 {
            1
        } else {
            options.max_candidates
        };
        let pool = session_repetition_guard_pool_limit(limit);
        assert(spec_pool_limit(limit as int) == spec_pool_limit(options.max_candidates as int));
        self.suggest_token_ids_for_personal_context_into(personal_context, pool, personal_scratch);
        let metadata = match lm.suggest_for_context_into(context, AutosuggestOptions { max_candidates: pool }, model_scratch) {
            Ok(m) => m,
            Err(e) => return Err(e),
        };
        let ghost o = lm@.suggest_for(context@, pool as int)->Ok_0;
        let mut model_ids: Vec<AutosuggestCandidateId> = Vec::new();
        let mut i: usize = 0;
        while i < model_scratch.len()
            invariant
                i <= model_scratch@.len(),
                model_ids@.len() == i,
                materialized(lm@, o, model_scratch@),
                forall|j: int| 0 <= j < i ==> model_ids@[j] == o[j],
            decreases model_scratch@.len() - i,
        {
            let c = &model_scratch[i];
            model_ids.push(AutosuggestCandidateId { token_id: c.token_id, source: c.source, count: c.count, score: c.score });
            i = i + 1;
        }
        assert(model_ids@ =~= o);
        proof {
            assert forall|j: int| 0 <= j < o.len() implies !(#[trigger] lm@.token_text(o[j].token_id) is Err) by {
                assert(id_of(model_scratch@[j]) == o[j]);
            }
        }
        let has_context = personal_context.is_sentence_start() || personal_context.recent_context_ids().len() > 0;
        let mut ids: Vec<AutosuggestCandidateId> = Vec::new();
        merge_into(personal_scratch, &model_ids, has_context, repetition_context_ids, limit, &mut ids);
        match materialize_all(lm, &ids, output) {
            Ok(()) => Ok(metadata),
            Err(e) => Err(e),
        }
    }

    /// [`Self::suggest_with_lm_for_personal_context_into`] for a static
    /// context alone.
    pub fn suggest_with_lm_into<'a>(
        &self,
        lm: &'a AutosuggestLm,
        context: AutosuggestContext,
        options: AutosuggestOptions,
        personal_scratch: &mut Vec<PersonalAutosuggestSuggestion>,
        model_scratch: &mut Vec<AutosuggestCandidate<'a>>,
        output: &mut Vec<AutosuggestCandidate<'a>>,
    ) -> (r: Result<AutosuggestMetadata, AutosuggestArtifactError>)
        requires
            self.wf(),
        ensures
            blend_outcome(
                self@,
                lm@,
                context@,
                personal_of_static(context@),
                context@.recent,
                options.max_candidates as int,
                r,
                final(output)@,
            ),
    {
        let ids = context.recent_token_ids();
        self.suggest_with_lm_for_personal_context_into(
            lm,
            context,
            PersonalAutosuggestContext::from_static(context),
            ids,
            options,
            personal_scratch,
            model_scratch,
            output,
        )
    }

    /// Blended text candidates for a static context, in fresh buffers.
    pub fn suggest_with_lm<'a>(
        &self,
        lm: &'a AutosuggestLm,
        context: AutosuggestContext,
        options: AutosuggestOptions,
    ) -> (r: Result<AutosuggestResult<'a>, AutosuggestArtifactError>)
        requires
            self.wf(),
        ensures
            match r {
                Ok(res) => blend_outcome(
                    self@,
                    lm@,
                    context@,
                    personal_of_static(context@),
                    context@.recent,
                    options.max_candidates as int,
                    Ok(
                        AutosuggestMetadata {
                            context_token_count: res.context_token_count,
                            matched_context_token_count: res.matched_context_token_count,
                        },
                    ),
                    res.candidates@,
                ),
                Err(e) => blend_outcome(
                    self@,
                    lm@,
                    context@,
                    personal_of_static(context@),
                    context@.recent,
                    options.max_candidates as int,
                    Err(e),
                    Seq::empty(),
                ),
            },
    {
        let mut personal: Vec<PersonalAutosuggestSuggestion> = Vec::new();
        let mut model: Vec<AutosuggestCandidate<'a>> = Vec::new();
        let mut candidates: Vec<AutosuggestCandidate<'a>> = Vec::new();
        match self.suggest_with_lm_into(lm, context, options, &mut personal, &mut model, &mut candidates) {
            Ok(m) => Ok(
                AutosuggestResult {
                    context_token_count: m.context_token_count,
                    matched_context_token_count: m.matched_context_token_count,
                    candidates,
                },
            ),
            Err(e) => Err(e),
        }
    }
}


/// At most `limit` candidates with distinct ids, each one of `cands`, and
/// no candidate that repeats the recent phrase ahead of one that does not.
pub open spec fn blend_ok(cands: Seq<AutosuggestCandidateId>, ctx: Seq<u32>, limit: int, out: Seq<AutosuggestCandidateId>) -> bool {
    &&& out.len() <= limit
    &&& forall|i: int, j: int| 0 <= i < j < out.len() ==> (#[trigger] out[i]).token_id != (#[trigger] out[j]).token_id
    &&& forall|i: int| 0 <= i < out.len() ==> cands.contains(#[trigger] out[i])
    &&& forall|i: int, j: int|
        0 <= i < j < out.len() && repeats_recent_ngram(ctx, (#[trigger] out[i]).token_id) ==> repeats_recent_ngram(
            ctx,
            (#[trigger] out[j]).token_id,
        )
}

proof fn lemma_merge_pass_ok(
    cands: Seq<AutosuggestCandidateId>,
    i: int,
    ctx: Seq<u32>,
    admit_repeated: bool,
    limit: int,
    out: Seq<AutosuggestCandidateId>,
)
    requires
        blend_ok(cands, ctx, limit, out),
        !admit_repeated ==> forall|k: int| 0 <= k < out.len() ==> !repeats_recent_ngram(ctx, (#[trigger] out[k]).token_id),
    ensures
        blend_ok(cands, ctx, limit, merge_pass(cands, i, ctx, admit_repeated, limit, out)),
        !admit_repeated ==> forall|k: int|
            0 <= k < merge_pass(cands, i, ctx, admit_repeated, limit, out).len() ==> !repeats_recent_ngram(
                ctx,
                (#[trigger] merge_pass(cands, i, ctx, admit_repeated, limit, out)[k]).token_id,
            ),
    decreases cands.len() - i,
{
    if i >= cands.len() || i < 0 || out.len() >= limit {
    } else {
        let c = cands[i];
        if repeats_recent_ngram(ctx, c.token_id) == admit_repeated && !has_id(out, c.token_id) {
            let o = out.push(c);
            assert forall|a: int, b: int| 0 <= a < b < o.len() implies (#[trigger] o[a]).token_id != (#[trigger] o[b]).token_id by {
                assert(o[a] == out[a]);
                if b < out.len() {
                    assert(o[b] == out[b]);
                }
            }
            assert forall|a: int| 0 <= a < o.len() implies cands.contains(#[trigger] o[a]) by {
                if a < out.len() {
                    assert(o[a] == out[a]);
                } else {
                    assert(o[a] == cands[i]);
                }
            }
            assert forall|a: int, b: int|
                0 <= a < b < o.len() && repeats_recent_ngram(ctx, (#[trigger] o[a]).token_id) implies repeats_recent_ngram(
                ctx,
                (#[trigger] o[b]).token_id,
            ) by {
                assert(o[a] == out[a]);
                if b < out.len() {
                    assert(o[b] == out[b]);
                } else if !admit_repeated {
                    assert(!repeats_recent_ngram(ctx, out[a].token_id));
                }
            }
            assert(!admit_repeated ==> forall|k: int| 0 <= k < o.len() ==> !repeats_recent_ngram(ctx, (#[trigger] o[k]).token_id)) by {
                if !admit_repeated {
                    assert forall|k: int| 0 <= k < o.len() implies !repeats_recent_ngram(ctx, (#[trigger] o[k]).token_id) by {
                        if k < out.len() {
                            assert(o[k] == out[k]);
                        }
                    }
                }
            }
            lemma_merge_pass_ok(cands, i + 1, ctx, admit_repeated, limit, o);
        } else {
            lemma_merge_pass_ok(cands, i + 1, ctx, admit_repeated, limit, out);
        }
    }
}

/// The blend holds at most `limit` candidates, never one id twice, each
/// taken from the personal or model candidates, with every candidate that
/// would repeat a recent phrase behind all those that would not.
pub proof fn lemma_merged_blend(
    personal: Seq<PersonalAutosuggestSuggestion>,
    model: Seq<AutosuggestCandidateId>,
    has_context: bool,
    ctx: Seq<u32>,
    limit: int,
)
    requires
        limit >= 0,
    ensures
        blend_ok(merge_order(personal, model, has_context), ctx, limit, merged(personal, model, has_context, ctx, limit)),
{
    let cands = merge_order(personal, model, has_context);
    let e = Seq::<AutosuggestCandidateId>::empty();
    lemma_merge_pass_ok(cands, 0, ctx, false, limit, e);
    lemma_merge_pass_ok(cands, 0, ctx, true, limit, merge_pass(cands, 0, ctx, false, limit, e));
}

proof fn lemma_merge_pass_complete(
    cands: Seq<AutosuggestCandidateId>,
    i: int,
    ctx: Seq<u32>,
    admit_repeated: bool,
    limit: int,
    out: Seq<AutosuggestCandidateId>,
)
    requires
        0 <= i,
    ensures
        merge_pass(cands, i, ctx, admit_repeated, limit, out).len() >= out.len(),
        forall|j: int| 0 <= j < out.len() ==> #[trigger] merge_pass(cands, i, ctx, admit_repeated, limit, out)[j] == out[j],
        merge_pass(cands, i, ctx, admit_repeated, limit, out).len() < limit ==> forall|k: int|
            i <= k < cands.len() && repeats_recent_ngram(ctx, (#[trigger] cands[k]).token_id) == admit_repeated ==> has_id(
                merge_pass(cands, i, ctx, admit_repeated, limit, out),
                cands[k].token_id,
            ),
    decreases cands.len() - i,
{
    if i >= cands.len() || out.len() >= limit {
    } else {
        let c = cands[i];
        let o = if repeats_recent_ngram(ctx, c.token_id) == admit_repeated && !has_id(out, c.token_id) {
            out.push(c)
        } else {
            out
        };
        lemma_merge_pass_complete(cands, i + 1, ctx, admit_repeated, limit, o);
        let r = merge_pass(cands, i + 1, ctx, admit_repeated, limit, o);
        assert(r == merge_pass(cands, i, ctx, admit_repeated, limit, out));
        assert forall|j: int| 0 <= j < out.len() implies #[trigger] r[j] == out[j] by {
            assert(r[j] == o[j]);
        }
        if r.len() < limit && repeats_recent_ngram(ctx, c.token_id) == admit_repeated {
            if has_id(out, c.token_id) {
                let j = choose|j: int| 0 <= j < out.len() && (#[trigger] out[j]).token_id == c.token_id;
                assert(r[j] == out[j]);
            } else {
                assert(r[out.len() as int] == o[out.len() as int]);
            }
            assert(has_id(r, c.token_id));
        }
    }
}

/// The blend stops short of `limit` only when it holds the id of every
/// personal and model candidate.
pub proof fn lemma_merged_complete(
    personal: Seq<PersonalAutosuggestSuggestion>,
    model: Seq<AutosuggestCandidateId>,
    has_context: bool,
    ctx: Seq<u32>,
    limit: int,
)
    ensures
        merged(personal, model, has_context, ctx, limit).len() < limit ==> forall|k: int|
            0 <= k < merge_order(personal, model, has_context).len() ==> has_id(
                merged(personal, model, has_context, ctx, limit),
                (#[trigger] merge_order(personal, model, has_context)[k]).token_id,
            ),
{
    let cands = merge_order(personal, model, has_context);
    let e = Seq::<AutosuggestCandidateId>::empty();
    let o1 = merge_pass(cands, 0, ctx, false, limit, e);
    let r = merge_pass(cands, 0, ctx, true, limit, o1);
    lemma_merge_pass_complete(cands, 0, ctx, false, limit, e);
    lemma_merge_pass_complete(cands, 0, ctx, true, limit, o1);
    if r.len() < limit {
        assert forall|k: int| 0 <= k < cands.len() implies has_id(r, (#[trigger] cands[k]).token_id) by {
            if !repeats_recent_ngram(ctx, cands[k].token_id) {
                assert(has_id(o1, cands[k].token_id));
                let j = choose|j: int| 0 <= j < o1.len() && (#[trigger] o1[j]).token_id == cands[k].token_id;
                assert(r[j] == o1[j]);
            }
        }
    }
}

/// The token ids of `s`, in order.
pub open spec fn token_ids(s: Seq<AutosuggestCandidateId>) -> Seq<u32> {
    s.map_values(|c: AutosuggestCandidateId| c.token_id)
}

/// The blend holds `min(limit, d)` candidates, where `d` is the number of
/// distinct ids among the personal and model candidates it draws from.
pub proof fn lemma_merged_length(
    personal: Seq<PersonalAutosuggestSuggestion>,
    model: Seq<AutosuggestCandidateId>,
    has_context: bool,
    ctx: Seq<u32>,
    limit: int,
)
    requires
        limit >= 0,
    ensures
        ({
            let d = token_ids(merge_order(personal, model, has_context)).to_set().len() as int;
            merged(personal, model, has_context, ctx, limit).len() == if limit < d {
                limit
            } else {
                d
            }
        }),
{
    broadcast use vstd::seq_lib::seq_to_set_is_finite;

    let cands = merge_order(personal, model, has_context);
    let out = merged(personal, model, has_context, ctx, limit);
    lemma_merged_blend(personal, model, has_context, ctx, limit);
    lemma_merged_complete(personal, model, has_context, ctx, limit);
    let io = token_ids(out);
    let ic = token_ids(cands);
    assert(io.no_duplicates()) by {
        assert forall|i: int, j: int| 0 <= i < io.len() && 0 <= j < io.len() && i != j implies io[i] != io[j] by {
            if i < j {
                assert(out[i].token_id != out[j].token_id);
            } else {
                assert(out[j].token_id != out[i].token_id);
            }
        }
    }
    io.unique_seq_to_set();
    assert(io.to_set().subset_of(ic.to_set())) by {
        assert forall|x: u32| io.to_set().contains(x) implies ic.to_set().contains(x) by {
            assert(io.contains(x));
            let i = choose|i: int| 0 <= i < io.len() && io[i] == x;
            assert(cands.contains(out[i]));
            let j = choose|j: int| 0 <= j < cands.len() && cands[j] == out[i];
            assert(ic[j] == x);
            assert(ic.contains(x));
        }
    }
    vstd::set_lib::lemma_len_subset(io.to_set(), ic.to_set());
    if out.len() < limit {
        assert(ic.to_set().subset_of(io.to_set())) by {
            assert forall|x: u32| ic.to_set().contains(x) implies io.to_set().contains(x) by {
                assert(ic.contains(x));
                let j = choose|j: int| 0 <= j < ic.len() && ic[j] == x;
                assert(has_id(out, cands[j].token_id));
                let i = choose|i: int| 0 <= i < out.len() && (#[trigger] out[i]).token_id == cands[j].token_id;
                assert(io[i] == x);
                assert(io.contains(x));
            }
        }
        vstd::set_lib::lemma_len_subset(ic.to_set(), io.to_set());
    }
}

/// `s` is one of the personal candidates `mode` keeps.
pub open spec fn kept_by_mode(s: PersonalAutosuggestSuggestion, mode: int) -> bool {
    mode == 0 || (mode == 1 && s.context_len > 0) || (mode == 2 && s.context_len == 0)
}

proof fn lemma_personal_ids_members(p: Seq<PersonalAutosuggestSuggestion>, mode: int, x: u32)
    ensures
        token_ids(personal_ids(p, mode)).contains(x) <==> exists|i: int|
            0 <= i < p.len() && (#[trigger] p[i]).token_id == x && kept_by_mode(p[i], mode),
    decreases p.len(),
{
    let r = personal_ids(p, mode);
    if p.len() > 0 {
        let q = p.drop_last();
        lemma_personal_ids_members(q, mode, x);
        let rest = personal_ids(q, mode);
        if token_ids(r).contains(x) {
            let k = choose|k: int| 0 <= k < token_ids(r).len() && token_ids(r)[k] == x;
            if k < rest.len() {
                assert(r[k] == rest[k]);
                assert(token_ids(rest)[k] == x);
                let i = choose|i: int| 0 <= i < q.len() && (#[trigger] q[i]).token_id == x && kept_by_mode(q[i], mode);
                assert(p[i] == q[i]);
            } else {
                assert(p[p.len() - 1].token_id == x);
            }
        }
        if exists|i: int| 0 <= i < p.len() && (#[trigger] p[i]).token_id == x && kept_by_mode(p[i], mode) {
            let i = choose|i: int| 0 <= i < p.len() && (#[trigger] p[i]).token_id == x && kept_by_mode(p[i], mode);
            if i < q.len() {
                assert(q[i] == p[i]);
                assert(token_ids(rest).contains(x));
                let k = choose|k: int| 0 <= k < token_ids(rest).len() && token_ids(rest)[k] == x;
                assert(r[k] == rest[k]);
                assert(token_ids(r)[k] == x);
            } else {
                assert(r[rest.len() as int] == personal_candidate(p.last()));
                assert(token_ids(r)[rest.len() as int] == x);
            }
        }
    }
}

proof fn lemma_contains_concat(a: Seq<u32>, b: Seq<u32>, x: u32)
    ensures
        (a + b).contains(x) <==> a.contains(x) || b.contains(x),
{
    if (a + b).contains(x) {
        let k = choose|k: int| 0 <= k < (a + b).len() && (a + b)[k] == x;
        if k < a.len() {
            assert(a[k] == x);
        } else {
            assert(b[k - a.len()] == x);
        }
    }
    if a.contains(x) {
        let k = choose|k: int| 0 <= k < a.len() && a[k] == x;
        assert((a + b)[k] == x);
    }
    if b.contains(x) {
        let k = choose|k: int| 0 <= k < b.len() && b[k] == x;
        assert((a + b)[a.len() + k] == x);
    }
}

/// The distinct ids a blend draws from are those of the personal pool and
/// of the model pool together.
pub proof fn lemma_merge_order_ids(
    personal: Seq<PersonalAutosuggestSuggestion>,
    model: Seq<AutosuggestCandidateId>,
    has_context: bool,
)
    ensures
        token_ids(merge_order(personal, model, has_context)).to_set() == personal.map_values(
            |s: PersonalAutosuggestSuggestion| s.token_id,
        ).to_set().union(token_ids(model).to_set()),
{
    let c = merge_order(personal, model, has_context);
    let pm = personal.map_values(|s: PersonalAutosuggestSuggestion| s.token_id);
    let m = token_ids(model);
    assert forall|x: u32| token_ids(c).contains(x) == (pm.contains(x) || m.contains(x)) by {
        lemma_personal_ids_members(personal, 0, x);
        lemma_personal_ids_members(personal, 1, x);
        lemma_personal_ids_members(personal, 2, x);
        if pm.contains(x) {
            let i = choose|i: int| 0 <= i < pm.len() && pm[i] == x;
            assert(personal[i].token_id == x);
        }
        if exists|i: int| 0 <= i < personal.len() && (#[trigger] personal[i]).token_id == x {
            let i = choose|i: int| 0 <= i < personal.len() && (#[trigger] personal[i]).token_id == x;
            assert(pm[i] == x);
        }
        if has_context {
            let a = token_ids(personal_ids(personal, 1));
            let b = token_ids(personal_ids(personal, 2));
            assert(token_ids(c) =~= a + m + b);
            lemma_contains_concat(a + m, b, x);
            lemma_contains_concat(a, m, x);
        } else {
            let a = token_ids(personal_ids(personal, 0));
            assert(token_ids(c) =~= a + m);
            lemma_contains_concat(a, m, x);
        }
    }
    assert(token_ids(c).to_set() =~= pm.to_set().union(m.to_set()));
}


/// `x` is a context-free personal candidate of the personal pool `pool`: it
/// is marked personal and the pool learned its word without a context.
pub open spec fn free_personal(pool: Seq<PersonalAutosuggestSuggestion>, x: AutosuggestCandidateId) -> bool {
    &&& x.source == AutosuggestSource::Personal
    &&& exists|k: int| 0 <= k < pool.len() && (#[trigger] pool[k]).token_id == x.token_id && pool[k].context_len == 0
}

/// No free personal candidate of `out` comes before a model candidate of
/// `out`, unless the first does not repeat a recent phrase and the second
/// does.
pub open spec fn model_before_free_personal(
    pool: Seq<PersonalAutosuggestSuggestion>,
    ctx: Seq<u32>,
    out: Seq<AutosuggestCandidateId>,
) -> bool {
    forall|a: int, b: int|
        0 <= a < b < out.len() && free_personal(pool, #[trigger] out[a]) && (#[trigger] out[b]).source
            != AutosuggestSource::Personal ==> !repeats_recent_ngram(ctx, out[a].token_id) && repeats_recent_ngram(
            ctx,
            out[b].token_id,
        )
}

proof fn lemma_personal_ids_elements(p: Seq<PersonalAutosuggestSuggestion>, mode: int)
    ensures
        forall|k: int|
            0 <= k < personal_ids(p, mode).len() ==> exists|i: int|
                0 <= i < p.len() && #[trigger] personal_ids(p, mode)[k] == personal_candidate(p[i]) && kept_by_mode(
                    p[i],
                    mode,
                ),
    decreases p.len(),
{
    if p.len() > 0 {
        let q = p.drop_last();
        lemma_personal_ids_elements(q, mode);
        let r = personal_ids(p, mode);
        let rest = personal_ids(q, mode);
        assert forall|k: int| 0 <= k < r.len() implies exists|i: int|
            0 <= i < p.len() && #[trigger] r[k] == personal_candidate(p[i]) && kept_by_mode(p[i], mode) by {
            if k < rest.len() {
                assert(r[k] == rest[k]);
                let i = choose|i: int| 0 <= i < q.len() && #[trigger] rest[k] == personal_candidate(q[i]) && kept_by_mode(q[i], mode);
                assert(p[i] == q[i]);
            } else {
                assert(r[k] == personal_candidate(p[p.len() - 1]));
            }
        }
    }
}

proof fn lemma_pass_keeps_model_first(
    pool: Seq<PersonalAutosuggestSuggestion>,
    cands: Seq<AutosuggestCandidateId>,
    na: int,
    nm: int,
    i: int,
    ctx: Seq<u32>,
    take_repeated: bool,
    limit: int,
    out: Seq<AutosuggestCandidateId>,
)
    requires
        0 <= i,
        0 <= na,
        0 <= nm,
        na + nm <= cands.len(),
        forall|k: int| 0 <= k < na ==> (#[trigger] cands[k]).source == AutosuggestSource::Personal && !free_personal(pool, cands[k]),
        forall|k: int| na <= k < na + nm ==> (#[trigger] cands[k]).source != AutosuggestSource::Personal,
        forall|k: int| na + nm <= k < cands.len() ==> (#[trigger] cands[k]).source == AutosuggestSource::Personal,
        model_before_free_personal(pool, ctx, out),
        i <= na + nm ==> forall|a: int|
            0 <= a < out.len() && free_personal(pool, #[trigger] out[a]) ==> take_repeated && !repeats_recent_ngram(ctx, out[a].token_id),
    ensures
        model_before_free_personal(pool, ctx, merge_pass(cands, i, ctx, take_repeated, limit, out)),
        merge_pass(cands, i, ctx, take_repeated, limit, out).len() >= out.len(),
        forall|k: int|
            out.len() <= k < merge_pass(cands, i, ctx, take_repeated, limit, out).len() ==> repeats_recent_ngram(
                ctx,
                (#[trigger] merge_pass(cands, i, ctx, take_repeated, limit, out)[k]).token_id,
            ) == take_repeated,
        forall|k: int| 0 <= k < out.len() ==> #[trigger] merge_pass(cands, i, ctx, take_repeated, limit, out)[k] == out[k],
    decreases cands.len() - i,
{
    if i >= cands.len() || out.len() >= limit {
    } else {
        let c = cands[i];
        let take = repeats_recent_ngram(ctx, c.token_id) == take_repeated && !has_id(out, c.token_id);
        let o = if take {
            out.push(c)
        } else {
            out
        };
        if take {
            assert forall|a: int, b: int|
                0 <= a < b < o.len() && free_personal(pool, #[trigger] o[a]) && (#[trigger] o[b]).source
                    != AutosuggestSource::Personal implies !repeats_recent_ngram(ctx, o[a].token_id) && repeats_recent_ngram(
                ctx,
                o[b].token_id,
            ) by {
                assert(o[a] == out[a]);
                if b < out.len() {
                    assert(o[b] == out[b]);
                } else {
                    assert(o[b] == c);
                }
            }
            assert forall|a: int|
                0 <= a < o.len() && free_personal(pool, #[trigger] o[a]) && i + 1 <= na + nm implies take_repeated
                    && !repeats_recent_ngram(ctx, o[a].token_id) by {
                if a < out.len() {
                    assert(o[a] == out[a]);
                } else {
                    assert(o[a] == c);
                }
            }
        }
        lemma_pass_keeps_model_first(pool, cands, na, nm, i + 1, ctx, take_repeated, limit, o);
        let r = merge_pass(cands, i + 1, ctx, take_repeated, limit, o);
        assert(r == merge_pass(cands, i, ctx, take_repeated, limit, out));
        assert forall|k: int| 0 <= k < out.len() implies #[trigger] r[k] == out[k] by {
            assert(r[k] == o[k]);
        }
        assert forall|k: int| out.len() <= k < r.len() implies repeats_recent_ngram(ctx, (#[trigger] r[k]).token_id) == take_repeated by {
            if take && k == out.len() {
                assert(r[k] == o[k]);
            }
        }
    }
}

/// With a context-specific personal query, the blend puts every model
/// candidate before every context-free personal candidate, pass by pass:
/// a context-free personal word ahead of a model word is one that does not
/// repeat a recent phrase ahead of one that does.
proof fn lemma_merged_model_first(
    personal: Seq<PersonalAutosuggestSuggestion>,
    model: Seq<AutosuggestCandidateId>,
    ctx: Seq<u32>,
    limit: int,
)
    requires
        forall|i: int, j: int| 0 <= i < j < personal.len() ==> (#[trigger] personal[i]).token_id != (#[trigger] personal[j]).token_id,
        crate::lm::no_personal_source(model),
    ensures
        model_before_free_personal(personal, ctx, merged(personal, model, true, ctx, limit)),
{
    let a = personal_ids(personal, 1);
    let b = personal_ids(personal, 2);
    let cands = merge_order(personal, model, true);
    assert(cands == a + model + b);
    lemma_personal_ids_elements(personal, 1);
    lemma_personal_ids_elements(personal, 2);
    let na = a.len() as int;
    let nm = model.len() as int;
    assert forall|k: int| 0 <= k < na implies (#[trigger] cands[k]).source == AutosuggestSource::Personal && !free_personal(
        personal,
        cands[k],
    ) by {
        assert(cands[k] == a[k]);
        let i = choose|i: int| 0 <= i < personal.len() && #[trigger] a[k] == personal_candidate(personal[i]) && kept_by_mode(personal[i], 1);
        if free_personal(personal, cands[k]) {
            let j = choose|j: int| 0 <= j < personal.len() && (#[trigger] personal[j]).token_id == cands[k].token_id && personal[j].context_len == 0;
            if i < j {
                assert(personal[i].token_id != personal[j].token_id);
            } else if j < i {
                assert(personal[j].token_id != personal[i].token_id);
            }
        }
    }
    assert forall|k: int| na <= k < na + nm implies (#[trigger] cands[k]).source != AutosuggestSource::Personal by {
        assert(cands[k] == model[k - na]);
    }
    assert forall|k: int| na + nm <= k < cands.len() implies (#[trigger] cands[k]).source == AutosuggestSource::Personal by {
        assert(cands[k] == b[k - na - nm]);
        let i = choose|i: int| 0 <= i < personal.len() && #[trigger] b[k - na - nm] == personal_candidate(personal[i]) && kept_by_mode(personal[i], 2);
    }
    let e = Seq::<AutosuggestCandidateId>::empty();
    lemma_pass_keeps_model_first(personal, cands, na, nm, 0, ctx, false, limit, e);
    let o1 = merge_pass(cands, 0, ctx, false, limit, e);
    lemma_pass_keeps_model_first(personal, cands, na, nm, 0, ctx, true, limit, o1);
}

/// At a sentence start, or after recent words, the blended list never puts
/// a context-free personal word ahead of a model word, except one that does
/// not repeat a recent phrase ahead of one that does: context-free personal
/// words only back-fill after the model's candidates.
pub proof fn lemma_context_free_personal_backfills(
    v: crate::personal::PersonalView,
    lm: LmView,
    c: ContextView,
    p: PersonalContextView,
    rep: Seq<u32>,
    limit: int,
)
    requires
        p.is_sentence_start() || ctx_ids(p.ctx).len() > 0,
        crate::personal_unigram::unigram_cache_ok(v.unigram_cache, v.entries),
    ensures
        blended_ids(v, lm, c, p, rep, limit) matches Ok((ids, _)) ==> model_before_free_personal(
            personal_pool(v, p, spec_pool_limit(limit)),
            rep,
            ids,
        ),
{
    let pool = spec_pool_limit(limit);
    if let Ok(o) = lm.suggest_for(c, pool) {
        crate::lm::lemma_suggest_for_sources(lm, c, pool);
        crate::personal_laws::lemma_collect_ids_keys_list(
            v.entries,
            v.unigram_cache,
            query_keys(p),
            0,
            pool,
            v.config.min_count,
            Seq::empty(),
        );
        let l = if limit < 1 {
            1
        } else {
            limit
        };
        lemma_merged_model_first(personal_pool(v, p, pool), o, rep, l);
    }
}
} // verus!
