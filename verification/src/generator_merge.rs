//! Merging the static model's candidates with a generator's proposals: a
//! locked prefix of static candidates first, then the generator's pool in its
//! order, then the rest of the static list, one entry per word, at most the
//! candidate limit. A generator proposal is referred to by its index in the
//! proposal list, so its rank and score stay with the caller.

use vstd::prelude::*;
use crate::candidate::{first_index, is_first, lemma_first_index, AutosuggestCandidateId, DEFAULT_AUTOSUGGEST_CANDIDATES};
use crate::generator_outputs::AutosuggestGeneratorHandoffError;

verus! {

pub const DEFAULT_AUTOSUGGEST_GENERATOR_LOCKED_STATIC_PREFIX: usize = 1;

/// Which list a merged candidate came from.
#[derive(Debug, Clone, Copy, PartialEq, Eq, Structural)]
pub enum AutosuggestMergedCandidateSource {
    Static,
    Generated,
    StaticAndGenerated,
}

#[derive(Debug, Clone, Copy)]
pub struct AutosuggestGeneratorMergeOptions {
    pub max_candidates: usize,
    pub locked_static_prefix: usize,
}

impl Default for AutosuggestGeneratorMergeOptions {
    fn default() -> (o: Self)
        ensures
            o.max_candidates == DEFAULT_AUTOSUGGEST_CANDIDATES,
            o.locked_static_prefix == DEFAULT_AUTOSUGGEST_GENERATOR_LOCKED_STATIC_PREFIX,
    {
        AutosuggestGeneratorMergeOptions {
            max_candidates: DEFAULT_AUTOSUGGEST_CANDIDATES,
            locked_static_prefix: DEFAULT_AUTOSUGGEST_GENERATOR_LOCKED_STATIC_PREFIX,
        }
    }
}

/// One merged candidate: the static candidate and its rank when the static
/// list holds the word, and the index of the generator's proposal when the
/// generator proposed it.
#[derive(Debug, Clone, Copy)]
pub struct AutosuggestMergedCandidatePick {
    pub token_id: u32,
    pub source: AutosuggestMergedCandidateSource,
    pub static_rank: Option<usize>,
    pub static_candidate: Option<AutosuggestCandidateId>,
    pub generated_index: Option<usize>,
}

pub open spec fn same_pick_id(id: u32) -> spec_fn(AutosuggestMergedCandidatePick) -> bool {
    |x: AutosuggestMergedCandidatePick| x.token_id == id
}

/// The static candidate of rank `rank` joins the list: a word already there
/// gains its static part, a new word is appended while there is room.
pub open spec fn static_step(
    out: Seq<AutosuggestMergedCandidatePick>,
    rank: int,
    c: AutosuggestCandidateId,
    limit: int,
) -> Seq<AutosuggestMergedCandidatePick> {
    let p = first_index(out, same_pick_id(c.token_id));
    if p < out.len() {
        let e = out[p];
        out.update(
            p,
            AutosuggestMergedCandidatePick {
                static_rank: Some(rank as usize),
                static_candidate: Some(c),
                source: if e.source == AutosuggestMergedCandidateSource::Generated {
                    AutosuggestMergedCandidateSource::StaticAndGenerated
                } else {
                    e.source
                },
                ..e
            },
        )
    } else if out.len() >= limit {
        out
    } else {
        out.push(
            AutosuggestMergedCandidatePick {
                token_id: c.token_id,
                source: AutosuggestMergedCandidateSource::Static,
                static_rank: Some(rank as usize),
                static_candidate: Some(c),
                generated_index: None,
            },
        )
    }
}

/// The generator's proposal `g` (of word `id`) joins the list.
pub open spec fn generated_step(
    out: Seq<AutosuggestMergedCandidatePick>,
    g: int,
    id: u32,
    limit: int,
) -> Seq<AutosuggestMergedCandidatePick> {
    let p = first_index(out, same_pick_id(id));
    if p < out.len() {
        let e = out[p];
        out.update(
            p,
            AutosuggestMergedCandidatePick {
                generated_index: Some(g as usize),
                source: if e.source == AutosuggestMergedCandidateSource::Static {
                    AutosuggestMergedCandidateSource::StaticAndGenerated
                } else {
                    e.source
                },
                ..e
            },
        )
    } else if out.len() >= limit {
        out
    } else {
        out.push(
            AutosuggestMergedCandidatePick {
                token_id: id,
                source: AutosuggestMergedCandidateSource::Generated,
                static_rank: None,
                static_candidate: None,
                generated_index: Some(g as usize),
            },
        )
    }
}

/// Static candidates of ranks `from..to`, in order.
pub open spec fn static_steps(
    st: Seq<AutosuggestCandidateId>,
    from: int,
    to: int,
    limit: int,
    out: Seq<AutosuggestMergedCandidatePick>,
) -> Seq<AutosuggestMergedCandidatePick>
    decreases to - from,
{
    if from >= to {
        out
    } else {
        static_steps(st, from + 1, to, limit, static_step(out, from, st[from], limit))
    }
}

/// Generator proposals `i..`, in order.
pub open spec fn generated_steps(
    gen: Seq<u32>,
    i: int,
    limit: int,
    out: Seq<AutosuggestMergedCandidatePick>,
) -> Seq<AutosuggestMergedCandidatePick>
    decreases gen.len() - i,
{
    if i >= gen.len() || i < 0 {
        out
    } else {
        generated_steps(gen, i + 1, limit, generated_step(out, i, gen[i], limit))
    }
}

pub open spec fn merge_limit(o: AutosuggestGeneratorMergeOptions) -> int {
    if o.max_candidates < 1 {
        1
    } else {
        o.max_candidates as int
    }
}

/// How many static candidates lead the list.
pub open spec fn locked_count(st: Seq<AutosuggestCandidateId>, o: AutosuggestGeneratorMergeOptions) -> int {
    let a = if (o.locked_static_prefix as int) < st.len() {
        o.locked_static_prefix as int
    } else {
        st.len() as int
    };
    if a < merge_limit(o) {
        a
    } else {
        merge_limit(o)
    }
}

/// The merged list for static candidates `st` and proposals of the words
/// `gen`.
pub open spec fn merged_picks(
    st: Seq<AutosuggestCandidateId>,
    gen: Seq<u32>,
    o: AutosuggestGeneratorMergeOptions,
) -> Seq<AutosuggestMergedCandidatePick> {
    let limit = merge_limit(o);
    let locked = locked_count(st, o);
    let o1 = static_steps(st, 0, locked, limit, Seq::empty());
    let o2 = generated_steps(gen, 0, limit, o1);
    static_steps(st, locked, st.len() as int, limit, o2)
}

fn pick_position(out: &Vec<AutosuggestMergedCandidatePick>, id: u32) -> (p: usize)
    ensures
        p as int == first_index(out@, same_pick_id(id)),
        p <= out@.len(),
{
    let mut i: usize = 0;
    while i < out.len()
        invariant
            i <= out@.len(),
            forall|j: int| 0 <= j < i ==> !(#[trigger] same_pick_id(id)(out@[j])),
        decreases out@.len() - i,
    {
        if out[i].token_id == id {
            proof {
                lemma_first_index(out@, same_pick_id(id), i as int);
            }
            return i;
        }
        i = i + 1;
    }
    proof {
        lemma_first_index(out@, same_pick_id(id), i as int);
    }
    i
}

fn push_or_merge_static_candidate(
    rank: usize,
    candidate: AutosuggestCandidateId,
    limit: usize,
    output: &mut Vec<AutosuggestMergedCandidatePick>,
)
    ensures
        final(output)@ == static_step(old(output)@, rank as int, candidate, limit as int),
{
    let p = pick_position(output, candidate.token_id);
    if p < output.len() {
        let e = output[p];
        let source = match e.source {
            AutosuggestMergedCandidateSource::Generated => AutosuggestMergedCandidateSource::StaticAndGenerated,
            s => s,
        };
        output.set(p, AutosuggestMergedCandidatePick { static_rank: Some(rank), static_candidate: Some(candidate), source, ..e });
        return;
    }
    if output.len() >= limit {
        return;
    }
    output.push(
        AutosuggestMergedCandidatePick {
            token_id: candidate.token_id,
            source: AutosuggestMergedCandidateSource::Static,
            static_rank: Some(rank),
            static_candidate: Some(candidate),
            generated_index: None,
        },
    );
}

fn push_or_merge_generated_candidate(
    index: usize,
    token_id: u32,
    limit: usize,
    output: &mut Vec<AutosuggestMergedCandidatePick>,
)
    ensures
        final(output)@ == generated_step(old(output)@, index as int, token_id, limit as int),
{
    let p = pick_position(output, token_id);
    if p < output.len() {
        let e = output[p];
        let source = match e.source {
            AutosuggestMergedCandidateSource::Static => AutosuggestMergedCandidateSource::StaticAndGenerated,
            s => s,
        };
        output.set(p, AutosuggestMergedCandidatePick { generated_index: Some(index), source, ..e });
        return;
    }
    if output.len() >= limit {
        return;
    }
    output.push(
        AutosuggestMergedCandidatePick {
            token_id,
            source: AutosuggestMergedCandidateSource::Generated,
            static_rank: None,
            static_candidate: None,
            generated_index: Some(index),
        },
    );
}

/// Merges the static candidates with the generator's proposals (given by
/// their words, in the generator's order) into `output` (see
/// [`merged_picks`]).
pub fn merge_static_and_generated_candidates_into(
    static_candidates: &[AutosuggestCandidateId],
    generated_token_ids: &[u32],
    options: AutosuggestGeneratorMergeOptions,
    output: &mut Vec<AutosuggestMergedCandidatePick>,
)
    ensures
        final(output)@ == merged_picks(static_candidates@, generated_token_ids@, options),
{
    output.clear();
    let limit = if options.max_candidates < 1 {
        1
    } else {
        options.max_candidates
    };
    let mut locked = if options.locked_static_prefix < static_candidates.len() {
        options.locked_static_prefix
    } else {
        static_candidates.len()
    };
    if locked > limit {
        locked = limit;
    }
    let ghost st = static_candidates@;
    let ghost gen = generated_token_ids@;
    let mut r: usize = 0;
    while r < locked
        invariant
            st == static_candidates@,
            locked <= st.len(),
            r <= locked,
            static_steps(st, 0, locked as int, limit as int, Seq::empty()) == static_steps(
                st,
                r as int,
                locked as int,
                limit as int,
                output@,
            ),
        decreases locked - r,
    {
        push_or_merge_static_candidate(r, static_candidates[r], limit, output);
        r = r + 1;
    }
    let mut g: usize = 0;
    while g < generated_token_ids.len()
        invariant
            gen == generated_token_ids@,
            g <= gen.len(),
            generated_steps(gen, 0, limit as int, static_steps(st, 0, locked as int, limit as int, Seq::empty()))
                == generated_steps(gen, g as int, limit as int, output@),
        decreases gen.len() - g,
    {
        push_or_merge_generated_candidate(g, generated_token_ids[g], limit, output);
        g = g + 1;
    }
    let mut k: usize = locked;
    while k < static_candidates.len()
        invariant
            st == static_candidates@,
            locked <= k <= st.len(),
            static_steps(
                st,
                locked as int,
                st.len() as int,
                limit as int,
                generated_steps(gen, 0, limit as int, static_steps(st, 0, locked as int, limit as int, Seq::empty())),
            ) == static_steps(st, k as int, st.len() as int, limit as int, output@),
        decreases st.len() - k,
    {
        push_or_merge_static_candidate(k, static_candidates[k], limit, output);
        k = k + 1;
    }
}


/// At most `limit` picks, no word twice.
pub open spec fn picks_ok(out: Seq<AutosuggestMergedCandidatePick>, limit: int) -> bool {
    &&& out.len() <= limit
    &&& forall|i: int, j: int| 0 <= i < j < out.len() ==> (#[trigger] out[i]).token_id != (#[trigger] out[j]).token_id
}

/// The first `n` picks are the static candidates of ranks `0..n`.
pub open spec fn static_prefix(out: Seq<AutosuggestMergedCandidatePick>, st: Seq<AutosuggestCandidateId>, n: int) -> bool {
    &&& n <= out.len()
    &&& forall|r: int|
        0 <= r < n ==> (#[trigger] out[r]).token_id == st[r].token_id && out[r].static_rank == Some(r as usize)
            && out[r].static_candidate == Some(st[r])
}

proof fn lemma_step_keeps(
    out: Seq<AutosuggestMergedCandidatePick>,
    id: u32,
    r: Seq<AutosuggestMergedCandidatePick>,
    limit: int,
)
    requires
        picks_ok(out, limit),
        r.len() <= limit,
        r.len() == out.len() || (r.len() == out.len() + 1 && r.last().token_id == id && forall|k: int|
            0 <= k < out.len() ==> (#[trigger] out[k]).token_id != id),
        forall|k: int| 0 <= k < out.len() ==> (#[trigger] r[k]).token_id == out[k].token_id,
    ensures
        picks_ok(r, limit),
{
    assert forall|i: int, j: int| 0 <= i < j < r.len() implies (#[trigger] r[i]).token_id != (#[trigger] r[j]).token_id by {
        if j < out.len() {
            assert(r[i].token_id == out[i].token_id && r[j].token_id == out[j].token_id);
        } else {
            assert(r[i].token_id == out[i].token_id);
        }
    }
}

proof fn lemma_static_step(
    out: Seq<AutosuggestMergedCandidatePick>,
    rank: int,
    c: AutosuggestCandidateId,
    limit: int,
)
    requires
        picks_ok(out, limit),
    ensures
        picks_ok(static_step(out, rank, c, limit), limit),
        static_step(out, rank, c, limit).len() >= out.len(),
        forall|k: int|
            0 <= k < out.len() && (#[trigger] out[k]).token_id != c.token_id ==> static_step(out, rank, c, limit)[k]
                == out[k],
        forall|k: int| 0 <= k < out.len() ==> (#[trigger] static_step(out, rank, c, limit)[k]).token_id == out[k].token_id,
        out.len() < limit && (forall|k: int| 0 <= k < out.len() ==> (#[trigger] out[k]).token_id != c.token_id)
            ==> static_step(out, rank, c, limit) == out.push(
            AutosuggestMergedCandidatePick {
                token_id: c.token_id,
                source: AutosuggestMergedCandidateSource::Static,
                static_rank: Some(rank as usize),
                static_candidate: Some(c),
                generated_index: None,
            },
        ),
{
    crate::personal::lemma_first_index_exists(out, same_pick_id(c.token_id));
    let p = first_index(out, same_pick_id(c.token_id));
    let r = static_step(out, rank, c, limit);
    if p < out.len() {
        assert forall|k: int| 0 <= k < out.len() && (#[trigger] out[k]).token_id != c.token_id implies r[k] == out[k] by {
            assert(k != p);
        }
    } else {
        assert(forall|k: int| 0 <= k < out.len() ==> !same_pick_id(c.token_id)(#[trigger] out[k]));
    }
    lemma_step_keeps(out, c.token_id, r, limit);
}

proof fn lemma_generated_step(out: Seq<AutosuggestMergedCandidatePick>, g: int, id: u32, limit: int)
    requires
        picks_ok(out, limit),
    ensures
        picks_ok(generated_step(out, g, id, limit), limit),
        generated_step(out, g, id, limit).len() >= out.len(),
        forall|k: int|
            0 <= k < out.len() ==> (#[trigger] generated_step(out, g, id, limit)[k]).token_id == out[k].token_id
                && generated_step(out, g, id, limit)[k].static_rank == out[k].static_rank && generated_step(
                out,
                g,
                id,
                limit,
            )[k].static_candidate == out[k].static_candidate,
{
    crate::personal::lemma_first_index_exists(out, same_pick_id(id));
    let p = first_index(out, same_pick_id(id));
    let r = generated_step(out, g, id, limit);
    if p >= out.len() {
        assert(forall|k: int| 0 <= k < out.len() ==> !same_pick_id(id)(#[trigger] out[k]));
    }
    lemma_step_keeps(out, id, r, limit);
}

proof fn lemma_static_steps(
    st: Seq<AutosuggestCandidateId>,
    from: int,
    to: int,
    limit: int,
    out: Seq<AutosuggestMergedCandidatePick>,
    n: int,
)
    requires
        0 <= from,
        to <= st.len(),
        picks_ok(out, limit),
        static_prefix(out, st, n),
        forall|a: int, b: int| 0 <= a < b < st.len() ==> (#[trigger] st[a]).token_id != (#[trigger] st[b]).token_id,
        n <= from,
    ensures
        picks_ok(static_steps(st, from, to, limit, out), limit),
        static_prefix(static_steps(st, from, to, limit, out), st, n),
    decreases to - from,
{
    if from < to {
        let c = st[from];
        lemma_static_step(out, from, c, limit);
        let o2 = static_step(out, from, c, limit);
        assert forall|r: int| 0 <= r < n implies (#[trigger] o2[r]).token_id == st[r].token_id && o2[r].static_rank
            == Some(r as usize) && o2[r].static_candidate == Some(st[r]) by {
            assert(out[r].token_id == st[r].token_id);
            assert(st[r].token_id != st[from].token_id);
        }
        lemma_static_steps(st, from + 1, to, limit, o2, n);
    }
}

proof fn lemma_static_lead(st: Seq<AutosuggestCandidateId>, from: int, to: int, limit: int, out: Seq<AutosuggestMergedCandidatePick>)
    requires
        0 <= from <= to <= st.len(),
        to <= limit,
        out.len() == from,
        picks_ok(out, limit),
        static_prefix(out, st, from),
        forall|a: int, b: int| 0 <= a < b < st.len() ==> (#[trigger] st[a]).token_id != (#[trigger] st[b]).token_id,
    ensures
        picks_ok(static_steps(st, from, to, limit, out), limit),
        static_prefix(static_steps(st, from, to, limit, out), st, to),
    decreases to - from,
{
    if from < to {
        let c = st[from];
        lemma_static_step(out, from, c, limit);
        assert forall|k: int| 0 <= k < out.len() implies (#[trigger] out[k]).token_id != c.token_id by {
            assert(out[k].token_id == st[k].token_id);
        }
        let o2 = static_step(out, from, c, limit);
        assert(o2 == out.push(
            AutosuggestMergedCandidatePick {
                token_id: c.token_id,
                source: AutosuggestMergedCandidateSource::Static,
                static_rank: Some(from as usize),
                static_candidate: Some(c),
                generated_index: None,
            },
        ));
        assert forall|r: int| 0 <= r < from + 1 implies (#[trigger] o2[r]).token_id == st[r].token_id && o2[r].static_rank
            == Some(r as usize) && o2[r].static_candidate == Some(st[r]) by {
            if r < from {
                assert(o2[r] == out[r]);
            }
        }
        lemma_static_lead(st, from + 1, to, limit, o2);
    }
}

proof fn lemma_generated_steps(gen: Seq<u32>, i: int, limit: int, out: Seq<AutosuggestMergedCandidatePick>, st: Seq<AutosuggestCandidateId>, n: int)
    requires
        0 <= i,
        picks_ok(out, limit),
        static_prefix(out, st, n),
    ensures
        picks_ok(generated_steps(gen, i, limit, out), limit),
        static_prefix(generated_steps(gen, i, limit, out), st, n),
    decreases gen.len() - i,
{
    if i < gen.len() {
        lemma_generated_step(out, i, gen[i], limit);
        let o2 = generated_step(out, i, gen[i], limit);
        assert forall|r: int| 0 <= r < n implies (#[trigger] o2[r]).token_id == st[r].token_id && o2[r].static_rank
            == Some(r as usize) && o2[r].static_candidate == Some(st[r]) by {
            assert(out[r].token_id == st[r].token_id);
        }
        lemma_generated_steps(gen, i + 1, limit, o2, st, n);
    }
}

/// The merged list holds at most the candidate limit (at least one), no
/// word twice; when the static list has no word twice, it starts with the
/// locked static candidates, in rank order.
pub proof fn lemma_merged_picks_law(st: Seq<AutosuggestCandidateId>, gen: Seq<u32>, o: AutosuggestGeneratorMergeOptions)
    ensures
        picks_ok(merged_picks(st, gen, o), merge_limit(o)),
        (forall|a: int, b: int| 0 <= a < b < st.len() ==> (#[trigger] st[a]).token_id != (#[trigger] st[b]).token_id)
            ==> static_prefix(merged_picks(st, gen, o), st, locked_count(st, o)),
{
    let limit = merge_limit(o);
    let locked = locked_count(st, o);
    let e = Seq::<AutosuggestMergedCandidatePick>::empty();
    if forall|a: int, b: int| 0 <= a < b < st.len() ==> (#[trigger] st[a]).token_id != (#[trigger] st[b]).token_id {
        lemma_static_lead(st, 0, locked, limit, e);
        let o1 = static_steps(st, 0, locked, limit, e);
        lemma_generated_steps(gen, 0, limit, o1, st, locked);
        let o2 = generated_steps(gen, 0, limit, o1);
        lemma_static_steps(st, locked, st.len() as int, limit, o2, locked);
    } else {
        lemma_static_any(st, 0, locked, limit, e);
        let o1 = static_steps(st, 0, locked, limit, e);
        lemma_generated_steps(gen, 0, limit, o1, st, 0);
        let o2 = generated_steps(gen, 0, limit, o1);
        lemma_static_any(st, locked, st.len() as int, limit, o2);
    }
}

proof fn lemma_static_any(st: Seq<AutosuggestCandidateId>, from: int, to: int, limit: int, out: Seq<AutosuggestMergedCandidatePick>)
    requires
        0 <= from,
        to <= st.len(),
        picks_ok(out, limit),
    ensures
        picks_ok(static_steps(st, from, to, limit, out), limit),
    decreases to - from,
{
    if from < to {
        lemma_static_step(out, from, st[from], limit);
        lemma_static_any(st, from + 1, to, limit, static_step(out, from, st[from], limit));
    }
}
/// Every static candidate in rank order, each as its own pick.
pub open spec fn static_union(st: Seq<AutosuggestCandidateId>) -> Seq<AutosuggestMergedCandidatePick> {
    Seq::new(
        st.len(),
        |i: int|
            AutosuggestMergedCandidatePick {
                token_id: st[i].token_id,
                source: AutosuggestMergedCandidateSource::Static,
                static_rank: Some(i as usize),
                static_candidate: Some(st[i]),
                generated_index: None,
            },
    )
}

/// The members of the scored union of static candidates `st` and proposals
/// of the words `gen`: every static candidate in rank order, then each
/// proposal joining the first entry of its word, or appended. Nothing is
/// cut: the list has room for every candidate of both.
pub open spec fn union_picks(st: Seq<AutosuggestCandidateId>, gen: Seq<u32>) -> Seq<AutosuggestMergedCandidatePick> {
    generated_steps(gen, 0, (st.len() + gen.len()) as int, static_union(st))
}

/// Collects the members of the scored union of the static candidates and
/// the generator's proposals (given by their words, in the generator's
/// order); the caller's static score buffer must cover every static
/// candidate.
pub fn union_static_and_generated_candidates_into(
    static_candidates: &[AutosuggestCandidateId],
    static_score_count: usize,
    generated_token_ids: &[u32],
    output: &mut Vec<AutosuggestMergedCandidatePick>,
) -> (r: Result<(), AutosuggestGeneratorHandoffError>)
    requires
        static_candidates@.len() + generated_token_ids@.len() <= usize::MAX,
    ensures
        static_score_count < static_candidates@.len() ==> r == Err::<(), AutosuggestGeneratorHandoffError>(
            AutosuggestGeneratorHandoffError::InvalidBuffer {
                field: "static_model_scores",
                expected: static_candidates@.len() as usize,
                actual: static_score_count,
            },
        ) && final(output)@ == Seq::<AutosuggestMergedCandidatePick>::empty(),
        static_score_count >= static_candidates@.len() ==> r is Ok && final(output)@ == union_picks(
            static_candidates@,
            generated_token_ids@,
        ),
{
    output.clear();
    if static_score_count < static_candidates.len() {
        return Err(
            AutosuggestGeneratorHandoffError::InvalidBuffer {
                field: "static_model_scores",
                expected: static_candidates.len(),
                actual: static_score_count,
            },
        );
    }
    let ghost st = static_candidates@;
    let ghost gen = generated_token_ids@;
    let mut r: usize = 0;
    while r < static_candidates.len()
        invariant
            st == static_candidates@,
            r <= st.len(),
            output@ == static_union(st).take(r as int),
        decreases st.len() - r,
    {
        output.push(
            AutosuggestMergedCandidatePick {
                token_id: static_candidates[r].token_id,
                source: AutosuggestMergedCandidateSource::Static,
                static_rank: Some(r),
                static_candidate: Some(static_candidates[r]),
                generated_index: None,
            },
        );
        assert(static_union(st).take(r + 1) =~= static_union(st).take(r as int).push(static_union(st)[r as int]));
        r = r + 1;
    }
    assert(static_union(st).take(r as int) =~= static_union(st));
    let limit = static_candidates.len() + generated_token_ids.len();
    let mut g: usize = 0;
    while g < generated_token_ids.len()
        invariant
            st == static_candidates@,
            gen == generated_token_ids@,
            limit == st.len() + gen.len(),
            g <= gen.len(),
            union_picks(st, gen) == generated_steps(gen, g as int, limit as int, output@),
        decreases gen.len() - g,
    {
        push_or_merge_generated_candidate(g, generated_token_ids[g], limit, output);
        g = g + 1;
    }
    Ok(())
}

/// Some pick is of the word `id`.
pub open spec fn has_word(out: Seq<AutosuggestMergedCandidatePick>, id: u32) -> bool {
    exists|j: int| 0 <= j < out.len() && (#[trigger] out[j]).token_id == id
}

proof fn lemma_generated_step_facts(out: Seq<AutosuggestMergedCandidatePick>, g: int, id: u32, limit: int)
    ensures
        generated_step(out, g, id, limit).len() == out.len() || generated_step(out, g, id, limit).len() == out.len()
            + 1,
        forall|k: int|
            0 <= k < out.len() ==> (#[trigger] generated_step(out, g, id, limit)[k]).token_id == out[k].token_id
                && generated_step(out, g, id, limit)[k].static_rank == out[k].static_rank && generated_step(
                out,
                g,
                id,
                limit,
            )[k].static_candidate == out[k].static_candidate,
        out.len() < limit ==> has_word(generated_step(out, g, id, limit), id),
{
    crate::personal::lemma_first_index_exists(out, same_pick_id(id));
    let p = first_index(out, same_pick_id(id));
    let r = generated_step(out, g, id, limit);
    if p < out.len() {
        assert(r[p].token_id == id);
    } else if out.len() < limit {
        assert(r[out.len() as int].token_id == id);
    }
}

proof fn lemma_union_steps(
    st: Seq<AutosuggestCandidateId>,
    gen: Seq<u32>,
    i: int,
    out: Seq<AutosuggestMergedCandidatePick>,
)
    requires
        0 <= i <= gen.len(),
        out.len() <= st.len() + i,
        static_union(st).len() <= out.len(),
        forall|k: int|
            0 <= k < st.len() ==> (#[trigger] out[k]).token_id == st[k].token_id && out[k].static_rank == Some(
                k as usize,
            ) && out[k].static_candidate == Some(st[k]),
        forall|k: int| 0 <= k < i ==> #[trigger] has_word(out, gen[k]),
    ensures
        ({
            let u = generated_steps(gen, i, (st.len() + gen.len()) as int, out);
            &&& u.len() <= st.len() + gen.len()
            &&& st.len() <= u.len()
            &&& forall|k: int|
                0 <= k < st.len() ==> (#[trigger] u[k]).token_id == st[k].token_id && u[k].static_rank == Some(
                    k as usize,
                ) && u[k].static_candidate == Some(st[k])
            &&& forall|k: int| 0 <= k < gen.len() ==> #[trigger] has_word(u, gen[k])
        }),
    decreases gen.len() - i,
{
    let limit = (st.len() + gen.len()) as int;
    if i < gen.len() {
        let r = generated_step(out, i, gen[i], limit);
        lemma_generated_step_facts(out, i, gen[i], limit);
        assert forall|k: int| 0 <= k < i + 1 implies #[trigger] has_word(r, gen[k]) by {
            if k < i {
                assert(has_word(out, gen[k]));
                let j = choose|j: int| 0 <= j < out.len() && (#[trigger] out[j]).token_id == gen[k];
                assert(r[j].token_id == gen[k]);
            }
        }
        lemma_union_steps(st, gen, i + 1, r);
    }
}

/// The scored union keeps every static candidate at its rank and holds the
/// word of every proposal, within the count of both lists together.
pub proof fn lemma_union_members(st: Seq<AutosuggestCandidateId>, gen: Seq<u32>)
    ensures
        union_picks(st, gen).len() <= st.len() + gen.len(),
        st.len() <= union_picks(st, gen).len(),
        forall|k: int|
            0 <= k < st.len() ==> (#[trigger] union_picks(st, gen)[k]).token_id == st[k].token_id && union_picks(
                st,
                gen,
            )[k].static_rank == Some(k as usize) && union_picks(st, gen)[k].static_candidate == Some(st[k]),
        forall|k: int| 0 <= k < gen.len() ==> #[trigger] has_word(union_picks(st, gen), gen[k]),
{
    lemma_union_steps(st, gen, 0, static_union(st));
}

} // verus!
