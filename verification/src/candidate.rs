//! Candidate records, their ranking order and the bounded merge that keeps a
//! ranked, duplicate-free candidate list.

use vstd::prelude::*;
use crate::context::AUTOSUGGEST_UNK_ID;

verus! {

pub const DEFAULT_AUTOSUGGEST_CANDIDATES: usize = 5;

#[derive(Debug, Clone, Copy)]
pub struct AutosuggestOptions {
    pub max_candidates: usize,
}

impl Default for AutosuggestOptions {
    fn default() -> (o: Self)
        ensures
            o.max_candidates == DEFAULT_AUTOSUGGEST_CANDIDATES,
    {
        AutosuggestOptions { max_candidates: DEFAULT_AUTOSUGGEST_CANDIDATES }
    }
}

/// Where a candidate came from; also its tie-break priority (personal highest).
#[derive(Debug, Clone, Copy, PartialEq, Eq, Structural)]
pub enum AutosuggestSource {
    Personal,
    Fourgram,
    Trigram,
    Bigram,
    Unigram,
}

pub open spec fn source_priority(s: AutosuggestSource) -> u8 {
    match s {
        AutosuggestSource::Personal => 5,
        AutosuggestSource::Fourgram => 4,
        AutosuggestSource::Trigram => 3,
        AutosuggestSource::Bigram => 2,
        AutosuggestSource::Unigram => 1,
    }
}

pub open spec fn source_name(s: AutosuggestSource) -> Seq<char> {
    match s {
        AutosuggestSource::Personal => "personal"@,
        AutosuggestSource::Fourgram => "fourgram"@,
        AutosuggestSource::Trigram => "trigram"@,
        AutosuggestSource::Bigram => "bigram"@,
        AutosuggestSource::Unigram => "unigram"@,
    }
}

impl AutosuggestSource {
    pub fn as_str(self) -> (s: &'static str)
        ensures
            s@ == source_name(self),
    {
        match self {
            AutosuggestSource::Personal => "personal",
            AutosuggestSource::Fourgram => "fourgram",
            AutosuggestSource::Trigram => "trigram",
            AutosuggestSource::Bigram => "bigram",
            AutosuggestSource::Unigram => "unigram",
        }
    }
}

pub fn source_priority_exec(s: AutosuggestSource) -> (p: u8)
    ensures
        p == source_priority(s),
{
    match s {
        AutosuggestSource::Personal => 5,
        AutosuggestSource::Fourgram => 4,
        AutosuggestSource::Trigram => 3,
        AutosuggestSource::Bigram => 2,
        AutosuggestSource::Unigram => 1,
    }
}

/// A candidate next word with its text borrowed from the artifact.
#[derive(Debug, Clone, PartialEq, Eq)]
pub struct AutosuggestCandidate<'a> {
    pub text: &'a str,
    pub token_id: u32,
    pub source: AutosuggestSource,
    pub count: u32,
    pub score: i32,
}

/// A candidate next word identified only by its token id.
#[derive(Debug, Clone, Copy, PartialEq, Eq)]
pub struct AutosuggestCandidateId {
    pub token_id: u32,
    pub source: AutosuggestSource,
    pub count: u32,
    pub score: i32,
}

/// The id-only part of a text candidate.
pub open spec fn id_of(c: AutosuggestCandidate) -> AutosuggestCandidateId {
    AutosuggestCandidateId {
        token_id: c.token_id,
        source: c.source,
        count: c.count,
        score: c.score,
    }
}

/// Ranking order: higher score, then higher source priority, then higher
/// count, then the smaller token id, comes first.
pub open spec fn precedes(a: AutosuggestCandidateId, b: AutosuggestCandidateId) -> bool {
    a.score > b.score || (a.score == b.score && (source_priority(a.source) > source_priority(
        b.source,
    ) || (source_priority(a.source) == source_priority(b.source) && (a.count > b.count || (a.count
        == b.count && a.token_id < b.token_id)))))
}

pub fn candidate_id_precedes(a: &AutosuggestCandidateId, b: &AutosuggestCandidateId) -> (r: bool)
    ensures
        r == precedes(*a, *b),
{
    let pa = source_priority_exec(a.source);
    let pb = source_priority_exec(b.source);
    a.score > b.score || (a.score == b.score && (pa > pb || (pa == pb && (a.count > b.count || (
    a.count == b.count && a.token_id < b.token_id)))))
}

pub proof fn lemma_precedes_transitive(
    a: AutosuggestCandidateId,
    b: AutosuggestCandidateId,
    c: AutosuggestCandidateId,
)
    requires
        precedes(a, b),
        precedes(b, c),
    ensures
        precedes(a, c),
{
}

pub proof fn lemma_precedes_total(a: AutosuggestCandidateId, b: AutosuggestCandidateId)
    requires
        a.token_id != b.token_id,
    ensures
        precedes(a, b) || precedes(b, a),
        !(precedes(a, b) && precedes(b, a)),
{
}

/// `s[i]` is the first element with `p` (`i == s.len()` when none has it).
pub open spec fn is_first<T>(s: Seq<T>, p: spec_fn(T) -> bool, i: int) -> bool {
    &&& 0 <= i <= s.len()
    &&& i < s.len() ==> p(s[i])
    &&& forall|j: int| 0 <= j < i ==> !p(#[trigger] s[j])
}

pub open spec fn first_index<T>(s: Seq<T>, p: spec_fn(T) -> bool) -> int {
    choose|i: int| is_first(s, p, i)
}

pub proof fn lemma_first_index<T>(s: Seq<T>, p: spec_fn(T) -> bool, i: int)
    requires
        is_first(s, p, i),
    ensures
        first_index(s, p) == i,
{
    let k = first_index(s, p);
    assert(is_first(s, p, k));
    if k < i {
        assert(!p(s[k]));
    }
    if i < k {
        assert(!p(s[i]));
    }
}

pub open spec fn same_id(id: u32) -> spec_fn(AutosuggestCandidateId) -> bool {
    |x: AutosuggestCandidateId| x.token_id == id
}

pub open spec fn preceded_by(c: AutosuggestCandidateId) -> spec_fn(AutosuggestCandidateId) -> bool {
    |x: AutosuggestCandidateId| precedes(c, x)
}

/// `c` inserted before the first candidate it precedes.
pub open spec fn insert_ranked(out: Seq<AutosuggestCandidateId>, c: AutosuggestCandidateId) -> Seq<
    AutosuggestCandidateId,
> {
    out.insert(first_index(out, preceded_by(c)), c)
}

#[derive(Debug, Clone, Copy, PartialEq, Eq, Structural)]
pub enum MergeStatus {
    Accepted,
    Continue,
    Stop,
}

/// One step of the bounded ranked merge of a record into `out`.
///
/// Reserved ids are skipped. A token already present is replaced only by a
/// better-ranked record. A full list takes a new candidate only when it
/// outranks the last one; when it does not, the scan of the current row stops.
pub open spec fn merge_step(out: Seq<AutosuggestCandidateId>, c: AutosuggestCandidateId, limit: int) -> (
    Seq<AutosuggestCandidateId>,
    MergeStatus,
) {
    if c.token_id <= AUTOSUGGEST_UNK_ID {
        (out, MergeStatus::Continue)
    } else {
        let p = first_index(out, same_id(c.token_id));
        if p < out.len() {
            if precedes(c, out[p]) {
                (insert_ranked(out.remove(p), c), MergeStatus::Accepted)
            } else if out.len() >= limit && !precedes(c, out.last()) {
                (out, MergeStatus::Stop)
            } else {
                (out, MergeStatus::Continue)
            }
        } else if out.len() >= limit && out.len() > 0 && !precedes(c, out.last()) {
            (out, MergeStatus::Stop)
        } else if out.len() >= limit && out.len() > 0 {
            (insert_ranked(out.drop_last(), c), MergeStatus::Accepted)
        } else {
            (insert_ranked(out, c), MergeStatus::Accepted)
        }
    }
}

/// One step of backoff-order appending: a new word id goes to the end.
pub open spec fn append_step(out: Seq<AutosuggestCandidateId>, c: AutosuggestCandidateId) -> Seq<
    AutosuggestCandidateId,
> {
    if c.token_id <= AUTOSUGGEST_UNK_ID || exists|j: int|
        0 <= j < out.len() && (#[trigger] out[j]).token_id == c.token_id {
        out
    } else {
        out.push(c)
    }
}

/// The list is in ranking order.
pub open spec fn ranked(s: Seq<AutosuggestCandidateId>) -> bool {
    forall|i: int, j: int| 0 <= i < j < s.len() ==> precedes(#[trigger] s[i], #[trigger] s[j])
}

/// No token appears twice.
pub open spec fn distinct_ids(s: Seq<AutosuggestCandidateId>) -> bool {
    forall|i: int, j: int|
        0 <= i < j < s.len() ==> (#[trigger] s[i]).token_id != (#[trigger] s[j]).token_id
}

/// Only commit-worthy word ids (above `<unk>`).
pub open spec fn word_ids(s: Seq<AutosuggestCandidateId>) -> bool {
    forall|i: int| 0 <= i < s.len() ==> (#[trigger] s[i]).token_id > AUTOSUGGEST_UNK_ID
}

/// A well-formed ranked candidate list of at most `limit` entries.
pub open spec fn ranked_list(s: Seq<AutosuggestCandidateId>, limit: int) -> bool {
    &&& ranked(s)
    &&& distinct_ids(s)
    &&& word_ids(s)
    &&& s.len() <= limit
}

proof fn lemma_insert_ranked(out: Seq<AutosuggestCandidateId>, c: AutosuggestCandidateId)
    requires
        ranked(out),
        distinct_ids(out),
        word_ids(out),
        c.token_id > AUTOSUGGEST_UNK_ID,
        forall|j: int| 0 <= j < out.len() ==> (#[trigger] out[j]).token_id != c.token_id,
    ensures
        ranked(insert_ranked(out, c)),
        distinct_ids(insert_ranked(out, c)),
        word_ids(insert_ranked(out, c)),
        insert_ranked(out, c).len() == out.len() + 1,
{
    let p = first_index(out, preceded_by(c));
    let q = choose|i: int| is_first(out, preceded_by(c), i);
    // A first index exists: the least i with precedes(c, out[i]), or out.len().
    assert(exists|i: int| is_first(out, preceded_by(c), i)) by {
        let mut k: int = 0;
        if exists|i: int| 0 <= i < out.len() && #[trigger] precedes(c, out[i]) {
            let w = choose|i: int| 0 <= i < out.len() && #[trigger] precedes(c, out[i]);
            // c precedes every later element too, since out is ranked.
            let m = first_precedes_witness(out, c, w);
            assert(is_first(out, preceded_by(c), m));
        } else {
            assert(is_first(out, preceded_by(c), out.len() as int));
        }
    }
    assert(is_first(out, preceded_by(c), p));
    let r = out.insert(p, c);
    assert forall|i: int| 0 <= i < p implies precedes(#[trigger] out[i], c) by {
        assert(!precedes(c, out[i]));
        lemma_precedes_total(out[i], c);
    }
    assert forall|i: int| p <= i < out.len() implies precedes(c, #[trigger] out[i]) by {
        if i > p {
            lemma_precedes_transitive(c, out[p], out[i]);
        }
    }
    assert forall|i: int, j: int| 0 <= i < j < r.len() implies precedes(#[trigger] r[i], #[trigger] r[j]) by {
        if i < p && j < p {
        } else if i < p && j == p {
        } else if i < p && j > p {
            assert(r[j] == out[j - 1]);
        } else if i == p {
            assert(r[j] == out[j - 1]);
        } else {
            assert(r[i] == out[i - 1]);
            assert(r[j] == out[j - 1]);
        }
    }
    assert forall|i: int, j: int| 0 <= i < j < r.len() implies (#[trigger] r[i]).token_id != (
    #[trigger] r[j]).token_id by {
        if i < p && j < p {
        } else if i < p && j == p {
        } else if i < p && j > p {
            assert(r[j] == out[j - 1]);
        } else if i == p {
            assert(r[j] == out[j - 1]);
        } else {
            assert(r[i] == out[i - 1]);
            assert(r[j] == out[j - 1]);
        }
    }
    assert forall|i: int| 0 <= i < r.len() implies (#[trigger] r[i]).token_id > AUTOSUGGEST_UNK_ID by {
        if i < p {
        } else if i == p {
        } else {
            assert(r[i] == out[i - 1]);
        }
    }
}

proof fn first_precedes_witness(out: Seq<AutosuggestCandidateId>, c: AutosuggestCandidateId, w: int) -> (m: int)
    requires
        0 <= w < out.len(),
        precedes(c, out[w]),
    ensures
        is_first(out, preceded_by(c), m),
    decreases w,
{
    if exists|i: int| 0 <= i < w && #[trigger] precedes(c, out[i]) {
        let v = choose|i: int| 0 <= i < w && #[trigger] precedes(c, out[i]);
        first_precedes_witness(out, c, v)
    } else {
        w
    }
}

proof fn lemma_ranked_remove(out: Seq<AutosuggestCandidateId>, p: int)
    requires
        ranked(out),
        distinct_ids(out),
        word_ids(out),
        0 <= p < out.len(),
    ensures
        ranked(out.remove(p)),
        distinct_ids(out.remove(p)),
        word_ids(out.remove(p)),
        forall|j: int|
            0 <= j < out.remove(p).len() ==> (#[trigger] out.remove(p)[j]).token_id != out[p].token_id,
{
    let r = out.remove(p);
    assert forall|i: int| 0 <= i < r.len() implies #[trigger] r[i] == (if i < p {
        out[i]
    } else {
        out[i + 1]
    }) by {}
    assert forall|i: int, j: int| 0 <= i < j < r.len() implies precedes(#[trigger] r[i], #[trigger] r[j]) by {
        let a = if i < p { i } else { i + 1 };
        let b = if j < p { j } else { j + 1 };
        assert(r[i] == out[a]);
        assert(r[j] == out[b]);
    }
    assert forall|i: int, j: int| 0 <= i < j < r.len() implies (#[trigger] r[i]).token_id != (
    #[trigger] r[j]).token_id by {
        let a = if i < p { i } else { i + 1 };
        let b = if j < p { j } else { j + 1 };
        assert(r[i] == out[a]);
        assert(r[j] == out[b]);
    }
    assert forall|i: int| 0 <= i < r.len() implies (#[trigger] r[i]).token_id > AUTOSUGGEST_UNK_ID by {
        let a = if i < p { i } else { i + 1 };
        assert(r[i] == out[a]);
    }
    assert forall|j: int| 0 <= j < r.len() implies (#[trigger] r[j]).token_id != out[p].token_id by {
        let a = if j < p { j } else { j + 1 };
        assert(r[j] == out[a]);
    }
}

/// Law: a merge step keeps a ranked, duplicate-free list of word ids within
/// its bound.
pub proof fn lemma_merge_step_keeps_ranked_list(
    out: Seq<AutosuggestCandidateId>,
    c: AutosuggestCandidateId,
    limit: int,
)
    requires
        limit >= 1,
        ranked_list(out, limit),
    ensures
        ranked_list(merge_step(out, c, limit).0, limit),
{
    if c.token_id > AUTOSUGGEST_UNK_ID {
        let p = first_index(out, same_id(c.token_id));
        let q = if exists|i: int| 0 <= i < out.len() && (#[trigger] out[i]).token_id == c.token_id {
            let w = choose|i: int| 0 <= i < out.len() && (#[trigger] out[i]).token_id == c.token_id;
            assert(is_first(out, same_id(c.token_id), w)) by {
                assert forall|j: int| 0 <= j < w implies !(#[trigger] same_id(c.token_id)(out[j])) by {
                }
            }
            w
        } else {
            assert(is_first(out, same_id(c.token_id), out.len() as int));
            out.len() as int
        };
        lemma_first_index(out, same_id(c.token_id), q);
        if p < out.len() {
            if precedes(c, out[p]) {
                lemma_ranked_remove(out, p);
                lemma_insert_ranked(out.remove(p), c);
            }
        } else if out.len() >= limit && out.len() > 0 && !precedes(c, out.last()) {
        } else if out.len() >= limit && out.len() > 0 {
            lemma_ranked_remove(out, out.len() - 1);
            assert(out.drop_last() =~= out.remove(out.len() - 1));
            assert forall|j: int| 0 <= j < out.drop_last().len() implies (
            #[trigger] out.drop_last()[j]).token_id != c.token_id by {
                assert(!same_id(c.token_id)(out[j]));
            }
            lemma_insert_ranked(out.drop_last(), c);
        } else {
            assert forall|j: int| 0 <= j < out.len() implies (#[trigger] out[j]).token_id
                != c.token_id by {
                assert(!same_id(c.token_id)(out[j]));
            }
            lemma_insert_ranked(out, c);
        }
    }
}

/// Law: an append step keeps a duplicate-free list of word ids.
pub proof fn lemma_append_step_keeps_distinct(out: Seq<AutosuggestCandidateId>, c: AutosuggestCandidateId)
    requires
        distinct_ids(out),
        word_ids(out),
    ensures
        distinct_ids(append_step(out, c)),
        word_ids(append_step(out, c)),
        append_step(out, c).len() <= out.len() + 1,
{
    let r = append_step(out, c);
    if r != out {
        assert forall|i: int, j: int| 0 <= i < j < r.len() implies (#[trigger] r[i]).token_id != (
        #[trigger] r[j]).token_id by {
            if j == out.len() {
                assert(r[i] == out[i]);
            } else {
                assert(r[i] == out[i]);
                assert(r[j] == out[j]);
            }
        }
        assert forall|i: int| 0 <= i < r.len() implies (#[trigger] r[i]).token_id > AUTOSUGGEST_UNK_ID by {
            if i < out.len() {
                assert(r[i] == out[i]);
            }
        }
    }
}

/// Finds the first candidate with `token_id`.
pub fn position_of_id(out: &Vec<AutosuggestCandidateId>, token_id: u32) -> (p: usize)
    ensures
        is_first(out@, same_id(token_id), p as int),
        p as int == first_index(out@, same_id(token_id)),
{
    let mut i: usize = 0;
    while i < out.len()
        invariant
            i <= out@.len(),
            forall|j: int| 0 <= j < i ==> !(#[trigger] same_id(token_id)(out@[j])),
        decreases out@.len() - i,
    {
        if out[i].token_id == token_id {
            proof {
                lemma_first_index(out@, same_id(token_id), i as int);
            }
            return i;
        }
        i = i + 1;
    }
    proof {
        lemma_first_index(out@, same_id(token_id), i as int);
    }
    i
}

/// Inserts `c` before the first candidate it precedes.
pub fn insert_ranked_exec(out: &mut Vec<AutosuggestCandidateId>, c: AutosuggestCandidateId)
    ensures
        final(out)@ == insert_ranked(old(out)@, c),
{
    let mut i: usize = 0;
    while i < out.len() && !candidate_id_precedes(&c, &out[i])
        invariant
            i <= out@.len(),
            out@ == old(out)@,
            forall|j: int| 0 <= j < i ==> !(#[trigger] preceded_by(c)(out@[j])),
        decreases out@.len() - i,
    {
        i = i + 1;
    }
    proof {
        lemma_first_index(out@, preceded_by(c), i as int);
    }
    out.insert(i, c);
}

/// One merge step on a caller-owned list.
pub fn merge_candidate_id(
    out: &mut Vec<AutosuggestCandidateId>,
    c: AutosuggestCandidateId,
    limit: usize,
) -> (st: MergeStatus)
    ensures
        (final(out)@, st) == merge_step(old(out)@, c, limit as int),
{
    if c.token_id <= AUTOSUGGEST_UNK_ID {
        return MergeStatus::Continue;
    }
    let p = position_of_id(out, c.token_id);
    if p < out.len() {
        if candidate_id_precedes(&c, &out[p]) {
            out.remove(p);
            insert_ranked_exec(out, c);
            return MergeStatus::Accepted;
        } else if out.len() >= limit && !candidate_id_precedes(&c, &out[out.len() - 1]) {
            return MergeStatus::Stop;
        } else {
            return MergeStatus::Continue;
        }
    }
    if out.len() >= limit && out.len() > 0 && !candidate_id_precedes(&c, &out[out.len() - 1]) {
        return MergeStatus::Stop;
    }
    if out.len() >= limit && out.len() > 0 {
        out.pop();
    }
    insert_ranked_exec(out, c);
    MergeStatus::Accepted
}

/// Whether some candidate already has `token_id`.
pub fn contains_id(out: &Vec<AutosuggestCandidateId>, token_id: u32) -> (b: bool)
    ensures
        b == exists|j: int| 0 <= j < out@.len() && (#[trigger] out@[j]).token_id == token_id,
{
    let mut i: usize = 0;
    while i < out.len()
        invariant
            i <= out@.len(),
            forall|j: int| 0 <= j < i ==> (#[trigger] out@[j]).token_id != token_id,
        decreases out@.len() - i,
    {
        if out[i].token_id == token_id {
            return true;
        }
        i = i + 1;
    }
    false
}

/// One backoff-order append step on a caller-owned list.
pub fn append_candidate_id(out: &mut Vec<AutosuggestCandidateId>, c: AutosuggestCandidateId)
    ensures
        final(out)@ == append_step(old(out)@, c),
{
    if c.token_id <= AUTOSUGGEST_UNK_ID || contains_id(out, c.token_id) {
        return ;
    }
    out.push(c);
}

} // verus!
