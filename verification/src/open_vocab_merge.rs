//! Joining the static model's candidates, a generator's word ids and its
//! accepted free-text words into one list keyed by text: each text once, in
//! order of first appearance, with every signal that named it. Generator
//! proposals are referred to by their index, so their scores stay with the
//! caller, who ranks the joined list.

use vstd::prelude::*;
use vstd::utf8::{decode_utf8, encode_utf8_decode_utf8};
use vstd::string::StringSliceAdditionalSpecFns;
use crate::artifact::AutosuggestArtifactError;
use crate::candidate::{first_index, is_first, lemma_first_index, AutosuggestCandidateId};
use crate::lm::{AutosuggestLm, LmView};

verus! {

/// Which signals named a joined candidate.
#[derive(Debug, Clone, Copy, PartialEq, Eq, Structural)]
pub enum AutosuggestUnifiedCandidateKind {
    Static,
    GeneratedToken,
    GeneratedText,
    /// More than one signal, or the same signal twice.
    Mixed,
}

#[derive(Debug, Clone, Copy, PartialEq, Eq)]
pub enum AutosuggestOpenVocabError {
    Artifact(AutosuggestArtifactError),
    InvalidBuffer { field: &'static str, expected: usize, actual: usize },
}

impl From<AutosuggestArtifactError> for AutosuggestOpenVocabError {
    fn from(error: AutosuggestArtifactError) -> (r: Self) {
        AutosuggestOpenVocabError::Artifact(error)
    }
}

impl vstd::std_specs::convert::FromSpecImpl<AutosuggestArtifactError> for AutosuggestOpenVocabError {
    open spec fn obeys_from_spec() -> bool {
        true
    }

    open spec fn from_spec(v: AutosuggestArtifactError) -> Self {
        AutosuggestOpenVocabError::Artifact(v)
    }
}

/// One joined candidate: its text, the word id when the model's vocabulary
/// holds it, and each signal that named it (the static candidate and its
/// rank, the index of the generator's word id, the index of the generator's
/// free text).
#[derive(Debug, Clone)]
pub struct AutosuggestUnifiedCandidatePick {
    pub text: String,
    pub token_id: Option<u32>,
    pub kind: AutosuggestUnifiedCandidateKind,
    pub static_rank: Option<usize>,
    pub static_candidate: Option<AutosuggestCandidateId>,
    pub generated_token_index: Option<usize>,
    pub generated_text_index: Option<usize>,
}

pub struct UnifiedPickView {
    pub text: Seq<char>,
    pub token_id: Option<u32>,
    pub kind: AutosuggestUnifiedCandidateKind,
    pub static_rank: Option<usize>,
    pub static_candidate: Option<AutosuggestCandidateId>,
    pub generated_token_index: Option<usize>,
    pub generated_text_index: Option<usize>,
}

impl View for AutosuggestUnifiedCandidatePick {
    type V = UnifiedPickView;

    open spec fn view(&self) -> UnifiedPickView {
        UnifiedPickView {
            text: self.text@,
            token_id: self.token_id,
            kind: self.kind,
            static_rank: self.static_rank,
            static_candidate: self.static_candidate,
            generated_token_index: self.generated_token_index,
            generated_text_index: self.generated_text_index,
        }
    }
}

pub open spec fn picks_view(s: Seq<AutosuggestUnifiedCandidatePick>) -> Seq<UnifiedPickView> {
    s.map_values(|p: AutosuggestUnifiedCandidatePick| p@)
}

pub open spec fn same_text(t: Seq<char>) -> spec_fn(UnifiedPickView) -> bool {
    |x: UnifiedPickView| x.text == t
}

/// The characters of a word of the model.
pub open spec fn token_chars(v: LmView, id: u32) -> Result<Seq<char>, AutosuggestArtifactError> {
    match v.token_text(id) {
        Ok(b) => Ok(decode_utf8(b)),
        Err(e) => Err(e),
    }
}

/// The static candidate of rank `rank`, whose text is `t`, joins the list.
pub open spec fn static_joined(out: Seq<UnifiedPickView>, t: Seq<char>, rank: int, c: AutosuggestCandidateId) -> Seq<
    UnifiedPickView,
> {
    let p = first_index(out, same_text(t));
    if p < out.len() {
        out.update(
            p,
            UnifiedPickView {
                token_id: Some(c.token_id),
                static_rank: Some(rank as usize),
                static_candidate: Some(c),
                kind: AutosuggestUnifiedCandidateKind::Mixed,
                ..out[p]
            },
        )
    } else {
        out.push(
            UnifiedPickView {
                text: t,
                token_id: Some(c.token_id),
                kind: AutosuggestUnifiedCandidateKind::Static,
                static_rank: Some(rank as usize),
                static_candidate: Some(c),
                generated_token_index: None,
                generated_text_index: None,
            },
        )
    }
}

/// The generator's word id number `g` (the word `id`, whose text is `t`)
/// joins the list.
pub open spec fn token_joined(out: Seq<UnifiedPickView>, t: Seq<char>, g: int, id: u32) -> Seq<UnifiedPickView> {
    let p = first_index(out, same_text(t));
    if p < out.len() {
        out.update(
            p,
            UnifiedPickView {
                token_id: Some(id),
                generated_token_index: Some(g as usize),
                kind: AutosuggestUnifiedCandidateKind::Mixed,
                ..out[p]
            },
        )
    } else {
        out.push(
            UnifiedPickView {
                text: t,
                token_id: Some(id),
                kind: AutosuggestUnifiedCandidateKind::GeneratedToken,
                static_rank: None,
                static_candidate: None,
                generated_token_index: Some(g as usize),
                generated_text_index: None,
            },
        )
    }
}

/// The generator's free text number `k`, `t`, joins the list.
pub open spec fn text_joined(out: Seq<UnifiedPickView>, t: Seq<char>, k: int) -> Seq<UnifiedPickView> {
    let p = first_index(out, same_text(t));
    if p < out.len() {
        out.update(
            p,
            UnifiedPickView {
                generated_text_index: Some(k as usize),
                kind: AutosuggestUnifiedCandidateKind::Mixed,
                ..out[p]
            },
        )
    } else {
        out.push(
            UnifiedPickView {
                text: t,
                token_id: None,
                kind: AutosuggestUnifiedCandidateKind::GeneratedText,
                static_rank: None,
                static_candidate: None,
                generated_token_index: None,
                generated_text_index: Some(k as usize),
            },
        )
    }
}

/// Static candidates `i..` join in rank order; the first whose word the
/// model cannot spell stops the join, with what was joined so far.
pub open spec fn join_statics(v: LmView, st: Seq<AutosuggestCandidateId>, i: int, out: Seq<UnifiedPickView>) -> Result<
    Seq<UnifiedPickView>,
    (Seq<UnifiedPickView>, AutosuggestArtifactError),
>
    decreases st.len() - i,
{
    if i >= st.len() || i < 0 {
        Ok(out)
    } else {
        match token_chars(v, st[i].token_id) {
            Err(e) => Err((out, e)),
            Ok(t) => join_statics(v, st, i + 1, static_joined(out, t, i, st[i])),
        }
    }
}

/// The generator's word ids `i..` join in order, stopping as above.
pub open spec fn join_tokens(v: LmView, gen: Seq<u32>, i: int, out: Seq<UnifiedPickView>) -> Result<
    Seq<UnifiedPickView>,
    (Seq<UnifiedPickView>, AutosuggestArtifactError),
>
    decreases gen.len() - i,
{
    if i >= gen.len() || i < 0 {
        Ok(out)
    } else {
        match token_chars(v, gen[i]) {
            Err(e) => Err((out, e)),
            Ok(t) => join_tokens(v, gen, i + 1, token_joined(out, t, i, gen[i])),
        }
    }
}

/// The generator's free texts `i..` join in order.
pub open spec fn join_texts(texts: Seq<Seq<char>>, i: int, out: Seq<UnifiedPickView>) -> Seq<UnifiedPickView>
    decreases texts.len() - i,
{
    if i >= texts.len() || i < 0 {
        out
    } else {
        join_texts(texts, i + 1, text_joined(out, texts[i], i))
    }
}

/// The joined list of static candidates `st`, the generator's word ids
/// `gen` and its free texts `texts`; or the first word the model cannot
/// spell, with the list joined up to it.
pub open spec fn unified_picks(v: LmView, st: Seq<AutosuggestCandidateId>, gen: Seq<u32>, texts: Seq<Seq<char>>) -> Result<
    Seq<UnifiedPickView>,
    (Seq<UnifiedPickView>, AutosuggestArtifactError),
> {
    match join_statics(v, st, 0, Seq::empty()) {
        Err(p) => Err(p),
        Ok(o1) => match join_tokens(v, gen, 0, o1) {
            Err(p) => Err(p),
            Ok(o2) => Ok(join_texts(texts, 0, o2)),
        },
    }
}

/// No text twice.
pub open spec fn texts_distinct(s: Seq<UnifiedPickView>) -> bool {
    forall|i: int, j: int| 0 <= i < j < s.len() ==> (#[trigger] s[i]).text != (#[trigger] s[j]).text
}

proof fn lemma_joined_keeps(out: Seq<UnifiedPickView>, t: Seq<char>, r: Seq<UnifiedPickView>)
    requires
        texts_distinct(out),
        r.len() == out.len() || (r.len() == out.len() + 1 && r.last().text == t && forall|k: int|
            0 <= k < out.len() ==> (#[trigger] out[k]).text != t),
        forall|k: int| 0 <= k < out.len() ==> (#[trigger] r[k]).text == out[k].text,
    ensures
        texts_distinct(r),
{
    assert forall|i: int, j: int| 0 <= i < j < r.len() implies (#[trigger] r[i]).text != (#[trigger] r[j]).text by {
        if j < out.len() {
            assert(r[i].text == out[i].text && r[j].text == out[j].text);
        } else {
            assert(r[i].text == out[i].text);
        }
    }
}

proof fn lemma_first_text(out: Seq<UnifiedPickView>, t: Seq<char>)
    ensures
        0 <= first_index(out, same_text(t)) <= out.len(),
        first_index(out, same_text(t)) < out.len() ==> out[first_index(out, same_text(t))].text == t,
        first_index(out, same_text(t)) == out.len() ==> forall|k: int| 0 <= k < out.len() ==> (#[trigger] out[k]).text != t,
{
    crate::personal::lemma_first_index_exists(out, same_text(t));
    let p = first_index(out, same_text(t));
    if p == out.len() {
        assert forall|k: int| 0 <= k < out.len() implies (#[trigger] out[k]).text != t by {
            assert(!same_text(t)(out[k]));
        }
    }
}

proof fn lemma_join_statics_distinct(v: LmView, st: Seq<AutosuggestCandidateId>, i: int, out: Seq<UnifiedPickView>)
    requires
        texts_distinct(out),
    ensures
        match join_statics(v, st, i, out) {
            Ok(o) => texts_distinct(o),
            Err((o, _)) => texts_distinct(o),
        },
    decreases st.len() - i,
{
    if 0 <= i < st.len() {
        if let Ok(t) = token_chars(v, st[i].token_id) {
            lemma_first_text(out, t);
            lemma_joined_keeps(out, t, static_joined(out, t, i, st[i]));
            lemma_join_statics_distinct(v, st, i + 1, static_joined(out, t, i, st[i]));
        }
    }
}

proof fn lemma_join_tokens_distinct(v: LmView, gen: Seq<u32>, i: int, out: Seq<UnifiedPickView>)
    requires
        texts_distinct(out),
    ensures
        match join_tokens(v, gen, i, out) {
            Ok(o) => texts_distinct(o),
            Err((o, _)) => texts_distinct(o),
        },
    decreases gen.len() - i,
{
    if 0 <= i < gen.len() {
        if let Ok(t) = token_chars(v, gen[i]) {
            lemma_first_text(out, t);
            lemma_joined_keeps(out, t, token_joined(out, t, i, gen[i]));
            lemma_join_tokens_distinct(v, gen, i + 1, token_joined(out, t, i, gen[i]));
        }
    }
}

proof fn lemma_join_texts_distinct(texts: Seq<Seq<char>>, i: int, out: Seq<UnifiedPickView>)
    requires
        texts_distinct(out),
    ensures
        texts_distinct(join_texts(texts, i, out)),
    decreases texts.len() - i,
{
    if 0 <= i < texts.len() {
        lemma_first_text(out, texts[i]);
        lemma_joined_keeps(out, texts[i], text_joined(out, texts[i], i));
        lemma_join_texts_distinct(texts, i + 1, text_joined(out, texts[i], i));
    }
}

/// The joined list holds each text once, whether the join completes or
/// stops at a word the model cannot spell.
pub proof fn lemma_unified_texts_distinct(
    v: LmView,
    st: Seq<AutosuggestCandidateId>,
    gen: Seq<u32>,
    texts: Seq<Seq<char>>,
)
    ensures
        match unified_picks(v, st, gen, texts) {
            Ok(o) => texts_distinct(o),
            Err((o, _)) => texts_distinct(o),
        },
{
    lemma_join_statics_distinct(v, st, 0, Seq::empty());
    if let Ok(o1) = join_statics(v, st, 0, Seq::empty()) {
        lemma_join_tokens_distinct(v, gen, 0, o1);
        if let Ok(o2) = join_tokens(v, gen, 0, o1) {
            lemma_join_texts_distinct(texts, 0, o2);
        }
    }
}

fn text_position(out: &Vec<AutosuggestUnifiedCandidatePick>, t: &String) -> (p: usize)
    ensures
        p as int == first_index(picks_view(out@), same_text(t@)),
        p <= out@.len(),
{
    let ghost s = picks_view(out@);
    let mut i: usize = 0;
    while i < out.len()
        invariant
            s == picks_view(out@),
            i <= out@.len(),
            forall|j: int| 0 <= j < i ==> !(#[trigger] same_text(t@)(s[j])),
        decreases out@.len() - i,
    {
        if out[i].text == *t {
            proof {
                lemma_first_index(s, same_text(t@), i as int);
            }
            return i;
        }
        i = i + 1;
    }
    proof {
        lemma_first_index(s, same_text(t@), i as int);
    }
    i
}

/// Replaces entry `p`, keeping the view of the rest.
fn set_pick(out: &mut Vec<AutosuggestUnifiedCandidatePick>, p: usize, x: AutosuggestUnifiedCandidatePick)
    requires
        p < old(out)@.len(),
    ensures
        picks_view(final(out)@) == picks_view(old(out)@).update(p as int, x@),
{
    out.set(p, x);
    proof {
        assert(picks_view(out@) =~= picks_view(old(out)@).update(p as int, x@));
    }
}

fn push_pick(out: &mut Vec<AutosuggestUnifiedCandidatePick>, x: AutosuggestUnifiedCandidatePick)
    ensures
        picks_view(final(out)@) == picks_view(old(out)@).push(x@),
{
    out.push(x);
    proof {
        assert(picks_view(out@) =~= picks_view(old(out)@).push(x@));
    }
}

/// The text of word `id`, as the model spells it.
fn word_text(lm: &AutosuggestLm, id: u32) -> (r: Result<String, AutosuggestArtifactError>)
    ensures
        match token_chars(lm@, id) {
            Ok(t) => r matches Ok(s) && s@ == t,
            Err(e) => r == Err::<String, AutosuggestArtifactError>(e),
        },
{
    match lm.token_text(id) {
        Ok(s) => {
            proof {
                encode_utf8_decode_utf8(s@);
            }
            Ok(s.to_owned())
        },
        Err(e) => Err(e),
    }
}

fn join_static(out: &mut Vec<AutosuggestUnifiedCandidatePick>, t: String, rank: usize, c: AutosuggestCandidateId)
    ensures
        picks_view(final(out)@) == static_joined(picks_view(old(out)@), t@, rank as int, c),
{
    let p = text_position(out, &t);
    if p < out.len() {
        let e = &out[p];
        let x = AutosuggestUnifiedCandidatePick {
            text: e.text.clone(),
            token_id: Some(c.token_id),
            kind: AutosuggestUnifiedCandidateKind::Mixed,
            static_rank: Some(rank),
            static_candidate: Some(c),
            generated_token_index: e.generated_token_index,
            generated_text_index: e.generated_text_index,
        };
        set_pick(out, p, x);
    } else {
        push_pick(
            out,
            AutosuggestUnifiedCandidatePick {
                text: t,
                token_id: Some(c.token_id),
                kind: AutosuggestUnifiedCandidateKind::Static,
                static_rank: Some(rank),
                static_candidate: Some(c),
                generated_token_index: None,
                generated_text_index: None,
            },
        );
    }
}

fn join_token(out: &mut Vec<AutosuggestUnifiedCandidatePick>, t: String, g: usize, id: u32)
    ensures
        picks_view(final(out)@) == token_joined(picks_view(old(out)@), t@, g as int, id),
{
    let p = text_position(out, &t);
    if p < out.len() {
        let e = &out[p];
        let x = AutosuggestUnifiedCandidatePick {
            text: e.text.clone(),
            token_id: Some(id),
            kind: AutosuggestUnifiedCandidateKind::Mixed,
            static_rank: e.static_rank,
            static_candidate: e.static_candidate,
            generated_token_index: Some(g),
            generated_text_index: e.generated_text_index,
        };
        set_pick(out, p, x);
    } else {
        push_pick(
            out,
            AutosuggestUnifiedCandidatePick {
                text: t,
                token_id: Some(id),
                kind: AutosuggestUnifiedCandidateKind::GeneratedToken,
                static_rank: None,
                static_candidate: None,
                generated_token_index: Some(g),
                generated_text_index: None,
            },
        );
    }
}

fn join_text(out: &mut Vec<AutosuggestUnifiedCandidatePick>, t: &String, k: usize)
    ensures
        picks_view(final(out)@) == text_joined(picks_view(old(out)@), t@, k as int),
{
    let p = text_position(out, t);
    if p < out.len() {
        let e = &out[p];
        let x = AutosuggestUnifiedCandidatePick {
            text: e.text.clone(),
            token_id: e.token_id,
            kind: AutosuggestUnifiedCandidateKind::Mixed,
            static_rank: e.static_rank,
            static_candidate: e.static_candidate,
            generated_token_index: e.generated_token_index,
            generated_text_index: Some(k),
        };
        set_pick(out, p, x);
    } else {
        push_pick(
            out,
            AutosuggestUnifiedCandidatePick {
                text: t.clone(),
                token_id: None,
                kind: AutosuggestUnifiedCandidateKind::GeneratedText,
                static_rank: None,
                static_candidate: None,
                generated_token_index: None,
                generated_text_index: Some(k),
            },
        );
    }
}

/// Joins the static candidates, then the generator's word ids, then its
/// free texts into `output`, one entry per text (see [`unified_picks`]).
pub fn unify_static_generated_and_text_candidates_into(
    lm: &AutosuggestLm,
    static_candidates: &[AutosuggestCandidateId],
    generated_token_ids: &[u32],
    generated_texts: &[String],
    output: &mut Vec<AutosuggestUnifiedCandidatePick>,
) -> (r: Result<(), AutosuggestOpenVocabError>)
    ensures
        match unified_picks(
            lm@,
            static_candidates@,
            generated_token_ids@,
            generated_texts@.map_values(|s: String| s@),
        ) {
            Ok(o) => r is Ok && picks_view(final(output)@) == o,
            Err((o, e)) => r == Err::<(), AutosuggestOpenVocabError>(AutosuggestOpenVocabError::Artifact(e))
                && picks_view(final(output)@) == o,
        },
{
    output.clear();
    proof {
        assert(picks_view(output@) =~= Seq::<UnifiedPickView>::empty());
    }
    let ghost st = static_candidates@;
    let ghost gen = generated_token_ids@;
    let ghost texts = generated_texts@.map_values(|s: String| s@);
    let mut i: usize = 0;
    while i < static_candidates.len()
        invariant
            st == static_candidates@,
            i <= st.len(),
            join_statics(lm@, st, 0, Seq::empty()) == join_statics(lm@, st, i as int, picks_view(output@)),
        decreases st.len() - i,
    {
        let c = static_candidates[i];
        let t = match word_text(lm, c.token_id) {
            Ok(t) => t,
            Err(e) => {
                return Err(AutosuggestOpenVocabError::Artifact(e));
            },
        };
        join_static(output, t, i, c);
        i = i + 1;
    }
    let ghost o1 = picks_view(output@);
    assert(join_statics(lm@, st, 0, Seq::empty()) == Ok::<Seq<UnifiedPickView>, (Seq<UnifiedPickView>, AutosuggestArtifactError)>(o1));
    let mut g: usize = 0;
    while g < generated_token_ids.len()
        invariant
            st == static_candidates@,
            gen == generated_token_ids@,
            join_statics(lm@, st, 0, Seq::empty()) == Ok::<Seq<UnifiedPickView>, (Seq<UnifiedPickView>, AutosuggestArtifactError)>(o1),
            g <= gen.len(),
            join_tokens(lm@, gen, 0, o1) == join_tokens(lm@, gen, g as int, picks_view(output@)),
        decreases gen.len() - g,
    {
        let id = generated_token_ids[g];
        let t = match word_text(lm, id) {
            Ok(t) => t,
            Err(e) => {
                return Err(AutosuggestOpenVocabError::Artifact(e));
            },
        };
        join_token(output, t, g, id);
        g = g + 1;
    }
    let ghost o2 = picks_view(output@);
    assert(join_tokens(lm@, gen, 0, o1) == Ok::<Seq<UnifiedPickView>, (Seq<UnifiedPickView>, AutosuggestArtifactError)>(o2));
    let mut k: usize = 0;
    while k < generated_texts.len()
        invariant
            st == static_candidates@,
            gen == generated_token_ids@,
            join_statics(lm@, st, 0, Seq::empty()) == Ok::<Seq<UnifiedPickView>, (Seq<UnifiedPickView>, AutosuggestArtifactError)>(o1),
            join_tokens(lm@, gen, 0, o1) == Ok::<Seq<UnifiedPickView>, (Seq<UnifiedPickView>, AutosuggestArtifactError)>(o2),
            texts == generated_texts@.map_values(|s: String| s@),
            k <= texts.len(),
            join_texts(texts, 0, o2) == join_texts(texts, k as int, picks_view(output@)),
        decreases texts.len() - k,
    {
        join_text(output, &generated_texts[k], k);
        k = k + 1;
    }
    Ok(())
}

} // verus!
