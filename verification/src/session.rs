//! A keyboard session: the static model, the personal store, both contexts,
//! the recent-phrase history and reused candidate buffers.

use vstd::prelude::*;
use crate::artifact::AutosuggestArtifactError;
use crate::candidate::{AutosuggestCandidate, AutosuggestCandidateId, AutosuggestOptions};
use crate::capacity::{reserve_to, vec_capacity};
use crate::context::{AutosuggestContext, ContextView, push_window, AUTOSUGGEST_UNK_ID};
use crate::lm::{
    spec_scorer_ids, filled, AutosuggestLm, AutosuggestMetadata,
    AutosuggestRerankInputMetadata, LmView,
};
use crate::merge::{blended_ids, spec_pool_limit, session_repetition_guard_pool_limit};
use crate::personal::{
    committed_text_weight_v, committed_token_weight_v, raw_commit, resolved_commit, validate_model_v,
    CommitState, PersonalAutosuggest, PersonalView,
};
use crate::personal_context::{PersonalAutosuggestContext, PersonalContextView, fresh_personal_context};
use crate::personal_maint::{snapshot_len_of, unigram_rebuild};
use crate::personal_query::{collect_texts_keys, query_keys};
use crate::personal_snapshot::{parse_snapshot, snapshot_bytes, PersonalAutosuggestSnapshotError};
use crate::personal::text_cache;
use crate::personal_types::{
    spec_weight, text_bytes, CommitStrength, PersonalAutosuggestConfig,
    PersonalAutosuggestSuggestion, PersonalAutosuggestTextSuggestion,
};
use crate::text::{analyze_context_token, spec_trimmed, spec_trailing_boundary};

verus! {

pub const REPETITION_HISTORY_TOKENS: usize = 256;

/// The recent committed ids the repetition guard looks at: a known word is
/// appended (keeping the newest 256), unknown text counts as `<unk>`, a
/// reserved id clears it, and a trailing boundary clears it after the push.
pub open spec fn history_observe(h: Seq<u32>, token_id: Option<u32>, had_text: bool, boundary: bool) -> Seq<u32> {
    match token_id {
        Some(id) => if id > AUTOSUGGEST_UNK_ID {
            if boundary {
                Seq::empty()
            } else {
                push_window(h, id, REPETITION_HISTORY_TOKENS as int)
            }
        } else {
            Seq::empty()
        },
        None => if had_text {
            if boundary {
                Seq::empty()
            } else {
                push_window(h, AUTOSUGGEST_UNK_ID, REPETITION_HISTORY_TOKENS as int)
            }
        } else if boundary {
            Seq::empty()
        } else {
            h
        },
    }
}

/// The recent-phrase history of a session.
#[derive(Debug, Clone, PartialEq, Eq)]
pub struct AutosuggestRepetitionHistory {
    ids: Vec<u32>,
}

impl View for AutosuggestRepetitionHistory {
    type V = Seq<u32>;

    closed spec fn view(&self) -> Seq<u32> {
        self.ids@
    }
}

impl AutosuggestRepetitionHistory {
    pub closed spec fn wf(&self) -> bool {
        self.ids@.len() <= REPETITION_HISTORY_TOKENS
    }

    pub fn new() -> (h: Self)
        ensures
            h.wf(),
            h@ == Seq::<u32>::empty(),
    {
        AutosuggestRepetitionHistory { ids: Vec::new() }
    }

    pub fn clear(&mut self)
        ensures
            final(self).wf(),
            final(self)@ == Seq::<u32>::empty(),
    {
        self.ids.clear();
    }

    pub fn recent_token_ids(&self) -> (s: &[u32])
        requires
            self.wf(),
        ensures
            s@ == self@,
            s@.len() <= REPETITION_HISTORY_TOKENS,
    {
        self.ids.as_slice()
    }

    fn push_token_id(&mut self, id: u32)
        requires
            old(self).wf(),
        ensures
            final(self).wf(),
            final(self)@ == push_window(old(self)@, id, REPETITION_HISTORY_TOKENS as int),
    {
        if self.ids.len() < REPETITION_HISTORY_TOKENS {
            self.ids.push(id);
        } else {
            self.ids.remove(0);
            self.ids.push(id);
            assert(self.ids@ =~= old(self)@.drop_first().push(id));
        }
    }

    /// Records one committed token (see [`history_observe`]).
    pub fn observe_resolved_token(&mut self, token_id: Option<u32>, had_text: bool, boundary_after: bool)
        requires
            old(self).wf(),
        ensures
            final(self).wf(),
            final(self)@ == history_observe(old(self)@, token_id, had_text, boundary_after),
    {
        match token_id {
            Some(id) => {
                if id > AUTOSUGGEST_UNK_ID {
                    self.push_token_id(id);
                    if boundary_after {
                        self.clear();
                    }
                } else {
                    self.clear();
                }
            },
            None => {
                if had_text {
                    self.push_token_id(AUTOSUGGEST_UNK_ID);
                    if boundary_after {
                        self.clear();
                    }
                } else if boundary_after {
                    self.clear();
                }
            },
        }
    }
}

/// What committing a raw token tells the repetition guard: its resolved id,
/// whether it had a word, and whether it ends a sentence.
pub open spec fn observation(lm: LmView, raw: Seq<char>) -> Result<(Option<u32>, bool, bool), AutosuggestArtifactError> {
    let t = spec_trimmed(raw);
    let b = spec_trailing_boundary(raw);
    if t.len() > 0 {
        match lm.lookup_token(text_bytes(t)) {
            Err(e) => Err(e),
            Ok(id) => Ok((id, true, b)),
        }
    } else {
        Ok((None, false, b))
    }
}

pub fn repetition_observation_for_raw_token(lm: &AutosuggestLm, raw_token: &str) -> (r: Result<
    (Option<u32>, bool, bool),
    AutosuggestArtifactError,
>)
    ensures
        r == observation(lm@, raw_token@),
{
    let token = analyze_context_token(raw_token);
    match token.text {
        Some(text) => match lm.token_id(text.as_str()) {
            Ok(id) => Ok((id, true, token.boundary_after)),
            Err(e) => Err(e),
        },
        None => Ok((None, false, token.boundary_after)),
    }
}

/// The state of a session.
pub struct SessionView<'lm> {
    pub model: LmView,
    pub personal: PersonalView,
    pub context: ContextView,
    pub personal_context: PersonalContextView,
    pub history: Seq<u32>,
    pub options: AutosuggestOptions,
    pub candidates: Seq<AutosuggestCandidate<'lm>>,
    pub id_candidates: Seq<AutosuggestCandidateId>,
    pub text_suggestions: Seq<PersonalAutosuggestTextSuggestion>,
}

impl<'lm> SessionView<'lm> {
    /// The session without cached suggestions.
    pub open spec fn uncached(self) -> SessionView<'lm> {
        SessionView { candidates: Seq::empty(), id_candidates: Seq::empty(), text_suggestions: Seq::empty(), ..self }
    }

    pub open spec fn commit_state(self) -> CommitState {
        CommitState { store: self.personal, context: self.context, personal: self.personal_context }
    }

    pub open spec fn with_commit(self, st: CommitState, history: Seq<u32>) -> SessionView<'lm> {
        SessionView {
            personal: st.store,
            context: st.context,
            personal_context: st.personal,
            history,
            ..self
        }.uncached()
    }
}

/// Committing a raw token in a session: the store and both contexts as in
/// [`raw_commit`], the repetition history as in [`history_observe`]; cached
/// suggestions are dropped. A failed lookup changes nothing.
pub open spec fn session_commit<'lm>(s: SessionView<'lm>, raw: Seq<char>, weight: u16) -> Result<
    (SessionView<'lm>, bool),
    AutosuggestArtifactError,
> {
    match observation(s.model, raw) {
        Err(e) => Err(e),
        Ok((id, had_text, b)) => match raw_commit(s.model, s.commit_state(), raw, weight) {
            Err(e) => Err(e),
            Ok((st, l)) => Ok((s.with_commit(st, history_observe(s.history, id, had_text, b)), l)),
        },
    }
}

/// Committing a token in a session fails exactly when pushing it onto the
/// static context fails, with the same error; otherwise the static context
/// advances exactly as pushing it would, the model stays, and no cached
/// suggestion survives.
pub proof fn lemma_session_commit_advances_context<'lm>(s: SessionView<'lm>, raw: Seq<char>, weight: u16)
    ensures
        session_commit(s, raw, weight) matches Err(e) ==> crate::lm::spec_push_token(s.model, s.context, raw) == Err::<
            ContextView,
            AutosuggestArtifactError,
        >(e),
        session_commit(s, raw, weight) matches Ok((s2, l)) ==> crate::lm::spec_push_token(s.model, s.context, raw)
            == Ok::<ContextView, AutosuggestArtifactError>(s2.context) && s2.model == s.model && s2.candidates.len()
            == 0 && s2.id_candidates.len() == 0 && s2.text_suggestions.len() == 0,
{
    crate::personal_laws::lemma_commit_advances_context(s.model, s.commit_state(), raw, weight);
}

/// What committing a token reports: whether it learned a word. It learns
/// exactly when the trimmed token is non-empty and is a model word (an id
/// above `<unk>`) or, unknown to the model, a Bangla text token; a failed
/// lookup is the error.
pub proof fn lemma_session_commit_result<'lm>(s: SessionView<'lm>, raw: Seq<char>, weight: u16)
    ensures
        ({
            let t = spec_trimmed(raw);
            &&& session_commit(s, raw, weight) matches Err(e) ==> t.len() > 0 && s.model.lookup_token(text_bytes(t))
                == Err::<Option<u32>, AutosuggestArtifactError>(e)
            &&& session_commit(s, raw, weight) matches Ok((s2, l)) ==> l == (t.len() > 0 && match s.model.lookup_token(
                text_bytes(t),
            ) {
                Ok(Some(id)) => id > AUTOSUGGEST_UNK_ID,
                Ok(None) => crate::personal_types::spec_is_personal_text(t),
                Err(_) => false,
            })
        }),
{
}

/// A commit of strength `Committed` is the plain commit: the same result and
/// the same session afterwards.
pub proof fn lemma_session_committed_strength_is_plain_commit<'lm>(s: SessionView<'lm>, raw: Seq<char>)
    ensures
        session_commit(s, raw, spec_weight(CommitStrength::Committed)) == session_commit(s, raw, 1),
{
}

/// When the session's text query succeeds, its id query gives the same
/// metadata and the same candidates, id for id.
pub proof fn lemma_text_and_id_queries_agree<'lm>(
    s: SessionView<'lm>,
    r: Result<AutosuggestMetadata, AutosuggestArtifactError>,
    out: Seq<AutosuggestCandidate<'lm>>,
)
    requires
        text_query_outcome(s, r, out),
        r is Ok,
    ensures
        ({
            match blended_ids(s.personal, s.model, s.context, s.personal_context, s.history, s.options.max_candidates as int) {
                Ok((ids, meta)) => r == Ok::<AutosuggestMetadata, AutosuggestArtifactError>(meta) && out.len() == ids.len()
                    && forall|i: int| 0 <= i < out.len() ==> crate::candidate::id_of(#[trigger] out[i]) == ids[i],
                Err(_) => false,
            }
        }),
{
}

/// A keyboard session over a loaded model.
#[derive(Debug)]
pub struct AutosuggestSession<'lm> {
    lm: &'lm AutosuggestLm,
    personal: PersonalAutosuggest,
    context: AutosuggestContext,
    personal_context: PersonalAutosuggestContext,
    repetition_history: AutosuggestRepetitionHistory,
    options: AutosuggestOptions,
    personal_scratch: Vec<PersonalAutosuggestSuggestion>,
    personal_text_scratch: Vec<PersonalAutosuggestTextSuggestion>,
    model_scratch: Vec<AutosuggestCandidate<'lm>>,
    model_id_scratch: Vec<AutosuggestCandidateId>,
    candidates: Vec<AutosuggestCandidate<'lm>>,
    id_candidates: Vec<AutosuggestCandidateId>,
}

impl<'lm> View for AutosuggestSession<'lm> {
    type V = SessionView<'lm>;

    closed spec fn view(&self) -> SessionView<'lm> {
        SessionView {
            model: self.lm@,
            personal: self.personal@,
            context: self.context@,
            personal_context: self.personal_context@,
            history: self.repetition_history@,
            options: self.options,
            candidates: self.candidates@,
            id_candidates: self.id_candidates@,
            text_suggestions: self.personal_text_scratch@,
        }
    }
}

impl<'lm> AutosuggestSession<'lm> {
    pub closed spec fn wf(&self) -> bool {
        &&& self.personal.wf()
        &&& self.repetition_history.wf()
        &&& self.context@.count == self.personal_context@.count
    }

    /// A session with fresh contexts over `lm` and a personal store.
    pub fn new(lm: &'lm AutosuggestLm, personal: PersonalAutosuggest, options: AutosuggestOptions) -> (s: Self)
        requires
            personal.wf(),
        ensures
            s.wf(),
            s@ == (SessionView {
                model: lm@,
                personal: personal@,
                context: crate::lm::fresh_context(),
                personal_context: fresh_personal_context(),
                history: Seq::empty(),
                options,
                candidates: Seq::empty(),
                id_candidates: Seq::empty(),
                text_suggestions: Seq::empty(),
            }),
    {
        let capacity = session_repetition_guard_pool_limit(options.max_candidates);
        let mut s = AutosuggestSession {
            lm,
            personal,
            context: AutosuggestContext::new(),
            personal_context: PersonalAutosuggestContext::new(),
            repetition_history: AutosuggestRepetitionHistory::new(),
            options,
            personal_scratch: Vec::new(),
            personal_text_scratch: Vec::new(),
            model_scratch: Vec::new(),
            model_id_scratch: Vec::new(),
            candidates: Vec::new(),
            id_candidates: Vec::new(),
        };
        s.ensure_candidate_capacity_for(capacity);
        s
    }

    /// A session with an empty personal store of `config`.
    pub fn with_personal_config(lm: &'lm AutosuggestLm, config: PersonalAutosuggestConfig, options: AutosuggestOptions) -> (s:
        Self)
        ensures
            s.wf(),
            s@ == (SessionView {
                model: lm@,
                personal: PersonalView {
                    config,
                    entries: Seq::empty(),
                    text_entries: Seq::empty(),
                    unigram_cache: Seq::empty(),
                    model_fingerprint: 0,
                    tick: 0,
                },
                context: crate::lm::fresh_context(),
                personal_context: fresh_personal_context(),
                history: Seq::empty(),
                options,
                candidates: Seq::empty(),
                id_candidates: Seq::empty(),
                text_suggestions: Seq::empty(),
            }),
    {
        Self::new(lm, PersonalAutosuggest::new(config), options)
    }

    /// Reserves room for `max_candidates` (at least one) in every scratch and
    /// candidate buffer; only spare capacity changes, so the session's state
    /// stays as it was.
    fn ensure_candidate_capacity_for(&mut self, max_candidates: usize)
        ensures
            final(self)@ == old(self)@,
            final(self).wf() == old(self).wf(),
            final(self).model_pool_buffer() == old(self).model_pool_buffer(),
    {
        let capacity = if max_candidates < 1 {
            1
        } else {
            max_candidates
        };
        reserve_to(&mut self.personal_scratch, capacity);
        reserve_to(&mut self.personal_text_scratch, capacity);
        reserve_to(&mut self.model_scratch, capacity);
        reserve_to(&mut self.model_id_scratch, capacity);
        reserve_to(&mut self.candidates, capacity);
        reserve_to(&mut self.id_candidates, capacity);
    }

    /// Reserves room for the repetition guard's pool at the configured
    /// candidate count (see [`Self::ensure_candidate_capacity_for`]).
    fn ensure_candidate_capacity(&mut self)
        ensures
            final(self)@ == old(self)@,
            final(self).wf() == old(self).wf(),
    {
        let capacity = session_repetition_guard_pool_limit(self.options.max_candidates);
        self.ensure_candidate_capacity_for(capacity);
    }

    fn clear_cached_suggestions(&mut self)
        ensures
            final(self)@ == old(self)@.uncached(),
            final(self).wf() == old(self).wf(),
    {
        self.candidates.clear();
        self.id_candidates.clear();
        self.personal_text_scratch.clear();
    }

    pub fn context(&self) -> (c: AutosuggestContext)
        ensures
            c@ == self@.context,
    {
        self.context
    }

    /// Forgets both contexts and the phrase history.
    pub fn clear_context(&mut self)
        requires
            old(self).wf(),
        ensures
            final(self).wf(),
            final(self)@ == (SessionView {
                context: crate::lm::fresh_context(),
                personal_context: fresh_personal_context(),
                history: Seq::empty(),
                ..old(self)@
            }).uncached(),
    {
        self.context.clear();
        self.personal_context.clear();
        self.repetition_history.clear();
        self.clear_cached_suggestions();
    }

    /// Starts a new sentence in both contexts and forgets the phrase history.
    pub fn push_boundary(&mut self)
        requires
            old(self).wf(),
        ensures
            final(self).wf(),
            final(self)@ == (SessionView {
                context: old(self)@.context.bounded(),
                personal_context: old(self)@.personal_context.bounded(),
                history: Seq::empty(),
                ..old(self)@
            }).uncached(),
    {
        self.context.push_boundary();
        self.personal_context.push_boundary();
        self.repetition_history.clear();
        self.clear_cached_suggestions();
    }

    pub fn personal(&self) -> (p: &PersonalAutosuggest)
        requires
            self.wf(),
        ensures
            p@ == self@.personal,
            p.wf(),
    {
        &self.personal
    }

    pub closed spec fn store(&self) -> PersonalAutosuggest {
        self.personal
    }

    pub closed spec fn with_store(self, p: PersonalAutosuggest) -> AutosuggestSession<'lm> {
        AutosuggestSession { personal: p, ..self }
    }

    pub proof fn lemma_with_store(self, p: PersonalAutosuggest)
        ensures
            self.with_store(p)@ == (SessionView { personal: p@, ..self@ }),
            self.wf() && p.wf() ==> self.with_store(p).wf(),
    {
    }

    /// Mutable access to the personal store; the session stays well formed
    /// when the store does (see [`Self::lemma_with_store`]).
    pub fn personal_mut(&mut self) -> (p: &mut PersonalAutosuggest)
        ensures
            *p == old(self).store(),
            *final(self) == old(self).with_store(*final(p)),
    {
        &mut self.personal
    }

    /// Replaces the personal store (the contexts stay).
    pub fn replace_personal(&mut self, personal: PersonalAutosuggest)
        requires
            old(self).wf(),
            personal.wf(),
        ensures
            final(self).wf(),
            final(self)@ == (SessionView { personal: personal@, ..old(self)@ }).uncached(),
    {
        self.personal = personal;
        self.clear_cached_suggestions();
    }

    /// Replaces the personal store after checking it against the model; the
    /// new store is stamped with the model's fingerprint. A store that does
    /// not fit the model changes nothing.
    pub fn try_replace_personal(&mut self, personal: PersonalAutosuggest) -> (r: Result<(), AutosuggestArtifactError>)
        requires
            old(self).wf(),
            personal.wf(),
        ensures
            final(self).wf(),
            match validate_model_v(personal@, old(self)@.model.vocab_size() as int, old(self)@.model.vocab_fingerprint) {
                Ok(()) => r is Ok && final(self)@ == (SessionView {
                    personal: PersonalView { model_fingerprint: old(self)@.model.vocab_fingerprint, ..personal@ },
                    ..old(self)@
                }).uncached(),
                Err(e) => r == Err::<(), AutosuggestArtifactError>(e) && final(self)@ == old(self)@,
            },
    {
        let mut personal = personal;
        match personal.validate_for_model(self.lm.vocab_size(), self.lm.vocab_fingerprint()) {
            Ok(()) => {},
            Err(e) => return Err(e),
        }
        personal.stamp_model_fingerprint(self.lm.vocab_fingerprint());
        self.replace_personal(personal);
        Ok(())
    }

    /// Replaces the personal store with a snapshot loaded for this model
    /// (see [`PersonalAutosuggest::from_compact_bytes_for_model`]); the
    /// store keeps the current configuration. A rejected snapshot changes
    /// nothing.
    pub fn import_personal_snapshot(&mut self, bytes: &[u8]) -> (r: Result<(), PersonalAutosuggestSnapshotError>)
        requires
            old(self).wf(),
            bytes@.len() <= isize::MAX,
        ensures
            final(self).wf(),
            ({
                let s = old(self)@;
                let config = s.personal.config;
                match parse_snapshot(bytes@, config.max_entries as int) {
                    Ok((es, ts, fp, m)) => {
                        let v = PersonalView {
                            config,
                            entries: es,
                            text_entries: ts,
                            unigram_cache: unigram_rebuild(es),
                            model_fingerprint: fp,
                            tick: m,
                        };
                        match validate_model_v(v, s.model.vocab_size() as int, s.model.vocab_fingerprint) {
                            Ok(()) => r is Ok && final(self)@ == (SessionView {
                                personal: PersonalView { model_fingerprint: s.model.vocab_fingerprint, ..v },
                                ..s
                            }).uncached(),
                            Err(e) => r == Err::<(), PersonalAutosuggestSnapshotError>(
                                PersonalAutosuggestSnapshotError::Model(e),
                            ) && final(self)@ == s,
                        }
                    },
                    Err(e) => r == Err::<(), PersonalAutosuggestSnapshotError>(
                        PersonalAutosuggestSnapshotError::Snapshot(e),
                    ) && final(self)@ == s,
                }
            }),
    {
        let personal = match PersonalAutosuggest::from_compact_bytes_for_model(
            self.personal.config(),
            bytes,
            self.lm.vocab_size(),
            self.lm.vocab_fingerprint(),
        ) {
            Ok(p) => p,
            Err(e) => return Err(e),
        };
        self.replace_personal(personal);
        Ok(())
    }

    pub fn options(&self) -> (o: AutosuggestOptions)
        ensures
            o == self@.options,
    {
        self.options
    }

    pub fn set_options(&mut self, options: AutosuggestOptions)
        requires
            old(self).wf(),
        ensures
            final(self).wf(),
            final(self)@ == (SessionView { options, ..old(self)@ }).uncached(),
    {
        self.options = options;
        self.ensure_candidate_capacity();
        self.clear_cached_suggestions();
    }

    pub fn candidates(&self) -> (c: &[AutosuggestCandidate<'lm>])
        ensures
            c@ == self@.candidates,
    {
        self.candidates.as_slice()
    }

    pub fn candidate_ids(&self) -> (c: &[AutosuggestCandidateId])
        ensures
            c@ == self@.id_candidates,
    {
        self.id_candidates.as_slice()
    }

    pub fn personal_text_suggestions(&self) -> (c: &[PersonalAutosuggestTextSuggestion])
        ensures
            c@ == self@.text_suggestions,
    {
        self.personal_text_scratch.as_slice()
    }

    /// The text of a personal-word suggestion (`None` for a stale index).
    pub fn personal_text_suggestion_text(&self, suggestion: PersonalAutosuggestTextSuggestion) -> (r: Option<&str>)
        ensures
            match r {
                Some(t) => suggestion.entry_index < self@.personal.text_entries.len() && t@
                    == self@.personal.text_entries[suggestion.entry_index as int].text,
                None => suggestion.entry_index >= self@.personal.text_entries.len(),
            },
    {
        self.personal.text_suggestion_text(suggestion)
    }

    fn commit_weighted(&mut self, raw_token: &str, weight: u16) -> (r: Result<bool, AutosuggestArtifactError>)
        requires
            old(self).wf(),
            old(self)@.context.count < usize::MAX,
            weight >= 1,
        ensures
            final(self).wf(),
            match session_commit(old(self)@, raw_token@, weight) {
                Ok((s2, l)) => r == Ok::<bool, AutosuggestArtifactError>(l) && final(self)@ == s2,
                Err(e) => r == Err::<bool, AutosuggestArtifactError>(e) && final(self)@ == old(self)@,
            },
    {
        let (token_id, had_text, boundary_after) = match repetition_observation_for_raw_token(self.lm, raw_token) {
            Ok(x) => x,
            Err(e) => return Err(e),
        };
        let lm = self.lm;
        let learned = match self.personal.committed_token_weighted(
            lm,
            &mut self.context,
            &mut self.personal_context,
            raw_token,
            weight,
        ) {
            Ok(l) => l,
            Err(e) => return Err(e),
        };
        self.repetition_history.observe_resolved_token(token_id, had_text, boundary_after);
        self.clear_cached_suggestions();
        Ok(learned)
    }

    /// Commits a raw token: learned into the personal store (see
    /// [`session_commit`]); returns whether a word was learned.
    pub fn commit_token(&mut self, raw_token: &str) -> (r: Result<bool, AutosuggestArtifactError>)
        requires
            old(self).wf(),
            old(self)@.context.count < usize::MAX,
        ensures
            final(self).wf(),
            match session_commit(old(self)@, raw_token@, 1) {
                Ok((s2, l)) => r == Ok::<bool, AutosuggestArtifactError>(l) && final(self)@ == s2,
                Err(e) => r == Err::<bool, AutosuggestArtifactError>(e) && final(self)@ == old(self)@,
            },
    {
        self.commit_weighted(raw_token, 1)
    }

    /// [`Self::commit_token`] where the commit counts with the weight of
    /// `strength`.
    pub fn commit_token_with_strength(&mut self, raw_token: &str, strength: CommitStrength) -> (r: Result<
        bool,
        AutosuggestArtifactError,
    >)
        requires
            old(self).wf(),
            old(self)@.context.count < usize::MAX,
        ensures
            final(self).wf(),
            match session_commit(old(self)@, raw_token@, spec_weight(strength)) {
                Ok((s2, l)) => r == Ok::<bool, AutosuggestArtifactError>(l) && final(self)@ == s2,
                Err(e) => r == Err::<bool, AutosuggestArtifactError>(e) && final(self)@ == old(self)@,
            },
    {
        self.commit_weighted(raw_token, strength.weight())
    }

    /// Evidence that the user established `word`: the larger of its personal
    /// word weight and, when the model knows it, its known-word weight.
    pub fn established_weight(&self, word: &str) -> (w: u16)
        requires
            self.wf(),
        ensures
            ({
                let tw = committed_text_weight_v(self@.personal, word@);
                let kw = match self@.model.lookup_token(text_bytes(word@)) {
                    Ok(Some(id)) => committed_token_weight_v(self@.personal, id),
                    _ => 0,
                };
                w == if tw < kw {
                    kw
                } else {
                    tw
                }
            }),
    {
        let text_weight = self.personal.committed_text_weight(word);
        let token_weight = match self.lm.token_id(word) {
            Ok(Some(id)) => self.personal.committed_token_weight(id),
            _ => 0,
        };
        if text_weight < token_weight {
            token_weight
        } else {
            text_weight
        }
    }

    /// Whether `word` has at least `max(min_weight, 1)` established weight.
    pub fn is_word_established(&self, word: &str, min_weight: u16) -> (b: bool)
        requires
            self.wf(),
        ensures
            ({
                let tw = committed_text_weight_v(self@.personal, word@);
                let kw = match self@.model.lookup_token(text_bytes(word@)) {
                    Ok(Some(id)) => committed_token_weight_v(self@.personal, id),
                    _ => 0,
                };
                let w = if tw < kw {
                    kw
                } else {
                    tw
                };
                b == (w >= if min_weight < 1 {
                    1
                } else {
                    min_weight
                })
            }),
    {
        let floor = if min_weight < 1 {
            1
        } else {
            min_weight
        };
        self.established_weight(word) >= floor
    }

    /// Commits a token id resolved against this session's model: an id that
    /// is not a word id of the model is rejected without changing anything;
    /// otherwise as [`resolved_commit`], and the phrase history records it.
    pub fn commit_token_id(&mut self, token_id: Option<u32>, boundary_after: bool) -> (r: Result<bool, AutosuggestArtifactError>)
        requires
            old(self).wf(),
            old(self)@.context.count < usize::MAX,
        ensures
            final(self).wf(),
            match token_id {
                Some(id) if !(id > AUTOSUGGEST_UNK_ID && id < old(self)@.model.vocab_size()) => r
                    == Err::<bool, AutosuggestArtifactError>(AutosuggestArtifactError::InvalidTokenId(id))
                    && final(self)@ == old(self)@,
                _ => {
                    let (st, l) = resolved_commit(old(self)@.commit_state(), token_id, boundary_after, 1);
                    r == Ok::<bool, AutosuggestArtifactError>(l) && final(self)@ == old(self)@.with_commit(
                        st,
                        history_observe(old(self)@.history, token_id, token_id is Some, boundary_after),
                    )
                },
            },
    {
        match token_id {
            Some(id) => match self.lm.validate_word_token_id(id) {
                Ok(()) => {},
                Err(e) => return Err(e),
            },
            None => {},
        }
        let learned = self.personal.observe_resolved_token_id_with_personal_context(
            &mut self.context,
            &mut self.personal_context,
            token_id,
            boundary_after,
        );
        self.repetition_history.observe_resolved_token(token_id, token_id.is_some(), boundary_after);
        self.clear_cached_suggestions();
        Ok(learned)
    }

    /// Commits a token outside the vocabulary: both contexts lose their
    /// recent ids and the phrase history records `<unk>`.
    pub fn commit_unknown(&mut self, boundary_after: bool)
        requires
            old(self).wf(),
            old(self)@.context.count < usize::MAX,
        ensures
            final(self).wf(),
            ({
                let (st, l) = resolved_commit(old(self)@.commit_state(), None, boundary_after, 1);
                final(self)@ == old(self)@.with_commit(st, history_observe(old(self)@.history, None, true, boundary_after))
            }),
    {
        self.personal.observe_resolved_token_id_with_personal_context(
            &mut self.context,
            &mut self.personal_context,
            None,
            boundary_after,
        );
        self.repetition_history.observe_resolved_token(None, true, boundary_after);
        self.clear_cached_suggestions();
    }
}


/// The outcome of a text query of a session, as stated by
/// [`PersonalAutosuggest::suggest_with_lm_for_personal_context_into`].
pub open spec fn text_query_outcome<'lm>(
    s: SessionView<'lm>,
    r: Result<AutosuggestMetadata, AutosuggestArtifactError>,
    out: Seq<AutosuggestCandidate<'lm>>,
) -> bool {
    crate::merge::blend_outcome(
        s.personal,
        s.model,
        s.context,
        s.personal_context,
        s.history,
        s.options.max_candidates as int,
        r,
        out,
    )
}

/// Some estimate of the personal store's heap bytes, as stated by
/// [`PersonalAutosuggest::estimated_heap_bytes`].
pub open spec fn personal_estimate(v: PersonalView, n: int) -> bool {
    exists|c1: int, c2: int, t: int|
        c1 >= v.entries.len() && c2 >= v.text_entries.len() && t >= crate::personal_text::text_total(v.text_entries)
            && n == #[trigger] personal_heap_estimate(c1, c2, t)
}

/// A personal store's heap bytes when its transition and personal-word
/// buffers hold `c1` and `c2` items and its words `t` text bytes.
pub open spec fn personal_heap_estimate(c1: int, c2: int, t: int) -> int {
    crate::personal_types::sat_add(
        crate::personal_types::sat_add(
            crate::personal_types::sat_mul(c1, vstd::layout::size_of::<crate::personal_types::PersonalEntry>() as int),
            crate::personal_types::sat_mul(c2, vstd::layout::size_of::<crate::personal_types::PersonalTextEntry>() as int),
        ),
        t,
    )
}

/// A session's heap bytes when its personal store holds `p` bytes and its
/// candidate buffers have capacities `c1`..`c6`.
pub open spec fn session_heap_estimate(p: int, c1: int, c2: int, c3: int, c4: int, c5: int, c6: int) -> int {
    crate::personal_types::sat_add(
        crate::personal_types::sat_add(
            crate::personal_types::sat_add(
                crate::personal_types::sat_add(
                    crate::personal_types::sat_add(
                        crate::personal_types::sat_add(
                            p,
                            crate::personal_types::sat_mul(c1, vstd::layout::size_of::<PersonalAutosuggestSuggestion>() as int),
                        ),
                        crate::personal_types::sat_mul(c2, vstd::layout::size_of::<PersonalAutosuggestTextSuggestion>() as int),
                    ),
                    crate::personal_types::sat_mul(c3, vstd::layout::size_of::<AutosuggestCandidate<'static>>() as int),
                ),
                crate::personal_types::sat_mul(c4, vstd::layout::size_of::<AutosuggestCandidateId>() as int),
            ),
            crate::personal_types::sat_mul(c5, vstd::layout::size_of::<AutosuggestCandidate<'static>>() as int),
        ),
        crate::personal_types::sat_mul(c6, vstd::layout::size_of::<AutosuggestCandidateId>() as int),
    )
}

proof fn lemma_sat_mul_mono(a: int, b: int, k: int)
    requires
        0 <= a <= b,
        k >= 0,
    ensures
        crate::personal_types::sat_mul(a, k) <= crate::personal_types::sat_mul(b, k),
{
    assert(a * k <= b * k) by (nonlinear_arith)
        requires
            0 <= a <= b,
            k >= 0,
    ;
}

/// The session's heap limit covers its heap estimate for the same candidate
/// buffer capacities, whenever the personal store's buffers hold no more
/// transitions, personal words and text bytes than its configuration allows.
pub proof fn lemma_heap_limit_covers_estimate<'lm>(
    s: SessionView<'lm>,
    p1: int,
    p2: int,
    t: int,
    c1: int,
    c2: int,
    c3: int,
    c4: int,
    c5: int,
    c6: int,
)
    requires
        0 <= p1 <= s.personal.config.max_entries,
        0 <= p2 <= crate::personal_types::DEFAULT_PERSONAL_TEXT_AUTOSUGGEST_ENTRIES,
        0 <= t <= crate::personal_types::PERSONAL_TEXT_TOTAL_MAX_BYTES,
        c1 >= 0 && c2 >= 0 && c3 >= 0 && c4 >= 0 && c5 >= 0 && c6 >= 0,
    ensures
        session_heap_estimate(personal_heap_estimate(p1, p2, t), c1, c2, c3, c4, c5, c6) <= session_heap_limit(
            s,
            c1,
            c2,
            c3,
            c4,
            c5,
            c6,
        ),
{
    let pool = spec_pool_limit(s.options.max_candidates as int);
    lemma_sat_mul_mono(p1, s.personal.config.max_entries as int, vstd::layout::size_of::<crate::personal_types::PersonalEntry>() as int);
    lemma_sat_mul_mono(
        p2,
        crate::personal_types::DEFAULT_PERSONAL_TEXT_AUTOSUGGEST_ENTRIES as int,
        vstd::layout::size_of::<crate::personal_types::PersonalTextEntry>() as int,
    );
    let m = |configured: int, c: int| {
        let a = if configured < 1 { 1 } else { configured };
        if a < c { c } else { a }
    };
    lemma_sat_mul_mono(c1, m(pool, c1), vstd::layout::size_of::<PersonalAutosuggestSuggestion>() as int);
    lemma_sat_mul_mono(
        c2,
        m(s.options.max_candidates as int, c2),
        vstd::layout::size_of::<PersonalAutosuggestTextSuggestion>() as int,
    );
    lemma_sat_mul_mono(c3, m(pool, c3), vstd::layout::size_of::<AutosuggestCandidate<'lm>>() as int);
    lemma_sat_mul_mono(c4, m(pool, c4), vstd::layout::size_of::<AutosuggestCandidateId>() as int);
    lemma_sat_mul_mono(c5, m(pool, c5), vstd::layout::size_of::<AutosuggestCandidate<'lm>>() as int);
    lemma_sat_mul_mono(c6, m(pool, c6), vstd::layout::size_of::<AutosuggestCandidateId>() as int);
}

/// `max(max(configured, 1), current)` elements of a buffer, in bytes.
pub open spec fn scratch_bytes(configured: int, current: int, size: int) -> int {
    let a = if configured < 1 {
        1
    } else {
        configured
    };
    let b = if a < current {
        current
    } else {
        a
    };
    crate::personal_types::sat_mul(b, size)
}

fn scratch_heap_bytes(configured: usize, current: usize, size: usize) -> (n: usize)
    ensures
        n == scratch_bytes(configured as int, current as int, size as int),
{
    let a = if configured < 1 {
        1
    } else {
        configured
    };
    let b = if a < current {
        current
    } else {
        a
    };
    crate::personal_types::saturating_mul_usize(b, size)
}

impl<'lm> AutosuggestSession<'lm> {
    /// Blended text candidates for the session's contexts and options, into
    /// the session's candidate buffer (see [`text_query_outcome`]).
    pub fn suggest(&mut self) -> (r: Result<AutosuggestMetadata, AutosuggestArtifactError>)
        requires
            old(self).wf(),
        ensures
            final(self).wf(),
            final(self)@ == (SessionView { candidates: final(self)@.candidates, ..old(self)@ }),
            text_query_outcome(old(self)@, r, final(self)@.candidates),
            final(self).personal_pool_buffer() == crate::merge::personal_pool(
                old(self)@.personal,
                old(self)@.personal_context,
                spec_pool_limit(old(self)@.options.max_candidates as int),
            ),
            crate::merge::model_pool_outcome(
                old(self)@.model,
                old(self)@.context,
                spec_pool_limit(old(self)@.options.max_candidates as int),
                final(self).model_pool_buffer(),
            ),
    {
        self.ensure_candidate_capacity();
        let lm = self.lm;
        let ids = self.repetition_history.recent_token_ids();
        self.personal.suggest_with_lm_for_personal_context_into(
            lm,
            self.context,
            self.personal_context,
            ids,
            self.options,
            &mut self.personal_scratch,
            &mut self.model_scratch,
            &mut self.candidates,
        )
    }

    fn suggest_ids_with_options(&mut self, options: AutosuggestOptions) -> (r: Result<AutosuggestMetadata, AutosuggestArtifactError>)
        requires
            old(self).wf(),
        ensures
            final(self).wf(),
            final(self)@ == (SessionView { id_candidates: final(self)@.id_candidates, ..old(self)@ }),
            match blended_ids(
                old(self)@.personal,
                old(self)@.model,
                old(self)@.context,
                old(self)@.personal_context,
                old(self)@.history,
                options.max_candidates as int,
            ) {
                Ok((ids, meta)) => r == Ok::<AutosuggestMetadata, AutosuggestArtifactError>(meta)
                    && final(self)@.id_candidates == ids,
                Err(e) => r == Err::<AutosuggestMetadata, AutosuggestArtifactError>(e),
            },
            final(self).personal_pool_buffer() == crate::merge::personal_pool(
                old(self)@.personal,
                old(self)@.personal_context,
                spec_pool_limit(options.max_candidates as int),
            ),
            final(self).model_pool_buffer() == old(self).model_pool_buffer(),
    {
        self.ensure_candidate_capacity_for(options.max_candidates);
        let lm = self.lm;
        let ids = self.repetition_history.recent_token_ids();
        self.personal.suggest_ids_with_lm_for_personal_context_into(
            lm,
            self.context,
            self.personal_context,
            ids,
            options,
            &mut self.personal_scratch,
            &mut self.model_id_scratch,
            &mut self.id_candidates,
        )
    }

    /// Blended candidate ids for the session, into its id buffer.
    pub fn suggest_ids(&mut self) -> (r: Result<AutosuggestMetadata, AutosuggestArtifactError>)
        requires
            old(self).wf(),
        ensures
            final(self).wf(),
            final(self)@ == (SessionView { id_candidates: final(self)@.id_candidates, ..old(self)@ }),
            match blended_ids(
                old(self)@.personal,
                old(self)@.model,
                old(self)@.context,
                old(self)@.personal_context,
                old(self)@.history,
                old(self)@.options.max_candidates as int,
            ) {
                Ok((ids, meta)) => r == Ok::<AutosuggestMetadata, AutosuggestArtifactError>(meta)
                    && final(self)@.id_candidates == ids,
                Err(e) => r == Err::<AutosuggestMetadata, AutosuggestArtifactError>(e),
            },
            final(self).personal_pool_buffer() == crate::merge::personal_pool(
                old(self)@.personal,
                old(self)@.personal_context,
                spec_pool_limit(old(self)@.options.max_candidates as int),
            ),
            final(self).model_pool_buffer() == old(self).model_pool_buffer(),
    {
        let options = self.options;
        self.suggest_ids_with_options(options)
    }

    /// The personal words to suggest after the personal context, into the
    /// session's text buffer; the metadata describes the static context.
    pub fn suggest_personal_text(&mut self) -> (m: AutosuggestMetadata)
        requires
            old(self).wf(),
        ensures
            final(self).wf(),
            final(self)@ == (SessionView {
                text_suggestions: collect_texts_keys(
                    old(self)@.personal.text_entries,
                    text_cache(old(self)@.personal.text_entries),
                    query_keys(old(self)@.personal_context),
                    0,
                    if old(self)@.options.max_candidates < 1 {
                        1
                    } else {
                        old(self)@.options.max_candidates as int
                    },
                    old(self)@.personal.config.min_count,
                    Seq::empty(),
                ),
                ..old(self)@
            }),
            m.context_token_count == old(self)@.context.count,
            m.matched_context_token_count == old(self)@.context.recent.len(),
    {
        self.ensure_candidate_capacity();
        self.personal.suggest_text_for_personal_context_into(
            self.personal_context,
            self.options.max_candidates,
            &mut self.personal_text_scratch,
        );
        AutosuggestMetadata {
            context_token_count: self.context.token_count(),
            matched_context_token_count: self.context.matched_token_count(),
        }
    }

    /// Fixed-shape scorer inputs for the current context: the scorer context
    /// ids (see [`spec_scorer_ids`]) and the blended candidate ids in the
    /// session's id buffer, without reading any candidate text.
    pub fn rerank_input_into(&mut self, scorer_context_ids: &mut [u32]) -> (r: Result<
        AutosuggestRerankInputMetadata,
        AutosuggestArtifactError,
    >)
        requires
            old(self).wf(),
        ensures
            final(self).wf(),
            final(self)@ == (SessionView { id_candidates: final(self)@.id_candidates, ..old(self)@ }),
            final(scorer_context_ids)@.len() == old(scorer_context_ids)@.len(),
            match spec_scorer_ids(old(self)@.model, old(self)@.context, old(scorer_context_ids)@.len() as int) {
                Err(e) => r == Err::<AutosuggestRerankInputMetadata, AutosuggestArtifactError>(e)
                    && final(scorer_context_ids)@ == filled(crate::context::AUTOSUGGEST_PAD_ID, old(scorer_context_ids)@.len() as int)
                    && final(self)@ == old(self)@,
                Ok((k, ids)) => final(scorer_context_ids)@ == ids && match blended_ids(
                    old(self)@.personal,
                    old(self)@.model,
                    old(self)@.context,
                    old(self)@.personal_context,
                    old(self)@.history,
                    old(self)@.options.max_candidates as int,
                ) {
                    Ok((cands, meta)) => final(self)@.id_candidates == cands && r == Ok::<
                        AutosuggestRerankInputMetadata,
                        AutosuggestArtifactError,
                    >(
                        AutosuggestRerankInputMetadata {
                            context_token_count: meta.context_token_count,
                            matched_context_token_count: meta.matched_context_token_count,
                            scorer_context_token_count: k as usize,
                            candidate_count: cands.len() as usize,
                        },
                    ),
                    Err(e) => r == Err::<AutosuggestRerankInputMetadata, AutosuggestArtifactError>(e),
                },
            },
    {
        let k = match self.lm.scorer_context_ids_for_context_into(self.context, scorer_context_ids) {
            Ok(k) => k,
            Err(e) => return Err(e),
        };
        let options = self.options;
        let metadata = match self.suggest_ids_with_options(options) {
            Ok(m) => m,
            Err(e) => return Err(e),
        };
        Ok(
            AutosuggestRerankInputMetadata {
                context_token_count: metadata.context_token_count,
                matched_context_token_count: metadata.matched_context_token_count,
                scorer_context_token_count: k,
                candidate_count: self.id_candidates.len(),
            },
        )
    }

    /// Blended candidate ids for `options` into a caller's buffer; the
    /// session's own buffers keep their contents.
    fn suggest_ids_with_options_into(
        &mut self,
        options: AutosuggestOptions,
        output: &mut Vec<AutosuggestCandidateId>,
    ) -> (r: Result<AutosuggestMetadata, AutosuggestArtifactError>)
        requires
            old(self).wf(),
        ensures
            final(self).wf(),
            final(self)@ == old(self)@,
            match blended_ids(
                old(self)@.personal,
                old(self)@.model,
                old(self)@.context,
                old(self)@.personal_context,
                old(self)@.history,
                options.max_candidates as int,
            ) {
                Ok((ids, meta)) => r == Ok::<AutosuggestMetadata, AutosuggestArtifactError>(meta) && final(output)@ == ids,
                Err(e) => r == Err::<AutosuggestMetadata, AutosuggestArtifactError>(e),
            },
            final(self).personal_pool_buffer() == crate::merge::personal_pool(
                old(self)@.personal,
                old(self)@.personal_context,
                spec_pool_limit(options.max_candidates as int),
            ),
            final(self).model_pool_buffer() == old(self).model_pool_buffer(),
    {
        self.ensure_candidate_capacity_for(options.max_candidates);
        let lm = self.lm;
        let ids = self.repetition_history.recent_token_ids();
        self.personal.suggest_ids_with_lm_for_personal_context_into(
            lm,
            self.context,
            self.personal_context,
            ids,
            options,
            &mut self.personal_scratch,
            &mut self.model_id_scratch,
            output,
        )
    }

    /// Scorer inputs for `options` into caller buffers: the scorer context
    /// ids (see [`spec_scorer_ids`]), the blended candidates and their ids
    /// padded to the candidate buffer. The session does not change.
    pub fn rerank_u32_input_with_options_into(
        &mut self,
        options: AutosuggestOptions,
        scorer_context_ids: &mut [u32],
        scorer_candidate_ids: &mut [u32],
        output_candidates: &mut Vec<AutosuggestCandidateId>,
    ) -> (r: Result<AutosuggestRerankInputMetadata, AutosuggestArtifactError>)
        requires
            old(self).wf(),
        ensures
            final(self).wf(),
            final(self)@ == old(self)@,
            final(scorer_context_ids)@.len() == old(scorer_context_ids)@.len(),
            final(scorer_candidate_ids)@.len() == old(scorer_candidate_ids)@.len(),
            match spec_scorer_ids(old(self)@.model, old(self)@.context, old(scorer_context_ids)@.len() as int) {
                Err(e) => r == Err::<AutosuggestRerankInputMetadata, AutosuggestArtifactError>(e)
                    && final(scorer_context_ids)@ == filled(crate::context::AUTOSUGGEST_PAD_ID, old(scorer_context_ids)@.len() as int)
                    && final(output_candidates)@ == old(output_candidates)@
                    && final(scorer_candidate_ids)@ == old(scorer_candidate_ids)@,
                Ok((k, ctx_ids)) => final(scorer_context_ids)@ == ctx_ids && match blended_ids(
                    old(self)@.personal,
                    old(self)@.model,
                    old(self)@.context,
                    old(self)@.personal_context,
                    old(self)@.history,
                    options.max_candidates as int,
                ) {
                    Ok((cands, meta)) => {
                        let n = if cands.len() < old(scorer_candidate_ids)@.len() {
                            cands.len() as int
                        } else {
                            old(scorer_candidate_ids)@.len() as int
                        };
                        &&& final(output_candidates)@ == cands
                        &&& (forall|i: int| 0 <= i < n ==> #[trigger] final(scorer_candidate_ids)@[i] == cands[i].token_id)
                        &&& (forall|i: int|
                            n <= i < final(scorer_candidate_ids)@.len() ==> #[trigger] final(scorer_candidate_ids)@[i]
                                == crate::context::AUTOSUGGEST_PAD_ID)
                        &&& r == Ok::<AutosuggestRerankInputMetadata, AutosuggestArtifactError>(
                            AutosuggestRerankInputMetadata {
                                context_token_count: meta.context_token_count,
                                matched_context_token_count: meta.matched_context_token_count,
                                scorer_context_token_count: k as usize,
                                candidate_count: cands.len() as usize,
                            },
                        )
                    },
                    Err(e) => r == Err::<AutosuggestRerankInputMetadata, AutosuggestArtifactError>(e)
                        && final(scorer_candidate_ids)@ == old(scorer_candidate_ids)@,
                },
            },
    {
        let k = match self.lm.scorer_context_ids_for_context_into(self.context, scorer_context_ids) {
            Ok(k) => k,
            Err(e) => return Err(e),
        };
        let metadata = match self.suggest_ids_with_options_into(options, output_candidates) {
            Ok(m) => m,
            Err(e) => return Err(e),
        };
        crate::lm::scorer_candidate_ids_for_candidates_into(output_candidates.as_slice(), scorer_candidate_ids);
        Ok(
            AutosuggestRerankInputMetadata {
                context_token_count: metadata.context_token_count,
                matched_context_token_count: metadata.matched_context_token_count,
                scorer_context_token_count: k,
                candidate_count: output_candidates.len(),
            },
        )
    }

    /// The `int32` variant of [`Self::rerank_u32_input_with_options_into`]:
    /// an id that does not fit in `i32`, in the context or among the
    /// candidates, is an error. The session does not change.
    pub fn rerank_coreml_input_with_options_into(
        &mut self,
        options: AutosuggestOptions,
        scorer_context_ids: &mut [i32],
        scorer_candidate_ids: &mut [i32],
        output_candidates: &mut Vec<AutosuggestCandidateId>,
    ) -> (r: Result<AutosuggestRerankInputMetadata, AutosuggestArtifactError>)
        requires
            old(self).wf(),
        ensures
            final(self).wf(),
            final(self)@ == old(self)@,
            final(scorer_context_ids)@.len() == old(scorer_context_ids)@.len(),
            final(scorer_candidate_ids)@.len() == old(scorer_candidate_ids)@.len(),
            match spec_scorer_ids(old(self)@.model, old(self)@.context, old(scorer_context_ids)@.len() as int) {
                Err(e) => r == Err::<AutosuggestRerankInputMetadata, AutosuggestArtifactError>(e)
                    && final(scorer_context_ids)@ == filled(crate::lm::AUTOSUGGEST_PAD_I32, old(scorer_context_ids)@.len() as int)
                    && final(output_candidates)@ == old(output_candidates)@,
                Ok((k, ctx_ids)) => if exists|i: int| 0 <= i < ctx_ids.len() && ctx_ids[i] > i32::MAX {
                    r matches Err(e) && exists|i: int|
                        0 <= i < ctx_ids.len() && ctx_ids[i] > i32::MAX && (forall|j: int| 0 <= j < i ==> ctx_ids[j] <= i32::MAX)
                            && e == AutosuggestArtifactError::InvalidTokenId(ctx_ids[i])
                } else {
                    &&& (forall|i: int| 0 <= i < ctx_ids.len() ==> #[trigger] final(scorer_context_ids)@[i] == ctx_ids[i] as i32)
                    &&& match blended_ids(
                        old(self)@.personal,
                        old(self)@.model,
                        old(self)@.context,
                        old(self)@.personal_context,
                        old(self)@.history,
                        options.max_candidates as int,
                    ) {
                        Ok((cands, meta)) => {
                            let n = if cands.len() < old(scorer_candidate_ids)@.len() {
                                cands.len() as int
                            } else {
                                old(scorer_candidate_ids)@.len() as int
                            };
                            &&& final(output_candidates)@ == cands
                            &&& (crate::lm::fit_prefix(cands, n) ==> r == Ok::<AutosuggestRerankInputMetadata, AutosuggestArtifactError>(
                                AutosuggestRerankInputMetadata {
                                    context_token_count: meta.context_token_count,
                                    matched_context_token_count: meta.matched_context_token_count,
                                    scorer_context_token_count: k as usize,
                                    candidate_count: cands.len() as usize,
                                },
                            ) && crate::lm::i32_prefix(final(scorer_candidate_ids)@, cands, n)
                                && crate::lm::i32_pad_from(final(scorer_candidate_ids)@, n))
                            &&& (!crate::lm::fit_prefix(cands, n) ==> (r matches Err(e) && exists|q: int|
                                0 <= q < n && cands[q].token_id > i32::MAX && crate::lm::fit_prefix(cands, q) && e
                                    == AutosuggestArtifactError::InvalidTokenId(cands[q].token_id)))
                        },
                        Err(e) => r == Err::<AutosuggestRerankInputMetadata, AutosuggestArtifactError>(e),
                    }
                },
            },
    {
        let k = match self.lm.scorer_context_i32s_for_context_into(self.context, scorer_context_ids) {
            Ok(k) => k,
            Err(e) => return Err(e),
        };
        let metadata = match self.suggest_ids_with_options_into(options, output_candidates) {
            Ok(m) => m,
            Err(e) => return Err(e),
        };
        match crate::lm::scorer_candidate_i32s_for_candidates_into(output_candidates.as_slice(), scorer_candidate_ids) {
            Ok(_) => {},
            Err(e) => return Err(e),
        }
        Ok(
            AutosuggestRerankInputMetadata {
                context_token_count: metadata.context_token_count,
                matched_context_token_count: metadata.matched_context_token_count,
                scorer_context_token_count: k,
                candidate_count: output_candidates.len(),
            },
        )
    }

    /// Heap bytes held by the personal store and the candidate buffers, by
    /// their capacities (each at least the length in use; the exact values
    /// are the allocator's).
    pub fn estimated_heap_bytes(&self) -> (n: usize)
        requires
            self.wf(),
        ensures
            exists|p: int, c1: int, c2: int, c3: int, c4: int, c5: int, c6: int|
                personal_estimate(self@.personal, p) && c1 >= 0 && c2 >= self@.text_suggestions.len() && c3
                    >= 0 && c4 >= 0 && c5 >= self@.candidates.len() && c6 >= self@.id_candidates.len() && n
                    == #[trigger] session_heap_estimate(p, c1, c2, c3, c4, c5, c6),
    {
        let p = self.personal.estimated_heap_bytes();
        proof {
            let v = self@.personal;
            let (a, b, t) = choose|a: int, b: int, t: int|
                a >= v.entries.len() && b >= v.text_entries.len() && t >= crate::personal_text::text_total(v.text_entries)
                    && p == crate::personal_types::sat_add(
                    crate::personal_types::sat_add(
                        crate::personal_types::sat_mul(a, vstd::layout::size_of::<crate::personal_types::PersonalEntry>() as int),
                        crate::personal_types::sat_mul(b, vstd::layout::size_of::<crate::personal_types::PersonalTextEntry>() as int),
                    ),
                    t,
                );
            assert(p == personal_heap_estimate(a, b, t));
        }
        assert(personal_estimate(self@.personal, p as int));
        let c1 = vec_capacity(&self.personal_scratch);
        let c2 = vec_capacity(&self.personal_text_scratch);
        let c3 = vec_capacity(&self.model_scratch);
        let c4 = vec_capacity(&self.model_id_scratch);
        let c5 = vec_capacity(&self.candidates);
        let c6 = vec_capacity(&self.id_candidates);
        let mut n = crate::personal_types::saturating_add_usize(
            p,
            crate::personal_types::saturating_mul_usize(c1, core::mem::size_of::<PersonalAutosuggestSuggestion>()),
        );
        n = crate::personal_types::saturating_add_usize(
            n,
            crate::personal_types::saturating_mul_usize(c2, core::mem::size_of::<PersonalAutosuggestTextSuggestion>()),
        );
        n = crate::personal_types::saturating_add_usize(
            n,
            crate::personal_types::saturating_mul_usize(c3, core::mem::size_of::<AutosuggestCandidate<'lm>>()),
        );
        n = crate::personal_types::saturating_add_usize(
            n,
            crate::personal_types::saturating_mul_usize(c4, core::mem::size_of::<AutosuggestCandidateId>()),
        );
        n = crate::personal_types::saturating_add_usize(
            n,
            crate::personal_types::saturating_mul_usize(c5, core::mem::size_of::<AutosuggestCandidate<'lm>>()),
        );
        n = crate::personal_types::saturating_add_usize(
            n,
            crate::personal_types::saturating_mul_usize(c6, core::mem::size_of::<AutosuggestCandidateId>()),
        );
        assert(n == session_heap_estimate(p as int, c1 as int, c2 as int, c3 as int, c4 as int, c5 as int, c6 as int));
        n
    }

    /// An upper bound of the session's heap bytes: the personal store's
    /// limit plus each candidate buffer at the larger of its configured size
    /// and its current capacity.
    pub fn heap_limit_bytes(&self) -> (n: usize)
        requires
            self.wf(),
        ensures
            exists|c1: int, c2: int, c3: int, c4: int, c5: int, c6: int|
                c2 >= self@.text_suggestions.len() && c5 >= self@.candidates.len() && c6 >= self@.id_candidates.len()
                    && n == #[trigger] session_heap_limit(self@, c1, c2, c3, c4, c5, c6),
    {
        let pool = session_repetition_guard_pool_limit(self.options.max_candidates);
        let c1 = vec_capacity(&self.personal_scratch);
        let c2 = vec_capacity(&self.personal_text_scratch);
        let c3 = vec_capacity(&self.model_scratch);
        let c4 = vec_capacity(&self.model_id_scratch);
        let c5 = vec_capacity(&self.candidates);
        let c6 = vec_capacity(&self.id_candidates);
        let mut n = self.personal.heap_limit_bytes();
        n = crate::personal_types::saturating_add_usize(n, scratch_heap_bytes(pool, c1, core::mem::size_of::<PersonalAutosuggestSuggestion>()));
        n = crate::personal_types::saturating_add_usize(
            n,
            scratch_heap_bytes(self.options.max_candidates, c2, core::mem::size_of::<PersonalAutosuggestTextSuggestion>()),
        );
        n = crate::personal_types::saturating_add_usize(n, scratch_heap_bytes(pool, c3, core::mem::size_of::<AutosuggestCandidate<'lm>>()));
        n = crate::personal_types::saturating_add_usize(n, scratch_heap_bytes(pool, c4, core::mem::size_of::<AutosuggestCandidateId>()));
        n = crate::personal_types::saturating_add_usize(n, scratch_heap_bytes(pool, c5, core::mem::size_of::<AutosuggestCandidate<'lm>>()));
        n = crate::personal_types::saturating_add_usize(n, scratch_heap_bytes(pool, c6, core::mem::size_of::<AutosuggestCandidateId>()));
        assert(n == session_heap_limit(self@, c1 as int, c2 as int, c3 as int, c4 as int, c5 as int, c6 as int));
        n
    }

    /// Bytes of the personal snapshot this session would write.
    pub fn personal_snapshot_len(&self) -> (n: usize)
        requires
            self.wf(),
            snapshot_len_of(self@.personal.entries.len() as int, self@.personal.text_entries) <= usize::MAX,
        ensures
            n == snapshot_len_of(self@.personal.entries.len() as int, self@.personal.text_entries),
    {
        self.personal.compact_snapshot_len()
    }

    /// The snapshot size cap of the personal store's configuration.
    pub fn personal_snapshot_limit_bytes(&self) -> (n: usize)
        ensures
            n == crate::personal_types::sat_add(
                crate::personal_types::sat_add(40, crate::personal_types::sat_mul(self@.personal.config.max_entries as int, 28)),
                crate::personal_types::DEFAULT_PERSONAL_TEXT_AUTOSUGGEST_ENTRIES * (28
                    + crate::personal_types::PERSONAL_TEXT_TOKEN_MAX_BYTES),
            ),
    {
        self.personal.compact_snapshot_limit_bytes()
    }

    /// Writes the personal snapshot stamped with this session's model.
    pub fn write_personal_snapshot_into(&self, output: &mut Vec<u8>)
        requires
            self.wf(),
        ensures
            final(output)@ == snapshot_bytes(
                self@.personal.entries,
                self@.personal.text_entries,
                self@.personal.tick,
                self@.model.vocab_fingerprint,
            ),
    {
        self.personal.write_compact_bytes_with_model_fingerprint_into(output, self.lm.vocab_fingerprint());
    }
}

/// The heap limit of a personal store's configuration.
pub open spec fn personal_heap_limit(c: PersonalAutosuggestConfig) -> int {
    crate::personal_types::sat_add(
        crate::personal_types::sat_add(
            crate::personal_types::sat_mul(
                c.max_entries as int,
                vstd::layout::size_of::<crate::personal_types::PersonalEntry>() as int,
            ),
            crate::personal_types::sat_mul(
                crate::personal_types::DEFAULT_PERSONAL_TEXT_AUTOSUGGEST_ENTRIES as int,
                vstd::layout::size_of::<crate::personal_types::PersonalTextEntry>() as int,
            ),
        ),
        crate::personal_types::PERSONAL_TEXT_TOTAL_MAX_BYTES as int,
    )
}

/// The heap limit of a session whose candidate buffers have capacities
/// `c1`..`c6`.
pub open spec fn session_heap_limit<'lm>(s: SessionView<'lm>, c1: int, c2: int, c3: int, c4: int, c5: int, c6: int) -> int {
    let pool = spec_pool_limit(s.options.max_candidates as int);
    crate::personal_types::sat_add(
        crate::personal_types::sat_add(
            crate::personal_types::sat_add(
                crate::personal_types::sat_add(
                    crate::personal_types::sat_add(
                        crate::personal_types::sat_add(
                            personal_heap_limit(s.personal.config),
                            scratch_bytes(pool, c1, vstd::layout::size_of::<PersonalAutosuggestSuggestion>() as int),
                        ),
                        scratch_bytes(
                            s.options.max_candidates as int,
                            c2,
                            vstd::layout::size_of::<PersonalAutosuggestTextSuggestion>() as int,
                        ),
                    ),
                    scratch_bytes(pool, c3, vstd::layout::size_of::<AutosuggestCandidate<'lm>>() as int),
                ),
                scratch_bytes(pool, c4, vstd::layout::size_of::<AutosuggestCandidateId>() as int),
            ),
            scratch_bytes(pool, c5, vstd::layout::size_of::<AutosuggestCandidate<'lm>>() as int),
        ),
        scratch_bytes(pool, c6, vstd::layout::size_of::<AutosuggestCandidateId>() as int),
    )
}

impl<'lm> AutosuggestSession<'lm> {
    pub closed spec fn personal_pool_buffer(&self) -> Seq<PersonalAutosuggestSuggestion> {
        self.personal_scratch@
    }

    pub closed spec fn model_pool_buffer(&self) -> Seq<AutosuggestCandidate<'lm>> {
        self.model_scratch@
    }

    /// The reused buffer of personal suggestions of the last query.
    pub fn personal_scratch(&self) -> (s: &[PersonalAutosuggestSuggestion])
        ensures
            s@ == self.personal_pool_buffer(),
    {
        self.personal_scratch.as_slice()
    }

    /// The reused buffer of model text candidates of the last query.
    pub fn model_scratch(&self) -> (s: &[AutosuggestCandidate<'lm>])
        ensures
            s@ == self.model_pool_buffer(),
    {
        self.model_scratch.as_slice()
    }
}

/// A session's exported snapshot, imported back into it, is accepted and
/// restores the same transitions and personal words, stamped with the
/// session's model, whenever every stored id belongs to the model (the
/// snapshot carries the model's own fingerprint).
pub proof fn lemma_session_snapshot_round_trip(s: SessionView)
    requires
        crate::personal::personal_wf(s.personal),
        s.personal.entries.len() <= u32::MAX,
        snapshot_len_of(s.personal.entries.len() as int, s.personal.text_entries) <= usize::MAX,
        crate::personal::validate_ids_v(s.personal, s.model.vocab_size() as int) is Ok,
    ensures
        ({
            let b = snapshot_bytes(s.personal.entries, s.personal.text_entries, s.personal.tick, s.model.vocab_fingerprint);
            match parse_snapshot(b, s.personal.config.max_entries as int) {
                Ok((es, ts, fp, m)) => {
                    let v = PersonalView {
                        config: s.personal.config,
                        entries: es,
                        text_entries: ts,
                        unigram_cache: unigram_rebuild(es),
                        model_fingerprint: fp,
                        tick: m,
                    };
                    &&& es == s.personal.entries
                    &&& ts == s.personal.text_entries
                    &&& validate_model_v(v, s.model.vocab_size() as int, s.model.vocab_fingerprint) is Ok
                },
                Err(_) => false,
            }
        }),
{
    crate::personal_laws::lemma_snapshot_round_trip(s.personal, s.model.vocab_fingerprint);
}

/// Committing with the default strength is the plain commit: same outcome,
/// same session afterwards.
pub proof fn lemma_committed_strength_is_plain_commit(s: SessionView, raw: Seq<char>)
    ensures
        session_commit(s, raw, spec_weight(CommitStrength::Committed)) == session_commit(s, raw, 1),
{
}
} // verus!
