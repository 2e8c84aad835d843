//! Incremental next-word context for keyboard integrations.

use vstd::prelude::*;

verus! {

pub const AUTOSUGGEST_PAD_ID: u32 = 0;
pub const AUTOSUGGEST_BOS_ID: u32 = 1;
pub const AUTOSUGGEST_UNK_ID: u32 = 2;
pub const MAX_AUTOSUGGEST_CONTEXT_TOKENS: usize = 3;
pub const MAX_AUTOSUGGEST_RERANK_CONTEXT_TOKENS: usize = 16;

/// Appends `id` to a window that keeps at most `cap` newest ids.
pub open spec fn push_window(s: Seq<u32>, id: u32, cap: int) -> Seq<u32> {
    if s.len() < cap {
        s.push(id)
    } else {
        s.drop_first().push(id)
    }
}

/// The mathematical state of an [`AutosuggestContext`].
pub struct ContextView {
    /// Committed tokens since the last clear (words and unknowns alike).
    pub count: int,
    /// The newest known word ids, oldest first (at most 16).
    pub recent: Seq<u32>,
    /// Set at a sentence or editor boundary until a token is committed.
    pub at_start: bool,
}

impl ContextView {
    pub open spec fn is_sentence_start(self) -> bool {
        self.at_start && self.recent.len() == 0
    }

    /// The state after committing `token_id` (`None` for unknown text).
    pub open spec fn pushed(self, token_id: Option<u32>) -> ContextView {
        ContextView {
            count: self.count + 1,
            recent: match token_id {
                Some(id) => if id > AUTOSUGGEST_UNK_ID {
                    push_window(self.recent, id, MAX_AUTOSUGGEST_RERANK_CONTEXT_TOKENS as int)
                } else {
                    Seq::empty()
                },
                None => Seq::empty(),
            },
            at_start: false,
        }
    }

    /// The state after a sentence or editor boundary.
    pub open spec fn bounded(self) -> ContextView {
        ContextView { count: self.count, recent: Seq::empty(), at_start: true }
    }

    pub open spec fn wf(self) -> bool {
        &&& 0 <= self.count <= usize::MAX
        &&& self.recent.len() <= MAX_AUTOSUGGEST_RERANK_CONTEXT_TOKENS
        &&& forall|i: int| 0 <= i < self.recent.len() ==> #[trigger] self.recent[i] > AUTOSUGGEST_UNK_ID
    }
}

/// Incremental next-word context.
///
/// The n-gram artifact consumes only the newest two or three known Bengali
/// token IDs, but a platform scorer can use a wider fixed context. Unknown or
/// special token IDs clear the recent context. Sentence-start state is tracked
/// separately so the LM can use its learned `<bos>` row without treating an
/// unknown in-sentence token as a boundary.
#[derive(Debug, Clone, Copy, PartialEq, Eq)]
pub struct AutosuggestContext {
    token_count: usize,
    ids: [u32; 16],
    id_len: usize,
    at_sentence_start: bool,
}

impl View for AutosuggestContext {
    type V = ContextView;

    closed spec fn view(&self) -> ContextView {
        ContextView {
            count: self.token_count as int,
            recent: self.ids@.subrange(
                0,
                if self.id_len <= 16 {
                    self.id_len as int
                } else {
                    16
                },
            ),
            at_start: self.at_sentence_start,
        }
    }
}

impl AutosuggestContext {
    #[verifier::type_invariant]
    spec fn inv(self) -> bool {
        &&& self.id_len <= 16
        &&& forall|i: int| 0 <= i < self.id_len ==> #[trigger] self.ids@[i] > AUTOSUGGEST_UNK_ID
    }

    pub fn new() -> (c: Self)
        ensures
            c@ == (ContextView { count: 0, recent: Seq::empty(), at_start: true }),
    {
        let c = AutosuggestContext { token_count: 0, ids: [0;16], id_len: 0, at_sentence_start: true };
        assert(c@.recent =~= Seq::<u32>::empty());
        c
    }

    pub fn clear(&mut self)
        ensures
            final(self)@ == (ContextView { count: 0, recent: Seq::empty(), at_start: true }),
    {
        proof {
            use_type_invariant(&*self);
        }
        self.token_count = 0;
        proof {
            use_type_invariant(&*self);
        }
        self.id_len = 0;
        self.at_sentence_start = true;
        assert(self@.recent =~= Seq::<u32>::empty());
    }

    /// Forgets the recent ids without marking a sentence start.
    pub fn clear_recent(&mut self)
        ensures
            final(self)@ == (ContextView { count: old(self)@.count, recent: Seq::empty(), at_start: false }),
    {
        proof {
            use_type_invariant(&*self);
        }
        self.id_len = 0;
        self.at_sentence_start = false;
        assert(self@.recent =~= Seq::<u32>::empty());
    }

    pub fn push_boundary(&mut self)
        ensures
            final(self)@ == old(self)@.bounded(),
    {
        self.id_len = 0;
        self.at_sentence_start = true;
        assert(self@.recent =~= Seq::<u32>::empty());
    }

    pub fn token_count(self) -> (n: usize)
        ensures
            n == self@.count,
            self@.wf(),
    {
        proof {
            use_type_invariant(&self);
        }
        self.token_count
    }

    pub fn matched_token_count(self) -> (n: usize)
        ensures
            n == self@.recent.len(),
    {
        proof {
            use_type_invariant(&self);
        }
        self.id_len
    }

    pub fn recent_token_ids(&self) -> (ids: &[u32])
        ensures
            ids@ == self@.recent,
            self@.wf(),
    {
        proof {
            use_type_invariant(self);
        }
        vstd::slice::slice_subrange(vstd::array::array_as_slice(&self.ids), 0, self.id_len)
    }

    pub fn is_sentence_start(self) -> (b: bool)
        ensures
            b == self@.is_sentence_start(),
    {
        proof {
            use_type_invariant(&self);
        }
        self.at_sentence_start && self.id_len == 0
    }

    /// Commits one token: a known word id extends the recent window (keeping
    /// the newest 16), anything else (`None` or a reserved id) clears it.
    pub fn push_token_id(&mut self, token_id: Option<u32>)
        requires
            old(self)@.count < usize::MAX,
        ensures
            final(self)@ == old(self)@.pushed(token_id),
    {
        proof {
            use_type_invariant(&*self);
        }
        self.token_count = self.token_count + 1;
        self.at_sentence_start = false;
        match token_id {
            Some(id) => {
                if id > AUTOSUGGEST_UNK_ID {
                    let ghost old_recent = self@.recent;
                    if self.id_len < 16 {
                        let n = self.id_len;
                        let mut ids = self.ids;
                        ids[n] = id;
                        self.ids = ids;
                        self.id_len = n + 1;
                        assert(self@.recent =~= old_recent.push(id));
                    } else {
                        let ghost before = self.ids@;
                        let mut ids = self.ids;
                        let mut i: usize = 0;
                        while i < 15
                            invariant
                                0 <= i <= 15,
                                ids@.len() == 16,
                                forall|j: int| 0 <= j < i ==> ids@[j] == before[j + 1],
                                forall|j: int| i <= j < 16 ==> ids@[j] == before[j],
                            decreases 15 - i,
                        {
                            let next = ids[i + 1];
                            ids[i] = next;
                            i = i + 1;
                        }
                        ids[15] = id;
                        self.ids = ids;
                        assert(old_recent =~= before);
                        assert(self@.recent =~= old_recent.drop_first().push(id));
                    }
                } else {
                    self.id_len = 0;
                    assert(self@.recent =~= Seq::<u32>::empty());
                }
            },
            None => {
                self.id_len = 0;
                assert(self@.recent =~= Seq::<u32>::empty());
            },
        }
    }

    pub fn push_unknown(&mut self)
        requires
            old(self)@.count < usize::MAX,
        ensures
            final(self)@ == old(self)@.pushed(None),
    {
        self.push_token_id(None);
    }
}

impl Default for AutosuggestContext {
    fn default() -> (c: Self)
        ensures
            c@ == (ContextView { count: 0, recent: Seq::empty(), at_start: true }),
    {
        Self::new()
    }
}

} // verus!
