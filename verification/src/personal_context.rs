//! The personal-only context: like the static context, but a learned
//! out-of-vocabulary Bangla word contributes its private context id.

use vstd::prelude::*;
use crate::context::{AutosuggestContext, ContextView, AUTOSUGGEST_UNK_ID};
use crate::personal_types::{
    ctx_ids, spec_empty_ctx, spec_push_id, spec_is_personal_text, spec_text_context_id,
    personal_text_context_id, PersonalContext,
};

verus! {

/// The state of a [`PersonalAutosuggestContext`].
pub struct PersonalContextView {
    /// Committed tokens since the last clear.
    pub count: int,
    /// The newest (at most three) context ids.
    pub ctx: PersonalContext,
    /// Set at a sentence or editor boundary until a token is committed.
    pub at_start: bool,
}

impl PersonalContextView {
    pub open spec fn is_sentence_start(self) -> bool {
        self.at_start && self.ctx.len == 0
    }

    /// The state after committing a resolved token (`None` for unknown text).
    pub open spec fn pushed(self, token_id: Option<u32>) -> PersonalContextView {
        PersonalContextView {
            count: self.count + 1,
            ctx: match token_id {
                Some(id) => if id > AUTOSUGGEST_UNK_ID {
                    spec_push_id(self.ctx, id)
                } else {
                    spec_empty_ctx()
                },
                None => spec_empty_ctx(),
            },
            at_start: false,
        }
    }

    /// The state after committing an out-of-vocabulary word.
    pub open spec fn pushed_text(self, text: Seq<char>) -> PersonalContextView {
        PersonalContextView {
            count: self.count + 1,
            ctx: if spec_is_personal_text(text) {
                spec_push_id(self.ctx, spec_text_context_id(text))
            } else {
                spec_empty_ctx()
            },
            at_start: false,
        }
    }

    pub open spec fn bounded(self) -> PersonalContextView {
        PersonalContextView { count: self.count, ctx: spec_empty_ctx(), at_start: true }
    }
}

pub open spec fn fresh_personal_context() -> PersonalContextView {
    PersonalContextView { count: 0, ctx: spec_empty_ctx(), at_start: true }
}

/// The context with each id of `ids` pushed in turn.
pub open spec fn push_ids(c: PersonalContext, ids: Seq<u32>) -> PersonalContext
    decreases ids.len(),
{
    if ids.len() == 0 {
        c
    } else {
        spec_push_id(push_ids(c, ids.drop_last()), ids.last())
    }
}

/// The personal context that corresponds to a static context.
pub open spec fn personal_of_static(c: ContextView) -> PersonalContextView {
    PersonalContextView {
        count: c.count,
        ctx: push_ids(spec_empty_ctx(), c.recent),
        at_start: c.is_sentence_start(),
    }
}

/// Personal-only context used by the on-device overlay.
///
/// Unlike `AutosuggestContext`, this can carry a compact private id for a
/// learned Bangla out-of-vocabulary word. Those ids are never sent to the
/// static model or scorer; they only index personal entries.
#[derive(Debug, Clone, Copy, PartialEq, Eq)]
pub struct PersonalAutosuggestContext {
    token_count: usize,
    context: PersonalContext,
    at_sentence_start: bool,
}

impl View for PersonalAutosuggestContext {
    type V = PersonalContextView;

    closed spec fn view(&self) -> PersonalContextView {
        PersonalContextView {
            count: self.token_count as int,
            ctx: self.context,
            at_start: self.at_sentence_start,
        }
    }
}

impl PersonalAutosuggestContext {
    pub fn new() -> (c: Self)
        ensures
            c@ == fresh_personal_context(),
    {
        PersonalAutosuggestContext {
            token_count: 0,
            context: PersonalContext::empty(),
            at_sentence_start: true,
        }
    }

    pub fn clear(&mut self)
        ensures
            final(self)@ == fresh_personal_context(),
    {
        self.token_count = 0;
        self.context = PersonalContext::empty();
        self.at_sentence_start = true;
    }

    pub fn push_boundary(&mut self)
        ensures
            final(self)@ == old(self)@.bounded(),
    {
        self.context = PersonalContext::empty();
        self.at_sentence_start = true;
    }

    pub fn token_count(self) -> (n: usize)
        ensures
            n == self@.count,
            0 <= self@.count <= usize::MAX,
    {
        self.token_count
    }

    pub fn matched_token_count(self) -> (n: usize)
        ensures
            n == self@.ctx.len,
    {
        self.context.len as usize
    }

    /// Commits a resolved word id; reserved ids clear the recent context.
    pub fn push_word_token_id(&mut self, token_id: u32)
        requires
            old(self)@.count < usize::MAX,
        ensures
            final(self)@ == old(self)@.pushed(Some(token_id)),
    {
        self.push_token_id(Some(token_id));
    }

    /// Commits an out-of-vocabulary word; returns whether it is a learnable
    /// personal word (otherwise the recent context is cleared).
    pub fn push_text(&mut self, text: &str) -> (b: bool)
        requires
            old(self)@.count < usize::MAX,
        ensures
            b == spec_is_personal_text(text@),
            final(self)@ == old(self)@.pushed_text(text@),
    {
        self.push_text_token(text)
    }

    pub fn push_unknown_token(&mut self)
        requires
            old(self)@.count < usize::MAX,
        ensures
            final(self)@ == old(self)@.pushed(None),
    {
        self.push_unknown();
    }

    pub fn is_sentence_start(self) -> (b: bool)
        ensures
            b == self@.is_sentence_start(),
    {
        self.at_sentence_start && self.context.is_empty()
    }

    /// The newest context ids, oldest first.
    pub fn recent_context_ids(&self) -> (v: Vec<u32>)
        ensures
            v@ == ctx_ids(self@.ctx),
    {
        self.context.ids()
    }

    pub fn push_token_id(&mut self, token_id: Option<u32>)
        requires
            old(self)@.count < usize::MAX,
        ensures
            final(self)@ == old(self)@.pushed(token_id),
    {
        self.token_count = self.token_count + 1;
        self.at_sentence_start = false;
        match token_id {
            Some(id) => {
                if id > AUTOSUGGEST_UNK_ID {
                    self.context.push_id(id);
                } else {
                    self.context = PersonalContext::empty();
                }
            },
            None => {
                self.context = PersonalContext::empty();
            },
        }
    }

    pub fn push_text_token(&mut self, text: &str) -> (b: bool)
        requires
            old(self)@.count < usize::MAX,
        ensures
            b == spec_is_personal_text(text@),
            final(self)@ == old(self)@.pushed_text(text@),
    {
        self.token_count = self.token_count + 1;
        self.at_sentence_start = false;
        match personal_text_context_id(text) {
            Some(id) => {
                self.context.push_id(id);
                true
            },
            None => {
                self.context = PersonalContext::empty();
                false
            },
        }
    }

    pub fn push_unknown(&mut self)
        requires
            old(self)@.count < usize::MAX,
        ensures
            final(self)@ == old(self)@.pushed(None),
    {
        self.push_token_id(None);
    }

    /// The personal context that mirrors a static context.
    pub fn from_static(context: AutosuggestContext) -> (p: Self)
        ensures
            p@ == personal_of_static(context@),
    {
        let ids = context.recent_token_ids();
        let mut ctx = PersonalContext::empty();
        let mut i: usize = 0;
        while i < ids.len()
            invariant
                i <= ids@.len(),
                ctx == push_ids(spec_empty_ctx(), ids@.take(i as int)),
            decreases ids@.len() - i,
        {
            proof {
                assert(ids@.take(i as int + 1).drop_last() =~= ids@.take(i as int));
            }
            ctx.push_id(ids[i]);
            i = i + 1;
        }
        assert(ids@.take(ids@.len() as int) =~= ids@);
        PersonalAutosuggestContext {
            token_count: context.token_count(),
            context: ctx,
            at_sentence_start: context.is_sentence_start(),
        }
    }
}

impl Default for PersonalAutosuggestContext {
    fn default() -> (c: Self)
        ensures
            c@ == fresh_personal_context(),
    {
        Self::new()
    }
}

} // verus!
