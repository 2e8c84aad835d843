//! Laws of context building: committing a typed text gives the same context
//! as committing its words one at a time.

use vstd::prelude::*;
use crate::context::ContextView;
use crate::lm::{spec_push_text_from, spec_push_token, spec_push_tokens, LmView};
use crate::text::{spec_is_editor_boundary, spec_is_whitespace, spec_is_context_punctuation, spec_is_sentence_boundary, is_trailing_run, boundary_in_tail, spec_trailing_boundary};

verus! {

/// A word as the text API sees it: non-empty and free of whitespace.
pub open spec fn is_word_token(t: Seq<char>) -> bool {
    &&& t.len() > 0
    &&& forall|k: int| 0 <= k < t.len() ==> !spec_is_whitespace(#[trigger] t[k])
}

/// The words of a list written one after another, separated by single spaces.
pub open spec fn space_joined(toks: Seq<Seq<char>>) -> Seq<char>
    decreases toks.len(),
{
    if toks.len() == 0 {
        Seq::empty()
    } else if toks.len() == 1 {
        toks[0]
    } else {
        toks[0] + seq![' '] + space_joined(toks.drop_first())
    }
}

/// Committing a list that starts with `t` commits `t` first, then the rest.
pub proof fn lemma_push_tokens_first(v: LmView, c: ContextView, t: Seq<char>, rest: Seq<Seq<char>>)
    ensures
        spec_push_tokens(v, c, seq![t] + rest) == match spec_push_token(v, c, t) {
            Err(e) => Err(e),
            Ok(c2) => spec_push_tokens(v, c2, rest),
        },
    decreases rest.len(),
{
    let all = seq![t] + rest;
    if rest.len() == 0 {
        assert(all.drop_last() =~= Seq::<Seq<char>>::empty());
        assert(all.last() == t);
        assert(spec_push_tokens(v, c, all.drop_last()) == Ok::<ContextView, crate::artifact::AutosuggestArtifactError>(c));
        match spec_push_token(v, c, t) {
            Err(_) => {},
            Ok(c2) => {
                assert(rest =~= Seq::<Seq<char>>::empty());
                assert(spec_push_tokens(v, c2, rest) == Ok::<ContextView, crate::artifact::AutosuggestArtifactError>(c2));
            },
        }
    } else {
        lemma_push_tokens_first(v, c, t, rest.drop_last());
        assert(all.drop_last() =~= seq![t] + rest.drop_last());
        assert(all.last() == rest.last());
        match spec_push_token(v, c, t) {
            Err(_) => {},
            Ok(c2) => {
                assert(spec_push_tokens(v, c2, rest) == match spec_push_tokens(v, c2, rest.drop_last()) {
                    Err(e) => Err(e),
                    Ok(c3) => spec_push_token(v, c3, rest.last()),
                });
            },
        }
    }
}

/// Inside a word, the text scan only moves forward.
proof fn lemma_scan_word(v: LmView, c: ContextView, cs: Seq<char>, i: int, s: int, e: int)
    requires
        0 <= s <= i <= e <= cs.len(),
        forall|k: int| i <= k < e ==> !spec_is_whitespace(#[trigger] cs[k]),
    ensures
        spec_push_text_from(v, c, cs, i, Some(s)) == spec_push_text_from(v, c, cs, e, Some(s)),
    decreases e - i,
{
    if i < e {
        assert(!spec_is_whitespace(cs[i]));
        lemma_scan_word(v, c, cs, i + 1, s, e);
    }
}

/// The scan of a suffix made of space-separated words commits those words.
proof fn lemma_text_from_joined(v: LmView, c: ContextView, cs: Seq<char>, i: int, toks: Seq<Seq<char>>)
    requires
        0 <= i <= cs.len(),
        cs.subrange(i, cs.len() as int) == space_joined(toks),
        forall|j: int| 0 <= j < toks.len() ==> is_word_token(#[trigger] toks[j]),
    ensures
        spec_push_text_from(v, c, cs, i, None) == spec_push_tokens(v, c, toks),
    decreases toks.len(),
{
    if toks.len() == 0 {
        assert(cs.subrange(i, cs.len() as int).len() == 0);
    } else {
        let t = toks[0];
        let rest = toks.drop_first();
        let n = t.len() as int;
        let e = i + n;
        assert(is_word_token(t));
        let tail = cs.subrange(i, cs.len() as int);
        if toks.len() == 1 {
            assert(tail == t);
        } else {
            assert(tail == t + seq![' '] + space_joined(rest));
        }
        assert(e <= cs.len());
        assert forall|k: int| i <= k < e implies !spec_is_whitespace(#[trigger] cs[k]) by {
            assert(tail[k - i] == t[k - i]);
            assert(cs[k] == tail[k - i]);
        }
        assert(cs.subrange(i, e) =~= t) by {
            assert forall|k: int| 0 <= k < n implies cs.subrange(i, e)[k] == t[k] by {
                assert(tail[k] == t[k]);
            }
        }
        assert(!spec_is_whitespace(cs[i]));
        lemma_scan_word(v, c, cs, i + 1, i, e);
        assert(toks =~= seq![t] + rest);
        lemma_push_tokens_first(v, c, t, rest);
        if toks.len() == 1 {
            assert(e == cs.len());
            assert(rest.len() == 0);
        } else {
            assert(cs[e] == ' ') by {
                assert(tail[n] == ' ');
            }
            assert(spec_is_whitespace(cs[e]));
            assert(!spec_is_editor_boundary(cs[e]));
            assert(cs.subrange(e + 1, cs.len() as int) =~= space_joined(rest)) by {
                assert forall|k: int| 0 <= k < cs.len() - (e + 1) implies cs.subrange(
                    e + 1,
                    cs.len() as int,
                )[k] == space_joined(rest)[k] by {
                    assert(tail[n + 1 + k] == space_joined(rest)[k]);
                }
            }
            assert forall|j: int| 0 <= j < rest.len() implies is_word_token(#[trigger] rest[j]) by {
                assert(rest[j] == toks[j + 1]);
            }
            match spec_push_token(v, c, t) {
                Err(_) => {},
                Ok(c2) => {
                    lemma_text_from_joined(v, c2, cs, e + 1, rest);
                },
            }
        }
    }
}

/// Committing a text whose words are separated by single spaces gives the
/// same context, or fails with the same error, as committing its words one
/// at a time in order.
pub proof fn lemma_text_matches_tokens(v: LmView, c: ContextView, toks: Seq<Seq<char>>)
    requires
        forall|j: int| 0 <= j < toks.len() ==> is_word_token(#[trigger] toks[j]),
    ensures
        spec_push_text_from(v, c, space_joined(toks), 0, None) == spec_push_tokens(v, c, toks),
{
    let cs = space_joined(toks);
    assert(cs.subrange(0, cs.len() as int) =~= cs);
    lemma_text_from_joined(v, c, cs, 0, toks);
}


/// The characters that end a sentence are exactly the danda `।`, the double
/// danda `॥`, the full stop, `!`, `?` and the ellipsis `…`.
pub proof fn lemma_sentence_marks(c: char)
    ensures
        spec_is_sentence_boundary(c) <==> (c == '\u{0964}' || c == '\u{0965}' || c == '.' || c == '!' || c == '?'
            || c == '\u{2026}'),
{
}

/// The end of `cs` from `cs.len() - m` on is context punctuation; the whole
/// trailing run of punctuation is at least that long.
proof fn lemma_trailing_run_exists(cs: Seq<char>, m: int) -> (k: int)
    requires
        0 <= m <= cs.len(),
        forall|j: int| cs.len() - m <= j < cs.len() ==> spec_is_context_punctuation(#[trigger] cs[j]),
    ensures
        is_trailing_run(cs, k),
        k >= m,
    decreases cs.len() - m,
{
    if m == cs.len() || !spec_is_context_punctuation(cs[cs.len() - m - 1]) {
        m
    } else {
        lemma_trailing_run_exists(cs, m + 1)
    }
}

/// A raw token whose trailing punctuation holds a sentence mark (`।`, `॥`,
/// `.`, `!`, `?`, `…`; only context punctuation after it) ends the sentence:
/// pushing it, when the lookup succeeds, leaves the context at a sentence
/// start with no recent ids.
pub proof fn lemma_sentence_mark_ends_sentence(v: LmView, c: ContextView, raw: Seq<char>, j: int)
    requires
        0 <= j < raw.len(),
        raw[j] == '\u{0964}' || raw[j] == '\u{0965}' || raw[j] == '.' || raw[j] == '!' || raw[j] == '?' || raw[j]
            == '\u{2026}',
        forall|k: int| j < k < raw.len() ==> spec_is_context_punctuation(#[trigger] raw[k]),
    ensures
        spec_push_token(v, c, raw) matches Ok(c2) ==> c2.at_start && c2.recent.len() == 0,
{
    assert forall|k: int| raw.len() - (raw.len() - j) <= k < raw.len() implies spec_is_context_punctuation(
        #[trigger] raw[k],
    ) by {
        if k == j {
        }
    }
    let k = lemma_trailing_run_exists(raw, raw.len() - j);
    assert(boundary_in_tail(raw, k)) by {
        assert(spec_is_sentence_boundary(raw[j]));
    }
    assert(spec_trailing_boundary(raw));
}

} // verus!
