//! Bounded ranked caches of the context-free personal suggestions.

use vstd::prelude::*;
use crate::personal_types::{
    PersonalAutosuggestSuggestion, PersonalAutosuggestTextSuggestion, suggestion_precedes,
    suggestion_precedes_exec, text_key_precedes, text_key_precedes_exec,
    PERSONAL_UNIGRAM_CACHE_LIMIT,
};
use crate::candidate::{is_first, first_index, lemma_first_index};
use crate::personal::lemma_first_index_exists;

verus! {

pub open spec fn same_token(id: u32) -> spec_fn(PersonalAutosuggestSuggestion) -> bool {
    |x: PersonalAutosuggestSuggestion| x.token_id == id
}

pub open spec fn preceded_by_suggestion(s: PersonalAutosuggestSuggestion) -> spec_fn(PersonalAutosuggestSuggestion) -> bool {
    |x: PersonalAutosuggestSuggestion| suggestion_precedes(s, x)
}

/// The cache without the entry for `id`.
pub open spec fn cache_remove(c: Seq<PersonalAutosuggestSuggestion>, id: u32) -> Seq<PersonalAutosuggestSuggestion> {
    let p = first_index(c, same_token(id));
    if p < c.len() {
        c.remove(p)
    } else {
        c
    }
}

/// `s` placed before the first suggestion it precedes.
pub open spec fn insert_suggestion_ranked(
    c: Seq<PersonalAutosuggestSuggestion>,
    s: PersonalAutosuggestSuggestion,
) -> Seq<PersonalAutosuggestSuggestion> {
    c.insert(first_index(c, preceded_by_suggestion(s)), s)
}

/// The cache after (re)inserting `s`: its old entry goes; a full cache only
/// takes it when it outranks the last entry, which is then dropped.
pub open spec fn cache_insert(c: Seq<PersonalAutosuggestSuggestion>, s: PersonalAutosuggestSuggestion) -> Seq<
    PersonalAutosuggestSuggestion,
> {
    let c1 = cache_remove(c, s.token_id);
    if c1.len() >= PERSONAL_UNIGRAM_CACHE_LIMIT && !suggestion_precedes(s, c1.last()) {
        c1
    } else {
        let c2 = if c1.len() >= PERSONAL_UNIGRAM_CACHE_LIMIT {
            c1.drop_last()
        } else {
            c1
        };
        insert_suggestion_ranked(c2, s)
    }
}

/// Appends the cached suggestions, in order, that reach `min_count` and are
/// not yet in `out`, until `out` holds `limit`.
pub open spec fn cache_collect(
    c: Seq<PersonalAutosuggestSuggestion>,
    i: int,
    limit: int,
    min_count: u16,
    out: Seq<PersonalAutosuggestSuggestion>,
) -> Seq<PersonalAutosuggestSuggestion>
    decreases c.len() - i,
{
    if i >= c.len() || out.len() >= limit {
        out
    } else {
        let s = c[i];
        let skip = s.count < min_count || exists|j: int|
            0 <= j < out.len() && (#[trigger] out[j]).token_id == s.token_id;
        cache_collect(
            c,
            i + 1,
            limit,
            min_count,
            if skip {
                out
            } else {
                out.push(s)
            },
        )
    }
}

pub fn cache_position(c: &Vec<PersonalAutosuggestSuggestion>, id: u32) -> (p: usize)
    ensures
        p as int == first_index(c@, same_token(id)),
        p <= c@.len(),
{
    let mut i: usize = 0;
    while i < c.len()
        invariant
            i <= c@.len(),
            forall|j: int| 0 <= j < i ==> !(#[trigger] same_token(id)(c@[j])),
        decreases c@.len() - i,
    {
        if c[i].token_id == id {
            proof {
                lemma_first_index(c@, same_token(id), i as int);
            }
            return i;
        }
        i = i + 1;
    }
    proof {
        lemma_first_index(c@, same_token(id), i as int);
    }
    i
}

pub fn cache_remove_exec(c: &mut Vec<PersonalAutosuggestSuggestion>, id: u32)
    ensures
        final(c)@ == cache_remove(old(c)@, id),
{
    let p = cache_position(c, id);
    if p < c.len() {
        c.remove(p);
    }
}

pub fn insert_suggestion_ranked_exec(c: &mut Vec<PersonalAutosuggestSuggestion>, s: PersonalAutosuggestSuggestion)
    ensures
        final(c)@ == insert_suggestion_ranked(old(c)@, s),
{
    let mut i: usize = 0;
    while i < c.len() && !suggestion_precedes_exec(&s, &c[i])
        invariant
            i <= c@.len(),
            c@ == old(c)@,
            forall|j: int| 0 <= j < i ==> !(#[trigger] preceded_by_suggestion(s)(c@[j])),
        decreases c@.len() - i,
    {
        i = i + 1;
    }
    proof {
        lemma_first_index(c@, preceded_by_suggestion(s), i as int);
    }
    c.insert(i, s);
}

pub fn cache_insert_exec(c: &mut Vec<PersonalAutosuggestSuggestion>, s: PersonalAutosuggestSuggestion)
    ensures
        final(c)@ == cache_insert(old(c)@, s),
{
    cache_remove_exec(c, s.token_id);
    if c.len() >= PERSONAL_UNIGRAM_CACHE_LIMIT && !suggestion_precedes_exec(&s, &c[c.len() - 1]) {
        return ;
    }
    if c.len() >= PERSONAL_UNIGRAM_CACHE_LIMIT {
        c.pop();
    }
    insert_suggestion_ranked_exec(c, s);
}

pub fn contains_token(out: &Vec<PersonalAutosuggestSuggestion>, id: u32) -> (b: bool)
    ensures
        b == exists|j: int| 0 <= j < out@.len() && (#[trigger] out@[j]).token_id == id,
{
    let mut i: usize = 0;
    while i < out.len()
        invariant
            i <= out@.len(),
            forall|j: int| 0 <= j < i ==> (#[trigger] out@[j]).token_id != id,
        decreases out@.len() - i,
    {
        if out[i].token_id == id {
            return true;
        }
        i = i + 1;
    }
    false
}

pub fn cache_collect_exec(
    c: &Vec<PersonalAutosuggestSuggestion>,
    limit: usize,
    min_count: u16,
    out: &mut Vec<PersonalAutosuggestSuggestion>,
)
    ensures
        final(out)@ == cache_collect(c@, 0, limit as int, min_count, old(out)@),
{
    let mut i: usize = 0;
    while i < c.len() && out.len() < limit
        invariant
            i <= c@.len(),
            cache_collect(c@, i as int, limit as int, min_count, out@) == cache_collect(
                c@,
                0,
                limit as int,
                min_count,
                old(out)@,
            ),
        decreases c@.len() - i,
    {
        let s = c[i];
        if !(s.count < min_count || contains_token(out, s.token_id)) {
            out.push(s);
        }
        i = i + 1;
    }
}

/// Inserts `s` into a ranked list of at most `limit` suggestions, dropping the
/// last when full; a suggestion that does not outrank the last of a full list
/// is not taken.
pub open spec fn insert_bounded(
    out: Seq<PersonalAutosuggestSuggestion>,
    s: PersonalAutosuggestSuggestion,
    limit: int,
) -> Seq<PersonalAutosuggestSuggestion> {
    if out.len() >= limit && out.len() > 0 && !suggestion_precedes(s, out.last()) {
        out
    } else {
        let o2 = if out.len() >= limit && out.len() > 0 {
            out.drop_last()
        } else {
            out
        };
        insert_suggestion_ranked(o2, s)
    }
}

pub fn insert_bounded_exec(out: &mut Vec<PersonalAutosuggestSuggestion>, s: PersonalAutosuggestSuggestion, limit: usize)
    ensures
        final(out)@ == insert_bounded(old(out)@, s, limit as int),
{
    if out.len() >= limit && out.len() > 0 && !suggestion_precedes_exec(&s, &out[out.len() - 1]) {
        return ;
    }
    if out.len() >= limit && out.len() > 0 {
        out.pop();
    }
    insert_suggestion_ranked_exec(out, s);
}

pub open spec fn preceded_by_text_key(s: PersonalAutosuggestTextSuggestion) -> spec_fn(PersonalAutosuggestTextSuggestion) -> bool {
    |x: PersonalAutosuggestTextSuggestion| text_key_precedes(s, x)
}

/// Text-suggestion variant of [`insert_bounded`].
pub open spec fn insert_text_bounded(
    out: Seq<PersonalAutosuggestTextSuggestion>,
    s: PersonalAutosuggestTextSuggestion,
    limit: int,
) -> Seq<PersonalAutosuggestTextSuggestion> {
    if out.len() >= limit && out.len() > 0 && !text_key_precedes(s, out.last()) {
        out
    } else {
        let o2 = if out.len() >= limit && out.len() > 0 {
            out.drop_last()
        } else {
            out
        };
        o2.insert(first_index(o2, preceded_by_text_key(s)), s)
    }
}

pub fn insert_text_bounded_exec(
    out: &mut Vec<PersonalAutosuggestTextSuggestion>,
    s: PersonalAutosuggestTextSuggestion,
    limit: usize,
)
    ensures
        final(out)@ == insert_text_bounded(old(out)@, s, limit as int),
{
    if out.len() >= limit && out.len() > 0 && !text_key_precedes_exec(&s, &out[out.len() - 1]) {
        return ;
    }
    if out.len() >= limit && out.len() > 0 {
        out.pop();
    }
    let mut i: usize = 0;
    while i < out.len() && !text_key_precedes_exec(&s, &out[i])
        invariant
            i <= out@.len(),
            forall|j: int| 0 <= j < i ==> !(#[trigger] preceded_by_text_key(s)(out@[j])),
        decreases out@.len() - i,
    {
        i = i + 1;
    }
    proof {
        lemma_first_index(out@, preceded_by_text_key(s), i as int);
    }
    out.insert(i, s);
}


/// Each suggestion outranks every later one.
pub open spec fn cache_ranked(c: Seq<PersonalAutosuggestSuggestion>) -> bool {
    forall|i: int, j: int| 0 <= i < j < c.len() ==> suggestion_precedes(#[trigger] c[i], #[trigger] c[j])
}

pub open spec fn cache_distinct(c: Seq<PersonalAutosuggestSuggestion>) -> bool {
    forall|i: int, j: int| 0 <= i < j < c.len() ==> (#[trigger] c[i]).token_id != (#[trigger] c[j]).token_id
}

/// The suggestion order is a strict total order on suggestions of distinct
/// words.
pub proof fn lemma_suggestion_order(
    a: PersonalAutosuggestSuggestion,
    b: PersonalAutosuggestSuggestion,
    c: PersonalAutosuggestSuggestion,
)
    ensures
        a.token_id != b.token_id ==> suggestion_precedes(a, b) || suggestion_precedes(b, a),
        suggestion_precedes(a, b) ==> !suggestion_precedes(b, a),
        suggestion_precedes(a, b) && suggestion_precedes(b, c) ==> suggestion_precedes(a, c),
{
}

/// Removing a word from a ranked cache of distinct words keeps it ranked and
/// distinct, and leaves no suggestion of that word.
pub proof fn lemma_cache_remove_keeps(c: Seq<PersonalAutosuggestSuggestion>, id: u32)
    requires
        cache_ranked(c),
        cache_distinct(c),
    ensures
        cache_ranked(cache_remove(c, id)),
        cache_distinct(cache_remove(c, id)),
        cache_remove(c, id).len() <= c.len(),
        forall|i: int|
            0 <= i < cache_remove(c, id).len() ==> c.contains(#[trigger] cache_remove(c, id)[i])
                && cache_remove(c, id)[i].token_id != id,
{
    lemma_first_index_exists(c, same_token(id));
    let p = first_index(c, same_token(id));
    let r = cache_remove(c, id);
    if p < c.len() {
        assert forall|i: int| 0 <= i < r.len() implies c.contains(#[trigger] r[i]) && r[i].token_id != id by {
            if i < p {
                assert(r[i] == c[i]);
                assert(!same_token(id)(c[i]));
            } else {
                assert(r[i] == c[i + 1]);
                assert(c[p].token_id == id);
            }
        }
        assert forall|i: int, j: int| 0 <= i < j < r.len() implies suggestion_precedes(#[trigger] r[i], #[trigger] r[j])
            && r[i].token_id != r[j].token_id by {
            let a = if i < p { i } else { i + 1 };
            let b = if j < p { j } else { j + 1 };
            assert(r[i] == c[a] && r[j] == c[b]);
        }
    } else {
        assert forall|i: int| 0 <= i < r.len() implies c.contains(#[trigger] r[i]) && r[i].token_id != id by {
            assert(!same_token(id)(c[i]));
        }
    }
}

/// Placing a new word's suggestion by rank keeps a ranked cache of distinct
/// words ranked and distinct.
pub proof fn lemma_insert_ranked_keeps(c: Seq<PersonalAutosuggestSuggestion>, s: PersonalAutosuggestSuggestion)
    requires
        cache_ranked(c),
        cache_distinct(c),
        forall|i: int| 0 <= i < c.len() ==> (#[trigger] c[i]).token_id != s.token_id,
    ensures
        cache_ranked(insert_suggestion_ranked(c, s)),
        cache_distinct(insert_suggestion_ranked(c, s)),
        insert_suggestion_ranked(c, s).len() == c.len() + 1,
        forall|i: int|
            0 <= i < insert_suggestion_ranked(c, s).len() ==> #[trigger] insert_suggestion_ranked(c, s)[i] == s
                || c.contains(insert_suggestion_ranked(c, s)[i]),
{
    lemma_first_index_exists(c, preceded_by_suggestion(s));
    let k = first_index(c, preceded_by_suggestion(s));
    let r = c.insert(k, s);
    assert forall|i: int| 0 <= i < r.len() implies #[trigger] r[i] == s || c.contains(r[i]) by {
        if i < k {
            assert(r[i] == c[i]);
        } else if i > k {
            assert(r[i] == c[i - 1]);
        }
    }
    assert forall|i: int, j: int| 0 <= i < j < r.len() implies suggestion_precedes(#[trigger] r[i], #[trigger] r[j])
        && r[i].token_id != r[j].token_id by {
        if j < k {
            assert(r[i] == c[i] && r[j] == c[j]);
        } else if j == k {
            assert(r[i] == c[i]);
            assert(!preceded_by_suggestion(s)(c[i]));
            lemma_suggestion_order(c[i], s, s);
        } else if i == k {
            assert(r[j] == c[j - 1]);
            assert(preceded_by_suggestion(s)(c[k]));
            if j - 1 > k {
                lemma_suggestion_order(s, c[k], c[j - 1]);
            }
        } else if i < k {
            assert(r[i] == c[i] && r[j] == c[j - 1]);
        } else {
            assert(r[i] == c[i - 1] && r[j] == c[j - 1]);
        }
    }
}

/// Reinserting a suggestion keeps a cache of at most the cap ranked and of
/// distinct words; each entry is the new one or an old one of another word.
pub proof fn lemma_cache_insert_keeps(c: Seq<PersonalAutosuggestSuggestion>, s: PersonalAutosuggestSuggestion)
    requires
        cache_ranked(c),
        cache_distinct(c),
        c.len() <= PERSONAL_UNIGRAM_CACHE_LIMIT,
    ensures
        cache_ranked(cache_insert(c, s)),
        cache_distinct(cache_insert(c, s)),
        cache_insert(c, s).len() <= PERSONAL_UNIGRAM_CACHE_LIMIT,
        forall|i: int|
            0 <= i < cache_insert(c, s).len() ==> #[trigger] cache_insert(c, s)[i] == s || (c.contains(
                cache_insert(c, s)[i],
            ) && cache_insert(c, s)[i].token_id != s.token_id),
{
    lemma_cache_remove_keeps(c, s.token_id);
    let c1 = cache_remove(c, s.token_id);
    if c1.len() >= PERSONAL_UNIGRAM_CACHE_LIMIT && !suggestion_precedes(s, c1.last()) {
    } else {
        let c2 = if c1.len() >= PERSONAL_UNIGRAM_CACHE_LIMIT {
            c1.drop_last()
        } else {
            c1
        };
        assert forall|i: int| 0 <= i < c2.len() implies c1.contains(#[trigger] c2[i]) && c2[i].token_id != s.token_id by {
            assert(c2[i] == c1[i]);
        }
        assert(cache_ranked(c2) && cache_distinct(c2)) by {
            assert forall|i: int, j: int| 0 <= i < j < c2.len() implies suggestion_precedes(#[trigger] c2[i], #[trigger] c2[j])
                && c2[i].token_id != c2[j].token_id by {
                assert(c2[i] == c1[i] && c2[j] == c1[j]);
            }
        }
        lemma_insert_ranked_keeps(c2, s);
        let r = insert_suggestion_ranked(c2, s);
        assert forall|i: int| 0 <= i < r.len() implies #[trigger] r[i] == s || (c.contains(r[i]) && r[i].token_id
            != s.token_id) by {
            if r[i] != s {
                let k = choose|k: int| 0 <= k < c2.len() && c2[k] == r[i];
                assert(c1.contains(c2[k]));
            }
        }
    }
}
} // verus!
