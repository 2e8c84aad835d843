//! Character classes and committed-token analysis for context text.

use vstd::prelude::*;

verus! {

broadcast use vstd::string::axiom_spec_iter;

/// `char::is_ascii_punctuation`.
pub open spec fn spec_is_ascii_punctuation(c: char) -> bool {
    let u = c as u32;
    (0x21 <= u <= 0x2f) || (0x3a <= u <= 0x40) || (0x5b <= u <= 0x60) || (0x7b <= u <= 0x7e)
}

/// Punctuation stripped from the edges of a context token: ASCII punctuation,
/// danda `।`, double danda `॥`, ellipsis, curly quotes and dashes.
pub open spec fn spec_is_context_punctuation(c: char) -> bool {
    let u = c as u32;
    spec_is_ascii_punctuation(c) || u == 0x0964 || u == 0x0965 || u == 0x2026 || u == 0x201c
        || u == 0x201d || u == 0x2018 || u == 0x2019 || u == 0x2014 || u == 0x2013
}

/// Characters that end a sentence: `।`, `॥`, `.`, `!`, `?`, `…`.
pub open spec fn spec_is_sentence_boundary(c: char) -> bool {
    let u = c as u32;
    u == 0x0964 || u == 0x0965 || u == 0x2e || u == 0x21 || u == 0x3f || u == 0x2026
}

/// Line and paragraph separators that start a new sentence in an editor.
pub open spec fn spec_is_editor_boundary(c: char) -> bool {
    let u = c as u32;
    u == 0x0a || u == 0x0d || u == 0x2028 || u == 0x2029
}

/// `char::is_whitespace`: the Unicode `White_Space` property.
pub open spec fn spec_is_whitespace(c: char) -> bool {
    let u = c as u32;
    (0x09 <= u <= 0x0d) || u == 0x20 || u == 0x85 || u == 0xa0 || u == 0x1680 || (0x2000 <= u
        <= 0x200a) || u == 0x2028 || u == 0x2029 || u == 0x202f || u == 0x205f || u == 0x3000
}

/// Bengali letters: independent vowels and consonants, khanda ta, and the
/// nukta consonants.
pub open spec fn spec_is_bangla_letter(c: char) -> bool {
    let u = c as u32;
    (0x0985 <= u <= 0x09b9) || u == 0x09ce || (0x09dc <= u <= 0x09df)
}

/// Characters allowed in a personal out-of-vocabulary word: the Bengali block
/// without the taka sign.
pub open spec fn spec_is_personal_text_char(c: char) -> bool {
    let u = c as u32;
    (0x0980 <= u <= 0x09ff) && u != 0x0964 && u != 0x0965 && u != 0x09f3
}

pub fn is_context_punctuation(ch: char) -> (r: bool)
    ensures
        r == spec_is_context_punctuation(ch),
{
    let u = ch as u32;
    (0x21 <= u && u <= 0x2f) || (0x3a <= u && u <= 0x40) || (0x5b <= u && u <= 0x60) || (0x7b
        <= u && u <= 0x7e) || u == 0x0964 || u == 0x0965 || u == 0x2026 || u == 0x201c || u
        == 0x201d || u == 0x2018 || u == 0x2019 || u == 0x2014 || u == 0x2013
}

pub fn is_sentence_boundary(ch: char) -> (r: bool)
    ensures
        r == spec_is_sentence_boundary(ch),
{
    let u = ch as u32;
    u == 0x0964 || u == 0x0965 || u == 0x2e || u == 0x21 || u == 0x3f || u == 0x2026
}

pub fn is_editor_boundary(ch: char) -> (r: bool)
    ensures
        r == spec_is_editor_boundary(ch),
{
    let u = ch as u32;
    u == 0x0a || u == 0x0d || u == 0x2028 || u == 0x2029
}

pub fn is_whitespace(ch: char) -> (r: bool)
    ensures
        r == spec_is_whitespace(ch),
{
    let u = ch as u32;
    (0x09 <= u && u <= 0x0d) || u == 0x20 || u == 0x85 || u == 0xa0 || u == 0x1680 || (0x2000 <= u
        && u <= 0x200a) || u == 0x2028 || u == 0x2029 || u == 0x202f || u == 0x205f || u == 0x3000
}

pub fn is_bangla_letter(ch: char) -> (r: bool)
    ensures
        r == spec_is_bangla_letter(ch),
{
    let u = ch as u32;
    (0x0985 <= u && u <= 0x09b9) || u == 0x09ce || (0x09dc <= u && u <= 0x09df)
}

pub fn is_personal_text_char(ch: char) -> (r: bool)
    ensures
        r == spec_is_personal_text_char(ch),
{
    let u = ch as u32;
    (0x0980 <= u && u <= 0x09ff) && u != 0x0964 && u != 0x0965 && u != 0x09f3
}

/// The characters of a string, in order.
pub fn chars_of(s: &str) -> (v: Vec<char>)
    ensures
        v@ == s@,
{
    let mut v: Vec<char> = Vec::new();
    for c in it: s.chars()
        invariant
            it.seq() == s@,
            v@ == it.seq().take(it.index() as int),
    {
        v.push(c);
    }
    v
}

/// `String::push`: appends one character.
#[verifier::external_body]
pub(crate) fn string_push(s: &mut String, c: char)
    ensures
        final(s)@ == old(s)@.push(c),
{
    s.push(c);
}

/// Builds the string of `cs[start..end]`.
pub fn string_of_chars(cs: &Vec<char>, start: usize, end: usize) -> (s: String)
    requires
        start <= end <= cs@.len(),
    ensures
        s@ == cs@.subrange(start as int, end as int),
{
    let mut s = String::new();
    let mut i = start;
    while i < end
        invariant
            start <= i <= end <= cs@.len(),
            s@ == cs@.subrange(start as int, i as int),
        decreases end - i,
    {
        string_push(&mut s, cs[i]);
        assert(cs@.subrange(start as int, i + 1) =~= cs@.subrange(start as int, i as int).push(
            cs@[i as int],
        ));
        i = i + 1;
    }
    s
}

/// `a..b` are the bounds of `cs` once context punctuation is trimmed from
/// both ends (`a == b` when nothing is left).
pub open spec fn trim_bounds(cs: Seq<char>, a: int, b: int) -> bool {
    &&& 0 <= a <= b <= cs.len()
    &&& forall|j: int| 0 <= j < a ==> spec_is_context_punctuation(#[trigger] cs[j])
    &&& forall|j: int| b <= j < cs.len() ==> spec_is_context_punctuation(#[trigger] cs[j])
    &&& a < b ==> !spec_is_context_punctuation(cs[a]) && !spec_is_context_punctuation(cs[b - 1])
    &&& a == b ==> a == 0
}

pub proof fn lemma_trim_bounds_unique(cs: Seq<char>, a1: int, b1: int, a2: int, b2: int)
    requires
        trim_bounds(cs, a1, b1),
        trim_bounds(cs, a2, b2),
    ensures
        a1 == a2,
        b1 == b2,
{
    if a1 < b1 && a2 < b2 {
        if a1 < a2 {
            assert(spec_is_context_punctuation(cs[a1]));
        }
        if a2 < a1 {
            assert(spec_is_context_punctuation(cs[a2]));
        }
        if b1 < b2 {
            assert(spec_is_context_punctuation(cs[b2 - 1]));
        }
        if b2 < b1 {
            assert(spec_is_context_punctuation(cs[b1 - 1]));
        }
    } else if a1 < b1 {
        assert(spec_is_context_punctuation(cs[a1]));
    } else if a2 < b2 {
        assert(spec_is_context_punctuation(cs[a2]));
    }
}

/// The token text left after trimming context punctuation from both ends.
pub open spec fn spec_trimmed(cs: Seq<char>) -> Seq<char> {
    let (a, b) = choose|a: int, b: int| trim_bounds(cs, a, b);
    cs.subrange(a, b)
}

/// The last `k` characters are context punctuation and the one before them
/// (if any) is not.
pub open spec fn is_trailing_run(cs: Seq<char>, k: int) -> bool {
    &&& 0 <= k <= cs.len()
    &&& forall|j: int| cs.len() - k <= j < cs.len() ==> spec_is_context_punctuation(#[trigger] cs[j])
    &&& k < cs.len() ==> !spec_is_context_punctuation(cs[cs.len() - k - 1])
}

/// One of the last `k` characters ends a sentence.
pub open spec fn boundary_in_tail(cs: Seq<char>, k: int) -> bool {
    exists|j: int| cs.len() - k <= j < cs.len() && spec_is_sentence_boundary(#[trigger] cs[j])
}

/// Whether the run of punctuation at the end of the token holds a sentence
/// boundary.
pub open spec fn spec_trailing_boundary(cs: Seq<char>) -> bool {
    exists|k: int| #[trigger] is_trailing_run(cs, k) && boundary_in_tail(cs, k)
}

/// A committed token split into its word text and whether a sentence boundary
/// follows it.
#[derive(Debug)]
pub struct ContextToken {
    pub text: Option<String>,
    pub boundary_after: bool,
}

/// Splits a raw committed token into its word (edge punctuation trimmed; none
/// when only punctuation is left) and whether its trailing punctuation ends a
/// sentence.
pub fn analyze_context_token(raw: &str) -> (t: ContextToken)
    ensures
        t.text is None <==> spec_trimmed(raw@).len() == 0,
        t.text matches Some(s) ==> s@ == spec_trimmed(raw@),
        t.boundary_after == spec_trailing_boundary(raw@),
{
    let cs = chars_of(raw);
    let n = cs.len();
    let mut a: usize = 0;
    while a < n && is_context_punctuation(cs[a])
        invariant
            n == cs@.len(),
            a <= n,
            forall|j: int| 0 <= j < a ==> spec_is_context_punctuation(#[trigger] cs@[j]),
        decreases n - a,
    {
        a = a + 1;
    }
    let mut b: usize = n;
    let mut found = false;
    while b > 0 && is_context_punctuation(cs[b - 1])
        invariant
            n == cs@.len(),
            b <= n,
            a <= n,
            a < n ==> !spec_is_context_punctuation(cs@[a as int]),
            a < n ==> a < b,
            forall|j: int| b <= j < n ==> spec_is_context_punctuation(#[trigger] cs@[j]),
            found == exists|j: int| b <= j < n && spec_is_sentence_boundary(#[trigger] cs@[j]),
        decreases b,
    {
        if is_sentence_boundary(cs[b - 1]) {
            found = true;
        }
        b = b - 1;
    }
    let ghost cs_v = cs@;
    proof {
        assert(raw@ == cs_v);
        let k = n - b;
        assert(b > 0 ==> !spec_is_context_punctuation(cs_v[b - 1]));
        assert(is_trailing_run(cs_v, k));
        if found {
            assert(boundary_in_tail(cs_v, k));
        } else {
            if spec_trailing_boundary(cs_v) {
                let k2 = choose|k2: int| #[trigger] is_trailing_run(cs_v, k2) && boundary_in_tail(cs_v, k2);
                if k2 > k {
                    assert(spec_is_context_punctuation(cs_v[b - 1]));
                } else if k2 < k {
                    assert(spec_is_context_punctuation(cs_v[cs_v.len() - k2 - 1]));
                }
                let j = choose|j: int|
                    cs_v.len() - k2 <= j < cs_v.len() && spec_is_sentence_boundary(
                        #[trigger] cs_v[j],
                    );
                assert(b <= j < n);
            }
        }
    }
    if a < n {
        proof {
            assert(!spec_is_context_punctuation(cs_v[b - 1]));
            assert(trim_bounds(cs_v, a as int, b as int));
            let (a2, b2) = choose|a2: int, b2: int| trim_bounds(cs_v, a2, b2);
            lemma_trim_bounds_unique(cs_v, a as int, b as int, a2, b2);
        }
        let text = string_of_chars(&cs, a, b);
        ContextToken { text: Some(text), boundary_after: found }
    } else {
        proof {
            assert(trim_bounds(cs_v, 0, 0));
            let (a2, b2) = choose|a2: int, b2: int| trim_bounds(cs_v, a2, b2);
            lemma_trim_bounds_unique(cs_v, 0, 0, a2, b2);
        }
        ContextToken { text: None, boundary_after: found }
    }
}

} // verus!
