//! Validation of free-text Bengali words proposed by a generator: a word is
//! taken without a dictionary when it is short, made only of Bengali
//! letters, signs and well-placed joiners, and keeps the shape of a word.

use vstd::prelude::*;
use crate::text::{chars_of, is_whitespace, spec_is_ascii_punctuation, spec_is_whitespace};

verus! {

broadcast use vstd::string::axiom_spec_iter;

pub const DEFAULT_AUTOSUGGEST_OPEN_VOCAB_MAX_CANDIDATES: usize = 5;
pub const DEFAULT_AUTOSUGGEST_OPEN_VOCAB_MAX_WORD_CHARS: usize = 32;
pub const DEFAULT_AUTOSUGGEST_OPEN_VOCAB_TEXT_HEAP_BYTES: usize = 128;
pub const DEFAULT_AUTOSUGGEST_OPEN_VOCAB_MAX_SCALAR_RUN: usize = 3;

/// Zero-width non-joiner.
pub const ZWNJ: char = '\u{200c}';
/// Bengali hasant (virama).
pub const HASANT: char = '\u{09cd}';

/// Why a generated word is not taken.
#[derive(Debug, Clone, Copy, PartialEq, Eq, Structural)]
pub enum AutosuggestOpenVocabRejectionKind {
    Empty,
    TooLong,
    ScoreBelowThreshold,
    NonFiniteScore,
    LeadingOrTrailingWhitespace,
    ContainsNonBanglaScalar,
    ContainsDigit,
    ContainsWhitespace,
    ContainsPunctuation,
    StartsWithMark,
    EndsWithHasant,
    ConsecutiveHasant,
    MarkAfterHasant,
    InvalidZwnj,
    MissingLetter,
    RepeatedScalarRun,
}

/// The verdict on one generated word and its length in characters.
#[derive(Debug, Clone, Copy, PartialEq, Eq, Structural)]
pub struct AutosuggestOpenVocabValidationReport {
    pub accepted: bool,
    pub char_len: usize,
    pub rejection: Option<AutosuggestOpenVocabRejectionKind>,
}

pub open spec fn spec_rejected(char_len: int, kind: AutosuggestOpenVocabRejectionKind) -> AutosuggestOpenVocabValidationReport {
    AutosuggestOpenVocabValidationReport { accepted: false, char_len: char_len as usize, rejection: Some(kind) }
}

pub fn rejected(char_len: usize, kind: AutosuggestOpenVocabRejectionKind) -> (r: AutosuggestOpenVocabValidationReport)
    ensures
        r == spec_rejected(char_len as int, kind),
{
    AutosuggestOpenVocabValidationReport { accepted: false, char_len, rejection: Some(kind) }
}

/// Bengali letters: vowels, consonants, khanda ta, the nukta consonants and
/// the Assamese ra and wa.
pub open spec fn spec_is_bengali_letter(c: char) -> bool {
    let u = c as u32;
    (0x0985 <= u <= 0x098c) || (0x098f <= u <= 0x0990) || (0x0993 <= u <= 0x09a8) || (0x09aa <= u
        <= 0x09b0) || u == 0x09b2 || (0x09b6 <= u <= 0x09b9) || u == 0x09ce || (0x09dc <= u <= 0x09dd)
        || (0x09df <= u <= 0x09e1) || (0x09f0 <= u <= 0x09f1)
}

/// Bengali signs: candrabindu, anusvara, visarga, nukta, vowel signs, hasant
/// and the au length mark.
pub open spec fn spec_is_bengali_mark(c: char) -> bool {
    let u = c as u32;
    (0x0981 <= u <= 0x0983) || u == 0x09bc || (0x09be <= u <= 0x09c4) || (0x09c7 <= u <= 0x09c8) || (
    0x09cb <= u <= 0x09cd) || u == 0x09d7
}

pub open spec fn spec_is_bengali_digit(c: char) -> bool {
    let u = c as u32;
    0x09e6 <= u <= 0x09ef
}

/// Danda and double danda.
pub open spec fn spec_is_bengali_punctuation(c: char) -> bool {
    let u = c as u32;
    0x0964 <= u <= 0x0965
}

pub open spec fn spec_is_ascii_digit(c: char) -> bool {
    let u = c as u32;
    0x30 <= u <= 0x39
}

pub fn is_bengali_letter(c: char) -> (r: bool)
    ensures
        r == spec_is_bengali_letter(c),
{
    let u = c as u32;
    (0x0985 <= u && u <= 0x098c) || (0x098f <= u && u <= 0x0990) || (0x0993 <= u && u <= 0x09a8) || (0x09aa
        <= u && u <= 0x09b0) || u == 0x09b2 || (0x09b6 <= u && u <= 0x09b9) || u == 0x09ce || (0x09dc <= u
        && u <= 0x09dd) || (0x09df <= u && u <= 0x09e1) || (0x09f0 <= u && u <= 0x09f1)
}

pub fn is_bengali_mark(c: char) -> (r: bool)
    ensures
        r == spec_is_bengali_mark(c),
{
    let u = c as u32;
    (0x0981 <= u && u <= 0x0983) || u == 0x09bc || (0x09be <= u && u <= 0x09c4) || (0x09c7 <= u && u
        <= 0x09c8) || (0x09cb <= u && u <= 0x09cd) || u == 0x09d7
}

pub fn is_bengali_word_scalar(c: char) -> (r: bool)
    ensures
        r == (spec_is_bengali_letter(c) || spec_is_bengali_mark(c)),
{
    is_bengali_letter(c) || is_bengali_mark(c)
}

pub fn is_bengali_digit(c: char) -> (r: bool)
    ensures
        r == spec_is_bengali_digit(c),
{
    let u = c as u32;
    0x09e6 <= u && u <= 0x09ef
}

pub fn is_bengali_punctuation(c: char) -> (r: bool)
    ensures
        r == spec_is_bengali_punctuation(c),
{
    let u = c as u32;
    0x0964 <= u && u <= 0x0965
}

fn is_ascii_punctuation(c: char) -> (r: bool)
    ensures
        r == spec_is_ascii_punctuation(c),
{
    let u = c as u32;
    (0x21 <= u && u <= 0x2f) || (0x3a <= u && u <= 0x40) || (0x5b <= u && u <= 0x60) || (0x7b <= u && u <= 0x7e)
}

fn is_ascii_digit(c: char) -> (r: bool)
    ensures
        r == spec_is_ascii_digit(c),
{
    let u = c as u32;
    0x30 <= u && u <= 0x39
}

/// How many copies of `cs[i]` end at `i`.
pub open spec fn run_len(cs: Seq<char>, i: int) -> int
    decreases i,
{
    if i > 0 && cs[i - 1] == cs[i] {
        run_len(cs, i - 1) + 1
    } else {
        1
    }
}

/// What is wrong with character `i` of `cs`, given that nothing before it
/// was: a run over the cap, a misplaced joiner, whitespace, punctuation, a
/// digit, a non-Bengali character, or a sign with no base.
pub open spec fn violation_at(cs: Seq<char>, i: int, max_run: int) -> Option<AutosuggestOpenVocabRejectionKind> {
    let c = cs[i];
    let cap = if max_run < 1 {
        1
    } else {
        max_run
    };
    if run_len(cs, i) > cap {
        Some(AutosuggestOpenVocabRejectionKind::RepeatedScalarRun)
    } else if c == ZWNJ {
        if i == 0 || i + 1 == cs.len() || cs[i - 1] == ZWNJ {
            Some(AutosuggestOpenVocabRejectionKind::InvalidZwnj)
        } else {
            None
        }
    } else if spec_is_whitespace(c) {
        Some(AutosuggestOpenVocabRejectionKind::ContainsWhitespace)
    } else if spec_is_ascii_punctuation(c) || spec_is_bengali_punctuation(c) {
        Some(AutosuggestOpenVocabRejectionKind::ContainsPunctuation)
    } else if spec_is_ascii_digit(c) || spec_is_bengali_digit(c) {
        Some(AutosuggestOpenVocabRejectionKind::ContainsDigit)
    } else if !(spec_is_bengali_letter(c) || spec_is_bengali_mark(c)) {
        Some(AutosuggestOpenVocabRejectionKind::ContainsNonBanglaScalar)
    } else if spec_is_bengali_letter(c) {
        None
    } else if i == 0 {
        Some(AutosuggestOpenVocabRejectionKind::StartsWithMark)
    } else if cs[i - 1] == HASANT {
        if c == HASANT {
            Some(AutosuggestOpenVocabRejectionKind::ConsecutiveHasant)
        } else {
            Some(AutosuggestOpenVocabRejectionKind::MarkAfterHasant)
        }
    } else {
        None
    }
}

/// The first violation at or after `i`.
pub open spec fn first_violation(cs: Seq<char>, i: int, max_run: int) -> Option<AutosuggestOpenVocabRejectionKind>
    decreases cs.len() - i,
{
    if i < 0 || i >= cs.len() {
        None
    } else {
        match violation_at(cs, i, max_run) {
            Some(k) => Some(k),
            None => first_violation(cs, i + 1, max_run),
        }
    }
}

/// The verdict on the word `cs`: empty, padded with whitespace, longer than
/// `max_chars` (at least one), its first bad character, a trailing hasant,
/// no letter at all, or accepted.
pub open spec fn word_report(cs: Seq<char>, max_chars: int, max_run: int) -> AutosuggestOpenVocabValidationReport {
    let n = cs.len() as int;
    let cap = if max_chars < 1 {
        1
    } else {
        max_chars
    };
    if n == 0 {
        spec_rejected(0, AutosuggestOpenVocabRejectionKind::Empty)
    } else if spec_is_whitespace(cs[0]) || spec_is_whitespace(cs.last()) {
        spec_rejected(n, AutosuggestOpenVocabRejectionKind::LeadingOrTrailingWhitespace)
    } else if n > cap {
        spec_rejected(n, AutosuggestOpenVocabRejectionKind::TooLong)
    } else {
        match first_violation(cs, 0, max_run) {
            Some(k) => spec_rejected(n, k),
            None => if cs.last() == HASANT {
                spec_rejected(n, AutosuggestOpenVocabRejectionKind::EndsWithHasant)
            } else if !(exists|j: int| 0 <= j < n && spec_is_bengali_letter(#[trigger] cs[j])) {
                spec_rejected(n, AutosuggestOpenVocabRejectionKind::MissingLetter)
            } else {
                AutosuggestOpenVocabValidationReport { accepted: true, char_len: n as usize, rejection: None }
            },
        }
    }
}

proof fn lemma_first_violation_step(cs: Seq<char>, i: int, max_run: int)
    requires
        0 <= i < cs.len(),
        violation_at(cs, i, max_run) is None,
    ensures
        first_violation(cs, i, max_run) == first_violation(cs, i + 1, max_run),
{
}

/// Judges a generated word by its text alone (see [`word_report`]), with
/// `max_word_chars` and `max_repeated_scalar_run` of the open-vocabulary
/// policy.
pub fn validate_open_vocab_word(text: &str, max_word_chars: usize, max_repeated_scalar_run: usize) -> (r:
    AutosuggestOpenVocabValidationReport)
    ensures
        r == word_report(text@, max_word_chars as int, max_repeated_scalar_run as int),
{
    let cs = chars_of(text);
    let n = cs.len();
    if n == 0 {
        return rejected(0, AutosuggestOpenVocabRejectionKind::Empty);
    }
    if is_whitespace(cs[0]) || is_whitespace(cs[n - 1]) {
        return rejected(n, AutosuggestOpenVocabRejectionKind::LeadingOrTrailingWhitespace);
    }
    let cap = if max_word_chars < 1 {
        1
    } else {
        max_word_chars
    };
    if n > cap {
        return rejected(n, AutosuggestOpenVocabRejectionKind::TooLong);
    }
    let run_cap = if max_repeated_scalar_run < 1 {
        1
    } else {
        max_repeated_scalar_run
    };
    let ghost s = cs@;
    let ghost mr = max_repeated_scalar_run as int;
    let mut saw_letter = false;
    let mut repeated: usize = 0;
    let mut i: usize = 0;
    while i < n
        invariant
            s == cs@,
            s == text@,
            n == s.len(),
            0 < n <= cap,
            cap == (if max_word_chars < 1 { 1 } else { max_word_chars }),
            !spec_is_whitespace(s[0]) && !spec_is_whitespace(s.last()),
            mr == max_repeated_scalar_run as int,
            run_cap == (if mr < 1 { 1 } else { mr }),
            0 <= i <= n,
            first_violation(s, 0, mr) == first_violation(s, i as int, mr),
            i > 0 ==> repeated == run_len(s, i - 1),
            i > 0 ==> repeated <= run_cap,
            repeated <= i,
            saw_letter == exists|j: int| 0 <= j < i && spec_is_bengali_letter(#[trigger] s[j]),
        decreases n - i,
    {
        let c = cs[i];
        if i > 0 && cs[i - 1] == c {
            repeated = repeated + 1;
        } else {
            repeated = 1;
        }
        assert(repeated == run_len(s, i as int));
        let kind: Option<AutosuggestOpenVocabRejectionKind> = if repeated > run_cap {
            Some(AutosuggestOpenVocabRejectionKind::RepeatedScalarRun)
        } else if c == ZWNJ {
            if i == 0 || i + 1 == n || cs[i - 1] == ZWNJ {
                Some(AutosuggestOpenVocabRejectionKind::InvalidZwnj)
            } else {
                None
            }
        } else if is_whitespace(c) {
            Some(AutosuggestOpenVocabRejectionKind::ContainsWhitespace)
        } else if is_ascii_punctuation(c) || is_bengali_punctuation(c) {
            Some(AutosuggestOpenVocabRejectionKind::ContainsPunctuation)
        } else if is_ascii_digit(c) || is_bengali_digit(c) {
            Some(AutosuggestOpenVocabRejectionKind::ContainsDigit)
        } else if !is_bengali_word_scalar(c) {
            Some(AutosuggestOpenVocabRejectionKind::ContainsNonBanglaScalar)
        } else if is_bengali_letter(c) {
            None
        } else if i == 0 {
            Some(AutosuggestOpenVocabRejectionKind::StartsWithMark)
        } else if cs[i - 1] == HASANT {
            if c == HASANT {
                Some(AutosuggestOpenVocabRejectionKind::ConsecutiveHasant)
            } else {
                Some(AutosuggestOpenVocabRejectionKind::MarkAfterHasant)
            }
        } else {
            None
        };
        assert(kind == violation_at(s, i as int, mr));
        match kind {
            Some(k) => {
                assert(first_violation(s, i as int, mr) == Some(k));
                return rejected(n, k);
            },
            None => {},
        }
        proof {
            lemma_first_violation_step(s, i as int, mr);
        }
        if is_bengali_letter(c) {
            saw_letter = true;
        }
        i = i + 1;
    }
    assert(first_violation(s, n as int, mr) is None);
    assert(first_violation(s, 0, mr) is None);
    assert(s.last() == cs[n - 1]);
    assert(!spec_is_whitespace(s[0]) && !spec_is_whitespace(s.last()));
    if cs[n - 1] == HASANT {
        return rejected(n, AutosuggestOpenVocabRejectionKind::EndsWithHasant);
    }
    if !saw_letter {
        return rejected(n, AutosuggestOpenVocabRejectionKind::MissingLetter);
    }
    AutosuggestOpenVocabValidationReport { accepted: true, char_len: n, rejection: None }
}


proof fn lemma_no_violation(cs: Seq<char>, i: int, max_run: int)
    requires
        0 <= i,
        first_violation(cs, i, max_run) is None,
    ensures
        forall|j: int| i <= j < cs.len() ==> (#[trigger] violation_at(cs, j, max_run)) is None,
    decreases cs.len() - i,
{
    if i < cs.len() {
        lemma_no_violation(cs, i + 1, max_run);
    }
}

/// An accepted word is non-empty and within the length cap; it starts with
/// a Bengali letter and holds one; every character is a Bengali letter, a
/// Bengali sign or a joiner between two other characters; no sign follows a
/// hasant, it does not end in a hasant, and no character repeats more than
/// the run cap allows.
pub proof fn lemma_accepted_word_shape(cs: Seq<char>, max_chars: int, max_run: int)
    requires
        word_report(cs, max_chars, max_run).accepted,
    ensures
        0 < cs.len() <= (if max_chars < 1 { 1 } else { max_chars }),
        spec_is_bengali_letter(cs[0]),
        exists|j: int| 0 <= j < cs.len() && spec_is_bengali_letter(#[trigger] cs[j]),
        forall|j: int|
            0 <= j < cs.len() ==> spec_is_bengali_letter(#[trigger] cs[j]) || spec_is_bengali_mark(cs[j]) || (cs[j]
                == ZWNJ && 0 < j < cs.len() - 1 && cs[j - 1] != ZWNJ),
        forall|j: int|
            0 < j < cs.len() && cs[j - 1] == HASANT ==> !spec_is_bengali_mark(#[trigger] cs[j]),
        cs.last() != HASANT,
        forall|j: int| 0 <= j < cs.len() ==> #[trigger] run_len(cs, j) <= (if max_run < 1 { 1 } else { max_run }),
{
    lemma_no_violation(cs, 0, max_run);
    assert(violation_at(cs, 0, max_run) is None);
    assert forall|j: int| 0 <= j < cs.len() implies #[trigger] run_len(cs, j) <= (if max_run < 1 { 1 } else { max_run }) by {
        assert(violation_at(cs, j, max_run) is None);
    }
    assert forall|j: int|
        0 <= j < cs.len() implies spec_is_bengali_letter(#[trigger] cs[j]) || spec_is_bengali_mark(cs[j]) || (cs[j]
            == ZWNJ && 0 < j < cs.len() - 1 && cs[j - 1] != ZWNJ) by {
        assert(violation_at(cs, j, max_run) is None);
    }
    assert forall|j: int| 0 < j < cs.len() && cs[j - 1] == HASANT implies !spec_is_bengali_mark(#[trigger] cs[j]) by {
        assert(violation_at(cs, j, max_run) is None);
        if spec_is_bengali_mark(cs[j]) {
            assert(!spec_is_bengali_letter(cs[j]));
        }
    }
}

/// The Bengali letters of the Unicode block: independent vowels `অ`..`ঌ`,
/// `এ` `ঐ`, `ও` `ঔ`, consonants `ক`..`ন`, `প`..`র`, `ল`, `শ`..`হ`, khanda ta,
/// the nukta consonants `ড়` `ঢ়` `য়`, the vocalic `ৠ` `ৡ` and the Assamese
/// `ৰ` `ৱ`.
pub open spec fn unicode_bengali_letter(u: u32) -> bool {
    (0x0985 <= u <= 0x098c) || u == 0x098f || u == 0x0990 || u == 0x0993 || u == 0x0994 || (0x0995 <= u
        <= 0x09a8) || (0x09aa <= u <= 0x09b0) || u == 0x09b2 || (0x09b6 <= u <= 0x09b9) || u == 0x09ce
        || u == 0x09dc || u == 0x09dd || u == 0x09df || u == 0x09e0 || u == 0x09e1 || u == 0x09f0 || u == 0x09f1
}

/// The Bengali signs that follow a letter: candrabindu, anusvara, visarga,
/// nukta, the vowel signs and the au length mark (not the hasant).
pub open spec fn unicode_bengali_sign(u: u32) -> bool {
    (0x0981 <= u <= 0x0983) || u == 0x09bc || (0x09be <= u <= 0x09c4) || u == 0x09c7 || u == 0x09c8 || u
        == 0x09cb || u == 0x09cc || u == 0x09d7
}

proof fn lemma_no_violation_from(cs: Seq<char>, i: int, max_run: int)
    requires
        0 <= i,
        forall|k: int|
            0 <= k < cs.len() ==> {
                let u = (#[trigger] cs[k]) as u32;
                unicode_bengali_letter(u) || (k > 0 && unicode_bengali_sign(u) && {
                    let w = cs[k - 1] as u32;
                    unicode_bengali_letter(w)
                })
            },
        forall|k: int| 0 < k < cs.len() ==> #[trigger] cs[k] != cs[k - 1],
    ensures
        first_violation(cs, i, max_run) is None,
    decreases cs.len() - i,
{
    if i < cs.len() {
        let c = cs[i];
        assert(run_len(cs, i) == 1);
        assert(violation_at(cs, i, max_run) is None);
        lemma_no_violation_from(cs, i + 1, max_run);
    }
}

/// A word of Bengali letters ([`unicode_bengali_letter`]), each possibly
/// followed by one sign ([`unicode_bengali_sign`]), with no character
/// repeated back to back and within the length cap, is accepted, with its
/// length in characters (so `আমি` is accepted).
pub proof fn lemma_letter_words_accepted(cs: Seq<char>, max_chars: int, max_run: int)
    requires
        0 < cs.len() <= max_chars,
        cs.len() <= usize::MAX,
        forall|k: int|
            0 <= k < cs.len() ==> {
                let u = (#[trigger] cs[k]) as u32;
                unicode_bengali_letter(u) || (k > 0 && unicode_bengali_sign(u) && {
                    let w = cs[k - 1] as u32;
                    unicode_bengali_letter(w)
                })
            },
        forall|k: int| 0 < k < cs.len() ==> #[trigger] cs[k] != cs[k - 1],
    ensures
        word_report(cs, max_chars, max_run) == (AutosuggestOpenVocabValidationReport {
            accepted: true,
            char_len: cs.len() as usize,
            rejection: None,
        }),
{
    lemma_no_violation_from(cs, 0, max_run);
    assert(spec_is_bengali_letter(cs[0]));
    assert(cs.last() != HASANT) by {
        let _u = cs[cs.len() - 1] as u32;
    }
}

} // verus!
