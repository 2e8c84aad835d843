//! Text building blocks of package-manifest checks: decimal and fixed-width
//! hexadecimal renderings of integers, and the shape of a manifest error.

use vstd::prelude::*;
use vstd::string::StringSliceAdditionalSpecFns;
use crate::text::{chars_of, string_push};

verus! {

/// The digit character for `d` in base 16 (lower case); `0..=9` are the
/// decimal digits.
pub open spec fn digit_char(d: nat) -> char {
    if d == 0 {
        '0'
    } else if d == 1 {
        '1'
    } else if d == 2 {
        '2'
    } else if d == 3 {
        '3'
    } else if d == 4 {
        '4'
    } else if d == 5 {
        '5'
    } else if d == 6 {
        '6'
    } else if d == 7 {
        '7'
    } else if d == 8 {
        '8'
    } else if d == 9 {
        '9'
    } else if d == 10 {
        'a'
    } else if d == 11 {
        'b'
    } else if d == 12 {
        'c'
    } else if d == 13 {
        'd'
    } else if d == 14 {
        'e'
    } else {
        'f'
    }
}

/// `n` written in decimal, without leading zeros (`0` is written `"0"`).
pub open spec fn decimal_chars(n: nat) -> Seq<char>
    decreases n,
{
    if n < 10 {
        seq![digit_char(n)]
    } else {
        decimal_chars(n / 10).push(digit_char(n % 10))
    }
}

/// The lowest `k` hexadecimal digits of `n`, most significant first.
pub open spec fn hex_digits(n: nat, k: nat) -> Seq<char>
    decreases k,
{
    if k == 0 {
        Seq::empty()
    } else {
        hex_digits(n / 16, (k - 1) as nat).push(digit_char(n % 16))
    }
}

/// `n` as sixteen lower-case hexadecimal digits, zero-padded.
pub open spec fn hex16_chars(n: u64) -> Seq<char> {
    hex_digits(n as nat, 16)
}

pub(crate) fn digit(d: u64) -> (c: char)
    requires
        d < 16,
    ensures
        c == digit_char(d as nat),
{
    if d == 0 {
        '0'
    } else if d == 1 {
        '1'
    } else if d == 2 {
        '2'
    } else if d == 3 {
        '3'
    } else if d == 4 {
        '4'
    } else if d == 5 {
        '5'
    } else if d == 6 {
        '6'
    } else if d == 7 {
        '7'
    } else if d == 8 {
        '8'
    } else if d == 9 {
        '9'
    } else if d == 10 {
        'a'
    } else if d == 11 {
        'b'
    } else if d == 12 {
        'c'
    } else if d == 13 {
        'd'
    } else if d == 14 {
        'e'
    } else {
        'f'
    }
}

/// Appends `n` in decimal.
pub fn push_decimal(s: &mut String, n: u64)
    ensures
        final(s)@ == old(s)@ + decimal_chars(n as nat),
    decreases n,
{
    if n >= 10 {
        push_decimal(s, n / 10);
    }
    string_push(s, digit(n % 10));
    proof {
        if n < 10 {
            assert(old(s)@ + decimal_chars(n as nat) =~= old(s)@.push(digit_char(n as nat)));
        } else {
            assert(old(s)@ + decimal_chars(n as nat) =~= (old(s)@ + decimal_chars((n / 10) as nat)).push(
                digit_char((n % 10) as nat),
            ));
        }
    }
}

/// `n` written in decimal, as `n.to_string()` writes it.
pub fn decimal_string(n: u64) -> (s: String)
    ensures
        s@ == decimal_chars(n as nat),
{
    let mut s = String::new();
    push_decimal(&mut s, n);
    proof {
        assert(Seq::<char>::empty() + decimal_chars(n as nat) =~= decimal_chars(n as nat));
    }
    s
}

fn push_hex_digits(s: &mut String, n: u64, k: u64)
    ensures
        final(s)@ == old(s)@ + hex_digits(n as nat, k as nat),
    decreases k,
{
    if k > 0 {
        push_hex_digits(s, n / 16, k - 1);
        string_push(s, digit(n % 16));
        proof {
            assert(old(s)@ + hex_digits(n as nat, k as nat) =~= (old(s)@ + hex_digits(
                (n / 16) as nat,
                (k - 1) as nat,
            )).push(digit_char((n % 16) as nat)));
        }
    } else {
        proof {
            assert(old(s)@ + hex_digits(n as nat, 0) =~= old(s)@);
        }
    }
}

/// `n` as sixteen zero-padded lower-case hexadecimal digits, as
/// `format!("{:016x}", n)` writes it.
pub fn hex16_string(n: u64) -> (s: String)
    ensures
        s@ == hex16_chars(n),
{
    let mut s = String::new();
    push_hex_digits(&mut s, n, 16);
    proof {
        assert(Seq::<char>::empty() + hex16_chars(n) =~= hex16_chars(n));
    }
    s
}

/// Appends the characters of `t`.
pub fn push_str(s: &mut String, t: &str)
    ensures
        final(s)@ == old(s)@ + t@,
{
    let cs = chars_of(t);
    let mut i: usize = 0;
    while i < cs.len()
        invariant
            i <= cs@.len(),
            cs@ == t@,
            s@ == old(s)@ + t@.take(i as int),
        decreases cs@.len() - i,
    {
        string_push(s, cs[i]);
        assert(t@.take(i + 1) =~= t@.take(i as int).push(t@[i as int]));
        i = i + 1;
    }
    assert(t@.take(i as int) =~= t@);
}

/// `t` followed by `n` in decimal.
pub fn text_with_number(t: &str, n: u64) -> (s: String)
    ensures
        s@ == t@ + decimal_chars(n as nat),
{
    let mut s = String::new();
    push_str(&mut s, t);
    push_decimal(&mut s, n);
    proof {
        assert(Seq::<char>::empty() + t@ =~= t@);
    }
    s
}

/// An owned copy of `t`.
pub fn owned(t: &str) -> (s: String)
    ensures
        s@ == t@,
{
    t.to_owned()
}

/// An ASCII hexadecimal digit, either case.
pub open spec fn is_hex_digit_byte(b: u8) -> bool {
    (0x30 <= b <= 0x39) || (0x41 <= b <= 0x46) || (0x61 <= b <= 0x66)
}

/// A SHA-256 written out: 64 hexadecimal digits.
pub open spec fn is_sha256_text(value: Seq<u8>) -> bool {
    &&& value.len() == 64
    &&& forall|i: int| 0 <= i < value.len() ==> is_hex_digit_byte(#[trigger] value[i])
}

/// Whether `value` is a SHA-256 written out as 64 hexadecimal digits.
pub fn sha256_text_ok(value: &str) -> (b: bool)
    ensures
        b == is_sha256_text(value.spec_bytes()),
{
    let bytes = value.as_bytes();
    if bytes.len() != 64 {
        return false;
    }
    let mut i: usize = 0;
    while i < bytes.len()
        invariant
            i <= bytes@.len(),
            bytes@ == value.spec_bytes(),
            forall|j: int| 0 <= j < i ==> is_hex_digit_byte(#[trigger] bytes@[j]),
        decreases bytes@.len() - i,
    {
        let b = bytes[i];
        if !((0x30 <= b && b <= 0x39) || (0x41 <= b && b <= 0x46) || (0x61 <= b && b <= 0x66)) {
            return false;
        }
        i = i + 1;
    }
    true
}

/// What a manifest check reports, by the text of its parts.
pub enum ManifestErrorView {
    Mismatch { field: Seq<char>, expected: Seq<char>, actual: Seq<char> },
    Invalid { field: Seq<char>, reason: Seq<char> },
    Asset { field: Seq<char>, path: Seq<char>, reason: Seq<char> },
}

/// A floating-point field that must equal a fixed value: whether it does,
/// and both values as text for the report.
#[derive(Debug, Clone)]
pub struct AutosuggestFloatMatch {
    pub matches: bool,
    pub expected: String,
    pub actual: String,
}

/// A text field that differs from what is expected.
pub open spec fn text_mismatch(field: &str, expected: Seq<char>, actual: Seq<char>) -> Option<ManifestErrorView> {
    if expected != actual {
        Some(ManifestErrorView::Mismatch { field: field@, expected, actual })
    } else {
        None
    }
}

/// A number field that differs from what is expected.
pub open spec fn number_mismatch(field: &str, expected: nat, actual: nat) -> Option<ManifestErrorView> {
    if expected != actual {
        Some(
            ManifestErrorView::Mismatch {
                field: field@,
                expected: decimal_chars(expected),
                actual: decimal_chars(actual),
            },
        )
    } else {
        None
    }
}

/// A field that is invalid when `bad` holds.
pub open spec fn invalid_when(bad: bool, field: &str, reason: Seq<char>) -> Option<ManifestErrorView> {
    if bad {
        Some(ManifestErrorView::Invalid { field: field@, reason })
    } else {
        None
    }
}

/// A fixed two-dimensional shape with an empty side.
pub open spec fn empty_shape(field: &str, shape: [usize; 2]) -> Option<ManifestErrorView> {
    invalid_when(shape[0] == 0 || shape[1] == 0, field, "must be a non-empty 2D fixed shape"@)
}

/// A floating-point field that differs from the value it must equal.
pub open spec fn float_mismatch(field: &str, m: AutosuggestFloatMatch) -> Option<ManifestErrorView> {
    if !m.matches {
        Some(ManifestErrorView::Mismatch { field: field@, expected: m.expected@, actual: m.actual@ })
    } else {
        None
    }
}

} // verus!
