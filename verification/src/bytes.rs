//! Little-endian integer access and byte-string helpers shared by the n-gram
//! artifact reader and the personal snapshot codec.

use vstd::prelude::*;
use vstd::utf8::*;
use vstd::slice::*;
use vstd::string::StringSliceAdditionalSpecFns;

verus! {

/// The unsigned 32-bit little-endian value stored at `off`.
pub open spec fn spec_u32_le(b: Seq<u8>, off: int) -> u32 {
    (b[off] as int + b[off + 1] as int * 256 + b[off + 2] as int * 65536 + b[off + 3] as int
        * 16777216) as u32
}

/// Two's-complement reinterpretation of a 32-bit word.
pub open spec fn spec_i32_of(v: u32) -> i32 {
    if v <= 0x7fff_ffff {
        v as i32
    } else {
        (v as int - 0x1_0000_0000) as i32
    }
}

/// The four little-endian bytes of `v`.
pub open spec fn spec_u32_bytes(v: u32) -> Seq<u8> {
    seq![
        (v % 256) as u8,
        ((v / 256) % 256) as u8,
        ((v / 65536) % 256) as u8,
        ((v / 16777216) % 256) as u8,
    ]
}

/// Decodes the word at `off`; the caller guarantees four bytes are present.
pub fn u32_le_at(bytes: &[u8], off: usize) -> (v: u32)
    requires
        off + 4 <= bytes@.len(),
    ensures
        v == spec_u32_le(bytes@, off as int),
{
    let b0 = bytes[off] as u32;
    let b1 = bytes[off + 1] as u32;
    let b2 = bytes[off + 2] as u32;
    let b3 = bytes[off + 3] as u32;
    b0 + b1 * 256 + b2 * 65536 + b3 * 16777216
}

/// Reinterprets a 32-bit word as a signed integer.
pub fn i32_of_u32(v: u32) -> (r: i32)
    ensures
        r == spec_i32_of(v),
{
    if v <= 0x7fff_ffff {
        v as i32
    } else {
        let low = (v - 0x8000_0000) as i32;
        low + i32::MIN
    }
}

/// Appends the little-endian encoding of `v`.
pub fn push_u32_le(out: &mut Vec<u8>, v: u32)
    ensures
        final(out)@ == old(out)@ + spec_u32_bytes(v),
{
    out.push((v % 256) as u8);
    out.push(((v / 256) % 256) as u8);
    out.push(((v / 65536) % 256) as u8);
    out.push(((v / 16777216) % 256) as u8);
    assert(final(out)@ =~= old(out)@ + spec_u32_bytes(v));
}

/// Decoding the encoding of a word gives the word back.
pub proof fn lemma_u32_bytes_round_trip(v: u32)
    ensures
        spec_u32_bytes(v).len() == 4,
        spec_u32_le(spec_u32_bytes(v), 0) == v,
{
    let b = spec_u32_bytes(v);
    assert(b[0] as int == v % 256);
    assert(b[1] as int == (v / 256) % 256);
    assert(b[2] as int == (v / 65536) % 256);
    assert(b[3] as int == (v / 16777216) % 256);
    assert(v as int == v % 256 + ((v / 256) % 256) * 256 + ((v / 65536) % 256) * 65536 + ((v
        / 16777216) % 256) * 16777216) by (nonlinear_arith);
}

/// Decoding at an offset inside a concatenation reads the right part.
pub proof fn lemma_u32_le_concat(a: Seq<u8>, b: Seq<u8>, off: int)
    requires
        0 <= off,
        off + 4 <= b.len(),
    ensures
        spec_u32_le(a + b, a.len() + off) == spec_u32_le(b, off),
{
    let c = a + b;
    assert(c[a.len() + off] == b[off]);
    assert(c[a.len() + off + 1] == b[off + 1]);
    assert(c[a.len() + off + 2] == b[off + 2]);
    assert(c[a.len() + off + 3] == b[off + 3]);
}

/// Decoding in a prefix that is kept when bytes are appended is unchanged.
pub proof fn lemma_u32_le_prefix(a: Seq<u8>, b: Seq<u8>, off: int)
    requires
        0 <= off,
        off + 4 <= a.len(),
    ensures
        spec_u32_le(a + b, off) == spec_u32_le(a, off),
{
    let c = a + b;
    assert(c[off] == a[off]);
    assert(c[off + 1] == a[off + 1]);
    assert(c[off + 2] == a[off + 2]);
    assert(c[off + 3] == a[off + 3]);
}

/// Lexicographic (byte-wise) strict order on byte strings, the order of
/// `<[u8] as Ord>`.
pub open spec fn lex_lt(a: Seq<u8>, b: Seq<u8>) -> bool
    decreases a.len(),
{
    if a.len() == 0 {
        b.len() > 0
    } else if b.len() == 0 {
        false
    } else if a[0] < b[0] {
        true
    } else if a[0] > b[0] {
        false
    } else {
        lex_lt(a.drop_first(), b.drop_first())
    }
}

/// Three-way result of comparing two byte strings.
#[derive(Debug, Clone, Copy, PartialEq, Eq, Structural)]
pub enum ByteOrder {
    Less,
    Equal,
    Greater,
}

pub open spec fn spec_byte_order(a: Seq<u8>, b: Seq<u8>) -> ByteOrder {
    if a == b {
        ByteOrder::Equal
    } else if lex_lt(a, b) {
        ByteOrder::Less
    } else {
        ByteOrder::Greater
    }
}

proof fn lemma_lex_lt_skip(a: Seq<u8>, b: Seq<u8>, i: int)
    requires
        0 <= i <= a.len(),
        i <= b.len(),
        a.subrange(0, i) == b.subrange(0, i),
    ensures
        lex_lt(a, b) == lex_lt(a.subrange(i, a.len() as int), b.subrange(i, b.len() as int)),
    decreases i,
{
    if i > 0 {
        assert(a[0] == a.subrange(0, i)[0]);
        assert(b[0] == b.subrange(0, i)[0]);
        let a1 = a.drop_first();
        let b1 = b.drop_first();
        assert(a1.subrange(0, i - 1) =~= a.subrange(0, i).drop_first());
        assert(b1.subrange(0, i - 1) =~= b.subrange(0, i).drop_first());
        lemma_lex_lt_skip(a1, b1, i - 1);
        assert(a1.subrange(i - 1, a1.len() as int) =~= a.subrange(i, a.len() as int));
        assert(b1.subrange(i - 1, b1.len() as int) =~= b.subrange(i, b.len() as int));
    } else {
        assert(a.subrange(0, a.len() as int) =~= a);
        assert(b.subrange(0, b.len() as int) =~= b);
    }
}

/// `lex_lt` is irreflexive.
pub proof fn lemma_lex_lt_irreflexive(a: Seq<u8>)
    ensures
        !lex_lt(a, a),
    decreases a.len(),
{
    if a.len() > 0 {
        lemma_lex_lt_irreflexive(a.drop_first());
    }
}

/// `lex_lt` is asymmetric and total on distinct strings.
pub proof fn lemma_lex_lt_trichotomy(a: Seq<u8>, b: Seq<u8>)
    ensures
        a != b ==> (lex_lt(a, b) != lex_lt(b, a)),
        a == b ==> !lex_lt(a, b),
    decreases a.len(),
{
    if a == b {
        lemma_lex_lt_irreflexive(a);
    } else if a.len() > 0 && b.len() > 0 && a[0] == b[0] {
        lemma_lex_lt_trichotomy(a.drop_first(), b.drop_first());
        if a.drop_first() == b.drop_first() {
            assert(a =~= seq![a[0]] + a.drop_first());
            assert(b =~= seq![b[0]] + b.drop_first());
        }
    } else if a.len() == 0 && b.len() == 0 {
        assert(a =~= b);
    }
}

/// `lex_lt` is transitive.
pub proof fn lemma_lex_lt_transitive(a: Seq<u8>, b: Seq<u8>, c: Seq<u8>)
    requires
        lex_lt(a, b),
        lex_lt(b, c),
    ensures
        lex_lt(a, c),
    decreases a.len(),
{
    if a.len() > 0 && b.len() > 0 && c.len() > 0 && a[0] == b[0] && b[0] == c[0] {
        lemma_lex_lt_transitive(a.drop_first(), b.drop_first(), c.drop_first());
    }
}

/// Compares two byte strings in lexicographic order.
pub fn byte_order(a: &[u8], b: &[u8]) -> (r: ByteOrder)
    ensures
        r == spec_byte_order(a@, b@),
{
    let n = if a.len() < b.len() {
        a.len()
    } else {
        b.len()
    };
    let mut i: usize = 0;
    while i < n
        invariant
            n <= a@.len(),
            n <= b@.len(),
            n == a@.len() || n == b@.len(),
            i <= n,
            a@.subrange(0, i as int) == b@.subrange(0, i as int),
        decreases n - i,
    {
        if a[i] != b[i] {
            proof {
                lemma_lex_lt_skip(a@, b@, i as int);
                let ra = a@.subrange(i as int, a@.len() as int);
                let rb = b@.subrange(i as int, b@.len() as int);
                assert(ra[0] == a@[i as int]);
                assert(rb[0] == b@[i as int]);
                assert(a@ != b@) by {
                    if a@ == b@ {
                        assert(a@[i as int] == b@[i as int]);
                    }
                }
            }
            if a[i] < b[i] {
                return ByteOrder::Less;
            } else {
                return ByteOrder::Greater;
            }
        }
        assert(a@.subrange(0, i + 1) =~= a@.subrange(0, i as int).push(a@[i as int]));
        assert(b@.subrange(0, i + 1) =~= b@.subrange(0, i as int).push(b@[i as int]));
        i = i + 1;
    }
    proof {
        lemma_lex_lt_skip(a@, b@, n as int);
        let ra = a@.subrange(n as int, a@.len() as int);
        let rb = b@.subrange(n as int, b@.len() as int);
        if a@.len() == b@.len() {
            assert(a@ =~= a@.subrange(0, n as int));
            assert(b@ =~= b@.subrange(0, n as int));
        } else if a@.len() < b@.len() {
            assert(ra.len() == 0);
            assert(a@ != b@);
        } else {
            assert(rb.len() == 0);
            assert(a@ != b@);
        }
    }
    if a.len() == b.len() {
        ByteOrder::Equal
    } else if a.len() < b.len() {
        ByteOrder::Less
    } else {
        ByteOrder::Greater
    }
}

/// `std::str::from_utf8`: it returns a string exactly when the bytes are
/// well-formed UTF-8 (vstd's `valid_utf8`), and that string's encoding is the
/// bytes themselves.
#[verifier::external_body]
pub(crate) fn utf8_str<'a>(bytes: &'a [u8]) -> (res: Option<&'a str>)
    ensures
        res is Some <==> valid_utf8(bytes@),
        res matches Some(s) ==> s.spec_bytes() == bytes@,
{
    std::str::from_utf8(bytes).ok()
}

/// Borrows `bytes[start..end]`.
pub fn sub_slice<'a>(bytes: &'a [u8], start: usize, end: usize) -> (out: &'a [u8])
    requires
        start <= end <= bytes@.len(),
    ensures
        out@ == bytes@.subrange(start as int, end as int),
{
    slice_subrange(bytes, start, end)
}

} // verus!
