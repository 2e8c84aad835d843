//! FNV-1a hashing used for vocabulary and whole-artifact fingerprints.

use vstd::prelude::*;

verus! {

pub const FNV32_OFFSET: u32 = 0x811c_9dc5;
pub const FNV32_PRIME: u32 = 0x0100_0193;
pub const FNV64_OFFSET: u64 = 0xcbf2_9ce4_8422_2325;
pub const FNV64_PRIME: u64 = 0x0000_0100_0000_01b3;

/// 32-bit FNV-1a of `s`, continuing from state `h`.
pub open spec fn fnv32(h: u32, s: Seq<u8>) -> u32
    decreases s.len(),
{
    if s.len() == 0 {
        h
    } else {
        (fnv32(h, s.drop_last()) ^ (s.last() as u32)).wrapping_mul(FNV32_PRIME)
    }
}

/// 64-bit FNV-1a of `s`, continuing from state `h`.
pub open spec fn fnv64(h: u64, s: Seq<u8>) -> u64
    decreases s.len(),
{
    if s.len() == 0 {
        h
    } else {
        (fnv64(h, s.drop_last()) ^ (s.last() as u64)).wrapping_mul(FNV64_PRIME)
    }
}

pub proof fn lemma_fnv32_concat(h: u32, a: Seq<u8>, b: Seq<u8>)
    ensures
        fnv32(h, a + b) == fnv32(fnv32(h, a), b),
    decreases b.len(),
{
    if b.len() == 0 {
        assert(a + b =~= a);
    } else {
        assert((a + b).drop_last() =~= a + b.drop_last());
        lemma_fnv32_concat(h, a, b.drop_last());
    }
}

/// Continues a 32-bit FNV-1a hash over `bytes[start..end]`.
pub fn fnv32_update(h: u32, bytes: &[u8], start: usize, end: usize) -> (r: u32)
    requires
        start <= end <= bytes@.len(),
    ensures
        r == fnv32(h, bytes@.subrange(start as int, end as int)),
{
    let mut hash = h;
    let mut i = start;
    while i < end
        invariant
            start <= i <= end <= bytes@.len(),
            hash == fnv32(h, bytes@.subrange(start as int, i as int)),
        decreases end - i,
    {
        assert(bytes@.subrange(start as int, i + 1).drop_last() =~= bytes@.subrange(
            start as int,
            i as int,
        ));
        hash = (hash ^ (bytes[i] as u32)).wrapping_mul(FNV32_PRIME);
        i = i + 1;
    }
    hash
}

/// Continues a 32-bit FNV-1a hash over the four little-endian bytes of `v`.
pub fn fnv32_update_u32(h: u32, v: u32) -> (r: u32)
    ensures
        r == fnv32(h, crate::bytes::spec_u32_bytes(v)),
{
    let b0 = (v % 256) as u8;
    let b1 = ((v / 256) % 256) as u8;
    let b2 = ((v / 65536) % 256) as u8;
    let b3 = ((v / 16777216) % 256) as u8;
    let ghost s = crate::bytes::spec_u32_bytes(v);
    let h1 = (h ^ (b0 as u32)).wrapping_mul(FNV32_PRIME);
    let h2 = (h1 ^ (b1 as u32)).wrapping_mul(FNV32_PRIME);
    let h3 = (h2 ^ (b2 as u32)).wrapping_mul(FNV32_PRIME);
    let h4 = (h3 ^ (b3 as u32)).wrapping_mul(FNV32_PRIME);
    proof {
        let s1 = seq![b0];
        let s2 = seq![b0, b1];
        let s3 = seq![b0, b1, b2];
        assert(s =~= seq![b0, b1, b2, b3]);
        assert(s1.drop_last() =~= Seq::<u8>::empty());
        assert(s2.drop_last() =~= s1);
        assert(s3.drop_last() =~= s2);
        assert(s.drop_last() =~= s3);
        assert(fnv32(h, Seq::<u8>::empty()) == h);
        assert(fnv32(h, s1) == h1);
        assert(fnv32(h, s2) == h2);
        assert(fnv32(h, s3) == h3);
    }
    h4
}

/// 64-bit FNV-1a of a whole byte string.
pub fn fnv64_of(bytes: &[u8]) -> (r: u64)
    ensures
        r == fnv64(FNV64_OFFSET, bytes@),
{
    let mut hash = FNV64_OFFSET;
    let mut i: usize = 0;
    while i < bytes.len()
        invariant
            i <= bytes@.len(),
            hash == fnv64(FNV64_OFFSET, bytes@.subrange(0, i as int)),
        decreases bytes@.len() - i,
    {
        assert(bytes@.subrange(0, i + 1).drop_last() =~= bytes@.subrange(0, i as int));
        hash = (hash ^ (bytes[i] as u64)).wrapping_mul(FNV64_PRIME);
        i = i + 1;
    }
    assert(bytes@.subrange(0, bytes@.len() as int) =~= bytes@);
    hash
}

} // verus!
