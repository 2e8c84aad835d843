//! Allocation bookkeeping of the reused buffers: how much a buffer holds
//! and growing it to a chosen capacity.

use vstd::prelude::*;

verus! {

/// `Vec::capacity`: how many elements the buffer holds without
/// reallocating, which std documents to be at least its length. The exact
/// value depends on the allocator and is left open.
#[verifier::external_body]
pub(crate) fn vec_capacity<T>(v: &Vec<T>) -> (c: usize)
    ensures
        c >= v@.len(),
{
    v.capacity()
}

/// `String::capacity`: at least the string's byte length (std documents
/// that the capacity is never below the length); the exact value is left
/// open.
#[verifier::external_body]
pub(crate) fn string_capacity(s: &String) -> (c: usize)
    ensures
        c >= vstd::utf8::encode_utf8(s@).len(),
{
    s.capacity()
}

/// `Vec::reserve_exact`: grows the allocation to hold at least `additional`
/// more elements than the length; the contents are unchanged. It panics when
/// the new capacity overflows `usize` or exceeds `isize::MAX` bytes, so the
/// request is bounded both ways.
#[verifier::external_body]
pub(crate) fn vec_reserve_exact<T>(v: &mut Vec<T>, additional: usize)
    requires
        old(v)@.len() + additional <= usize::MAX,
        (old(v)@.len() + additional) * vstd::layout::size_of::<T>() <= isize::MAX,
    ensures
        final(v)@ == old(v)@,
{
    v.reserve_exact(additional)
}

/// Grows `v` to hold at least `capacity` elements (no change when it
/// already does, or when the request would exceed the allocation limit).
/// Only the spare capacity changes, which the model of a `Vec` (its
/// elements) does not hold: the contract states that the elements stay.
pub(crate) fn reserve_to<T>(v: &mut Vec<T>, capacity: usize)
    ensures
        final(v)@ == old(v)@,
{
    let current = vec_capacity(v);
    if current < capacity {
        let additional = capacity - current;
        let size = core::mem::size_of::<T>();
        let total = v.len().checked_add(additional);
        match total {
            Some(t) => {
                let bytes = t.checked_mul(size);
                match bytes {
                    Some(b) => {
                        if b <= isize::MAX as usize {
                            vec_reserve_exact(v, additional);
                        }
                    },
                    None => {},
                }
            },
            None => {},
        }
    }
}

} // verus!
