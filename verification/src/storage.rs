//! The raw bit storage: a growable, indexable sequence of bits.
//!
//! Storage is provided by the `bitvec` crate and is not reimplemented here.
//! The codec uses it only as a flat, index-addressed sequence of bits, so a
//! single concrete instantiation, `BitVec<u8, Msb0>` (bytes filled from the
//! most significant bit down), carries every stream regardless of the
//! codec's own bit-ordering strategy; the strategy governs how the codec
//! maps values and bytes onto bit positions, not how the backing memory is
//! laid out. The abstract contents of a buffer are named by `raw_bits`, and
//! each operation the codec relies on is a wrapper whose contract states
//! what `bitvec` documents of it.
use vstd::prelude::*;

verus! {

/// An owned sequence of bits, backed by `bitvec`'s byte-backed bit vector.
#[verifier::external_body]
#[derive(Debug)]
pub struct BitBuf {
    inner: bitvec::vec::BitVec<u8, bitvec::order::Msb0>,
}

/// The sequence of bits a buffer holds, in index order.
pub uninterp spec fn raw_bits(v: BitBuf) -> Seq<bool>;

/// The longest stream the raw storage can hold: `bitvec` caps the length of
/// a bit region at `usize::MAX / 8` bits.
pub open spec fn max_bits() -> nat {
    usize::MAX as nat / 8
}

impl BitBuf {
    /// The sequence of bits this buffer holds, in index order.
    pub open spec fn view(&self) -> Seq<bool> {
        raw_bits(*self)
    }

    /// Relies on `bitvec::vec::BitVec::new`: an empty bit vector.
    #[verifier::external_body]
    pub fn new() -> (r: BitBuf)
        ensures
            raw_bits(r) == Seq::<bool>::empty(),
    {
        BitBuf { inner: bitvec::vec::BitVec::new() }
    }

    /// Relies on `bitvec::slice::BitSlice::len` (reached through `BitVec`'s
    /// deref): the number of bits held, which `bitvec` documents never
    /// exceeds `BitSlice::MAX_BITS`, i.e. `usize::MAX / 8`.
    #[verifier::external_body]
    pub fn len(&self) -> (r: usize)
        ensures
            r == raw_bits(*self).len(),
            r <= usize::MAX / 8,
    {
        self.inner.len()
    }

    /// Relies on `bitvec::vec::BitVec::push`: appends one bit at the end.
    /// The length cap keeps `push` from panicking.
    #[verifier::external_body]
    pub fn push(&mut self, b: bool)
        requires
            raw_bits(*old(self)).len() < max_bits(),
        ensures
            raw_bits(*final(self)) == raw_bits(*old(self)).push(b),
    {
        self.inner.push(b);
    }

    /// Relies on `bitvec`'s `Index<usize>` impl for `BitSlice` (reached
    /// through `BitVec`'s deref): the bit at an in-bounds index.
    #[verifier::external_body]
    pub fn at(&self, i: usize) -> (r: bool)
        requires
            i < raw_bits(*self).len(),
        ensures
            r == raw_bits(*self)[i as int],
    {
        self.inner[i]
    }

    /// Relies on `bitvec::slice::BitSlice::set` (reached through `BitVec`'s
    /// deref): overwrites the bit at an in-bounds index.
    #[verifier::external_body]
    pub fn set(&mut self, i: usize, b: bool)
        requires
            i < raw_bits(*old(self)).len(),
        ensures
            raw_bits(*final(self)) == raw_bits(*old(self)).update(i as int, b),
    {
        self.inner.set(i, b);
    }
}

} // verus!
