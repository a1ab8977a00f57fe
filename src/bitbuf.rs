use vstd::prelude::*;

verus! {

// bitvec's `BitVec` is held here rather than declared to the verifier: its
// `BitStore` and `BitOrder` bounds are outside traits that would need
// declaring as well.
/// A growable sequence of bits, stored most-significant-bit first in bytes.
#[verifier::external_body]
#[derive(Debug)]
pub struct BitBuf {
    inner: bitvec::vec::BitVec<u8, bitvec::order::Msb0>,
}

/// The bits that a buffer holds, in order.
pub uninterp spec fn buf_bits(b: BitBuf) -> Seq<bool>;

impl BitBuf {
    /// Relies on bitvec's `BitVec::new`: a new bit-vector holds no bits.
    #[verifier::external_body]
    pub fn new() -> (r: BitBuf)
        ensures
            buf_bits(r) == Seq::<bool>::empty(),
    {
        BitBuf { inner: bitvec::vec::BitVec::new() }
    }

    /// Relies on bitvec's `BitSlice::len`: the number of bits held.
    #[verifier::external_body]
    pub fn len(&self) -> (r: usize)
        ensures
            r == buf_bits(*self).len(),
    {
        self.inner.len()
    }

    /// Relies on bitvec's `Index<usize>` for `BitSlice`: the bit at a position.
    #[verifier::external_body]
    pub fn bit(&self, i: usize) -> (r: bool)
        requires
            i < buf_bits(*self).len(),
        ensures
            r == buf_bits(*self)[i as int],
    {
        self.inner[i]
    }

    /// Relies on bitvec's `BitVec::push`: appends one bit at the end.
    #[verifier::external_body]
    pub fn push(&mut self, value: bool)
        requires
            buf_bits(*old(self)).len() < 0x1_0000,
        ensures
            buf_bits(*final(self)) == buf_bits(*old(self)).push(value),
    {
        self.inner.push(value)
    }

    /// Relies on bitvec's `Clone` for `BitVec`: the copy holds the same bits.
    #[verifier::external_body]
    pub fn duplicate(&self) -> (r: BitBuf)
        ensures
            buf_bits(r) == buf_bits(*self),
    {
        BitBuf { inner: self.inner.clone() }
    }
}

} // verus!
