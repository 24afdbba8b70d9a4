//! The bit array store: a fixed number of bits, all clear at first, that can
//! be raised one at a time and read back.

use bitvec::order::Lsb0;
use bitvec::vec::BitVec;
use vstd::prelude::*;

verus! {

/// A fixed-length array of bits, kept in a `bitvec::vec::BitVec`.
///
/// The verifier does not look inside the vector: what it holds is known only
/// as `bits_of`, and only through the four private functions below.
#[verifier::external_body]
#[derive(Debug)]
pub struct BitArray {
    store: BitVec<usize, Lsb0>,
}

/// The largest number of bits that one array can hold.
pub const MAX_BITS: usize = usize::MAX / 8;

/// The bits that an array holds, in index order.
pub uninterp spec fn bits_of(array: BitArray) -> Seq<bool>;

/// `BitVec::repeat(false, len)`: a vector of `len` bits, every one of them
/// clear. The call panics above `BitSlice::MAX_BITS`, which is `usize::MAX >> 3`.
#[verifier::external_body]
fn cleared(len: usize) -> (array: BitArray)
    requires
        len <= MAX_BITS,
    ensures
        bits_of(array) == Seq::new(len as nat, |i: int| false),
{
    BitArray { store: BitVec::repeat(false, len) }
}

/// `BitVec::len`: the number of bits held.
#[verifier::external_body]
fn count(array: &BitArray) -> (n: usize)
    ensures
        n == bits_of(*array).len(),
{
    array.store.len()
}

/// `BitSlice::set(index, true)`: the bit at `index` is raised and no other
/// bit changes. The call panics when `index` is out of bounds.
#[verifier::external_body]
fn raise(array: &mut BitArray, index: usize)
    requires
        index < bits_of(*old(array)).len(),
    ensures
        bits_of(*final(array)) == bits_of(*old(array)).update(index as int, true),
    no_unwind
{
    array.store.set(index, true);
}

/// `BitSlice::get(index)`: the bit at `index`, or nothing when `index` is out
/// of bounds.
#[verifier::external_body]
fn peek(array: &BitArray, index: usize) -> (bit: Option<bool>)
    ensures
        bit == if index < bits_of(*array).len() {
            Some(bits_of(*array)[index as int])
        } else {
            None
        },
{
    array.store.get(index).as_deref().copied()
}

impl View for BitArray {
    type V = Seq<bool>;

    open spec fn view(&self) -> Seq<bool> {
        bits_of(*self)
    }
}

impl BitArray {
    /// An array of `len` bits, all of them clear.
    pub fn new(len: usize) -> (array: BitArray)
        requires
            len <= MAX_BITS,
        ensures
            array@.len() == len,
            forall|i: int| 0 <= i < len ==> !array@[i],
    {
        cleared(len)
    }

    /// The number of bits in the array.
    pub fn len(&self) -> (n: usize)
        ensures
            n == self@.len(),
    {
        count(self)
    }

    /// Raises the bit at `index`; every other bit keeps its value.
    pub fn set(&mut self, index: usize)
        requires
            index < old(self)@.len(),
        ensures
            final(self)@ == old(self)@.update(index as int, true),
        no_unwind
    {
        raise(self, index);
    }

    /// Reads the bit at `index`.
    pub fn get(&self, index: usize) -> (bit: bool)
        requires
            index < self@.len(),
        ensures
            bit == self@[index as int],
    {
        peek(self, index).unwrap()
    }
}

} // verus!
