//! The filter: a bit array and a number of hash slots, with insertion and
//! the membership test.
//!
//! What the filter does is stated over its bits. [`with_item`] gives the bits
//! after an insertion and [`may_contain`] the answer of the membership test.
//! The laws that follow from the two are proved in [`crate::laws`].

use crate::bits::{BitArray, MAX_BITS};
use crate::hashing::{lemma_slot_in_range, positions, slot, slots};
use crate::laws::{lemma_empty_rejects, lemma_inserted_is_found};
use vstd::prelude::*;

verus! {

/// Why a filter could not be built.
#[derive(Clone, Copy, Debug, PartialEq, Eq, Structural)]
pub enum ConstructionError {
    /// The filter was asked to hold no bits at all.
    NoBits,
    /// The filter was asked to use no hash slots at all.
    NoHashes,
}

/// Whether one of the first `k` slots of `item` lands on `position` in an
/// array of `m` bits.
pub open spec fn selects(item: Seq<u8>, k: nat, m: nat, position: int) -> bool {
    exists|i: nat| i < k && #[trigger] slot(item, i, m) == position
}

/// One more slot selects what the slots before it select, and its own
/// position.
proof fn lemma_selects_step(item: Seq<u8>, k: nat, m: nat, position: int)
    ensures
        selects(item, k + 1, m, position) <==> selects(item, k, m, position) || slot(item, k, m)
            == position,
{
    if selects(item, k + 1, m, position) {
        let i = choose|i: nat| i < k + 1 && slot(item, i, m) == position;
        if i < k {
            assert(selects(item, k, m, position));
        }
    }
    if selects(item, k, m, position) {
        let i = choose|i: nat| i < k && slot(item, i, m) == position;
        assert(i < k + 1 && slot(item, i, m) == position);
    }
    if slot(item, k, m) == position {
        assert(k < k + 1 && slot(item, k, m) == position);
    }
}

/// The bits of a filter with `k` slots after `item` has been inserted: the
/// positions that the item selects are raised, and nothing else changes.
pub open spec fn with_item(bits: Seq<bool>, item: Seq<u8>, k: nat) -> Seq<bool> {
    Seq::new(bits.len(), |j: int| bits[j] || selects(item, k, bits.len(), j))
}

/// Whether a filter with `k` slots and these bits reports `item` as possibly
/// present: every position that the item selects is raised.
pub open spec fn may_contain(bits: Seq<bool>, item: Seq<u8>, k: nat) -> bool {
    forall|i: nat| i < k ==> bits[#[trigger] slot(item, i, bits.len()) as int]
}

/// A Bloom filter over byte strings.
///
/// A filter is made empty, with a fixed number of bits and of hash slots, and
/// changes only by [`insert`](BloomFilter::insert), which needs the filter to
/// itself: a [`test`](BloomFilter::test) sees the bits from before an
/// insertion or from after it, never from halfway.
#[derive(Debug)]
pub struct BloomFilter {
    bits: BitArray,
    hashes: usize,
}

impl View for BloomFilter {
    type V = Seq<bool>;

    /// The bit array, in index order.
    closed spec fn view(&self) -> Seq<bool> {
        self.bits@
    }
}

impl BloomFilter {
    /// The number of hash slots that each item is given.
    pub closed spec fn k(&self) -> nat {
        self.hashes as nat
    }

    #[verifier::type_invariant]
    spec fn sized(&self) -> bool {
        1 <= self.bits@.len() <= usize::MAX && self.hashes >= 1
    }

    /// An empty filter of `m` bits that gives each item `k` hash slots.
    ///
    /// A filter needs at least one bit and at least one slot. With both, the
    /// filter is built with every bit clear, and reports no item at all.
    pub fn new(m: usize, k: usize) -> (made: Result<BloomFilter, ConstructionError>)
        requires
            m <= MAX_BITS,
        ensures
            m == 0 ==> made == Err::<BloomFilter, ConstructionError>(ConstructionError::NoBits),
            m > 0 && k == 0 ==> made == Err::<BloomFilter, ConstructionError>(
                ConstructionError::NoHashes,
            ),
            m > 0 && k > 0 ==> made is Ok,
            made matches Ok(filter) ==> {
                &&& filter.k() == k
                &&& filter@ == Seq::new(m as nat, |j: int| false)
                &&& forall|item: Seq<u8>| !#[trigger] may_contain(filter@, item, k as nat)
            },
    {
        if m == 0 {
            Err(ConstructionError::NoBits)
        } else if k == 0 {
            Err(ConstructionError::NoHashes)
        } else {
            let filter = BloomFilter { bits: BitArray::new(m), hashes: k };
            proof {
                assert(filter@ =~= Seq::new(m as nat, |j: int| false));
                assert forall|item: Seq<u8>| !#[trigger] may_contain(filter@, item, k as nat) by {
                    lemma_empty_rejects(filter@, item, k as nat);
                }
            }
            Ok(filter)
        }
    }

    /// The bit array as it stands.
    pub fn bits(&self) -> (bits: &BitArray)
        ensures
            bits@ == self@,
    {
        &self.bits
    }

    /// The length `m` of the bit array, which is at least 1.
    pub fn num_bits(&self) -> (m: usize)
        ensures
            m == self@.len(),
            m >= 1,
    {
        proof {
            use_type_invariant(self);
        }
        self.bits.len()
    }

    /// The number `k` of hash slots, which is at least 1.
    pub fn num_hashes(&self) -> (k: usize)
        ensures
            k == self.k(),
            k >= 1,
    {
        proof {
            use_type_invariant(self);
        }
        self.hashes
    }

    /// The positions that `item` selects in this filter, in slot order.
    pub fn hash(&self, item: &[u8]) -> (out: Vec<usize>)
        ensures
            out@ == slots(item@, self.k(), self@.len()),
    {
        proof {
            use_type_invariant(self);
        }
        positions(item, self.hashes, self.bits.len())
    }

    /// Inserts `item`: raises every position that it selects and leaves the
    /// other bits as they are. From then on the item is reported.
    pub fn insert(&mut self, item: &[u8])
        ensures
            final(self)@ == with_item(old(self)@, item@, old(self).k()),
            final(self)@.len() == old(self)@.len(),
            final(self).k() == old(self).k(),
            may_contain(final(self)@, item@, final(self).k()),
    {
        proof {
            use_type_invariant(&*self);
        }
        let positions = self.hash(item);
        let ghost before = self@;
        let ghost k = self.k();
        let ghost m = before.len();
        let mut i: usize = 0;
        while i < positions.len()
            invariant
                i <= positions@.len(),
                0 < m <= usize::MAX,
                positions@ == slots(item@, k, m),
                self.k() == k,
                before.len() == m,
                self@.len() == m,
                forall|j: int|
                    0 <= j < m ==> #[trigger] self@[j] == (before[j] || selects(
                        item@,
                        i as nat,
                        m,
                        j,
                    )),
            decreases positions@.len() - i,
        {
            let position: usize = positions[i];
            let ghost now = self@;
            let ghost done = i as nat;
            self.bits.set(position);
            i += 1;
            proof {
                lemma_slot_in_range(item@, done, m);
                assert forall|j: int| 0 <= j < m implies #[trigger] self@[j] == (before[j]
                    || selects(item@, i as nat, m, j)) by {
                    lemma_selects_step(item@, done, m, j);
                    assert(now[j] == (before[j] || selects(item@, done, m, j)));
                }
            }
        }
        proof {
            assert(self@ =~= with_item(before, item@, k));
            lemma_inserted_is_found(before, item@, k);
        }
    }

    /// Whether `item` may have been inserted. The answer is `false` only if
    /// it never was.
    pub fn test(&self, item: &[u8]) -> (found: bool)
        ensures
            found == may_contain(self@, item@, self.k()),
    {
        proof {
            use_type_invariant(self);
        }
        let positions = self.hash(item);
        let ghost m = self@.len();
        let mut i: usize = 0;
        while i < positions.len()
            invariant
                i <= positions@.len(),
                0 < m <= usize::MAX,
                positions@ == slots(item@, self.k(), m),
                self@.len() == m,
                forall|n: nat| n < i ==> self@[#[trigger] slot(item@, n, m) as int],
            decreases positions@.len() - i,
        {
            proof {
                lemma_slot_in_range(item@, i as nat, m);
            }
            if !self.bits.get(positions[i]) {
                assert(!self@[slot(item@, i as nat, m) as int]);
                return false;
            }
            i += 1;
        }
        true
    }
}

} // verus!
