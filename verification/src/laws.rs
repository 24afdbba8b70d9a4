//! What holds of every filter, whatever has been inserted into it.
//!
//! The laws are stated over the bits of a filter and its number of hash
//! slots, with the same functions that the contracts of
//! [`BloomFilter`](crate::filter::BloomFilter) use.

use crate::filter::{may_contain, selects, with_item};
use crate::hashing::{lemma_slot_in_range, slot};
use vstd::prelude::*;

verus! {

/// The bits after every item of `items` has been inserted, in order.
pub open spec fn with_items(bits: Seq<bool>, items: Seq<Seq<u8>>, k: nat) -> Seq<bool>
    decreases items.len(),
{
    if items.len() == 0 {
        bits
    } else {
        with_item(with_items(bits, items.drop_last(), k), items.last(), k)
    }
}

/// Whether no bit is raised.
pub open spec fn is_empty(bits: Seq<bool>) -> bool {
    forall|j: int| 0 <= j < bits.len() ==> !bits[j]
}

/// An insertion keeps the length of the array and every bit that was raised:
/// bits only ever go from clear to raised.
pub proof fn lemma_insert_only_raises(bits: Seq<bool>, item: Seq<u8>, k: nat)
    ensures
        with_item(bits, item, k).len() == bits.len(),
        forall|j: int| 0 <= j < bits.len() && bits[j] ==> with_item(bits, item, k)[j],
{
}

/// The same holds of any number of insertions.
pub proof fn lemma_inserts_only_raise(bits: Seq<bool>, items: Seq<Seq<u8>>, k: nat)
    ensures
        with_items(bits, items, k).len() == bits.len(),
        forall|j: int| 0 <= j < bits.len() && bits[j] ==> with_items(bits, items, k)[j],
    decreases items.len(),
{
    if items.len() > 0 {
        lemma_inserts_only_raise(bits, items.drop_last(), k);
    }
}

/// An insertion into a filter leaves at least one bit raised, so a filter
/// that has taken an item is never empty again.
pub proof fn lemma_insert_populates(bits: Seq<bool>, item: Seq<u8>, k: nat)
    requires
        bits.len() > 0,
        k > 0,
    ensures
        !is_empty(with_item(bits, item, k)),
{
    let m = bits.len();
    let j = slot(item, 0, m) as int;
    lemma_slot_in_range(item, 0, m);
    assert(selects(item, k, m, j));
    assert(with_item(bits, item, k)[j]);
}

/// There is no way back: after its first insertion a filter is not empty,
/// whatever is inserted later.
pub proof fn lemma_never_empty_again(
    bits: Seq<bool>,
    item: Seq<u8>,
    later: Seq<Seq<u8>>,
    k: nat,
)
    requires
        bits.len() > 0,
        k > 0,
    ensures
        !is_empty(with_items(with_item(bits, item, k), later, k)),
{
    let first = with_item(bits, item, k);
    lemma_insert_populates(bits, item, k);
    let j = choose|j: int| 0 <= j < first.len() && first[j];
    lemma_inserts_only_raise(first, later, k);
    assert(with_items(first, later, k)[j]);
}

/// An empty filter reports no item at all.
pub proof fn lemma_empty_rejects(bits: Seq<bool>, item: Seq<u8>, k: nat)
    requires
        bits.len() > 0,
        k > 0,
        is_empty(bits),
    ensures
        !may_contain(bits, item, k),
{
    lemma_slot_in_range(item, 0, bits.len());
    assert(!bits[slot(item, 0, bits.len()) as int]);
}

/// Right after its insertion an item is reported.
pub proof fn lemma_inserted_is_found(bits: Seq<bool>, item: Seq<u8>, k: nat)
    requires
        bits.len() > 0,
    ensures
        may_contain(with_item(bits, item, k), item, k),
{
    let m = bits.len();
    let after = with_item(bits, item, k);
    assert forall|i: nat| i < k implies after[#[trigger] slot(item, i, m) as int] by {
        lemma_slot_in_range(item, i, m);
        assert(selects(item, k, m, slot(item, i, m) as int));
    }
}

/// An item that is reported stays reported, whatever is inserted later.
pub proof fn lemma_found_stays_found(
    bits: Seq<bool>,
    item: Seq<u8>,
    later: Seq<Seq<u8>>,
    k: nat,
)
    requires
        bits.len() > 0,
        may_contain(bits, item, k),
    ensures
        may_contain(with_items(bits, later, k), item, k),
{
    let m = bits.len();
    let after = with_items(bits, later, k);
    lemma_inserts_only_raise(bits, later, k);
    assert forall|i: nat| i < k implies after[#[trigger] slot(item, i, m) as int] by {
        lemma_slot_in_range(item, i, m);
    }
}

/// No false negatives: once an item has been inserted it is reported, then
/// and after any further insertions.
pub proof fn lemma_no_false_negatives(
    bits: Seq<bool>,
    item: Seq<u8>,
    later: Seq<Seq<u8>>,
    k: nat,
)
    requires
        bits.len() > 0,
    ensures
        may_contain(with_items(with_item(bits, item, k), later, k), item, k),
{
    lemma_inserted_is_found(bits, item, k);
    lemma_found_stays_found(with_item(bits, item, k), item, later, k);
}

/// Inserting an item a second time changes nothing.
pub proof fn lemma_insert_idempotent(bits: Seq<bool>, item: Seq<u8>, k: nat)
    ensures
        with_item(with_item(bits, item, k), item, k) == with_item(bits, item, k),
{
    assert(with_item(with_item(bits, item, k), item, k) =~= with_item(bits, item, k));
}

/// Inserting an item that is already reported changes nothing, however the
/// filter came to report it.
pub proof fn lemma_insert_of_found_changes_nothing(bits: Seq<bool>, item: Seq<u8>, k: nat)
    requires
        may_contain(bits, item, k),
    ensures
        with_item(bits, item, k) == bits,
{
    assert(with_item(bits, item, k) =~= bits);
}

/// An item that was never inserted is still reported when each of its
/// positions is also a position of an item that was: a false positive.
pub proof fn lemma_shared_positions_collide(
    bits: Seq<bool>,
    inserted: Seq<u8>,
    other: Seq<u8>,
    k: nat,
)
    requires
        bits.len() > 0,
        forall|i: nat|
            i < k ==> selects(
                inserted,
                k,
                bits.len(),
                #[trigger] slot(other, i, bits.len()) as int,
            ),
    ensures
        may_contain(with_item(bits, inserted, k), other, k),
{
    let m = bits.len();
    let after = with_item(bits, inserted, k);
    assert forall|i: nat| i < k implies after[#[trigger] slot(other, i, m) as int] by {
        lemma_slot_in_range(other, i, m);
    }
}

} // verus!
