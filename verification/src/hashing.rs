//! The hash family: the bit positions that an item selects.
//!
//! Two hash functions stand behind every position. The first is the standard
//! library's `DefaultHasher`, the second is 64-bit FNV-1a from the `fnv`
//! crate. Slot 0 is the first hash folded into the array, slot 1 is the
//! second, and every further slot `i` combines them by double hashing, as
//! `first + i * second`, folded likewise. An item whose second hash folds to
//! zero gets the position of slot 0 in all those further slots.
//!
//! Folding is by remainder. Where the array length `m` does not divide
//! `2^64`, a hash spread evenly over 64 bits lands on the low positions more
//! often than on the high ones, by a share of about `m / 2^64`.
//!
//! Both hashes are fixed functions of the bytes, so an item has the same
//! positions for as long as a program runs. The standard library keeps the
//! right to change its default hasher between releases: bits written by one
//! build of a program are not to be read by another.

use fnv::FnvHasher;
use std::collections::hash_map::DefaultHasher;
use std::hash::Hasher;
use vstd::arithmetic::div_mod::{
    lemma_add_mod_noop, lemma_mod_bound, lemma_mul_mod_noop_right, lemma_small_mod,
};
use vstd::prelude::*;
use vstd::std_specs::hash::DefaultHasherAdditionalSpecFns;

verus! {

/// The state that an FNV-1a hasher starts from.
pub const FNV_OFFSET_BASIS: u64 = 0xcbf2_9ce4_8422_2325;

/// The multiplier of 64-bit FNV-1a.
pub const FNV_PRIME: u64 = 0x0000_0100_0000_01b3;

/// One round of FNV-1a: the byte is mixed into the low bits of the state, and
/// the state is multiplied by the prime, keeping the low 64 bits.
pub open spec fn fnv1a_round(state: u64, byte: u8) -> u64 {
    (((state ^ (byte as u64)) * FNV_PRIME) % 0x1_0000_0000_0000_0000) as u64
}

/// The 64-bit FNV-1a hash of `bytes`.
pub open spec fn fnv1a(bytes: Seq<u8>) -> u64 {
    bytes.fold_left(FNV_OFFSET_BASIS, |state: u64, byte: u8| fnv1a_round(state, byte))
}

/// What a fresh `DefaultHasher` reports after one write of `bytes`.
pub open spec fn default_digest(bytes: Seq<u8>) -> u64 {
    DefaultHasher::spec_finish(seq![bytes])
}

/// Hashes `bytes` with `fnv::FnvHasher`: `default`, one `write`, `finish`.
///
/// The hasher starts from the offset basis, `write` runs one FNV-1a round per
/// byte in order, and `finish` hands out the state.
#[verifier::external_body]
fn fnv_digest(bytes: &[u8]) -> (digest: u64)
    ensures
        digest == fnv1a(bytes@),
{
    let mut hasher = FnvHasher::default();
    hasher.write(bytes);
    hasher.finish()
}

/// Folds a hash into an array of `len` bits, by remainder.
pub fn fold(digest: u64, len: u64) -> (position: usize)
    requires
        0 < len,
        len - 1 <= usize::MAX,
    ensures
        position == digest % len,
{
    let res: u64 = digest % len;
    res as usize
}

/// The position that the standard library's default hasher gives `item` in
/// an array of `len` bits.
pub fn std_hash(item: &[u8], len: u64) -> (position: usize)
    requires
        0 < len,
        len - 1 <= usize::MAX,
    ensures
        position == default_digest(item@) % len,
{
    let mut hasher = DefaultHasher::new();
    hasher.write(item);
    assert(hasher@ =~= seq![item@]);
    fold(hasher.finish(), len)
}

/// The position that FNV-1a gives `item` in an array of `len` bits.
pub fn fnv_hash(item: &[u8], len: u64) -> (position: usize)
    requires
        0 < len,
        len - 1 <= usize::MAX,
    ensures
        position == fnv1a(item@) % len,
{
    fold(fnv_digest(item), len)
}

/// The position of slot `i` in an array of `m` bits, for an item with the
/// hashes `first` and `second`: the first hash for slot 0, the second for
/// slot 1, and `first + i * second` from there on, each folded by remainder.
pub open spec fn place_of(first: nat, second: nat, i: nat, m: nat) -> nat {
    if i == 0 {
        first % m
    } else if i == 1 {
        second % m
    } else {
        (first + i * second) % m
    }
}

/// The position of slot `i` for `item` in an array of `m` bits.
pub open spec fn slot(item: Seq<u8>, i: nat, m: nat) -> nat {
    place_of(default_digest(item) as nat, fnv1a(item) as nat, i, m)
}

/// The positions of the first `k` slots for `item`, in slot order.
pub open spec fn slots(item: Seq<u8>, k: nat, m: nat) -> Seq<usize> {
    Seq::new(k, |i: int| slot(item, i as nat, m) as usize)
}

/// A position lies inside the array.
pub proof fn lemma_place_in_range(first: nat, second: nat, i: nat, m: nat)
    requires
        m > 0,
    ensures
        place_of(first, second, i, m) < m,
{
    lemma_mod_bound(first as int, m as int);
    lemma_mod_bound(second as int, m as int);
    lemma_mod_bound((first + i * second) as int, m as int);
}

/// Every slot lies inside the array, so `slots` lists the slots unchanged.
pub proof fn lemma_slot_in_range(item: Seq<u8>, i: nat, m: nat)
    requires
        m > 0,
    ensures
        slot(item, i, m) < m,
        m <= usize::MAX ==> slot(item, i, m) as usize == slot(item, i, m),
{
    lemma_place_in_range(default_digest(item) as nat, fnv1a(item) as nat, i, m);
}

/// Hashes that were folded already give the same positions as the hashes
/// themselves.
pub proof fn lemma_place_of_folded(first: nat, second: nat, i: nat, m: nat)
    requires
        m > 0,
    ensures
        place_of(first % m, second % m, i, m) == place_of(first, second, i, m),
{
    lemma_mod_bound(first as int, m as int);
    lemma_mod_bound(second as int, m as int);
    lemma_small_mod(first % m, m);
    lemma_small_mod(second % m, m);
    lemma_mul_mod_noop_right(i as int, second as int, m as int);
    lemma_add_mod_noop(first as int, (i * second) as int, m as int);
    lemma_add_mod_noop((first % m) as int, (i * (second % m)) as int, m as int);
}

/// The position of slot `i` in an array of `m` bits, from the two hashes of
/// an item. The hashes may be folded already.
pub fn place(first: usize, second: usize, i: usize, m: usize) -> (position: usize)
    requires
        m > 0,
    ensures
        position == place_of(first as nat, second as nat, i as nat, m as nat),
        position < m,
{
    proof {
        lemma_place_in_range(first as nat, second as nat, i as nat, m as nat);
    }
    if i == 0 {
        first % m
    } else if i == 1 {
        second % m
    } else {
        assert(i * second <= 0xffff_ffff_ffff_ffff * 0xffff_ffff_ffff_ffff) by (nonlinear_arith)
            requires
                i <= 0xffff_ffff_ffff_ffff,
                second <= 0xffff_ffff_ffff_ffff,
        ;
        let sum: u128 = first as u128 + (i as u128) * (second as u128);
        let res: u128 = sum % (m as u128);
        res as usize
    }
}

/// The `k` positions in `[0, m)` that `item` selects.
///
/// The result depends on nothing but the arguments: the same item, `k` and
/// `m` give the same positions in the same order, call after call.
pub fn positions(item: &[u8], k: usize, m: usize) -> (out: Vec<usize>)
    requires
        m > 0,
    ensures
        out@ == slots(item@, k as nat, m as nat),
        forall|i: int| 0 <= i < out@.len() ==> out@[i] < m,
{
    let first: usize = std_hash(item, m as u64);
    let second: usize = fnv_hash(item, m as u64);
    let mut out: Vec<usize> = Vec::new();
    let mut i: usize = 0;
    while i < k
        invariant
            i <= k,
            m > 0,
            first == default_digest(item@) % (m as u64),
            second == fnv1a(item@) % (m as u64),
            out@ == slots(item@, i as nat, m as nat),
            forall|j: int| 0 <= j < out@.len() ==> out@[j] < m,
        decreases k - i,
    {
        proof {
            lemma_place_of_folded(
                default_digest(item@) as nat,
                fnv1a(item@) as nat,
                i as nat,
                m as nat,
            );
        }
        out.push(place(first, second, i, m));
        i += 1;
    }
    out
}

} // verus!
