use bloom_filter::hashing::{
    fnv_hash, fold, place, positions, std_hash, FNV_OFFSET_BASIS, FNV_PRIME,
};
use fnv::FnvHasher;
use std::collections::hash_map::DefaultHasher;
use std::hash::Hasher;

fn default_digest(bytes: &[u8]) -> u64 {
    let mut hasher = DefaultHasher::new();
    hasher.write(bytes);
    hasher.finish()
}

fn fnv_digest(bytes: &[u8]) -> u64 {
    let mut hasher = FnvHasher::default();
    hasher.write(bytes);
    hasher.finish()
}

/// FNV-1a written out: one round per byte, from the offset basis.
fn fnv1a_by_rounds(bytes: &[u8]) -> u64 {
    let mut state: u64 = FNV_OFFSET_BASIS;
    for byte in bytes {
        state = (state ^ u64::from(*byte)).wrapping_mul(FNV_PRIME);
    }
    state
}

fn expected_slot(bytes: &[u8], i: usize, m: usize) -> usize {
    let first: u128 = u128::from(default_digest(bytes));
    let second: u128 = u128::from(fnv_digest(bytes));
    let modulus: u128 = m as u128;
    let position: u128 = match i {
        0 => first % modulus,
        1 => second % modulus,
        _ => (first + (i as u128) * second) % modulus,
    };
    position as usize
}

#[test]
fn fold_takes_the_remainder() {
    assert_eq!(fold(0, 32), 0);
    assert_eq!(fold(31, 32), 31);
    assert_eq!(fold(32, 32), 0);
    assert_eq!(fold(0xff4c_1a9d_41c6_1c5b, 32), 27);
    assert_eq!(fold(0x5ada_999b_33cc_c808, 32), 8);
    assert_eq!(fold(u64::MAX, 10), 5);
    assert_eq!(fold(u64::MAX, u64::MAX), 0);
    assert_eq!(fold(12_345, 1), 0);
}

#[test]
fn place_of_the_first_two_slots() {
    assert_eq!(place(27, 8, 0, 32), 27);
    assert_eq!(place(27, 8, 1, 32), 8);
    assert_eq!(place(100, 200, 0, 32), 4);
    assert_eq!(place(100, 200, 1, 32), 8);
}

#[test]
fn place_of_the_further_slots() {
    assert_eq!(place(27, 8, 2, 32), 11);
    assert_eq!(place(27, 8, 3, 32), 19);
    assert_eq!(place(27, 8, 4, 32), 27);
    assert_eq!(place(27, 8, 5, 32), 3);
    assert_eq!(place(5, 0, 9, 32), 5);
    assert_eq!(place(0, 1, 40, 32), 8);
}

#[test]
fn place_does_not_overflow() {
    let top: usize = usize::MAX;
    let wide: u128 = top as u128;
    assert_eq!(place(top, top, top, top), 0);
    assert_eq!(place(top, top, 2, 1000) as u128, (wide + 2 * wide) % 1000);
    assert_eq!(place(top, top, top, 1_000_003) as u128, (wide + wide * wide) % 1_000_003);
    assert_eq!(place(top - 1, top, top, top - 2) as u128, ((wide - 1) + wide * wide) % (wide - 2));
}

#[test]
fn place_of_folded_hashes_is_the_same() {
    let first: usize = 0x1234_5678_9abc;
    let second: usize = 0x0fed_cba9_8765;
    for m in [1_usize, 2, 7, 32, 1000, 65_537] {
        for i in 0..12 {
            assert_eq!(place(first % m, second % m, i, m), place(first, second, i, m));
        }
    }
}

#[test]
fn fnv_hash_of_known_inputs() {
    let all: u64 = u64::MAX;
    assert_eq!(fnv_hash(b"", all), 0xcbf2_9ce4_8422_2325_usize);
    assert_eq!(fnv_hash(b"a", all), 0xaf63_dc4c_8601_ec8c_usize);
    assert_eq!(fnv_hash(b"foobar", all), 0x8594_4171_f739_67e8_usize);
    assert_eq!(fnv_hash(b"Insert", all), 0x5ada_999b_33cc_c808_usize);
}

#[test]
fn fnv_hash_runs_one_round_per_byte() {
    let inputs: [&[u8]; 5] = [b"", b"\0", b"ab", b"ba", b"the quick brown fox"];
    for input in inputs {
        assert_eq!(fnv_hash(input, u64::MAX) as u64, fnv1a_by_rounds(input) % u64::MAX);
        assert_eq!(fnv_hash(input, 1000) as u64, fnv1a_by_rounds(input) % 1000);
    }
}

#[test]
fn fnv_hash_folds_by_remainder() {
    assert_eq!(fnv_hash(b"Insert", 32), 8);
    assert_eq!(fnv_hash(b"", 32), 5);
    assert_eq!(fnv_hash(b"a", 32), 12);
    assert_eq!(fnv_hash(b"foobar", 1), 0);
}

#[test]
fn std_hash_folds_the_default_hasher() {
    let inputs: [&[u8]; 4] = [b"", b"Insert", b"foobar", b"\xff\x00\xfe"];
    for input in inputs {
        assert_eq!(std_hash(input, 32) as u64, default_digest(input) % 32);
        assert_eq!(std_hash(input, 1_000_003) as u64, default_digest(input) % 1_000_003);
        assert_eq!(std_hash(input, 1), 0);
    }
}

#[test]
fn std_hash_of_known_inputs() {
    assert_eq!(std_hash(b"Insert", 32), 27);
    assert_eq!(std_hash(b"", 32), 12);
    assert_eq!(std_hash(b"a", 32), 19);
}

#[test]
fn the_two_hashes_differ() {
    assert_ne!(std_hash(b"Insert", u64::MAX), fnv_hash(b"Insert", u64::MAX));
    assert_ne!(std_hash(b"Insert", 32), fnv_hash(b"Insert", 32));
}

#[test]
fn positions_of_known_input() {
    assert_eq!(positions(b"Insert", 2, 32), vec![27, 8]);
    assert_eq!(positions(b"Insert", 6, 32), vec![27, 8, 11, 19, 27, 3]);
    assert_eq!(
        positions(b"Insert", 6, 1_000_003),
        vec![366_234, 696_061, 758_353, 454_411, 150_469, 846_530]
    );
}

#[test]
fn positions_start_with_the_two_hashes() {
    let out: Vec<usize> = positions(b"foobar", 2, 97);
    assert_eq!(out, vec![std_hash(b"foobar", 97), fnv_hash(b"foobar", 97)]);
}

#[test]
fn positions_combine_the_hashes_from_the_third_slot_on() {
    let inputs: [&[u8]; 3] = [b"", b"Insert", b"a longer item, with some punctuation."];
    let sizes: [usize; 4] = [1, 32, 1_000_003, usize::MAX];
    for input in inputs {
        for m in sizes {
            let out: Vec<usize> = positions(input, 9, m);
            assert_eq!(out.len(), 9);
            for (i, position) in out.iter().enumerate() {
                assert_eq!(*position, expected_slot(input, i, m));
                assert!(*position < m);
            }
        }
    }
}

#[test]
fn positions_are_the_same_on_every_call() {
    let first: Vec<usize> = positions(b"Insert", 7, 1021);
    for _ in 0..10 {
        assert_eq!(positions(b"Insert", 7, 1021), first);
    }
}

#[test]
fn positions_of_a_shorter_family_are_a_prefix() {
    let long: Vec<usize> = positions(b"prefix", 8, 4096);
    for k in 0..8 {
        assert_eq!(positions(b"prefix", k, 4096), long[..k].to_vec());
    }
}

#[test]
fn no_positions_for_no_slots() {
    assert_eq!(positions(b"Insert", 0, 32), Vec::<usize>::new());
}

#[test]
fn empty_item_has_positions() {
    assert_eq!(positions(b"", 3, 32), vec![12, 5, expected_slot(b"", 2, 32)]);
}
