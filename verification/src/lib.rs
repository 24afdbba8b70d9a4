//! A Bloom filter: a compact, probabilistic set of byte strings that never
//! forgets an item it was given and only rarely claims one it was not.

pub mod bits;
pub mod filter;
pub mod hashing;
pub mod laws;

pub use bits::{BitArray, MAX_BITS};
pub use filter::{BloomFilter, ConstructionError};
