//! The core's randomness boundary.
//!
//! All chance in the simulation — growth draws, spawn cells, sexes, lottery
//! winners, exploration steps — flows through `rand::random`.  Nothing can be
//! promised of a random sample, so every caller states what holds of every
//! outcome.

use vstd::prelude::*;

verus! {

/// Relies on rand::random: draws one sample of the standard distribution of
/// `T` from the thread-local generator.  The sample depends on generator
/// state, so no postcondition is stated.
pub assume_specification<T>[ rand::random::<T> ]() -> (r: T)
    where
        rand::distributions::Standard: rand::distributions::Distribution<T>,
;

/// A random index below `bound`.
pub fn random_below(bound: u32) -> (r: u32)
    requires
        bound >= 1,
    ensures
        r < bound,
{
    let x: u32 = rand::random::<u32>();
    x % bound
}

/// A random index below `bound`, for indexing vectors.
pub fn random_below_usize(bound: usize) -> (r: usize)
    requires
        bound >= 1,
    ensures
        r < bound,
{
    let x: u64 = rand::random::<u64>();
    (x % (bound as u64)) as usize
}

/// A fair coin.
pub fn random_coin() -> (r: bool) {
    let x: u8 = rand::random::<u8>();
    x % 2 == 0
}

} // verus!
