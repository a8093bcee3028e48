//! The external randomness source used to seed an initial generation.
//!
//! A board is seeded cell by cell: one uniform draw per cell, compared in
//! verified code against `ALIVE_THRESHOLD`, so that each cell starts `Alive`
//! with probability 0.2.

use vstd::prelude::*;

verus! {

/// Probability 0.2 as a fraction of the `u32` range: a uniformly drawn `u32`
/// lies below this threshold with probability 858993459 / 2^32, the closest
/// representable approximation of one in five.
pub const ALIVE_THRESHOLD: u32 = 858993459;

/// Relies on rand::random: one value drawn uniformly from the thread-local
/// generator. The draw is random, so nothing is promised about which value
/// comes back; every caller must cope with every value.
#[verifier::external_body]
pub(crate) fn random_u32() -> u32 {
    rand::random::<u32>()
}

} // verus!
