//! The simulation's randomness source.
//!
//! A `SimRng` wraps a seeded ChaCha8 generator. Every draw the library makes
//! goes through [`SimRng::next_below`]; the shapes the simulation needs
//! (signed genes, coordinates, angles, coin flips) are derived from it in
//! verified code, so nothing is assumed of a draw beyond its range.

use vstd::prelude::*;

use crate::fixed::{SCALE, TURN};

verus! {

/// Relies on `rand_chacha::ChaCha8Rng` being an ordinary owned type: the
/// declaration lets the generator stand in a field; nothing is assumed of
/// its contents.
#[verifier::external_type_specification]
#[verifier::external_body]
pub struct ExChaCha8Rng(rand_chacha::ChaCha8Rng);

/// A deterministic random-number generator: equal seeds give equal streams.
pub struct SimRng {
    rng: rand_chacha::ChaCha8Rng,
}

impl SimRng {
    /// Relies on `rand_chacha::ChaCha8Rng` through `rand::SeedableRng::seed_from_u64`:
    /// builds a generator whose stream is a function of the seed alone.
    #[verifier::external_body]
    pub fn from_seed(seed: u64) -> SimRng {
        SimRng { rng: rand::SeedableRng::seed_from_u64(seed) }
    }

    /// Relies on `rand::Rng::gen_range` over `0..n`: a draw strictly below
    /// `n`, panicking only on an empty range, which the precondition rules
    /// out. Nothing more is assumed of the value.
    #[verifier::external_body]
    pub fn next_below(&mut self, n: u64) -> (r: u64)
        requires
            n >= 1,
        ensures
            r < n,
    {
        rand::Rng::gen_range(&mut self.rng, 0..n)
    }

    /// A fair-coin flip.
    pub fn coin(&mut self) -> (r: bool) {
        let d = self.next_below(2);
        d == 1
    }

    /// A random gene: a fixed-point value in `[-1.0, 1.0]`.
    pub fn gene(&mut self) -> (r: i64)
        ensures
            -SCALE <= r <= SCALE,
    {
        let n: u64 = (2 * SCALE + 1) as u64;
        let d = self.next_below(n);
        (d as i64) - SCALE
    }

    /// A random coordinate on the unit torus: a fixed-point value in `[0.0, 1.0)`.
    pub fn coord(&mut self) -> (r: i64)
        ensures
            0 <= r < SCALE,
    {
        let d = self.next_below(SCALE as u64);
        d as i64
    }

    /// A random angle: a turn-unit value in `[0, TURN)`.
    pub fn angle(&mut self) -> (r: i64)
        ensures
            0 <= r < TURN,
    {
        let d = self.next_below(TURN as u64);
        d as i64
    }
}

} // verus!
