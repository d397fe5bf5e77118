//! The shared random source.
//!
//! Every probability draw in the game goes through one `GameRng`, seeded once
//! at startup so that play is reproducible: with a fixed seed the order of
//! draws fully determines the outcome. The generator itself comes from the
//! `rand` crate; this module confines what the library assumes about it to
//! one declaration and two small wrappers.

use vstd::prelude::*;

verus! {

/// The pseudo-random generator of the `rand` crate, opaque to verification.
#[verifier::external_type_specification]
#[verifier::external_body]
pub struct ExStdRng(rand::rngs::StdRng);

/// The game's random source: a seeded pseudo-random generator. Probability
/// draws take it exclusively (`&mut`) for the duration of the draw.
pub struct GameRng {
    generator: rand::rngs::StdRng,
}

impl GameRng {
    /// Builds the generator from a seed.
    ///
    /// Relies on `rand::SeedableRng::seed_from_u64`, which constructs a
    /// `StdRng` from a 64-bit seed.
    #[verifier::external_body]
    pub fn from_seed(seed: u64) -> GameRng {
        GameRng { generator: rand::SeedableRng::seed_from_u64(seed) }
    }

    /// Draws a uniformly distributed integer between 0 and `bound` inclusive.
    /// Nothing more is assumed of the draw: to verification, two draws with
    /// the same bound may differ.
    ///
    /// Relies on `rand::Rng::gen_range`, which returns a uniform sample from
    /// the given range and panics only when the range is empty; an inclusive
    /// range on `u8` is never empty.
    #[verifier::external_body]
    pub fn draw_up_to(&mut self, bound: u8) -> (r: u8)
        ensures
            r <= bound,
    {
        rand::Rng::gen_range(&mut self.generator, 0..=bound)
    }
}

} // verus!
