//! The machine's pseudo-random source: the seedable generator that macroquad
//! re-exports from quad-rand. Nothing is promised of the values it yields.
use vstd::prelude::*;

verus! {

#[verifier::external_type_specification]
#[verifier::external_body]
pub struct ExRandGenerator(macroquad::rand::RandGenerator);

/// Relies on `RandGenerator::new`: a generator in its initial (unseeded) state.
pub assume_specification[ macroquad::rand::RandGenerator::new ]() -> macroquad::rand::RandGenerator;

/// Relies on `RandGenerator::srand`: resets the generator's state from `seed`.
pub assume_specification[ macroquad::rand::RandGenerator::srand ](
    g: &macroquad::rand::RandGenerator,
    seed: u64,
);

/// Relies on `RandGenerator::rand`: the next value of the generator's sequence.
pub assume_specification[ macroquad::rand::RandGenerator::rand ](
    g: &macroquad::rand::RandGenerator,
) -> u32;

/// A generator that owns its own state, seeded with `seed`.
pub fn seeded_generator(seed: u64) -> (g: macroquad::rand::RandGenerator) {
    let g = macroquad::rand::RandGenerator::new();
    g.srand(seed);
    g
}

} // verus!
