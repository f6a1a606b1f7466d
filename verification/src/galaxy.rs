//! Planet types of the generated galaxy.

use rand_chacha::ChaCha8Rng;
use vstd::prelude::*;
use crate::rng::below_i32;

verus! {

#[derive(Clone, Copy, PartialEq, Eq, Debug, Structural)]
pub enum PlanetType {
    Rock,
    Fire,
    Water,
}

/// The type a roll in `0..3` stands for.
pub open spec fn type_for_roll(roll: i32) -> PlanetType {
    if roll == 0 {
        PlanetType::Rock
    } else if roll == 1 {
        PlanetType::Fire
    } else {
        PlanetType::Water
    }
}

/// The planet type a roll stands for: 0 rock, 1 fire, anything else water.
pub fn planet_type_for_roll(roll: i32) -> (t: PlanetType)
    ensures
        t == type_for_roll(roll),
{
    match roll {
        0 => PlanetType::Rock,
        1 => PlanetType::Fire,
        _ => PlanetType::Water,
    }
}

/// Draws a planet type from `rng`, each of the three equally likely; which one
/// rests on the generator's state.
pub fn planet_type(rng: &mut ChaCha8Rng) -> PlanetType {
    let roll = below_i32(rng, 3);
    planet_type_for_roll(roll)
}

} // verus!
