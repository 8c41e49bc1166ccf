//! Random draws, taken from rand's thread-local generator.

use vstd::prelude::*;
use rand::rngs::ThreadRng;
use rand::Rng;
use crate::units::{ROLL_MAX, UNIT};
use crate::vector::Vector;

verus! {

/// rand's thread-local generator. Nothing is known of its state.
#[verifier::external_type_specification]
#[verifier::external_body]
pub struct ExThreadRng(rand::rngs::ThreadRng);

/// `Rng::gen_range` of rand on the inclusive range from `low` to `high`. An
/// empty range would panic, so it is left out. Which value comes back is up
/// to chance: the contract only says that it lies in the range.
#[verifier::external_body]
pub(crate) fn sample_inclusive(rng: &mut ThreadRng, low: i64, high: i64) -> (value: i64)
    requires
        low <= high,
    ensures
        low <= value <= high,
{
    rng.gen_range(low..=high)
}

/// Whether both components lie in `[-UNIT, UNIT)`, that is in `[-1, 1)` world
/// units.
pub open spec fn is_velocity(v: Vector) -> bool {
    &&& -UNIT <= v.x < UNIT
    &&& -UNIT <= v.y < UNIT
}

/// Whether `roll` is a possible outcome of an infection roll.
pub open spec fn is_roll(roll: i64) -> bool {
    0 <= roll <= ROLL_MAX
}

/// Draws the roll of one infection attempt: a whole number from 0 to 4.
pub fn draw_roll(rng: &mut ThreadRng) -> (roll: i64)
    ensures
        is_roll(roll),
{
    sample_inclusive(rng, 0, ROLL_MAX)
}

/// Draws a velocity: each component independently from `[-1, 1)` world units.
pub fn generate_velocity(rng: &mut ThreadRng) -> (velocity: Vector)
    ensures
        is_velocity(velocity),
{
    let velx: i64 = sample_inclusive(rng, -UNIT, UNIT - 1);
    let vely: i64 = sample_inclusive(rng, -UNIT, UNIT - 1);
    Vector { x: velx, y: vely }
}

} // verus!
