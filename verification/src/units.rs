//! The constants of the simulation and its fixed-point scale.

use vstd::prelude::*;

verus! {

/// Sub-units per world unit: every length and every velocity component is a
/// whole number of millionths.
pub const UNIT: i64 = 1_000_000;

/// Nanoseconds per second.
pub const NANOS_PER_SECOND: u64 = 1_000_000_000;

/// How many healthy persons a default population holds besides patient zero.
pub const PERSONCOUNT: i32 = 5000;

/// World units that a person with a velocity component of one covers in a second.
pub const PERSONSPEED: u32 = 50;

/// Edge of a person in world units; also the distance below which two
/// persons are in contact.
pub const PERSONSIZE: i64 = 10;

/// Edge of the box in world units.
pub const BOXSIZE: i64 = 720;

/// World units that the player covers in a second per unit of input.
pub const PLAYERSPEED: u32 = 100;

/// Period of the timer that redraws every velocity: two seconds.
pub const RESTEER_PERIOD: u64 = 2_000_000_000;

/// Period of a person's infection cooldown: 200 milliseconds.
pub const INFECT_PERIOD: u64 = 200_000_000;

/// An infection attempt draws a whole number from zero up to this one.
pub const ROLL_MAX: i64 = 4;

/// The draw that infects: one outcome out of five.
pub const ROLL_INFECTS: i64 = 4;

/// The contact distance in sub-units.
pub const CONTACT_RANGE: i64 = PERSONSIZE * UNIT;

/// The lowest coordinate that the boundary clamp leaves in place, in sub-units.
pub const SPACE_MIN: i64 = -365_000_000;

/// The highest coordinate that the boundary clamp leaves in place, in sub-units.
pub const SPACE_MAX: i64 = 355_000_000;

/// The clamp bounds lie half a box from the origin, shifted down by half a
/// person: 365 world units below the origin and 355 above it.
pub proof fn lemma_space_bounds()
    ensures
        SPACE_MIN == -(BOXSIZE / 2) * UNIT - (PERSONSIZE / 2) * UNIT,
        SPACE_MAX == (BOXSIZE / 2) * UNIT - (PERSONSIZE / 2) * UNIT,
        CONTACT_RANGE == 10 * UNIT,
        SPACE_MIN < SPACE_MAX,
{
}

} // verus!
