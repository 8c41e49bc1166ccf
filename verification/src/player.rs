//! The player: a single entity moved by a directional input.

use vstd::prelude::*;
use crate::motion::{advance_point, advanced_point};
use crate::units::{PLAYERSPEED, UNIT};
use crate::vector::Vector;

verus! {

/// The player. It takes no part in the infection and is not confined to the
/// box; its infection flag is carried along and never changed.
#[derive(Clone, Copy, Debug, PartialEq, Eq)]
pub struct Player {
    pub is_infected: bool,
    /// The direction last asked for.
    pub direction: Vector,
    /// Where the player stands.
    pub position: Vector,
}

/// The sub-units that one pressed direction contributes along an axis.
pub open spec fn pressed(button: bool) -> int {
    if button {
        UNIT as int
    } else {
        0
    }
}

/// The direction asked for by the four buttons of a directional pad. Opposite
/// buttons cancel; a diagonal is not normalised.
pub open spec fn input_direction(up: bool, down: bool, left: bool, right: bool) -> Vector {
    Vector {
        x: (pressed(right) - pressed(left)) as i64,
        y: (pressed(up) - pressed(down)) as i64,
    }
}

/// Creates the player: healthy, at rest, at the origin.
pub fn spawn_player() -> (player: Player)
    ensures
        !player.is_infected,
        player.direction == (Vector { x: 0, y: 0 }),
        player.position == (Vector { x: 0, y: 0 }),
{
    Player { is_infected: false, direction: Vector::zero(), position: Vector::zero() }
}

/// Computes the direction asked for by the four buttons of a directional pad.
pub fn pad_direction(up: bool, down: bool, left: bool, right: bool) -> (direction: Vector)
    ensures
        direction == input_direction(up, down, left, right),
{
    let mut x: i64 = 0;
    let mut y: i64 = 0;
    if up {
        y = y + UNIT;
    }
    if down {
        y = y - UNIT;
    }
    if left {
        x = x - UNIT;
    }
    if right {
        x = x + UNIT;
    }
    Vector { x, y }
}

/// Moves the player in `direction` for `dt` nanoseconds at the player speed.
pub fn apply_player_input(player: &mut Player, direction: Vector, dt: u64)
    ensures
        final(player).direction == direction,
        final(player).position == advanced_point(old(player).position, direction, PLAYERSPEED, dt),
        final(player).is_infected == old(player).is_infected,
{
    player.direction = direction;
    player.position = advance_point(player.position, direction, PLAYERSPEED, dt);
}

/// Moves the player as the four buttons of a directional pad ask, for `dt`
/// nanoseconds.
pub fn gamepad_input(player: &mut Player, up: bool, down: bool, left: bool, right: bool, dt: u64)
    ensures
        final(player).direction == input_direction(up, down, left, right),
        final(player).position == advanced_point(
            old(player).position,
            input_direction(up, down, left, right),
            PLAYERSPEED,
            dt,
        ),
        final(player).is_infected == old(player).is_infected,
{
    let direction = pad_direction(up, down, left, right);
    apply_player_input(player, direction, dt);
}

} // verus!
