//! Points and directions of the plane, in sub-units.

use vstd::prelude::*;
use crate::units::CONTACT_RANGE;

verus! {

/// A point or a direction of the plane. Both coordinates count sub-units.
#[derive(Clone, Copy, Debug, PartialEq, Eq)]
pub struct Vector {
    pub x: i64,
    pub y: i64,
}

/// The square of the Euclidean distance between two points.
pub open spec fn distance_squared(a: Vector, b: Vector) -> int {
    (a.x - b.x) * (a.x - b.x) + (a.y - b.y) * (a.y - b.y)
}

/// Two points are in contact when their Euclidean distance is strictly below
/// the contact range.
pub open spec fn in_contact(a: Vector, b: Vector) -> bool {
    distance_squared(a, b) < CONTACT_RANGE * CONTACT_RANGE
}

impl Vector {
    /// The vector with the given coordinates.
    pub fn new(x: i64, y: i64) -> (v: Vector)
        ensures
            v.x == x,
            v.y == y,
    {
        Vector { x, y }
    }

    /// The origin.
    pub fn zero() -> (v: Vector)
        ensures
            v.x == 0,
            v.y == 0,
    {
        Vector { x: 0, y: 0 }
    }

    /// Whether the two points are in contact.
    pub fn within_reach(&self, other: &Vector) -> (near: bool)
        ensures
            near == in_contact(*self, *other),
    {
        let dx: i128 = self.x as i128 - other.x as i128;
        let dy: i128 = self.y as i128 - other.y as i128;
        let range: i128 = CONTACT_RANGE as i128;
        if dx >= range || dx <= -range || dy >= range || dy <= -range {
            proof {
                lemma_far_on_an_axis(dx as int, dy as int, range as int);
            }
            false
        } else {
            proof {
                lemma_square_below(dx as int, range as int);
                lemma_square_below(dy as int, range as int);
            }
            dx * dx + dy * dy < range * range
        }
    }
}

/// A gap of at least `range` along one axis puts the squared distance at or
/// above `range` squared.
proof fn lemma_far_on_an_axis(dx: int, dy: int, range: int)
    by (nonlinear_arith)
    requires
        range > 0,
        dx >= range || dx <= -range || dy >= range || dy <= -range,
    ensures
        dx * dx + dy * dy >= range * range,
{
}

/// A gap strictly inside `(-range, range)` has a square below `range` squared.
proof fn lemma_square_below(d: int, range: int)
    by (nonlinear_arith)
    requires
        -range < d < range,
    ensures
        0 <= d * d < range * range,
{
}

} // verus!
