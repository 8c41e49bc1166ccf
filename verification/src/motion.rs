//! Motion: integrating velocities and confining positions to the box.

use vstd::prelude::*;
use crate::person::Person;
use crate::units::{NANOS_PER_SECOND, PERSONSPEED, SPACE_MAX, SPACE_MIN};
use crate::vector::Vector;

verus! {

/// How far a velocity component carries in `dt` nanoseconds at `speed` world
/// units per second, in sub-units, rounded towards zero.
pub open spec fn displacement(velocity: int, speed: int, dt: int) -> int {
    if velocity >= 0 {
        (velocity * speed * dt) / (NANOS_PER_SECOND as int)
    } else {
        -(((-velocity) * speed * dt) / (NANOS_PER_SECOND as int))
    }
}

/// `value`, or the nearest coordinate that can be represented.
pub open spec fn saturated(value: int) -> int {
    if value < i64::MIN {
        i64::MIN as int
    } else if value > i64::MAX {
        i64::MAX as int
    } else {
        value
    }
}

/// The coordinate reached from `position` after `dt` nanoseconds.
pub open spec fn advanced(position: int, velocity: int, speed: int, dt: int) -> int {
    saturated(position + displacement(velocity, speed, dt))
}

/// The point reached from `position` after `dt` nanoseconds.
pub open spec fn advanced_point(position: Vector, direction: Vector, speed: u32, dt: u64) -> Vector {
    Vector {
        x: advanced(position.x as int, direction.x as int, speed as int, dt as int) as i64,
        y: advanced(position.y as int, direction.y as int, speed as int, dt as int) as i64,
    }
}

/// The person after moving for `dt` nanoseconds at the person speed.
pub open spec fn moved(person: Person, dt: u64) -> Person {
    Person {
        position: advanced_point(person.position, person.direction, PERSONSPEED, dt),
        ..person
    }
}

/// `coordinate` confined to the box.
pub open spec fn clamped(coordinate: int) -> int {
    if coordinate < SPACE_MIN {
        SPACE_MIN as int
    } else if coordinate > SPACE_MAX {
        SPACE_MAX as int
    } else {
        coordinate
    }
}

/// The point confined to the box, each axis by itself.
pub open spec fn clamped_point(position: Vector) -> Vector {
    Vector { x: clamped(position.x as int) as i64, y: clamped(position.y as int) as i64 }
}

/// Whether both coordinates lie in the box.
pub open spec fn in_space(position: Vector) -> bool {
    &&& SPACE_MIN <= position.x <= SPACE_MAX
    &&& SPACE_MIN <= position.y <= SPACE_MAX
}

/// The person with its position confined to the box.
pub open spec fn confined(person: Person) -> Person {
    Person { position: clamped_point(person.position), ..person }
}

/// Moves one coordinate for `dt` nanoseconds.
pub fn advance(position: i64, velocity: i64, speed: u32, dt: u64) -> (next: i64)
    ensures
        next == advanced(position as int, velocity as int, speed as int, dt as int),
{
    let magnitude: u128 = if velocity >= 0 {
        velocity as u128
    } else {
        (-(velocity as i128)) as u128
    };
    assert(magnitude * speed <= 0x8000_0000_0000_0000 * 0xffff_ffff) by (nonlinear_arith)
        requires
            magnitude <= 0x8000_0000_0000_0000,
            speed <= 0xffff_ffff,
    ;
    let rate: u128 = magnitude * (speed as u128);
    match rate.checked_mul(dt as u128) {
        Some(scaled) => {
            let step: u128 = scaled / (NANOS_PER_SECOND as u128);
            assert(step * 1_000_000_000 <= scaled) by (nonlinear_arith)
                requires
                    step == scaled / 1_000_000_000,
            ;
            let target: i128 = if velocity >= 0 {
                position as i128 + step as i128
            } else {
                position as i128 - step as i128
            };
            if target < i64::MIN as i128 {
                i64::MIN
            } else if target > i64::MAX as i128 {
                i64::MAX
            } else {
                target as i64
            }
        },
        None => {
            if velocity >= 0 {
                i64::MAX
            } else {
                i64::MIN
            }
        },
    }
}

/// Moves a point for `dt` nanoseconds.
pub fn advance_point(position: Vector, direction: Vector, speed: u32, dt: u64) -> (next: Vector)
    ensures
        next == advanced_point(position, direction, speed, dt),
{
    Vector {
        x: advance(position.x, direction.x, speed, dt),
        y: advance(position.y, direction.y, speed, dt),
    }
}

/// Moves every person by its velocity times the person speed times `dt`
/// nanoseconds.
pub fn move_population(people: &mut Vec<Person>, dt: u64)
    ensures
        final(people)@.len() == old(people)@.len(),
        forall|i: int|
            0 <= i < old(people)@.len() ==> #[trigger] final(people)@[i] == moved(old(people)@[i], dt),
{
    let mut i: usize = 0;
    while i < people.len()
        invariant
            i <= people.len(),
            people@.len() == old(people)@.len(),
            forall|j: int| 0 <= j < i ==> #[trigger] people@[j] == moved(old(people)@[j], dt),
            forall|j: int| i <= j < people@.len() ==> #[trigger] people@[j] == old(people)@[j],
        decreases people.len() - i,
    {
        let mut person: Person = people[i];
        person.position = advance_point(person.position, person.direction, PERSONSPEED, dt);
        people.set(i, person);
        i = i + 1;
    }
}

/// Confines one coordinate to the box.
pub fn clamp_coordinate(coordinate: i64) -> (inside: i64)
    ensures
        inside == clamped(coordinate as int),
        SPACE_MIN <= inside <= SPACE_MAX,
{
    if coordinate < SPACE_MIN {
        SPACE_MIN
    } else if coordinate > SPACE_MAX {
        SPACE_MAX
    } else {
        coordinate
    }
}

/// Confines every person to the box, each axis by itself. Velocities stay as
/// they are: a person held at a wall keeps pushing against it.
pub fn define_space(people: &mut Vec<Person>)
    ensures
        final(people)@.len() == old(people)@.len(),
        forall|i: int|
            0 <= i < old(people)@.len() ==> #[trigger] final(people)@[i] == confined(old(people)@[i]),
        forall|i: int|
            0 <= i < final(people)@.len() ==> in_space((#[trigger] final(people)@[i]).position),
{
    let mut i: usize = 0;
    while i < people.len()
        invariant
            i <= people.len(),
            people@.len() == old(people)@.len(),
            forall|j: int| 0 <= j < i ==> #[trigger] people@[j] == confined(old(people)@[j]),
            forall|j: int| 0 <= j < i ==> in_space((#[trigger] people@[j]).position),
            forall|j: int| i <= j < people@.len() ==> #[trigger] people@[j] == old(people)@[j],
        decreases people.len() - i,
    {
        let mut person: Person = people[i];
        person.position = Vector {
            x: clamp_coordinate(person.position.x),
            y: clamp_coordinate(person.position.y),
        };
        people.set(i, person);
        i = i + 1;
    }
}

} // verus!
