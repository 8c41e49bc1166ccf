//! Creating the population.

use vstd::prelude::*;
use rand::rngs::ThreadRng;
use crate::person::Person;
use crate::random::{generate_velocity, is_velocity, sample_inclusive};
use crate::timer::fresh;
use crate::units::INFECT_PERIOD;
use crate::vector::Vector;

verus! {

/// Why a population cannot be created.
#[derive(Clone, Copy, Debug, PartialEq, Eq)]
pub enum ConfigError {
    /// The number of healthy persons asked for is negative.
    NegativeCount,
    /// The scatter range is zero or negative.
    NonPositiveBoxSize,
}

/// Whether `person` is a patient zero: infected, at the origin, with a
/// velocity in range and a cooldown that has not been ticked.
pub open spec fn is_patient_zero(person: Person) -> bool {
    &&& person.infected
    &&& person.position == (Vector { x: 0, y: 0 })
    &&& is_velocity(person.direction)
    &&& person.infect_timer == fresh(INFECT_PERIOD)
}

/// Whether `person` is a newly scattered healthy person: within `box_size`
/// sub-units of the origin on both axes, with a velocity in range and a
/// cooldown that has not been ticked.
pub open spec fn is_newcomer(person: Person, box_size: i64) -> bool {
    &&& !person.infected
    &&& -box_size <= person.position.x <= box_size
    &&& -box_size <= person.position.y <= box_size
    &&& is_velocity(person.direction)
    &&& person.infect_timer == fresh(INFECT_PERIOD)
}

/// Whether `people` is a new population: patient zero first, then `count`
/// newcomers.
pub open spec fn is_population(people: Seq<Person>, count: i32, box_size: i64) -> bool {
    &&& people.len() == count + 1
    &&& is_patient_zero(people[0])
    &&& forall|i: int| 1 <= i < people.len() ==> is_newcomer(#[trigger] people[i], box_size)
}

/// Creates patient zero and `count` healthy persons scattered uniformly
/// within `box_size` sub-units of the origin on both axes. A negative count
/// or a scatter range that is not positive is refused.
pub fn populate(count: i32, box_size: i64, rng: &mut ThreadRng) -> (result: Result<
    Vec<Person>,
    ConfigError,
>)
    ensures
        match result {
            Ok(people) => count >= 0 && box_size > 0 && is_population(people@, count, box_size),
            Err(ConfigError::NegativeCount) => count < 0,
            Err(ConfigError::NonPositiveBoxSize) => count >= 0 && box_size <= 0,
        },
{
    if count < 0 {
        return Err(ConfigError::NegativeCount);
    }
    if box_size <= 0 {
        return Err(ConfigError::NonPositiveBoxSize);
    }
    let mut people: Vec<Person> = Vec::new();
    let heading = generate_velocity(rng);
    people.push(Person::new(Vector::zero(), heading, true));
    let mut n: i32 = 0;
    while n < count
        invariant
            0 <= n <= count,
            box_size > 0,
            people@.len() == n + 1,
            is_patient_zero(people@[0]),
            forall|i: int| 1 <= i < people@.len() ==> is_newcomer(#[trigger] people@[i], box_size),
        decreases count - n,
    {
        let posx: i64 = sample_inclusive(rng, -box_size, box_size);
        let posy: i64 = sample_inclusive(rng, -box_size, box_size);
        let heading = generate_velocity(rng);
        people.push(Person::new(Vector::new(posx, posy), heading, false));
        n = n + 1;
    }
    Ok(people)
}

} // verus!
