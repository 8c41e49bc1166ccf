//! The re-steer scheduler: one shared timer that, when it fires, has every
//! person draw a new velocity.

use vstd::prelude::*;
use rand::rngs::ThreadRng;
use crate::person::Person;
use crate::random::{generate_velocity, is_velocity};
use crate::timer::{fresh, lemma_ticked_in_period, ticked, RepeatingTimer};
use crate::units::RESTEER_PERIOD;

verus! {

/// The timer shared by the whole population.
#[derive(Clone, Copy, Debug, PartialEq, Eq)]
pub struct TimerRes {
    pub timer: RepeatingTimer,
}

/// Whether `after` is `before` with a velocity drawn anew: the velocity lies
/// in `[-1, 1)` world units on both axes and replaces the old one without
/// regard to it; nothing else differs.
pub open spec fn resteered(before: Person, after: Person) -> bool {
    &&& after.position == before.position
    &&& after.infected == before.infected
    &&& after.infect_timer == before.infect_timer
    &&& is_velocity(after.direction)
}

/// What one pass of the scheduler does to the population, given whether the
/// timer fired: all persons are re-steered, or none is touched.
pub open spec fn steering_outcome(before: Seq<Person>, after: Seq<Person>, fired: bool) -> bool {
    &&& after.len() == before.len()
    &&& fired ==> forall|i: int| 0 <= i < before.len() ==> resteered(before[i], #[trigger] after[i])
    &&& !fired ==> after == before
}

/// A pass of the scheduler keeps every velocity while the timer stays below
/// its period, and redraws every velocity when the tick reaches the period,
/// whether it spans one period or several.
pub proof fn lemma_resteer_edge(
    before: Seq<Person>,
    after: Seq<Person>,
    timer: RepeatingTimer,
    dt: u64,
)
    requires
        steering_outcome(before, after, ticked(timer, dt).finished),
    ensures
        timer.elapsed + dt < timer.duration ==> after == before,
        timer.elapsed + dt >= timer.duration ==> forall|i: int|
            0 <= i < before.len() ==> resteered(before[i], #[trigger] after[i]),
{
    lemma_ticked_in_period(timer, dt);
}

/// Creates the shared timer: repeating, with a period of two seconds.
pub fn setup() -> (timer_res: TimerRes)
    ensures
        timer_res.timer == fresh(RESTEER_PERIOD),
{
    TimerRes { timer: RepeatingTimer::new(RESTEER_PERIOD) }
}

/// Advances the shared timer by `dt` nanoseconds. Where that tick reaches
/// the end of a period, every person draws a new velocity, once, however many
/// periods the tick spans; otherwise the population stays as it is.
pub fn update_population_direction(
    people: &mut Vec<Person>,
    timer_res: &mut TimerRes,
    dt: u64,
    rng: &mut ThreadRng,
)
    ensures
        final(timer_res).timer == ticked(old(timer_res).timer, dt),
        steering_outcome(old(people)@, final(people)@, final(timer_res).timer.finished),
{
    timer_res.timer.tick(dt);
    let mut i: usize = 0;
    while i < people.len()
        invariant
            i <= people.len(),
            people@.len() == old(people)@.len(),
            timer_res.timer == ticked(old(timer_res).timer, dt),
            timer_res.timer.finished ==> forall|j: int|
                0 <= j < i ==> resteered(old(people)@[j], #[trigger] people@[j]),
            !timer_res.timer.finished ==> people@ == old(people)@,
            forall|j: int| i <= j < people@.len() ==> #[trigger] people@[j] == old(people)@[j],
        decreases people.len() - i,
    {
        if timer_res.timer.finished() {
            let mut person: Person = people[i];
            person.direction = generate_velocity(rng);
            people.set(i, person);
        }
        i = i + 1;
    }
}

} // verus!
