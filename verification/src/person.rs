//! The persons of the population.

use vstd::prelude::*;
use crate::timer::{fresh, RepeatingTimer};
use crate::units::INFECT_PERIOD;
use crate::vector::Vector;

verus! {

/// One simulated person.
#[derive(Clone, Copy, Debug, PartialEq, Eq)]
pub struct Person {
    /// Where the person stands.
    pub position: Vector,
    /// The velocity as a fraction of the person speed: a component of `UNIT`
    /// is full speed along its axis.
    pub direction: Vector,
    /// Whether the person is infected. A person never recovers.
    pub infected: bool,
    /// Gates how often an infection may be attempted on this person.
    pub infect_timer: RepeatingTimer,
}

impl Person {
    /// A person at `position` heading in `direction`, with an infection
    /// cooldown that has not been ticked.
    pub fn new(position: Vector, direction: Vector, infected: bool) -> (person: Person)
        ensures
            person.position == position,
            person.direction == direction,
            person.infected == infected,
            person.infect_timer == fresh(INFECT_PERIOD),
    {
        Person { position, direction, infected, infect_timer: RepeatingTimer::new(INFECT_PERIOD) }
    }
}

/// How many of the first `n` persons are infected.
pub open spec fn infected_upto(people: Seq<Person>, n: int) -> nat
    decreases n,
{
    if n <= 0 {
        0
    } else {
        infected_upto(people, n - 1) + if people[n - 1].infected {
            1nat
        } else {
            0nat
        }
    }
}

/// How many persons are infected.
pub open spec fn infected_count(people: Seq<Person>) -> nat {
    infected_upto(people, people.len() as int)
}

/// Whether no person of `before` that is infected is healthy in `after`.
pub open spec fn nobody_recovered(before: Seq<Person>, after: Seq<Person>) -> bool {
    &&& before.len() == after.len()
    &&& forall|i: int| 0 <= i < before.len() && (#[trigger] before[i]).infected ==> after[i].infected
}

/// Whoever is infected stays infected over any number of steps in which
/// nobody recovers.
pub proof fn lemma_nobody_recovered_chains(
    first: Seq<Person>,
    second: Seq<Person>,
    third: Seq<Person>,
)
    requires
        nobody_recovered(first, second),
        nobody_recovered(second, third),
    ensures
        nobody_recovered(first, third),
{
    assert forall|i: int| 0 <= i < first.len() && (#[trigger] first[i]).infected implies {
        third[i].infected
    } by {
        assert(second[i].infected);
    }
}

/// Where none of the first `n` persons is counted as infected, none of them
/// is infected; where all of them are counted, all of them are.
pub proof fn lemma_infected_count_extremes(people: Seq<Person>, n: int)
    requires
        0 <= n <= people.len(),
    ensures
        infected_upto(people, n) <= n,
        infected_upto(people, n) == 0 ==> forall|i: int|
            0 <= i < n ==> !(#[trigger] people[i]).infected,
        infected_upto(people, n) == n ==> forall|i: int|
            0 <= i < n ==> (#[trigger] people[i]).infected,
    decreases n,
{
    if n > 0 {
        lemma_infected_count_extremes(people, n - 1);
    }
}

/// Counts the infected persons.
pub fn count_infected(people: &Vec<Person>) -> (count: usize)
    ensures
        count == infected_count(people@),
{
    let mut count: usize = 0;
    let mut i: usize = 0;
    while i < people.len()
        invariant
            i <= people.len(),
            count == infected_upto(people@, i as int),
            count <= i,
        decreases people.len() - i,
    {
        if people[i].infected {
            count = count + 1;
        }
        i = i + 1;
    }
    count
}

/// Where nobody recovers, the first `n` persons hold at least as many
/// infected ones afterwards as before.
pub proof fn lemma_infected_upto_grows(before: Seq<Person>, after: Seq<Person>, n: int)
    requires
        nobody_recovered(before, after),
        n <= before.len(),
    ensures
        infected_upto(before, n) <= infected_upto(after, n),
    decreases n,
{
    if n > 0 {
        lemma_infected_upto_grows(before, after, n - 1);
        assert(before[n - 1].infected ==> after[n - 1].infected);
    }
}

/// The number of infected persons never falls where nobody recovers.
pub proof fn lemma_infected_count_grows(before: Seq<Person>, after: Seq<Person>)
    requires
        nobody_recovered(before, after),
    ensures
        infected_count(before) <= infected_count(after),
{
    lemma_infected_upto_grows(before, after, before.len() as int);
}

} // verus!
