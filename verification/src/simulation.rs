//! The simulation context and its tick.

use vstd::prelude::*;
use rand::rngs::ThreadRng;
use crate::infection::{
    contacts_upto,
    infect,
    infection_outcome,
    infections_have_sources,
    lemma_infections_have_sources,
    lemma_one_sided_population_is_kept,
    person_outcome,
};
use crate::motion::{clamped_point, confined, define_space, in_space, move_population, moved};
use crate::person::{
    infected_count,
    infected_upto,
    lemma_infected_count_grows,
    nobody_recovered,
    Person,
};
use crate::player::{spawn_player, Player};
use crate::population::{is_population, populate, ConfigError};
use crate::random::is_velocity;
use crate::steering::{resteered, setup, update_population_direction, TimerRes};
use crate::timer::{fresh, lemma_ticked_in_period, ticked, RepeatingTimer};
use crate::units::RESTEER_PERIOD;
use crate::vector::Vector;

verus! {

/// Everything the simulation owns: the population, the shared re-steer timer
/// and the player.
#[derive(Clone, Debug)]
pub struct Simulation {
    pub people: Vec<Person>,
    pub timer_res: TimerRes,
    pub player: Player,
}

/// The population after every person has moved for `dt` nanoseconds.
pub open spec fn moved_all(people: Seq<Person>, dt: u64) -> Seq<Person> {
    Seq::new(people.len(), |i: int| moved(people[i], dt))
}

/// Whether every person stands in `after` where the motion of `dt`
/// nanoseconds, followed by the boundary clamp, takes it from `before`.
pub open spec fn positions_settled(before: Seq<Person>, after: Seq<Person>, dt: u64) -> bool {
    &&& after.len() == before.len()
    &&& forall|i: int|
        0 <= i < before.len() ==> (#[trigger] after[i]).position == clamped_point(
            moved(before[i], dt).position,
        )
}

/// Whether the velocities of `after` are those that a tick leaves: all drawn
/// anew if the re-steer timer fired, all kept if it did not.
pub open spec fn directions_settled(before: Seq<Person>, after: Seq<Person>, fired: bool) -> bool {
    &&& after.len() == before.len()
    &&& forall|i: int|
        0 <= i < before.len() ==> {
            &&& fired ==> is_velocity((#[trigger] after[i]).direction)
            &&& !fired ==> after[i].direction == before[i].direction
        }
}

/// Whether every person of the population is inside the box.
pub open spec fn all_in_space(people: Seq<Person>) -> bool {
    forall|i: int| 0 <= i < people.len() ==> in_space((#[trigger] people[i]).position)
}

impl Simulation {
    /// Creates the simulation: the shared timer, the player, and a population
    /// of patient zero and `count` healthy persons scattered within `box_size`
    /// sub-units of the origin. A negative count or a scatter range that is
    /// not positive is refused.
    pub fn new(count: i32, box_size: i64, rng: &mut ThreadRng) -> (result: Result<
        Simulation,
        ConfigError,
    >)
        ensures
            match result {
                Ok(simulation) => {
                    &&& count >= 0
                    &&& box_size > 0
                    &&& is_population(simulation.people@, count, box_size)
                    &&& simulation.timer_res.timer == fresh(RESTEER_PERIOD)
                    &&& !simulation.player.is_infected
                    &&& simulation.player.position == (Vector { x: 0, y: 0 })
                    &&& simulation.player.direction == (Vector { x: 0, y: 0 })
                },
                Err(ConfigError::NegativeCount) => count < 0,
                Err(ConfigError::NonPositiveBoxSize) => count >= 0 && box_size <= 0,
            },
    {
        let timer_res = setup();
        let player = spawn_player();
        match populate(count, box_size, rng) {
            Ok(people) => Ok(Simulation { people, timer_res, player }),
            Err(error) => Err(error),
        }
    }

    /// Advances the simulation by `dt` nanoseconds: every person moves, the
    /// re-steer timer is ticked and may redraw every velocity, the infection
    /// engine runs on the positions reached, and every person is confined to
    /// the box. The player is left alone.
    pub fn tick(&mut self, dt: u64, rng: &mut ThreadRng)
        ensures
            final(self).player == old(self).player,
            final(self).timer_res.timer == ticked(old(self).timer_res.timer, dt),
            positions_settled(old(self).people@, final(self).people@, dt),
            directions_settled(
                old(self).people@,
                final(self).people@,
                final(self).timer_res.timer.finished,
            ),
            infection_outcome(moved_all(old(self).people@, dt), final(self).people@, dt),
            infections_have_sources(moved_all(old(self).people@, dt), final(self).people@),
            nobody_recovered(old(self).people@, final(self).people@),
            infected_count(old(self).people@) <= infected_count(final(self).people@),
            all_in_space(final(self).people@),
    {
        let ghost start = self.people@;
        move_population(&mut self.people, dt);
        let ghost arrived = self.people@;
        update_population_direction(&mut self.people, &mut self.timer_res, dt, rng);
        let ghost steered = self.people@;
        infect(&mut self.people, dt, rng);
        let ghost exposed = self.people@;
        define_space(&mut self.people);
        proof {
            let settled = self.people@;
            let scene = moved_all(start, dt);
            let fired = self.timer_res.timer.finished;
            assert(arrived =~= scene);
            assert forall|i: int| 0 <= i < start.len() implies {
                &&& (#[trigger] settled[i]).position == clamped_point(moved(start[i], dt).position)
                &&& fired ==> is_velocity(settled[i].direction)
                &&& !fired ==> settled[i].direction == start[i].direction
                &&& person_outcome(scene, settled[i], i, dt)
                &&& start[i].infected ==> settled[i].infected
            } by {
                assert(arrived[i] == moved(start[i], dt));
                assert(fired ==> resteered(arrived[i], steered[i]));
                assert(person_outcome(steered, exposed[i], i, dt));
                assert(exposed[i].position == steered[i].position);
                assert(settled[i] == confined(exposed[i]));
                lemma_contacts_agree(steered, scene, i, start.len() as int);
            }
            lemma_infections_have_sources(scene, settled, dt);
            lemma_infected_count_grows(start, settled);
        }
    }
}

/// A tick keeps every velocity while the re-steer timer stays below its
/// period, and leaves every velocity drawn anew when the tick reaches the
/// period, whether it spans one period or several.
pub proof fn lemma_tick_resteers_on_the_edge(
    before: Seq<Person>,
    after: Seq<Person>,
    timer: RepeatingTimer,
    dt: u64,
)
    requires
        directions_settled(before, after, ticked(timer, dt).finished),
    ensures
        timer.elapsed + dt < timer.duration ==> forall|i: int|
            0 <= i < before.len() ==> (#[trigger] after[i]).direction == before[i].direction,
        timer.elapsed + dt >= timer.duration ==> forall|i: int|
            0 <= i < before.len() ==> is_velocity((#[trigger] after[i]).direction),
{
    lemma_ticked_in_period(timer, dt);
}

/// A tick of a population without an infected person, or without a healthy
/// one, changes no flag and no cooldown.
pub proof fn lemma_tick_keeps_one_sided_population(
    before: Seq<Person>,
    after: Seq<Person>,
    dt: u64,
)
    requires
        infection_outcome(moved_all(before, dt), after, dt),
        infected_count(before) == 0 || infected_count(before) == before.len(),
    ensures
        forall|i: int|
            0 <= i < before.len() ==> {
                &&& (#[trigger] after[i]).infected == before[i].infected
                &&& after[i].infect_timer == before[i].infect_timer
            },
{
    lemma_motion_keeps_the_count(before, dt, before.len() as int);
    lemma_one_sided_population_is_kept(moved_all(before, dt), after, dt);
}

/// Moving the population changes no flag: it holds as many infected persons
/// as before.
proof fn lemma_motion_keeps_the_count(people: Seq<Person>, dt: u64, n: int)
    requires
        n <= people.len(),
    ensures
        infected_upto(moved_all(people, dt), n) == infected_upto(people, n),
    decreases n,
{
    if n > 0 {
        lemma_motion_keeps_the_count(people, dt, n - 1);
    }
}

/// Two populations that agree on every position and every flag give every
/// person the same contacts.
pub proof fn lemma_contacts_agree(first: Seq<Person>, second: Seq<Person>, h: int, n: int)
    requires
        first.len() == second.len(),
        0 <= h < first.len(),
        n <= first.len(),
        forall|j: int|
            0 <= j < first.len() ==> {
                &&& (#[trigger] first[j]).infected == second[j].infected
                &&& first[j].position == second[j].position
            },
    ensures
        contacts_upto(first, h, n) == contacts_upto(second, h, n),
    decreases n,
{
    if n > 0 {
        lemma_contacts_agree(first, second, h, n - 1);
        assert(first[n - 1].infected == second[n - 1].infected);
        assert(first[h].position == second[h].position);
    }
}

} // verus!
