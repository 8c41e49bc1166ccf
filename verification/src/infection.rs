//! The proximity and infection engine.
//!
//! Every pair of an infected and a healthy person is tested for contact. Each
//! contact advances the healthy person's cooldown; each time the cooldown is
//! finished, a roll decides whether the person is infected. A healthy person
//! in contact with several infected ones is therefore ticked, and possibly
//! rolled, once for each of them within a single pass.

use vstd::prelude::*;
use rand::rngs::ThreadRng;
use crate::person::{
    infected_count,
    lemma_infected_count_extremes,
    lemma_infected_count_grows,
    nobody_recovered,
    Person,
};
use crate::random::draw_roll;
use crate::timer::{finished_among, lemma_unfinished_below_period, ticked, ticked_n};
use crate::units::ROLL_INFECTS;
use crate::vector::{in_contact, Vector};

verus! {

/// How many of the first `n` persons are infected and in contact with
/// person `h`.
pub open spec fn contacts_upto(people: Seq<Person>, h: int, n: int) -> nat
    decreases n,
{
    if n <= 0 {
        0
    } else {
        let source = people[n - 1];
        let adds: nat = if source.infected && in_contact(source.position, people[h].position) {
            1
        } else {
            0
        };
        contacts_upto(people, h, n - 1) + adds
    }
}

/// How many infected persons are in contact with person `h`.
pub open spec fn contacts(people: Seq<Person>, h: int) -> nat {
    contacts_upto(people, h, people.len() as int)
}

/// How many of the persons listed in `sources` are in contact with person `h`.
pub open spec fn contacts_among(people: Seq<Person>, h: int, sources: Seq<usize>) -> nat
    decreases sources.len(),
{
    if sources.len() == 0 {
        0
    } else {
        let source = people[sources.last() as int];
        let adds: nat = if in_contact(source.position, people[h].position) {
            1
        } else {
            0
        };
        contacts_among(people, h, sources.drop_last()) + adds
    }
}

/// Whether `i` is one of `indices`.
pub open spec fn listed(indices: Seq<usize>, i: int) -> bool {
    exists|k: int| 0 <= k < indices.len() && #[trigger] indices[k] == i
}

/// Whether `indices` lists, in increasing order, exactly the persons whose
/// infection flag is `infected`.
pub open spec fn is_view(people: Seq<Person>, indices: Seq<usize>, infected: bool) -> bool {
    &&& forall|k: int|
        0 <= k < indices.len() ==> {
            &&& (#[trigger] indices[k]) < people.len()
            &&& people[indices[k] as int].infected == infected
        }
    &&& forall|k: int, l: int|
        0 <= k < l < indices.len() ==> (#[trigger] indices[k]) < (#[trigger] indices[l])
    &&& forall|i: int|
        0 <= i < people.len() && (#[trigger] people[i]).infected == infected ==> listed(indices, i)
}

/// What a pass has done to the cooldown and the flag of a person that was
/// healthy before it, after `met` contacts: the cooldown was ticked once per
/// contact, and the person can only be infected if one of those ticks left
/// the cooldown finished.
pub open spec fn scanned(start: Person, now: Person, dt: u64, met: nat) -> bool {
    &&& now.infect_timer == ticked_n(start.infect_timer, dt, met)
    &&& now.infected ==> finished_among(start.infect_timer, dt, met) > 0
}

/// What a pass over the population does to person `i`. An infected person
/// stays infected and keeps its cooldown. A healthy person is ticked once for
/// every infected person in contact with it, and stays healthy unless one of
/// those ticks left its cooldown finished.
pub open spec fn person_outcome(before: Seq<Person>, now: Person, i: int, dt: u64) -> bool {
    if before[i].infected {
        now.infected && now.infect_timer == before[i].infect_timer
    } else {
        scanned(before[i], now, dt, contacts(before, i))
    }
}

/// What a pass does to the flags and cooldowns of the population. Contacts
/// are taken between the positions and flags of `before`: a person infected
/// during the pass infects nobody in it.
pub open spec fn infection_outcome(before: Seq<Person>, after: Seq<Person>, dt: u64) -> bool {
    &&& after.len() == before.len()
    &&& forall|i: int| 0 <= i < before.len() ==> person_outcome(before, #[trigger] after[i], i, dt)
}

/// Whether every person stands and heads in `after` as in `before`.
pub open spec fn whereabouts_kept(before: Seq<Person>, after: Seq<Person>) -> bool {
    &&& after.len() == before.len()
    &&& forall|i: int|
        0 <= i < before.len() ==> {
            &&& (#[trigger] after[i]).position == before[i].position
            &&& after[i].direction == before[i].direction
        }
}

/// Whether some infected person of `people` stands at a distance strictly
/// below the contact range from person `i`.
pub open spec fn has_source(people: Seq<Person>, i: int) -> bool {
    exists|j: int|
        0 <= j < people.len() && (#[trigger] people[j]).infected && in_contact(
            people[j].position,
            people[i].position,
        )
}

/// Whether every person that is healthy in `before` and infected in `after`
/// has an infected person of `before` within the contact range.
pub open spec fn infections_have_sources(before: Seq<Person>, after: Seq<Person>) -> bool {
    forall|i: int|
        0 <= i < before.len() && !before[i].infected && (#[trigger] after[i]).infected
            ==> has_source(before, i)
}

impl Person {
    /// Records one contact with an infected person: the cooldown advances by
    /// `dt` nanoseconds. An infection attempt is due if that leaves the
    /// cooldown finished.
    pub fn touch(&mut self, dt: u64) -> (due: bool)
        ensures
            final(self).infect_timer == ticked(old(self).infect_timer, dt),
            due == final(self).infect_timer.finished,
            final(self).position == old(self).position,
            final(self).direction == old(self).direction,
            final(self).infected == old(self).infected,
    {
        self.infect_timer.tick(dt);
        self.infect_timer.finished()
    }

    /// Settles one infection attempt: the person is infected if the roll is
    /// the infecting one, and otherwise stays as it is.
    pub fn settle(&mut self, roll: i64)
        ensures
            final(self).infected == (old(self).infected || roll == ROLL_INFECTS),
            final(self).position == old(self).position,
            final(self).direction == old(self).direction,
            final(self).infect_timer == old(self).infect_timer,
    {
        if roll == ROLL_INFECTS {
            self.infected = true;
        }
    }
}

/// Splits the population into two disjoint views: the indices of the infected
/// persons and those of the healthy ones, each in increasing order.
pub fn partition(people: &Vec<Person>) -> (views: (Vec<usize>, Vec<usize>))
    ensures
        is_view(people@, views.0@, true),
        is_view(people@, views.1@, false),
{
    let mut sick: Vec<usize> = Vec::new();
    let mut healthy: Vec<usize> = Vec::new();
    let mut i: usize = 0;
    while i < people.len()
        invariant
            i <= people.len(),
            is_view(people@.take(i as int), sick@, true),
            is_view(people@.take(i as int), healthy@, false),
        decreases people.len() - i,
    {
        let ghost seen = people@.take(i as int);
        let ghost next = people@.take(i + 1);
        let ghost sick_before = sick@;
        let ghost healthy_before = healthy@;
        if people[i].infected {
            sick.push(i);
        } else {
            healthy.push(i);
        }
        proof {
            assert forall|j: int| 0 <= j < i implies next[j] == seen[j] by {}
            lemma_view_extends(seen, next, sick_before, sick@, true);
            lemma_view_extends(seen, next, healthy_before, healthy@, false);
        }
        i = i + 1;
    }
    proof {
        assert(people@.take(people.len() as int) =~= people@);
    }
    (sick, healthy)
}

/// A view of a population stays one when a person is added at the end, if
/// that person's index is added to the view exactly when its flag asks for it.
proof fn lemma_view_extends(
    seen: Seq<Person>,
    next: Seq<Person>,
    indices: Seq<usize>,
    extended: Seq<usize>,
    infected: bool,
)
    requires
        is_view(seen, indices, infected),
        next.len() == seen.len() + 1,
        forall|j: int| 0 <= j < seen.len() ==> next[j] == seen[j],
        next.last().infected == infected ==> extended == indices.push(seen.len() as usize),
        next.last().infected != infected ==> extended == indices,
        seen.len() < usize::MAX,
    ensures
        is_view(next, extended, infected),
{
    assert forall|i: int|
        0 <= i < next.len() && (#[trigger] next[i]).infected == infected implies listed(
        extended,
        i,
    ) by {
        if i < seen.len() {
            assert(seen[i].infected == infected);
            assert(listed(indices, i));
            let k = choose|k: int| 0 <= k < indices.len() && #[trigger] indices[k] == i;
            assert(extended[k] == i);
        } else {
            assert(extended[extended.len() - 1] == i);
        }
    }
    assert forall|k: int| 0 <= k < extended.len() implies {
        &&& (#[trigger] extended[k]) < next.len()
        &&& next[extended[k] as int].infected == infected
    } by {
        if k < indices.len() {
            assert(extended[k] == indices[k]);
        }
    }
    assert forall|k: int, l: int| 0 <= k < l < extended.len() implies {
        (#[trigger] extended[k]) < (#[trigger] extended[l])
    } by {
        assert(extended[k] == indices[k]);
        if l < indices.len() {
            assert(extended[l] == indices[l]);
        }
    }
}

/// Where no person from `lo` up to `hi` is infected, none of them adds a
/// contact.
proof fn lemma_no_source_between(people: Seq<Person>, h: int, lo: int, hi: int)
    requires
        0 <= lo <= hi <= people.len(),
        forall|j: int| lo <= j < hi ==> !(#[trigger] people[j]).infected,
    ensures
        contacts_upto(people, h, hi) == contacts_upto(people, h, lo),
    decreases hi - lo,
{
    if lo < hi {
        assert(!people[hi - 1].infected);
        lemma_no_source_between(people, h, lo, hi - 1);
    }
}

/// The index at which the first `a` entries of a view end: the next entry,
/// or the size of the population after the last one.
spec fn view_bound(people: Seq<Person>, sick: Seq<usize>, a: int) -> int {
    if a < sick.len() {
        sick[a] as int
    } else {
        people.len() as int
    }
}

/// No infected person stands between two neighbouring entries of the view of
/// the infected, nor before the first or after the last.
proof fn lemma_gap_is_healthy(people: Seq<Person>, sick: Seq<usize>, a: int, j: int)
    requires
        is_view(people, sick, true),
        0 <= a <= sick.len(),
        0 <= j < view_bound(people, sick, a),
        a > 0 ==> sick[a - 1] < j,
    ensures
        !people[j].infected,
{
    if people[j].infected {
        assert(listed(sick, j));
        let k = choose|k: int| 0 <= k < sick.len() && #[trigger] sick[k] == j;
        if k < a {
            if k < a - 1 {
                assert(sick[k] < sick[a - 1]);
            }
        } else {
            if a < k {
                assert(sick[a] < sick[k]);
            }
        }
    }
}

/// Counting contacts along the first `a` entries of the view of the infected
/// gives the contacts among the persons before the next entry.
proof fn lemma_contacts_along_view(people: Seq<Person>, h: int, sick: Seq<usize>, a: int)
    requires
        is_view(people, sick, true),
        0 <= a <= sick.len(),
    ensures
        contacts_among(people, h, sick.take(a)) == contacts_upto(
            people,
            h,
            view_bound(people, sick, a),
        ),
    decreases a,
{
    let bound = view_bound(people, sick, a);
    if a == 0 {
        assert forall|j: int| 0 <= j < bound implies !(#[trigger] people[j]).infected by {
            lemma_gap_is_healthy(people, sick, a, j);
        }
        assert(sick.len() > 0 ==> sick[0] < people.len());
        lemma_no_source_between(people, h, 0, bound);
    } else {
        let source = sick[a - 1] as int;
        lemma_contacts_along_view(people, h, sick, a - 1);
        assert(sick.take(a).drop_last() =~= sick.take(a - 1));
        assert(sick.take(a).last() == sick[a - 1]);
        assert(people[source].infected);
        assert(a < sick.len() ==> sick[a - 1] < sick[a]);
        assert(a < sick.len() ==> sick[a] < people.len());
        assert forall|j: int| source + 1 <= j < bound implies !(#[trigger] people[j]).infected by {
            lemma_gap_is_healthy(people, sick, a, j);
        }
        lemma_no_source_between(people, h, source + 1, bound);
    }
}

/// Counting contacts along the whole view of the infected gives the number
/// of infected persons in contact.
proof fn lemma_contacts_of_view(people: Seq<Person>, h: int, sick: Seq<usize>)
    requires
        is_view(people, sick, true),
    ensures
        contacts_among(people, h, sick) == contacts(people, h),
{
    lemma_contacts_along_view(people, h, sick, sick.len() as int);
    assert(sick.take(sick.len() as int) =~= sick);
}

/// One more source adds one contact if it is in contact, and none otherwise.
proof fn lemma_contacts_among_step(people: Seq<Person>, h: int, sick: Seq<usize>, a: int)
    requires
        0 <= a < sick.len(),
    ensures
        in_contact(people[sick[a] as int].position, people[h].position) ==> contacts_among(
            people,
            h,
            sick.take(a + 1),
        ) == contacts_among(people, h, sick.take(a)) + 1,
        !in_contact(people[sick[a] as int].position, people[h].position) ==> contacts_among(
            people,
            h,
            sick.take(a + 1),
        ) == contacts_among(people, h, sick.take(a)),
{
    assert(sick.take(a + 1).drop_last() =~= sick.take(a));
    assert(sick.take(a + 1).last() == sick[a]);
}

/// A person with a contact among the first `n` persons has an infected
/// person among them within the contact range.
proof fn lemma_contact_found(people: Seq<Person>, h: int, n: int) -> (j: int)
    requires
        contacts_upto(people, h, n) > 0,
    ensures
        0 <= j < n,
        people[j].infected,
        in_contact(people[j].position, people[h].position),
    decreases n,
{
    if people[n - 1].infected && in_contact(people[n - 1].position, people[h].position) {
        n - 1
    } else {
        lemma_contact_found(people, h, n - 1)
    }
}

/// A person with a contact has an infected person within the contact range.
pub proof fn lemma_contact_has_source(people: Seq<Person>, h: int)
    requires
        contacts(people, h) > 0,
    ensures
        has_source(people, h),
{
    let j = lemma_contact_found(people, h, people.len() as int);
    assert(people[j].infected);
}

/// A pass infects only persons that have an infected person within the
/// contact range when it begins.
pub proof fn lemma_infections_have_sources(before: Seq<Person>, after: Seq<Person>, dt: u64)
    requires
        infection_outcome(before, after, dt),
    ensures
        infections_have_sources(before, after),
{
    assert forall|i: int|
        0 <= i < before.len() && !before[i].infected && (#[trigger] after[i]).infected implies {
        has_source(before, i)
    } by {
        assert(person_outcome(before, after[i], i, dt));
        lemma_contact_has_source(before, i);
    }
}

/// A person with no infected person within the contact range has no contact.
pub proof fn lemma_out_of_reach_no_contact(people: Seq<Person>, h: int, n: int)
    requires
        n <= people.len(),
        forall|j: int|
            0 <= j < n && (#[trigger] people[j]).infected
                ==> !in_contact(people[j].position, people[h].position),
    ensures
        contacts_upto(people, h, n) == 0,
    decreases n,
{
    if n > 0 {
        lemma_out_of_reach_no_contact(people, h, n - 1);
        assert(people[n - 1].infected ==> !in_contact(people[n - 1].position, people[h].position));
    }
}

/// A pass leaves a healthy person healthy, and its cooldown untouched, if no
/// infected person is within the contact range; a distance equal to the
/// range is out of reach.
pub proof fn lemma_out_of_reach_stays_healthy(
    before: Seq<Person>,
    after: Seq<Person>,
    i: int,
    dt: u64,
)
    requires
        infection_outcome(before, after, dt),
        0 <= i < before.len(),
        !before[i].infected,
        forall|j: int|
            0 <= j < before.len() && (#[trigger] before[j]).infected
                ==> !in_contact(before[j].position, before[i].position),
    ensures
        !after[i].infected,
        after[i].infect_timer == before[i].infect_timer,
{
    lemma_out_of_reach_no_contact(before, i, before.len() as int);
    assert(person_outcome(before, after[i], i, dt));
}

/// A pass leaves a healthy person healthy if its cooldown, advanced once for
/// each of its contacts, does not reach the period.
pub proof fn lemma_cooldown_gates_infection(
    before: Seq<Person>,
    after: Seq<Person>,
    i: int,
    dt: u64,
)
    requires
        infection_outcome(before, after, dt),
        0 <= i < before.len(),
        !before[i].infected,
        before[i].infect_timer.elapsed + contacts(before, i) * dt
            < before[i].infect_timer.duration,
    ensures
        !after[i].infected,
        after[i].infect_timer.elapsed == before[i].infect_timer.elapsed + contacts(before, i) * dt,
{
    lemma_unfinished_below_period(before[i].infect_timer, dt, contacts(before, i));
    assert(person_outcome(before, after[i], i, dt));
}

/// A pass over a population without an infected person, or without a healthy
/// one, changes no flag and no cooldown.
pub proof fn lemma_one_sided_population_is_kept(
    before: Seq<Person>,
    after: Seq<Person>,
    dt: u64,
)
    requires
        infection_outcome(before, after, dt),
        infected_count(before) == 0 || infected_count(before) == before.len(),
    ensures
        forall|i: int|
            0 <= i < before.len() ==> {
                &&& (#[trigger] after[i]).infected == before[i].infected
                &&& after[i].infect_timer == before[i].infect_timer
            },
{
    lemma_infected_count_extremes(before, before.len() as int);
    assert forall|i: int| 0 <= i < before.len() implies {
        &&& (#[trigger] after[i]).infected == before[i].infected
        &&& after[i].infect_timer == before[i].infect_timer
    } by {
        assert(person_outcome(before, after[i], i, dt));
        if !before[i].infected {
            lemma_out_of_reach_no_contact(before, i, before.len() as int);
        }
    }
}

/// Runs the infection engine once over the population, for a tick of `dt`
/// nanoseconds.
///
/// The infected and the healthy are taken as they are when the pass begins.
/// For every pair of an infected and a healthy person in contact, the
/// healthy person's cooldown advances by `dt`; if that leaves the cooldown
/// finished, a roll is drawn, and the person is infected if the roll is the
/// infecting one.
pub fn infect(people: &mut Vec<Person>, dt: u64, rng: &mut ThreadRng)
    ensures
        infection_outcome(old(people)@, final(people)@, dt),
        whereabouts_kept(old(people)@, final(people)@),
        infections_have_sources(old(people)@, final(people)@),
        nobody_recovered(old(people)@, final(people)@),
        infected_count(old(people)@) <= infected_count(final(people)@),
{
    let ghost before = people@;
    let views = partition(people);
    let sick = views.0;
    let healthy = views.1;
    let mut a: usize = 0;
    while a < sick.len()
        invariant
            a <= sick.len(),
            before == old(people)@,
            people@.len() == before.len(),
            is_view(before, sick@, true),
            is_view(before, healthy@, false),
            whereabouts_kept(before, people@),
            forall|i: int|
                0 <= i < before.len() && before[i].infected ==> #[trigger] people@[i] == before[i],
            forall|k: int|
                0 <= k < healthy@.len() ==> scanned(
                    before[(#[trigger] healthy@[k]) as int],
                    people@[healthy@[k] as int],
                    dt,
                    contacts_among(before, healthy@[k] as int, sick@.take(a as int)),
                ),
        decreases sick.len() - a,
    {
        let source: Vector = people[sick[a]].position;
        let mut b: usize = 0;
        while b < healthy.len()
            invariant
                a < sick.len(),
                b <= healthy.len(),
                people@.len() == before.len(),
                is_view(before, sick@, true),
                is_view(before, healthy@, false),
                source == before[sick@[a as int] as int].position,
                whereabouts_kept(before, people@),
                forall|i: int|
                    0 <= i < before.len() && before[i].infected ==> #[trigger] people@[i] == before[i],
                forall|k: int|
                    0 <= k < b ==> scanned(
                        before[(#[trigger] healthy@[k]) as int],
                        people@[healthy@[k] as int],
                        dt,
                        contacts_among(before, healthy@[k] as int, sick@.take(a + 1)),
                    ),
                forall|k: int|
                    b <= k < healthy@.len() ==> scanned(
                        before[(#[trigger] healthy@[k]) as int],
                        people@[healthy@[k] as int],
                        dt,
                        contacts_among(before, healthy@[k] as int, sick@.take(a as int)),
                    ),
            decreases healthy.len() - b,
        {
            let h: usize = healthy[b];
            let ghost earlier = people@;
            let ghost met = contacts_among(before, h as int, sick@.take(a as int));
            proof {
                assert(healthy@[b as int] == h);
                lemma_contacts_among_step(before, h as int, sick@, a as int);
            }
            let mut person: Person = people[h];
            if source.within_reach(&person.position) {
                let due = person.touch(dt);
                if due {
                    let roll = draw_roll(rng);
                    person.settle(roll);
                }
                people.set(h, person);
                proof {
                    let start = before[h as int].infect_timer;
                    assert(person.infect_timer == ticked_n(start, dt, met + 1));
                    assert(person.infected ==> finished_among(start, dt, met + 1) > 0);
                }
            }
            proof {
                assert forall|k: int| 0 <= k < healthy@.len() && k != b implies {
                    people@[(#[trigger] healthy@[k]) as int] == earlier[healthy@[k] as int]
                } by {
                    if k < b {
                        assert(healthy@[k] < healthy@[b as int]);
                    } else {
                        assert(healthy@[b as int] < healthy@[k]);
                    }
                }
            }
            b = b + 1;
        }
        a = a + 1;
    }
    proof {
        assert(sick@.take(sick@.len() as int) =~= sick@);
        assert forall|i: int| 0 <= i < before.len() implies {
            person_outcome(before, #[trigger] people@[i], i, dt)
        } by {
            if !before[i].infected {
                assert(listed(healthy@, i));
                let k = choose|k: int| 0 <= k < healthy@.len() && #[trigger] healthy@[k] == i;
                lemma_contacts_of_view(before, i, sick@);
            }
        }
        lemma_infections_have_sources(before, people@, dt);
        assert(nobody_recovered(before, people@)) by {
            assert forall|i: int| 0 <= i < before.len() && (#[trigger] before[i]).infected implies {
                people@[i].infected
            } by {
                assert(people@[i] == before[i]);
            }
        }
        lemma_infected_count_grows(before, people@);
    }
}

} // verus!
