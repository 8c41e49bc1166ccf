use contagion::person::{count_infected, Person};
use contagion::player::spawn_player;
use contagion::population::ConfigError;
use contagion::simulation::Simulation;
use contagion::steering::setup;
use contagion::timer::RepeatingTimer;
use contagion::units::{BOXSIZE, INFECT_PERIOD, PERSONSIZE, SPACE_MAX, SPACE_MIN, UNIT};
use contagion::vector::Vector;

const MILLIS: u64 = 1_000_000;

fn world(people: Vec<Person>) -> Simulation {
    Simulation { people, timer_res: setup(), player: spawn_player() }
}

fn inside(person: &Person) -> bool {
    SPACE_MIN <= person.position.x
        && person.position.x <= SPACE_MAX
        && SPACE_MIN <= person.position.y
        && person.position.y <= SPACE_MAX
}

#[test]
fn new_simulation_holds_timer_player_and_population() {
    let mut rng = rand::thread_rng();
    let simulation = Simulation::new(25, BOXSIZE * UNIT, &mut rng).unwrap();
    assert_eq!(simulation.people.len(), 26);
    assert_eq!(count_infected(&simulation.people), 1);
    assert!(simulation.people[0].infected);
    assert_eq!(simulation.timer_res, setup());
    assert_eq!(simulation.player, spawn_player());
}

#[test]
fn new_simulation_refuses_a_bad_configuration() {
    let mut rng = rand::thread_rng();
    assert!(matches!(Simulation::new(-5, BOXSIZE * UNIT, &mut rng), Err(ConfigError::NegativeCount)));
    assert!(matches!(Simulation::new(5, 0, &mut rng), Err(ConfigError::NonPositiveBoxSize)));
    assert!(matches!(Simulation::new(-5, -5, &mut rng), Err(ConfigError::NegativeCount)));
}

#[test]
fn tick_moves_then_clamps() {
    let mut rng = rand::thread_rng();
    let mut simulation = world(vec![
        Person::new(Vector::new(0, 0), Vector::new(UNIT, -UNIT / 2), false),
        Person::new(Vector::new(350 * UNIT, -360 * UNIT), Vector::new(UNIT, -UNIT), false),
    ]);
    simulation.tick(200 * MILLIS, &mut rng);
    // 50 * 0.2 = 10 world units at full speed.
    assert_eq!(simulation.people[0].position, Vector::new(10 * UNIT, -5 * UNIT));
    assert_eq!(simulation.people[1].position, Vector::new(355 * UNIT, -365 * UNIT));
    // The timer has not fired: the velocities are kept, also at the wall.
    assert_eq!(simulation.people[0].direction, Vector::new(UNIT, -UNIT / 2));
    assert_eq!(simulation.people[1].direction, Vector::new(UNIT, -UNIT));
    assert_eq!(simulation.timer_res.timer.elapsed, 200 * MILLIS);
    assert_eq!(simulation.player, spawn_player());
}

#[test]
fn tick_tests_contact_where_the_motion_leads() {
    let mut rng = rand::thread_rng();
    // The two start 30 world units apart and close in by 20 in one tick: the
    // contact at 10 world units is not one, so the cooldown is not ticked.
    let mut simulation = world(vec![
        Person::new(Vector::new(-15 * UNIT, 0), Vector::new(UNIT, 0), true),
        Person::new(Vector::new(15 * UNIT, 0), Vector::new(-UNIT, 0), false),
    ]);
    simulation.tick(200 * MILLIS, &mut rng);
    assert_eq!(simulation.people[0].position, Vector::new(-5 * UNIT, 0));
    assert_eq!(simulation.people[1].position, Vector::new(5 * UNIT, 0));
    assert_eq!(simulation.people[1].infect_timer, RepeatingTimer::new(INFECT_PERIOD));
    assert!(!simulation.people[1].infected);
    // The next tick brings them within reach before the infection engine
    // runs: the cooldown advances by the tick.
    simulation.tick(10 * MILLIS, &mut rng);
    assert_eq!(simulation.people[0].position, Vector::new(-4_500_000, 0));
    assert_eq!(simulation.people[1].position, Vector::new(4_500_000, 0));
    assert_eq!(simulation.people[1].infect_timer.elapsed, 10 * MILLIS);
    assert!(!simulation.people[1].infected);
}

#[test]
fn tick_tests_contact_before_the_clamp() {
    let mut rng = rand::thread_rng();
    // Both are outside the box, 20 world units apart. The clamp brings them
    // to the same wall position, but the infection engine has run before it.
    let mut simulation = world(vec![
        Person::new(Vector::new(400 * UNIT, 0), Vector::zero(), true),
        Person::new(Vector::new(420 * UNIT, 0), Vector::zero(), false),
    ]);
    simulation.tick(200 * MILLIS, &mut rng);
    assert_eq!(simulation.people[0].position, Vector::new(355 * UNIT, 0));
    assert_eq!(simulation.people[1].position, Vector::new(355 * UNIT, 0));
    assert_eq!(simulation.people[1].infect_timer, RepeatingTimer::new(INFECT_PERIOD));
    assert!(!simulation.people[1].infected);
    // From now on they stand together.
    simulation.tick(50 * MILLIS, &mut rng);
    assert_eq!(simulation.people[1].infect_timer.elapsed, 50 * MILLIS);
}

#[test]
fn tick_redraws_velocities_after_the_motion() {
    let mut rng = rand::thread_rng();
    let mut simulation = world(vec![Person::new(Vector::new(0, 0), Vector::new(5 * UNIT, 0), false)]);
    simulation.tick(2_000 * MILLIS, &mut rng);
    // The motion used the old velocity: 5 * 50 * 2 = 500 world units, clamped.
    assert_eq!(simulation.people[0].position, Vector::new(355 * UNIT, 0));
    assert!(simulation.timer_res.timer.finished());
    let direction = simulation.people[0].direction;
    assert!(-UNIT <= direction.x && direction.x < UNIT);
    assert!(-UNIT <= direction.y && direction.y < UNIT);
}

#[test]
fn without_infected_persons_flags_stay() {
    let mut rng = rand::thread_rng();
    let mut people = Vec::new();
    for i in 0..40 {
        people.push(Person::new(
            Vector::new((i % 7) * UNIT, (i % 5) * UNIT),
            Vector::new((i - 20) * 40_000, (20 - i) * 30_000),
            false,
        ));
    }
    let mut simulation = world(people);
    for _ in 0..300 {
        simulation.tick(100 * MILLIS, &mut rng);
        assert!(simulation.people.iter().all(|p| !p.infected));
        assert!(simulation.people.iter().all(|p| p.infect_timer == RepeatingTimer::new(INFECT_PERIOD)));
    }
    assert_eq!(count_infected(&simulation.people), 0);
}

#[test]
fn distant_pair_through_ticks() {
    let mut rng = rand::thread_rng();
    let mut simulation = world(vec![
        Person::new(Vector::new(0, 0), Vector::zero(), true),
        Person::new(Vector::new((PERSONSIZE + 1) * UNIT, 0), Vector::zero(), false),
    ]);
    // At rest until the timer fires for the first time.
    for _ in 0..9 {
        simulation.tick(200 * MILLIS, &mut rng);
        assert!(!simulation.people[1].infected);
        assert_eq!(simulation.people[1].infect_timer, RepeatingTimer::new(INFECT_PERIOD));
    }
    assert_eq!(count_infected(&simulation.people), 1);
}

#[test]
fn infected_count_is_monotonic_and_everybody_stays_inside() {
    let mut rng = rand::thread_rng();
    // A crowd that starts within the contact range of patient zero.
    let mut simulation = Simulation::new(400, 5 * UNIT, &mut rng).unwrap();
    let mut last = count_infected(&simulation.people);
    assert_eq!(last, 1);
    for _ in 0..600 {
        let flags: Vec<bool> = simulation.people.iter().map(|p| p.infected).collect();
        simulation.tick(50 * MILLIS, &mut rng);
        let now = count_infected(&simulation.people);
        assert!(now >= last);
        last = now;
        assert_eq!(simulation.people.len(), 401);
        for (person, was) in simulation.people.iter().zip(flags.iter()) {
            assert!(inside(person));
            assert!(person.infected || !*was);
        }
    }
    // Hundreds of persons spent their first fifth of a second next to patient
    // zero: the infection has spread.
    assert!(last > 1);
    assert_eq!(simulation.player, spawn_player());
}

#[test]
fn first_tick_pulls_the_scatter_inside() {
    let mut rng = rand::thread_rng();
    let mut simulation = Simulation::new(2_000, BOXSIZE * UNIT, &mut rng).unwrap();
    assert!(simulation.people.iter().any(|p| !inside(p)));
    simulation.tick(0, &mut rng);
    assert!(simulation.people.iter().all(inside));
}

#[test]
fn tick_of_an_empty_world() {
    let mut rng = rand::thread_rng();
    let mut simulation = world(Vec::new());
    simulation.tick(2_500 * MILLIS, &mut rng);
    assert!(simulation.people.is_empty());
    assert_eq!(simulation.timer_res.timer.elapsed, 500 * MILLIS);
}

#[test]
fn tick_takes_the_longest_step() {
    let mut rng = rand::thread_rng();
    let mut simulation = world(vec![
        Person::new(Vector::new(0, 0), Vector::new(UNIT - 1, -UNIT), true),
        Person::new(Vector::new(i64::MAX, i64::MIN), Vector::new(i64::MAX, i64::MIN), false),
    ]);
    simulation.tick(u64::MAX, &mut rng);
    assert!(simulation.people.iter().all(inside));
    assert!(simulation.people[0].infected);
}
