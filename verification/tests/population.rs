use contagion::person::{count_infected, Person};
use contagion::population::{populate, ConfigError};
use contagion::timer::RepeatingTimer;
use contagion::units::{BOXSIZE, INFECT_PERIOD, PERSONCOUNT, UNIT};
use contagion::vector::Vector;

fn in_range(v: &Vector) -> bool {
    -UNIT <= v.x && v.x < UNIT && -UNIT <= v.y && v.y < UNIT
}

fn check_population(people: &[Person], count: usize, box_size: i64) {
    assert_eq!(people.len(), count + 1);
    assert!(people[0].infected);
    assert_eq!(people[0].position, Vector::zero());
    for (i, person) in people.iter().enumerate() {
        assert!(in_range(&person.direction));
        assert_eq!(person.infect_timer, RepeatingTimer::new(INFECT_PERIOD));
        if i > 0 {
            assert!(!person.infected);
            assert!(-box_size <= person.position.x && person.position.x <= box_size);
            assert!(-box_size <= person.position.y && person.position.y <= box_size);
        }
    }
}

#[test]
fn default_population_has_patient_zero_and_five_thousand_healthy() {
    let mut rng = rand::thread_rng();
    assert_eq!(PERSONCOUNT, 5000);
    let people = populate(PERSONCOUNT, BOXSIZE * UNIT, &mut rng).unwrap();
    check_population(&people, 5000, 720 * UNIT);
    assert_eq!(count_infected(&people), 1);
    // The scatter covers the whole range edge to edge, beyond the clamp bounds.
    assert!(people.iter().any(|p| p.position.x > 400 * UNIT));
    assert!(people.iter().any(|p| p.position.x < -400 * UNIT));
    assert!(people.iter().any(|p| p.position.y > 400 * UNIT));
    assert!(people.iter().any(|p| p.position.y < -400 * UNIT));
    assert!(people.iter().skip(1).any(|p| p.position != people[1].position));
}

#[test]
fn population_of_patient_zero_alone() {
    let mut rng = rand::thread_rng();
    let people = populate(0, 1, &mut rng).unwrap();
    check_population(&people, 0, 1);
}

#[test]
fn population_in_the_smallest_box() {
    let mut rng = rand::thread_rng();
    let people = populate(300, 1, &mut rng).unwrap();
    check_population(&people, 300, 1);
    for coordinate in [-1, 0, 1] {
        assert!(people.iter().skip(1).any(|p| p.position.x == coordinate));
        assert!(people.iter().skip(1).any(|p| p.position.y == coordinate));
    }
}

#[test]
fn population_in_the_largest_box() {
    let mut rng = rand::thread_rng();
    let people = populate(10, i64::MAX, &mut rng).unwrap();
    check_population(&people, 10, i64::MAX);
}

#[test]
fn negative_count_is_refused() {
    let mut rng = rand::thread_rng();
    assert_eq!(populate(-1, BOXSIZE * UNIT, &mut rng), Err(ConfigError::NegativeCount));
    assert_eq!(populate(i32::MIN, BOXSIZE * UNIT, &mut rng), Err(ConfigError::NegativeCount));
    // A negative count is reported before a bad box.
    assert_eq!(populate(-1, 0, &mut rng), Err(ConfigError::NegativeCount));
}

#[test]
fn box_that_is_not_positive_is_refused() {
    let mut rng = rand::thread_rng();
    assert_eq!(populate(10, 0, &mut rng), Err(ConfigError::NonPositiveBoxSize));
    assert_eq!(populate(10, -1, &mut rng), Err(ConfigError::NonPositiveBoxSize));
    assert_eq!(populate(0, i64::MIN, &mut rng), Err(ConfigError::NonPositiveBoxSize));
}
