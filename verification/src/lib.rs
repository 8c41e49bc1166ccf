//! A contagion simulation on a bounded square.
//!
//! A population of persons wanders inside a box. One of them starts out
//! infected; the infection spreads to healthy persons that stay close to an
//! infected one, gated by a per-person cooldown and a one-in-five roll.
//!
//! All lengths are whole numbers of sub-units ([`units::UNIT`] of them make one
//! world unit) and all times are whole nanoseconds, so that every rule of the
//! simulation is exact integer arithmetic.

pub mod units;
pub mod vector;
pub mod timer;
pub mod random;
pub mod person;
pub mod motion;
pub mod steering;
pub mod infection;
pub mod population;
pub mod player;
pub mod simulation;
