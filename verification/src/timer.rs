//! Repeating timers.
//!
//! The arithmetic of a tick is bevy's: [`RepeatingTimer`] holds, as plain
//! values, what one of bevy's repeating timers carries from one tick to the
//! next, and every tick is computed by such a timer.

use vstd::prelude::*;
use bevy::time::{Timer, TimerMode};
use std::time::Duration;

verus! {

/// What a running repeating timer shows: its period and the time elapsed in
/// the current period, both in nanoseconds, and whether the last tick reached
/// the end of a period.
#[derive(Clone, Copy, Debug, PartialEq, Eq)]
pub struct RepeatingTimer {
    /// The period in nanoseconds.
    pub duration: u64,
    /// Nanoseconds elapsed since the period began.
    pub elapsed: u64,
    /// Whether the last tick reached the end of a period. The flag is an
    /// edge: the next tick clears it unless it reaches the end of a period
    /// again.
    pub finished: bool,
}

/// A timer that has not been ticked yet.
pub open spec fn fresh(duration: u64) -> RepeatingTimer {
    RepeatingTimer { duration, elapsed: 0, finished: false }
}

/// The timer after one tick of `delta` nanoseconds.
///
/// The elapsed time grows by `delta`. Where it reaches the period, the timer
/// is finished and only what exceeds the whole periods is kept, however many
/// periods the tick spans. A timer with a period of zero is finished by every
/// tick and keeps nothing.
pub open spec fn ticked(timer: RepeatingTimer, delta: u64) -> RepeatingTimer {
    let total = timer.elapsed + delta;
    let period = timer.duration as int;
    if total < period {
        RepeatingTimer { duration: timer.duration, elapsed: total as u64, finished: false }
    } else if period == 0 {
        RepeatingTimer { duration: timer.duration, elapsed: 0, finished: true }
    } else {
        RepeatingTimer { duration: timer.duration, elapsed: (total % period) as u64, finished: true }
    }
}

/// The timer after `n` ticks of `delta` nanoseconds each.
pub open spec fn ticked_n(timer: RepeatingTimer, delta: u64, n: nat) -> RepeatingTimer
    decreases n,
{
    if n == 0 {
        timer
    } else {
        ticked(ticked_n(timer, delta, (n - 1) as nat), delta)
    }
}

/// How many of the first `n` ticks of `delta` nanoseconds leave the timer
/// finished.
pub open spec fn finished_among(timer: RepeatingTimer, delta: u64, n: nat) -> nat
    decreases n,
{
    if n == 0 {
        0
    } else {
        finished_among(timer, delta, (n - 1) as nat) + if ticked_n(timer, delta, n).finished {
            1nat
        } else {
            0nat
        }
    }
}

/// The timer after one tick for each of `deltas`, in order.
pub open spec fn ran(timer: RepeatingTimer, deltas: Seq<u64>) -> RepeatingTimer
    decreases deltas.len(),
{
    if deltas.len() == 0 {
        timer
    } else {
        ticked(ran(timer, deltas.drop_last()), deltas.last())
    }
}

/// How many of the ticks of `ran(timer, deltas)` left the timer finished.
pub open spec fn firings(timer: RepeatingTimer, deltas: Seq<u64>) -> nat
    decreases deltas.len(),
{
    if deltas.len() == 0 {
        0
    } else {
        firings(timer, deltas.drop_last()) + if ran(timer, deltas).finished {
            1nat
        } else {
            0nat
        }
    }
}

/// The sum of `deltas`.
pub open spec fn total_time(deltas: Seq<u64>) -> nat
    decreases deltas.len(),
{
    if deltas.len() == 0 {
        0
    } else {
        total_time(deltas.drop_last()) + deltas.last() as nat
    }
}

/// `Timer::new` of bevy, in repeating mode, read back as plain values
/// (`elapsed`, `finished`): a new timer has nothing elapsed and is not
/// finished.
#[verifier::external_body]
fn timer_new(duration: u64) -> (timer: RepeatingTimer)
    ensures
        timer == fresh(duration),
{
    let t = Timer::new(Duration::from_nanos(duration), TimerMode::Repeating);
    RepeatingTimer { duration, elapsed: t.elapsed().as_nanos() as u64, finished: t.finished() }
}

/// `Timer::tick` of bevy. The timer is built with `Timer::new`, in repeating
/// mode, and `Timer::set_elapsed` from the period and the elapsed time, ticked
/// once, and read back as plain values (`elapsed`, `finished`). The contract
/// restates what bevy computes for a running repeating timer: the elapsed
/// time plus `delta` is compared with the period and, where it has reached
/// it, reduced modulo it; with a period of zero nothing is kept. Whether the
/// timer was finished before the tick has no part in it.
#[verifier::external_body]
fn timer_tick(timer: RepeatingTimer, delta: u64) -> (next: RepeatingTimer)
    ensures
        next == ticked(timer, delta),
{
    let mut t = Timer::new(Duration::from_nanos(timer.duration), TimerMode::Repeating);
    t.set_elapsed(Duration::from_nanos(timer.elapsed));
    t.tick(Duration::from_nanos(delta));
    RepeatingTimer {
        duration: timer.duration,
        elapsed: t.elapsed().as_nanos() as u64,
        finished: t.finished(),
    }
}

impl RepeatingTimer {
    /// A timer of the given period, in nanoseconds, that has not been ticked.
    pub fn new(duration: u64) -> (timer: RepeatingTimer)
        ensures
            timer == fresh(duration),
    {
        timer_new(duration)
    }

    /// Advances the timer by `delta` nanoseconds.
    pub fn tick(&mut self, delta: u64)
        ensures
            *final(self) == ticked(*old(self), delta),
    {
        *self = timer_tick(*self, delta);
    }

    /// Whether the last tick reached the end of a period.
    pub fn finished(&self) -> (done: bool)
        ensures
            done == self.finished,
    {
        self.finished
    }
}

/// A tick keeps the period and leaves less than a period elapsed: the
/// elapsed time plus the tick, modulo the period. It leaves the timer
/// finished exactly when the elapsed time plus the tick reaches the period.
pub proof fn lemma_ticked_in_period(timer: RepeatingTimer, delta: u64)
    ensures
        ticked(timer, delta).duration == timer.duration,
        timer.duration > 0 ==> ticked(timer, delta).elapsed < timer.duration,
        timer.duration > 0 ==> {
            ticked(timer, delta).elapsed == (timer.elapsed + delta) % (timer.duration as int)
        },
        ticked(timer, delta).finished <==> timer.elapsed + delta >= timer.duration,
{
    if timer.duration > 0 {
        let total = timer.elapsed + delta;
        let d = timer.duration as int;
        assert(0 <= total % d < d) by (nonlinear_arith)
            requires
                d > 0,
                total >= 0,
        ;
        if total < d {
            assert(total % d == total) by (nonlinear_arith)
                requires
                    0 <= total < d,
            ;
        }
    }
}

/// Ticks that together stay below the period leave the timer unfinished, and
/// ticks that together span exactly one period finish it once, on the tick
/// that reaches the period.
pub proof fn lemma_run_within_period(timer: RepeatingTimer, deltas: Seq<u64>)
    requires
        timer.duration > 0,
        timer.elapsed + total_time(deltas) <= timer.duration,
    ensures
        ran(timer, deltas).duration == timer.duration,
        timer.elapsed + total_time(deltas) < timer.duration ==> {
            &&& firings(timer, deltas) == 0
            &&& ran(timer, deltas).elapsed == timer.elapsed + total_time(deltas)
        },
        timer.elapsed + total_time(deltas) == timer.duration && timer.elapsed < timer.duration ==> {
            &&& firings(timer, deltas) == 1
            &&& ran(timer, deltas).elapsed == 0
        },
    decreases deltas.len(),
{
    if deltas.len() > 0 {
        let earlier = deltas.drop_last();
        let d = timer.duration as int;
        lemma_run_within_period(timer, earlier);
        let reached = ran(timer, earlier);
        if timer.elapsed + total_time(deltas) == timer.duration && timer.elapsed < timer.duration {
            if timer.elapsed + total_time(earlier) < timer.duration {
                assert(reached.elapsed + deltas.last() == d);
                assert(d % d == 0) by (nonlinear_arith)
                    requires
                        d > 0,
                ;
            }
        }
    }
}

/// From a timer with nothing elapsed, ticks that together span exactly one
/// period finish the timer exactly once.
pub proof fn lemma_one_period_fires_once(timer: RepeatingTimer, deltas: Seq<u64>)
    requires
        timer.duration > 0,
        timer.elapsed == 0,
        total_time(deltas) == timer.duration,
    ensures
        firings(timer, deltas) == 1,
        ran(timer, deltas).elapsed == 0,
{
    lemma_run_within_period(timer, deltas);
}

/// While the elapsed time and `n` ticks of `delta` together stay below the
/// period, none of those ticks leaves the timer finished.
pub proof fn lemma_unfinished_below_period(timer: RepeatingTimer, delta: u64, n: nat)
    requires
        timer.elapsed + n * delta < timer.duration,
    ensures
        finished_among(timer, delta, n) == 0,
        ticked_n(timer, delta, n).elapsed == timer.elapsed + n * delta,
        ticked_n(timer, delta, n).duration == timer.duration,
    decreases n,
{
    if n > 0 {
        assert((n - 1) * delta + delta == n * delta) by (nonlinear_arith);
        lemma_unfinished_below_period(timer, delta, (n - 1) as nat);
    } else {
        assert(n * delta == 0) by (nonlinear_arith)
            requires
                n == 0,
        ;
    }
}

} // verus!
