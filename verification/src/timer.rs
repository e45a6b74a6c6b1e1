//! Countdown timers of the simulation, in integer milliseconds.
//!
//! A one-shot timer accumulates elapsed time up to its period and reports
//! expiry; machines reset it by hand.  A repeating timer rolls over on
//! expiry, rate-limiting held-button actions.

use vstd::prelude::*;

verus! {

/// Largest tick delta and period the timers accept, a machine limit.
pub const MAX_TIME_MS: u64 = 0x1_0000_0000;

/// Total simulated time over a sequence of tick deltas.
pub open spec fn sum_of(dts: Seq<u64>) -> int
    decreases dts.len(),
{
    if dts.len() == 0 {
        0
    } else {
        dts[0] + sum_of(dts.drop_first())
    }
}

#[derive(Clone, Copy, PartialEq, Eq, Structural, Debug)]
pub struct SimTimer {
    /// Milliseconds accumulated so far, capped at the period.
    pub elapsed_ms: u64,
    /// The timer expires once `elapsed_ms` reaches this.
    pub period_ms: u64,
}

pub open spec fn timer_wf(t: SimTimer) -> bool {
    &&& 1 <= t.period_ms <= MAX_TIME_MS
    &&& t.elapsed_ms <= t.period_ms
}

/// The elapsed count after a one-shot tick: advanced, capped at the period.
pub open spec fn spec_tick_elapsed(t: SimTimer, dt: u64) -> u64 {
    if t.elapsed_ms + dt >= t.period_ms {
        t.period_ms
    } else {
        (t.elapsed_ms + dt) as u64
    }
}

impl SimTimer {
    pub fn new(period_ms: u64) -> (t: SimTimer)
        requires
            1 <= period_ms <= MAX_TIME_MS,
        ensures
            t == (SimTimer { elapsed_ms: 0, period_ms }),
            timer_wf(t),
    {
        SimTimer { elapsed_ms: 0, period_ms }
    }

    /// One-shot advance: accumulates `dt`, saturating at the period, and
    /// reports whether the period has been reached.
    pub fn tick(&mut self, dt: u64) -> (finished: bool)
        requires
            timer_wf(*old(self)),
            dt <= MAX_TIME_MS,
        ensures
            timer_wf(*final(self)),
            final(self).period_ms == old(self).period_ms,
            final(self).elapsed_ms == spec_tick_elapsed(*old(self), dt),
            finished == (old(self).elapsed_ms + dt >= old(self).period_ms),
    {
        if dt >= self.period_ms - self.elapsed_ms {
            self.elapsed_ms = self.period_ms;
            true
        } else {
            self.elapsed_ms = self.elapsed_ms + dt;
            false
        }
    }

    /// Start the countdown over.
    pub fn reset(&mut self)
        ensures
            final(self).elapsed_ms == 0,
            final(self).period_ms == old(self).period_ms,
    {
        self.elapsed_ms = 0;
    }

    /// Repeating advance: on expiry the leftover time rolls over, so a held
    /// button fires once per period.
    pub fn tick_repeating(&mut self, dt: u64) -> (finished: bool)
        requires
            timer_wf(*old(self)),
            dt <= MAX_TIME_MS,
        ensures
            timer_wf(*final(self)),
            final(self).period_ms == old(self).period_ms,
            finished == (old(self).elapsed_ms + dt >= old(self).period_ms),
            final(self).elapsed_ms == (old(self).elapsed_ms + dt) as u64 % old(self).period_ms,
    {
        let total = self.elapsed_ms + dt;
        if total >= self.period_ms {
            self.elapsed_ms = total % self.period_ms;
            true
        } else {
            proof {
                assert(total as int % self.period_ms as int == total as int) by (nonlinear_arith)
                    requires 0 <= (total as int) < (self.period_ms as int);
            }
            self.elapsed_ms = total;
            false
        }
    }
}

} // verus!
