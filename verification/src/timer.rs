//! Cooperative countdown timers, advanced once per tick by the elapsed
//! simulation time. There is no blocking: cancelling a timer is dropping
//! it before it elapses.

use vstd::prelude::*;

verus! {

/// A one-shot countdown from a fixed duration, in simulation time units.
#[derive(Clone, Copy, PartialEq, Eq, Structural, Debug)]
pub struct Countdown {
    pub duration: u64,
    pub elapsed: u64,
}

/// The countdown after advancing by `delta`: elapsed time accumulates and
/// saturates at the duration.
pub open spec fn spec_advance(c: Countdown, delta: u64) -> Countdown {
    if c.elapsed + delta >= c.duration {
        Countdown { duration: c.duration, elapsed: c.duration }
    } else {
        Countdown { duration: c.duration, elapsed: (c.elapsed + delta) as u64 }
    }
}

impl Countdown {
    pub open spec fn finished(self) -> bool {
        self.elapsed >= self.duration
    }

    pub fn new(duration: u64) -> (c: Countdown)
        ensures
            c.duration == duration,
            c.elapsed == 0,
    {
        Countdown { duration, elapsed: 0 }
    }

    /// Advances the countdown by one tick's elapsed time; true exactly when
    /// this tick completes it, so completion fires once.
    pub fn tick(&mut self, delta: u64) -> (just_finished: bool)
        ensures
            *final(self) == spec_advance(*old(self), delta),
            just_finished == (!old(self).finished() && final(self).finished()),
    {
        let was_finished = self.elapsed >= self.duration;
        if delta >= self.duration || self.elapsed >= self.duration - delta {
            self.elapsed = self.duration;
        } else {
            self.elapsed = self.elapsed + delta;
        }
        !was_finished && self.elapsed >= self.duration
    }

    pub fn is_finished(&self) -> (r: bool)
        ensures
            r == self.finished(),
    {
        self.elapsed >= self.duration
    }

    /// Progress in thousandths, for the host's visual interpolation.
    pub fn progress_permille(&self) -> (p: u64)
        requires
            0 < self.duration < 0x1_0000_0000_0000,
            self.elapsed <= self.duration,
        ensures
            p == self.elapsed as int * 1000 / self.duration as int,
    {
        proof {
            assert(self.elapsed as int * 1000 <= u64::MAX) by (nonlinear_arith)
                requires
                    self.elapsed < 0x1_0000_0000_0000,
            ;
            assert((self.elapsed as int) * 1000 / (self.duration as int) <= u64::MAX) by (
            nonlinear_arith)
                requires
                    0 < self.duration,
                    0 <= self.elapsed as int * 1000 <= u64::MAX,
            ;
        }
        (self.elapsed * 1000) / self.duration
    }
}

/// A temporary entity's remaining lifetime: the host despawns the entity
/// the tick its countdown completes.
#[derive(Clone, Copy, PartialEq, Eq, Structural, Debug)]
pub struct Temporary {
    timer: Countdown,
}

impl Temporary {
    pub closed spec fn spec_timer(self) -> Countdown {
        self.timer
    }

    pub fn new(duration: u64) -> (t: Temporary)
        ensures
            t.spec_timer().duration == duration,
            t.spec_timer().elapsed == 0,
    {
        Temporary { timer: Countdown::new(duration) }
    }

    /// Advances the lifetime; true exactly once, the tick it runs out.
    pub fn tick(&mut self, delta: u64) -> (expired: bool)
        ensures
            final(self).spec_timer() == spec_advance(old(self).spec_timer(), delta),
            expired == (!old(self).spec_timer().finished()
                && final(self).spec_timer().finished()),
    {
        self.timer.tick(delta)
    }
}

} // verus!
