//! The invulnerability window: after taking damage the player stops
//! colliding with the damaging category for a fixed time. Installing the
//! window clears the relevant bits of the entity's collision filter mask;
//! when the timer elapses the bits are restored and the window is removed.
//! The timer is pausable and must not advance while the game is paused.

use vstd::prelude::*;

verus! {

/// An active invulnerability window: the filter bits it masked out, the
/// time it still has to run, and whether it is currently paused.
pub struct Invulnerable {
    filters: u32,
    remaining: u64,
    paused: bool,
}

/// Remaining duration after one tick of `delta` elapsed time: a paused
/// window does not advance and does not lose progress; a running one
/// counts down, saturating at zero.
pub open spec fn spec_remaining_after(paused: bool, remaining: u64, delta: u64) -> u64 {
    if paused {
        remaining
    } else if remaining >= delta {
        (remaining - delta) as u64
    } else {
        0u64
    }
}

impl Invulnerable {
    pub closed spec fn spec_filters(self) -> u32 {
        self.filters
    }

    pub closed spec fn spec_remaining(self) -> u64 {
        self.remaining
    }

    pub closed spec fn spec_paused(self) -> bool {
        self.paused
    }

    /// A fresh window over the given collision-filter bits, running.
    pub fn new(duration: u64, filters: u32) -> (inv: Invulnerable)
        ensures
            inv.spec_filters() == filters,
            inv.spec_remaining() == duration,
            !inv.spec_paused(),
    {
        Invulnerable { filters, remaining: duration, paused: false }
    }

    /// Pauses or resumes the countdown; elapsed progress is kept either way.
    pub fn pause(&mut self, pause: bool)
        ensures
            final(self).spec_paused() == pause,
            final(self).spec_filters() == old(self).spec_filters(),
            final(self).spec_remaining() == old(self).spec_remaining(),
    {
        self.paused = pause;
    }

    pub fn is_paused(&self) -> (r: bool)
        ensures
            r == self.spec_paused(),
    {
        self.paused
    }

    pub fn remaining(&self) -> (r: u64)
        ensures
            r == self.spec_remaining(),
    {
        self.remaining
    }

    /// Installs the window on an entity: clears the masked filter bits so
    /// the damaging category stops generating contacts.
    pub fn install(&self, mask: &mut u32)
        ensures
            *final(mask) == (*old(mask) & !self.spec_filters()),
    {
        *mask = *mask & !self.filters;
    }

    /// One tick of the window. While paused nothing moves. Otherwise the
    /// countdown advances; the tick on which it reaches zero reports
    /// completion once and restores the masked filter bits, and the caller
    /// then removes the window.
    pub fn tick(&mut self, delta: u64, mask: &mut u32) -> (finished: bool)
        ensures
            final(self).spec_filters() == old(self).spec_filters(),
            final(self).spec_paused() == old(self).spec_paused(),
            final(self).spec_remaining() == spec_remaining_after(
                old(self).spec_paused(),
                old(self).spec_remaining(),
                delta,
            ),
            finished == (!old(self).spec_paused() && old(self).spec_remaining() > 0
                && final(self).spec_remaining() == 0),
            *final(mask) == if finished {
                *old(mask) | old(self).spec_filters()
            } else {
                *old(mask)
            },
    {
        if self.paused {
            return false;
        }
        let before = self.remaining;
        self.remaining = if self.remaining >= delta {
            self.remaining - delta
        } else {
            0
        };
        if before > 0 && self.remaining == 0 {
            *mask = *mask | self.filters;
            true
        } else {
            false
        }
    }
}

/// Pauses or resumes every active invulnerability window at once, as the
/// pause and popup states must.
pub fn pause_all(windows: Vec<Invulnerable>, pause: bool) -> (out: Vec<Invulnerable>)
    ensures
        out@.len() == windows@.len(),
        forall|i: int|
            0 <= i < out@.len() ==> {
                &&& (#[trigger] out@[i]).spec_paused() == pause
                &&& out@[i].spec_filters() == windows@[i].spec_filters()
                &&& out@[i].spec_remaining() == windows@[i].spec_remaining()
            },
{
    let ghost orig = windows@;
    let mut rest = windows;
    let mut out: Vec<Invulnerable> = Vec::new();
    while rest.len() > 0
        invariant
            out@.len() + rest@.len() == orig.len(),
            rest@ =~= orig.subrange(out@.len() as int, orig.len() as int),
            forall|i: int|
                0 <= i < out@.len() ==> {
                    &&& (#[trigger] out@[i]).spec_paused() == pause
                    &&& out@[i].spec_filters() == orig[i].spec_filters()
                    &&& out@[i].spec_remaining() == orig[i].spec_remaining()
                },
        decreases rest@.len(),
    {
        proof {
            assert(rest@[0] == orig[out@.len() as int]);
        }
        let mut w = rest.remove(0);
        w.pause(pause);
        out.push(w);
    }
    out
}

/// Law: pausing an active window freezes it — however much time passes
/// while paused, the remaining duration does not shrink — and unpausing
/// resumes the countdown exactly where it left off, as if the pause had
/// never happened.
pub proof fn lemma_invulnerability_pause(remaining: u64, held: u64, delta: u64)
    ensures
        spec_remaining_after(true, remaining, held) == remaining,
        spec_remaining_after(false, spec_remaining_after(true, remaining, held), delta)
            == spec_remaining_after(false, remaining, delta),
{
}

} // verus!
