//! A timer that is told the time.

use vstd::prelude::*;

verus! {

/// Rings once `interval` milliseconds have passed since it was last reset.
/// The timer holds no clock: every question takes the current time.
#[derive(Clone, Copy, Debug, PartialEq, Eq, Structural)]
pub struct Timer {
    /// The time between a reset and the ringing, in milliseconds.
    pub interval: u64,
    /// The time from which on the timer rings.
    pub next_fire: u64,
}

/// `now + interval`, or the largest time there is where that is out of range.
pub open spec fn spec_fire_time(now: u64, interval: u64) -> u64 {
    if now + interval > u64::MAX {
        u64::MAX
    } else {
        (now + interval) as u64
    }
}

impl Timer {
    /// Whether the timer rings at the time `now`.
    pub open spec fn spec_ringing(self, now: u64) -> bool {
        now >= self.next_fire
    }

    /// A timer that rings `interval` milliseconds after `now`.
    pub fn new(interval: u64, now: u64) -> (timer: Self)
        ensures
            timer == (Timer { interval, next_fire: spec_fire_time(now, interval) }),
    {
        Timer { interval, next_fire: now.saturating_add(interval) }
    }

    /// Starts the interval anew at the time `now`.
    pub fn reset(&mut self, now: u64)
        ensures
            *final(self) == (Timer {
                interval: old(self).interval,
                next_fire: spec_fire_time(now, old(self).interval),
            }),
    {
        self.next_fire = now.saturating_add(self.interval);
    }

    /// Whether the interval has passed at the time `now`.
    pub fn ringing(&self, now: u64) -> (rings: bool)
        ensures
            rings == self.spec_ringing(now),
    {
        now >= self.next_fire
    }

    /// Makes the timer ring from now on, until it is reset.
    pub fn ring_manual(&mut self)
        ensures
            *final(self) == (Timer { interval: old(self).interval, next_fire: 0 }),
            forall|now: u64| final(self).spec_ringing(now),
    {
        self.next_fire = 0;
    }
}

} // verus!
