//! The client's logical clock.

use vstd::prelude::*;

verus! {

/// What a `ClientTickManager` holds, as mathematics.
pub struct TickView {
    /// The length of a tick in milliseconds.
    pub tick_interval: u64,
    /// The current tick. It wraps around at 16 bits.
    pub tick: u16,
    /// The time at which the current tick began.
    pub last_boundary: u64,
}

impl TickView {
    /// How many tick boundaries lie between the start of the current tick
    /// and the time `now`.
    pub open spec fn ticks_due(self, now: u64) -> nat {
        if self.tick_interval == 0 || now < self.last_boundary {
            0
        } else {
            ((now - self.last_boundary) / (self.tick_interval as int)) as nat
        }
    }

    /// The clock at the time `now`: the tick has moved on by one for each
    /// boundary passed.
    pub open spec fn update_frame(self, now: u64) -> Self {
        TickView {
            tick_interval: self.tick_interval,
            tick: ((self.tick + self.ticks_due(now)) % 0x1_0000) as u16,
            last_boundary: (self.last_boundary + self.ticks_due(now) * self.tick_interval) as u64,
        }
    }
}

/// Counts ticks of a fixed length, and can be set to the server's count.
pub struct ClientTickManager {
    tick_interval: u64,
    current_tick: u16,
    last_boundary: u64,
}

impl View for ClientTickManager {
    type V = TickView;

    closed spec fn view(&self) -> TickView {
        TickView {
            tick_interval: self.tick_interval,
            tick: self.current_tick,
            last_boundary: self.last_boundary,
        }
    }
}

impl ClientTickManager {
    /// A clock at tick zero whose first tick begins at the time `now`.
    pub fn new(tick_interval: u64, now: u64) -> (manager: Self)
        ensures
            manager@ == (TickView { tick_interval, tick: 0, last_boundary: now }),
    {
        ClientTickManager { tick_interval, current_tick: 0, last_boundary: now }
    }

    /// Moves the tick on by the number of tick boundaries passed up to the
    /// time `now`.
    pub fn update_frame(&mut self, now: u64)
        ensures
            final(self)@ == old(self)@.update_frame(now),
    {
        if self.tick_interval == 0 || now < self.last_boundary {
            return ;
        }
        let due: u64 = (now - self.last_boundary) / self.tick_interval;
        assert(due * self.tick_interval <= now - self.last_boundary) by (nonlinear_arith)
            requires
                due == (now - self.last_boundary) / (self.tick_interval as int),
                self.tick_interval > 0,
                now >= self.last_boundary,
        ;
        self.last_boundary = self.last_boundary + due * self.tick_interval;
        let steps: u16 = (due % 0x1_0000) as u16;
        assert((self.current_tick + due) % 0x1_0000 == (self.current_tick + steps) % 0x1_0000)
            by (nonlinear_arith)
            requires
                steps == due % 0x1_0000,
        ;
        self.current_tick = self.current_tick.wrapping_add(steps);
    }

    /// Sets the tick to the server's.
    pub fn set_tick(&mut self, tick: u16)
        ensures
            final(self)@ == (TickView { tick, ..old(self)@ }),
    {
        self.current_tick = tick;
    }

    /// The current tick.
    pub fn get_tick(&self) -> (tick: u16)
        ensures
            tick == self@.tick,
    {
        self.current_tick
    }
}

} // verus!
