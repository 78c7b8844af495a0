//! The ARM generic timer: a periodic tick.
use vstd::prelude::*;

verus! {

/// The timer's interrupt.
pub const TIMER_IRQ: u32 = 30;

/// Ticks in a second.
pub const TICK_RATE_HZ: u64 = 100;

/// The tick, and what was counted of it.
#[derive(Clone, Copy, PartialEq, Eq, Structural, Debug)]
pub struct Timer {
    /// Counts in a second.
    pub freq: u64,
    /// Counts between two ticks.
    pub interval: u64,
    /// Ticks since the start.
    pub ticks: u64,
}

/// The value of the timer's control register.
pub fn control_value(enable: bool, mask: bool) -> (r: u64)
    ensures
        r == (if enable {
            1int
        } else {
            0
        }) + (if mask {
            2int
        } else {
            0
        }),
{
    let on: u64 = if enable {
        1
    } else {
        0
    };
    let masked: u64 = if mask {
        2
    } else {
        0
    };
    on + masked
}

/// A timer at `freq` counts in a second. The caller sets the timer to the interval,
/// enables it without masking it, and enables its interrupt.
pub fn init(freq: u64) -> (r: Timer)
    ensures
        r == (Timer { freq, interval: freq / TICK_RATE_HZ, ticks: 0 }),
{
    Timer { freq, interval: freq / TICK_RATE_HZ, ticks: 0 }
}

impl Timer {
    /// Counts a tick: how many there were, and the interval to set the timer to
    /// again.
    pub fn handle_tick(&mut self) -> (r: (u64, u64))
        requires
            old(self).ticks < u64::MAX,
        ensures
            *final(self) == (Timer { ticks: (old(self).ticks + 1) as u64, ..*old(self) }),
            r == (final(self).ticks, old(self).interval),
    {
        self.ticks = self.ticks + 1;
        (self.ticks, self.interval)
    }

    /// Ticks so far.
    pub fn tick_count(&self) -> (r: u64)
        ensures
            r == self.ticks,
    {
        self.ticks
    }

    /// Counts in a second.
    pub fn frequency(&self) -> (r: u64)
        ensures
            r == self.freq,
    {
        self.freq
    }
}

/// A second has room for the ticks that it should have.
pub proof fn law_ticks_fit_a_second(freq: u64)
    ensures
        freq / TICK_RATE_HZ * TICK_RATE_HZ <= freq < (freq / TICK_RATE_HZ + 1) * TICK_RATE_HZ,
{
}

} // verus!
