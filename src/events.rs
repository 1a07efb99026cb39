//! The timing rules of the event producer: how long to wait for a key,
//! and when a redraw tick is due.
use vstd::prelude::*;

verus! {

/// The producer's clock. Times are milliseconds since a fixed start.
pub struct TickClock {
    /// The interval between two ticks.
    pub rate_ms: u64,
    /// When the last tick went out.
    pub last_tick_ms: u64,
}

impl TickClock {
    /// The time since the last tick; a reading before it counts as none.
    pub open spec fn elapsed(&self, now_ms: u64) -> nat {
        if now_ms >= self.last_tick_ms {
            (now_ms - self.last_tick_ms) as nat
        } else {
            0
        }
    }

    /// A clock whose interval starts at `now_ms`.
    pub fn new(rate_ms: u64, now_ms: u64) -> (r: TickClock)
        ensures
            r.rate_ms == rate_ms,
            r.last_tick_ms == now_ms,
    {
        TickClock { rate_ms, last_tick_ms: now_ms }
    }

    /// How long to wait for a key before the next tick is due.
    pub fn poll_timeout(&self, now_ms: u64) -> (r: u64)
        ensures
            r == if self.elapsed(now_ms) >= self.rate_ms {
                0
            } else {
                (self.rate_ms - self.elapsed(now_ms)) as u64
            },
    {
        let elapsed: u64 = if now_ms >= self.last_tick_ms {
            now_ms - self.last_tick_ms
        } else {
            0
        };
        if elapsed >= self.rate_ms {
            0
        } else {
            self.rate_ms - elapsed
        }
    }

    /// Whether a tick is due: a whole interval has passed since the last.
    pub fn tick_due(&self, now_ms: u64) -> (r: bool)
        ensures
            r == (self.elapsed(now_ms) >= self.rate_ms),
    {
        let elapsed: u64 = if now_ms >= self.last_tick_ms {
            now_ms - self.last_tick_ms
        } else {
            0
        };
        elapsed >= self.rate_ms
    }

    /// Notes that a tick went out at `now_ms`.
    pub fn record_tick(&mut self, now_ms: u64)
        ensures
            final(self).rate_ms == old(self).rate_ms,
            final(self).last_tick_ms == now_ms,
    {
        self.last_tick_ms = now_ms;
    }
}

} // verus!
