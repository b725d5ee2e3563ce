//! The rhythm of the monitor: when to look at the foreground, when to
//! flush.
//!
//! The monitor looks at the foreground every half second and flushes once
//! five seconds have passed since the flush before. The loop itself, with
//! its clock and its sleep, is the caller's; the decision is made here.

use vstd::prelude::*;

verus! {

/// Milliseconds between two looks at the foreground.
pub const POLL_PERIOD_MILLIS: u64 = 500;

/// Milliseconds that pass before the next flush is due.
pub const FLUSH_PERIOD_MILLIS: u64 = 5000;

/// A flush is due once the period has passed since the last one. A clock
/// that has gone back behind the last flush makes none due.
pub open spec fn flush_due(last_flush: u64, now: u64) -> bool {
    now - last_flush >= FLUSH_PERIOD_MILLIS
}

/// When the monitor last flushed, in milliseconds since the epoch.
#[derive(Clone, Copy, Debug, PartialEq, Eq, Structural)]
pub struct FlushSchedule {
    pub last_flush: u64,
}

impl FlushSchedule {
    /// A schedule that counts from `now`.
    pub fn new(now: u64) -> (schedule: FlushSchedule)
        ensures
            schedule.last_flush == now,
    {
        FlushSchedule { last_flush: now }
    }

    /// Says whether a flush is due at `now`, and if so counts the next
    /// period from `now`. The period restarts whether or not the flush then
    /// succeeds: a failed cycle is not made up for, the next one comes in
    /// its turn.
    pub fn tick(&mut self, now: u64) -> (due: bool)
        ensures
            due == flush_due(old(self).last_flush, now),
            final(self).last_flush == (if due {
                now
            } else {
                old(self).last_flush
            }),
    {
        if now >= self.last_flush && now - self.last_flush >= FLUSH_PERIOD_MILLIS {
            self.last_flush = now;
            true
        } else {
            false
        }
    }
}

} // verus!
