use vstd::prelude::*;

verus! {

/// Decides at most one execution per fixed interval.
///
/// The timer is driven with timestamps in nanoseconds, as read from a
/// monotonic clock by the caller; it fires at most once per interval, and
/// slower than the interval if `tick` is called less often than that.
pub struct Timer {
    time_of_last_execution: u64,
    interval: u64,
    is_first_execution: bool,
}

impl Timer {
    /// The timestamp the current interval is measured from, in nanoseconds.
    pub closed spec fn last_nanos(&self) -> u64 {
        self.time_of_last_execution
    }

    /// The firing interval, in nanoseconds.
    pub closed spec fn interval_nanos(&self) -> u64 {
        self.interval
    }

    /// Whether the next tick is the first since construction or reset, which
    /// always fires.
    pub closed spec fn pending_first(&self) -> bool {
        self.is_first_execution
    }

    /// The time elapsed since the last execution at timestamp `now`; an
    /// earlier timestamp counts as no elapsed time.
    pub open spec fn spec_elapsed(&self, now: u64) -> int {
        if now >= self.last_nanos() {
            now - self.last_nanos()
        } else {
            0
        }
    }

    /// Whether a tick at timestamp `now` fires: always on the first tick,
    /// afterwards exactly when a full interval has elapsed.
    pub open spec fn spec_fires(&self, now: u64) -> bool {
        self.pending_first() || self.spec_elapsed(now) >= self.interval_nanos()
    }

    /// The reference timestamp after a tick at `now`: a late tick rolls the
    /// overshoot into the next interval, so the average rate stays fixed.
    pub open spec fn spec_next_last(&self, now: u64) -> int {
        if self.pending_first() {
            now as int
        } else if self.spec_fires(now) {
            now - (self.spec_elapsed(now) - self.interval_nanos())
        } else {
            self.last_nanos() as int
        }
    }

    pub fn new(interval_nanos: u64) -> (r: Self)
        ensures
            r.interval_nanos() == interval_nanos,
            r.pending_first(),
    {
        Timer { time_of_last_execution: 0, interval: interval_nanos, is_first_execution: true }
    }

    /// Resets the timer: the next tick fires regardless of `now_nanos`, and
    /// later ticks measure their interval from that firing.
    pub fn reset(&mut self, now_nanos: u64)
        ensures
            final(self).interval_nanos() == old(self).interval_nanos(),
            final(self).pending_first(),
            final(self).last_nanos() == now_nanos,
    {
        self.is_first_execution = true;
        self.time_of_last_execution = now_nanos;
    }

    /// Ticks the timer at timestamp `now_nanos` and reports whether the
    /// caller should execute now.
    pub fn tick(&mut self, now_nanos: u64) -> (fire: bool)
        ensures
            fire == old(self).spec_fires(now_nanos),
            final(self).interval_nanos() == old(self).interval_nanos(),
            !final(self).pending_first(),
            final(self).last_nanos() == old(self).spec_next_last(now_nanos),
    {
        if self.is_first_execution {
            self.time_of_last_execution = now_nanos;
            self.is_first_execution = false;
            true
        } else {
            let elapsed: u64 = if now_nanos >= self.time_of_last_execution {
                now_nanos - self.time_of_last_execution
            } else {
                0
            };
            if elapsed >= self.interval {
                self.time_of_last_execution = now_nanos - (elapsed - self.interval);
                true
            } else {
                false
            }
        }
    }
}

} // verus!
