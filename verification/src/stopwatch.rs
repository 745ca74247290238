//! The in-game stopwatch: time accumulated over finished running intervals,
//! plus an optional open interval that is still running.

use vstd::prelude::*;

verus! {

#[verifier::external_type_specification]
#[verifier::external_body]
pub struct ExInstant(std::time::Instant);

/// Relies on std::time::Instant::now: a reading of the monotonic clock.
/// Nothing is assumed of the value.
#[verifier::external_body]
fn instant_now() -> std::time::Instant {
    std::time::Instant::now()
}

/// Relies on std::time::Instant::elapsed: the time that has passed since the
/// instant was taken. Nothing is assumed of the value.
#[verifier::external_body]
fn instant_elapsed(earlier: &std::time::Instant) -> std::time::Duration {
    earlier.elapsed()
}

/// Relies on std::time::Duration::as_nanos: the duration as a total number
/// of nanoseconds. Nothing is assumed of the value.
#[verifier::external_body]
fn duration_as_nanos(duration: &std::time::Duration) -> u128 {
    duration.as_nanos()
}

/// The stopwatch: nanoseconds accumulated over the finished running
/// intervals, and the start of the current interval while it runs.
///
/// The accumulator saturates instead of wrapping, so the reported elapsed
/// time never decreases.
#[derive(Clone, Copy, Debug)]
pub struct Stopwatch {
    /// The instant the stopwatch was last started; `None` while it is
    /// stopped or has never been started.
    pub start_time: Option<std::time::Instant>,
    /// The nanoseconds that elapsed between earlier starts and stops.
    pub elapsed_nanos: u64,
}

impl Stopwatch {
    /// Whether an interval is currently running.
    pub open spec fn running(self) -> bool {
        self.start_time is Some
    }

    /// The nanoseconds accumulated over the finished intervals.
    pub open spec fn accumulated(self) -> nat {
        self.elapsed_nanos as nat
    }

    /// Reads the open interval's elapsed nanoseconds, capped so it can be
    /// added without wrapping; zero when the stopwatch is stopped.
    fn live_nanos(&self) -> (r: u64)
        ensures
            !self.running() ==> r == 0,
    {
        match &self.start_time {
            Some(earlier) => {
                let duration = instant_elapsed(earlier);
                let nanos = duration_as_nanos(&duration);
                if nanos > u64::MAX as u128 {
                    u64::MAX
                } else {
                    nanos as u64
                }
            },
            None => 0,
        }
    }

    /// Starts the stopwatch. Starting it while it already runs restarts the
    /// open interval; what was accumulated before is preserved either way.
    pub fn start(&mut self)
        ensures
            final(self).running(),
            final(self).accumulated() == old(self).accumulated(),
    {
        self.start_time = Some(instant_now());
    }

    /// Stops the stopwatch, folding the open interval into the accumulator;
    /// nothing is added when it was not running.
    pub fn stop(&mut self)
        ensures
            !final(self).running(),
            final(self).accumulated() >= old(self).accumulated(),
            !old(self).running() ==> final(self).accumulated() == old(self).accumulated(),
    {
        let addition = self.live_nanos();
        self.elapsed_nanos = if self.elapsed_nanos > u64::MAX - addition {
            u64::MAX
        } else {
            self.elapsed_nanos + addition
        };
        self.start_time = None;
    }

    /// Returns the elapsed nanoseconds since the first start: everything
    /// accumulated, plus the open interval when the stopwatch is running.
    pub fn get_elapsed_time(&self) -> (r: u64)
        ensures
            r >= self.accumulated(),
            !self.running() ==> r == self.accumulated(),
    {
        let addition = self.live_nanos();
        if self.elapsed_nanos > u64::MAX - addition {
            u64::MAX
        } else {
            self.elapsed_nanos + addition
        }
    }
}

impl Default for Stopwatch {
    /// A stopwatch that has never run: nothing accumulated and not running.
    fn default() -> (r: Stopwatch)
        ensures
            !r.running(),
            r.accumulated() == 0,
    {
        Stopwatch { start_time: None, elapsed_nanos: 0 }
    }
}

} // verus!
