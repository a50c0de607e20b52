//! Spans of time, as the reader's timeouts and pauses use them.

use vstd::prelude::*;

verus! {

/// Nanoseconds in one second.
pub const NANOS_PER_SEC: u32 = 1_000_000_000;

/// Nanoseconds in one millisecond.
pub const NANOS_PER_MILLI: u32 = 1_000_000;

/// Milliseconds in one second.
pub const MILLIS_PER_SEC: u64 = 1_000;

/// The timeout that makes a readiness wait last until a source is ready.
pub const WAIT_FOREVER: i32 = -1;

/// A span of time: whole seconds and the nanoseconds beyond them.
#[derive(Copy, Clone, Debug, PartialEq, Eq, Structural)]
pub struct Interval {
    pub secs: u64,
    pub nanos: u32,
}

impl Interval {
    /// The nanoseconds stay below one second.
    pub open spec fn wf(self) -> bool {
        self.nanos < NANOS_PER_SEC
    }

    /// The span in whole milliseconds, rounded down.
    pub open spec fn millis(self) -> int {
        self.secs * MILLIS_PER_SEC + self.nanos / NANOS_PER_MILLI
    }

    /// The span can be handed to a readiness wait, whose timeout is a signed
    /// 32-bit count of milliseconds.
    pub open spec fn fits_wait(self) -> bool {
        self.millis() <= i32::MAX
    }

    /// The span of `secs` seconds and `nanos` nanoseconds.
    pub fn new(secs: u64, nanos: u32) -> (t: Interval)
        requires
            nanos < NANOS_PER_SEC,
        ensures
            t.secs == secs,
            t.nanos == nanos,
            t.wf(),
    {
        Interval { secs, nanos }
    }

    /// Whether the span can serve as the timeout of a readiness wait.
    pub fn check_fits_wait(&self) -> (fits: bool)
        ensures
            fits == self.fits_wait(),
    {
        let sub: u64 = (self.nanos / NANOS_PER_MILLI) as u64;
        let limit: u64 = 2_147_483_647;
        if self.secs > limit / MILLIS_PER_SEC {
            false
        } else {
            self.secs * MILLIS_PER_SEC + sub <= limit
        }
    }

    /// The span as the timeout of a readiness wait, in milliseconds.
    pub fn wait_millis(&self) -> (millis: i32)
        requires
            self.fits_wait(),
        ensures
            millis == self.millis(),
            millis >= 0,
    {
        let whole: u64 = self.secs * MILLIS_PER_SEC;
        let sub: u64 = (self.nanos / NANOS_PER_MILLI) as u64;
        (whole + sub) as i32
    }
}

/// The timeout of a readiness wait under an optional inactivity threshold:
/// the threshold in milliseconds, or `WAIT_FOREVER` without one.
pub open spec fn wait_timeout(threshold: Option<Interval>) -> int {
    match threshold {
        Some(t) => t.millis(),
        None => WAIT_FOREVER as int,
    }
}

} // verus!
