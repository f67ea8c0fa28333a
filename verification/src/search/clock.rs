//! Wall-clock readings for the engine's time ceiling.

use std::time::Duration;
use std::time::Instant;
use vstd::prelude::*;

verus! {

/// `std::time::Instant`: an opaque point on the monotonic clock.
#[verifier::external_type_specification]
#[verifier::external_body]
pub struct ExInstant(Instant);

/// `Instant::now` reads the monotonic clock. Nothing is claimed of the
/// reading.
pub assume_specification[ Instant::now ]() -> (now: Instant);

/// `Instant::elapsed` measures the time since the instant was taken. Nothing
/// is claimed of the measurement.
pub assume_specification[ Instant::elapsed ](since: &Instant) -> (span: Duration);

/// `Duration::as_secs` gives the whole seconds of a span. Nothing is claimed
/// of the number.
pub assume_specification[ Duration::as_secs ](span: &Duration) -> (secs: u64);

/// `Duration::subsec_nanos` gives the fractional part of a span in
/// nanoseconds, which is always less than one second.
pub assume_specification[ Duration::subsec_nanos ](span: &Duration) -> (nanos: u32)
    ensures
        nanos < 1_000_000_000,
;

/// A span of wall-clock time as plain numbers: whole seconds and the
/// fractional part in nanoseconds.
#[derive(Clone, Copy, Debug, PartialEq, Eq, Structural)]
pub struct Elapsed {
    pub secs: u64,
    pub nanos: u32,
}

impl Elapsed {
    /// The span of no time at all.
    pub fn zero() -> (span: Elapsed)
        ensures
            span == (Elapsed { secs: 0, nanos: 0 }),
    {
        Elapsed { secs: 0, nanos: 0 }
    }

    /// The whole seconds of the span.
    pub fn as_secs(&self) -> (secs: u64)
        ensures
            secs == self.secs,
    {
        self.secs
    }

    /// The fractional part in whole milliseconds.
    pub fn subsec_millis(&self) -> (millis: u32)
        ensures
            millis == self.nanos / 1_000_000,
    {
        self.nanos / 1_000_000
    }

    /// The span is longer than `limit_secs` seconds.
    pub open spec fn beyond(&self, limit_secs: u64) -> bool {
        self.secs > limit_secs || (self.secs == limit_secs && self.nanos > 0)
    }

    /// Whether the span is longer than `limit_secs` seconds.
    pub fn exceeds(&self, limit_secs: u64) -> (over: bool)
        ensures
            over == self.beyond(limit_secs),
    {
        self.secs > limit_secs || (self.secs == limit_secs && self.nanos > 0)
    }
}

/// The time that has passed since `since` was taken.
pub fn read_clock(since: &Instant) -> (span: Elapsed)
    ensures
        span.nanos < 1_000_000_000,
{
    let measured = since.elapsed();
    Elapsed { secs: measured.as_secs(), nanos: measured.subsec_nanos() }
}

} // verus!
