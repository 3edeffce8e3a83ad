//! Points in time and spans of time as plain numbers of nanoseconds.

use vstd::prelude::*;

verus! {

/// The largest span a `std::time::Duration` can hold is below this many nanoseconds.
pub const STD_DURATION_LIMIT_NANOS: u128 = 18_446_744_073_709_551_616_000_000_000;

/// `std::time::Instant`, carried through unopened.
#[verifier::external_type_specification]
#[verifier::external_body]
pub struct ExInstant(std::time::Instant);

/// `std::time::Instant::now` reads the monotonic clock. Nothing is claimed of the reading.
pub assume_specification[ std::time::Instant::now ]() -> std::time::Instant
;

/// `std::time::Instant::elapsed` gives the time since the instant. Nothing is claimed of it.
pub assume_specification[ std::time::Instant::elapsed ](
    instant: &std::time::Instant,
) -> std::time::Duration
;

/// `std::time::Duration::as_nanos` gives the whole span in nanoseconds. A standard duration is a
/// 64-bit number of seconds and less than one further second, so the number stays below
/// [`STD_DURATION_LIMIT_NANOS`].
pub assume_specification[ std::time::Duration::as_nanos ](
    duration: &std::time::Duration,
) -> (nanos: u128)
    ensures
        nanos < STD_DURATION_LIMIT_NANOS,
;

/// A span of time.
#[derive(Clone, Copy, Debug, PartialEq, Eq, Structural)]
pub struct Duration {
    pub nanos: u128,
}

impl Duration {
    /// A span of whole seconds.
    pub fn from_secs(secs: u64) -> (r: Self)
        ensures
            r.nanos == secs * 1_000_000_000,
            r.nanos < STD_DURATION_LIMIT_NANOS,
    {
        Duration { nanos: secs as u128 * 1_000_000_000 }
    }

    /// A span of whole milliseconds.
    pub fn from_millis(millis: u64) -> (r: Self)
        ensures
            r.nanos == millis * 1_000_000,
            r.nanos < STD_DURATION_LIMIT_NANOS,
    {
        Duration { nanos: millis as u128 * 1_000_000 }
    }

    /// The whole milliseconds in the span.
    pub fn as_millis(&self) -> (r: u128)
        ensures
            r == self.nanos / 1_000_000,
    {
        self.nanos / 1_000_000
    }

    /// Whether the span is empty.
    pub fn is_zero(&self) -> (r: bool)
        ensures
            r == (self.nanos == 0),
    {
        self.nanos == 0
    }

    /// The span less `other`, or the empty span where `other` is longer.
    pub fn saturating_sub(&self, other: Duration) -> (r: Duration)
        ensures
            r.nanos == if other.nanos <= self.nanos {
                self.nanos - other.nanos
            } else {
                0
            },
    {
        if other.nanos <= self.nanos {
            Duration { nanos: self.nanos - other.nanos }
        } else {
            Duration { nanos: 0 }
        }
    }
}

/// A point in time, counted from a fixed origin.
#[derive(Clone, Copy, Debug, PartialEq, Eq, Structural)]
pub struct Instant {
    pub nanos: u128,
}

impl Instant {
    /// The point that lies `span` later.
    pub fn plus(&self, span: Duration) -> (r: Self)
        requires
            self.nanos + span.nanos <= u128::MAX,
        ensures
            r.nanos == self.nanos + span.nanos,
    {
        Instant { nanos: self.nanos + span.nanos }
    }

    /// The span from `earlier` to this point, or the empty span where `earlier` lies later.
    pub fn saturating_duration_since(&self, earlier: Instant) -> (r: Duration)
        ensures
            r.nanos == if earlier.nanos <= self.nanos {
                self.nanos - earlier.nanos
            } else {
                0
            },
    {
        if earlier.nanos <= self.nanos {
            Duration { nanos: self.nanos - earlier.nanos }
        } else {
            Duration { nanos: 0 }
        }
    }
}

/// A monotonic clock that counts from the moment it was started.
#[derive(Debug)]
pub struct Clock {
    origin: std::time::Instant,
}

impl Clock {
    /// Starts a clock. Nothing is stated of the moment, which only the system's clock knows.
    pub fn start() -> Self {
        Clock { origin: std::time::Instant::now() }
    }

    /// Reads the clock. The reading is a span since the start, so it fits a standard duration; how
    /// long the span is depends on the moment of the call and is not stated.
    pub fn now(&self) -> (r: Instant)
        ensures
            r.nanos < STD_DURATION_LIMIT_NANOS,
    {
        Instant { nanos: self.origin.elapsed().as_nanos() }
    }
}

} // verus!
