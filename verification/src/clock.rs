//! Wall-clock instants, held as whole seconds and nanoseconds since the Unix
//! epoch (UTC), and the reading of the system clock.

use vstd::prelude::*;

verus! {

/// An instant in UTC: `secs` whole seconds since 1970-01-01T00:00:00Z and
/// `nanos` nanoseconds past that second (a leap second is written with
/// `nanos` of one billion or more, as chrono does).
#[derive(Debug, Clone, Copy, PartialEq, Eq, Structural)]
pub struct Timestamp {
    pub secs: i64,
    pub nanos: u32,
}

impl Timestamp {
    /// `self` lies strictly after `other`.
    pub open spec fn spec_after(self, other: Timestamp) -> bool {
        self.secs > other.secs || (self.secs == other.secs && self.nanos > other.nanos)
    }

    /// Whether `self` lies strictly after `other`.
    pub fn is_after(&self, other: &Timestamp) -> (r: bool)
        ensures
            r == self.spec_after(*other),
    {
        self.secs > other.secs || (self.secs == other.secs && self.nanos > other.nanos)
    }

    /// An instant that the system clock can report: not before the epoch and
    /// not inside a leap second.
    pub open spec fn is_clock_reading(self) -> bool {
        self.secs >= 0 && self.nanos < 1_000_000_000
    }

    /// The current time, read from the system clock.
    pub fn now() -> (t: Timestamp)
        ensures
            t.is_clock_reading(),
    {
        utc_now()
    }
}

/// Calls `chrono::Utc::now()` and takes the result apart with
/// `DateTime::timestamp` and `DateTime::timestamp_subsec_nanos`. chrono builds
/// that value from the time elapsed since the Unix epoch as std reports it, so
/// the seconds are not negative and the nanoseconds stay below one second.
/// Which instant comes back depends on the clock and is not stated. (chrono
/// panics when the system clock reads a time before the epoch.)
#[verifier::external_body]
fn utc_now() -> (t: Timestamp)
    ensures
        t.is_clock_reading(),
{
    let now = chrono::Utc::now();
    Timestamp { secs: now.timestamp(), nanos: now.timestamp_subsec_nanos() }
}

} // verus!
