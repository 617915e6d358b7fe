//! The capture time of a history entry.
//!
//! The store never orders or compares entries by time: a timestamp is taken
//! from the system clock when an entry is made and carried along unchanged
//! for display.

use vstd::prelude::*;

verus! {

/// An instant, as non-leap seconds since 1970-01-01T00:00:00 UTC and the
/// nanoseconds since the last whole second.
#[derive(Clone, Copy, Debug, PartialEq, Eq, Structural)]
pub struct Timestamp {
    pub secs: i64,
    pub nanos: u32,
}

impl Timestamp {
    /// The nanosecond part stays below two seconds; the upper half of that
    /// range stands for a leap second.
    pub open spec fn is_valid(self) -> bool {
        self.nanos < 2_000_000_000
    }
}

/// Reads the system clock through `chrono::Local::now` and takes the instant
/// apart with `DateTime::timestamp` and `DateTime::timestamp_subsec_nanos`.
///
/// Which instant comes back depends on the machine's clock, so the contract
/// claims only the range that chrono documents for the nanosecond part.
#[verifier::external_body]
pub(crate) fn now() -> (t: Timestamp)
    ensures
        t.is_valid(),
{
    let t = chrono::Local::now();
    Timestamp { secs: t.timestamp(), nanos: t.timestamp_subsec_nanos() }
}

} // verus!
