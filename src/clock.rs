//! Points in time, as held by rental records.

use vstd::prelude::*;

verus! {

/// A point in time: whole seconds since the Unix epoch, in UTC, and the
/// nanoseconds past that second.
#[derive(Clone, Copy, Debug, PartialEq, Eq, Structural)]
pub struct Timestamp {
    pub seconds: i64,
    pub nanos: u32,
}

/// Relies on chrono::Utc::now: the current UTC time, read from the system
/// clock. Its source builds the value from a `Duration` since the epoch, so
/// the seconds are not negative and the nanoseconds stay under one second.
#[verifier::external_body]
pub(crate) fn now() -> (r: Timestamp)
    ensures
        r.seconds >= 0,
        r.nanos < 1_000_000_000,
{
    let t = chrono::Utc::now();
    Timestamp { seconds: t.timestamp(), nanos: t.timestamp_subsec_nanos() }
}

} // verus!
