//! The wall clock that stamps observations.

use vstd::prelude::*;

verus! {

/// An instant in UTC: whole seconds since 1970-01-01 00:00:00 and the
/// nanoseconds past that second.
#[derive(Clone, Copy, Debug, PartialEq, Eq, Structural)]
pub struct Timestamp {
    pub secs: i64,
    pub nanos: u32,
}

/// Reads the current time with `chrono::Utc::now` and takes it apart with
/// `DateTime::timestamp` and `DateTime::timestamp_subsec_nanos`. Nothing is
/// claimed of the instant that comes back: it depends on the machine's clock
/// alone. `Utc::now` panics where that clock stands before 1970.
#[verifier::external_body]
pub(crate) fn now() -> (stamp: Timestamp)
{
    let t = chrono::Utc::now();
    Timestamp { secs: t.timestamp(), nanos: t.timestamp_subsec_nanos() }
}

} // verus!
