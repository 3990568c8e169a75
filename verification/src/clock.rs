//! Points in time, as the checkpoints store them.

use vstd::prelude::*;

verus! {

/// An instant, counted from the Unix epoch.
#[derive(Clone, Copy, Debug, PartialEq, Eq, Structural)]
pub struct Timestamp {
    /// Whole non-leap seconds since 1970-01-01 00:00:00 UTC.
    pub secs: i64,
    /// Nanoseconds since the last second boundary.
    pub nanos: u32,
}

/// Reads the system clock through `chrono::Local::now`, and splits the
/// instant with `DateTime::timestamp` and `DateTime::timestamp_subsec_nanos`.
/// Nothing is claimed of the value: it is whatever the clock says.
#[verifier::external_body]
pub(crate) fn now() -> (ts: Timestamp) {
    let t = chrono::Local::now();
    Timestamp { secs: t.timestamp(), nanos: t.timestamp_subsec_nanos() }
}

} // verus!
