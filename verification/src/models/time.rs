//! Points in time, as the store records them.

use vstd::prelude::*;

verus! {

/// A point in time: whole seconds since the start of 1970 in UTC, and the
/// nanoseconds into the second.
#[derive(Debug, Clone, Copy, PartialEq, Eq, Structural, Hash)]
pub struct Timestamp {
    pub seconds: i64,
    pub nanos: u32,
}

/// Reads the clock with `chrono::Utc::now` and takes the seconds and
/// nanoseconds of what it gives. Nothing is stated of the result: it is the
/// time of the call. `Utc::now` fails where the clock stands before 1970.
#[verifier::external_body]
pub(crate) fn now() -> (r: Timestamp) {
    let now = chrono::Utc::now();
    Timestamp { seconds: now.timestamp(), nanos: now.timestamp_subsec_nanos() }
}

} // verus!
