//! Points in time.

use vstd::prelude::*;

verus! {

/// A point in time on the UTC scale: whole seconds since the start of 1970,
/// and the nanoseconds into that second. During a leap second the
/// nanoseconds run on past one thousand million.
#[derive(Clone, Copy, Debug, PartialEq, Eq, Structural)]
pub struct DateTime {
    pub secs: i64,
    pub nanos: u32,
}

/// `chrono::Utc::now`, taken apart by `timestamp` and
/// `timestamp_subsec_nanos`: the time of the call. The nanoseconds stay below
/// two thousand million.
#[verifier::external_body]
fn utc_now() -> (t: DateTime)
    ensures
        t.nanos < 2_000_000_000,
{
    let now = chrono::Utc::now();
    DateTime { secs: now.timestamp(), nanos: now.timestamp_subsec_nanos() }
}

impl DateTime {
    /// Whether the nanoseconds are in the range that a clock can show.
    pub open spec fn wf(self) -> bool {
        self.nanos < 2_000_000_000
    }

    /// The time of the call.
    pub fn now() -> (t: DateTime)
        ensures
            t.wf(),
    {
        utc_now()
    }
}

} // verus!
