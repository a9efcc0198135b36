//! The current time.

use vstd::prelude::*;
use crate::domain::expenses::Timestamp;

verus! {

/// The current time in UTC.
///
/// Calls `chrono::Utc::now` and takes the result apart with
/// `DateTime::timestamp` and `DateTime::timestamp_subsec_nanos`, from which
/// `DateTime::from_timestamp` makes the same value again. The time is read
/// from the system clock, which counts no leap second: the nanoseconds stay
/// below one second, and nothing else is claimed.
#[verifier::external_body]
pub(crate) fn utc_now() -> (now: Timestamp)
    ensures
        now.nanos < 1_000_000_000,
{
    let now = chrono::Utc::now();
    Timestamp { secs: now.timestamp(), nanos: now.timestamp_subsec_nanos() }
}

} // verus!
