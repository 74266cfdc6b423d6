//! Wall-clock time, read through `chrono`.

use vstd::prelude::*;

verus! {

/// Milliseconds since the Unix epoch, from `chrono::Utc::now()` and
/// `DateTime::timestamp_millis`. The value depends on the clock, so nothing is claimed
/// of it beyond its sign: `Utc::now` panics rather than return a time before the epoch.
#[verifier::external_body]
pub(crate) fn now_millis() -> (t: i64)
    ensures
        t >= 0,
{
    chrono::Utc::now().timestamp_millis()
}

} // verus!
