use vstd::prelude::*;
use crate::forecast::LATEST_CLOCK_SECS;

verus! {

/// Relies on `chrono::Utc::now` and `DateTime::timestamp`: the current time in
/// whole seconds since the Unix epoch. `Utc::now` panics on a system clock
/// before the epoch and unwraps `DateTime::from_timestamp`, which fails past
/// the last second of year 262143; so a returned value lies between the two.
#[verifier::external_body]
pub(crate) fn now_unix_secs() -> (r: i64)
    ensures
        0 <= r <= LATEST_CLOCK_SECS,
{
    chrono::Utc::now().timestamp()
}

} // verus!
