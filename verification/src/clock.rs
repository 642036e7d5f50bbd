//! The clocks: wall-clock time in seconds and a steady clock in nanoseconds.
use std::time::Instant;
use vstd::prelude::*;

verus! {

/// `std::time::Instant`, a reading of the steady clock.
#[verifier::external_type_specification]
#[verifier::external_body]
pub struct ExInstant(Instant);

/// A time in seconds since 1970 that the calendar holds: from the epoch to the
/// end of the year 262142.
pub open spec fn is_unix_time(t: i64) -> bool {
    0 <= t <= MAX_UNIX_TIME
}

pub const MAX_UNIX_TIME: i64 = 8_210_266_876_799;

/// The first moment that the calendar holds, in the year 262144 before our era.
pub const MIN_UNIX_TIME: i64 = -8_334_601_228_800;

/// The time a number of days after another.
pub open spec fn days_later(t: i64, days: i64) -> int {
    t + days * 86_400
}

/// A time that the calendar holds.
pub open spec fn in_calendar(t: int) -> bool {
    MIN_UNIX_TIME <= t <= MAX_UNIX_TIME
}

/// The time a number of days after another, where the calendar holds it.
pub fn add_days(t: i64, days: i64) -> (out: Option<i64>)
    ensures
        match out {
            Some(v) => v == days_later(t, days) && in_calendar(v as int),
            None => !in_calendar(days_later(t, days)),
        },
{
    let v: i128 = t as i128 + days as i128 * 86_400;
    if MIN_UNIX_TIME as i128 <= v && v <= MAX_UNIX_TIME as i128 {
        Some(v as i64)
    } else {
        None
    }
}

/// `chrono::Utc::now`, in whole seconds. Nothing is said of which time it is;
/// it lies between the epoch and the last moment that `chrono` can name, since
/// `now` returns no other (it panics on a system clock that is set outside).
#[verifier::external_body]
pub(crate) fn utc_now() -> (t: i64)
    ensures
        is_unix_time(t),
{
    chrono::Utc::now().timestamp()
}

/// `Instant::now`: a reading of the steady clock. Nothing is said of it.
#[verifier::external_body]
pub(crate) fn steady_now() -> Instant {
    Instant::now()
}

/// `Instant::elapsed`: the nanoseconds since an earlier reading. Nothing is
/// said of how many there are.
#[verifier::external_body]
pub(crate) fn nanos_since(start: &Instant) -> u128 {
    start.elapsed().as_nanos()
}

} // verus!
