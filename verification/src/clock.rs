//! The server clock, behind trusted wrappers.
//!
//! Record dates are the server's insert-time clock value, never a
//! client-supplied one, and the habit listing window is anchored at the
//! clock as well.  Nothing can be promised of what the clock reads; the
//! pipelines therefore state what holds for every reading.

use vstd::prelude::*;

verus! {

/// Seconds in the trailing window the habit listing shows.
pub const HABIT_WINDOW_SECONDS: i64 = 604800;

/// A bound on timestamps the calendar formatter accepts, roughly thirty
/// thousand years either side of the epoch; far inside the range the
/// date library supports.
pub const DAY_FORMAT_BOUND: i64 = 1_000_000_000_000;

/// The `%Y-%m-%d` rendering of a Unix timestamp's UTC calendar day.
pub uninterp spec fn day_string_of(ts: int) -> Seq<char>;

/// A clock reading the calendar formatter is safe on, with room for the
/// trailing window to be subtracted first.
pub open spec fn clock_in_range(now: int) -> bool {
    -DAY_FORMAT_BOUND + HABIT_WINDOW_SECONDS <= now <= DAY_FORMAT_BOUND
}

/// Relies on `chrono::Utc::now().timestamp()`: the current Unix
/// timestamp in seconds.  Nothing is promised of the reading.
#[verifier::external_body]
pub(crate) fn now_timestamp() -> i64 {
    chrono::Utc::now().timestamp()
}

/// Relies on `chrono::DateTime::<Utc>::from_timestamp` and `format`
/// with `%Y-%m-%d`: the UTC calendar day of the timestamp, a function
/// of the timestamp alone.  The bound keeps the timestamp far inside
/// the range `from_timestamp` accepts, so the conversion cannot fail.
#[verifier::external_body]
pub(crate) fn format_day(ts: i64) -> (r: String)
    requires
        -DAY_FORMAT_BOUND <= ts <= DAY_FORMAT_BOUND,
    ensures
        r@ == day_string_of(ts as int),
{
    match chrono::DateTime::<chrono::Utc>::from_timestamp(ts, 0) {
        Some(dt) => dt.format("%Y-%m-%d").to_string(),
        None => String::new(),
    }
}

} // verus!
