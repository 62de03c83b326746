//! Calendar arithmetic, delegated to the tz crate behind named results.
use vstd::prelude::*;

verus! {

/// The Unix timestamp of midnight UTC on the given proleptic-Gregorian date,
/// or `None` when the date is not valid; a function of the date alone.
pub uninterp spec fn utc_midnight(year: i32, month: u8, day: u8) -> Option<i64>;

/// Relies on tz's `UtcDateTime::new` (midnight, zero nanoseconds) and
/// `UtcDateTime::unix_time`: both are pure functions of the date given here.
#[verifier::external_body]
pub(crate) fn utc_midnight_timestamp(year: i32, month: u8, day: u8) -> (r: Option<i64>)
    ensures
        r == utc_midnight(year, month, day),
{
    match tz::UtcDateTime::new(year, month, day, 0, 0, 0, 0) {
        Ok(d) => Some(d.unix_time()),
        Err(_) => None,
    }
}

/// The civil date (year, month, day) of a Unix timestamp in UTC, or `None`
/// when the timestamp is out of the calendar's range; a function of the
/// timestamp alone.
pub uninterp spec fn civil_utc(t: i64) -> Option<(i32, u8, u8)>;

/// Relies on tz's `DateTime::from_timespec` with the UTC zone and its
/// `year` / `month` / `month_day` accessors: pure functions of the timestamp.
#[verifier::external_body]
pub(crate) fn civil_from_timestamp(t: i64) -> (r: Option<(i32, u8, u8)>)
    ensures
        r == civil_utc(t),
{
    match tz::DateTime::from_timespec(t, 0, tz::TimeZoneRef::utc()) {
        Ok(d) => Some((d.year(), d.month(), d.month_day())),
        Err(_) => None,
    }
}

} // verus!
