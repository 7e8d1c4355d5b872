//! The UTC time of day of a millisecond timestamp, as `chrono` reads it.
use vstd::prelude::*;
use chrono::{DateTime, Timelike, Utc};
use crate::timeframe::{DAY_MS, HOUR_MS, MINUTE_MS};

verus! {

/// First and last day (counted from 1970-01-01) that a UTC date-time can fall on:
/// the range of dates from year -262143 to year 262142.
pub const MIN_UTC_DAY: i64 = -96_465_292;
pub const MAX_UTC_DAY: i64 = 95_026_236;

/// Hour and minute of the UTC time `ms` milliseconds after 1970-01-01T00:00Z;
/// `None` for a time outside the dates a UTC date-time can hold.
pub open spec fn utc_hour_minute_spec(ms: int) -> Option<(u32, u32)> {
    let day = ms / (DAY_MS as int);
    if day < MIN_UTC_DAY || day > MAX_UTC_DAY {
        None
    } else {
        Some((
            ((ms % (DAY_MS as int)) / (HOUR_MS as int)) as u32,
            ((ms % (HOUR_MS as int)) / (MINUTE_MS as int)) as u32,
        ))
    }
}

/// `DateTime::<Utc>::from_timestamp_millis(ms)` and, where it gives a date-time,
/// its `hour()` and `minute()`. chrono gives none outside its range of dates
/// (days `MIN_UTC_DAY..=MAX_UTC_DAY` from 1970-01-01); inside it, the hour and
/// minute are those of the time of day, the day starting at a multiple of 24 hours.
#[verifier::external_body]
pub(crate) fn utc_hour_minute(ms: i64) -> (r: Option<(u32, u32)>)
    ensures
        r == utc_hour_minute_spec(ms as int),
{
    match DateTime::<Utc>::from_timestamp_millis(ms) {
        Some(dt) => Some((dt.hour(), dt.minute())),
        None => None,
    }
}

/// What chrono writes for the UTC date-time `ms` milliseconds after 1970-01-01T00:00Z
/// formatted with the strftime `pattern`.
pub uninterp spec fn utc_formatted(ms: i64, pattern: Seq<char>) -> Seq<char>;

/// The strftime patterns that times are written with; chrono accepts each of them.
pub open spec fn known_pattern(pattern: Seq<char>) -> bool {
    ||| pattern == "%Y"@
    ||| pattern == "%b"@
    ||| pattern == "%-d.%-m"@
    ||| pattern == "%d"@
    ||| pattern == "%d %b"@
    ||| pattern == "%H:%M"@
    ||| pattern == "%H:%M:%S"@
}

/// `DateTime::<Utc>::from_timestamp_millis(ms)`, then `format(pattern)` written to a
/// `String`. The date-time exists for a time inside chrono's range of dates, and
/// writing panics on a pattern chrono cannot read, so both are required; the text
/// is named by `utc_formatted`.
#[verifier::external_body]
pub(crate) fn format_utc(ms: i64, pattern: &str) -> (r: String)
    requires
        utc_hour_minute_spec(ms as int) is Some,
        known_pattern(pattern@),
    ensures
        r@ == utc_formatted(ms, pattern@),
{
    DateTime::<Utc>::from_timestamp_millis(ms).unwrap_or_default().format(pattern).to_string()
}

} // verus!
