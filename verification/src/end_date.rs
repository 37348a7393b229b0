//! The end of the sampling window, given as a calendar date.
//!
//! The window ends at midnight, US Central time, at the start of the given
//! date. What a text means as a date, and which instant a local midnight is,
//! is `chrono`'s and `chrono_tz`'s to say: both answers have a name here, and
//! this module decides what becomes of them.

use vstd::prelude::*;

verus! {

/// The instants that a local date and time names in a time zone, each in
/// seconds since the Unix epoch.
#[derive(Clone, Copy, Debug, PartialEq, Eq)]
pub enum LocalInstant {
    /// The local time names exactly one instant.
    Single(i64),
    /// The clock was turned back over the local time, which came twice: the
    /// earlier and the later instant.
    Ambiguous(i64, i64),
    /// The clock was turned forward over the local time, which never came.
    Missing,
}

/// Why a date gives no end of the window.
#[derive(Clone, Copy, Debug, PartialEq, Eq)]
pub enum EndDateError {
    /// The text is not a date written as year-month-day.
    InvalidDate,
    /// Midnight of the date is not exactly one instant.
    AmbiguousLocalTime,
}

/// Seconds since the Unix epoch as a timestamp: the count itself, and for a
/// count below zero the count plus two to the 64th.
pub open spec fn as_timestamp(seconds: i64) -> u64 {
    if seconds >= 0 {
        seconds as u64
    } else {
        (seconds + 0x1_0000_0000_0000_0000) as u64
    }
}

/// The day that `chrono::NaiveDate::parse_from_str` reads out of `text` in the
/// given format, as `chrono` numbers the days (day 1 is January 1 of the year
/// 1), and `None` where it reads no date.
pub uninterp spec fn parsed_day(text: Seq<char>, format: Seq<char>) -> Option<i32>;

/// The instants that `chrono_tz::US::Central` gives for the local time
/// `hour:minute:second` on the day of the given number, and `None` where
/// `chrono` has no such day or no such time of day.
pub uninterp spec fn central_local(day: i32, hour: u32, minute: u32, second: u32) -> Option<
    LocalInstant,
>;

/// Calls `chrono::NaiveDate::parse_from_str` and hands out the date it reads
/// as its `chrono::Datelike::num_days_from_ce`. The outcome is `parsed_day` of
/// the two texts.
#[verifier::external_body]
fn parse_date(text: &str, format: &str) -> (day: Option<i32>)
    ensures
        day == parsed_day(text@, format@),
{
    match chrono::NaiveDate::parse_from_str(text, format) {
        Ok(date) => Some(chrono::Datelike::num_days_from_ce(&date)),
        Err(_) => None,
    }
}

/// Takes the day back into a date with `chrono::NaiveDate::from_num_days_from_ce_opt`,
/// gives it the time of day with `chrono::NaiveDate::and_hms_opt`, calls
/// `chrono::TimeZone::from_local_datetime` on `chrono_tz::US::Central` and
/// hands out each instant as its `chrono::DateTime::timestamp`. The outcome is
/// `central_local` of the four numbers.
#[verifier::external_body]
fn central_instant(day: i32, hour: u32, minute: u32, second: u32) -> (instant: Option<
    LocalInstant,
>)
    ensures
        instant == central_local(day, hour, minute, second),
{
    let date = chrono::NaiveDate::from_num_days_from_ce_opt(day)?;
    let local = date.and_hms_opt(hour, minute, second)?;
    Some(
        match chrono::TimeZone::from_local_datetime(&chrono_tz::US::Central, &local) {
            chrono::LocalResult::Single(only) => LocalInstant::Single(only.timestamp()),
            chrono::LocalResult::Ambiguous(earlier, later) => LocalInstant::Ambiguous(
                earlier.timestamp(),
                later.timestamp(),
            ),
            chrono::LocalResult::None => LocalInstant::Missing,
        },
    )
}

/// What a date given as `text` comes to: the instants of midnight, US Central
/// time, at the start of the day that the text names as `YYYY-MM-DD`, and
/// `InvalidDate` where it names no day or the day has no midnight.
pub open spec fn midnight_of(text: Seq<char>) -> Result<LocalInstant, EndDateError> {
    match parsed_day(text, "%Y-%m-%d"@) {
        None => Err(EndDateError::InvalidDate),
        Some(day) => match central_local(day, 0, 0, 0) {
            None => Err(EndDateError::InvalidDate),
            Some(instant) => Ok(instant),
        },
    }
}

/// The timestamp of a local time: that of its one instant, and
/// `AmbiguousLocalTime` where it names two instants or none.
pub fn timestamp_of(instant: LocalInstant) -> (outcome: Result<u64, EndDateError>)
    ensures
        outcome == match instant {
            LocalInstant::Single(seconds) => Ok::<u64, EndDateError>(as_timestamp(seconds)),
            _ => Err::<u64, EndDateError>(EndDateError::AmbiguousLocalTime),
        },
{
    match instant {
        LocalInstant::Single(seconds) => {
            if seconds >= 0 {
                Ok(seconds as u64)
            } else {
                Ok(u64::MAX - ((-(seconds + 1)) as u64))
            }
        },
        _ => Err(EndDateError::AmbiguousLocalTime),
    }
}

/// The instants of midnight, US Central time, at the start of the date that
/// `date` names as `YYYY-MM-DD`, and `InvalidDate` where it names none.
pub fn central_midnight(date: &str) -> (outcome: Result<LocalInstant, EndDateError>)
    ensures
        outcome == midnight_of(date@),
{
    match parse_date(date, "%Y-%m-%d") {
        None => Err(EndDateError::InvalidDate),
        Some(day) => match central_instant(day, 0, 0, 0) {
            None => Err(EndDateError::InvalidDate),
            Some(instant) => Ok(instant),
        },
    }
}

} // verus!
