//! Instants as seconds since 1970-01-01 00:00:00 UTC, as `chrono` reads
//! and computes them. Nothing in this file is proved: each contract says
//! what the `chrono` function named above it is relied on to do.

use crate::calendar::{day_number, is_valid_date};
use chrono::{DateTime, NaiveDate, NaiveDateTime, ParseError};
use vstd::prelude::*;

verus! {

/// `chrono::ParseError`, the error of `chrono`'s parsing functions.
#[verifier::external_type_specification]
#[verifier::external_body]
pub struct ExParseError(chrono::ParseError);

/// What `chrono::NaiveDateTime::parse_from_str` makes of `text` under
/// `format`: the seconds from the epoch to the date and time read, taken as
/// UTC, or `None` where it reports an error.
pub uninterp spec fn naive_datetime_seconds(text: Seq<char>, format: Seq<char>) -> Option<int>;

/// What `chrono::DateTime::parse_from_str` makes of `text` under `format`:
/// the seconds from the epoch to the instant read, together with the
/// seconds by which its local time is ahead of UTC, or `None` where it
/// reports an error.
pub uninterp spec fn offset_datetime_parts(text: Seq<char>, format: Seq<char>) -> Option<
    (int, int),
>;

/// The day number of 1970-01-01.
pub const EPOCH_DAY: i64 = 719_163;

/// The seconds from the epoch to the given time of the given day in UTC,
/// every day counting 86400 seconds.
pub open spec fn unix_seconds(
    year: int,
    month: int,
    day: int,
    hour: int,
    minute: int,
    second: int,
) -> int {
    (day_number(year, month, day) - EPOCH_DAY) * 86_400 + hour * 3_600 + minute * 60 + second
}

/// Calls `chrono::NaiveDateTime::parse_from_str` and takes the result as
/// UTC seconds with `NaiveDateTime::and_utc` and `DateTime::timestamp`.
/// The contract only names the outcome: the same text under the same
/// format is read the same way.
#[verifier::external_body]
pub(crate) fn parse_naive_datetime(text: &str, format: &str) -> (r: Result<i64, ParseError>)
    ensures
        match r {
            Ok(seconds) => naive_datetime_seconds(text@, format@) == Some(seconds as int),
            Err(_) => naive_datetime_seconds(text@, format@) is None,
        },
{
    match NaiveDateTime::parse_from_str(text, format) {
        Ok(parsed) => Ok(parsed.and_utc().timestamp()),
        Err(e) => Err(e),
    }
}

/// Calls `chrono::DateTime::parse_from_str` and takes the result apart with
/// `DateTime::timestamp` and `FixedOffset::local_minus_utc`. The contract
/// only names the outcome: the same text under the same format is read the
/// same way.
#[verifier::external_body]
pub(crate) fn parse_offset_datetime(text: &str, format: &str) -> (r: Result<
    (i64, i32),
    ParseError,
>)
    ensures
        match r {
            Ok(parts) => offset_datetime_parts(text@, format@) == Some(
                (parts.0 as int, parts.1 as int),
            ),
            Err(_) => offset_datetime_parts(text@, format@) is None,
        },
{
    match DateTime::parse_from_str(text, format) {
        Ok(parsed) => Ok((parsed.timestamp(), parsed.offset().local_minus_utc())),
        Err(e) => Err(e),
    }
}

/// Calls `chrono::NaiveDate::from_ymd_opt` and `NaiveDate::and_hms_opt`,
/// and takes the result as UTC seconds with `NaiveDateTime::and_utc` and
/// `DateTime::timestamp`. The contract states that a result comes exactly
/// for a supported date with an hour below 24 and a minute and a second
/// below 60, and that it counts 86400 seconds for each day since
/// 1970-01-01, whose number in the proleptic Gregorian calendar is 719163
/// when 0001-01-01 is day 1, plus the seconds since midnight.
#[verifier::external_body]
pub(crate) fn utc_timestamp(
    year: i32,
    month: u32,
    day: u32,
    hour: u32,
    minute: u32,
    second: u32,
) -> (r: Option<i64>)
    ensures
        match r {
            Some(seconds) => {
                &&& is_valid_date(year as int, month as int, day as int)
                &&& hour < 24 && minute < 60 && second < 60
                &&& seconds == unix_seconds(
                    year as int,
                    month as int,
                    day as int,
                    hour as int,
                    minute as int,
                    second as int,
                )
            },
            None => !(is_valid_date(year as int, month as int, day as int) && hour < 24
                && minute < 60 && second < 60),
        },
{
    match NaiveDate::from_ymd_opt(year, month, day) {
        Some(date) => match date.and_hms_opt(hour, minute, second) {
            Some(at) => Some(at.and_utc().timestamp()),
            None => None,
        },
        None => None,
    }
}

} // verus!
