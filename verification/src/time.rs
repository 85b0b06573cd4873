//! Points in time.
//!
//! The client keeps a point in time as a count of seconds or milliseconds
//! since the Unix epoch. Which counts name a date is decided by the calendar
//! of the `chrono` crate, and so is the date that a text spells.

use vstd::prelude::*;
use crate::common::{CvmfsError, CvmfsResult};

verus! {

/// Format of the replication dates that a server leaves in
/// `.cvmfs_last_snapshot` and `.cvmfs_is_snapshotting`.
pub const REPLICATION_DATE_FORMAT: &'static str = "%a %e %h %H:%M:%S %Z %Y";

/// The first second of the calendar of `chrono`: midnight of 1 January of
/// the year -262143, counted from the epoch.
pub const MIN_CALENDAR_SECONDS: i64 = -8_334_601_228_800;

/// The last second of the calendar of `chrono`: the end of 31 December of
/// the year 262142, counted from the epoch.
pub const MAX_CALENDAR_SECONDS: i64 = 8_210_266_876_799;

/// The calendar has a date for this count of seconds since the epoch: the
/// count lies between the first and the last second of the calendar.
pub open spec fn seconds_in_calendar(seconds: i64) -> bool {
    MIN_CALENDAR_SECONDS <= seconds <= MAX_CALENDAR_SECONDS
}

/// The calendar has a date for this count of milliseconds since the epoch:
/// the second that the millisecond lies in is one of the calendar.
pub open spec fn millis_in_calendar(millis: i64) -> bool {
    MIN_CALENDAR_SECONDS * 1000 <= millis <= MAX_CALENDAR_SECONDS * 1000 + 999
}

/// The count of seconds since the epoch of the date that `chrono` reads from
/// `text` by `format`, taken as a date in universal time, if it reads one.
pub uninterp spec fn date_in_text(text: Seq<char>, format: Seq<char>) -> Option<i64>;

/// `chrono::DateTime::from_timestamp` with no nanoseconds: whether it has a
/// date for the count of seconds. It has one for every day from
/// `NaiveDate::MIN` to `NaiveDate::MAX`, which are 1 January -262143 and
/// 31 December 262142, and for no other.
#[verifier::external_body]
pub(crate) fn calendar_has_seconds(seconds: i64) -> (known: bool)
    ensures
        known == seconds_in_calendar(seconds),
{
    chrono::DateTime::from_timestamp(seconds, 0).is_some()
}

/// `chrono::DateTime::from_timestamp_millis`: whether it has a date for the
/// count of milliseconds. It has one where `from_timestamp` has one for the
/// second that the millisecond lies in.
#[verifier::external_body]
pub(crate) fn calendar_has_millis(millis: i64) -> (known: bool)
    ensures
        known == millis_in_calendar(millis),
{
    chrono::DateTime::from_timestamp_millis(millis).is_some()
}

/// `chrono::NaiveDateTime::parse_from_str`, and `and_utc` and `timestamp`
/// of the date it gives: the seconds since the epoch of the date that
/// `text` spells in the format of the replication dates, taken as a date
/// in universal time, or nothing where the text does not fit. The name of
/// a time zone in the text is passed over. The result is only given a
/// name.
#[verifier::external_body]
pub(crate) fn read_date(text: &str, format: &str) -> (seconds: Option<i64>)
    requires
        format@ == REPLICATION_DATE_FORMAT@,
    ensures
        seconds == date_in_text(text@, format@),
{
    match chrono::NaiveDateTime::parse_from_str(text, format) {
        Ok(date) => Some(date.and_utc().timestamp()),
        Err(_) => None,
    }
}

/// A count that was read from text is a point in time only if it was a
/// number and the calendar has a date for it.
pub fn checked_timestamp(number: Option<i64>, in_calendar: bool) -> (time: CvmfsResult<i64>)
    ensures
        time == match number {
            Some(n) if in_calendar => Ok::<i64, CvmfsError>(n),
            _ => Err::<i64, CvmfsError>(CvmfsError::InvalidTimestamp),
        },
{
    match number {
        Some(n) => {
            if in_calendar {
                Ok(n)
            } else {
                Err(CvmfsError::InvalidTimestamp)
            }
        },
        None => Err(CvmfsError::InvalidTimestamp),
    }
}

/// The replication date that a server wrote, in seconds since the epoch.
/// The server writes its dates in universal time, and so they are read. A
/// text that is no date in the server's format gives nothing; that is no
/// error.
pub fn parse_replication_date(text: &str) -> (seconds: Option<i64>)
    ensures
        seconds == date_in_text(text@, REPLICATION_DATE_FORMAT@),
{
    read_date(text, REPLICATION_DATE_FORMAT)
}

} // verus!
