use cvmfs::common::CvmfsError;
use cvmfs::time::{
    checked_timestamp, parse_replication_date, MAX_CALENDAR_SECONDS, MIN_CALENDAR_SECONDS,
    REPLICATION_DATE_FORMAT,
};

#[test]
fn a_timestamp_needs_a_number_and_a_date() {
    assert_eq!(checked_timestamp(Some(17), true), Ok(17));
    assert_eq!(checked_timestamp(Some(-17), true), Ok(-17));
    assert_eq!(checked_timestamp(Some(17), false), Err(CvmfsError::InvalidTimestamp));
    assert_eq!(checked_timestamp(None, true), Err(CvmfsError::InvalidTimestamp));
    assert_eq!(checked_timestamp(None, false), Err(CvmfsError::InvalidTimestamp));
}

#[test]
fn a_text_that_is_no_date_is_no_replication_date() {
    assert_eq!(REPLICATION_DATE_FORMAT, "%a %e %h %H:%M:%S %Z %Y");
    assert_eq!(parse_replication_date(""), None);
    assert_eq!(parse_replication_date("yesterday"), None);
    assert_eq!(parse_replication_date("2024-01-15 12:00:00"), None);
    assert_eq!(parse_replication_date("Mon 15 Jan 12:00:00 2024"), None);
    assert_eq!(MIN_CALENDAR_SECONDS, -8_334_601_228_800);
    assert_eq!(MAX_CALENDAR_SECONDS, 8_210_266_876_799);
}

#[test]
fn a_replication_date_is_read_in_universal_time() {
    assert_eq!(parse_replication_date("Mon 15 Jan 12:00:00 UTC 2024"), Some(1_705_320_000));
    assert_eq!(parse_replication_date("Mon 15 Jan 12:00:00 CET 2024"), Some(1_705_320_000));
    assert_eq!(parse_replication_date("Thu  1 Jan 00:00:00 UTC 1970"), Some(0));
    assert_eq!(parse_replication_date("Wed 31 Dec 23:59:59 UTC 1969"), Some(-1));
    assert_eq!(parse_replication_date("Tue 15 Jan 12:00:00 UTC 2024"), None);
    assert_eq!(parse_replication_date("Fri 30 Feb 12:00:00 UTC 2024"), None);
    assert_eq!(parse_replication_date("Mon Jan 15 12:00:00 UTC 2024"), None);
}
