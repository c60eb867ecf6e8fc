//! The calls into `chrono` that the calendar makes, each behind a small
//! function whose contract states what `chrono` documents of it.
//!
//! Instants are carried as whole seconds since 1970-01-01 00:00:00 UTC.

use vstd::prelude::*;
use crate::gregorian::{
    CivilDate, days_in_month, is_day_near, is_valid_date, is_valid_time, max_timestamp, min_timestamp,
    month_name, unix_timestamp, within_a_day,
};
use chrono::{DateTime, Datelike, Local, Month, NaiveDate, NaiveDateTime, TimeZone, Utc};

verus! {

/// What `chrono::NaiveDateTime::parse_from_str(s, fmt)` gives for the text `s`
/// and the format `fmt`, as seconds since the epoch of that date and time read as UTC
/// (`None` where parsing fails).
pub uninterp spec fn parsed_utc_timestamp(s: Seq<char>, fmt: Seq<char>) -> Option<i64>;

/// Calls `NaiveDate::from_ymd_opt`. The contract claims what chrono documents:
/// a date is made exactly when the year, month and day form a date of the
/// proleptic Gregorian calendar within chrono's range of years.
#[verifier::external_body]
pub(crate) fn civil_date(year: i32, month: u8, day: u8) -> (r: Option<CivilDate>)
    ensures
        r == (if is_valid_date(year as int, month as int, day as int) {
            Some(CivilDate { year, month, day })
        } else {
            None::<CivilDate>
        }),
{
    match NaiveDate::from_ymd_opt(year, month as u32, day as u32) {
        Some(d) => Some(CivilDate { year: d.year(), month: d.month() as u8, day: d.day() as u8 }),
        None => None,
    }
}

/// Calls `Datelike::weekday` on the `NaiveDate` of `date`, numbered from Monday = 0
/// (`Weekday::num_days_from_monday`). The contract claims the proleptic Gregorian
/// day of the week.
#[verifier::external_body]
pub(crate) fn weekday_from_monday(date: &CivilDate) -> (r: u8)
    requires
        date.wf(),
    ensures
        r as int == crate::gregorian::weekday_from_monday(date.year as int, date.month as int, date.day as int),
{
    let d = NaiveDate::from_ymd_opt(date.year, date.month as u32, date.day as u32).unwrap();
    d.weekday().num_days_from_monday() as u8
}

/// Calls `Datelike::num_days_in_month` on the `NaiveDate` of `date`. The contract
/// claims the length of that month in the Gregorian calendar.
#[verifier::external_body]
pub(crate) fn num_days_in_month(date: &CivilDate) -> (r: u8)
    requires
        date.wf(),
    ensures
        r as int == days_in_month(date.year as int, date.month as int),
{
    let d = NaiveDate::from_ymd_opt(date.year, date.month as u32, date.day as u32).unwrap();
    d.num_days_in_month()
}

/// Calls `Month::name` on the month numbered `month` (`Month::try_from`, January = 1).
/// The contract claims the English month names of chrono's table.
#[verifier::external_body]
pub(crate) fn month_name_of(month: u8) -> (r: String)
    requires
        1 <= month <= 12,
    ensures
        r@ == month_name(month as int),
{
    Month::try_from(month).unwrap().name().to_string()
}

/// Calls `Local::now` and returns its date in the local time zone. Nothing is
/// claimed of which date it is (it depends on the clock and the time zone of the
/// machine), only that it is a date of the calendar.
#[verifier::external_body]
pub(crate) fn local_today() -> (r: CivilDate)
    ensures
        r.wf(),
{
    let now = Local::now();
    CivilDate { year: now.year(), month: now.month() as u8, day: now.day() as u8 }
}

/// Calls `NaiveDateTime::and_local_timezone(Local)` and `earliest` on `date` at
/// `hour:min:sec`, and tells whether that local time exists. Nothing is claimed of
/// the answer: it depends on the time zone of the machine.
#[verifier::external_body]
pub(crate) fn local_time_exists(date: &CivilDate, hour: u32, min: u32, sec: u32) -> (r: bool)
    requires
        date.wf(),
        is_valid_time(hour as int, min as int, sec as int),
{
    let d = NaiveDate::from_ymd_opt(date.year, date.month as u32, date.day as u32).unwrap();
    d.and_hms_opt(hour, min, sec).unwrap().and_local_timezone(Local).earliest().is_some()
}

/// Calls `Local.with_ymd_and_hms(..).single()` and returns the instant found. Where
/// it finds one, the contract claims that the date was valid, that the instant lies in
/// chrono's range, and that it lies less than a day from the same date and time read
/// as UTC (chrono's offsets are `FixedOffset`s, strictly under a day). Whether it finds
/// one, and the exact offset, depend on the time zone of the machine and are not stated.
#[verifier::external_body]
pub(crate) fn local_timestamp(year: i32, month: u8, day: u8, hour: u32, min: u32, sec: u32) -> (r: Option<i64>)
    ensures
        r matches Some(t) ==> {
            &&& is_valid_date(year as int, month as int, day as int)
            &&& is_valid_time(hour as int, min as int, sec as int)
            &&& min_timestamp() <= t <= max_timestamp()
            &&& within_a_day(t as int, year as int, month as int, day as int, hour as int, min as int, sec as int)
        },
{
    match Local.with_ymd_and_hms(year, month as u32, day as u32, hour, min, sec).single() {
        Some(t) => Some(t.timestamp()),
        None => None,
    }
}

/// Calls `Utc.with_ymd_and_hms(..).single()` and returns the instant. UTC has no
/// gaps or folds, so the contract claims an instant exactly for valid dates and times,
/// and that it is the Gregorian count of seconds since the epoch.
#[verifier::external_body]
pub(crate) fn utc_timestamp(year: i32, month: u8, day: u8, hour: u32, min: u32, sec: u32) -> (r: Option<i64>)
    ensures
        r == (if is_valid_date(year as int, month as int, day as int)
            && is_valid_time(hour as int, min as int, sec as int) {
            Some(unix_timestamp(year as int, month as int, day as int, hour as int, min as int, sec as int) as i64)
        } else {
            None::<i64>
        }),
{
    match Utc.with_ymd_and_hms(year, month as u32, day as u32, hour, min, sec).single() {
        Some(t) => Some(t.timestamp()),
        None => None,
    }
}

/// Calls `DateTime::with_timezone(&Local)` on the instant `t` and returns its day of
/// the month (`Datelike::day`). The local reading is `t` shifted by the local offset, a
/// `FixedOffset` strictly under a day, so the contract claims that the day is that of a
/// date and time less than a day from `t`; which offset applies depends on the time zone
/// of the machine and is not stated.
#[verifier::external_body]
pub(crate) fn local_day_of(t: i64) -> (r: u8)
    requires
        min_timestamp() <= t <= max_timestamp(),
    ensures
        1 <= r <= 31,
        is_day_near(t as int, r as int),
{
    DateTime::from_timestamp(t, 0).unwrap().with_timezone(&Local).day() as u8
}

/// Calls `NaiveDateTime::parse_from_str(s, fmt)` and returns the parsed date and time
/// read as UTC, in seconds since the epoch. The contract names the result and claims
/// that a parsed date and time lies in chrono's range.
#[verifier::external_body]
pub(crate) fn parse_utc_timestamp(s: &str, fmt: &str) -> (r: Option<i64>)
    ensures
        r == parsed_utc_timestamp(s@, fmt@),
        r matches Some(t) ==> min_timestamp() <= t <= max_timestamp(),
{
    match NaiveDateTime::parse_from_str(s, fmt) {
        Ok(dt) => Some(dt.and_utc().timestamp()),
        Err(_) => None,
    }
}

} // verus!
