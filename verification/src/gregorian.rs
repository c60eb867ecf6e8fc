//! The proleptic Gregorian calendar, stated as spec functions, and the plain
//! date type that the library passes around.

use vstd::prelude::*;

verus! {

/// The earliest year that a calendar date may have (the range of `chrono::NaiveDate`).
pub const MIN_YEAR: i32 = -262143;

/// The latest year that a calendar date may have (the range of `chrono::NaiveDate`).
pub const MAX_YEAR: i32 = 262142;

/// Seconds in a day.
pub const SECONDS_PER_DAY: i64 = 86400;

/// Leap years: divisible by 4, except centuries that are not divisible by 400.
pub open spec fn is_leap_year(y: int) -> bool {
    (y % 4 == 0 && y % 100 != 0) || y % 400 == 0
}

/// Number of days of month `m` (1 to 12) in year `y`.
pub open spec fn days_in_month(y: int, m: int) -> int {
    if m == 2 {
        if is_leap_year(y) { 29 } else { 28 }
    } else if m == 4 || m == 6 || m == 9 || m == 11 {
        30
    } else {
        31
    }
}

/// Number of days of year `y` that come before the first day of month `m`.
pub open spec fn days_before_month(y: int, m: int) -> int {
    let base: int = if m <= 1 { 0 }
        else if m == 2 { 31 }
        else if m == 3 { 59 }
        else if m == 4 { 90 }
        else if m == 5 { 120 }
        else if m == 6 { 151 }
        else if m == 7 { 181 }
        else if m == 8 { 212 }
        else if m == 9 { 243 }
        else if m == 10 { 273 }
        else if m == 11 { 304 }
        else { 334 };
    if m > 2 && is_leap_year(y) { base + 1 } else { base }
}

/// Number of days from 0001-01-01 to the first day of year `y` (negative before year 1).
pub open spec fn days_before_year(y: int) -> int {
    365 * (y - 1) + (y - 1) / 4 - (y - 1) / 100 + (y - 1) / 400
}

/// Number of days from 0001-01-01 (day 0) to the date `y-m-d`.
pub open spec fn day_number(y: int, m: int, d: int) -> int {
    days_before_year(y) + days_before_month(y, m) + d - 1
}

/// Day of the week of `y-m-d`, counted from Monday = 0 (0001-01-01 was a Monday).
pub open spec fn weekday_from_monday(y: int, m: int, d: int) -> int {
    day_number(y, m, d) % 7
}

/// Day of the week of `y-m-d`, counted from Sunday = 0.
pub open spec fn weekday_from_sunday(y: int, m: int, d: int) -> int {
    (day_number(y, m, d) + 1) % 7
}

/// `y-m-d` is a date of the calendar, within the supported range of years.
pub open spec fn is_valid_date(y: int, m: int, d: int) -> bool {
    &&& MIN_YEAR <= y <= MAX_YEAR
    &&& 1 <= m <= 12
    &&& 1 <= d <= days_in_month(y, m)
}

/// `h:mi:s` is a time of day (no leap second).
pub open spec fn is_valid_time(h: int, mi: int, s: int) -> bool {
    0 <= h < 24 && 0 <= mi < 60 && 0 <= s < 60
}

/// Seconds since 1970-01-01 00:00:00 UTC of the UTC date and time `y-m-d h:mi:s`.
pub open spec fn unix_timestamp(y: int, m: int, d: int, h: int, mi: int, s: int) -> int {
    (day_number(y, m, d) - day_number(1970, 1, 1)) * 86400 + h * 3600 + mi * 60 + s
}

/// The date and time `y-m-d h:mi:s` read as UTC lies less than a day from the instant `t`:
/// it is how `t` reads on a clock set off UTC by less than a day.
pub open spec fn within_a_day(t: int, y: int, m: int, d: int, h: int, mi: int, s: int) -> bool {
    unix_timestamp(y, m, d, h, mi, s) - 86400 < t < unix_timestamp(y, m, d, h, mi, s) + 86400
}

/// `d` is the day of the month that the instant `t` shows on a clock set off UTC by less
/// than a day: some date and time on a day `d` of a month lies less than a day from `t`.
pub open spec fn is_day_near(t: int, d: int) -> bool {
    exists|y: int, m: int, h: int, mi: int, s: int|
        1 <= m <= 12 && 1 <= d <= days_in_month(y, m) && is_valid_time(h, mi, s)
            && #[trigger] within_a_day(t, y, m, d, h, mi, s)
}

/// The earliest instant that a date and time can have, in seconds since the epoch.
pub open spec fn min_timestamp() -> int {
    unix_timestamp(MIN_YEAR as int, 1, 1, 0, 0, 0)
}

/// The latest instant that a date and time can have, in seconds since the epoch.
pub open spec fn max_timestamp() -> int {
    unix_timestamp(MAX_YEAR as int, 12, 31, 23, 59, 59)
}

/// English name of month `m` (1 to 12).
pub open spec fn month_name(m: int) -> Seq<char> {
    if m == 1 { "January"@ }
    else if m == 2 { "February"@ }
    else if m == 3 { "March"@ }
    else if m == 4 { "April"@ }
    else if m == 5 { "May"@ }
    else if m == 6 { "June"@ }
    else if m == 7 { "July"@ }
    else if m == 8 { "August"@ }
    else if m == 9 { "September"@ }
    else if m == 10 { "October"@ }
    else if m == 11 { "November"@ }
    else { "December"@ }
}

/// A calendar date: year, month (1 to 12) and day of the month (from 1).
#[derive(Clone, Copy, Debug, PartialEq, Eq, Structural)]
pub struct CivilDate {
    pub year: i32,
    pub month: u8,
    pub day: u8,
}

impl CivilDate {
    /// The date exists in the calendar and lies within the supported years.
    pub open spec fn wf(self) -> bool {
        is_valid_date(self.year as int, self.month as int, self.day as int)
    }
}

/// A valid date and time lies well within the range of `i64` seconds.
pub proof fn lemma_timestamp_bounds(y: int, m: int, d: int, h: int, mi: int, s: int)
    requires
        is_valid_date(y, m, d),
        is_valid_time(h, mi, s),
    ensures
        min_timestamp() <= unix_timestamp(y, m, d, h, mi, s) <= max_timestamp(),
        -10_000_000_000_000 < min_timestamp(),
        max_timestamp() < 10_000_000_000_000,
{
    lemma_days_before_year_monotone(y, MAX_YEAR as int);
    lemma_days_before_year_monotone(MIN_YEAR as int, y);
}

/// Later years start later.
pub proof fn lemma_days_before_year_monotone(a: int, b: int)
    requires
        a <= b,
    ensures
        days_before_year(a) + (if a < b && is_leap_year(a) { 366int } else if a < b { 365int } else { 0int })
            <= days_before_year(b),
    decreases b - a,
{
    if a < b {
        lemma_year_length(a);
        if a + 1 < b {
            lemma_days_before_year_monotone(a + 1, b);
        }
    }
}

/// Every month has between 28 and 31 days.
pub proof fn lemma_days_in_month_bounds(y: int, m: int)
    ensures
        28 <= days_in_month(y, m) <= 31,
{
}

/// February has 29 days exactly in leap years, and 28 otherwise.
pub proof fn lemma_february_length(y: int)
    ensures
        days_in_month(y, 2) == 29 <==> is_leap_year(y),
        days_in_month(y, 2) == 28 <==> !is_leap_year(y),
{
}

/// The day after the last day of a month is the first day of the next month
/// (in the count of days), so consecutive months follow each other without gap.
pub proof fn lemma_month_follows(y: int, m: int)
    requires
        1 <= m < 12,
    ensures
        day_number(y, m, days_in_month(y, m)) + 1 == day_number(y, m + 1, 1),
{
}

/// 31 December is followed by 1 January of the next year.
pub proof fn lemma_year_follows(y: int)
    ensures
        day_number(y, 12, 31) + 1 == day_number(y + 1, 1, 1),
{
    assert(days_before_year(y + 1) == days_before_year(y) + (if is_leap_year(y) { 366int } else { 365int })) by {
        lemma_year_length(y);
    }
}

/// A year has 366 days if it is a leap year and 365 otherwise.
pub proof fn lemma_year_length(y: int)
    ensures
        days_before_year(y + 1) - days_before_year(y) == if is_leap_year(y) { 366int } else { 365int },
{
    assert(y / 4 == (y - 1) / 4 + (if y % 4 == 0 { 1int } else { 0int }));
    assert(y / 100 == (y - 1) / 100 + (if y % 100 == 0 { 1int } else { 0int }));
    assert(y / 400 == (y - 1) / 400 + (if y % 400 == 0 { 1int } else { 0int }));
}

} // verus!
