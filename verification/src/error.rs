//! The errors of the calendar library.

use vstd::prelude::*;

verus! {

/// Why a calendar, a set of styles or a store of events could not be made.
#[derive(Clone, Copy, Debug, PartialEq, Eq, Structural)]
pub enum CalendarError {
    /// A calendar was asked for a year before year 0.
    NegativeYear,
    /// The year, month and day do not form a date of the calendar.
    InvalidDate,
    /// The local time asked for does not exist in the time zone of the machine.
    NoLocalTime,
    /// No iCalendar file was named.
    MissingIcsFile,
    /// The iCalendar data could not be parsed.
    IcsParse,
    /// An event's `DTSTART` property has no value.
    MissingDateValue,
    /// An event's `DTSTART` value ends in `Z` but is not a date and time `YYYYMMDDTHHMMSS`.
    InvalidDateValue,
    /// An event's `DTSTART` value is not given in UTC (it does not end in `Z`).
    UnsupportedDateValue,
    /// An event holds a property other than `DTSTART` and `SUMMARY`.
    UnsupportedProperty,
    /// An event has no `DTSTART` property.
    MissingStart,
}

} // verus!
