use calendar::error::CalendarError;
use calendar::gregorian::{CivilDate, MAX_YEAR, MIN_YEAR};
use calendar::ics::parse_start;
use calendar::models::{CalendarModel, Event, EventStore};

fn date(year: i32, month: u8, day: u8) -> CivilDate {
    CivilDate { year, month, day }
}

/// Days from 0001-01-01, as the calendar formula of the library states it.
fn day_number(y: i64, m: i64, d: i64) -> i64 {
    let before_month = [0, 0, 31, 59, 90, 120, 151, 181, 212, 243, 273, 304, 334];
    let leap = (y % 4 == 0 && y % 100 != 0) || y % 400 == 0;
    let a = y - 1;
    365 * a + a.div_euclid(4) - a.div_euclid(100) + a.div_euclid(400) + before_month[m as usize]
        + if m > 2 && leap { 1 } else { 0 } + d - 1
}

#[test]
fn calendars_exist_exactly_for_calendar_dates() {
    assert!(CalendarModel::new(Some(29), 2, 2024).is_ok());
    assert_eq!(CalendarModel::new(Some(29), 2, 2023).unwrap_err(), CalendarError::InvalidDate);
    assert_eq!(CalendarModel::new(Some(31), 4, 2026).unwrap_err(), CalendarError::InvalidDate);
    assert_eq!(CalendarModel::new(Some(0), 1, 2026).unwrap_err(), CalendarError::InvalidDate);
    assert!(CalendarModel::new(Some(31), 12, MAX_YEAR).is_ok());
    assert_eq!(CalendarModel::new(None, 1, MAX_YEAR + 1).unwrap_err(), CalendarError::InvalidDate);
    assert_eq!(CalendarModel::new(None, 1, MIN_YEAR).unwrap_err(), CalendarError::NegativeYear);
}

#[test]
fn first_weekdays_follow_the_day_count() {
    for (y, m) in [(1i32, 1u8), (1970, 1), (2026, 7), (0, 2), (-44, 3), (MAX_YEAR, 12), (MIN_YEAR, 1)] {
        let expected = (day_number(y as i64, m as i64, 1) + 1).rem_euclid(7) as u8;
        assert_eq!(CalendarModel::from_date(date(y, m, 1)).start_day, expected);
    }
}

#[test]
fn month_lengths_and_names() {
    let names = [
        "January", "February", "March", "April", "May", "June", "July", "August", "September", "October",
        "November", "December",
    ];
    let lengths = [31u8, 28, 31, 30, 31, 30, 31, 31, 30, 31, 30, 31];
    for m in 1..=12u8 {
        let model = CalendarModel::from_date(date(2026, m, 1));
        assert_eq!(model.month_name, names[m as usize - 1]);
        assert_eq!(model.n_days, lengths[m as usize - 1]);
    }
    assert_eq!(CalendarModel::from_date(date(2024, 2, 1)).n_days, 29);
    assert_eq!(CalendarModel::from_date(date(2100, 2, 1)).n_days, 28);
}

fn one_event_at(t: i64) -> EventStore {
    let mut store = EventStore::new();
    store.add(t, Event { title: "e".to_string(), desc: String::new(), start: t, end: t });
    store
}

#[test]
fn utc_days_start_where_the_day_count_says() {
    let t = (day_number(0, 3, 1) - day_number(1970, 1, 1)) * 86400;
    let store = one_event_at(t);
    assert_eq!(store.by_day(1, 3, 0).unwrap().len(), 1);
    assert!(store.by_day(29, 2, 0).is_none());
    assert!(one_event_at(t - 1).by_day(1, 3, 0).is_none());
    assert_eq!(one_event_at(t - 1).by_day(29, 2, 0).unwrap().len(), 1);
    assert_eq!(one_event_at(1784541600).by_day(20, 7, 2026).unwrap().len(), 1);
}

#[test]
fn start_values_parse_as_utc() {
    assert_eq!(parse_start(&Some("20260720T100000Z".to_string())), Ok(1784541600));
    assert_eq!(parse_start(&Some("20260720T100000ZZ".to_string())), Err(CalendarError::InvalidDateValue));
    assert_eq!(parse_start(&Some("20260720Z".to_string())), Err(CalendarError::InvalidDateValue));
    assert_eq!(parse_start(&Some("20260230T000000Z".to_string())), Err(CalendarError::InvalidDateValue));
    assert_eq!(parse_start(&Some("2026072010000Z0".to_string())), Err(CalendarError::UnsupportedDateValue));
}
