use calendar::app::{get_styles, month_view, App, Key};
use calendar::models::CalendarModel;
use calendar::error::CalendarError;
use calendar::gregorian::CivilDate;
use calendar::views::{DayColor, DayStyle};
use chrono::{Datelike, Local, TimeZone};

fn app_at(current_month: u8, current_year: i32) -> App {
    App::for_today(CivilDate { year: current_year, month: current_month, day: 1 })
}

fn next_calendar(current_month: u8, current_year: i32, exp_month: u8, exp_year: i32) {
    let mut app = app_at(current_month, current_year);
    app.next_calendar(None).unwrap();
    assert_eq!(exp_month, app.current_month());
    assert_eq!(exp_year, app.current_year());
}

#[test]
fn next_calendar_jan_2026() {
    next_calendar(1, 2026, 2, 2026);
}

#[test]
fn next_calendar_dec_2026() {
    next_calendar(12, 2026, 1, 2027);
}

#[test]
fn next_calendar_dec_1999() {
    next_calendar(12, 1999, 1, 2000);
}

fn prev_calendar(current_month: u8, current_year: i32, exp_month: u8, exp_year: i32) {
    let mut app = app_at(current_month, current_year);
    app.prev_calendar(None).unwrap();
    assert_eq!(exp_month, app.current_month());
    assert_eq!(exp_year, app.current_year());
}

#[test]
fn prev_calendar_jan_2026() {
    prev_calendar(1, 2026, 12, 2025);
}

#[test]
fn prev_calendar_dec_2026() {
    prev_calendar(12, 2026, 11, 2026);
}

fn blue() -> DayStyle {
    DayStyle::Colored(DayColor::Blue)
}

fn green() -> DayStyle {
    DayStyle::Colored(DayColor::Green)
}

#[test]
fn today_is_marked_only_in_its_month() {
    let mut app = App::for_today(CivilDate { year: 2026, month: 7, day: 15 });
    assert_eq!(app.calendar_view().styled_days, vec![(15, blue())]);
    assert_eq!(app.calendar_model().today, Some(15));
    app.next_calendar(None).unwrap();
    assert!(app.calendar_view().styled_days.is_empty());
    assert_eq!(app.calendar_view().month_name, "August");
    assert_eq!(app.calendar_model().today, Some(1));
    app.prev_calendar(None).unwrap();
    assert_eq!(app.calendar_view().styled_days, vec![(15, blue())]);
    assert_eq!(app.calendar_view().year, 2026);
    assert_eq!(app.calendar_view().n_days, 31);
    assert_eq!(app.calendar_view().start_day, 3);
}

#[test]
fn next_then_prev_returns_to_the_same_month() {
    for month in 1..=12u8 {
        let mut app = app_at(month, 2026);
        let start_day = app.calendar_model().start_day;
        let n_days = app.calendar_model().n_days;
        let name = app.calendar_model().month_name.clone();
        app.next_calendar(None).unwrap();
        app.prev_calendar(None).unwrap();
        assert_eq!(app.current_month(), month);
        assert_eq!(app.current_year(), 2026);
        assert_eq!(app.calendar_model().start_day, start_day);
        assert_eq!(app.calendar_model().n_days, n_days);
        assert_eq!(app.calendar_model().month_name, name);
        assert_eq!(app.calendar_view().start_day, start_day);
        assert_eq!(app.calendar_view().n_days, n_days as usize);
        assert_eq!(app.calendar_view().month_name, name);
        assert_eq!(app.calendar_view().year, 2026);
    }
}

#[test]
fn twelve_steps_reach_the_next_year() {
    let mut app = app_at(5, 2026);
    for _ in 0..12 {
        app.next_calendar(None).unwrap();
    }
    assert_eq!(app.current_month(), 5);
    assert_eq!(app.current_year(), 2027);
}

#[test]
fn keys_move_and_exit() {
    let mut app = app_at(3, 2026);
    app.handle_key_event(Key::Right, None).unwrap();
    assert_eq!(app.current_month(), 4);
    app.handle_key_event(Key::Char('j'), None).unwrap();
    assert_eq!(app.current_month(), 5);
    app.handle_key_event(Key::Left, None).unwrap();
    app.handle_key_event(Key::Char('k'), None).unwrap();
    app.handle_key_event(Key::Char('k'), None).unwrap();
    assert_eq!(app.current_month(), 2);
    app.handle_key_event(Key::Char('x'), None).unwrap();
    app.handle_key_event(Key::Other, None).unwrap();
    assert_eq!(app.current_month(), 2);
    assert!(!app.should_exit());
    app.handle_key_event(Key::Char('q'), None).unwrap();
    assert!(app.should_exit());
    let mut other = app_at(3, 2026);
    other.handle_key_event(Key::Esc, None).unwrap();
    assert!(other.should_exit());
    assert_eq!(other.current_month(), 3);
}

#[test]
fn exit_keeps_the_month() {
    let mut app = app_at(9, 2030);
    app.exit();
    assert!(app.should_exit());
    assert_eq!(app.current_month(), 9);
    assert_eq!(app.current_year(), 2030);
}

#[test]
fn is_today_compares_dates() {
    let app = App::for_today(CivilDate { year: 2026, month: 7, day: 15 });
    assert!(app.is_today(CivilDate { year: 2026, month: 7, day: 15 }));
    assert!(!app.is_today(CivilDate { year: 2026, month: 7, day: 16 }));
    assert!(!app.is_today(CivilDate { year: 2025, month: 7, day: 15 }));
}

fn data() -> &'static [u8] {
    "BEGIN:VCALENDAR\r\nBEGIN:VEVENT\r\nDTSTART:20260720T100000Z\r\nSUMMARY:Meeting\r\nEND:VEVENT\r\nBEGIN:VEVENT\r\nDTSTART:20260805T100000Z\r\nSUMMARY:Later\r\nEND:VEVENT\r\nEND:VCALENDAR\r\n".as_bytes()
}

fn local_day(t: i64) -> u8 {
    chrono::DateTime::from_timestamp(t, 0).unwrap().with_timezone(&Local).day() as u8
}

#[test]
fn styles_mark_the_events_of_the_month() {
    let styles = get_styles(Some(data()), 7, 2026, 31).unwrap();
    assert_eq!(styles, vec![(local_day(1784541600), green())]);
    let none_in_june = get_styles(Some(data()), 6, 2026, 30).unwrap();
    assert!(none_in_june.is_empty());
    assert_eq!(get_styles(None, 7, 2026, 31), Err(CalendarError::MissingIcsFile));
    assert_eq!(get_styles(Some(b"nonsense\r\n"), 7, 2026, 31), Err(CalendarError::IcsParse));
    assert_eq!(get_styles(Some(data()), 13, 2026, 31), Err(CalendarError::NoLocalTime));
}

#[test]
fn styles_range_covers_n_days_from_local_midnight() {
    let start = Local.with_ymd_and_hms(2026, 7, 1, 0, 0, 0).single().unwrap().timestamp();
    assert!(start <= 1784541600);
    // With only 19 days from the first, the event of the 20th is left out.
    assert!(get_styles(Some(data()), 7, 2026, 19).unwrap().is_empty());
}

#[test]
fn navigation_marks_events_before_today() {
    let mut app = App::for_today(CivilDate { year: 2026, month: 6, day: 10 });
    app.next_calendar(Some(data())).unwrap();
    assert_eq!(app.calendar_view().styled_days, vec![(local_day(1784541600), green())]);
    app.prev_calendar(Some(data())).unwrap();
    assert_eq!(app.calendar_view().styled_days, vec![(10, blue())]);
    let mut in_july = App::for_today(CivilDate { year: 2026, month: 7, day: 3 });
    in_july.next_calendar(Some(b"bad\r\n")).unwrap();
    assert!(in_july.calendar_view().styled_days.is_empty());
    in_july.prev_calendar(Some(data())).unwrap();
    assert_eq!(in_july.calendar_view().styled_days, vec![(local_day(1784541600), green()), (3, blue())]);
}

#[test]
fn with_ics_dir_puts_event_marks_first() {
    let app = App::for_today(CivilDate { year: 2026, month: 7, day: 3 });
    let with = app.with_ics_dir(Some("events.ics".to_string()), Some(data())).unwrap();
    assert_eq!(with.ics_directory, Some("events.ics".to_string()));
    assert_eq!(with.calendar_view().styled_days, vec![(local_day(1784541600), green()), (3, blue())]);
    assert_eq!(with.current_month(), 7);
    assert!(app.ics_directory.is_none());
    assert_eq!(app.with_ics_dir(None, None).unwrap_err(), CalendarError::MissingIcsFile);
    assert_eq!(app.with_ics_dir(Some("x".to_string()), Some(b"bad\r\n")).unwrap_err(), CalendarError::IcsParse);
}

#[test]
fn default_shows_todays_month() {
    let app = App::default();
    let now = Local::now();
    assert_eq!(app.current_month() as u32, now.month());
    assert_eq!(app.current_year(), now.year());
    assert!(app.calendar_view().styled_days.contains(&(now.day() as u8, blue())));
    assert!(!app.should_exit());
}

#[test]
fn month_view_marks_events_then_today() {
    let today = CivilDate { year: 2026, month: 3, day: 10 };
    let model = CalendarModel::new(None, 3, 2026).unwrap();
    let styles = Ok(vec![(4u8, green()), (20u8, green())]);
    let view = month_view(&model, 2026, 3, styles, today);
    assert_eq!(view.styled_days, vec![(4, green()), (20, green()), (10, blue())]);
    assert_eq!(view.year, 2026);
    assert_eq!(view.start_day, model.start_day);
    assert_eq!(view.n_days, model.n_days as usize);
    assert_eq!(view.month_name, "March");

    let failed = month_view(&model, 2026, 3, Err(CalendarError::NoLocalTime), today);
    assert_eq!(failed.styled_days, vec![(10, blue())]);

    let other = CalendarModel::new(None, 4, 2026).unwrap();
    let april = month_view(&other, 2026, 4, Ok(vec![(1u8, green())]), today);
    assert_eq!(april.styled_days, vec![(1, green())]);
}

#[test]
fn set_month_keeps_today_and_draws_the_model() {
    let mut app = app_at(3, 2026);
    let model = CalendarModel::new(None, 5, 2026).unwrap();
    let start_day = model.start_day;
    app.set_month(5, 2026, model, Err(CalendarError::MissingIcsFile));
    assert_eq!(app.current_month(), 5);
    assert_eq!(app.current_year(), 2026);
    assert_eq!(app.calendar_view().start_day, start_day);
    assert!(app.calendar_view().styled_days.is_empty());
    assert!(app.is_today(CivilDate { year: 2026, month: 3, day: 1 }));
}
