use calendar::error::CalendarError;
use calendar::ics::{events_from_entries, parse_start, read_event, read_events, IcsEntry, IcsProperty};
use chrono::{TimeZone, Utc};

fn ics(events: &[&[&str]]) -> String {
    let mut s = String::from("BEGIN:VCALENDAR\r\nVERSION:2.0\r\n");
    for props in events {
        s.push_str("BEGIN:VEVENT\r\n");
        for p in props.iter() {
            s.push_str(p);
            s.push_str("\r\n");
        }
        s.push_str("END:VEVENT\r\n");
    }
    s.push_str("END:VCALENDAR\r\n");
    s
}

fn ts(year: i32, month: u32, day: u32, h: u32, mi: u32, s: u32) -> i64 {
    Utc.with_ymd_and_hms(year, month, day, h, mi, s).unwrap().timestamp()
}

fn err_of(data: &str) -> CalendarError {
    match read_events(data.as_bytes()) {
        Ok(_) => panic!("expected an error"),
        Err(e) => e,
    }
}

#[test]
fn reads_events_filed_by_start() {
    let data = ics(&[
        &["DTSTART:20260720T100000Z", "SUMMARY:Meeting"],
        &["SUMMARY:Lunch", "DTSTART:20260720T120000Z"],
        &["DTSTART:20260801T000000Z"],
    ]);
    let store = read_events(data.as_bytes()).unwrap();
    let day = store.by_day(20, 7, 2026).unwrap();
    assert_eq!(day.len(), 2);
    assert_eq!(day[0].title, "Meeting");
    assert_eq!(day[0].desc, "Meeting");
    assert_eq!(day[0].start, ts(2026, 7, 20, 10, 0, 0));
    assert_eq!(day[0].end, day[0].start);
    assert_eq!(day[1].title, "Lunch");
    let august = store.by_day(1, 8, 2026).unwrap();
    assert_eq!(august.len(), 1);
    assert_eq!(august[0].title, "");
}

#[test]
fn same_start_keeps_file_order() {
    let data = ics(&[
        &["DTSTART:20260720T100000Z", "SUMMARY:first"],
        &["DTSTART:20260720T100000Z", "SUMMARY:second"],
    ]);
    let store = read_events(data.as_bytes()).unwrap();
    let titles: Vec<String> = store.by_day(20, 7, 2026).unwrap().into_iter().map(|e| e.title).collect();
    assert_eq!(titles, vec!["first", "second"]);
}

#[test]
fn later_property_wins() {
    let data = ics(&[&["DTSTART:20260720T100000Z", "SUMMARY:a", "SUMMARY:b", "DTSTART:20260721T100000Z"]]);
    let store = read_events(data.as_bytes()).unwrap();
    assert!(store.by_day(20, 7, 2026).is_none());
    assert_eq!(store.by_day(21, 7, 2026).unwrap()[0].title, "b");
}

#[test]
fn empty_data_gives_empty_store() {
    let store = read_events(b"").unwrap();
    assert!(store.by_range(i64::MIN, i64::MAX).is_none());
}

#[test]
fn unparsable_data_is_a_parse_error() {
    assert_eq!(err_of("this is not a calendar\r\n"), CalendarError::IcsParse);
}

#[test]
fn date_value_errors() {
    assert_eq!(err_of(&ics(&[&["DTSTART:20260720T100000", "SUMMARY:x"]])), CalendarError::UnsupportedDateValue);
    assert_eq!(err_of(&ics(&[&["DTSTART:2026-07-20Z", "SUMMARY:x"]])), CalendarError::InvalidDateValue);
    assert_eq!(err_of(&ics(&[&["DTSTART:20261320T100000Z"]])), CalendarError::InvalidDateValue);
}

#[test]
fn missing_start_and_unsupported_property() {
    assert_eq!(err_of(&ics(&[&["SUMMARY:x"]])), CalendarError::MissingStart);
    assert_eq!(err_of(&ics(&[&["DTSTART:20260720T100000Z", "UID:1"]])), CalendarError::UnsupportedProperty);
    // The first error in file order is the one reported.
    assert_eq!(err_of(&ics(&[&["UID:1", "DTSTART:bad"]])), CalendarError::UnsupportedProperty);
}

#[test]
fn parse_start_reads_utc_values() {
    assert_eq!(parse_start(&Some("20260720T100000Z".to_string())), Ok(ts(2026, 7, 20, 10, 0, 0)));
    assert_eq!(parse_start(&Some("19700101T000000Z".to_string())), Ok(0));
    assert_eq!(parse_start(&None), Err(CalendarError::MissingDateValue));
    assert_eq!(parse_start(&Some("20260720T100000".to_string())), Err(CalendarError::UnsupportedDateValue));
    assert_eq!(parse_start(&Some("Z".to_string())), Err(CalendarError::InvalidDateValue));
    assert_eq!(parse_start(&Some("".to_string())), Err(CalendarError::UnsupportedDateValue));
}

fn prop(name: &str, value: Option<&str>) -> IcsProperty {
    IcsProperty { name: name.to_string(), value: value.map(|v| v.to_string()) }
}

#[test]
fn read_event_from_properties() {
    let e = read_event(&vec![prop("SUMMARY", None), prop("DTSTART", Some("20260101T000000Z"))]).unwrap();
    assert_eq!(e.title, "");
    assert_eq!(e.start, ts(2026, 1, 1, 0, 0, 0));
    assert_eq!(read_event(&vec![prop("DTSTART", None)]).unwrap_err(), CalendarError::MissingDateValue);
    assert_eq!(read_event(&vec![]).unwrap_err(), CalendarError::MissingStart);
}

#[test]
fn entries_stop_at_the_first_invalid_one() {
    let ok = IcsEntry::Calendar(vec![vec![prop("DTSTART", Some("20260101T000000Z"))]]);
    let store = events_from_entries(&vec![ok]).unwrap();
    assert_eq!(store.by_day(1, 1, 2026).unwrap().len(), 1);
    let ok2 = IcsEntry::Calendar(vec![vec![prop("DTSTART", Some("20260101T000000Z"))]]);
    let bad_event = IcsEntry::Calendar(vec![vec![prop("X", None)]]);
    assert_eq!(events_from_entries(&vec![ok2, IcsEntry::Invalid, bad_event]).unwrap_err(), CalendarError::IcsParse);
}

#[test]
fn every_calendar_object_is_read() {
    let two = format!("{}{}", ics(&[&["DTSTART:20260101T000000Z", "SUMMARY:one"]]), ics(&[&["DTSTART:20260102T000000Z", "SUMMARY:two"]]));
    let store = read_events(two.as_bytes()).unwrap();
    assert_eq!(store.by_day(1, 1, 2026).unwrap()[0].title, "one");
    assert_eq!(store.by_day(2, 1, 2026).unwrap()[0].title, "two");
    let then_bad = format!("{}garbage\r\n", ics(&[&["DTSTART:20260101T000000Z"]]));
    assert_eq!(read_events(then_bad.as_bytes()).unwrap_err(), CalendarError::IcsParse);
}
