use calendar::models::{Event, EventStore};
use chrono::{Duration, TimeZone, Utc};

fn ts(year: i32, month: u32, day: u32) -> i64 {
    Utc.with_ymd_and_hms(year, month, day, 0, 0, 0).unwrap().timestamp()
}

fn event(title: &str, desc: &str, start: i64) -> Event {
    Event { title: title.to_string(), desc: desc.to_string(), start, end: start }
}

fn nothing_in_range(year: i32, days: i64) {
    let empty_store: EventStore = Default::default();
    let low = Utc.with_ymd_and_hms(year, 1, 1, 0, 0, 0).unwrap();
    let high = low + Duration::days(days);
    assert!(empty_store.by_range(low.timestamp(), high.timestamp()).is_none());
}

#[test]
fn nothing_in_range_recent_year() {
    nothing_in_range(2000, 9000);
}

#[test]
fn nothing_in_range_jesus_birth() {
    nothing_in_range(0, 800000);
}

#[test]
fn nothing_in_range_today() {
    nothing_in_range(2026, 1);
}

fn invalid_range(low: i64, high: i64) {
    let event_dt = ts(2026, 7, 20);
    let mut store = EventStore::new();
    store.add(event_dt, event("test", "test", event_dt));
    let result = store.by_range(low, high);
    assert!(result.is_none());
}

#[test]
fn invalid_ranges_reverse_range() {
    invalid_range(ts(2026, 7, 30), ts(2026, 7, 10));
}

#[test]
fn invalid_ranges_equal_range() {
    invalid_range(ts(2026, 7, 20), ts(2026, 7, 20));
}

#[test]
fn happy_path_day_range() {
    let event_dt = ts(2026, 7, 20);
    let mut store = EventStore::new();
    store.add(event_dt, event("test title", "test desc", event_dt));
    let result = store.by_range(ts(2026, 7, 20), ts(2026, 7, 21));
    assert!(result.is_some());
    let values = result.unwrap();
    assert_eq!(values.len(), 1);
    let value = values[0].clone();
    assert_eq!(value.title, "test title");
    assert_eq!(value.desc, "test desc");
    assert_eq!(value.start, event_dt);
}

#[test]
fn range_is_half_open() {
    let mut store = EventStore::new();
    store.add(100, event("at low", "", 100));
    store.add(200, event("at high", "", 200));
    let values = store.by_range(100, 200).unwrap();
    assert_eq!(values.len(), 1);
    assert_eq!(values[0].title, "at low");
    assert!(store.by_range(101, 200).is_none());
    assert_eq!(store.by_range(100, 201).unwrap().len(), 2);
}

#[test]
fn events_come_in_chronological_then_insertion_order() {
    let mut store = EventStore::new();
    store.add(300, event("c", "", 300));
    store.add(100, event("a1", "", 100));
    store.add(200, event("b", "", 200));
    store.add(100, event("a2", "", 100));
    store.add(-50, event("before epoch", "", -50));
    let titles: Vec<String> = store.by_range(-100, 1000).unwrap().into_iter().map(|e| e.title).collect();
    assert_eq!(titles, vec!["before epoch", "a1", "a2", "b", "c"]);
}

#[test]
fn adding_outside_a_range_leaves_it_unchanged() {
    let mut store = EventStore::new();
    store.add(150, event("inside", "", 150));
    let before = store.by_range(100, 200).unwrap();
    store.add(250, event("outside", "", 250));
    store.add(99, event("outside too", "", 99));
    let after = store.by_range(100, 200).unwrap();
    assert_eq!(before, after);
}

#[test]
fn range_splits_at_any_point() {
    let mut store = EventStore::new();
    for (i, t) in [10i64, 20, 30, 40, 50].iter().enumerate() {
        store.add(*t, event(&format!("e{}", i), "", *t));
    }
    let whole = store.by_range(0, 60).unwrap();
    let mut parts = store.by_range(0, 30).unwrap();
    parts.extend(store.by_range(30, 60).unwrap());
    assert_eq!(whole, parts);
}

#[test]
fn by_day_finds_the_events_of_a_utc_day() {
    let mut store = EventStore::new();
    let midnight = ts(2026, 7, 20);
    store.add(midnight, event("midnight", "", midnight));
    store.add(midnight + 86399, event("last second", "", midnight + 86399));
    store.add(midnight + 86400, event("next day", "", midnight + 86400));
    let day = store.by_day(20, 7, 2026).unwrap();
    assert_eq!(day.len(), 2);
    assert_eq!(day[0].title, "midnight");
    assert_eq!(day[1].title, "last second");
    assert_eq!(store.by_day(21, 7, 2026).unwrap()[0].title, "next day");
    assert!(store.by_day(22, 7, 2026).is_none());
}

#[test]
fn by_day_of_a_missing_date_is_none() {
    let mut store = EventStore::new();
    store.add(0, event("epoch", "", 0));
    assert!(store.by_day(30, 2, 2026).is_none());
    assert!(store.by_day(1, 13, 2026).is_none());
    assert!(store.by_day(0, 1, 1970).is_none());
    assert_eq!(store.by_day(1, 1, 1970).unwrap().len(), 1);
}

#[test]
fn event_clone_and_equality() {
    let a = event("t", "d", 5);
    let b = a.clone();
    assert_eq!(a, b);
    assert_ne!(a, event("t", "d", 6));
    assert_ne!(a, event("u", "d", 5));
}

#[test]
fn by_month_lists_all_events_in_start_order() {
    let mut store = EventStore::new();
    assert!(store.by_month().is_empty());
    store.add(300, event("c", "", 300));
    store.add(100, event("a1", "", 100));
    store.add(200, event("b", "", 200));
    store.add(100, event("a2", "", 100));
    let titles: Vec<String> = store.by_month().into_iter().map(|e| e.title).collect();
    assert_eq!(titles, vec!["a1".to_string(), "a2".to_string(), "b".to_string(), "c".to_string()]);
}
