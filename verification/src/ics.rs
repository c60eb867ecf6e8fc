//! Reading calendar events out of iCalendar data.
//!
//! The `ical` crate splits the data into calendars, events and properties; the
//! library then reads the start (`DTSTART`) and the summary (`SUMMARY`) of each
//! event and files the event in an [`EventStore`] under its start.

use vstd::prelude::*;
use ical::IcalParser;
use crate::datetime::{parse_utc_timestamp, parsed_utc_timestamp};
use crate::error::CalendarError;
use crate::gregorian::{max_timestamp, min_timestamp};
use crate::models::{
    add_event, filed_at_start, lemma_add_at_start, lemma_add_keeps_starts, lemma_range_in_order, range_events,
    starts_in_range, starts_inside_in_order, Event, EventStore, EventView,
};

verus! {

/// A property of an iCalendar component: its name and its value, if it has one.
#[derive(Debug)]
pub struct IcsProperty {
    pub name: String,
    pub value: Option<String>,
}

/// The plain value of a property: its name and its value.
pub type PropertyView = (Seq<char>, Option<Seq<char>>);

impl View for IcsProperty {
    type V = PropertyView;

    open spec fn view(&self) -> PropertyView {
        (self.name@, match self.value {
            Some(v) => Some(v@),
            None => None,
        })
    }
}

/// What the iCalendar parser yields for one calendar object: the properties of
/// each of its events, in order, or a failure to parse it.
#[derive(Debug)]
pub enum IcsEntry {
    Calendar(Vec<Vec<IcsProperty>>),
    Invalid,
}

/// The plain value of the properties of one event.
pub open spec fn properties_view(v: Seq<IcsProperty>) -> Seq<PropertyView> {
    v.map_values(|p: IcsProperty| p@)
}

/// The plain value of an entry: the properties of each event, or `None` for a failure.
pub open spec fn entry_view(e: IcsEntry) -> Option<Seq<Seq<PropertyView>>> {
    match e {
        IcsEntry::Calendar(events) => Some(events@.map_values(|ev: Vec<IcsProperty>| properties_view(ev@))),
        IcsEntry::Invalid => None,
    }
}

/// The plain values of a list of entries.
pub open spec fn entries_view(v: Seq<IcsEntry>) -> Seq<Option<Seq<Seq<PropertyView>>>> {
    v.map_values(|e: IcsEntry| entry_view(e))
}

/// What `ical::IcalParser` yields for the bytes `source`, calendar object by calendar
/// object, up to and including the first one it fails to parse.
pub uninterp spec fn ical_entries(source: Seq<u8>) -> Seq<Option<Seq<Seq<PropertyView>>>>;

/// Runs `ical::IcalParser` over `source` (its `Iterator::next`) and keeps, of each
/// calendar object, the name and value of each property of each event, stopping after
/// the first object that fails to parse. The contract names the result; nothing more
/// is claimed of the parser.
#[verifier::external_body]
pub(crate) fn parse_ics(source: &[u8]) -> (r: Vec<IcsEntry>)
    ensures
        entries_view(r@) == ical_entries(source@),
{
    let mut out = Vec::new();
    for entry in IcalParser::new(source) {
        match entry {
            Ok(cal) => out.push(IcsEntry::Calendar(cal.events.into_iter().map(|ev| ev.properties.into_iter()
                .map(|p| IcsProperty { name: p.name, value: p.value }).collect()).collect())),
            Err(_) => {
                out.push(IcsEntry::Invalid);
                break;
            },
        }
    }
    out
}

/// The format of a UTC date and time in `DTSTART`, once its final `Z` is removed.
pub open spec fn date_format() -> Seq<char> {
    "%Y%m%dT%H%M%S"@
}

/// The start instant that a `DTSTART` value gives: a date and time `YYYYMMDDTHHMMSS`
/// followed by `Z` (UTC). A missing value, a value not in UTC and a value that does not
/// parse are errors.
pub open spec fn start_value(value: Option<Seq<char>>) -> Result<i64, CalendarError> {
    match value {
        None => Err(CalendarError::MissingDateValue),
        Some(s) => if s.len() > 0 && s.last() == 'Z' {
            match parsed_utc_timestamp(s.drop_last(), date_format()) {
                Some(t) => Ok(t),
                None => Err(CalendarError::InvalidDateValue),
            }
        } else {
            Err(CalendarError::UnsupportedDateValue)
        },
    }
}

/// Reading one more property of an event, after the start and summary read so far.
pub open spec fn read_property(
    acc: Result<(Option<i64>, Seq<char>), CalendarError>,
    p: PropertyView,
) -> Result<(Option<i64>, Seq<char>), CalendarError> {
    match acc {
        Err(e) => Err(e),
        Ok((start, summary)) => if p.0 == "DTSTART"@ {
            match start_value(p.1) {
                Ok(t) => Ok((Some(t), summary)),
                Err(e) => Err(e),
            }
        } else if p.0 == "SUMMARY"@ {
            Ok((start, match p.1 {
                Some(v) => v,
                None => Seq::<char>::empty(),
            }))
        } else {
            Err(CalendarError::UnsupportedProperty)
        },
    }
}

/// The start and summary that the properties of an event give, read in order (a later
/// property overrides an earlier one of the same name); the first error stops the reading.
pub open spec fn read_properties(ps: Seq<PropertyView>) -> Result<(Option<i64>, Seq<char>), CalendarError>
    decreases ps.len(),
{
    if ps.len() == 0 {
        Ok((None, Seq::<char>::empty()))
    } else {
        read_property(read_properties(ps.drop_last()), ps.last())
    }
}

/// The event that the properties of an iCalendar event give: its summary is its title
/// and description, and it starts and ends at its start. An event without start is an error.
pub open spec fn event_of(ps: Seq<PropertyView>) -> Result<EventView, CalendarError> {
    match read_properties(ps) {
        Err(e) => Err(e),
        Ok((None, _)) => Err(CalendarError::MissingStart),
        Ok((Some(t), summary)) => Ok((summary, summary, t, t)),
    }
}

/// The store `m` after filing the events of a calendar object in order, each under its
/// start; the first error stops the reading.
pub open spec fn read_calendar(m: Map<i64, Seq<EventView>>, evs: Seq<Seq<PropertyView>>) -> Result<
    Map<i64, Seq<EventView>>,
    CalendarError,
>
    decreases evs.len(),
{
    if evs.len() == 0 {
        Ok(m)
    } else {
        match read_calendar(m, evs.drop_last()) {
            Err(e) => Err(e),
            Ok(m2) => match event_of(evs.last()) {
                Err(e) => Err(e),
                Ok(ev) => Ok(add_event(m2, ev.2, ev)),
            },
        }
    }
}

/// The store `m` after filing the events of all calendar objects in order; a calendar
/// object that failed to parse, or the first error in an event, stops the reading.
pub open spec fn read_entries(m: Map<i64, Seq<EventView>>, es: Seq<Option<Seq<Seq<PropertyView>>>>) -> Result<
    Map<i64, Seq<EventView>>,
    CalendarError,
>
    decreases es.len(),
{
    if es.len() == 0 {
        Ok(m)
    } else {
        match read_entries(m, es.drop_last()) {
            Err(e) => Err(e),
            Ok(m2) => match es.last() {
                None => Err(CalendarError::IcsParse),
                Some(evs) => read_calendar(m2, evs),
            },
        }
    }
}

/// The store, or the error, that the iCalendar data `source` gives.
pub open spec fn ics_store(source: Seq<u8>) -> Result<Map<i64, Seq<EventView>>, CalendarError> {
    read_entries(Map::empty(), ical_entries(source))
}

/// The text of `s` before a final `c`, or `None` where `s` does not end in `c`.
fn strip_suffix_char(s: &str, c: char) -> (r: Option<&str>)
    ensures
        r is Some <==> (s@.len() > 0 && s@.last() == c),
        r matches Some(p) ==> p@ == s@.drop_last(),
{
    let n = s.unicode_len();
    if n > 0 && s.get_char(n - 1) == c {
        let p = s.substring_char(0, n - 1);
        assert(p@ =~= s@.drop_last());
        Some(p)
    } else {
        None
    }
}

/// The start instant of a `DTSTART` value (see [`start_value`]).
pub fn parse_start(value: &Option<String>) -> (r: Result<i64, CalendarError>)
    ensures
        r == start_value(match value {
            Some(v) => Some(v@),
            None => None,
        }),
        r matches Ok(t) ==> min_timestamp() <= t <= max_timestamp(),
{
    match value {
        None => Err(CalendarError::MissingDateValue),
        Some(v) => match strip_suffix_char(v.as_str(), 'Z') {
            Some(utc) => match parse_utc_timestamp(utc, "%Y%m%dT%H%M%S") {
                Some(t) => Ok(t),
                None => Err(CalendarError::InvalidDateValue),
            },
            None => Err(CalendarError::UnsupportedDateValue),
        },
    }
}


/// The event that the properties of an iCalendar event give (see [`event_of`]).
pub fn read_event(props: &Vec<IcsProperty>) -> (r: Result<Event, CalendarError>)
    ensures
        match r {
            Ok(e) => event_of(properties_view(props@)) == Ok::<EventView, CalendarError>(e@),
            Err(err) => event_of(properties_view(props@)) == Err::<EventView, CalendarError>(err),
        },
        r matches Ok(e) ==> min_timestamp() <= e.start <= max_timestamp(),
{
    let ghost ps = properties_view(props@);
    let dtstart = "DTSTART".to_owned();
    let summary_name = "SUMMARY".to_owned();
    let mut start: Option<i64> = None;
    let mut summary = String::new();
    let mut i: usize = 0;
    while i < props.len()
        invariant
            i <= props.len(),
            ps == properties_view(props@),
            dtstart@ == "DTSTART"@,
            summary_name@ == "SUMMARY"@,
            read_properties(ps.take(i as int)) == Ok::<(Option<i64>, Seq<char>), CalendarError>((start, summary@)),
            start matches Some(t) ==> min_timestamp() <= t <= max_timestamp(),
        decreases props.len() - i,
    {
        let prop = &props[i];
        proof {
            assert(ps.take(i + 1).drop_last() =~= ps.take(i as int));
            assert(ps.take(i + 1).last() == prop@);
        }
        if prop.name == dtstart {
            match parse_start(&prop.value) {
                Ok(t) => {
                    start = Some(t);
                },
                Err(e) => {
                    proof {
                        lemma_properties_stop(ps, i as int + 1, e);
                    }
                    return Err(e);
                },
            }
        } else if prop.name == summary_name {
            summary = match &prop.value {
                Some(v) => v.clone(),
                None => String::new(),
            };
        } else {
            proof {
                lemma_properties_stop(ps, i as int + 1, CalendarError::UnsupportedProperty);
            }
            return Err(CalendarError::UnsupportedProperty);
        }
        i = i + 1;
    }
    proof {
        assert(ps.take(props.len() as int) =~= ps);
    }
    match start {
        Some(t) => {
            let title = summary.clone();
            Ok(Event { title, desc: summary, start: t, end: t })
        },
        None => Err(CalendarError::MissingStart),
    }
}

/// Once reading the first `n` properties has failed, reading them all fails the same way.
proof fn lemma_properties_stop(ps: Seq<PropertyView>, n: int, e: CalendarError)
    requires
        0 <= n <= ps.len(),
        read_properties(ps.take(n)) == Err::<(Option<i64>, Seq<char>), CalendarError>(e),
    ensures
        read_properties(ps) == Err::<(Option<i64>, Seq<char>), CalendarError>(e),
    decreases ps.len() - n,
{
    if n < ps.len() {
        assert(ps.take(n + 1).drop_last() =~= ps.take(n));
        lemma_properties_stop(ps, n + 1, e);
    } else {
        assert(ps.take(n) =~= ps);
    }
}


/// The store that the parsed calendar objects `entries` give (see [`read_entries`]).
pub fn events_from_entries(entries: &Vec<IcsEntry>) -> (r: Result<EventStore, CalendarError>)
    ensures
        match r {
            Ok(store) => read_entries(Map::empty(), entries_view(entries@)) == Ok::<
                Map<i64, Seq<EventView>>,
                CalendarError,
            >(store@),
            Err(e) => read_entries(Map::empty(), entries_view(entries@)) == Err::<
                Map<i64, Seq<EventView>>,
                CalendarError,
            >(e),
        },
        r matches Ok(store) ==> starts_in_range(store@),
{
    let ghost es = entries_view(entries@);
    let mut store = EventStore::new();
    let mut i: usize = 0;
    while i < entries.len()
        invariant
            i <= entries.len(),
            es == entries_view(entries@),
            read_entries(Map::empty(), es.take(i as int)) == Ok::<Map<i64, Seq<EventView>>, CalendarError>(store@),
            starts_in_range(store@),
        decreases entries.len() - i,
    {
        proof {
            assert(es.take(i + 1).drop_last() =~= es.take(i as int));
            assert(es.take(i + 1).last() == entry_view(entries@[i as int]));
        }
        match &entries[i] {
            IcsEntry::Invalid => {
                proof {
                    lemma_entries_stop(es, i as int + 1, CalendarError::IcsParse);
                }
                return Err(CalendarError::IcsParse);
            },
            IcsEntry::Calendar(events) => {
                let ghost evs = events@.map_values(|ev: Vec<IcsProperty>| properties_view(ev@));
                let ghost m0 = store@;
                proof {
                    assert(es.take(i + 1).last() == Some(evs));
                }
                let mut j: usize = 0;
                while j < events.len()
                    invariant
                        j <= events.len(),
                        evs == events@.map_values(|ev: Vec<IcsProperty>| properties_view(ev@)),
                        read_calendar(m0, evs.take(j as int)) == Ok::<Map<i64, Seq<EventView>>, CalendarError>(store@),
                        i < entries.len(),
                        es == entries_view(entries@),
                        read_entries(Map::empty(), es.take(i as int)) == Ok::<Map<i64, Seq<EventView>>, CalendarError>(m0),
                        es.take(i + 1).drop_last() == es.take(i as int),
                        es.take(i + 1).last() == Some(evs),
                        starts_in_range(store@),
                    decreases events.len() - j,
                {
                    proof {
                        assert(evs.take(j + 1).drop_last() =~= evs.take(j as int));
                        assert(evs.take(j + 1).last() == properties_view(events@[j as int]@));
                    }
                    match read_event(&events[j]) {
                        Ok(e) => {
                            let start = e.start;
                            proof {
                                lemma_add_keeps_starts(store@, start, e@);
                            }
                            store.add(start, e);
                        },
                        Err(err) => {
                            proof {
                                lemma_calendar_stop(m0, evs, j as int + 1, err);
                                assert(read_calendar(m0, evs) == Err::<Map<i64, Seq<EventView>>, CalendarError>(err));
                                lemma_entries_stop(es, i as int + 1, err);
                            }
                            return Err(err);
                        },
                    }
                    j = j + 1;
                }
                proof {
                    assert(evs.take(events.len() as int) =~= evs);
                }
            },
        }
        i = i + 1;
    }
    proof {
        assert(es.take(entries.len() as int) =~= es);
    }
    Ok(store)
}

/// The store that the iCalendar data `source` gives (see [`ics_store`]).
pub fn read_events(source: &[u8]) -> (r: Result<EventStore, CalendarError>)
    ensures
        match r {
            Ok(store) => ics_store(source@) == Ok::<Map<i64, Seq<EventView>>, CalendarError>(store@),
            Err(e) => ics_store(source@) == Err::<Map<i64, Seq<EventView>>, CalendarError>(e),
        },
        r matches Ok(store) ==> starts_in_range(store@),
{
    let entries = parse_ics(source);
    events_from_entries(&entries)
}

/// Once filing the first `n` events of a calendar object has failed, filing them all fails the same way.
proof fn lemma_calendar_stop(m: Map<i64, Seq<EventView>>, evs: Seq<Seq<PropertyView>>, n: int, e: CalendarError)
    requires
        0 <= n <= evs.len(),
        read_calendar(m, evs.take(n)) == Err::<Map<i64, Seq<EventView>>, CalendarError>(e),
    ensures
        read_calendar(m, evs) == Err::<Map<i64, Seq<EventView>>, CalendarError>(e),
    decreases evs.len() - n,
{
    if n < evs.len() {
        assert(evs.take(n + 1).drop_last() =~= evs.take(n));
        lemma_calendar_stop(m, evs, n + 1, e);
    } else {
        assert(evs.take(n) =~= evs);
    }
}

/// Once reading the first `n` calendar objects has failed, reading them all fails the same way.
proof fn lemma_entries_stop(
    es: Seq<Option<Seq<Seq<PropertyView>>>>,
    n: int,
    e: CalendarError,
)
    requires
        0 <= n <= es.len(),
        read_entries(Map::empty(), es.take(n)) == Err::<Map<i64, Seq<EventView>>, CalendarError>(e),
    ensures
        read_entries(Map::empty(), es) == Err::<Map<i64, Seq<EventView>>, CalendarError>(e),
    decreases es.len() - n,
{
    if n < es.len() {
        assert(es.take(n + 1).drop_last() =~= es.take(n));
        lemma_entries_stop(es, n + 1, e);
    } else {
        assert(es.take(n) =~= es);
    }
}

/// Reading the events of a calendar object into a store that files each event under its
/// start gives such a store.
proof fn lemma_calendar_at_start(m: Map<i64, Seq<EventView>>, evs: Seq<Seq<PropertyView>>)
    requires
        filed_at_start(m),
        read_calendar(m, evs) is Ok,
    ensures
        filed_at_start(read_calendar(m, evs)->Ok_0),
    decreases evs.len(),
{
    if evs.len() > 0 {
        lemma_calendar_at_start(m, evs.drop_last());
        let m2 = read_calendar(m, evs.drop_last())->Ok_0;
        let ev = event_of(evs.last())->Ok_0;
        lemma_add_at_start(m2, ev);
    }
}

/// Reading calendar objects into a store that files each event under its start gives
/// such a store.
proof fn lemma_entries_at_start(m: Map<i64, Seq<EventView>>, es: Seq<Option<Seq<Seq<PropertyView>>>>)
    requires
        filed_at_start(m),
        read_entries(m, es) is Ok,
    ensures
        filed_at_start(read_entries(m, es)->Ok_0),
    decreases es.len(),
{
    if es.len() > 0 {
        lemma_entries_at_start(m, es.drop_last());
        let m2 = read_entries(m, es.drop_last())->Ok_0;
        lemma_calendar_at_start(m2, es.last()->Some_0);
    }
}

/// In a store read from iCalendar data, every event is filed under its start, so each
/// range query gives events that start inside the range, in order of start.
pub proof fn lemma_read_ranges_in_order(source: Seq<u8>, low: i64, high: i64)
    requires
        ics_store(source) is Ok,
    ensures
        filed_at_start(ics_store(source)->Ok_0),
        starts_inside_in_order(range_events(ics_store(source)->Ok_0, low, high), low, high),
{
    assert(filed_at_start(Map::<i64, Seq<EventView>>::empty()));
    lemma_entries_at_start(Map::empty(), ical_entries(source));
    lemma_range_in_order(ics_store(source)->Ok_0, low, high);
}

/// A `DTSTART` value `v` in UTC (ending in `Z`) whose date and time parse to `t`, and a
/// summary `s`, in either order, read as the event titled and described `s` that starts
/// and ends at `t`, whatever text `s` holds; without a summary the title is empty.
pub proof fn lemma_start_and_summary(v: Seq<char>, s: Seq<char>, t: i64)
    requires
        v.len() > 0,
        v.last() == 'Z',
        parsed_utc_timestamp(v.drop_last(), "%Y%m%dT%H%M%S"@) == Some(t),
    ensures
        event_of(seq![("DTSTART"@, Some(v)), ("SUMMARY"@, Some(s))]) == Ok::<EventView, CalendarError>((s, s, t, t)),
        event_of(seq![("SUMMARY"@, Some(s)), ("DTSTART"@, Some(v))]) == Ok::<EventView, CalendarError>((s, s, t, t)),
        event_of(seq![("DTSTART"@, Some(v))]) == Ok::<EventView, CalendarError>(
            (Seq::<char>::empty(), Seq::<char>::empty(), t, t),
        ),
{
    reveal_strlit("DTSTART");
    reveal_strlit("SUMMARY");
    reveal_strlit("%Y%m%dT%H%M%S");
    assert("DTSTART"@ != "SUMMARY"@) by {
        assert("DTSTART"@[0] != "SUMMARY"@[0]);
    }
    let d: PropertyView = ("DTSTART"@, Some(v));
    let m: PropertyView = ("SUMMARY"@, Some(s));
    assert(seq![d, m].drop_last() =~= seq![d]);
    assert(seq![m, d].drop_last() =~= seq![m]);
    assert(seq![d].drop_last() =~= Seq::<PropertyView>::empty());
    assert(seq![m].drop_last() =~= Seq::<PropertyView>::empty());
    let none = Seq::<char>::empty();
    assert(start_value(Some(v)) == Ok::<i64, CalendarError>(t));
    assert(read_properties(Seq::<PropertyView>::empty()) == Ok::<(Option<i64>, Seq<char>), CalendarError>((None, none)));
    assert(read_properties(seq![d]) == Ok::<(Option<i64>, Seq<char>), CalendarError>((Some(t), none)));
    assert(read_properties(seq![m]) == Ok::<(Option<i64>, Seq<char>), CalendarError>((None, s)));
    assert(read_properties(seq![d, m]) == Ok::<(Option<i64>, Seq<char>), CalendarError>((Some(t), s)));
    assert(read_properties(seq![m, d]) == Ok::<(Option<i64>, Seq<char>), CalendarError>((Some(t), s)));
}

/// iCalendar data that holds one calendar with one event, of start `v` (UTC, parsing to
/// `t`) and summary `s`, reads as the store that files exactly that event, titled and
/// described `s`, under `t`.
pub proof fn lemma_read_one_event(source: Seq<u8>, v: Seq<char>, s: Seq<char>, t: i64)
    requires
        ical_entries(source) == seq![Some(seq![seq![("DTSTART"@, Some(v)), ("SUMMARY"@, Some(s))]])],
        v.len() > 0,
        v.last() == 'Z',
        parsed_utc_timestamp(v.drop_last(), "%Y%m%dT%H%M%S"@) == Some(t),
    ensures
        ics_store(source) == Ok::<Map<i64, Seq<EventView>>, CalendarError>(
            Map::<i64, Seq<EventView>>::empty().insert(t, seq![(s, s, t, t)]),
        ),
{
    lemma_start_and_summary(v, s, t);
    let ev: Seq<PropertyView> = seq![("DTSTART"@, Some(v)), ("SUMMARY"@, Some(s))];
    let cal: Seq<Seq<PropertyView>> = seq![ev];
    let es = ical_entries(source);
    assert(es.drop_last() =~= Seq::<Option<Seq<Seq<PropertyView>>>>::empty());
    assert(cal.drop_last() =~= Seq::<Seq<PropertyView>>::empty());
    assert(es.last() == Some(cal));
    assert(read_entries(Map::empty(), es.drop_last()) == Ok::<Map<i64, Seq<EventView>>, CalendarError>(Map::empty()));
    assert(read_calendar(Map::empty(), cal.drop_last()) == Ok::<Map<i64, Seq<EventView>>, CalendarError>(Map::empty()));
    assert(cal.last() == ev);
    assert(read_calendar(Map::empty(), cal) == Ok::<Map<i64, Seq<EventView>>, CalendarError>(
        add_event(Map::empty(), t, (s, s, t, t)),
    ));
    assert(add_event(Map::empty(), t, (s, s, t, t)) =~= Map::<i64, Seq<EventView>>::empty().insert(t, seq![(s, s, t, t)]));
}

} // verus!
