//! Events, the store that keeps them by the instant they are filed under, and
//! the calendar model of a month.

use vstd::prelude::*;
use std::collections::BTreeMap;
use vstd::std_specs::btree::{increasing_seq, spec_btree_map_iter};
use vstd::std_specs::iter::IteratorSpec;
use vstd::std_specs::cmp::OrdSpec;
use crate::datetime::{civil_date, local_time_exists, month_name_of, num_days_in_month, utc_timestamp, weekday_from_monday};
use crate::error::CalendarError;
use crate::gregorian::{
    day_number, days_in_month, is_leap_year, is_valid_date, lemma_timestamp_bounds, max_timestamp, min_timestamp, month_name,
    unix_timestamp, weekday_from_sunday,
    CivilDate, SECONDS_PER_DAY,
};

verus! {

/// A calendar event. Instants are seconds since 1970-01-01 00:00:00 UTC.
#[derive(Debug)]
pub struct Event {
    pub title: String,
    pub desc: String,
    pub start: i64,
    pub end: i64,
}

/// The plain value of an event: title, description, start and end.
pub type EventView = (Seq<char>, Seq<char>, i64, i64);

impl View for Event {
    type V = EventView;

    open spec fn view(&self) -> EventView {
        (self.title@, self.desc@, self.start, self.end)
    }
}

impl Clone for Event {
    fn clone(&self) -> (r: Self)
        ensures
            r@ == self@,
    {
        Event { title: self.title.clone(), desc: self.desc.clone(), start: self.start, end: self.end }
    }
}

impl PartialEq for Event {
    fn eq(&self, other: &Self) -> (r: bool) {
        self.title == other.title && self.desc == other.desc && self.start == other.start && self.end == other.end
    }
}

impl vstd::std_specs::cmp::PartialEqSpecImpl for Event {
    open spec fn obeys_eq_spec() -> bool {
        true
    }

    open spec fn eq_spec(&self, other: &Event) -> bool {
        self@ == other@
    }
}

/// The plain values of a sequence of events.
pub open spec fn events_view(s: Seq<Event>) -> Seq<EventView> {
    s.map_values(|e: Event| e@)
}

/// The events filed under the instants `low`, `low + 1`, ..., `high - 1` of `m`,
/// in increasing order of instant, each instant's events in the order they were added.
pub open spec fn range_events(m: Map<i64, Seq<EventView>>, low: i64, high: i64) -> Seq<EventView>
    decreases high - low,
{
    if low >= high {
        seq![]
    } else {
        (if m.contains_key(low) { m[low] } else { seq![] }) + range_events(m, (low + 1) as i64, high)
    }
}

/// The contents of a store after filing `e` under the instant `dt`.
pub open spec fn add_event(m: Map<i64, Seq<EventView>>, dt: i64, e: EventView) -> Map<i64, Seq<EventView>> {
    m.insert(dt, if m.contains_key(dt) { m[dt].push(e) } else { seq![e] })
}

/// What a range query answers: `None` for a reversed range or when no event lies
/// in `[low, high)`, else the events of the range.
pub open spec fn range_answer(m: Map<i64, Seq<EventView>>, low: i64, high: i64) -> Option<Seq<EventView>> {
    if low > high || range_events(m, low, high).len() == 0 {
        None
    } else {
        Some(range_events(m, low, high))
    }
}

/// The events of the entries `s` (instant and events) whose instant lies in `[low, high)`,
/// in the order of `s`.
pub open spec fn entries_in_range(s: Seq<(i64, Seq<EventView>)>, low: i64, high: i64) -> Seq<EventView>
    decreases s.len(),
{
    if s.len() == 0 {
        seq![]
    } else {
        entries_in_range(s.drop_last(), low, high) + (if low <= s.last().0 < high {
            s.last().1
        } else {
            seq![]
        })
    }
}

/// `s` lists the entries of `m` in strictly increasing order of instant.
pub open spec fn lists_in_order(s: Seq<(i64, Seq<EventView>)>, m: Map<i64, Seq<EventView>>) -> bool {
    &&& forall|i: int, j: int| 0 <= i < j < s.len() ==> s[i].0 < s[j].0
    &&& forall|i: int| 0 <= i < s.len() ==> #[trigger] m.contains_key(s[i].0) && m[s[i].0] == s[i].1
    &&& forall|k: i64| #[trigger] m.contains_key(k) ==> exists|i: int| 0 <= i < s.len() && s[i].0 == k
}

/// A range splits at any point inside it.
pub proof fn lemma_range_split(m: Map<i64, Seq<EventView>>, low: i64, mid: i64, high: i64)
    requires
        low <= mid <= high,
    ensures
        range_events(m, low, high) == range_events(m, low, mid) + range_events(m, mid, high),
    decreases mid - low,
{
    if low < mid {
        lemma_range_split(m, (low + 1) as i64, mid, high);
        let head = if m.contains_key(low) { m[low] } else { seq![] };
        assert(range_events(m, low, high) == head + range_events(m, (low + 1) as i64, high));
        assert(range_events(m, low, mid) == head + range_events(m, (low + 1) as i64, mid));
        assert(head + (range_events(m, (low + 1) as i64, mid) + range_events(m, mid, high))
            =~= (head + range_events(m, (low + 1) as i64, mid)) + range_events(m, mid, high));
    } else {
        assert(range_events(m, low, mid) =~= seq![]);
        assert(range_events(m, low, mid) + range_events(m, mid, high) =~= range_events(m, mid, high));
    }
}

/// A range that holds no instant of `m` holds no event.
pub proof fn lemma_range_empty(m: Map<i64, Seq<EventView>>, low: i64, high: i64)
    requires
        forall|k: i64| low <= k < high ==> !m.contains_key(k),
    ensures
        range_events(m, low, high) == Seq::<EventView>::empty(),
    decreases high - low,
{
    if low < high {
        lemma_range_empty(m, (low + 1) as i64, high);
        assert(range_events(m, low, high) =~= Seq::<EventView>::empty());
    }
}

/// Two stores that agree on the instants of a range have the same events there.
pub proof fn lemma_range_agree(m1: Map<i64, Seq<EventView>>, m2: Map<i64, Seq<EventView>>, low: i64, high: i64)
    requires
        forall|k: i64| low <= k < high ==> (m1.contains_key(k) <==> m2.contains_key(k)),
        forall|k: i64| low <= k < high && m1.contains_key(k) ==> m1[k] == m2[k],
    ensures
        range_events(m1, low, high) == range_events(m2, low, high),
    decreases high - low,
{
    if low < high {
        lemma_range_agree(m1, m2, (low + 1) as i64, high);
    }
}

/// Filing an event under an instant outside a range leaves the range's events as they were.
pub proof fn lemma_add_outside_range(m: Map<i64, Seq<EventView>>, dt: i64, e: EventView, low: i64, high: i64)
    requires
        dt < low || high <= dt,
    ensures
        range_events(add_event(m, dt, e), low, high) == range_events(m, low, high),
{
    lemma_range_agree(add_event(m, dt, e), m, low, high);
}

/// Filing an event under an instant of a range puts it in the range's events, after the
/// events filed before it under the same instant and before those of later instants:
/// the range's events are those before `dt`, then those of `dt` followed by `e`, then
/// those after `dt`.
pub proof fn lemma_add_inside_range(m: Map<i64, Seq<EventView>>, dt: i64, e: EventView, low: i64, high: i64)
    requires
        low <= dt < high,
    ensures
        range_events(add_event(m, dt, e), low, high) == range_events(m, low, dt) + (if m.contains_key(dt) {
            m[dt]
        } else {
            seq![]
        }).push(e) + range_events(m, (dt + 1) as i64, high),
        range_events(add_event(m, dt, e), low, high).len() == range_events(m, low, high).len() + 1,
{
    let m2 = add_event(m, dt, e);
    let at = if m.contains_key(dt) { m[dt] } else { seq![] };
    lemma_range_split(m2, low, dt, high);
    lemma_range_split(m2, dt, (dt + 1) as i64, high);
    lemma_range_split(m, low, dt, high);
    lemma_range_split(m, dt, (dt + 1) as i64, high);
    lemma_range_agree(m2, m, low, dt);
    lemma_range_agree(m2, m, (dt + 1) as i64, high);
    assert(range_events(m2, dt, (dt + 1) as i64) =~= at.push(e)) by {
        assert(range_events(m2, (dt + 1) as i64, (dt + 1) as i64) =~= Seq::<EventView>::empty());
    }
    assert(range_events(m, dt, (dt + 1) as i64) =~= at) by {
        assert(range_events(m, (dt + 1) as i64, (dt + 1) as i64) =~= Seq::<EventView>::empty());
    }
    assert(range_events(m2, low, high) =~= range_events(m, low, dt) + at.push(e) + range_events(m, (dt + 1) as i64, high));
}

/// Walking the entries of a store in order of instant and keeping those in a range
/// gives the events of that range.
pub proof fn lemma_entries_in_range(s: Seq<(i64, Seq<EventView>)>, m: Map<i64, Seq<EventView>>, low: i64, high: i64)
    requires
        lists_in_order(s, m),
    ensures
        entries_in_range(s, low, high) == range_events(m, low, high),
    decreases s.len(),
{
    if s.len() == 0 {
        assert forall|k: i64| low <= k < high implies !m.contains_key(k) by {
            if m.contains_key(k) {
                let i = choose|i: int| 0 <= i < s.len() && s[i].0 == k;
            }
        }
        lemma_range_empty(m, low, high);
    } else {
        let last = s.last();
        let kl = last.0;
        let s1 = s.drop_last();
        let m1 = m.remove(kl);
        assert(m.contains_key(kl) && m[kl] == last.1) by {
            assert(m.contains_key(s[s.len() - 1].0));
        }
        assert forall|k: i64| #[trigger] m.contains_key(k) implies k <= kl by {
            let i = choose|i: int| 0 <= i < s.len() && s[i].0 == k;
            if i < s.len() - 1 {
                assert(s[i].0 < s[s.len() - 1].0);
            }
        }
        assert(lists_in_order(s1, m1)) by {
            assert forall|i: int| 0 <= i < s1.len() implies #[trigger] m1.contains_key(s1[i].0) && m1[s1[i].0] == s1[i].1 by {
                assert(s1[i] == s[i]);
                assert(m.contains_key(s[i].0));
                assert(s[i].0 < s[s.len() - 1].0);
            }
            assert forall|k: i64| #[trigger] m1.contains_key(k) implies exists|i: int| 0 <= i < s1.len() && s1[i].0 == k by {
                assert(m.contains_key(k));
                let i = choose|i: int| 0 <= i < s.len() && s[i].0 == k;
                assert(i != s.len() - 1);
                assert(s1[i] == s[i]);
            }
        }
        lemma_entries_in_range(s1, m1, low, high);
        if low <= kl < high {
            lemma_range_split(m, low, kl, high);
            lemma_range_split(m1, low, kl, high);
            lemma_range_agree(m, m1, low, kl);
            lemma_range_empty(m1, kl, high);
            lemma_range_empty(m, (kl + 1) as i64, high);
            assert(range_events(m, kl, high) =~= m[kl]);
        } else {
            lemma_range_agree(m, m1, low, high);
        }
    }
}

/// The plain values of the entries that a walk over a map of event lists yields.
pub open spec fn entry_views(s: Seq<(&i64, &Vec<Event>)>) -> Seq<(i64, Seq<EventView>)> {
    s.map_values(|p: (&i64, &Vec<Event>)| (*p.0, events_view(p.1@)))
}

/// The instant at which the UTC day `year-month-day` begins.
pub open spec fn day_start(year: i32, month: u8, day: u8) -> i64 {
    unix_timestamp(year as int, month as int, day as int, 0, 0, 0) as i64
}

/// Every event of `m` starts at an instant that a date and time can have.
pub open spec fn starts_in_range(m: Map<i64, Seq<EventView>>) -> bool {
    forall|k: i64, i: int| #![trigger m[k][i]]
        m.contains_key(k) && 0 <= i < m[k].len() ==> min_timestamp() <= m[k][i].2 <= max_timestamp()
}

/// Every event of `s` starts at an instant that a date and time can have.
pub open spec fn seq_starts_in_range(s: Seq<EventView>) -> bool {
    forall|i: int| 0 <= i < s.len() ==> min_timestamp() <= #[trigger] s[i].2 <= max_timestamp()
}

/// Filing an event that starts in range keeps every start in range.
pub proof fn lemma_add_keeps_starts(m: Map<i64, Seq<EventView>>, dt: i64, e: EventView)
    requires
        starts_in_range(m),
        min_timestamp() <= e.2 <= max_timestamp(),
    ensures
        starts_in_range(add_event(m, dt, e)),
{
    let m2 = add_event(m, dt, e);
    assert forall|k: i64, i: int| m2.contains_key(k) && 0 <= i < m2[k].len() implies min_timestamp() <= #[trigger] m2[k][i].2
        <= max_timestamp() by {
        if k == dt && m.contains_key(dt) && i < m[dt].len() {
            assert(m2[k][i] == m[dt][i]);
        }
    }
}

/// The events of a range are events of the store.
pub proof fn lemma_range_starts(m: Map<i64, Seq<EventView>>, low: i64, high: i64)
    requires
        starts_in_range(m),
    ensures
        seq_starts_in_range(range_events(m, low, high)),
    decreases high - low,
{
    if low < high {
        lemma_range_starts(m, (low + 1) as i64, high);
        let head = if m.contains_key(low) { m[low] } else { seq![] };
        let rest = range_events(m, (low + 1) as i64, high);
        assert forall|i: int| 0 <= i < (head + rest).len() implies min_timestamp() <= #[trigger] (head + rest)[i].2
            <= max_timestamp() by {
            if i < head.len() {
                assert((head + rest)[i] == m[low][i]);
            } else {
                assert((head + rest)[i] == rest[i - head.len()]);
            }
        }
    }
}

/// Every event of `m` is filed under the instant it starts at.
pub open spec fn filed_at_start(m: Map<i64, Seq<EventView>>) -> bool {
    forall|k: i64, i: int| #![trigger m[k][i]] m.contains_key(k) && 0 <= i < m[k].len() ==> m[k][i].2 == k
}

/// The events of `s` start inside `[low, high)`, in order of start.
pub open spec fn starts_inside_in_order(s: Seq<EventView>, low: i64, high: i64) -> bool {
    &&& forall|i: int| 0 <= i < s.len() ==> low <= #[trigger] s[i].2 < high
    &&& forall|i: int, j: int| 0 <= i <= j < s.len() ==> #[trigger] s[i].2 <= #[trigger] s[j].2
}

/// Filing an event under its start keeps every event filed under its start.
pub proof fn lemma_add_at_start(m: Map<i64, Seq<EventView>>, e: EventView)
    requires
        filed_at_start(m),
    ensures
        filed_at_start(add_event(m, e.2, e)),
{
    let m2 = add_event(m, e.2, e);
    assert forall|k: i64, i: int| m2.contains_key(k) && 0 <= i < m2[k].len() implies #[trigger] m2[k][i].2 == k by {
        if k == e.2 && m.contains_key(k) && i < m[k].len() {
            assert(m2[k][i] == m[k][i]);
        }
    }
}

/// Where every event is filed under its start, the events of a range start inside the
/// range, in order of start.
pub proof fn lemma_range_in_order(m: Map<i64, Seq<EventView>>, low: i64, high: i64)
    requires
        filed_at_start(m),
    ensures
        starts_inside_in_order(range_events(m, low, high), low, high),
    decreases high - low,
{
    if low < high {
        lemma_range_in_order(m, (low + 1) as i64, high);
        let head = if m.contains_key(low) { m[low] } else { seq![] };
        let rest = range_events(m, (low + 1) as i64, high);
        let s = head + rest;
        assert(range_events(m, low, high) == s);
        assert forall|i: int| 0 <= i < s.len() implies low <= #[trigger] s[i].2 < high by {
            if i < head.len() {
                assert(s[i] == m[low][i]);
            } else {
                assert(s[i] == rest[i - head.len()]);
            }
        }
        assert forall|i: int, j: int| 0 <= i <= j < s.len() implies #[trigger] s[i].2 <= #[trigger] s[j].2 by {
            if j < head.len() {
                assert(s[i] == m[low][i]);
                assert(s[j] == m[low][j]);
            } else if i < head.len() {
                assert(s[i] == m[low][i]);
                assert(s[j] == rest[j - head.len()]);
            } else {
                assert(s[i] == rest[i - head.len()]);
                assert(s[j] == rest[j - head.len()]);
            }
        }
    }
}

/// All events of `m`, in increasing order of instant (each instant's events in the order
/// they were added).
pub open spec fn all_events(m: Map<i64, Seq<EventView>>) -> Seq<EventView> {
    range_events(m, i64::MIN, i64::MAX) + (if m.contains_key(i64::MAX) { m[i64::MAX] } else { seq![] })
}

/// The plain value of an optional list of events.
pub open spec fn answer_view(r: Option<Vec<Event>>) -> Option<Seq<EventView>> {
    match r {
        Some(v) => Some(events_view(v@)),
        None => None,
    }
}

/// Instants are ordered as integers, so the store keeps them in that order.
proof fn lemma_keys_ordered()
    ensures
        vstd::laws_cmp::obeys_cmp::<i64>(),
{
}

/// Events filed by instant. Each instant holds the events added under it, in the
/// order they were added; an instant is present only with at least one event.
#[derive(Debug)]
pub struct EventStore {
    store: BTreeMap<i64, Vec<Event>>,
}

impl View for EventStore {
    type V = Map<i64, Seq<EventView>>;

    closed spec fn view(&self) -> Map<i64, Seq<EventView>> {
        self.store@.map_values(|v: Vec<Event>| events_view(v@))
    }
}

impl Default for EventStore {
    /// An empty store.
    fn default() -> (r: Self)
        ensures
            r@ == Map::<i64, Seq<EventView>>::empty(),
    {
        EventStore::new()
    }
}

impl EventStore {
    /// No instant of the store is present without an event, and every event starts at an
    /// instant that a date and time can have.
    #[verifier::type_invariant]
    closed spec fn inv(self) -> bool {
        &&& forall|k: i64| #[trigger] self.store@.contains_key(k) ==> self.store@[k].len() > 0
        &&& starts_in_range(self@)
    }

    /// An empty store.
    pub fn new() -> (r: EventStore)
        ensures
            r@ == Map::<i64, Seq<EventView>>::empty(),
    {
        let r = EventStore { store: BTreeMap::new() };
        assert(r@ =~= Map::<i64, Seq<EventView>>::empty());
        r
    }

    /// The entries that a walk over the store yields list the store in order of instant.
    proof fn lemma_iter_lists_in_order(&self, all: Seq<(&i64, &Vec<Event>)>)
        requires
            all == spec_btree_map_iter(&self.store).remaining(),
            increasing_seq(all.map_values(|kv: (&i64, &Vec<Event>)| *kv.0)),
        ensures
            lists_in_order(entry_views(all), self@),
    {
        lemma_keys_ordered();
        let es = entry_views(all);
        let keys = all.map_values(|kv: (&i64, &Vec<Event>)| *kv.0);
        assert forall|i: int, j: int| 0 <= i < j < es.len() implies es[i].0 < es[j].0 by {
            assert(keys[i] == es[i].0);
            assert(keys[j] == es[j].0);
            assert(keys[i].cmp_spec(&keys[j]) is Less);
        }
        assert forall|i: int| 0 <= i < es.len() implies #[trigger] self@.contains_key(es[i].0) && self@[es[i].0] == es[i].1 by {
            assert(self.store@.contains_key(*all[i].0));
        }
        assert forall|k: i64| #[trigger] self@.contains_key(k) implies exists|i: int| 0 <= i < es.len() && es[i].0 == k by {
            assert(self.store@.contains_key(k));
            assert(all.contains((&k, &self.store@[k])));
            let i = choose|i: int| 0 <= i < all.len() && all[i] == (&k, &self.store@[k]);
            assert(es[i].0 == k);
        }
    }

    /// The events filed under instants in `[low, high)`, in increasing order of instant
    /// (each instant's events in the order they were added); `None` when `low > high`
    /// or when the range holds no event.
    pub fn by_range(&self, low: i64, high: i64) -> (r: Option<Vec<Event>>)
        ensures
            answer_view(r) == range_answer(self@, low, high),
            starts_in_range(self@),
    {
        proof {
            use_type_invariant(self);
        }
        if low > high {
            return None;
        }
        let mut events: Vec<Event> = Vec::new();
        let iter = self.store.iter();
        let ghost all = iter.remaining();
        let ghost entries = entry_views(all);
        proof {
            lemma_keys_ordered();
            assert(all == spec_btree_map_iter(&self.store).remaining());
            self.lemma_iter_lists_in_order(all);
        }
        for entry in it: iter
            invariant
                it.seq() == all,
                entries == entry_views(all),
                lists_in_order(entries, self@),
                events_view(events@) == entries_in_range(entries.take(it.index()), low, high),
        {
            let (k, v) = entry;
            proof {
                assert(entries.take(it.index() + 1).drop_last() =~= entries.take(it.index()));
            }
            if low <= *k && *k < high {
                let mut j: usize = 0;
                let ghost before = events_view(events@);
                while j < v.len()
                    invariant
                        j <= v.len(),
                        events_view(events@) == before + events_view(v@).take(j as int),
                    decreases v.len() - j,
                {
                    let e = v[j].clone();
                    let ghost prev = events@;
                    events.push(e);
                    proof {
                        assert(events_view(events@) =~= events_view(prev).push(v@[j as int]@));
                        assert(events_view(v@).take(j + 1) =~= events_view(v@).take(j as int).push(v@[j as int]@));
                        assert(events_view(events@) =~= before + events_view(v@).take(j + 1));
                    }
                    j = j + 1;
                }
                proof {
                    assert(events_view(v@).take(v.len() as int) =~= events_view(v@));
                }
            } else {
                proof {
                    assert(events_view(events@) =~= events_view(events@) + Seq::<EventView>::empty());
                }
            }
        }
        proof {
            assert(entries.take(entries.len() as int) =~= entries);
            lemma_entries_in_range(entries, self@, low, high);
        }
        if events.len() == 0 {
            None
        } else {
            Some(events)
        }
    }

    /// All events of the store, in increasing order of instant (each instant's events in
    /// the order they were added).
    pub fn by_month(&self) -> (r: Vec<Event>)
        ensures
            events_view(r@) == all_events(self@),
    {
        let mut r = match self.by_range(i64::MIN, i64::MAX) {
            Some(v) => v,
            None => Vec::new(),
        };
        let ghost front = events_view(r@);
        assert(front == range_events(self@, i64::MIN, i64::MAX));
        proof {
            lemma_keys_ordered();
        }
        match self.store.get(&i64::MAX) {
            Some(v) => {
                assert(self.store@.contains_key(i64::MAX) && self.store@[i64::MAX] == *v);
                let mut j: usize = 0;
                while j < v.len()
                    invariant
                        j <= v.len(),
                        events_view(r@) == front + events_view(v@).take(j as int),
                    decreases v.len() - j,
                {
                    let e = v[j].clone();
                    let ghost prev = r@;
                    r.push(e);
                    proof {
                        assert(events_view(r@) =~= events_view(prev).push(v@[j as int]@));
                        assert(events_view(v@).take(j + 1) =~= events_view(v@).take(j as int).push(v@[j as int]@));
                    }
                    j = j + 1;
                }
                proof {
                    assert(events_view(v@).take(v.len() as int) =~= events_view(v@));
                }
            },
            None => {
                assert(!self.store@.contains_key(i64::MAX));
                assert(events_view(r@) =~= front + Seq::<EventView>::empty());
            },
        }
        r
    }

    /// The events of the UTC day `year-month-day`, that is those filed from its
    /// midnight for one day; `None` when the date does not exist or the day holds no event.
    pub fn by_day(&self, day: u8, month: u8, year: i32) -> (r: Option<Vec<Event>>)
        ensures
            answer_view(r) == (if is_valid_date(year as int, month as int, day as int) {
                range_answer(self@, day_start(year, month, day), (day_start(year, month, day) + SECONDS_PER_DAY) as i64)
            } else {
                None::<Seq<EventView>>
            }),
    {
        match utc_timestamp(year, month, day, 0, 0, 0) {
            Some(low) => {
                proof {
                    lemma_timestamp_bounds(year as int, month as int, day as int, 0, 0, 0);
                }
                let high = low + SECONDS_PER_DAY;
                self.by_range(low, high)
            },
            None => None,
        }
    }

    /// Files `evt` under the instant `dt`, after the events already filed there. The event
    /// starts at an instant that a date and time can have.
    pub fn add(&mut self, dt: i64, evt: Event)
        requires
            min_timestamp() <= evt.start <= max_timestamp(),
        ensures
            final(self)@ == add_event(old(self)@, dt, evt@),
    {
        proof {
            use_type_invariant(&*self);
        }
        let mut store = BTreeMap::new();
        std::mem::swap(&mut store, &mut self.store);
        let ghost m = store@;
        assert(m == old(self).store@);
        proof {
            lemma_keys_ordered();
        }
        match store.remove(&dt) {
            Some(mut events) => {
                assert(m.contains_key(dt) && m[dt] == events);
                let ghost before = events@;
                events.push(evt);
                assert(events_view(events@) =~= events_view(before).push(evt@));
                store.insert(dt, events);
            },
            None => {
                assert(!m.contains_key(dt));
                let v = vec![evt];
                assert(events_view(v@) =~= seq![evt@]);
                store.insert(dt, v);
            },
        }
        proof {
            assert(store@.map_values(|v: Vec<Event>| events_view(v@)) =~= add_event(old(self)@, dt, evt@));
            lemma_add_keeps_starts(old(self)@, dt, evt@);
        }
        self.store = store;
    }
}

} // verus!

verus! {

/// What a calendar shows of a month: the weekday its first day falls on
/// (Sunday = 0), how many days it has, the day marked as today and the month's name.
#[derive(Debug)]
pub struct CalendarModel {
    pub start_day: u8,
    pub n_days: u8,
    pub today: Option<u8>,
    pub month_name: String,
}

impl Clone for CalendarModel {
    fn clone(&self) -> (r: Self)
        ensures
            r == *self,
    {
        CalendarModel {
            start_day: self.start_day,
            n_days: self.n_days,
            today: self.today,
            month_name: self.month_name.clone(),
        }
    }
}

impl CalendarModel {
    /// `self` is the calendar of the month of `date`, with `date`'s day marked as today.
    pub open spec fn models(self, date: CivilDate) -> bool {
        &&& self.start_day as int == weekday_from_sunday(date.year as int, date.month as int, 1)
        &&& self.n_days as int == days_in_month(date.year as int, date.month as int)
        &&& self.today == Some(date.day)
        &&& self.month_name@ == month_name(date.month as int)
    }

    /// The calendar of the month of `date`, with `date`'s day marked as today.
    pub fn from_date(date: CivilDate) -> (r: CalendarModel)
        requires
            date.wf(),
        ensures
            r.models(date),
    {
        // Day of the week counted from Sunday: the day after its Monday-based number.
        let weekday = ((weekday_from_monday(&date) + 1) % 7) as i32;
        let today = date.day as i32 - 1;
        // The weekday of the first of the month, in 0..7.
        let start_day = ((weekday - today + 35) % 7) as u8;
        let n_days = num_days_in_month(&date);
        let month_name = month_name_of(date.month);
        proof {
            let (y, m, d) = (date.year as int, date.month as int, date.day as int);
            lemma_first_weekday(day_number(y, m, 1), d);
        }
        CalendarModel { start_day, n_days, today: Some((today + 1) as u8), month_name }
    }

    /// The calendar of month `month` of `year`, with `day` (or the first day of the
    /// month) marked as today. It fails for a year before 0, for a date that does not
    /// exist, and when that day's local time 00:00:01 does not exist on this machine.
    pub fn new(day: Option<u8>, month: u8, year: i32) -> (r: Result<CalendarModel, CalendarError>)
        ensures
            year < 0 ==> r == Err::<CalendarModel, CalendarError>(CalendarError::NegativeYear),
            year >= 0 && !is_valid_date(year as int, month as int, day_or_first(day) as int)
                ==> r == Err::<CalendarModel, CalendarError>(CalendarError::InvalidDate),
            year >= 0 && is_valid_date(year as int, month as int, day_or_first(day) as int) ==> match r {
                Ok(model) => model.models(CivilDate { year, month, day: day_or_first(day) }),
                Err(e) => e == CalendarError::NoLocalTime,
            },
    {
        if year < 0 {
            return Err(CalendarError::NegativeYear);
        }
        let d = match day {
            Some(d) => d,
            None => 1,
        };
        let date = match civil_date(year, month, d) {
            Some(date) => date,
            None => {
                return Err(CalendarError::InvalidDate);
            },
        };
        let local_exists = local_time_exists(&date, 0, 0, 1);
        CalendarModel::from_local_check(date, local_exists)
    }

    /// The calendar of the month of `date`, with `date`'s day marked as today, given
    /// whether that day's local time 00:00:01 exists: it fails with `NoLocalTime`
    /// exactly when it does not.
    pub fn from_local_check(date: CivilDate, local_exists: bool) -> (r: Result<CalendarModel, CalendarError>)
        requires
            date.wf(),
        ensures
            local_exists ==> (r matches Ok(model) && model.models(date)),
            !local_exists ==> r == Err::<CalendarModel, CalendarError>(CalendarError::NoLocalTime),
    {
        if !local_exists {
            return Err(CalendarError::NoLocalTime);
        }
        Ok(CalendarModel::from_date(date))
    }
}

/// The calendar of a month starts on a day of the week (0 to 6, Sunday first) and has
/// 28 to 31 days, 29 in February exactly in leap years; every day of the month gives the
/// same calendar but for the day marked as today.
pub proof fn lemma_model_facts(a: CalendarModel, date_a: CivilDate, b: CalendarModel, date_b: CivilDate)
    requires
        a.models(date_a),
        b.models(date_b),
        date_a.year == date_b.year,
        date_a.month == date_b.month,
    ensures
        a.start_day < 7,
        28 <= a.n_days <= 31,
        date_a.month == 2 ==> (a.n_days == 29 <==> is_leap_year(date_a.year as int)),
        a.start_day == b.start_day,
        a.n_days == b.n_days,
        a.month_name@ == b.month_name@,
{
}

/// Stepping back `d - 1` days from the weekday of day `d` gives the weekday of day 1.
proof fn lemma_first_weekday(first: int, d: int)
    requires
        1 <= d <= 31,
    ensures
        ((((first + d - 1) % 7 + 1) % 7) - (d - 1) + 35) % 7 == (first + 1) % 7,
{
}

/// The day given, or the first of the month when none is.
pub open spec fn day_or_first(day: Option<u8>) -> u8 {
    match day {
        Some(d) => d,
        None => 1,
    }
}

} // verus!
