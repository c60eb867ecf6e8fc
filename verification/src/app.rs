//! The state of the interactive calendar: the month shown, today's date, the
//! marks on the days, and how keys move from month to month.
//!
//! The terminal front end reads keys and files and draws; it hands this module the
//! key pressed and the bytes of the iCalendar file, and draws the view it keeps.

use vstd::prelude::*;
use crate::datetime::{civil_date, local_day_of, local_timestamp, local_today};
use crate::error::CalendarError;
use crate::gregorian::{
    is_day_near, is_valid_date, max_timestamp, min_timestamp, within_a_day, CivilDate, MAX_YEAR, MIN_YEAR, SECONDS_PER_DAY,
};
use crate::ics::{ics_store, read_events};
use crate::models::{
    lemma_model_facts, lemma_range_starts, range_answer, range_events, starts_in_range, CalendarModel, EventStore, EventView,
};
use crate::views::{event_style, today_style, CalendarView, DayColor, DayStyle};

verus! {

/// Every mark of `v` marks a day of the month (1 to 31) as having an event.
pub open spec fn event_marks(v: Seq<(u8, DayStyle)>) -> bool {
    forall|i: int| 0 <= i < v.len() ==> 1 <= #[trigger] v[i].0 <= 31 && v[i].1 == DayStyle::Colored(DayColor::Green)
}

/// The events of a range query's answer (none for `None`).
pub open spec fn answer_events(a: Option<Seq<EventView>>) -> Seq<EventView> {
    match a {
        Some(s) => s,
        None => Seq::<EventView>::empty(),
    }
}

/// The bytes of an optional iCalendar file.
pub open spec fn data_view(ics_data: Option<&[u8]>) -> Option<Seq<u8>> {
    match ics_data {
        Some(d) => Some(d@),
        None => None,
    }
}

/// `v` marks the events of the store `m` filed in `[low, high)`, in order of instant: one
/// mark per event, in the event style, on the day of the month that the event's start shows
/// on a clock set off UTC by less than a day.
pub open spec fn range_marks(m: Map<i64, Seq<EventView>>, low: i64, high: i64, v: Seq<(u8, DayStyle)>) -> bool {
    let evs = answer_events(range_answer(m, low, high));
    &&& v.len() == evs.len()
    &&& forall|k: int| #![trigger v[k]]
        0 <= k < v.len() ==> v[k].1 == DayStyle::Colored(DayColor::Green) && is_day_near(evs[k].2 as int, v[k].0 as int)
}

/// `low` lies less than a day from the first instant of month `month` of `year` read as
/// UTC: it is that month's first midnight on a clock set off UTC by less than a day.
pub open spec fn near_month_start(low: i64, year: int, month: int) -> bool {
    within_a_day(low as int, year, month, 1, 0, 0, 0)
}

/// The marks that the events of the store `m` give for month `month` of `year`, of
/// `n_days` days: the marks of the events filed from the month's local first midnight
/// (less than a day from its UTC start; the exact instant depends on the machine's time
/// zone) for `n_days` days.
pub open spec fn month_event_marks(
    m: Map<i64, Seq<EventView>>,
    year: int,
    month: int,
    n_days: u8,
    v: Seq<(u8, DayStyle)>,
) -> bool {
    &&& event_marks(v)
    &&& exists|low: i64| #[trigger] near_month_start(low, year, month)
        && range_marks(m, low, (low + n_days * SECONDS_PER_DAY) as i64, v)
}

/// Marks for each event of `store` filed in `[low, high)`, in order of instant: the local
/// day of the month of the event's start, with the event style.
pub fn styles_for_range(store: &EventStore, low: i64, high: i64) -> (r: Vec<(u8, DayStyle)>)
    ensures
        range_marks(store@, low, high, r@),
        event_marks(r@),
{
    let mut r: Vec<(u8, DayStyle)> = Vec::new();
    match store.by_range(low, high) {
        Some(events) => {
            proof {
                lemma_range_starts(store@, low, high);
            }
            let ghost evs = range_events(store@, low, high);
            let mut i: usize = 0;
            while i < events.len()
                invariant
                    i <= events.len(),
                    evs.len() == events@.len(),
                    forall|j: int| 0 <= j < events@.len() ==> events@[j]@ == evs[j],
                    forall|j: int| 0 <= j < evs.len() ==> min_timestamp() <= #[trigger] evs[j].2 <= max_timestamp(),
                    r@.len() == i,
                    event_marks(r@),
                    forall|j: int| #![trigger r@[j]] 0 <= j < i ==> is_day_near(evs[j].2 as int, r@[j].0 as int),
                decreases events.len() - i,
            {
                proof {
                    assert(events@[i as int]@ == evs[i as int]);
                    assert(min_timestamp() <= evs[i as int].2 <= max_timestamp());
                }
                let day = local_day_of(events[i].start);
                r.push((day, event_style()));
                i = i + 1;
            }
        },
        None => {},
    }
    r
}

/// The marks of the events of the iCalendar data `ics_data` for the month of `year`
/// and `month` of `n_days` days. It fails without data, when the data does not read,
/// and when the local midnight that starts the month does not exist on this machine.
pub fn get_styles(ics_data: Option<&[u8]>, month: u8, year: i32, n_days: u8) -> (r: Result<
    Vec<(u8, DayStyle)>,
    CalendarError,
>)
    ensures
        ics_data is None ==> r == Err::<Vec<(u8, DayStyle)>, CalendarError>(CalendarError::MissingIcsFile),
        ics_data matches Some(d) ==> match ics_store(d@) {
            Err(e) => r == Err::<Vec<(u8, DayStyle)>, CalendarError>(e),
            Ok(m) => match r {
                Ok(v) => is_valid_date(year as int, month as int, 1) && month_event_marks(
                    m,
                    year as int,
                    month as int,
                    n_days,
                    v@,
                ),
                Err(e) => e == CalendarError::NoLocalTime,
            },
        },
{
    let data = match ics_data {
        Some(d) => d,
        None => {
            return Err(CalendarError::MissingIcsFile);
        },
    };
    let events = match read_events(data) {
        Ok(store) => store,
        Err(e) => {
            return Err(e);
        },
    };
    let start = local_timestamp(year, month, 1, 0, 0, 0);
    proof {
        if let Some(low) = start {
            assert(near_month_start(low, year as int, month as int));
        }
    }
    styles_from_start(&events, start, n_days)
}

/// The marks of the events of `store` for a month of `n_days` days whose first local
/// midnight is `start`: `NoLocalTime` exactly when that midnight does not exist (`None`);
/// otherwise the marks of the events filed from it for `n_days` days.
pub fn styles_from_start(store: &EventStore, start: Option<i64>, n_days: u8) -> (r: Result<
    Vec<(u8, DayStyle)>,
    CalendarError,
>)
    requires
        start matches Some(low) ==> low + n_days * SECONDS_PER_DAY <= i64::MAX,
    ensures
        start is None ==> r == Err::<Vec<(u8, DayStyle)>, CalendarError>(CalendarError::NoLocalTime),
        start matches Some(low) ==> (r matches Ok(v) && range_marks(
            store@,
            low,
            (low + n_days * SECONDS_PER_DAY) as i64,
            v@,
        ) && event_marks(v@)),
{
    match start {
        Some(low) => {
            let high = low + n_days as i64 * SECONDS_PER_DAY;
            Ok(styles_for_range(store, low, high))
        },
        None => Err(CalendarError::NoLocalTime),
    }
}

} // verus!

verus! {

/// A key pressed in the calendar.
#[derive(Clone, Copy, Debug, PartialEq, Eq, Structural)]
pub enum Key {
    Right,
    Left,
    Esc,
    Char(char),
    Other,
}

/// The month after `month` of `year`: `(month, year)`.
pub open spec fn next_month(month: int, year: int) -> (int, int) {
    if month == 12 { (1, year + 1) } else { (month + 1, year) }
}

/// The month before `month` of `year`: `(month, year)`.
pub open spec fn prev_month(month: int, year: int) -> (int, int) {
    if month == 1 { (12, year - 1) } else { (month - 1, year) }
}

/// Going one month forward and then one month back returns to the same month, and so
/// does going back and then forward.
pub proof fn lemma_next_prev_inverse(month: int, year: int)
    requires
        1 <= month <= 12,
    ensures
        prev_month(next_month(month, year).0, next_month(month, year).1) == (month, year),
        next_month(prev_month(month, year).0, prev_month(month, year).1) == (month, year),
        1 <= next_month(month, year).0 <= 12,
        1 <= prev_month(month, year).0 <= 12,
{
}

/// Twelve steps forward from a month reach the same month of the next year.
pub proof fn lemma_twelve_months(month: int, year: int)
    requires
        1 <= month <= 12,
    ensures
        months_forward(month, year, 12) == (month, year + 1),
{
    reveal_with_fuel(months_forward, 13);
}

/// A calendar that shows a month shows it consistently: the model is that month's
/// calendar (with its first day as today) and the view draws the model's month, in the
/// year shown. This is what every successful month step leaves.
pub proof fn lemma_shown_month_agrees(a: App, month: int, year: int, ics: Option<Seq<u8>>)
    requires
        a.shows_month(month, year, ics),
    ensures
        a.month() == month,
        a.year() == year,
        a.view_of().month_name@ == a.model().month_name@,
        a.view_of().start_day == a.model().start_day,
        a.view_of().n_days == a.model().n_days,
        a.view_of().year == year,
        a.model().models(CivilDate { year: year as i32, month: month as u8, day: 1 }),
{
}

/// Going to the next month and then back to the previous one returns to the month shown
/// at first, with today's date, the exit flag and the file unchanged, and with the model
/// and view of that month: the same first weekday, length and name as the model held at
/// first when that model was the calendar of a day `day` of the month.
pub proof fn lemma_next_then_prev(a0: App, a1: App, a2: App, ics1: Option<Seq<u8>>, ics2: Option<Seq<u8>>, day: u8)
    requires
        a0.wf(),
        a1.shows_month(next_month(a0.month(), a0.year()).0, next_month(a0.month(), a0.year()).1, ics1),
        a1.keeps_rest_of(a0),
        a2.shows_month(prev_month(a1.month(), a1.year()).0, prev_month(a1.month(), a1.year()).1, ics2),
        a2.keeps_rest_of(a1),
    ensures
        a2.month() == a0.month(),
        a2.year() == a0.year(),
        a2.keeps_rest_of(a0),
        a2.model().models(CivilDate { year: a0.year() as i32, month: a0.month() as u8, day: 1 }),
        a2.view_matches_model(),
        a2.view_of().year == a0.year(),
        a0.model().models(CivilDate { year: a0.year() as i32, month: a0.month() as u8, day }) ==> {
            &&& a2.model().start_day == a0.model().start_day
            &&& a2.model().n_days == a0.model().n_days
            &&& a2.model().month_name@ == a0.model().month_name@
        },
        a0.model().models(CivilDate { year: a0.year() as i32, month: a0.month() as u8, day })
            && a0.view_matches_model() ==> {
            &&& a2.view_of().month_name@ == a0.view_of().month_name@
            &&& a2.view_of().start_day == a0.view_of().start_day
            &&& a2.view_of().n_days == a0.view_of().n_days
            &&& a2.view_of().year == a0.view_of().year
        },
{
    lemma_next_prev_inverse(a0.month(), a0.year());
    let first = CivilDate { year: a0.year() as i32, month: a0.month() as u8, day: 1 };
    if a0.model().models(CivilDate { year: a0.year() as i32, month: a0.month() as u8, day }) {
        lemma_model_facts(a2.model(), first, a0.model(), CivilDate { year: a0.year() as i32, month: a0.month() as u8, day });
    }
}

/// The month reached after `n` steps forward from `month` of `year`.
pub open spec fn months_forward(month: int, year: int, n: nat) -> (int, int)
    decreases n,
{
    if n == 0 {
        (month, year)
    } else {
        let (m, y) = months_forward(month, year, (n - 1) as nat);
        next_month(m, y)
    }
}

/// The marks that a month's calendar holds: the event marks that the iCalendar data
/// gives for it (none when there is no data or it does not read, and possibly none when
/// the month's local midnight does not exist), then a today mark when the month is
/// today's month.
pub open spec fn month_marks(
    marks: Seq<(u8, DayStyle)>,
    ics: Option<Seq<u8>>,
    year: int,
    month: int,
    n_days: u8,
    is_todays_month: bool,
    this_day: u8,
) -> bool {
    let events = if is_todays_month { marks.drop_last() } else { marks };
    &&& is_todays_month ==> marks.len() > 0 && marks.last() == (this_day, DayStyle::Colored(DayColor::Blue))
    &&& event_marks(events)
    &&& match ics {
        None => events.len() == 0,
        Some(d) => match ics_store(d) {
            Err(_) => events.len() == 0,
            Ok(m) => events.len() == 0 || month_event_marks(m, year, month, n_days, events),
        },
    }
}

/// The marks of a month's view: the event marks `events`, then a today mark when the
/// month is `today`'s month.
pub open spec fn view_marks(events: Seq<(u8, DayStyle)>, year: int, month: int, today: CivilDate) -> Seq<
    (u8, DayStyle),
> {
    if today.year == year && today.month == month {
        events.push((today.day, DayStyle::Colored(DayColor::Blue)))
    } else {
        events
    }
}

/// The event marks that an outcome of marking gives: those marked, or none when it failed.
pub open spec fn marked_events(styles: Result<Vec<(u8, DayStyle)>, CalendarError>) -> Seq<(u8, DayStyle)> {
    match styles {
        Ok(v) => v@,
        Err(_) => Seq::<(u8, DayStyle)>::empty(),
    }
}

/// `v` draws month `month` of `year` from the model `model`: the model's name, first
/// weekday and length, in that year, with the marks `events` and a today mark when it
/// is `today`'s month.
pub open spec fn draws_month(
    v: CalendarView,
    model: CalendarModel,
    year: int,
    month: int,
    events: Seq<(u8, DayStyle)>,
    today: CivilDate,
) -> bool {
    &&& v.month_name@ == model.month_name@
    &&& v.start_day == model.start_day
    &&& v.year == year
    &&& v.n_days == model.n_days
    &&& v.styled_days@ == view_marks(events, year, month, today)
}

/// The view of month `month` of `year` drawn from its model: the marks that the outcome
/// `styles` of marking its events holds (none when marking failed), then a today mark
/// when it is `today`'s month.
pub fn month_view(
    model: &CalendarModel,
    year: i32,
    month: u8,
    styles: Result<Vec<(u8, DayStyle)>, CalendarError>,
    today: CivilDate,
) -> (r: CalendarView)
    requires
        today.wf(),
    ensures
        draws_month(r, *model, year as int, month as int, marked_events(styles), today),
{
    let ghost outcome = styles;
    let mut styled_days = match styles {
        Ok(s) => s,
        Err(_) => Vec::new(),
    };
    proof {
        assert(styled_days@ == marked_events(outcome));
    }
    let ghost events = styled_days@;
    match civil_date(year, month, today.day) {
        Some(maybe_today) => {
            if maybe_today == today {
                styled_days.push((today.day, today_style()));
            }
        },
        None => {},
    }
    CalendarView {
        month_name: model.month_name.clone(),
        start_day: model.start_day,
        year,
        n_days: model.n_days as usize,
        styled_days,
    }
}

/// Keys that show the next month: right arrow and `j`.
pub open spec fn is_next_key(key: Key) -> bool {
    key == Key::Right || key == Key::Char('j')
}

/// Keys that show the previous month: left arrow and `k`.
pub open spec fn is_prev_key(key: Key) -> bool {
    key == Key::Left || key == Key::Char('k')
}

/// Keys that ask to exit: `q` and escape.
pub open spec fn is_exit_key(key: Key) -> bool {
    key == Key::Char('q') || key == Key::Esc
}

/// `all` is `old` with the event marks of the store `m` for month `month` of `year`, of
/// `n_days` days, put before it.
pub open spec fn marks_prepended(
    all: Seq<(u8, DayStyle)>,
    old: Seq<(u8, DayStyle)>,
    m: Map<i64, Seq<EventView>>,
    year: int,
    month: int,
    n_days: u8,
) -> bool {
    &&& all.len() >= old.len()
    &&& all.subrange(all.len() - old.len(), all.len() as int) == old
    &&& month_event_marks(m, year, month, n_days, all.subrange(0, all.len() - old.len()))
}

/// The interactive calendar: the month shown with its model and view, today's date,
/// and the iCalendar file whose events are marked.
#[derive(Debug)]
pub struct App {
    exit: bool,
    current_month: u8,
    current_year: i32,
    calendar_model: CalendarModel,
    calendar_view: CalendarView,
    this_day: u8,
    this_month: u8,
    this_year: i32,
    pub ics_directory: Option<String>,
}

impl Clone for App {
    fn clone(&self) -> (r: Self)
        ensures
            r.same_as(*self),
    {
        App {
            exit: self.exit,
            current_month: self.current_month,
            current_year: self.current_year,
            calendar_model: self.calendar_model.clone(),
            calendar_view: self.calendar_view.clone(),
            this_day: self.this_day,
            this_month: self.this_month,
            this_year: self.this_year,
            ics_directory: self.ics_directory.clone(),
        }
    }
}

impl Default for App {
    /// The calendar of today's month, today being the machine's local date.
    fn default() -> (r: Self)
        ensures
            r.wf(),
            r.month() == r.today().month,
            r.year() == r.today().year,
            !r.exiting(),
            r.model().models(r.today()),
            r.view_matches_model(),
            r.view_of().styled_days@ == seq![(r.today().day, DayStyle::Colored(DayColor::Blue))],
            r.directory() is None,
    {
        App::for_today(local_today())
    }
}

impl App {
    /// The month shown (1 to 12).
    pub closed spec fn month(self) -> int {
        self.current_month as int
    }

    /// The year of the month shown.
    pub closed spec fn year(self) -> int {
        self.current_year as int
    }

    /// Today's date.
    pub closed spec fn today(self) -> CivilDate {
        CivilDate { year: self.this_year, month: self.this_month, day: self.this_day }
    }

    /// The iCalendar file whose events are marked.
    pub closed spec fn directory(self) -> Option<String> {
        self.ics_directory
    }

    /// The calendar has been asked to exit.
    pub closed spec fn exiting(self) -> bool {
        self.exit
    }

    /// The model of the month shown.
    pub closed spec fn model(self) -> CalendarModel {
        self.calendar_model
    }

    /// The view of the month shown.
    pub closed spec fn view_of(self) -> CalendarView {
        self.calendar_view
    }

    /// `self` and `other` hold the same state.
    pub open spec fn same_as(self, other: App) -> bool {
        &&& self.month() == other.month()
        &&& self.year() == other.year()
        &&& self.today() == other.today()
        &&& self.exiting() == other.exiting()
        &&& self.model() == other.model()
        &&& self.view_of().same_as(other.view_of())
        &&& self.directory() == other.directory()
    }

    /// The month shown is a month of the supported years, and today is a date.
    pub open spec fn wf(self) -> bool {
        &&& 1 <= self.month() <= 12
        &&& MIN_YEAR <= self.year() <= MAX_YEAR
        &&& self.today().wf()
    }

    /// The view shows the month of the model, in the year shown.
    pub open spec fn view_matches_model(self) -> bool {
        &&& self.view_of().month_name@ == self.model().month_name@
        &&& self.view_of().start_day == self.model().start_day
        &&& self.view_of().year == self.year()
        &&& self.view_of().n_days == self.model().n_days
    }

    /// The month after the one shown lies in the supported years.
    pub open spec fn can_go_next(self) -> bool {
        0 <= next_month(self.month(), self.year()).1 <= MAX_YEAR
    }

    /// The month before the one shown lies in the supported years.
    pub open spec fn can_go_prev(self) -> bool {
        prev_month(self.month(), self.year()).1 >= 0
    }

    /// The calendar of today's month, with today marked.
    pub fn for_today(today: CivilDate) -> (r: App)
        requires
            today.wf(),
        ensures
            r.wf(),
            r.month() == today.month,
            r.year() == today.year,
            r.today() == today,
            !r.exiting(),
            r.model().models(today),
            r.view_matches_model(),
            r.view_of().styled_days@ == seq![(today.day, DayStyle::Colored(DayColor::Blue))],
            r.directory() is None,
    {
        let calendar_model = CalendarModel::from_date(today);
        let styled_days = vec![(today.day, today_style())];
        let calendar_view = CalendarView {
            month_name: calendar_model.month_name.clone(),
            start_day: calendar_model.start_day,
            year: today.year,
            n_days: calendar_model.n_days as usize,
            styled_days,
        };
        App {
            exit: false,
            current_month: today.month,
            current_year: today.year,
            calendar_model,
            calendar_view,
            this_day: today.day,
            this_month: today.month,
            this_year: today.year,
            ics_directory: None,
        }
    }

    /// The month shown (1 to 12).
    pub fn current_month(&self) -> (r: u8)
        ensures
            r == self.month(),
    {
        self.current_month
    }

    /// The year of the month shown.
    pub fn current_year(&self) -> (r: i32)
        ensures
            r == self.year(),
    {
        self.current_year
    }

    /// The model of the month shown.
    pub fn calendar_model(&self) -> (r: &CalendarModel)
        ensures
            *r == self.model(),
    {
        &self.calendar_model
    }

    /// The view of the month shown.
    pub fn calendar_view(&self) -> (r: &CalendarView)
        ensures
            *r == self.view_of(),
    {
        &self.calendar_view
    }

    /// The calendar has been asked to exit.
    pub fn should_exit(&self) -> (r: bool)
        ensures
            r == self.exiting(),
    {
        self.exit
    }

    /// Asks the calendar to exit.
    pub fn exit(&mut self)
        ensures
            final(self).exiting(),
            final(self).month() == old(self).month(),
            final(self).year() == old(self).year(),
            final(self).today() == old(self).today(),
            final(self).model() == old(self).model(),
            final(self).view_of() == old(self).view_of(),
            final(self).directory() == old(self).directory(),
    {
        self.exit = true;
    }

    /// `self` shows month `month` of `year`: its model (with the first day marked as
    /// today in the model), a view of it, and the marks of the iCalendar data `ics`
    /// for it, followed by a today mark when it is today's month.
    pub open spec fn shows_month(self, month: int, year: int, ics: Option<Seq<u8>>) -> bool {
        &&& self.month() == month
        &&& self.year() == year
        &&& self.model().models(CivilDate { year: year as i32, month: month as u8, day: 1 })
        &&& self.view_matches_model()
        &&& month_marks(
            self.view_of().styled_days@,
            ics,
            year,
            month,
            self.model().n_days,
            year == self.today().year && month == self.today().month,
            self.today().day,
        )
    }

    /// Only the month shown, with its model and view, differs between `self` and `other`.
    pub open spec fn keeps_rest_of(self, other: App) -> bool {
        &&& self.today() == other.today()
        &&& self.exiting() == other.exiting()
        &&& self.directory() == other.directory()
    }

    /// Shows month `month` of `year` with the model `model` and the outcome `styles` of
    /// marking its events: the view draws the model, with the marks that `styles` holds
    /// (none when marking failed) followed by a today mark when it is today's month.
    /// Today's date, the exit flag and the file stay.
    pub fn set_month(&mut self, month: u8, year: i32, model: CalendarModel, styles: Result<
        Vec<(u8, DayStyle)>,
        CalendarError,
    >)
        requires
            old(self).wf(),
            1 <= month <= 12,
            MIN_YEAR <= year <= MAX_YEAR,
        ensures
            final(self).month() == month,
            final(self).year() == year,
            final(self).model() == model,
            draws_month(final(self).view_of(), model, year as int, month as int, marked_events(styles), final(self).today()),
            final(self).keeps_rest_of(*old(self)),
            final(self).wf(),
    {
        let today = CivilDate { year: self.this_year, month: self.this_month, day: self.this_day };
        let calendar_view = month_view(&model, year, month, styles, today);
        self.current_year = year;
        self.current_month = month;
        self.calendar_view = calendar_view;
        self.calendar_model = model;
    }

    /// Shows month `month` of `year`, marking the events of the iCalendar data `ics_data`.
    /// Fails, changing nothing, when that month's local time 00:00:01 on its first day
    /// does not exist on this machine.
    fn show_month(&mut self, month: u8, year: i32, ics_data: Option<&[u8]>) -> (r: Result<(), CalendarError>)
        requires
            old(self).wf(),
            1 <= month <= 12,
            0 <= year <= MAX_YEAR,
        ensures
            match r {
                Ok(()) => final(self).shows_month(month as int, year as int, data_view(ics_data))
                    && final(self).keeps_rest_of(*old(self)) && final(self).wf(),
                Err(e) => e == CalendarError::NoLocalTime && *final(self) == *old(self),
            },
    {
        let calendar_model = match CalendarModel::new(None, month, year) {
            Ok(model) => model,
            Err(e) => {
                return Err(e);
            },
        };
        let n_days = calendar_model.n_days;
        let styles = get_styles(ics_data, month, year, n_days);
        let ghost outcome = styles;
        self.set_month(month, year, calendar_model, styles);
        proof {
            let events = marked_events(outcome);
            let marks = self.view_of().styled_days@;
            if year == self.today().year && month == self.today().month {
                assert(marks.drop_last() =~= events);
            }
        }
        Ok(())
    }

    /// Shows the next month, marking the events of the iCalendar data `ics_data`.
    /// Fails, changing nothing, when that month's first local midnight (00:00:01) does
    /// not exist on this machine.
    pub fn next_calendar(&mut self, ics_data: Option<&[u8]>) -> (r: Result<(), CalendarError>)
        requires
            old(self).wf(),
            old(self).can_go_next(),
        ensures
            match r {
                Ok(()) => final(self).shows_month(
                    next_month(old(self).month(), old(self).year()).0,
                    next_month(old(self).month(), old(self).year()).1,
                    data_view(ics_data),
                ) && final(self).keeps_rest_of(*old(self)) && final(self).wf(),
                Err(e) => e == CalendarError::NoLocalTime && *final(self) == *old(self),
            },
            old(self).view_matches_model() ==> final(self).view_matches_model(),
    {
        let year = self.current_year + (self.current_month / 12) as i32;
        let month = self.current_month % 12 + 1;
        self.show_month(month, year, ics_data)
    }

    /// Shows the previous month, marking the events of the iCalendar data `ics_data`.
    /// Fails, changing nothing, when that month's first local midnight (00:00:01) does
    /// not exist on this machine.
    pub fn prev_calendar(&mut self, ics_data: Option<&[u8]>) -> (r: Result<(), CalendarError>)
        requires
            old(self).wf(),
            old(self).can_go_prev(),
        ensures
            match r {
                Ok(()) => final(self).shows_month(
                    prev_month(old(self).month(), old(self).year()).0,
                    prev_month(old(self).month(), old(self).year()).1,
                    data_view(ics_data),
                ) && final(self).keeps_rest_of(*old(self)) && final(self).wf(),
                Err(e) => e == CalendarError::NoLocalTime && *final(self) == *old(self),
            },
            old(self).view_matches_model() ==> final(self).view_matches_model(),
    {
        let back = (12 - (self.current_month as i32 - 1) % 12) / 12;
        let year = self.current_year - back;
        let month = if self.current_month == 1 {
            12
        } else {
            self.current_month - 1
        };
        self.show_month(month, year, ics_data)
    }

    /// A copy of the calendar that marks the events of the iCalendar file `ics_directory`,
    /// whose bytes are `ics_data`, in today's month (of `n_days` days, the number of days of
    /// the month shown): their marks come before the marks already held. It fails as
    /// [`get_styles`] does.
    pub fn with_ics_dir(&self, ics_directory: Option<String>, ics_data: Option<&[u8]>) -> (r: Result<
        App,
        CalendarError,
    >)
        ensures
            ics_data is None ==> r is Err && r->Err_0 == CalendarError::MissingIcsFile,
            ics_data matches Some(d) ==> match ics_store(d@) {
                Err(e) => r is Err && r->Err_0 == e,
                Ok(m) => match r {
                    Ok(a) => {
                        &&& a.month() == self.month()
                        &&& a.year() == self.year()
                        &&& a.today() == self.today()
                        &&& a.exiting() == self.exiting()
                        &&& a.model() == self.model()
                        &&& a.directory() == ics_directory
                        &&& a.view_of().month_name@ == self.view_of().month_name@
                        &&& a.view_of().start_day == self.view_of().start_day
                        &&& a.view_of().year == self.view_of().year
                        &&& a.view_of().n_days == self.view_of().n_days
                        &&& marks_prepended(
                            a.view_of().styled_days@,
                            self.view_of().styled_days@,
                            m,
                            self.today().year as int,
                            self.today().month as int,
                            self.model().n_days,
                        )
                    },
                    Err(e) => e == CalendarError::NoLocalTime,
                },
            },
    {
        let styles = get_styles(ics_data, self.this_month, self.this_year, self.calendar_model.n_days);
        let ghost outcome = styles;
        let r = self.with_styles(ics_directory, styles);
        proof {
            if let Ok(a) = &r {
                if let Ok(marks) = outcome {
                    let all = a.view_of().styled_days@;
                    let before = self.view_of().styled_days@;
                    assert(all.subrange(0, all.len() - before.len()) =~= marks@);
                    assert(all.subrange(all.len() - before.len(), all.len() as int) =~= before);
                }
            }
        }
        r
    }

    /// A copy of the calendar that opens the iCalendar file `ics_directory`, given the
    /// outcome `styles` of marking its events in today's month: the error when marking
    /// failed, else the calendar with those marks before the marks already held.
    pub fn with_styles(&self, ics_directory: Option<String>, styles: Result<Vec<(u8, DayStyle)>, CalendarError>) -> (r: Result<
        App,
        CalendarError,
    >)
        ensures
            styles matches Err(e) ==> r == Err::<App, CalendarError>(e),
            styles matches Ok(s) ==> (r matches Ok(a) && {
                &&& a.month() == self.month()
                &&& a.year() == self.year()
                &&& a.today() == self.today()
                &&& a.exiting() == self.exiting()
                &&& a.model() == self.model()
                &&& a.directory() == ics_directory
                &&& a.view_of().month_name@ == self.view_of().month_name@
                &&& a.view_of().start_day == self.view_of().start_day
                &&& a.view_of().year == self.view_of().year
                &&& a.view_of().n_days == self.view_of().n_days
                &&& a.view_of().styled_days@ == s@ + self.view_of().styled_days@
            }),
    {
        let new_styles = match styles {
            Ok(styles) => styles,
            Err(e) => {
                return Err(e);
            },
        };
        let mut ret = self.clone();
        ret.ics_directory = ics_directory;
        let mut styled_days = new_styles;
        let ghost new_marks = styled_days@;
        let old_days = &self.calendar_view.styled_days;
        let mut i: usize = 0;
        while i < old_days.len()
            invariant
                i <= old_days.len(),
                styled_days@ == new_marks + old_days@.take(i as int),
            decreases old_days.len() - i,
        {
            styled_days.push(old_days[i]);
            proof {
                assert(old_days@.take(i + 1) =~= old_days@.take(i as int).push(old_days@[i as int]));
                assert(styled_days@ =~= new_marks + old_days@.take(i + 1));
            }
            i = i + 1;
        }
        proof {
            assert(old_days@.take(old_days.len() as int) =~= old_days@);
        }
        ret.calendar_view.styled_days = styled_days;
        Ok(ret)
    }

    /// Acts on a key: right arrow or `j` shows the next month, left arrow or `k` the
    /// previous one, `q` or escape asks to exit; other keys change nothing.
    pub fn handle_key_event(&mut self, key: Key, ics_data: Option<&[u8]>) -> (r: Result<(), CalendarError>)
        requires
            old(self).wf(),
            is_next_key(key) ==> old(self).can_go_next(),
            is_prev_key(key) ==> old(self).can_go_prev(),
        ensures
            is_next_key(key) ==> match r {
                Ok(()) => final(self).shows_month(
                    next_month(old(self).month(), old(self).year()).0,
                    next_month(old(self).month(), old(self).year()).1,
                    data_view(ics_data),
                ) && final(self).keeps_rest_of(*old(self)) && final(self).wf(),
                Err(e) => e == CalendarError::NoLocalTime && *final(self) == *old(self),
            },
            is_prev_key(key) ==> match r {
                Ok(()) => final(self).shows_month(
                    prev_month(old(self).month(), old(self).year()).0,
                    prev_month(old(self).month(), old(self).year()).1,
                    data_view(ics_data),
                ) && final(self).keeps_rest_of(*old(self)) && final(self).wf(),
                Err(e) => e == CalendarError::NoLocalTime && *final(self) == *old(self),
            },
            is_exit_key(key) ==> r is Ok && final(self).exiting() && final(self).month() == old(self).month()
                && final(self).year() == old(self).year() && final(self).today() == old(self).today()
                && final(self).model() == old(self).model() && final(self).view_of() == old(self).view_of()
                && final(self).directory() == old(self).directory(),
            !is_next_key(key) && !is_prev_key(key) && !is_exit_key(key) ==> r is Ok && *final(self) == *old(self),
            old(self).view_matches_model() ==> final(self).view_matches_model(),
    {
        match key {
            Key::Right | Key::Char('j') => self.next_calendar(ics_data),
            Key::Left | Key::Char('k') => self.prev_calendar(ics_data),
            Key::Char('q') | Key::Esc => {
                self.exit();
                Ok(())
            },
            _ => Ok(()),
        }
    }

    /// `target` is today.
    pub fn is_today(&self, target: CivilDate) -> (r: bool)
        ensures
            r == (target == self.today()),
    {
        target.year == self.this_year && target.month == self.this_month && target.day == self.this_day
    }
}

} // verus!
