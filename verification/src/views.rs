//! What the calendar view shows: the month's title and grid of days, and the
//! styles of marked days. Drawing is left to the terminal front end; this module
//! decides which cell of the grid shows which day.

use vstd::prelude::*;

verus! {

/// Width under which the calendar is not drawn, in terminal cells.
pub const MIN_CALENDAR_WIDTH: u16 = 32;

/// Height under which the calendar is not drawn, in terminal cells.
pub const MIN_CALENDAR_HEIGHT: u16 = 12;

/// Colours that a day can be marked with.
#[derive(Clone, Copy, Debug, PartialEq, Eq, Structural)]
pub enum DayColor {
    Red,
    Green,
    Blue,
}

/// How a day of the month is marked.
#[derive(Clone, Copy, Debug, PartialEq, Eq, Structural)]
pub enum DayStyle {
    Colored(DayColor),
    Bold(DayColor),
    Normal,
}

/// The style that marks today.
pub fn today_style() -> (r: DayStyle)
    ensures
        r == DayStyle::Colored(DayColor::Blue),
{
    DayStyle::Colored(DayColor::Blue)
}

/// The style that marks a day with an event.
pub fn event_style() -> (r: DayStyle)
    ensures
        r == DayStyle::Colored(DayColor::Green),
{
    DayStyle::Colored(DayColor::Green)
}

/// The calendar of a month as drawn: title (year and month name), the weekday of the
/// first day (Sunday = 0), the number of days and the marked days with their styles.
#[derive(Debug)]
pub struct CalendarView {
    pub month_name: String,
    pub start_day: u8,
    pub year: i32,
    pub n_days: usize,
    pub styled_days: Vec<(u8, DayStyle)>,
}

/// A copy of a list of marked days.
pub fn copy_styled_days(v: &Vec<(u8, DayStyle)>) -> (r: Vec<(u8, DayStyle)>)
    ensures
        r@ == v@,
{
    let mut r: Vec<(u8, DayStyle)> = Vec::new();
    let mut i: usize = 0;
    while i < v.len()
        invariant
            i <= v.len(),
            r@ == v@.take(i as int),
        decreases v.len() - i,
    {
        r.push(v[i]);
        proof {
            assert(v@.take(i + 1) =~= v@.take(i as int).push(v@[i as int]));
        }
        i = i + 1;
    }
    proof {
        assert(v@.take(v.len() as int) =~= v@);
    }
    r
}

impl Clone for CalendarView {
    fn clone(&self) -> (r: Self)
        ensures
            r.same_as(*self),
    {
        let styled_days = copy_styled_days(&self.styled_days);
        CalendarView {
            month_name: self.month_name.clone(),
            start_day: self.start_day,
            year: self.year,
            n_days: self.n_days,
            styled_days,
        }
    }
}

/// The calendar can be drawn in an area of `width` by `height` cells.
pub fn fits_area(width: u16, height: u16) -> (r: bool)
    ensures
        r == (width >= MIN_CALENDAR_WIDTH && height >= MIN_CALENDAR_HEIGHT),
{
    width >= MIN_CALENDAR_WIDTH && height >= MIN_CALENDAR_HEIGHT
}

impl CalendarView {
    /// `self` shows the same calendar as `other`.
    pub open spec fn same_as(self, other: CalendarView) -> bool {
        &&& self.month_name@ == other.month_name@
        &&& self.start_day == other.start_day
        &&& self.year == other.year
        &&& self.n_days == other.n_days
        &&& self.styled_days@ == other.styled_days@
    }

    /// The number of grid cells the days of the month take, from the first cell:
    /// the blank cells before the first day and one cell per day, at most `n_cells`.
    pub open spec fn used_cells(self, n_cells: usize) -> int {
        let wanted = self.n_days + self.start_day;
        if wanted < n_cells { wanted } else { n_cells as int }
    }

    /// The cells of a grid of `n_cells` cells that show a day of the month, with the
    /// day they show: the grid starts on Sunday, so day 1 is in cell `start_day`, and
    /// cells past the grid are left out.
    pub fn day_cells(&self, n_cells: usize) -> (r: Vec<(usize, i32)>)
        requires
            self.n_days + self.start_day <= usize::MAX,
            n_cells <= i32::MAX,
        ensures
            r@.len() == if self.used_cells(n_cells) > self.start_day { self.used_cells(n_cells) - self.start_day } else { 0 },
            forall|k: int| 0 <= k < r@.len() ==> r@[k] == (
                (self.start_day + k) as usize,
                (k + 1) as i32,
            ),
    {
        let limit = if self.n_days + (self.start_day as usize) < n_cells {
            self.n_days + (self.start_day as usize)
        } else {
            n_cells
        };
        let mut r: Vec<(usize, i32)> = Vec::new();
        let mut i: usize = 0;
        while i < limit
            invariant
                i <= limit,
                limit == self.used_cells(n_cells),
                n_cells <= i32::MAX,
                limit <= n_cells,
                r@.len() == if i > self.start_day { i - self.start_day } else { 0 },
                forall|k: int| 0 <= k < r@.len() ==> r@[k] == ((self.start_day + k) as usize, (k + 1) as i32),
            decreases limit - i,
        {
            // The day shown in cell `i`: cells before the first day stay blank.
            let month_day = i as i32 - self.start_day as i32 + 1;
            if month_day > 0 {
                r.push((i, month_day));
            }
            i = i + 1;
        }
        r
    }

    /// The marked days are all drawn inside a grid of `n_cells` cells.
    pub open spec fn styled_days_fit(self, n_cells: usize) -> bool {
        forall|k: int| 0 <= k < self.styled_days@.len() ==>
            0 <= #[trigger] self.styled_days@[k].0 + self.start_day - 1 < n_cells
    }

    /// For each marked day, in order: the cell of a grid of `n_cells` cells that shows it,
    /// the day and its style.
    pub fn styled_cells(&self, n_cells: usize) -> (r: Vec<(usize, u8, DayStyle)>)
        requires
            self.styled_days_fit(n_cells),
        ensures
            r@.len() == self.styled_days@.len(),
            forall|k: int| 0 <= k < r@.len() ==> r@[k] == (
                (self.styled_days@[k].0 + self.start_day - 1) as usize,
                self.styled_days@[k].0,
                self.styled_days@[k].1,
            ),
    {
        let mut r: Vec<(usize, u8, DayStyle)> = Vec::new();
        let mut k: usize = 0;
        while k < self.styled_days.len()
            invariant
                k <= self.styled_days@.len(),
                self.styled_days_fit(n_cells),
                r@.len() == k,
                forall|j: int| 0 <= j < k ==> r@[j] == (
                    (self.styled_days@[j].0 + self.start_day - 1) as usize,
                    self.styled_days@[j].0,
                    self.styled_days@[j].1,
                ),
            decreases self.styled_days@.len() - k,
        {
            let (day, style) = self.styled_days[k];
            proof {
                assert(0 <= self.styled_days@[k as int].0 + self.start_day - 1 < n_cells);
            }
            let cell = (self.start_day as usize + day as usize) - 1;
            r.push((cell, day, style));
            k = k + 1;
        }
        r
    }
}

} // verus!
