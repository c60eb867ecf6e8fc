//! A month calendar: the Gregorian calendar model of a month, a store of
//! dated events read from iCalendar data, and the state of an interactive
//! calendar that moves from month to month.

pub mod gregorian;
pub mod datetime;
pub mod error;
pub mod models;
pub mod ics;
pub mod views;
pub mod app;
