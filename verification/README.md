# calendar

A terminal month calendar that marks the days holding events of an iCalendar
file, with its logic verified by Verus.

- `src/` is the verified library: the Gregorian calendar as spec functions
  (`gregorian`), the calls into `chrono` behind small trusted functions
  (`datetime`), the event store and the month model (`models`), reading events
  out of iCalendar data (`ics`), the layout of the month grid (`views`) and the
  state of the interactive calendar with its key handling (`app`).
- `app/` is the terminal program: argument parsing, reading the iCalendar file,
  the event loop and the drawing with `ratatui`.
- `tests/` holds the tests of the library.
