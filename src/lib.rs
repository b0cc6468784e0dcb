//! Parsing of timetable rows (class, time rule, place rule) into concrete
//! class occurrences with absolute start and end instants.

pub mod calendar;
pub mod login;
pub mod place;
pub mod report;
pub mod rule;
pub mod schedule;
pub mod store;
pub mod text;

pub use calendar::{get_period_time, parse_weekday, to_utc, ClockTime, Date, Weekday};
pub use place::{parse_place_rule, PlaceResolution};
pub use rule::{parse_time_rule, DateRange, ParseError, TimeBlock, WeekdayPeriod};
pub use schedule::{parse_table_row, Data};
pub use text::parse_list_uint;
