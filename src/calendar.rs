//! Calendar values: weekdays, day numbers, the period table and the fixed
//! UTC+7 wall clock of the timetable.

use chrono::Datelike;
use vstd::prelude::*;

use crate::text::{first_run, first_run_of, is_digit, lemma_no_digit_no_run, string_of};

verus! {

/// A day of the week.
#[derive(Clone, Copy, Debug, PartialEq, Eq, Structural)]
pub enum Weekday {
    Mon,
    Tue,
    Wed,
    Thu,
    Fri,
    Sat,
    Sun,
}

impl Weekday {
    /// Days since Monday: Monday is 0, Sunday is 6.
    pub open spec fn index(self) -> int {
        match self {
            Weekday::Mon => 0,
            Weekday::Tue => 1,
            Weekday::Wed => 2,
            Weekday::Thu => 3,
            Weekday::Fri => 4,
            Weekday::Sat => 5,
            Weekday::Sun => 6,
        }
    }

    /// Days since Monday: Monday is 0, Sunday is 6.
    pub fn num_days_from_monday(&self) -> (r: u32)
        ensures
            r as int == self.index(),
    {
        match self {
            Weekday::Mon => 0,
            Weekday::Tue => 1,
            Weekday::Wed => 2,
            Weekday::Thu => 3,
            Weekday::Fri => 4,
            Weekday::Sat => 5,
            Weekday::Sun => 6,
        }
    }
}

/// The weekday with the given number of days since Monday.
pub open spec fn weekday_from_index(i: int) -> Weekday {
    if i == 0 {
        Weekday::Mon
    } else if i == 1 {
        Weekday::Tue
    } else if i == 2 {
        Weekday::Wed
    } else if i == 3 {
        Weekday::Thu
    } else if i == 4 {
        Weekday::Fri
    } else if i == 5 {
        Weekday::Sat
    } else {
        Weekday::Sun
    }
}

/// The weekday that a timetable code names: 2 is Monday up to 7 for Saturday;
/// any other code, or none at all, is Sunday.
pub open spec fn weekday_of_code(code: Option<int>) -> Weekday {
    match code {
        Some(v) => if v == 2 {
            Weekday::Mon
        } else if v == 3 {
            Weekday::Tue
        } else if v == 4 {
            Weekday::Wed
        } else if v == 5 {
            Weekday::Thu
        } else if v == 6 {
            Weekday::Fri
        } else if v == 7 {
            Weekday::Sat
        } else {
            Weekday::Sun
        },
        None => Weekday::Sun,
    }
}

/// The weekday named by the first digit run of `s`.
pub fn weekday_of_chars(s: &Vec<char>) -> (r: Weekday)
    ensures
        r == weekday_of_code(first_run(s@)),
{
    match first_run_of(s) {
        Some(v) => if v == 2 {
            Weekday::Mon
        } else if v == 3 {
            Weekday::Tue
        } else if v == 4 {
            Weekday::Wed
        } else if v == 5 {
            Weekday::Thu
        } else if v == 6 {
            Weekday::Fri
        } else if v == 7 {
            Weekday::Sat
        } else {
            Weekday::Sun
        },
        None => Weekday::Sun,
    }
}

/// Reads a weekday code such as `"4"` (Wednesday) out of free text: the first
/// digit run decides, and text without a usable code gives Sunday.
pub fn parse_weekday(s: &str) -> (r: Weekday)
    ensures
        r == weekday_of_code(first_run(s@)),
{
    let cs = crate::text::chars_of(s);
    weekday_of_chars(&cs)
}

/// A weekday code without any digit is read as Sunday.
pub proof fn lemma_no_digit_is_sunday(s: Seq<char>)
    requires
        forall|j: int| 0 <= j < s.len() ==> !is_digit(#[trigger] s[j]),
    ensures
        weekday_of_code(first_run(s)) == Weekday::Sun,
{
    lemma_no_digit_no_run(s, 0);
}

/// A calendar day, as its number in the proleptic Gregorian calendar where
/// 1 January of year 1 is day 1.
#[derive(Clone, Copy, Debug, PartialEq, Eq, Structural)]
pub struct Date {
    pub day: i32,
}

/// The day number of 1 January 1970.
pub const UNIX_EPOCH_DAY: i64 = 719_163;

/// Days since Monday of a day number; day 1 (1 January of year 1) is a Monday.
pub open spec fn weekday_index(day: int) -> int {
    (day - 1) % 7
}

/// The weekday of a day.
pub open spec fn weekday_of_day(day: int) -> Weekday {
    weekday_from_index(weekday_index(day))
}

impl Date {
    /// The weekday of this day.
    pub fn weekday(&self) -> (r: Weekday)
        ensures
            r == weekday_of_day(self.day as int),
            r.index() == weekday_index(self.day as int),
    {
        // a multiple of 7 above 2^31 keeps the dividend positive
        let shifted: i64 = self.day as i64 - 1 + 2_147_483_653;
        let k = (shifted % 7) as u32;
        assert(k as int == weekday_index(self.day as int)) by {
            assert(2_147_483_653int == 7 * 306_783_379int);
        }
        if k == 0 {
            Weekday::Mon
        } else if k == 1 {
            Weekday::Tue
        } else if k == 2 {
            Weekday::Wed
        } else if k == 3 {
            Weekday::Thu
        } else if k == 4 {
            Weekday::Fri
        } else if k == 5 {
            Weekday::Sat
        } else {
            Weekday::Sun
        }
    }
}

/// A wall-clock time of day.
#[derive(Clone, Copy, Debug, PartialEq, Eq, Structural)]
pub struct ClockTime {
    pub hour: u32,
    pub minute: u32,
}

impl ClockTime {
    /// Seconds since midnight.
    pub open spec fn secs(self) -> int {
        self.hour * 3600 + self.minute * 60
    }
}

/// The clock boundaries of a teaching period: periods 1 to 16 have their
/// published times, any other number the trailing slot 21:15 to 21:20.
pub open spec fn period_bounds(n: u32) -> (ClockTime, ClockTime) {
    let (sh, sm, eh, em) = if n == 1 {
        (7u32, 0u32, 7u32, 45u32)
    } else if n == 2 {
        (7, 50, 8, 35)
    } else if n == 3 {
        (8, 40, 9, 25)
    } else if n == 4 {
        (9, 35, 10, 20)
    } else if n == 5 {
        (10, 25, 11, 10)
    } else if n == 6 {
        (11, 15, 12, 0)
    } else if n == 7 {
        (12, 30, 13, 15)
    } else if n == 8 {
        (13, 20, 14, 5)
    } else if n == 9 {
        (14, 10, 14, 55)
    } else if n == 10 {
        (15, 5, 15, 50)
    } else if n == 11 {
        (15, 55, 16, 40)
    } else if n == 12 {
        (15, 45, 17, 30)
    } else if n == 13 {
        (18, 0, 18, 45)
    } else if n == 14 {
        (18, 50, 19, 35)
    } else if n == 15 {
        (19, 40, 20, 25)
    } else if n == 16 {
        (20, 30, 21, 15)
    } else {
        (21, 15, 21, 20)
    };
    (ClockTime { hour: sh, minute: sm }, ClockTime { hour: eh, minute: em })
}

/// The start and end of a teaching period.
pub fn get_period_time(n: u32) -> (r: (ClockTime, ClockTime))
    ensures
        r == period_bounds(n),
{
    let (sh, sm, eh, em): (u32, u32, u32, u32) = match n {
        1 => (7, 0, 7, 45),
        2 => (7, 50, 8, 35),
        3 => (8, 40, 9, 25),
        4 => (9, 35, 10, 20),
        5 => (10, 25, 11, 10),
        6 => (11, 15, 12, 0),
        7 => (12, 30, 13, 15),
        8 => (13, 20, 14, 5),
        9 => (14, 10, 14, 55),
        10 => (15, 5, 15, 50),
        11 => (15, 55, 16, 40),
        12 => (15, 45, 17, 30),
        13 => (18, 0, 18, 45),
        14 => (18, 50, 19, 35),
        15 => (19, 40, 20, 25),
        16 => (20, 30, 21, 15),
        _ => (21, 15, 21, 20),
    };
    (ClockTime { hour: sh, minute: sm }, ClockTime { hour: eh, minute: em })
}

/// Every period of the table, the trailing slot included, starts before it ends.
pub proof fn lemma_period_starts_before_end(n: u32)
    ensures
        period_bounds(n).0.secs() < period_bounds(n).1.secs(),
{
}

/// The offset of the timetable's wall clock from UTC, in seconds (UTC+7, no
/// daylight saving).
pub const LOCAL_OFFSET_SECS: i64 = 25_200;

/// The wall-clock reading of a time of day on a day, as seconds since
/// 1970-01-01 00:00 on the same wall clock.
pub open spec fn local_secs(day: int, t: ClockTime) -> int {
    (day - UNIX_EPOCH_DAY) * 86_400 + t.secs()
}

/// The instant, in seconds since the Unix epoch, of a wall-clock reading of
/// the UTC+7 timetable clock.
pub open spec fn utc_of_local(local: int) -> int {
    local - LOCAL_OFFSET_SECS
}

/// Converts a wall-clock reading of the timetable's UTC+7 clock (seconds since
/// 1970-01-01 00:00 on that clock) to an instant (seconds since the Unix epoch).
pub fn to_utc(local: i64) -> (r: i64)
    requires
        local >= i64::MIN + LOCAL_OFFSET_SECS,
    ensures
        r == utc_of_local(local as int),
{
    local - LOCAL_OFFSET_SECS
}

/// The wall-clock reading of a time of day on a day.
pub fn local_time(d: Date, t: ClockTime) -> (r: i64)
    ensures
        r == local_secs(d.day as int, t),
{
    (d.day as i64 - UNIX_EPOCH_DAY) * 86_400 + (t.hour as i64) * 3600 + (t.minute as i64) * 60
}

/// The day number that chrono's `%d/%m/%Y` parsing gives a text, or `None`
/// where the text does not read as a date in that format.
pub uninterp spec fn dmy_day_number(s: Seq<char>) -> Option<i32>;

/// Relies on `chrono::NaiveDate::parse_from_str` with the format `%d/%m/%Y`
/// (day, month and year separated by slashes), and on `Datelike::num_days_from_ce`
/// to hand the date back as its day number; the result depends on the text alone.
#[verifier::external_body]
fn parse_dmy(s: &str) -> (r: Option<i32>)
    ensures
        r == dmy_day_number(s@),
{
    chrono::NaiveDate::parse_from_str(s, "%d/%m/%Y").ok().map(|d| d.num_days_from_ce())
}

/// Reads a `day/month/year` date.
pub fn parse_date(s: &Vec<char>) -> (r: Option<Date>)
    ensures
        match r {
            Some(d) => dmy_day_number(s@) == Some(d.day),
            None => dmy_day_number(s@) is None,
        },
{
    let text = string_of(s);
    match parse_dmy(text.as_str()) {
        Some(day) => Some(Date { day }),
        None => None,
    }
}

} // verus!
