use chrono::{Datelike, NaiveDate, NaiveDateTime, Timelike};
use vstd::prelude::*;

verus! {

/// Number of seconds in a day without leap second.
pub const SECS_PER_DAY: u32 = 86400;

/// A naive (time-zone free) wall-clock date and time, to the second.
///
/// `day` counts days from the first of January of year 1 (day 1, a Monday)
/// in the proleptic Gregorian calendar. `secs` is the second of that day;
/// the value 86400 stands for the leap second 23:59:60, which sorts after
/// 23:59:59 and before midnight of the next day, and which denotes the same
/// instant as that midnight.
#[derive(Clone, Copy, PartialEq, Eq, Structural, Debug, Hash)]
pub struct DateTime {
    pub day: i32,
    pub secs: u32,
}

/// The day number of a calendar date, if the date exists.
pub uninterp spec fn civil_day(year: i32, month: u32, day: u32) -> Option<i32>;

/// What `NaiveDateTime::parse_from_str(s, "%Y-%m-%d %H:%M:%S")` yields: the day
/// number, the non-leap seconds since midnight, and the nanoseconds within that
/// second (1_000_000_000 and over during a leap second).
pub uninterp spec fn parsed_datetime(s: Seq<char>) -> Option<(i32, u32, u32)>;

/// The date and time that `s` denotes in the form `YYYY-MM-DD HH:MM:SS`, a
/// leap second counted as second 86400 of its day.
pub open spec fn parse_spec(s: Seq<char>) -> Option<DateTime> {
    match parsed_datetime(s) {
        Some(p) => Some(
            DateTime {
                day: p.0,
                secs: (if p.2 >= 1_000_000_000 {
                    p.1 + 1
                } else {
                    p.1 as int
                }) as u32,
            },
        ),
        None => None,
    }
}

impl DateTime {
    pub open spec fn wf(self) -> bool {
        self.secs <= SECS_PER_DAY
    }

    /// Seconds elapsed since day 0 at midnight; the leap second and the next
    /// midnight share their instant.
    pub open spec fn instant(self) -> int {
        self.day * 86400 + self.secs
    }

    /// Chronological order: by day, then by second of the day.
    pub open spec fn before(self, other: DateTime) -> bool {
        self.day < other.day || (self.day == other.day && self.secs < other.secs)
    }

    pub open spec fn not_after(self, other: DateTime) -> bool {
        self.before(other) || self == other
    }

    /// A date and time from a day number and a second of that day.
    pub fn new(day: i32, secs: u32) -> (r: DateTime)
        requires
            secs <= SECS_PER_DAY,
        ensures
            r == (DateTime { day, secs }),
            r.wf(),
    {
        DateTime { day, secs }
    }

    /// The date and time of the given calendar date at the given hour, minute
    /// and second; `None` if the date does not exist or the time is out of range.
    pub fn from_ymd_hms(year: i32, month: u32, day: u32, hour: u32, min: u32, sec: u32) -> (r:
        Option<DateTime>)
        ensures
            r == (if hour < 24 && min < 60 && sec < 60 && civil_day(year, month, day).is_some() {
                Some(
                    DateTime {
                        day: civil_day(year, month, day).unwrap(),
                        secs: (hour * 3600 + min * 60 + sec) as u32,
                    },
                )
            } else {
                None
            }),
            r.is_some() ==> r.unwrap().wf(),
    {
        if hour >= 24 || min >= 60 || sec >= 60 {
            return None;
        }
        match day_number(year, month, day) {
            Some(d) => Some(DateTime { day: d, secs: hour * 3600 + min * 60 + sec }),
            None => None,
        }
    }

    /// The date and time written as `YYYY-MM-DD HH:MM:SS`; `None` where the text
    /// is not such a date and time.
    pub fn parse(s: &str) -> (r: Option<DateTime>)
        ensures
            r == parse_spec(s@),
            r.is_some() ==> r.unwrap().wf(),
    {
        match parse_parts(s) {
            Some((d, secs, nanos)) => {
                let leap: u32 = if nanos >= 1_000_000_000 {
                    1
                } else {
                    0
                };
                Some(DateTime { day: d, secs: secs + leap })
            },
            None => None,
        }
    }

    /// The day number.
    pub fn date(&self) -> (r: i32)
        ensures
            r == self.day,
    {
        self.day
    }

    /// The second of the day.
    pub fn time(&self) -> (r: u32)
        ensures
            r == self.secs,
    {
        self.secs
    }

    /// True when `self` comes strictly before `other`.
    pub fn is_before(&self, other: &DateTime) -> (r: bool)
        ensures
            r == self.before(*other),
    {
        self.day < other.day || (self.day == other.day && self.secs < other.secs)
    }

    /// Whole seconds from `earlier` to `self` (negative when `self` is earlier).
    pub fn seconds_since(&self, earlier: &DateTime) -> (r: i64)
        ensures
            r == self.instant() - earlier.instant(),
    {
        (self.day as i64 - earlier.day as i64) * 86400 + (self.secs as i64 - earlier.secs as i64)
    }
}

/// Relies on chrono's `NaiveDate::from_ymd_opt` (the date, if it exists) and
/// `Datelike::num_days_from_ce` (its day number, 0001-01-01 being day 1).
#[verifier::external_body]
fn day_number(year: i32, month: u32, day: u32) -> (r: Option<i32>)
    ensures
        r == civil_day(year, month, day),
{
    match NaiveDate::from_ymd_opt(year, month, day) {
        Some(d) => Some(d.num_days_from_ce()),
        None => None,
    }
}

/// Relies on chrono's `NaiveDateTime::parse_from_str` with the format
/// `%Y-%m-%d %H:%M:%S`, read back through `num_days_from_ce`,
/// `num_seconds_from_midnight` (below 86400) and `nanosecond` (below
/// 2_000_000_000, at or above 1_000_000_000 within a leap second).
#[verifier::external_body]
fn parse_parts(s: &str) -> (r: Option<(i32, u32, u32)>)
    ensures
        r == parsed_datetime(s@),
        r.is_some() ==> r.unwrap().1 < 86400 && r.unwrap().2 < 2_000_000_000,
{
    match NaiveDateTime::parse_from_str(s, "%Y-%m-%d %H:%M:%S") {
        Ok(t) => Some(
            (t.date().num_days_from_ce(), t.time().num_seconds_from_midnight(), t.time().nanosecond()),
        ),
        Err(_) => None,
    }
}

} // verus!
