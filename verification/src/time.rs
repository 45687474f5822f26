//! Calendar date and time of day, without a time zone.

use chrono::{Datelike, Timelike};
use vstd::prelude::*;

verus! {

/// The first year that a date can lie in.
pub const MIN_YEAR: i32 = -262143;

/// The last year that a date can lie in.
pub const MAX_YEAR: i32 = 262142;

/// Leap years of the proleptic Gregorian calendar.
pub open spec fn is_leap_year(year: int) -> bool {
    year % 4 == 0 && (year % 100 != 0 || year % 400 == 0)
}

/// The number of days of a month, 0 for a month that does not exist.
pub open spec fn days_in_month(year: int, month: int) -> int {
    if month == 2 {
        if is_leap_year(year) {
            29
        } else {
            28
        }
    } else if month == 4 || month == 6 || month == 9 || month == 11 {
        30
    } else if 1 <= month <= 12 {
        31
    } else {
        0
    }
}

/// The day exists in the calendar and its year is in range.
pub open spec fn date_exists(year: int, month: int, day: int) -> bool {
    &&& MIN_YEAR <= year <= MAX_YEAR
    &&& 1 <= month <= 12
    &&& 1 <= day <= days_in_month(year, month)
}

/// The time of day exists. A leap second is written with a billion or more
/// nanoseconds.
pub open spec fn time_exists(hour: int, minute: int, second: int, nano: int) -> bool {
    &&& 0 <= hour < 24
    &&& 0 <= minute < 60
    &&& 0 <= second < 60
    &&& 0 <= nano < 2_000_000_000
}

/// A calendar date with a time of day.
#[derive(Clone, Copy, Debug, PartialEq, Eq, Structural)]
pub struct DateTime {
    pub year: i32,
    pub month: u32,
    pub day: u32,
    pub hour: u32,
    pub minute: u32,
    pub second: u32,
    pub nano: u32,
}

/// A name for what `chrono::NaiveDateTime::parse_from_str` makes of a text
/// under a pattern: the date and time it reads, or `None` where it reports
/// an error.
pub uninterp spec fn parsed_date_time(text: Seq<char>, pattern: Seq<char>) -> Option<DateTime>;

/// `chrono::NaiveDateTime::parse_from_str`, which depends on the text and the
/// pattern alone. The fields of the result are read with chrono's accessors;
/// a parse error becomes `None`.
#[verifier::external_body]
pub(crate) fn parse_date_time(text: &str, pattern: &str) -> (r: Option<DateTime>)
    ensures
        r == parsed_date_time(text@, pattern@),
{
    match chrono::NaiveDateTime::parse_from_str(text, pattern) {
        Ok(t) => Some(
            DateTime {
                year: t.year(),
                month: t.month(),
                day: t.day(),
                hour: t.hour(),
                minute: t.minute(),
                second: t.second(),
                nano: t.nanosecond(),
            },
        ),
        Err(_) => None,
    }
}

/// The local wall-clock time, `chrono::Local::now().naive_local()`. Every
/// value that chrono holds is a calendar day with a time of day in the ranges
/// its accessors document, which is all that is claimed: the reading itself
/// is whatever the machine's clock and time zone give.
#[verifier::external_body]
pub(crate) fn local_now() -> (r: DateTime)
    ensures
        r.wf(),
{
    let t = chrono::Local::now().naive_local();
    DateTime {
        year: t.year(),
        month: t.month(),
        day: t.day(),
        hour: t.hour(),
        minute: t.minute(),
        second: t.second(),
        nano: t.nanosecond(),
    }
}

/// The date `to`, where it and the date `from` both exist.
pub open spec fn date_changed(from: (i32, u32, u32), to: (i32, u32, u32)) -> Option<
    (i32, u32, u32),
> {
    if date_exists(from.0 as int, from.1 as int, from.2 as int) && date_exists(
        to.0 as int,
        to.1 as int,
        to.2 as int,
    ) {
        Some(to)
    } else {
        None
    }
}

/// `chrono::NaiveDate::with_day` on the date made by
/// `chrono::NaiveDate::from_ymd_opt`. Both return `None` exactly where the
/// date asked for does not exist or lies outside chrono's years; otherwise the
/// result keeps year and month and has the new day.
#[verifier::external_body]
fn date_with_day(year: i32, month: u32, day: u32, new_day: u32) -> (r: Option<(i32, u32, u32)>)
    ensures
        r == date_changed((year, month, day), (year, month, new_day)),
{
    let date = chrono::NaiveDate::from_ymd_opt(year, month, day)?.with_day(new_day)?;
    Some((date.year(), date.month(), date.day()))
}

/// `chrono::NaiveDate::with_month` on the date made by
/// `chrono::NaiveDate::from_ymd_opt`: `None` exactly where the date asked for
/// does not exist; otherwise year and day are kept.
#[verifier::external_body]
fn date_with_month(year: i32, month: u32, day: u32, new_month: u32) -> (r: Option<(i32, u32, u32)>)
    ensures
        r == date_changed((year, month, day), (year, new_month, day)),
{
    let date = chrono::NaiveDate::from_ymd_opt(year, month, day)?.with_month(new_month)?;
    Some((date.year(), date.month(), date.day()))
}

/// `chrono::NaiveDate::with_year` on the date made by
/// `chrono::NaiveDate::from_ymd_opt`: `None` exactly where the date asked for
/// does not exist or the year is outside chrono's range; otherwise month and
/// day are kept.
#[verifier::external_body]
fn date_with_year(year: i32, month: u32, day: u32, new_year: i32) -> (r: Option<(i32, u32, u32)>)
    ensures
        r == date_changed((year, month, day), (new_year, month, day)),
{
    let date = chrono::NaiveDate::from_ymd_opt(year, month, day)?.with_year(new_year)?;
    Some((date.year(), date.month(), date.day()))
}

impl DateTime {
    /// The date exists in the calendar and the time of day exists.
    pub open spec fn wf(self) -> bool {
        &&& date_exists(self.year as int, self.month as int, self.day as int)
        &&& time_exists(
            self.hour as int,
            self.minute as int,
            self.second as int,
            self.nano as int,
        )
    }

    /// `self` is not later than `other`: the fields compared from the year
    /// down to the nanosecond.
    pub open spec fn le_spec(self, other: DateTime) -> bool {
        if self.year != other.year {
            self.year < other.year
        } else if self.month != other.month {
            self.month < other.month
        } else if self.day != other.day {
            self.day < other.day
        } else if self.hour != other.hour {
            self.hour < other.hour
        } else if self.minute != other.minute {
            self.minute < other.minute
        } else if self.second != other.second {
            self.second < other.second
        } else {
            self.nano <= other.nano
        }
    }

    /// `self` is earlier than `other`.
    pub open spec fn lt_spec(self, other: DateTime) -> bool {
        self.le_spec(other) && self != other
    }

    /// The same time of day on the next calendar day, rolling over into the
    /// next month and the next year. `None` where `self` names no day of the
    /// calendar, or the last one.
    pub open spec fn next_day_spec(self) -> Option<DateTime> {
        if !date_exists(self.year as int, self.month as int, self.day as int) {
            None
        } else if self.day < days_in_month(self.year as int, self.month as int) {
            Some(DateTime { day: (self.day + 1) as u32, ..self })
        } else if self.month < 12 {
            Some(DateTime { month: (self.month + 1) as u32, day: 1, ..self })
        } else if self.year < MAX_YEAR {
            Some(DateTime { year: (self.year + 1) as i32, month: 1, day: 1, ..self })
        } else {
            None
        }
    }

    /// Whether `self` is not later than `other`.
    pub fn le(&self, other: &DateTime) -> (b: bool)
        ensures
            b == self.le_spec(*other),
    {
        if self.year != other.year {
            self.year < other.year
        } else if self.month != other.month {
            self.month < other.month
        } else if self.day != other.day {
            self.day < other.day
        } else if self.hour != other.hour {
            self.hour < other.hour
        } else if self.minute != other.minute {
            self.minute < other.minute
        } else if self.second != other.second {
            self.second < other.second
        } else {
            self.nano <= other.nano
        }
    }

    /// Whether `self` is earlier than `other`.
    pub fn lt(&self, other: &DateTime) -> (b: bool)
        ensures
            b == self.lt_spec(*other),
    {
        self.le(other) && !other.le(self)
    }

    /// The same time of day on the next calendar day.
    pub fn next_day(&self) -> (r: Option<DateTime>)
        ensures
            r == self.next_day_spec(),
    {
        let (year, month, day) = (self.year, self.month, self.day);
        let first = match date_with_day(year, month, day, 1) {
            Some(first) => first,
            None => {
                return None;
            },
        };
        if day < u32::MAX {
            if let Some(date) = date_with_day(year, month, day, day + 1) {
                return Some(DateTime { year: date.0, month: date.1, day: date.2, ..*self });
            }
        }
        if let Some(date) = date_with_month(first.0, first.1, first.2, month + 1) {
            return Some(DateTime { year: date.0, month: date.1, day: date.2, ..*self });
        }
        let january = match date_with_month(first.0, first.1, first.2, 1) {
            Some(january) => january,
            None => {
                return None;
            },
        };
        match date_with_year(january.0, january.1, january.2, year + 1) {
            Some(date) => Some(DateTime { year: date.0, month: date.1, day: date.2, ..*self }),
            None => None,
        }
    }
}

/// The order of dates is total.
pub proof fn lemma_le_total(a: DateTime, b: DateTime)
    ensures
        a.le_spec(b) || b.le_spec(a),
{
}

/// The order of dates is transitive.
pub proof fn lemma_le_transitive(a: DateTime, b: DateTime, c: DateTime)
    requires
        a.le_spec(b),
        b.le_spec(c),
    ensures
        a.le_spec(c),
{
}

/// Two dates of which neither is later than the other are the same.
pub proof fn lemma_le_antisymmetric(a: DateTime, b: DateTime)
    requires
        a.le_spec(b),
        b.le_spec(a),
    ensures
        a == b,
{
}

/// The next day is later, and it is a day of the calendar.
pub proof fn lemma_next_day_later(a: DateTime)
    requires
        a.next_day_spec() is Some,
    ensures
        a.lt_spec(a.next_day_spec().unwrap()),
        date_exists(
            a.next_day_spec().unwrap().year as int,
            a.next_day_spec().unwrap().month as int,
            a.next_day_spec().unwrap().day as int,
        ),
{
}

} // verus!
