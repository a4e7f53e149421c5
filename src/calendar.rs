//! Instants at minute precision on the proleptic Gregorian calendar.

use vstd::prelude::*;

verus! {

/// The earliest year an instant can hold.
pub const MIN_YEAR: i32 = -262143;

/// The latest year an instant can hold.
pub const MAX_YEAR: i32 = 262142;

/// Whether `year` is a leap year under the 4/100/400 rule.
pub open spec fn is_leap(year: int) -> bool {
    year % 4 == 0 && (year % 100 != 0 || year % 400 == 0)
}

/// The number of days in the month `month` (1-12) of `year`.
pub open spec fn month_days(year: int, month: int) -> int {
    if month == 2 {
        if is_leap(year) {
            29
        } else {
            28
        }
    } else if month == 4 || month == 6 || month == 9 || month == 11 {
        30
    } else {
        31
    }
}

/// Whether year, month and day name a day of the calendar within the supported years.
pub open spec fn valid_date(year: int, month: int, day: int) -> bool {
    MIN_YEAR <= year <= MAX_YEAR && 1 <= month <= 12 && 1 <= day <= month_days(year, month)
}

/// The days of the year before the first of `month`.
pub open spec fn days_before_month(year: int, month: int) -> int {
    let base = if month == 1 {
        0int
    } else if month == 2 {
        31
    } else if month == 3 {
        59
    } else if month == 4 {
        90
    } else if month == 5 {
        120
    } else if month == 6 {
        151
    } else if month == 7 {
        181
    } else if month == 8 {
        212
    } else if month == 9 {
        243
    } else if month == 10 {
        273
    } else if month == 11 {
        304
    } else {
        334
    };
    if month > 2 && is_leap(year) {
        base + 1
    } else {
        base
    }
}

/// The number of the day counted from 0000-12-31 (so 0001-01-01, a Monday, is day 1).
pub open spec fn day_number(year: int, month: int, day: int) -> int {
    let y = year - 1;
    365 * y + y / 4 - y / 100 + y / 400 + days_before_month(year, month) + day
}

/// The day of the week, 0 (Sunday) to 6 (Saturday).
pub open spec fn weekday(year: int, month: int, day: int) -> int {
    day_number(year, month, day) % 7
}

/// Whether `year` is a leap year.
pub fn is_leap_year(year: i32) -> (r: bool)
    ensures
        r == is_leap(year as int),
{
    year % 4 == 0 && (year % 100 != 0 || year % 400 == 0)
}

/// Returns the number of days in the month, 28-31.
pub fn days_in_month(year: i32, month: u8) -> (r: u8)
    requires
        1 <= month <= 12,
    ensures
        r == month_days(year as int, month as int),
        28 <= r <= 31,
{
    if month == 2 {
        if is_leap_year(year) {
            29
        } else {
            28
        }
    } else if month == 4 || month == 6 || month == 9 || month == 11 {
        30
    } else {
        31
    }
}

/// The day of the week of a valid date, 0 (Sunday) to 6 (Saturday).
///
/// Relies on chrono's `NaiveDate::from_ymd_opt`, `Datelike::weekday` and
/// `Weekday::num_days_from_sunday`: chrono counts days on the proleptic Gregorian calendar, on
/// which 0001-01-01 is a Monday.
#[verifier::external_body]
pub(crate) fn weekday_of(year: i32, month: u8, day: u8) -> (r: u8)
    requires
        valid_date(year as int, month as int, day as int),
    ensures
        r == weekday(year as int, month as int, day as int),
{
    match chrono::NaiveDate::from_ymd_opt(year, month as u32, day as u32) {
        Some(date) => chrono::Datelike::weekday(&date).num_days_from_sunday() as u8,
        None => 0,
    }
}

/// An instant at second precision: a date and a time of day.
#[derive(Debug, Clone, Copy, PartialEq, Eq, PartialOrd, Ord, Hash)]
pub struct DateTime {
    /// The year, `MIN_YEAR..=MAX_YEAR`.
    pub year: i32,
    /// The month, 1-12.
    pub month: u8,
    /// The day of the month, 1 to the days of that month.
    pub day: u8,
    /// The hour, 0-23.
    pub hour: u8,
    /// The minute, 0-59.
    pub minute: u8,
    /// The second, 0-59.
    pub second: u8,
}

/// The position of an instant's minute on a line where each later minute is greater.
pub open spec fn minute_key(t: DateTime) -> int {
    ((((t.year as int) * 13 + t.month as int) * 32 + t.day as int) * 24 + t.hour as int) * 60
        + t.minute as int
}

/// The earliest instant.
pub open spec fn earliest_instant() -> DateTime {
    DateTime { year: MIN_YEAR, month: 1, day: 1, hour: 0, minute: 0, second: 0 }
}

/// The latest instant.
pub open spec fn latest_instant() -> DateTime {
    DateTime { year: MAX_YEAR, month: 12, day: 31, hour: 23, minute: 59, second: 59 }
}

impl DateTime {
    /// Whether the fields name an instant of the calendar.
    pub open spec fn wf(self) -> bool {
        valid_date(self.year as int, self.month as int, self.day as int) && self.hour < 24
            && self.minute < 60 && self.second < 60
    }

    /// The instant at the start of the same minute.
    pub open spec fn floor_spec(self) -> DateTime {
        DateTime { second: 0, ..self }
    }

    /// The instant `year-month-day hour:minute:second`, or `None` where that is no instant of
    /// the calendar.
    pub fn new(year: i32, month: u8, day: u8, hour: u8, minute: u8, second: u8) -> (r: Option<
        DateTime,
    >)
        ensures
            r is Some <==> (DateTime { year, month, day, hour, minute, second }).wf(),
            r is Some ==> r == Some(DateTime { year, month, day, hour, minute, second }),
    {
        if year < MIN_YEAR || year > MAX_YEAR || month < 1 || month > 12 || day < 1 || hour >= 24
            || minute >= 60 || second >= 60 {
            return None;
        }
        if day > days_in_month(year, month) {
            return None;
        }
        Some(DateTime { year, month, day, hour, minute, second })
    }

    /// The earliest instant.
    pub fn min_value() -> (r: DateTime)
        ensures
            r.wf(),
            r == earliest_instant(),
    {
        DateTime { year: MIN_YEAR, month: 1, day: 1, hour: 0, minute: 0, second: 0 }
    }

    /// The latest instant.
    pub fn max_value() -> (r: DateTime)
        ensures
            r.wf(),
            r == latest_instant(),
    {
        DateTime { year: MAX_YEAR, month: 12, day: 31, hour: 23, minute: 59, second: 59 }
    }

    /// The instant at the start of the same minute.
    pub fn minute_floor(self) -> (r: DateTime)
        ensures
            r == self.floor_spec(),
    {
        DateTime { second: 0, ..self }
    }
}

} // verus!
