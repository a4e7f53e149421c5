//! Compiled schedules: matching, feasibility and the search for the next matching instant.

use crate::bits::{
    bit, expr_mask, exprs_mask, lemma_bit_u16, lemma_bit_u32, lemma_bit_u8, lemma_narrow_bits,
};
use crate::calendar::{
    day_number, days_in_month, earliest_instant, latest_instant, minute_key, month_days,
    valid_date, weekday, weekday_of, DateTime, MAX_YEAR, MIN_YEAR,
};
use crate::expr::{
    expr_admits, exprs_admit, pos, CronExpr, DayOfMonthExpr, DayOfWeekExpr, Last, OrsExpr,
};
use crate::expr::CronParseError;
use crate::parse::{cron_at, parse_cron_expr, DomView, DowView, ExprView};
use crate::values::{DayOfMonth, DayOfWeek, ExprValue, Hour, Minute, Month};
use vstd::string::StringSliceAdditionalSpecFns;
use vstd::prelude::*;

verus! {

/// The compiled day-of-month part of a schedule.
#[derive(Debug, Clone, Copy, PartialEq, Eq, Hash)]
pub enum DaysOfMonth {
    /// A set of days: bit `d - 1` set means day `d` is permitted.
    Pattern(u32),
    /// A '*' expression.
    Star,
    /// The day that lies the given number of days before the last day of the month.
    Last(u8),
    /// The weekday closest to the day that lies the given number of days before the last day of
    /// the month.
    LastWeekday(u8),
    /// The weekday closest to the given day of the month.
    Weekday(u8),
}

/// The compiled day-of-week part of a schedule. Weekdays count from 0 (Sunday) to 6 (Saturday).
#[derive(Debug, Clone, Copy, PartialEq, Eq, Hash)]
pub enum DaysOfWeek {
    /// A set of weekdays: bit `w` set means weekday `w` is permitted.
    Pattern(u8),
    /// A '*' expression.
    Star,
    /// The last occurrence of the weekday in the month.
    Last(u8),
    /// The given occurrence (1-5) of the weekday in the month.
    Nth(u8, u8),
}

/// The day of the month that is the weekday closest to day `target`: the day itself when it is
/// a weekday; for a Saturday the Friday before, or the Monday after when the 1st is a Saturday;
/// for a Sunday the Monday after, or the Friday before when the Sunday ends the month.
pub open spec fn closest_weekday(year: int, month: int, target: int) -> int {
    let w = weekday(year, month, target);
    if w == 6 {
        if target == 1 {
            3
        } else {
            target - 1
        }
    } else if w == 0 {
        if target == month_days(year, month) {
            target - 2
        } else {
            target + 1
        }
    } else {
        target
    }
}

/// Whether the day-of-month part admits day `day` of the month.
pub open spec fn dom_admits(dom: DaysOfMonth, year: int, month: int, day: int) -> bool {
    let last = month_days(year, month);
    match dom {
        DaysOfMonth::Pattern(p) => bit(p as u64, day - 1),
        DaysOfMonth::Star => true,
        DaysOfMonth::Last(k) => day + k == last,
        DaysOfMonth::LastWeekday(k) => last - k >= 1 && day == closest_weekday(year, month, last - k),
        DaysOfMonth::Weekday(n) => 1 <= n <= last && day == closest_weekday(year, month, n as int),
    }
}

/// Whether the day-of-week part admits day `day` of the month.
pub open spec fn dow_admits(dow: DaysOfWeek, year: int, month: int, day: int) -> bool {
    let w = weekday(year, month, day);
    match dow {
        DaysOfWeek::Pattern(p) => bit(p as u64, w),
        DaysOfWeek::Star => true,
        DaysOfWeek::Last(v) => w == v && day + 7 > month_days(year, month),
        DaysOfWeek::Nth(v, n) => w == v && (day - 1) / 7 + 1 == n,
    }
}

/// The compiled form of a day-of-month expression.
pub open spec fn dom_compiled(k: DaysOfMonth, e: DayOfMonthExpr) -> bool {
    match e {
        DayOfMonthExpr::All => k == DaysOfMonth::Star,
        DayOfMonthExpr::Last(Last::Day) => k == DaysOfMonth::Last(0),
        DayOfMonthExpr::Last(Last::Weekday) => k == DaysOfMonth::LastWeekday(0),
        DayOfMonthExpr::Last(Last::Offset(o)) => k == DaysOfMonth::Last(o.raw() as u8),
        DayOfMonthExpr::Last(Last::OffsetWeekday(o)) => k == DaysOfMonth::LastWeekday(
            o.raw() as u8,
        ),
        DayOfMonthExpr::ClosestWeekday(d) => k == DaysOfMonth::Weekday(d.raw() as u8),
        DayOfMonthExpr::Many(es) => k is Pattern && forall|i: int|
            0 <= i < 64 ==> (bit(k->Pattern_0 as u64, i) <==> (i <= 30 && exprs_admit(es, i))),
    }
}

/// The compiled form of a day-of-week expression.
pub open spec fn dow_compiled(k: DaysOfWeek, e: DayOfWeekExpr) -> bool {
    match e {
        DayOfWeekExpr::All => k == DaysOfWeek::Star,
        DayOfWeekExpr::Last(d) => k == DaysOfWeek::Last(pos(d) as u8),
        DayOfWeekExpr::Nth(d, n) => k == DaysOfWeek::Nth(pos(d) as u8, n.raw() as u8),
        DayOfWeekExpr::Many(es) => k is Pattern && forall|i: int|
            0 <= i < 64 ==> (bit(k->Pattern_0 as u64, i) <==> (i <= 6 && exprs_admit(es, i))),
    }
}

/// A compiled cron schedule. It can check quickly whether an instant matches, and find the
/// matching instants that follow a given one.
#[derive(Debug, Clone, Copy, PartialEq, Eq, Hash)]
pub struct Cron {
    minutes: u64,
    hours: u32,
    dom: DaysOfMonth,
    months: u16,
    dow: DaysOfWeek,
}

impl Cron {
    /// The minutes permitted: bit `m` for minute `m`.
    pub closed spec fn minutes_mask(self) -> u64 {
        self.minutes
    }

    /// The hours permitted: bit `h` for hour `h`.
    pub closed spec fn hours_mask(self) -> u64 {
        self.hours as u64
    }

    /// The months permitted: bit `m - 1` for month `m`.
    pub closed spec fn months_mask(self) -> u64 {
        self.months as u64
    }

    /// The day-of-month part.
    pub closed spec fn dom_part(self) -> DaysOfMonth {
        self.dom
    }

    /// The day-of-week part.
    pub closed spec fn dow_part(self) -> DaysOfWeek {
        self.dow
    }

    /// Whether this schedule is the compiled form of `expr`.
    pub open spec fn compiled_from(self, expr: CronExpr) -> bool {
        &&& forall|i: int| 0 <= i < 64 ==> (bit(self.minutes_mask(), i) <==> expr_admits(expr.minutes, i))
        &&& forall|i: int| 0 <= i < 64 ==> (bit(self.hours_mask(), i) <==> expr_admits(expr.hours, i))
        &&& forall|i: int| 0 <= i < 64 ==> (bit(self.months_mask(), i) <==> expr_admits(expr.months, i))
        &&& dom_compiled(self.dom_part(), expr.doms)
        &&& dow_compiled(self.dow_part(), expr.dows)
    }

    /// Whether the day condition admits the given day, with the classic cron rule: where both
    /// the day of the month and the day of the week are restricted, either one suffices.
    pub open spec fn day_admits(self, year: int, month: int, day: int) -> bool {
        let dom = self.dom_part();
        let dow = self.dow_part();
        if dom is Star {
            dow_admits(dow, year, month, day)
        } else if dow is Star {
            dom_admits(dom, year, month, day)
        } else {
            dom_admits(dom, year, month, day) || dow_admits(dow, year, month, day)
        }
    }

    /// Whether the schedule admits the given date: its month and its day.
    pub open spec fn date_admits(self, year: int, month: int, day: int) -> bool {
        bit(self.months_mask(), month - 1) && self.day_admits(year, month, day)
    }

    /// Whether the schedule admits the given time of day.
    pub open spec fn time_admits(self, hour: int, minute: int) -> bool {
        bit(self.hours_mask(), hour) && bit(self.minutes_mask(), minute)
    }

    /// Whether the schedule matches the instant.
    pub open spec fn matches(self, t: DateTime) -> bool {
        self.date_admits(t.year as int, t.month as int, t.day as int) && self.time_admits(
            t.hour as int,
            t.minute as int,
        )
    }

    /// The earliest day a restricted day-of-month part can ask for.
    pub open spec fn first_day(self) -> int {
        match self.dom_part() {
            DaysOfMonth::Pattern(p) => (p.trailing_zeros() + 1) as int,
            DaysOfMonth::Star => 1,
            DaysOfMonth::Last(k) => k + 1,
            DaysOfMonth::LastWeekday(k) => k + 1,
            DaysOfMonth::Weekday(n) => n as int,
        }
    }

    /// The most days any of the permitted months has.
    pub open spec fn longest_month(self) -> int {
        if self.months_mask() & 0b1010_1101_0101 != 0 {
            31
        } else if self.months_mask() & 0b0101_0010_1000 != 0 {
            30
        } else {
            29
        }
    }

    /// The feasibility rule: a schedule that restricts only the day of the month can match only
    /// where the earliest day it asks for exists in some permitted month.
    pub open spec fn any_spec(self) -> bool {
        if self.dow_part() is Star {
            if self.dom_part() is Star {
                true
            } else if self.dom_part() == DaysOfMonth::Last(0) || self.dom_part()
                == DaysOfMonth::LastWeekday(0) {
                true
            } else {
                self.first_day() <= self.longest_month()
            }
        } else {
            true
        }
    }
}

fn compile_dom(e: &DayOfMonthExpr) -> (r: DaysOfMonth)
    ensures
        dom_compiled(r, *e),
{
    match e {
        DayOfMonthExpr::All => DaysOfMonth::Star,
        DayOfMonthExpr::Last(Last::Day) => DaysOfMonth::Last(0),
        DayOfMonthExpr::Last(Last::Weekday) => DaysOfMonth::LastWeekday(0),
        DayOfMonthExpr::Last(Last::Offset(o)) => DaysOfMonth::Last(o.value()),
        DayOfMonthExpr::Last(Last::OffsetWeekday(o)) => DaysOfMonth::LastWeekday(o.value()),
        DayOfMonthExpr::ClosestWeekday(d) => DaysOfMonth::Weekday(d.value()),
        DayOfMonthExpr::Many(es) => {
            let m = exprs_mask(es);
            proof {
                lemma_narrow_bits(m);
            }
            DaysOfMonth::Pattern(m as u32)
        },
    }
}

fn compile_dow(e: &DayOfWeekExpr) -> (r: DaysOfWeek)
    ensures
        dow_compiled(r, *e),
{
    match e {
        DayOfWeekExpr::All => DaysOfWeek::Star,
        DayOfWeekExpr::Last(d) => DaysOfWeek::Last(d.index()),
        DayOfWeekExpr::Nth(d, n) => DaysOfWeek::Nth(d.index(), n.value()),
        DayOfWeekExpr::Many(es) => {
            let m = exprs_mask(es);
            proof {
                lemma_narrow_bits(m);
            }
            DaysOfWeek::Pattern(m as u8)
        },
    }
}

impl Cron {
    /// Parses and compiles the text of a cron expression.
    pub fn parse(text: &str) -> (r: Result<Cron, CronParseError>)
        ensures
            match r {
                Ok(c) => cron_at(text.spec_bytes()) matches Some(v) && exists|e: CronExpr|
                    e@ == v && #[trigger] c.compiled_from(e),
                Err(_) => cron_at(text.spec_bytes()) is None,
            },
    {
        match parse_cron_expr(text) {
            Ok(e) => {
                let c = Cron::new(e);
                proof {
                    assert(c.compiled_from(e));
                }
                Ok(c)
            },
            Err(err) => Err(err),
        }
    }

    /// Compiles a parsed expression into a schedule.
    pub fn new(expr: CronExpr) -> (r: Cron)
        ensures
            r.compiled_from(expr),
    {
        let minutes = expr_mask(&expr.minutes);
        let hours = expr_mask(&expr.hours);
        let months = expr_mask(&expr.months);
        proof {
            lemma_narrow_bits(hours);
            lemma_narrow_bits(months);
            assert forall|i: int| 0 <= i < 64 implies (bit(hours, i) ==> i < 32) && (bit(months, i) ==> i < 16) by {
                Hour::lemma_bounds();
                Month::lemma_bounds();
            }
        }
        Cron {
            minutes,
            hours: hours as u32,
            dom: compile_dom(&expr.doms),
            months: months as u16,
            dow: compile_dow(&expr.dows),
        }
    }
}


/// Whether bit `i` of a 64-bit mask is set.
fn has_bit(m: u64, i: u8) -> (r: bool)
    requires
        i < 64,
    ensures
        r == bit(m, i as int),
{
    (m >> i) & 1 == 1
}

/// Whether bit `i` of a 32-bit mask is set.
fn has_bit32(m: u32, i: u8) -> (r: bool)
    requires
        i < 32,
    ensures
        r == bit(m as u64, i as int),
{
    proof {
        lemma_bit_u32(m, i as u32);
    }
    (m >> i) & 1 == 1
}

/// Whether bit `i` of a 16-bit mask is set.
fn has_bit16(m: u16, i: u8) -> (r: bool)
    requires
        i < 16,
    ensures
        r == bit(m as u64, i as int),
{
    proof {
        lemma_bit_u16(m, i as u16);
    }
    (m >> i) & 1 == 1
}

/// Whether bit `i` of an 8-bit mask is set.
fn has_bit8(m: u8, i: u8) -> (r: bool)
    requires
        i < 8,
    ensures
        r == bit(m as u64, i as int),
{
    proof {
        lemma_bit_u8(m, i);
    }
    (m >> i) & 1 == 1
}

/// The day of the month that is the weekday closest to day `target`.
fn closest_weekday_to(year: i32, month: u8, target: u8) -> (r: u8)
    requires
        valid_date(year as int, month as int, target as int),
    ensures
        r == closest_weekday(year as int, month as int, target as int),
        1 <= r <= month_days(year as int, month as int),
{
    let w = weekday_of(year, month, target);
    if w == 6 {
        if target == 1 {
            3
        } else {
            target - 1
        }
    } else if w == 0 {
        if target == days_in_month(year, month) {
            target - 2
        } else {
            target + 1
        }
    } else {
        target
    }
}

/// Whether the day-of-month part admits the date.
fn dom_contains(dom: DaysOfMonth, year: i32, month: u8, day: u8) -> (r: bool)
    requires
        valid_date(year as int, month as int, day as int),
    ensures
        r == dom_admits(dom, year as int, month as int, day as int),
{
    let last = days_in_month(year, month);
    match dom {
        DaysOfMonth::Pattern(p) => has_bit32(p, day - 1),
        DaysOfMonth::Star => true,
        DaysOfMonth::Last(k) => day as u16 + k as u16 == last as u16,
        DaysOfMonth::LastWeekday(k) => k < last && day == closest_weekday_to(year, month, last - k),
        DaysOfMonth::Weekday(n) => 1 <= n && n <= last && day == closest_weekday_to(year, month, n),
    }
}

/// Whether the day-of-week part admits day `day` of a month of `last` days, where that day
/// falls on weekday `w`.
fn dow_contains(dow: DaysOfWeek, w: u8, day: u8, last: u8) -> (r: bool)
    requires
        w < 7,
        day >= 1,
    ensures
        r == match dow {
            DaysOfWeek::Pattern(p) => bit(p as u64, w as int),
            DaysOfWeek::Star => true,
            DaysOfWeek::Last(v) => w == v && day + 7 > last,
            DaysOfWeek::Nth(v, n) => w == v && (day - 1) / 7 + 1 == n,
        },
{
    match dow {
        DaysOfWeek::Pattern(p) => has_bit8(p, w),
        DaysOfWeek::Star => true,
        DaysOfWeek::Last(v) => w == v && day as u16 + 7 > last as u16,
        DaysOfWeek::Nth(v, n) => w == v && (day - 1) / 7 + 1 == n,
    }
}

proof fn lemma_month_class(mm: u64, j: u64)
    by (bit_vector)
    requires
        j < 12,
        (mm >> j) & 1 == 1,
    ensures
        (j == 0 || j == 2 || j == 4 || j == 6 || j == 7 || j == 9 || j == 11) ==> mm & 0xAD5 != 0,
        (j == 3 || j == 5 || j == 8 || j == 10) ==> mm & 0x528 != 0,
{
}

impl Cron {
    /// Whether the schedule admits the date, by month and day.
    fn contains_date(&self, year: i32, month: u8, day: u8) -> (r: bool)
        requires
            valid_date(year as int, month as int, day as int),
        ensures
            r == self.date_admits(year as int, month as int, day as int),
    {
        if !has_bit16(self.months, month - 1) {
            return false;
        }
        match (self.dom, self.dow) {
            (DaysOfMonth::Star, DaysOfWeek::Star) => true,
            (DaysOfMonth::Star, dow) => {
                dow_contains(dow, weekday_of(year, month, day), day, days_in_month(year, month))
            },
            (dom, DaysOfWeek::Star) => dom_contains(dom, year, month, day),
            (dom, dow) => {
                dow_contains(dow, weekday_of(year, month, day), day, days_in_month(year, month))
                    || dom_contains(dom, year, month, day)
            },
        }
    }

    /// Returns whether this cron value matches the given time. Seconds are not looked at.
    pub fn contains(&self, t: DateTime) -> (r: bool)
        requires
            t.wf(),
        ensures
            r == self.matches(t),
    {
        has_bit(self.minutes, t.minute) && has_bit32(self.hours, t.hour) && self.contains_date(
            t.year,
            t.month,
            t.day,
        )
    }

    /// Returns whether this cron value can ever match: false where it restricts only the day of
    /// the month to days that none of its months has.
    pub fn any(&self) -> (r: bool)
        ensures
            r == self.any_spec(),
    {
        match (self.dom, self.dow) {
            (DaysOfMonth::Star, DaysOfWeek::Star) => true,
            (dom, DaysOfWeek::Star) => {
                let first: u32 = match dom {
                    DaysOfMonth::Pattern(p) => p.trailing_zeros() + 1,
                    DaysOfMonth::Star => 1,
                    DaysOfMonth::Last(k) => {
                        if k == 0 {
                            return true;
                        }
                        k as u32 + 1
                    },
                    DaysOfMonth::LastWeekday(k) => {
                        if k == 0 {
                            return true;
                        }
                        k as u32 + 1
                    },
                    DaysOfMonth::Weekday(n) => n as u32,
                };
                let mm = self.months;
                let longest: u32 = if mm & 0b1010_1101_0101 != 0 {
                    31
                } else if mm & 0b0101_0010_1000 != 0 {
                    30
                } else {
                    29
                };
                proof {
                    assert((mm & 0b1010_1101_0101 != 0) == ((mm as u64) & 0b1010_1101_0101 != 0))
                        by (bit_vector);
                    assert((mm & 0b0101_0010_1000 != 0) == ((mm as u64) & 0b0101_0010_1000 != 0))
                        by (bit_vector);
                }
                first <= longest
            },
            _ => true,
        }
    }

    /// A schedule that is not feasible matches no instant.
    pub proof fn lemma_infeasible_never_matches(self, t: DateTime)
        requires
            t.wf(),
            !self.any_spec(),
        ensures
            !self.matches(t),
    {
        let (y, m, d) = (t.year as int, t.month as int, t.day as int);
        let last = month_days(y, m);
        if self.matches(t) {
            assert(self.dom_part() !is Star && self.dow_part() is Star);
            assert(dom_admits(self.dom_part(), y, m, d));
            match self.dom_part() {
                DaysOfMonth::Pattern(p) => {
                    vstd::std_specs::bits::axiom_u32_trailing_zeros(p);
                    if (d - 1) < p.trailing_zeros() {
                        assert((p >> ((d - 1) as u32)) & 1 == 0);
                        lemma_bit_u32(p, (d - 1) as u32);
                    }
                },
                _ => {},
            }
            assert(self.first_day() <= last);
            lemma_month_class(self.months_mask(), (m - 1) as u64);
            assert(last <= self.longest_month());
        }
    }
}

proof fn lemma_cleared(m: u64, from: u64, i: u64)
    by (bit_vector)
    requires
        from < 64,
        i < 64,
    ensures
        (((m >> from) << from) >> i) & 1 == 1 <==> (i >= from && (m >> i) & 1 == 1),
{
}

/// The lowest set bit of `m` at or above `from` and below `limit`, found by clearing the bits
/// below `from` and counting trailing zeros.
fn first_bit_from(m: u64, from: u8, limit: u8) -> (r: Option<u8>)
    requires
        from < 64,
        limit <= 64,
    ensures
        match r {
            Some(i) => from <= i < limit && bit(m, i as int) && forall|j: int|
                from <= j < i ==> !bit(m, j),
            None => forall|j: int| from <= j < limit ==> !bit(m, j),
        },
{
    let cleared = (m >> from) << from;
    let tz = cleared.trailing_zeros();
    proof {
        vstd::std_specs::bits::axiom_u64_trailing_zeros(cleared);
        assert forall|j: int| from <= j < 64 && j < tz implies !bit(m, j) by {
            lemma_cleared(m, from as u64, j as u64);
            assert((cleared >> (j as u64)) & 1 == 0);
        }
        if tz < 64 {
            lemma_cleared(m, from as u64, tz as u64);
        }
    }
    if tz < limit as u32 {
        Some(tz as u8)
    } else {
        None
    }
}

/// Position of a time of day on a line where each later minute of the day is greater.
pub open spec fn time_key(hour: int, minute: int) -> int {
    hour * 60 + minute
}

/// Position of a date on a line where each later date is greater.
pub open spec fn date_key(year: int, month: int, day: int) -> int {
    (year * 13 + month) * 32 + day
}

/// The day after `day` has the next weekday.
proof fn lemma_weekday_succ(year: int, month: int, day: int)
    ensures
        weekday(year, month, day + 1) == (weekday(year, month, day) + 1) % 7,
{
    let x = day_number(year, month, day);
    assert(day_number(year, month, day + 1) == x + 1);
    vstd::arithmetic::div_mod::lemma_add_mod_noop(x, 1, 7);
}

impl Cron {
    /// Gets the earliest matching time of day at or after `hour:minute`.
    fn find_next_time(&self, hour: u8, minute: u8) -> (r: Option<(u8, u8)>)
        requires
            hour < 24,
            minute < 60,
        ensures
            match r {
                Some((h, mi)) => h < 24 && mi < 60 && self.time_admits(h as int, mi as int)
                    && time_key(hour as int, minute as int) <= time_key(h as int, mi as int)
                    && forall|h2: int, m2: int|
                    0 <= h2 < 24 && 0 <= m2 < 60 && time_key(hour as int, minute as int)
                        <= time_key(h2, m2) < time_key(h as int, mi as int)
                        ==> !self.time_admits(h2, m2),
                None => forall|h2: int, m2: int|
                    0 <= h2 < 24 && 0 <= m2 < 60 && time_key(hour as int, minute as int)
                        <= time_key(h2, m2) ==> !self.time_admits(h2, m2),
            },
    {
        if has_bit32(self.hours, hour) {
            match first_bit_from(self.minutes, minute, 60) {
                Some(mi) => return Some((hour, mi)),
                None => {},
            }
        }
        if hour == 23 {
            return None;
        }
        proof {
            lemma_bit_u32(self.hours, 0);
        }
        match first_bit_from(self.hours as u64, hour + 1, 24) {
            Some(h) => {
                match first_bit_from(self.minutes, 0, 60) {
                    Some(mi) => Some((h, mi)),
                    None => None,
                }
            },
            None => None,
        }
    }

    /// Gets the earliest day (current inclusive) of the month that the day-of-month part admits.
    fn find_next_day_of_month(&self, year: i32, month: u8, day: u8) -> (r: Option<u8>)
        requires
            valid_date(year as int, month as int, day as int),
        ensures
            match r {
                Some(d) => day <= d <= month_days(year as int, month as int) && dom_admits(
                    self.dom_part(),
                    year as int,
                    month as int,
                    d as int,
                ) && forall|d2: int| day <= d2 < d ==> !dom_admits(self.dom_part(), year as int, month as int, d2),
                None => forall|d2: int|
                    day <= d2 <= month_days(year as int, month as int) ==> !dom_admits(
                        self.dom_part(),
                        year as int,
                        month as int,
                        d2,
                    ),
            },
    {
        let last = days_in_month(year, month);
        match self.dom {
            DaysOfMonth::Pattern(p) => {
                let found = first_bit_from(p as u64, day - 1, last);
                match found {
                    Some(i) => Some(i + 1),
                    None => None,
                }
            },
            DaysOfMonth::Star => Some(day),
            DaysOfMonth::Last(k) => {
                if k < last && last - k >= day {
                    Some(last - k)
                } else {
                    None
                }
            },
            DaysOfMonth::LastWeekday(k) => {
                if k < last {
                    let c = closest_weekday_to(year, month, last - k);
                    if c >= day {
                        Some(c)
                    } else {
                        None
                    }
                } else {
                    None
                }
            },
            DaysOfMonth::Weekday(n) => {
                if 1 <= n && n <= last {
                    let c = closest_weekday_to(year, month, n);
                    if c >= day {
                        Some(c)
                    } else {
                        None
                    }
                } else {
                    None
                }
            },
        }
    }

    /// Gets the earliest day (current inclusive) of the month that the day-of-week part admits,
    /// walking the weekdays forward from the given day.
    fn find_next_weekday(&self, year: i32, month: u8, day: u8) -> (r: Option<u8>)
        requires
            valid_date(year as int, month as int, day as int),
        ensures
            match r {
                Some(d) => day <= d <= month_days(year as int, month as int) && dow_admits(
                    self.dow_part(),
                    year as int,
                    month as int,
                    d as int,
                ) && forall|d2: int| day <= d2 < d ==> !dow_admits(self.dow_part(), year as int, month as int, d2),
                None => forall|d2: int|
                    day <= d2 <= month_days(year as int, month as int) ==> !dow_admits(
                        self.dow_part(),
                        year as int,
                        month as int,
                        d2,
                    ),
            },
    {
        let last = days_in_month(year, month);
        let mut d = day;
        let mut w = weekday_of(year, month, day);
        while d <= last
            invariant
                1 <= day <= d <= last + 1,
                last == month_days(year as int, month as int),
                d <= last ==> w == weekday(year as int, month as int, d as int),
                w < 7,
                forall|d2: int| day <= d2 < d ==> !dow_admits(self.dow_part(), year as int, month as int, d2),
            decreases last + 1 - d,
        {
            if dow_contains(self.dow, w, d, last) {
                return Some(d);
            }
            proof {
                lemma_weekday_succ(year as int, month as int, d as int);
            }
            w = if w == 6 {
                0
            } else {
                w + 1
            };
            d = d + 1;
        }
        None
    }

    /// Gets the earliest day (current inclusive) of the month that the day condition admits.
    fn find_next_day(&self, year: i32, month: u8, day: u8) -> (r: Option<u8>)
        requires
            valid_date(year as int, month as int, day as int),
        ensures
            match r {
                Some(d) => day <= d <= month_days(year as int, month as int) && self.day_admits(
                    year as int,
                    month as int,
                    d as int,
                ) && forall|d2: int| day <= d2 < d ==> !self.day_admits(year as int, month as int, d2),
                None => forall|d2: int|
                    day <= d2 <= month_days(year as int, month as int) ==> !self.day_admits(
                        year as int,
                        month as int,
                        d2,
                    ),
            },
    {
        match (self.dom, self.dow) {
            (DaysOfMonth::Star, _) => self.find_next_weekday(year, month, day),
            (_, DaysOfWeek::Star) => self.find_next_day_of_month(year, month, day),
            _ => {
                let by_weekday = self.find_next_weekday(year, month, day);
                let by_day = self.find_next_day_of_month(year, month, day);
                match (by_day, by_weekday) {
                    (Some(a), Some(b)) => if a <= b {
                        Some(a)
                    } else {
                        Some(b)
                    },
                    (Some(a), None) => Some(a),
                    (None, Some(b)) => Some(b),
                    (None, None) => None,
                }
            },
        }
    }
}

/// Whether instant `a` lies at or before instant `b`, minutes compared.
fn minute_le(a: DateTime, b: DateTime) -> (r: bool)
    requires
        a.wf(),
        b.wf(),
    ensures
        r == (minute_key(a) <= minute_key(b)),
{
    if a.year != b.year {
        a.year < b.year
    } else if a.month != b.month {
        a.month < b.month
    } else if a.day != b.day {
        a.day < b.day
    } else if a.hour != b.hour {
        a.hour < b.hour
    } else {
        a.minute <= b.minute
    }
}

/// The minute key splits into a date part and a time-of-day part.
proof fn lemma_minute_key(t: DateTime)
    requires
        t.wf(),
    ensures
        minute_key(t) == date_key(t.year as int, t.month as int, t.day as int) * 1440 + time_key(
            t.hour as int,
            t.minute as int,
        ),
        0 <= time_key(t.hour as int, t.minute as int) < 1440,
{
}

/// The day after a date, or `None` after the last supported day.
fn next_day_after(year: i32, month: u8, day: u8) -> (r: Option<(i32, u8, u8)>)
    requires
        valid_date(year as int, month as int, day as int),
    ensures
        match r {
            Some((y, m, d)) => valid_date(y as int, m as int, d as int) && date_key(
                year as int,
                month as int,
                day as int,
            ) < date_key(y as int, m as int, d as int) && forall|y2: int, m2: int, d2: int|
                valid_date(y2, m2, d2) && date_key(year as int, month as int, day as int)
                    < date_key(y2, m2, d2) ==> date_key(y as int, m as int, d as int) <= date_key(
                    y2,
                    m2,
                    d2,
                ),
            None => forall|y2: int, m2: int, d2: int|
                valid_date(y2, m2, d2) ==> date_key(y2, m2, d2) <= date_key(
                    year as int,
                    month as int,
                    day as int,
                ),
        },
{
    if day < days_in_month(year, month) {
        Some((year, month, day + 1))
    } else if month < 12 {
        Some((year, month + 1, 1))
    } else if year < MAX_YEAR {
        Some((year + 1, 1, 1))
    } else {
        None
    }
}

impl Cron {
    /// Gets the earliest date (current inclusive) within the year that the schedule admits,
    /// moving between the permitted months by a trailing-zero scan of the month mask.
    fn find_next_date(&self, year: i32, month: u8, day: u8) -> (r: Option<(u8, u8)>)
        requires
            valid_date(year as int, month as int, day as int),
        ensures
            match r {
                Some((m, d)) => valid_date(year as int, m as int, d as int) && self.date_admits(
                    year as int,
                    m as int,
                    d as int,
                ) && date_key(year as int, month as int, day as int) <= date_key(
                    year as int,
                    m as int,
                    d as int,
                ) && forall|m2: int, d2: int|
                    valid_date(year as int, m2, d2) && date_key(year as int, month as int, day as int)
                        <= date_key(year as int, m2, d2) < date_key(year as int, m as int, d as int)
                        ==> !self.date_admits(year as int, m2, d2),
                None => forall|m2: int, d2: int|
                    valid_date(year as int, m2, d2) && date_key(year as int, month as int, day as int)
                        <= date_key(year as int, m2, d2) ==> !self.date_admits(year as int, m2, d2),
            },
    {
        let mut mo = month;
        let mut d = day;
        loop
            invariant
                valid_date(year as int, mo as int, d as int),
                date_key(year as int, month as int, day as int) <= date_key(
                    year as int,
                    mo as int,
                    d as int,
                ),
                forall|m2: int, d2: int|
                    valid_date(year as int, m2, d2) && date_key(year as int, month as int, day as int)
                        <= date_key(year as int, m2, d2) < date_key(year as int, mo as int, d as int)
                        ==> !self.date_admits(year as int, m2, d2),
            decreases 12 - mo,
        {
            proof {
                lemma_bit_u16(self.months, 0);
            }
            let next = first_bit_from(self.months as u64, mo - 1, 12);
            match next {
                None => return None,
                Some(i) => {
                    let m2 = i + 1;
                    let d2 = if m2 == mo {
                        d
                    } else {
                        1
                    };
                    match self.find_next_day(year, m2, d2) {
                        Some(dd) => return Some((m2, dd)),
                        None => {},
                    }
                    if m2 == 12 {
                        return None;
                    }
                    mo = m2 + 1;
                    d = 1;
                },
            }
        }
    }

    /// No instant between `start` and a later time `c` of the same date matches when no time of
    /// day between them is admitted.
    proof fn lemma_same_date_gap(self, start: DateTime, c: DateTime)
        requires
            start.wf(),
            c.wf(),
            c.year == start.year && c.month == start.month && c.day == start.day,
            forall|h2: int, m2: int|
                0 <= h2 < 24 && 0 <= m2 < 60 && time_key(start.hour as int, start.minute as int)
                    <= time_key(h2, m2) < time_key(c.hour as int, c.minute as int)
                    ==> !self.time_admits(h2, m2),
        ensures
            forall|u: DateTime|
                u.wf() && minute_key(start) <= minute_key(u) < minute_key(c) ==> !self.matches(u),
    {
        lemma_minute_key(start);
        lemma_minute_key(c);
        assert forall|u: DateTime|
            u.wf() && minute_key(start) <= minute_key(u) < minute_key(c) implies !self.matches(u) by {
            lemma_minute_key(u);
            assert(u.year == c.year && u.month == c.month && u.day == c.day);
        }
    }

    /// No instant from `start` to the end of its date matches when the date is not admitted or
    /// no later time of day is.
    proof fn lemma_rest_of_date(self, start: DateTime)
        requires
            start.wf(),
            !self.date_admits(start.year as int, start.month as int, start.day as int) || forall|
                h2: int,
                m2: int,
            |
                0 <= h2 < 24 && 0 <= m2 < 60 && time_key(start.hour as int, start.minute as int)
                    <= time_key(h2, m2) ==> !self.time_admits(h2, m2),
        ensures
            forall|u: DateTime|
                u.wf() && minute_key(start) <= minute_key(u) && date_key(
                    u.year as int,
                    u.month as int,
                    u.day as int,
                ) <= date_key(start.year as int, start.month as int, start.day as int)
                    ==> !self.matches(u),
    {
        lemma_minute_key(start);
        assert forall|u: DateTime|
            u.wf() && minute_key(start) <= minute_key(u) && date_key(
                u.year as int,
                u.month as int,
                u.day as int,
            ) <= date_key(start.year as int, start.month as int, start.day as int)
                implies !self.matches(u) by {
            lemma_minute_key(u);
            assert(u.year == start.year && u.month == start.month && u.day == start.day);
        }
    }

    /// No instant from `start` up to the first admitted time of the first admitted date
    /// `year-month2-day2` matches, when nothing matches before `year-month-day` and no date from
    /// there to `year-month2-day2` is admitted.
    proof fn lemma_dates_gap(
        self,
        start: DateTime,
        year: int,
        month: int,
        day: int,
        c: DateTime,
    )
        requires
            start.wf(),
            c.wf(),
            c.year == year,
            valid_date(year, month, day),
            date_key(year, month, day) <= date_key(year, c.month as int, c.day as int),
            forall|u: DateTime|
                u.wf() && minute_key(start) <= minute_key(u) && date_key(
                    u.year as int,
                    u.month as int,
                    u.day as int,
                ) < date_key(year, month, day) ==> !self.matches(u),
            forall|m2: int, d2: int|
                valid_date(year, m2, d2) && date_key(year, month, day) <= date_key(year, m2, d2)
                    < date_key(year, c.month as int, c.day as int) ==> !self.date_admits(
                    year,
                    m2,
                    d2,
                ),
            forall|h2: int, m2: int|
                0 <= h2 < 24 && 0 <= m2 < 60 && time_key(h2, m2) < time_key(
                    c.hour as int,
                    c.minute as int,
                ) ==> !self.time_admits(h2, m2),
        ensures
            forall|u: DateTime|
                u.wf() && minute_key(start) <= minute_key(u) < minute_key(c) ==> !self.matches(u),
    {
        lemma_minute_key(c);
        assert forall|u: DateTime|
            u.wf() && minute_key(start) <= minute_key(u) < minute_key(c) implies !self.matches(u) by {
            lemma_minute_key(u);
            let k = date_key(u.year as int, u.month as int, u.day as int);
            if k >= date_key(year, month, day) && k < date_key(year, c.month as int, c.day as int) {
                assert(u.year == year);
                assert(!self.date_admits(year, u.month as int, u.day as int));
            }
        }
    }

    /// Where no date of `year` from `month`-`day` on is admitted, nothing matches before the
    /// next year either.
    proof fn lemma_year_done(self, start: DateTime, year: int, month: int, day: int)
        requires
            start.wf(),
            valid_date(year, month, day),
            forall|u: DateTime|
                u.wf() && minute_key(start) <= minute_key(u) && date_key(
                    u.year as int,
                    u.month as int,
                    u.day as int,
                ) < date_key(year, month, day) ==> !self.matches(u),
            forall|m2: int, d2: int|
                valid_date(year, m2, d2) && date_key(year, month, day) <= date_key(year, m2, d2)
                    ==> !self.date_admits(year, m2, d2),
        ensures
            forall|u: DateTime|
                u.wf() && minute_key(start) <= minute_key(u) && u.year <= year ==> !self.matches(u),
    {
        assert forall|u: DateTime|
            u.wf() && minute_key(start) <= minute_key(u) && u.year <= year implies !self.matches(u) by {
            if date_key(u.year as int, u.month as int, u.day as int) >= date_key(year, month, day) {
                assert(u.year == year);
                assert(!self.date_admits(year, u.month as int, u.day as int));
            }
        }
    }

    /// Finds the earliest matching instant from `start` (inclusive) up to `end` (inclusive), or
    /// none where no instant in that span matches.
    fn find_next(&self, start: DateTime, end: DateTime) -> (r: Option<DateTime>)
        requires
            start.wf(),
            end.wf(),
        ensures
            match r {
                Some(t) => t.wf() && t.second == 0 && self.matches(t) && minute_key(start)
                    <= minute_key(t) <= minute_key(end) && forall|u: DateTime|
                    u.wf() && minute_key(start) <= minute_key(u) < minute_key(t)
                        ==> !self.matches(u),
                None => forall|u: DateTime|
                    u.wf() && minute_key(start) <= minute_key(u) <= minute_key(end)
                        ==> !self.matches(u),
            },
    {
        if self.contains_date(start.year, start.month, start.day) {
            match self.find_next_time(start.hour, start.minute) {
                Some((h, mi)) => {
                    let c = DateTime {
                        year: start.year,
                        month: start.month,
                        day: start.day,
                        hour: h,
                        minute: mi,
                        second: 0,
                    };
                    proof {
                        self.lemma_same_date_gap(start, c);
                    }
                    if minute_le(c, end) {
                        return Some(c);
                    } else {
                        return None;
                    }
                },
                None => {},
            }
        }
        proof {
            self.lemma_rest_of_date(start);
        }
        let (mut y, mut m, mut d) = match next_day_after(start.year, start.month, start.day) {
            Some(next) => next,
            None => {
                return None;
            },
        };
        loop
            invariant
                start.wf(),
                end.wf(),
                valid_date(y as int, m as int, d as int),
                forall|u: DateTime|
                    u.wf() && minute_key(start) <= minute_key(u) && date_key(
                        u.year as int,
                        u.month as int,
                        u.day as int,
                    ) < date_key(y as int, m as int, d as int) ==> !self.matches(u),
                date_key(start.year as int, start.month as int, start.day as int) < date_key(
                    y as int,
                    m as int,
                    d as int,
                ),
            decreases MAX_YEAR - y,
        {
            if y > end.year {
                return None;
            }
            match self.find_next_date(y, m, d) {
                Some((m2, d2)) => {
                    match self.find_next_time(0, 0) {
                        Some((h, mi)) => {
                            let c = DateTime {
                                year: y,
                                month: m2,
                                day: d2,
                                hour: h,
                                minute: mi,
                                second: 0,
                            };
                            proof {
                                self.lemma_dates_gap(start, y as int, m as int, d as int, c);
                                lemma_minute_key(start);
                                lemma_minute_key(c);
                            }
                            if minute_le(c, end) {
                                return Some(c);
                            } else {
                                return None;
                            }
                        },
                        None => {
                            return None;
                        },
                    }
                },
                None => {
                    proof {
                        self.lemma_year_done(start, y as int, m as int, d as int);
                    }
                    if y >= end.year {
                        return None;
                    }
                    y = y + 1;
                    m = 1;
                    d = 1;
                },
            }
        }
    }
}

/// The day before a date, or `None` before the first supported day.
fn previous_day_before(year: i32, month: u8, day: u8) -> (r: Option<(i32, u8, u8)>)
    requires
        valid_date(year as int, month as int, day as int),
    ensures
        match r {
            Some((y, m, d)) => valid_date(y as int, m as int, d as int) && date_key(
                y as int,
                m as int,
                d as int,
            ) < date_key(year as int, month as int, day as int) && forall|y2: int, m2: int, d2: int|
                valid_date(y2, m2, d2) && date_key(y2, m2, d2) < date_key(
                    year as int,
                    month as int,
                    day as int,
                ) ==> date_key(y2, m2, d2) <= date_key(y as int, m as int, d as int),
            None => forall|y2: int, m2: int, d2: int|
                valid_date(y2, m2, d2) ==> date_key(year as int, month as int, day as int)
                    <= date_key(y2, m2, d2),
        },
{
    if day > 1 {
        Some((year, month, day - 1))
    } else if month > 1 {
        Some((year, month - 1, days_in_month(year, month - 1)))
    } else if year > MIN_YEAR {
        Some((year - 1, 12, 31))
    } else {
        None
    }
}

/// The instant one minute later, with the same second, or `None` past the latest instant.
pub fn next_minute(t: DateTime) -> (r: Option<DateTime>)
    requires
        t.wf(),
    ensures
        match r {
            Some(n) => n.wf() && n.second == t.second && minute_key(t) < minute_key(n) && forall|
                u: DateTime,
            | u.wf() && minute_key(t) < minute_key(u) ==> minute_key(n) <= minute_key(u),
            None => forall|u: DateTime| u.wf() ==> minute_key(u) <= minute_key(t),
        },
{
    proof {
        lemma_minute_key(t);
    }
    if t.minute < 59 {
        let n = DateTime { minute: t.minute + 1, ..t };
        proof {
            lemma_minute_key(n);
            assert forall|u: DateTime| u.wf() && minute_key(t) < minute_key(u) implies minute_key(n)
                <= minute_key(u) by {
                lemma_minute_key(u);
            }
        }
        Some(n)
    } else if t.hour < 23 {
        let n = DateTime { hour: t.hour + 1, minute: 0, ..t };
        proof {
            lemma_minute_key(n);
            assert forall|u: DateTime| u.wf() && minute_key(t) < minute_key(u) implies minute_key(n)
                <= minute_key(u) by {
                lemma_minute_key(u);
            }
        }
        Some(n)
    } else {
        match next_day_after(t.year, t.month, t.day) {
            Some((y, m, d)) => {
                let n = DateTime { year: y, month: m, day: d, hour: 0, minute: 0, second: t.second };
                proof {
                    lemma_minute_key(n);
                    assert forall|u: DateTime| u.wf() && minute_key(t) < minute_key(u) implies minute_key(
                        n,
                    ) <= minute_key(u) by {
                        lemma_minute_key(u);
                    }
                }
                Some(n)
            },
            None => {
                proof {
                    assert forall|u: DateTime| u.wf() implies minute_key(u) <= minute_key(t) by {
                        lemma_minute_key(u);
                    }
                }
                None
            },
        }
    }
}

/// The instant one minute earlier, with the same second, or `None` before the earliest instant.
pub fn previous_minute(t: DateTime) -> (r: Option<DateTime>)
    requires
        t.wf(),
    ensures
        match r {
            Some(n) => n.wf() && n.second == t.second && minute_key(n) < minute_key(t) && forall|
                u: DateTime,
            | u.wf() && minute_key(u) < minute_key(t) ==> minute_key(u) <= minute_key(n),
            None => forall|u: DateTime| u.wf() ==> minute_key(t) <= minute_key(u),
        },
{
    proof {
        lemma_minute_key(t);
    }
    if t.minute > 0 {
        let n = DateTime { minute: t.minute - 1, ..t };
        proof {
            lemma_minute_key(n);
            assert forall|u: DateTime| u.wf() && minute_key(u) < minute_key(t) implies minute_key(u)
                <= minute_key(n) by {
                lemma_minute_key(u);
            }
        }
        Some(n)
    } else if t.hour > 0 {
        let n = DateTime { hour: t.hour - 1, minute: 59, ..t };
        proof {
            lemma_minute_key(n);
            assert forall|u: DateTime| u.wf() && minute_key(u) < minute_key(t) implies minute_key(u)
                <= minute_key(n) by {
                lemma_minute_key(u);
            }
        }
        Some(n)
    } else {
        match previous_day_before(t.year, t.month, t.day) {
            Some((y, m, d)) => {
                let n = DateTime {
                    year: y,
                    month: m,
                    day: d,
                    hour: 23,
                    minute: 59,
                    second: t.second,
                };
                proof {
                    lemma_minute_key(n);
                    assert forall|u: DateTime| u.wf() && minute_key(u) < minute_key(t) implies minute_key(
                        u,
                    ) <= minute_key(n) by {
                        lemma_minute_key(u);
                    }
                }
                Some(n)
            },
            None => {
                proof {
                    assert forall|u: DateTime| u.wf() implies minute_key(t) <= minute_key(u) by {
                        lemma_minute_key(u);
                    }
                }
                None
            },
        }
    }
}

/// Two instants of the same minute, both at second 0, are the same instant.
proof fn lemma_minute_key_injective(a: DateTime, b: DateTime)
    requires
        a.wf(),
        b.wf(),
        a.second == 0,
        b.second == 0,
        minute_key(a) == minute_key(b),
    ensures
        a == b,
{
    lemma_minute_key(a);
    lemma_minute_key(b);
}

/// A bound of a span of instants.
#[derive(Debug, Clone, Copy, PartialEq, Eq)]
pub enum Bound {
    /// The span includes this instant.
    Included(DateTime),
    /// The span starts or ends just beside this instant.
    Excluded(DateTime),
    /// The span reaches the earliest or the latest instant.
    Unbounded,
}

impl Cron {
    /// Whether `r` is the earliest matching instant with a minute key from `lo` to `hi`, or
    /// `None` where there is none.
    pub open spec fn is_first_match(self, lo: int, hi: int, r: Option<DateTime>) -> bool {
        match r {
            Some(t) => t.wf() && t.second == 0 && self.matches(t) && lo <= minute_key(t) <= hi
                && forall|u: DateTime| u.wf() && lo <= minute_key(u) < minute_key(t) ==> !self.matches(u),
            None => forall|u: DateTime| u.wf() && lo <= minute_key(u) <= hi ==> !self.matches(u),
        }
    }

    /// Returns the next time the cron will match including the given instant (truncated to its
    /// minute).
    pub fn next_from(&self, start: DateTime) -> (r: Option<DateTime>)
        requires
            start.wf(),
        ensures
            self.is_first_match(minute_key(start), minute_key(latest_instant()), r),
    {
        let start = start.minute_floor();
        if self.any() {
            self.find_next(start, DateTime::max_value())
        } else {
            proof {
                assert forall|u: DateTime| u.wf() implies !self.matches(u) by {
                    self.lemma_infeasible_never_matches(u);
                }
            }
            None
        }
    }

    /// Returns the next time the cron will match after the given instant's minute.
    pub fn next_after(&self, start: DateTime) -> (r: Option<DateTime>)
        requires
            start.wf(),
        ensures
            self.is_first_match(minute_key(start) + 1, minute_key(latest_instant()), r),
    {
        let floor = start.minute_floor();
        let start = match next_minute(floor) {
            Some(n) => n,
            None => return None,
        };
        if self.any() {
            self.find_next(start, DateTime::max_value())
        } else {
            proof {
                assert forall|u: DateTime| u.wf() implies !self.matches(u) by {
                    self.lemma_infeasible_never_matches(u);
                }
            }
            None
        }
    }

    /// `next_from` returns the instant itself (truncated to its minute) where the schedule
    /// matches it, and otherwise the same as `next_after`.
    pub proof fn lemma_next_from_after(
        self,
        t: DateTime,
        from: Option<DateTime>,
        after: Option<DateTime>,
    )
        requires
            t.wf(),
            self.is_first_match(minute_key(t), minute_key(latest_instant()), from),
            self.is_first_match(minute_key(t) + 1, minute_key(latest_instant()), after),
        ensures
            self.matches(t) ==> from == Some(t.floor_spec()),
            !self.matches(t) ==> from == after,
    {
        let hi = minute_key(latest_instant());
        lemma_minute_key(t);
        lemma_minute_key(latest_instant());
        if self.matches(t) {
            let f = t.floor_spec();
            assert(self.matches(f));
            match from {
                Some(x) => {
                    if minute_key(x) > minute_key(t) {
                        assert(!self.matches(f));
                    }
                    lemma_minute_key_injective(x, f);
                },
                None => {
                    assert(!self.matches(f));
                },
            }
        } else {
            match (from, after) {
                (Some(x), Some(y)) => {
                    if minute_key(x) == minute_key(t) {
                        lemma_minute_key_injective(x, t.floor_spec());
                    }
                    if minute_key(x) < minute_key(y) {
                        assert(!self.matches(x));
                    } else if minute_key(y) < minute_key(x) {
                        assert(!self.matches(y));
                    }
                    lemma_minute_key_injective(x, y);
                },
                (Some(x), None) => {
                    if minute_key(x) == minute_key(t) {
                        lemma_minute_key_injective(x, t.floor_spec());
                    }
                    assert(!self.matches(x));
                },
                (None, Some(y)) => {
                    assert(!self.matches(y));
                },
                (None, None) => {},
            }
        }
    }
}

/// An iterator over the times matching the contained cron value, between two bounds.
pub struct CronTimesIter {
    cron: Cron,
    bounds: Option<(DateTime, DateTime)>,
}

impl CronTimesIter {
    /// The schedule iterated over.
    pub closed spec fn cron_spec(self) -> Cron {
        self.cron
    }

    /// The span of instants still to search: the first and the last minute, both at second 0;
    /// `None` once the iterator is exhausted.
    pub closed spec fn span(self) -> Option<(DateTime, DateTime)> {
        self.bounds
    }

    /// Whether the span left to search holds two instants at second 0.
    pub open spec fn wf(self) -> bool {
        match self.span() {
            Some((s, e)) => s.wf() && e.wf() && s.second == 0 && e.second == 0,
            None => true,
        }
    }

    /// Returns the underlying cron value.
    pub fn cron(&self) -> (r: &Cron)
        ensures
            *r == self.cron_spec(),
    {
        &self.cron
    }

    /// Whether one call of `next` may take this iterator to `after`, yielding `r`: `r` is the
    /// earliest matching instant left in the span, and the span then starts after it.
    pub open spec fn steps_to(self, after: CronTimesIter, r: Option<DateTime>) -> bool {
        &&& after.cron_spec() == self.cron_spec()
        &&& match self.span() {
            None => r is None && after.span() is None,
            Some((s, e)) => self.cron_spec().is_first_match(minute_key(s), minute_key(e), r)
                && match r {
                None => after.span() is None,
                Some(t) => match after.span() {
                    None => forall|u: DateTime|
                        u.wf() && minute_key(t) < minute_key(u) <= minute_key(e)
                            ==> !self.cron_spec().matches(u),
                    Some((s2, e2)) => e2 == e && minute_key(t) < minute_key(s2) && forall|
                        u: DateTime,
                    |
                        u.wf() && minute_key(t) < minute_key(u) < minute_key(s2)
                            ==> !self.cron_spec().matches(u),
                },
            },
        }
    }

    /// Yields the earliest matching instant left in the span, and moves the span's start to the
    /// minute after it; yields `None`, and stays exhausted, once no instant is left.
    pub fn next(&mut self) -> (r: Option<DateTime>)
        requires
            old(self).wf(),
        ensures
            final(self).wf(),
            old(self).steps_to(*final(self), r),
    {
        match self.bounds {
            Some((start, end)) => {
                match self.cron.find_next(start, end) {
                    Some(next) => {
                        self.bounds = match next_minute(next) {
                            Some(n) => Some((n, end)),
                            None => None,
                        };
                        Some(next)
                    },
                    None => {
                        self.bounds = None;
                        None
                    },
                }
            },
            None => None,
        }
    }

    /// Successive instants an iterator yields are strictly increasing, and each is matched by the
    /// schedule.
    pub proof fn lemma_increasing(
        it0: CronTimesIter,
        it1: CronTimesIter,
        it2: CronTimesIter,
        a: DateTime,
        b: DateTime,
    )
        requires
            it0.steps_to(it1, Some(a)),
            it1.steps_to(it2, Some(b)),
        ensures
            minute_key(a) < minute_key(b),
            it0.cron_spec().matches(a),
            it2.cron_spec().matches(b),
            it2.cron_spec() == it0.cron_spec(),
    {
    }

    /// An exhausted iterator yields nothing, and stays exhausted.
    pub proof fn lemma_exhausted(it0: CronTimesIter, it1: CronTimesIter, r: Option<DateTime>)
        requires
            it0.span() is None,
            it0.steps_to(it1, r),
        ensures
            r is None,
            it1.span() is None,
    {
    }
}

impl Cron {
    /// Creates an iterator of the instants contained in the cron value between the two bounds.
    /// Unbounded ends reach the earliest and the latest instant; the bounds are truncated to
    /// their minutes, an excluded one after stepping a minute inward. The iterator yields
    /// nothing where the schedule can never match or no instant lies between the bounds.
    pub fn iter(self, start: Bound, end: Bound) -> (r: CronTimesIter)
        requires
            bound_wf(start),
            bound_wf(end),
        ensures
            r.wf(),
            r.cron_spec() == self,
            r.span() is None ==> !self.any_spec() || forall|u: DateTime|
                u.wf() ==> !(bound_admits_start(start, u) && bound_admits_end(end, u)),
            r.span() matches Some((s, e)) ==> self.any_spec() && minute_key(s) <= minute_key(e)
                && spans_start(start, s) && spans_end(end, e),
    {
        if !self.any() {
            return CronTimesIter { cron: self, bounds: None };
        }
        let front = match start {
            Bound::Unbounded => Some(DateTime::min_value()),
            Bound::Included(t) => Some(t.minute_floor()),
            Bound::Excluded(t) => match next_minute(t) {
                Some(n) => Some(n.minute_floor()),
                None => None,
            },
        };
        let back = match end {
            Bound::Unbounded => Some(DateTime::max_value().minute_floor()),
            Bound::Included(t) => Some(t.minute_floor()),
            Bound::Excluded(t) => match previous_minute(t) {
                Some(n) => Some(n.minute_floor()),
                None => None,
            },
        };
        proof {
            lemma_minute_key(earliest_instant());
            lemma_minute_key(latest_instant());
            assert forall|u: DateTime| u.wf() && bound_admits_start(start, u) implies (front matches Some(
                f,
            ) && minute_key(f) <= minute_key(u)) by {
                lemma_minute_key(u);
            }
            assert forall|u: DateTime| u.wf() && bound_admits_end(end, u) implies (back matches Some(
                b,
            ) && minute_key(u) <= minute_key(b)) by {
                lemma_minute_key(u);
            }
        }
        let bounds = match (front, back) {
            (Some(f), Some(b)) => if minute_le(f, b) {
                Some((f, b))
            } else {
                None
            },
            _ => None,
        };
        CronTimesIter { cron: self, bounds }
    }

    /// Creates an iterator of the instants from the given one (inclusive) on.
    pub fn iter_from(self, start: DateTime) -> (r: CronTimesIter)
        requires
            start.wf(),
        ensures
            r.wf(),
            r.cron_spec() == self,
            r.span() == if self.any_spec() {
                Some((start.floor_spec(), latest_instant().floor_spec()))
            } else {
                None
            },
    {
        let r = self.iter(Bound::Included(start), Bound::Unbounded);
        proof {
            let f = start.floor_spec();
            assert(bound_admits_start(Bound::Included(start), f));
            assert(bound_admits_end(Bound::Unbounded, f));
        }
        r
    }

    /// Creates an iterator of the instants after the given one's minute.
    pub fn iter_after(self, start: DateTime) -> (r: CronTimesIter)
        requires
            start.wf(),
        ensures
            r.wf(),
            r.cron_spec() == self,
            r.span() is None ==> !self.any_spec() || forall|u: DateTime|
                u.wf() ==> minute_key(u) <= minute_key(start),
            r.span() matches Some((s, e)) ==> spans_start(Bound::Excluded(start), s) && e
                == latest_instant().floor_spec(),
    {
        self.iter(Bound::Excluded(start), Bound::Unbounded)
    }
}

/// Whether a bound names a valid instant, where it names one.
pub open spec fn bound_wf(b: Bound) -> bool {
    match b {
        Bound::Included(t) => t.wf(),
        Bound::Excluded(t) => t.wf(),
        Bound::Unbounded => true,
    }
}

/// Whether `s` is the first minute a start bound admits.
pub open spec fn spans_start(b: Bound, s: DateTime) -> bool {
    match b {
        Bound::Unbounded => s == earliest_instant(),
        Bound::Included(t) => s == t.floor_spec(),
        Bound::Excluded(t) => s.wf() && s.second == 0 && minute_key(t) < minute_key(s) && forall|
            u: DateTime,
        | u.wf() && minute_key(t) < minute_key(u) ==> minute_key(s) <= minute_key(u),
    }
}

/// Whether `e` is the last minute an end bound admits.
pub open spec fn spans_end(b: Bound, e: DateTime) -> bool {
    match b {
        Bound::Unbounded => e == latest_instant().floor_spec(),
        Bound::Included(t) => e == t.floor_spec(),
        Bound::Excluded(t) => e.wf() && e.second == 0 && minute_key(e) < minute_key(t) && forall|
            u: DateTime,
        | u.wf() && minute_key(u) < minute_key(t) ==> minute_key(u) <= minute_key(e),
    }
}

/// Whether a start bound lets the span begin at or before instant `u`.
pub open spec fn bound_admits_start(b: Bound, u: DateTime) -> bool {
    match b {
        Bound::Unbounded => true,
        Bound::Included(t) => minute_key(t) <= minute_key(u),
        Bound::Excluded(t) => minute_key(t) < minute_key(u),
    }
}

/// Whether an end bound lets the span end at or after instant `u`.
pub open spec fn bound_admits_end(b: Bound, u: DateTime) -> bool {
    match b {
        Bound::Unbounded => true,
        Bound::Included(t) => minute_key(u) <= minute_key(t),
        Bound::Excluded(t) => minute_key(u) < minute_key(t),
    }
}

/// Whether `expr` restricts no field but the one that `only` names.
pub open spec fn only_field(expr: CronExpr, only: int) -> bool {
    &&& (only != 0 ==> expr.minutes is All)
    &&& (only != 1 ==> expr.hours is All)
    &&& (only != 2 ==> expr.doms is All)
    &&& (only != 3 ==> expr.months is All)
    &&& (only != 4 ==> expr.dows is All)
}

impl Cron {
    /// A schedule compiled from a single minute value, every other field `*`, matches exactly
    /// the instants of that minute.
    pub proof fn lemma_single_minute(self, expr: CronExpr, v: Minute, t: DateTime)
        requires
            self.compiled_from(expr),
            only_field(expr, 0),
            expr.minutes@ == ExprView::Many(OrsExpr::One(v), Seq::empty()),
            Minute::min_raw() <= v.raw() <= Minute::max_raw(),
            t.wf(),
        ensures
            self.matches(t) <==> t.minute == v.raw(),
    {
        assert(expr_admits(expr.hours, t.hour as int));
        assert(expr_admits(expr.months, t.month - 1));
        assert(expr_admits(expr.minutes, t.minute as int) <==> t.minute == v.raw());
    }

    /// A schedule compiled from a single hour value, every other field `*`, matches exactly the
    /// instants of that hour.
    pub proof fn lemma_single_hour(self, expr: CronExpr, v: Hour, t: DateTime)
        requires
            self.compiled_from(expr),
            only_field(expr, 1),
            expr.hours@ == ExprView::Many(OrsExpr::One(v), Seq::empty()),
            Hour::min_raw() <= v.raw() <= Hour::max_raw(),
            t.wf(),
        ensures
            self.matches(t) <==> t.hour == v.raw(),
    {
        assert(expr_admits(expr.minutes, t.minute as int));
        assert(expr_admits(expr.months, t.month - 1));
        assert(expr_admits(expr.hours, t.hour as int) <==> t.hour == v.raw());
    }

    /// A schedule compiled from a single month value, every other field `*`, matches exactly
    /// the instants of that month.
    pub proof fn lemma_single_month(self, expr: CronExpr, v: Month, t: DateTime)
        requires
            self.compiled_from(expr),
            only_field(expr, 3),
            expr.months@ == ExprView::Many(OrsExpr::One(v), Seq::empty()),
            Month::min_raw() <= v.raw() <= Month::max_raw(),
            t.wf(),
        ensures
            self.matches(t) <==> t.month == v.raw(),
    {
        assert(expr_admits(expr.minutes, t.minute as int));
        assert(expr_admits(expr.hours, t.hour as int));
        assert(expr_admits(expr.months, t.month - 1) <==> t.month == v.raw());
    }

    /// A schedule compiled from a single day of the month, every other field `*`, matches
    /// exactly the instants of that day.
    pub proof fn lemma_single_day_of_month(self, expr: CronExpr, v: DayOfMonth, t: DateTime)
        requires
            self.compiled_from(expr),
            only_field(expr, 2),
            expr.doms@ == DomView::Many(OrsExpr::One(v), Seq::empty()),
            DayOfMonth::min_raw() <= v.raw() <= DayOfMonth::max_raw(),
            t.wf(),
        ensures
            self.matches(t) <==> t.day == v.raw(),
    {
        assert(expr_admits(expr.minutes, t.minute as int));
        assert(expr_admits(expr.hours, t.hour as int));
        assert(expr_admits(expr.months, t.month - 1));
        let es = expr.doms->Many_0;
        assert(exprs_admit(es, t.day - 1) <==> t.day == v.raw());
    }

    /// A schedule compiled from a single day of the week, every other field `*`, matches
    /// exactly the instants of that weekday.
    pub proof fn lemma_single_day_of_week(self, expr: CronExpr, v: DayOfWeek, t: DateTime)
        requires
            self.compiled_from(expr),
            only_field(expr, 4),
            expr.dows@ == DowView::Many(OrsExpr::One(v), Seq::empty()),
            DayOfWeek::min_raw() <= v.raw() <= DayOfWeek::max_raw(),
            t.wf(),
        ensures
            self.matches(t) <==> weekday(t.year as int, t.month as int, t.day as int) + 1 == v.raw(),
    {
        assert(expr_admits(expr.minutes, t.minute as int));
        assert(expr_admits(expr.hours, t.hour as int));
        assert(expr_admits(expr.months, t.month - 1));
        let w = weekday(t.year as int, t.month as int, t.day as int);
        let es = expr.dows->Many_0;
        assert(exprs_admit(es, w) <==> w + 1 == v.raw());
    }
}

impl core::str::FromStr for Cron {
    type Err = CronParseError;

    fn from_str(s: &str) -> Result<Cron, CronParseError> {
        Cron::parse(s)
    }
}

} // verus!
