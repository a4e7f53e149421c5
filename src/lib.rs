//! A Quartz-like cron expression engine: a parser for the extended cron grammar, a compiler
//! into bitmask schedules, and a calendar-exact matcher and next-occurrence search.

mod bits;
mod calendar;
mod cron;
mod expr;
mod parse;
mod values;

pub use values::{
    DayOfMonth, DayOfMonthOffset, DayOfWeek, ExprValue, Hour, Minute, Month, NthDay, Step,
    ValueOutOfRangeError,
};
pub use expr::{
    CronExpr, CronParseError, DayOfMonthExpr, DayOfWeekExpr, Expr, Exprs, Last, OrsExpr,
};
pub use calendar::{days_in_month, is_leap_year, DateTime, MAX_YEAR, MIN_YEAR};
pub use cron::{
    next_minute, previous_minute, Bound, Cron, CronTimesIter, DaysOfMonth, DaysOfWeek,
};
pub use parse::{
    dom_expr, dow_expr, hours_expr, minutes_expr, months_expr, parse_cron_expr, CronView, DomView,
    DowView, ExprView,
};
