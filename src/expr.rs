//! The parsed form of a cron expression and the set of field positions each part denotes.

use crate::values::{
    DayOfMonth, DayOfMonthOffset, DayOfWeek, ExprValue, Hour, Minute, Month, NthDay, Step,
};
use vstd::prelude::*;

verus! {

/// Either one value, a range, or a step expression.
#[derive(Debug, Clone, Copy, PartialEq, Eq)]
pub enum OrsExpr<E: ExprValue> {
    /// One value
    One(E),
    /// A '-' character: an inclusive range that wraps past the field's maximum when the start
    /// is greater than the end.
    Range(E, E),
    /// A '/' character.
    Step {
        /// The start value. If the step expression starts with '*', this is the min value of E.
        start: E,
        /// The end value. If the step expression gives no end, this is the max value of E.
        end: E,
        /// The step value.
        step: Step<E>,
    },
}

/// A set of expressions with at least one item.
#[derive(Debug, Clone, PartialEq, Eq)]
pub struct Exprs<E: ExprValue> {
    /// The first expression
    pub first: OrsExpr<E>,
    /// The rest of the other expressions in the set.
    pub tail: Vec<OrsExpr<E>>,
}

/// A generic expression that can take a '*' or many exprs.
#[derive(Debug, Clone, PartialEq, Eq)]
pub enum Expr<E: ExprValue> {
    /// A '*' character
    All,
    /// Possibly multiple unique, ranges, or steps
    Many(Exprs<E>),
}

/// A "last" expression for [`DayOfMonthExpr`].
#[derive(Debug, Clone, Copy, PartialEq, Eq)]
pub enum Last {
    /// An `L` expression. The last day of the month.
    Day,
    /// An `LW` expression. The last weekday of the month.
    Weekday,
    /// The last day of the month offsetted by a value.
    /// For example, a `L-3`, the 3rd to last day of the month
    Offset(DayOfMonthOffset),
    /// The closest weekday to the last day of the month offsetted by a value.
    /// For example, a `L-3W`, the weekday closest to the 3rd to last day of the month.
    OffsetWeekday(DayOfMonthOffset),
}

/// A day of the month expression.
#[derive(Debug, Clone, PartialEq, Eq)]
pub enum DayOfMonthExpr {
    /// A '*' character
    All,
    /// An expression containing an 'L' character.
    Last(Last),
    /// A 'W' expression, used to mean the closest weekday to the specified day of the month
    ClosestWeekday(DayOfMonth),
    /// Possibly multiple unique, ranges, or steps
    Many(Exprs<DayOfMonth>),
}

/// A day of the week expression.
#[derive(Debug, Clone, PartialEq, Eq)]
pub enum DayOfWeekExpr {
    /// A '*' character
    All,
    /// A `L` character, the last day of the week for the month, paired with a value
    Last(DayOfWeek),
    /// A '#' character
    Nth(DayOfWeek, NthDay),
    /// Possibly multiple unique, ranges, or steps
    Many(Exprs<DayOfWeek>),
}

/// A parsed cron expression, which can be reduced into a [`crate::Cron`] value.
#[derive(Debug, Clone, PartialEq, Eq)]
pub struct CronExpr {
    /// The minute part of the expression
    pub minutes: Expr<Minute>,
    /// The hour part of the expression
    pub hours: Expr<Hour>,
    /// The day of the month part of the expression
    pub doms: DayOfMonthExpr,
    /// The month part of the expression
    pub months: Expr<Month>,
    /// The day of the week part of the expression.
    pub dows: DayOfWeekExpr,
}

/// An error indicating that the provided cron expression failed to parse.
#[derive(Debug, PartialEq, Eq)]
pub struct CronParseError;

/// The zero-based position of a value inside its field.
pub open spec fn pos<E: ExprValue>(v: E) -> int {
    v.raw() - E::min_raw()
}

/// The zero-based position of the largest value of the field `E`.
pub open spec fn top<E: ExprValue>() -> int {
    E::max_raw() - E::min_raw()
}

/// Whether position `i` lies on the run from `a` to `b`, which wraps past `top` back to 0 when
/// `a > b`.
pub open spec fn in_run(a: int, b: int, i: int, top: int) -> bool {
    if a <= b {
        a <= i <= b
    } else {
        (a <= i <= top) || (0 <= i <= b)
    }
}

/// How many steps from `a` position `i` is, walking up and wrapping past `top` back to 0.
pub open spec fn run_offset(a: int, i: int, top: int) -> int {
    if i >= a {
        i - a
    } else {
        top - a + 1 + i
    }
}

/// Whether the single expression `e` admits the field position `i`.
pub open spec fn ors_admits<E: ExprValue>(e: OrsExpr<E>, i: int) -> bool {
    match e {
        OrsExpr::One(v) => i == pos(v),
        OrsExpr::Range(a, b) => in_run(pos(a), pos(b), i, top::<E>()),
        OrsExpr::Step { start, end, step } => in_run(pos(start), pos(end), i, top::<E>())
            && run_offset(pos(start), i, top::<E>()) % step.len() == 0,
    }
}

/// Whether any expression of the list admits the field position `i`.
pub open spec fn exprs_admit<E: ExprValue>(es: Exprs<E>, i: int) -> bool {
    ors_admits(es.first, i) || exists|k: int| 0 <= k < es.tail@.len() && ors_admits(
        #[trigger] es.tail@[k],
        i,
    )
}

/// Whether the field expression admits the field position `i`.
pub open spec fn expr_admits<E: ExprValue>(e: Expr<E>, i: int) -> bool {
    0 <= i <= top::<E>() && match e {
        Expr::All => true,
        Expr::Many(es) => exprs_admit(es, i),
    }
}

impl<E: ExprValue> OrsExpr<E> {
    /// Normalizes the expression, simplifying it.
    ///
    /// Normalizations:
    ///  * A range of equal start and end points (i.e. 1-1) is simplified into one value (1)
    ///  * A step of equal start and end points (i.e. 1-1/3) is simplified into one value (1)
    ///  * A step where the step value is one (i.e. 5/1 or 5-30/1) is simplified into a range
    ///    (5-59 or 5-30)
    ///
    /// The set of admitted positions does not change.
    pub fn normalize(self) -> (r: OrsExpr<E>)
        ensures
            r == (match self {
                OrsExpr::Range(a, b) => if a.raw() == b.raw() {
                    OrsExpr::One(a)
                } else {
                    self
                },
                OrsExpr::Step { start, end, step } => if start.raw() == end.raw() {
                    OrsExpr::One(start)
                } else if step.len() == 1 {
                    OrsExpr::Range(start, end)
                } else {
                    self
                },
                _ => self,
            }),
            forall|i: int| 0 <= i <= top::<E>() ==> ors_admits(r, i) == ors_admits(self, i),
    {
        match self {
            OrsExpr::Range(a, b) => {
                if a.value() == b.value() {
                    OrsExpr::One(a)
                } else {
                    self
                }
            },
            OrsExpr::Step { start, end, step } => {
                let s = start.value();
                let e = end.value();
                let n = step.value();
                if s == e {
                    assert forall|i: int| 0 <= i <= top::<E>() implies ors_admits(self, i) == (i
                        == pos(start)) by {
                        if i == pos(start) {
                            assert(run_offset(pos(start), i, top::<E>()) == 0);
                            assert(0int % (n as int) == 0);
                        }
                    }
                    OrsExpr::One(start)
                } else if n == 1 {
                    assert forall|i: int| 0 <= i <= top::<E>() implies ors_admits(self, i)
                        == in_run(pos(start), pos(end), i, top::<E>()) by {
                        assert(run_offset(pos(start), i, top::<E>()) % 1 == 0);
                    }
                    OrsExpr::Range(start, end)
                } else {
                    self
                }
            },
            _ => self,
        }
    }
}

impl<E: ExprValue> Exprs<E> {
    /// Creates a new set of [`Exprs`] holding only the given expression.
    pub fn new(first: OrsExpr<E>) -> (r: Self)
        ensures
            r.first == first,
            r.tail@.len() == 0,
    {
        Exprs { first, tail: Vec::new() }
    }

    /// All expressions in this set, the first one first.
    pub fn iter(&self) -> (r: Vec<&OrsExpr<E>>)
        ensures
            r@.len() == self.tail@.len() + 1,
            *r@[0] == self.first,
            forall|k: int| 0 <= k < self.tail@.len() ==> *r@[k + 1] == self.tail@[k],
    {
        let mut r: Vec<&OrsExpr<E>> = Vec::new();
        r.push(&self.first);
        let mut k: usize = 0;
        while k < self.tail.len()
            invariant
                k <= self.tail@.len(),
                r@.len() == k + 1,
                *r@[0] == self.first,
                forall|j: int| 0 <= j < k ==> *r@[j + 1] == self.tail@[j],
            decreases self.tail@.len() - k,
        {
            r.push(&self.tail[k]);
            k = k + 1;
        }
        r
    }
}

} // verus!
