//! The expression grammar: a parser over the bytes of the text, first match wins and nothing is
//! retried across field boundaries. Each parsing function is stated against a function of the
//! same shape over `Seq<u8>`, which is the grammar itself.

use crate::expr::{
    CronExpr, CronParseError, DayOfMonthExpr, DayOfWeekExpr, Expr, Exprs, Last, OrsExpr,
};
use crate::values::{
    DayOfMonth, DayOfMonthOffset, DayOfWeek, ExprValue, Hour, Minute, Month, NthDay, Step,
};
use vstd::prelude::*;
use vstd::string::StringSliceAdditionalSpecFns;

verus! {

/// Whether `c` is an ASCII digit.
pub open spec fn is_digit(c: u8) -> bool {
    48 <= c <= 57
}

/// The byte at position `i`, where there is one.
pub open spec fn byte_at(s: Seq<u8>, i: int) -> Option<u8> {
    if 0 <= i < s.len() {
        Some(s[i])
    } else {
        None
    }
}

/// The end of the run of digits that starts at `i`.
pub open spec fn digits_end(s: Seq<u8>, i: int) -> int
    decreases s.len() - i,
{
    if 0 <= i < s.len() && is_digit(s[i]) {
        digits_end(s, i + 1)
    } else {
        i
    }
}

/// The decimal value of the digits from `i` up to `j`.
pub open spec fn digits_value(s: Seq<u8>, i: int, j: int) -> int
    decreases j - i,
{
    if j <= i {
        0
    } else {
        digits_value(s, i, j - 1) * 10 + (s[j - 1] - 48)
    }
}

/// One or more digits at `i` that read as a number below 256: the number and the position
/// after the digits.
pub open spec fn number_at(s: Seq<u8>, i: int) -> Option<(int, int)> {
    let j = digits_end(s, i);
    if j > i && digits_value(s, i, j) <= 255 {
        Some((digits_value(s, i, j), j))
    } else {
        None
    }
}

/// A field value written in digits at `i`, within the field's range.
pub open spec fn value_at<E: ExprValue>(s: Seq<u8>, i: int) -> Option<(E, int)> {
    match number_at(s, i) {
        Some((v, j)) => if E::min_raw() <= v <= E::max_raw() {
            Some((E::from_raw(v), j))
        } else {
            None
        },
        None => None,
    }
}

/// The ASCII lower case of `c`.
pub open spec fn lower(c: u8) -> u8 {
    if 65 <= c <= 90 {
        (c + 32) as u8
    } else {
        c
    }
}

/// Whether the three bytes at `i` spell the lower-case name `a b c`, in any case.
pub open spec fn name_at(s: Seq<u8>, i: int, a: u8, b: u8, c: u8) -> bool {
    0 <= i && i + 3 <= s.len() && lower(s[i]) == a && lower(s[i + 1]) == b && lower(s[i + 2]) == c
}

/// The end of the run of spaces and tabs that starts at `i`.
pub open spec fn spaces_end(s: Seq<u8>, i: int) -> int
    decreases s.len() - i,
{
    if 0 <= i < s.len() && (s[i] == 32 || s[i] == 9) {
        spaces_end(s, i + 1)
    } else {
        i
    }
}

proof fn lemma_digits_end(s: Seq<u8>, i: int)
    requires
        0 <= i <= s.len(),
    ensures
        i <= digits_end(s, i) <= s.len(),
        forall|k: int| i <= k < digits_end(s, i) ==> is_digit(#[trigger] s[k]),
    decreases s.len() - i,
{
    if i < s.len() && is_digit(s[i]) {
        lemma_digits_end(s, i + 1);
    }
}

proof fn lemma_digits_value_nonneg(s: Seq<u8>, i: int, j: int)
    requires
        forall|k: int| i <= k < j ==> is_digit(#[trigger] s[k]),
    ensures
        digits_value(s, i, j) >= 0,
    decreases j - i,
{
    if j > i {
        lemma_digits_value_nonneg(s, i, j - 1);
    }
}

/// Reads one or more digits at `i` as a number below 256.
pub fn number(s: &[u8], i: usize) -> (r: Option<(u8, usize)>)
    requires
        i <= s@.len(),
    ensures
        match r {
            Some((v, j)) => number_at(s@, i as int) == Some((v as int, j as int)) && i < j
                <= s@.len(),
            None => number_at(s@, i as int) is None,
        },
{
    proof {
        lemma_digits_end(s@, i as int);
    }
    let mut j = i;
    let mut acc: u32 = 0;
    while j < s.len() && 48 <= s[j] && s[j] <= 57
        invariant
            i <= j <= s@.len(),
            forall|k: int| i <= k < j ==> is_digit(#[trigger] s@[k]),
            digits_end(s@, i as int) == digits_end(s@, j as int),
            acc <= 255 ==> acc == digits_value(s@, i as int, j as int),
            acc > 255 ==> digits_value(s@, i as int, j as int) > 255,
            acc <= 2559 + 9,
        decreases s@.len() - j,
    {
        proof {
            lemma_digits_value_nonneg(s@, i as int, j as int);
        }
        if acc <= 255 {
            acc = acc * 10 + (s[j] - 48) as u32;
        }
        j = j + 1;
    }
    if j > i && acc <= 255 {
        Some((acc as u8, j))
    } else {
        None
    }
}

/// The position after the three bytes at `i` where they spell the lower-case name `a b c`, in
/// any case.
pub fn name(s: &[u8], i: usize, a: u8, b: u8, c: u8) -> (r: Option<usize>)
    ensures
        r is Some <==> name_at(s@, i as int, a, b, c),
        r is Some ==> r->0 as int == i as int + 3,
{
    if i >= s.len() || s.len() - i < 3 {
        return None;
    }
    if lower_byte(s[i]) == a && lower_byte(s[i + 1]) == b && lower_byte(s[i + 2]) == c {
        Some(i + 3)
    } else {
        None
    }
}

fn lower_byte(c: u8) -> (r: u8)
    ensures
        r == lower(c),
{
    if 65 <= c && c <= 90 {
        c + 32
    } else {
        c
    }
}

/// Whether the byte at `i` is `c`.
fn is_at(s: &[u8], i: usize, c: u8) -> (r: bool)
    ensures
        r == (byte_at(s@, i as int) == Some(c)),
        s@.len() <= usize::MAX,
{
    let n = s.len();
    i < n && s[i] == c
}

} // verus!

verus! {

/// The shape of a field expression, with its list as a sequence.
pub enum ExprView<E: ExprValue> {
    /// A '*' character
    All,
    /// The first expression of the list and the rest.
    Many(OrsExpr<E>, Seq<OrsExpr<E>>),
}

/// The shape of a day-of-month expression, with its list as a sequence.
pub enum DomView {
    /// A '*' character
    All,
    /// An expression containing an 'L' character.
    Last(Last),
    /// A 'W' expression.
    ClosestWeekday(DayOfMonth),
    /// The first expression of the list and the rest.
    Many(OrsExpr<DayOfMonth>, Seq<OrsExpr<DayOfMonth>>),
}

/// The shape of a day-of-week expression, with its list as a sequence.
pub enum DowView {
    /// A '*' character
    All,
    /// A `L` after a weekday.
    Last(DayOfWeek),
    /// A '#' expression.
    Nth(DayOfWeek, NthDay),
    /// The first expression of the list and the rest.
    Many(OrsExpr<DayOfWeek>, Seq<OrsExpr<DayOfWeek>>),
}

/// The shape of a whole cron expression.
pub struct CronView {
    pub minutes: ExprView<Minute>,
    pub hours: ExprView<Hour>,
    pub doms: DomView,
    pub months: ExprView<Month>,
    pub dows: DowView,
}

impl<E: ExprValue> View for Expr<E> {
    type V = ExprView<E>;

    open spec fn view(&self) -> ExprView<E> {
        match self {
            Expr::All => ExprView::All,
            Expr::Many(es) => ExprView::Many(es.first, es.tail@),
        }
    }
}

impl View for DayOfMonthExpr {
    type V = DomView;

    open spec fn view(&self) -> DomView {
        match self {
            DayOfMonthExpr::All => DomView::All,
            DayOfMonthExpr::Last(l) => DomView::Last(*l),
            DayOfMonthExpr::ClosestWeekday(d) => DomView::ClosestWeekday(*d),
            DayOfMonthExpr::Many(es) => DomView::Many(es.first, es.tail@),
        }
    }
}

impl View for DayOfWeekExpr {
    type V = DowView;

    open spec fn view(&self) -> DowView {
        match self {
            DayOfWeekExpr::All => DowView::All,
            DayOfWeekExpr::Last(d) => DowView::Last(*d),
            DayOfWeekExpr::Nth(d, n) => DowView::Nth(*d, *n),
            DayOfWeekExpr::Many(es) => DowView::Many(es.first, es.tail@),
        }
    }
}

impl View for CronExpr {
    type V = CronView;

    open spec fn view(&self) -> CronView {
        CronView {
            minutes: self.minutes@,
            hours: self.hours@,
            doms: self.doms@,
            months: self.months@,
            dows: self.dows@,
        }
    }
}

/// A step length written in digits at `i`, within `1..=MAX-MIN` of the field `E`.
pub open spec fn step_at<E: ExprValue>(s: Seq<u8>, i: int) -> Option<(Step<E>, int)> {
    match number_at(s, i) {
        Some((v, j)) => if 1 <= v <= E::max_raw() - E::min_raw() {
            Some((Step::from_len(v), j))
        } else {
            None
        },
        None => None,
    }
}

/// One value, range or step at `i`: a value (or '*' for the field's minimum), then optionally
/// `-` and an end value, then optionally `/` and a step; a step without an end runs to the
/// field's maximum.
pub open spec fn ors_at<E: ExprValue>(s: Seq<u8>, i: int) -> Option<(OrsExpr<E>, int)> {
    let first = match E::atom_at(s, i) {
        Some(x) => Some(x),
        None => if byte_at(s, i) == Some(42u8) {
            Some((E::from_raw(E::min_raw()), i + 1))
        } else {
            None
        },
    };
    match first {
        None => None,
        Some((v, j)) => if byte_at(s, j) == Some(47u8) {
            match step_at::<E>(s, j + 1) {
                Some((st, k)) => Some(
                    (OrsExpr::Step { start: v, end: E::from_raw(E::max_raw()), step: st }, k),
                ),
                None => None,
            }
        } else if byte_at(s, j) == Some(45u8) {
            match E::atom_at(s, j + 1) {
                None => None,
                Some((e, k)) => if byte_at(s, k) == Some(47u8) {
                    match step_at::<E>(s, k + 1) {
                        Some((st, l)) => Some((OrsExpr::Step { start: v, end: e, step: st }, l)),
                        None => None,
                    }
                } else {
                    Some((OrsExpr::Range(v, e), k))
                },
            }
        } else {
            Some((OrsExpr::One(v), j))
        },
    }
}

/// The comma-separated expressions that follow at `i`, each after its comma.
pub open spec fn tail_at<E: ExprValue>(s: Seq<u8>, i: int) -> Option<(Seq<OrsExpr<E>>, int)>
    decreases s.len() - i,
{
    if byte_at(s, i) == Some(44u8) {
        match ors_at::<E>(s, i + 1) {
            None => None,
            Some((e, j)) => if i < j <= s.len() {
                match tail_at::<E>(s, j) {
                    None => None,
                    Some((rest, k)) => Some((seq![e] + rest, k)),
                }
            } else {
                None
            },
        }
    } else {
        Some((Seq::empty(), i))
    }
}

/// A list whose first expression ends at `j`, with the expressions that follow it.
pub open spec fn list_after<E: ExprValue>(s: Seq<u8>, first: OrsExpr<E>, j: int) -> Option<
    (ExprView<E>, int),
> {
    match tail_at::<E>(s, j) {
        Some((rest, k)) => Some((ExprView::Many(first, rest), k)),
        None => None,
    }
}

/// A minute, hour or month field at `i`: `*`, `*/step`, or a list.
pub open spec fn field_at<E: ExprValue>(s: Seq<u8>, i: int) -> Option<(ExprView<E>, int)> {
    if byte_at(s, i) == Some(42u8) {
        if byte_at(s, i + 1) == Some(47u8) {
            match step_at::<E>(s, i + 2) {
                Some((st, j)) => list_after(
                    s,
                    OrsExpr::Step {
                        start: E::from_raw(E::min_raw()),
                        end: E::from_raw(E::max_raw()),
                        step: st,
                    },
                    j,
                ),
                None => None,
            }
        } else {
            Some((ExprView::All, i + 1))
        }
    } else {
        match ors_at::<E>(s, i) {
            Some((e, j)) => list_after(s, e, j),
            None => None,
        }
    }
}

/// Turns a list of days of the month into its day-of-month shape.
pub open spec fn dom_list(r: Option<(ExprView<DayOfMonth>, int)>) -> Option<(DomView, int)> {
    match r {
        Some((ExprView::Many(f, t), k)) => Some((DomView::Many(f, t), k)),
        _ => None,
    }
}

/// Turns a list of weekdays into its day-of-week shape.
pub open spec fn dow_list(r: Option<(ExprView<DayOfWeek>, int)>) -> Option<(DowView, int)> {
    match r {
        Some((ExprView::Many(f, t), k)) => Some((DowView::Many(f, t), k)),
        _ => None,
    }
}

/// After a first value `day` ending at `j`: a range, a step or a plain value, then the rest of
/// the list.
pub open spec fn list_from<E: ExprValue>(s: Seq<u8>, day: E, j: int) -> Option<(ExprView<E>, int)> {
    if byte_at(s, j) == Some(45u8) {
        match E::atom_at(s, j + 1) {
            None => None,
            Some((end, k)) => if byte_at(s, k) == Some(47u8) {
                match step_at::<E>(s, k + 1) {
                    Some((st, l)) => list_after(s, OrsExpr::Step { start: day, end, step: st }, l),
                    None => None,
                }
            } else {
                list_after(s, OrsExpr::Range(day, end), k)
            },
        }
    } else if byte_at(s, j) == Some(47u8) {
        match step_at::<E>(s, j + 1) {
            Some((st, l)) => list_after(
                s,
                OrsExpr::Step { start: day, end: E::from_raw(E::max_raw()), step: st },
                l,
            ),
            None => None,
        }
    } else {
        list_after(s, OrsExpr::One(day), j)
    }
}

/// A day-of-month field at `i`: `*`, `*/step` and a list, `L`, `LW`, `L-N`, `L-NW`, `NW`, or a
/// list.
pub open spec fn dom_at(s: Seq<u8>, i: int) -> Option<(DomView, int)> {
    if byte_at(s, i) == Some(42u8) {
        match (if byte_at(s, i + 1) == Some(47u8) {
            step_at::<DayOfMonth>(s, i + 2)
        } else {
            None
        }) {
            Some((st, j)) => dom_list(
                list_after(
                    s,
                    OrsExpr::Step {
                        start: DayOfMonth::from_raw(1),
                        end: DayOfMonth::from_raw(31),
                        step: st,
                    },
                    j,
                ),
            ),
            None => Some((DomView::All, i + 1)),
        }
    } else if byte_at(s, i) == Some(76u8) {
        if byte_at(s, i + 1) == Some(45u8) {
            match DayOfMonthOffset::atom_at(s, i + 2) {
                None => None,
                Some((o, j)) => if byte_at(s, j) == Some(87u8) {
                    Some((DomView::Last(Last::OffsetWeekday(o)), j + 1))
                } else {
                    Some((DomView::Last(Last::Offset(o)), j))
                },
            }
        } else if byte_at(s, i + 1) == Some(87u8) {
            Some((DomView::Last(Last::Weekday), i + 2))
        } else {
            Some((DomView::Last(Last::Day), i + 1))
        }
    } else {
        match DayOfMonth::atom_at(s, i) {
            None => None,
            Some((day, j)) => if byte_at(s, j) == Some(87u8) {
                Some((DomView::ClosestWeekday(day), j + 1))
            } else {
                dom_list(list_from(s, day, j))
            },
        }
    }
}

/// A day-of-week field at `i`: `*`, `*/step` and a list, `L` (Saturday), `DL`, `D#N`, or a
/// list.
pub open spec fn dow_at(s: Seq<u8>, i: int) -> Option<(DowView, int)> {
    if byte_at(s, i) == Some(42u8) {
        match (if byte_at(s, i + 1) == Some(47u8) {
            step_at::<DayOfWeek>(s, i + 2)
        } else {
            None
        }) {
            Some((st, j)) => dow_list(
                list_after(
                    s,
                    OrsExpr::Step {
                        start: DayOfWeek::from_raw(1),
                        end: DayOfWeek::from_raw(7),
                        step: st,
                    },
                    j,
                ),
            ),
            None => Some((DowView::All, i + 1)),
        }
    } else if byte_at(s, i) == Some(76u8) {
        Some((DowView::Many(OrsExpr::One(DayOfWeek::from_raw(7)), Seq::empty()), i + 1))
    } else {
        match DayOfWeek::atom_at(s, i) {
            None => None,
            Some((day, j)) => if byte_at(s, j) == Some(76u8) {
                Some((DowView::Last(day), j + 1))
            } else if byte_at(s, j) == Some(35u8) {
                match NthDay::atom_at(s, j + 1) {
                    Some((n, k)) => Some((DowView::Nth(day, n), k)),
                    None => None,
                }
            } else {
                dow_list(list_from(s, day, j))
            },
        }
    }
}

/// One or more spaces or tabs at `i`, and the position after them.
pub open spec fn space_at(s: Seq<u8>, i: int) -> Option<int> {
    if spaces_end(s, i) > i {
        Some(spaces_end(s, i))
    } else {
        None
    }
}

/// The whole text as a cron expression: five fields separated by spaces, nothing after them.
pub open spec fn cron_at(s: Seq<u8>) -> Option<CronView> {
    match field_at::<Minute>(s, 0) {
        None => None,
        Some((minutes, i1)) => match space_at(s, i1) {
            None => None,
            Some(j1) => match field_at::<Hour>(s, j1) {
                None => None,
                Some((hours, i2)) => match space_at(s, i2) {
                    None => None,
                    Some(j2) => match dom_at(s, j2) {
                        None => None,
                        Some((doms, i3)) => match space_at(s, i3) {
                            None => None,
                            Some(j3) => match field_at::<Month>(s, j3) {
                                None => None,
                                Some((months, i4)) => match space_at(s, i4) {
                                    None => None,
                                    Some(j4) => match dow_at(s, j4) {
                                        Some((dows, i5)) => if i5 == s.len() {
                                            Some(CronView { minutes, hours, doms, months, dows })
                                        } else {
                                            None
                                        },
                                        None => None,
                                    },
                                },
                            },
                        },
                    },
                },
            },
        },
    }
}

} // verus!

verus! {

/// Reads a step length at `i`.
fn parse_step<E: ExprValue>(s: &[u8], i: usize) -> (r: Option<(Step<E>, usize)>)
    requires
        i <= s@.len(),
    ensures
        match r {
            Some((st, j)) => step_at::<E>(s@, i as int) == Some((st, j as int)) && i < j <= s@.len(),
            None => step_at::<E>(s@, i as int) is None,
        },
{
    match number(s, i) {
        Some((v, j)) => match Step::<E>::new(v) {
            Ok(st) => Some((st, j)),
            Err(_) => None,
        },
        None => None,
    }
}

/// Reads one value, range or step at `i`.
fn parse_ors<E: ExprValue>(s: &[u8], i: usize) -> (r: Option<(OrsExpr<E>, usize)>)
    requires
        i <= s@.len(),
    ensures
        match r {
            Some((e, j)) => ors_at::<E>(s@, i as int) == Some((e, j as int)) && i < j <= s@.len(),
            None => ors_at::<E>(s@, i as int) is None,
        },
{
    let (v, j) = match E::parse_atom(s, i) {
        Some(x) => x,
        None => if is_at(s, i, 42) {
            (E::min(), i + 1)
        } else {
            return None;
        },
    };
    if is_at(s, j, 47) {
        match parse_step::<E>(s, j + 1) {
            Some((st, k)) => Some((OrsExpr::Step { start: v, end: E::max(), step: st }, k)),
            None => None,
        }
    } else if is_at(s, j, 45) {
        match E::parse_atom(s, j + 1) {
            None => None,
            Some((e, k)) => if is_at(s, k, 47) {
                match parse_step::<E>(s, k + 1) {
                    Some((st, l)) => Some((OrsExpr::Step { start: v, end: e, step: st }, l)),
                    None => None,
                }
            } else {
                Some((OrsExpr::Range(v, e), k))
            },
        }
    } else {
        Some((OrsExpr::One(v), j))
    }
}

/// Reads the comma-separated expressions that follow at `i`.
fn parse_tail<E: ExprValue>(s: &[u8], i: usize) -> (r: Option<(Vec<OrsExpr<E>>, usize)>)
    requires
        i <= s@.len(),
    ensures
        match r {
            Some((v, j)) => tail_at::<E>(s@, i as int) == Some((v@, j as int)) && i <= j <= s@.len(),
            None => tail_at::<E>(s@, i as int) is None,
        },
{
    let mut v: Vec<OrsExpr<E>> = Vec::new();
    let mut k = i;
    while is_at(s, k, 44)
        invariant
            i <= k <= s@.len(),
            tail_at::<E>(s@, i as int) == match tail_at::<E>(s@, k as int) {
                Some((rest, m)) => Some((v@ + rest, m)),
                None => None,
            },
        decreases s@.len() - k,
    {
        match parse_ors::<E>(s, k + 1) {
            None => return None,
            Some((e, j)) => {
                proof {
                    assert forall|rest: Seq<OrsExpr<E>>| #[trigger] (v@.push(e) + rest) == v@ + (seq![e] + rest) by {
                        assert((v@.push(e) + rest) =~= v@ + (seq![e] + rest));
                    }
                }
                v.push(e);
                k = j;
            },
        }
    }
    proof {
        assert(v@ + Seq::<OrsExpr<E>>::empty() =~= v@);
    }
    Some((v, k))
}

/// Reads the rest of a list whose first expression ends at `j`.
fn parse_list_after<E: ExprValue>(s: &[u8], first: OrsExpr<E>, j: usize) -> (r: Option<(Exprs<E>, usize)>)
    requires
        j <= s@.len(),
    ensures
        match r {
            Some((es, k)) => list_after(s@, first, j as int) == Some(
                (ExprView::Many(es.first, es.tail@), k as int),
            ) && j <= k <= s@.len(),
            None => list_after(s@, first, j as int) is None,
        },
{
    match parse_tail::<E>(s, j) {
        Some((tail, k)) => Some((Exprs { first, tail }, k)),
        None => None,
    }
}

/// Reads a minute, hour or month field at `i`.
fn parse_field<E: ExprValue>(s: &[u8], i: usize) -> (r: Option<(Expr<E>, usize)>)
    requires
        i <= s@.len(),
    ensures
        match r {
            Some((e, j)) => field_at::<E>(s@, i as int) == Some((e@, j as int)) && i < j <= s@.len(),
            None => field_at::<E>(s@, i as int) is None,
        },
{
    if is_at(s, i, 42) {
        if is_at(s, i + 1, 47) {
            match parse_step::<E>(s, i + 2) {
                Some((st, j)) => {
                    let first = OrsExpr::Step { start: E::min(), end: E::max(), step: st };
                    match parse_list_after(s, first, j) {
                        Some((es, k)) => Some((Expr::Many(es), k)),
                        None => None,
                    }
                },
                None => None,
            }
        } else {
            Some((Expr::All, i + 1))
        }
    } else {
        match parse_ors::<E>(s, i) {
            Some((e, j)) => match parse_list_after(s, e, j) {
                Some((es, k)) => Some((Expr::Many(es), k)),
                None => None,
            },
            None => None,
        }
    }
}

/// Reads, after a first value `day` ending at `j`, a range, a step or a plain value and then the
/// rest of the list.
fn parse_list_from<E: ExprValue>(s: &[u8], day: E, j: usize) -> (r: Option<(Exprs<E>, usize)>)
    requires
        j <= s@.len(),
    ensures
        match r {
            Some((es, k)) => list_from(s@, day, j as int) == Some(
                (ExprView::Many(es.first, es.tail@), k as int),
            ) && j <= k <= s@.len(),
            None => list_from(s@, day, j as int) is None,
        },
{
    if is_at(s, j, 45) {
        match E::parse_atom(s, j + 1) {
            None => None,
            Some((end, k)) => if is_at(s, k, 47) {
                match parse_step::<E>(s, k + 1) {
                    Some((st, l)) => parse_list_after(s, OrsExpr::Step { start: day, end, step: st }, l),
                    None => None,
                }
            } else {
                parse_list_after(s, OrsExpr::Range(day, end), k)
            },
        }
    } else if is_at(s, j, 47) {
        match parse_step::<E>(s, j + 1) {
            Some((st, l)) => parse_list_after(s, OrsExpr::Step { start: day, end: E::max(), step: st }, l),
            None => None,
        }
    } else {
        parse_list_after(s, OrsExpr::One(day), j)
    }
}

/// Reads a day-of-month field at `i`.
fn parse_dom(s: &[u8], i: usize) -> (r: Option<(DayOfMonthExpr, usize)>)
    requires
        i <= s@.len(),
    ensures
        match r {
            Some((e, j)) => dom_at(s@, i as int) == Some((e@, j as int)) && i < j <= s@.len(),
            None => dom_at(s@, i as int) is None,
        },
{
    if is_at(s, i, 42) {
        let step = if is_at(s, i + 1, 47) {
            parse_step::<DayOfMonth>(s, i + 2)
        } else {
            None
        };
        match step {
            Some((st, j)) => {
                let first = OrsExpr::Step {
                    start: <DayOfMonth as ExprValue>::min(),
                    end: <DayOfMonth as ExprValue>::max(),
                    step: st,
                };
                match parse_list_after(s, first, j) {
                    Some((es, k)) => Some((DayOfMonthExpr::Many(es), k)),
                    None => None,
                }
            },
            None => Some((DayOfMonthExpr::All, i + 1)),
        }
    } else if is_at(s, i, 76) {
        if is_at(s, i + 1, 45) {
            match DayOfMonthOffset::parse_atom(s, i + 2) {
                None => None,
                Some((o, j)) => if is_at(s, j, 87) {
                    Some((DayOfMonthExpr::Last(Last::OffsetWeekday(o)), j + 1))
                } else {
                    Some((DayOfMonthExpr::Last(Last::Offset(o)), j))
                },
            }
        } else if is_at(s, i + 1, 87) {
            Some((DayOfMonthExpr::Last(Last::Weekday), i + 2))
        } else {
            Some((DayOfMonthExpr::Last(Last::Day), i + 1))
        }
    } else {
        match DayOfMonth::parse_atom(s, i) {
            None => None,
            Some((day, j)) => if is_at(s, j, 87) {
                Some((DayOfMonthExpr::ClosestWeekday(day), j + 1))
            } else {
                match parse_list_from(s, day, j) {
                    Some((es, k)) => Some((DayOfMonthExpr::Many(es), k)),
                    None => None,
                }
            },
        }
    }
}

/// Reads a day-of-week field at `i`.
fn parse_dow(s: &[u8], i: usize) -> (r: Option<(DayOfWeekExpr, usize)>)
    requires
        i <= s@.len(),
    ensures
        match r {
            Some((e, j)) => dow_at(s@, i as int) == Some((e@, j as int)) && i < j <= s@.len(),
            None => dow_at(s@, i as int) is None,
        },
{
    if is_at(s, i, 42) {
        let step = if is_at(s, i + 1, 47) {
            parse_step::<DayOfWeek>(s, i + 2)
        } else {
            None
        };
        match step {
            Some((st, j)) => {
                let first = OrsExpr::Step {
                    start: <DayOfWeek as ExprValue>::min(),
                    end: <DayOfWeek as ExprValue>::max(),
                    step: st,
                };
                match parse_list_after(s, first, j) {
                    Some((es, k)) => Some((DayOfWeekExpr::Many(es), k)),
                    None => None,
                }
            },
            None => Some((DayOfWeekExpr::All, i + 1)),
        }
    } else if is_at(s, i, 76) {
        let sat = <DayOfWeek as ExprValue>::max();
        let es = Exprs::new(OrsExpr::One(sat));
        proof {
            assert(es.tail@ =~= Seq::<OrsExpr<DayOfWeek>>::empty());
        }
        Some((DayOfWeekExpr::Many(es), i + 1))
    } else {
        match DayOfWeek::parse_atom(s, i) {
            None => None,
            Some((day, j)) => if is_at(s, j, 76) {
                Some((DayOfWeekExpr::Last(day), j + 1))
            } else if is_at(s, j, 35) {
                match NthDay::parse_atom(s, j + 1) {
                    Some((n, k)) => Some((DayOfWeekExpr::Nth(day, n), k)),
                    None => None,
                }
            } else {
                match parse_list_from(s, day, j) {
                    Some((es, k)) => Some((DayOfWeekExpr::Many(es), k)),
                    None => None,
                }
            },
        }
    }
}

/// Skips one or more spaces or tabs at `i`.
fn parse_space(s: &[u8], i: usize) -> (r: Option<usize>)
    requires
        i <= s@.len(),
    ensures
        match r {
            Some(j) => space_at(s@, i as int) == Some(j as int) && j <= s@.len(),
            None => space_at(s@, i as int) is None,
        },
{
    let mut j = i;
    while j < s.len() && (s[j] == 32 || s[j] == 9)
        invariant
            i <= j <= s@.len(),
            spaces_end(s@, i as int) == spaces_end(s@, j as int),
        decreases s@.len() - j,
    {
        j = j + 1;
    }
    if j > i {
        Some(j)
    } else {
        None
    }
}

/// Parses the text of a cron expression: five fields separated by spaces or tabs, with nothing
/// before or after them. Fails on any malformed field or out-of-range value.
pub fn parse_cron_expr(text: &str) -> (r: Result<CronExpr, CronParseError>)
    ensures
        match r {
            Ok(e) => cron_at(text.spec_bytes()) == Some(e@),
            Err(_) => cron_at(text.spec_bytes()) is None,
        },
{
    let s = text.as_bytes();
    let (minutes, i1) = match parse_field::<Minute>(s, 0) {
        Some(x) => x,
        None => return Err(CronParseError),
    };
    let j1 = match parse_space(s, i1) {
        Some(x) => x,
        None => return Err(CronParseError),
    };
    let (hours, i2) = match parse_field::<Hour>(s, j1) {
        Some(x) => x,
        None => return Err(CronParseError),
    };
    let j2 = match parse_space(s, i2) {
        Some(x) => x,
        None => return Err(CronParseError),
    };
    let (doms, i3) = match parse_dom(s, j2) {
        Some(x) => x,
        None => return Err(CronParseError),
    };
    let j3 = match parse_space(s, i3) {
        Some(x) => x,
        None => return Err(CronParseError),
    };
    let (months, i4) = match parse_field::<Month>(s, j3) {
        Some(x) => x,
        None => return Err(CronParseError),
    };
    let j4 = match parse_space(s, i4) {
        Some(x) => x,
        None => return Err(CronParseError),
    };
    let (dows, i5) = match parse_dow(s, j4) {
        Some(x) => x,
        None => return Err(CronParseError),
    };
    if i5 != s.len() {
        return Err(CronParseError);
    }
    Ok(CronExpr { minutes, hours, doms, months, dows })
}

} // verus!

verus! {

/// Parses a minute field at the start of the text; returns it with the position where it
/// ends.
pub fn minutes_expr(text: &str) -> (r: Result<(usize, Expr<Minute>), CronParseError>)
    ensures
        match r {
            Ok((j, e)) => field_at::<Minute>(text.spec_bytes(), 0) == Some((e@, j as int)),
            Err(_) => field_at::<Minute>(text.spec_bytes(), 0) is None,
        },
{
    match parse_field::<Minute>(text.as_bytes(), 0) {
        Some((e, j)) => Ok((j, e)),
        None => Err(CronParseError),
    }
}

/// Parses an hour field at the start of the text; returns it with the position where it ends.
pub fn hours_expr(text: &str) -> (r: Result<(usize, Expr<Hour>), CronParseError>)
    ensures
        match r {
            Ok((j, e)) => field_at::<Hour>(text.spec_bytes(), 0) == Some((e@, j as int)),
            Err(_) => field_at::<Hour>(text.spec_bytes(), 0) is None,
        },
{
    match parse_field::<Hour>(text.as_bytes(), 0) {
        Some((e, j)) => Ok((j, e)),
        None => Err(CronParseError),
    }
}

/// Parses a month field at the start of the text; returns it with the position where it ends.
pub fn months_expr(text: &str) -> (r: Result<(usize, Expr<Month>), CronParseError>)
    ensures
        match r {
            Ok((j, e)) => field_at::<Month>(text.spec_bytes(), 0) == Some((e@, j as int)),
            Err(_) => field_at::<Month>(text.spec_bytes(), 0) is None,
        },
{
    match parse_field::<Month>(text.as_bytes(), 0) {
        Some((e, j)) => Ok((j, e)),
        None => Err(CronParseError),
    }
}

/// Parses a day-of-month field at the start of the text; returns it with the position where it
/// ends.
pub fn dom_expr(text: &str) -> (r: Result<(usize, DayOfMonthExpr), CronParseError>)
    ensures
        match r {
            Ok((j, e)) => dom_at(text.spec_bytes(), 0) == Some((e@, j as int)),
            Err(_) => dom_at(text.spec_bytes(), 0) is None,
        },
{
    match parse_dom(text.as_bytes(), 0) {
        Some((e, j)) => Ok((j, e)),
        None => Err(CronParseError),
    }
}

/// Parses a day-of-week field at the start of the text; returns it with the position where it
/// ends.
pub fn dow_expr(text: &str) -> (r: Result<(usize, DayOfWeekExpr), CronParseError>)
    ensures
        match r {
            Ok((j, e)) => dow_at(text.spec_bytes(), 0) == Some((e@, j as int)),
            Err(_) => dow_at(text.spec_bytes(), 0) is None,
        },
{
    match parse_dow(text.as_bytes(), 0) {
        Some((e, j)) => Ok((j, e)),
        None => Err(CronParseError),
    }
}

impl core::str::FromStr for CronExpr {
    type Err = CronParseError;

    fn from_str(s: &str) -> Result<CronExpr, CronParseError> {
        parse_cron_expr(s)
    }
}

} // verus!
