use saffron::{
    CronParseError, DayOfMonthExpr, DayOfWeekExpr, Expr, ExprValue, Exprs, Hour, Last, Minute,
    Month, OrsExpr,
};
use std::fmt::Debug;

fn exprs<E: ExprValue, I>(iter: I) -> Exprs<E>
where
    I: IntoIterator<Item = OrsExpr<E>>,
{
    let mut iter = iter.into_iter();
    let first = iter.next().expect("Iterator must have at least one item");
    let tail = iter.collect();
    Exprs { first, tail }
}

fn e<E>(value: u8) -> E
where
    E: TryFrom<u8>,
    E::Error: Debug,
{
    E::try_from(value).unwrap()
}

fn o<E: ExprValue>(value: u8) -> OrsExpr<E>
where
    E: TryFrom<u8>,
    E::Error: Debug,
{
    OrsExpr::One(e(value))
}

fn r<E: ExprValue>(start: u8, end: u8) -> OrsExpr<E>
where
    E: TryFrom<u8>,
    E::Error: Debug,
{
    let start = e(start);
    let end = e(end);
    OrsExpr::Range(start, end)
}

fn s<E>(value: u8, step: u8) -> OrsExpr<E>
where
    E: TryFrom<u8> + ExprValue,
    E::Error: Debug,
{
    let start = e(value);
    let step = e(step);
    OrsExpr::Step { start, end: E::max(), step }
}

fn rs<E>(start: u8, end: u8, step: u8) -> OrsExpr<E>
where
    E: TryFrom<u8> + ExprValue,
    E::Error: Debug,
{
    let start = e(start);
    let end = e(end);
    let step = e(step);
    OrsExpr::Step { start, end, step }
}

fn minutes_expr(s: &str) -> Result<(&str, Expr<Minute>), CronParseError> {
    saffron::minutes_expr(s).map(|(j, e)| (&s[j..], e))
}

fn hours_expr(s: &str) -> Result<(&str, Expr<Hour>), CronParseError> {
    saffron::hours_expr(s).map(|(j, e)| (&s[j..], e))
}

fn months_expr(s: &str) -> Result<(&str, Expr<Month>), CronParseError> {
    saffron::months_expr(s).map(|(j, e)| (&s[j..], e))
}

fn dom_expr(s: &str) -> Result<(&str, DayOfMonthExpr), CronParseError> {
    saffron::dom_expr(s).map(|(j, e)| (&s[j..], e))
}

fn dow_expr(s: &str) -> Result<(&str, DayOfWeekExpr), CronParseError> {
    saffron::dow_expr(s).map(|(j, e)| (&s[j..], e))
}

#[test]
fn minutes_all() {
        assert_eq!(minutes_expr("*"), Ok(("", Expr::All)))
}

#[test]
fn minutes_only_match_first_star() {
        // make sure we only match the first star.
        // it'll fail on the next parser
        assert_eq!(minutes_expr("*,*"), Ok((",*", Expr::All)))
}

#[test]
fn minutes_star_step() {
        assert_eq!(
            minutes_expr("*/5"),
            Ok(("", Expr::Many(exprs(vec![s(0, 5)]))))
        )
}

#[test]
fn minutes_multi_star_step() {
        assert_eq!(
            minutes_expr("*/5,*/3"),
            Ok(("", Expr::Many(exprs(vec![s(0, 5), s(0, 3)]))))
        )
}

#[test]
fn minutes_star_range_doesnt_make_sense() {
        // make sure we only match the first star.
        // it'll fail on the next parser
        assert_eq!(minutes_expr("*-30/5,*/3"), Ok(("-30/5,*/3", Expr::All)))
}

#[test]
fn minutes_one_value() {
        assert_eq!(minutes_expr("0"), Ok(("", Expr::Many(exprs(vec![o(0)])))))
}

#[test]
fn minutes_many_one_value() {
        assert_eq!(
            minutes_expr("5,15,25,35,45,55"),
            Ok((
                "",
                Expr::Many(exprs(vec![o(5), o(15), o(25), o(35), o(45), o(55)]))
            ))
        )
}

#[test]
fn minutes_one_range() {
        assert_eq!(
            minutes_expr("0-30"),
            Ok(("", Expr::Many(exprs(vec![r(0, 30)]))))
        )
}

#[test]
fn minutes_overflow_range() {
        assert_eq!(
            minutes_expr("50-10"),
            Ok(("", Expr::Many(exprs(vec![r(50, 10)]))))
        )
}

#[test]
fn minutes_many_range() {
        assert_eq!(
            minutes_expr("0-5,10-15,20-25,30-35,40-45,50-55"),
            Ok((
                "",
                Expr::Many(exprs(vec![
                    r(0, 5),
                    r(10, 15),
                    r(20, 25),
                    r(30, 35),
                    r(40, 45),
                    r(50, 55)
                ]))
            ))
        )
}

#[test]
fn minutes_step() {
        assert_eq!(
            minutes_expr("0/5"),
            Ok(("", Expr::Many(exprs(vec![s(0, 5)]))))
        )
}

#[test]
fn minutes_step_with_star_step() {
        assert_eq!(
            minutes_expr("1/3,*/5"),
            Ok(("", Expr::Many(exprs(vec![s(1, 3), s(0, 5)]))))
        )
}

#[test]
fn minutes_many_steps() {
        assert_eq!(
            minutes_expr("1/3,2/3,5/10"),
            Ok(("", Expr::Many(exprs(vec![s(1, 3), s(2, 3), s(5, 10)]))))
        )
}

#[test]
fn minutes_range_step() {
        assert_eq!(
            minutes_expr("0-30/5"),
            Ok(("", Expr::Many(exprs(vec![rs(0, 30, 5)]))))
        )
}

#[test]
fn minutes_many_range_step() {
        assert_eq!(
            minutes_expr("0-30/5,30-59/3"),
            Ok(("", Expr::Many(exprs(vec![rs(0, 30, 5), rs(30, 59, 3)]))))
        )
}

#[test]
fn minutes_values_ranges_steps_and_ranges() {
        assert_eq!(
            minutes_expr("0,5-10,10-30/3,30/3"),
            Ok((
                "",
                Expr::Many(exprs(vec![o(0), r(5, 10), rs(10, 30, 3), s(30, 3)]))
            ))
        )
}

#[test]
fn minutes_limits() {
        assert!(matches!(minutes_expr("60"), Err(_)));
        assert!(matches!(minutes_expr("0-60"), Err(_)));
        // a step greater than the max value is not allowed (since it doesn't make sense)
        assert!(matches!(minutes_expr("0/60"), Err(_)));
        assert!(matches!(minutes_expr("0-60/5"), Err(_)));
        // a step of 0 is not allowed (since it doesn't make sense)
        assert!(matches!(minutes_expr("0/0"), Err(_)));
        assert!(matches!(minutes_expr("0-59/0"), Err(_)));
}

#[test]
fn hours_all() {
        assert_eq!(hours_expr("*"), Ok(("", Expr::All)))
}

#[test]
fn hours_only_match_first_star() {
        // make sure we only match the first star.
        // it'll fail on the next parser
        assert_eq!(hours_expr("*,*"), Ok((",*", Expr::All)))
}

#[test]
fn hours_star_step() {
        assert_eq!(
            hours_expr("*/3"),
            Ok(("", Expr::Many(exprs(vec![s(0, 3)]))))
        )
}

#[test]
fn hours_multi_star_step() {
        assert_eq!(
            hours_expr("*/3,*/4"),
            Ok(("", Expr::Many(exprs(vec![s(0, 3), s(0, 4)]))))
        )
}

#[test]
fn hours_star_range_doesnt_make_sense() {
        // make sure we only match the first star.
        // it'll fail on the next parser
        assert_eq!(hours_expr("*-6/3,*/4"), Ok(("-6/3,*/4", Expr::All)))
}

#[test]
fn hours_one_value() {
        assert_eq!(hours_expr("0"), Ok(("", Expr::Many(exprs(vec![o(0)])))))
}

#[test]
fn hours_many_one_value() {
        assert_eq!(
            hours_expr("0,3,6,9,12,15,18,21"),
            Ok((
                "",
                Expr::Many(exprs(vec![
                    o(0),
                    o(3),
                    o(6),
                    o(9),
                    o(12),
                    o(15),
                    o(18),
                    o(21)
                ]))
            ))
        )
}

#[test]
fn hours_one_range() {
        assert_eq!(
            hours_expr("0-12"),
            Ok(("", Expr::Many(exprs(vec![r(0, 12)]))))
        )
}

#[test]
fn hours_overflow_range() {
        assert_eq!(
            hours_expr("22-2"),
            Ok(("", Expr::Many(exprs(vec![r(22, 2)]))))
        )
}

#[test]
fn hours_many_range() {
        assert_eq!(
            hours_expr("0-3,6-9,12-15,18-21"),
            Ok((
                "",
                Expr::Many(exprs(vec![r(0, 3), r(6, 9), r(12, 15), r(18, 21)]))
            ))
        )
}

#[test]
fn hours_step() {
        assert_eq!(
            hours_expr("0/3"),
            Ok(("", Expr::Many(exprs(vec![s(0, 3)]))))
        )
}

#[test]
fn hours_step_with_star_step() {
        assert_eq!(
            hours_expr("1/2,*/4"),
            Ok(("", Expr::Many(exprs(vec![s(1, 2), s(0, 4)]))))
        )
}

#[test]
fn hours_many_steps() {
        assert_eq!(
            hours_expr("1/2,2/3,3/4"),
            Ok(("", Expr::Many(exprs(vec![s(1, 2), s(2, 3), s(3, 4)]))))
        )
}

#[test]
fn hours_range_step() {
        assert_eq!(
            hours_expr("0-12/4"),
            Ok(("", Expr::Many(exprs(vec![rs(0, 12, 4)]))))
        )
}

#[test]
fn hours_many_range_step() {
        assert_eq!(
            hours_expr("0-12/4,12-23/3"),
            Ok(("", Expr::Many(exprs(vec![rs(0, 12, 4), rs(12, 23, 3)]))))
        )
}

#[test]
fn hours_values_ranges_steps_and_ranges() {
        assert_eq!(
            hours_expr("0,0-6/3,6-12,12/3"),
            Ok((
                "",
                Expr::Many(exprs(vec![o(0), rs(0, 6, 3), r(6, 12), s(12, 3)]))
            ))
        )
}

#[test]
fn hours_limits() {
        assert!(matches!(hours_expr("24"), Err(_)));
        assert!(matches!(hours_expr("0-24"), Err(_)));
        // a step greater than the max value is not allowed (since it doesn't make sense)
        assert!(matches!(hours_expr("0/24"), Err(_)));
        assert!(matches!(hours_expr("0-24/2"), Err(_)));
        // a step of 0 is not allowed (since it doesn't make sense)
        assert!(matches!(hours_expr("0/0"), Err(_)));
        assert!(matches!(hours_expr("0-23/0"), Err(_)));
}

#[test]
fn months_all() {
        assert_eq!(months_expr("*"), Ok(("", Expr::All)))
}

#[test]
fn months_only_match_first_star() {
        // make sure we only match the first star.
        // it'll fail on the next parser
        assert_eq!(months_expr("*,*"), Ok((",*", Expr::All)))
}

#[test]
fn months_star_step() {
        assert_eq!(
            months_expr("*/3"),
            Ok(("", Expr::Many(exprs(vec![s(1, 3)]))))
        )
}

#[test]
fn months_multi_star_step() {
        assert_eq!(
            months_expr("*/3,*/4"),
            Ok(("", Expr::Many(exprs(vec![s(1, 3), s(1, 4)]))))
        )
}

#[test]
fn months_star_range_doesnt_make_sense() {
        // make sure we only match the first star.
        // it'll fail on the next parser
        assert_eq!(months_expr("*-6/3,*/4"), Ok(("-6/3,*/4", Expr::All)))
}

#[test]
fn months_one_value() {
        assert_eq!(months_expr("1"), Ok(("", Expr::Many(exprs(vec![o(1)])))))
}

#[test]
fn months_word_values() {
        // caps
        assert_eq!(months_expr("JAN"), Ok(("", Expr::Many(exprs(vec![o(1)])))));
        assert_eq!(months_expr("FEB"), Ok(("", Expr::Many(exprs(vec![o(2)])))));
        assert_eq!(months_expr("MAR"), Ok(("", Expr::Many(exprs(vec![o(3)])))));
        assert_eq!(months_expr("APR"), Ok(("", Expr::Many(exprs(vec![o(4)])))));

        // lower
        assert_eq!(months_expr("may"), Ok(("", Expr::Many(exprs(vec![o(5)])))));
        assert_eq!(months_expr("jun"), Ok(("", Expr::Many(exprs(vec![o(6)])))));
        assert_eq!(months_expr("jul"), Ok(("", Expr::Many(exprs(vec![o(7)])))));
        assert_eq!(months_expr("aug"), Ok(("", Expr::Many(exprs(vec![o(8)])))));

        // mixed
        assert_eq!(months_expr("sEp"), Ok(("", Expr::Many(exprs(vec![o(9)])))));
        assert_eq!(months_expr("ocT"), Ok(("", Expr::Many(exprs(vec![o(10)])))));
        assert_eq!(months_expr("NOv"), Ok(("", Expr::Many(exprs(vec![o(11)])))));
        assert_eq!(months_expr("Dec"), Ok(("", Expr::Many(exprs(vec![o(12)])))));
}

#[test]
fn months_many_one_value() {
        assert_eq!(
            months_expr("1,MAR,6,SEP,12"),
            Ok(("", Expr::Many(exprs(vec![o(1), o(3), o(6), o(9), o(12)]))))
        )
}

#[test]
fn months_one_range() {
        assert_eq!(
            months_expr("1-12"),
            Ok(("", Expr::Many(exprs(vec![r(1, 12)]))))
        );
        assert_eq!(
            months_expr("JAN-DEC"),
            Ok(("", Expr::Many(exprs(vec![r(1, 12)]))))
        )
}

#[test]
fn months_overflow_range() {
        assert_eq!(
            months_expr("11-FEB"),
            Ok(("", Expr::Many(exprs(vec![r(11, 2)]))))
        );
        assert_eq!(
            months_expr("NOV-2"),
            Ok(("", Expr::Many(exprs(vec![r(11, 2)]))))
        )
}

#[test]
fn months_many_range() {
        assert_eq!(
            months_expr("1-MAR,MAY-7,SEP-11"),
            Ok(("", Expr::Many(exprs(vec![r(1, 3), r(5, 7), r(9, 11)]))))
        )
}

#[test]
fn months_step() {
        assert_eq!(
            months_expr("1/3"),
            Ok(("", Expr::Many(exprs(vec![s(1, 3)]))))
        )
}

#[test]
fn months_step_with_star_step() {
        assert_eq!(
            months_expr("2/2,*/4"),
            Ok(("", Expr::Many(exprs(vec![s(2, 2), s(1, 4)]))))
        )
}

#[test]
fn months_many_steps() {
        assert_eq!(
            months_expr("1/2,FEB/3,3/4"),
            Ok(("", Expr::Many(exprs(vec![s(1, 2), s(2, 3), s(3, 4)]))))
        )
}

#[test]
fn months_range_step() {
        assert_eq!(
            months_expr("1-DEC/4"),
            Ok(("", Expr::Many(exprs(vec![rs(1, 12, 4)]))))
        )
}

#[test]
fn months_many_range_step() {
        assert_eq!(
            months_expr("1-JUN/4,JUN-12/3"),
            Ok(("", Expr::Many(exprs(vec![rs(1, 6, 4), rs(6, 12, 3)]))))
        )
}

#[test]
fn months_values_ranges_steps_and_ranges() {
        assert_eq!(
            months_expr("1,JAN-6/3,JUN-12,DEC/3"),
            Ok((
                "",
                Expr::Many(exprs(vec![o(1), rs(1, 6, 3), r(6, 12), s(12, 3)]))
            ))
        )
}

#[test]
fn months_limits() {
        assert!(matches!(months_expr("0"), Err(_)));
        assert!(matches!(months_expr("13"), Err(_)));
        assert!(matches!(months_expr("0-12"), Err(_)));
        assert!(matches!(months_expr("1-13"), Err(_)));
        // a step greater than the max value is not allowed (since it doesn't make sense)
        assert!(matches!(months_expr("1/13"), Err(_)));
        assert!(matches!(months_expr("1-13/2"), Err(_)));
        assert!(matches!(months_expr("0/12"), Err(_)));
        assert!(matches!(months_expr("0-12/2"), Err(_)));
        // a step of 0 is not allowed (since it doesn't make sense)
        assert!(matches!(months_expr("1/0"), Err(_)));
        assert!(matches!(months_expr("1-12/0"), Err(_)));
}

#[test]
fn dom_all() {
        assert_eq!(dom_expr("*"), Ok(("", DayOfMonthExpr::All)))
}

#[test]
fn dom_only_match_first_star() {
        // make sure we only match the first star.
        // it'll fail on the next parser
        assert_eq!(dom_expr("*,*"), Ok((",*", DayOfMonthExpr::All)))
}

#[test]
fn dom_last() {
        assert_eq!(dom_expr("L"), Ok(("", DayOfMonthExpr::Last(Last::Day))))
}

#[test]
fn dom_last_weekday() {
        assert_eq!(
            dom_expr("LW"),
            Ok(("", DayOfMonthExpr::Last(Last::Weekday)))
        )
}

#[test]
fn dom_last_offset() {
        assert_eq!(
            dom_expr("L-3"),
            Ok(("", DayOfMonthExpr::Last(Last::Offset(e(3)))))
        )
}

#[test]
fn dom_last_offset_limit() {
        assert!(matches!(dom_expr("L-0"), Err(_)));
        assert!(matches!(dom_expr("L-31"), Err(_)));
        assert!(matches!(dom_expr("L-0W"), Err(_)));
        assert!(matches!(dom_expr("L-31W"), Err(_)));
}

#[test]
fn dom_last_offset_weekday() {
        assert_eq!(
            dom_expr("L-3W"),
            Ok(("", DayOfMonthExpr::Last(Last::OffsetWeekday(e(3)))))
        )
}

#[test]
fn dom_last_with_other_exprs() {
        assert!(matches!(dom_expr("3,L"), Err(_)))
}

#[test]
fn dom_closest_weekday() {
        assert_eq!(
            dom_expr("1W"),
            Ok(("", DayOfMonthExpr::ClosestWeekday(e(1))))
        )
}

#[test]
fn dom_closest_weekday_with_other_exprs() {
        // make sure we only match the 1W.
        // it'll fail on the next parser
        assert_eq!(
            dom_expr("1W,3"),
            Ok((",3", DayOfMonthExpr::ClosestWeekday(e(1))))
        )
}

#[test]
fn dom_star_step() {
        assert_eq!(
            dom_expr("*/3"),
            Ok(("", DayOfMonthExpr::Many(exprs(vec![s(1, 3)]))))
        )
}

#[test]
fn dom_multi_star_step() {
        assert_eq!(
            dom_expr("*/3,*/4"),
            Ok(("", DayOfMonthExpr::Many(exprs(vec![s(1, 3), s(1, 4)]))))
        )
}

#[test]
fn dom_star_range_doesnt_make_sense() {
        // make sure we only match the first star.
        // it'll fail on the next parser
        assert_eq!(dom_expr("*-6/3,*/4"), Ok(("-6/3,*/4", DayOfMonthExpr::All)))
}

#[test]
fn dom_one_value() {
        assert_eq!(
            dom_expr("1"),
            Ok(("", DayOfMonthExpr::Many(exprs(vec![o(1)]))))
        )
}

#[test]
fn dom_many_one_value() {
        assert_eq!(
            dom_expr("1,4,7,10,13,16,19,22,25,28,31"),
            Ok((
                "",
                DayOfMonthExpr::Many(exprs(vec![
                    o(1),
                    o(4),
                    o(7),
                    o(10),
                    o(13),
                    o(16),
                    o(19),
                    o(22),
                    o(25),
                    o(28),
                    o(31),
                ]))
            ))
        )
}

#[test]
fn dom_one_range() {
        assert_eq!(
            dom_expr("1-15"),
            Ok(("", DayOfMonthExpr::Many(exprs(vec![r(1, 15)]))))
        )
}

#[test]
fn dom_overflow_range() {
        assert_eq!(
            dom_expr("30-1"),
            Ok(("", DayOfMonthExpr::Many(exprs(vec![r(30, 1)]))))
        )
}

#[test]
fn dom_many_range() {
        assert_eq!(
            dom_expr("1-4,5-8,9-12,13-15"),
            Ok((
                "",
                DayOfMonthExpr::Many(exprs(vec![r(1, 4), r(5, 8), r(9, 12), r(13, 15)]))
            ))
        )
}

#[test]
fn dom_step() {
        assert_eq!(
            dom_expr("1/3"),
            Ok(("", DayOfMonthExpr::Many(exprs(vec![s(1, 3)]))))
        )
}

#[test]
fn dom_step_with_star_step() {
        assert_eq!(
            dom_expr("2/2,*/4"),
            Ok(("", DayOfMonthExpr::Many(exprs(vec![s(2, 2), s(1, 4)]))))
        )
}

#[test]
fn dom_many_steps() {
        assert_eq!(
            dom_expr("1/2,2/3,3/4"),
            Ok((
                "",
                DayOfMonthExpr::Many(exprs(vec![s(1, 2), s(2, 3), s(3, 4)]))
            ))
        )
}

#[test]
fn dom_range_step() {
        assert_eq!(
            dom_expr("1-15/4"),
            Ok(("", DayOfMonthExpr::Many(exprs(vec![rs(1, 15, 4)]))))
        )
}

#[test]
fn dom_many_range_step() {
        assert_eq!(
            dom_expr("1-15/3,16-31/4"),
            Ok((
                "",
                DayOfMonthExpr::Many(exprs(vec![rs(1, 15, 3), rs(16, 31, 4)]))
            ))
        )
}

#[test]
fn dom_values_ranges_steps_and_ranges() {
        assert_eq!(
            dom_expr("1,1-10/3,10-20,20/3"),
            Ok((
                "",
                DayOfMonthExpr::Many(exprs(vec![o(1), rs(1, 10, 3), r(10, 20), s(20, 3)]))
            ))
        )
}

#[test]
fn dom_limits() {
        assert!(matches!(dom_expr("32"), Err(_)));
        assert!(matches!(dom_expr("0-31"), Err(_)));
        assert!(matches!(dom_expr("1-32"), Err(_)));
        // a step greater than the max value is not allowed (since it doesn't make sense)
        assert!(matches!(dom_expr("1/32"), Err(_)));
        assert!(matches!(dom_expr("0/31"), Err(_)));
        assert!(matches!(dom_expr("1-31/32"), Err(_)));
        assert!(matches!(dom_expr("0-31/32"), Err(_)));
        assert!(matches!(dom_expr("0-32/31"), Err(_)));
        // a step of 0 is not allowed (since it doesn't make sense)
        assert!(matches!(dom_expr("0/0"), Err(_)));
        assert!(matches!(dom_expr("0-23/0"), Err(_)));
}

#[test]
fn dow_all() {
        assert_eq!(dow_expr("*"), Ok(("", DayOfWeekExpr::All)))
}

#[test]
fn dow_only_match_first_star() {
        // make sure we only match the first star.
        // it'll fail on the next parser
        assert_eq!(dow_expr("*,*"), Ok((",*", DayOfWeekExpr::All)))
}

#[test]
fn dow_last() {
        assert_eq!(
            dow_expr("L"),
            Ok(("", DayOfWeekExpr::Many(exprs(vec![o(7)]))))
        )
}

#[test]
fn dow_last_day() {
        assert_eq!(dow_expr("3L"), Ok(("", DayOfWeekExpr::Last(e(3)))))
}

#[test]
fn dow_last_with_other_exprs() {
        assert!(matches!(dow_expr("3,L"), Err(_)))
}

#[test]
fn dow_nth() {
        assert_eq!(dow_expr("MON#1"), Ok(("", DayOfWeekExpr::Nth(e(2), e(1)))));
        assert_eq!(dow_expr("5#4"), Ok(("", DayOfWeekExpr::Nth(e(5), e(4)))));
}

#[test]
fn dow_star_step() {
        assert_eq!(
            dow_expr("*/3"),
            Ok(("", DayOfWeekExpr::Many(exprs(vec![s(1, 3)]))))
        )
}

#[test]
fn dow_multi_star_step() {
        assert_eq!(
            dow_expr("*/3,*/4"),
            Ok(("", DayOfWeekExpr::Many(exprs(vec![s(1, 3), s(1, 4)]))))
        )
}

#[test]
fn dow_star_range_doesnt_make_sense() {
        // make sure we only match the first star.
        // it'll fail on the next parser
        assert_eq!(dow_expr("*-6/3,*/4"), Ok(("-6/3,*/4", DayOfWeekExpr::All)))
}

#[test]
fn dow_one_value() {
        assert_eq!(
            dow_expr("1"),
            Ok(("", DayOfWeekExpr::Many(exprs(vec![o(1)]))))
        )
}

#[test]
fn dow_word_values() {
        // caps
        assert_eq!(
            dow_expr("SUN"),
            Ok(("", DayOfWeekExpr::Many(exprs(vec![o(1)]))))
        );
        assert_eq!(
            dow_expr("MON"),
            Ok(("", DayOfWeekExpr::Many(exprs(vec![o(2)]))))
        );
        assert_eq!(
            dow_expr("TUE"),
            Ok(("", DayOfWeekExpr::Many(exprs(vec![o(3)]))))
        );

        // lower
        assert_eq!(
            dow_expr("WED"),
            Ok(("", DayOfWeekExpr::Many(exprs(vec![o(4)]))))
        );
        assert_eq!(
            dow_expr("THU"),
            Ok(("", DayOfWeekExpr::Many(exprs(vec![o(5)]))))
        );
        assert_eq!(
            dow_expr("FRI"),
            Ok(("", DayOfWeekExpr::Many(exprs(vec![o(6)]))))
        );

        // mixed
        assert_eq!(
            dow_expr("SaT"),
            Ok(("", DayOfWeekExpr::Many(exprs(vec![o(7)]))))
        );
}

#[test]
fn dow_many_one_value() {
        assert_eq!(
            dow_expr("2,WED,FRI,7"),
            Ok(("", DayOfWeekExpr::Many(exprs(vec![o(2), o(4), o(6), o(7)]))))
        )
}

#[test]
fn dow_one_range() {
        assert_eq!(
            dow_expr("MON-5"),
            Ok(("", DayOfWeekExpr::Many(exprs(vec![r(2, 5)]))))
        )
}

#[test]
fn dow_overflow_range() {
        assert_eq!(
            dow_expr("7-1"),
            Ok(("", DayOfWeekExpr::Many(exprs(vec![r(7, 1)]))))
        )
}

#[test]
fn dow_many_range() {
        assert_eq!(
            dow_expr("1-3,4-4,5-7"),
            Ok((
                "",
                DayOfWeekExpr::Many(exprs(vec![r(1, 3), r(4, 4), r(5, 7)]))
            ))
        )
}

#[test]
fn dow_step() {
        assert_eq!(
            dow_expr("2/2"),
            Ok(("", DayOfWeekExpr::Many(exprs(vec![s(2, 2)]))))
        )
}

#[test]
fn dow_step_with_star_step() {
        assert_eq!(
            dow_expr("2/2,*/4"),
            Ok(("", DayOfWeekExpr::Many(exprs(vec![s(2, 2), s(1, 4)]))))
        )
}

#[test]
fn dow_many_steps() {
        assert_eq!(
            dow_expr("1/2,2/3,3/4"),
            Ok((
                "",
                DayOfWeekExpr::Many(exprs(vec![s(1, 2), s(2, 3), s(3, 4)]))
            ))
        )
}

#[test]
fn dow_range_step() {
        assert_eq!(
            dow_expr("2-5/2"),
            Ok(("", DayOfWeekExpr::Many(exprs(vec![rs(2, 5, 2)]))))
        )
}

#[test]
fn dow_many_range_step() {
        assert_eq!(
            dow_expr("1-4/2,5-7/2"),
            Ok((
                "",
                DayOfWeekExpr::Many(exprs(vec![rs(1, 4, 2), rs(5, 7, 2)]))
            ))
        )
}

#[test]
fn dow_values_ranges_steps_and_ranges() {
        assert_eq!(
            dow_expr("1,2-FRI/2,6-7,3/3"),
            Ok((
                "",
                DayOfWeekExpr::Many(exprs(vec![o(1), rs(2, 6, 2), r(6, 7), s(3, 3)]))
            ))
        )
}

#[test]
fn dow_limits() {
        assert!(matches!(dow_expr("8"), Err(_)));
        assert!(matches!(dow_expr("0"), Err(_)));
        assert!(matches!(dow_expr("0-7"), Err(_)));
        assert!(matches!(dow_expr("1-8"), Err(_)));
        // a step greater than the max value is not allowed (since it doesn't make sense)
        assert!(matches!(dow_expr("1/8"), Err(_)));
        assert!(matches!(dow_expr("0/7"), Err(_)));
        assert!(matches!(dow_expr("1-7/8"), Err(_)));
        assert!(matches!(dow_expr("0-7/7"), Err(_)));
        assert!(matches!(dow_expr("0-8/7"), Err(_)));
        // a step of 0 is not allowed (since it doesn't make sense)
        assert!(matches!(dow_expr("1/0"), Err(_)));
        assert!(matches!(dow_expr("1-5/0"), Err(_)));
        // 0th day doesn't make sense
        assert!(matches!(dow_expr("SUN#0"), Err(_)));
        // 6th day of the month will never happen
        assert!(matches!(dow_expr("MON#6"), Err(_)));
}
