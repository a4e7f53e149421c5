use saffron::{days_in_month, is_leap_year, next_minute, previous_minute, Bound, Cron, DateTime};

fn at(year: i32, month: u8, day: u8, hour: u8, minute: u8) -> DateTime {
    DateTime::new(year, month, day, hour, minute, 0).expect("valid date")
}

fn cron(s: &str) -> Cron {
    s.parse().expect("valid expression")
}

#[test]
fn single_minute_matches_only_that_minute() {
    for v in 0..60u8 {
        let c = cron(&format!("{} * * * *", v));
        for m in 0..60u8 {
            assert_eq!(c.contains(at(2020, 3, 15, 7, m)), m == v);
        }
    }
}

#[test]
fn single_hour_matches_only_that_hour() {
    for v in 0..24u8 {
        let c = cron(&format!("* {} * * *", v));
        for h in 0..24u8 {
            assert_eq!(c.contains(at(2020, 3, 15, h, 30)), h == v);
        }
    }
}

#[test]
fn single_day_and_month_match_only_themselves() {
    for v in 1..=31u8 {
        let c = cron(&format!("* * {} * *", v));
        for d in 1..=31u8 {
            assert_eq!(c.contains(at(2020, 1, d, 0, 0)), d == v);
        }
    }
    for v in 1..=12u8 {
        let c = cron(&format!("* * * {} *", v));
        for m in 1..=12u8 {
            assert_eq!(c.contains(at(2021, m, 1, 0, 0)), m == v);
        }
    }
}

#[test]
fn single_weekday_matches_only_that_weekday() {
    // 2020-10-18 is a Sunday
    for v in 1..=7u8 {
        let c = cron(&format!("* * * * {}", v));
        for d in 18..25u8 {
            assert_eq!(c.contains(at(2020, 10, d, 12, 0)), d - 18 + 1 == v);
        }
    }
}

#[test]
fn wraparound_ranges_keep_only_their_ends() {
    let c = cron("59-0 23-0 31-1 12-1 *");
    assert!(c.contains(at(2020, 1, 31, 0, 59)));
    assert!(c.contains(at(2020, 1, 1, 23, 0)));
    assert!(c.contains(at(2020, 12, 31, 23, 59)));
    assert!(!c.contains(at(2020, 1, 31, 22, 59)));
    assert!(!c.contains(at(2020, 1, 31, 1, 0)));
    assert!(!c.contains(at(2020, 1, 30, 0, 0)));
    assert!(!c.contains(at(2020, 1, 2, 0, 0)));
    assert!(!c.contains(at(2020, 11, 30, 0, 0)));
    assert!(!c.contains(at(2020, 2, 1, 0, 0)));
    assert!(!c.contains(at(2020, 1, 1, 0, 58)));
    assert!(!c.contains(at(2020, 1, 1, 0, 1)));
}

#[test]
fn wraparound_weekdays() {
    // FRI-SUN: 2020-10-16 is a Friday
    let c = cron("0 0 * * FRI-SUN");
    assert!(c.contains(at(2020, 10, 16, 0, 0)));
    assert!(c.contains(at(2020, 10, 17, 0, 0)));
    assert!(c.contains(at(2020, 10, 18, 0, 0)));
    assert!(!c.contains(at(2020, 10, 15, 0, 0)));
    assert!(!c.contains(at(2020, 10, 19, 0, 0)));
}

#[test]
fn feasibility() {
    assert!(!cron("* * 31 11 *").any());
    assert!(cron("* * 29 2 *").any());
    assert!(!cron("* * 30 2 *").any());
    assert!(cron("* * L * *").any());
    assert!(!cron("* * L-29 2 *").any());
    assert!(cron("* * L-28 2 *").any());
    assert!(cron("* * 31 11 MON").any());
    assert!(!cron("* * 31W 4,6 *").any());
}

#[test]
fn leap_day_exactness() {
    let c = cron("0 0 L FEB *");
    assert!(c.contains(at(2020, 2, 29, 0, 0)));
    assert!(c.contains(at(2000, 2, 29, 0, 0)));
    assert!(DateTime::new(2100, 2, 29, 0, 0, 0).is_none());
    assert!(c.contains(at(2100, 2, 28, 0, 0)));
    assert!(!c.contains(at(2020, 2, 28, 0, 0)));
    assert!(is_leap_year(2000));
    assert!(!is_leap_year(2100));
    assert_eq!(days_in_month(2100, 2), 28);
    assert_eq!(days_in_month(2024, 2), 29);
    assert_eq!(days_in_month(2024, 4), 30);
    assert_eq!(days_in_month(2024, 12), 31);
}

#[test]
fn last_weekday_of_month() {
    let c = cron("0 0 LW MAY *");
    assert!(c.contains(at(2021, 5, 31, 0, 0)));
    assert!(c.contains(at(2025, 5, 30, 0, 0)));
    assert!(!c.contains(at(2025, 5, 31, 0, 0)));
}

#[test]
fn closest_weekday_skips_looser_matches() {
    // 2021-05-01 is a Saturday: the weekday closest to the 1st is Monday the 3rd
    let c = cron("0 0 1W MAY *");
    assert!(c.contains(at(2021, 5, 3, 0, 0)));
    assert!(!c.contains(at(2021, 5, 1, 0, 0)));
    assert!(!c.contains(at(2021, 5, 4, 0, 0)));
    // 30W never matches in February
    let c = cron("0 0 30W 2 *");
    assert!(!c.contains(at(2036, 2, 29, 0, 0)));
}

#[test]
fn iterator_is_increasing_and_matching() {
    let c = cron("*/7 3-5 * * MON,FRI");
    let mut it = c.iter(
        Bound::Included(at(2021, 1, 1, 0, 0)),
        Bound::Excluded(at(2021, 2, 1, 0, 0)),
    );
    let mut last: Option<DateTime> = None;
    let mut n = 0;
    while let Some(t) = it.next() {
        assert!(c.contains(t));
        if let Some(p) = last {
            assert!(p < t);
        }
        last = Some(t);
        n += 1;
    }
    // 9 Mondays and Fridays in January 2021, 3 hours of 9 minutes each
    assert_eq!(n, 9 * 3 * 9);
    assert!(it.next().is_none());
}

#[test]
fn iterator_of_infeasible_schedule_is_empty() {
    let mut it = cron("* * 31 11 *").iter(Bound::Unbounded, Bound::Unbounded);
    assert!(it.next().is_none());
    let mut it = cron("* * * * *").iter_from(DateTime::max_value());
    assert_eq!(it.next(), Some(DateTime::max_value().minute_floor()));
    assert!(it.next().is_none());
}

#[test]
fn next_from_and_next_after() {
    let c = cron("*/10 * * * *");
    let t = at(1970, 1, 1, 0, 0);
    assert_eq!(c.next_from(t), Some(t));
    assert_eq!(c.next_after(t), Some(at(1970, 1, 1, 0, 10)));
    let u = DateTime::new(1970, 1, 1, 0, 3, 42).unwrap();
    assert!(!c.contains(u));
    assert_eq!(c.next_from(u), c.next_after(u));
    assert_eq!(c.next_from(u), Some(at(1970, 1, 1, 0, 10)));
    let w = DateTime::new(1970, 1, 1, 0, 20, 42).unwrap();
    assert_eq!(c.next_from(w), Some(at(1970, 1, 1, 0, 20)));
    assert_eq!(c.next_after(DateTime::max_value()), None);
    assert_eq!(cron("* * 31 11 *").next_from(t), None);
}

#[test]
fn next_crosses_years() {
    let c = cron("0 0 29 2 *");
    assert_eq!(c.next_from(at(2097, 1, 1, 0, 0)), Some(at(2104, 2, 29, 0, 0)));
    let c = cron("30 12 * * 6#5");
    // the fifth Friday after 2020-01-01 is 2020-01-31
    assert_eq!(c.next_from(at(2020, 1, 1, 0, 0)), Some(at(2020, 1, 31, 12, 30)));
    let c = cron("0 0 * * 1L");
    // the last Sunday of January 2021
    assert_eq!(c.next_from(at(2021, 1, 1, 0, 0)), Some(at(2021, 1, 31, 0, 0)));
    let c = cron("0 0 15 * MON");
    // either the 15th or a Monday, whichever comes first
    assert_eq!(c.next_from(at(2020, 10, 13, 0, 0)), Some(at(2020, 10, 15, 0, 0)));
    assert_eq!(c.next_from(at(2020, 10, 16, 0, 0)), Some(at(2020, 10, 19, 0, 0)));
}

#[test]
fn minute_stepping() {
    assert_eq!(next_minute(at(2020, 12, 31, 23, 59)), Some(at(2021, 1, 1, 0, 0)));
    assert_eq!(previous_minute(at(2021, 3, 1, 0, 0)), Some(at(2021, 2, 28, 23, 59)));
    assert_eq!(next_minute(DateTime::max_value()), None);
    assert_eq!(previous_minute(DateTime::min_value()), None);
}

#[test]
fn parse_errors() {
    assert!("60 * * * *".parse::<Cron>().is_err());
    assert!("* * * *".parse::<Cron>().is_err());
    assert!("* * * * * *".parse::<Cron>().is_err());
    assert!(" * * * * *".parse::<Cron>().is_err());
    assert!("* * L-0 * *".parse::<Cron>().is_err());
    assert!("* * * * 8".parse::<Cron>().is_err());
    assert!("* * * * 1#6".parse::<Cron>().is_err());
    assert!("*/0 * * * *".parse::<Cron>().is_err());
    assert!("* * * 13 *".parse::<Cron>().is_err());
    assert!("*\t*  * * *".parse::<Cron>().is_ok());
    assert!("* * * * L".parse::<Cron>().is_ok());
}

#[test]
fn bare_last_weekday_means_saturday() {
    // 2020-10-17 is a Saturday
    let c = cron("0 0 * * L");
    assert!(c.contains(at(2020, 10, 17, 0, 0)));
    assert!(c.contains(at(2020, 10, 10, 0, 0)));
    assert!(!c.contains(at(2020, 10, 31, 0, 1)));
    assert!(!c.contains(at(2020, 10, 30, 0, 0)));
}
