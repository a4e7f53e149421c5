use saffron::{Cron, DateTime};

/// Reads an RFC 3339 instant in UTC, such as `2020-08-23T00:05:30+00:00`.
fn date(s: &str) -> DateTime {
    let s = s.trim_end_matches("+00:00");
    let (d, t) = s.split_at(s.find('T').expect("date and time"));
    let t = &t[1..];
    let mut parts = d.split('-');
    let year: i32 = parts.next().unwrap().parse().unwrap();
    let month: u8 = parts.next().unwrap().parse().unwrap();
    let day: u8 = parts.next().unwrap().parse().unwrap();
    let mut tp = t.split(':');
    let hour: u8 = tp.next().unwrap().parse().unwrap();
    let minute: u8 = tp.next().unwrap().parse().unwrap();
    let second: u8 = tp.next().map(|s| s.parse().unwrap()).unwrap_or(0);
    DateTime::new(year, month, day, hour, minute, second).expect("valid date")
}

fn check_does_contain(cron: &str, dates: &[&str]) {
    let parsed: Cron = cron.parse().unwrap();
    for d in dates {
        assert!(parsed.contains(date(d)), "Cron \"{}\" should contain {}", cron, d);
    }
}

fn check_does_not_contain(cron: &str, dates: &[&str]) {
    let parsed: Cron = cron.parse().unwrap();
    for d in dates {
        assert!(!parsed.contains(date(d)), "Cron \"{}\" shouldn't contain {}", cron, d);
    }
}

#[test]
fn lib_parse_check_anytime() {
    check_does_contain(
        "* * * * *",
        &[
            "1970-01-1T00:00:00+00:00",
            "2016-11-08T23:53:57+00:00",
            "2020-07-04T15:42:30+00:00",
            "2072-02-29T01:15:23+00:00",
        ],
    );
}

#[test]
fn lib_parse_check_specific_time() {
    let cron = "5 0 23 8 *";

    check_does_contain(
        cron,
        &["2020-08-23T00:05:00+00:00", "2020-08-23T00:05:30+00:00"],
    );

    check_does_not_contain(
        cron,
        &[
            "1970-01-1T00:00:00+00:00",
            "2016-11-08T23:53:57+00:00",
            "2020-07-04T15:42:30+00:00",
            "2072-02-29T01:15:23+00:00",
            "2020-08-23T11:05:00+00:00",
        ],
    );
}

#[test]
fn lib_parse_check_specific_time_as_ranges() {
    let cron = "5-5 0-0 23-23 8-8 *";

    check_does_contain(
        cron,
        &["2020-08-23T00:05:00+00:00", "2020-08-23T00:05:30+00:00"],
    );

    check_does_not_contain(
        cron,
        &[
            "1970-01-01T00:00:00+00:00",
            "2016-11-08T23:53:57+00:00",
            "2020-07-04T15:42:30+00:00",
            "2072-02-29T01:15:23+00:00",
            "2020-08-23T11:05:00+00:00",
        ],
    );
}

#[test]
fn lib_parse_check_overflow_time_ranges() {
    // The 31st and 1st of January and December,
    // at 11:00 PM, 11:59 PM, 12:00 AM, and 12:59 AM
    let cron = "59-0 23-0 31-1 12-1 *";

    check_does_contain(
        cron,
        &[
            "2020-01-31T00:59:00+00:00",
            "2020-01-31T00:00:00+00:00",
            "2020-01-31T23:59:00+00:00",
            "2020-01-31T23:00:00+00:00",
            "2020-01-01T00:59:00+00:00",
            "2020-01-01T00:00:00+00:00",
            "2020-01-01T23:59:00+00:00",
            "2020-01-01T23:00:00+00:00",
            "2020-12-31T00:59:00+00:00",
            "2020-12-31T00:00:00+00:00",
            "2020-12-31T23:59:00+00:00",
            "2020-12-31T23:00:00+00:00",
            "2020-12-01T00:59:00+00:00",
            "2020-12-01T00:00:00+00:00",
            "2020-12-01T23:59:00+00:00",
            "2020-12-01T23:00:00+00:00",
        ],
    );

    // Midnight on every Saturday and Sunday in January
    let cron = "0 0 * JAN SAT-SUN";

    check_does_contain(
        cron,
        &[
            "2020-01-04T00:00:00+00:00",
            "2020-01-05T00:00:00+00:00",
            "2020-01-11T00:00:00+00:00",
            "2020-01-12T00:00:00+00:00",
        ],
    );
}

#[test]
fn lib_parse_check_limits() {
    let cron = "0,59 0,23 1,31 1,12 *";

    check_does_contain(
        cron,
        &[
            "2020-01-01T00:00:00+00:00",
            "2020-01-01T00:59:00+00:00",
            "2020-01-01T23:59:00+00:00",
            "2020-01-31T23:59:00+00:00",
            "2020-12-31T23:59:00+00:00",
        ],
    );
}

#[test]
fn lib_parse_check_anytime_but_its_ranges() {
    let cron = "0-59 0-23 1-31 1-12 *";

    check_does_contain(
        cron,
        &[
            "1970-01-1T00:00:00+00:00",
            "2016-11-08T23:53:57+00:00",
            "2020-07-04T15:42:30+00:00",
            "2072-02-29T01:15:23+00:00",
        ],
    );

    let cron = "0-59 0-23 * 1-12 1-7";

    check_does_contain(
        cron,
        &[
            "1970-01-1T00:00:00+00:00",
            "2016-11-08T23:53:57+00:00",
            "2020-07-04T15:42:30+00:00",
            "2072-02-29T01:15:23+00:00",
        ],
    );
}

#[test]
fn lib_parse_check_leap_days() {
    let cron = "0 0 L FEB *";

    check_does_contain(
        cron,
        &[
            "2400-02-29T00:00:00+00:00",
            "2300-02-28T00:00:00+00:00",
            "2200-02-28T00:00:00+00:00",
            "2100-02-28T00:00:00+00:00",
            "2024-02-29T00:00:00+00:00",
            "2020-02-29T00:00:00+00:00",
            "2004-02-29T00:00:00+00:00",
            "2000-02-29T00:00:00+00:00",
        ],
    );
}

#[test]
fn lib_parse_check_offset_leap_days() {
    let cron = "0 0 L-1 FEB *";

    check_does_contain(
        cron,
        &[
            "2400-02-28T00:00:00+00:00",
            "2300-02-27T00:00:00+00:00",
            "2200-02-27T00:00:00+00:00",
            "2100-02-27T00:00:00+00:00",
            "2024-02-28T00:00:00+00:00",
            "2020-02-28T00:00:00+00:00",
            "2004-02-28T00:00:00+00:00",
            "2000-02-28T00:00:00+00:00",
        ],
    );

    check_does_not_contain(
        cron,
        &[
            "2400-02-29T00:00:00+00:00",
            "2300-02-28T00:00:00+00:00",
            "2200-02-28T00:00:00+00:00",
            "2100-02-28T00:00:00+00:00",
            "2024-02-29T00:00:00+00:00",
            "2020-02-29T00:00:00+00:00",
            "2004-02-29T00:00:00+00:00",
            "2000-02-29T00:00:00+00:00",
        ],
    );
}

#[test]
fn lib_parse_check_offset_weekend_start_months() {
    let cron = "0 0 L-30W * *";

    check_does_contain(
        cron,
        &["2021-05-3T00:00:00+00:00", "2022-01-3T00:00:00+00:00"],
    );
}

#[test]
fn lib_parse_check_offset_weekend_start_months_beyond_days() {
    let cron = "0 0 L-28W FEB *";

    check_does_not_contain(
        cron,
        &["2021-05-3T00:00:00+00:00", "2022-01-3T00:00:00+00:00"],
    );
}

#[test]
fn lib_parse_check_last_weekdays() {
    let cron = "0 0 LW MAY *";

    check_does_contain(
        cron,
        &[
            "2025-05-30T00:00:00+00:00", // Last day is a Saturday
            "2021-05-31T00:00:00+00:00", // Last day is a Monday
            "2020-05-29T00:00:00+00:00", // Last day is a Sunday
        ],
    );
}

#[test]
fn lib_parse_check_last_weekdays_offset() {
    let cron = "0 0 L-1W MAY *";

    check_does_contain(
        cron,
        &[
            "2025-05-30T00:00:00+00:00", // Offset last day is a Friday
            "2021-05-31T00:00:00+00:00", // Offset last day is a Sunday
            "2020-05-29T00:00:00+00:00", // Offset last day is a Saturday
        ],
    );
}

#[test]
fn lib_parse_check_closest_weekday() {
    let cron = "0 0 1W MAY *";

    check_does_contain(
        cron,
        &[
            "2020-05-01T00:00:00+00:00", // First day is a Friday
            "2022-05-02T00:00:00+00:00", // First day is a Sunday
            "2021-05-03T00:00:00+00:00", // First day is a Saturday
        ],
    )
}

#[test]
fn lib_parse_check_last_weekday() {
    let cron = "0 0 * * 7L"; // the last saturday of every month

    check_does_contain(
        cron,
        &[
            "2020-01-25T00:00:00+00:00",
            "2020-02-29T00:00:00+00:00",
            "2020-03-28T00:00:00+00:00",
            "2020-04-25T00:00:00+00:00",
            "2020-05-30T00:00:00+00:00",
        ],
    );

    check_does_not_contain(
        cron,
        &[
            "2020-01-31T00:00:00+00:00",
            "2020-02-28T00:00:00+00:00",
            "2020-03-31T00:00:00+00:00",
            "2020-04-30T00:00:00+00:00",
            "2020-05-31T00:00:00+00:00",
        ],
    )
}

#[test]
fn lib_parse_check_nth_weekday() {
    let cron = "0 0 * * SAT#5"; // the 5th saturday of every month

    check_does_contain(
        cron,
        &[
            "2020-02-29T00:00:00+00:00",
            "2020-05-30T00:00:00+00:00",
            "2020-08-29T00:00:00+00:00",
            "2020-10-31T00:00:00+00:00",
        ],
    );

    check_does_not_contain(
        cron,
        &[
            "2020-01-31T00:00:00+00:00",
            "2020-02-28T00:00:00+00:00",
            "2020-03-31T00:00:00+00:00",
            "2020-04-30T00:00:00+00:00",
            "2020-05-31T00:00:00+00:00",
        ],
    )
}

#[test]
fn lib_parse_check_steps() {
    // all the impls step impls follow the same code, so i'll just test minutes for now
    let cron = "*/15,30-59/10 0 * * *";

    check_does_contain(
        cron,
        &[
            "2020-01-01T00:00:00+00:00",
            "2020-01-01T00:15:00+00:00",
            "2020-01-01T00:30:00+00:00",
            "2020-01-01T00:40:00+00:00",
            "2020-01-01T00:45:00+00:00",
            "2020-01-01T00:50:00+00:00",
        ],
    )
}

#[test]
fn lib_parse_check_overflow_range_step() {
    // previous code assumed the start was before the end
    let cron = "0 20-4/2 * * *";

    check_does_contain(
        cron,
        &[
            "2020-01-01T20:00:00+00:00",
            "2020-01-01T22:00:00+00:00",
            "2020-01-01T00:00:00+00:00",
            "2020-01-01T02:00:00+00:00",
            "2020-01-01T04:00:00+00:00",
        ],
    );
}
