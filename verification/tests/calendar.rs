use chrono::Datelike;
use polaris::calendar::{Date, Timestamp, MAX_DAY, MIN_DAY};

fn date(year: i32, month: u32, day: u32) -> Date {
    Date::from_ymd_opt(year, month, day).expect("date")
}

#[test]
fn days_have_calendar_dates() {
    assert_eq!(date(1, 1, 1).days, 1);
    assert_eq!(date(1970, 1, 1).days, 719_163);
    assert_eq!(date(-262_143, 1, 1).days, MIN_DAY);
    assert_eq!(date(262_142, 12, 31).days, MAX_DAY);
    assert_eq!(Date::from_ymd_opt(262_143, 1, 1), None);
    assert_eq!(Date::from_ymd_opt(2026, 2, 29), None);
    assert_eq!(Date::from_ymd_opt(1900, 2, 29), None);
    assert_eq!(Date::from_ymd_opt(2026, 13, 1), None);
    assert_eq!(Date::from_ymd_opt(2026, 4, 31), None);
    assert_eq!(Date::from_ymd_opt(2026, 4, 0), None);
    for days in [MIN_DAY, -1, 0, 1, 365, 366, 719_163, 739_768, MAX_DAY] {
        let (year, month, day) = Date { days }.ymd();
        assert_eq!(date(year, month, day).days, days);
        assert_eq!(
            chrono::NaiveDate::from_ymd_opt(year, month, day),
            chrono::NaiveDate::from_num_days_from_ce_opt(days)
        );
    }
    assert_eq!(date(2026, 6, 1).ymd(), (2026, 6, 1));
    assert_eq!(date(2000, 2, 29).ymd(), (2000, 2, 29));
}

#[test]
fn dates_are_written_and_read() {
    assert_eq!(date(2026, 6, 1).text(), "2026-06-01");
    assert_eq!(date(0, 1, 1).text(), "0000-01-01");
    assert_eq!(date(-1, 12, 31).text(), "-0001-12-31");
    assert_eq!(date(12_345, 2, 3).text(), "+12345-02-03");
    assert_eq!(Date::parse("2026-06-01"), Some(date(2026, 6, 1)));
    assert_eq!(Date::parse("0000-02-29"), Some(date(0, 2, 29)));
    assert_eq!(Date::parse("2026-6-1"), Some(date(2026, 6, 1)));
    assert_eq!(Date::parse("2026-06-31"), None);
    assert_eq!(Date::parse("2026-06-01x"), None);
    assert_eq!(Date::parse(""), None);
    assert_eq!(date(2026, 6, 1).month_label(), "June 2026");
    assert_eq!(date(5, 12, 1).month_label(), "December 0005");
}

#[test]
fn weeks_begin_on_monday() {
    assert_eq!(date(2026, 6, 1).days_from_monday(), 0);
    assert_eq!(date(2026, 6, 7).days_from_monday(), 6);
    assert_eq!(date(1, 1, 1).days_from_monday(), 0);
    assert_eq!(
        Date { days: MIN_DAY }.days_from_monday(),
        chrono::NaiveDate::MIN.weekday().num_days_from_monday()
    );
}

#[test]
fn instants_are_read_and_written() {
    let instant = Timestamp::from_ymd_hms_opt(2026, 6, 1, 23, 59, 59).expect("instant");
    assert_eq!(instant.stamp(), "2026-06-01T23:59:59Z");
    assert_eq!(instant.spaced_stamp(), "2026-06-01 23:59:59Z");
    assert_eq!(instant.full_stamp(), "2026-06-01 23:59:59 UTC");
    assert_eq!(Timestamp::parse("2026-06-01T23:59:59Z"), Some(instant));
    assert_eq!(Timestamp::parse("2026-06-02T01:59:59+02:00"), Some(instant));
    assert_eq!(Timestamp::parse("2026-06-01T24:00:00Z"), None);
    assert_eq!(Timestamp::parse("2026-06-01"), None);
    assert_eq!(instant.date(), date(2026, 6, 1));
    assert_eq!(Timestamp::from_ymd_hms_opt(2026, 6, 1, 24, 0, 0), None);
    assert_eq!(date(2026, 6, 1).first_second().stamp(), "2026-06-01T00:00:00Z");
    assert_eq!(date(2026, 6, 1).last_second(), instant);
    assert_eq!(Timestamp { secs: -1, nanos: 0 }.date(), date(1969, 12, 31));
}

#[test]
fn fractions_and_leap_seconds_are_kept() {
    let milli = Timestamp::parse("2026-05-18T14:16:33.886Z").expect("instant");
    assert_eq!(milli.nanos, 886_000_000);
    assert_eq!(milli.full_stamp(), "2026-05-18 14:16:33.886 UTC");
    assert_eq!(milli.stamp(), "2026-05-18T14:16:33Z");
    let micro = Timestamp { nanos: 1_000, ..milli };
    assert_eq!(micro.full_stamp(), "2026-05-18 14:16:33.000001 UTC");
    let nano = Timestamp { nanos: 1, ..milli };
    assert_eq!(nano.full_stamp(), "2026-05-18 14:16:33.000000001 UTC");
    let leap = Timestamp::parse("2016-12-31T23:59:60Z").expect("leap second");
    assert_eq!(leap.nanos, 1_000_000_000);
    assert_eq!(leap.stamp(), "2016-12-31T23:59:60Z");
    assert_eq!(leap.spaced_stamp(), "2016-12-31 23:59:60Z");
    assert_eq!(Timestamp::parse(&leap.stamp()), Some(leap));
    assert!(milli.is_not_after(&micro) == false && nano.is_not_after(&micro));
}
