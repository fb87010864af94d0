use chrono::{Local, NaiveDate, TimeZone};
use signal_cli::archive::LAST_MILLISECOND;
use signal_cli::dates::{
    checked_time_range, clock_time, clock_time_at, date_bound, finish_local, parse_date,
    parse_time_range, read_date, relative_date_fits, short_timestamp, short_timestamp_at,
    time_range, timestamp, timestamp_at, DateError, DateStep, LocalTime, Now, ParsedDate,
    Resolution,
};

fn day_number(year: i32, month: u32, day: u32) -> i32 {
    let date = NaiveDate::from_ymd_opt(year, month, day).unwrap();
    let epoch = NaiveDate::from_ymd_opt(1970, 1, 1).unwrap();
    date.signed_duration_since(epoch).num_days() as i32
}

fn now() -> Now {
    let noon = Local
        .with_ymd_and_hms(2026, 8, 8, 12, 0, 0)
        .single()
        .unwrap();
    Now {
        millis: noon.timestamp_millis(),
        local_day: day_number(2026, 8, 8),
    }
}

#[test]
fn cli_parses_relative_and_unix_ranges() {
    let range = parse_time_range(Some("2 hours ago"), Some("now"), now()).unwrap();
    assert_eq!(
        range.until.unwrap() - range.since.unwrap(),
        2 * 60 * 60 * 1_000
    );
    assert_eq!(
        parse_date("@100", now()).unwrap(),
        ParsedDate::Instant(100_000)
    );
    assert_eq!(
        parse_date("@200000ms", now()).unwrap(),
        ParsedDate::Instant(200_000)
    );
    assert_eq!(
        parse_time_range(Some("@100"), Some("@200000ms"), now())
            .unwrap()
            .since,
        Some(100_000)
    );
}

#[test]
fn parses_relative_and_unix_ranges() {
    let range = checked_time_range(Some("2 hours ago"), Some("now"), now())
        .unwrap()
        .unwrap();
    assert_eq!(
        range.until.unwrap() - range.since.unwrap(),
        2 * 60 * 60 * 1_000
    );
    assert_eq!(
        parse_date("@100", now()).unwrap(),
        ParsedDate::Instant(100_000)
    );
    assert_eq!(
        parse_date("@200000ms", now()).unwrap(),
        ParsedDate::Instant(200_000)
    );
    let range = checked_time_range(Some("@100"), Some("@200000ms"), now())
        .unwrap()
        .unwrap();
    assert_eq!(range.since, Some(100_000));
}

#[test]
fn cli_date_only_until_includes_the_whole_day() {
    let range = parse_time_range(Some("2026-08-08"), Some("2026-08-08"), now()).unwrap();
    assert_eq!(
        range.until.unwrap() - range.since.unwrap(),
        24 * 60 * 60 * 1_000
    );
}

#[test]
fn date_only_until_includes_the_whole_day() {
    let range = checked_time_range(Some("2026-08-08"), Some("2026-08-08"), now())
        .unwrap()
        .unwrap();
    assert_eq!(
        range.until.unwrap() - range.since.unwrap(),
        24 * 60 * 60 * 1_000
    );
}

#[test]
fn cli_rejects_reversed_range() {
    assert!(parse_time_range(Some("now"), Some("2 hours ago"), now()).is_err());
}

#[test]
fn rejects_reversed_range() {
    assert_eq!(
        checked_time_range(Some("now"), Some("2 hours ago"), now()),
        Some(Err(DateError::Reversed))
    );
}

#[test]
fn words_for_days_stand_for_whole_days() {
    assert_eq!(
        parse_date("today", now()),
        Ok(ParsedDate::LocalDate(day_number(2026, 8, 8)))
    );
    assert_eq!(
        parse_date(" Yesterday ", now()),
        Ok(ParsedDate::LocalDate(day_number(2026, 8, 7)))
    );
    assert_eq!(
        parse_date("2024-02-29", now()),
        Ok(ParsedDate::LocalDate(day_number(2024, 2, 29)))
    );
}

#[test]
fn instants_with_an_offset_do_not_need_the_time_zone() {
    assert_eq!(
        parse_date("1970-01-01T00:00:01.5+00:00", now()),
        Ok(ParsedDate::Instant(1_500))
    );
    assert_eq!(
        parse_date("1970-01-01T02:00:00+01:00", now()),
        Ok(ParsedDate::Instant(3_600_000))
    );
    assert_eq!(
        parse_date("1969-12-31T23:59:59Z", now()),
        Err(DateError::BeforeEpoch)
    );
}

#[test]
fn local_times_are_read_without_a_time_zone() {
    assert_eq!(
        read_date("1970-01-02 03:04:05", now()),
        DateStep::Local(LocalTime {
            day: 1,
            second: 11_045,
            nano: 0
        })
    );
    assert_eq!(
        read_date("1970-01-02 03:04", now()),
        DateStep::Local(LocalTime {
            day: 1,
            second: 11_040,
            nano: 0
        })
    );
}

#[test]
fn relative_dates_need_an_amount_and_a_known_unit() {
    let hour = 60 * 60 * 1_000;
    assert_eq!(
        parse_date("1 day ago", now()),
        Ok(ParsedDate::Instant((now().millis - 24 * hour) as u64))
    );
    assert_eq!(
        parse_date("3 weeks ago", now()),
        Ok(ParsedDate::Instant((now().millis - 21 * 24 * hour) as u64))
    );
    assert_eq!(
        parse_date("5 minutes ago", now()),
        Ok(ParsedDate::Instant((now().millis - 300_000) as u64))
    );
    assert_eq!(
        parse_date("2h ago", now()),
        Ok(ParsedDate::Instant((now().millis - 2 * hour) as u64))
    );
    assert_eq!(
        parse_date("+90S AGO", now()),
        Err(DateError::NoAmount(
            "cannot parse integer from empty string".into()
        ))
    );
    assert_eq!(
        parse_date("many days ago", now()),
        Err(DateError::NoAmount("invalid digit found in string".into()))
    );
    assert!(matches!(
        parse_date("2 fortnights ago", now()),
        Err(DateError::UnknownUnit(_))
    ));
    assert!(matches!(
        parse_date("two long hours ago", now()),
        Err(DateError::InvalidRelative(_))
    ));
}

#[test]
fn date_errors_say_what_caused_them() {
    let message = |text: &str| parse_date(text, now()).unwrap_err().message();
    assert_eq!(
        message("x hours ago"),
        "relative date needs a numeric amount: invalid digit found in string"
    );
    assert_eq!(
        message("@18446744073709551616ms"),
        "invalid Unix-millisecond timestamp: number too large to fit in target type"
    );
    assert_eq!(
        message("@"),
        "invalid Unix timestamp: cannot parse integer from empty string"
    );
    assert_eq!(
        message("1969-12-31T23:59:59Z"),
        format!(
            "date is before the Unix epoch: {}",
            u64::try_from(-1_i64).unwrap_err()
        )
    );
    assert_eq!(message("@18446744073709551615"), "Unix timestamp is too large");
}

#[test]
fn unix_times_are_checked() {
    let cause = "invalid digit found in string".to_string();
    assert_eq!(
        parse_date("@x", now()),
        Err(DateError::InvalidUnix(cause.clone()))
    );
    assert_eq!(
        parse_date("@xms", now()),
        Err(DateError::InvalidUnixMillis(cause))
    );
    assert_eq!(
        parse_date("@18446744073709551615", now()),
        Err(DateError::UnixTooLarge)
    );
    assert_eq!(
        parse_date("@18446744073709551615ms", now()),
        Ok(ParsedDate::Instant(u64::MAX))
    );
    assert!(matches!(
        parse_date("someday", now()),
        Err(DateError::Invalid(_))
    ));
}

#[test]
fn far_relative_dates_are_out_of_reach() {
    let text = "9223372036854775 seconds ago";
    assert!(!relative_date_fits(text, now()));
    assert_eq!(checked_time_range(Some(text), None, now()), None);
    assert!(relative_date_fits("1 week ago", now()));
}

#[test]
fn the_lower_bound_is_read_first() {
    let far = "9223372036854775 seconds ago";
    assert_eq!(
        checked_time_range(Some("someday"), Some(far), now()),
        Some(Err(DateError::Invalid("someday".into())))
    );
    assert_eq!(
        parse_time_range(Some("someday"), Some(far), now()),
        Err(DateError::Invalid("someday".into()))
    );
    assert_eq!(checked_time_range(Some("@1"), Some(far), now()), None);
    assert_eq!(checked_time_range(None, Some(far), now()), None);
    assert_eq!(checked_time_range(Some(far), Some("someday"), now()), None);
}

#[test]
fn a_leap_second_is_the_last_of_its_minute() {
    let time = LocalTime {
        day: day_number(2016, 12, 31),
        second: 86_399,
        nano: 1_000_000_000,
    };
    assert_eq!(
        read_date("2016-12-31 23:59:60", now()),
        DateStep::Local(time)
    );
    assert!(DateError::Missing(time)
        .message()
        .contains("2016-12-31 23:59:60"));
}

#[test]
fn local_times_may_be_ambiguous_or_missing() {
    let time = LocalTime {
        day: 20_000,
        second: 9_000,
        nano: 0,
    };
    assert_eq!(finish_local(time, Resolution::Single(1_728)), Ok(1_728));
    assert_eq!(
        finish_local(time, Resolution::Single(-1)),
        Err(DateError::BeforeEpoch)
    );
    assert_eq!(
        finish_local(time, Resolution::Ambiguous),
        Err(DateError::Ambiguous(time))
    );
    assert_eq!(
        finish_local(time, Resolution::Missing),
        Err(DateError::Missing(time))
    );
    assert!(DateError::Missing(time).message().contains("2024-10-04"));
}

#[test]
fn bounds_make_a_range() {
    assert_eq!(date_bound(ParsedDate::Instant(7), true), Ok(7));
    let range = time_range(Some(Ok(1)), None).unwrap();
    assert_eq!((range.since, range.until), (Some(1), None));
    assert_eq!(
        time_range(Some(Ok(2)), Some(Ok(2))),
        Err(DateError::Reversed)
    );
    assert_eq!(
        time_range(Some(Err(DateError::OutOfRange)), Some(Ok(2))),
        Err(DateError::OutOfRange)
    );
}

#[test]
fn timestamps_follow_the_time_zone() {
    let local = Local.timestamp_millis_opt(1_786_185_000_123).single().unwrap();
    assert_eq!(
        timestamp(1_786_185_000_123),
        local.to_rfc3339_opts(chrono::SecondsFormat::Secs, false)
    );
    assert_eq!(
        short_timestamp(1_786_185_000_123),
        local.format("%d %b %H:%M").to_string()
    );
    assert_eq!(
        clock_time(1_786_185_000_123),
        local.format("%H:%M").to_string()
    );
}

#[test]
fn times_are_shown_in_a_time_zone() {
    let time = 1_786_185_000_123;
    assert_eq!(timestamp_at(time, 0), "2026-08-08T10:30:00+00:00");
    assert_eq!(timestamp_at(time, 19_800), "2026-08-08T16:00:00+05:30");
    assert_eq!(timestamp_at(time, -36_000), "2026-08-08T00:30:00-10:00");
    assert_eq!(short_timestamp_at(time, 0), "08 Aug 10:30");
    assert_eq!(short_timestamp_at(time, 50_400), "09 Aug 00:30");
    assert_eq!(clock_time_at(time, 0), "10:30");
    assert_eq!(clock_time_at(time, -39_600), "23:30");
    assert_eq!(clock_time_at((-1_i64) as u64, 0), "23:59");
}

#[test]
fn times_that_are_no_dates_are_shown_as_numbers() {
    let last = LAST_MILLISECOND as u64;
    assert_eq!(timestamp(last + 1), (last + 1).to_string());
    assert_eq!(short_timestamp(last + 1), (last + 1).to_string());
    assert_eq!(clock_time(last + 1), "");
    assert_eq!(timestamp(u64::MAX), u64::MAX.to_string());
    assert_eq!(timestamp_at(last, 0), "+262142-12-31T23:59:59+00:00");
    assert_eq!(timestamp_at(last, 3_600), last.to_string());
    assert_eq!(timestamp_at(last, -3_600), "+262142-12-31T22:59:59-01:00");
    assert_eq!(short_timestamp_at(last, 0), "31 Dec 23:59");
    assert_eq!(short_timestamp_at(last, 3_600), "01 Jan 00:59");
}

#[test]
fn a_day_is_a_whole_range() {
    let day = ParsedDate::LocalDate(day_number(2026, 8, 8));
    let start = date_bound(day, false).unwrap();
    let end = date_bound(day, true).unwrap();
    assert_eq!(&timestamp(start)[..19], "2026-08-08T00:00:00");
    assert_eq!(&timestamp(end)[..19], "2026-08-09T00:00:00");
}
