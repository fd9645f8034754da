use dctl::touch::calendar::{
    civil_from_days, days_from_civil, is_leap_year, month_length, year_length,
    DAYS_PER_COMMON_YEAR, MONTHS_PER_YEAR,
};
use dctl::touch::timestamp::Timestamp;

fn seconds(input: &str) -> i64 {
    Timestamp::parse(input).unwrap().unix_seconds()
}

#[test]
fn the_epoch_is_the_fixed_point_of_every_spelling() {
    for input in [
        "@0",
        "1970-01-01",
        "1970-01-01T00:00:00Z",
        "1970-01-01 00:00",
    ] {
        assert_eq!(seconds(input), 0, "for '{input}'");
    }
}

#[test]
fn a_known_instant_matches_its_known_epoch_value() {
    assert_eq!(seconds("2024-05-01T12:00:00Z"), 1_714_564_800);
    assert_eq!(seconds("2024-05-01"), 1_714_521_600);
    assert_eq!(seconds("@1714564800"), 1_714_564_800);
}

#[test]
fn all_three_date_time_separators_are_accepted() {
    let expected = seconds("2024-05-01T09:30:00Z");
    assert_eq!(seconds("2024-05-01t09:30:00Z"), expected);
    assert_eq!(seconds("2024-05-01 09:30:00"), expected);
    assert_eq!(seconds("2024-05-01T09:30"), expected);
}

#[test]
fn times_before_the_epoch_are_negative_not_an_error() {
    assert_eq!(seconds("1969-12-31T23:59:59Z"), -1);
    assert_eq!(seconds("1969-12-31"), -86_400);
    assert_eq!(seconds("@-1"), -1);
}

#[test]
fn sub_second_precision_is_dropped_rather_than_rounded() {
    assert_eq!(
        seconds("2024-05-01T12:00:00.999999Z"),
        seconds("2024-05-01T12:00:00Z")
    );
}

#[test]
fn a_zone_offset_is_refused_rather_than_converted() {
    let error = Timestamp::parse("2024-05-01T12:00:00+02:00").unwrap_err();
    assert!(error.contains("UTC"), "{error}");
}

#[test]
fn the_leap_year_rule_is_the_gregorian_one() {
    assert!(
        Timestamp::parse("2024-02-29").is_ok(),
        "2024 is a leap year"
    );
    assert!(
        Timestamp::parse("2000-02-29").is_ok(),
        "2000: /400 keeps it"
    );
    assert!(
        Timestamp::parse("1900-02-29").is_err(),
        "1900: /100 skips it"
    );
    assert!(Timestamp::parse("2023-02-29").is_err(), "2023 is common");
}

#[test]
fn a_day_that_does_not_exist_is_an_error_not_the_next_month() {
    for input in ["2024-04-31", "2024-13-01", "2024-00-10", "2024-01-00"] {
        assert!(Timestamp::parse(input).is_err(), "accepted '{input}'");
    }
}

#[test]
fn out_of_range_time_fields_are_refused() {
    for input in [
        "2024-05-01T24:00:00",
        "2024-05-01T12:60:00",
        "2024-05-01T12:00:60",
    ] {
        assert!(Timestamp::parse(input).is_err(), "accepted '{input}'");
    }
}

#[test]
fn malformed_spellings_name_the_accepted_ones() {
    for input in [
        "",
        "   ",
        "yesterday",
        "2024/05/01",
        "20240501",
        "@banana",
        "2024-05",
    ] {
        let error = Timestamp::parse(input).unwrap_err();
        assert!(!error.is_empty(), "silent failure for '{input}'");
    }
    assert!(Timestamp::parse("nonsense").unwrap_err().contains("@"));
}

#[test]
fn signed_and_padded_fields_are_not_numbers() {
    for input in ["2024-+5-01", "2024-05- 1", "2024-5e2-01"] {
        assert!(Timestamp::parse(input).is_err(), "accepted '{input}'");
    }
}

#[test]
fn rendering_is_canonical_whatever_the_input_looked_like() {
    for input in [
        "2024-05-01T12:00:00Z",
        "2024-05-01t12:00:00z",
        "2024-05-01 12:00:00",
        "@1714564800",
    ] {
        assert_eq!(
            Timestamp::parse(input).unwrap().to_rfc3339(),
            "2024-05-01T12:00:00Z",
            "for '{input}'"
        );
    }
}

#[test]
fn rendering_pads_every_field_to_a_fixed_width() {
    assert_eq!(
        Timestamp::parse("0001-02-03T04:05:06")
            .unwrap()
            .to_rfc3339(),
        "0001-02-03T04:05:06Z"
    );
}

#[test]
fn parsing_and_rendering_are_inverses_across_the_calendar() {
    let start = Timestamp::parse("1968-01-01").unwrap().unix_seconds();
    let mut day = 0;
    while day < 366 * 20 {
        let stamp = Timestamp::from_unix(start + day * 86_400);
        let rendered = stamp.to_rfc3339();
        assert_eq!(
            Timestamp::parse(&rendered).unwrap(),
            stamp,
            "round trip failed at {rendered}"
        );
        day += 1;
    }
}

#[test]
fn the_month_table_describes_a_common_year() {
    let total: i64 = (1..=MONTHS_PER_YEAR)
        .map(|month| month_length(2023, month).unwrap())
        .sum();
    assert_eq!(total, DAYS_PER_COMMON_YEAR);
    assert_eq!(MONTHS_PER_YEAR, 12);
    assert!(month_length(2023, 13).is_none());
}

#[test]
fn now_is_after_the_tool_was_written_and_before_it_is_obsolete() {
    let now = Timestamp::now().unix_seconds();
    assert!(now > 1_700_000_000, "clock reads before 2023: {now}");
    assert!(now < 4_102_444_800, "clock reads after 2100: {now}");
}

#[test]
fn an_unrepresentable_instant_falls_back_to_the_epoch_spelling() {
    let far_future = Timestamp::from_unix(i64::MAX / 2);
    assert!(far_future.to_rfc3339().starts_with('@'));
    assert_eq!(far_future.to_rfc3339(), "@4611686018427387903");
}

#[test]
fn the_calendar_counts_days_from_the_epoch_and_back() {
    assert_eq!(days_from_civil(1970, 1, 1), Some(0));
    assert_eq!(days_from_civil(2000, 3, 1), Some(11_017));
    assert_eq!(days_from_civil(2023, 2, 29), None);
    assert_eq!(civil_from_days(-1), Some((1969, 12, 31)));
    assert_eq!(civil_from_days(19_844), Some((2024, 5, 1)));
    assert!(is_leap_year(2000) && !is_leap_year(1900));
    assert_eq!((year_length(2024), year_length(2023)), (366, 365));
}

#[test]
fn a_malformed_timestamp_is_rejected_by_the_parser() {
    assert!(Timestamp::parse("yesterday").is_err());
    assert!(Timestamp::parse("2024-02-30").is_err());
}

#[test]
fn a_fraction_of_any_length_is_dropped() {
    for fraction in ["9", "123456789", "99999999999999999999", "123456789012345678901234567890"] {
        assert_eq!(
            Timestamp::parse(&format!("2024-05-01T12:00:00.{fraction}Z"))
                .map(Timestamp::unix_seconds),
            Ok(1_714_564_800),
            "{fraction}"
        );
    }
    for text in ["2024-05-01T12:00:00.5x", "2024-05-01T12:00:00.1.2", "2024-05-01T12:00:.5"] {
        assert!(Timestamp::parse(text).is_err(), "{text}");
    }
    assert!(Timestamp::parse("2024-05-01T12:00:00.").is_ok());
}
