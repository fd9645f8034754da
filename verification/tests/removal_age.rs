use dctl::constants::{
    CLEANUP_DEFAULT_MIN_AGE, SECONDS_PER_DAY, SECONDS_PER_HOUR, SECONDS_PER_MINUTE,
};
use dctl::error::ExitCode;
use dctl::output::duration;
use dctl::removal::age::parse_age;
use dctl::time::Duration;

#[test]
fn every_printed_suffix_is_also_an_accepted_one() {
    assert_eq!(parse_age("30s").unwrap().as_secs(), 30);
    assert_eq!(parse_age("90m").unwrap().as_secs(), 90 * SECONDS_PER_MINUTE);
    assert_eq!(parse_age("24h").unwrap().as_secs(), SECONDS_PER_DAY);
    assert_eq!(parse_age("7d").unwrap().as_secs(), 7 * SECONDS_PER_DAY);
}

#[test]
fn a_bare_number_is_seconds() {
    assert_eq!(parse_age("45").unwrap().as_secs(), 45);
}

#[test]
fn suffixes_are_case_insensitive_and_surrounding_space_is_ignored() {
    assert_eq!(parse_age(" 2H ").unwrap().as_secs(), 2 * SECONDS_PER_HOUR);
}

#[test]
fn zero_is_a_legal_age_meaning_no_margin() {
    assert_eq!(parse_age("0h").unwrap(), Duration::from_secs(0));
}

#[test]
fn nonsense_is_refused_with_advice() {
    for input in ["", "banana", "7w", "-1h", "1.5h", "h"] {
        let error = parse_age(input).unwrap_err();
        assert_eq!(error.code(), ExitCode::Usage, "accepted '{input}'");
        assert!(error.hint().is_some(), "'{input}' failed without advice");
    }
}

#[test]
fn an_overflowing_age_fails_instead_of_wrapping() {
    let error = parse_age(&format!("{}d", u64::MAX)).unwrap_err();
    assert_eq!(error.code(), ExitCode::Usage);
}

#[test]
fn the_shipped_default_parses() {
    assert!(parse_age(CLEANUP_DEFAULT_MIN_AGE).is_ok());
}

#[test]
fn what_is_printed_for_a_span_is_an_age() {
    for seconds in [0u64, 30, 90, 3600, 5400, 86400, 90061, 604800] {
        let printed = duration(seconds);
        for part in printed.split(' ') {
            assert!(parse_age(part).is_ok(), "{printed}");
        }
    }
}
