use dctl::error::{ExitCode, Result};
use dctl::globals::Globals;
use dctl::output::Units;
use dctl::removal::filters::Filters;

fn words(list: &[&str]) -> Vec<String> {
    list.iter().map(|w| w.to_string()).collect()
}

fn resolve(globals: Globals) -> Result<Filters> {
    Filters::resolve(&globals)
}

#[test]
fn no_flags_means_no_narrowing() {
    let filters = resolve(Globals::default()).unwrap();
    assert!(filters.rows(Units::Binary).is_empty());
}

#[test]
fn repeatable_patterns_are_carried_through_in_order() {
    let filters = resolve(Globals {
        included: words(&["*.jpg", "*.raw"]),
        ..Globals::default()
    })
    .unwrap();
    assert_eq!(filters.included, ["*.jpg", "*.raw"]);
    assert!(!filters.rows(Units::Binary).is_empty());
}

#[test]
fn sizes_are_parsed_with_the_same_spellings_a_listing_prints() {
    let filters = resolve(Globals {
        min_size: Some("1k".to_string()),
        max_size: Some("1M".to_string()),
        ..Globals::default()
    })
    .unwrap();
    assert_eq!(filters.min_size, Some(1024));
    assert_eq!(filters.max_size, Some(1024 * 1024));
}

#[test]
fn an_unparseable_size_fails_before_anything_is_removed() {
    let error = resolve(Globals {
        max_size: Some("banana".to_string()),
        ..Globals::default()
    })
    .unwrap_err();
    assert_eq!(error.code(), ExitCode::Usage);
    assert!(error.hint().is_some());
}

#[test]
fn crossed_size_bounds_are_refused_rather_than_matching_nothing() {
    let error = resolve(Globals {
        min_size: Some("10M".to_string()),
        max_size: Some("1M".to_string()),
        ..Globals::default()
    })
    .unwrap_err();
    assert_eq!(error.code(), ExitCode::Usage);
    assert_eq!(
        error.message(),
        "--min-size (10485760) is larger than --max-size (1048576)"
    );
}

#[test]
fn the_unlimited_depth_sentinel_becomes_an_absent_value() {
    assert_eq!(resolve(Globals::default()).unwrap().max_depth, None);
    let two = Globals {
        max_depth: 2,
        ..Globals::default()
    };
    assert_eq!(resolve(two).unwrap().max_depth, Some(2));
}

#[test]
fn a_nonsense_depth_is_a_usage_error() {
    let nonsense = Globals {
        max_depth: -7,
        ..Globals::default()
    };
    let error = resolve(nonsense).unwrap_err();
    assert_eq!(error.code(), ExitCode::Usage);
    let unlimited = Globals {
        max_depth: -1,
        ..Globals::default()
    };
    assert!(resolve(unlimited).is_ok());
}

#[test]
fn unset_filters_are_absent_from_the_json_not_null() {
    let filters = resolve(Globals::default()).unwrap();
    assert!(filters.included.is_empty() && filters.excluded.is_empty());
    assert!(filters.filter_from.is_empty() && filters.files_from.is_empty());
    assert_eq!(filters.min_size, None);
    assert_eq!(filters.max_size, None);
    assert_eq!(filters.max_depth, None);
}

#[test]
fn the_json_shape_names_every_flag_that_was_given() {
    let filters = resolve(Globals {
        excluded: words(&["tmp/**"]),
        min_size: Some("1k".to_string()),
        max_depth: 3,
        ..Globals::default()
    })
    .unwrap();
    assert_eq!(filters.excluded[0], "tmp/**");
    assert_eq!(filters.min_size, Some(1024));
    assert_eq!(filters.max_depth, Some(3));
    assert!(filters.included.is_empty());
}

#[test]
fn rows_quote_sizes_in_the_requested_units() {
    let filters = resolve(Globals {
        min_size: Some("1k".to_string()),
        ..Globals::default()
    })
    .unwrap();
    let binary = filters.rows(Units::Binary);
    let decimal = filters.rows(Units::Decimal);
    assert_eq!(binary.len(), 1);
    assert_ne!(binary[0].1, decimal[0].1, "units must reach the plan");
}
