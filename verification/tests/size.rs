use dctl::error::ExitCode;
use dctl::globals::Globals;
use dctl::output::{Level, Units};
use dctl::size::{
    notices, prepare, report, SizeArgs, Totals, SIZE_PLAINTEXT_NOTE, SIZE_REPORT_LABEL_UNMEASURED,
    SIZE_REPORT_LOWER_BOUND, SIZE_UNMEASURED_NOTE,
};
use dctl::source::Sizes;

fn totals(count: u64, bytes: u64) -> Totals {
    Totals {
        count,
        bytes: Some(bytes),
        measured_bytes: bytes,
        unmeasured: 0,
        sizes: Sizes::Stored,
    }
}

fn unmeasured_totals(count: u64) -> Totals {
    Totals {
        count,
        bytes: None,
        measured_bytes: 0,
        unmeasured: count,
        sizes: Sizes::Plaintext,
    }
}

#[test]
fn the_report_carries_the_rounded_and_the_exact_figure() {
    let report = report(&totals(1_234, 1_546_188_226), Units::Binary);
    assert_eq!(report[0], "Total objects: 1,234");
    assert_eq!(
        report[1],
        "Total size (stored): 1.44 GiB (1546188226 bytes)"
    );
}

#[test]
fn a_sealed_total_says_it_is_plaintext() {
    let report = report(
        &Totals {
            count: 5,
            bytes: Some(14_352),
            measured_bytes: 14_352,
            unmeasured: 0,
            sizes: Sizes::Plaintext,
        },
        Units::Binary,
    );
    assert_eq!(report[1], "Total size (plaintext): 14.0 KiB (14352 bytes)");
}

#[test]
fn the_two_bases_are_distinguishable_at_a_glance() {
    let stored = report(&totals(1, 1024), Units::Binary);
    let sealed = report(
        &Totals {
            count: 1,
            bytes: Some(1024),
            measured_bytes: 1024,
            unmeasured: 0,
            sizes: Sizes::Plaintext,
        },
        Units::Binary,
    );
    assert_ne!(stored[1], sealed[1]);
    assert!(stored[1].contains("(1024 bytes)"));
    assert!(sealed[1].contains("(1024 bytes)"));
}

#[test]
fn the_exact_figure_is_never_rounded_or_separated() {
    let report = report(&totals(0, 1_000_000), Units::Decimal);
    assert!(report[1].contains("(1000000 bytes)"), "{}", report[1]);
}

#[test]
fn the_unit_convention_reaches_the_rounded_figure() {
    let totals = totals(1, 1_000_000_000_000);
    assert!(report(&totals, Units::Binary)[1].contains("931.3 GiB"));
    assert!(report(&totals, Units::Decimal)[1].contains("1.00 TB"));
}

#[test]
fn an_empty_vault_reports_zeroes_rather_than_nothing() {
    let report = report(&totals(0, 0), Units::Binary);
    assert_eq!(report[0], "Total objects: 0");
    assert!(report[1].starts_with("Total size (stored): 0 B"));
}

#[test]
fn the_json_shape_is_exact_and_stable() {
    let value = totals(7, 1_546_188_226);
    assert_eq!(value.count, 7);
    assert_eq!(value.bytes, Some(1_546_188_226));
    assert_eq!(value.measured_bytes, 1_546_188_226);
    assert_eq!(value.unmeasured, 0);
    assert_eq!(value.sizes.label(), "stored");
}

#[test]
fn an_unmeasurable_total_is_null_and_says_how_many_rows_caused_it() {
    let mut totals = Totals::new(Sizes::Plaintext);
    for _ in 0..4 {
        totals.add(None);
    }
    assert_eq!(totals, unmeasured_totals(4));
    assert_eq!(totals.count, 4);
    assert_eq!(totals.bytes, None);
    assert_eq!(totals.unmeasured, 4);
    assert_eq!(totals.measured_bytes, 0);
}

#[test]
fn an_unmeasurable_total_reads_as_a_bound_in_text_too() {
    let lines = report(&unmeasured_totals(4), Units::Binary);
    assert!(
        lines[1].contains(SIZE_REPORT_LOWER_BOUND),
        "got: {}",
        lines[1]
    );
    assert_eq!(lines.len(), 3, "the unmeasured count earns its own row");
    assert!(lines[2].starts_with(SIZE_REPORT_LABEL_UNMEASURED));
    assert!(lines[2].ends_with('4'));
}

#[test]
fn a_measured_total_carries_no_qualifier_and_no_extra_row() {
    for measured in [totals(3, 4096), totals(0, 0)] {
        let lines = report(&measured, Units::Binary);
        assert_eq!(lines.len(), 2);
        assert!(
            !lines[1].contains(SIZE_REPORT_LOWER_BOUND),
            "got: {lines:?}"
        );
    }
}

#[test]
fn the_json_shape_names_the_basis_a_sealed_total_used() {
    let value = Totals {
        count: 7,
        bytes: Some(1_546_188_226),
        measured_bytes: 1_546_188_226,
        unmeasured: 0,
        sizes: Sizes::Plaintext,
    };
    assert_eq!(value.sizes.label(), "plaintext");
    assert_eq!(value.count, 7);
    assert_eq!(value.bytes, Some(1_546_188_226));
}

#[test]
fn one_unmeasured_object_makes_the_total_unknown_for_good() {
    let mut totals = Totals::new(Sizes::Stored);
    totals.add(Some(5));
    assert_eq!(totals.bytes, Some(5));
    totals.add(None);
    totals.add(Some(7));
    assert_eq!(totals.bytes, None);
    assert_eq!(totals.measured_bytes, 12);
    assert_eq!((totals.count, totals.unmeasured), (3, 1));
    totals.add(Some(u64::MAX));
    assert_eq!(totals.measured_bytes, u64::MAX);
}

#[test]
fn the_remarks_depend_on_the_basis_and_on_what_is_missing() {
    assert!(notices(&totals(1, 1)).is_empty());
    let said = notices(&unmeasured_totals(1));
    assert_eq!(said.len(), 2);
    assert_eq!((said[0].level, said[0].message.as_str()), (Level::Info, SIZE_PLAINTEXT_NOTE));
    assert_eq!((said[1].level, said[1].message.as_str()), (Level::Warn, SIZE_UNMEASURED_NOTE));
}

#[test]
fn filters_are_validated_before_the_engine_is_reached() {
    let globals = Globals {
        min_size: Some("not-a-size".to_string()),
        ..Globals::default()
    };
    let args = SizeArgs {
        path: Some("vault:".to_string()),
    };
    match prepare(&args, &None, &globals) {
        Ok(_) => panic!("an unusable filter must be refused"),
        Err(error) => assert_eq!(error.code(), ExitCode::Usage),
    }
}

#[test]
fn a_missing_target_is_a_usage_error() {
    match prepare(&SizeArgs { path: None }, &None, &Globals::default()) {
        Ok(_) => panic!("nothing was named"),
        Err(error) => assert_eq!(error.code(), ExitCode::Usage),
    }
}

#[test]
fn the_remote_flag_stands_in_for_a_missing_path() {
    let remote = Some("vault:docs".to_string());
    let named = |path: Option<&str>| {
        let args = SizeArgs {
            path: path.map(str::to_string),
        };
        match prepare(&args, &remote, &Globals::default()) {
            Ok((target, _)) => target.to_text(),
            Err(error) => panic!("{}", error.message()),
        }
    };
    assert_eq!(named(None), "vault:docs");
    assert_eq!(named(Some("vault:photos")), "vault:photos");
}

#[test]
fn one_unmeasured_object_turns_the_total_into_a_bound() {
    let mut sum = Totals::new(Sizes::Plaintext);
    sum.add(Some(10));
    sum.add(Some(5));
    assert_eq!(sum.bytes, Some(15));
    sum.add(None);
    sum.add(Some(1));
    assert_eq!(sum.count, 4);
    assert_eq!(sum.bytes, None);
    assert_eq!(sum.measured_bytes, 16);
    assert_eq!(sum.unmeasured, 1);
}
