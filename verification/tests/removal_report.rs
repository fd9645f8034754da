use dctl::constants::{
    REMOVAL_KIND_DIRECTORY, REMOVAL_KIND_OBJECT, REMOVAL_KIND_STAGING, REMOVAL_SIZE_ABSENT,
    REMOVAL_STATUS_FAILED, REMOVAL_STATUS_NOT_STAGED, REMOVAL_STATUS_PLANNED,
    REMOVAL_STATUS_REMOVED, REMOVAL_STATUS_SUMMARY, REMOVAL_STATUS_UNSUPPORTED,
    REMOVAL_STATUS_WOULD_REMOVE,
};
use dctl::error::{CliError, ExitCode};
use dctl::output::{Format, Level, Units};
use dctl::removal::plan::{Emission, NoOptions, Plan};
use dctl::removal::remove::{begin, next, settle};
use dctl::removal::report::{text_line, Closing, Record, Report, Totals};
use dctl::removal::selection::Item;
use dctl::removal::target::Target;

fn item(path: &str, size: u64) -> Item {
    Item {
        path: path.to_string(),
        size: Some(size),
        kind: REMOVAL_KIND_OBJECT,
    }
}

fn record(status: &'static str, path: &str, size: Option<u64>) -> Record {
    Record {
        status,
        path: Some(path.to_string()),
        size,
        kind: Some(REMOVAL_KIND_OBJECT),
        reason: None,
    }
}

fn report(dry_run: bool) -> Report {
    Report::new(Format::Text, Units::Binary, dry_run)
}

#[test]
fn a_dry_run_never_says_removed() {
    let mut report = report(true);
    report.would_remove(&item("a.txt", 10));

    let totals = report.totals();
    assert!(totals.dry_run);
    assert_eq!(totals.would_remove, 1);
    assert_eq!(totals.removed, 0);
    assert_eq!(totals.bytes, Some(10));
    assert_eq!(report.stats.files_deleted, 0);
}

#[test]
fn a_removal_moves_the_counter_the_summary_reads() {
    let mut report = report(false);
    report.removed(&item("a.txt", 4));
    report.removed(&item("b.txt", 6));

    assert_eq!(report.totals().removed, 2);
    assert_eq!(report.totals().bytes, Some(10));
    assert_eq!(report.stats.files_deleted, 2);
    assert_eq!(report.stats.errors, 0);
}

#[test]
fn a_failure_is_counted_as_an_error_and_never_as_a_removal() {
    let mut report = report(false);
    report.removed(&item("a.txt", 4));
    report.failed(&item("b.txt", 6), "permission denied");

    assert_eq!(report.totals().removed, 1);
    assert_eq!(report.totals().failed, 1);
    assert_eq!(report.totals().bytes, Some(4));
    assert_eq!(report.stats.errors, 1);
    assert_eq!(report.stats.outcome(), ExitCode::PartialFailure);
}

#[test]
fn an_object_that_vanished_is_neither_removed_nor_failed() {
    let mut report = report(false);
    report.absent(&item("gone.txt", 3));

    let totals = report.totals();
    assert_eq!(totals.absent, 1);
    assert_eq!(totals.removed, 0);
    assert_eq!(totals.failed, 0);
    assert_eq!(totals.bytes, Some(0), "nothing stopped being billed");
    assert_eq!(report.stats.errors, 0);
}

#[test]
fn the_byte_total_saturates_rather_than_wrapping() {
    let mut report = report(false);
    report.removed(&item("a", u64::MAX));
    report.removed(&item("b", 1));
    assert_eq!(report.totals().bytes, Some(u64::MAX));
}

#[test]
fn a_class_this_backend_does_not_have_is_neither_an_error_nor_a_removal() {
    let mut report = report(false);
    report.not_staged(
        REMOVAL_KIND_STAGING,
        "this backend uploads straight to the final key",
    );

    let totals = report.totals();
    assert_eq!(totals.not_staged, 1);
    assert_eq!(totals.unsupported, 0, "it is not the same answer");
    assert_eq!(totals.removed, 0);
    assert_eq!(totals.failed, 0);
    assert_eq!(report.stats.errors, 0, "nothing failed");
    assert_eq!(report.stats.outcome(), ExitCode::Success);
}

#[test]
fn the_two_answers_that_are_not_counts_are_distinguishable_in_the_json() {
    let mut report = report(false);
    let inapplicable = report.not_staged(REMOVAL_KIND_STAGING, "never stages").record;
    let unavailable = report.unsupported(REMOVAL_KIND_STAGING, "no API").record;
    assert_ne!(inapplicable.status, unavailable.status);
    assert_eq!(inapplicable.status, REMOVAL_STATUS_NOT_STAGED);
}

#[test]
fn every_format_completes_a_report_without_error() {
    for format in [Format::Text, Format::Json, Format::JsonLines] {
        let mut report = Report::new(format, Units::Binary, false);
        report.removed(&item("a.txt", 1));
        report.failed(&item("b.txt", 1), "nope");
        match report.finish() {
            Closing::Summary { totals, .. } => {
                assert_ne!(format, Format::Text);
                assert_eq!(totals.failed, 1);
            }
            Closing::Spoken(notice) => {
                assert_eq!(format, Format::Text);
                assert_eq!(notice.level, Level::Error);
            }
        }
    }
}

#[test]
fn the_summary_record_carries_its_status_beside_the_counters() {
    let mut report = Report::new(Format::JsonLines, Units::Binary, true);
    for _ in 0..3 {
        report.would_remove(&item("a", 33));
    }
    match report.finish() {
        Closing::Summary { status, totals } => {
            assert_eq!(status, REMOVAL_STATUS_SUMMARY);
            assert_eq!(totals.would_remove, 3);
            assert_eq!(totals.removed, 0);
            assert_eq!(totals.bytes, Some(99));
            assert!(totals.dry_run);
        }
        Closing::Spoken(notice) => panic!("{notice:?}"),
    }
}

#[test]
fn a_record_omits_what_it_does_not_know() {
    let mut report = report(false);
    let record = report.unsupported(REMOVAL_KIND_DIRECTORY, "no API").record;
    assert_eq!(record.status, REMOVAL_STATUS_UNSUPPORTED);
    assert!(record.path.is_none());
    assert!(record.size.is_none());
    assert_eq!(record.reason.as_deref(), Some("no API"));
}

#[test]
fn the_text_line_puts_the_path_last_and_in_a_stable_column() {
    let removed = text_line(
        &record(REMOVAL_STATUS_REMOVED, "a/b.txt", Some(1024)),
        Units::Binary,
    );
    let would = text_line(
        &record(REMOVAL_STATUS_WOULD_REMOVE, "a/b.txt", Some(1024)),
        Units::Binary,
    );
    assert!(removed.ends_with("a/b.txt"), "{removed:?}");
    assert!(removed.contains("1.00 KiB"), "{removed:?}");
    assert_eq!(
        removed.find("1.00 KiB"),
        would.find("1.00 KiB"),
        "columns must not move with the status:\n{removed:?}\n{would:?}"
    );
}

#[test]
fn an_unmeasured_line_prints_a_dash_rather_than_a_zero() {
    let line = text_line(&record(REMOVAL_STATUS_FAILED, "a.txt", None), Units::Binary);
    assert!(line.contains(REMOVAL_SIZE_ABSENT), "{line:?}");
    assert!(!line.contains(" 0 B"), "{line:?}");
}

#[test]
fn sizes_follow_the_run_s_chosen_units() {
    let binary = text_line(
        &record(REMOVAL_STATUS_REMOVED, "a", Some(1000)),
        Units::Binary,
    );
    let decimal = text_line(
        &record(REMOVAL_STATUS_REMOVED, "a", Some(1000)),
        Units::Decimal,
    );
    assert_ne!(binary, decimal, "units must reach the report");
}

#[test]
fn a_plan_opens_the_document_in_every_format() {
    let target = Target::parse("vault:photos").unwrap();
    let options = NoOptions {};
    let plan = Plan::new("delete", &target, true, None, &options);
    assert_eq!(plan.status, REMOVAL_STATUS_PLANNED);
    let text = report(true).plan(&plan);
    assert!(matches!(text, Emission::Table(rows) if rows.len() == 3));
    let json = Report::new(Format::Json, Units::Binary, true);
    assert!(matches!(json.plan(&plan), Emission::Document));
}

#[test]
fn an_unmeasured_object_makes_the_total_unknown() {
    let mut report = report(false);
    report.removed(&item("a", 7));
    report.removed(&Item {
        path: "b".to_string(),
        size: None,
        kind: REMOVAL_KIND_OBJECT,
    });
    let totals = report.totals();
    assert_eq!(totals.bytes, None);
    assert_eq!(totals.measured_bytes, 7);
    assert_eq!(totals.unmeasured, 1);
}

#[test]
fn a_run_counts_every_item_once_and_a_failure_shows() {
    let items = vec![item("a", 1), item("b", 2), item("c", 4)];
    let mut report = report(false);
    begin(&items, &mut report);
    assert_eq!(report.stats.files_total, 3);
    let outcomes = [
        Ok(true),
        Ok(false),
        Err(CliError::new(ExitCode::TemporaryError, "provider said no".to_string())),
    ];
    let codes = [
        ExitCode::Success,
        ExitCode::FileNotFound,
        ExitCode::TemporaryError,
    ];
    for ((item, outcome), code) in items.iter().zip(&outcomes).zip(codes) {
        assert!(next(item, &mut report).is_none());
        let (_, entry) = settle("delete", "vault", item, outcome, &mut report);
        assert_eq!(entry.code, code);
        assert_eq!(entry.path, item.path);
        assert_eq!(entry.remote, "vault");
    }
    let totals = report.totals();
    assert_eq!((totals.removed, totals.absent, totals.failed), (1, 1, 1));
    assert_eq!(totals.bytes, Some(1));
    assert_eq!(report.stats.outcome(), ExitCode::PartialFailure);
}

#[test]
fn a_dry_run_never_reaches_the_store() {
    let mut report = report(true);
    let written = next(&item("a", 3), &mut report).expect("only recorded");
    assert_eq!(written.record.status, REMOVAL_STATUS_WOULD_REMOVE);
    assert_eq!(
        report.totals(),
        Totals {
            dry_run: true,
            would_remove: 1,
            bytes: Some(3),
            measured_bytes: 3,
            ..Totals::default()
        }
    );
}
