use dctl::error::{CliError, ExitCode, Result};
use dctl::globals::Globals;
use dctl::integrity::{Assurance, VerifyMode};
use dctl::listing::{Entry, Filter};
use dctl::scrub::engine::{decide, next, settle, Step};
use dctl::scrub::plan::{Plan, SCRUB_FULL_SAMPLE_PERCENT, SCRUB_MAX_ERRORS_UNLIMITED};
use dctl::scrub::report::{Report, HEALTH_HEALTHY};
use dctl::scrub::{preamble, prepare, ScrubArgs};

/// A store in memory. A damaged one fails to authenticate whatever is read from it.
struct Source {
    files: Vec<(String, u64)>,
    damaged: bool,
}

fn store(files: &[(&str, u64)]) -> Source {
    Source {
        files: files.iter().map(|(path, size)| (path.to_string(), *size)).collect(),
        damaged: false,
    }
}

impl Source {
    fn read(&self) -> Result<()> {
        if self.damaged {
            Err(CliError::new(
                ExitCode::IntegrityFailure,
                "the object does not authenticate".to_string(),
            ))
        } else {
            Ok(())
        }
    }
}

fn scrub(source: &Source, prefix: &str, filter: &Filter, plan: &Plan, report: &mut Report) {
    let mut errors = 0;
    for (path, size) in &source.files {
        let entry = Entry::new(path, *size);
        if next(filter, plan, prefix, &entry, report) != Step::Read {
            continue;
        }
        let settled = settle(&entry, &source.read(), plan, errors, report);
        errors = settled.errors;
        if settled.stop {
            break;
        }
    }
}

fn report() -> Report {
    Report::new("store:", "strict", Assurance::ReadBack, 100, 0, false)
}

fn sealed_report() -> Report {
    Report::new("archive:", "strict", Assurance::Authenticated, 100, 0, false)
}

fn full_plan() -> Plan {
    Plan::new(SCRUB_FULL_SAMPLE_PERCENT, SCRUB_MAX_ERRORS_UNLIMITED, false, 0)
        .expect("the default plan is valid")
}

#[test]
fn every_object_is_read_back_and_counted() {
    let source = store(&[("a.txt", 1), ("sub/b.txt", 2)]);
    let mut report = report();
    scrub(&source, "", &Filter::default(), &full_plan(), &mut report);
    assert_eq!(report.coverage.scanned, 2);
    assert_eq!(report.coverage.healthy, 2);
    assert_eq!(report.coverage.bytes, Some(3));
    assert_eq!(report.coverage.skipped, 0);
    assert!(report.outcome().is_none());
}

#[test]
fn objects_the_sample_passes_over_are_counted_rather_than_forgotten() {
    let source = Source {
        files: (0..200).map(|n| (format!("f{n:03}.bin"), 1)).collect(),
        damaged: false,
    };
    let plan = Plan::new(10, SCRUB_MAX_ERRORS_UNLIMITED, false, 4_242).unwrap();
    let mut report = report();
    scrub(&source, "", &Filter::default(), &plan, &mut report);
    assert_eq!(report.coverage.scanned + report.coverage.skipped, 200);
    assert!(report.coverage.skipped > 0, "a 10% sample must skip most");
    assert!(report.coverage.scanned > 0, "and must still read some");
}

#[test]
fn a_prefix_scopes_the_scrub_to_whole_components() {
    let source = store(&[("photos/a.jpg", 1), ("photos-backup/b.jpg", 1), ("other/c.jpg", 1)]);
    let mut report = report();
    scrub(&source, "photos", &Filter::default(), &full_plan(), &mut report);
    assert_eq!(report.coverage.scanned, 1);
}

#[test]
fn damaged_objects_are_found_named_and_fail_the_run() {
    let mut source = store(&[("a.txt", 3), ("b.txt", 3)]);
    source.damaged = true;
    let mut report = sealed_report();
    scrub(&source, "", &Filter::default(), &full_plan(), &mut report);
    assert_eq!(report.coverage.scanned, 2);
    assert_eq!(report.coverage.damaged, 2);
    assert_eq!(report.coverage.healthy, 0);
    assert_eq!(report.findings.len(), 2, "every damaged object is named");
    assert_eq!(report.findings[0].path, "a.txt");

    let error = report.outcome().expect("unrepaired damage must fail");
    assert_eq!(error.code(), ExitCode::IntegrityFailure);
    assert_eq!(error.code().as_i32(), 21);
}

#[test]
fn an_intact_vault_reads_back_clean() {
    let source = store(&[("a.txt", 3), ("sub/b.txt", 3)]);
    let mut report = sealed_report();
    scrub(&source, "", &Filter::default(), &full_plan(), &mut report);
    assert_eq!(report.coverage.healthy, 2);
    assert_eq!(report.coverage.damaged, 0);
    assert!(report.outcome().is_none());
    assert!(report.findings.is_empty());
    assert_eq!(report.health, HEALTH_HEALTHY);
}

#[test]
fn a_bounded_budget_stops_early_and_the_report_admits_it() {
    let mut source = store(&[("a.txt", 1), ("b.txt", 1), ("c.txt", 1)]);
    source.damaged = true;
    let plan = Plan::new(SCRUB_FULL_SAMPLE_PERCENT, 1, false, 0).unwrap();
    assert!(plan.is_bounded());
    let mut report = sealed_report();
    scrub(&source, "", &Filter::default(), &plan, &mut report);
    assert!(report.stopped_early, "the budget was reached");
    assert_eq!(report.coverage.damaged, 1);
    assert_eq!(
        report.coverage.scanned, 1,
        "the object that exhausted the budget is still recorded"
    );
}

#[test]
fn an_unlimited_budget_never_stops_early() {
    let source = store(&[("a.txt", 1), ("b.txt", 1), ("c.txt", 1)]);
    let plan = full_plan();
    assert!(!plan.is_bounded(), "0 means unlimited, not a budget of zero");
    let mut report = report();
    scrub(&source, "", &Filter::default(), &plan, &mut report);
    assert!(!report.stopped_early);
    assert_eq!(report.coverage.scanned, 3);
}

#[test]
fn filters_narrow_what_is_read() {
    let source = store(&[("a.jpg", 1), ("b.txt", 2)]);
    let globals = Globals {
        included: vec!["*.jpg".to_string()],
        ..Globals::default()
    };
    let filter = Filter::from_globals(&globals).expect("the pattern compiles");
    let mut report = report();
    scrub(&source, "", &filter, &full_plan(), &mut report);
    assert_eq!(report.coverage.scanned, 1);
}

fn args(target: &str, repair: bool) -> ScrubArgs {
    ScrubArgs {
        target: target.to_string(),
        repair,
        sample_percent: SCRUB_FULL_SAMPLE_PERCENT,
        max_errors: SCRUB_MAX_ERRORS_UNLIMITED,
        allow_read_back: false,
    }
}

fn refusal(args: &ScrubArgs, globals: &Globals) -> CliError {
    match prepare(args, globals) {
        Ok(_) => panic!("the run must be refused"),
        Err(error) => error,
    }
}

#[test]
fn a_local_target_is_a_usage_error() {
    let error = refusal(&args("./photos", false), &Globals::default());
    assert_eq!(error.code(), ExitCode::Usage);
}

#[test]
fn repair_is_refused_rather_than_quietly_ignored() {
    let error = refusal(&args("vault:", true), &Globals::default());
    assert_eq!(error.code(), ExitCode::Usage);
    assert!(error.message().contains("--repair"));
    let hint = error.hint().expect("a refusal must say what to do next");
    assert!(hint.contains("§13.3"), "got: {hint}");
}

#[test]
fn a_dry_run_does_not_soften_the_repair_refusal() {
    let globals = Globals {
        dry_run: true,
        ..Globals::default()
    };
    assert_eq!(refusal(&args("vault:", true), &globals).code(), ExitCode::Usage);
}

#[test]
fn the_run_is_prepared_from_what_was_asked_for() {
    let mut asked = args("vault:photos", false);
    asked.sample_percent = 10;
    asked.max_errors = 5;
    let prepared = match prepare(&asked, &Globals::default()) {
        Ok(prepared) => prepared,
        Err(error) => panic!("{}", error.message()),
    };
    assert_eq!(prepared.target.to_text(), "vault:photos");
    assert_eq!(prepared.plan.sample_percent(), 10);
    assert_eq!(prepared.plan.max_errors(), 5);
    assert!(!prepared.plan.repairs());

    asked.sample_percent = 0;
    assert_eq!(refusal(&asked, &Globals::default()).code(), ExitCode::Usage);
    asked.sample_percent = 101;
    assert_eq!(refusal(&asked, &Globals::default()).code(), ExitCode::Usage);
}

#[test]
fn a_plain_remote_is_refused_rather_than_graded_healthy() {
    let (_, gate) = preamble(
        "store:",
        &full_plan(),
        VerifyMode::Strict,
        Assurance::ReadBack,
        false,
    );
    let error = gate.expect_err("a remote that cannot detect rot must not be graded healthy");
    assert_eq!(error.code(), ExitCode::VerificationNotPossible);
    assert_eq!(error.code().as_i32(), 27);
    assert_ne!(error.code(), ExitCode::IntegrityFailure);
}

#[test]
fn a_clean_remote_scrubs_to_healthy_and_exits_zero() {
    let (_, gate) = preamble(
        "store:",
        &full_plan(),
        VerifyMode::Strict,
        Assurance::ReadBack,
        true,
    );
    assert!(gate.is_ok());
    let source = store(&[("a.txt", 1), ("sub/b.txt", 2)]);
    let mut report = report();
    scrub(&source, "", &Filter::default(), &full_plan(), &mut report);
    assert!(report.outcome().is_none(), "an intact remote must not fail the run");
}

#[test]
fn a_bucket_is_in_the_sample_below_the_share() {
    let tenth = Plan::new(10, SCRUB_MAX_ERRORS_UNLIMITED, false, 7).unwrap();
    assert!(tenth.selects_bucket(0));
    assert!(tenth.selects_bucket(9));
    assert!(!tenth.selects_bucket(10));
    assert!(full_plan().selects_bucket(99));
    let path = "photos/a.jpg";
    assert_eq!(tenth.selects(path), tenth.selects_bucket(tenth.bucket(path)));
}

#[test]
fn only_what_was_asked_for_is_counted() {
    let mut report = report();
    assert_eq!(decide(false, true, &mut report), Step::Outside);
    assert_eq!(decide(true, true, &mut report), Step::Read);
    assert_eq!(report.coverage.skipped, 0);
    assert_eq!(decide(true, false, &mut report), Step::Skipped);
    assert_eq!(report.coverage.skipped, 1);
}

#[test]
fn a_prefix_scrubs_only_what_is_under_it() {
    let source = store(&[("photos/a.jpg", 1), ("other/b.jpg", 1)]);
    let mut report = report();
    scrub(&source, "photos", &Filter::default(), &full_plan(), &mut report);
    assert_eq!(report.coverage.scanned, 1);
    assert!(report.outcome().is_none(), "the prefix reads back clean");
}

#[test]
fn an_out_of_range_sample_is_rejected_by_the_parser() {
    let share = |percent: u8| Plan::new(percent, SCRUB_MAX_ERRORS_UNLIMITED, false, 0);
    assert!(share(0).is_err());
    assert!(share(101).is_err());
    assert!(share(1).is_ok());
}
