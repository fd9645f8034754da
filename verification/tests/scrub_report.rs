use dctl::error::{CliError, ExitCode};
use dctl::globals::Globals;
use dctl::integrity::{Assurance, Verdict, VerifyMode};
use dctl::listing::{Entry, Filter};
use dctl::output::{Format, Level, Units};
use dctl::scrub::engine::{next, settle, Step};
use dctl::scrub::plan::Plan;
use dctl::scrub::report::{
    Record, Rendering, Report, HEALTH_DAMAGED, HEALTH_DEGRADED, HEALTH_HEALTHY, HEALTH_UNVERIFIED,
    SCRUB_NOTHING_VERIFIED,
};
use dctl::scrub::{preamble, prepare, ScrubArgs};

fn clean() -> Report {
    let mut report = Report::new(
        "vault:",
        "strict",
        Assurance::Authenticated,
        100,
        0x0123_4567_89ab_cdef,
        false,
    );
    report.push(Record::new("a.jpg", Verdict::Intact, Some(1024)));
    report.push(Record::new("b.jpg", Verdict::Intact, Some(2048)));
    report
}

fn empty(target: &str, mode: &str, percent: u8, seed: u64) -> Report {
    Report::new(target, mode, Assurance::Authenticated, percent, seed, false)
}

#[test]
fn a_run_that_found_nothing_is_healthy_and_exits_zero() {
    let report = clean();
    assert_eq!(report.health, HEALTH_HEALTHY);
    assert_eq!(report.coverage.scanned, 2);
    assert_eq!(report.coverage.healthy, 2);
    assert_eq!(report.coverage.bytes, Some(3072));
    assert!(report.outcome().is_none());
    assert!(report.findings.is_empty());
}

#[test]
fn repaired_damage_is_degraded_but_does_not_fail_the_run() {
    let mut report = clean();
    report.push(Record::new("c.jpg", Verdict::Corrupt, Some(512)).repaired());
    assert_eq!(report.health, HEALTH_DEGRADED);
    assert_eq!(report.coverage.damaged, 1);
    assert_eq!(report.coverage.repaired, 1);
    assert_eq!(report.coverage.unrepaired(), 0);
    assert!(report.outcome().is_none());
    assert_eq!(report.findings.len(), 1);
}

#[test]
fn unrepairable_damage_is_the_loud_case() {
    let mut report = clean();
    report.push(Record::new("c.jpg", Verdict::Corrupt, Some(512)));
    assert_eq!(report.health, HEALTH_DAMAGED);
    assert_eq!(report.worst(), Verdict::Corrupt);

    let error = report.outcome().expect("unrepaired damage must fail");
    assert_eq!(error.code(), ExitCode::IntegrityFailure);
    assert_eq!(error.code().as_i32(), 21);
    assert!(
        error.message().contains("NOT served"),
        "got: {}",
        error.message()
    );
}

#[test]
fn partly_repaired_damage_is_still_damaged() {
    let mut report = clean();
    report.push(Record::new("c.jpg", Verdict::Corrupt, Some(1)).repaired());
    report.push(Record::new("d.jpg", Verdict::Corrupt, Some(1)));
    assert_eq!(report.coverage.unrepaired(), 1);
    assert_eq!(report.health, HEALTH_DAMAGED);
    assert!(report.outcome().is_some());
}

#[test]
fn a_missing_object_is_not_reported_as_corruption() {
    let mut report = clean();
    report.push(Record::new("gone.jpg", Verdict::Missing, Some(0)));
    assert_eq!(report.health, HEALTH_DAMAGED);
    assert_eq!(report.outcome().unwrap().code(), ExitCode::FileNotFound);
}

#[test]
fn skipped_objects_are_counted_so_coverage_cannot_be_overstated() {
    let mut report = empty("vault:", "sample", 10, 7);
    report.push(Record::new("a", Verdict::Intact, Some(1)));
    report.skip();
    report.skip();
    assert_eq!(report.coverage.scanned, 1);
    assert_eq!(report.coverage.skipped, 2);
    assert_eq!(report.sample_percent, 10);
}

#[test]
fn a_grade_always_says_what_the_reading_could_prove() {
    let mut report = Report::new("store:", "strict", Assurance::ReadBack, 100, 0, false);
    report.push(Record::new("a", Verdict::Intact, Some(1)));
    assert_eq!(report.health, HEALTH_HEALTHY);
    assert_eq!(report.assurance, Assurance::ReadBack.slug());
    assert_ne!(report.assurance, Assurance::Authenticated.slug());
}

#[test]
fn json_carries_the_grade_the_coverage_and_the_replay_seed() {
    let mut report = clean();
    report.push(Record::new("c.jpg", Verdict::Corrupt, Some(512)));
    report.stopped_early();

    assert!(matches!(
        report.render(Format::Json, Units::Binary),
        Rendering::Document
    ));
    assert_eq!(report.target, "vault:");
    assert_eq!(report.health, HEALTH_DAMAGED);
    assert_eq!(report.verify_mode, "strict");
    assert_eq!(report.assurance, Assurance::Authenticated.slug());
    assert_eq!(report.sample_percent, 100);
    assert_eq!(report.seed, "0123456789abcdef");
    assert!(report.stopped_early);
    assert!(!report.repair_enabled);
    assert_eq!(report.coverage.damaged, 1);
    assert_eq!(report.findings[0].status.slug(), "corrupt");
    assert!(!report.findings[0].repaired);
}

#[test]
fn json_lines_emits_one_finding_per_line() {
    let mut report = clean();
    report.push(Record::new("c.jpg", Verdict::Corrupt, Some(1)));
    report.push(Record::new("d.jpg", Verdict::Missing, Some(2)));
    assert!(matches!(
        report.render(Format::JsonLines, Units::Binary),
        Rendering::Lines(2)
    ));
}

#[test]
fn a_run_that_read_nothing_is_not_graded_healthy_and_does_not_exit_zero() {
    let report = empty("vault:typo", "strict", 100, 0);
    assert_eq!(report.coverage.scanned, 0);
    assert_eq!(report.health, HEALTH_UNVERIFIED);
    assert_ne!(report.health, HEALTH_HEALTHY);

    let error = report
        .outcome()
        .expect("a run that verified nothing must not exit zero");
    assert_eq!(error.code(), ExitCode::NoFilesTransferred);
    assert_eq!(error.code().as_i32(), 9);
    assert!(error.message().contains(SCRUB_NOTHING_VERIFIED));
    assert!(
        error.message().contains("vault:typo"),
        "got: {}",
        error.message()
    );
    assert!(error.hint().is_some(), "a refusal must say what to do next");
}

#[test]
fn a_sample_that_selected_nothing_says_so_rather_than_blaming_the_prefix() {
    let mut report = empty("vault:", "sample", 10, 7);
    report.skip();
    report.skip();

    let error = report.outcome().expect("nothing was read");
    assert_eq!(error.code(), ExitCode::NoFilesTransferred);
    assert!(
        error.message().contains("sample"),
        "got: {}",
        error.message()
    );
    assert!(report.summary(Units::Binary).contains("sample"));
}

#[test]
fn a_run_that_covered_nothing_leaves_the_confirmation_to_the_error() {
    let report = empty("vault:typo", "strict", 100, 0);
    assert!(report.announce(Units::Binary).is_none());
    assert!(report.outcome().is_some(), "the error is what reports it");
}

#[test]
fn a_summary_agrees_with_itself_about_one_object() {
    let mut report = empty("vault:", "strict", 100, 0);
    report.push(Record::new("a.jpg", Verdict::Intact, Some(1)));
    let one = report.summary(Units::Binary);
    assert!(one.contains("1 object read"), "got: {one}");
    assert!(!one.contains("1 objects"), "got: {one}");

    report.push(Record::new("b.jpg", Verdict::Intact, Some(1)));
    assert!(report.summary(Units::Binary).contains("2 objects read"));
}

#[test]
fn a_clean_run_still_says_what_it_covered() {
    let summary = clean().summary(Units::Binary);
    assert!(summary.starts_with(HEALTH_HEALTHY), "got: {summary}");
    assert!(summary.contains('2'), "the object count: {summary}");
    assert!(summary.contains("3.00 KiB"), "the byte figure: {summary}");
    assert!(
        summary.contains(Assurance::Authenticated.slug()),
        "got: {summary}"
    );
    assert!(summary.contains("vault:"), "got: {summary}");
}

#[test]
fn an_unmeasured_object_makes_the_byte_total_unknown_rather_than_short() {
    let mut report = empty("vault:", "strict", 100, 0);
    report.push(Record::new("a.jpg", Verdict::Intact, Some(10)));
    report.push(Record::new("b.jpg", Verdict::Intact, None));

    assert_eq!(report.coverage.scanned, 2);
    assert_eq!(report.coverage.bytes, None);
    assert_eq!(
        report.coverage.measured_bytes, 10,
        "the countable part survives"
    );
    assert_eq!(report.coverage.unmeasured, 1);
    assert_eq!(report.health, HEALTH_HEALTHY);
    assert!(report.outcome().is_none());
}

#[test]
fn a_fully_measured_run_publishes_a_real_total_including_a_real_zero() {
    let mut report = empty("vault:", "strict", 100, 0);
    report.push(Record::new("empty.txt", Verdict::Intact, Some(0)));
    assert_eq!(report.coverage.bytes, Some(0));
    assert_eq!(report.coverage.unmeasured, 0);
    assert_eq!(report.health, HEALTH_HEALTHY);
}

#[test]
fn a_healthy_run_lists_nothing_on_stdout() {
    assert!(matches!(
        clean().render(Format::JsonLines, Units::Binary),
        Rendering::Lines(0)
    ));
    assert!(matches!(
        clean().render(Format::Text, Units::Binary),
        Rendering::Table(rows) if rows.is_empty()
    ));
}

#[test]
fn the_text_table_lists_only_the_findings() {
    let mut report = clean();
    report.push(Record::new("c.jpg", Verdict::Corrupt, Some(512)));
    match report.render(Format::Text, Units::Binary) {
        Rendering::Table(rows) => {
            assert_eq!(rows.len(), 1);
            assert_eq!(rows[0].status, "corrupt");
            assert_eq!(rows[0].path, "c.jpg");
            assert_eq!(rows[0].size, "512 B");
        }
        other => panic!("{other:?}"),
    }
}

#[test]
fn the_worst_verdict_stands_whatever_came_after_it() {
    let mut report = clean();
    report.push(Record::new("c", Verdict::Corrupt, None));
    report.push(Record::new("d", Verdict::Unreachable, None));
    assert_eq!(report.worst(), Verdict::Corrupt);
}

fn failure(code: ExitCode) -> dctl::error::Result<()> {
    Err(CliError::new(code, "damaged".to_string()))
}

#[test]
fn a_walk_reads_or_skips_every_object_that_was_asked_for() {
    let filter = Filter::from_globals(&Globals {
        included: vec!["*.jpg".to_string()],
        ..Globals::default()
    })
    .unwrap();
    let plan = Plan::new(100, 1, false, 0).unwrap();
    let mut report = empty("vault:", "strict", 100, 0);
    let picture = Entry::new("a.jpg", 5);
    assert_eq!(
        next(&filter, &plan, "", &Entry::new("a.txt", 1), &mut report),
        Step::Outside
    );
    assert_eq!(next(&filter, &plan, "", &picture, &mut report), Step::Read);
    let settled = settle(&picture, &Ok(()), &plan, 0, &mut report);
    assert!(!settled.stop && settled.notice.is_none());
    let settled = settle(&picture, &failure(ExitCode::IntegrityFailure), &plan, 0, &mut report);
    assert!(settled.stop, "the budget of one is used up");
    assert_eq!(settled.notice.unwrap().message, "corrupt: damaged");
    assert!(report.stopped_early);
    assert_eq!(report.findings[0].path, "a.jpg");
    assert_eq!(report.coverage.scanned, 2);
}

fn args() -> ScrubArgs {
    ScrubArgs {
        target: "vault:".to_string(),
        repair: false,
        sample_percent: 100,
        max_errors: 0,
        allow_read_back: false,
    }
}

#[test]
fn the_arguments_are_checked_before_anything_is_opened() {
    assert!(prepare(&args(), &Globals::default()).is_ok());
    let mut repairing = args();
    repairing.repair = true;
    repairing.sample_percent = 0;
    let error = prepare(&repairing, &Globals::default()).unwrap_err();
    assert!(error.message().contains("--repair"), "{}", error.message());
    let mut nothing = args();
    nothing.sample_percent = 0;
    assert_eq!(
        prepare(&nothing, &Globals::default()).unwrap_err().code(),
        ExitCode::Usage
    );
    let crossed = Globals {
        min_size: Some("2".to_string()),
        max_size: Some("1".to_string()),
        ..Globals::default()
    };
    assert!(prepare(&args(), &crossed).is_err());
}

#[test]
fn a_remote_without_hashes_is_graded_only_on_request() {
    let plan = Plan::new(10, 3, false, 1).unwrap();
    let (said, end) = preamble("store:", &plan, VerifyMode::Sample, Assurance::ReadBack, false);
    assert_eq!(said.len(), 2);
    assert_eq!(end.unwrap_err().code(), ExitCode::VerificationNotPossible);
    let (said, end) = preamble("store:", &plan, VerifyMode::Strict, Assurance::ReadBack, true);
    assert!(end.is_ok());
    let levels: Vec<Level> = said.iter().map(|notice| notice.level).collect();
    assert_eq!(levels, [Level::Info, Level::Warn, Level::Warn, Level::Warn]);
}

#[test]
fn a_run_succeeds_only_where_something_was_read_and_nothing_is_left_damaged() {
    let run = [
        ("a", Verdict::Intact, false),
        ("b", Verdict::Missing, true),
        ("c", Verdict::Intact, false),
        ("d", Verdict::Unreachable, false),
        ("e", Verdict::Corrupt, true),
    ];
    let mut report = empty("vault:", "strict", 50, 1);
    let mut damaged: Vec<&str> = Vec::new();
    assert!(report.outcome().is_some(), "nothing was read");
    for (path, verdict, repaired) in run {
        let record = Record::new(path, verdict, Some(1));
        report.skip();
        report.push(if repaired { record.repaired() } else { record });
        if verdict != Verdict::Intact {
            damaged.push(path);
        }
        let listed: Vec<&str> = report.findings.iter().map(|f| f.path.as_str()).collect();
        assert_eq!(listed, damaged, "after {path}");
        assert_eq!(report.coverage.damaged, damaged.len() as u64, "after {path}");
        assert_eq!(report.worst() != Verdict::Intact, !damaged.is_empty(), "after {path}");
        assert_eq!(
            report.outcome().is_none(),
            report.coverage.scanned > 0 && report.coverage.unrepaired() == 0,
            "after {path}"
        );
    }
    assert_eq!(report.coverage.unrepaired(), 1);
    assert_eq!(report.outcome().unwrap().code(), ExitCode::IntegrityFailure);
    report.stopped_early();
    assert_eq!(report.findings.len(), 3);
}

#[test]
fn only_damage_reaches_standard_output_but_the_document_always_does() {
    let mut report = clean();
    report.skip();
    for (path, verdict) in [("x", Verdict::Missing), ("w", Verdict::Corrupt)] {
        let before = report.findings.len();
        match report.render(Format::Text, Units::Binary) {
            Rendering::Table(rows) => assert_eq!(rows.len(), before),
            other => panic!("{other:?}"),
        }
        match report.render(Format::JsonLines, Units::Binary) {
            Rendering::Lines(n) => assert_eq!(n, before),
            other => panic!("{other:?}"),
        }
        assert!(matches!(report.render(Format::Json, Units::Binary), Rendering::Document));
        report.push(Record::new(path, verdict, Some(1)));
    }
    match report.render(Format::Text, Units::Binary) {
        Rendering::Table(rows) => {
            let paths: Vec<&str> = rows.iter().map(|row| row.path.as_str()).collect();
            assert_eq!(paths, ["x", "w"], "in the order in which they were found");
        }
        other => panic!("{other:?}"),
    }
}
