use dctl::constants::{
    PLAN_REASON_CHECKSUM, PLAN_REASON_EXISTS, PLAN_REASON_IDENTICAL, PLAN_REASON_MISSING,
};
use dctl::error::{CliError, ExitCode, Result};
use dctl::integrity::VerifyMode;
use dctl::output::{Format, Level, Units};
use dctl::replicate::execute::{
    begin, describe, fetched, judge_digest, matched, record, start, step, Ends, Job, Next, Replicated, Stage,
    REPLICATE_REASON_MISMATCH, REPLICATE_REASON_TOO_LARGE, REPLICATE_REASON_UNREADABLE,
    REPLICATE_REASON_UNWRITABLE, REPLICATE_SAMPLE_WINDOW_BYTES, REPLICATE_WHOLE_OBJECT_LIMIT,
};
use dctl::replicate::objects::Objects;
use dctl::replicate::plan::{Action, Item, Plan, Summary};
use dctl::replicate::report::{Rendering, Report};
use dctl::replicate::target::{Standing, Store};
use dctl::replicate::{closing, opening, planned, rehearsal};
use dctl::stats::Stats;

fn ends() -> Ends {
    Ends {
        source: "primary-store:".to_string(),
        destination: "offsite-store:".to_string(),
    }
}

fn item(action: Action, body: &[u8], reason: &'static str) -> Item {
    Item {
        action,
        key: "data/aa".to_string(),
        size: body.len() as u64,
        reason,
    }
}

fn refusal(code: ExitCode, message: &str) -> Result<Vec<u8>> {
    Err(CliError::new(code, message.to_string()))
}

/// Hands the answers over one by one, and checks which stage asks for each.
fn drive(
    item: &Item,
    verify: VerifyMode,
    answers: Vec<(Stage, Result<Vec<u8>>)>,
    stats: &mut Stats,
) -> Replicated {
    let mut next = start(item, verify, Units::Binary, stats);
    for (stage, answer) in answers {
        match next {
            Next::Go(job) => {
                assert_eq!(job.stage, stage);
                next = step(job, answer, &ends(), stats);
            }
            Next::End(done) => panic!("ended early: {done:?}"),
        }
    }
    match next {
        Next::End(done) => done,
        Next::Go(job) => panic!("still waiting: {job:?}"),
    }
}

#[test]
fn every_object_arrives_under_the_same_key_with_the_same_bytes() {
    let body = b"first object".to_vec();
    let mut stats = Stats::default();
    let wanted = item(Action::Replicate, &body, PLAN_REASON_MISSING);
    let job = match start(&wanted, VerifyMode::Checksum, Units::Binary, &mut stats) {
        Next::Go(job) => job,
        Next::End(done) => panic!("{done:?}"),
    };
    let job = match step(job, Ok(body.clone()), &ends(), &mut stats) {
        Next::Go(job) => job,
        Next::End(done) => panic!("{done:?}"),
    };
    assert_eq!(job.stage, Stage::Write);
    assert_eq!(job.bytes, body);
    assert_eq!(job.item.key, "data/aa");
    match step(job, Ok(Vec::new()), &ends(), &mut stats) {
        Next::End(done) => {
            assert_eq!(done.item.action, Action::Replicate);
            assert_eq!(done.item.reason, PLAN_REASON_MISSING);
        }
        Next::Go(job) => panic!("{job:?}"),
    }
    assert_eq!(stats.files_done, 1);
    assert_eq!(stats.bytes_done, 12);
    assert_eq!(stats.bytes_verified, 12);
    assert_eq!(stats.outcome(), ExitCode::Success);
}

#[test]
fn the_digest_that_is_logged_is_that_of_the_sealed_bytes() {
    let mut stats = Stats::default();
    let wanted = item(Action::Replicate, b"abc", PLAN_REASON_MISSING);
    let done = drive(
        &wanted,
        VerifyMode::Checksum,
        vec![(Stage::Read, Ok(b"abc".to_vec())), (Stage::Write, Ok(Vec::new()))],
        &mut stats,
    );
    assert_eq!(
        done.hash,
        "6437b3ac38465133ffb63b75273a8db548c558465d79db03fd359c6cd5bd9d85"
    );
    let entry = record(&done, "offsite-store");
    assert_eq!(entry.op, "replicate");
    assert_eq!(entry.code, ExitCode::Success);
    assert_eq!(entry.path, "data/aa");
    assert_eq!(entry.ciphertext_hash, done.hash);
    assert_eq!(entry.remote, "offsite-store");
}

#[test]
fn strict_notices_a_replica_that_was_corrupted_in_place() {
    let good = b"good bytes".to_vec();
    let mut stats = Stats::default();
    let done = drive(
        &item(Action::Reverify, &good, PLAN_REASON_EXISTS),
        VerifyMode::Strict,
        vec![
            (Stage::Read, Ok(good.clone())),
            (Stage::Compare, Ok(b"evil bytes".to_vec())),
            (Stage::Write, Ok(Vec::new())),
            (Stage::Check, Ok(good.clone())),
        ],
        &mut stats,
    );
    assert_eq!(done.item.action, Action::Replicate, "it must be replaced");
    assert_eq!(done.item.reason, PLAN_REASON_CHECKSUM);
    assert_eq!(stats.outcome(), ExitCode::Success);
}

#[test]
fn a_copy_that_cannot_be_read_is_written_again() {
    let body = b"body".to_vec();
    let mut stats = Stats::default();
    let done = drive(
        &item(Action::Reverify, &body, PLAN_REASON_EXISTS),
        VerifyMode::Strict,
        vec![
            (Stage::Read, Ok(body.clone())),
            (Stage::Compare, refusal(ExitCode::TemporaryError, "timed out")),
            (Stage::Write, Ok(Vec::new())),
            (Stage::Check, Ok(body.clone())),
        ],
        &mut stats,
    );
    assert_eq!(done.item.action, Action::Replicate);
    assert_eq!(done.item.reason, PLAN_REASON_CHECKSUM);
}

#[test]
fn a_clean_replica_survives_a_strict_run_untouched() {
    let body = b"body".to_vec();
    let mut stats = Stats::default();
    let done = drive(
        &item(Action::Reverify, &body, PLAN_REASON_EXISTS),
        VerifyMode::Strict,
        vec![
            (Stage::Read, Ok(body.clone())),
            (Stage::Compare, Ok(body.clone())),
        ],
        &mut stats,
    );
    assert_eq!(done.item.action, Action::Reverify);
    assert_eq!(done.item.reason, PLAN_REASON_IDENTICAL);
    assert_eq!(stats.files_skipped, 1);
    assert_eq!(stats.bytes_done, 4);
    assert_eq!(stats.bytes_verified, 4);
    assert_eq!(stats.outcome(), ExitCode::Success);
}

#[test]
fn sampling_reads_a_window_back_and_accepts_a_good_one() {
    let body = b"sampled body".to_vec();
    let sample = |served: Result<Vec<u8>>| {
        let mut stats = Stats::default();
        let done = drive(
            &item(Action::Replicate, &body, PLAN_REASON_MISSING),
            VerifyMode::Sample,
            vec![
                (Stage::Read, Ok(body.clone())),
                (Stage::Write, Ok(Vec::new())),
                (Stage::Check, served),
            ],
            &mut stats,
        );
        (done.item.action, stats.outcome())
    };
    assert_eq!(sample(Ok(body.clone())), (Action::Replicate, ExitCode::Success));
    for short in [&b"samp"[..], &b""[..], &b"sampled bod"[..]] {
        assert_eq!(
            sample(Ok(short.to_vec())),
            (Action::Failed, ExitCode::ChecksumMismatch),
            "an answer shorter than the window serves nothing back"
        );
    }
    assert_eq!(
        sample(Ok(b"sAmp".to_vec())),
        (Action::Failed, ExitCode::ChecksumMismatch)
    );
    assert_eq!(
        sample(Ok(b"sampled body and more".to_vec())),
        (Action::Failed, ExitCode::ChecksumMismatch)
    );
    assert_eq!(
        sample(refusal(ExitCode::TemporaryError, "gone")),
        (Action::Failed, ExitCode::ChecksumMismatch)
    );
}

#[test]
fn the_window_is_never_longer_than_the_object() {
    let job = |verify: VerifyMode, length: usize| Job {
        item: item(Action::Replicate, &[], PLAN_REASON_MISSING),
        verify,
        stage: Stage::Check,
        bytes: vec![7; length],
        expected: [0; 32],
    };
    assert_eq!(job(VerifyMode::Sample, 10).window(), 10);
    assert_eq!(
        job(VerifyMode::Sample, 100_000).window(),
        REPLICATE_SAMPLE_WINDOW_BYTES
    );
    assert_eq!(job(VerifyMode::Strict, 100_000).window(), 100_000);
}

#[test]
fn a_strict_read_back_of_other_bytes_is_a_mismatch() {
    let mut stats = Stats::default();
    let done = drive(
        &item(Action::Replicate, b"body", PLAN_REASON_MISSING),
        VerifyMode::Strict,
        vec![
            (Stage::Read, Ok(b"body".to_vec())),
            (Stage::Write, Ok(Vec::new())),
            (Stage::Check, Ok(b"BODY".to_vec())),
        ],
        &mut stats,
    );
    assert_eq!(done.item.action, Action::Failed);
    assert_eq!(done.item.reason, REPLICATE_REASON_MISMATCH);
    assert_eq!(record(&done, "r").code, ExitCode::ChecksumMismatch);
    let notice = done.notice.expect("a failure is said out loud");
    assert_eq!(notice.level, Level::Error);
    assert_eq!(
        notice.message,
        "'data/aa' was stored at 'offsite-store:', but what it serves back has a different BLAKE3 from the source object"
    );
}

#[test]
fn one_failed_object_neither_stops_the_run_nor_is_reported_as_done() {
    let mut source = Objects::default();
    source.insert("data/aa".to_string(), 4);
    source.insert("data/gone".to_string(), 9);
    let plan = Plan::decide(&source, &Objects::default(), VerifyMode::Checksum);
    let mut stats = Stats::default();
    let mut outcome = begin(&plan, &mut stats);
    assert_eq!(stats.files_total, 2);
    assert_eq!(stats.bytes_total, 13);
    for item in plan.items() {
        let answers = if item.key == "data/gone" {
            vec![(Stage::Read, refusal(ExitCode::FileNotFound, "no such object"))]
        } else {
            vec![
                (Stage::Read, Ok(b"fine".to_vec())),
                (Stage::Write, Ok(Vec::new())),
            ]
        };
        let done = drive(item, VerifyMode::Checksum, answers, &mut stats);
        outcome.tally(done.item);
    }
    assert_eq!(outcome.summary.replicated, 1, "the reachable object moved");
    assert_eq!(outcome.summary.failed, 1);
    let failure = outcome
        .items
        .iter()
        .find(|item| item.action == Action::Failed)
        .expect("the failure must be in the report");
    assert_eq!(failure.reason, REPLICATE_REASON_UNREADABLE);
    assert_eq!(stats.outcome(), ExitCode::PartialFailure);
}

#[test]
fn a_second_run_moves_nothing_and_says_so() {
    let mut store = Objects::default();
    store.insert("data/aa".to_string(), 4);
    let plan = Plan::decide(&store, &store, VerifyMode::Checksum);
    let mut stats = Stats::default();
    let mut outcome = begin(&plan, &mut stats);
    for item in plan.items() {
        outcome.skip(item, &mut stats);
    }
    assert_eq!(outcome.summary.replicated, 0);
    assert_eq!(outcome.summary.skipped, 1);
    assert_eq!(stats.files_skipped, 1);
}

#[test]
fn a_store_that_refuses_is_told_apart_from_one_that_stored_wrong_bytes() {
    for (code, reason, end) in [
        (
            ExitCode::ChecksumMismatch,
            REPLICATE_REASON_MISMATCH,
            ExitCode::ChecksumMismatch,
        ),
        (
            ExitCode::TemporaryError,
            REPLICATE_REASON_UNWRITABLE,
            ExitCode::PartialFailure,
        ),
    ] {
        let mut stats = Stats::default();
        let done = drive(
            &item(Action::Replicate, b"x", PLAN_REASON_MISSING),
            VerifyMode::Strict,
            vec![
                (Stage::Read, Ok(b"x".to_vec())),
                (Stage::Write, refusal(code, "no")),
            ],
            &mut stats,
        );
        assert_eq!(done.item.reason, reason);
        assert!(!done.hash.is_empty(), "the object that failed is named");
        assert_eq!(stats.outcome(), end);
    }
}

#[test]
fn an_object_too_large_for_one_buffer_is_refused_rather_than_attempted() {
    let oversized = Item {
        action: Action::Replicate,
        key: "data/aa".to_string(),
        size: REPLICATE_WHOLE_OBJECT_LIMIT + 1,
        reason: PLAN_REASON_IDENTICAL,
    };
    let mut stats = Stats::default();
    let done = drive(&oversized, VerifyMode::Checksum, Vec::new(), &mut stats);
    assert_eq!(done.item.action, Action::Failed);
    assert_eq!(done.item.reason, REPLICATE_REASON_TOO_LARGE);
    assert_eq!(done.hash, "", "nothing was read");
    assert_eq!(stats.outcome(), ExitCode::PartialFailure);
}

#[test]
fn each_verify_level_describes_ciphertext_and_never_decryption() {
    for mode in [VerifyMode::Checksum, VerifyMode::Sample, VerifyMode::Strict] {
        let sentence = describe(mode);
        assert!(!sentence.is_empty());
        assert!(
            !sentence.contains("decrypt"),
            "'{sentence}' claims a decryption that never happened"
        );
    }
    assert_ne!(describe(VerifyMode::Checksum), describe(VerifyMode::Strict));
}

fn store(spec: &str) -> Store {
    Store {
        spec: spec.to_string(),
        name: spec.trim_end_matches(':').to_string(),
        place: format!("/srv/{spec}"),
        standing: Standing::Declared,
    }
}

fn rows() -> Vec<Item> {
    let row = |action: Action, key: &str, size: u64, reason: &'static str| Item {
        action,
        key: key.to_string(),
        size,
        reason,
    };
    vec![
        row(Action::Replicate, "data/aa", 1024, "missing-at-destination"),
        row(Action::Skip, "data/bb", 2048, "exists"),
        row(Action::Failed, "data/cc", 16, "source-unreadable"),
    ]
}

fn report(items: &Vec<Item>, summary: Summary, dry_run: bool) -> Report {
    Report::new(
        "replicate",
        &store("primary-store:"),
        &store("offsite-store:"),
        "strict".to_string(),
        dry_run,
        summary,
        items,
    )
}

#[test]
fn json_carries_both_ends_the_mode_and_the_counts() {
    let summary = Summary {
        objects: 3,
        replicated: 1,
        skipped: 1,
        failed: 1,
        bytes: 1024,
        extra: 2,
        ..Summary::default()
    };
    let report = report(&rows(), summary, false);
    assert_eq!(report.command, "replicate");
    assert_eq!(report.source, "primary-store:");
    assert_eq!(report.destination, "offsite-store:");
    assert_eq!(report.source_standing, "declared");
    assert_eq!(report.verify_mode, "strict");
    assert!(!report.dry_run);
    assert_eq!(report.summary.failed, 1);
    assert_eq!(report.summary.extra, 2);
    assert_eq!(report.objects.len(), 2);
    assert!(matches!(
        report.render(Format::Json, Units::Binary),
        Rendering::Document
    ));
}

#[test]
fn a_dry_run_says_so_and_never_claims_a_copy_exists() {
    let summary = Summary {
        replicated: 1,
        ..Summary::default()
    };
    assert!(report(&rows(), summary, true).dry_run);
}

#[test]
fn json_lines_emits_one_object_per_line_and_no_summary() {
    let report = report(&rows(), Summary::default(), false);
    assert!(matches!(
        report.render(Format::JsonLines, Units::Binary),
        Rendering::Lines(2)
    ));
}

#[test]
fn the_text_table_lists_the_actions_and_counts_the_rest() {
    let report = report(&rows(), Summary::default(), false);
    match report.render(Format::Text, Units::Binary) {
        Rendering::Table(table) => {
            assert_eq!(table.len(), 2);
            assert_eq!(table[0].action, "replicate");
            assert_eq!(table[0].size, "1.00 KiB");
            assert_eq!(table[0].key, "data/aa");
            assert_eq!(table[1].action, "failed");
            assert_eq!(table[1].key, "data/cc");
        }
        other => panic!("{other:?}"),
    }
}

#[test]
fn a_night_with_nothing_to_move_prints_nothing_at_all() {
    let quiet = vec![Item {
        action: Action::Skip,
        key: "data/aa".to_string(),
        size: 1,
        reason: "exists",
    }];
    let report = report(&quiet, Summary::default(), false);
    assert!(matches!(report.render(Format::Text, Units::Binary), Rendering::Nothing));
    assert!(matches!(
        report.render(Format::JsonLines, Units::Binary),
        Rendering::Lines(0)
    ));
    assert!(matches!(
        report.render(Format::Json, Units::Binary),
        Rendering::Document
    ));
}

#[test]
fn what_is_said_around_a_run() {
    let (source, destination) = (store("primary-store:"), store("offsite-store:"));
    let first = opening(&source, &destination, VerifyMode::Checksum);
    assert!(first[0]
        .message
        .starts_with("dctl replicate: primary-store: -> offsite-store: at --verify=checksum — "));
    assert!(first[1].message.contains("no vault password is read"));

    let mut there = Objects::default();
    there.insert("extra".to_string(), 1);
    let plan = Plan::decide(&Objects::default(), &there, VerifyMode::Checksum);
    let said = planned(&source, &destination, &plan);
    assert_eq!(said.len(), 2);
    assert_eq!(said[0].level, Level::Warn);
    assert_eq!(
        said[1].message,
        "'offsite-store:' already holds every object in 'primary-store:'"
    );
    assert_eq!(
        rehearsal(&source, &plan),
        "replicate 0 object(s) from 'primary-store:' to"
    );

    let mut summary = Summary {
        objects: 3,
        replicated: 2,
        ..Summary::default()
    };
    assert_eq!(
        closing(&source, &destination, &summary).unwrap().message,
        "'offsite-store:' now holds every object in 'primary-store:' (3 object(s), 2 moved this run)"
    );
    summary.failed = 1;
    assert!(closing(&source, &destination, &summary).is_none());
}

fn waiting(action: Action, expected: [u8; 32]) -> Job {
    Job {
        item: item(action, b"body", PLAN_REASON_EXISTS),
        verify: VerifyMode::Strict,
        stage: Stage::Read,
        bytes: b"body".to_vec(),
        expected,
    }
}

#[test]
fn a_fetched_object_carries_its_digest_on() {
    let job = fetched(waiting(Action::Reverify, [0; 32]), b"new".to_vec(), [7; 32]);
    assert_eq!(job.stage, Stage::Compare);
    assert_eq!(job.bytes, b"new");
    assert_eq!(job.expected, [7; 32]);
    let job = fetched(waiting(Action::Replicate, [0; 32]), b"new".to_vec(), [7; 32]);
    assert_eq!(job.stage, Stage::Write);
}

#[test]
fn only_the_same_digest_spares_a_copy() {
    let mut stats = Stats::default();
    match matched(waiting(Action::Reverify, [7; 32]), Some([7; 32]), &mut stats) {
        Next::End(done) => {
            assert_eq!(done.item.action, Action::Reverify);
            assert_eq!(done.hash, "07".repeat(32));
        }
        Next::Go(job) => panic!("{job:?}"),
    }
    assert_eq!(stats.files_skipped, 1);
    assert_eq!(stats.bytes_verified, 4);
    for stored in [Some([8; 32]), None] {
        match matched(waiting(Action::Reverify, [7; 32]), stored, &mut stats) {
            Next::Go(job) => assert_eq!(job.stage, Stage::Write),
            Next::End(done) => panic!("{done:?}"),
        }
    }
    let job = waiting(Action::Replicate, [7; 32]);
    assert!(judge_digest(&job, &[7; 32], "offsite-store:").is_ok());
    assert!(judge_digest(&job, &[8; 32], "offsite-store:")
        .unwrap_err()
        .contains("different BLAKE3"));
}
