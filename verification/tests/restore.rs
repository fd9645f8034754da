use dctl::constants::{PLAN_ACTION_OVERWRITE, PLAN_ACTION_RESTORE, PLAN_ACTION_SKIP};
use dctl::error::{CliError, ExitCode};
use dctl::globals::Globals;
use dctl::index::Record;
use dctl::listing::Filter;
use dctl::removal::target::Target;
use dctl::restore::archive::{confirm_length, Archive, Modified, Object};
use dctl::restore::plan::{build_plan, from_logical, select, Candidate, Findings};
use dctl::restore::{
    check_time, confirmed, gate_blocked, gate_overwrites, next, nothing_to_restore, prepare,
    refuse_destination, refuse_point_in_time, settle, warn_about_unmeasured, RestoreArgs,
};
use dctl::stats::Stats;

fn record(path: &str, size: u64, hash: Vec<u8>) -> Record {
    Record {
        path: path.to_string(),
        object_key: "o/deadbeef".to_string(),
        size,
        modified_unix: None,
        content_hash: hash,
    }
}

#[test]
fn a_written_row_is_measured_even_when_the_file_was_empty() {
    let empty = Object::from_record(&record(
        "empty.txt",
        0,
        blake3::hash(b"").as_bytes().to_vec(),
    ));
    assert!(empty.measured);
    assert_eq!(empty.size, 0);
}

#[test]
fn a_rebuilt_row_is_not_mistaken_for_an_empty_file() {
    let rebuilt = Object::from_record(&record("a.txt", 0, Vec::new()));
    assert!(!rebuilt.measured);
}

#[test]
fn an_ordinary_row_carries_its_recorded_size() {
    let object = Object::from_record(&record(
        "photos/a.jpg",
        4096,
        blake3::hash(b"x").as_bytes().to_vec(),
    ));
    assert_eq!(object.logical, "photos/a.jpg");
    assert_eq!(object.size, 4096);
    assert!(object.measured);
}

#[test]
fn a_recorded_time_is_carried_and_an_absent_one_is_unknown() {
    let mut row = record("a", 1, vec![1]);
    assert_eq!(Object::from_record(&row).modified, Modified::Unknown);
    row.modified_unix = Some(-5);
    assert_eq!(Object::from_record(&row).modified, Modified::At(-5));
}

fn object(path: &str, size: u64) -> Object {
    Object {
        logical: path.to_string(),
        size,
        measured: true,
        modified: Modified::Unknown,
    }
}

fn candidate(relative: &str, root: &str, path: &str, size: u64) -> Candidate {
    Candidate {
        object: object(path, size),
        relative: relative.to_string(),
        native: from_logical(root, relative),
    }
}

fn args(overwrite: bool) -> RestoreArgs {
    RestoreArgs {
        source: "vault:".to_string(),
        destination: "/tmp/out".to_string(),
        snapshot: None,
        at: None,
        skip_unwritable: false,
        overwrite,
    }
}

#[test]
fn a_point_in_time_restore_is_refused_rather_than_approximated() {
    assert!(refuse_point_in_time(&args(false)).is_ok());
    let mut at = args(false);
    at.at = Some("2d".to_string());
    let mut snapshot = args(false);
    snapshot.snapshot = Some("nightly".to_string());
    for wanted in [at, snapshot] {
        let error = refuse_point_in_time(&wanted).unwrap_err();
        assert!(
            error.message().contains("point in time"),
            "{}",
            error.message()
        );
        assert!(error.hint().is_some_and(|hint| hint.contains("13.5")));
    }
}

#[test]
fn a_destination_that_is_a_file_is_refused() {
    let error = refuse_destination("/tmp/not-a-dir", true, false).unwrap_err();
    assert_eq!(error.code(), ExitCode::Usage);
    assert!(refuse_destination("/tmp/out", true, true).is_ok());
    assert!(refuse_destination("/tmp/new", false, false).is_ok());
}

#[test]
fn an_existing_file_is_planned_as_an_overwrite() {
    let target = Target::parse("vault:").unwrap();
    let candidates = vec![candidate("photos/a.jpg", "/out", "photos/a.jpg", 3)];
    let plan = build_plan(&target, &candidates, &vec![true], &Findings::default());

    assert_eq!(plan.count(PLAN_ACTION_OVERWRITE), 1);
    assert_eq!(plan.count(PLAN_ACTION_RESTORE), 0);
    assert_eq!(plan.entries[0].source, "vault:photos/a.jpg");
    assert_eq!(plan.entries[0].destination, "/out/photos/a.jpg");
}

#[test]
fn a_blocked_path_is_planned_as_a_visible_skip() {
    let target = Target::parse("vault:").unwrap();
    let candidates = vec![candidate("bad\u{7}name.jpg", "/out", "bad\u{7}name.jpg", 4)];
    let findings = Findings {
        blocked: vec!["bad\u{7}name.jpg".to_string()],
    };
    let plan = build_plan(&target, &candidates, &vec![false], &findings);

    assert_eq!(plan.count(PLAN_ACTION_SKIP), 1);
    assert_eq!(plan.len(), 1, "the row is present, not dropped");
    assert!(!plan.is_empty());
}

#[test]
fn a_plan_row_carries_the_size_the_index_recorded() {
    let target = Target::parse("vault:").unwrap();
    let candidates = vec![
        candidate("a.txt", "/out", "a.txt", 1_024),
        candidate("b.txt", "/out", "b.txt", 2_048),
    ];
    let plan = build_plan(&target, &candidates, &vec![false, false], &Findings::default());
    assert_eq!(plan.total_bytes(), 3_072);
}

#[test]
fn overwriting_is_refused_unless_it_was_asked_for() {
    let error = gate_overwrites(&args(false), false, 1).unwrap_err();
    assert_eq!(error.code(), ExitCode::FatalError);
    assert!(error.message().contains("replace"));

    let wanted = gate_overwrites(&args(true), false, 1).unwrap();
    assert_eq!(wanted.as_deref(), Some("1 existing file(s) under /tmp/out"));
    assert!(confirmed(false, true).is_ok(), "a dry run goes on");
    assert!(confirmed(true, false).is_ok());
    assert_eq!(confirmed(false, false).unwrap_err().code(), ExitCode::Cancelled);
}

#[test]
fn nothing_to_replace_needs_no_permission() {
    assert!(gate_overwrites(&args(false), false, 0).unwrap().is_none());
}

#[test]
fn immutable_refuses_even_with_the_overwrite_flag() {
    let error = gate_overwrites(&args(true), true, 1).unwrap_err();
    assert!(error.message().contains("--immutable"));
}

fn everything() -> Filter {
    Filter::default()
}

#[test]
fn the_named_tree_is_not_repeated_under_the_destination() {
    let target = Target::parse("vault:photos").unwrap();
    let objects = vec![object("photos/a.jpg", 1), object("photos/2024/b.jpg", 2)];
    let candidates = select(&objects, &target, &everything(), "/out");
    let plan = build_plan(&target, &candidates, &vec![false, false], &Findings::default());

    assert_eq!(plan.count(PLAN_ACTION_RESTORE), 2);
    for entry in &plan.entries {
        assert!(
            !entry.destination.contains("photos"),
            "the named tree must not be repeated: {}",
            entry.destination
        );
    }
}

#[test]
fn a_selection_is_in_path_order_and_leaves_the_tree_itself_out() {
    let target = Target::parse("vault:photos").unwrap();
    let objects = vec![
        object("photos/b", 1),
        object("photos", 9),
        object("photos/a", 2),
        object("photos/a/z", 3),
    ];
    let candidates = select(&objects, &target, &everything(), "/out/");
    let relative: Vec<&str> = candidates.iter().map(|c| c.relative.as_str()).collect();
    assert_eq!(relative, ["a", "a/z", "b"]);
    assert_eq!(candidates[1].native, "/out/a/z");
}

#[test]
fn a_filter_narrows_a_restore_rather_than_stopping_it() {
    let filter = Filter::from_globals(&Globals {
        excluded: vec!["photos/**".to_string()],
        ..Globals::default()
    })
    .unwrap();
    let target = Target::parse("archive:").unwrap();
    let objects = vec![
        object("README.md", 1),
        object("notes/caf\u{e9}.txt", 1),
        object("notes/empty.txt", 0),
        object("photos/2024/a.jpg", 3),
    ];
    let candidates = select(&objects, &target, &filter, "/out");
    let relative: Vec<&str> = candidates.iter().map(|c| c.relative.as_str()).collect();
    assert_eq!(relative, ["README.md", "notes/caf\u{e9}.txt", "notes/empty.txt"]);
}

#[test]
fn an_archive_lists_whole_components_under_one_spelling() {
    let archive = Archive {
        session: "archive:".to_string(),
        target: Target::parse("archive:photos").unwrap(),
    };
    assert_eq!(archive.remote(), "archive");
    let rows = vec![
        record("photos-backup/b.jpg", 1, vec![1]),
        record("photos/a.jpg", 1, vec![1]),
    ];
    let contents = archive.contents(&rows);
    assert_eq!(contents.len(), 1);
    assert_eq!(contents[0].logical, "photos/a.jpg");
}

#[test]
fn a_length_that_the_index_does_not_record_is_an_integrity_failure() {
    assert!(confirm_length(&object("a", 4), 4).is_ok());
    let error = confirm_length(&object("a", 4), 3).unwrap_err();
    assert_eq!(error.code(), ExitCode::IntegrityFailure);
    assert_eq!(
        error.message(),
        "'a' restored as 3 bytes but the index records 4"
    );
    let rebuilt = Object {
        measured: false,
        ..object("a", 0)
    };
    assert!(confirm_length(&rebuilt, 3).is_ok());
}

#[test]
fn paths_that_cannot_be_written_stop_a_restore_that_did_not_ask_to_skip_them() {
    assert!(gate_blocked(0, 5, false).unwrap().is_none());
    let error = gate_blocked(2, 5, false).unwrap_err();
    assert_eq!(error.code(), ExitCode::FatalError);
    assert_eq!(
        error.message(),
        "2 of 5 path(s) cannot be written on this platform"
    );
    let notice = gate_blocked(2, 5, true).unwrap().unwrap();
    assert!(notice.message.starts_with("2 path(s) will be skipped"));
}

#[test]
fn an_empty_restore_says_why() {
    assert_eq!(
        nothing_to_restore("vault:", false).message,
        "nothing to restore under vault:"
    );
    assert!(nothing_to_restore("vault:", true)
        .message
        .ends_with("every path was excluded by the filters"));
}

#[test]
fn unmeasured_rows_are_counted_and_said() {
    let mut candidates = vec![candidate("a", "/out", "a", 1)];
    assert!(warn_about_unmeasured(&candidates).is_none());
    candidates[0].object.measured = false;
    let notice = warn_about_unmeasured(&candidates).unwrap();
    assert!(notice.message.starts_with("1 object(s) have no recorded size"));
}

#[test]
fn one_bad_object_does_not_abandon_the_rest_and_a_fatal_failure_does() {
    let findings = Findings {
        blocked: vec!["blocked".to_string()],
    };
    let mut stats = Stats::default();
    let blocked = candidate("blocked", "/out", "blocked", 1);
    let good = candidate("good", "/out", "good", 5);
    let bad = candidate("bad", "/out", "bad", 1);

    assert!(!next(&blocked, &findings, &mut stats));
    assert!(next(&good, &findings, &mut stats));
    assert!(settle(&good, Ok(()), &mut stats).unwrap().is_none());
    let damaged = CliError::new(ExitCode::IntegrityFailure, "did not authenticate".to_string());
    let notice = settle(&bad, Err(damaged), &mut stats).unwrap().unwrap();
    assert_eq!(notice.message, "failed to restore bad: did not authenticate");
    assert_eq!((stats.files_skipped, stats.files_done, stats.errors), (1, 1, 1));
    assert_eq!(stats.checksum_mismatches, 1);
    assert_eq!(stats.bytes_done, 5);
    assert_eq!(stats.outcome(), ExitCode::ChecksumMismatch);

    let locked = CliError::new(ExitCode::VaultLocked, "no password".to_string());
    let before = stats;
    let stopped = settle(&bad, Err(locked), &mut stats).unwrap_err();
    assert_eq!(stopped.code(), ExitCode::VaultLocked);
    assert_eq!(stats, before);
}

fn named(source: &str, at: Option<&str>, snapshot: Option<&str>) -> RestoreArgs {
    RestoreArgs {
        source: source.to_string(),
        destination: "/tmp/out".to_string(),
        snapshot: snapshot.map(str::to_string),
        at: at.map(str::to_string),
        skip_unwritable: false,
        overwrite: false,
    }
}

fn refused(args: &RestoreArgs) -> CliError {
    match prepare(args, &Globals::default()) {
        Ok(_) => panic!("the restore must be refused"),
        Err(error) => error,
    }
}

#[test]
fn a_local_source_is_refused() {
    assert_eq!(refused(&named("/tmp/in", None, None)).code(), ExitCode::Usage);
}

#[test]
fn a_malformed_instant_is_a_usage_error_not_an_unimplemented_feature() {
    let error = refused(&named("vault:", Some("yesterday"), None));
    assert_eq!(error.code(), ExitCode::Usage);
    for time in ["2d", "2024-05-01", "@1714564800"] {
        assert!(check_time(&Some(time.to_string())).is_ok(), "{time}");
        let error = refused(&named("vault:", Some(time), None));
        assert!(error.message().contains("point in time"), "{}", error.message());
    }
    assert!(check_time(&None).is_ok());
}

#[test]
fn a_prepared_restore_names_the_vault() {
    match prepare(&named("vault:photos/", None, None), &Globals::default()) {
        Ok((target, _)) => assert_eq!(target.to_text(), "vault:photos"),
        Err(error) => panic!("{}", error.message()),
    }
}

#[test]
fn the_preflight_inspects_the_name_that_will_actually_be_created() {
    let target = Target::parse("vault:reports").unwrap();
    let candidates = select(
        &vec![object("reports/a.txt", 1)],
        &target,
        &everything(),
        "/out",
    );
    assert_eq!(candidates.len(), 1);
    assert_eq!(candidates[0].relative, "a.txt");
}

#[test]
fn an_existing_file_is_refused_until_overwrite_is_asked_for() {
    let target = Target::parse("vault:").unwrap();
    let candidates = vec![
        candidate("README.md", "/out", "README.md", 10),
        candidate("notes/empty.txt", "/out", "notes/empty.txt", 0),
    ];
    let plan = build_plan(&target, &candidates, &vec![true, false], &Findings::default());
    let overwrites = plan.count(PLAN_ACTION_OVERWRITE);
    assert_eq!(overwrites, 1);
    let error = gate_overwrites(&args(false), false, overwrites).unwrap_err();
    assert_eq!(error.code(), ExitCode::FatalError);
    assert!(gate_overwrites(&args(true), false, overwrites).is_ok());
    assert!(confirmed(true, false).is_ok());
}

#[test]
fn a_plan_is_ordered_by_what_it_restores() {
    let target = Target::parse("vault:").unwrap();
    let candidates = vec![
        candidate("b.txt", "/out", "b.txt", 2),
        candidate("a.txt", "/out", "a.txt", 1),
        candidate("c.txt", "/out", "c.txt", 3),
    ];
    let plan = build_plan(
        &target,
        &candidates,
        &vec![false, true, false],
        &Findings::default(),
    );
    let rows: Vec<(&str, u64, &str)> = plan
        .entries
        .iter()
        .map(|row| (row.source.as_str(), row.size, row.action))
        .collect();
    assert_eq!(
        rows,
        [
            ("vault:a.txt", 1, PLAN_ACTION_OVERWRITE),
            ("vault:b.txt", 2, PLAN_ACTION_RESTORE),
            ("vault:c.txt", 3, PLAN_ACTION_RESTORE),
        ]
    );
}

#[test]
fn a_subtree_restores_without_repeating_its_own_name() {
    let objects = vec![
        object("README.md", 10),
        object("notes/empty.txt", 0),
        object("photos/2024/a.jpg", 300_000),
    ];
    let archive = Archive {
        session: "archive:".to_string(),
        target: Target::parse("archive:photos").unwrap(),
    };
    let rows: Vec<Record> = objects
        .iter()
        .map(|o| record(&o.logical, o.size, vec![1]))
        .collect();
    let candidates = select(
        &archive.contents(&rows),
        &archive.target,
        &everything(),
        "/out",
    );
    let restored: Vec<&str> = candidates.iter().map(|c| c.relative.as_str()).collect();
    assert_eq!(restored, ["2024/a.jpg"]);
}

#[test]
fn a_refused_source_is_answered_in_terms_of_a_restore() {
    for source in ["", "/tmp/in", "vault", "vault:../up"] {
        let error = refused(&named(source, None, None));
        assert_eq!(error.code(), ExitCode::Usage, "{source}");
        assert!(error.hint().unwrap().starts_with("Name the vault"));
    }
}
