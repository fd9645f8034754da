use dctl::error::{CliError, ExitCode};
use dctl::globals::Globals;
use dctl::stats::Stats;
use dctl::sync::execute::{order, settle};
use dctl::sync::plan::{guard_empty_source, guard_immutable, refuse_filters, request};
use dctl::sync::{account_for_skips, next, prepare, Step, SyncArgs};
use dctl::transfer::{CompareFlags, DeleteFlags, DeleteMode, Op, Plan, PlanEntry};

fn plan(entries: &[(Op, &str)]) -> Plan {
    Plan {
        entries: entries
            .iter()
            .map(|(action, dest)| PlanEntry {
                action: *action,
                dest: dest.to_string(),
                size: Some(1),
            })
            .collect(),
    }
}

/// One new file at the source, one extra at the destination.
fn both() -> Plan {
    plan(&[(Op::Copy, "new.txt"), (Op::Delete, "stale.txt")])
}

fn events(plan: &Plan, mode: DeleteMode) -> Vec<String> {
    order(plan, mode)
        .into_iter()
        .map(|i| {
            let entry = &plan.entries[i];
            let verb = match entry.action {
                Op::Copy | Op::Update => "copy",
                Op::CreateDir => "mkdir",
                Op::Delete => "delete",
                Op::Skip => "skip",
            };
            format!("{verb} {}", entry.dest)
        })
        .collect()
}

#[test]
fn delete_before_removes_everything_first() {
    assert_eq!(
        events(&both(), DeleteMode::Before),
        ["delete stale.txt", "copy new.txt"]
    );
}

#[test]
fn delete_after_removes_nothing_until_every_transfer_is_committed() {
    assert_eq!(
        events(&both(), DeleteMode::After),
        ["copy new.txt", "delete stale.txt"]
    );
}

#[test]
fn delete_during_follows_plan_order() {
    assert_eq!(
        events(&both(), DeleteMode::During),
        ["copy new.txt", "delete stale.txt"]
    );
    let mixed = plan(&[
        (Op::Delete, "a"),
        (Op::Skip, "b"),
        (Op::Update, "c"),
        (Op::Delete, "d"),
    ]);
    assert_eq!(
        events(&mixed, DeleteMode::During),
        ["delete a", "copy c", "delete d"]
    );
}

#[test]
fn every_mode_performs_exactly_the_planned_actions() {
    for mode in [DeleteMode::Before, DeleteMode::During, DeleteMode::After] {
        let plan = both();
        let mut performed = events(&plan, mode);
        performed.sort();
        assert_eq!(performed, ["copy new.txt", "delete stale.txt"], "{mode:?}");

        let mut stats = Stats::default();
        for i in order(&plan, mode) {
            let settled = settle(&plan.entries[i], Ok(10), "archive", &mut stats);
            assert!(matches!(settled.end, Ok(None)));
            assert_eq!(settled.audit.is_some(), plan.entries[i].action == Op::Delete);
        }
        assert_eq!(stats.files_done, 1, "{mode:?}");
        assert_eq!(stats.files_deleted, 1, "{mode:?}");
    }
}

#[test]
fn a_failed_deletion_is_counted_but_never_counted_as_done() {
    let plan = both();
    let mut stats = Stats::default();
    let failure = CliError::new(ExitCode::TemporaryError, "provider said no".to_string());
    let settled = settle(&plan.entries[1], Err(failure), "archive", &mut stats);
    let audit = settled.audit.expect("a removal is logged whatever came of it");
    assert_eq!(audit.code, ExitCode::TemporaryError);
    assert_eq!(audit.objects, 1);
    assert_eq!(audit.remote, "archive");
    assert_eq!(
        settled.end.unwrap().unwrap().message,
        "'stale.txt': provider said no"
    );
    assert_eq!(stats.files_deleted, 0, "nothing was actually removed");
    assert_eq!(stats.errors, 1);
    assert_eq!(stats.outcome(), ExitCode::PartialFailure);
}

#[test]
fn a_failure_that_every_file_would_share_ends_the_run() {
    let mut stats = Stats::default();
    let locked = CliError::new(ExitCode::VaultLocked, "no password".to_string());
    let settled = settle(&both().entries[0], Err(locked), "archive", &mut stats);
    assert_eq!(settled.end.unwrap_err().code(), ExitCode::VaultLocked);
    assert_eq!(stats, Stats::default());
}

#[test]
fn empty_source_directories_are_created_in_every_mode() {
    let plan = plan(&[(Op::CreateDir, "empty")]);
    for mode in [DeleteMode::Before, DeleteMode::During, DeleteMode::After] {
        assert_eq!(events(&plan, mode), ["mkdir empty"], "{mode:?}");
    }
}

fn flags(before: bool, during: bool, after: bool) -> DeleteFlags {
    DeleteFlags {
        delete_before: before,
        delete_during: during,
        delete_after: after,
    }
}

#[test]
fn the_delete_mode_flags_parse_and_default_to_during() {
    assert_eq!(DeleteFlags::default().mode().unwrap(), DeleteMode::During);
    assert_eq!(flags(true, false, false).mode().unwrap(), DeleteMode::Before);
    assert_eq!(flags(false, false, true).mode().unwrap(), DeleteMode::After);
}

#[test]
fn a_contradictory_delete_mode_fails_before_anything_is_listed() {
    for pair in [flags(true, true, false), flags(true, false, true), flags(false, true, true)] {
        assert_eq!(pair.mode().unwrap_err().code(), ExitCode::Usage);
    }
}

#[test]
fn an_empty_source_is_refused_rather_than_emptying_the_destination() {
    let emptying = plan(&[(Op::Delete, "precious.txt")]);
    let error = guard_empty_source("/mnt/empty", "/mnt/dst", &emptying, false).unwrap_err();
    assert_eq!(error.code(), ExitCode::Usage);
    assert_eq!(
        error.message(),
        "'/mnt/empty' contains no files, so '/mnt/dst' would delete all 1 of them"
    );
    assert!(error.hint().is_some_and(|hint| hint.contains("--force")));
}

#[test]
fn force_allows_a_deliberate_emptying() {
    let emptying = plan(&[(Op::Delete, "precious.txt")]);
    assert!(guard_empty_source("a", "b", &emptying, true).is_ok());
}

#[test]
fn an_empty_source_and_an_empty_destination_is_simply_a_no_op() {
    let nothing = plan(&[]);
    assert!(guard_empty_source("a", "b", &nothing, false).is_ok());
    assert!(nothing.is_noop());
}

#[test]
fn a_source_that_holds_anything_is_no_empty_source() {
    for kept in [(Op::Skip, "same"), (Op::Copy, "new")] {
        let plan = plan(&[kept, (Op::Delete, "stale")]);
        assert!(guard_empty_source("a", "b", &plan, false).is_ok());
    }
}

#[test]
fn immutable_refuses_the_deletions_as_well_as_the_overwrites() {
    let error = guard_immutable(&both(), true).unwrap_err();
    assert_eq!(error.code(), ExitCode::FatalError);
    assert!(error.message().contains("stale.txt"), "{}", error.message());
    let error = guard_immutable(&plan(&[(Op::Update, "changed.txt")]), true).unwrap_err();
    assert!(error.message().contains("changed.txt"), "{}", error.message());
    assert!(guard_immutable(&both(), false).is_ok());
}

#[test]
fn immutable_still_allows_a_sync_that_only_adds() {
    let adding = plan(&[(Op::Skip, "a.txt"), (Op::Copy, "new.txt"), (Op::CreateDir, "d")]);
    assert!(guard_immutable(&adding, true).is_ok());
}

#[test]
fn a_pattern_filter_is_refused_rather_than_ignored() {
    let globals = Globals {
        excluded: vec!["stale.*".to_string()],
        ..Globals::default()
    };
    assert_eq!(
        refuse_filters(&globals).unwrap_err().code(),
        ExitCode::FatalError
    );
    assert!(refuse_filters(&Globals::default()).is_ok());
}

#[test]
fn sync_does_not_offer_no_traverse() {
    let args = SyncArgs {
        source: "a".to_string(),
        dest: "b".to_string(),
        create_empty_src_dirs: true,
        compare: CompareFlags::default(),
        delete: DeleteFlags::default(),
    };
    let request = request(&args);
    assert!(!request.no_traverse);
    assert!(request.delete_extras);
    assert!(request.create_empty_src_dirs);
    assert_eq!((request.source.as_str(), request.dest.as_str()), ("a", "b"));
}

#[test]
fn a_plan_is_shown_finished_confirmed_or_carried_out() {
    assert!(matches!(next(&both(), true), Step::Show));
    assert!(matches!(
        next(&plan(&[(Op::Skip, "a")]), false),
        Step::Finished(notice) if notice.message.starts_with("nothing to do")
    ));
    assert!(matches!(
        next(&both(), false),
        Step::Confirm(words) if words == "delete 1 file(s) from"
    ));
    assert!(matches!(next(&plan(&[(Op::Copy, "a")]), false), Step::Go));
}

#[test]
fn an_up_to_date_destination_needs_no_engine_and_no_prompt() {
    let same = plan(&[(Op::Skip, "a.txt")]);
    let mut stats = Stats::default();
    account_for_skips(&same, &mut stats);
    assert_eq!(stats.files_skipped, 1);
    assert_eq!(stats.outcome(), ExitCode::Success);
}

fn arguments(delete: DeleteFlags) -> SyncArgs {
    SyncArgs {
        source: "a".to_string(),
        dest: "b".to_string(),
        create_empty_src_dirs: true,
        compare: CompareFlags::default(),
        delete,
    }
}

#[test]
fn a_sync_is_prepared_from_its_arguments() {
    let flags = DeleteFlags {
        delete_before: true,
        ..DeleteFlags::default()
    };
    let (mode, request) = match prepare(&arguments(flags), &Globals::default()) {
        Ok(prepared) => prepared,
        Err(error) => panic!("{}", error.message()),
    };
    assert_eq!(mode, DeleteMode::Before);
    assert_eq!(request.source, "a");
    assert_eq!(request.dest, "b");
    assert!(request.delete_extras);
}

#[test]
fn a_filtered_sync_is_refused_before_anything_is_compared() {
    let globals = Globals {
        excluded: vec!["*.tmp".to_string()],
        ..Globals::default()
    };
    match prepare(&arguments(DeleteFlags::default()), &globals) {
        Ok(_) => panic!("an ignored filter would delete what it protects"),
        Err(error) => assert!(error.hint().is_some()),
    }
}

#[test]
fn two_delete_modes_are_refused() {
    let flags = DeleteFlags {
        delete_before: true,
        delete_during: false,
        delete_after: true,
    };
    match prepare(&arguments(flags), &Globals::default()) {
        Ok(_) => panic!("two modes were chosen"),
        Err(error) => assert_eq!(error.code(), ExitCode::Usage),
    }
}

#[test]
fn a_dry_run_shows_every_planned_delete_and_removes_nothing() {
    let plan = plan(&[(Op::Delete, "a"), (Op::Copy, "b"), (Op::Delete, "c")]);
    assert!(matches!(next(&plan, true), Step::Show));
    assert_eq!(plan.count(Op::Delete), 2);
    assert!(matches!(next(&plan, false), Step::Confirm(_)));
}
