use dctl::error::ExitCode;
use dctl::listing::Entry;
use dctl::output::{Format, Units};
use dctl::removal::reclaim::{
    age_of, class_name, handle, is_staged, judge, lacking, orphans, refuse_class, staging, sweep,
    Aging, Class, Found, Handling, OrphanGate, Request, StagingListing, StagingStep, SweepStep,
};
use dctl::removal::report::Report;
use dctl::removal::target::Target;
use dctl::stats::Stats;
use dctl::time::Duration;

#[test]
fn the_flag_spelling_and_the_json_spelling_are_the_same() {
    for class in Class::all() {
        assert_eq!(class.slug(), class_name(class));
    }
}

#[test]
fn exactly_the_two_provider_classes_are_unavailable() {
    assert!(Class::Multipart.missing_capability().is_some());
    assert!(Class::Versions.missing_capability().is_some());
    assert!(Class::Staging.missing_capability().is_none());
    assert!(Class::Orphans.missing_capability().is_none());
}

#[test]
fn a_staged_key_is_recognised_in_both_spellings() {
    assert!(is_staged("o/.dctl-staging.4711.0"));
    assert!(is_staged(".dctl-staging.4711.0"));
    for real in [
        "report.tmp.2024.csv",
        "db.tmp.2024-07-27.sql",
        "photos/~$notes.tmp.docx",
        "photo.jpg.tmp.4711.0",
    ] {
        assert!(!is_staged(real), "{real} would be deleted as debris");
    }
    assert!(!is_staged("o/abcdef0123456789"));
    assert!(!is_staged("notes/tmp/a.txt"));
    assert!(!is_staged("archive.tmpfile"));
}

#[test]
fn the_guard_before_a_delete_is_the_backends_own_rule_and_not_a_second_one() {
    for (key, staged) in [
        ("o/.dctl-staging.4711.0", true),
        (".dctl-staging.1.0", true),
        ("report.tmp.2024.csv", false),
        ("o/8f14e45fceea167a5a36dedd4bea2543", false),
        ("system/envelope.bin", false),
    ] {
        assert_eq!(is_staged(key), staged, "{key}");
    }
}

#[test]
fn age_is_measured_from_the_modification_time() {
    let entry = Entry::new("o/a", 10).with_modified(Some(1_000));
    assert_eq!(age_of(&entry, 1_060), Some(Duration::from_secs(60)));
}

#[test]
fn an_object_with_no_modification_time_has_no_age() {
    assert_eq!(age_of(&Entry::new("o/a", 10), 1_000), None);
}

#[test]
fn a_future_timestamp_is_clamped_to_brand_new_rather_than_wrapping() {
    let entry = Entry::new("o/a", 10).with_modified(Some(i64::MAX));
    assert_eq!(age_of(&entry, 0), Some(Duration::from_secs(0)));
}

#[test]
fn every_class_has_a_distinct_name() {
    let names: Vec<&str> = Class::all().iter().map(|class| class_name(*class)).collect();
    for (index, name) in names.iter().enumerate() {
        assert!(!names[index + 1..].contains(name), "'{name}' twice");
    }
    assert_eq!(names.len(), 4);
}

fn day() -> Aging {
    Aging {
        now: 1_000_000,
        min_age: Duration::from_secs(86_400),
    }
}

#[test]
fn debris_is_deleted_only_when_it_is_known_to_be_old() {
    let old = Entry::new("o/.dctl-staging.1.0", 10).with_modified(Some(900_000));
    let young = Entry::new("o/.dctl-staging.1.1", 10).with_modified(Some(999_999));
    let unknown = Entry::new("o/.dctl-staging.1.2", 10);
    assert!(matches!(judge(&old, "staging", day(), false), Found::Delete(_)));
    assert!(matches!(judge(&old, "staging", day(), true), Found::WouldRemove(_)));
    for entry in [young, unknown] {
        assert!(matches!(judge(&entry, "staging", day(), false), Found::Held { .. }));
    }
}

#[test]
fn a_page_of_debris_never_takes_a_neighbour_or_a_foreign_key() {
    let page = StagingListing::Page {
        items: vec![
            Entry::new("a/.dctl-staging.1.0", 1).with_modified(Some(0)),
            Entry::new("ab/.dctl-staging.1.0", 1).with_modified(Some(0)),
            Entry::new("a/report.csv", 1).with_modified(Some(0)),
        ],
        next_cursor: Some("next".to_string()),
    };
    match staging("a", &None, page, day(), false) {
        StagingStep::More { found, cursor } => {
            assert_eq!(cursor, "next");
            assert_eq!(found.len(), 2);
            assert!(matches!(&found[0], Found::Delete(item) if item.path == "a/.dctl-staging.1.0"));
            assert!(matches!(&found[1], Found::Foreign(key) if key == "a/report.csv"));
        }
        other => panic!("{other:?}"),
    }
}

#[test]
fn a_pager_that_stands_still_ends_the_sweep() {
    let cursor = Some("c".to_string());
    let page = StagingListing::Page {
        items: Vec::new(),
        next_cursor: Some("c".to_string()),
    };
    assert!(matches!(
        staging("", &cursor, page, day(), false),
        StagingStep::Last { found } if found.is_empty()
    ));
}

#[test]
fn a_store_that_never_stages_says_so() {
    let answer = StagingListing::NotStaged("uploads go straight to the final key".to_string());
    assert!(matches!(
        staging("", &None, answer, day(), false),
        StagingStep::NotStaged(reason) if reason == "uploads go straight to the final key"
    ));
}

#[test]
fn a_foreign_key_is_reported_and_left_alone() {
    let mut report = Report::new(Format::Text, Units::Binary, false);
    let handled = handle(Found::Foreign("photos/a.jpg".to_string()), &mut report);
    assert!(matches!(handled, Handling::Say(notice) if notice.message.contains("photos/a.jpg")));
    assert_eq!(report.stats.errors, 1);
}

#[test]
fn orphans_need_a_complete_index() {
    let keys = Some(vec!["o/a".to_string(), "o/b".to_string()]);
    assert!(matches!(orphans(&None, 2), OrphanGate::Refused(_)));
    match orphans(&keys, 3) {
        OrphanGate::Refused(reason) => assert!(reason
            .starts_with("the vault holds 3 name record(s) but the index has 2 row(s). ")),
        other => panic!("{other:?}"),
    }
    match orphans(&keys, 2) {
        OrphanGate::Proven(known) => {
            let old = |key: &str| Entry::new(key, 1).with_modified(Some(0));
            assert!(known.judge(&old("o/a"), day(), false).is_none());
            assert!(matches!(
                known.judge(&old("o/c"), day(), false),
                Some(Found::Delete(_))
            ));
        }
        other => panic!("{other:?}"),
    }
}

#[test]
fn a_sweep_without_a_clock_sweeps_nothing() {
    let request = Request {
        classes: &Class::all(),
        min_age: Duration::from_secs(60),
        named: false,
    };
    let target = Target::parse("vault:").unwrap();
    let mut stats = Stats::default();
    let plan = sweep(&request, true, &target, None, &mut stats);
    assert!(plan.steps.is_empty());
    assert_eq!(stats.outcome(), ExitCode::PartialFailure);
}

#[test]
fn a_vault_is_swept_whole_and_says_so() {
    let request = Request {
        classes: &[Class::Staging, Class::Versions, Class::Orphans],
        min_age: Duration::from_secs(60),
        named: true,
    };
    let target = Target::parse("vault:photos").unwrap();
    let mut stats = Stats::default();
    let plan = sweep(&request, true, &target, Some(7), &mut stats);
    assert_eq!(plan.prefix, "");
    assert_eq!(plan.notices.len(), 1);
    assert_eq!(
        plan.steps,
        [
            SweepStep::Staging,
            SweepStep::Unsupported(Class::Versions),
            SweepStep::Orphans
        ]
    );
    let plain = sweep(&request, false, &target, Some(7), &mut stats);
    assert_eq!(plain.prefix, "photos");
    assert!(plain.notices.is_empty());
    assert_eq!(stats, Stats::default());
}

#[test]
fn a_class_that_cannot_be_swept_is_an_error_only_when_it_was_named() {
    let reason = lacking(Class::Multipart).unwrap();
    for named in [false, true] {
        let mut report = Report::new(Format::Text, Units::Binary, false);
        let written = refuse_class(Class::Multipart, &reason, named, &mut report);
        assert_eq!(written.record.reason.as_deref(), Some(reason.as_str()));
        assert_eq!(report.totals().unsupported, 1);
        assert_eq!(report.stats.errors, if named { 1 } else { 0 });
    }
    assert!(lacking(Class::Staging).is_none());
}

#[test]
fn a_vault_path_and_a_missing_clock_are_both_said() {
    let target = Target::parse("archive:photos").unwrap();
    let classes = [Class::Staging];
    let request = Request {
        classes: &classes,
        min_age: Duration::from_secs(60),
        named: false,
    };
    let mut stats = Stats::default();
    let plan = sweep(&request, true, &target, None, &mut stats);
    assert_eq!(plan.notices.len(), 2);
    assert!(plan.aging.is_none());
    assert!(plan.steps.is_empty());
    assert_eq!(stats.errors, 1);
}
