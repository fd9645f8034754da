use dctl::constants::{PLAN_REASON_EXISTS, PLAN_REASON_MISSING, PLAN_REASON_SIZE};
use dctl::error::{CliError, ExitCode, Result};
use dctl::integrity::VerifyMode;
use dctl::replicate::objects::{Objects, Stored};
use dctl::replicate::plan::{
    reading_size, Action, Pages, Plan, Summary, REPLICATE_ACTION_FAILED, REPLICATE_ACTION_REPLICATE,
};

fn listing(entries: &[(&str, u64)]) -> Objects {
    let mut objects = Objects::default();
    for (key, size) in entries {
        objects.insert(key.to_string(), *size);
    }
    objects
}

#[test]
fn an_object_the_destination_lacks_is_replicated() {
    let plan = Plan::decide(
        &listing(&[("data/aa", 10), ("data/bb", 20)]),
        &listing(&[]),
        VerifyMode::Checksum,
    );
    assert_eq!(plan.summary().objects, 2);
    assert_eq!(plan.summary().replicated, 2);
    assert_eq!(plan.summary().bytes, 30);
    assert!(!plan.is_empty());
    for item in plan.items() {
        assert_eq!(item.action, Action::Replicate);
        assert_eq!(item.reason, PLAN_REASON_MISSING);
    }
}

#[test]
fn a_stored_object_of_a_different_size_is_replicated_again() {
    let plan = Plan::decide(
        &listing(&[("data/aa", 10)]),
        &listing(&[("data/aa", 4)]),
        VerifyMode::Checksum,
    );
    assert_eq!(plan.items()[0].action, Action::Replicate);
    assert_eq!(plan.items()[0].reason, PLAN_REASON_SIZE);
}

#[test]
fn a_stored_object_of_the_same_size_is_skipped_by_default() {
    let plan = Plan::decide(
        &listing(&[("data/aa", 10)]),
        &listing(&[("data/aa", 10)]),
        VerifyMode::Checksum,
    );
    assert_eq!(plan.summary().skipped, 1);
    assert_eq!(plan.summary().bytes, 0);
    assert!(plan.is_empty(), "a fully replicated store moves nothing");
    assert!(!plan.items()[0].action.is_action());
    assert_eq!(plan.items()[0].reason, PLAN_REASON_EXISTS);
}

#[test]
fn strict_refuses_to_assume_and_reads_both_copies_back() {
    let plan = Plan::decide(
        &listing(&[("data/aa", 10)]),
        &listing(&[("data/aa", 10)]),
        VerifyMode::Strict,
    );
    assert_eq!(plan.items()[0].action, Action::Reverify);
    assert_eq!(plan.summary().reverified, 1);
    assert_eq!(plan.summary().skipped, 0);
    assert!(plan.items()[0].action.reads_bytes());
    assert!(
        !plan.is_empty(),
        "strict pays egress even for a clean replica"
    );

    assert_eq!(plan.summary().bytes, 0, "nothing is written yet");
    assert_eq!(plan.egress_bytes(), 10, "but everything is read");

    let sampled = Plan::decide(
        &listing(&[("data/aa", 10)]),
        &listing(&[("data/aa", 10)]),
        VerifyMode::Sample,
    );
    assert_eq!(sampled.items()[0].action, Action::Skip);
}

#[test]
fn an_object_only_the_destination_holds_is_counted_and_left_alone() {
    let plan = Plan::decide(
        &listing(&[("data/aa", 10)]),
        &listing(&[("data/aa", 10), ("data/gone", 5)]),
        VerifyMode::Checksum,
    );
    assert_eq!(plan.summary().extra, 1);
    assert_eq!(plan.items().len(), 1, "extras are never planned actions");
}

#[test]
fn object_keys_are_carried_through_untouched() {
    let awkward = "obj/AB/cd%2Fef .bin";
    let plan = Plan::decide(
        &listing(&[(awkward, 1)]),
        &listing(&[]),
        VerifyMode::Checksum,
    );
    assert_eq!(plan.items()[0].key, awkward);
}

#[test]
fn an_empty_source_plans_nothing_and_claims_nothing() {
    let plan = Plan::decide(&listing(&[]), &listing(&[("x", 1)]), VerifyMode::Strict);
    assert_eq!(
        plan.summary(),
        Summary {
            extra: 1,
            ..Summary::default()
        }
    );
    assert!(plan.is_empty());
}

#[test]
fn every_action_has_a_distinct_stable_slug() {
    let slugs: Vec<&str> = [
        Action::Replicate,
        Action::Reverify,
        Action::Skip,
        Action::Failed,
    ]
    .iter()
    .map(|action| action.slug())
    .collect();
    for (index, slug) in slugs.iter().enumerate() {
        assert!(!slug.is_empty());
        assert!(!slugs[index + 1..].contains(slug), "'{slug}' is duplicated");
    }
    assert_eq!(Action::Replicate.slug(), REPLICATE_ACTION_REPLICATE);
    assert_eq!(Action::Failed.slug(), REPLICATE_ACTION_FAILED);
}

#[test]
fn a_plan_follows_the_order_of_the_keys_and_counts_every_object() {
    let plan = Plan::decide(
        &listing(&[("c", 3), ("a", 1), ("b", 2), ("a", 7)]),
        &listing(&[("a", 7), ("b", 5)]),
        VerifyMode::Checksum,
    );
    let keys: Vec<&str> = plan.items().iter().map(|item| item.key.as_str()).collect();
    assert_eq!(keys, ["a", "b", "c"]);
    let summary = plan.summary();
    assert_eq!(summary.objects, 3);
    assert_eq!(
        summary.replicated + summary.reverified + summary.skipped + summary.failed,
        3
    );
    assert_eq!((summary.replicated, summary.skipped), (2, 1));
    assert_eq!(summary.bytes, 5);
    assert_eq!(plan.reading(), 2);
}

#[test]
fn a_listing_that_failed_is_never_taken_for_an_empty_one() {
    let failure = || -> Result<Objects> {
        Err(CliError::new(ExitCode::TemporaryError, "unreachable".to_string()))
    };
    let error = Plan::build(failure(), Ok(listing(&[])), VerifyMode::Checksum).unwrap_err();
    assert_eq!(error.message(), "unreachable");
    let error = Plan::build(Ok(listing(&[])), failure(), VerifyMode::Checksum).unwrap_err();
    assert_eq!(error.message(), "unreachable");
    let plan = Plan::build(Ok(listing(&[("a", 1)])), Ok(listing(&[])), VerifyMode::Checksum);
    assert_eq!(plan.unwrap().summary().replicated, 1);
}

#[test]
fn a_listing_arrives_page_by_page_and_a_repeated_cursor_is_an_error() {
    let page = |key: &str, size: u64| vec![Stored { key: key.to_string(), size }];
    let mut pages = Pages::default();
    assert!(!pages.take(page("b", 2), Some("one".to_string())).unwrap());
    assert!(!pages.take(page("a", 1), Some("two".to_string())).unwrap());
    let error = pages.take(page("c", 3), Some("two".to_string())).unwrap_err();
    assert!(error.message().contains("(two)"), "{}", error.message());

    let mut pages = Pages::default();
    assert!(!pages.take(page("b", 2), Some("one".to_string())).unwrap());
    assert!(pages.take(page("a", 1), None).unwrap());
    assert_eq!(pages.objects.len(), 2);
    assert_eq!(pages.objects.at(0).key, "a");
    assert_eq!(pages.objects.get("b"), Some(2));
    assert_eq!(pages.objects.get("z"), None);
    assert_eq!(
        reading_size(&pages.objects, &Objects::default(), VerifyMode::Checksum),
        Some(3)
    );
}

#[test]
fn only_what_is_read_has_to_be_countable() {
    let source = listing(&[("a", u64::MAX), ("b", 1)]);
    let there = listing(&[("a", u64::MAX)]);
    let reading = |there: &Objects, verify| reading_size(&source, there, verify);
    assert_eq!(reading(&listing(&[]), VerifyMode::Checksum), None);
    assert_eq!(reading(&there, VerifyMode::Strict), None);
    assert_eq!(reading(&there, VerifyMode::Checksum), Some(1));
    let plan = Plan::decide(&source, &there, VerifyMode::Checksum);
    assert_eq!(plan.egress_bytes(), 1);
    assert_eq!(plan.summary().skipped, 1);
}

#[test]
fn a_plan_walks_the_keys_in_ascending_order() {
    let source = listing(&[("data/bb", 1), ("data/aa", 2), ("data/c", 3), ("data/B", 4)]);
    let plan = Plan::decide(&source, &listing(&[]), VerifyMode::Checksum);
    let keys: Vec<&str> = plan.items().iter().map(|item| item.key.as_str()).collect();
    assert_eq!(keys, ["data/B", "data/aa", "data/bb", "data/c"]);
}

#[test]
fn a_real_pair_of_stores_on_disk_plans_the_difference() {
    let plan = Plan::build(
        Ok(listing(&[("data/aa", 5), ("data/bb", 6)])),
        Ok(listing(&[("data/aa", 5)])),
        VerifyMode::Checksum,
    )
    .unwrap();
    assert_eq!(plan.summary().objects, 2);
    assert_eq!(plan.summary().replicated, 1);
    assert_eq!(plan.summary().skipped, 1);
    assert_eq!(plan.summary().bytes, 6);
}

#[test]
fn a_plan_is_empty_exactly_where_there_is_nothing_to_read() {
    let source = listing(&[("a", 1), ("b", 2)]);
    let complete = listing(&[("a", 1), ("b", 2), ("c", 3)]);
    let resized = listing(&[("a", 1), ("b", 3)]);
    let partial = listing(&[("a", 1)]);
    assert!(Plan::decide(&source, &complete, VerifyMode::Checksum).is_empty());
    assert!(!Plan::decide(&source, &complete, VerifyMode::Strict).is_empty());
    assert!(!Plan::decide(&source, &resized, VerifyMode::Checksum).is_empty());
    assert!(!Plan::decide(&source, &partial, VerifyMode::Checksum).is_empty());
    assert!(Plan::decide(&listing(&[]), &partial, VerifyMode::Checksum).is_empty());
    assert!(Plan::decide(&listing(&[]), &listing(&[]), VerifyMode::Strict).is_empty());
}
