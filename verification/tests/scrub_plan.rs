use dctl::error::ExitCode;
use dctl::scrub::plan::{
    bucket_of, mix_seed, Plan, SCRUB_FULL_SAMPLE_PERCENT, SCRUB_MAX_ERRORS_UNLIMITED,
    SCRUB_SAMPLE_KEY_CONTEXT,
};

fn paths() -> Vec<String> {
    (0..2000)
        .map(|index| format!("photos/{index}.jpg"))
        .collect()
}

#[test]
fn the_default_plan_reads_everything() {
    let plan = Plan::new(
        SCRUB_FULL_SAMPLE_PERCENT,
        SCRUB_MAX_ERRORS_UNLIMITED,
        false,
        0,
    )
    .unwrap();
    assert!(plan.is_full());
    assert!(!plan.is_bounded());
    for path in paths() {
        assert!(plan.selects(&path));
    }
    assert_eq!(plan.expected_objects(1234), 1234);
}

#[test]
fn a_zero_percent_sample_is_rejected() {
    let error = Plan::new(0, 0, false, 0).unwrap_err();
    assert_eq!(error.code(), ExitCode::Usage);
    assert!(error.hint().is_some());
    assert!(Plan::new(101, 0, false, 0).is_err());
}

#[test]
fn sampling_selects_roughly_the_requested_share() {
    let plan = Plan::new(10, 0, false, 12_345).unwrap();
    let selected = paths().iter().filter(|path| plan.selects(path)).count();
    assert!(
        (120..=280).contains(&selected),
        "expected about 200 of 2000, got {selected}"
    );
    assert_eq!(plan.expected_objects(2000), 200);
}

#[test]
fn selection_is_stable_within_a_run() {
    let plan = Plan::new(25, 0, false, 99).unwrap();
    for path in paths() {
        assert_eq!(plan.selects(&path), plan.selects(&path));
    }
}

#[test]
fn a_different_seed_covers_a_different_slice() {
    let first = Plan::new(10, 0, false, 1).unwrap();
    let second = Plan::new(10, 0, false, 2).unwrap();
    let differing = paths()
        .iter()
        .filter(|path| first.selects(path) != second.selects(path))
        .count();
    assert!(differing > 0, "two seeds selected identical samples");
}

#[test]
fn an_unlimited_budget_never_stops_the_run() {
    let plan = Plan::new(100, SCRUB_MAX_ERRORS_UNLIMITED, false, 0).unwrap();
    assert!(!plan.budget_exhausted(0));
    assert!(!plan.budget_exhausted(1_000_000));
}

#[test]
fn a_bounded_budget_stops_when_it_is_reached() {
    let plan = Plan::new(100, 3, false, 0).unwrap();
    assert!(!plan.budget_exhausted(2));
    assert!(plan.budget_exhausted(3));
    assert!(plan.budget_exhausted(4));
}

#[test]
fn repair_is_carried_as_the_caller_resolved_it() {
    assert!(Plan::new(100, 0, true, 0).unwrap().repairs());
    assert!(!Plan::new(100, 0, false, 0).unwrap().repairs());
}

#[test]
fn a_seeded_plan_validates_the_same_way() {
    assert!(Plan::seeded(100, 0, false).is_ok());
    assert!(Plan::seeded(0, 0, false).is_err());
}

#[test]
fn a_bucket_comes_from_the_keyed_digest_of_the_path() {
    let seed = 0x0123_4567_89ab_cdef;
    let plan = Plan::new(50, 0, false, seed).unwrap();
    let context = *blake3::hash(SCRUB_SAMPLE_KEY_CONTEXT.as_bytes()).as_bytes();
    let key = mix_seed(context, seed);
    for path in ["photos/1.jpg", "", "caf\u{e9}"] {
        let digest = *blake3::keyed_hash(&key, path.as_bytes()).as_bytes();
        assert_eq!(plan.bucket(path), bucket_of(digest), "{path}");
        assert_eq!(plan.selects(path), bucket_of(digest) < 50, "{path}");
    }
}

#[test]
fn the_seed_is_mixed_into_the_front_of_the_key() {
    assert_eq!(mix_seed([0; 32], 1)[0], 1);
    let mixed = mix_seed([0xff; 32], u64::MAX);
    assert_eq!(mixed[..8], [0; 8]);
    assert_eq!(mixed[8..], [0xff; 24]);
}
