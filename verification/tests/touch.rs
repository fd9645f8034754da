use dctl::constants::{
    DIRECTORY_LABEL_CREATE, DIRECTORY_LABEL_OBJECT, DIRECTORY_LABEL_PLACE,
    DIRECTORY_LABEL_TIMESTAMP, DIRECTORY_TIMESTAMP_SOURCE_EXPLICIT,
    DIRECTORY_TIMESTAMP_SOURCE_NOW, TOUCH_EXPLICIT_TIME_FEATURE, TOUCH_OBJECT_STORE_FEATURE,
};
use dctl::error::{CliError, ExitCode};
use dctl::index::Record;
use dctl::output::Level;
use dctl::remote::{BucketDef, Config, LocalDef, RemoteDef, VaultDef};
use dctl::removal::plan::{Plan, PlanOptions};
use dctl::removal::target::Target;
use dctl::touch::engine::{
    apply, filesystem, open_failure, outcome_of, record, refuse_plain_write, sealed, stored_time, system_time, Instant,
    Outcome, Place, Request, Route, Step,
};
use dctl::touch::timestamp::Timestamp;
use dctl::touch::{check_flags, closing, done, options, planned, prepare, Options, TouchArgs};

fn target(spec: &str) -> Target {
    Target::parse(spec).expect("a valid target")
}

fn request<'a>(target: &'a Target, stamp: &str, create: bool) -> Request<'a> {
    Request {
        target,
        stamp: Timestamp::parse(stamp).expect("a valid time"),
        explicit: true,
        create,
    }
}

#[test]
fn a_missing_file_is_created_empty_and_stamped() {
    assert_eq!(filesystem("notes/todo.md", false, true, false).unwrap(), Step::Create);
    assert_eq!(outcome_of(Step::Create), Outcome::Created);
    let stamp = Timestamp::parse("2024-05-01T12:00:00Z").unwrap();
    assert_eq!(
        system_time(stamp).unwrap(),
        Instant { distance: 1_714_564_800, before: false }
    );
}

#[test]
fn an_existing_file_is_re_stamped_and_never_truncated() {
    assert_eq!(filesystem("notes.md", true, true, false).unwrap(), Step::Stamp);
    assert_eq!(outcome_of(Step::Stamp), Outcome::Stamped);
}

#[test]
fn a_time_before_the_epoch_is_ordinary_rather_than_an_error() {
    let stamp = Timestamp::parse("1969-12-31T23:59:59Z").unwrap();
    assert_eq!(
        system_time(stamp).unwrap(),
        Instant { distance: 1, before: true }
    );
}

#[test]
fn no_create_leaves_a_missing_object_alone() {
    assert_eq!(filesystem("absent.txt", false, false, false).unwrap(), Step::Skip);
    assert_eq!(outcome_of(Step::Skip), Outcome::Skipped);
}

#[test]
fn immutable_refuses_to_re_stamp_something_that_exists() {
    let error = filesystem("notes.md", true, true, true).unwrap_err();
    assert_eq!(error.code(), ExitCode::Usage);
    assert_eq!(filesystem("new.md", false, true, true).unwrap(), Step::Create);
}

#[test]
fn a_directory_is_diagnosed_rather_than_reported_as_a_platform_error() {
    let platform = || CliError::new(ExitCode::Uncategorised, "EISDIR".to_string());
    let error = open_failure("photos", true, platform());
    assert_eq!(error.code(), ExitCode::Usage);
    assert!(error.message().contains("directory"), "{}", error.message());
    let error = open_failure("photos", false, platform());
    assert_eq!(error.message(), "EISDIR");
    assert_eq!(error.hint(), Some("touching photos"));
}

#[test]
fn an_explicit_time_is_refused_by_a_vault_before_anything_is_opened() {
    let target = target("archive:sentinel");
    let error = apply(&Place::Sealed, &request(&target, "2024-05-01T12:00:00Z", true)).unwrap_err();
    assert_eq!(error.code(), ExitCode::FatalError);
    assert!(error.message().contains(TOUCH_EXPLICIT_TIME_FEATURE));
    assert!(error
        .hint()
        .is_some_and(|hint| hint.contains("--timestamp")));
    let mut unchosen = request(&target, "@0", true);
    unchosen.explicit = false;
    assert_eq!(apply(&Place::Sealed, &unchosen).unwrap(), Route::OpenVault);
    assert_eq!(
        apply(&Place::Filesystem, &request(&target, "@0", true)).unwrap(),
        Route::LookAtFile
    );
}

#[test]
fn an_object_store_is_refused_for_the_reason_that_actually_applies() {
    let target = target("b2:mybucket/x");
    let error = apply(
        &Place::ObjectStore { provider: "b2" },
        &request(&target, "@0", true),
    )
    .unwrap_err();
    assert_eq!(error.code(), ExitCode::FatalError);
    assert!(
        error.message().contains(TOUCH_OBJECT_STORE_FEATURE),
        "the refusal must name the missing capability: {}",
        error.message()
    );
    assert!(
        error.message().contains("b2"),
        "and the provider that was addressed: {}",
        error.message()
    );
    let hint = error.hint().expect("a refusal must say what to do");
    assert!(
        hint.contains("provider"),
        "the layer the gap belongs to must be named: {hint}"
    );
    assert!(
        hint.contains("no phase"),
        "a gap no release closes must say so rather than name a phase: {hint}"
    );
    assert!(
        !error
            .message()
            .contains("writing a plain object into an object store"),
        "{}",
        error.message()
    );
}

#[test]
fn an_unrepresentable_time_fails_instead_of_clamping() {
    assert!(system_time(Timestamp::parse("@0").unwrap()).is_ok());
    assert!(system_time(Timestamp::parse("9999-12-31").unwrap()).is_ok());
    let error = stored_time(Timestamp::parse("@0").unwrap(), false).unwrap_err();
    assert_eq!(error.code(), ExitCode::Usage);
    assert!(error.message().starts_with("1970-01-01T00:00:00Z "));
}

#[test]
fn a_vault_creates_what_is_missing_and_never_moves_a_time() {
    let target = target("archive:a.txt");
    let wanted = request(&target, "@0", true);
    let unwanted = request(&target, "@0", false);
    assert_eq!(sealed(&wanted, None, false).unwrap(), Step::Create);
    assert_eq!(sealed(&unwanted, None, false).unwrap(), Step::Skip);
    let error = sealed(&wanted, Some(Some(0)), false).unwrap_err();
    assert_eq!(error.code(), ExitCode::FatalError);
    assert!(error.hint().unwrap().contains("(1970-01-01T00:00:00Z)"));
    let error = sealed(&wanted, Some(None), false).unwrap_err();
    assert!(error.hint().unwrap().contains("(unknown)"));
    let error = sealed(&wanted, Some(None), true).unwrap_err();
    assert_eq!(error.code(), ExitCode::Usage);
}

#[test]
fn a_record_is_found_by_its_whole_path() {
    let row = |path: &str, modified_unix: Option<i64>| Record {
        path: path.to_string(),
        object_key: "o/1".to_string(),
        size: 1,
        modified_unix,
        content_hash: vec![1],
    };
    let rows = vec![row("a.txt.bak", Some(1)), row("a.txt", Some(2)), row("b", None)];
    assert_eq!(record(&rows, "a.txt"), Some(Some(2)));
    assert_eq!(record(&rows, "b"), Some(None));
    assert_eq!(record(&rows, "c"), None);
}

#[test]
fn a_run_that_could_not_act_is_refused_before_anything_else() {
    let error = check_flags(true, true).unwrap_err();
    assert_eq!(error.code(), ExitCode::Usage);
    assert!(error.hint().is_some());
    assert!(check_flags(false, true).is_ok());
    assert!(check_flags(true, false).is_ok());
}

fn stamped(spelling: &str, source: &'static str, create: bool) -> Options {
    let stamp = Timestamp::parse(spelling).unwrap();
    Options {
        object: "a.txt".to_string(),
        backend: Place::Sealed.label(),
        timestamp: stamp.to_rfc3339(),
        timestamp_unix: stamp.unix_seconds(),
        timestamp_source: source,
        create_if_missing: create,
    }
}

#[test]
fn the_plan_carries_the_timestamp_twice_for_two_readers() {
    let target = target("vault:a.txt");
    let options = stamped("2024-05-01T12:00:00Z", DIRECTORY_TIMESTAMP_SOURCE_EXPLICIT, true);
    let plan = Plan::new("touch", &target, true, None, &options);
    assert_eq!(plan.command, "touch");
    assert_eq!(plan.options.object, "a.txt");
    assert_eq!(plan.options.backend, "vault");
    assert_eq!(plan.options.timestamp, "2024-05-01T12:00:00Z");
    assert_eq!(plan.options.timestamp_unix, 1_714_564_800_i64);
    assert_eq!(
        plan.options.timestamp_source,
        DIRECTORY_TIMESTAMP_SOURCE_EXPLICIT
    );
    assert!(plan.options.create_if_missing);
    assert_eq!(plan.status, "planned");
}

#[test]
fn the_text_rows_name_the_object_the_backend_and_the_time() {
    let options = stamped("@0", DIRECTORY_TIMESTAMP_SOURCE_NOW, false);
    let rows = options.rows();
    assert_eq!(rows[0], (DIRECTORY_LABEL_OBJECT, "a.txt".to_string()));
    assert_eq!(rows[1], (DIRECTORY_LABEL_PLACE, "vault".to_string()));
    assert_eq!(
        rows[2],
        (
            DIRECTORY_LABEL_TIMESTAMP,
            "1970-01-01T00:00:00Z".to_string()
        )
    );
    assert_eq!(rows[3].1, DIRECTORY_TIMESTAMP_SOURCE_NOW);
    assert_eq!(rows[4].0, DIRECTORY_LABEL_CREATE);
}

#[test]
fn a_chosen_time_goes_before_the_clock() {
    let target = target("vault:a.txt");
    let now = Timestamp::from_unix(5);
    let mut args = TouchArgs {
        target: "vault:a.txt".to_string(),
        timestamp: None,
        no_create: true,
    };
    let (stamp, shown) = options(&args, &target, &Place::Filesystem, now);
    assert_eq!(stamp.unix_seconds(), 5);
    assert_eq!(shown.timestamp_source, DIRECTORY_TIMESTAMP_SOURCE_NOW);
    assert_eq!(shown.backend, "filesystem");
    assert!(!shown.create_if_missing);
    args.timestamp = Some(Timestamp::from_unix(7));
    let (stamp, shown) = options(&args, &target, &Place::Filesystem, now);
    assert_eq!(stamp.unix_seconds(), 7);
    assert_eq!(shown.timestamp_source, DIRECTORY_TIMESTAMP_SOURCE_EXPLICIT);
}

fn touching(spec: &str) -> TouchArgs {
    TouchArgs {
        target: spec.to_string(),
        timestamp: None,
        no_create: false,
    }
}

#[test]
fn a_bad_target_is_a_usage_error_not_a_backend_error() {
    for spec in ["", "/tmp/x", "scratch:", "scratch:../escape"] {
        let error = prepare(&touching(spec), false).unwrap_err();
        assert_eq!(error.code(), ExitCode::Usage, "accepted '{spec}'");
    }
    assert_eq!(
        prepare(&touching("scratch:a.txt"), false).unwrap().to_text(),
        "scratch:a.txt"
    );
}

#[test]
fn a_plain_object_store_is_refused_rather_than_half_attempted() {
    let target = prepare(&touching("b2:mybucket/sentinel"), false).unwrap();
    let place = Place::of(&Config::default(), &target).unwrap();
    let error = apply(&place, &request(&target, "@0", true)).unwrap_err();
    assert_eq!(error.code(), ExitCode::FatalError);
    assert!(error.hint().is_some());
}

#[test]
fn a_place_is_what_the_configuration_says() {
    let mut config = Config::default();
    config.insert(
        "disk",
        RemoteDef::Local(LocalDef {
            path: "/srv/v".to_string(),
            require_vault: false,
        }),
    );
    config.insert("archive", RemoteDef::Vault(VaultDef { base: "disk".to_string() }));
    config.insert(
        "cloud",
        RemoteDef::S3(BucketDef {
            bucket: "bucket".to_string(),
            endpoint: None,
            require_vault: false,
        }),
    );
    let label = |spec: &str| Place::of(&config, &target(spec)).unwrap().label();
    assert_eq!(label("archive:a"), Place::Sealed.label());
    assert_eq!(label("disk:a"), Place::Filesystem.label());
    assert_ne!(label("cloud:a"), label("disk:a"));
    assert_eq!(
        Place::of(&config, &target("nowhere:a")).unwrap_err().code(),
        ExitCode::FatalError
    );
}

#[test]
fn a_completed_run_reports_what_it_did() {
    let target = target("vault:a.txt");
    let stamp = Timestamp::parse("@0").unwrap();
    let options = Options {
        object: target.path.clone(),
        backend: Place::Sealed.label(),
        timestamp: stamp.to_rfc3339(),
        timestamp_unix: stamp.unix_seconds(),
        timestamp_source: DIRECTORY_TIMESTAMP_SOURCE_NOW,
        create_if_missing: true,
    };
    for outcome in [Outcome::Created, Outcome::Skipped] {
        let plan = done(&target, &options, outcome);
        assert_eq!(plan.status, outcome.slug());
        assert!(!plan.dry_run);
    }
    assert!(planned(&target, &options).dry_run);
    assert_ne!(planned(&target, &options).status, Outcome::Created.slug());
}

#[test]
fn the_closing_line_says_what_was_done_to_what() {
    let target = target("vault:a.txt");
    for outcome in [Outcome::Created, Outcome::Stamped, Outcome::Skipped] {
        let notice = closing(&target, outcome);
        assert_eq!(notice.level, Level::Success);
        assert_eq!(notice.message, format!("{}: vault:a.txt", outcome.slug()));
    }
}

#[test]
fn a_file_among_a_vaults_own_objects_is_refused() {
    let mut config = Config::default();
    for (name, path, require_vault) in [
        ("archive-store", "/srv/v", true),
        ("slashed", "/srv/w/", true),
        ("plain", "/srv/plain", false),
    ] {
        config.insert(
            name,
            RemoteDef::Local(LocalDef {
                path: path.to_string(),
                require_vault,
            }),
        );
    }
    for inside in ["/srv/v/notes.txt", "/srv/v", "/srv/v/o/aa", "/srv/w/a"] {
        let error = refuse_plain_write(&config, inside).unwrap_err();
        assert_eq!(error.code(), ExitCode::FatalError, "{inside}");
        assert!(error.message().contains(inside));
        assert!(error.hint().is_some());
    }
    for outside in ["/srv/vv/a", "/srv/plain/a", "/srv/a", "notes.txt"] {
        assert!(refuse_plain_write(&config, outside).is_ok(), "{outside}");
    }
    config.insert(
        "archive-store",
        RemoteDef::Local(LocalDef {
            path: "/srv/v".to_string(),
            require_vault: false,
        }),
    );
    assert!(refuse_plain_write(&config, "/srv/v/notes.txt").is_ok());
}

#[test]
fn a_refused_object_is_answered_in_terms_of_an_object() {
    for spec in ["", "/tmp/x", "scratch", "scratch:../escape"] {
        let error = prepare(&touching(spec), false).unwrap_err();
        assert!(error.hint().unwrap().starts_with("Write the object"), "{spec}");
    }
}
