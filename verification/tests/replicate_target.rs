use dctl::error::ExitCode;
use dctl::globals::Globals;
use dctl::remote::{BucketDef, Config, LocalDef, RemoteDef, RemoteSpec, VaultDef};
use dctl::replicate::target::{
    admission, is_declared, open, refuse_same_place, refuse_vault, Envelope, Side, Standing, Store,
};
use dctl::replicate::{prepare, ReplicateArgs};

fn vault_pair() -> Config {
    let mut config = Config::default();
    config.insert(
        "archive",
        RemoteDef::Vault(VaultDef {
            base: "archive-store".to_string(),
        }),
    );
    config.insert(
        "archive-store",
        RemoteDef::Local(LocalDef {
            path: "/srv/vault".to_string(),
            require_vault: true,
        }),
    );
    config
}

#[test]
fn a_vault_remote_is_refused_on_either_side_without_touching_a_store() {
    let config = vault_pair();
    for side in [Side::Source, Side::Destination] {
        let error = open(&config, "archive:", side).unwrap_err();
        assert_eq!(error.code(), ExitCode::Usage);
        assert!(error.message().contains("decrypts"), "{}", error.message());
        assert!(
            error.hint().unwrap_or_default().contains("archive-store:"),
            "got hint: {:?}",
            error.hint()
        );
    }
}

#[test]
fn a_vault_remote_with_no_base_still_refuses_and_says_the_config_is_broken() {
    let plain = RemoteDef::Local(LocalDef {
        path: "/srv".to_string(),
        require_vault: false,
    });
    let error = refuse_vault("x:", "x", &plain, Side::Source);
    assert!(
        error.hint().unwrap_or_default().contains("-store"),
        "got hint: {:?}",
        error.hint()
    );
}

#[test]
fn a_declared_store_is_admitted_with_no_probe_at_all() {
    let config = vault_pair();
    let parsed = open(&config, "archive-store:", Side::Destination).unwrap();
    assert!(is_declared(&config, &parsed));
    let standing = admission(
        &config,
        &parsed,
        Envelope::Absent,
        "archive-store:",
        Side::Destination,
    );
    assert_eq!(standing.unwrap(), Standing::Declared);
}

#[test]
fn a_bare_location_holding_an_envelope_is_admitted() {
    let config = Config::default();
    let parsed = open(&config, "local:/srv/vault", Side::Source).unwrap();
    assert_eq!(parsed, RemoteSpec::Local("/srv/vault".to_string()));
    let found = |envelope| {
        admission(&config, &parsed, envelope, "local:/srv/vault", Side::Source).unwrap()
    };
    assert_eq!(
        found(Envelope::Vault { slots: 3 }),
        Standing::Demonstrated { slots: Some(3) }
    );
    assert_eq!(found(Envelope::Foreign), Standing::Demonstrated { slots: None });
}

#[test]
fn an_undeclared_empty_location_is_refused_and_told_how_to_declare_itself() {
    let config = Config::default();
    let parsed = open(&config, "local:/srv/ordinary", Side::Destination).unwrap();
    let error = admission(
        &config,
        &parsed,
        Envelope::Absent,
        "local:/srv/ordinary",
        Side::Destination,
    )
    .unwrap_err();
    assert_eq!(error.code(), ExitCode::FatalError);
    assert!(
        error.message().contains("not a vault's object store"),
        "{}",
        error.message()
    );
    assert!(
        error
            .hint()
            .unwrap_or_default()
            .contains("require_vault=true"),
        "the refusal must name the command that declares one"
    );
}

#[test]
fn a_path_inside_a_store_is_refused_as_a_filter_in_disguise() {
    let error = open(&vault_pair(), "archive-store:photos", Side::Source).unwrap_err();
    assert_eq!(error.code(), ExitCode::Usage);
    assert!(
        error.hint().unwrap_or_default().contains("partial replica"),
        "got hint: {:?}",
        error.hint()
    );
}

#[test]
fn an_argument_that_names_nothing_is_refused() {
    for spec in ["", "a/b:c"] {
        let error = open(&Config::default(), spec, Side::Source).unwrap_err();
        assert_eq!(error.code(), ExitCode::Usage, "{spec}");
    }
}

fn store(spec: &str, place: &str) -> Store {
    Store {
        spec: spec.to_string(),
        name: spec.trim_end_matches(':').to_string(),
        place: place.to_string(),
        standing: Standing::Declared,
    }
}

#[test]
fn two_names_for_one_bucket_are_recognised_as_one_place() {
    let source = store("primary-store:", "/srv/vault");
    let destination = store("offsite-store:", "/srv/vault");
    let error = refuse_same_place(&source, &destination).unwrap_err();
    assert_eq!(error.code(), ExitCode::Usage);
    assert!(error.message().contains("same location"));
    assert!(refuse_same_place(&source, &store("offsite-store:", "/srv/other")).is_ok());
    assert_eq!(source.name(), "primary-store");
}

#[test]
fn two_genuinely_different_buckets_are_not_the_same_place() {
    let one = RemoteDef::B2(BucketDef {
        bucket: "primary".to_string(),
        endpoint: None,
        require_vault: true,
    });
    let other = RemoteDef::S3(BucketDef {
        bucket: "primary".to_string(),
        endpoint: Some("https://s3.example.com".to_string()),
        require_vault: true,
    });
    assert_ne!(one.kind_name(), other.kind_name());
}

#[test]
fn each_side_names_the_argument_the_user_typed() {
    assert_ne!(Side::Source.label(), Side::Destination.label());
    assert!(Side::Source.label().ends_with(':'));
    assert!(Side::Destination.label().ends_with(':'));
}

#[test]
fn standing_slugs_are_distinct_and_stable() {
    assert_ne!(
        Standing::Declared.slug(),
        Standing::Demonstrated { slots: None }.slug()
    );
    assert_eq!(
        Standing::Demonstrated { slots: Some(2) }.slug(),
        Standing::Demonstrated { slots: None }.slug(),
        "how many slots an envelope has does not change how it was admitted"
    );
}

fn args(source: &str, destination: &str) -> ReplicateArgs {
    ReplicateArgs {
        source: source.to_string(),
        destination: destination.to_string(),
    }
}

#[test]
fn every_filter_is_refused_before_anything_is_contacted() {
    let globals = Globals {
        included: vec!["*.jpg".to_string()],
        ..Globals::default()
    };
    let error = prepare(&args("a/b:", "archive:"), &globals, &vault_pair()).unwrap_err();
    assert_eq!(error.code(), ExitCode::Usage);
    assert!(error.message().contains("--include"), "{}", error.message());
}

#[test]
fn a_vault_remote_is_refused_on_either_side() {
    let config = vault_pair();
    for pair in [
        ("archive:", "archive-store:"),
        ("archive-store:", "archive:"),
    ] {
        let error = prepare(&args(pair.0, pair.1), &Globals::default(), &config)
            .and_then(|_| open(&config, pair.1, Side::Destination))
            .unwrap_err();
        assert_eq!(error.code(), ExitCode::Usage, "{pair:?}");
        assert!(error.message().contains("decrypts"), "{}", error.message());
    }
    assert!(prepare(&args("archive-store:", "/mnt/offsite"), &Globals::default(), &config).is_ok());
}
