use dctl::error::ExitCode;
use dctl::index::Record;
use dctl::remote::{Config, LocalDef, RemoteDef, RemoteSpec, VaultDef};
use dctl::removal::medium::{is_sealed, spec_of, storage_spec, Medium};
use dctl::removal::target::Target;

#[test]
fn the_store_a_removal_opens_is_addressed_by_the_whole_argument() {
    for spelling in [
        "b2:DCTL001/a.txt",
        "b2:DCTL001",
        "archive:photos/2024",
        "archive:",
    ] {
        let target = Target::parse(spelling).expect("a well-formed target");
        assert_eq!(
            spec_of(&target),
            RemoteSpec::Named {
                remote: target.remote.clone(),
                path: target.path.clone(),
            },
            "'{spelling}' would open a store the operator did not name"
        );
    }
    let shorthand = Target::parse("b2:DCTL001/2019").expect("a well-formed target");
    match spec_of(&shorthand) {
        RemoteSpec::Named { remote, path } => {
            assert_eq!(remote, "b2");
            assert_eq!(path, "DCTL001/2019", "the bucket was thrown away");
        }
        RemoteSpec::Local(_) => panic!("a removal target is never a local path"),
    }
}

fn initialised() -> Config {
    let mut config = Config::default();
    config.insert(
        "archive-store",
        RemoteDef::Local(LocalDef {
            path: "/srv/v".to_string(),
            require_vault: true,
        }),
    );
    config.insert(
        "archive",
        RemoteDef::Vault(VaultDef {
            base: "archive-store".to_string(),
        }),
    );
    config
}

#[test]
fn a_vault_remote_is_sealed_and_its_store_is_not() {
    let config = initialised();
    assert!(is_sealed(&config, "archive"));
    assert!(!is_sealed(&config, "archive-store"));
}

#[test]
fn an_unconfigured_remote_is_not_sealed() {
    assert!(!is_sealed(&Config::default(), "b2"));
}

#[test]
fn a_vault_resolves_to_the_remote_that_really_holds_bytes() {
    let spec = storage_spec(&initialised(), "archive").expect("the chain resolves");
    assert_eq!(spec.to_text(), "archive-store:");
}

#[test]
fn a_broken_chain_is_diagnosed_rather_than_guessed_at() {
    let mut config = Config::default();
    config.insert(
        "archive",
        RemoteDef::Vault(VaultDef {
            base: "nowhere".to_string(),
        }),
    );
    assert!(storage_spec(&config, "archive").is_err());
}

#[test]
fn a_chain_that_comes_round_is_refused() {
    let mut config = Config::default();
    config.insert("a", RemoteDef::Vault(VaultDef { base: "b".to_string() }));
    config.insert("b", RemoteDef::Vault(VaultDef { base: "a".to_string() }));
    let error = storage_spec(&config, "a").unwrap_err();
    assert_eq!(error.code(), ExitCode::FatalError);
}

fn row(path: &str, size: u64, hash: &[u8]) -> Record {
    Record {
        path: path.to_string(),
        object_key: format!("o/{path}"),
        size,
        modified_unix: None,
        content_hash: hash.to_vec(),
    }
}

#[test]
fn a_prefix_scopes_a_sealed_listing_to_whole_components() {
    let rows = vec![
        row("other/c.jpg", 1, b"c"),
        row("photos-backup/b.jpg", 1, b"b"),
        row("photos/a.jpg", 1, b"a"),
    ];
    let listed: Vec<String> = Medium::list("photos", &rows)
        .into_iter()
        .map(|entry| entry.path)
        .collect();
    assert_eq!(listed, ["photos/a.jpg"]);
}

#[test]
fn a_sealed_listing_carries_an_unmeasured_row_as_unmeasured() {
    let rows = vec![row("a.txt", 0, b""), row("empty.txt", 0, b"digest")];
    let listed = Medium::list("", &rows);
    assert_eq!(listed[0].size, None);
    assert_eq!(listed[1].size, Some(0));
}

#[test]
fn only_a_vault_can_answer_which_objects_the_index_refers_to() {
    let config = initialised();
    let rows = vec![row("a.txt", 5, b"h")];
    let vault = Medium::open(&config, &Target::parse("archive:").unwrap()).unwrap();
    assert!(vault.is_vault());
    let keys = vault.indexed_object_keys(&rows).expect("a vault has an index");
    assert_eq!(keys, ["o/a.txt"]);
    let plain = Medium::open(&config, &Target::parse("archive-store:").unwrap()).unwrap();
    assert!(!plain.is_vault());
    assert!(plain.indexed_object_keys(&rows).is_none());
}

#[test]
fn a_sealed_listing_reports_every_object_once_in_path_order() {
    let rows = vec![
        row("a.txt", 1, b"a"),
        row("b/first.txt", 3, b"b"),
        row("b/second.txt", 2, b"c"),
    ];
    let listed: Vec<String> = Medium::list("", &rows)
        .into_iter()
        .map(|entry| entry.path)
        .collect();
    assert_eq!(listed, ["a.txt", "b/first.txt", "b/second.txt"]);
}

#[test]
fn a_rebuilt_sealed_listing_carries_the_sizes_its_objects_declare() {
    let rows = vec![row("a.txt", 11, b"a"), row("empty.txt", 0, b"e")];
    let listed = Medium::list("", &rows);
    assert_eq!(listed[0].size, Some(11));
    assert_eq!(
        listed[1].size,
        Some(0),
        "a genuinely empty file is measured, not unknown"
    );
}
