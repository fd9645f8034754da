use dctl::error::{ExitCode, Result};
use dctl::remote::{Config, RemoteSpec};
use dctl::removal::target::Target;

fn parse(spec: &str) -> Result<Target> {
    Target::parse(spec)
}

#[test]
fn a_remote_and_a_path_are_split_at_the_first_colon() {
    let target = parse("vault:photos/2024").unwrap();
    assert_eq!(target.remote, "vault");
    assert_eq!(target.path, "photos/2024");
    assert!(!target.is_root());
}

#[test]
fn a_shorthands_bucket_is_not_part_of_the_prefix_a_removal_deletes_under() {
    let config = Config::default();
    for (written, expected) in [
        ("b2:DCTL001", ""),
        ("b2:DCTL001/2019", "2019"),
        ("b2:DCTL001/2019/q4", "2019/q4"),
        ("s3:media/raw", "raw"),
        ("r2:cold", ""),
    ] {
        let scoped = parse(written)
            .expect("a well-formed target")
            .scoped_to(&config)
            .expect("a shorthand resolves with no config file");
        assert_eq!(
            scoped.path, expected,
            "'{written}' would delete under the wrong prefix"
        );
        assert_eq!(scoped.remote, parse(written).expect("parses").remote);
    }
}

#[test]
fn a_target_that_cannot_be_resolved_yields_no_prefix_at_all() {
    let error = parse("nosuchremote:2019")
        .expect("a well-formed target")
        .scoped_to(&Config::default())
        .expect_err("an unknown remote has no prefix");
    assert_eq!(error.code(), ExitCode::FatalError);
    assert!(error.message().contains("nosuchremote"));
}

#[test]
fn a_shorthand_without_a_bucket_is_a_usage_error() {
    let error = parse("b2:").unwrap().scoped_to(&Config::default()).unwrap_err();
    assert_eq!(error.code(), ExitCode::Usage);
    assert_eq!(error.message(), "'b2' needs a bucket name");
}

#[test]
fn a_bare_remote_is_the_root() {
    let target = parse("vault:").unwrap();
    assert!(target.is_root());
    assert_eq!(target.path, "");
    assert_eq!(target.to_text(), "vault:");
}

#[test]
fn paths_are_canonicalised_before_anything_is_removed() {
    assert_eq!(parse("vault:./photos//2024/").unwrap().path, "photos/2024");
    assert_eq!(parse(r"vault:photos\2024").unwrap().path, "photos/2024");
}

#[test]
fn unicode_spellings_converge_on_one_target() {
    let nfd = parse("vault:cafe\u{301}/a.jpg").unwrap();
    let nfc = parse("vault:caf\u{e9}/a.jpg").unwrap();
    assert_eq!(nfd, nfc);
}

#[test]
fn local_paths_are_refused_rather_than_guessed_at() {
    for spec in [r"\\server\share\x", "/tmp/x"] {
        let error = parse(spec).unwrap_err();
        assert_eq!(error.code(), ExitCode::Usage, "accepted '{spec}'");
        assert!(error.hint().is_some(), "'{spec}' failed without advice");
    }
}

#[test]
fn one_letter_specs_follow_the_same_platform_rule_the_transfer_verbs_use() {
    let removal = parse("r:photos");
    match RemoteSpec::parse("r:photos").expect("classified") {
        RemoteSpec::Named { remote, path } => {
            let target = removal.expect("removal must agree that this is a remote");
            assert_eq!(target.remote, remote);
            assert_eq!(target.path, path);
        }
        RemoteSpec::Local(_) => {
            assert_eq!(removal.unwrap_err().code(), ExitCode::Usage);
        }
    }
    assert!(parse("xy:z").is_ok());
}

#[test]
fn escaping_the_root_is_refused() {
    let error = parse("vault:photos/../../etc").unwrap_err();
    assert_eq!(error.code(), ExitCode::Usage);
}

#[test]
fn an_empty_target_is_a_usage_error_not_the_whole_vault() {
    assert_eq!(parse("").unwrap_err().code(), ExitCode::Usage);
    assert_eq!(parse("   ").unwrap_err().code(), ExitCode::Usage);
}

#[test]
fn a_remote_name_never_contains_a_separator() {
    assert_eq!(parse("a/b:c").unwrap_err().code(), ExitCode::Usage);
}

#[test]
fn what_has_no_colon_is_not_a_remote() {
    let error = parse("photos").unwrap_err();
    assert_eq!(error.code(), ExitCode::Usage);
    assert_eq!(error.message(), "'photos' is not a remote specification");
}

#[test]
fn the_display_form_round_trips_through_the_parser() {
    let target = parse("vault:photos/2024").unwrap();
    assert_eq!(target.to_text(), "vault:photos/2024");
    assert_eq!(parse(&target.to_text()).unwrap(), target);
}

#[test]
fn the_json_shape_is_remote_plus_path() {
    let target = parse("vault:photos").unwrap();
    assert_eq!(target.remote, "vault");
    assert_eq!(target.path, "photos");
}

#[test]
fn a_target_takes_the_path_it_is_given() {
    let target = Target::named("vault:anything", Some("photos".to_string())).unwrap();
    assert_eq!(target.to_text(), "vault:photos");
    let error = Target::named("vault:../up", None).unwrap_err();
    assert_eq!(error.code(), ExitCode::Usage);
    assert!(error.message().contains("../up"), "{}", error.message());
    assert!(Target::named("/tmp/x", Some(String::new())).is_err());
}
