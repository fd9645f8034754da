use dctl::audit::AuditEntry;
use dctl::error::{CliError, ExitCode};
use dctl::globals::Globals;
use dctl::integrity::{classify, failure, require_remote, Verdict};
use dctl::listing::{Entry, Filter};
use dctl::ordered;
use dctl::output::{bytes, bytes_or_unknown, count, duration, parse_size, Units};
use dctl::path;
use dctl::remote::{vault_chain, Config, LocalDef, RemoteDef, RemoteSpec, VaultDef};
use dctl::source::Sizes;
use dctl::stats::Stats;
use dctl::text;
use dctl::time::{checked_seconds, low_nanos, signed_seconds, unix_now, Reading};

#[test]
fn text_is_ordered_by_code_points() {
    assert!(text::before("a", "b"));
    assert!(text::before("a", "ab"));
    assert!(text::before("Z", "a"));
    assert!(!text::before("b", "a"));
    assert!(!text::before("a", "a"));
    assert!(text::same("é", "é"));
    assert!(!text::same("e", "é"));
}

#[test]
fn numbers_are_written_and_read() {
    assert_eq!(text::decimal(0), "0");
    assert_eq!(text::decimal(u64::MAX), "18446744073709551615");
    assert_eq!(text::signed_decimal(-42), "-42");
    assert_eq!(text::signed_decimal(i64::MIN), "-9223372036854775808");
    let read = |s: &str| text::parse_number(text::chars_of(s).as_slice());
    assert_eq!(read("18446744073709551615"), Some(u64::MAX));
    assert_eq!(read("18446744073709551616"), None);
    assert_eq!(read("+7"), Some(7));
    assert_eq!(read(""), None);
    assert_eq!(read("7x"), None);
    assert_eq!(text::hex(255, 4), "00ff");
    assert_eq!(text::hex_bytes(&[0x00, 0x9f, 0xff]), "009fff");
}

#[test]
fn white_space_is_trimmed_at_both_ends() {
    let trimmed: String = text::trimmed(" \t a b \n").into_iter().collect();
    assert_eq!(trimmed, "a b");
    assert!(text::trimmed("  ").is_empty());
    assert_eq!(
        text::split_on(text::chars_of("a//b").as_slice(), '/'),
        ["a", "", "b"]
    );
}

#[test]
fn a_set_of_paths_stays_ordered_and_holds_each_once() {
    let mut set: Vec<String> = Vec::new();
    for path in ["b", "a", "c", "a"] {
        ordered::insert(&mut set, path.to_string());
    }
    assert_eq!(set, ["a", "b", "c"]);
    assert!(ordered::contains(&set, "b"));
    assert!(!ordered::contains(&set, "bb"));
    assert_eq!(ordered::lower_bound(&set, "bb"), 2);
}

#[test]
fn a_path_lies_under_whole_components_only() {
    assert!(path::is_under("photos", "photos/a.jpg"));
    assert!(path::is_under("photos", "photos"));
    assert!(path::is_under("", "photos"));
    assert!(!path::is_under("photos", "photos-backup/a.jpg"));
    assert_eq!(path::name_of("a/b/c"), "c");
    assert_eq!(path::parent_of("a/b/c"), "a/b");
    assert_eq!(path::parent_of("a"), "");
    assert_eq!(path::join("", "a"), "a");
    assert_eq!(path::join("a", "b"), "a/b");
}

#[test]
fn a_path_has_one_spelling() {
    let clean = |raw: &str| path::clean_logical(raw);
    assert_eq!(clean("/a//./b/").as_deref(), Some("a/b"));
    assert_eq!(clean("a\\b").as_deref(), Some("a/b"));
    assert_eq!(clean("").as_deref(), Some(""));
    assert_eq!(clean("a/../b"), None);
    assert_eq!(clean("cafe\u{301}").as_deref(), Some("caf\u{e9}"));
    let once = clean("x/cafe\u{301}/./y").unwrap();
    assert_eq!(clean(&once).as_deref(), Some(once.as_str()));
}

#[test]
fn sizes_are_rounded_to_a_few_digits() {
    assert_eq!(bytes(0, Units::Binary), "0 B");
    assert_eq!(bytes(1023, Units::Binary), "1023 B");
    assert_eq!(bytes(1024, Units::Binary), "1.00 KiB");
    assert_eq!(bytes(1536, Units::Binary), "1.50 KiB");
    assert_eq!(bytes(10 * 1024, Units::Binary), "10.0 KiB");
    assert_eq!(bytes(1_000_000, Units::Decimal), "1.00 MB");
    assert_eq!(bytes(u64::MAX, Units::Binary), "16.0 EiB");
    assert_eq!(bytes_or_unknown(None, Units::Binary), "unknown");
    assert_eq!(count(0), "0");
    assert_eq!(count(1_234_567), "1,234,567");
    assert_eq!(duration(90), "90s");
    assert_eq!(duration(3_600), "1h");
    assert_eq!(duration(172_800), "2d");
}

#[test]
fn sizes_are_read_with_their_suffix() {
    assert_eq!(parse_size("10").unwrap(), 10);
    assert_eq!(parse_size("10B").unwrap(), 10);
    assert_eq!(parse_size(" 1k ").unwrap(), 1024);
    assert_eq!(parse_size("2G").unwrap(), 2_147_483_648);
    assert!(parse_size("").is_err());
    assert!(parse_size("k").is_err());
    assert!(parse_size("99999999999P").is_err());
    assert_eq!(parse_size("x").unwrap_err(), "'x' is not a valid size");
}

#[test]
fn an_argument_names_a_remote_or_a_path() {
    let read = |spec: &str| RemoteSpec::parse(spec);
    assert_eq!(
        read("b2:bucket/a").unwrap(),
        RemoteSpec::Named {
            remote: "b2".to_string(),
            path: "bucket/a".to_string(),
        }
    );
    assert_eq!(read("local:/srv").unwrap(), RemoteSpec::Local("/srv".to_string()));
    assert_eq!(read("./a:b").unwrap(), RemoteSpec::Local("./a:b".to_string()));
    assert_eq!(read("photos").unwrap(), RemoteSpec::Local("photos".to_string()));
    assert_eq!(read("C:\\a").unwrap(), RemoteSpec::Local("C:\\a".to_string()));
    assert_eq!(read("").unwrap_err().code(), ExitCode::Usage);
    assert_eq!(read(":a").unwrap_err().code(), ExitCode::Usage);
}

#[test]
fn a_chain_of_vaults_ends_at_the_store() {
    let mut config = Config::default();
    config.insert(
        "disk",
        RemoteDef::Local(LocalDef {
            path: "/srv/v".to_string(),
            require_vault: true,
        }),
    );
    config.insert("inner", RemoteDef::Vault(VaultDef { base: "disk".to_string() }));
    config.insert("outer", RemoteDef::Vault(VaultDef { base: "inner".to_string() }));
    assert_eq!(vault_chain(&config, "outer").unwrap(), "disk");
    assert_eq!(vault_chain(&config, "disk").unwrap(), "disk");
    assert_eq!(
        vault_chain(&config, "other").unwrap_err().code(),
        ExitCode::FatalError
    );
    config.insert("inner", RemoteDef::Vault(VaultDef { base: "outer".to_string() }));
    assert!(vault_chain(&config, "outer").is_err());
    assert_eq!(config.len(), 3);
}

fn filter(included: &[&str], excluded: &[&str]) -> Filter {
    let globals = Globals {
        included: included.iter().map(|p| p.to_string()).collect(),
        excluded: excluded.iter().map(|p| p.to_string()).collect(),
        ..Globals::default()
    };
    match Filter::from_globals(&globals) {
        Ok(filter) => filter,
        Err(error) => panic!("{}", error.message()),
    }
}

#[test]
fn patterns_match_inside_components_and_across_them() {
    let takes = |pattern: &str, p: &str| filter(&[pattern], &[]).matches("", &Entry::new(p, 1));
    assert!(takes("*.jpg", "a.jpg"));
    assert!(takes("*.jpg", "photos/a.jpg"));
    assert!(!takes("/*.jpg", "photos/a.jpg"));
    assert!(!takes("photos/*", "photos/2024/a.jpg"));
    assert!(takes("photos/**", "photos/2024/a.jpg"));
    assert!(takes("a?.txt", "ab.txt"));
    assert!(!takes("a?b", "a/b"));
    assert!(takes("[a-c]x", "bx"));
    assert!(!takes("[a-c]x", "dx"));
    assert!(!filter(&["*.jpg"], &["b*"]).matches("", &Entry::new("b.jpg", 1)));
    assert!(filter(&["*.jpg"], &["b*"]).matches("", &Entry::new("a.jpg", 1)));
    assert!(filter(&["/a.jpg"], &[]).matches("photos", &Entry::new("photos/a.jpg", 1)));
}

#[test]
fn sizes_and_depth_narrow_and_an_unmeasured_object_is_not_judged_by_its_size() {
    let globals = Globals {
        min_size: Some("2".to_string()),
        max_size: Some("1k".to_string()),
        max_depth: 2,
        ..Globals::default()
    };
    let filter = match Filter::from_globals(&globals) {
        Ok(filter) => filter,
        Err(error) => panic!("{}", error.message()),
    };
    assert!(!filter.matches("", &Entry::new("a", 1)));
    assert!(filter.matches("", &Entry::new("a", 2)));
    assert!(filter.matches("", &Entry::new("a/b", 1024)));
    assert!(!filter.matches("", &Entry::new("a/b", 1025)));
    assert!(!filter.matches("", &Entry::new("a/b/c", 2)));
    assert!(filter.matches("", &Entry::unmeasured("a")));
}

#[test]
fn exit_codes_are_told_apart() {
    let codes = [
        ExitCode::Success,
        ExitCode::Usage,
        ExitCode::Uncategorised,
        ExitCode::DirNotFound,
        ExitCode::FileNotFound,
        ExitCode::TemporaryError,
        ExitCode::PartialFailure,
        ExitCode::FatalError,
        ExitCode::NoFilesTransferred,
        ExitCode::ChecksumMismatch,
        ExitCode::IntegrityFailure,
        ExitCode::VaultLocked,
        ExitCode::Cancelled,
        ExitCode::VerificationNotPossible,
    ];
    for (i, a) in codes.iter().enumerate() {
        for b in &codes[i + 1..] {
            assert_ne!(a.as_i32(), b.as_i32());
        }
    }
    assert_eq!(ExitCode::Success.as_i32(), 0);
    assert_eq!(ExitCode::Cancelled.as_i32(), 25);
}

#[test]
fn the_worst_verdict_decides_how_a_run_ends() {
    assert_eq!(Verdict::Intact.worse(Verdict::Unreachable), Verdict::Unreachable);
    assert_eq!(Verdict::Corrupt.worse(Verdict::Missing), Verdict::Corrupt);
    assert_eq!(Verdict::Missing.worse(Verdict::Unreachable), Verdict::Missing);
    let judged = |code: ExitCode| classify(&CliError::new(code, String::new()));
    assert_eq!(judged(ExitCode::ChecksumMismatch), Verdict::Corrupt);
    assert_eq!(judged(ExitCode::FileNotFound), Verdict::Missing);
    assert_eq!(judged(ExitCode::TemporaryError), Verdict::Unreachable);
    assert!(failure(Verdict::Intact, 0, 9).is_none());
    let error = failure(Verdict::Corrupt, 2, 1_000).unwrap();
    assert_eq!(error.code(), ExitCode::IntegrityFailure);
    assert_eq!(
        error.message(),
        "2 of 1,000 object(s) did not authenticate and were NOT served"
    );
    assert_eq!(failure(Verdict::Missing, 1, 1).unwrap().code(), ExitCode::FileNotFound);
    assert_eq!(
        failure(Verdict::Unreachable, 1, 1).unwrap().code(),
        ExitCode::TemporaryError
    );
    assert_eq!(require_remote("scrub", "vault:a").unwrap().to_text(), "vault:a");
    assert_eq!(require_remote("scrub", "/a").unwrap_err().code(), ExitCode::Usage);
}

#[test]
fn a_run_with_an_error_is_no_success() {
    let mut stats = Stats::default();
    assert_eq!(stats.outcome(), ExitCode::Success);
    stats.error();
    assert_eq!(stats.outcome(), ExitCode::PartialFailure);
    stats.checksum_mismatch();
    assert_eq!(stats.outcome(), ExitCode::ChecksumMismatch);
}

#[test]
fn the_two_bases_of_a_size_are_named_apart() {
    assert_ne!(Sizes::Stored.label(), Sizes::Plaintext.label());
    assert!(Sizes::Plaintext.understates_stored_bytes());
    assert!(!Sizes::Stored.understates_stored_bytes());
}

#[test]
fn an_audit_entry_names_what_was_removed() {
    let entry = AuditEntry::removal("purge", ExitCode::Success, "a.txt", None, "archive");
    assert_eq!(entry.op, "purge");
    assert_eq!(entry.path, "a.txt");
    assert_eq!(entry.size, 0);
    assert_eq!(entry.objects, 1);
    assert_eq!(entry.remote, "archive");
    assert!(entry.ciphertext_hash.is_empty());
}

#[test]
fn a_clock_reading_is_a_signed_number_of_seconds() {
    assert_eq!(signed_seconds(5, false), 5);
    assert_eq!(signed_seconds(5, true), -5);
    assert_eq!(checked_seconds(5, false), Some(5));
    assert_eq!(checked_seconds(5, true), None);
    assert_eq!(checked_seconds(u64::MAX, false), None);
    let reading = Reading {
        seconds: 1,
        nanos: 500,
        before: false,
    };
    assert_eq!(low_nanos(reading), 1_000_000_500);
    assert!(unix_now().unwrap() > 1_600_000_000);
}

#[test]
fn flags_restrict_only_where_they_were_given() {
    assert!(!Globals::default().is_restricting());
    for globals in [
        Globals {
            included: vec!["*".to_string()],
            ..Globals::default()
        },
        Globals {
            max_size: Some("1k".to_string()),
            ..Globals::default()
        },
        Globals {
            max_depth: 0,
            ..Globals::default()
        },
    ] {
        assert!(globals.is_restricting());
    }
    assert!(filter(&[], &[]).matches("", &Entry::new("a/b", 1)));
}

#[test]
fn a_path_is_put_together_from_the_names_of_its_pieces() {
    let list = |names: &[&str]| -> Vec<String> { names.iter().map(|n| n.to_string()).collect() };
    assert_eq!(
        path::assemble(&list(&["a", "", ".", "b"]), &list(&["x", "", ".", "y"])).as_deref(),
        Some("x/y")
    );
    assert_eq!(path::assemble(&list(&[""]), &list(&[""])).as_deref(), Some(""));
    assert_eq!(path::assemble(&list(&["a", ".."]), &list(&["a", ".."])), None);
    assert_eq!(path::assemble(&list(&["a"]), &list(&["x/y"])), None);
    assert_eq!(path::assemble(&list(&["a"]), &list(&[""])), None);
}
