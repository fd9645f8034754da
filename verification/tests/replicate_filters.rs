use dctl::error::ExitCode;
use dctl::globals::Globals;
use dctl::replicate::filters::{refuse, requested};

fn word(text: &str) -> Vec<String> {
    vec![text.to_string()]
}

fn each_filter() -> Vec<(&'static str, Globals)> {
    vec![
        ("--include", Globals { included: word("*.jpg"), ..Globals::default() }),
        ("--exclude", Globals { excluded: word("tmp/**"), ..Globals::default() }),
        ("--filter-from", Globals { filter_from: word("/etc/rules"), ..Globals::default() }),
        ("--files-from", Globals { files_from: word("/etc/list"), ..Globals::default() }),
        ("--min-size", Globals { min_size: Some("1M".to_string()), ..Globals::default() }),
        ("--max-size", Globals { max_size: Some("1G".to_string()), ..Globals::default() }),
        ("--max-depth", Globals { max_depth: 2, ..Globals::default() }),
    ]
}

#[test]
fn an_unfiltered_run_is_allowed() {
    assert!(refuse(&Globals::default()).is_ok());
    let unrelated = Globals {
        dry_run: true,
        force: true,
        ..Globals::default()
    };
    assert!(refuse(&unrelated).is_ok());
}

#[test]
fn every_filter_flag_is_refused() {
    for (flag, globals) in each_filter() {
        let error = refuse(&globals).unwrap_err();
        assert_eq!(error.code(), ExitCode::Usage, "{flag}");
        assert!(
            error.message().contains(flag),
            "the refusal must name the flag: {}",
            error.message()
        );
    }
}

#[test]
fn a_zero_max_depth_is_a_filter_and_not_a_default() {
    assert!(refuse(&Globals { max_depth: 0, ..Globals::default() }).is_err());
    assert!(refuse(&Globals { max_depth: -1, ..Globals::default() }).is_ok());
}

#[test]
fn every_filter_flag_is_named_at_once() {
    let error = refuse(&Globals {
        included: word("*.jpg"),
        excluded: word("tmp/**"),
        max_size: Some("1G".to_string()),
        ..Globals::default()
    })
    .unwrap_err();
    for flag in ["--include", "--exclude", "--max-size"] {
        assert!(error.message().contains(flag), "{}", error.message());
    }
}

#[test]
fn the_refusal_explains_that_a_partial_replica_is_broken() {
    let error = refuse(&Globals { included: word("*"), ..Globals::default() }).unwrap_err();
    let hint = error.hint().unwrap_or_default();
    assert!(hint.contains("not a vault"), "got hint: {hint}");
    assert!(hint.contains("dctl copy"), "got hint: {hint}");
}

#[test]
fn the_flag_list_covers_every_filter_the_parser_offers() {
    let all = Globals {
        included: word("*"),
        excluded: word("*"),
        filter_from: word("f"),
        files_from: word("f"),
        min_size: Some("1".to_string()),
        max_size: Some("1".to_string()),
        max_depth: 1,
        ..Globals::default()
    };
    assert_eq!(
        requested(&all),
        [
            "--include",
            "--exclude",
            "--filter-from",
            "--files-from",
            "--min-size",
            "--max-size",
            "--max-depth",
        ]
    );
    let error = refuse(&all).unwrap_err();
    for (flag, _) in each_filter() {
        assert!(error.message().contains(flag), "{}", error.message());
    }
}
