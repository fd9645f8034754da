use dctl::error::ExitCode;
use dctl::globals::Globals;
use dctl::removal::filters::Filters;
use dctl::removal::flow::Removal;
use dctl::removal::operation::Operation;
use dctl::removal::plan::NoOptions;
use dctl::removal::target::Target;

fn removal() -> Removal<NoOptions> {
    Removal {
        command: "delete",
        action: "delete",
        target: Target::parse("nosuchremote:photos").expect("a well-formed target"),
        filters: Some(Filters::resolve(&Globals::default()).expect("no filters")),
        options: NoOptions {},
        operation: Operation::Delete { rmdirs: false },
    }
}

fn with_pattern() -> Globals {
    Globals {
        included: vec!["[abc".to_string()],
        ..Globals::default()
    }
}

#[test]
fn an_unusable_filter_fails_before_the_gate() {
    let error = match removal().matcher(&with_pattern()) {
        Ok(_) => panic!("a malformed pattern must be refused"),
        Err(error) => error,
    };
    assert_eq!(error.code(), ExitCode::Usage);
    assert!(error.message().contains("--include"), "{}", error.message());
}

#[test]
fn a_rule_file_is_refused_rather_than_silently_dropped() {
    let globals = Globals {
        filter_from: vec!["rules.txt".to_string()],
        ..Globals::default()
    };
    let error = match removal().matcher(&globals) {
        Ok(_) => panic!("a rule file must be refused"),
        Err(error) => error,
    };
    assert_ne!(error.code(), ExitCode::Success);
    assert!(error.hint().is_some());
}

#[test]
fn a_command_that_ignores_filters_is_not_stopped_by_a_bad_pattern() {
    let purge = Removal {
        command: "purge",
        action: "purge",
        filters: None,
        operation: Operation::Purge,
        ..removal()
    };
    assert!(purge.matcher(&with_pattern()).is_ok());
    assert!(purge.execute(true, false).is_ok());
}

#[test]
fn a_dry_run_is_not_treated_as_a_refusal() {
    assert!(
        removal().execute(false, true).is_ok(),
        "a dry run must reach the engine, not be cancelled"
    );
}

#[test]
fn a_refused_removal_is_cancelled_by_name() {
    let error = removal().execute(false, false).unwrap_err();
    assert_eq!(error.code(), ExitCode::Cancelled);
    assert!(error.message().contains("nosuchremote:photos"), "{}", error.message());
}
