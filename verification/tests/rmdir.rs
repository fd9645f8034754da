use dctl::constants::{REMOVAL_BOOL_YES, REMOVAL_LABEL_LEAVE_ROOT};
use dctl::error::ExitCode;
use dctl::globals::Globals;
use dctl::output::Units;
use dctl::removal::operation::Operation;
use dctl::removal::plan::{NoOptions, Plan};
use dctl::removal::target::Target;
use dctl::rmdir::{RmdirArgs, COMMAND};
use dctl::rmdirs::{RmdirsArgs, RmdirsOptions};

fn one(path: &str) -> RmdirArgs {
    RmdirArgs {
        path: path.to_string(),
    }
}

#[test]
fn a_trailing_separator_is_accepted_because_it_is_a_directory() {
    let target = Target::parse("vault:photos/2024/").unwrap();
    assert_eq!(target.path, "photos/2024");
}

#[test]
fn the_vault_root_is_refused() {
    let error = dctl::rmdir::removal(&one("vault:")).unwrap_err();
    assert_eq!(error.code(), ExitCode::Usage);
    assert!(error.hint().is_some());
}

#[test]
fn rmdir_a_malformed_target_is_refused() {
    let error = dctl::rmdir::removal(&one("not-a-remote")).unwrap_err();
    assert_eq!(error.code(), ExitCode::Usage);
}

#[test]
fn a_directory_is_removed_without_filters() {
    let removal = dctl::rmdir::removal(&one("vault:photos/2024")).unwrap();
    assert_eq!(removal.operation, Operation::Rmdir);
    assert!(removal.filters.is_none());
    let ignored = Globals {
        filter_from: vec!["rules".to_string()],
        ..Globals::default()
    };
    assert!(removal.matcher(&ignored).is_ok(), "filters do not reach a directory");
    assert!(removal.execute(false, true).is_ok());
    assert_eq!(
        removal.execute(false, false).unwrap_err().code(),
        ExitCode::Cancelled
    );
}

#[test]
fn the_json_plan_names_the_directory() {
    let target = Target::parse("vault:photos/2024").unwrap();
    let options = NoOptions {};
    let plan = Plan::new(COMMAND, &target, true, None, &options);
    assert_eq!(plan.command, COMMAND);
    assert_eq!(plan.target.path, "photos/2024");
    assert!(plan.filters.is_none());
}

#[test]
fn the_whole_vault_may_be_swept() {
    let removal = dctl::rmdirs::removal(&RmdirsArgs {
        path: "vault:".to_string(),
        leave_root: true,
    })
    .unwrap();
    assert!(removal.target.is_root());
    assert_eq!(removal.operation, Operation::Rmdirs { leave_root: true });
}

#[test]
fn rmdirs_a_malformed_target_is_refused() {
    let error = dctl::rmdirs::removal(&RmdirsArgs {
        path: "vault".to_string(),
        leave_root: false,
    })
    .unwrap_err();
    assert_eq!(error.code(), ExitCode::Usage);
}

#[test]
fn the_json_plan_carries_the_leave_root_flag() {
    let target = Target::parse("vault:photos").unwrap();
    let options = RmdirsOptions { leave_root: true };
    let plan = Plan::new(dctl::rmdirs::COMMAND, &target, true, None, &options);
    assert_eq!(plan.command, dctl::rmdirs::COMMAND);
    assert!(plan.options.leave_root);
    let rows = plan.rows(Units::Binary);
    assert_eq!(
        rows.last().unwrap(),
        &(REMOVAL_LABEL_LEAVE_ROOT, REMOVAL_BOOL_YES.to_string())
    );
}

#[test]
fn a_dry_run_reaches_the_engine_rather_than_being_cancelled() {
    let removal = dctl::rmdirs::removal(&RmdirsArgs {
        path: "vault:photos".to_string(),
        leave_root: false,
    })
    .unwrap();
    assert!(removal.execute(false, true).is_ok());
}
