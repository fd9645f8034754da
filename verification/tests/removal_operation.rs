use dctl::constants::DESTRUCTIVE_CONFIRMATION;
use dctl::error::ExitCode;
use dctl::removal::engine::declined;
use dctl::removal::operation::Operation;
use dctl::removal::reclaim::Class;
use dctl::time::Duration;

#[test]
fn the_three_verbs_that_destroy_user_data_are_the_three_that_say_so() {
    assert!(Operation::Delete { rmdirs: false }.removes_user_data());
    assert!(Operation::DeleteFile.removes_user_data());
    assert!(Operation::Purge.removes_user_data());

    assert!(!Operation::Rmdir.removes_user_data());
    assert!(!Operation::Rmdirs { leave_root: false }.removes_user_data());
    assert!(!Operation::Cleanup {
        classes: Vec::new(),
        min_age: Duration::from_secs(0),
        named: false,
    }
    .removes_user_data());
}

#[test]
fn only_cleanup_works_outside_the_logical_path_set() {
    assert!(Operation::Cleanup {
        classes: vec![Class::Staging],
        min_age: Duration::from_secs(1),
        named: true,
    }
    .is_cleanup());
    assert!(!Operation::Purge.is_cleanup());
}

#[test]
fn the_option_carrying_arms_keep_their_options_apart() {
    assert_ne!(
        Operation::Delete { rmdirs: true },
        Operation::Delete { rmdirs: false }
    );
    assert_ne!(
        Operation::Rmdirs { leave_root: true },
        Operation::Rmdirs { leave_root: false }
    );
}

#[test]
fn a_declined_confirmation_is_cancelled_not_failed() {
    let error = declined("purge", "vault:old");
    assert_eq!(error.code(), ExitCode::Cancelled);
    assert_ne!(error.code(), ExitCode::Success);
    assert!(error.message().contains("vault:old"));
    assert!(error
        .hint()
        .unwrap_or_default()
        .contains(DESTRUCTIVE_CONFIRMATION));
}
