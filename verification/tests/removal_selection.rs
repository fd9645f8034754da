use dctl::constants::REMOVAL_KIND_DIRECTORY;
use dctl::error::ExitCode;
use dctl::globals::Globals;
use dctl::listing::{paths_of, Entry, Filter};
use dctl::removal::dirs::{marker_path, Directories};
use dctl::removal::operation::Operation;
use dctl::removal::selection::{delete, delete_file, purge, rmdir, rmdirs, select, Item};
use dctl::removal::target::Target;
use dctl::time::Duration;

fn filter(globals: Globals) -> Filter {
    Filter::from_globals(&globals).expect("the flags compile")
}

fn everything() -> Filter {
    filter(Globals::default())
}

fn only(pattern: &str) -> Filter {
    filter(Globals {
        included: vec![pattern.to_string()],
        ..Globals::default()
    })
}

fn target(spec: &str) -> Target {
    Target::parse(spec).expect("a well-formed target")
}

fn listing(paths: &[(&str, u64)]) -> Vec<Entry> {
    paths
        .iter()
        .map(|(path, size)| Entry::new(path, *size))
        .collect()
}

fn structure(entries: &Vec<Entry>) -> Directories {
    Directories::from_paths(&paths_of(entries))
}

fn paths(items: &[Item]) -> Vec<&str> {
    items.iter().map(|item| item.path.as_str()).collect()
}

fn marker(directory: &str) -> String {
    marker_path(directory)
}

#[test]
fn delete_takes_the_objects_and_leaves_the_structure_standing() {
    let entries = listing(&[("photos/a.jpg", 3), (&marker("photos"), 0)]);
    let before = structure(&entries);
    let items = delete(&everything(), &target("vault:photos"), &entries, &before, false);
    assert_eq!(paths(&items), ["photos/a.jpg"]);
}

#[test]
fn delete_honours_the_filters() {
    let entries = listing(&[("photos/a.jpg", 3), ("photos/b.tmp", 1)]);
    let before = structure(&entries);
    let items = delete(&only("*.tmp"), &target("vault:photos"), &entries, &before, false);
    assert_eq!(paths(&items), ["photos/b.tmp"]);
}

#[test]
fn delete_matches_filters_relative_to_the_target() {
    let entries = listing(&[("photos/a.jpg", 1), ("photos/2024/b.jpg", 1)]);
    let before = structure(&entries);
    let shallow = filter(Globals {
        max_depth: 1,
        ..Globals::default()
    });
    let items = delete(&shallow, &target("vault:photos"), &entries, &before, false);
    assert_eq!(paths(&items), ["photos/a.jpg"]);
}

#[test]
fn a_rule_file_is_refused_when_the_matcher_is_built() {
    let globals = Globals {
        filter_from: vec!["rules.txt".to_string()],
        ..Globals::default()
    };
    let error = Filter::from_globals(&globals).expect_err("a rule file must be refused");
    assert_ne!(error.code(), ExitCode::Success);
    assert!(error.hint().is_some());
}

#[test]
fn rmdirs_sweeps_only_the_directories_the_delete_emptied() {
    let entries = listing(&[
        ("photos/2024/a.jpg", 3),
        (&marker("photos/2024"), 0),
        (&marker("photos/empty"), 0),
    ]);
    let before = structure(&entries);
    let items = delete(&everything(), &target("vault:photos"), &entries, &before, true);
    assert_eq!(paths(&items), ["photos/2024/a.jpg", &marker("photos/2024")]);
}

#[test]
fn rmdirs_never_removes_the_target_root() {
    let entries = listing(&[("photos/a.jpg", 3), (&marker("photos"), 0)]);
    let before = structure(&entries);
    let items = delete(&everything(), &target("vault:photos"), &entries, &before, true);
    assert_eq!(paths(&items), ["photos/a.jpg"]);
}

#[test]
fn a_directory_a_filtered_delete_did_not_empty_survives_rmdirs() {
    let entries = listing(&[
        ("photos/2024/a.jpg", 3),
        ("photos/2024/b.tmp", 1),
        (&marker("photos/2024"), 0),
    ]);
    let before = structure(&entries);
    let items = delete(&only("*.tmp"), &target("vault:photos"), &entries, &before, true);
    assert_eq!(paths(&items), ["photos/2024/b.tmp"]);
}

#[test]
fn deletefile_takes_exactly_the_object_named() {
    let entries = listing(&[("a.jpg", 5), ("a.jpg.bak", 9)]);
    let items = delete_file(&target("vault:a.jpg"), &entries).unwrap();
    assert_eq!(paths(&items), ["a.jpg"]);
    assert_eq!(items[0].size, Some(5));
}

#[test]
fn deletefile_refuses_a_directory_rather_than_recursing() {
    let entries = listing(&[("photos/a.jpg", 1)]);
    let error = delete_file(&target("vault:photos"), &entries).unwrap_err();
    assert_eq!(error.code(), ExitCode::Usage);
    assert!(error.hint().unwrap_or_default().contains("purge"));
}

#[test]
fn deletefile_reports_a_missing_object_as_missing() {
    let error = delete_file(&target("vault:nope.jpg"), &Vec::new()).unwrap_err();
    assert_eq!(error.code(), ExitCode::FileNotFound);
}

#[test]
fn purge_takes_everything_with_the_markers_last_and_deepest_first() {
    let entries = listing(&[
        ("old/a.jpg", 1),
        ("old/deep/b.jpg", 2),
        (&marker("old"), 0),
        (&marker("old/deep"), 0),
    ]);
    let structure = structure(&entries);
    let items = purge(&target("vault:old"), &entries, &structure).unwrap();
    assert_eq!(
        paths(&items),
        [
            "old/a.jpg",
            "old/deep/b.jpg",
            &marker("old/deep"),
            &marker("old"),
        ]
    );
}

#[test]
fn purge_ignores_the_filters_entirely() {
    let entries = listing(&[("old/a.jpg", 1), ("old/b.tmp", 1)]);
    let structure = structure(&entries);
    let items = purge(&target("vault:old"), &entries, &structure).unwrap();
    assert_eq!(items.len(), 2);
}

#[test]
fn purging_a_path_that_holds_nothing_is_reported_as_missing() {
    let error = purge(&target("vault:gone"), &Vec::new(), &Directories::default()).unwrap_err();
    assert_eq!(error.code(), ExitCode::DirNotFound);
}

#[test]
fn purging_an_empty_remote_is_not_an_error() {
    let items = purge(&target("vault:"), &Vec::new(), &Directories::default()).unwrap();
    assert!(items.is_empty());
}

#[test]
fn rmdir_removes_the_marker_of_an_empty_directory() {
    let entries = listing(&[(&marker("photos/2024"), 0)]);
    let items = rmdir(&target("vault:photos/2024"), &structure(&entries)).unwrap();
    assert_eq!(paths(&items), [marker("photos/2024")]);
    assert_eq!(items[0].kind, REMOVAL_KIND_DIRECTORY);
}

#[test]
fn rmdir_refuses_a_directory_that_holds_an_object_and_names_it() {
    let entries = listing(&[("photos/a.jpg", 1)]);
    let error = rmdir(&target("vault:photos"), &structure(&entries)).unwrap_err();
    assert_eq!(error.code(), ExitCode::Usage);
    assert!(
        error.message().contains("photos/a.jpg"),
        "{}",
        error.message()
    );
}

#[test]
fn rmdir_refuses_a_directory_that_holds_a_subdirectory() {
    let entries = listing(&[(&marker("a"), 0), (&marker("a/b"), 0)]);
    let error = rmdir(&target("vault:a"), &structure(&entries)).unwrap_err();
    assert_eq!(error.code(), ExitCode::Usage);
    assert!(error.message().contains("a/b"), "{}", error.message());
}

#[test]
fn rmdir_reports_a_directory_that_was_never_created_as_missing() {
    let error = rmdir(&target("vault:nowhere"), &Directories::default()).unwrap_err();
    assert_eq!(error.code(), ExitCode::DirNotFound);
    assert!(error.hint().unwrap_or_default().contains("mkdir"));
}

#[test]
fn rmdirs_sweeps_deepest_first_and_skips_what_is_occupied() {
    let entries = listing(&[
        (&marker("a"), 0),
        (&marker("a/b"), 0),
        (&marker("a/b/c"), 0),
        (&marker("kept"), 0),
        ("kept/file.txt", 4),
    ]);
    let items = rmdirs(&target("vault:"), &structure(&entries), false);
    assert_eq!(paths(&items), [marker("a/b/c"), marker("a/b"), marker("a")]);
}

#[test]
fn leave_root_keeps_the_directory_the_sweep_was_pointed_at() {
    let entries = listing(&[(&marker("a"), 0), (&marker("a/b"), 0)]);
    let structure = structure(&entries);
    assert_eq!(
        paths(&rmdirs(&target("vault:a"), &structure, true)),
        [marker("a/b")]
    );
    assert_eq!(
        paths(&rmdirs(&target("vault:a"), &structure, false)),
        [marker("a/b"), marker("a")]
    );
}

#[test]
fn each_operation_selects_by_its_own_rule() {
    let entries = listing(&[("a/b.txt", 4), (&marker("a"), 0)]);
    let all = everything();
    let count = |operation: Operation| {
        let selection = select(&entries, &target("vault:a"), &operation, &all).unwrap();
        (selection.items.len(), selection.considered)
    };
    assert_eq!(count(Operation::Delete { rmdirs: false }).0, 1);
    assert_eq!(count(Operation::Purge).0, 2);
    assert_eq!(count(Operation::Rmdirs { leave_root: false }).0, 0);
    let cleanup = Operation::Cleanup {
        classes: Vec::new(),
        min_age: Duration::from_secs(1),
        named: false,
    };
    assert_eq!(count(cleanup).0, 0);
}

#[test]
fn a_purge_takes_at_least_what_a_deletion_takes() {
    let entries = listing(&[("a/b.txt", 4), ("a/c/d.txt", 2), (&marker("a/c"), 0)]);
    let structure = structure(&entries);
    let deleted = delete(&everything(), &target("vault:a"), &entries, &structure, true);
    let purged = purge(&target("vault:a"), &entries, &structure).unwrap();
    let purged = paths(&purged);
    for path in paths(&deleted) {
        assert!(purged.contains(&path), "{path}");
    }
}
