use dctl::constants::DIRECTORY_MARKER_NAME;
use dctl::removal::dirs::{directory_of_marker, is_marker, marker_path, Directories};

fn structure(paths: &[&str]) -> Directories {
    let paths: Vec<String> = paths.iter().map(|p| p.to_string()).collect();
    Directories::from_paths(&paths)
}

#[test]
fn a_marker_declares_its_directory_and_is_not_an_object_in_it() {
    let dirs = structure(&[&marker_path("photos/2024")]);
    assert!(dirs.is_declared("photos/2024"));
    assert!(dirs.is_empty("photos/2024"));
    assert!(dirs.is_present("photos/2024"));
}

#[test]
fn a_directory_holding_a_file_is_not_empty_at_any_depth() {
    let dirs = structure(&["photos/2024/raw/a.dng"]);
    assert!(!dirs.is_empty("photos"));
    assert!(!dirs.is_empty("photos/2024"));
    assert!(!dirs.is_empty("photos/2024/raw"));
    assert_eq!(
        dirs.first_object_under("photos"),
        Some("photos/2024/raw/a.dng")
    );
}

#[test]
fn emptiness_compares_whole_components() {
    let dirs = structure(&[&marker_path("photos"), "photos-backup/a.jpg"]);
    assert!(dirs.is_empty("photos"));
    assert!(!dirs.is_empty("photos-backup"));
}

#[test]
fn a_path_nothing_is_stored_under_does_not_exist() {
    let dirs = structure(&["photos/a.jpg"]);
    assert!(!dirs.is_present("holidays"));
    assert!(dirs.is_present("photos"));
    assert!(dirs.is_empty("holidays"));
}

#[test]
fn a_declared_directory_exists_even_with_nothing_but_the_marker() {
    let dirs = structure(&[&marker_path("empty")]);
    assert!(dirs.is_present("empty"));
    assert!(!dirs.is_present("never-made"));
}

#[test]
fn a_parent_exists_because_of_a_declared_child() {
    let dirs = structure(&[&marker_path("a/b")]);
    assert!(dirs.is_present("a"));
    assert_eq!(dirs.subdirectories("a"), vec!["a/b"]);
}

#[test]
fn subdirectories_exclude_the_directory_itself() {
    let dirs = structure(&[&marker_path("a"), &marker_path("a/b")]);
    assert_eq!(dirs.subdirectories("a"), vec!["a/b"]);
    assert!(dirs.subdirectories("a/b").is_empty());
}

#[test]
fn declared_directories_come_back_deepest_first() {
    let dirs = structure(&[
        &marker_path("a"),
        &marker_path("a/b"),
        &marker_path("a/b/c"),
    ]);
    assert_eq!(dirs.declared_at_or_below("a"), vec!["a/b/c", "a/b", "a"]);
}

#[test]
fn ordering_within_a_depth_is_deterministic() {
    let dirs = structure(&[&marker_path("z/b"), &marker_path("a/b")]);
    assert_eq!(dirs.declared_at_or_below(""), vec!["a/b", "z/b"]);
}

#[test]
fn the_root_is_addressable_as_a_directory() {
    let dirs = structure(&["a.txt", &marker_path("d")]);
    assert!(dirs.is_present(""));
    assert!(!dirs.is_empty(""));
    assert_eq!(dirs.first_object_under(""), Some("a.txt"));
    assert_eq!(dirs.declared_at_or_below(""), vec!["d"]);
}

#[test]
fn a_marker_path_round_trips_through_its_directory() {
    assert_eq!(marker_path("a/b"), format!("a/b/{DIRECTORY_MARKER_NAME}"));
    assert_eq!(marker_path(""), DIRECTORY_MARKER_NAME);
    assert_eq!(directory_of_marker(&marker_path("a/b")).as_deref(), Some("a/b"));
    assert_eq!(directory_of_marker(&marker_path("")).as_deref(), Some(""));
    assert_eq!(directory_of_marker("a/b/photo.jpg"), None);
}

#[test]
fn a_file_merely_named_like_a_marker_is_still_a_marker() {
    assert!(is_marker(&format!("a/{DIRECTORY_MARKER_NAME}")));
    assert!(!is_marker("a/.dctl-dir.bak"));
}

#[test]
fn an_empty_structure_answers_everything_without_failing() {
    let dirs = Directories::default();
    assert!(!dirs.is_present("anything"));
    assert!(dirs.is_empty("anything"));
    assert!(dirs.subdirectories("").is_empty());
    assert_eq!(dirs.first_object_under(""), None);
}
