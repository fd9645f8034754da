use dctl::constants::REMOVAL_KIND_OBJECT;
use dctl::error::{CliError, ExitCode, Result};
use dctl::output::{Format, Units};
use dctl::removal::remove::{begin, next, settle};
use dctl::removal::report::Report;
use dctl::removal::selection::Item;

const TEST_OP: &str = "delete";
const TEST_REMOTE: &str = "archive";

fn item(path: &str, size: u64) -> Item {
    Item {
        path: path.to_string(),
        size: Some(size),
        kind: REMOVAL_KIND_OBJECT,
    }
}

/// A store in memory: what it holds, and whether it takes a removal.
struct Store {
    held: Vec<String>,
    locked: bool,
    asked: usize,
}

impl Store {
    fn with(paths: &[&str]) -> Store {
        Store {
            held: paths.iter().map(|path| path.to_string()).collect(),
            locked: false,
            asked: 0,
        }
    }

    fn remove(&mut self, path: &str) -> Result<bool> {
        self.asked += 1;
        if self.locked {
            return Err(CliError::new(
                ExitCode::TemporaryError,
                "permission denied".to_string(),
            ));
        }
        let before = self.held.len();
        self.held.retain(|held| held != path);
        Ok(self.held.len() < before)
    }
}

fn run(store: &mut Store, items: Vec<Item>, report: &mut Report) {
    begin(&items, report);
    for item in &items {
        if next(item, report).is_some() {
            continue;
        }
        let outcome = store.remove(&item.path);
        let (_, audit) = settle(TEST_OP, TEST_REMOTE, item, &outcome, report);
        assert_eq!(audit.op, TEST_OP);
        assert_eq!(audit.remote, TEST_REMOTE);
        assert_eq!(audit.path, item.path);
    }
}

fn report(dry_run: bool) -> Report {
    Report::new(Format::Text, Units::Binary, dry_run)
}

#[test]
fn a_removal_takes_the_object_and_the_index_row_together() {
    let mut store = Store::with(&["a.txt"]);
    let mut report = report(false);
    run(&mut store, vec![item("a.txt", 5)], &mut report);
    assert_eq!(report.totals().removed, 1);
    assert!(store.held.is_empty(), "the object must be gone");
    assert_eq!(report.stats.outcome(), ExitCode::Success);
}

#[test]
fn a_dry_run_touches_neither_the_backend_nor_the_index() {
    let mut store = Store::with(&["a.txt", "b.txt"]);
    let mut report = report(true);
    run(&mut store, vec![item("a.txt", 5), item("b.txt", 5)], &mut report);
    assert_eq!(report.totals().would_remove, 2);
    assert_eq!(report.totals().removed, 0);
    assert_eq!(store.held, ["a.txt", "b.txt"]);
    assert_eq!(store.asked, 0);
    assert_eq!(report.stats.files_deleted, 0);
}

#[test]
fn re_running_a_removal_converges_rather_than_failing() {
    let mut store = Store::with(&["a.txt"]);
    let mut first = report(false);
    run(&mut store, vec![item("a.txt", 5)], &mut first);
    assert_eq!(first.totals().removed, 1);

    let mut second = report(false);
    run(&mut store, vec![item("a.txt", 5)], &mut second);
    assert_eq!(second.totals().absent, 1);
    assert_eq!(second.totals().removed, 0);
    assert_eq!(second.totals().failed, 0);
    assert_eq!(second.stats.outcome(), ExitCode::Success);
}

#[test]
fn a_partial_failure_is_never_reported_as_success() {
    let paths = ["a.txt", "b.txt", "c.txt", "d.txt", "e.txt"];
    let mut store = Store::with(&paths);
    store.locked = true;
    let mut report = report(false);
    run(
        &mut store,
        paths.iter().map(|path| item(path, 1)).collect(),
        &mut report,
    );
    let totals = report.totals();
    assert_eq!(totals.failed, 5, "every removal must be reported failed");
    assert_eq!(totals.removed, 0);
    assert_eq!(report.stats.errors, 5);
    assert_eq!(report.stats.outcome(), ExitCode::PartialFailure);
    assert_eq!(store.held.len(), 5);
}

#[test]
fn the_loop_finishes_the_objects_behind_a_failure() {
    let mut store = Store::with(&["a.txt"]);
    let mut report = report(false);
    run(&mut store, vec![item("missing.txt", 0), item("a.txt", 1)], &mut report);
    assert_eq!(report.totals().absent, 1);
    assert_eq!(report.totals().removed, 1);
    assert!(store.held.is_empty());
}

#[test]
fn the_total_the_progress_display_reads_is_the_real_selection_size() {
    let mut store = Store::with(&["a.txt"]);
    let mut report = report(true);
    run(&mut store, vec![item("a.txt", 1)], &mut report);
    assert_eq!(report.stats.files_total, 1);
}
