//! Removing the selected items one by one, and what each outcome is recorded as.
//!
//! The caller asks the store and hands the answer back. One failure never stops the items
//! behind it, and a dry run never reaches the store at all.
use vstd::prelude::*;

use crate::audit::AuditEntry;
use crate::constants::{
    REMOVAL_STATUS_ABSENT, REMOVAL_STATUS_FAILED, REMOVAL_STATUS_REMOVED,
    REMOVAL_STATUS_WOULD_REMOVE,
};
use crate::error::{ExitCode, Result};
use crate::output::Level;
use crate::removal::report::{Report, Totals, Written};
use crate::removal::selection::Item;
use crate::stats::{bumped, Stats};

verus! {

/// What became of one object.
#[derive(Clone, Copy, Debug, PartialEq, Eq, Structural)]
pub enum Fate {
    /// This run removed it.
    Removed,
    /// It was already gone.
    Absent,
    /// It is still there.
    Failed,
}

/// What a store's answer means: whether the object was there, or why it is still there.
pub open spec fn fate_of(outcome: Result<bool>) -> Fate {
    match outcome {
        Ok(true) => Fate::Removed,
        Ok(false) => Fate::Absent,
        Err(_) => Fate::Failed,
    }
}

/// The exit code that an outcome is logged under. An object that somebody else removed is
/// not a success of this run.
pub open spec fn logged_code(outcome: Result<bool>) -> ExitCode {
    match outcome {
        Ok(true) => ExitCode::Success,
        Ok(false) => ExitCode::FileNotFound,
        Err(e) => e.code,
    }
}

/// The totals after one more object.
pub open spec fn totals_with(t: Totals, size: Option<u64>, fate: Fate) -> Totals {
    match fate {
        Fate::Removed => (Totals { removed: bumped(t.removed), ..t }).accounted(size),
        Fate::Absent => Totals { absent: bumped(t.absent), ..t },
        Fate::Failed => Totals { failed: bumped(t.failed), ..t },
    }
}

/// The counters after one more object.
pub open spec fn stats_with(s: Stats, fate: Fate) -> Stats {
    match fate {
        Fate::Removed => s.with_deleted(),
        Fate::Absent => s,
        Fate::Failed => s.with_error(),
    }
}

/// Starts a run over a selection: the number of items is known before the first removal.
pub fn begin(items: &Vec<Item>, report: &mut Report)
    ensures
        final(report).stats == old(report).stats.with_total_files(items@.len() as u64),
        final(report).totals == old(report).totals,
        final(report).same_sink(*old(report)),
{
    report.stats.add_total_files(items.len() as u64);
}

/// What to do about the next item: in a dry run it is only recorded, otherwise the store has
/// to be asked.
pub fn next(item: &Item, report: &mut Report) -> (r: Option<Written>)
    ensures
        match r {
            Some(w) => {
                &&& old(report).totals.dry_run
                &&& w.record.of_item(REMOVAL_STATUS_WOULD_REMOVE@, item@, None)
                &&& w.notice is None
                &&& final(report).totals == (Totals {
                    would_remove: bumped(old(report).totals.would_remove),
                    ..old(report).totals
                }).accounted(item.size)
                &&& final(report).stats == old(report).stats
                &&& final(report).same_sink(*old(report))
            },
            None => !old(report).totals.dry_run && *final(report) == *old(report),
        },
{
    if report.totals.dry_run {
        Some(report.would_remove(item))
    } else {
        None
    }
}

/// Records what the store answered about one item: in the report, and for the log.
pub fn settle(
    op: &'static str,
    remote: &str,
    item: &Item,
    outcome: &Result<bool>,
    report: &mut Report,
) -> (r: (Written, AuditEntry))
    ensures
        final(report).totals == totals_with(old(report).totals, item.size, fate_of(*outcome)),
        final(report).stats == stats_with(old(report).stats, fate_of(*outcome)),
        final(report).same_sink(*old(report)),
        r.1.of_removal(op@, logged_code(*outcome), item.path@, item.size, remote@),
        match outcome {
            Ok(true) => r.0.record.of_item(REMOVAL_STATUS_REMOVED@, item@, None) && r.0.notice
                is None,
            Ok(false) => r.0.record.of_item(REMOVAL_STATUS_ABSENT@, item@, None) && r.0.notice
                is None,
            Err(e) => {
                &&& r.0.record.of_item(REMOVAL_STATUS_FAILED@, item@, Some(e.message@))
                &&& r.0.notice is Some
                &&& r.0.notice->0.is(
                    Level::Error,
                    "could not remove '"@ + item.path@ + "': "@ + e.message@,
                )
            },
        },
{
    let path = item.path.as_str();
    match outcome {
        Ok(true) => {
            let w = report.removed(item);
            (w, AuditEntry::removal(op, ExitCode::Success, path, item.size, remote))
        },
        Ok(false) => {
            let w = report.absent(item);
            (w, AuditEntry::removal(op, ExitCode::FileNotFound, path, item.size, remote))
        },
        Err(e) => {
            let w = report.failed(item, e.message());
            (w, AuditEntry::removal(op, e.code(), path, item.size, remote))
        },
    }
}

/// The totals after a run over items with these sizes and fates.
pub open spec fn totals_after(t: Totals, sizes: Seq<Option<u64>>, fates: Seq<Fate>) -> Totals
    decreases fates.len(),
{
    if fates.len() == 0 || sizes.len() != fates.len() {
        t
    } else {
        totals_with(
            totals_after(t, sizes.drop_last(), fates.drop_last()),
            sizes.last(),
            fates.last(),
        )
    }
}

/// The counters after a run with these fates.
pub open spec fn stats_after(s: Stats, fates: Seq<Fate>) -> Stats
    decreases fates.len(),
{
    if fates.len() == 0 {
        s
    } else {
        stats_with(stats_after(s, fates.drop_last()), fates.last())
    }
}

/// Every item of a run is counted exactly once, as removed, absent or failed, and a run that
/// starts from nothing keeps its byte figures consistent.
pub proof fn every_item_is_counted_once(dry_run: bool, sizes: Seq<Option<u64>>, fates: Seq<Fate>)
    requires
        sizes.len() == fates.len(),
        fates.len() <= u64::MAX,
    ensures
        ({
            let t = totals_after(Totals::none(dry_run), sizes, fates);
            &&& t.removed + t.absent + t.failed == fates.len()
            &&& t.consistent()
            &&& t.would_remove == 0
        }),
    decreases fates.len(),
{
    if fates.len() > 0 {
        every_item_is_counted_once(dry_run, sizes.drop_last(), fates.drop_last());
    }
}

/// A run in which any object failed never ends in success, wherever in the run it failed.
pub proof fn a_partial_failure_is_never_a_success(s: Stats, fates: Seq<Fate>, i: int)
    requires
        0 <= i < fates.len(),
        fates[i] == Fate::Failed,
    ensures
        stats_after(s, fates).errors > 0,
        stats_after(s, fates).ending() != ExitCode::Success,
    decreases fates.len(),
{
    if i < fates.len() - 1 {
        assert(fates.drop_last()[i] == fates[i]);
        a_partial_failure_is_never_a_success(s, fates.drop_last(), i);
    }
}

/// A run in which nothing failed ends in success.
pub proof fn a_clean_run_is_a_success(fates: Seq<Fate>)
    requires
        forall|i: int| 0 <= i < fates.len() ==> #[trigger] fates[i] != Fate::Failed,
    ensures
        stats_after(Stats::zero(), fates).ending() == ExitCode::Success,
    decreases fates.len(),
{
    if fates.len() > 0 {
        assert forall|i: int| 0 <= i < fates.drop_last().len() implies #[trigger] fates.drop_last()[i]
            != Fate::Failed by {
            assert(fates.drop_last()[i] == fates[i]);
        }
        a_clean_run_is_a_success(fates.drop_last());
        assert(fates[fates.len() - 1] != Fate::Failed);
        lemma_no_mismatch(Stats::zero(), fates.drop_last());
    }
}

proof fn lemma_no_mismatch(s: Stats, fates: Seq<Fate>)
    ensures
        stats_after(s, fates).checksum_mismatches == s.checksum_mismatches,
    decreases fates.len(),
{
    if fates.len() > 0 {
        lemma_no_mismatch(s, fates.drop_last());
    }
}

/// What a store answers tells what became of the object: whether this run removed it, whether it
/// was gone already, or whether it is still there. Only a removal of this run is logged as a
/// success.
pub proof fn an_answer_tells_the_fate(outcome: Result<bool>)
    ensures
        fate_of(outcome) == Fate::Failed <==> outcome is Err,
        outcome matches Ok(was_there) ==> (fate_of(outcome) == Fate::Removed <==> was_there),
        outcome matches Ok(was_there) ==> (fate_of(outcome) == Fate::Absent <==> !was_there),
        outcome matches Ok(was_there) ==> logged_code(outcome) == (if was_there {
            ExitCode::Success
        } else {
            ExitCode::FileNotFound
        }),
        outcome matches Err(e) ==> logged_code(outcome) == e.code,
{
}

/// Each fate is counted under its own figure, and only a failure counts as an error: the objects
/// that were removed, that were gone already, and that are still there are told apart.
pub proof fn fates_are_counted_apart(
    dry_run: bool,
    sizes: Seq<Option<u64>>,
    fates: Seq<Fate>,
)
    requires
        sizes.len() == fates.len(),
        fates.len() <= u64::MAX,
    ensures
        ({
            let t = totals_after(Totals::none(dry_run), sizes, fates);
            let s = stats_after(Stats::zero(), fates);
            &&& t.removed == fates.filter(|f: Fate| f == Fate::Removed).len()
            &&& t.absent == fates.filter(|f: Fate| f == Fate::Absent).len()
            &&& t.failed == fates.filter(|f: Fate| f == Fate::Failed).len()
            &&& s.files_deleted == t.removed
            &&& s.errors == t.failed
            &&& t.held == 0
        }),
    decreases fates.len(),
{
    reveal(Seq::filter);
    every_item_is_counted_once(dry_run, sizes, fates);
    if fates.len() > 0 {
        fates_are_counted_apart(dry_run, sizes.drop_last(), fates.drop_last());
        every_item_is_counted_once(dry_run, sizes.drop_last(), fates.drop_last());
    }
}

/// Only what was removed frees bytes: the size of an object that was gone already, or that is
/// still there, adds nothing.
pub proof fn only_a_removal_frees_bytes(t: Totals, size: Option<u64>, fate: Fate)
    ensures
        fate != Fate::Removed ==> totals_with(t, size, fate).bytes == t.bytes && totals_with(
            t,
            size,
            fate,
        ).measured_bytes == t.measured_bytes && totals_with(t, size, fate).unmeasured
            == t.unmeasured,
        fate == Fate::Removed && size is Some && t.measured_bytes + size->0 <= u64::MAX
            ==> totals_with(t, size, fate).measured_bytes == t.measured_bytes + size->0,
        fate == Fate::Removed && size is None ==> totals_with(t, size, fate).bytes is None,
        totals_with(t, size, fate).dry_run == t.dry_run,
{
}

} // verus!
