//! `sync`: making a destination the same as its source.
//!
//! The plan is computed, shown and confirmed before anything is changed, and what is carried
//! out is the plan that was shown.
use vstd::prelude::*;

use crate::error::Result;
use crate::globals::Globals;
use crate::output::{Level, Notice};
use crate::stats::Stats;
use crate::text;
use crate::text::digits;
use crate::transfer::{
    is_mode_refusal, occurrences, CompareFlags, DeleteFlags, DeleteMode, Op, Plan,
};

pub mod execute;
pub mod plan;

use plan::{filtered, is_filter_refusal, Request};

verus! {

/// The arguments of `dctl sync`. There is no way to leave out the destination's listing: the
/// removals come from it.
#[derive(Debug)]
pub struct SyncArgs {
    /// A local path, or REMOTE:PATH.
    pub source: String,
    /// A local path, or REMOTE:PATH. What the source does not have is removed from it.
    pub dest: String,
    pub create_empty_src_dirs: bool,
    pub compare: CompareFlags,
    pub delete: DeleteFlags,
}

/// Checks the arguments before either side is listed: when removals happen has to be clear,
/// and no pattern may be given.
pub fn prepare(args: &SyncArgs, globals: &Globals) -> (r: Result<(DeleteMode, Request)>)
    ensures
        match r {
            Ok((mode, request)) => {
                &&& args.delete.chosen() == Some(mode)
                &&& !filtered(*globals)
                &&& request.of(*args)
            },
            Err(e) => if args.delete.chosen() is None {
                is_mode_refusal(e)
            } else {
                filtered(*globals) && is_filter_refusal(e)
            },
        },
{
    let mode = match args.delete.mode() {
        Ok(m) => m,
        Err(e) => {
            return Err(e);
        },
    };
    match plan::refuse_filters(globals) {
        Ok(_) => Ok((mode, plan::request(args))),
        Err(e) => Err(e),
    }
}

/// What to do with a plan.
#[derive(Debug)]
pub enum Step {
    /// Show it, and change nothing.
    Show,
    /// There is nothing to do.
    Finished(Notice),
    /// Ask for consent in these words, in front of the destination.
    Confirm(String),
    /// Carry it out.
    Go,
}

/// Whether nothing in a plan acts.
pub open spec fn nothing_to_do(actions: Seq<Op>) -> bool {
    forall|i: int| 0 <= i < actions.len() ==> (#[trigger] actions[i]) == Op::Skip
}

/// Whether `r` is what is to be done with a plan.
pub open spec fn is_next(r: Step, actions: Seq<Op>, dry_run: bool) -> bool {
    match r {
        Step::Show => dry_run,
        Step::Finished(n) => !dry_run && nothing_to_do(actions) && n.is(
            Level::Info,
            "nothing to do: the destination already matches the source"@,
        ),
        Step::Confirm(words) => {
            &&& !dry_run
            &&& actions.contains(Op::Delete)
            &&& words@ == "delete "@ + digits(occurrences(actions, Op::Delete)) + " file(s) from"@
        },
        Step::Go => !dry_run && !nothing_to_do(actions) && !actions.contains(Op::Delete),
    }
}

/// Decides what to do with a plan. Nothing is removed without consent.
pub fn next(plan: &Plan, dry_run: bool) -> (r: Step)
    ensures
        is_next(r, plan.actions(), dry_run),
{
    if dry_run {
        return Step::Show;
    }
    if plan.is_noop() {
        return Step::Finished(
            Notice::new(
                Level::Info,
                "nothing to do: the destination already matches the source".to_owned(),
            ),
        );
    }
    if plan.destroys_anything() {
        let n = text::decimal(plan.count(Op::Delete) as u64);
        return Step::Confirm(text::cat3("delete ", n.as_str(), " file(s) from"));
    }
    Step::Go
}

/// The counters with `n` more skips.
pub open spec fn with_skips(stats: Stats, n: nat) -> Stats
    decreases n,
{
    if n == 0 {
        stats
    } else {
        with_skips(stats, (n - 1) as nat).with_skipped()
    }
}

/// Counts the entries of a plan that are left alone.
pub fn account_for_skips(plan: &Plan, stats: &mut Stats)
    ensures
        *final(stats) == with_skips(*old(stats), occurrences(plan.actions(), Op::Skip)),
{
    let n = plan.count(Op::Skip);
    let mut i: usize = 0;
    while i < n
        invariant
            i <= n,
            *stats == with_skips(*old(stats), i as nat),
        decreases n - i,
    {
        stats.file_skipped();
        i = i + 1;
    }
}

/// A dry run only shows its plan. In a real run, consent is asked for exactly where an entry
/// removes something, nothing is left to do exactly where every entry is a skip, and the rest is
/// carried out without a question.
pub proof fn nothing_is_removed_without_consent(r: Step, plan: Plan, dry_run: bool)
    requires
        is_next(r, plan.actions(), dry_run),
    ensures
        r is Show <==> dry_run,
        !dry_run ==> (r is Confirm <==> exists|i: int|
            0 <= i < plan.entries@.len() && (#[trigger] plan.entries@[i]).action == Op::Delete),
        !dry_run ==> (r is Finished <==> forall|i: int|
            0 <= i < plan.entries@.len() ==> (#[trigger] plan.entries@[i]).action == Op::Skip),
        r is Go ==> !dry_run,
{
    let all = plan.actions();
    assert forall|i: int| 0 <= i < plan.entries@.len() implies (#[trigger] plan.entries@[i]).action
        == all[i] by {}
    if exists|i: int|
        0 <= i < plan.entries@.len() && (#[trigger] plan.entries@[i]).action == Op::Delete {
        let i = choose|i: int|
            0 <= i < plan.entries@.len() && (#[trigger] plan.entries@[i]).action == Op::Delete;
        assert(all[i] == Op::Delete);
        assert(all.contains(Op::Delete));
        assert(all[i] != Op::Skip);
    }
    if all.contains(Op::Delete) {
        let i = choose|i: int| 0 <= i < all.len() && all[i] == Op::Delete;
        assert(plan.entries@[i].action == Op::Delete);
    }
    if nothing_to_do(all) {
        assert forall|i: int| 0 <= i < plan.entries@.len() implies (
        #[trigger] plan.entries@[i]).action == Op::Skip by {
            assert(all[i] == Op::Skip);
        }
    }
    if forall|i: int|
        0 <= i < plan.entries@.len() ==> (#[trigger] plan.entries@[i]).action == Op::Skip {
        assert forall|i: int| 0 <= i < all.len() implies (#[trigger] all[i]) == Op::Skip by {
            assert(plan.entries@[i].action == all[i]);
        }
    }
}

/// Each skip of a plan is counted as one, and nothing else is counted.
pub proof fn skips_are_counted_one_by_one(stats: Stats, n: nat)
    requires
        stats.files_skipped + n <= u64::MAX,
    ensures
        with_skips(stats, n) == (Stats { files_skipped: (stats.files_skipped + n) as u64, ..stats }),
    decreases n,
{
    if n > 0 {
        skips_are_counted_one_by_one(stats, (n - 1) as nat);
    }
}

} // verus!
