//! The walk of a scrub, object by object.
//!
//! The caller lists the objects, reads the ones that are asked for, and hands the outcome
//! back. Every object that the filter admits is either read or counted as skipped.
use vstd::prelude::*;

use crate::error::{ExitCode, Result};
use crate::integrity;
use crate::integrity::{verdict_of, Verdict};
use crate::listing::{relative, Entry, Filter};
use crate::output::{Level, Notice};
use crate::path;
use crate::path::under;
use crate::scrub::plan::Plan;
use crate::scrub::report::{grade_text, passed_over, Record, Report};
use crate::stats::{bump, bumped};
use crate::text;

verus! {

/// What to do with the next listed object.
#[derive(Clone, Copy, Debug, PartialEq, Eq, Structural)]
pub enum Step {
    /// It is no part of what was asked for.
    Outside,
    /// It has been counted as skipped.
    Skipped,
    /// Read it back, and hand the outcome to `settle`.
    Read,
}

/// What is to be done with an object. What was asked for is what lies under the prefix, by
/// whole components, and is admitted by the filter.
pub open spec fn step_for(filter: Filter, plan: Plan, prefix: Seq<char>, e: Entry) -> Step {
    step_if(
        under(prefix, e.path@) && filter.admits(relative(prefix, e.path@), e.size),
        plan.takes(e.path@),
    )
}

/// What is to be done with an object, by whether it was asked for and is in the sample.
pub open spec fn step_if(asked: bool, sampled: bool) -> Step {
    if !asked {
        Step::Outside
    } else if sampled {
        Step::Read
    } else {
        Step::Skipped
    }
}

/// Whether a step was counted: an object that is passed over is, and nothing else changes.
pub open spec fn counted(s: Step, before: Report, after: Report) -> bool {
    if s == Step::Skipped {
        passed_over(before, after)
    } else {
        after == before
    }
}

/// Decides by whether an object was asked for and is in the sample.
pub fn decide(asked: bool, sampled: bool, report: &mut Report) -> (s: Step)
    ensures
        s == step_if(asked, sampled),
        counted(s, *old(report), *final(report)),
{
    if !asked {
        return Step::Outside;
    }
    if !sampled {
        report.skip();
        return Step::Skipped;
    }
    Step::Read
}

/// Decides what to do with the next listed object, and counts it where it is passed over.
pub fn next(filter: &Filter, plan: &Plan, prefix: &str, entry: &Entry, report: &mut Report) -> (s:
    Step)
    ensures
        s == step_for(*filter, *plan, prefix@, *entry),
        counted(s, *old(report), *final(report)),
{
    let path = entry.path.as_str();
    let asked = path::is_under(prefix, path) && filter.matches(prefix, entry);
    decide(asked, asked && plan.selects(path), report)
}

/// A scrub sees every path from its prefix: the object at `p` below the prefix is part of what
/// was asked for exactly where the filter admits `p`. Of what was asked for, what the sample
/// takes is read, and the rest is skipped.
pub proof fn a_scrub_sees_paths_from_its_prefix(
    s: Step,
    filter: Filter,
    plan: Plan,
    prefix: Seq<char>,
    e: Entry,
    p: Seq<char>,
)
    requires
        s == step_for(filter, plan, prefix, e),
        p.len() > 0,
        e.path@ == (if prefix.len() == 0 {
            p
        } else {
            prefix.push('/') + p
        }),
    ensures
        s == Step::Outside <==> !filter.admits(p, e.size),
        s == Step::Read <==> filter.admits(p, e.size) && plan.takes(e.path@),
        s == Step::Skipped <==> filter.admits(p, e.size) && !plan.takes(e.path@),
        plan.percent() == 100 ==> s != Step::Skipped,
{
    if prefix.len() > 0 {
        let q = prefix.push('/');
        assert(q =~= e.path@.subrange(0, q.len() as int));
        assert(e.path@.skip(q.len() as int) =~= p);
    }
}

/// What a scrub of one tree asks for is, path for path, what a scrub of a remote that holds
/// that tree at its top asks for.
pub proof fn scrubbing_a_tree_is_scrubbing_it_as_a_remote(
    filter: Filter,
    plan: Plan,
    prefix: Seq<char>,
    below: Entry,
    top: Entry,
)
    requires
        prefix.len() > 0,
        top.path@.len() > 0,
        below.path@ == prefix.push('/') + top.path@,
        below.size == top.size,
    ensures
        step_for(filter, plan, prefix, below) == Step::Outside <==> step_for(
            filter,
            plan,
            Seq::empty(),
            top,
        ) == Step::Outside,
{
    let s = step_for(filter, plan, prefix, below);
    let t = step_for(filter, plan, Seq::empty(), top);
    a_scrub_sees_paths_from_its_prefix(s, filter, plan, prefix, below, top.path@);
    a_scrub_sees_paths_from_its_prefix(t, filter, plan, Seq::empty(), top, top.path@);
}

/// An object that neither is what the prefix names nor lies below it is no part of a scrub,
/// whatever the filter says: a name that only begins like the prefix is another name. The
/// object that the prefix names is seen by its own name.
pub proof fn a_scrub_keeps_to_its_prefix(
    s: Step,
    filter: Filter,
    plan: Plan,
    prefix: Seq<char>,
    e: Entry,
    above: Seq<char>,
    name: Seq<char>,
)
    requires
        s == step_for(filter, plan, prefix, e),
        prefix.len() > 0,
    ensures
        e.path@ != prefix && !prefix.push('/').is_prefix_of(e.path@) ==> s == Step::Outside,
        e.path@ == prefix && !name.contains('/') && (prefix == name || prefix == above.push('/')
            + name) ==> (s == Step::Outside <==> !filter.admits(name, e.size)),
{
    if e.path@ == prefix && !name.contains('/') && (prefix == name || prefix == above.push('/')
        + name) {
        assert(!prefix.push('/').is_prefix_of(prefix)) by {
            if prefix.push('/').is_prefix_of(prefix) {
                assert(prefix.push('/').len() <= prefix.len());
            }
        }
        if prefix == name {
            path::lemma_child_splits(Seq::empty(), name);
        } else if above.len() > 0 {
            path::lemma_child_splits(above, name);
        } else {
            text::lemma_last_of_concat(above, name, '/');
            text::lemma_one_piece(name, '/');
            assert(prefix.skip(1) =~= name);
        }
        assert(relative(prefix, e.path@) == name);
    }
}

/// The verdict on a reading.
pub open spec fn judged(outcome: Result<()>) -> Verdict {
    match outcome {
        Ok(_) => Verdict::Intact,
        Err(e) => verdict_of(e.code),
    }
}

/// The verdict on a reading, and what to say of it as it is found.
pub fn examine(outcome: &Result<()>) -> (r: (Verdict, Option<Notice>))
    ensures
        r.0 == judged(*outcome),
        match outcome {
            Ok(_) => r.1 is None,
            Err(e) => r.1 is Some && r.1->0.is(
                Level::Warn,
                verdict_of(e.code).word() + ": "@ + e.message@,
            ),
        },
{
    match outcome {
        Ok(_) => (Verdict::Intact, None),
        Err(e) => {
            let verdict = integrity::classify(e);
            let notice = Notice::new(Level::Warn, text::cat3(verdict.slug(), ": ", e.message()));
            (verdict, Some(notice))
        },
    }
}

/// The number of damaged objects after one more reading.
pub open spec fn errors_with(errors: u64, verdict: Verdict) -> u64 {
    if verdict != Verdict::Intact {
        bumped(errors)
    } else {
        errors
    }
}

/// What a reading comes to.
#[derive(Debug)]
pub struct Settled {
    /// How many damaged objects there have been.
    pub errors: u64,
    /// Whether the walk ends here.
    pub stop: bool,
    pub notice: Option<Notice>,
}

/// Whether `after` is the report with a reading of that object recorded in it.
pub open spec fn settled(
    entry: Entry,
    verdict: Verdict,
    stop: bool,
    before: Report,
    after: Report,
) -> bool {
    &&& after.coverage == before.coverage.with(verdict, entry.size, false)
    &&& after.health@ == grade_text(after.coverage)
    &&& after.same_run(before)
    &&& after.stopped_early == (before.stopped_early || stop)
    &&& after.worst == (if verdict.rank() > before.worst.rank() {
        verdict
    } else {
        before.worst
    })
    &&& verdict == Verdict::Intact ==> after.findings@ == before.findings@
    &&& verdict != Verdict::Intact ==> {
        let n = before.findings@.len() as int;
        &&& after.findings@.len() == n + 1
        &&& after.findings@.take(n) == before.findings@
        &&& after.findings@[n].path@ == entry.path@
        &&& after.findings@[n].status == verdict
        &&& after.findings@[n].size == entry.size
        &&& !after.findings@[n].repaired
    }
}

/// Records a reading. The budget is looked at afterwards, so the object that used it up is in
/// the report.
pub fn settle(entry: &Entry, outcome: &Result<()>, plan: &Plan, errors: u64, report: &mut Report) -> (r:
    Settled)
    ensures
        r.errors == errors_with(errors, judged(*outcome)),
        r.stop == plan.ends_at(r.errors),
        match outcome {
            Ok(_) => r.notice is None,
            Err(e) => r.notice is Some && r.notice->0.is(
                Level::Warn,
                verdict_of(e.code).word() + ": "@ + e.message@,
            ),
        },
        settled(*entry, judged(*outcome), r.stop, *old(report), *final(report)),
{
    let ghost before = report.findings@;
    let (verdict, notice) = examine(outcome);
    let mut count: u64 = errors;
    if verdict.is_failure() {
        count = bump(count);
    }
    report.push(Record::new(entry.path.as_str(), verdict, entry.size));
    proof {
        if verdict != Verdict::Intact {
            assert(report.findings@.take(before.len() as int) =~= before);
        }
    }
    let stop = plan.budget_exhausted(count);
    if stop {
        report.stopped_early();
    }
    Settled { errors: count, stop, notice }
}

/// What one object did to a run: it was outside, it was skipped, or it was read with a verdict.
pub enum Passed {
    Outside,
    Skipped,
    Read(Entry, Verdict),
}

/// Whether an object leads from one report to the next.
pub open spec fn passes(before: Report, passed: Passed, after: Report) -> bool {
    match passed {
        Passed::Outside => counted(Step::Outside, before, after),
        Passed::Skipped => counted(Step::Skipped, before, after),
        Passed::Read(entry, verdict) => exists|stop: bool| #[trigger]
            settled(entry, verdict, stop, before, after),
    }
}

/// Whether these are the reports of a walk that starts from nothing, between its objects.
pub open spec fn walked(reports: Seq<Report>, walk: Seq<Passed>) -> bool {
    &&& reports.len() == walk.len() + 1
    &&& reports[0].fresh()
    &&& forall|i: int|
        0 <= i < walk.len() ==> passes(#[trigger] reports[i], walk[i], reports[i + 1])
}

/// The number of objects of a walk that were asked for.
pub open spec fn asked_for(walk: Seq<Passed>) -> nat
    decreases walk.len(),
{
    if walk.len() == 0 {
        0
    } else {
        asked_for(walk.drop_last()) + (if walk.last() is Outside {
            0nat
        } else {
            1
        })
    }
}

/// The objects of a walk that were read and found damaged, each with its verdict.
pub open spec fn damaged_in(walk: Seq<Passed>) -> Seq<(Entry, Verdict)>
    decreases walk.len(),
{
    if walk.len() == 0 {
        Seq::empty()
    } else {
        let before = damaged_in(walk.drop_last());
        match walk.last() {
            Passed::Read(entry, verdict) => if verdict != Verdict::Intact {
                before.push((entry, verdict))
            } else {
                before
            },
            _ => before,
        }
    }
}

/// Whether a finding says what was found of an object.
pub open spec fn tells(finding: Record, damaged: (Entry, Verdict)) -> bool {
    &&& finding.path@ == damaged.0.path@
    &&& finding.status == damaged.1
    &&& finding.size == damaged.0.size
    &&& !finding.repaired
}

/// Nothing is quietly passed over: of the objects that were asked for, each is counted as
/// scanned or as skipped, and of those that were scanned, each is healthy or damaged. Every
/// damaged object is listed, in the order of the walk, and the walk ends in success exactly
/// where something was read and nothing was damaged.
pub proof fn every_object_is_scanned_or_skipped(reports: Seq<Report>, walk: Seq<Passed>)
    requires
        walked(reports, walk),
        walk.len() <= u64::MAX,
    ensures
        ({
            let r = reports.last();
            &&& r.coverage.scanned + r.coverage.skipped == asked_for(walk)
            &&& r.coverage.damaged == damaged_in(walk).len()
            &&& r.coverage.repaired == 0
            &&& r.sound()
            &&& r.findings@.len() == damaged_in(walk).len()
            &&& forall|i: int|
                0 <= i < r.findings@.len() ==> tells(#[trigger] r.findings@[i], damaged_in(walk)[i])
            &&& !r.fails() <==> r.coverage.scanned > 0 && damaged_in(walk).len() == 0
        }),
        asked_for(walk) <= walk.len(),
    decreases walk.len(),
{
    if walk.len() > 0 {
        let n = walk.len() - 1;
        let fewer = reports.drop_last();
        let part = walk.drop_last();
        assert forall|i: int| 0 <= i < part.len() implies passes(
            #[trigger] fewer[i],
            part[i],
            fewer[i + 1],
        ) by {
            assert(passes(reports[i], walk[i], reports[i + 1]));
        }
        every_object_is_scanned_or_skipped(fewer, part);
        assert(passes(reports[n], walk[n], reports[n + 1]));
        let before = reports[n].findings@;
        let after = reports[n + 1].findings@;
        assert forall|i: int| 0 <= i < after.len() implies tells(
            #[trigger] after[i],
            damaged_in(walk)[i],
        ) by {
            if i < before.len() {
                assert(tells(before[i], damaged_in(part)[i]));
                assert(after.take(before.len() as int)[i] == before[i] || after == before);
            }
        }
    }
}

/// A reading is intact exactly where it succeeded; bytes that fail their check are corrupt, an
/// object that is not there is missing, and any other error says that it could not be reached.
/// Only an object that is not intact counts against the limit.
pub proof fn a_reading_is_judged_by_its_error(outcome: Result<()>, errors: u64)
    ensures
        judged(outcome) == Verdict::Intact <==> outcome is Ok,
        outcome matches Err(e) ==> (judged(outcome) == Verdict::Corrupt <==> e.code
            == ExitCode::IntegrityFailure || e.code == ExitCode::ChecksumMismatch),
        outcome matches Err(e) ==> (judged(outcome) == Verdict::Missing <==> e.code
            == ExitCode::FileNotFound || e.code == ExitCode::DirNotFound),
        outcome is Ok ==> errors_with(errors, judged(outcome)) == errors,
        outcome is Err && errors < u64::MAX ==> errors_with(errors, judged(outcome)) == errors + 1,
{
}

/// A reading is recorded for one object and changes nothing else: the run stays what it was, a
/// mark that it stopped early stays and comes only where it stops, and an object that is intact
/// leaves the findings alone.
pub proof fn a_reading_is_recorded_once(
    entry: Entry,
    verdict: Verdict,
    stop: bool,
    before: Report,
    after: Report,
)
    requires
        settled(entry, verdict, stop, before, after),
    ensures
        after.target == before.target && after.verify_mode == before.verify_mode
            && after.assurance@ == before.assurance@ && after.sample_percent
            == before.sample_percent && after.seed == before.seed && after.repair_enabled
            == before.repair_enabled,
        after.stopped_early <==> before.stopped_early || stop,
        after.coverage.skipped == before.coverage.skipped,
        after.coverage.repaired == before.coverage.repaired,
        verdict == Verdict::Intact ==> after.findings@ == before.findings@,
        verdict != Verdict::Intact ==> after.findings@.len() == before.findings@.len() + 1
            && after.findings@.drop_last() == before.findings@ && after.findings@.last().path@
            == entry.path@ && after.findings@.last().status == verdict
            && after.findings@.last().size == entry.size && !after.findings@.last().repaired,
{
    if verdict != Verdict::Intact {
        let n = before.findings@.len() as int;
        assert(after.findings@.drop_last() =~= after.findings@.take(n));
    }
}

} // verus!
