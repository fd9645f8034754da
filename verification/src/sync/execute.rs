//! When the entries of a sync are carried out, and what each outcome is recorded as.
//!
//! The plan is fixed before any of this: a mode orders its entries and never changes them.
use vstd::prelude::*;

use crate::audit::AuditEntry;
use crate::error::{CliError, ExitCode, Result};
use crate::output::{Level, Notice};
use crate::stats::Stats;
use crate::text;
use crate::transfer;
use crate::transfer::{ends_the_run, ops, DeleteMode, Op, Plan, PlanEntry};

verus! {

pub const COMMAND: &'static str = "sync";

/// Which entries a pass over the plan takes.
#[derive(Clone, Copy, Debug, PartialEq, Eq, Structural)]
pub enum Pass {
    Transfers,
    Deletions,
    Everything,
}

impl Pass {
    pub open spec fn picks(self, op: Op) -> bool {
        match self {
            Pass::Transfers => op.adds(),
            Pass::Deletions => op == Op::Delete,
            Pass::Everything => op.acts(),
        }
    }

    fn takes(self, op: Op) -> (r: bool)
        ensures
            r == self.picks(op),
    {
        match self {
            Pass::Transfers => op.is_transfer(),
            Pass::Deletions => op == Op::Delete,
            Pass::Everything => op.is_action(),
        }
    }
}

/// The places of the entries that a pass takes, in plan order.
pub open spec fn places(s: Seq<Op>, pass: Pass) -> Seq<int>
    decreases s.len(),
{
    if s.len() == 0 {
        Seq::empty()
    } else if pass.picks(s.last()) {
        places(s.drop_last(), pass).push(s.len() - 1)
    } else {
        places(s.drop_last(), pass)
    }
}

/// The order in which a mode carries the entries out.
pub open spec fn schedule(s: Seq<Op>, mode: DeleteMode) -> Seq<int> {
    match mode {
        DeleteMode::Before => places(s, Pass::Deletions) + places(s, Pass::Transfers),
        DeleteMode::During => places(s, Pass::Everything),
        DeleteMode::After => places(s, Pass::Transfers) + places(s, Pass::Deletions),
    }
}

/// The places, as numbers that a run can count with.
pub open spec fn numbers(v: Seq<usize>) -> Seq<int> {
    v.map_values(|n: usize| n as int)
}

fn collect(plan: &Plan, pass: Pass, order: &mut Vec<usize>)
    ensures
        numbers(final(order)@) == numbers(old(order)@) + places(plan.actions(), pass),
{
    let ghost all = plan.actions();
    let ghost first = numbers(order@);
    let mut i: usize = 0;
    proof {
        assert(first =~= first + places(all.take(0), pass));
    }
    while i < plan.entries.len()
        invariant
            i <= plan.entries@.len(),
            all == ops(plan.entries@),
            numbers(order@) == first + places(all.take(i as int), pass),
        decreases plan.entries@.len() - i,
    {
        proof {
            assert(all.take(i + 1).drop_last() =~= all.take(i as int));
            assert(all.take(i + 1).last() == plan.entries@[i as int].action);
        }
        if pass.takes(plan.entries[i].action) {
            let ghost before = numbers(order@);
            order.push(i);
            proof {
                assert(numbers(order@) =~= before.push(i as int));
                assert(numbers(order@) =~= first + places(all.take(i + 1), pass));
            }
        }
        i = i + 1;
    }
    proof {
        assert(all.take(i as int) =~= all);
    }
}

/// The order in which a mode carries the entries of a plan out.
pub fn order(plan: &Plan, mode: DeleteMode) -> (r: Vec<usize>)
    ensures
        numbers(r@) == schedule(plan.actions(), mode),
{
    let mut r: Vec<usize> = Vec::new();
    proof {
        assert(numbers(r@) =~= Seq::empty());
        assert forall|s: Seq<int>| #[trigger] (Seq::<int>::empty() + s) == s by {
            assert(Seq::<int>::empty() + s =~= s);
        }
    }
    match mode {
        DeleteMode::Before => {
            collect(plan, Pass::Deletions, &mut r);
            collect(plan, Pass::Transfers, &mut r);
        },
        DeleteMode::During => {
            collect(plan, Pass::Everything, &mut r);
        },
        DeleteMode::After => {
            collect(plan, Pass::Transfers, &mut r);
            collect(plan, Pass::Deletions, &mut r);
        },
    }
    r
}

proof fn lemma_places(s: Seq<Op>, pass: Pass)
    ensures
        forall|k: int| 0 <= k < places(s, pass).len() ==> {
            &&& 0 <= #[trigger] places(s, pass)[k] < s.len()
            &&& pass.picks(s[places(s, pass)[k]])
        },
        forall|a: int, b: int|
            0 <= a < b < places(s, pass).len() ==> #[trigger] places(s, pass)[a]
                < #[trigger] places(s, pass)[b],
        forall|i: int|
            0 <= i < s.len() && pass.picks(#[trigger] s[i]) ==> places(s, pass).contains(i),
    decreases s.len(),
{
    if s.len() > 0 {
        let before = s.drop_last();
        lemma_places(before, pass);
        let p = places(before, pass);
        let q = places(s, pass);
        assert forall|k: int| 0 <= k < q.len() implies 0 <= #[trigger] q[k] < s.len()
            && pass.picks(s[q[k]]) by {
            if k < p.len() {
                assert(q[k] == p[k]);
                assert(before[p[k]] == s[p[k]]);
            }
        }
        assert forall|a: int, b: int| 0 <= a < b < q.len() implies #[trigger] q[a]
            < #[trigger] q[b] by {
            assert(q[a] == p[a]);
            if b < p.len() {
                assert(q[b] == p[b]);
            }
        }
        assert forall|i: int| 0 <= i < s.len() && pass.picks(#[trigger] s[i]) implies q.contains(
            i,
        ) by {
            if i < before.len() {
                assert(before[i] == s[i]);
                let k = choose|k: int| 0 <= k < p.len() && p[k] == i;
                assert(q[k] == i);
            } else {
                assert(q[p.len() as int] == i);
            }
        }
    }
}

/// Every mode carries out exactly the entries that act, and each of them once.
pub proof fn every_mode_performs_the_same_actions(s: Seq<Op>, mode: DeleteMode)
    ensures
        schedule(s, mode).no_duplicates(),
        forall|i: int|
            #![trigger schedule(s, mode).contains(i)]
            schedule(s, mode).contains(i) <==> 0 <= i < s.len() && s[i].acts(),
{
    lemma_places(s, Pass::Transfers);
    lemma_places(s, Pass::Deletions);
    lemma_places(s, Pass::Everything);
    let t = places(s, Pass::Transfers);
    let d = places(s, Pass::Deletions);
    let r = schedule(s, mode);
    let (x, y) = match mode {
        DeleteMode::Before => (d, t),
        DeleteMode::During => (places(s, Pass::Everything), Seq::empty()),
        DeleteMode::After => (t, d),
    };
    assert(r =~= x + y);
    assert forall|a: int, b: int| 0 <= a < r.len() && 0 <= b < r.len() && a != b implies r[a]
        != r[b] by {
        let (low, high) = if a < b {
            (a, b)
        } else {
            (b, a)
        };
        if high < x.len() {
            assert(x[low] < x[high]);
        } else if low >= x.len() {
            assert(y[low - x.len()] < y[high - x.len()]);
        } else {
            assert(r[low] == x[low] && r[high] == y[high - x.len()]);
            assert(s[x[low]] != s[y[high - x.len()]]);
        }
    }
    assert forall|i: int|
        #![trigger r.contains(i)]
        r.contains(i) <==> 0 <= i < s.len() && s[i].acts() by {
        if r.contains(i) {
            let k = choose|k: int| 0 <= k < r.len() && r[k] == i;
            if k < x.len() {
                assert(x[k] == i);
            } else {
                assert(y[k - x.len()] == i);
            }
        }
        if 0 <= i < s.len() && s[i].acts() {
            if x.contains(i) {
                let k = choose|k: int| 0 <= k < x.len() && x[k] == i;
                assert(r[k] == i);
            } else {
                assert(y.contains(i));
                let k = choose|k: int| 0 <= k < y.len() && y[k] == i;
                assert(r[x.len() + k] == i);
            }
        }
    }
}

/// What a mode promises of the order: with removals first, none comes after a transfer; with
/// removals last, none comes before one; and along the way, everything is in plan order.
pub proof fn modes_keep_their_order(s: Seq<Op>, a: int, b: int)
    ensures
        0 <= a < b < schedule(s, DeleteMode::Before).len() ==> !({
            let r = schedule(s, DeleteMode::Before);
            s[r[a]].adds() && s[r[b]] == Op::Delete
        }),
        0 <= a < b < schedule(s, DeleteMode::After).len() ==> !({
            let r = schedule(s, DeleteMode::After);
            s[r[a]] == Op::Delete && s[r[b]].adds()
        }),
        0 <= a < b < schedule(s, DeleteMode::During).len() ==> schedule(s, DeleteMode::During)[a]
            < schedule(s, DeleteMode::During)[b],
{
    lemma_places(s, Pass::Transfers);
    lemma_places(s, Pass::Deletions);
    lemma_places(s, Pass::Everything);
    let t = places(s, Pass::Transfers);
    let d = places(s, Pass::Deletions);
    if 0 <= a < b < schedule(s, DeleteMode::Before).len() {
        let r = schedule(s, DeleteMode::Before);
        if a < d.len() {
            assert(r[a] == d[a]);
        } else {
            assert(r[b] == t[b - d.len()]);
        }
    }
    if 0 <= a < b < schedule(s, DeleteMode::After).len() {
        let r = schedule(s, DeleteMode::After);
        if a < t.len() {
            assert(r[a] == t[a]);
        } else {
            assert(r[b] == d[b - t.len()]);
        }
    }
}

/// What one entry came to.
#[derive(Debug)]
pub struct Settled {
    /// The log's entry. A removal has one whatever came of it.
    pub audit: Option<AuditEntry>,
    /// What to say of a failure, or the failure that ends the run.
    pub end: Result<Option<Notice>>,
}

/// The counters after an entry that succeeded with `moved` bytes.
pub open spec fn stats_done(stats: Stats, op: Op, moved: u64) -> Stats {
    match op {
        Op::Copy | Op::Update => stats.with_bytes(moved).with_done(),
        Op::Delete => stats.with_deleted(),
        _ => stats,
    }
}

/// Whether a failure of one entry was taken as it should be: a failure that would come back
/// for every entry ends the run, and any other is counted and said.
pub open spec fn failure_taken(
    dest: Seq<char>,
    e: CliError,
    end: Result<Option<Notice>>,
    before: Stats,
    after: Stats,
) -> bool {
    if ends_the_run(e.code) {
        end matches Err(out) && out == e && after == before
    } else {
        (end matches Ok(Some(n)) && n.is(Level::Error, "'"@ + dest + "': "@ + e.message@)) && after
            == before.with_error()
    }
}

/// Records what came of one entry. `outcome` is the number of bytes that were moved.
pub fn settle(entry: &PlanEntry, outcome: Result<u64>, remote: &str, stats: &mut Stats) -> (r:
    Settled)
    ensures
        r.audit is Some <==> entry.action == Op::Delete,
        r.audit matches Some(a) ==> a.of_removal(
            COMMAND@,
            match outcome {
                Ok(_) => ExitCode::Success,
                Err(e) => e.code,
            },
            entry.dest@,
            None,
            remote@,
        ),
        match outcome {
            Ok(moved) => (r.end matches Ok(n) && n is None) && *final(stats) == stats_done(
                *old(stats),
                entry.action,
                moved,
            ),
            Err(e) => failure_taken(entry.dest@, e, r.end, *old(stats), *final(stats)),
        },
{
    let audit = match entry.action {
        Op::Delete => {
            let code = match &outcome {
                Ok(_) => ExitCode::Success,
                Err(e) => e.code(),
            };
            Some(AuditEntry::removal(COMMAND, code, entry.dest.as_str(), None, remote))
        },
        _ => None,
    };
    let end = match outcome {
        Ok(moved) => {
            match entry.action {
                Op::Copy | Op::Update => {
                    stats.add_bytes(moved);
                    stats.file_done();
                },
                Op::Delete => {
                    stats.file_deleted();
                },
                _ => {},
            }
            Ok(None)
        },
        Err(e) => {
            if transfer::is_fatal(&e) {
                Err(e)
            } else {
                stats.error();
                let message = text::cat4("'", entry.dest.as_str(), "': ", e.message());
                Ok(Some(Notice::new(Level::Error, message)))
            }
        },
    };
    Settled { audit, end }
}

/// A removal that failed is never counted as done, and the run does not end in success.
pub proof fn a_failed_removal_is_never_counted_as_done(
    dest: Seq<char>,
    e: CliError,
    end: Result<Option<Notice>>,
    before: Stats,
    after: Stats,
)
    requires
        failure_taken(dest, e, end, before, after),
    ensures
        after.files_deleted == before.files_deleted,
        after.files_done == before.files_done,
        end is Ok ==> after.ending() != ExitCode::Success,
{
}

/// Whatever the mode, an entry is carried out, once, exactly where it is not a skip.
pub proof fn only_skips_are_passed_over(s: Seq<Op>, mode: DeleteMode, i: int)
    ensures
        schedule(s, mode).contains(i) <==> 0 <= i < s.len() && (s[i] == Op::Copy || s[i]
            == Op::Update || s[i] == Op::CreateDir || s[i] == Op::Delete),
        schedule(s, mode).no_duplicates(),
{
    every_mode_performs_the_same_actions(s, mode);
    if 0 <= i < s.len() {
        assert(s[i].acts() <==> s[i] != Op::Skip);
    }
}

/// With removals first, everything behind a transfer is a transfer; with removals last,
/// everything behind a removal is a removal. Two removals, and two transfers, keep the order of
/// the plan in every mode.
pub proof fn a_mode_only_moves_removals(s: Seq<Op>, mode: DeleteMode, a: int, b: int)
    requires
        0 <= a < b < schedule(s, mode).len(),
    ensures
        ({
            let r = schedule(s, mode);
            &&& 0 <= r[a] < s.len()
            &&& 0 <= r[b] < s.len()
            &&& mode == DeleteMode::Before && s[r[a]] != Op::Delete ==> s[r[b]] != Op::Delete
            &&& mode == DeleteMode::After && s[r[a]] == Op::Delete ==> s[r[b]] == Op::Delete
            &&& mode == DeleteMode::During ==> r[a] < r[b]
            &&& (s[r[a]] == Op::Delete) == (s[r[b]] == Op::Delete) ==> r[a] < r[b]
        }),
{
    lemma_places(s, Pass::Transfers);
    lemma_places(s, Pass::Deletions);
    lemma_places(s, Pass::Everything);
    let t = places(s, Pass::Transfers);
    let d = places(s, Pass::Deletions);
    let r = schedule(s, mode);
    let (x, y) = match mode {
        DeleteMode::Before => (d, t),
        DeleteMode::During => (places(s, Pass::Everything), Seq::empty()),
        DeleteMode::After => (t, d),
    };
    assert(r =~= x + y);
    if b < x.len() {
        assert(r[a] == x[a] && r[b] == x[b]);
    } else if a >= x.len() {
        assert(r[a] == y[a - x.len()] && r[b] == y[b - x.len()]);
    } else {
        assert(r[a] == x[a] && r[b] == y[b - x.len()]);
    }
}

/// A transfer that succeeded counts one file and the bytes that it moved, a removal counts one
/// removal and no bytes, and making a directory counts nothing. Nothing that succeeded counts as
/// an error.
pub proof fn a_success_counts_what_it_did(stats: Stats, op: Op, moved: u64)
    ensures
        ({
            let after = stats_done(stats, op, moved);
            let file = op == Op::Copy || op == Op::Update;
            &&& file && stats.files_done < u64::MAX ==> after.files_done == stats.files_done + 1
            &&& file && stats.bytes_done + moved <= u64::MAX ==> after.bytes_done
                == stats.bytes_done + moved
            &&& !file ==> after.files_done == stats.files_done && after.bytes_done
                == stats.bytes_done
            &&& op == Op::Delete && stats.files_deleted < u64::MAX ==> after.files_deleted
                == stats.files_deleted + 1
            &&& op != Op::Delete ==> after.files_deleted == stats.files_deleted
            &&& after.errors == stats.errors
            &&& after.checksum_mismatches == stats.checksum_mismatches
            &&& after.files_skipped == stats.files_skipped
        }),
{
}

/// A failure that would come back for every entry ends the run with itself and counts nothing;
/// any other is counted as one error, said with the entry's path, and lets the run go on.
pub proof fn one_failure_stops_nothing_else(
    dest: Seq<char>,
    e: CliError,
    end: Result<Option<Notice>>,
    before: Stats,
    after: Stats,
)
    requires
        failure_taken(dest, e, end, before, after),
    ensures
        end is Err <==> e.code == ExitCode::FatalError || e.code == ExitCode::VaultLocked,
        end matches Err(out) ==> out == e && after == before,
        end is Ok && before.errors < u64::MAX ==> after.errors == before.errors + 1,
        end is Ok ==> (end matches Ok(Some(n)) && n.level == Level::Error && n.message@ == "'"@
            + dest + "': "@ + e.message@),
{
}

/// The positions that are picked are numbers, one for one and in order.
pub proof fn positions_are_numbers(v: Seq<usize>, i: int)
    ensures
        numbers(v).len() == v.len(),
        0 <= i < v.len() ==> numbers(v)[i] == v[i],
{
}

} // verus!
