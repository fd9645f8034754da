//! Plans that move files: what they hold, and which failure ends a run.
use vstd::prelude::*;

use crate::error::{CliError, ExitCode, Result};

verus! {

/// What a plan does with one path.
#[derive(Clone, Copy, Debug, PartialEq, Eq, Structural)]
pub enum Op {
    /// Write a file that the destination does not have.
    Copy,
    /// Write a file that the destination has in another version.
    Update,
    /// Make an empty directory.
    CreateDir,
    /// Remove a file that only the destination has.
    Delete,
    /// Leave a file alone.
    Skip,
}

impl Op {
    /// Whether it puts something at the destination.
    pub open spec fn adds(self) -> bool {
        self == Op::Copy || self == Op::Update || self == Op::CreateDir
    }

    /// Whether it does anything.
    pub open spec fn acts(self) -> bool {
        self != Op::Skip
    }

    pub fn is_transfer(self) -> (r: bool)
        ensures
            r == self.adds(),
    {
        match self {
            Op::Copy | Op::Update | Op::CreateDir => true,
            _ => false,
        }
    }

    pub fn is_action(self) -> (r: bool)
        ensures
            r == self.acts(),
    {
        match self {
            Op::Skip => false,
            _ => true,
        }
    }
}

/// One entry of a plan.
#[derive(Debug)]
pub struct PlanEntry {
    pub action: Op,
    /// The path at the destination.
    pub dest: String,
    pub size: Option<u64>,
}

/// A whole plan, in the order in which it was printed.
#[derive(Debug)]
pub struct Plan {
    pub entries: Vec<PlanEntry>,
}

/// What the entries do.
pub open spec fn ops(entries: Seq<PlanEntry>) -> Seq<Op> {
    entries.map_values(|e: PlanEntry| e.action)
}

/// How often `op` occurs.
pub open spec fn occurrences(s: Seq<Op>, op: Op) -> nat
    decreases s.len(),
{
    if s.len() == 0 {
        0
    } else {
        occurrences(s.drop_last(), op) + (if s.last() == op {
            1nat
        } else {
            0
        })
    }
}

/// Something that occurs is somewhere.
pub proof fn lemma_occurs(s: Seq<Op>, op: Op)
    ensures
        occurrences(s, op) <= s.len(),
        occurrences(s, op) > 0 <==> s.contains(op),
    decreases s.len(),
{
    if s.len() > 0 {
        lemma_occurs(s.drop_last(), op);
        if s.drop_last().contains(op) {
            let i = choose|i: int| 0 <= i < s.drop_last().len() && s.drop_last()[i] == op;
            assert(s[i] == op);
        }
        if s.contains(op) && s.last() != op {
            let i = choose|i: int| 0 <= i < s.len() && s[i] == op;
            assert(s.drop_last()[i] == op);
        }
        assert(s[s.len() - 1] == s.last());
    }
}

impl Plan {
    /// What the entries do, in order.
    pub open spec fn actions(self) -> Seq<Op> {
        ops(self.entries@)
    }

    /// How many entries do `op`.
    pub fn count(&self, op: Op) -> (n: usize)
        ensures
            n == occurrences(self.actions(), op),
    {
        let ghost all = self.actions();
        let mut n: usize = 0;
        let mut i: usize = 0;
        while i < self.entries.len()
            invariant
                i <= self.entries@.len(),
                all == ops(self.entries@),
                n == occurrences(all.take(i as int), op),
                n <= i,
            decreases self.entries@.len() - i,
        {
            proof {
                assert(all.take(i + 1).drop_last() =~= all.take(i as int));
                assert(all.take(i + 1).last() == self.entries@[i as int].action);
            }
            if self.entries[i].action == op {
                n = n + 1;
            }
            i = i + 1;
        }
        proof {
            assert(all.take(i as int) =~= all);
        }
        n
    }

    /// Whether anything is put at the destination.
    pub fn transfers_anything(&self) -> (r: bool)
        ensures
            r == (exists|i: int|
                0 <= i < self.actions().len() && (#[trigger] self.actions()[i]).adds()),
    {
        let ghost all = self.actions();
        let mut i: usize = 0;
        while i < self.entries.len()
            invariant
                i <= self.entries@.len(),
                all == ops(self.entries@),
                forall|j: int| 0 <= j < i ==> !(#[trigger] all[j]).adds(),
            decreases self.entries@.len() - i,
        {
            assert(all[i as int] == self.entries@[i as int].action);
            if self.entries[i].action.is_transfer() {
                assert(self.actions()[i as int].adds());
                return true;
            }
            i = i + 1;
        }
        false
    }

    /// Whether anything is removed.
    pub fn destroys_anything(&self) -> (r: bool)
        ensures
            r == self.actions().contains(Op::Delete),
    {
        proof {
            lemma_occurs(self.actions(), Op::Delete);
        }
        self.count(Op::Delete) > 0
    }

    /// Whether nothing is done at all.
    pub fn is_noop(&self) -> (r: bool)
        ensures
            r == (forall|i: int|
                0 <= i < self.actions().len() ==> (#[trigger] self.actions()[i]) == Op::Skip),
    {
        let ghost all = self.actions();
        let mut i: usize = 0;
        while i < self.entries.len()
            invariant
                i <= self.entries@.len(),
                all == ops(self.entries@),
                forall|j: int| 0 <= j < i ==> (#[trigger] all[j]) == Op::Skip,
            decreases self.entries@.len() - i,
        {
            assert(all[i as int] == self.entries@[i as int].action);
            if self.entries[i].action.is_action() {
                return false;
            }
            i = i + 1;
        }
        true
    }
}

/// The flags that choose how two versions of a file are compared.
#[derive(Clone, Copy, Debug, PartialEq, Eq, Structural)]
pub struct CompareFlags {
    /// Whether whatever is already there is left alone.
    pub ignore_existing: bool,
    /// Whether a newer file at the destination is left alone.
    pub update: bool,
}

impl Default for CompareFlags {
    fn default() -> (f: CompareFlags)
        ensures
            !f.ignore_existing && !f.update,
    {
        CompareFlags { ignore_existing: false, update: false }
    }
}

/// When the removals of a plan happen.
#[derive(Clone, Copy, Debug, PartialEq, Eq, Structural)]
pub enum DeleteMode {
    Before,
    During,
    After,
}

/// The flags that choose when removals happen.
#[derive(Clone, Copy, Debug, PartialEq, Eq, Structural)]
pub struct DeleteFlags {
    pub delete_before: bool,
    pub delete_during: bool,
    pub delete_after: bool,
}

impl Default for DeleteFlags {
    fn default() -> (f: DeleteFlags)
        ensures
            !f.delete_before && !f.delete_during && !f.delete_after,
    {
        DeleteFlags { delete_before: false, delete_during: false, delete_after: false }
    }
}

/// Whether `e` refuses flags that exclude each other.
pub open spec fn is_mode_refusal(e: CliError) -> bool {
    e.is(
        ExitCode::Usage,
        "--delete-before, --delete-during and --delete-after exclude each other"@,
        Some("Give one of them."@),
    )
}

impl DeleteFlags {
    /// Whether the flags contradict each other.
    pub open spec fn contradictory(self) -> bool {
        ||| self.delete_before && self.delete_during
        ||| self.delete_before && self.delete_after
        ||| self.delete_during && self.delete_after
    }

    /// The mode that was chosen; none where flags exclude each other. Without a flag, removals
    /// happen along the way.
    pub open spec fn chosen(self) -> Option<DeleteMode> {
        if self.contradictory() {
            None
        } else if self.delete_before {
            Some(DeleteMode::Before)
        } else if self.delete_after {
            Some(DeleteMode::After)
        } else {
            Some(DeleteMode::During)
        }
    }

    /// The mode that was chosen.
    pub fn mode(&self) -> (r: Result<DeleteMode>)
        ensures
            match r {
                Ok(m) => self.chosen() == Some(m),
                Err(e) => self.chosen() is None && is_mode_refusal(e),
            },
    {
        let several = (self.delete_before && self.delete_during) || (self.delete_before
            && self.delete_after) || (self.delete_during && self.delete_after);
        if several {
            return Err(
                CliError::advice(
                    "--delete-before, --delete-during and --delete-after exclude each other",
                    "Give one of them.",
                ),
            );
        }
        if self.delete_before {
            Ok(DeleteMode::Before)
        } else if self.delete_after {
            Ok(DeleteMode::After)
        } else {
            Ok(DeleteMode::During)
        }
    }
}

/// Whether a failure would come back for every file behind it.
pub open spec fn ends_the_run(code: ExitCode) -> bool {
    code == ExitCode::FatalError || code == ExitCode::VaultLocked
}

/// Whether a failure ends the run: one that belongs to a single file does not.
pub fn is_fatal(error: &CliError) -> (r: bool)
    ensures
        r == ends_the_run(error.code),
{
    match error.code() {
        ExitCode::FatalError | ExitCode::VaultLocked => true,
        _ => false,
    }
}

/// A failure ends a run exactly where it would come back for every file: the program cannot go
/// on, or the vault is locked.
pub proof fn only_a_lasting_failure_ends_the_run(code: ExitCode)
    ensures
        ends_the_run(code) <==> code == ExitCode::FatalError || code == ExitCode::VaultLocked,
{
}

/// At most one flag is accepted, it alone chooses the mode, and without one removals happen
/// along the way.
pub proof fn one_flag_chooses_the_mode(f: DeleteFlags)
    ensures
        f.chosen() == Some(DeleteMode::Before) <==> f.delete_before && !f.delete_during
            && !f.delete_after,
        f.chosen() == Some(DeleteMode::After) <==> f.delete_after && !f.delete_before
            && !f.delete_during,
        f.chosen() == Some(DeleteMode::During) <==> !f.delete_before && !f.delete_after,
{
}

/// What puts something at the destination, what removes something, and what does nothing are
/// told apart.
pub proof fn every_operation_adds_removes_or_rests(op: Op)
    ensures
        op.acts() <==> op.adds() || op == Op::Delete,
        op.adds() <==> op != Op::Delete && op != Op::Skip,
        op.acts() <==> op != Op::Skip,
{
}

/// Every operation of a plan is counted once, under what it does.
pub proof fn every_entry_is_counted_once(s: Seq<Op>)
    ensures
        occurrences(s, Op::Copy) + occurrences(s, Op::Update) + occurrences(s, Op::CreateDir)
            + occurrences(s, Op::Delete) + occurrences(s, Op::Skip) == s.len(),
    decreases s.len(),
{
    if s.len() > 0 {
        every_entry_is_counted_once(s.drop_last());
    }
}

/// Two modes at once are a mistake in the request.
pub proof fn two_modes_are_a_mistake(e: CliError)
    requires
        is_mode_refusal(e),
    ensures
        e.code == ExitCode::Usage,
        e.message@ == "--delete-before, --delete-during and --delete-after exclude each other"@,
        e.hint is Some,
{
}

} // verus!
