//! `restore`: writing a vault, or a part of it, back to a disk.
//!
//! Every path is looked at before the first byte is written, everything is reported before
//! anything is refused, and a refusal leaves the disk as it was.
use vstd::prelude::*;

use crate::error::{CliError, ExitCode, Result};
use crate::globals::Globals;
use crate::listing::{is_unusable, unusable, Filter};
use crate::output::{Level, Notice};
use crate::removal::age;
use crate::removal::age::age_seconds;
use crate::removal::flow::filters_by;
use crate::removal::target::{meaning, refusal_message, Meaning, Target};
use crate::stats::Stats;
use crate::text;
use crate::text::digits;
use crate::touch::timestamp::{reading, Timestamp};
use crate::transfer;
use crate::transfer::ends_the_run;

pub mod archive;
pub mod plan;

use plan::{Candidate, Findings};

verus! {

pub const POINT_IN_TIME_FEATURE: &'static str = "restoring the tree as it stood at a point in time";

pub const POINT_IN_TIME_HINT: &'static str = "The index records one version per path. Snapshots need the versioned index of §13.5.";

/// The arguments of `dctl restore`.
#[derive(Debug)]
pub struct RestoreArgs {
    /// The vault, as REMOTE:PATH.
    pub source: String,
    /// The directory to write to.
    pub destination: String,
    /// A snapshot to restore.
    pub snapshot: Option<String>,
    /// A time to restore.
    pub at: Option<String>,
    /// Whether paths that cannot be written are left out.
    pub skip_unwritable: bool,
    /// Whether files that are already there are replaced.
    pub overwrite: bool,
}

/// Refuses a restore of an earlier state: the current one would not answer the question.
pub fn refuse_point_in_time(args: &RestoreArgs) -> (r: Result<()>)
    ensures
        match r {
            Ok(_) => args.at is None && args.snapshot is None,
            Err(e) => (args.at is Some || args.snapshot is Some) && e.is(
                ExitCode::FatalError,
                POINT_IN_TIME_FEATURE@ + " is not implemented"@,
                Some(POINT_IN_TIME_HINT@),
            ),
        },
{
    if args.at.is_some() || args.snapshot.is_some() {
        return Err(
            CliError::unimplemented(POINT_IN_TIME_FEATURE).with_hint(POINT_IN_TIME_HINT.to_owned()),
        );
    }
    Ok(())
}

/// Whether a text spells a time to restore: an age, or a timestamp.
pub open spec fn spells_time(s: Seq<char>) -> bool {
    age_seconds(s) is Some || reading(s) is Seconds
}

/// Whether `e` says that a text spells no time to restore.
pub open spec fn is_time_refusal(e: CliError, s: Seq<char>) -> bool {
    e.is(
        ExitCode::Usage,
        "'"@ + s + "' is not a time to restore"@,
        Some("Write an age such as 2d, or a time such as 2024-05-01T12:00:00Z."@),
    )
}

/// Refuses a time that is none. It is a slip of the hand, and no missing feature.
pub fn check_time(at: &Option<String>) -> (r: Result<()>)
    ensures
        match (*at, r) {
            (None, Ok(_)) => true,
            (None, Err(_)) => false,
            (Some(s), Ok(_)) => spells_time(s@),
            (Some(s), Err(e)) => !spells_time(s@) && is_time_refusal(e, s@),
        },
{
    let s: &str = match at {
        None => {
            return Ok(());
        },
        Some(s) => s.as_str(),
    };
    if age::parse_age(s).is_ok() || Timestamp::parse(s).is_ok() {
        return Ok(());
    }
    Err(
        CliError::usage(text::cat3("'", s, "' is not a time to restore")).with_hint(
            "Write an age such as 2d, or a time such as 2024-05-01T12:00:00Z.".to_owned(),
        ),
    )
}

/// Checks the arguments before anything is opened: the vault that is named, then the filters,
/// then the time, and last that no earlier state is asked for.
pub fn prepare(args: &RestoreArgs, globals: &Globals) -> (r: Result<(Target, Filter)>)
    ensures
        match r {
            Ok((target, filter)) => {
                &&& meaning(args.source@) == (Meaning::Named {
                    remote: target.remote@,
                    path: target.path@,
                })
                &&& unusable(*globals) is None
                &&& filters_by(filter, *globals)
                &&& args.at is None
                &&& args.snapshot is None
            },
            Err(e) => if !(meaning(args.source@) is Named) {
                e.is(
                    ExitCode::Usage,
                    refusal_message(args.source@, meaning(args.source@)),
                    Some("Name the vault as REMOTE:PATH, for example 'vault:photos'."@),
                )
            } else if unusable(*globals) is Some {
                is_unusable(e, *globals, unusable(*globals)->0)
            } else if args.at is Some && !spells_time(args.at->0@) {
                is_time_refusal(e, args.at->0@)
            } else {
                (args.at is Some || args.snapshot is Some) && e.is(
                    ExitCode::FatalError,
                    POINT_IN_TIME_FEATURE@ + " is not implemented"@,
                    Some(POINT_IN_TIME_HINT@),
                )
            },
        },
{
    let target = match Target::parse(args.source.as_str()) {
        Ok(t) => t,
        Err(e) => {
            return Err(
                e.with_hint(
                    "Name the vault as REMOTE:PATH, for example 'vault:photos'.".to_owned(),
                ),
            );
        },
    };
    let filter = match Filter::from_globals(globals) {
        Ok(f) => f,
        Err(e) => {
            return Err(e);
        },
    };
    match check_time(&args.at) {
        Ok(_) => {},
        Err(e) => {
            return Err(e);
        },
    }
    match refuse_point_in_time(args) {
        Ok(_) => Ok((target, filter)),
        Err(e) => Err(e),
    }
}

/// Refuses a destination that is there and is no directory.
pub fn refuse_destination(destination: &str, is_there: bool, is_directory: bool) -> (r: Result<()>)
    ensures
        match r {
            Ok(_) => !is_there || is_directory,
            Err(e) => is_there && !is_directory && e.is(
                ExitCode::Usage,
                destination@ + " is not a directory"@,
                Some("A restore writes a tree, so its destination is a directory."@),
            ),
        },
{
    if is_there && !is_directory {
        return Err(
            CliError::usage(text::cat2(destination, " is not a directory")).with_hint(
                "A restore writes a tree, so its destination is a directory.".to_owned(),
            ),
        );
    }
    Ok(())
}

/// What is said of a restore that has nothing to write. The two reasons have different
/// remedies.
pub fn nothing_to_restore(target: &str, restricting: bool) -> (n: Notice)
    ensures
        n.is(
            Level::Warn,
            "nothing to restore under "@ + target@ + (if restricting {
                ": every path was excluded by the filters"@
            } else {
                Seq::empty()
            }),
        ),
{
    let message = if restricting {
        text::cat3(
            "nothing to restore under ",
            target,
            ": every path was excluded by the filters",
        )
    } else {
        text::cat2("nothing to restore under ", target)
    };
    proof {
        assert("nothing to restore under "@ + target@ + Seq::<char>::empty()
            =~= "nothing to restore under "@ + target@);
    }
    Notice::new(Level::Warn, message)
}

/// How many candidates have no measured size.
pub open spec fn unmeasured(candidates: Seq<Candidate>) -> nat
    decreases candidates.len(),
{
    if candidates.len() == 0 {
        0
    } else {
        unmeasured(candidates.drop_last()) + (if candidates.last().object.measured {
            0nat
        } else {
            1
        })
    }
}

/// What is said where the totals fall short of what will be written.
pub fn warn_about_unmeasured(candidates: &Vec<Candidate>) -> (r: Option<Notice>)
    ensures
        match r {
            None => unmeasured(candidates@) == 0,
            Some(n) => unmeasured(candidates@) > 0 && n.is(
                Level::Warn,
                digits(unmeasured(candidates@))
                    + " object(s) have no recorded size, so the totals above understate this restore: their index rows were rebuilt from the store and sizes are populated on first read. The files themselves restore normally."@,
            ),
        },
{
    let mut n: u64 = 0;
    let mut i: usize = 0;
    proof {
        assert(candidates@.take(0) =~= Seq::empty());
    }
    while i < candidates.len()
        invariant
            i <= candidates@.len(),
            n == unmeasured(candidates@.take(i as int)),
            n <= i,
        decreases candidates@.len() - i,
    {
        proof {
            assert(candidates@.take(i + 1).drop_last() =~= candidates@.take(i as int));
            assert(candidates@.take(i + 1).last() == candidates@[i as int]);
        }
        if !candidates[i].object.measured {
            n = n + 1;
        }
        i = i + 1;
    }
    proof {
        assert(candidates@.take(i as int) =~= candidates@);
    }
    if n == 0 {
        return None;
    }
    let shown = text::decimal(n);
    Some(
        Notice::new(
            Level::Warn,
            text::cat2(
                shown.as_str(),
                " object(s) have no recorded size, so the totals above understate this restore: their index rows were rebuilt from the store and sizes are populated on first read. The files themselves restore normally.",
            ),
        ),
    )
}

pub const RESTORE_BLOCKED_HINT: &'static str = "Every one is listed above. Rename them in the vault, restore somewhere with different rules, or pass --skip-unwritable to restore the rest and be told exactly what was left out.";

/// Decides whether a restore goes on although some paths cannot be written: only where that
/// was asked for, and not without saying so.
pub fn gate_blocked(blocked: usize, candidates: usize, skip_unwritable: bool) -> (r: Result<
    Option<Notice>,
>)
    ensures
        match r {
            Ok(None) => blocked == 0,
            Ok(Some(n)) => blocked > 0 && skip_unwritable && n.is(
                Level::Warn,
                digits(blocked as nat) + " path(s) will be skipped: they cannot be written here"@,
            ),
            Err(e) => blocked > 0 && !skip_unwritable && e.is(
                ExitCode::FatalError,
                digits(blocked as nat) + " of "@ + digits(candidates as nat)
                    + " path(s) cannot be written on this platform"@,
                Some(RESTORE_BLOCKED_HINT@),
            ),
        },
{
    if blocked == 0 {
        return Ok(None);
    }
    let n = text::decimal(blocked as u64);
    if skip_unwritable {
        return Ok(
            Some(
                Notice::new(
                    Level::Warn,
                    text::cat2(
                        n.as_str(),
                        " path(s) will be skipped: they cannot be written here",
                    ),
                ),
            ),
        );
    }
    let all = text::decimal(candidates as u64);
    Err(
        CliError::new(
            ExitCode::FatalError,
            text::cat4(
                n.as_str(),
                " of ",
                all.as_str(),
                " path(s) cannot be written on this platform",
            ),
        ).with_hint(RESTORE_BLOCKED_HINT.to_owned()),
    )
}

/// What would be replaced.
pub open spec fn replaced_text(overwrites: nat, destination: Seq<char>) -> Seq<char> {
    digits(overwrites) + " existing file(s) under "@ + destination
}

/// Decides whether a restore may replace what is there. Where nothing is to change, it may
/// not; without having been asked to, it may not; and otherwise consent is needed, to what is
/// returned.
pub fn gate_overwrites(args: &RestoreArgs, immutable: bool, overwrites: usize) -> (r: Result<
    Option<String>,
>)
    ensures
        match r {
            Ok(None) => overwrites == 0,
            Ok(Some(what)) => overwrites > 0 && !immutable && args.overwrite && what@
                == replaced_text(overwrites as nat, args.destination@),
            Err(e) => overwrites > 0 && if immutable {
                e.is(
                    ExitCode::FatalError,
                    "--immutable, but the restore would replace "@ + replaced_text(
                        overwrites as nat,
                        args.destination@,
                    ),
                    Some("Restore into an empty directory, or drop --immutable."@),
                )
            } else {
                !args.overwrite && e.is(
                    ExitCode::FatalError,
                    "the restore would replace "@ + replaced_text(
                        overwrites as nat,
                        args.destination@,
                    ),
                    Some(
                        "Restore into an empty directory, or pass --overwrite to replace what is already there."@,
                    ),
                )
            },
        },
{
    if overwrites == 0 {
        return Ok(None);
    }
    let n = text::decimal(overwrites as u64);
    let what = text::cat3(n.as_str(), " existing file(s) under ", args.destination.as_str());
    if immutable {
        return Err(
            CliError::new(
                ExitCode::FatalError,
                text::cat2("--immutable, but the restore would replace ", what.as_str()),
            ).with_hint("Restore into an empty directory, or drop --immutable.".to_owned()),
        );
    }
    if !args.overwrite {
        return Err(
            CliError::new(
                ExitCode::FatalError,
                text::cat2("the restore would replace ", what.as_str()),
            ).with_hint(
                "Restore into an empty directory, or pass --overwrite to replace what is already there.".to_owned(),
            ),
        );
    }
    Ok(Some(what))
}

/// Takes the answer to the question whether files may be replaced. A dry run is never
/// approved and goes on, because it writes nothing.
pub fn confirmed(approved: bool, dry_run: bool) -> (r: Result<()>)
    ensures
        match r {
            Ok(_) => approved || dry_run,
            Err(e) => !approved && !dry_run && e.is(
                ExitCode::Cancelled,
                "restore cancelled: nothing was written"@,
                None,
            ),
        },
{
    if !approved && !dry_run {
        return Err(
            CliError::new(
                ExitCode::Cancelled,
                "restore cancelled: nothing was written".to_owned(),
            ),
        );
    }
    Ok(())
}

/// Decides whether the next candidate is written, and counts it where it is not.
pub fn next(candidate: &Candidate, findings: &Findings, stats: &mut Stats) -> (fetch: bool)
    ensures
        fetch == !findings.stops(candidate.relative@),
        *final(stats) == (if fetch {
            *old(stats)
        } else {
            old(stats).with_skipped()
        }),
{
    if findings.blocks(candidate.relative.as_str()) {
        stats.file_skipped();
        return false;
    }
    true
}

/// The counters after one candidate was tried.
pub open spec fn stats_with(stats: Stats, size: u64, outcome: Result<()>) -> Stats {
    match outcome {
        Ok(_) => stats.with_bytes(size).with_done(),
        Err(e) => if ends_the_run(e.code) {
            stats
        } else if e.code == ExitCode::IntegrityFailure {
            stats.with_mismatch().with_error()
        } else {
            stats.with_error()
        },
    }
}

/// Records what came of writing one candidate. One bad object does not keep the others from
/// being written; a failure that would come back for each of them ends the run.
pub fn settle(candidate: &Candidate, outcome: Result<()>, stats: &mut Stats) -> (r: Result<
    Option<Notice>,
>)
    ensures
        *final(stats) == stats_with(*old(stats), candidate.object.size, outcome),
        match outcome {
            Ok(_) => r matches Ok(n) && n is None,
            Err(e) => if ends_the_run(e.code) {
                r matches Err(out) && out == e
            } else {
                r matches Ok(Some(n)) && n.is(
                    Level::Warn,
                    "failed to restore "@ + candidate.object.logical@ + ": "@ + e.message@,
                )
            },
        },
{
    match outcome {
        Ok(_) => {
            stats.add_bytes(candidate.object.size);
            stats.file_done();
            Ok(None)
        },
        Err(e) => {
            if transfer::is_fatal(&e) {
                return Err(e);
            }
            match e.code() {
                ExitCode::IntegrityFailure => {
                    stats.checksum_mismatch();
                },
                _ => {},
            }
            stats.error();
            let message = text::cat4(
                "failed to restore ",
                candidate.object.logical.as_str(),
                ": ",
                e.message(),
            );
            Ok(Some(Notice::new(Level::Warn, message)))
        },
    }
}

/// What became of one candidate: it was left out, or it was tried with an outcome.
pub enum Fate {
    Skipped,
    Tried(u64, Result<()>),
}

impl Fate {
    /// Whether the candidate was tried and not written.
    pub open spec fn failed(self) -> bool {
        self matches Fate::Tried(_, outcome) && outcome is Err
    }

    /// Whether the run goes on behind it.
    pub open spec fn goes_on(self) -> bool {
        self matches Fate::Tried(_, Err(e)) ==> !ends_the_run(e.code)
    }
}

/// The counters after a run with these fates.
pub open spec fn stats_after(stats: Stats, fates: Seq<Fate>) -> Stats
    decreases fates.len(),
{
    if fates.len() == 0 {
        stats
    } else {
        let before = stats_after(stats, fates.drop_last());
        match fates.last() {
            Fate::Skipped => before.with_skipped(),
            Fate::Tried(size, outcome) => stats_with(before, size, outcome),
        }
    }
}

/// Every candidate of a run that goes on to its end is counted once, as skipped, written or
/// failed, and the run ends in success exactly where none failed.
pub proof fn every_candidate_is_counted_once(fates: Seq<Fate>)
    requires
        fates.len() <= u64::MAX,
        forall|i: int| 0 <= i < fates.len() ==> (#[trigger] fates[i]).goes_on(),
    ensures
        ({
            let s = stats_after(Stats::zero(), fates);
            &&& s.files_skipped + s.files_done + s.errors == fates.len()
            &&& s.checksum_mismatches <= s.errors
            &&& s.errors > 0 <==> s.ending() != ExitCode::Success
        }),
        stats_after(Stats::zero(), fates).errors > 0 <==> (exists|i: int|
            0 <= i < fates.len() && (#[trigger] fates[i]).failed()),
    decreases fates.len(),
{
    if fates.len() > 0 {
        let before = fates.drop_last();
        assert forall|i: int| 0 <= i < before.len() implies (#[trigger] before[i]).goes_on() by {
            assert(before[i] == fates[i]);
        }
        every_candidate_is_counted_once(before);
        assert(fates[fates.len() - 1].goes_on());
        if exists|i: int| 0 <= i < before.len() && (#[trigger] before[i]).failed() {
            let i = choose|i: int| 0 <= i < before.len() && (#[trigger] before[i]).failed();
            assert(fates[i].failed());
        }
        if fates.last().failed() {
            assert(fates[fates.len() - 1].failed());
        }
        if exists|i: int| 0 <= i < fates.len() && (#[trigger] fates[i]).failed() {
            let i = choose|i: int| 0 <= i < fates.len() && (#[trigger] fates[i]).failed();
            if i < before.len() {
                assert(before[i].failed());
            }
        }
    }
}

/// What came of one candidate is counted once: a file that was written with its bytes, and a
/// failure as one error, and as a mismatch too where the bytes did not authenticate. A failure
/// that ends the run is counted nowhere.
pub proof fn a_failure_is_counted_as_what_it_is(stats: Stats, size: u64, outcome: Result<()>)
    ensures
        ({
            let after = stats_with(stats, size, outcome);
            &&& outcome is Ok ==> (stats.files_done < u64::MAX ==> after.files_done
                == stats.files_done + 1) && (stats.bytes_done + size <= u64::MAX
                ==> after.bytes_done == stats.bytes_done + size) && after.errors == stats.errors
                && after.checksum_mismatches == stats.checksum_mismatches
            &&& outcome matches Err(e) ==> {
                let ends = e.code == ExitCode::FatalError || e.code == ExitCode::VaultLocked;
                &&& ends ==> after == stats
                &&& !ends && stats.errors < u64::MAX ==> after.errors == stats.errors + 1
                &&& !ends && e.code == ExitCode::IntegrityFailure && stats.checksum_mismatches
                    < u64::MAX ==> after.checksum_mismatches == stats.checksum_mismatches + 1
                &&& e.code != ExitCode::IntegrityFailure ==> after.checksum_mismatches
                    == stats.checksum_mismatches
                &&& after.files_done == stats.files_done
                &&& after.bytes_done == stats.bytes_done
            }
            &&& after.files_skipped == stats.files_skipped
        }),
{
}

/// The candidates without a measured size are counted, and no others.
pub proof fn only_the_unmeasured_are_counted(candidates: Seq<Candidate>)
    ensures
        unmeasured(candidates) == candidates.filter(|c: Candidate| !c.object.measured).len(),
    decreases candidates.len(),
{
    reveal(Seq::filter);
    if candidates.len() > 0 {
        only_the_unmeasured_are_counted(candidates.drop_last());
    }
}

/// An age spells a time to restore, and so does a timestamp; a text that is neither does not.
pub proof fn a_time_is_an_age_or_a_timestamp(s: Seq<char>)
    ensures
        age_seconds(s) is Some ==> spells_time(s),
        reading(s) is Seconds ==> spells_time(s),
        age_seconds(s) is None && !(reading(s) is Seconds) ==> !spells_time(s),
{
}

/// A time that cannot be read is a mistake in the request, told with the text as it was given;
/// and files that will be replaced are counted and placed.
pub proof fn a_restore_says_what_it_was_asked(
    e: CliError,
    s: Seq<char>,
    overwrites: nat,
    destination: Seq<char>,
)
    ensures
        is_time_refusal(e, s) ==> e.code == ExitCode::Usage && e.hint is Some && e.message@ == "'"@
            + s + "' is not a time to restore"@,
        replaced_text(overwrites, destination) == digits(overwrites) + " existing file(s) under "@
            + destination,
{
}

} // verus!
