//! `scrub`: reading stored objects back, and how healthy they are.
use vstd::prelude::*;

use crate::error::{CliError, ExitCode, Result};
use crate::globals::Globals;
use crate::integrity;
use crate::integrity::{is_target_refusal, Assurance, VerifyMode};
use crate::listing::{is_unusable, unusable, Filter};
use crate::output::{notice_views, Level, Notice};
use crate::remote::{naming, Naming, RemoteSpec};
use crate::removal::flow::filters_by;
use crate::text;
use crate::text::{digits, hex_text};

pub mod engine;
pub mod plan;
pub mod report;

use plan::{is_percent_refusal, valid_percent, Plan};

verus! {

pub const SCRUB_REPAIR_UNAVAILABLE: &'static str = "--repair is not available: no redundancy is written for it to read";

pub const SCRUB_REPAIR_UNAVAILABLE_HINT: &'static str = "Repair needs parity (§13.3). Restore the damaged objects from another copy.";

/// The arguments of `dctl scrub`.
#[derive(Debug)]
pub struct ScrubArgs {
    /// The remote or prefix to scrub.
    pub target: String,
    /// Whether damage is to be repaired.
    pub repair: bool,
    /// The share of the dataset to read.
    pub sample_percent: u8,
    /// After how many damaged objects to stop; zero for never.
    pub max_errors: u64,
    /// Whether a reading that proves nothing of the bytes is accepted.
    pub allow_read_back: bool,
}

/// What a scrub reads, and how.
#[derive(Debug)]
pub struct Prepared {
    /// The remote, and the path inside it.
    pub target: RemoteSpec,
    pub plan: Plan,
    pub filter: Filter,
}

/// Checks the arguments before anything is opened: the target first, then repair is refused,
/// then the share is looked at, then the filters. The plan that comes out never repairs.
pub fn prepare(args: &ScrubArgs, globals: &Globals) -> (r: Result<Prepared>)
    ensures
        match r {
            Ok(p) => {
                &&& p.target matches RemoteSpec::Named { remote, path } && naming(args.target@) == (
                Naming::Remote { remote: remote@, path: path@ })
                &&& !args.repair
                &&& valid_percent(args.sample_percent)
                &&& unusable(*globals) is None
                &&& p.plan.percent() == args.sample_percent
                &&& p.plan.budget() == args.max_errors
                &&& !p.plan.mends()
                &&& filters_by(p.filter, *globals)
            },
            Err(e) => if !(naming(args.target@) is Remote) {
                is_target_refusal(e, "dctl scrub"@, args.target@)
            } else if args.repair {
                e.is(
                    ExitCode::Usage,
                    SCRUB_REPAIR_UNAVAILABLE@,
                    Some(SCRUB_REPAIR_UNAVAILABLE_HINT@),
                )
            } else if !valid_percent(args.sample_percent) {
                is_percent_refusal(e, args.sample_percent)
            } else {
                unusable(*globals) matches Some(why) && is_unusable(e, *globals, why)
            },
        },
{
    let target = match integrity::require_remote("dctl scrub", args.target.as_str()) {
        Ok(t) => t,
        Err(e) => {
            return Err(e);
        },
    };
    if args.repair {
        return Err(CliError::advice(SCRUB_REPAIR_UNAVAILABLE, SCRUB_REPAIR_UNAVAILABLE_HINT));
    }
    let plan = match Plan::seeded(args.sample_percent, args.max_errors, false) {
        Ok(p) => p,
        Err(e) => {
            return Err(e);
        },
    };
    match Filter::from_globals(globals) {
        Ok(filter) => Ok(Prepared { target, plan, filter }),
        Err(e) => Err(e),
    }
}

/// What is said first.
pub open spec fn opening_text(target: Seq<char>, requested: VerifyMode) -> Seq<(Level, Seq<char>)> {
    seq![
        (
            Level::Info,
            "dctl scrub: "@ + target
                + " at --verify=strict — every object is read back in full"@,
        ),
    ] + (if requested != VerifyMode::Strict {
        seq![
            (
                Level::Warn,
                "--verify="@ + requested.word()
                    + " asks for a cheaper check than a scrub can perform in this build: there is no provider-checksum comparison behind `dctl scrub`, so every selected object is read back in full"@,
            ),
        ]
    } else {
        Seq::empty()
    })
}

/// What is said of a run that goes ahead.
pub open spec fn extent_text(target: Seq<char>, plan: Plan, assurance: Assurance) -> Seq<
    (Level, Seq<char>),
> {
    (if assurance == Assurance::ReadBack {
        seq![
            (
                Level::Warn,
                "'"@ + target
                    + "' records no hash of its own — a pass says that every object could be read, and nothing about its bytes"@,
            ),
        ]
    } else {
        Seq::empty()
    }) + seq![
        if plan.percent() == 100 {
            (Level::Info, "reading every object in the dataset"@)
        } else {
            (
                Level::Warn,
                "sampling "@ + digits(plan.percent() as nat) + "% of the dataset (seed "@ + hex_text(
                    plan.seeded_by() as nat,
                    16,
                ) + ") — the health grade covers only the objects this run reads"@,
            )
        },
    ] + (if plan.budget() != 0 {
        seq![
            (
                Level::Warn,
                "--max-errors "@ + digits(plan.budget() as nat)
                    + " will stop the run early, so the report may understate how widespread any damage is"@,
            ),
        ]
    } else {
        Seq::empty()
    })
}

/// Says what the run is going to do, and decides whether the remote can be graded at all.
pub fn preamble(
    target: &str,
    plan: &Plan,
    requested: VerifyMode,
    assurance: Assurance,
    allow_read_back: bool,
) -> (r: (Vec<Notice>, Result<()>))
    ensures
        match r.1 {
            Ok(_) => (assurance == Assurance::Authenticated || allow_read_back) && notice_views(
                r.0@,
            ) == opening_text(target@, requested) + extent_text(target@, *plan, assurance),
            Err(e) => notice_views(r.0@) == opening_text(target@, requested) && assurance == Assurance::ReadBack && !allow_read_back && e.is(
                ExitCode::VerificationNotPossible,
                "dctl scrub"@ + ": '"@ + target@ + "' records no hash of its own"@,
                Some(
                    "Name the vault, or pass --allow-read-back to check only that every object can be read."@,
                ),
            ),
        },
{
    let mut notices: Vec<Notice> = Vec::new();
    notices.push(
        Notice::new(
            Level::Info,
            text::cat3(
                "dctl scrub: ",
                target,
                " at --verify=strict — every object is read back in full",
            ),
        ),
    );
    match requested {
        VerifyMode::Strict => {},
        _ => {
            notices.push(
                Notice::new(
                    Level::Warn,
                    text::cat3(
                        "--verify=",
                        requested.slug(),
                        " asks for a cheaper check than a scrub can perform in this build: there is no provider-checksum comparison behind `dctl scrub`, so every selected object is read back in full",
                    ),
                ),
            );
        },
    }
    proof {
        assert(notice_views(notices@) =~= opening_text(target@, requested));
    }
    match integrity::require("dctl scrub", target, assurance, allow_read_back) {
        Ok(_) => {},
        Err(e) => {
            return (notices, Err(e));
        },
    }
    if !assurance.detects_corruption() {
        notices.push(
            Notice::new(
                Level::Warn,
                text::cat3(
                    "'",
                    target,
                    "' records no hash of its own — a pass says that every object could be read, and nothing about its bytes",
                ),
            ),
        );
    }
    if plan.is_full() {
        notices.push(Notice::new(Level::Info, "reading every object in the dataset".to_owned()));
    } else {
        let percent = text::decimal(plan.sample_percent() as u64);
        let seed = report::hex_seed(plan.seed());
        notices.push(
            Notice::new(
                Level::Warn,
                text::cat5(
                    "sampling ",
                    percent.as_str(),
                    "% of the dataset (seed ",
                    seed.as_str(),
                    ") — the health grade covers only the objects this run reads",
                ),
            ),
        );
    }
    if plan.is_bounded() {
        let limit = text::decimal(plan.max_errors());
        notices.push(
            Notice::new(
                Level::Warn,
                text::cat3(
                    "--max-errors ",
                    limit.as_str(),
                    " will stop the run early, so the report may understate how widespread any damage is",
                ),
            ),
        );
    }
    proof {
        assert(notice_views(notices@) =~= opening_text(target@, requested) + extent_text(
            target@,
            *plan,
            assurance,
        ));
    }
    (notices, Ok(()))
}

/// A run that reads everything says so and warns of nothing; a sample, a limit, and a remote that
/// records no hash are each warned of, and only where they are there.
pub proof fn a_partial_check_is_warned_of(target: Seq<char>, plan: Plan, assurance: Assurance)
    ensures
        ({
            let said = extent_text(target, plan, assurance);
            let weak = assurance == Assurance::ReadBack;
            let first: int = if weak {
                1
            } else {
                0
            };
            &&& said.len() == first + 1 + (if plan.budget() > 0 {
                1int
            } else {
                0
            })
            &&& weak ==> said[0].0 == Level::Warn
            &&& plan.percent() == 100 ==> said[first].0 == Level::Info
            &&& plan.percent() != 100 ==> said[first].0 == Level::Warn
            &&& plan.budget() > 0 ==> said[first + 1].0 == Level::Warn
        }),
{
}

/// A request for a cheaper check is answered with a warning, since everything is read in full.
pub proof fn a_cheaper_check_is_not_pretended(target: Seq<char>, requested: VerifyMode)
    ensures
        requested == VerifyMode::Strict ==> opening_text(target, requested).len() == 1,
        requested != VerifyMode::Strict ==> opening_text(target, requested).len() == 2
            && opening_text(target, requested)[1].0 == Level::Warn,
        opening_text(target, requested)[0].0 == Level::Info,
{
}

} // verus!
