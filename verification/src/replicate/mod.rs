//! `replicate`: a second copy of an object store, made without any key.
//!
//! Bytes move as they are, under the keys that they have. No filter narrows a run, because a
//! part of a vault's objects is not a vault, and nothing is ever deleted.
use vstd::prelude::*;

use crate::error::Result;
use crate::globals::Globals;
use crate::integrity::VerifyMode;
use crate::output::{notice_views, Level, Notice};
use crate::remote::{Config, RemoteSpec};
use crate::text;
use crate::text::digits;

pub mod execute;
pub mod filters;
pub mod objects;
pub mod plan;
pub mod report;
pub mod target;

use execute::description;
use filters::{filter_flags, is_filter_refusal};
use plan::{idle, Item, Plan, Summary};
use target::{acceptable, allowed, refused, Side, Store};

verus! {

/// The arguments of `dctl replicate`.
#[derive(Debug)]
pub struct ReplicateArgs {
    /// The store to copy, all of it.
    pub source: String,
    /// The store to copy to.
    pub destination: String,
}

/// Checks what can be checked before any store is looked at: a filter is refused first, then
/// the source. The destination is `target::open`'s, once the source has been admitted.
pub fn prepare(args: &ReplicateArgs, globals: &Globals, config: &Config) -> (r: Result<RemoteSpec>)
    ensures
        match r {
            Ok(source) => filter_flags(*globals).len() == 0 && allowed(
                *config,
                args.source@,
                source,
            ),
            Err(e) => if filter_flags(*globals).len() > 0 {
                is_filter_refusal(e, *globals)
            } else {
                !acceptable(*config, args.source@) && refused(
                    *config,
                    args.source@,
                    Side::Source,
                    e,
                )
            },
        },
{
    match filters::refuse(globals) {
        Ok(_) => target::open(config, args.source.as_str(), Side::Source),
        Err(e) => Err(e),
    }
}

/// What is said before anything is listed.
pub open spec fn opening_text(source: Seq<char>, destination: Seq<char>, verify: VerifyMode) -> Seq<
    (Level, Seq<char>),
> {
    seq![
        (
            Level::Info,
            "dctl replicate: "@ + source + " -> "@ + destination + " at --verify="@
                + verify.word() + " — "@ + description(verify),
        ),
        (
            Level::Info,
            "no vault password is read: this run moves opaque ciphertext objects"@,
        ),
    ]
}

pub fn opening(source: &Store, destination: &Store, verify: VerifyMode) -> (r: Vec<Notice>)
    ensures
        notice_views(r@) == opening_text(source.spec@, destination.spec@, verify),
{
    let mut r: Vec<Notice> = Vec::new();
    let front = text::cat5(
        "dctl replicate: ",
        source.spec.as_str(),
        " -> ",
        destination.spec.as_str(),
        " at --verify=",
    );
    r.push(
        Notice::new(
            Level::Info,
            text::cat4(front.as_str(), verify.slug(), " — ", execute::describe(verify)),
        ),
    );
    r.push(
        Notice::new(
            Level::Info,
            "no vault password is read: this run moves opaque ciphertext objects".to_owned(),
        ),
    );
    proof {
        assert(notice_views(r@) =~= opening_text(source.spec@, destination.spec@, verify));
    }
    r
}

/// What is said of a plan before it is carried out.
pub open spec fn planned_text(
    source: Seq<char>,
    destination: Seq<char>,
    items: Seq<Item>,
    counts: Summary,
) -> Seq<(Level, Seq<char>)> {
    (if counts.extra > 0 {
        seq![
            (
                Level::Warn,
                "'"@ + destination + "' holds "@ + digits(counts.extra as nat)
                    + " object(s) the source does not; replication never deletes, so they are left alone"@,
            ),
        ]
    } else {
        Seq::empty()
    }) + (if idle(items) {
        seq![
            (
                Level::Info,
                "'"@ + destination + "' already holds every object in '"@ + source + "'"@,
            ),
        ]
    } else {
        Seq::empty()
    })
}

pub fn planned(source: &Store, destination: &Store, plan: &Plan) -> (r: Vec<Notice>)
    ensures
        notice_views(r@) == planned_text(
            source.spec@,
            destination.spec@,
            plan.objects(),
            plan.counts(),
        ),
{
    let mut r: Vec<Notice> = Vec::new();
    let counts = plan.summary();
    if counts.extra > 0 {
        let extra = text::decimal(counts.extra);
        r.push(
            Notice::new(
                Level::Warn,
                text::cat5(
                    "'",
                    destination.spec.as_str(),
                    "' holds ",
                    extra.as_str(),
                    " object(s) the source does not; replication never deletes, so they are left alone",
                ),
            ),
        );
    }
    if plan.is_empty() {
        r.push(
            Notice::new(
                Level::Info,
                text::cat5(
                    "'",
                    destination.spec.as_str(),
                    "' already holds every object in '",
                    source.spec.as_str(),
                    "'",
                ),
            ),
        );
    }
    proof {
        assert(notice_views(r@) =~= planned_text(
            source.spec@,
            destination.spec@,
            plan.objects(),
            plan.counts(),
        ));
    }
    r
}

/// What a dry run says it would do, in front of the destination.
pub fn rehearsal(source: &Store, plan: &Plan) -> (s: String)
    ensures
        s@ == "replicate "@ + digits((plan.counts().replicated + plan.counts().reverified) as nat)
            + " object(s) from '"@ + source.spec@ + "' to"@,
{
    let n = text::decimal(plan.reading());
    text::cat5("replicate ", n.as_str(), " object(s) from '", source.spec.as_str(), "' to")
}

/// What is said at the end. That the destination holds everything is said only where nothing
/// failed.
pub fn closing(source: &Store, destination: &Store, summary: &Summary) -> (r: Option<Notice>)
    ensures
        match r {
            Some(n) => summary.failed == 0 && n.is(
                Level::Success,
                "'"@ + destination.spec@ + "' now holds every object in '"@ + source.spec@ + "' ("@
                    + digits(summary.objects as nat) + " object(s), "@ + digits(
                    summary.replicated as nat,
                ) + " moved this run)"@,
            ),
            None => summary.failed > 0,
        },
{
    if summary.failed > 0 {
        return None;
    }
    let front = text::cat5(
        "'",
        destination.spec.as_str(),
        "' now holds every object in '",
        source.spec.as_str(),
        "' (",
    );
    let objects = text::decimal(summary.objects);
    let moved = text::decimal(summary.replicated);
    let message = text::cat5(
        front.as_str(),
        objects.as_str(),
        " object(s), ",
        moved.as_str(),
        " moved this run)",
    );
    Some(Notice::new(Level::Success, message))
}

/// A plan is said to have nothing to move only where it reads nothing, and what only the
/// destination holds is said to be left alone exactly where there is any.
pub proof fn a_plan_is_announced_as_it_is(
    source: Seq<char>,
    destination: Seq<char>,
    items: Seq<Item>,
    counts: Summary,
)
    ensures
        ({
            let said = planned_text(source, destination, items, counts);
            let still = forall|i: int|
                0 <= i < items.len() ==> (#[trigger] items[i]).action != plan::Action::Replicate
                    && items[i].action != plan::Action::Reverify;
            &&& said.len() == (if counts.extra > 0 {
                1int
            } else {
                0
            }) + (if still {
                1int
            } else {
                0
            })
            &&& counts.extra > 0 ==> said[0].0 == Level::Warn
            &&& still ==> said.last().0 == Level::Info && said.last().1 == "'"@ + destination
                + "' already holds every object in '"@ + source + "'"@
        }),
{
    let still = forall|i: int|
        0 <= i < items.len() ==> (#[trigger] items[i]).action != plan::Action::Replicate
            && items[i].action != plan::Action::Reverify;
    if still {
        assert(idle(items)) by {
            assert forall|i: int| 0 <= i < items.len() implies !(
            #[trigger] items[i]).action.reads() by {
                assert(items[i].action != plan::Action::Replicate);
            }
        }
    }
    if idle(items) {
        assert forall|i: int| 0 <= i < items.len() implies (#[trigger] items[i]).action
            != plan::Action::Replicate && items[i].action != plan::Action::Reverify by {
            assert(!items[i].action.reads());
        }
    }
}

} // verus!
