//! `touch`: creating an object, or setting its time.
use vstd::prelude::*;

use crate::constants::{
    DIRECTORY_LABEL_CREATE, DIRECTORY_LABEL_OBJECT, DIRECTORY_LABEL_PLACE,
    DIRECTORY_LABEL_TIMESTAMP, DIRECTORY_LABEL_TIMESTAMP_SOURCE,
    DIRECTORY_TIMESTAMP_SOURCE_EXPLICIT, DIRECTORY_TIMESTAMP_SOURCE_NOW, REMOVAL_BOOL_NO,
    REMOVAL_BOOL_YES, REMOVAL_STATUS_PLANNED,
};
use crate::error::{CliError, ExitCode, Result};
use crate::output::{Level, Notice};
use crate::removal::plan;
use crate::removal::plan::{row_views, Plan, PlanOptions, Row};
use crate::removal::target::{meaning, refusal_message, Meaning, Target};
use crate::text;

pub mod calendar;
pub mod engine;
pub mod timestamp;

use engine::{Outcome, Place};
use timestamp::{is_written, Timestamp};

verus! {

pub const VERB: &'static str = "touch";

/// The arguments of `dctl touch`.
#[derive(Debug)]
pub struct TouchArgs {
    /// The object, as REMOTE:PATH.
    pub target: String,
    /// The time to set, in place of the current time.
    pub timestamp: Option<Timestamp>,
    /// Whether a missing object is left missing.
    pub no_create: bool,
}

/// The part of the plan that is `touch`'s own.
#[derive(Debug)]
pub struct Options {
    pub object: String,
    pub backend: &'static str,
    /// The time for a person.
    pub timestamp: String,
    /// The time for a program.
    pub timestamp_unix: i64,
    pub timestamp_source: &'static str,
    pub create_if_missing: bool,
}

impl PlanOptions for Options {
    open spec fn described(self) -> Seq<(Seq<char>, Seq<char>)> {
        seq![
            (DIRECTORY_LABEL_OBJECT@, self.object@),
            (DIRECTORY_LABEL_PLACE@, self.backend@),
            (DIRECTORY_LABEL_TIMESTAMP@, self.timestamp@),
            (DIRECTORY_LABEL_TIMESTAMP_SOURCE@, self.timestamp_source@),
            (
                DIRECTORY_LABEL_CREATE@,
                if self.create_if_missing {
                    REMOVAL_BOOL_YES@
                } else {
                    REMOVAL_BOOL_NO@
                },
            ),
        ]
    }

    fn rows(&self) -> (r: Vec<Row>) {
        let mut rows: Vec<Row> = Vec::new();
        rows.push((DIRECTORY_LABEL_OBJECT, self.object.clone()));
        rows.push((DIRECTORY_LABEL_PLACE, self.backend.to_owned()));
        rows.push((DIRECTORY_LABEL_TIMESTAMP, self.timestamp.clone()));
        rows.push((DIRECTORY_LABEL_TIMESTAMP_SOURCE, self.timestamp_source.to_owned()));
        rows.push((DIRECTORY_LABEL_CREATE, plan::yes_no(self.create_if_missing)));
        proof {
            assert(row_views(rows@) =~= self.described());
        }
        rows
    }
}

/// Whether `e` refuses flags that together allow nothing.
pub open spec fn is_idle_refusal(e: CliError) -> bool {
    e.is(
        ExitCode::Usage,
        "--no-create and --immutable together allow neither creating nor modifying anything"@,
        Some(
            "Drop --immutable to re-stamp an object that exists, or drop --no-create to create one that does not."@,
        ),
    )
}

/// Refuses flags that together allow nothing.
pub fn check_flags(no_create: bool, immutable: bool) -> (r: Result<()>)
    ensures
        match r {
            Ok(_) => !(no_create && immutable),
            Err(e) => no_create && immutable && is_idle_refusal(e),
        },
{
    if no_create && immutable {
        return Err(
            CliError::advice(
                "--no-create and --immutable together allow neither creating nor modifying anything",
                "Drop --immutable to re-stamp an object that exists, or drop --no-create to create one that does not.",
            ),
        );
    }
    Ok(())
}

/// Checks the arguments before the remote is looked at: an object has to be named, and the
/// flags have to allow something.
pub fn prepare(args: &TouchArgs, immutable: bool) -> (r: Result<Target>)
    ensures
        match r {
            Ok(t) => {
                &&& meaning(args.target@) == (Meaning::Named { remote: t.remote@, path: t.path@ })
                &&& t.well_formed()
                &&& t.path@.len() > 0
                &&& !(args.no_create && immutable)
            },
            Err(e) => match meaning(args.target@) {
                Meaning::Named { remote, path } => if path.len() == 0 {
                    e.is(
                        ExitCode::Usage,
                        "'"@ + remote + ":' names no object"@,
                        Some("Write the object behind the colon, as REMOTE:PATH."@),
                    )
                } else {
                    args.no_create && immutable && is_idle_refusal(e)
                },
                refusal => e.is(
                    ExitCode::Usage,
                    refusal_message(args.target@, refusal),
                    Some("Write the object as REMOTE:PATH, for example 'vault:notes.txt'."@),
                ),
            },
        },
{
    let target = match Target::parse(args.target.as_str()) {
        Ok(t) => t,
        Err(e) => {
            return Err(
                e.with_hint(
                    "Write the object as REMOTE:PATH, for example 'vault:notes.txt'.".to_owned(),
                ),
            );
        },
    };
    if target.is_root() {
        return Err(
            CliError::usage(
                text::cat3("'", target.remote.as_str(), ":' names no object"),
            ).with_hint("Write the object behind the colon, as REMOTE:PATH.".to_owned()),
        );
    }
    match check_flags(args.no_create, immutable) {
        Ok(_) => Ok(target),
        Err(e) => Err(e),
    }
}

/// The time that a request sets, and the options that describe it. `now` is used where the
/// user chose no time.
pub fn options(args: &TouchArgs, target: &Target, place: &Place, now: Timestamp) -> (r: (
    Timestamp,
    Options,
))
    ensures
        r.0 == (match args.timestamp {
            Some(t) => t,
            None => now,
        }),
        r.1.object@ == target.path@,
        r.1.backend@ == place.word(),
        is_written(r.1.timestamp@, r.0.seconds as int),
        r.1.timestamp_unix == r.0.seconds,
        r.1.timestamp_source@ == (if args.timestamp is Some {
            DIRECTORY_TIMESTAMP_SOURCE_EXPLICIT@
        } else {
            DIRECTORY_TIMESTAMP_SOURCE_NOW@
        }),
        r.1.create_if_missing == !args.no_create,
{
    let stamp = match args.timestamp {
        Some(t) => t,
        None => now,
    };
    let source = if args.timestamp.is_some() {
        DIRECTORY_TIMESTAMP_SOURCE_EXPLICIT
    } else {
        DIRECTORY_TIMESTAMP_SOURCE_NOW
    };
    let options = Options {
        object: target.path.clone(),
        backend: place.label(),
        timestamp: stamp.to_rfc3339(),
        timestamp_unix: stamp.unix_seconds(),
        timestamp_source: source,
        create_if_missing: !args.no_create,
    };
    (stamp, options)
}

/// The plan of a dry run: nothing in it says that anything was written.
pub fn planned<'a>(target: &'a Target, options: &'a Options) -> (p: Plan<'a, Options>)
    ensures
        p.command@ == VERB@,
        p.target == target,
        p.dry_run,
        p.filters is None,
        p.options == options,
        p.status@ == REMOVAL_STATUS_PLANNED@,
{
    Plan::new(VERB, target, true, None, options)
}

/// The plan of a run that was carried out, with what it did as its status.
pub fn done<'a>(target: &'a Target, options: &'a Options, outcome: Outcome) -> (p: Plan<
    'a,
    Options,
>)
    ensures
        p.command@ == VERB@,
        p.target == target,
        !p.dry_run,
        p.filters is None,
        p.options == options,
        p.status@ == outcome.word(),
{
    Plan { command: VERB, target, dry_run: false, filters: None, options, status: outcome.slug() }
}

/// What is said at the end.
pub fn closing(target: &Target, outcome: Outcome) -> (n: Notice)
    ensures
        n.is(Level::Success, outcome.word() + ": "@ + target.text()),
{
    let shown = target.to_text();
    Notice::new(Level::Success, text::cat3(outcome.slug(), ": ", shown.as_str()))
}

/// The options of a touch are shown with what they are: the object, its place, the time and where
/// the time is from, and whether a missing object is created.
pub proof fn the_options_are_shown_as_they_are(o: Options)
    ensures
        o.described().len() == 5,
        o.described()[0].1 == o.object@,
        o.described()[1].1 == o.backend@,
        o.described()[2].1 == o.timestamp@,
        o.described()[3].1 == o.timestamp_source@,
        o.create_if_missing ==> o.described()[4].1 == REMOVAL_BOOL_YES@,
        !o.create_if_missing ==> o.described()[4].1 == REMOVAL_BOOL_NO@,
{
}

/// Flags that allow nothing at all are a mistake in the request.
pub proof fn flags_that_allow_nothing_are_a_mistake(e: CliError)
    requires
        is_idle_refusal(e),
    ensures
        e.code == ExitCode::Usage,
        e.message@
            == "--no-create and --immutable together allow neither creating nor modifying anything"@,
        e.hint is Some,
{
}

} // verus!
