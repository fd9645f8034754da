//! `size`: how many objects there are, and how many bytes.
use vstd::prelude::*;

use crate::error::{CliError, ExitCode, Result};
use crate::globals::Globals;
use crate::listing::{is_unusable, unusable, Filter};
use crate::output;
use crate::output::{grouped, notice_views, size_text, Level, Notice, Units};
use crate::remote::{naming, Naming, RemoteSpec};
use crate::removal::flow::filters_by;
use crate::source::Sizes;
use crate::stats;
use crate::stats::{bumped, capped_sum};
use crate::text;
use crate::text::{digits, view_option, views};

verus! {

pub const SIZE_REPORT_LABEL_OBJECTS: &'static str = "Total objects:";

pub const SIZE_REPORT_LABEL_BYTES: &'static str = "Total size";

pub const SIZE_REPORT_LABEL_UNMEASURED: &'static str = "Unmeasured objects:";

pub const SIZE_REPORT_LOWER_BOUND: &'static str = "at least";

pub const SIZE_REPORT_EXACT_UNIT: &'static str = "bytes";

pub const SIZE_PLAINTEXT_NOTE: &'static str = "These are plaintext lengths; the provider stores and bills the larger sealed objects. Measure the store remote to see that figure.";

pub const SIZE_UNMEASURED_NOTE: &'static str = "Some objects have no recorded size, so the total is only a lower bound.";

/// The arguments of `dctl size`.
#[derive(Debug)]
pub struct SizeArgs {
    /// What to measure, as REMOTE:PATH.
    pub path: Option<String>,
}

/// What is measured: what the arguments name, or else the remote that stands for it.
pub open spec fn scope(path: Option<Seq<char>>, remote: Option<Seq<char>>) -> Option<Seq<char>> {
    match path {
        Some(p) => Some(p),
        None => remote,
    }
}

/// Checks the arguments before anything is opened: what is to be measured, then the filters.
pub fn prepare(args: &SizeArgs, remote: &Option<String>, globals: &Globals) -> (r: Result<
    (RemoteSpec, Filter),
>)
    ensures
        ({
            let named = scope(view_option(args.path), view_option(*remote));
            match r {
                Ok((target, filter)) => {
                    &&& named is Some
                    &&& match target {
                        RemoteSpec::Named { remote, path } => naming(named->0) == (Naming::Remote {
                            remote: remote@,
                            path: path@,
                        }),
                        RemoteSpec::Local(path) => naming(named->0) == Naming::Path(path@),
                    }
                    &&& unusable(*globals) is None
                    &&& filters_by(filter, *globals)
                },
                Err(e) => if named is None {
                    e.is(
                        ExitCode::Usage,
                        "nothing to measure was named"@,
                        Some("Write REMOTE:PATH, or pass --remote."@),
                    )
                } else if naming(named->0) is Nothing {
                    e.is(
                        ExitCode::Usage,
                        "'"@ + named->0 + "' names neither a remote nor a path"@,
                        Some("Write REMOTE:PATH, or a local path."@),
                    )
                } else {
                    unusable(*globals) matches Some(why) && is_unusable(e, *globals, why)
                },
            }
        }),
{
    let named: &str = match (&args.path, remote) {
        (Some(p), _) => p.as_str(),
        (None, Some(r)) => r.as_str(),
        (None, None) => {
            return Err(
                CliError::advice(
                    "nothing to measure was named",
                    "Write REMOTE:PATH, or pass --remote.",
                ),
            );
        },
    };
    let target = match RemoteSpec::parse(named) {
        Ok(t) => t,
        Err(e) => {
            return Err(e);
        },
    };
    match Filter::from_globals(globals) {
        Ok(filter) => Ok((target, filter)),
        Err(e) => Err(e),
    }
}

/// The totals over a scope.
#[derive(Clone, Copy, Debug, PartialEq, Eq, Structural)]
pub struct Totals {
    /// The objects in scope.
    pub count: u64,
    /// The bytes in scope; absent as soon as one object has no recorded size.
    pub bytes: Option<u64>,
    /// The bytes of the objects that have a recorded size.
    pub measured_bytes: u64,
    /// The objects that have none.
    pub unmeasured: u64,
    /// Which bytes were counted.
    pub sizes: Sizes,
}

impl Totals {
    /// The totals over nothing at all: a known zero.
    pub open spec fn nothing(sizes: Sizes) -> Totals {
        Totals { count: 0, bytes: Some(0), measured_bytes: 0, unmeasured: 0, sizes }
    }

    pub fn new(sizes: Sizes) -> (t: Totals)
        ensures
            t == Totals::nothing(sizes),
    {
        Totals { count: 0, bytes: Some(0), measured_bytes: 0, unmeasured: 0, sizes }
    }

    /// The totals with one more object. One without a recorded size makes the total unknown,
    /// and nothing makes it known again.
    pub open spec fn with(self, size: Option<u64>) -> Totals {
        match size {
            Some(n) => Totals {
                count: bumped(self.count),
                bytes: match self.bytes {
                    Some(total) => Some(capped_sum(total, n)),
                    None => None,
                },
                measured_bytes: capped_sum(self.measured_bytes, n),
                ..self
            },
            None => Totals {
                count: bumped(self.count),
                bytes: None,
                unmeasured: bumped(self.unmeasured),
                ..self
            },
        }
    }

    /// The totals over a sequence of objects.
    pub open spec fn over(sizes: Sizes, objects: Seq<Option<u64>>) -> Totals
        decreases objects.len(),
    {
        if objects.len() == 0 {
            Totals::nothing(sizes)
        } else {
            Totals::over(sizes, objects.drop_last()).with(objects.last())
        }
    }

    /// Takes one more object into account.
    pub fn add(&mut self, size: Option<u64>)
        ensures
            *final(self) == old(self).with(size),
    {
        self.count = stats::bump(self.count);
        match size {
            Some(n) => {
                self.measured_bytes = self.measured_bytes.saturating_add(n);
                self.bytes = match self.bytes {
                    Some(total) => Some(total.saturating_add(n)),
                    None => None,
                };
            },
            None => {
                self.unmeasured = stats::bump(self.unmeasured);
                self.bytes = None;
            },
        }
    }
}

/// The sum of the recorded sizes.
pub open spec fn recorded(objects: Seq<Option<u64>>) -> nat
    decreases objects.len(),
{
    if objects.len() == 0 {
        0
    } else {
        recorded(objects.drop_last()) + (match objects.last() {
            Some(n) => n as nat,
            None => 0,
        })
    }
}

/// How many objects have no recorded size.
pub open spec fn missing(objects: Seq<Option<u64>>) -> nat
    decreases objects.len(),
{
    if objects.len() == 0 {
        0
    } else {
        missing(objects.drop_last()) + (if objects.last() is None {
            1nat
        } else {
            0
        })
    }
}

/// `n`, or the largest number that a counter holds.
pub open spec fn capped(n: nat) -> u64 {
    if n > u64::MAX {
        u64::MAX
    } else {
        n as u64
    }
}

/// What the totals say of any sequence of objects: how many there are, what the recorded sizes
/// add up to, and how many have none. The total is known exactly when every size is recorded,
/// and is then the sum.
pub proof fn totals_are_sums(sizes: Sizes, objects: Seq<Option<u64>>)
    ensures
        Totals::over(sizes, objects) == (Totals {
            count: capped(objects.len()),
            bytes: if missing(objects) == 0 {
                Some(capped(recorded(objects)))
            } else {
                None
            },
            measured_bytes: capped(recorded(objects)),
            unmeasured: capped(missing(objects)),
            sizes,
        }),
        missing(objects) == 0 <==> (forall|i: int|
            0 <= i < objects.len() ==> (#[trigger] objects[i]) is Some),
    decreases objects.len(),
{
    if objects.len() > 0 {
        let before = objects.drop_last();
        totals_are_sums(sizes, before);
        assert forall|i: int| 0 <= i < before.len() implies before[i] == objects[i] by {}
        if missing(objects) == 0 {
            assert forall|i: int| 0 <= i < objects.len() implies (#[trigger] objects[i]) is Some by {
                if i < before.len() {
                    assert(before[i] is Some);
                }
            }
        } else if objects.last() is None {
            assert(objects[objects.len() - 1] is None);
        } else {
            let i = choose|i: int| 0 <= i < before.len() && before[i] is None;
            assert(objects[i] is None);
        }
    }
}

/// The line that carries the bytes: the rounded figure for a person and the exact one for
/// arithmetic, with the sort of bytes and the bound on the line itself.
pub open spec fn bytes_line(totals: Totals, units: Units) -> Seq<char> {
    SIZE_REPORT_LABEL_BYTES@ + " ("@ + totals.sizes.word() + "): "@ + (if totals.bytes is Some {
        Seq::empty()
    } else {
        SIZE_REPORT_LOWER_BOUND@ + " "@
    }) + size_text(totals.measured_bytes as nat, units) + " ("@ + digits(
        totals.measured_bytes as nat,
    ) + " "@ + SIZE_REPORT_EXACT_UNIT@ + ")"@
}

/// The lines of the report. The last one is there only where some object has no recorded size.
pub open spec fn report_lines(totals: Totals, units: Units) -> Seq<Seq<char>> {
    let lines = seq![
        SIZE_REPORT_LABEL_OBJECTS@ + " "@ + grouped(totals.count as nat),
        bytes_line(totals, units),
    ];
    if totals.unmeasured > 0 {
        lines.push(SIZE_REPORT_LABEL_UNMEASURED@ + " "@ + grouped(totals.unmeasured as nat))
    } else {
        lines
    }
}

fn bytes_row(totals: &Totals, units: Units) -> (s: String)
    ensures
        s@ == bytes_line(*totals, units),
{
    let label = text::cat4(SIZE_REPORT_LABEL_BYTES, " (", totals.sizes.label(), "): ");
    let bound = match totals.bytes {
        Some(_) => String::new(),
        None => text::cat2(SIZE_REPORT_LOWER_BOUND, " "),
    };
    let shown = output::bytes(totals.measured_bytes, units);
    let exact = text::decimal(totals.measured_bytes);
    let figure = text::cat5(" (", exact.as_str(), " ", SIZE_REPORT_EXACT_UNIT, ")");
    let line = text::cat4(label.as_str(), bound.as_str(), shown.as_str(), figure.as_str());
    proof {
        assert(line@ =~= bytes_line(*totals, units));
    }
    line
}

/// The lines of the report in text.
pub fn report(totals: &Totals, units: Units) -> (lines: Vec<String>)
    ensures
        views(lines@) == report_lines(*totals, units),
{
    let mut lines: Vec<String> = Vec::new();
    let objects = output::count(totals.count);
    lines.push(text::cat3(SIZE_REPORT_LABEL_OBJECTS, " ", objects.as_str()));
    lines.push(bytes_row(totals, units));
    if totals.unmeasured > 0 {
        let unmeasured = output::count(totals.unmeasured);
        lines.push(text::cat3(SIZE_REPORT_LABEL_UNMEASURED, " ", unmeasured.as_str()));
    }
    proof {
        assert(views(lines@) =~= report_lines(*totals, units));
    }
    lines
}

/// What is said beside the report, in every format.
pub open spec fn remarks(totals: Totals) -> Seq<(Level, Seq<char>)> {
    (if totals.sizes == Sizes::Plaintext {
        seq![(Level::Info, SIZE_PLAINTEXT_NOTE@)]
    } else {
        Seq::empty()
    }) + (if totals.unmeasured > 0 {
        seq![(Level::Warn, SIZE_UNMEASURED_NOTE@)]
    } else {
        Seq::empty()
    })
}

pub fn notices(totals: &Totals) -> (r: Vec<Notice>)
    ensures
        notice_views(r@) == remarks(*totals),
{
    let mut r: Vec<Notice> = Vec::new();
    if totals.sizes.understates_stored_bytes() {
        r.push(Notice::new(Level::Info, SIZE_PLAINTEXT_NOTE.to_owned()));
    }
    if totals.unmeasured > 0 {
        r.push(Notice::new(Level::Warn, SIZE_UNMEASURED_NOTE.to_owned()));
    }
    proof {
        assert(notice_views(r@) =~= remarks(*totals));
    }
    r
}

/// An argument goes before the remote that was set beforehand.
pub proof fn an_argument_goes_first(path: Option<Seq<char>>, remote: Option<Seq<char>>)
    ensures
        path is Some ==> scope(path, remote) == path,
        path is None ==> scope(path, remote) == remote,
{
}

/// One more object is counted in any case. Its size is added where it is recorded; where it is
/// not, the total is unknown from there on.
pub proof fn one_unrecorded_size_makes_the_total_unknown(t: Totals, n: u64)
    ensures
        t.count < u64::MAX ==> t.with(Some(n)).count == t.count + 1 && t.with(None).count == t.count
            + 1,
        t.with(None).bytes is None,
        t.bytes is None ==> t.with(Some(n)).bytes is None,
        t.bytes is Some && t.bytes->0 + n <= u64::MAX ==> t.with(Some(n)).bytes == Some(
            (t.bytes->0 + n) as u64,
        ),
        t.measured_bytes + n <= u64::MAX ==> t.with(Some(n)).measured_bytes == t.measured_bytes + n,
        t.with(None).measured_bytes == t.measured_bytes,
        t.unmeasured < u64::MAX ==> t.with(None).unmeasured == t.unmeasured + 1,
        t.with(Some(n)).unmeasured == t.unmeasured,
        t.with(Some(n)).sizes == t.sizes && t.with(None).sizes == t.sizes,
{
}

/// The number of objects without a recorded size has a line of its own exactly where there are
/// any, and is warned of there too; and plaintext sizes are always said to be that.
pub proof fn what_a_total_leaves_out_is_said(totals: Totals, units: Units)
    ensures
        report_lines(totals, units).len() == (if totals.unmeasured > 0 {
            3int
        } else {
            2
        }),
        ({
            let said = remarks(totals);
            &&& said.len() == (if totals.sizes == Sizes::Plaintext {
                1int
            } else {
                0
            }) + (if totals.unmeasured > 0 {
                1int
            } else {
                0
            })
            &&& totals.unmeasured > 0 ==> said.last().0 == Level::Warn
            &&& totals.sizes == Sizes::Plaintext ==> said[0].0 == Level::Info
        }),
{
}

/// The figure of bytes is said to be a lower bound exactly where the total is not known, and is
/// given both with its unit and exactly.
pub proof fn a_lower_bound_is_called_one(totals: Totals, units: Units)
    ensures
        ({
            let head = SIZE_REPORT_LABEL_BYTES@ + " ("@ + totals.sizes.word() + "): "@;
            let figure = size_text(totals.measured_bytes as nat, units) + " ("@ + digits(
                totals.measured_bytes as nat,
            ) + " "@ + SIZE_REPORT_EXACT_UNIT@ + ")"@;
            &&& totals.bytes is Some ==> bytes_line(totals, units) == head + figure
            &&& totals.bytes is None ==> bytes_line(totals, units) == head
                + SIZE_REPORT_LOWER_BOUND@ + " "@ + figure
        }),
{
    let head = SIZE_REPORT_LABEL_BYTES@ + " ("@ + totals.sizes.word() + "): "@;
    let figure = size_text(totals.measured_bytes as nat, units) + " ("@ + digits(
        totals.measured_bytes as nat,
    ) + " "@ + SIZE_REPORT_EXACT_UNIT@ + ")"@;
    if totals.bytes is Some {
        assert(bytes_line(totals, units) =~= head + figure);
    } else {
        assert(bytes_line(totals, units) =~= head + SIZE_REPORT_LOWER_BOUND@ + " "@ + figure);
    }
}

} // verus!
