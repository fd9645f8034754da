//! The filter flags of a removal, resolved before anything is asked or removed.
use vstd::prelude::*;
use vstd::string::StringExecFns;

use crate::constants::{
    MAX_DEPTH_UNLIMITED, REMOVAL_LABEL_EXCLUDE, REMOVAL_LABEL_FILES_FROM,
    REMOVAL_LABEL_FILTER_FROM, REMOVAL_LABEL_INCLUDE, REMOVAL_LABEL_MAX_DEPTH,
    REMOVAL_LABEL_MAX_SIZE, REMOVAL_LABEL_MIN_SIZE, REMOVAL_LIST_SEPARATOR, SIZE_HINT,
};
use crate::error::{CliError, ExitCode, Result};
use crate::globals::Globals;
use crate::output;
use crate::output::{size_of_text, size_text, Units};
use crate::removal::plan::{row_views, Row};
use crate::text;
use crate::text::{digits, signed_digits, views};

verus! {

/// The narrowing that was asked for. What was not asked for is empty or absent.
#[derive(Debug)]
pub struct Filters {
    pub included: Vec<String>,
    pub excluded: Vec<String>,
    pub filter_from: Vec<String>,
    pub files_from: Vec<String>,
    pub min_size: Option<u64>,
    pub max_size: Option<u64>,
    pub max_depth: Option<i32>,
}

/// Why the flags are refused, in the order in which they are looked at.
pub enum Fault {
    MinSize,
    MaxSize,
    Crossed,
    Depth,
}

/// Whether a size flag, if it was given, spells a size.
pub open spec fn bound_reads(raw: Option<String>) -> bool {
    raw matches Some(s) ==> size_of_text(s@) is Some
}

/// The bound that a size flag sets.
pub open spec fn bound_value(raw: Option<String>) -> Option<u64> {
    match raw {
        Some(s) => size_of_text(s@),
        None => None,
    }
}

/// What is wrong with the flags, if anything is.
pub open spec fn fault(globals: Globals) -> Option<Fault> {
    let min = bound_value(globals.min_size);
    let max = bound_value(globals.max_size);
    if !bound_reads(globals.min_size) {
        Some(Fault::MinSize)
    } else if !bound_reads(globals.max_size) {
        Some(Fault::MaxSize)
    } else if min is Some && max is Some && min->0 > max->0 {
        Some(Fault::Crossed)
    } else if globals.max_depth < MAX_DEPTH_UNLIMITED {
        Some(Fault::Depth)
    } else {
        None
    }
}

/// Whether `e` is the refusal of a size flag.
pub open spec fn is_size_refusal(e: CliError, label: Seq<char>, raw: Option<String>) -> bool {
    raw is Some && e.is(
        ExitCode::Usage,
        label + ": "@ + ("'"@ + raw->0@ + "' is not a valid size"@),
        Some(SIZE_HINT@),
    )
}

/// Whether `e` is the refusal of the flags for that fault.
pub open spec fn is_fault(e: CliError, globals: Globals, fault: Fault) -> bool {
    match fault {
        Fault::MinSize => is_size_refusal(e, REMOVAL_LABEL_MIN_SIZE@, globals.min_size),
        Fault::MaxSize => is_size_refusal(e, REMOVAL_LABEL_MAX_SIZE@, globals.max_size),
        Fault::Crossed => e.is(
            ExitCode::Usage,
            "--min-size ("@ + digits(bound_value(globals.min_size)->0 as nat)
                + ") is larger than --max-size ("@ + digits(
                bound_value(globals.max_size)->0 as nat,
            ) + ")"@,
            Some(
                "No object can satisfy both bounds, so the command would remove nothing. Swap them, or drop one."@,
            ),
        ),
        Fault::Depth => e.is(
            ExitCode::Usage,
            "--max-depth "@ + signed_digits(globals.max_depth as int) + " is not a depth"@,
            Some("Use a depth of 0 or more, or -1 for no limit."@),
        ),
    }
}

/// The values with a separator between them.
pub open spec fn listed(values: Seq<Seq<char>>) -> Seq<char>
    decreases values.len(),
{
    if values.len() == 0 {
        Seq::empty()
    } else if values.len() == 1 {
        values[0]
    } else {
        listed(values.drop_last()) + REMOVAL_LIST_SEPARATOR@ + values.last()
    }
}

/// The row for a list flag: none where the list is empty.
pub open spec fn list_row(label: Seq<char>, values: Seq<Seq<char>>) -> Seq<(Seq<char>, Seq<char>)> {
    if values.len() == 0 {
        Seq::empty()
    } else {
        seq![(label, listed(values))]
    }
}

/// The row for a size bound: none where there is no bound.
pub open spec fn size_row(label: Seq<char>, bound: Option<u64>, units: Units) -> Seq<
    (Seq<char>, Seq<char>),
> {
    match bound {
        Some(n) => seq![(label, size_text(n as nat, units))],
        None => Seq::empty(),
    }
}

impl Filters {
    /// Whether these are the filters that valid flags ask for.
    pub open spec fn follows(self, globals: Globals) -> bool {
        &&& views(self.included@) == views(globals.included@)
        &&& views(self.excluded@) == views(globals.excluded@)
        &&& views(self.filter_from@) == views(globals.filter_from@)
        &&& views(self.files_from@) == views(globals.files_from@)
        &&& self.min_size == bound_value(globals.min_size)
        &&& self.max_size == bound_value(globals.max_size)
        &&& self.max_depth == (if globals.max_depth == MAX_DEPTH_UNLIMITED {
            None
        } else {
            Some(globals.max_depth)
        })
    }

    /// The rows that describe the filters, one for each flag that was given.
    pub open spec fn described(self, units: Units) -> Seq<(Seq<char>, Seq<char>)> {
        list_row(REMOVAL_LABEL_INCLUDE@, views(self.included@)) + list_row(
            REMOVAL_LABEL_EXCLUDE@,
            views(self.excluded@),
        ) + list_row(REMOVAL_LABEL_FILTER_FROM@, views(self.filter_from@)) + list_row(
            REMOVAL_LABEL_FILES_FROM@,
            views(self.files_from@),
        ) + size_row(REMOVAL_LABEL_MIN_SIZE@, self.min_size, units) + size_row(
            REMOVAL_LABEL_MAX_SIZE@,
            self.max_size,
            units,
        ) + (match self.max_depth {
            Some(d) => seq![(REMOVAL_LABEL_MAX_DEPTH@, signed_digits(d as int))],
            None => Seq::empty(),
        })
    }

    /// Reads the filter flags, and refuses those that no object could satisfy.
    pub fn resolve(globals: &Globals) -> (r: Result<Filters>)
        ensures
            match r {
                Ok(f) => fault(*globals) is None && f.follows(*globals),
                Err(e) => fault(*globals) matches Some(why) && is_fault(e, *globals, why),
            },
    {
        let min_size = match parse_bound(&globals.min_size, REMOVAL_LABEL_MIN_SIZE) {
            Ok(b) => b,
            Err(e) => {
                return Err(e);
            },
        };
        let max_size = match parse_bound(&globals.max_size, REMOVAL_LABEL_MAX_SIZE) {
            Ok(b) => b,
            Err(e) => {
                return Err(e);
            },
        };
        if let (Some(min), Some(max)) = (min_size, max_size) {
            if min > max {
                let low = text::decimal(min);
                let high = text::decimal(max);
                return Err(
                    CliError::usage(
                        text::cat5(
                            "--min-size (",
                            low.as_str(),
                            ") is larger than --max-size (",
                            high.as_str(),
                            ")",
                        ),
                    ).with_hint(
                        "No object can satisfy both bounds, so the command would remove nothing. Swap them, or drop one.".to_owned(),
                    ),
                );
            }
        }
        if globals.max_depth < MAX_DEPTH_UNLIMITED {
            let depth = text::signed_decimal(globals.max_depth as i64);
            return Err(
                CliError::usage(
                    text::cat3("--max-depth ", depth.as_str(), " is not a depth"),
                ).with_hint("Use a depth of 0 or more, or -1 for no limit.".to_owned()),
            );
        }
        let max_depth: Option<i32> = if globals.max_depth == MAX_DEPTH_UNLIMITED {
            None
        } else {
            Some(globals.max_depth)
        };
        Ok(
            Filters {
                included: text::copied(&globals.included),
                excluded: text::copied(&globals.excluded),
                filter_from: text::copied(&globals.filter_from),
                files_from: text::copied(&globals.files_from),
                min_size,
                max_size,
                max_depth,
            },
        )
    }

    /// The rows that describe the filters, with sizes in the given units.
    pub fn rows(&self, units: Units) -> (r: Vec<Row>)
        ensures
            row_views(r@) == self.described(units),
    {
        let mut rows: Vec<Row> = Vec::new();
        push_list(&mut rows, REMOVAL_LABEL_INCLUDE, &self.included);
        push_list(&mut rows, REMOVAL_LABEL_EXCLUDE, &self.excluded);
        push_list(&mut rows, REMOVAL_LABEL_FILTER_FROM, &self.filter_from);
        push_list(&mut rows, REMOVAL_LABEL_FILES_FROM, &self.files_from);
        push_size(&mut rows, REMOVAL_LABEL_MIN_SIZE, self.min_size, units);
        push_size(&mut rows, REMOVAL_LABEL_MAX_SIZE, self.max_size, units);
        let ghost before = row_views(rows@);
        if let Some(depth) = self.max_depth {
            rows.push((REMOVAL_LABEL_MAX_DEPTH, text::signed_decimal(depth as i64)));
        }
        proof {
            assert(row_views(rows@) =~= self.described(units));
        }
        rows
    }
}

fn parse_bound(raw: &Option<String>, label: &str) -> (r: Result<Option<u64>>)
    ensures
        match r {
            Ok(b) => bound_reads(*raw) && b == bound_value(*raw),
            Err(e) => !bound_reads(*raw) && is_size_refusal(e, label@, *raw),
        },
{
    match raw {
        None => Ok(None),
        Some(s) => match output::parse_size(s.as_str()) {
            Ok(n) => Ok(Some(n)),
            Err(message) => Err(
                CliError::usage(text::cat3(label, ": ", message.as_str())).with_hint(
                    SIZE_HINT.to_owned(),
                ),
            ),
        },
    }
}

fn push_list(rows: &mut Vec<Row>, label: &'static str, values: &Vec<String>)
    ensures
        row_views(final(rows)@) == row_views(old(rows)@) + list_row(label@, views(values@)),
{
    let ghost before = row_views(rows@);
    if values.len() > 0 {
        let joined = join_list(values);
        rows.push((label, joined));
    }
    proof {
        assert(row_views(rows@) =~= before + list_row(label@, views(values@)));
    }
}

fn push_size(rows: &mut Vec<Row>, label: &'static str, bound: Option<u64>, units: Units)
    ensures
        row_views(final(rows)@) == row_views(old(rows)@) + size_row(label@, bound, units),
{
    let ghost before = row_views(rows@);
    if let Some(n) = bound {
        rows.push((label, output::bytes(n, units)));
    }
    proof {
        assert(row_views(rows@) =~= before + size_row(label@, bound, units));
    }
}

fn join_list(values: &Vec<String>) -> (r: String)
    ensures
        r@ == listed(views(values@)),
{
    let mut r = String::new();
    let mut i: usize = 0;
    let ghost all = views(values@);
    proof {
        assert(all.take(0) =~= Seq::empty());
    }
    while i < values.len()
        invariant
            i <= values.len(),
            all == views(values@),
            r@ == listed(all.take(i as int)),
        decreases values.len() - i,
    {
        proof {
            assert(all.take(i + 1).drop_last() =~= all.take(i as int));
            assert(all.take(i + 1).last() == values@[i as int]@);
        }
        if i == 0 {
            r = values[i].clone();
        } else {
            r.append(REMOVAL_LIST_SEPARATOR);
            r.append(values[i].as_str());
        }
        i = i + 1;
    }
    proof {
        assert(all.take(all.len() as int) =~= all);
    }
    r
}

/// Flags are accepted exactly where each size that was given reads as one, the smaller bound is
/// not above the larger, and the depth is a depth or no limit.
pub proof fn flags_have_to_make_sense(globals: Globals)
    ensures
        fault(globals) is None <==> (globals.min_size is Some ==> size_of_text(globals.min_size->0@)
            is Some) && (globals.max_size is Some ==> size_of_text(globals.max_size->0@) is Some)
            && (globals.min_size is Some && globals.max_size is Some ==> size_of_text(
            globals.min_size->0@,
        )->0 <= size_of_text(globals.max_size->0@)->0) && globals.max_depth >= -1,
        bound_value(None) is None,
        globals.min_size matches Some(s) ==> bound_value(globals.min_size) == size_of_text(s@),
{
}

/// Filters carry every flag over as it was given; only the depth that stands for no limit is left
/// out.
pub proof fn filters_carry_the_flags(f: Filters, globals: Globals)
    requires
        f.follows(globals),
    ensures
        globals.max_depth == -1 <==> f.max_depth is None,
        globals.max_depth != -1 ==> f.max_depth == Some(globals.max_depth),
        f.included@.len() == globals.included@.len(),
        f.excluded@.len() == globals.excluded@.len(),
        forall|i: int|
            0 <= i < f.included@.len() ==> (#[trigger] f.included@[i])@ == globals.included@[i]@,
        forall|i: int|
            0 <= i < f.excluded@.len() ==> (#[trigger] f.excluded@[i])@ == globals.excluded@[i]@,
        f.min_size == bound_value(globals.min_size),
        f.max_size == bound_value(globals.max_size),
{
    assert(views(f.included@).len() == views(globals.included@).len());
    assert(views(f.excluded@).len() == views(globals.excluded@).len());
    assert forall|i: int| 0 <= i < f.included@.len() implies (#[trigger] f.included@[i])@
        == globals.included@[i]@ by {
        assert(views(f.included@)[i] == views(globals.included@)[i]);
    }
    assert forall|i: int| 0 <= i < f.excluded@.len() implies (#[trigger] f.excluded@[i])@
        == globals.excluded@[i]@ by {
        assert(views(f.excluded@)[i] == views(globals.excluded@)[i]);
    }
}

/// A plan shows a row for each flag that was given, and none for one that was not.
pub proof fn every_given_flag_has_its_row(f: Filters, units: Units)
    ensures
        f.described(units).len() == (if f.included@.len() > 0 {
            1int
        } else {
            0
        }) + (if f.excluded@.len() > 0 {
            1int
        } else {
            0
        }) + (if f.filter_from@.len() > 0 {
            1int
        } else {
            0
        }) + (if f.files_from@.len() > 0 {
            1int
        } else {
            0
        }) + (if f.min_size is Some {
            1int
        } else {
            0
        }) + (if f.max_size is Some {
            1int
        } else {
            0
        }) + (if f.max_depth is Some {
            1int
        } else {
            0
        }),
{
}

/// The values of a list are written one after the other, with a separator between each two.
pub proof fn a_list_is_written_with_separators(values: Seq<Seq<char>>, v: Seq<char>)
    ensures
        listed(Seq::empty()) == Seq::<char>::empty(),
        listed(seq![v]) == v,
        values.len() > 0 ==> listed(values.push(v)) == listed(values) + REMOVAL_LIST_SEPARATOR@ + v,
{
    assert(values.push(v).drop_last() =~= values);
}

/// A fault is told with the flag that it is in.
pub proof fn a_fault_is_told_with_its_flag(e: CliError, globals: Globals, why: Fault)
    requires
        is_fault(e, globals, why),
    ensures
        e.code == ExitCode::Usage,
        why is MinSize ==> globals.min_size is Some && e.message@ == REMOVAL_LABEL_MIN_SIZE@ + ": "@
            + ("'"@ + globals.min_size->0@ + "' is not a valid size"@),
        why is MaxSize ==> globals.max_size is Some && e.message@ == REMOVAL_LABEL_MAX_SIZE@ + ": "@
            + ("'"@ + globals.max_size->0@ + "' is not a valid size"@),
        why is Depth ==> e.message@ == "--max-depth "@ + signed_digits(globals.max_depth as int)
            + " is not a depth"@,
{
}

/// The rule files are carried over as well, one for one and in order.
pub proof fn rule_files_are_carried_over(f: Filters, globals: Globals)
    requires
        f.follows(globals),
    ensures
        f.filter_from@.len() == globals.filter_from@.len(),
        f.files_from@.len() == globals.files_from@.len(),
        forall|i: int|
            0 <= i < f.filter_from@.len() ==> (#[trigger] f.filter_from@[i])@
                == globals.filter_from@[i]@,
        forall|i: int|
            0 <= i < f.files_from@.len() ==> (#[trigger] f.files_from@[i])@
                == globals.files_from@[i]@,
{
    assert(views(f.filter_from@).len() == views(globals.filter_from@).len());
    assert(views(f.files_from@).len() == views(globals.files_from@).len());
    assert forall|i: int| 0 <= i < f.filter_from@.len() implies (#[trigger] f.filter_from@[i])@
        == globals.filter_from@[i]@ by {
        assert(views(f.filter_from@)[i] == views(globals.filter_from@)[i]);
    }
    assert forall|i: int| 0 <= i < f.files_from@.len() implies (#[trigger] f.files_from@[i])@
        == globals.files_from@[i]@ by {
        assert(views(f.files_from@)[i] == views(globals.files_from@)[i]);
    }
}

} // verus!
