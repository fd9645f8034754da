//! What a removal was asked to do, said before it does anything.
use vstd::prelude::*;

use crate::constants::{
    REMOVAL_BOOL_NO, REMOVAL_BOOL_YES, REMOVAL_LABEL_COMMAND, REMOVAL_LABEL_MODE,
    REMOVAL_LABEL_TARGET, REMOVAL_MODE_DRY_RUN, REMOVAL_MODE_EXECUTE, REMOVAL_STATUS_PLANNED,
};
use crate::output::{Format, Units};
use crate::removal::filters::Filters;
use crate::removal::target::Target;

verus! {

/// A label and what stands beside it.
pub type Row = (&'static str, String);

/// The views of rows.
pub open spec fn row_views(rows: Seq<Row>) -> Seq<(Seq<char>, Seq<char>)> {
    rows.map_values(|r: Row| (r.0@, r.1@))
}

/// The options that one command has of its own.
pub trait PlanOptions: Sized {
    /// The rows that describe the options.
    spec fn described(self) -> Seq<(Seq<char>, Seq<char>)>;

    fn rows(&self) -> (r: Vec<Row>)
        ensures
            row_views(r@) == self.described(),
    ;
}

/// The options of a command that has none.
#[derive(Debug)]
pub struct NoOptions {}

impl PlanOptions for NoOptions {
    open spec fn described(self) -> Seq<(Seq<char>, Seq<char>)> {
        Seq::empty()
    }

    fn rows(&self) -> (r: Vec<Row>) {
        let r: Vec<Row> = Vec::new();
        proof {
            assert(row_views(r@) =~= Seq::empty());
        }
        r
    }
}

/// A removal as it was requested.
#[derive(Debug)]
pub struct Plan<'a, O: PlanOptions> {
    pub command: &'static str,
    pub target: &'a Target,
    pub dry_run: bool,
    pub filters: Option<&'a Filters>,
    pub options: &'a O,
    pub status: &'static str,
}

/// How a plan is shown: as a table of its rows, or as the one document that it is.
#[derive(Debug)]
pub enum Emission {
    Table(Vec<Row>),
    Document,
}

impl<'a, O: PlanOptions> Plan<'a, O> {
    pub fn new(
        command: &'static str,
        target: &'a Target,
        dry_run: bool,
        filters: Option<&'a Filters>,
        options: &'a O,
    ) -> (p: Plan<'a, O>)
        ensures
            p.command@ == command@,
            p.target == target,
            p.dry_run == dry_run,
            p.filters == filters,
            p.options == options,
            p.status@ == REMOVAL_STATUS_PLANNED@,
    {
        Plan { command, target, dry_run, filters, options, status: REMOVAL_STATUS_PLANNED }
    }

    /// The rows of the plan: the command, the target and the mode, then the filters, then the
    /// command's own options.
    pub open spec fn described(self, units: Units) -> Seq<(Seq<char>, Seq<char>)> {
        seq![
            (REMOVAL_LABEL_COMMAND@, self.command@),
            (REMOVAL_LABEL_TARGET@, self.target.text()),
            (
                REMOVAL_LABEL_MODE@,
                if self.dry_run {
                    REMOVAL_MODE_DRY_RUN@
                } else {
                    REMOVAL_MODE_EXECUTE@
                },
            ),
        ] + (match self.filters {
            Some(f) => f.described(units),
            None => Seq::empty(),
        }) + self.options.described()
    }

    pub fn rows(&self, units: Units) -> (r: Vec<Row>)
        ensures
            row_views(r@) == self.described(units),
    {
        let mut rows: Vec<Row> = Vec::new();
        rows.push((REMOVAL_LABEL_COMMAND, self.command.to_owned()));
        rows.push((REMOVAL_LABEL_TARGET, self.target.to_text()));
        let mode = if self.dry_run {
            REMOVAL_MODE_DRY_RUN
        } else {
            REMOVAL_MODE_EXECUTE
        };
        rows.push((REMOVAL_LABEL_MODE, mode.to_owned()));
        let ghost first = row_views(rows@);
        let mut second: Vec<Row> = match self.filters {
            Some(f) => f.rows(units),
            None => Vec::new(),
        };
        let mut third = self.options.rows();
        let ghost b = row_views(second@);
        let ghost c = row_views(third@);
        rows.append(&mut second);
        rows.append(&mut third);
        proof {
            assert(row_views(rows@) =~= first + b + c);
            assert(row_views(rows@) =~= self.described(units));
        }
        rows
    }
}

/// How a plan is shown in a format: in text as a table, otherwise as a document.
pub fn emit<O: PlanOptions>(format: Format, units: Units, plan: &Plan<'_, O>) -> (e: Emission)
    ensures
        match e {
            Emission::Table(rows) => format == Format::Text && row_views(rows@) == plan.described(
                units,
            ),
            Emission::Document => format != Format::Text,
        },
{
    match format {
        Format::Text => Emission::Table(plan.rows(units)),
        Format::Json | Format::JsonLines => Emission::Document,
    }
}

/// The word for a flag's value.
pub fn yes_no(value: bool) -> (r: String)
    ensures
        r@ == (if value {
            REMOVAL_BOOL_YES@
        } else {
            REMOVAL_BOOL_NO@
        }),
{
    if value {
        REMOVAL_BOOL_YES.to_owned()
    } else {
        REMOVAL_BOOL_NO.to_owned()
    }
}

/// A plan says first which command it is for, what it is pointed at, and whether anything will
/// change; then the filters, and last the command's own options.
pub proof fn a_plan_says_first_what_it_is<'a, O: PlanOptions>(plan: Plan<'a, O>, units: Units)
    ensures
        ({
            let rows = plan.described(units);
            let own = plan.options.described();
            &&& rows.len() == 3 + own.len() + (match plan.filters {
                Some(f) => f.described(units).len(),
                None => 0,
            })
            &&& rows[0] == (REMOVAL_LABEL_COMMAND@, plan.command@)
            &&& rows[1] == (REMOVAL_LABEL_TARGET@, plan.target.remote@ + ":"@ + plan.target.path@)
            &&& plan.dry_run ==> rows[2] == (REMOVAL_LABEL_MODE@, REMOVAL_MODE_DRY_RUN@)
            &&& !plan.dry_run ==> rows[2] == (REMOVAL_LABEL_MODE@, REMOVAL_MODE_EXECUTE@)
            &&& rows.skip(rows.len() - own.len()) == own
        }),
{
    let rows = plan.described(units);
    let own = plan.options.described();
    assert(rows.skip(rows.len() - own.len()) =~= own);
}

/// The views of rows are the rows, one for one and in order.
pub proof fn rows_are_viewed_one_by_one(rows: Seq<Row>, i: int)
    ensures
        row_views(rows).len() == rows.len(),
        0 <= i < rows.len() ==> row_views(rows)[i].0 == rows[i].0@ && row_views(rows)[i].1
            == rows[i].1@,
{
}

} // verus!
