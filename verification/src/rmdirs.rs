//! `rmdirs`: removing every empty directory below a path.
use vstd::prelude::*;

use crate::constants::{REMOVAL_BOOL_NO, REMOVAL_BOOL_YES, REMOVAL_LABEL_LEAVE_ROOT};
use crate::error::Result;
use crate::removal::flow::Removal;
use crate::removal::operation::Operation;
use crate::removal::plan;
use crate::removal::plan::{row_views, PlanOptions, Row};
use crate::removal::target::{is_refusal, meaning, Meaning, Target};

verus! {

pub const COMMAND: &'static str = "rmdirs";

pub const REMOVAL_ACTION_REMOVE_EMPTY_DIRS: &'static str = "remove every empty directory under";

/// The arguments of `dctl rmdirs`.
#[derive(Debug)]
pub struct RmdirsArgs {
    /// The path to sweep, as REMOTE:PATH.
    pub path: String,
    /// Whether the path itself is kept even where the sweep empties it.
    pub leave_root: bool,
}

/// The part of the plan that is `rmdirs`' own.
#[derive(Debug)]
pub struct RmdirsOptions {
    pub leave_root: bool,
}

impl PlanOptions for RmdirsOptions {
    open spec fn described(self) -> Seq<(Seq<char>, Seq<char>)> {
        seq![
            (
                REMOVAL_LABEL_LEAVE_ROOT@,
                if self.leave_root {
                    REMOVAL_BOOL_YES@
                } else {
                    REMOVAL_BOOL_NO@
                },
            ),
        ]
    }

    fn rows(&self) -> (r: Vec<Row>) {
        let mut rows: Vec<Row> = Vec::new();
        rows.push((REMOVAL_LABEL_LEAVE_ROOT, plan::yes_no(self.leave_root)));
        proof {
            assert(row_views(rows@) =~= self.described());
        }
        rows
    }
}

/// The removal that was asked for. A whole remote may be swept, since nothing that holds an
/// object is touched.
pub fn removal(args: &RmdirsArgs) -> (r: Result<Removal<RmdirsOptions>>)
    ensures
        match r {
            Ok(m) => {
                &&& meaning(args.path@) == (Meaning::Named {
                    remote: m.target.remote@,
                    path: m.target.path@,
                })
                &&& m.command@ == COMMAND@
                &&& m.action@ == REMOVAL_ACTION_REMOVE_EMPTY_DIRS@
                &&& m.filters is None
                &&& m.options.leave_root == args.leave_root
                &&& m.operation == (Operation::Rmdirs { leave_root: args.leave_root })
            },
            Err(e) => is_refusal(e, args.path@, meaning(args.path@)),
        },
{
    let target = match Target::parse(args.path.as_str()) {
        Ok(t) => t,
        Err(e) => {
            return Err(e);
        },
    };
    Ok(
        Removal {
            command: COMMAND,
            action: REMOVAL_ACTION_REMOVE_EMPTY_DIRS,
            target,
            filters: None,
            options: RmdirsOptions { leave_root: args.leave_root },
            operation: Operation::Rmdirs { leave_root: args.leave_root },
        },
    )
}

/// Whether the path itself is kept is shown as it was asked for.
pub proof fn keeping_the_root_is_shown(o: RmdirsOptions)
    ensures
        o.described().len() == 1,
        o.leave_root ==> o.described()[0].1 == REMOVAL_BOOL_YES@,
        !o.leave_root ==> o.described()[0].1 == REMOVAL_BOOL_NO@,
{
}

} // verus!
