//! The order of a removal: the filter is built first, then consent is asked for, and only
//! then is the store opened.
use vstd::prelude::*;

use crate::error::Result;
use crate::globals::Globals;
use crate::listing::{idle_flags_take_everything, is_unusable, selects, unusable, Filter};
use crate::removal::engine;
use crate::removal::engine::is_declined;
use crate::removal::filters::{bound_value, Filters};
use crate::removal::operation::Operation;
use crate::removal::plan::PlanOptions;
use crate::removal::target::Target;
use crate::text::views;

verus! {

/// A removal, ready to be carried out.
#[derive(Debug)]
pub struct Removal<O: PlanOptions> {
    /// The verb that the user typed.
    pub command: &'static str,
    /// What the prompt calls it.
    pub action: &'static str,
    pub target: Target,
    /// The filters; absent for the verbs that take no notice of them.
    pub filters: Option<Filters>,
    pub options: O,
    pub operation: Operation,
}

/// Whether a filter selects what the flags ask for.
pub open spec fn filters_by(f: Filter, globals: Globals) -> bool {
    forall|p: Seq<char>, size: Option<u64>| #[trigger]
        f.admits(p, size) == selects(
            views(globals.included@),
            views(globals.excluded@),
            bound_value(globals.min_size),
            bound_value(globals.max_size),
            if globals.max_depth == -1 {
                None
            } else {
                Some(globals.max_depth)
            },
            p,
            size,
        )
}

impl<O: PlanOptions> Removal<O> {
    /// Builds the filter before anybody is asked for consent. A verb that takes no notice of
    /// filters gets one that admits everything, whatever the flags are.
    pub fn matcher(&self, globals: &Globals) -> (r: Result<Filter>)
        ensures
            match r {
                Ok(f) => if self.filters is Some {
                    unusable(*globals) is None && filters_by(f, *globals)
                } else {
                    forall|p: Seq<char>, size: Option<u64>| #[trigger] f.admits(p, size)
                },
                Err(e) => self.filters is Some && (unusable(*globals) matches Some(why)
                    && is_unusable(e, *globals, why)),
            },
    {
        match &self.filters {
            Some(_) => Filter::from_globals(globals),
            None => Ok(Filter::default()),
        }
    }

    /// Whether the removal may go on. A dry run is never approved and goes on all the same,
    /// because it changes nothing.
    pub fn execute(&self, approved: bool, dry_run: bool) -> (r: Result<()>)
        ensures
            match r {
                Ok(_) => approved || dry_run,
                Err(e) => !approved && !dry_run && is_declined(
                    e,
                    self.action@,
                    self.target.text(),
                ),
            },
    {
        if !approved && !dry_run {
            let shown = self.target.to_text();
            return Err(engine::declined(self.action, shown.as_str()));
        }
        Ok(())
    }
}

/// A filter built from flags admits what the flags select: a depth of minus one is no limit, and
/// any other depth is one.
pub proof fn a_filter_does_what_the_flags_say(
    f: Filter,
    globals: Globals,
    p: Seq<char>,
    size: Option<u64>,
)
    requires
        filters_by(f, globals),
    ensures
        globals.max_depth == -1 ==> (f.admits(p, size) <==> selects(
            views(globals.included@),
            views(globals.excluded@),
            bound_value(globals.min_size),
            bound_value(globals.max_size),
            None,
            p,
            size,
        )),
        globals.max_depth != -1 ==> (f.admits(p, size) <==> selects(
            views(globals.included@),
            views(globals.excluded@),
            bound_value(globals.min_size),
            bound_value(globals.max_size),
            Some(globals.max_depth),
            p,
            size,
        )),
        !globals.narrows() ==> f.admits(p, size),
{
    assert(f.admits(p, size) == selects(
        views(globals.included@),
        views(globals.excluded@),
        bound_value(globals.min_size),
        bound_value(globals.max_size),
        if globals.max_depth == -1 {
            None
        } else {
            Some(globals.max_depth)
        },
        p,
        size,
    ));
    if !globals.narrows() {
        idle_flags_take_everything(globals, p, size);
    }
}

} // verus!
