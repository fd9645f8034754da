//! The flags that every command takes.
use vstd::prelude::*;

use crate::constants::MAX_DEPTH_UNLIMITED;

verus! {

/// The global flags, as they were given.
#[derive(Debug)]
pub struct Globals {
    pub included: Vec<String>,
    pub excluded: Vec<String>,
    pub filter_from: Vec<String>,
    pub files_from: Vec<String>,
    pub min_size: Option<String>,
    pub max_size: Option<String>,
    pub max_depth: i32,
    pub dry_run: bool,
    pub force: bool,
    pub immutable: bool,
}

impl Default for Globals {
    fn default() -> (g: Globals)
        ensures
            g.included@.len() == 0,
            g.excluded@.len() == 0,
            g.filter_from@.len() == 0,
            g.files_from@.len() == 0,
            g.min_size is None,
            g.max_size is None,
            g.max_depth == -1,
            !g.dry_run,
            !g.force,
            !g.immutable,
    {
        Globals {
            included: Vec::new(),
            excluded: Vec::new(),
            filter_from: Vec::new(),
            files_from: Vec::new(),
            min_size: None,
            max_size: None,
            max_depth: -1,
            dry_run: false,
            force: false,
            immutable: false,
        }
    }
}

impl Globals {
    /// Whether any flag narrows what a command takes in.
    pub open spec fn narrows(self) -> bool {
        ||| self.included@.len() > 0
        ||| self.excluded@.len() > 0
        ||| self.min_size is Some
        ||| self.max_size is Some
        ||| self.max_depth != MAX_DEPTH_UNLIMITED
    }

    pub fn is_restricting(&self) -> (r: bool)
        ensures
            r == self.narrows(),
    {
        self.included.len() > 0 || self.excluded.len() > 0 || self.min_size.is_some()
            || self.max_size.is_some() || self.max_depth != MAX_DEPTH_UNLIMITED
    }
}

/// A run is narrowed by any pattern, any size and any depth; rule files are another matter.
pub proof fn any_bound_narrows(g: Globals)
    ensures
        g.narrows() <==> g.included@.len() > 0 || g.excluded@.len() > 0 || g.min_size is Some
            || g.max_size is Some || g.max_depth != -1,
{
}

} // verus!
