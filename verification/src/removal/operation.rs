//! Which removal was asked for.
use vstd::prelude::*;

use crate::removal::reclaim::Class;
use crate::time::Duration;

verus! {

/// One of the six removals, with the options that belong to it.
#[derive(Debug, PartialEq, Eq)]
pub enum Operation {
    /// The objects that the filters select, and on request the directories this empties.
    Delete { rmdirs: bool },
    /// Exactly one object.
    DeleteFile,
    /// A path and everything below it.
    Purge,
    /// One empty directory.
    Rmdir,
    /// Every empty directory below a path.
    Rmdirs { leave_root: bool },
    /// What no object refers to any more.
    Cleanup {
        classes: Vec<Class>,
        min_age: Duration,
        /// Whether the classes were named by the user.
        named: bool,
    },
}

impl Operation {
    /// Whether this removes what a user stored.
    pub fn removes_user_data(&self) -> (r: bool)
        ensures
            r == (self is Delete || self is DeleteFile || self is Purge),
    {
        match self {
            Operation::Delete { .. } | Operation::DeleteFile | Operation::Purge => true,
            _ => false,
        }
    }

    /// Whether this works on a store's debris.
    pub fn is_cleanup(&self) -> (r: bool)
        ensures
            r == (self is Cleanup),
    {
        match self {
            Operation::Cleanup { .. } => true,
            _ => false,
        }
    }
}

/// No operation both removes what a user stored and works on debris.
pub proof fn debris_is_not_user_data(op: Operation)
    ensures
        !(op is Cleanup && (op is Delete || op is DeleteFile || op is Purge)),
{
}

} // verus!
