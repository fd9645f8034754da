//! The decisions behind the `dctl` commands.
//!
//! Nothing here talks to a store, a disk or a terminal. A command hands in what it was asked
//! for and what it found; it is told what to do next, what to say, and what to log. Whoever
//! drives it performs the action and hands the outcome back.
use vstd::prelude::*;

pub mod audit;
pub mod constants;
pub mod digest;
pub mod error;
pub mod globals;
pub mod index;
pub mod integrity;
pub mod listing;
pub mod ordered;
pub mod output;
pub mod path;
pub mod remote;
pub mod removal;
pub mod replicate;
pub mod restore;
pub mod rmdir;
pub mod rmdirs;
pub mod scrub;
pub mod size;
pub mod source;
pub mod stats;
pub mod sync;
pub mod text;
pub mod time;
pub mod touch;
pub mod transfer;

verus! {

} // verus!
