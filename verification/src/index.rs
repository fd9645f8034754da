//! The rows of a vault's index.
use vstd::prelude::*;

use crate::listing::Entry;

verus! {

/// One stored file, as the index describes it.
#[derive(Debug)]
pub struct Record {
    /// Its path inside the vault.
    pub path: String,
    /// The key of the object that holds its content.
    pub object_key: String,
    pub size: u64,
    pub modified_unix: Option<i64>,
    /// The digest of the content. It is empty only in a row that was recovered without
    /// reading any content.
    pub content_hash: Vec<u8>,
}

impl Record {
    /// Whether the row's size was ever measured. Even an empty file has a digest, so a size
    /// of zero without one is no measurement.
    pub open spec fn measured(self) -> bool {
        !(self.size == 0 && self.content_hash@.len() == 0)
    }

    pub fn is_measured(&self) -> (r: bool)
        ensures
            r == self.measured(),
    {
        !(self.size == 0 && self.content_hash.len() == 0)
    }

    /// What a listing shows of a row.
    pub open spec fn shown_as(self, e: Entry) -> bool {
        &&& e.path@ == self.path@
        &&& e.size == (if self.measured() {
            Some(self.size)
        } else {
            None
        })
        &&& e.modified_unix == self.modified_unix
    }

    pub fn to_entry(&self) -> (e: Entry)
        ensures
            self.shown_as(e),
    {
        Entry {
            path: self.path.clone(),
            size: if self.is_measured() {
                Some(self.size)
            } else {
                None
            },
            modified_unix: self.modified_unix,
        }
    }
}

/// A row has a size as soon as anything of it was measured: only a zero without a digest is no
/// measurement, and what a listing then shows is no size rather than zero.
pub proof fn an_unread_zero_is_no_size(row: Record, e: Entry)
    requires
        row.shown_as(e),
    ensures
        e.path@ == row.path@,
        e.modified_unix == row.modified_unix,
        row.size > 0 || row.content_hash@.len() > 0 ==> e.size == Some(row.size),
        row.size == 0 && row.content_hash@.len() == 0 ==> e.size is None,
{
}

} // verus!
