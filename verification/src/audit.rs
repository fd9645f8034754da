//! The record that the log keeps of one action.
use vstd::prelude::*;

use crate::error::ExitCode;

verus! {

/// Which way bytes crossed the boundary of a store, where they did.
#[derive(Clone, Copy, Debug, PartialEq, Eq, Structural)]
pub enum Direction {
    Egress,
    Ingress,
}

/// One entry of the log.
#[derive(Debug)]
pub struct AuditEntry {
    /// The verb that the user typed.
    pub op: &'static str,
    pub code: ExitCode,
    pub path: String,
    /// The bytes concerned; zero where nobody measured them.
    pub size: u64,
    pub objects: u64,
    pub remote: String,
    pub direction: Option<Direction>,
    /// The digest of the sealed bytes; empty where nobody computed it.
    pub ciphertext_hash: String,
}

impl AuditEntry {
    /// Whether this is the entry for one object, with no bytes moved.
    pub open spec fn of_removal(
        self,
        op: Seq<char>,
        code: ExitCode,
        path: Seq<char>,
        size: Option<u64>,
        remote: Seq<char>,
    ) -> bool {
        &&& self.op@ == op
        &&& self.code == code
        &&& self.path@ == path
        &&& self.size == (match size {
            Some(n) => n,
            None => 0,
        })
        &&& self.objects == 1
        &&& self.remote@ == remote
        &&& self.direction is None
        &&& self.ciphertext_hash@.len() == 0
    }

    pub fn removal(
        op: &'static str,
        code: ExitCode,
        path: &str,
        size: Option<u64>,
        remote: &str,
    ) -> (e: AuditEntry)
        ensures
            e.of_removal(op@, code, path@, size, remote@),
    {
        AuditEntry {
            op,
            code,
            path: path.to_owned(),
            size: match size {
                Some(n) => n,
                None => 0,
            },
            objects: 1,
            remote: remote.to_owned(),
            direction: None,
            ciphertext_hash: String::new(),
        }
    }

    /// Whether this is the entry for one sealed object that was handed to a store.
    pub open spec fn of_replica(
        self,
        op: Seq<char>,
        code: ExitCode,
        key: Seq<char>,
        size: u64,
        hash: Seq<char>,
        remote: Seq<char>,
    ) -> bool {
        &&& self.op@ == op
        &&& self.code == code
        &&& self.path@ == key
        &&& self.size == size
        &&& self.objects == 0
        &&& self.remote@ == remote
        &&& self.direction is None
        &&& self.ciphertext_hash@ == hash
    }

    pub fn replica(
        op: &'static str,
        code: ExitCode,
        key: &str,
        size: u64,
        hash: &str,
        remote: &str,
    ) -> (e: AuditEntry)
        ensures
            e.of_replica(op@, code, key@, size, hash@, remote@),
    {
        AuditEntry {
            op,
            code,
            path: key.to_owned(),
            size,
            objects: 0,
            remote: remote.to_owned(),
            direction: None,
            ciphertext_hash: hash.to_owned(),
        }
    }
}

/// A removal is logged under its verb, code, path and remote, as one object and without a digest;
/// a size that nobody measured is logged as none.
pub proof fn a_removal_is_logged_as_one_object(
    e: AuditEntry,
    op: Seq<char>,
    code: ExitCode,
    path: Seq<char>,
    size: Option<u64>,
    remote: Seq<char>,
)
    requires
        e.of_removal(op, code, path, size, remote),
    ensures
        e.op@ == op && e.code == code && e.path@ == path && e.remote@ == remote,
        size is Some ==> e.size == size->0,
        size is None ==> e.size == 0,
        e.objects == 1,
        e.direction is None,
        e.ciphertext_hash@.len() == 0,
{
}

/// A replica is logged with its key, its size and the digest that it was stored against.
pub proof fn a_replica_is_logged_with_its_digest(
    e: AuditEntry,
    op: Seq<char>,
    code: ExitCode,
    key: Seq<char>,
    size: u64,
    hash: Seq<char>,
    remote: Seq<char>,
)
    requires
        e.of_replica(op, code, key, size, hash, remote),
    ensures
        e.op@ == op && e.code == code && e.path@ == key && e.remote@ == remote,
        e.size == size,
        e.ciphertext_hash@ == hash,
        e.objects == 0,
        e.direction is None,
{
}

} // verus!
