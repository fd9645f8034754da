//! The store that a removal works on: a sealed vault, or the plain objects of a store.
use vstd::prelude::*;

use crate::error::Result;
use crate::index::Record;
use crate::listing::Entry;
use crate::path;
use crate::path::under;
use crate::remote;
use crate::remote::{chain_end, is_broken_chain, Config, RemoteSpec};
use crate::removal::target::Target;
use crate::text::views;

verus! {

/// Which view of its bytes a remote gives.
#[derive(Debug)]
pub enum Medium {
    /// Plaintext paths; `storage` is the remote that really holds the bytes.
    Vault { storage: RemoteSpec },
    /// A store's own keys.
    Plain,
}

/// The remote that a removal opens: the whole of what the user wrote.
pub fn spec_of(target: &Target) -> (s: RemoteSpec)
    ensures
        s.text() == target.text(),
        s matches RemoteSpec::Named { remote, path } && remote@ == target.remote@ && path@
            == target.path@,
{
    RemoteSpec::Named { remote: target.remote.clone(), path: target.path.clone() }
}

/// Whether the configuration declares a remote a vault.
pub open spec fn sealed(config: Config, remote: Seq<char>) -> bool {
    config.lookup(remote) matches Some(def) && def is Vault
}

pub fn is_sealed(config: &Config, remote: &str) -> (r: bool)
    ensures
        r == sealed(*config, remote@),
{
    match config.get(remote) {
        Some(def) => def.is_vault(),
        None => false,
    }
}

/// The remote at the end of a vault's chain, with no path.
pub fn storage_spec(config: &Config, remote: &str) -> (r: Result<RemoteSpec>)
    ensures
        match r {
            Ok(s) => s matches RemoteSpec::Named { remote: name, path } && chain_end(
                *config,
                remote@,
                config.size(),
            ) == Some(name@) && path@.len() == 0,
            Err(e) => chain_end(*config, remote@, config.size()) is None && is_broken_chain(
                e,
                remote@,
            ),
        },
{
    match remote::vault_chain(config, remote) {
        Ok(name) => Ok(RemoteSpec::Named { remote: name, path: String::new() }),
        Err(e) => Err(e),
    }
}

/// The rows at or under `prefix`.
pub open spec fn rows_under(prefix: Seq<char>, rows: Seq<Record>) -> Seq<Record>
    decreases rows.len(),
{
    if rows.len() == 0 {
        Seq::empty()
    } else if under(prefix, rows.last().path@) {
        rows_under(prefix, rows.drop_last()).push(rows.last())
    } else {
        rows_under(prefix, rows.drop_last())
    }
}

/// Whether a listing shows these rows, one for one.
pub open spec fn shows(entries: Seq<Entry>, rows: Seq<Record>) -> bool {
    entries.len() == rows.len() && forall|i: int|
        0 <= i < rows.len() ==> (#[trigger] rows[i]).shown_as(entries[i])
}

impl Medium {
    /// Decides which view of its bytes a target's remote gives.
    pub fn open(config: &Config, target: &Target) -> (r: Result<Medium>)
        ensures
            match r {
                Ok(Medium::Vault { storage }) => sealed(*config, target.remote@)
                    && (storage matches RemoteSpec::Named { remote: name, path } && chain_end(
                    *config,
                    target.remote@,
                    config.size(),
                ) == Some(name@) && path@.len() == 0),
                Ok(Medium::Plain) => !sealed(*config, target.remote@),
                Err(e) => sealed(*config, target.remote@) && chain_end(
                    *config,
                    target.remote@,
                    config.size(),
                ) is None && is_broken_chain(e, target.remote@),
            },
    {
        if is_sealed(config, target.remote.as_str()) {
            match storage_spec(config, target.remote.as_str()) {
                Ok(storage) => Ok(Medium::Vault { storage }),
                Err(e) => Err(e),
            }
        } else {
            Ok(Medium::Plain)
        }
    }

    /// Whether this is a sealed vault.
    pub fn is_vault(&self) -> (r: bool)
        ensures
            r == (self is Vault),
    {
        match self {
            Medium::Vault { .. } => true,
            Medium::Plain => false,
        }
    }

    /// What a listing under `prefix` shows of an index's rows: those whose path is `prefix`
    /// or lies below it, in their order.
    pub fn list(prefix: &str, rows: &Vec<Record>) -> (r: Vec<Entry>)
        ensures
            shows(r@, rows_under(prefix@, rows@)),
    {
        let mut entries: Vec<Entry> = Vec::new();
        let mut i: usize = 0;
        proof {
            assert(rows@.take(0) =~= Seq::empty());
        }
        while i < rows.len()
            invariant
                i <= rows@.len(),
                shows(entries@, rows_under(prefix@, rows@.take(i as int))),
            decreases rows@.len() - i,
        {
            proof {
                assert(rows@.take(i + 1).drop_last() =~= rows@.take(i as int));
                assert(rows@.take(i + 1).last() == rows@[i as int]);
            }
            if path::is_under(prefix, rows[i].path.as_str()) {
                entries.push(rows[i].to_entry());
            }
            i = i + 1;
        }
        proof {
            assert(rows@.take(rows@.len() as int) =~= rows@);
        }
        entries
    }

    /// The object key of every row of a vault's index; nothing for a plain store, which has
    /// no index.
    pub fn indexed_object_keys(&self, rows: &Vec<Record>) -> (r: Option<Vec<String>>)
        ensures
            match r {
                Some(keys) => self is Vault && views(keys@) == rows@.map_values(
                    |row: Record| row.object_key@,
                ),
                None => self is Plain,
            },
    {
        match self {
            Medium::Plain => None,
            Medium::Vault { .. } => {
                let mut keys: Vec<String> = Vec::new();
                let mut i: usize = 0;
                let ghost all = rows@.map_values(|row: Record| row.object_key@);
                while i < rows.len()
                    invariant
                        i <= rows@.len(),
                        all == rows@.map_values(|row: Record| row.object_key@),
                        views(keys@) == all.take(i as int),
                    decreases rows@.len() - i,
                {
                    let ghost before = views(keys@);
                    keys.push(rows[i].object_key.clone());
                    proof {
                        assert(views(keys@) =~= before.push(rows@[i as int].object_key@));
                        assert(all.take(i + 1) =~= before.push(rows@[i as int].object_key@));
                    }
                    i = i + 1;
                }
                proof {
                    assert(all.take(i as int) =~= all);
                }
                Some(keys)
            },
        }
    }
}

/// A listing shows exactly the rows at or below its prefix, in their order, each as often as it
/// is there. A neighbour whose name only begins like the prefix is not among them.
pub proof fn a_listing_keeps_to_its_prefix(prefix: Seq<char>, rows: Seq<Record>)
    ensures
        rows_under(prefix, rows) == rows.filter(
            |r: Record|
                prefix.len() == 0 || r.path@ == prefix || prefix.push('/').is_prefix_of(r.path@),
        ),
    decreases rows.len(),
{
    reveal(Seq::filter);
    if rows.len() > 0 {
        a_listing_keeps_to_its_prefix(prefix, rows.drop_last());
    }
}

/// A remote is sealed exactly where the configuration calls it a vault.
pub proof fn only_a_vault_seals(config: Config, remote: Seq<char>)
    ensures
        sealed(config, remote) <==> (config.lookup(remote) matches Some(
            remote::RemoteDef::Vault(_),
        )),
{
}

/// The entries of a listing are its rows, one for one and in order. A row shows its path, its
/// time, and its size unless that was never measured.
pub proof fn a_row_is_shown_as_it_is(entries: Seq<Entry>, rows: Seq<Record>, i: int)
    requires
        shows(entries, rows),
    ensures
        entries.len() == rows.len(),
        0 <= i < rows.len() ==> {
            &&& entries[i].path@ == rows[i].path@
            &&& entries[i].modified_unix == rows[i].modified_unix
            &&& rows[i].size > 0 || rows[i].content_hash@.len() > 0 ==> entries[i].size == Some(
                rows[i].size,
            )
            &&& rows[i].size == 0 && rows[i].content_hash@.len() == 0 ==> entries[i].size is None
        },
{
    if 0 <= i < rows.len() {
        assert(rows[i].shown_as(entries[i]));
    }
}

} // verus!
