//! The vault that a restore reads from: what it holds under the tree that was named, and
//! whether what landed is what the index recorded.
use vstd::prelude::*;

use crate::constants::REMOTE_SEPARATOR;
use crate::error::{CliError, ExitCode, Result};
use crate::index::Record;
use crate::path;
use crate::removal::medium::rows_under;
use crate::removal::target::Target;
use crate::text;
use crate::text::digits;

verus! {

/// When a file was last modified.
#[derive(Clone, Copy, Debug, PartialEq, Eq, Structural)]
pub enum Modified {
    /// Nobody recorded it.
    Unknown,
    /// In seconds since the epoch.
    At(i64),
}

/// One stored file.
#[derive(Debug)]
pub struct Object {
    /// Its path inside the vault.
    pub logical: String,
    pub size: u64,
    /// Whether that size was ever measured.
    pub measured: bool,
    pub modified: Modified,
}

impl Object {
    /// Whether this is what a row of the index describes.
    pub open spec fn described_by(self, row: Record) -> bool {
        &&& self.logical@ == row.path@
        &&& self.size == row.size
        &&& self.measured == row.measured()
        &&& self.modified == (match row.modified_unix {
            Some(t) => Modified::At(t),
            None => Modified::Unknown,
        })
    }

    /// The file that a row describes. A size of zero without a digest is no measurement.
    pub fn from_record(record: &Record) -> (o: Object)
        ensures
            o.described_by(*record),
    {
        Object {
            logical: record.path.clone(),
            size: record.size,
            measured: record.is_measured(),
            modified: match record.modified_unix {
                Some(t) => Modified::At(t),
                None => Modified::Unknown,
            },
        }
    }
}

impl Clone for Object {
    fn clone(&self) -> (o: Object)
        ensures
            o == *self,
    {
        Object {
            logical: self.logical.clone(),
            size: self.size,
            measured: self.measured,
            modified: self.modified,
        }
    }
}

/// An unlocked vault, and the tree in it that was named.
#[derive(Debug)]
pub struct Archive {
    /// The vault, as the user wrote it.
    pub session: String,
    pub target: Target,
}

/// A text without the separators at its end.
pub open spec fn without_separators(s: Seq<char>) -> Seq<char>
    decreases s.len(),
{
    if s.len() > 0 && s.last() == REMOTE_SEPARATOR {
        without_separators(s.drop_last())
    } else {
        s
    }
}

/// Whether these are the files that rows describe, one for one.
pub open spec fn describe(objects: Seq<Object>, rows: Seq<Record>) -> bool {
    objects.len() == rows.len() && forall|i: int|
        0 <= i < rows.len() ==> (#[trigger] objects[i]).described_by(rows[i])
}

impl Archive {
    /// The vault's name as the log spells it: one remote has one spelling there.
    pub fn remote(&self) -> (r: String)
        ensures
            r@ == without_separators(self.session@),
    {
        let s = text::chars_of(self.session.as_str());
        let mut n: usize = s.len();
        proof {
            assert(s@.take(n as int) =~= s@);
        }
        while n > 0 && s[n - 1] == REMOTE_SEPARATOR
            invariant
                n <= s@.len(),
                without_separators(s@) == without_separators(s@.take(n as int)),
            decreases n,
        {
            proof {
                assert(s@.take(n as int).drop_last() =~= s@.take(n - 1));
                assert(s@.take(n as int).last() == s@[n - 1]);
            }
            n = n - 1;
        }
        proof {
            if n > 0 {
                assert(s@.take(n as int).last() == s@[n - 1]);
            }
            assert(s@.subrange(0, n as int) =~= s@.take(n as int));
        }
        text::string_of(s.as_slice(), 0, n)
    }

    /// The files under the tree that was named, in the order of the index's rows. An index
    /// matches a prefix by its characters, so a neighbour whose name merely begins alike is
    /// left out here.
    pub fn contents(&self, rows: &Vec<Record>) -> (r: Vec<Object>)
        ensures
            describe(r@, rows_under(self.target.path@, rows@)),
    {
        let mut r: Vec<Object> = Vec::new();
        let mut i: usize = 0;
        proof {
            assert(rows@.take(0) =~= Seq::empty());
        }
        while i < rows.len()
            invariant
                i <= rows@.len(),
                describe(r@, rows_under(self.target.path@, rows@.take(i as int))),
            decreases rows@.len() - i,
        {
            proof {
                assert(rows@.take(i + 1).drop_last() =~= rows@.take(i as int));
                assert(rows@.take(i + 1).last() == rows@[i as int]);
            }
            if path::is_under(self.target.path.as_str(), rows[i].path.as_str()) {
                r.push(Object::from_record(&rows[i]));
            }
            i = i + 1;
        }
        proof {
            assert(rows@.take(rows@.len() as int) =~= rows@);
        }
        r
    }
}

pub const RESTORE_LENGTH_HINT: &'static str = "The object authenticated against itself, so the index and the store disagree. Run 'dctl index rebuild' against this vault before trusting the restore; nothing was left at the destination for this file.";

/// Compares what landed with what the index recorded. A row that was never measured has
/// nothing to compare with. Where this refuses, the file has to be removed again.
pub fn confirm_length(object: &Object, landed: u64) -> (r: Result<()>)
    ensures
        match r {
            Ok(_) => !object.measured || landed == object.size,
            Err(e) => object.measured && landed != object.size && e.is(
                ExitCode::IntegrityFailure,
                "'"@ + object.logical@ + "' restored as "@ + digits(landed as nat)
                    + " bytes but the index records "@ + digits(object.size as nat),
                Some(RESTORE_LENGTH_HINT@),
            ),
        },
{
    if !object.measured || landed == object.size {
        return Ok(());
    }
    let there = text::decimal(landed);
    let recorded = text::decimal(object.size);
    let front = text::cat4("'", object.logical.as_str(), "' restored as ", there.as_str());
    Err(
        CliError::new(
            ExitCode::IntegrityFailure,
            text::cat3(front.as_str(), " bytes but the index records ", recorded.as_str()),
        ).with_hint(RESTORE_LENGTH_HINT.to_owned()),
    )
}

/// A vault has one name in the log, whatever the number of colons that it was written with.
pub proof fn one_vault_has_one_name(name: Seq<char>)
    ensures
        name.len() > 0 && name.last() != ':' ==> without_separators(name) == name,
        without_separators(name.push(':')) == without_separators(name),
        without_separators(Seq::empty()) == Seq::<char>::empty(),
{
    assert(name.push(':').drop_last() =~= name);
}

/// A file is described by its row: only a zero without a digest is no measured size, and a time
/// that nobody recorded stays unknown.
pub proof fn a_file_is_what_its_row_says(o: Object, row: Record)
    requires
        o.described_by(row),
    ensures
        o.logical@ == row.path@,
        o.size == row.size,
        o.measured <==> row.size > 0 || row.content_hash@.len() > 0,
        o.modified == Modified::Unknown <==> row.modified_unix is None,
        row.modified_unix matches Some(t) ==> o.modified == Modified::At(t),
{
}

/// The files of a vault are its rows, one for one and in order.
pub proof fn every_row_is_a_file(objects: Seq<Object>, rows: Seq<Record>, i: int)
    requires
        describe(objects, rows),
    ensures
        objects.len() == rows.len(),
        0 <= i < rows.len() ==> objects[i].logical@ == rows[i].path@ && objects[i].size
            == rows[i].size && (objects[i].modified == Modified::Unknown <==> rows[i].modified_unix
            is None),
{
    if 0 <= i < rows.len() {
        assert(objects[i].described_by(rows[i]));
    }
}

} // verus!
