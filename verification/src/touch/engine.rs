//! What `touch` does in each kind of place.
//!
//! A vault creates a missing object and refuses to move the time of one it holds. A
//! filesystem does both. An object store does neither.
use vstd::prelude::*;

use crate::constants::{
    TOUCH_EXPLICIT_TIME_FEATURE, TOUCH_EXPLICIT_TIME_HINT, TOUCH_OBJECT_STORE_FEATURE,
    TOUCH_OBJECT_STORE_HINT, TOUCH_RESTAMP_FEATURE, TOUCH_RESTAMP_HINT, UNKNOWN_VALUE,
};
use crate::error::{CliError, ExitCode, Result};
use crate::index::Record;
use crate::remote::{Config, RemoteDef};
use crate::removal::target::Target;
use crate::text;
use crate::touch::timestamp::{is_written, Timestamp};

verus! {

/// Where an object is.
#[derive(Clone, Copy, Debug)]
pub enum Place {
    /// In a vault.
    Sealed,
    /// In a directory of this machine.
    Filesystem,
    /// In a bucket of this provider.
    ObjectStore { provider: &'static str },
}

/// Where the configuration puts a remote. A provider's own name needs no configuration.
pub open spec fn place_of(config: Config, remote: Seq<char>) -> Option<Place> {
    match config.lookup(remote) {
        Some(RemoteDef::Vault(_)) => Some(Place::Sealed),
        Some(RemoteDef::Local(_)) => Some(Place::Filesystem),
        Some(RemoteDef::B2(_)) => Some(Place::ObjectStore { provider: "b2" }),
        Some(RemoteDef::S3(_)) => Some(Place::ObjectStore { provider: "s3" }),
        None => if remote == "b2"@ {
            Some(Place::ObjectStore { provider: "b2" })
        } else if remote == "s3"@ {
            Some(Place::ObjectStore { provider: "s3" })
        } else if remote == "r2"@ {
            Some(Place::ObjectStore { provider: "r2" })
        } else {
            None
        },
    }
}

impl Place {
    /// Decides where a remote is, from the configuration alone. An unknown name is a slip of
    /// the hand, in a dry run too.
    pub fn of(config: &Config, target: &Target) -> (r: Result<Place>)
        ensures
            match r {
                Ok(p) => place_of(*config, target.remote@) == Some(p),
                Err(e) => place_of(*config, target.remote@) is None && e.is(
                    ExitCode::FatalError,
                    "no remote is called '"@ + target.remote@ + "'"@,
                    Some("List the configured remotes with `dctl config list`."@),
                ),
            },
    {
        let name = target.remote.as_str();
        match config.get(name) {
            Some(RemoteDef::Vault(_)) => Ok(Place::Sealed),
            Some(RemoteDef::Local(_)) => Ok(Place::Filesystem),
            Some(RemoteDef::B2(_)) => Ok(Place::ObjectStore { provider: "b2" }),
            Some(RemoteDef::S3(_)) => Ok(Place::ObjectStore { provider: "s3" }),
            None => if text::same(name, "b2") {
                Ok(Place::ObjectStore { provider: "b2" })
            } else if text::same(name, "s3") {
                Ok(Place::ObjectStore { provider: "s3" })
            } else if text::same(name, "r2") {
                Ok(Place::ObjectStore { provider: "r2" })
            } else {
                Err(
                    CliError::new(
                        ExitCode::FatalError,
                        text::cat3("no remote is called '", name, "'"),
                    ).with_hint("List the configured remotes with `dctl config list`.".to_owned()),
                )
            },
        }
    }

    pub open spec fn word(self) -> Seq<char> {
        match self {
            Place::Sealed => "vault"@,
            Place::Filesystem => "filesystem"@,
            Place::ObjectStore { provider } => provider@,
        }
    }

    /// What a place is called.
    pub fn label(&self) -> (s: &'static str)
        ensures
            s@ == self.word(),
    {
        match self {
            Place::Sealed => "vault",
            Place::Filesystem => "filesystem",
            Place::ObjectStore { provider } => provider,
        }
    }
}

/// What a `touch` did.
#[derive(Clone, Copy, Debug, PartialEq, Eq, Structural)]
pub enum Outcome {
    Created,
    Stamped,
    Skipped,
}

impl Outcome {
    pub open spec fn word(self) -> Seq<char> {
        match self {
            Outcome::Created => "created"@,
            Outcome::Stamped => "stamped"@,
            Outcome::Skipped => "skipped"@,
        }
    }

    pub fn slug(self) -> (s: &'static str)
        ensures
            s@ == self.word(),
    {
        match self {
            Outcome::Created => "created",
            Outcome::Stamped => "stamped",
            Outcome::Skipped => "skipped",
        }
    }
}

/// One resolved request.
#[derive(Clone, Copy, Debug)]
pub struct Request<'a> {
    pub target: &'a Target,
    /// The time to write.
    pub stamp: Timestamp,
    /// Whether the user chose that time.
    pub explicit: bool,
    /// Whether a missing object may be created.
    pub create: bool,
}

/// Which way a request goes.
#[derive(Clone, Copy, Debug, PartialEq, Eq, Structural)]
pub enum Route {
    /// Open the vault and look the object up.
    OpenVault,
    /// Look at the file.
    LookAtFile,
}

/// Whether `e` is the refusal of an object store.
pub open spec fn is_object_store_refusal(e: CliError, provider: Seq<char>) -> bool {
    e.is(
        ExitCode::FatalError,
        TOUCH_OBJECT_STORE_FEATURE@ + " ("@ + provider + ", dctl touch)"@ + " is not implemented"@,
        Some(TOUCH_OBJECT_STORE_HINT@),
    )
}

/// Whether `e` is the refusal of a chosen time.
pub open spec fn is_explicit_refusal(e: CliError) -> bool {
    e.is(
        ExitCode::FatalError,
        TOUCH_EXPLICIT_TIME_FEATURE@ + " is not implemented"@,
        Some(TOUCH_EXPLICIT_TIME_HINT@),
    )
}

/// Decides which way a request goes. A time that the user chose is refused by a vault before
/// the vault is opened, so nothing is done by halves.
pub fn apply(place: &Place, request: &Request<'_>) -> (r: Result<Route>)
    ensures
        match (*place, r) {
            (Place::Sealed, Ok(route)) => !request.explicit && route == Route::OpenVault,
            (Place::Sealed, Err(e)) => request.explicit && is_explicit_refusal(e),
            (Place::Filesystem, Ok(route)) => route == Route::LookAtFile,
            (Place::Filesystem, Err(_)) => false,
            (Place::ObjectStore { .. }, Ok(_)) => false,
            (Place::ObjectStore { provider }, Err(e)) => is_object_store_refusal(e, provider@),
        },
{
    match place {
        Place::Sealed => {
            if request.explicit {
                return Err(
                    CliError::unimplemented(TOUCH_EXPLICIT_TIME_FEATURE).with_hint(
                        TOUCH_EXPLICIT_TIME_HINT.to_owned(),
                    ),
                );
            }
            Ok(Route::OpenVault)
        },
        Place::Filesystem => Ok(Route::LookAtFile),
        Place::ObjectStore { provider } => Err(object_store(provider)),
    }
}

fn object_store(provider: &str) -> (e: CliError)
    ensures
        is_object_store_refusal(e, provider@),
{
    let feature = text::cat4(TOUCH_OBJECT_STORE_FEATURE, " (", provider, ", dctl touch)");
    CliError::unimplemented(feature.as_str()).with_hint(TOUCH_OBJECT_STORE_HINT.to_owned())
}

/// Whether row `i` is the first one at exactly this path.
pub open spec fn row_at(rows: Seq<Record>, p: Seq<char>, i: int) -> bool {
    &&& 0 <= i < rows.len()
    &&& rows[i].path@ == p
    &&& forall|j: int| 0 <= j < i ==> (#[trigger] rows[j]).path@ != p
}

/// The time of the row at exactly this path. There may be no such row, and a row may carry no
/// time: the two are told apart.
pub fn record(rows: &Vec<Record>, path: &str) -> (r: Option<Option<i64>>)
    ensures
        match r {
            Some(modified) => exists|i: int| #[trigger]
                row_at(rows@, path@, i) && modified == rows@[i].modified_unix,
            None => forall|j: int| 0 <= j < rows@.len() ==> (#[trigger] rows@[j]).path@ != path@,
        },
{
    let mut i: usize = 0;
    while i < rows.len()
        invariant
            i <= rows@.len(),
            forall|j: int| 0 <= j < i ==> (#[trigger] rows@[j]).path@ != path@,
        decreases rows@.len() - i,
    {
        if text::same(rows[i].path.as_str(), path) {
            assert(row_at(rows@, path@, i as int));
            return Some(rows[i].modified_unix);
        }
        i = i + 1;
    }
    None
}

/// What is to be done, once it is known what is there.
#[derive(Clone, Copy, Debug, PartialEq, Eq, Structural)]
pub enum Step {
    /// Leave things as they are.
    Skip,
    /// Create an empty object.
    Create,
    /// Set the time of what is there.
    Stamp,
}

/// Whether `e` is the refusal to change what exists.
pub open spec fn is_immutable_refusal(e: CliError, subject: Seq<char>) -> bool {
    e.is(
        ExitCode::Usage,
        "'"@ + subject + "' already exists and --immutable was given"@,
        Some("--immutable refuses to modify anything that already exists."@),
    )
}

fn immutable_refusal(subject: &str) -> (e: CliError)
    ensures
        is_immutable_refusal(e, subject@),
{
    CliError::usage(
        text::cat3("'", subject, "' already exists and --immutable was given"),
    ).with_hint("--immutable refuses to modify anything that already exists.".to_owned())
}

/// Whether `shown` is how the time that an object holds is told.
pub open spec fn tells_time(shown: Seq<char>, modified: Option<i64>) -> bool {
    match modified {
        Some(n) => is_written(shown, n as int),
        None => shown == UNKNOWN_VALUE@,
    }
}

/// Whether `e` is the refusal to move the time that an object in a vault holds.
pub open spec fn is_restamp_refusal(e: CliError, target: Target, modified: Option<i64>) -> bool {
    exists|shown: Seq<char>| #[trigger]
        tells_time(shown, modified) && e.is(
            ExitCode::FatalError,
            TOUCH_RESTAMP_FEATURE@ + " is not implemented"@,
            Some(
                TOUCH_RESTAMP_HINT@ + " '"@ + target.text()
                    + "' keeps the modification time it was written with ("@ + shown + ")."@,
            ),
        )
}

/// What a vault does: an object that is there keeps its time, and one that is not is created
/// where that is allowed.
pub fn sealed(request: &Request<'_>, existing: Option<Option<i64>>, immutable: bool) -> (r: Result<
    Step,
>)
    ensures
        match existing {
            None => r == core::result::Result::<Step, CliError>::Ok(
                if request.create {
                    Step::Create
                } else {
                    Step::Skip
                },
            ),
            Some(modified) => r matches Err(e) && if immutable {
                is_immutable_refusal(e, request.target.text())
            } else {
                is_restamp_refusal(e, *request.target, modified)
            },
        },
{
    match existing {
        None => if request.create {
            Ok(Step::Create)
        } else {
            Ok(Step::Skip)
        },
        Some(modified) => {
            let subject = request.target.to_text();
            if immutable {
                return Err(immutable_refusal(subject.as_str()));
            }
            let shown = match modified {
                Some(n) => Timestamp::from_unix(n).to_rfc3339(),
                None => UNKNOWN_VALUE.to_owned(),
            };
            let lead = text::cat4(
                TOUCH_RESTAMP_HINT,
                " '",
                subject.as_str(),
                "' keeps the modification time it was written with (",
            );
            let hint = text::cat3(lead.as_str(), shown.as_str(), ").");
            proof {
                assert(tells_time(shown@, modified));
            }
            Err(CliError::unimplemented(TOUCH_RESTAMP_FEATURE).with_hint(hint))
        },
    }
}

/// Refuses a file among a vault's own objects: it would be unencrypted, and unreadable to the
/// vault that owns the tree. The configuration alone decides, whatever is there.
pub fn refuse_plain_write(config: &Config, shown: &str) -> (r: Result<()>)
    ensures
        match r {
            Ok(_) => !config.claims(shown@),
            Err(e) => config.claims(shown@) && e.is(
                ExitCode::FatalError,
                "'"@ + shown@ + "' lies in the store of a vault"@,
                Some(
                    "A file written there would be unencrypted, and unreadable to the vault. Address the vault instead."@,
                ),
            ),
        },
{
    if config.is_claimed(shown) {
        return Err(
            CliError::new(
                ExitCode::FatalError,
                text::cat3("'", shown, "' lies in the store of a vault"),
            ).with_hint(
                "A file written there would be unencrypted, and unreadable to the vault. Address the vault instead.".to_owned(),
            ),
        );
    }
    Ok(())
}

/// What is to be done with a file.
pub open spec fn file_step(existed: bool, create: bool) -> Step {
    if existed {
        Step::Stamp
    } else if create {
        Step::Create
    } else {
        Step::Skip
    }
}

/// What a filesystem does: a missing file is created where that is allowed, and one that is
/// there is stamped unless nothing may be changed.
pub fn filesystem(shown: &str, existed: bool, create: bool, immutable: bool) -> (r: Result<Step>)
    ensures
        match r {
            Ok(step) => !(existed && immutable) && step == file_step(existed, create),
            Err(e) => existed && immutable && is_immutable_refusal(e, shown@),
        },
{
    if !existed && !create {
        return Ok(Step::Skip);
    }
    if existed && immutable {
        return Err(immutable_refusal(shown));
    }
    if existed {
        Ok(Step::Stamp)
    } else {
        Ok(Step::Create)
    }
}

/// The outcome of a step that was carried out.
pub fn outcome_of(step: Step) -> (o: Outcome)
    ensures
        o == (match step {
            Step::Skip => Outcome::Skipped,
            Step::Create => Outcome::Created,
            Step::Stamp => Outcome::Stamped,
        }),
{
    match step {
        Step::Skip => Outcome::Skipped,
        Step::Create => Outcome::Created,
        Step::Stamp => Outcome::Stamped,
    }
}

/// A time as a distance from 1970, on one side of it.
#[derive(Clone, Copy, Debug, PartialEq, Eq, Structural)]
pub struct Instant {
    pub distance: u64,
    pub before: bool,
}

/// Asks `std::time::SystemTime::checked_add` whether this system can hold a time that many
/// seconds after 1970. Which times a system can hold is up to the system: nothing is claimed
/// of the answer.
#[verifier::external_body]
fn holds_after(distance: u64) -> (r: bool) {
    std::time::SystemTime::UNIX_EPOCH.checked_add(
        std::time::Duration::from_secs(distance),
    ).is_some()
}

/// Asks `std::time::SystemTime::checked_sub` whether this system can hold a time that many
/// seconds before 1970. Which times a system can hold is up to the system: nothing is claimed
/// of the answer.
#[verifier::external_body]
fn holds_before(distance: u64) -> (r: bool) {
    std::time::SystemTime::UNIX_EPOCH.checked_sub(
        std::time::Duration::from_secs(distance),
    ).is_some()
}

/// Whether `e` says that a time cannot be stored.
pub open spec fn is_unstorable(e: CliError, stamp: Timestamp) -> bool {
    exists|shown: Seq<char>| #[trigger]
        is_written(shown, stamp.seconds as int) && e.is(
            ExitCode::Usage,
            shown + " is outside the range of times this system can store"@,
            Some("Choose a time this platform's filesystem can represent."@),
        )
}

/// The distance of a time from 1970.
pub open spec fn instant_of(stamp: Timestamp) -> Instant {
    Instant {
        distance: if stamp.seconds < 0 {
            (-(stamp.seconds as int)) as u64
        } else {
            stamp.seconds as u64
        },
        before: stamp.seconds < 0,
    }
}

/// A time as the filesystem takes it, given whether the system can hold it. A time that it
/// cannot hold is an error and never another time.
pub fn stored_time(stamp: Timestamp, held: bool) -> (r: Result<Instant>)
    ensures
        match r {
            Ok(i) => held && i == instant_of(stamp),
            Err(e) => !held && is_unstorable(e, stamp),
        },
{
    let seconds = stamp.seconds;
    if !held {
        let shown = stamp.to_rfc3339();
        let message = text::cat2(
            shown.as_str(),
            " is outside the range of times this system can store",
        );
        proof {
            assert(is_written(shown@, stamp.seconds as int));
        }
        return Err(
            CliError::usage(message).with_hint(
                "Choose a time this platform's filesystem can represent.".to_owned(),
            ),
        );
    }
    Ok(Instant { distance: distance_of(seconds), before: seconds < 0 })
}

fn distance_of(seconds: i64) -> (n: u64)
    ensures
        n as int == (if seconds < 0 {
            -(seconds as int)
        } else {
            seconds as int
        }),
{
    if seconds < 0 {
        (-(seconds + 1)) as u64 + 1
    } else {
        seconds as u64
    }
}

/// A time as the filesystem takes it. Times before 1970 are ordinary.
pub fn system_time(stamp: Timestamp) -> (r: Result<Instant>)
    ensures
        match r {
            Ok(i) => i == instant_of(stamp),
            Err(e) => is_unstorable(e, stamp),
        },
{
    let distance = distance_of(stamp.seconds);
    let held = if stamp.seconds < 0 {
        holds_before(distance)
    } else {
        holds_after(distance)
    };
    stored_time(stamp, held)
}

/// The error for a file that could not be opened: a directory is named as one.
pub fn open_failure(shown: &str, is_dir: bool, error: CliError) -> (e: CliError)
    ensures
        if is_dir {
            e.is(
                ExitCode::Usage,
                "'"@ + shown@ + "' is a directory"@,
                Some(
                    "touch addresses an object. A directory's own timestamp is the filesystem's to maintain, and DCTL does not move it."@,
                ),
            )
        } else {
            e.is(error.code, error.message@, Some("touching "@ + shown@))
        },
{
    if is_dir {
        return CliError::usage(text::cat3("'", shown, "' is a directory")).with_hint(
            "touch addresses an object. A directory's own timestamp is the filesystem's to maintain, and DCTL does not move it.".to_owned(),
        );
    }
    at(shown, error)
}

/// An error with the path that it is about.
pub fn at(shown: &str, error: CliError) -> (e: CliError)
    ensures
        e.is(error.code, error.message@, Some("touching "@ + shown@)),
{
    let hint = text::cat2("touching ", shown);
    error.with_hint(hint)
}

/// A file that exists is never changed where nothing may be changed, and none is created where
/// that is not allowed.
pub proof fn flags_are_honoured(existed: bool, create: bool, immutable: bool)
    requires
        !(existed && immutable),
    ensures
        immutable ==> file_step(existed, create) != Step::Stamp,
        !create ==> file_step(existed, create) != Step::Create,
{
}

/// The configuration says where a remote is: a vault is sealed, a directory is a filesystem, and
/// a bucket is an object store. A provider's own name needs no configuration, and any other name
/// that is not configured is nowhere.
pub proof fn the_configuration_says_where(config: Config, remote: Seq<char>)
    ensures
        place_of(config, remote) == Some(Place::Sealed) <==> (config.lookup(remote) matches Some(
            RemoteDef::Vault(_),
        )),
        place_of(config, remote) == Some(Place::Filesystem) <==> (config.lookup(
            remote,
        ) matches Some(RemoteDef::Local(_))),
        config.lookup(remote) matches Some(RemoteDef::B2(_)) ==> (place_of(
            config,
            remote,
        ) matches Some(Place::ObjectStore { provider }) && provider@ == "b2"@),
        config.lookup(remote) matches Some(RemoteDef::S3(_)) ==> (place_of(
            config,
            remote,
        ) matches Some(Place::ObjectStore { provider }) && provider@ == "s3"@),
        config.lookup(remote) is None && (remote == "b2"@ || remote == "s3"@ || remote == "r2"@)
            ==> (place_of(config, remote) matches Some(Place::ObjectStore { provider }) && provider@
            == remote),
        config.lookup(remote) is None && remote != "b2"@ && remote != "s3"@ && remote != "r2"@
            ==> place_of(config, remote) is None,
{
}

/// A file that is there is stamped, a missing one is created exactly where that is allowed, and
/// otherwise nothing is done.
pub proof fn a_missing_file_is_created_only_where_allowed(existed: bool, create: bool)
    ensures
        file_step(existed, create) == Step::Stamp <==> existed,
        file_step(existed, create) == Step::Create <==> !existed && create,
        file_step(existed, create) == Step::Skip <==> !existed && !create,
{
}

/// A time is kept exactly, on its own side of 1970.
pub proof fn a_time_is_kept_exactly(stamp: Timestamp)
    ensures
        stamp.seconds >= 0 ==> !instant_of(stamp).before && instant_of(stamp).distance
            == stamp.seconds,
        stamp.seconds < 0 ==> instant_of(stamp).before && instant_of(stamp).distance
            == -stamp.seconds,
{
}

/// The words for what a touch did are distinct.
pub proof fn outcomes_are_worded_apart(a: Outcome, b: Outcome)
    requires
        a.word() == b.word(),
    ensures
        a == b,
{
    reveal_strlit("created");
    reveal_strlit("stamped");
    reveal_strlit("skipped");
    assert("created"@[0] == 'c');
    assert("stamped"@[1] == 't');
    assert("skipped"@[1] == 'k');
    assert("stamped"@[0] == 's');
    assert("skipped"@[0] == 's');
}

/// The row of a path is the first one at exactly that path.
pub proof fn the_first_row_counts(rows: Seq<Record>, p: Seq<char>, i: int, j: int)
    requires
        row_at(rows, p, i),
    ensures
        0 <= i < rows.len(),
        rows[i].path@ == p,
        0 <= j < rows.len() && rows[j].path@ == p ==> i <= j,
{
    if 0 <= j < i {
        assert(rows[j].path@ != p);
    }
}

/// A refusal to touch says that it cannot be done here, and a refusal to change what exists says
/// that the request forbids it.
pub proof fn a_refusal_says_who_forbids_it(
    e: CliError,
    provider: Seq<char>,
    subject: Seq<char>,
    target: Target,
    modified: Option<i64>,
    stamp: Timestamp,
)
    ensures
        is_object_store_refusal(e, provider) ==> e.code == ExitCode::FatalError,
        is_explicit_refusal(e) ==> e.code == ExitCode::FatalError,
        is_restamp_refusal(e, target, modified) ==> e.code == ExitCode::FatalError,
        is_immutable_refusal(e, subject) ==> e.code == ExitCode::Usage && e.message@ == "'"@
            + subject + "' already exists and --immutable was given"@,
        is_unstorable(e, stamp) ==> e.code == ExitCode::Usage,
{
}

/// A time that is known is shown as it is written, and one that is not is said to be unknown.
pub proof fn a_time_is_shown_or_unknown(shown: Seq<char>, n: i64)
    ensures
        tells_time(shown, Some(n)) <==> is_written(shown, n as int),
        tells_time(shown, None) <==> shown == UNKNOWN_VALUE@,
{
}

} // verus!
