//! The two places that a replication runs between, and what makes each of them one.
//!
//! Replication moves sealed bytes without a key, so it runs between object stores: a remote
//! that seals on the way through is refused, and so is a path inside a store, which would be
//! a filter. A place is a store because the configuration declares it one, or because a
//! vault's envelope lies at its root. That it is empty makes it nothing.
use vstd::prelude::*;

use crate::error::{CliError, ExitCode, Result};
use crate::remote::{naming, Config, Naming, RemoteDef, RemoteSpec};
use crate::text;

verus! {

pub const REPLICATE_SOURCE_VALUE_NAME: &'static str = "SOURCE-STORE:";

pub const REPLICATE_DEST_VALUE_NAME: &'static str = "DEST-STORE:";

pub const INIT_STORE_NAME_SUFFIX: &'static str = "-store";

pub const REPLICATE_SUBPATH_HINT: &'static str = "Name the store alone: a part of it would give a partial replica, and that is not a vault.";

pub const REPLICATE_SAME_STORE_HINT: &'static str = "Name two different stores; a second copy in the same place protects nothing.";

pub const REPLICATE_STORE_HINT: &'static str = "Declare it with `dctl config set NAME require_vault=true`, once, and replicate again.";

/// Which end of a replication an argument is.
#[derive(Clone, Copy, Debug, PartialEq, Eq, Structural)]
pub enum Side {
    Source,
    Destination,
}

impl Side {
    pub open spec fn word(self) -> Seq<char> {
        match self {
            Side::Source => REPLICATE_SOURCE_VALUE_NAME@,
            Side::Destination => REPLICATE_DEST_VALUE_NAME@,
        }
    }

    /// The argument's name.
    pub fn label(self) -> (s: &'static str)
        ensures
            s@ == self.word(),
    {
        match self {
            Side::Source => REPLICATE_SOURCE_VALUE_NAME,
            Side::Destination => REPLICATE_DEST_VALUE_NAME,
        }
    }
}

/// What makes a place a store.
#[derive(Clone, Copy, Debug, PartialEq, Eq, Structural)]
pub enum Standing {
    /// The configuration says so.
    Declared,
    /// A vault's envelope is there. How many slots it has is not known of one that is too new
    /// to be read, and replication does not need to know.
    Demonstrated { slots: Option<u16> },
}

impl Standing {
    pub open spec fn word(self) -> Seq<char> {
        match self {
            Standing::Declared => "declared"@,
            Standing::Demonstrated { .. } => "demonstrated"@,
        }
    }

    pub fn slug(self) -> (s: &'static str)
        ensures
            s@ == self.word(),
    {
        match self {
            Standing::Declared => "declared",
            Standing::Demonstrated { .. } => "demonstrated",
        }
    }
}

/// The two ways to be a store are worded apart, and the number of slots does not show.
pub proof fn standings_are_worded_apart(slots: Option<u16>, others: Option<u16>)
    ensures
        Standing::Declared.word() != (Standing::Demonstrated { slots }).word(),
        (Standing::Demonstrated { slots }).word() == (Standing::Demonstrated {
            slots: others,
        }).word(),
{
    reveal_strlit("declared");
    reveal_strlit("demonstrated");
    assert(Standing::Declared.word().len() != (Standing::Demonstrated { slots }).word().len());
}

/// One end of a replication.
#[derive(Debug)]
pub struct Store {
    /// The argument as the user wrote it.
    pub spec: String,
    /// The remote's name.
    pub name: String,
    /// Where its bytes are, written the same way under every name.
    pub place: String,
    pub standing: Standing,
}

impl Store {
    /// The remote's name.
    pub fn name(&self) -> (s: &str)
        ensures
            s@ == self.name@,
    {
        self.name.as_str()
    }
}

/// Refuses two arguments that name the same place.
pub fn refuse_same_place(source: &Store, destination: &Store) -> (r: Result<()>)
    ensures
        match r {
            Ok(_) => source.place@ != destination.place@,
            Err(e) => source.place@ == destination.place@ && e.is(
                ExitCode::Usage,
                "'"@ + source.spec@ + "' and '"@ + destination.spec@
                    + "' are the same location, so replicating between them would copy a store onto itself"@,
                Some(REPLICATE_SAME_STORE_HINT@),
            ),
        },
{
    if !text::same(source.place.as_str(), destination.place.as_str()) {
        return Ok(());
    }
    Err(
        CliError::usage(
            text::cat5(
                "'",
                source.spec.as_str(),
                "' and '",
                destination.spec.as_str(),
                "' are the same location, so replicating between them would copy a store onto itself",
            ),
        ).with_hint(REPLICATE_SAME_STORE_HINT.to_owned()),
    )
}

/// Whether `e` is the refusal of a path inside a store.
pub open spec fn is_subpath_refusal(e: CliError, spec: Seq<char>, side: Side) -> bool {
    e.is(
        ExitCode::Usage,
        side.word() + " '"@ + spec + "' names a path inside a store, not a store"@,
        Some(REPLICATE_SUBPATH_HINT@),
    )
}

/// Refuses an argument that names a path inside a remote. A local path is the root itself.
pub fn refuse_subpath(parsed: &RemoteSpec, spec: &str, side: Side) -> (r: Result<()>)
    ensures
        match r {
            Ok(_) => parsed matches RemoteSpec::Named { remote: _, path } ==> path@.len() == 0,
            Err(e) => (parsed matches RemoteSpec::Named { remote: _, path } && path@.len() > 0)
                && is_subpath_refusal(e, spec@, side),
        },
{
    match parsed {
        RemoteSpec::Local(_) => Ok(()),
        RemoteSpec::Named { path, .. } => {
            if path.as_str().is_empty() {
                return Ok(());
            }
            Err(
                CliError::usage(
                    text::cat4(
                        side.label(),
                        " '",
                        spec,
                        "' names a path inside a store, not a store",
                    ),
                ).with_hint(REPLICATE_SUBPATH_HINT.to_owned()),
            )
        },
    }
}

/// Whether `e` is the refusal of a remote that seals. It names the store that would do.
pub open spec fn is_vault_refusal(
    e: CliError,
    spec: Seq<char>,
    remote: Seq<char>,
    base: Option<Seq<char>>,
    side: Side,
) -> bool {
    let why =
        "Replication moves opaque ciphertext and holds no key, so it is addressed at the object store rather than at the sealed view. '"@;
    e.is(
        ExitCode::Usage,
        side.word() + " '"@ + spec + "' is a vault remote, and reading a vault decrypts it"@,
        Some(
            match base {
                Some(b) => why + remote + "' seals on the way through to '"@ + b
                    + "'; replicate '"@ + b + ":' instead."@,
                None => why + remote
                    + "' names no base remote, which is itself a configuration fault — run `dctl config verify`. The store is conventionally called '"@
                    + remote + INIT_STORE_NAME_SUFFIX@ + "'."@,
            },
        ),
    )
}

/// The refusal of a remote that seals.
pub fn refuse_vault(spec: &str, remote: &str, def: &RemoteDef, side: Side) -> (e: CliError)
    ensures
        is_vault_refusal(e, spec@, remote@, def.base_text(), side),
{
    let message = text::cat4(
        side.label(),
        " '",
        spec,
        "' is a vault remote, and reading a vault decrypts it",
    );
    let why = text::cat2(
        "Replication moves opaque ciphertext and holds no key, so it is addressed at the object store rather than at the sealed view. '",
        remote,
    );
    let hint = match def.base() {
        Some(base) => {
            let front = text::cat5(
                why.as_str(),
                "' seals on the way through to '",
                base,
                "'; replicate '",
                base,
            );
            text::cat2(front.as_str(), ":' instead.")
        },
        None => text::cat5(
            why.as_str(),
            "' names no base remote, which is itself a configuration fault — run `dctl config verify`. The store is conventionally called '",
            remote,
            INIT_STORE_NAME_SUFFIX,
            "'.",
        ),
    };
    CliError::usage(message).with_hint(hint)
}

/// Whether an argument can be one end, as far as the configuration says.
pub open spec fn acceptable(config: Config, spec: Seq<char>) -> bool {
    match naming(spec) {
        Naming::Nothing => false,
        Naming::Path(_) => true,
        Naming::Remote { remote, path } => path.len() == 0 && !(config.lookup(remote) matches Some(
            def,
        ) && def is Vault),
    }
}

/// Whether an argument can be one end, and `parsed` is what it names.
pub open spec fn allowed(config: Config, spec: Seq<char>, parsed: RemoteSpec) -> bool {
    &&& acceptable(config, spec)
    &&& naming(spec) == (match parsed {
        RemoteSpec::Local(path) => Naming::Path(path@),
        RemoteSpec::Named { remote, path } => Naming::Remote { remote: remote@, path: path@ },
    })
}

/// Whether an argument cannot be one end, and `e` says why.
pub open spec fn refused(config: Config, spec: Seq<char>, side: Side, e: CliError) -> bool {
    match naming(spec) {
        Naming::Nothing => e.is(
            ExitCode::Usage,
            "'"@ + spec + "' names neither a remote nor a path"@,
            Some("Write REMOTE:PATH, or a local path."@),
        ),
        Naming::Path(_) => false,
        Naming::Remote { remote, path } => if path.len() > 0 {
            is_subpath_refusal(e, spec, side)
        } else {
            config.lookup(remote) matches Some(def) && def is Vault && is_vault_refusal(
                e,
                spec,
                remote,
                def.base_text(),
                side,
            )
        },
    }
}

/// Decides from the configuration alone whether an argument can be one end: no store is
/// looked at, and no key is asked for.
pub fn open(config: &Config, spec: &str, side: Side) -> (r: Result<RemoteSpec>)
    ensures
        match r {
            Ok(parsed) => allowed(*config, spec@, parsed),
            Err(e) => refused(*config, spec@, side, e),
        },
{
    let parsed = match RemoteSpec::parse(spec) {
        Ok(p) => p,
        Err(e) => {
            return Err(e);
        },
    };
    match refuse_subpath(&parsed, spec, side) {
        Ok(_) => {},
        Err(e) => {
            return Err(e);
        },
    }
    if let RemoteSpec::Named { remote, .. } = &parsed {
        if let Some(def) = config.get(remote.as_str()) {
            if def.is_vault() {
                return Err(refuse_vault(spec, remote.as_str(), def, side));
            }
        }
    }
    Ok(parsed)
}

/// Whether the configuration declares a place a vault's store.
pub open spec fn declared(config: Config, parsed: RemoteSpec) -> bool {
    parsed matches RemoteSpec::Named { remote, path: _ } && (config.lookup(remote@) matches Some(
        def,
    ) && def.declares_store())
}

/// Whether the configuration declares a place a vault's store, so that nobody has to look.
pub fn is_declared(config: &Config, parsed: &RemoteSpec) -> (r: bool)
    ensures
        r == declared(*config, *parsed),
{
    match parsed {
        RemoteSpec::Local(_) => false,
        RemoteSpec::Named { remote, .. } => match config.get(remote.as_str()) {
            Some(def) => def.require_vault(),
            None => false,
        },
    }
}

/// What lies where a store keeps its envelope.
#[derive(Clone, Copy, Debug, PartialEq, Eq, Structural)]
pub enum Envelope {
    Vault { slots: u16 },
    /// An envelope of a version that this build does not read.
    Foreign,
    Absent,
}

/// What makes a place a store, if anything does.
pub open spec fn standing_of(config: Config, parsed: RemoteSpec, found: Envelope) -> Option<
    Standing,
> {
    if declared(config, parsed) {
        Some(Standing::Declared)
    } else {
        match found {
            Envelope::Vault { slots } => Some(Standing::Demonstrated { slots: Some(slots) }),
            Envelope::Foreign => Some(Standing::Demonstrated { slots: None }),
            Envelope::Absent => None,
        }
    }
}

/// Decides whether a place may be one end. A declared one may, whatever is found there.
pub fn admission(config: &Config, parsed: &RemoteSpec, found: Envelope, spec: &str, side: Side) -> (r:
    Result<Standing>)
    ensures
        match r {
            Ok(s) => standing_of(*config, *parsed, found) == Some(s),
            Err(e) => standing_of(*config, *parsed, found) is None && e.is(
                ExitCode::FatalError,
                side.word() + " '"@ + spec@
                    + "' is not a vault's object store: the configuration does not declare it one, and no vault envelope is stored there"@,
                Some(REPLICATE_STORE_HINT@),
            ),
        },
{
    if is_declared(config, parsed) {
        return Ok(Standing::Declared);
    }
    match found {
        Envelope::Vault { slots } => Ok(Standing::Demonstrated { slots: Some(slots) }),
        Envelope::Foreign => Ok(Standing::Demonstrated { slots: None }),
        Envelope::Absent => Err(
            CliError::new(
                ExitCode::FatalError,
                text::cat4(
                    side.label(),
                    " '",
                    spec,
                    "' is not a vault's object store: the configuration does not declare it one, and no vault envelope is stored there",
                ),
            ).with_hint(REPLICATE_STORE_HINT.to_owned()),
        ),
    }
}

/// Nothing is a store because it is empty: a place without an envelope is one only where the
/// configuration says so.
pub proof fn emptiness_admits_nothing(config: Config, parsed: RemoteSpec)
    ensures
        standing_of(config, parsed, Envelope::Absent) is Some <==> declared(config, parsed),
{
}

/// A store is named alone: a path inside a remote is never one end, a remote that seals is never
/// one, and a local path and any other remote can be.
pub proof fn only_a_whole_store_is_an_end(config: Config, spec: Seq<char>)
    ensures
        acceptable(config, spec) ==> !(naming(spec) is Nothing),
        naming(spec) matches Naming::Remote { remote, path } && path.len() > 0 ==> !acceptable(
            config,
            spec,
        ),
        naming(spec) matches Naming::Remote { remote, path } && (config.lookup(remote) matches Some(
            RemoteDef::Vault(_),
        )) ==> !acceptable(config, spec),
        naming(spec) is Path ==> acceptable(config, spec),
        naming(spec) matches Naming::Remote { remote, path } && path.len() == 0 && !(config.lookup(
            remote,
        ) matches Some(RemoteDef::Vault(_))) ==> acceptable(config, spec),
{
}

/// An argument is refused exactly where it cannot be one end, and a refusal is always a mistake
/// in the arguments.
pub proof fn a_refused_end_is_a_mistake(config: Config, spec: Seq<char>, side: Side, e: CliError)
    requires
        refused(config, spec, side, e),
    ensures
        !acceptable(config, spec),
        e.code == ExitCode::Usage,
{
}

/// A declared store is admitted whatever is found there, and any other place is admitted exactly
/// where an envelope is found; how many slots it has is passed on where it is known.
pub proof fn a_store_is_declared_or_shown(config: Config, parsed: RemoteSpec, found: Envelope)
    ensures
        (parsed matches RemoteSpec::Named { remote, path: _ } && (config.lookup(remote@) matches Some(
            RemoteDef::Local(d),
        ) && d.require_vault)) ==> standing_of(config, parsed, found) == Some(Standing::Declared),
        (parsed matches RemoteSpec::Named { remote, path: _ } && (config.lookup(remote@) matches Some(
            RemoteDef::B2(d),
        ) && d.require_vault)) ==> standing_of(config, parsed, found) == Some(Standing::Declared),
        (parsed matches RemoteSpec::Named { remote, path: _ } && (config.lookup(remote@) matches Some(
            RemoteDef::S3(d),
        ) && d.require_vault)) ==> standing_of(config, parsed, found) == Some(Standing::Declared),
        parsed is Local ==> standing_of(config, parsed, found) != Some(Standing::Declared),
        (parsed matches RemoteSpec::Named { remote, path: _ } && config.lookup(remote@) is None)
            ==> standing_of(config, parsed, found) != Some(Standing::Declared),
        standing_of(config, parsed, found) != Some(Standing::Declared) ==> match found {
            Envelope::Vault { slots } => standing_of(config, parsed, found) == Some(
                Standing::Demonstrated { slots: Some(slots) },
            ),
            Envelope::Foreign => standing_of(config, parsed, found) == Some(
                Standing::Demonstrated { slots: None },
            ),
            Envelope::Absent => standing_of(config, parsed, found) is None,
        },
{
}

/// An end that is allowed is the one that was written: its remote and its path, or its local
/// path.
pub proof fn an_allowed_end_is_the_one_given(
    config: Config,
    spec: Seq<char>,
    parsed: RemoteSpec,
)
    requires
        allowed(config, spec, parsed),
    ensures
        acceptable(config, spec),
        parsed matches RemoteSpec::Local(path) ==> naming(spec) == Naming::Path(path@),
        parsed matches RemoteSpec::Named { remote, path } ==> naming(spec) == (Naming::Remote {
            remote: remote@,
            path: path@,
        }),
{
}

} // verus!
