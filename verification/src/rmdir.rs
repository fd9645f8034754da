//! `rmdir`: removing one empty directory.
use vstd::prelude::*;

use crate::error::{CliError, ExitCode, Result};
use crate::removal::flow::Removal;
use crate::removal::operation::Operation;
use crate::removal::plan::NoOptions;
use crate::removal::target::{is_refusal, meaning, Meaning, Target};
use crate::text;

verus! {

pub const COMMAND: &'static str = "rmdir";

pub const REMOVAL_ACTION_REMOVE_DIR: &'static str = "remove the directory";

/// The arguments of `dctl rmdir`.
#[derive(Debug)]
pub struct RmdirArgs {
    /// The empty directory, as REMOTE:PATH.
    pub path: String,
}

/// Whether `e` is the refusal of a whole remote.
pub open spec fn is_root_refusal(e: CliError, target: Seq<char>) -> bool {
    e.is(
        ExitCode::Usage,
        "'"@ + target + "' is the vault root, not a directory"@,
        Some("Name a directory inside the remote, for example 'vault:photos/2024'."@),
    )
}

/// Refuses the whole remote: that is the vault itself and no directory in it.
pub fn refuse_the_root(target: &Target) -> (r: Result<()>)
    ensures
        match r {
            Ok(_) => target.path@.len() > 0,
            Err(e) => target.path@.len() == 0 && is_root_refusal(e, target.text()),
        },
{
    if target.is_root() {
        let shown = target.to_text();
        return Err(
            CliError::usage(
                text::cat3("'", shown.as_str(), "' is the vault root, not a directory"),
            ).with_hint(
                "Name a directory inside the remote, for example 'vault:photos/2024'.".to_owned(),
            ),
        );
    }
    Ok(())
}

/// The removal that was asked for. Filters select objects, so they do not reach a directory.
pub fn removal(args: &RmdirArgs) -> (r: Result<Removal<NoOptions>>)
    ensures
        match r {
            Ok(m) => {
                &&& meaning(args.path@) == (Meaning::Named {
                    remote: m.target.remote@,
                    path: m.target.path@,
                })
                &&& m.target.path@.len() > 0
                &&& m.command@ == COMMAND@
                &&& m.action@ == REMOVAL_ACTION_REMOVE_DIR@
                &&& m.filters is None
                &&& m.operation is Rmdir
            },
            Err(e) => match meaning(args.path@) {
                Meaning::Named { remote, path } => path.len() == 0 && is_root_refusal(
                    e,
                    remote + ":"@ + path,
                ),
                other => is_refusal(e, args.path@, other),
            },
        },
{
    let target = match Target::parse(args.path.as_str()) {
        Ok(t) => t,
        Err(e) => {
            return Err(e);
        },
    };
    match refuse_the_root(&target) {
        Ok(_) => {},
        Err(e) => {
            return Err(e);
        },
    }
    Ok(
        Removal {
            command: COMMAND,
            action: REMOVAL_ACTION_REMOVE_DIR,
            target,
            filters: None,
            options: NoOptions {  },
            operation: Operation::Rmdir,
        },
    )
}

/// The whole remote is refused as a mistake in the request.
pub proof fn the_vault_is_no_directory(e: CliError, target: Seq<char>)
    requires
        is_root_refusal(e, target),
    ensures
        e.code == ExitCode::Usage,
        e.message@ == "'"@ + target + "' is the vault root, not a directory"@,
        e.hint is Some,
{
}

} // verus!
