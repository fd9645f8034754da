//! Verdicts on stored objects, and what a clean reading proves.
use vstd::prelude::*;

use crate::error::{CliError, ExitCode, Result};
use crate::output;
use crate::output::grouped;
use crate::remote::{naming, Naming, RemoteSpec};
use crate::text;

verus! {

/// How hard bytes are checked.
#[derive(Clone, Copy, Debug, PartialEq, Eq, Structural)]
pub enum VerifyMode {
    /// The provider's own checksum.
    Checksum,
    /// A part of the bytes is read back.
    Sample,
    /// All of the bytes are read back.
    Strict,
}

impl VerifyMode {
    pub open spec fn word(self) -> Seq<char> {
        match self {
            VerifyMode::Checksum => "checksum"@,
            VerifyMode::Sample => "sample"@,
            VerifyMode::Strict => "strict"@,
        }
    }

    pub fn slug(self) -> (s: &'static str)
        ensures
            s@ == self.word(),
    {
        match self {
            VerifyMode::Checksum => "checksum",
            VerifyMode::Sample => "sample",
            VerifyMode::Strict => "strict",
        }
    }
}

/// What became of reading one object back.
#[derive(Clone, Copy, Debug, PartialEq, Eq, Structural)]
pub enum Verdict {
    Intact,
    /// The store could not be reached.
    Unreachable,
    /// The object is not there.
    Missing,
    /// The object is there and its bytes are wrong.
    Corrupt,
}

impl Verdict {
    /// How bad a verdict is.
    pub open spec fn rank(self) -> int {
        match self {
            Verdict::Intact => 0,
            Verdict::Unreachable => 1,
            Verdict::Missing => 2,
            Verdict::Corrupt => 3,
        }
    }

    pub open spec fn word(self) -> Seq<char> {
        match self {
            Verdict::Intact => "ok"@,
            Verdict::Unreachable => "unreachable"@,
            Verdict::Missing => "missing"@,
            Verdict::Corrupt => "corrupt"@,
        }
    }

    pub fn slug(self) -> (s: &'static str)
        ensures
            s@ == self.word(),
    {
        match self {
            Verdict::Intact => "ok",
            Verdict::Unreachable => "unreachable",
            Verdict::Missing => "missing",
            Verdict::Corrupt => "corrupt",
        }
    }

    pub fn is_failure(self) -> (r: bool)
        ensures
            r == (self != Verdict::Intact),
    {
        match self {
            Verdict::Intact => false,
            _ => true,
        }
    }

    fn badness(self) -> (n: u8)
        ensures
            n == self.rank(),
    {
        match self {
            Verdict::Intact => 0,
            Verdict::Unreachable => 1,
            Verdict::Missing => 2,
            Verdict::Corrupt => 3,
        }
    }

    /// The worse of two verdicts.
    pub fn worse(self, other: Verdict) -> (v: Verdict)
        ensures
            v == (if other.rank() > self.rank() {
                other
            } else {
                self
            }),
    {
        if other.badness() > self.badness() {
            other
        } else {
            self
        }
    }
}

/// The verdict that an error amounts to.
pub open spec fn verdict_of(code: ExitCode) -> Verdict {
    match code {
        ExitCode::IntegrityFailure | ExitCode::ChecksumMismatch => Verdict::Corrupt,
        ExitCode::FileNotFound | ExitCode::DirNotFound => Verdict::Missing,
        _ => Verdict::Unreachable,
    }
}

pub fn classify(error: &CliError) -> (v: Verdict)
    ensures
        v == verdict_of(error.code),
{
    match error.code {
        ExitCode::IntegrityFailure | ExitCode::ChecksumMismatch => Verdict::Corrupt,
        ExitCode::FileNotFound | ExitCode::DirNotFound => Verdict::Missing,
        _ => Verdict::Unreachable,
    }
}

/// The exit code of a run whose worst verdict this is.
pub open spec fn code_for(worst: Verdict) -> ExitCode {
    match worst {
        Verdict::Intact => ExitCode::Success,
        Verdict::Corrupt => ExitCode::IntegrityFailure,
        Verdict::Missing => ExitCode::FileNotFound,
        Verdict::Unreachable => ExitCode::TemporaryError,
    }
}

/// What is said of the objects that failed.
pub open spec fn failure_text(worst: Verdict, failed: nat, scanned: nat) -> Seq<char> {
    grouped(failed) + " of "@ + grouped(scanned) + (match worst {
        Verdict::Corrupt => " object(s) did not authenticate and were NOT served"@,
        Verdict::Missing => " object(s) are missing from the store"@,
        _ => " object(s) could not be read"@,
    })
}

/// The error that a run with failures ends with; none where nothing failed.
pub fn failure(worst: Verdict, failed: u64, scanned: u64) -> (r: Option<CliError>)
    ensures
        match r {
            None => failed == 0 || worst == Verdict::Intact,
            Some(e) => failed > 0 && worst != Verdict::Intact && e.is(
                code_for(worst),
                failure_text(worst, failed as nat, scanned as nat),
                Some("Run `dctl verify` on the objects that are named."@),
            ),
        },
{
    let code = match worst {
        Verdict::Intact => {
            return None;
        },
        Verdict::Corrupt => ExitCode::IntegrityFailure,
        Verdict::Missing => ExitCode::FileNotFound,
        Verdict::Unreachable => ExitCode::TemporaryError,
    };
    if failed == 0 {
        return None;
    }
    let tail = match worst {
        Verdict::Corrupt => " object(s) did not authenticate and were NOT served",
        Verdict::Missing => " object(s) are missing from the store",
        _ => " object(s) could not be read",
    };
    let f = output::count(failed);
    let s = output::count(scanned);
    Some(
        CliError::new(code, text::cat4(f.as_str(), " of ", s.as_str(), tail)).with_hint(
            "Run `dctl verify` on the objects that are named.".to_owned(),
        ),
    )
}

/// What a clean reading proves.
#[derive(Clone, Copy, Debug, PartialEq, Eq, Structural)]
pub enum Assurance {
    /// The bytes are those that were written.
    Authenticated,
    /// The object was there and its bytes came back.
    ReadBack,
}

impl Assurance {
    pub open spec fn word(self) -> Seq<char> {
        match self {
            Assurance::Authenticated => "authenticated"@,
            Assurance::ReadBack => "read-back"@,
        }
    }

    pub fn slug(self) -> (s: &'static str)
        ensures
            s@ == self.word(),
    {
        match self {
            Assurance::Authenticated => "authenticated",
            Assurance::ReadBack => "read-back",
        }
    }

    /// Whether damaged bytes would have been noticed.
    pub fn detects_corruption(self) -> (r: bool)
        ensures
            r == (self == Assurance::Authenticated),
    {
        match self {
            Assurance::Authenticated => true,
            Assurance::ReadBack => false,
        }
    }
}

/// Refuses to grade a remote whose readings cannot prove anything about its bytes, unless the
/// user asked for just that.
pub fn require(command: &str, target: &str, assurance: Assurance, allow_read_back: bool) -> (r:
    Result<()>)
    ensures
        match r {
            Ok(_) => assurance == Assurance::Authenticated || allow_read_back,
            Err(e) => assurance == Assurance::ReadBack && !allow_read_back && e.is(
                ExitCode::VerificationNotPossible,
                command@ + ": '"@ + target@ + "' records no hash of its own"@,
                Some(
                    "Name the vault, or pass --allow-read-back to check only that every object can be read."@,
                ),
            ),
        },
{
    if assurance.detects_corruption() || allow_read_back {
        return Ok(());
    }
    Err(
        CliError::new(
            ExitCode::VerificationNotPossible,
            text::cat4(command, ": '", target, "' records no hash of its own"),
        ).with_hint(
            "Name the vault, or pass --allow-read-back to check only that every object can be read.".to_owned(),
        ),
    )
}

/// Whether `e` refuses the target of a command that reads stored objects back.
pub open spec fn is_target_refusal(e: CliError, command: Seq<char>, spec: Seq<char>) -> bool {
    match naming(spec) {
        Naming::Nothing => e.is(
            ExitCode::Usage,
            "'"@ + spec + "' names neither a remote nor a path"@,
            Some("Write REMOTE:PATH, or a local path."@),
        ),
        Naming::Path(_) => e.is(
            ExitCode::Usage,
            command + ": '"@ + spec + "' is a local path, and holds no stored copy of anything"@,
            Some("Name what is stored, as REMOTE:PATH."@),
        ),
        Naming::Remote { .. } => false,
    }
}

/// Reads the target of a command that reads stored objects back: it has to be on a remote.
pub fn require_remote(command: &str, spec: &str) -> (r: Result<RemoteSpec>)
    ensures
        match r {
            Ok(RemoteSpec::Named { remote, path }) => naming(spec@) == (Naming::Remote {
                remote: remote@,
                path: path@,
            }),
            Ok(RemoteSpec::Local(_)) => false,
            Err(e) => is_target_refusal(e, command@, spec@),
        },
{
    match RemoteSpec::parse(spec) {
        Err(e) => Err(e),
        Ok(RemoteSpec::Named { remote, path }) => Ok(RemoteSpec::Named { remote, path }),
        Ok(RemoteSpec::Local(_)) => Err(
            CliError::usage(
                text::cat4(
                    command,
                    ": '",
                    spec,
                    "' is a local path, and holds no stored copy of anything",
                ),
            ).with_hint("Name what is stored, as REMOTE:PATH.".to_owned()),
        ),
    }
}

/// Taking the worse of two verdicts never makes a run look better, and does not depend on the
/// order in which they came.
pub proof fn the_worst_verdict_stands(a: Verdict, b: Verdict)
    ensures
        ({
            let ab = if b.rank() > a.rank() {
                b
            } else {
                a
            };
            let ba = if a.rank() > b.rank() {
                a
            } else {
                b
            };
            &&& ab == ba
            &&& ab.rank() >= a.rank()
            &&& ab.rank() >= b.rank()
        }),
{
}

/// An error is never an intact object. Bytes that fail their check are corrupt, an object that is
/// not there is missing, and every other error only says that the store could not be reached.
pub proof fn an_error_amounts_to_one_verdict(code: ExitCode)
    ensures
        verdict_of(code) == Verdict::Corrupt <==> code == ExitCode::IntegrityFailure || code
            == ExitCode::ChecksumMismatch,
        verdict_of(code) == Verdict::Missing <==> code == ExitCode::FileNotFound || code
            == ExitCode::DirNotFound,
        verdict_of(code) != Verdict::Intact,
{
}

/// Damage is worse than absence, absence is worse than an unreachable store, and everything is
/// worse than an intact object.
pub proof fn damage_is_the_worst(v: Verdict)
    ensures
        v.rank() <= Verdict::Corrupt.rank(),
        v.rank() >= Verdict::Intact.rank(),
        v != Verdict::Intact ==> v.rank() > Verdict::Intact.rank(),
        v != Verdict::Corrupt ==> v.rank() < Verdict::Corrupt.rank(),
        Verdict::Missing.rank() > Verdict::Unreachable.rank(),
{
}

/// The code that a run ends in tells its worst verdict, and is a success only where that is
/// intact.
pub proof fn the_code_tells_the_worst_verdict(worst: Verdict)
    ensures
        code_for(worst) == ExitCode::Success <==> worst == Verdict::Intact,
        code_for(worst) == ExitCode::IntegrityFailure <==> worst == Verdict::Corrupt,
        code_for(worst) == ExitCode::FileNotFound <==> worst == Verdict::Missing,
        code_for(worst) == ExitCode::TemporaryError <==> worst == Verdict::Unreachable,
        worst != Verdict::Intact && worst != Verdict::Unreachable ==> verdict_of(code_for(worst))
            == worst,
{
}

/// No two verdicts share a word.
pub proof fn verdict_words_are_distinct(a: Verdict, b: Verdict)
    requires
        a.word() == b.word(),
    ensures
        a == b,
{
    reveal_strlit("ok");
    reveal_strlit("unreachable");
    reveal_strlit("missing");
    reveal_strlit("corrupt");
    assert("ok"@.len() == 2);
    assert("unreachable"@.len() == 11);
    assert("missing"@[0] == 'm');
    assert("corrupt"@[0] == 'c');
    assert("missing"@.len() == 7);
    assert("corrupt"@.len() == 7);
}

/// No two strengths of verification share a word.
pub proof fn mode_words_are_distinct(a: VerifyMode, b: VerifyMode)
    requires
        a.word() == b.word(),
    ensures
        a == b,
{
    reveal_strlit("checksum");
    reveal_strlit("sample");
    reveal_strlit("strict");
    assert("checksum"@.len() == 8);
    assert("sample"@[1] == 'a');
    assert("strict"@[1] == 't');
    assert("sample"@.len() == 6);
    assert("strict"@.len() == 6);
}

/// What is said of failures fits the worst of them: what did not authenticate was not served,
/// what is missing is missing, and the rest could not be read.
pub proof fn a_failure_is_told_as_it_is(failed: nat, scanned: nat)
    ensures
        failure_text(Verdict::Corrupt, failed, scanned) == grouped(failed) + " of "@ + grouped(scanned)
            + " object(s) did not authenticate and were NOT served"@,
        failure_text(Verdict::Missing, failed, scanned) == grouped(failed) + " of "@ + grouped(scanned)
            + " object(s) are missing from the store"@,
        failure_text(Verdict::Unreachable, failed, scanned) == grouped(failed) + " of "@ + grouped(
            scanned,
        ) + " object(s) could not be read"@,
{
}

/// Only a target on a remote is accepted: nothing and a local path are refused as mistakes.
pub proof fn a_local_path_is_no_stored_copy(e: CliError, command: Seq<char>, spec: Seq<char>)
    requires
        is_target_refusal(e, command, spec),
    ensures
        !(naming(spec) is Remote),
        e.code == ExitCode::Usage,
{
}

} // verus!
