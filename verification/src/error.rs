//! How a command ends: the exit code, and the error that carries it.
use vstd::prelude::*;

use crate::text;
use crate::text::view_option;

verus! {

/// What a finished command tells the shell.
#[derive(Clone, Copy, Debug, PartialEq, Eq, Structural)]
pub enum ExitCode {
    /// Everything that was asked for was done.
    Success,
    /// The request itself was wrong.
    Usage,
    /// A failure that has no better name.
    Uncategorised,
    /// A directory that does not exist was named.
    DirNotFound,
    /// An object that does not exist was named.
    FileNotFound,
    /// The failure may go away when the command is repeated.
    TemporaryError,
    /// The run finished, and some of its objects failed.
    PartialFailure,
    /// The run could not proceed at all.
    FatalError,
    /// The run worked and had nothing to work on.
    NoFilesTransferred,
    /// What was read back differs from what was written.
    ChecksumMismatch,
    /// Stored data is damaged.
    IntegrityFailure,
    /// The vault's key is not available.
    VaultLocked,
    /// The person at the prompt said no.
    Cancelled,
    /// Nothing about the target could be verified.
    VerificationNotPossible,
}

impl ExitCode {
    /// The number that a code is reported as.
    pub open spec fn number(self) -> i32 {
        match self {
            ExitCode::Success => 0,
            ExitCode::Usage => 1,
            ExitCode::Uncategorised => 2,
            ExitCode::DirNotFound => 3,
            ExitCode::FileNotFound => 4,
            ExitCode::TemporaryError => 5,
            ExitCode::PartialFailure => 6,
            ExitCode::FatalError => 7,
            ExitCode::NoFilesTransferred => 9,
            ExitCode::ChecksumMismatch => 20,
            ExitCode::IntegrityFailure => 21,
            ExitCode::VaultLocked => 22,
            ExitCode::Cancelled => 25,
            ExitCode::VerificationNotPossible => 27,
        }
    }

    pub fn as_i32(self) -> (n: i32)
        ensures
            n == self.number(),
    {
        match self {
            ExitCode::Success => 0,
            ExitCode::Usage => 1,
            ExitCode::Uncategorised => 2,
            ExitCode::DirNotFound => 3,
            ExitCode::FileNotFound => 4,
            ExitCode::TemporaryError => 5,
            ExitCode::PartialFailure => 6,
            ExitCode::FatalError => 7,
            ExitCode::NoFilesTransferred => 9,
            ExitCode::ChecksumMismatch => 20,
            ExitCode::IntegrityFailure => 21,
            ExitCode::VaultLocked => 22,
            ExitCode::Cancelled => 25,
            ExitCode::VerificationNotPossible => 27,
        }
    }
}

/// No two exit codes are reported as the same number, and only success is zero.
pub proof fn exit_codes_are_distinct(a: ExitCode, b: ExitCode)
    ensures
        a.number() == b.number() ==> a == b,
        a.number() == 0 <==> a == ExitCode::Success,
{
}

/// An error for the person who ran the command: a code, what went wrong, and what to do next.
#[derive(Debug)]
pub struct CliError {
    pub code: ExitCode,
    pub message: String,
    pub hint: Option<String>,
}

pub type Result<T> = core::result::Result<T, CliError>;

impl CliError {
    /// Whether this is the error with these three parts.
    pub open spec fn is(self, code: ExitCode, message: Seq<char>, hint: Option<Seq<char>>) -> bool {
        &&& self.code == code
        &&& self.message@ == message
        &&& view_option(self.hint) == hint
    }

    pub fn new(code: ExitCode, message: String) -> (e: CliError)
        ensures
            e.is(code, message@, None),
    {
        CliError { code, message, hint: None }
    }

    /// An error of usage.
    pub fn usage(message: String) -> (e: CliError)
        ensures
            e.is(ExitCode::Usage, message@, None),
    {
        CliError { code: ExitCode::Usage, message, hint: None }
    }

    /// The refusal of something that cannot be done.
    pub fn unimplemented(feature: &str) -> (e: CliError)
        ensures
            e.is(ExitCode::FatalError, feature@ + " is not implemented"@, None),
    {
        CliError {
            code: ExitCode::FatalError,
            message: text::cat2(feature, " is not implemented"),
            hint: None,
        }
    }

    /// The same error, with advice.
    pub fn with_hint(self, hint: String) -> (e: CliError)
        ensures
            e.is(self.code, self.message@, Some(hint@)),
    {
        CliError { code: self.code, message: self.message, hint: Some(hint) }
    }

    pub fn code(&self) -> (c: ExitCode)
        ensures
            c == self.code,
    {
        self.code
    }

    pub fn message(&self) -> (m: &str)
        ensures
            m@ == self.message@,
    {
        self.message.as_str()
    }

    pub fn hint(&self) -> (h: Option<&str>)
        ensures
            h is Some <==> self.hint is Some,
            h matches Some(t) ==> t@ == self.hint->0@,
    {
        match &self.hint {
            Some(t) => Some(t.as_str()),
            None => None,
        }
    }

    /// An error of usage with advice, from fixed text.
    pub fn advice(message: &str, hint: &str) -> (e: CliError)
        ensures
            e.is(ExitCode::Usage, message@, Some(hint@)),
    {
        CliError { code: ExitCode::Usage, message: message.to_owned(), hint: Some(hint.to_owned()) }
    }
}

/// An error that is said to have a code, a message and a hint has all three, and no other.
pub proof fn an_error_has_its_three_parts(
    e: CliError,
    code: ExitCode,
    message: Seq<char>,
    hint: Option<Seq<char>>,
)
    ensures
        e.is(code, message, hint) <==> e.code == code && e.message@ == message && (match e.hint {
            Some(h) => hint == Some(h@),
            None => hint is None,
        }),
{
}

/// The numbers that scripts rely on: what went wrong with the request, with some objects, with
/// the whole run, and with stored bytes.
pub proof fn codes_are_reported_as_their_numbers()
    ensures
        ExitCode::Success.number() == 0,
        ExitCode::Usage.number() == 1,
        ExitCode::Uncategorised.number() == 2,
        ExitCode::DirNotFound.number() == 3,
        ExitCode::FileNotFound.number() == 4,
        ExitCode::TemporaryError.number() == 5,
        ExitCode::PartialFailure.number() == 6,
        ExitCode::FatalError.number() == 7,
        ExitCode::NoFilesTransferred.number() == 9,
        ExitCode::ChecksumMismatch.number() == 20,
        ExitCode::IntegrityFailure.number() == 21,
        ExitCode::VaultLocked.number() == 22,
        ExitCode::Cancelled.number() == 25,
        ExitCode::VerificationNotPossible.number() == 27,
{
}

} // verus!
