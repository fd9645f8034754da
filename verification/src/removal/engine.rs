//! The end of a removal: what to say when nothing happened, and the refusal of a removal that
//! nobody confirmed.
use vstd::prelude::*;

use crate::error::{CliError, ExitCode};
use crate::output::{Level, Notice};
use crate::removal::operation::Operation;
use crate::removal::report::Totals;
use crate::removal::target::Target;
use crate::text;
use crate::text::digits;

verus! {

/// Whether the run has anything to show for itself.
pub open spec fn acted(t: Totals) -> bool {
    t.removed > 0 || t.would_remove > 0 || t.absent > 0 || t.failed > 0 || t.held > 0
}

/// The words for a run that did nothing.
pub open spec fn idle_text(operation: Operation, target: Target, considered: nat) -> Seq<char> {
    let shown = target.text();
    if operation is Cleanup {
        "no reclaimable debris found in '"@ + shown + "'"@
    } else if considered == 0 {
        "nothing is stored under '"@ + shown + "'"@
    } else if operation is Delete || operation is DeleteFile || operation is Purge {
        "no objects under '"@ + shown + "' matched ("@ + digits(considered) + " considered)"@
    } else {
        "no empty directories under '"@ + shown + "'"@
    }
}

/// What to say of a run that did nothing: whether there was nothing there, or nothing that
/// the request took.
pub fn note_empty(operation: &Operation, target: &Target, considered: usize, totals: &Totals) -> (n:
    Option<Notice>)
    ensures
        match n {
            None => acted(*totals),
            Some(notice) => !acted(*totals) && notice.is(
                Level::Info,
                idle_text(*operation, *target, considered as nat),
            ),
        },
{
    if totals.removed > 0 || totals.would_remove > 0 || totals.absent > 0 || totals.failed > 0
        || totals.held > 0 {
        return None;
    }
    let shown = target.to_text();
    let message = if operation.is_cleanup() {
        text::cat3("no reclaimable debris found in '", shown.as_str(), "'")
    } else if considered == 0 {
        text::cat3("nothing is stored under '", shown.as_str(), "'")
    } else if operation.removes_user_data() {
        let n = text::decimal(considered as u64);
        text::cat5("no objects under '", shown.as_str(), "' matched (", n.as_str(), " considered)")
    } else {
        text::cat3("no empty directories under '", shown.as_str(), "'")
    };
    Some(Notice::new(Level::Info, message))
}

/// Whether `e` is the refusal of an action that nobody confirmed.
pub open spec fn is_declined(e: CliError, action: Seq<char>, target: Seq<char>) -> bool {
    e.is(
        ExitCode::Cancelled,
        "cancelled: '"@ + action + "' on '"@ + target + "' was not confirmed"@,
        Some(
            "Type 'yes' at the prompt to confirm, or pass --force to approve destructive actions without being asked."@,
        ),
    )
}

/// The refusal of an action that nobody confirmed.
pub fn declined(action: &str, target: &str) -> (e: CliError)
    ensures
        is_declined(e, action@, target@),
{
    CliError::new(
        ExitCode::Cancelled,
        text::cat5("cancelled: '", action, "' on '", target, "' was not confirmed"),
    ).with_hint(
        "Type 'yes' at the prompt to confirm, or pass --force to approve destructive actions without being asked.".to_owned(),
    )
}

/// A run has something to show exactly where it removed something, would have, found something
/// gone, failed at something, or held something back.
pub proof fn a_run_that_touched_nothing_says_so(t: Totals)
    ensures
        !acted(t) <==> t.removed == 0 && t.would_remove == 0 && t.absent == 0 && t.failed == 0
            && t.held == 0,
{
}

/// A run that did nothing says whether there was nothing there, or nothing that it takes.
pub proof fn an_empty_run_says_why(operation: Operation, target: Target, considered: nat)
    ensures
        !(operation is Cleanup) && considered == 0 ==> idle_text(operation, target, considered)
            == "nothing is stored under '"@ + target.text() + "'"@,
        considered > 0 && (operation is Delete || operation is DeleteFile || operation is Purge)
            ==> idle_text(operation, target, considered) == "no objects under '"@ + target.text()
            + "' matched ("@ + digits(considered) + " considered)"@,
        considered > 0 && (operation is Rmdir || operation is Rmdirs) ==> idle_text(
            operation,
            target,
            considered,
        ) == "no empty directories under '"@ + target.text() + "'"@,
        operation is Cleanup ==> idle_text(operation, target, considered)
            == "no reclaimable debris found in '"@ + target.text() + "'"@,
{
}

/// What was not confirmed was cancelled, and that is neither a mistake nor a failure.
pub proof fn what_was_not_confirmed_was_cancelled(
    e: CliError,
    action: Seq<char>,
    target: Seq<char>,
)
    requires
        is_declined(e, action, target),
    ensures
        e.code == ExitCode::Cancelled,
        e.message@ == "cancelled: '"@ + action + "' on '"@ + target + "' was not confirmed"@,
        e.hint is Some,
{
}

} // verus!
