//! What a caller needs to report an operation: which action it was, how it
//! ended, and the line that records both.

use crate::error::{DeleteOutcome, OpError};
use crate::path::same_text;
use crate::text::chars_of;
use vstd::prelude::*;
use vstd::string::StringExecFns;

verus! {

/// The operations that a user can ask for.
#[derive(Clone, Copy, Debug, PartialEq, Eq)]
pub enum Action {
    Backup,
    Restore,
    Delete,
}

/// How an operation ended, as a record shows it.
#[derive(Debug, PartialEq, Eq)]
pub enum OperationOutcome {
    /// The operation did what was asked.
    Success,
    /// The operation did not go through; the text says why.
    Failure(String),
    /// A deletion was not confirmed.
    Cancelled,
}

impl Clone for OperationOutcome {
    fn clone(&self) -> (copy: OperationOutcome)
        ensures
            copy == *self,
    {
        match self {
            OperationOutcome::Success => OperationOutcome::Success,
            OperationOutcome::Failure(reason) => OperationOutcome::Failure(reason.clone()),
            OperationOutcome::Cancelled => OperationOutcome::Cancelled,
        }
    }
}

impl Action {
    /// The word for the action, in commands and in records.
    pub open spec fn name_text(self) -> Seq<char> {
        match self {
            Action::Backup => "backup"@,
            Action::Restore => "restore"@,
            Action::Delete => "delete"@,
        }
    }

    /// Writes out `name_text`.
    pub fn name(&self) -> (word: &'static str)
        ensures
            word@ == self.name_text(),
    {
        match self {
            Action::Backup => "backup",
            Action::Restore => "restore",
            Action::Delete => "delete",
        }
    }

    /// The action that `word` is the word for, letter for letter.
    pub fn from_name(word: &str) -> (r: Option<Action>)
        ensures
            forall|action: Action| r == Some(action) <==> word@ == action.name_text(),
    {
        let w = chars_of(word);
        let r = if same_text(&w, &chars_of("backup")) {
            Some(Action::Backup)
        } else if same_text(&w, &chars_of("restore")) {
            Some(Action::Restore)
        } else if same_text(&w, &chars_of("delete")) {
            Some(Action::Delete)
        } else {
            None
        };
        proof {
            lemma_action_names_differ();
            assert(Action::Backup.name_text() == "backup"@);
            assert(Action::Restore.name_text() == "restore"@);
            assert(Action::Delete.name_text() == "delete"@);
        }
        r
    }
}

/// No two actions share a word.
pub proof fn lemma_action_names_differ()
    ensures
        forall|a: Action, b: Action| a.name_text() == b.name_text() ==> a == b,
{
    reveal_strlit("backup");
    reveal_strlit("restore");
    reveal_strlit("delete");
    assert("backup"@.len() == 6 && "restore"@.len() == 7 && "delete"@.len() == 6);
    assert("backup"@[0] == 'b' && "delete"@[0] == 'd');
}

impl OperationOutcome {
    /// The word for the outcome in a record.
    pub open spec fn status_text(self) -> Seq<char> {
        match self {
            OperationOutcome::Success => "success"@,
            OperationOutcome::Failure(_) => "failure"@,
            OperationOutcome::Cancelled => "cancelled"@,
        }
    }

    /// Writes out `status_text`.
    pub fn status(&self) -> (word: &'static str)
        ensures
            word@ == self.status_text(),
    {
        match self {
            OperationOutcome::Success => "success",
            OperationOutcome::Failure(_) => "failure",
            OperationOutcome::Cancelled => "cancelled",
        }
    }

    /// The outcome of a backup or of a restoring that ended as `result` says.
    pub fn of<T>(result: &Result<T, OpError>) -> (outcome: OperationOutcome)
        ensures
            match *result {
                Ok(_) => outcome == OperationOutcome::Success,
                Err(e) => outcome is Failure && outcome->Failure_0@ == e.reason_text(),
            },
    {
        match result {
            Ok(_) => OperationOutcome::Success,
            Err(e) => OperationOutcome::Failure(e.reason()),
        }
    }

    /// The outcome of a deletion that ended as `result` says.
    pub fn of_deletion(result: &Result<DeleteOutcome, OpError>) -> (outcome: OperationOutcome)
        ensures
            match *result {
                Ok(DeleteOutcome::Deleted) => outcome == OperationOutcome::Success,
                Ok(DeleteOutcome::Cancelled) => outcome == OperationOutcome::Cancelled,
                Err(e) => outcome is Failure && outcome->Failure_0@ == e.reason_text(),
            },
    {
        match result {
            Ok(DeleteOutcome::Deleted) => OperationOutcome::Success,
            Ok(DeleteOutcome::Cancelled) => OperationOutcome::Cancelled,
            Err(e) => OperationOutcome::Failure(e.reason()),
        }
    }
}

/// The line that records an operation: the time, the action, the filename as
/// the user gave it and the status, separated by bars; after a failure, the
/// reason follows.
pub open spec fn log_line_text(
    timestamp: Seq<char>,
    action: Action,
    filename: Seq<char>,
    outcome: OperationOutcome,
) -> Seq<char> {
    let head = timestamp + " | "@ + action.name_text() + " | "@ + filename + " | "@
        + outcome.status_text();
    match outcome {
        OperationOutcome::Failure(detail) => head + " | error="@ + detail@,
        _ => head,
    }
}

/// Writes out `log_line_text`, without a line break.
pub fn log_line(
    timestamp: &str,
    action: Action,
    filename: &str,
    outcome: &OperationOutcome,
) -> (line: String)
    ensures
        line@ == log_line_text(timestamp@, action, filename@, *outcome),
{
    let mut line = timestamp.to_owned();
    line.append(" | ");
    line.append(action.name());
    line.append(" | ");
    line.append(filename);
    line.append(" | ");
    line.append(outcome.status());
    match outcome {
        OperationOutcome::Failure(detail) => {
            line.append(" | error=");
            line.append(detail.as_str());
        },
        _ => {},
    }
    line
}

} // verus!
