//! What can go wrong, as values a caller can branch on.

use vstd::prelude::*;
use vstd::std_specs::convert::FromSpecImpl;

verus! {

/// Why a filename was refused.
#[derive(Clone, Copy, Debug, PartialEq, Eq)]
pub enum PathError {
    /// Nothing is left of the filename once the whitespace around it is removed.
    Empty,
    /// The filename has more characters than the bound allows.
    TooLong,
    /// The filename holds a NUL character.
    InvalidCharacter,
    /// The filename starts at the filesystem root.
    AbsoluteNotAllowed,
    /// A segment of the filename is the parent marker.
    TraversalNotAllowed,
    /// The directory that would hold the file could not be resolved.
    InvalidParent,
    /// The resolved path is neither the working directory nor below it.
    Escapes,
}

/// Why an operation did not go through.
#[derive(Debug, PartialEq, Eq)]
pub enum OpError {
    /// The filename was refused.
    InvalidPath(PathError),
    /// Nothing exists at the path.
    NotFound,
    /// What exists at the path is not a regular file.
    NotAFile,
    /// The file has no backup to restore from.
    NoBackup,
    /// The filesystem refused the copy or the removal; the text says why.
    IoFailure(String),
}

/// How a deletion ended when nothing went wrong.
#[derive(Clone, Copy, Debug, PartialEq, Eq)]
pub enum DeleteOutcome {
    /// The file was removed.
    Deleted,
    /// The confirmation was not given, and the file stays.
    Cancelled,
}

impl PathError {
    /// The sentence that tells a person what was wrong with the filename.
    pub open spec fn reason_text(self) -> Seq<char> {
        match self {
            PathError::Empty => "Empty filename"@,
            PathError::TooLong => "Filename is too long"@,
            PathError::InvalidCharacter => "Invalid character in filename"@,
            PathError::AbsoluteNotAllowed => "Absolute paths are not allowed"@,
            PathError::TraversalNotAllowed => "Parent directory traversal is not allowed"@,
            PathError::InvalidParent => "Parent directory cannot be resolved"@,
            PathError::Escapes => "Path escapes the working directory"@,
        }
    }

    /// Writes out `reason_text`.
    pub fn reason(&self) -> (text: String)
        ensures
            text@ == self.reason_text(),
    {
        match self {
            PathError::Empty => "Empty filename".to_owned(),
            PathError::TooLong => "Filename is too long".to_owned(),
            PathError::InvalidCharacter => "Invalid character in filename".to_owned(),
            PathError::AbsoluteNotAllowed => "Absolute paths are not allowed".to_owned(),
            PathError::TraversalNotAllowed => "Parent directory traversal is not allowed".to_owned(),
            PathError::InvalidParent => "Parent directory cannot be resolved".to_owned(),
            PathError::Escapes => "Path escapes the working directory".to_owned(),
        }
    }
}

impl OpError {
    /// The sentence that tells a person why the operation did not go through:
    /// for a filesystem failure, the text the filesystem gave.
    pub open spec fn reason_text(self) -> Seq<char> {
        match self {
            OpError::InvalidPath(e) => e.reason_text(),
            OpError::NotFound => "File does not exist"@,
            OpError::NotAFile => "Path is not a regular file"@,
            OpError::NoBackup => "Backup file not found"@,
            OpError::IoFailure(detail) => detail@,
        }
    }

    /// Writes out `reason_text`.
    pub fn reason(&self) -> (text: String)
        ensures
            text@ == self.reason_text(),
    {
        match self {
            OpError::InvalidPath(e) => e.reason(),
            OpError::NotFound => "File does not exist".to_owned(),
            OpError::NotAFile => "Path is not a regular file".to_owned(),
            OpError::NoBackup => "Backup file not found".to_owned(),
            OpError::IoFailure(detail) => detail.clone(),
        }
    }
}

impl Clone for OpError {
    fn clone(&self) -> (copy: OpError)
        ensures
            copy == *self,
    {
        match self {
            OpError::InvalidPath(e) => OpError::InvalidPath(*e),
            OpError::NotFound => OpError::NotFound,
            OpError::NotAFile => OpError::NotAFile,
            OpError::NoBackup => OpError::NoBackup,
            OpError::IoFailure(detail) => OpError::IoFailure(detail.clone()),
        }
    }
}

impl From<PathError> for OpError {
    fn from(e: PathError) -> (r: OpError) {
        OpError::InvalidPath(e)
    }
}

impl FromSpecImpl<PathError> for OpError {
    open spec fn obeys_from_spec() -> bool {
        true
    }

    open spec fn from_spec(e: PathError) -> OpError {
        OpError::InvalidPath(e)
    }
}

} // verus!
