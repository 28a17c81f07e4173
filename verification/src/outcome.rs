//! What became of one file.

use vstd::prelude::*;
use vstd::string::*;

verus! {

/// Why a file was left as it was.
#[derive(Clone, Debug, PartialEq, Eq)]
pub enum SkipReason {
    /// The target, given here, is on disk already or was promised to
    /// another file of this run.
    TargetExists(String),
}

impl SkipReason {
    /// The reason in words.
    pub fn describe(&self) -> (text: String)
        ensures
            text@ == "target already exists"@,
    {
        match self {
            SkipReason::TargetExists(_) => String::from_str("target already exists"),
        }
    }
}

/// Why a rename could not be carried out.
#[derive(Clone, Debug, PartialEq, Eq)]
pub enum FileError {
    /// The content could not be read; the system's message.
    Read(String),
    /// The rename itself failed after the target was reserved; the
    /// system's message.
    Rename(String),
}

/// The result for one file. Every file of a run ends in exactly one.
#[derive(Clone, Debug, PartialEq, Eq)]
pub enum RenameOutcome {
    Renamed { from: String, to: String },
    Skipped { from: String, reason: SkipReason },
    Failed { from: String, error: FileError },
}

impl RenameOutcome {
    /// The path the file had when the run met it.
    pub open spec fn source(self) -> Seq<char> {
        match self {
            RenameOutcome::Renamed { from, .. } => from@,
            RenameOutcome::Skipped { from, .. } => from@,
            RenameOutcome::Failed { from, .. } => from@,
        }
    }

    /// The file at `from` was renamed to `to`.
    pub open spec fn is_renamed(self, from: Seq<char>, to: Seq<char>) -> bool {
        self matches RenameOutcome::Renamed { from: f, to: t } && f@ == from && t@ == to
    }

    /// The file at `from` was skipped because `target` exists.
    pub open spec fn is_skipped(self, from: Seq<char>, target: Seq<char>) -> bool {
        self matches RenameOutcome::Skipped { from: f, reason: SkipReason::TargetExists(t) }
            && f@ == from && t@ == target
    }

    /// The file at `from` could not be read, with the system's `message`.
    pub open spec fn is_read_failure(self, from: Seq<char>, message: Seq<char>) -> bool {
        self matches RenameOutcome::Failed { from: f, error: FileError::Read(m) } && f@ == from
            && m@ == message
    }

    /// The rename of the file at `from` failed, with the system's `message`.
    pub open spec fn is_rename_failure(self, from: Seq<char>, message: Seq<char>) -> bool {
        self matches RenameOutcome::Failed { from: f, error: FileError::Rename(m) } && f@
            == from && m@ == message
    }

    /// The outcome of a file whose content could not be read.
    pub fn read_failed(from: &str, message: String) -> (outcome: RenameOutcome)
        ensures
            outcome.is_read_failure(from@, message@),
    {
        RenameOutcome::Failed { from: from.to_owned(), error: FileError::Read(message) }
    }
}

} // verus!
