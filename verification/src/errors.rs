//! The error kinds of the tool. Every one is fatal to a run: nothing is
//! retried and nothing is recovered silently.

use vstd::prelude::*;

verus! {

/// Why a run stopped early on an expected condition.
#[derive(Clone, Copy, PartialEq, Eq, Structural, Debug)]
pub enum AbortReason {
    /// The picker returned an empty selection.
    NoSelection,
    /// A selected history line matched no stored entry.
    StaleHistoryEntry,
    /// The selected repository holds no files.
    EmptyRepository,
    /// The picker returned an empty selection at the file round.
    NoFileSelected,
    /// The transfer of the chosen file failed.
    DownloadFailed,
}

/// Everything that can go wrong in one run.
#[derive(Clone, Copy, PartialEq, Eq, Structural, Debug)]
pub enum ToolError {
    /// The history file could not be read or written, for a reason other
    /// than absence.
    StorageError,
    /// The history file is present but not parsable.
    CorruptHistory,
    /// No user could be resolved.
    NoUser,
    /// The user has no repositories.
    NoRepos,
    /// The repository resolved to no default branch.
    NoBranch,
    /// The tree response is not parsable.
    MalformedResponse,
    /// The run stopped on an expected condition.
    Aborted(AbortReason),
    /// The picker returned a line that is not in the candidate list.
    SelectionMismatch,
}

} // verus!
