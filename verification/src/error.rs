//! The ways in which a sync round fails.

use vstd::prelude::*;

verus! {

/// Why a sync round stopped.
#[derive(Clone, Copy, Debug, PartialEq, Eq, Structural)]
pub enum SyncError {
    /// No root marker was found in the directory or any of its ancestors.
    RootNotFound,
    /// The persisted baseline is not empty and cannot be read as a baseline.
    /// It is never repaired or reset: its versions are shared with the remote.
    StateCorrupt,
    /// A file could not be read or written.
    FilesystemError,
    /// The exchange with the remote failed or was answered with a failure.
    /// Nothing was changed locally.
    NetworkError,
    /// Files were changed as the remote directed, but the new baseline could
    /// not be persisted: the baseline may be behind the directory.
    PartiallyApplied,
}

impl SyncError {
    /// Whether the round left the directory and the baseline as they were, so
    /// that it can simply be run again.
    pub open spec fn spec_left_untouched(self) -> bool {
        self != SyncError::PartiallyApplied
    }

    /// Whether the round left the directory and the baseline as they were, so
    /// that it can simply be run again.
    #[verifier::when_used_as_spec(spec_left_untouched)]
    pub fn left_untouched(self) -> (untouched: bool)
        ensures
            untouched == self.spec_left_untouched(),
    {
        match self {
            SyncError::PartiallyApplied => false,
            _ => true,
        }
    }

    /// The error to report for a failure that came after `applied` changes
    /// had been made on disk for this round: once a change was made and the
    /// round did not end with the baseline saved, the round is partially
    /// applied, whatever went wrong; before any change the failure stands as
    /// it is.
    pub fn after_changes(self, applied: usize) -> (reported: SyncError)
        ensures
            reported == failure_after(self, applied as nat),
    {
        if applied > 0 {
            SyncError::PartiallyApplied
        } else {
            self
        }
    }

    /// A sentence for the user.
    pub fn message(self) -> (text: &'static str)
        ensures
            text@ == error_message(self),
    {
        match self {
            SyncError::RootNotFound => "no sync root found: run init first",
            SyncError::StateCorrupt => "the baseline file is corrupt",
            SyncError::FilesystemError => "a file could not be read or written",
            SyncError::NetworkError => "the exchange with the remote failed",
            SyncError::PartiallyApplied =>
                "changes were applied but the baseline was not saved: run sync again",
        }
    }
}

/// What a failure is reported as once `applied` changes were made on disk.
pub open spec fn failure_after(error: SyncError, applied: nat) -> SyncError {
    if applied > 0 {
        SyncError::PartiallyApplied
    } else {
        error
    }
}

/// The sentence that describes an error to the user.
pub open spec fn error_message(error: SyncError) -> Seq<char> {
    match error {
        SyncError::RootNotFound => "no sync root found: run init first"@,
        SyncError::StateCorrupt => "the baseline file is corrupt"@,
        SyncError::FilesystemError => "a file could not be read or written"@,
        SyncError::NetworkError => "the exchange with the remote failed"@,
        SyncError::PartiallyApplied =>
            "changes were applied but the baseline was not saved: run sync again"@,
    }
}

} // verus!
