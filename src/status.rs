//! What the version control says of a file, and the exclusion rule built on it.
use vstd::prelude::*;

verus! {

/// The status of a file in the version-control working tree.
#[derive(Clone, Copy, Debug, PartialEq, Eq, Structural)]
pub enum FileStatus {
    /// Tracked and unchanged since the last commit.
    Unmodified,
    /// New, or changed since the last commit.
    Changed,
    /// Ignored by the version control.
    Ignored,
}

impl FileStatus {
    /// Whether the file is new or changed. An ignored file counts as unmodified.
    pub fn is_modified(&self) -> (r: bool)
        ensures
            r == (*self == FileStatus::Changed),
    {
        match self {
            FileStatus::Changed => true,
            _ => false,
        }
    }
}

/// Whether the walk stops at a file when only changed files are followed:
/// it does at a file known to be unmodified or ignored. When the status could
/// not be determined (`None`), the file counts as changed and the walk goes on.
pub fn exclude_unchanged(status: Option<FileStatus>) -> (r: bool)
    ensures
        r == (status == Some(FileStatus::Unmodified) || status == Some(FileStatus::Ignored)),
{
    match status {
        Some(s) => !s.is_modified(),
        None => false,
    }
}

} // verus!
