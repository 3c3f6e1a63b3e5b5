//! The reasons for which a mirror run fails. Every one of them ends the run.

use vstd::prelude::*;

verus! {

/// Why a run failed. Each variant carries the text that is shown to the user.
#[derive(Debug, PartialEq, Eq)]
pub enum PatchConfigError {
    SourceNotDirectory(String),
    TargetAlreadyExists(String),
    ReadSourceDirectoryFailed(String),
    ReadSourceDirectoryEntryFailed(String),
    SourceFileNameInvalid(String),
    CreateTargetDirectoryFailed(String),
    ReadSourceFileFailed(String),
    WriteTargetFileFailed(String),
    NoArchiveFile(String),
    OpenArchiveFailed(String),
    ReadArchiveFailed(String),
    MetadataFailed(String),
    MetadataDirectoryFailed(String),
    WriteMetadataFailed(String),
    ArchiveContainsDirectory(String),
}

impl PatchConfigError {
    /// The text that the error carries.
    pub open spec fn message(&self) -> Seq<char> {
        match self {
            PatchConfigError::SourceNotDirectory(s) => s@,
            PatchConfigError::TargetAlreadyExists(s) => s@,
            PatchConfigError::ReadSourceDirectoryFailed(s) => s@,
            PatchConfigError::ReadSourceDirectoryEntryFailed(s) => s@,
            PatchConfigError::SourceFileNameInvalid(s) => s@,
            PatchConfigError::CreateTargetDirectoryFailed(s) => s@,
            PatchConfigError::ReadSourceFileFailed(s) => s@,
            PatchConfigError::WriteTargetFileFailed(s) => s@,
            PatchConfigError::NoArchiveFile(s) => s@,
            PatchConfigError::OpenArchiveFailed(s) => s@,
            PatchConfigError::ReadArchiveFailed(s) => s@,
            PatchConfigError::MetadataFailed(s) => s@,
            PatchConfigError::MetadataDirectoryFailed(s) => s@,
            PatchConfigError::WriteMetadataFailed(s) => s@,
            PatchConfigError::ArchiveContainsDirectory(s) => s@,
        }
    }

    /// The reason as text, whatever the variant.
    pub fn to_string(&self) -> (text: String)
        ensures
            text@ == self.message(),
    {
        match self {
            PatchConfigError::SourceNotDirectory(s) => s.clone(),
            PatchConfigError::TargetAlreadyExists(s) => s.clone(),
            PatchConfigError::ReadSourceDirectoryFailed(s) => s.clone(),
            PatchConfigError::ReadSourceDirectoryEntryFailed(s) => s.clone(),
            PatchConfigError::SourceFileNameInvalid(s) => s.clone(),
            PatchConfigError::CreateTargetDirectoryFailed(s) => s.clone(),
            PatchConfigError::ReadSourceFileFailed(s) => s.clone(),
            PatchConfigError::WriteTargetFileFailed(s) => s.clone(),
            PatchConfigError::NoArchiveFile(s) => s.clone(),
            PatchConfigError::OpenArchiveFailed(s) => s.clone(),
            PatchConfigError::ReadArchiveFailed(s) => s.clone(),
            PatchConfigError::MetadataFailed(s) => s.clone(),
            PatchConfigError::MetadataDirectoryFailed(s) => s.clone(),
            PatchConfigError::WriteMetadataFailed(s) => s.clone(),
            PatchConfigError::ArchiveContainsDirectory(s) => s.clone(),
        }
    }
}

} // verus!
