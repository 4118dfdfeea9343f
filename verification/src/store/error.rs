//! Why the store refuses to go on.
use vstd::prelude::*;

use crate::manifest::{ChunkError, ManifestError};
use crate::record::SyncRecordError;

verus! {

/// What went wrong while local work was kept safe. No local path is ever part of it.
#[derive(Clone, Copy, Debug, PartialEq, Eq, Structural)]
pub enum PreservationError {
    /// There is no private place on the volume of the folder.
    RecoveryUnavailable,
    /// Something else has changed the folder meanwhile.
    LocalChanged,
    /// What was kept is missing or is not what it should be.
    StateUnavailable,
}

/// The text of a failure.
pub open spec fn preservation_text(error: PreservationError) -> Seq<char> {
    match error {
        PreservationError::RecoveryUnavailable =>
        "private recovery unavailable; choose a folder with same-volume private recovery space"@,
        PreservationError::LocalChanged => "local state changed; retry synchronization"@,
        PreservationError::StateUnavailable => "retained recovery state unavailable"@,
    }
}

impl PreservationError {
    /// The text that the failure is shown as.
    pub fn message(&self) -> (text: &'static str)
        ensures
            text@ == preservation_text(*self),
    {
        match self {
            PreservationError::RecoveryUnavailable =>
            "private recovery unavailable; choose a folder with same-volume private recovery space",
            PreservationError::LocalChanged => "local state changed; retry synchronization",
            PreservationError::StateUnavailable => "retained recovery state unavailable",
        }
    }
}

/// Why the store refuses to go on.
#[derive(Clone, Copy, Debug, PartialEq, Eq, Structural)]
pub enum StoreError {
    /// A manifest breaks its schema.
    Manifest(ManifestError),
    /// Bytes are not the chunk that a descriptor describes.
    Chunk(ChunkError),
    /// A record breaks its rules.
    Record(SyncRecordError),
    /// Work was not kept safe.
    Preservation(PreservationError),
    /// Bytes do not have the digest that they are offered under.
    MislabeledChunk,
    /// A chunk does not have the digest that it is kept under.
    CorruptChunk,
    /// A chunk could not be moved to its place.
    NotInstalled,
    /// A chunk is longer or shorter than its extent.
    ExtentMismatch,
    /// A file that was put together does not have the digest of its manifest.
    FileHashMismatch,
    /// The root of the folder is no real directory.
    RootNotReal,
    /// A directory above the path is a symbolic link.
    BeneathSymlink,
    /// Something above the path is no directory.
    AncestorNotDirectory,
    /// A directory that holds something is where a file should go.
    DirectoryInTheWay,
    /// Something else is where a directory should go.
    NotADirectory,
    /// What should be a regular file is none.
    NotARegularFile,
    /// A local object is of a kind that cannot be observed.
    UnsupportedObject,
    /// A local object changed while it was observed.
    ChangedWhileObserving,
    /// A file changed while its write permission was set.
    ChangedByReadonlyUpdate,
    /// The write permission is not as it was set.
    ReadonlyNotApplied,
    /// A directory that is to go holds something.
    DirectoryNotEmpty,
    /// The filesystem does not tell one object from another.
    IdentityUnavailable,
    /// A journal entry does not name what it should.
    InvalidBinding,
    /// A change is not in the state that a step starts from.
    WrongState,
    /// The incoming file is not the one that was put together.
    StagingChanged,
    /// What was set aside is not what was expected.
    CaptureChanged,
    /// Something came back where nothing should be.
    Recreated,
    /// A file is to be applied without a manifest.
    ManifestMissing,
    /// The manifest is not one of the record.
    ManifestMismatch,
    /// What is kept of an authorization is too large.
    AuthorizationTooLarge,
    /// The change was made for no record.
    NoCausalBinding,
    /// The change was made for a record.
    BoundToRecord,
    /// The change is not one of a file.
    NotAFileChange,
    /// Others than the owner can enter a place that should be private.
    NotPrivate,
}

} // verus!
