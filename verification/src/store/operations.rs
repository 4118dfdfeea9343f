//! Files that are put together from chunks, and what is done to install and to remove them.
use vstd::prelude::*;

use crate::hash::{blake3_derived, blake3_digest, push_bytes, ContentHasher, Hash32};
use crate::manifest::{
    extent_end, manifest_digest, manifest_fault, ChunkDescriptor, FileManifest, ManifestView,
};
use crate::path::WirePath;
use crate::store::chunks::ChunkStore;
use crate::store::error::StoreError;
use crate::store::observe::{
    check_destination, destination_fault, EntryKind, MaterializationObservation,
};

verus! {

/// How far the application of a file has come.
#[derive(Clone, Copy, Debug, PartialEq, Eq, Structural)]
pub enum OperationState {
    /// The manifest was accepted; the file may not be there yet.
    Prepared,
    /// File and metadata are there.
    Committed,
}

/// A journal entry for the application of a file.
#[derive(Debug, PartialEq, Eq)]
pub struct OperationRecord {
    pub id: Hash32,
    pub path: WirePath,
    pub file_hash: Hash32,
    pub state: OperationState,
}

/// The bytes of an operation's identity: the same path and the same manifest are the same
/// operation.
pub open spec fn operation_digest(path: Seq<u8>, manifest: ManifestView) -> Seq<u8> {
    blake3_derived("deltaweave operation v1"@, path + manifest_digest(manifest))
}

/// The entry is the one for a file and a path.
pub open spec fn is_operation(
    operation: OperationRecord,
    path: Seq<u8>,
    manifest: ManifestView,
    state: OperationState,
) -> bool {
    &&& operation.id@ == operation_digest(path, manifest)
    &&& operation.path@ == path
    &&& operation.file_hash == manifest.file_hash
    &&& operation.state == state
}

/// The identity of an operation.
pub fn operation_id(path: &WirePath, manifest: &FileManifest) -> (id: Hash32)
    ensures
        id@ == operation_digest(path@, manifest@),
{
    let mut material: Vec<u8> = Vec::new();
    push_bytes(&mut material, path.as_str().as_bytes());
    push_bytes(&mut material, manifest.manifest_hash().bytes.as_slice());
    assert(material@ =~= path@ + manifest_digest(manifest@));
    Hash32::derive("deltaweave operation v1", material.as_slice())
}

impl OperationRecord {
    /// The entry for a file that is about to be put together.
    pub fn prepared(path: &WirePath, manifest: &FileManifest) -> (operation: Self)
        ensures
            is_operation(operation, path@, manifest@, OperationState::Prepared),
    {
        OperationRecord {
            id: operation_id(path, manifest),
            path: path.clone(),
            file_hash: manifest.file_hash,
            state: OperationState::Prepared,
        }
    }

    /// The entry once file and metadata are there.
    pub fn commit(self) -> (operation: Self)
        ensures
            operation == (OperationRecord { state: OperationState::Committed, ..self }),
    {
        OperationRecord {
            id: self.id,
            path: self.path,
            file_hash: self.file_hash,
            state: OperationState::Committed,
        }
    }

    /// The entry of a file that is there.
    pub fn committed(path: &WirePath, manifest: &FileManifest) -> (operation: Self)
        ensures
            is_operation(operation, path@, manifest@, OperationState::Committed),
    {
        OperationRecord::prepared(path, manifest).commit()
    }
}

/// A file that is put together from its chunks, in the order of its manifest.
pub struct Assembly<'a> {
    manifest: &'a FileManifest,
    next: usize,
    hasher: ContentHasher,
}

/// Why bytes are not the next piece of a file.
pub open spec fn piece_fault(descriptor: ChunkDescriptor, bytes: Seq<u8>) -> Option<StoreError> {
    if blake3_digest(bytes) != descriptor.hash@ {
        Some(StoreError::CorruptChunk)
    } else if bytes.len() != descriptor.length {
        Some(StoreError::ExtentMismatch)
    } else {
        None
    }
}

impl<'a> Assembly<'a> {
    /// The manifest of the file.
    pub closed spec fn plan(&self) -> ManifestView {
        self.manifest@
    }

    /// How many chunks are in.
    pub closed spec fn taken(&self) -> nat {
        self.next as nat
    }

    /// The bytes that are in.
    pub closed spec fn bytes(&self) -> Seq<u8> {
        self.hasher@
    }

    /// The bytes are as long as the extents of the chunks that are in.
    pub closed spec fn wf(&self) -> bool {
        &&& self.hasher.wf()
        &&& self.next <= self.manifest.chunks@.len()
        &&& self.hasher@.len() == extent_end(self.manifest.chunks@, self.next as nat)
    }

    /// Starts to put a file together.
    pub fn new(manifest: &'a FileManifest) -> (assembly: Self)
        ensures
            assembly.wf(),
            assembly.plan() == manifest@,
            assembly.taken() == 0,
            assembly.bytes() == Seq::<u8>::empty(),
    {
        Assembly { manifest, next: 0, hasher: ContentHasher::new() }
    }

    /// The digest of the chunk that comes next, while there is one.
    pub fn wanted(&self) -> (hash: Option<Hash32>)
        requires
            self.wf(),
        ensures
            self.taken() <= self.plan().chunks.len(),
            hash == (if self.taken() < self.plan().chunks.len() {
                Some(self.plan().chunks[self.taken() as int].hash)
            } else {
                None
            }),
    {
        if self.next < self.manifest.chunks.len() {
            Some(self.manifest.chunks[self.next].hash)
        } else {
            None
        }
    }

    /// Takes the next chunk, if the bytes are that one.
    pub fn take(&mut self, bytes: &[u8]) -> (result: Result<(), StoreError>)
        requires
            old(self).wf(),
            old(self).taken() < old(self).plan().chunks.len(),
        ensures
            final(self).wf(),
            final(self).plan() == old(self).plan(),
            ({
                let fault = piece_fault(
                    old(self).plan().chunks[old(self).taken() as int],
                    bytes@,
                );
                match result {
                    Ok(()) => fault is None && final(self).taken() == old(self).taken() + 1
                        && final(self).bytes() == old(self).bytes() + bytes@,
                    Err(error) => fault == Some(error) && *final(self) == *old(self),
                }
            }),
    {
        assert(self.next < self.manifest.chunks.len());
        let descriptor = self.manifest.chunks[self.next];
        let hash = Hash32::digest(bytes);
        proof {
            if hash@ == descriptor.hash@ {
                crate::hash::lemma_hash_view_injective(hash, descriptor.hash);
            }
        }
        if hash != descriptor.hash {
            return Err(StoreError::CorruptChunk);
        }
        if bytes.len() as u64 != descriptor.length as u64 {
            return Err(StoreError::ExtentMismatch);
        }
        self.hasher.update(bytes);
        self.next = self.next + 1;
        Ok(())
    }

    /// Checks the file that was put together.
    pub fn finish(&self) -> (result: Result<(), StoreError>)
        requires
            self.wf(),
        ensures
            match result {
                Ok(()) => self.taken() == self.plan().chunks.len() && blake3_digest(self.bytes())
                    == self.plan().file_hash@,
                Err(error) => error == StoreError::FileHashMismatch && !(self.taken()
                    == self.plan().chunks.len() && blake3_digest(self.bytes())
                    == self.plan().file_hash@),
            },
    {
        if self.next < self.manifest.chunks.len() {
            return Err(StoreError::FileHashMismatch);
        }
        let actual = self.hasher.finish();
        proof {
            if actual@ == self.manifest.file_hash@ {
                crate::hash::lemma_hash_view_injective(actual, self.manifest.file_hash);
            }
        }
        if actual != self.manifest.file_hash {
            return Err(StoreError::FileHashMismatch);
        }
        Ok(())
    }

    /// A file of a valid manifest that was put together has the size that the manifest says.
    pub proof fn law_assembled_size(&self)
        requires
            self.wf(),
            self.taken() == self.plan().chunks.len(),
            manifest_fault(self.plan()) is None,
        ensures
            self.bytes().len() == self.plan().size,
    {
    }
}

/// What is done to install a file.
pub enum MaterializeStep {
    /// The file is already there.
    Current(OperationRecord),
    /// The file is put together next to its place, and then moved there.
    Write(OperationRecord),
}

/// Why a file is not installed where something is. A directory that holds something is never
/// displaced.
pub open spec fn materialize_fault(
    manifest: ManifestView,
    existing: Option<EntryKind>,
    occupied: bool,
) -> Option<StoreError> {
    if manifest_fault(manifest) is Some {
        Some(StoreError::Manifest(manifest_fault(manifest)->0))
    } else if existing == Some(EntryKind::Directory) && occupied {
        Some(StoreError::DirectoryInTheWay)
    } else {
        None
    }
}

/// The file is already there.
pub open spec fn is_current(
    manifest: ManifestView,
    existing: Option<EntryKind>,
    content: Option<Hash32>,
) -> bool {
    existing == Some(EntryKind::File) && content == Some(manifest.file_hash)
}

/// Decides how a file is installed, from what is at its place: for a directory whether it holds
/// something, for a file its digest.
pub fn plan_materialize(
    manifest: &FileManifest,
    path: &WirePath,
    existing: Option<EntryKind>,
    occupied: bool,
    content: Option<Hash32>,
) -> (step: Result<MaterializeStep, StoreError>)
    ensures
        match step {
            Ok(MaterializeStep::Current(operation)) => materialize_fault(manifest@, existing, occupied) is None
                && is_current(manifest@, existing, content) && is_operation(
                operation,
                path@,
                manifest@,
                OperationState::Committed,
            ),
            Ok(MaterializeStep::Write(operation)) => materialize_fault(manifest@, existing, occupied) is None
                && !is_current(manifest@, existing, content) && is_operation(
                operation,
                path@,
                manifest@,
                OperationState::Prepared,
            ),
            Err(error) => materialize_fault(manifest@, existing, occupied) == Some(error),
        },
{
    match manifest.validate() {
        Ok(()) => {},
        Err(error) => {
            return Err(StoreError::Manifest(error));
        },
    }
    match existing {
        Some(EntryKind::Directory) => {
            if occupied {
                return Err(StoreError::DirectoryInTheWay);
            }
        },
        Some(EntryKind::File) => match content {
            Some(hash) => {
                if hash == manifest.file_hash {
                    return Ok(MaterializeStep::Current(OperationRecord::committed(path, manifest)));
                }
            },
            None => {},
        },
        _ => {},
    }
    Ok(MaterializeStep::Write(OperationRecord::prepared(path, manifest)))
}

/// The moves that put a new file in its place.
#[derive(Clone, Copy, Debug, PartialEq, Eq, Structural)]
pub enum ReplaceStep {
    /// The old object is moved to the trash.
    MoveAside,
    /// The new file is moved to its place.
    MoveIn,
    /// The old object is moved back.
    PutBack,
    /// The new file is dropped.
    DropNew,
    /// The new file is in its place.
    Done,
    /// Nothing has come of it.
    Failed,
}

/// The move that follows on one that went well or did not.
pub open spec fn following(step: ReplaceStep, well: bool, replaced: bool) -> ReplaceStep {
    match step {
        ReplaceStep::MoveAside => if well {
            ReplaceStep::MoveIn
        } else {
            ReplaceStep::Failed
        },
        ReplaceStep::MoveIn => if well {
            ReplaceStep::Done
        } else if replaced {
            ReplaceStep::PutBack
        } else {
            ReplaceStep::DropNew
        },
        ReplaceStep::PutBack => ReplaceStep::DropNew,
        ReplaceStep::DropNew => ReplaceStep::Failed,
        ReplaceStep::Done => ReplaceStep::Done,
        ReplaceStep::Failed => ReplaceStep::Failed,
    }
}

impl ReplaceStep {
    /// The first move. Whatever is at the place is moved aside.
    pub fn first(replaced: bool) -> (step: Self)
        ensures
            step == (if replaced {
                ReplaceStep::MoveAside
            } else {
                ReplaceStep::MoveIn
            }),
    {
        if replaced {
            ReplaceStep::MoveAside
        } else {
            ReplaceStep::MoveIn
        }
    }

    /// The move that follows on one that went well or did not.
    pub fn next(self, well: bool, replaced: bool) -> (step: Self)
        ensures
            step == following(self, well, replaced),
    {
        match self {
            ReplaceStep::MoveAside => if well {
                ReplaceStep::MoveIn
            } else {
                ReplaceStep::Failed
            },
            ReplaceStep::MoveIn => if well {
                ReplaceStep::Done
            } else if replaced {
                ReplaceStep::PutBack
            } else {
                ReplaceStep::DropNew
            },
            ReplaceStep::PutBack => ReplaceStep::DropNew,
            ReplaceStep::DropNew => ReplaceStep::Failed,
            ReplaceStep::Done => ReplaceStep::Done,
            ReplaceStep::Failed => ReplaceStep::Failed,
        }
    }
}

/// The three places that a replacement moves between.
#[verifier::ext_equal]
pub struct Places {
    pub destination: Option<Seq<u8>>,
    pub incoming: Option<Seq<u8>>,
    pub trash: Option<Seq<u8>>,
}

/// What a move does to the places, if it goes well. One that does not leaves them alone.
pub open spec fn moved(places: Places, step: ReplaceStep, well: bool) -> Places {
    if !well {
        places
    } else {
        match step {
            ReplaceStep::MoveAside => Places {
                trash: places.destination,
                destination: None,
                ..places
            },
            ReplaceStep::MoveIn => Places {
                destination: places.incoming,
                incoming: None,
                ..places
            },
            ReplaceStep::PutBack => Places { destination: places.trash, trash: None, ..places },
            ReplaceStep::DropNew => Places { incoming: None, ..places },
            _ => places,
        }
    }
}

/// Where the old and the new content are before a move.
pub open spec fn in_place(
    places: Places,
    step: ReplaceStep,
    replaced: bool,
    former: Seq<u8>,
    new: Seq<u8>,
) -> bool {
    let safe = places.destination == Some(former) && places.trash is None || places.trash == Some(
        former,
    ) && places.destination is None;
    match step {
        ReplaceStep::MoveAside => replaced && places.destination == Some(former) && places.trash
            is None && places.incoming == Some(new),
        ReplaceStep::MoveIn => places.incoming == Some(new) && places.destination is None
            && if replaced {
            places.trash == Some(former)
        } else {
            places.trash is None
        },
        ReplaceStep::PutBack => replaced && places.trash == Some(former) && places.destination
            is None,
        ReplaceStep::DropNew => if replaced {
            safe
        } else {
            places.destination is None && places.trash is None
        },
        ReplaceStep::Done => places.destination == Some(new) && if replaced {
            places.trash == Some(former)
        } else {
            places.trash is None
        },
        ReplaceStep::Failed => if replaced {
            safe
        } else {
            places.destination is None && places.trash is None
        },
    }
}

/// However the moves go, what was at the place is never lost: it is there or in the trash. When
/// they are done the new file is in its place, and the old one in the trash.
pub proof fn law_replacement_preserves_old_content(
    places: Places,
    step: ReplaceStep,
    well: bool,
    replaced: bool,
    former: Seq<u8>,
    new: Seq<u8>,
)
    requires
        in_place(places, step, replaced, former, new),
    ensures
        in_place(
            moved(places, step, well),
            following(step, well, replaced),
            replaced,
            former,
            new,
        ),
        replaced ==> moved(places, step, well).destination == Some(former) || moved(
            places,
            step,
            well,
        ).trash == Some(former),
{
}

/// What installing a file came to.
#[derive(Debug)]
pub struct MaterializeOutcome {
    pub destination: String,
    pub bytes_written: u64,
    /// Whether something else was put in the trash.
    pub replaced_existing: bool,
    /// Whether the file was there before.
    pub already_current: bool,
    /// Where the other object is kept.
    pub preserved_path: Option<String>,
    pub observation: MaterializationObservation,
}

impl MaterializeOutcome {
    /// The file was there before.
    pub fn current(destination: String, observation: MaterializationObservation) -> (outcome: Self)
        ensures
            outcome == (MaterializeOutcome {
                destination,
                bytes_written: 0,
                replaced_existing: false,
                already_current: true,
                preserved_path: None,
                observation,
            }),
    {
        MaterializeOutcome {
            destination,
            bytes_written: 0,
            replaced_existing: false,
            already_current: true,
            preserved_path: None,
            observation,
        }
    }

    /// The file was written, and what was at its place is kept where it was moved to.
    pub fn written(
        destination: String,
        manifest: &FileManifest,
        preserved_path: Option<String>,
        observation: MaterializationObservation,
    ) -> (outcome: Self)
        ensures
            outcome == (MaterializeOutcome {
                destination,
                bytes_written: manifest.size,
                replaced_existing: preserved_path is Some,
                already_current: false,
                preserved_path,
                observation,
            }),
    {
        MaterializeOutcome {
            destination,
            bytes_written: manifest.size,
            replaced_existing: preserved_path.is_some(),
            already_current: false,
            preserved_path,
            observation,
        }
    }
}

/// What is done to have a directory at a path.
#[derive(Clone, Copy, Debug, PartialEq, Eq, Structural)]
pub enum DirectoryStep {
    /// The directory is there.
    Nothing,
    /// The directory is made.
    Make,
    /// The file at the path is moved to the trash, and the directory is made.
    MoveAsideAndMake,
}

/// Decides how a directory comes to be at a path, from what is there. A file makes room for it,
/// nothing else does.
pub fn plan_directory(existing: Option<EntryKind>) -> (step: Result<DirectoryStep, StoreError>)
    ensures
        step == (match existing {
            None => Ok::<DirectoryStep, StoreError>(DirectoryStep::Make),
            Some(EntryKind::Directory) => Ok(DirectoryStep::Nothing),
            Some(EntryKind::File) => Ok(DirectoryStep::MoveAsideAndMake),
            Some(_) => Err(StoreError::NotADirectory),
        }),
{
    match existing {
        None => Ok(DirectoryStep::Make),
        Some(EntryKind::Directory) => Ok(DirectoryStep::Nothing),
        Some(EntryKind::File) => Ok(DirectoryStep::MoveAsideAndMake),
        Some(_) => Err(StoreError::NotADirectory),
    }
}

/// The permissions let only the owner in: the six lowest bits of the mode are clear.
pub open spec fn is_private(mode: u32) -> bool {
    mode % 64 == 0
}

/// Why a file is not put together in a private place.
pub open spec fn private_fault(
    manifest: ManifestView,
    root: EntryKind,
    mode: u32,
    above: Seq<Option<EntryKind>>,
    found: Option<EntryKind>,
) -> Option<StoreError> {
    if manifest_fault(manifest) is Some {
        Some(StoreError::Manifest(manifest_fault(manifest)->0))
    } else if destination_fault(root, above) is Some {
        destination_fault(root, above)
    } else if !is_private(mode) {
        Some(StoreError::NotPrivate)
    } else if found is Some {
        Some(StoreError::Recreated)
    } else {
        None
    }
}

/// Checks a private place before a file is put together in it: a real directory that only its owner
/// can enter, with no symbolic link on the way to the path, and nothing at the path itself.
pub fn check_private(
    manifest: &FileManifest,
    root: EntryKind,
    mode: u32,
    above: &Vec<Option<EntryKind>>,
    found: Option<EntryKind>,
) -> (result: Result<(), StoreError>)
    ensures
        match result {
            Ok(()) => private_fault(manifest@, root, mode, above@, found) is None,
            Err(error) => private_fault(manifest@, root, mode, above@, found) == Some(error),
        },
{
    match manifest.validate() {
        Ok(()) => {},
        Err(error) => {
            return Err(StoreError::Manifest(error));
        },
    }
    match check_destination(root, above) {
        Ok(()) => {},
        Err(error) => {
            return Err(error);
        },
    }
    if mode % 64 != 0 {
        return Err(StoreError::NotPrivate);
    }
    if found.is_some() {
        return Err(StoreError::Recreated);
    }
    Ok(())
}

/// Takes a chunk for a private file: only what is a file itself, and has the digest.
pub fn read_private(hash: &Hash32, kind: EntryKind, bytes: Vec<u8>) -> (result: Result<
    Vec<u8>,
    StoreError,
>)
    ensures
        match result {
            Ok(taken) => kind == EntryKind::File && blake3_digest(bytes@) == hash@ && taken@
                == bytes@,
            Err(error) => if kind != EntryKind::File {
                error == StoreError::NotARegularFile
            } else {
                error == StoreError::CorruptChunk && blake3_digest(bytes@) != hash@
            },
        },
{
    if kind != EntryKind::File {
        return Err(StoreError::NotARegularFile);
    }
    ChunkStore::read_verified(hash, bytes)
}

/// What is done to remove a path.
#[derive(Clone, Copy, Debug, PartialEq, Eq, Structural)]
pub enum RemoveStep {
    /// Nothing is there.
    Nothing,
    /// A directory is removed if it is empty.
    RemoveEmptyDirectory,
    /// Anything else is moved to the trash.
    MoveToTrash,
}

/// How a path is removed, by what is there.
pub open spec fn removal_of(existing: Option<EntryKind>) -> RemoveStep {
    match existing {
        None => RemoveStep::Nothing,
        Some(EntryKind::Directory) => RemoveStep::RemoveEmptyDirectory,
        Some(_) => RemoveStep::MoveToTrash,
    }
}

/// Decides how a path is removed, from what is there. No content is deleted, and no directory that
/// holds something.
pub fn plan_remove(existing: Option<EntryKind>) -> (step: RemoveStep)
    ensures
        step == removal_of(existing),
{
    match existing {
        None => RemoveStep::Nothing,
        Some(EntryKind::Directory) => RemoveStep::RemoveEmptyDirectory,
        Some(_) => RemoveStep::MoveToTrash,
    }
}

/// What removing a path came to.
#[derive(Debug)]
pub struct RemoveOutcome {
    pub destination: String,
    /// Whether there was something.
    pub removed: bool,
    /// Whether it was moved to the trash.
    pub preserved_in_trash: bool,
    /// Where it is kept.
    pub preserved_path: Option<String>,
}

/// The outcome is the one of a step that was done.
pub open spec fn is_removal(
    outcome: RemoveOutcome,
    step: RemoveStep,
    destination: String,
    backup: String,
) -> bool {
    &&& outcome.destination == destination
    &&& outcome.removed == (step != RemoveStep::Nothing)
    &&& outcome.preserved_in_trash == (step == RemoveStep::MoveToTrash)
    &&& outcome.preserved_path == (if step == RemoveStep::MoveToTrash {
        Some(backup)
    } else {
        None
    })
}

/// Something at a place: its kind, its own content, and the names in it.
#[verifier::ext_equal]
pub struct Entry {
    pub kind: EntryKind,
    pub content: Seq<u8>,
    pub names: Set<Seq<u8>>,
}

/// What is at a path that is removed, and at its place in the trash.
#[verifier::ext_equal]
pub struct RemovalPlaces {
    pub destination: Option<Entry>,
    pub trash: Option<Entry>,
}

/// The kind of what is at the path.
pub open spec fn kind_at(places: RemovalPlaces) -> Option<EntryKind> {
    match places.destination {
        Some(entry) => Some(entry.kind),
        None => None,
    }
}

/// What a step does to the places. A directory that holds something cannot be removed.
pub open spec fn removed(places: RemovalPlaces, step: RemoveStep) -> Option<RemovalPlaces> {
    match step {
        RemoveStep::Nothing => Some(places),
        RemoveStep::RemoveEmptyDirectory => if places.destination->0.names == Set::<
            Seq<u8>,
        >::empty() {
            Some(RemovalPlaces { destination: None, ..places })
        } else {
            None
        },
        RemoveStep::MoveToTrash => Some(
            RemovalPlaces { destination: None, trash: places.destination },
        ),
    }
}

/// After a path is removed nothing is there. The outcome says whether something was, and that it
/// is kept exactly if it was no directory; it is then in the trash as it was. Removing the path
/// again changes nothing, and says that nothing was there. Only a directory that holds something
/// is not removed.
pub proof fn law_removal_is_done_once(
    places: RemovalPlaces,
    first: RemoveOutcome,
    second: RemoveOutcome,
    destination: String,
    backup: String,
    other: String,
)
    requires
        places.trash is None,
        is_removal(first, removal_of(kind_at(places)), destination, backup),
        removed(places, removal_of(kind_at(places))) is Some ==> is_removal(
            second,
            removal_of(kind_at(removed(places, removal_of(kind_at(places)))->0)),
            destination,
            other,
        ),
    ensures
        match removed(places, removal_of(kind_at(places))) {
            Some(after) => {
                &&& after.destination is None
                &&& first.removed == places.destination is Some
                &&& first.preserved_in_trash == first.preserved_path is Some
                &&& first.preserved_path is Some == (places.destination is Some
                    && places.destination->0.kind != EntryKind::Directory)
                &&& after.trash == (if first.preserved_path is Some {
                    places.destination
                } else {
                    None
                })
                &&& removed(after, removal_of(kind_at(after))) == Some(after)
                &&& !second.removed
                &&& !second.preserved_in_trash
                &&& second.preserved_path is None
            },
            None => places.destination is Some && places.destination->0.kind
                == EntryKind::Directory && places.destination->0.names != Set::<
                Seq<u8>,
            >::empty(),
        },
{
}

impl RemoveOutcome {
    /// What a step came to, once it was done.
    pub fn of(step: RemoveStep, destination: String, backup: String) -> (outcome: Self)
        ensures
            is_removal(outcome, step, destination, backup),
    {
        match step {
            RemoveStep::Nothing => RemoveOutcome {
                destination,
                removed: false,
                preserved_in_trash: false,
                preserved_path: None,
            },
            RemoveStep::RemoveEmptyDirectory => RemoveOutcome {
                destination,
                removed: true,
                preserved_in_trash: false,
                preserved_path: None,
            },
            RemoveStep::MoveToTrash => RemoveOutcome {
                destination,
                removed: true,
                preserved_in_trash: true,
                preserved_path: Some(backup),
            },
        }
    }
}

} // verus!
