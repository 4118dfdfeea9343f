//! Changes to a folder that never lose local work.
//!
//! What is displaced is moved to a private place, never deleted, and every change is written down
//! before it is made. Nothing here touches the folder: each step is decided from what was seen
//! there, and says which move is made next. All moves refuse to replace anything.
use vstd::prelude::*;

use crate::hash::{blake3_digest, hex_text, Hash32};
use crate::manifest::{manifest_fault, FileManifest, ManifestView};
use crate::merkle::lies_under;
use crate::path::WirePath;
use crate::record::{record_fault, RecordView, SyncEntryKind, SyncRecord};
use crate::store::chunks::{below, join};
use crate::store::error::{PreservationError, StoreError};
use crate::store::observe::{
    file_matches_manifest, materialized, same_identity, same_sight, sight_is_file, sight_matches,
    EntryFacts, EntryKind, MaterializationObservation, PathObservation,
};
use crate::text::{append_number, append_text, decimal, same_text, utf8};

verus! {

/// The version of the journal.
pub const CHANGE_VERSION: u16 = 1;

/// The most that is kept of an authorization.
pub const MAX_AUTHORIZATION_BYTES: usize = 2_097_152;

/// How far a change has come.
#[derive(Clone, Copy, Debug, PartialEq, Eq, Structural)]
pub enum PathChangeState {
    /// The paths and the expected object are written down.
    Prepared,
    /// The displaced object is in the private place.
    Preserved,
    /// The file, the directory or the absence is in place.
    Materialized,
    /// The index has taken the change over.
    Indexed,
    /// The change is finished. What was displaced stays until it is purged.
    Committed,
    /// Something else has changed the folder. What was displaced stays.
    Aborted,
    /// What was displaced is being moved back.
    RollingBack,
    /// What was displaced is back, and what had come in is kept.
    RolledBack,
}

/// What a path is to hold.
pub enum PathTarget {
    /// A file, put together from its chunks.
    File(FileManifest),
    /// A directory.
    Directory,
    /// Nothing.
    Absent,
}

/// The record that a change was made for.
pub struct CausalBinding {
    pub record: SyncRecord,
    /// What the index held before.
    pub precondition: Option<SyncRecord>,
    /// What is kept of the authorization.
    pub authorization: Option<Vec<u8>>,
}

/// A change to one path.
pub struct PathChange {
    pub version: u16,
    /// The identity of the attempt.
    pub id: String,
    /// The folder.
    pub root: String,
    /// The path in the folder.
    pub path: WirePath,
    /// The private place.
    pub vault: String,
    /// Where the displaced object is kept.
    pub artifact: String,
    /// Where the incoming file is put together.
    pub staging: String,
    /// What was seen at the path.
    pub expected: Option<PathObservation>,
    /// What the path is to hold.
    pub target: PathTarget,
    pub state: PathChangeState,
    /// Whether a directory may be displaced with all that it holds.
    pub preserve_tree: bool,
    /// The record that the change was made for.
    pub causal: Option<CausalBinding>,
    /// Whether only the permission of a directory changes.
    pub metadata_only: bool,
    /// Where an object that came in is kept when the change is rolled back.
    pub rollback_artifact: String,
}

/// The state is one from which a displaced object has to be in the private place.
pub open spec fn is_displaced(state: PathChangeState) -> bool {
    state == PathChangeState::Preserved || state == PathChangeState::Materialized || state
        == PathChangeState::Indexed || state == PathChangeState::Committed
}

/// A character of an attempt's identity.
pub open spec fn is_id_char(c: char) -> bool {
    '0' <= c <= '9' || 'a' <= c <= 'z' || 'A' <= c <= 'Z' || c == '-'
}

/// An identity that an attempt can have.
pub open spec fn id_allowed(id: Seq<char>) -> bool {
    id.len() > 0 && forall|i: int| 0 <= i < id.len() ==> is_id_char(#[trigger] id[i])
}

fn check_id(id: &str) -> (allowed: bool)
    ensures
        allowed == id_allowed(id@),
{
    let count = id.unicode_len();
    if count == 0 {
        return false;
    }
    let mut i: usize = 0;
    while i < count
        invariant
            i <= count,
            count == id@.len(),
            forall|k: int| 0 <= k < i ==> is_id_char(#[trigger] id@[k]),
        decreases count - i,
    {
        let c = id.get_char(i);
        if !(('0' <= c && c <= '9') || ('a' <= c && c <= 'z') || ('A' <= c && c <= 'Z') || c
            == '-') {
            assert(!is_id_char(id@[i as int]));
            return false;
        }
        i = i + 1;
    }
    true
}

/// The name of an attempt.
pub open spec fn attempt_name(root: Seq<char>, process: u32, sequence: u64) -> Seq<char> {
    "change-"@ + hex_text(blake3_digest(utf8(root))) + "-"@ + decimal(process as nat) + "-"@
        + decimal(sequence as nat)
}

/// The name of an attempt that no other process and no other call uses.
pub fn attempt_id(root: &str, process: u32, sequence: u64) -> (id: String)
    ensures
        id@ == attempt_name(root@, process, sequence),
{
    let mut id: String = "change-".to_owned();
    append_text(&mut id, Hash32::digest(root.as_bytes()).to_hex().as_str());
    append_text(&mut id, "-");
    append_number(&mut id, process as u64);
    append_text(&mut id, "-");
    append_number(&mut id, sequence);
    assert(id@ =~= attempt_name(root@, process, sequence));
    id
}

/// The name of the private place beside a folder whose volume is another than the store's.
pub fn vault_name(root: &str) -> (name: String)
    ensures
        name@ == ".deltaweave-"@ + hex_text(blake3_digest(utf8(root@))) + ".recovery"@,
{
    let mut name: String = ".deltaweave-".to_owned();
    append_text(&mut name, Hash32::digest(root.as_bytes()).to_hex().as_str());
    append_text(&mut name, ".recovery");
    name
}

/// A path is another one, or lies below it.
pub open spec fn is_within(path: Seq<u8>, other: Seq<u8>) -> bool {
    ||| lies_under(path, other)
    ||| other == seq![0x2fu8] && path.len() > 0 && path[0] == 0x2f
}

fn check_within(path: &[u8], other: &[u8]) -> (within: bool)
    ensures
        within == is_within(path@, other@),
{
    if other.len() == 1 && other[0] == 0x2f && path.len() > 0 && path[0] == 0x2f {
        assert(other@ =~= seq![0x2fu8]);
        return true;
    }
    if path.len() < other.len() {
        return false;
    }
    let mut i: usize = 0;
    while i < other.len()
        invariant
            i <= other@.len() <= path@.len(),
            forall|k: int| 0 <= k < i ==> path@[k] == other@[k],
        decreases other@.len() - i,
    {
        if path[i] != other[i] {
            proof {
                if path@ == other@ {
                    assert(path@[i as int] == other@[i as int]);
                }
                if path@.take(other@.len() as int) == other@ {
                    assert(path@.take(other@.len() as int)[i as int] == other@[i as int]);
                }
                if other@ == seq![0x2fu8] {
                    assert(other@[0] == 0x2f);
                }
            }
            return false;
        }
        i = i + 1;
    }
    proof {
        assert(path@.take(other@.len() as int) =~= other@);
        if path@.len() == other@.len() {
            assert(path@ =~= other@);
        }
    }
    path.len() == other.len() || path[other.len()] == 0x2f
}

/// Where displaced objects are kept.
#[derive(Clone, Copy, Debug, PartialEq, Eq, Structural)]
pub enum VaultStep {
    /// In the trash of the store.
    Trash,
    /// In a place of their own beside the folder, which has to be reserved first.
    Beside,
}

/// Every part of a path is a directory, and none is a symbolic link.
pub open spec fn all_real(parts: Seq<EntryKind>) -> bool {
    forall|i: int| 0 <= i < parts.len() ==> #[trigger] parts[i] == EntryKind::Directory
}

/// Whether every part of a path is a directory, and none a symbolic link.
pub fn is_real_directory(parts: &Vec<EntryKind>) -> (genuine: bool)
    ensures
        genuine == all_real(parts@),
{
    let mut i: usize = 0;
    while i < parts.len()
        invariant
            i <= parts@.len(),
            forall|k: int| 0 <= k < i ==> #[trigger] parts@[k] == EntryKind::Directory,
        decreases parts@.len() - i,
    {
        if parts[i] != EntryKind::Directory {
            assert(parts@[i as int] != EntryKind::Directory);
            return false;
        }
        i = i + 1;
    }
    true
}

/// A place beside the folder can be taken: the folder lies in a real directory, nothing else has
/// the name of the place, and the place can be reserved.
pub open spec fn beside_possible(
    parent: Option<Seq<EntryKind>>,
    found: Option<EntryKind>,
    can_reserve: bool,
) -> bool {
    &&& parent is Some && all_real(parent->0)
    &&& found is None || found == Some(EntryKind::Directory)
    &&& can_reserve
}

/// The parts of a path, if there is one.
pub open spec fn parts_of(path: Option<Vec<EntryKind>>) -> Option<Seq<EntryKind>> {
    match path {
        Some(parts) => Some(parts@),
        None => None,
    }
}

/// Decides where displaced objects are kept: in the trash of the store if it is on the volume of
/// the folder, and else beside the folder.
pub fn plan_vault(
    trash: &Vec<EntryKind>,
    trash_on_volume: bool,
    parent: &Option<Vec<EntryKind>>,
    found: Option<EntryKind>,
    can_reserve: bool,
) -> (step: Result<VaultStep, StoreError>)
    ensures
        ({
            let possible = beside_possible(parts_of(*parent), found, can_reserve);
            match step {
                Ok(VaultStep::Trash) => all_real(trash@) && trash_on_volume,
                Ok(VaultStep::Beside) => all_real(trash@) && !trash_on_volume && possible,
                Err(error) => !(all_real(trash@) && (trash_on_volume || possible)) && error
                    == StoreError::Preservation(PreservationError::RecoveryUnavailable),
            }
        }),
{
    let unavailable = StoreError::Preservation(PreservationError::RecoveryUnavailable);
    if !is_real_directory(trash) {
        return Err(unavailable);
    }
    if trash_on_volume {
        return Ok(VaultStep::Trash);
    }
    let genuine = match parent {
        Some(parts) => is_real_directory(parts),
        None => false,
    };
    let free = match found {
        None => true,
        Some(kind) => kind == EntryKind::Directory,
    };
    if !genuine || !free || !can_reserve {
        return Err(unavailable);
    }
    Ok(VaultStep::Beside)
}

/// Checks a private place: it is on the volume of the folder, and neither lies in the other.
pub fn check_vault(root: &str, vault: &str, same_volume: bool) -> (result: Result<(), StoreError>)
    ensures
        ({
            let fine = same_volume && !is_within(utf8(vault@), utf8(root@)) && !is_within(
                utf8(root@),
                utf8(vault@),
            );
            match result {
                Ok(()) => fine,
                Err(error) => !fine && error == StoreError::Preservation(
                    PreservationError::RecoveryUnavailable,
                ),
            }
        }),
{
    if !same_volume || check_within(vault.as_bytes(), root.as_bytes()) || check_within(
        root.as_bytes(),
        vault.as_bytes(),
    ) {
        return Err(StoreError::Preservation(PreservationError::RecoveryUnavailable));
    }
    Ok(())
}

/// Where the displaced object of an attempt is kept.
pub open spec fn artifact_path(vault: Seq<char>, id: Seq<char>, path: Seq<u8>) -> Seq<u8> {
    utf8(below(vault, id) + "/"@) + path
}

fn artifact_of(vault: &str, id: &str, path: &WirePath) -> (place: String)
    ensures
        utf8(place@) == artifact_path(vault@, id@, path@),
{
    let mut place = join(vault, id);
    append_text(&mut place, "/");
    append_text(&mut place, path.as_str());
    place
}

fn beside(vault: &str, id: &str, extension: &str) -> (place: String)
    ensures
        place@ == below(vault@, id@) + extension@,
{
    let mut place = join(vault, id);
    append_text(&mut place, extension);
    place
}

/// What is known of the place where a displaced object is kept.
#[derive(Clone, Copy, Debug, PartialEq, Eq)]
pub struct ArtifactFacts {
    /// Whether something is there, a symbolic link being something.
    pub there: bool,
    /// Whether something is there when symbolic links are followed.
    pub resolves: bool,
    pub identity: Option<(u64, u64)>,
}

/// What a change expects, as it is written down before anything is moved.
pub open spec fn preparing_fault(
    expected: Option<PathObservation>,
    preserve_tree: bool,
    seen: Option<PathObservation>,
    occupied: bool,
) -> Option<StoreError> {
    if seen != expected {
        Some(StoreError::Preservation(PreservationError::LocalChanged))
    } else if expected is Some && !preserve_tree && expected->0.kind == 1 && occupied {
        Some(StoreError::DirectoryNotEmpty)
    } else {
        None
    }
}

/// Checks that what is seen at a path is what a change expects there, before anything is made for
/// the change.
pub fn check_expected(
    expected: &Option<PathObservation>,
    preserve_tree: bool,
    seen: &Option<PathObservation>,
    occupied: bool,
) -> (result: Result<(), StoreError>)
    ensures
        match result {
            Ok(()) => preparing_fault(*expected, preserve_tree, *seen, occupied) is None,
            Err(error) => preparing_fault(*expected, preserve_tree, *seen, occupied) == Some(error),
        },
{
    if !same_sight(seen, expected) {
        return Err(StoreError::Preservation(PreservationError::LocalChanged));
    }
    match expected {
        Some(o) => {
            if !preserve_tree && o.kind == 1 && occupied {
                return Err(StoreError::DirectoryNotEmpty);
            }
        },
        None => {},
    }
    Ok(())
}

/// The places of a change are those of its attempt.
pub open spec fn places_fit(change: PathChange, vault: Seq<char>) -> bool {
    &&& change.vault@ == vault
    &&& utf8(change.artifact@) == artifact_path(vault, change.id@, change.path@)
    &&& change.staging@ == below(vault, change.id@) + ".incoming"@
    &&& change.rollback_artifact@ == below(vault, change.id@) + ".rollback"@
}

/// Why a journal entry is not followed.
pub open spec fn binding_fault(
    change: PathChange,
    vault: Seq<char>,
    artifact: ArtifactFacts,
) -> Option<StoreError> {
    if change.version != CHANGE_VERSION || !id_allowed(change.id@) || !places_fit(change, vault) {
        Some(StoreError::InvalidBinding)
    } else if change.expected is Some && !change.metadata_only && is_displaced(change.state) && (
    !artifact.there || artifact.identity != change.expected->0.identity) {
        Some(StoreError::Preservation(PreservationError::StateUnavailable))
    } else {
        None
    }
}

/// The move that sets the object at a path aside.
#[derive(Clone, Copy, Debug, PartialEq, Eq, Structural)]
pub enum CaptureStep {
    /// The object is moved to the private place.
    MoveAside,
    /// There is nothing to move.
    Nothing,
}

/// Something is moved aside.
pub open spec fn displaces(change: PathChange) -> bool {
    change.expected is Some && !change.metadata_only
}

/// Why an object is not set aside.
pub open spec fn capturing_fault(
    change: PathChange,
    destination: Option<PathObservation>,
    staging: Option<PathObservation>,
) -> Option<StoreError> {
    if change.state != PathChangeState::Prepared {
        Some(StoreError::WrongState)
    } else if destination != change.expected {
        Some(StoreError::Preservation(PreservationError::LocalChanged))
    } else {
        match change.target {
            PathTarget::File(manifest) => if sight_is_file(staging, manifest@) {
                None
            } else {
                Some(StoreError::StagingChanged)
            },
            _ => None,
        }
    }
}

/// The move that puts what has come in at the path.
#[derive(Clone, Copy, Debug, PartialEq, Eq, Structural)]
pub enum PlaceStep {
    /// The incoming file is moved to the path.
    MoveIn,
    /// A directory is made.
    MakeDirectory,
    /// There is nothing to move.
    Nothing,
}

/// The move that a target needs.
pub open spec fn place_step(change: PathChange) -> PlaceStep {
    match change.target {
        PathTarget::File(_) => PlaceStep::MoveIn,
        PathTarget::Directory => if change.metadata_only {
            PlaceStep::Nothing
        } else {
            PlaceStep::MakeDirectory
        },
        PathTarget::Absent => PlaceStep::Nothing,
    }
}

/// Why a target is not put at the path. All but the first of the reasons abort the change.
pub open spec fn placing_fault(
    change: PathChange,
    artifact: Option<PathObservation>,
    destination: Option<PathObservation>,
    staging: Option<PathObservation>,
) -> Option<StoreError> {
    if change.state != PathChangeState::Preserved {
        Some(StoreError::WrongState)
    } else if displaces(change) && artifact != change.expected {
        Some(StoreError::CaptureChanged)
    } else {
        match change.target {
            PathTarget::File(manifest) => if sight_is_file(staging, manifest@) {
                None
            } else {
                Some(StoreError::StagingChanged)
            },
            PathTarget::Directory => if change.metadata_only && destination != change.expected {
                Some(StoreError::Preservation(PreservationError::LocalChanged))
            } else {
                None
            },
            PathTarget::Absent => if destination is Some {
                Some(StoreError::Recreated)
            } else {
                None
            },
        }
    }
}

/// What was seen at the path is what the target asks for.
pub open spec fn target_seen(target: PathTarget, destination: Option<PathObservation>) -> bool {
    match target {
        PathTarget::File(manifest) => sight_is_file(destination, manifest@),
        PathTarget::Directory => destination is Some && destination->0.kind == 1,
        PathTarget::Absent => destination is None,
    }
}

/// How an interrupted change goes on.
#[derive(Clone, Copy, Debug, PartialEq, Eq, Structural)]
pub enum ResumeStep {
    /// The object at the path is set aside.
    Capture,
    /// The target is put at the path.
    Place,
    /// The change is aborted.
    Abort,
    /// There is nothing to do.
    Nothing,
}

/// How a change is rolled back.
#[derive(Clone, Copy, Debug, PartialEq, Eq, Structural)]
pub enum RollbackStep {
    /// The change is rolled back.
    Done,
    /// The permission of the directory is set back.
    SetReadonly(bool),
    /// What has come in is set aside if there is something, and what was displaced is moved back
    /// if there is something.
    Move { set_aside: bool, restore: bool },
}

/// What was seen is the target that has come in.
pub open spec fn target_came(target: PathTarget, current: PathObservation) -> bool {
    match target {
        PathTarget::File(manifest) => sight_is_file(Some(current), manifest@),
        PathTarget::Directory => current.kind == 1,
        PathTarget::Absent => false,
    }
}

/// The change never got to move anything, or its rollback was done and only not written down.
pub open spec fn is_back(
    change: PathChange,
    current: Option<PathObservation>,
    artifact: ArtifactFacts,
) -> bool {
    ||| (change.state == PathChangeState::Prepared || change.state == PathChangeState::Aborted)
        && !artifact.resolves && current == change.expected
    ||| change.state == PathChangeState::RollingBack && change.expected is Some && current is Some
        && current->0.identity == change.expected->0.identity && !artifact.there
}

/// Why a change is not rolled back.
pub open spec fn rolling_fault(
    change: PathChange,
    current: Option<PathObservation>,
    artifact: ArtifactFacts,
    rollback_there: bool,
) -> Option<StoreError> {
    let changed = Some(StoreError::Preservation(PreservationError::LocalChanged));
    let lost = Some(StoreError::Preservation(PreservationError::StateUnavailable));
    if change.causal is None {
        Some(StoreError::NoCausalBinding)
    } else if change.metadata_only {
        if current is None || change.expected is None {
            lost
        } else if (PathObservation { readonly: change.expected->0.readonly, ..current->0 })
            != change.expected->0 {
            changed
        } else {
            None
        }
    } else if is_back(change, current, artifact) {
        None
    } else if current is Some && (!target_came(change.target, current->0) || rollback_there) {
        changed
    } else if current is None && change.state == PathChangeState::Materialized
        && !(change.target is Absent) {
        changed
    } else if change.expected is Some && (!artifact.there || artifact.identity
        != change.expected->0.identity) {
        lost
    } else {
        None
    }
}

/// How a change is rolled back that can be.
pub open spec fn rolling_step(
    change: PathChange,
    current: Option<PathObservation>,
    artifact: ArtifactFacts,
) -> RollbackStep {
    if change.metadata_only {
        RollbackStep::SetReadonly(change.expected->0.readonly)
    } else if is_back(change, current, artifact) {
        RollbackStep::Done
    } else {
        RollbackStep::Move { set_aside: current is Some, restore: change.expected is Some }
    }
}

/// Where what a change brings in is when it is rolled back.
#[derive(Clone, Copy, Debug, PartialEq, Eq, Structural)]
pub enum Incoming {
    /// Nowhere.
    Nowhere,
    /// Where it was put together.
    Staged,
    /// At the path.
    Placed,
}

/// How a change is rolled back that was made for no record: what it brings in is set aside, and
/// what was displaced is moved back if it was.
#[derive(Clone, Copy, Debug, PartialEq, Eq, Structural)]
pub struct UnadoptedRollback {
    pub incoming: Incoming,
    pub restore: bool,
}

/// The displaced object of a change is in the private place.
pub open spec fn is_captured(change: PathChange, artifact: ArtifactFacts) -> bool {
    displaces(change) && (change.state != PathChangeState::Prepared || artifact.there)
}

/// Why a change that was made for no record is not rolled back.
pub open spec fn unadopted_fault(
    change: PathChange,
    current: Option<PathObservation>,
    artifact: ArtifactFacts,
    rollback_there: bool,
) -> Option<StoreError> {
    let changed = Some(StoreError::Preservation(PreservationError::LocalChanged));
    let lost = Some(StoreError::Preservation(PreservationError::StateUnavailable));
    if change.causal is Some {
        Some(StoreError::BoundToRecord)
    } else if change.state != PathChangeState::Prepared && change.state
        != PathChangeState::Preserved && change.state != PathChangeState::Materialized {
        Some(StoreError::WrongState)
    } else if rollback_there {
        changed
    } else if is_captured(change, artifact) && (!artifact.there || artifact.identity
        != change.expected->0.identity) {
        lost
    } else if change.state == PathChangeState::Materialized {
        if target_seen(change.target, current) {
            None
        } else {
            changed
        }
    } else if is_captured(change, artifact) {
        if current is None {
            None
        } else {
            changed
        }
    } else if current == change.expected {
        None
    } else {
        changed
    }
}

/// How a change is rolled back that can be.
pub open spec fn unadopted_step(
    change: PathChange,
    staged: bool,
    artifact: ArtifactFacts,
) -> UnadoptedRollback {
    UnadoptedRollback {
        incoming: if change.state == PathChangeState::Materialized {
            if change.target is Absent {
                Incoming::Nowhere
            } else {
                Incoming::Placed
            }
        } else if change.target is File && staged {
            Incoming::Staged
        } else {
            Incoming::Nowhere
        },
        restore: is_captured(change, artifact),
    }
}

/// What is done with an attempt that was interrupted.
#[derive(Clone, Copy, Debug, PartialEq, Eq, Structural)]
pub enum RecoverStep {
    /// The change is aborted.
    Abort,
    /// The change is committed.
    Commit,
    /// The change stays as it is.
    Keep,
}

/// What is done with an attempt, from how far it has come.
pub open spec fn recover_step(change: PathChange) -> RecoverStep {
    if (change.state == PathChangeState::Prepared || change.state == PathChangeState::Preserved)
        && change.causal is None {
        RecoverStep::Abort
    } else if change.state == PathChangeState::Indexed {
        RecoverStep::Commit
    } else {
        RecoverStep::Keep
    }
}

/// A record says what a target holds.
pub open spec fn target_describes(target: PathTarget, record: RecordView) -> bool {
    match target {
        PathTarget::File(manifest) => !record.tombstone && record.kind == SyncEntryKind::File
            && record.content_hash == Some(manifest.file_hash) && record.size == manifest.size,
        PathTarget::Directory => !record.tombstone && record.kind == SyncEntryKind::Directory,
        PathTarget::Absent => record.tombstone,
    }
}

/// A change is the one that a record has led to.
pub open spec fn is_adopted(change: PathChange, root: Seq<char>, record: RecordView) -> bool {
    &&& change.root@ == root
    &&& change.path@ == record.path
    &&& change.state == PathChangeState::Materialized
    &&& target_describes(change.target, record)
    &&& (match change.causal {
        Some(binding) => binding.record@ == record,
        None => true,
    })
}

/// A change in another state.
pub open spec fn in_state(change: PathChange, state: PathChangeState) -> PathChange {
    PathChange { state, ..change }
}

impl PathChange {
    /// Writes down what is to be done to a path where something is, or nothing.
    pub fn prepare(
        root: String,
        path: &WirePath,
        target: PathTarget,
        expected: Option<PathObservation>,
        preserve_tree: bool,
        seen: &Option<PathObservation>,
        occupied: bool,
        vault: String,
        id: String,
    ) -> (change: Result<Self, StoreError>)
        ensures
            match change {
                Ok(change) => {
                    &&& preparing_fault(expected, preserve_tree, *seen, occupied) is None
                    &&& change.version == CHANGE_VERSION
                    &&& change.id == id
                    &&& change.root == root
                    &&& change.path == *path
                    &&& change.expected == expected
                    &&& change.target == target
                    &&& change.state == PathChangeState::Prepared
                    &&& change.preserve_tree == preserve_tree
                    &&& change.causal is None
                    &&& !change.metadata_only
                    &&& places_fit(change, vault@)
                },
                Err(error) => preparing_fault(expected, preserve_tree, *seen, occupied) == Some(
                    error,
                ),
            },
    {
        match check_expected(&expected, preserve_tree, seen, occupied) {
            Ok(()) => {},
            Err(error) => {
                return Err(error);
            },
        }
        let artifact = artifact_of(vault.as_str(), id.as_str(), path);
        let staging = beside(vault.as_str(), id.as_str(), ".incoming");
        let rollback_artifact = beside(vault.as_str(), id.as_str(), ".rollback");
        Ok(
            PathChange {
                version: CHANGE_VERSION,
                id,
                root,
                path: path.clone(),
                vault,
                artifact,
                staging,
                expected,
                target,
                state: PathChangeState::Prepared,
                preserve_tree,
                causal: None,
                metadata_only: false,
                rollback_artifact,
            },
        )
    }

    /// Checks a journal entry against the private place and what is kept there.
    pub fn validate(&self, vault: &str, artifact: &ArtifactFacts) -> (result: Result<
        (),
        StoreError,
    >)
        ensures
            match result {
                Ok(()) => binding_fault(*self, vault@, *artifact) is None,
                Err(error) => binding_fault(*self, vault@, *artifact) == Some(error),
            },
    {
        if self.version != CHANGE_VERSION || !check_id(self.id.as_str()) {
            return Err(StoreError::InvalidBinding);
        }
        let artifact_place = artifact_of(vault, self.id.as_str(), &self.path);
        let staging = beside(vault, self.id.as_str(), ".incoming");
        let rollback = beside(vault, self.id.as_str(), ".rollback");
        if !same_text(self.vault.as_str(), vault) || !same_text(
            self.artifact.as_str(),
            artifact_place.as_str(),
        ) || !same_text(self.staging.as_str(), staging.as_str()) || !same_text(
            self.rollback_artifact.as_str(),
            rollback.as_str(),
        ) {
            return Err(StoreError::InvalidBinding);
        }
        let displaced = match self.state {
            PathChangeState::Preserved => true,
            PathChangeState::Materialized => true,
            PathChangeState::Indexed => true,
            PathChangeState::Committed => true,
            _ => false,
        };
        match &self.expected {
            Some(expected) => {
                if !self.metadata_only && displaced && (!artifact.there || !same_identity(
                    &artifact.identity,
                    &expected.identity,
                )) {
                    return Err(StoreError::Preservation(PreservationError::StateUnavailable));
                }
            },
            None => {},
        }
        Ok(())
    }

    /// Decides how the object at the path is set aside.
    pub fn begin_capture(
        &self,
        destination: &Option<PathObservation>,
        staging: &Option<PathObservation>,
    ) -> (step: Result<CaptureStep, StoreError>)
        ensures
            match step {
                Ok(step) => capturing_fault(*self, *destination, *staging) is None && step == (
                if displaces(*self) {
                    CaptureStep::MoveAside
                } else {
                    CaptureStep::Nothing
                }),
                Err(error) => capturing_fault(*self, *destination, *staging) == Some(error),
            },
    {
        if self.state != PathChangeState::Prepared {
            return Err(StoreError::WrongState);
        }
        if !same_sight(destination, &self.expected) {
            return Err(StoreError::Preservation(PreservationError::LocalChanged));
        }
        match &self.target {
            PathTarget::File(manifest) => {
                if !file_matches_manifest(staging, manifest) {
                    return Err(StoreError::StagingChanged);
                }
            },
            _ => {},
        }
        if self.expected.is_some() && !self.metadata_only {
            Ok(CaptureStep::MoveAside)
        } else {
            Ok(CaptureStep::Nothing)
        }
    }

    /// Takes note that the object was set aside. If it is not the one that was expected the change
    /// has to be aborted.
    pub fn finish_capture(&mut self, artifact: &Option<PathObservation>) -> (result: Result<
        (),
        StoreError,
    >)
        ensures
            if old(self).state != PathChangeState::Prepared {
                result == Err::<(), StoreError>(StoreError::WrongState) && *final(self) == *old(
                    self,
                )
            } else if displaces(*old(self)) && *artifact != old(self).expected {
                result == Err::<(), StoreError>(StoreError::CaptureChanged) && *final(self)
                    == *old(self)
            } else {
                result is Ok && *final(self) == in_state(*old(self), PathChangeState::Preserved)
            },
    {
        if self.state != PathChangeState::Prepared {
            return Err(StoreError::WrongState);
        }
        if self.expected.is_some() && !self.metadata_only && !same_sight(
            artifact,
            &self.expected,
        ) {
            return Err(StoreError::CaptureChanged);
        }
        self.state = PathChangeState::Preserved;
        Ok(())
    }

    /// Decides how the target is put at the path. Whatever has come there meanwhile is not
    /// replaced.
    pub fn begin_place(
        &self,
        artifact: &Option<PathObservation>,
        destination: &Option<PathObservation>,
        staging: &Option<PathObservation>,
    ) -> (step: Result<PlaceStep, StoreError>)
        ensures
            match step {
                Ok(step) => placing_fault(*self, *artifact, *destination, *staging) is None && step
                    == place_step(*self),
                Err(error) => placing_fault(*self, *artifact, *destination, *staging) == Some(
                    error,
                ),
            },
    {
        if self.state != PathChangeState::Preserved {
            return Err(StoreError::WrongState);
        }
        if self.expected.is_some() && !self.metadata_only && !same_sight(
            artifact,
            &self.expected,
        ) {
            return Err(StoreError::CaptureChanged);
        }
        match &self.target {
            PathTarget::File(manifest) => {
                if !file_matches_manifest(staging, manifest) {
                    return Err(StoreError::StagingChanged);
                }
                Ok(PlaceStep::MoveIn)
            },
            PathTarget::Directory => {
                if self.metadata_only {
                    if !same_sight(destination, &self.expected) {
                        return Err(StoreError::Preservation(PreservationError::LocalChanged));
                    }
                    Ok(PlaceStep::Nothing)
                } else {
                    Ok(PlaceStep::MakeDirectory)
                }
            },
            PathTarget::Absent => {
                if destination.is_some() {
                    return Err(StoreError::Recreated);
                }
                Ok(PlaceStep::Nothing)
            },
        }
    }

    /// Takes note that the target is at the path.
    pub fn finish_place(&mut self) -> (result: Result<(), StoreError>)
        ensures
            if old(self).state == PathChangeState::Preserved {
                result is Ok && *final(self) == in_state(*old(self), PathChangeState::Materialized)
            } else {
                result == Err::<(), StoreError>(StoreError::WrongState) && *final(self) == *old(
                    self,
                )
            },
    {
        if self.state != PathChangeState::Preserved {
            return Err(StoreError::WrongState);
        }
        self.state = PathChangeState::Materialized;
        Ok(())
    }

    /// Aborts the change, and says whether a displaced object has to be moved back first, if its
    /// place is free.
    pub fn abort(&mut self, artifact: &ArtifactFacts) -> (restore: bool)
        ensures
            restore == artifact.there,
            *final(self) == in_state(*old(self), PathChangeState::Aborted),
    {
        self.state = PathChangeState::Aborted;
        artifact.there
    }

    /// Decides how a change goes on that was interrupted before its object was known to be set
    /// aside.
    pub fn resume_capture(
        &mut self,
        artifact: &Option<PathObservation>,
        staging_there: bool,
    ) -> (step: Result<ResumeStep, StoreError>)
        ensures
            if old(self).state != PathChangeState::Prepared {
                step == Ok::<ResumeStep, StoreError>(ResumeStep::Nothing) && *final(self) == *old(
                    self,
                )
            } else if *artifact is Some {
                if *artifact == old(self).expected {
                    step == Ok::<ResumeStep, StoreError>(ResumeStep::Nothing) && *final(self)
                        == in_state(*old(self), PathChangeState::Preserved)
                } else {
                    step == Err::<ResumeStep, StoreError>(StoreError::CaptureChanged) && *final(
                        self) == *old(self)
                }
            } else {
                *final(self) == *old(self) && step == Ok::<ResumeStep, StoreError>(
                    if old(self).target is File && !staging_there {
                        ResumeStep::Abort
                    } else {
                        ResumeStep::Capture
                    },
                )
            },
    {
        if self.state != PathChangeState::Prepared {
            return Ok(ResumeStep::Nothing);
        }
        if artifact.is_some() {
            if !same_sight(artifact, &self.expected) {
                return Err(StoreError::CaptureChanged);
            }
            self.state = PathChangeState::Preserved;
            return Ok(ResumeStep::Nothing);
        }
        match &self.target {
            PathTarget::File(_) => if !staging_there {
                Ok(ResumeStep::Abort)
            } else {
                Ok(ResumeStep::Capture)
            },
            _ => Ok(ResumeStep::Capture),
        }
    }

    /// Decides how a change goes on that was interrupted before its target was known to be at the
    /// path.
    pub fn resume_place(
        &mut self,
        destination: &Option<PathObservation>,
        artifact: &ArtifactFacts,
    ) -> (step: Result<ResumeStep, StoreError>)
        ensures
            if old(self).state != PathChangeState::Preserved {
                step == Ok::<ResumeStep, StoreError>(ResumeStep::Nothing) && *final(self) == *old(
                    self,
                )
            } else if !target_seen(old(self).target, *destination) {
                step == Ok::<ResumeStep, StoreError>(ResumeStep::Place) && *final(self) == *old(
                    self,
                )
            } else if displaces(*old(self)) && !artifact.there {
                step == Err::<ResumeStep, StoreError>(
                    StoreError::Preservation(PreservationError::StateUnavailable),
                ) && *final(self) == *old(self)
            } else {
                step == Ok::<ResumeStep, StoreError>(ResumeStep::Nothing) && *final(self)
                    == in_state(*old(self), PathChangeState::Materialized)
            },
    {
        if self.state != PathChangeState::Preserved {
            return Ok(ResumeStep::Nothing);
        }
        if !self.seen_at(destination) {
            return Ok(ResumeStep::Place);
        }
        if self.expected.is_some() && !self.metadata_only && !artifact.there {
            return Err(StoreError::Preservation(PreservationError::StateUnavailable));
        }
        self.state = PathChangeState::Materialized;
        Ok(ResumeStep::Nothing)
    }

    fn came_back(&self, current: &Option<PathObservation>, artifact: &ArtifactFacts) -> (back: bool)
        ensures
            back == is_back(*self, *current, *artifact),
    {
        match self.state {
            PathChangeState::Prepared => !artifact.resolves && same_sight(current, &self.expected),
            PathChangeState::Aborted => !artifact.resolves && same_sight(current, &self.expected),
            PathChangeState::RollingBack => !artifact.there && match (current, &self.expected) {
                (Some(current), Some(expected)) => same_identity(
                    &current.identity,
                    &expected.identity,
                ),
                _ => false,
            },
            _ => false,
        }
    }

    fn check_rollback(
        &self,
        current: &Option<PathObservation>,
        artifact: &ArtifactFacts,
        rollback_there: bool,
    ) -> (result: Result<(), StoreError>)
        requires
            self.causal is Some,
            !self.metadata_only,
            !is_back(*self, *current, *artifact),
        ensures
            match result {
                Ok(()) => rolling_fault(*self, *current, *artifact, rollback_there) is None,
                Err(error) => rolling_fault(*self, *current, *artifact, rollback_there) == Some(
                    error,
                ),
            },
    {
        match current {
            Some(seen) => {
                let came = match &self.target {
                    PathTarget::File(manifest) => file_matches_manifest(current, manifest),
                    PathTarget::Directory => seen.kind == 1,
                    PathTarget::Absent => false,
                };
                if !came || rollback_there {
                    return Err(StoreError::Preservation(PreservationError::LocalChanged));
                }
            },
            None => {
                let absent = match &self.target {
                    PathTarget::Absent => true,
                    _ => false,
                };
                if self.state == PathChangeState::Materialized && !absent {
                    return Err(StoreError::Preservation(PreservationError::LocalChanged));
                }
            },
        }
        match &self.expected {
            Some(expected) => {
                if !artifact.there || !same_identity(&artifact.identity, &expected.identity) {
                    return Err(StoreError::Preservation(PreservationError::StateUnavailable));
                }
            },
            None => {},
        }
        Ok(())
    }

    /// Decides how a change is rolled back that was not taken over. Neither what has come in nor
    /// what was there before is dropped.
    pub fn begin_rollback(
        &mut self,
        current: &Option<PathObservation>,
        artifact: &ArtifactFacts,
        rollback_there: bool,
    ) -> (step: Result<RollbackStep, StoreError>)
        ensures
            ({
                let before = *old(self);
                match step {
                    Err(error) => rolling_fault(before, *current, *artifact, rollback_there)
                        == Some(error) && *final(self) == before,
                    Ok(step) => rolling_fault(before, *current, *artifact, rollback_there) is None
                        && step == rolling_step(before, *current, *artifact) && *final(self) == (
                    match step {
                        RollbackStep::Done => in_state(before, PathChangeState::RolledBack),
                        RollbackStep::SetReadonly(_) => before,
                        RollbackStep::Move { .. } => in_state(
                            before,
                            PathChangeState::RollingBack,
                        ),
                    }),
                }
            }),
    {
        if self.causal.is_none() {
            return Err(StoreError::NoCausalBinding);
        }
        if self.metadata_only {
            return match (current, &self.expected) {
                (Some(current), Some(expected)) => {
                    let mut observed = *current;
                    observed.readonly = expected.readonly;
                    if observed != *expected {
                        return Err(StoreError::Preservation(PreservationError::LocalChanged));
                    }
                    Ok(RollbackStep::SetReadonly(expected.readonly))
                },
                _ => Err(StoreError::Preservation(PreservationError::StateUnavailable)),
            };
        }
        if self.came_back(current, artifact) {
            self.state = PathChangeState::RolledBack;
            return Ok(RollbackStep::Done);
        }
        match self.check_rollback(current, artifact, rollback_there) {
            Ok(()) => {},
            Err(error) => {
                return Err(error);
            },
        }
        self.state = PathChangeState::RollingBack;
        Ok(
            RollbackStep::Move {
                set_aside: current.is_some(),
                restore: self.expected.is_some(),
            },
        )
    }

    fn captured(&self, artifact: &ArtifactFacts) -> (captured: bool)
        ensures
            captured == is_captured(*self, *artifact),
    {
        self.expected.is_some() && !self.metadata_only && (self.state != PathChangeState::Prepared
            || artifact.there)
    }

    fn seen_at(&self, destination: &Option<PathObservation>) -> (seen: bool)
        ensures
            seen == target_seen(self.target, *destination),
    {
        match &self.target {
            PathTarget::File(manifest) => file_matches_manifest(destination, manifest),
            PathTarget::Directory => match destination {
                Some(o) => o.kind == 1,
                None => false,
            },
            PathTarget::Absent => destination.is_none(),
        }
    }

    /// Decides how a change is rolled back that was made for no record and not taken over. What it
    /// brings in is kept, and what was displaced moves back.
    pub fn begin_unadopted_rollback(
        &mut self,
        current: &Option<PathObservation>,
        staged: bool,
        artifact: &ArtifactFacts,
        rollback_there: bool,
    ) -> (step: Result<UnadoptedRollback, StoreError>)
        ensures
            ({
                let before = *old(self);
                let fault = unadopted_fault(before, *current, *artifact, rollback_there);
                match step {
                    Err(error) => fault == Some(error) && *final(self) == before,
                    Ok(step) => fault is None && step == unadopted_step(before, staged, *artifact)
                        && *final(self) == in_state(before, PathChangeState::RollingBack),
                }
            }),
    {
        if self.causal.is_some() {
            return Err(StoreError::BoundToRecord);
        }
        match self.state {
            PathChangeState::Prepared => {},
            PathChangeState::Preserved => {},
            PathChangeState::Materialized => {},
            _ => {
                return Err(StoreError::WrongState);
            },
        }
        if rollback_there {
            return Err(StoreError::Preservation(PreservationError::LocalChanged));
        }
        let restore = self.captured(artifact);
        if restore {
            match &self.expected {
                Some(expected) => {
                    if !artifact.there || !same_identity(&artifact.identity, &expected.identity) {
                        return Err(StoreError::Preservation(PreservationError::StateUnavailable));
                    }
                },
                None => {},
            }
        }
        let unchanged = if self.state == PathChangeState::Materialized {
            self.seen_at(current)
        } else if restore {
            current.is_none()
        } else {
            same_sight(current, &self.expected)
        };
        if !unchanged {
            return Err(StoreError::Preservation(PreservationError::LocalChanged));
        }
        let incoming = match &self.target {
            PathTarget::Absent => Incoming::Nowhere,
            PathTarget::Directory => if self.state == PathChangeState::Materialized {
                Incoming::Placed
            } else {
                Incoming::Nowhere
            },
            PathTarget::File(_) => if self.state == PathChangeState::Materialized {
                Incoming::Placed
            } else if staged {
                Incoming::Staged
            } else {
                Incoming::Nowhere
            },
        };
        self.state = PathChangeState::RollingBack;
        Ok(UnadoptedRollback { incoming, restore })
    }

    /// Checks that what was set aside is what had come in.
    pub fn check_set_aside(current: &Option<PathObservation>, kept: &Option<PathObservation>) -> (
    result: Result<(), StoreError>)
        ensures
            match result {
                Ok(()) => *kept == *current,
                Err(error) => *kept != *current && error == StoreError::Preservation(
                    PreservationError::LocalChanged,
                ),
            },
    {
        if same_sight(kept, current) {
            Ok(())
        } else {
            Err(StoreError::Preservation(PreservationError::LocalChanged))
        }
    }

    /// Takes note that the change is rolled back.
    pub fn finish_rollback(&mut self) -> (result: Result<(), StoreError>)
        ensures
            if old(self).state == PathChangeState::RollingBack || old(self).metadata_only {
                result is Ok && *final(self) == in_state(*old(self), PathChangeState::RolledBack)
            } else {
                result == Err::<(), StoreError>(StoreError::WrongState) && *final(self) == *old(
                    self,
                )
            },
    {
        if self.state != PathChangeState::RollingBack && !self.metadata_only {
            return Err(StoreError::WrongState);
        }
        self.state = PathChangeState::RolledBack;
        Ok(())
    }

    /// Decides what becomes of an attempt that was interrupted.
    pub fn recover(&mut self) -> (step: RecoverStep)
        ensures
            step == recover_step(*old(self)),
            *final(self) == (if step == RecoverStep::Commit {
                in_state(*old(self), PathChangeState::Committed)
            } else {
                *old(self)
            }),
    {
        match self.state {
            PathChangeState::Prepared => if self.causal.is_none() {
                RecoverStep::Abort
            } else {
                RecoverStep::Keep
            },
            PathChangeState::Preserved => if self.causal.is_none() {
                RecoverStep::Abort
            } else {
                RecoverStep::Keep
            },
            PathChangeState::Indexed => {
                self.state = PathChangeState::Committed;
                RecoverStep::Commit
            },
            _ => RecoverStep::Keep,
        }
    }

    /// Takes note that the index has taken the change over.
    pub fn mark_indexed(&mut self) -> (result: Result<(), StoreError>)
        ensures
            if old(self).state == PathChangeState::Materialized || old(self).state
                == PathChangeState::Indexed || old(self).state == PathChangeState::Committed {
                result is Ok && *final(self) == in_state(*old(self), PathChangeState::Indexed)
            } else {
                result == Err::<(), StoreError>(StoreError::WrongState) && *final(self) == *old(
                    self,
                )
            },
    {
        match self.state {
            PathChangeState::Materialized => {},
            PathChangeState::Indexed => {},
            PathChangeState::Committed => {},
            _ => {
                return Err(StoreError::WrongState);
            },
        }
        self.state = PathChangeState::Indexed;
        Ok(())
    }

    /// Finishes a change that the index has taken over.
    pub fn commit(&mut self) -> (result: Result<(), StoreError>)
        ensures
            if old(self).state == PathChangeState::Indexed {
                result is Ok && *final(self) == in_state(*old(self), PathChangeState::Committed)
            } else {
                result == Err::<(), StoreError>(StoreError::WrongState) && *final(self) == *old(
                    self,
                )
            },
    {
        if self.state != PathChangeState::Indexed {
            return Err(StoreError::WrongState);
        }
        self.state = PathChangeState::Committed;
        Ok(())
    }

    /// Whether the change is the one that a record has led to.
    pub fn adopted_by(&self, root: &str, record: &SyncRecord) -> (adopted: bool)
        ensures
            adopted == is_adopted(*self, root@, record@),
    {
        let described = match &self.target {
            PathTarget::File(manifest) => !record.tombstone && record.kind == SyncEntryKind::File
                && record.size == manifest.size && match &record.content_hash {
                Some(hash) => *hash == manifest.file_hash,
                None => false,
            },
            PathTarget::Directory => !record.tombstone && record.kind == SyncEntryKind::Directory,
            PathTarget::Absent => record.tombstone,
        };
        let bound = match &self.causal {
            Some(binding) => binding.record.same(record),
            None => true,
        };
        same_text(self.root.as_str(), root) && self.path.same(&record.path) && self.state
            == PathChangeState::Materialized && described && bound
    }

    /// What is seen of the file that a change has installed.
    pub fn observe(&self, destination: &Option<PathObservation>, facts: &EntryFacts) -> (sight:
        Result<MaterializationObservation, StoreError>)
        ensures
            match self.target {
                PathTarget::File(manifest) => if !sight_is_file(*destination, manifest@) {
                    sight == Err::<MaterializationObservation, StoreError>(
                        StoreError::Preservation(PreservationError::LocalChanged),
                    )
                } else if facts.kind != EntryKind::File {
                    sight == Err::<MaterializationObservation, StoreError>(
                        StoreError::NotARegularFile,
                    )
                } else {
                    sight == Ok::<MaterializationObservation, StoreError>(
                        materialized(*facts, manifest.file_hash),
                    )
                },
                _ => sight == Err::<MaterializationObservation, StoreError>(
                    StoreError::NotAFileChange,
                ),
            },
    {
        match &self.target {
            PathTarget::File(manifest) => {
                if !file_matches_manifest(destination, manifest) {
                    return Err(StoreError::Preservation(PreservationError::LocalChanged));
                }
                MaterializationObservation::of(facts, manifest.file_hash)
            },
            _ => Err(StoreError::NotAFileChange),
        }
    }
}

/// What was seen is what the index held.
pub open spec fn precondition_holds(
    expected: Option<PathObservation>,
    precondition: Option<SyncRecord>,
) -> bool {
    match (expected, precondition) {
        (None, None) => true,
        (None, Some(previous)) => previous.tombstone,
        (Some(seen), Some(previous)) => sight_matches(seen, previous@),
        (Some(_), None) => false,
    }
}

/// Only the permission of a directory changes.
pub open spec fn changes_metadata(
    record: RecordView,
    expected: Option<PathObservation>,
) -> bool {
    !record.tombstone && record.kind == SyncEntryKind::Directory && expected is Some
        && expected->0.kind == 1
}

/// Why a record is not applied.
pub open spec fn causal_fault(
    binding: CausalBinding,
    manifest: Option<ManifestView>,
    expected: Option<PathObservation>,
) -> Option<StoreError> {
    let record = binding.record@;
    if record_fault(record) is Some {
        Some(StoreError::Record(record_fault(record)->0))
    } else if binding.authorization is Some && binding.authorization->0@.len()
        > MAX_AUTHORIZATION_BYTES {
        Some(StoreError::AuthorizationTooLarge)
    } else if !precondition_holds(expected, binding.precondition) {
        Some(StoreError::Preservation(PreservationError::LocalChanged))
    } else if record.tombstone || record.kind == SyncEntryKind::Directory {
        None
    } else if manifest is None {
        Some(StoreError::ManifestMissing)
    } else if record.kind != SyncEntryKind::File || record.content_hash != Some(
        manifest->0.file_hash,
    ) || record.size != manifest->0.size {
        Some(StoreError::ManifestMismatch)
    } else {
        None
    }
}

/// What a record makes of a path.
pub struct CausalPlan {
    pub target: PathTarget,
    pub metadata_only: bool,
}

/// The target is the one that a record and a manifest ask for.
pub open spec fn is_target(
    target: PathTarget,
    record: RecordView,
    manifest: Option<ManifestView>,
) -> bool {
    match target {
        PathTarget::Absent => record.tombstone,
        PathTarget::Directory => !record.tombstone && record.kind == SyncEntryKind::Directory,
        PathTarget::File(held) => !record.tombstone && record.kind == SyncEntryKind::File
            && manifest == Some(held@),
    }
}

/// What a manifest says, if there is one.
pub open spec fn manifest_said(manifest: Option<&FileManifest>) -> Option<ManifestView> {
    match manifest {
        Some(manifest) => Some(manifest@),
        None => None,
    }
}

/// Decides what a record makes of a path, from what was seen there and what the index held.
pub fn plan_causal(
    binding: &CausalBinding,
    manifest: Option<&FileManifest>,
    expected: &Option<PathObservation>,
) -> (plan: Result<CausalPlan, StoreError>)
    ensures
        match plan {
            Ok(plan) => causal_fault(*binding, manifest_said(manifest), *expected) is None
                && is_target(plan.target, binding.record@, manifest_said(manifest))
                && target_describes(plan.target, binding.record@) && plan.metadata_only
                == changes_metadata(binding.record@, *expected),
            Err(error) => causal_fault(*binding, manifest_said(manifest), *expected) == Some(error),
        },
{
    let record = &binding.record;
    match record.validate() {
        Ok(()) => {},
        Err(error) => {
            return Err(StoreError::Record(error));
        },
    }
    match &binding.authorization {
        Some(bytes) => {
            if bytes.len() > MAX_AUTHORIZATION_BYTES {
                return Err(StoreError::AuthorizationTooLarge);
            }
        },
        None => {},
    }
    let held = match (expected, &binding.precondition) {
        (None, None) => true,
        (None, Some(previous)) => previous.tombstone,
        (Some(seen), Some(previous)) => seen.matches_record(previous),
        (Some(_), None) => false,
    };
    if !held {
        return Err(StoreError::Preservation(PreservationError::LocalChanged));
    }
    let metadata_only = !record.tombstone && record.kind == SyncEntryKind::Directory
        && match expected {
        Some(seen) => seen.kind == 1,
        None => false,
    };
    if record.tombstone {
        return Ok(CausalPlan { target: PathTarget::Absent, metadata_only });
    }
    if record.kind == SyncEntryKind::Directory {
        return Ok(CausalPlan { target: PathTarget::Directory, metadata_only });
    }
    let manifest = match manifest {
        Some(manifest) => manifest,
        None => {
            return Err(StoreError::ManifestMissing);
        },
    };
    let content = match &record.content_hash {
        Some(hash) => *hash == manifest.file_hash,
        None => false,
    };
    if record.kind != SyncEntryKind::File || !content || record.size != manifest.size {
        return Err(StoreError::ManifestMismatch);
    }
    Ok(CausalPlan { target: PathTarget::File(manifest.clone()), metadata_only })
}

/// Checks the manifest of an incoming file before it is put together.
pub fn check_target(target: &PathTarget) -> (result: Result<(), StoreError>)
    ensures
        match *target {
            PathTarget::File(manifest) => match manifest_fault(manifest@) {
                Some(error) => result == Err::<(), StoreError>(StoreError::Manifest(error)),
                None => result is Ok,
            },
            _ => result is Ok,
        },
{
    match target {
        PathTarget::File(manifest) => match manifest.validate() {
            Ok(()) => Ok(()),
            Err(error) => Err(StoreError::Manifest(error)),
        },
        _ => Ok(()),
    }
}

} // verus!
