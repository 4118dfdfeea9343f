//! What holds of every change to a folder, however its moves go.
use vstd::multiset::Multiset;
use vstd::prelude::*;

use crate::manifest::{FileManifest, ManifestView};
use crate::record::{record_fault, RecordView, SyncEntryKind};
use crate::store::error::{PreservationError, StoreError};
use crate::store::observe::{EntryKind, PathObservation};
use crate::store::preservation::{
    beside_possible, binding_fault, capturing_fault, causal_fault, changes_metadata, displaces,
    in_state, is_adopted, is_back, is_target, place_step, places_fit, placing_fault,
    preparing_fault, recover_step, rolling_fault, rolling_step, target_came, target_describes,
    target_seen, unadopted_fault, unadopted_step, ArtifactFacts, CausalBinding, Incoming,
    PathChange, PathChangeState, PathTarget, PlaceStep, RecoverStep, RollbackStep,
    MAX_AUTHORIZATION_BYTES,
};
use crate::text::utf8;

verus! {

/// The places of a change.
pub enum Place {
    Destination,
    Artifact,
    Staging,
    Rollback,
}

/// What is at the places of a change.
#[verifier::ext_equal]
pub struct Folder {
    pub destination: Option<PathObservation>,
    pub artifact: Option<PathObservation>,
    pub staging: Option<PathObservation>,
    pub rollback: Option<PathObservation>,
}

impl Folder {
    /// What is at a place.
    pub open spec fn at(&self, place: Place) -> Option<PathObservation> {
        match place {
            Place::Destination => self.destination,
            Place::Artifact => self.artifact,
            Place::Staging => self.staging,
            Place::Rollback => self.rollback,
        }
    }

    /// The folder with something at a place.
    pub open spec fn with(&self, place: Place, object: Option<PathObservation>) -> Folder {
        match place {
            Place::Destination => Folder { destination: object, ..*self },
            Place::Artifact => Folder { artifact: object, ..*self },
            Place::Staging => Folder { staging: object, ..*self },
            Place::Rollback => Folder { rollback: object, ..*self },
        }
    }

    /// The folder after a move that replaces nothing. It goes well only if there is something to
    /// move and its new place is free; else nothing changes.
    pub open spec fn moved(&self, from: Place, to: Place) -> Folder {
        if self.at(from) is Some && self.at(to) is None {
            self.with(from, None).with(to, self.at(from))
        } else {
            *self
        }
    }

    /// All objects at the places.
    pub open spec fn objects(&self) -> Multiset<PathObservation> {
        one(self.destination).add(one(self.artifact)).add(one(self.staging)).add(one(self.rollback))
    }
}

/// An object, or none.
pub open spec fn one(object: Option<PathObservation>) -> Multiset<PathObservation> {
    match object {
        Some(object) => Multiset::singleton(object),
        None => Multiset::empty(),
    }
}

/// No move loses an object: the same objects are there before and after it.
pub proof fn law_moves_lose_nothing(folder: Folder, from: Place, to: Place)
    ensures
        folder.moved(from, to).objects() == folder.objects(),
{
    assert(folder.moved(from, to).objects() =~= folder.objects());
}

/// What a folder shows of the place of the displaced object.
pub open spec fn artifact_seen(folder: Folder, facts: ArtifactFacts) -> bool {
    &&& facts.there == folder.artifact is Some
    &&& folder.artifact is Some ==> facts.identity == folder.artifact->0.identity
    &&& folder.artifact is None ==> !facts.resolves
}

/// A change that goes through leaves the target at the path and the displaced object in the
/// private place, just as it was.
pub proof fn law_change_keeps_what_it_displaces(change: PathChange, folder: Folder)
    requires
        capturing_fault(change, folder.destination, folder.staging) is None,
        folder.artifact is None,
        !change.metadata_only,
        change.target is File,
    ensures
        ({
            let aside = if displaces(change) {
                folder.moved(Place::Destination, Place::Artifact)
            } else {
                folder
            };
            let kept = in_state(change, PathChangeState::Preserved);
            let placed = aside.moved(Place::Staging, Place::Destination);
            &&& aside.artifact == change.expected
            &&& placing_fault(kept, aside.artifact, aside.destination, aside.staging) is None
            &&& place_step(kept) == PlaceStep::MoveIn
            &&& target_seen(change.target, placed.destination)
            &&& placed.artifact == change.expected
        }),
{
}

/// Rolling a change back that has gone through moves the displaced object back, and keeps what had
/// come in.
pub proof fn law_rollback_restores(
    change: PathChange,
    folder: Folder,
    artifact: ArtifactFacts,
)
    requires
        artifact_seen(folder, artifact),
        change.state == PathChangeState::Materialized,
        !change.metadata_only,
        rolling_fault(change, folder.destination, artifact, folder.rollback is Some) is None,
    ensures
        ({
            let step = rolling_step(change, folder.destination, artifact);
            let aside = if folder.destination is Some {
                folder.moved(Place::Destination, Place::Rollback)
            } else {
                folder
            };
            let back = if change.expected is Some {
                aside.moved(Place::Artifact, Place::Destination)
            } else {
                aside
            };
            &&& step == (RollbackStep::Move {
                set_aside: folder.destination is Some,
                restore: change.expected is Some,
            })
            &&& folder.destination is Some ==> back.rollback == folder.destination
            &&& change.expected is Some ==> back.destination == folder.artifact
                && back.destination is Some && back.destination->0.identity
                == change.expected->0.identity
            &&& change.expected is None ==> back.destination is None
            &&& back.objects() == folder.objects()
        }),
{
    let aside = if folder.destination is Some {
        folder.moved(Place::Destination, Place::Rollback)
    } else {
        folder
    };
    law_moves_lose_nothing(folder, Place::Destination, Place::Rollback);
    law_moves_lose_nothing(aside, Place::Artifact, Place::Destination);
}

/// Rolling a change back that was made for no record gives the path back what was there, or leaves
/// it there, and keeps what has come in, wherever the change had got to.
pub proof fn law_unadopted_rollback_restores(
    change: PathChange,
    folder: Folder,
    artifact: ArtifactFacts,
)
    requires
        artifact_seen(folder, artifact),
        !change.metadata_only,
        unadopted_fault(change, folder.destination, artifact, folder.rollback is Some) is None,
    ensures
        ({
            let step = unadopted_step(change, folder.staging is Some, artifact);
            let aside = match step.incoming {
                Incoming::Nowhere => folder,
                Incoming::Staged => folder.moved(Place::Staging, Place::Rollback),
                Incoming::Placed => folder.moved(Place::Destination, Place::Rollback),
            };
            let back = if step.restore {
                aside.moved(Place::Artifact, Place::Destination)
            } else {
                aside
            };
            &&& step.incoming == Incoming::Staged ==> back.rollback == folder.staging
                && back.staging is None
            &&& step.incoming == Incoming::Placed ==> back.rollback == folder.destination
            &&& step.incoming == Incoming::Nowhere ==> back.rollback is None
            &&& change.expected is None ==> back.destination is None
            &&& change.expected is Some ==> back.destination is Some
                && back.destination->0.identity == change.expected->0.identity && back.artifact
                is None
            &&& step.restore ==> back.destination == folder.artifact
            &&& back.objects() == folder.objects()
        }),
{
    law_moves_lose_nothing(folder, Place::Staging, Place::Rollback);
    law_moves_lose_nothing(folder, Place::Destination, Place::Rollback);
    law_moves_lose_nothing(
        folder.moved(Place::Staging, Place::Rollback),
        Place::Artifact,
        Place::Destination,
    );
    law_moves_lose_nothing(
        folder.moved(Place::Destination, Place::Rollback),
        Place::Artifact,
        Place::Destination,
    );
    law_moves_lose_nothing(folder, Place::Artifact, Place::Destination);
}

/// Only a change that was made for no record and that the index has not taken over is rolled back
/// in this way, and none that local work has changed.
pub proof fn law_unadopted_rollback_refuses(
    change: PathChange,
    current: Option<PathObservation>,
    artifact: ArtifactFacts,
    rollback_there: bool,
)
    ensures
        change.causal is Some || change.state == PathChangeState::Indexed || change.state
            == PathChangeState::Committed ==> unadopted_fault(
            change,
            current,
            artifact,
            rollback_there,
        ) is Some,
        change.state == PathChangeState::Materialized && !target_seen(change.target, current)
            ==> unadopted_fault(change, current, artifact, rollback_there) is Some,
{
}

/// A rollback that was interrupted after its last move is found to be done.
pub proof fn law_finished_rollback_is_found(
    change: PathChange,
    folder: Folder,
    artifact: ArtifactFacts,
)
    requires
        artifact_seen(folder, artifact),
        change.state == PathChangeState::RollingBack,
        change.causal is Some,
        !change.metadata_only,
        change.expected is Some,
        folder.destination is Some,
        folder.destination->0.identity == change.expected->0.identity,
        folder.artifact is None,
    ensures
        rolling_fault(change, folder.destination, artifact, folder.rollback is Some) is None,
        rolling_step(change, folder.destination, artifact) == RollbackStep::Done,
{
}

/// Local work that is not what the change has brought in is never moved by a rollback: the change
/// stays, and the refusal says that the folder has changed.
pub proof fn law_rollback_leaves_local_work(
    change: PathChange,
    current: PathObservation,
    artifact: ArtifactFacts,
    rollback_there: bool,
)
    requires
        change.causal is Some,
        !change.metadata_only,
        !is_back(change, Some(current), artifact),
        !target_came(change.target, current),
    ensures
        rolling_fault(change, Some(current), artifact, rollback_there) == Some(
            crate::store::error::StoreError::Preservation(
                crate::store::error::PreservationError::LocalChanged,
            ),
        ),
{
}

/// A change is written down before anything is moved: the entry that preparing it gives is one
/// that is followed later, as long as its identity is allowed.
pub proof fn law_prepared_changes_are_valid(
    change: PathChange,
    vault: Seq<char>,
    artifact: ArtifactFacts,
)
    requires
        change.version == crate::store::preservation::CHANGE_VERSION,
        crate::store::preservation::id_allowed(change.id@),
        places_fit(change, vault),
        change.state == PathChangeState::Prepared,
    ensures
        binding_fault(change, vault, artifact) is None,
{
}

/// Recovery never touches a change that is finished, was aborted, or is rolled back, nor one that
/// was made for a record and not yet taken over.
pub proof fn law_recovery_keeps_ended_changes(change: PathChange)
    ensures
        change.state == PathChangeState::Committed || change.state == PathChangeState::Aborted
            || change.state == PathChangeState::RolledBack || change.state
            == PathChangeState::RollingBack || change.state == PathChangeState::Materialized
            ==> recover_step(change) == RecoverStep::Keep,
        change.causal is Some && change.state != PathChangeState::Indexed ==> recover_step(change)
            == RecoverStep::Keep,
        recover_step(change) == RecoverStep::Commit ==> change.state == PathChangeState::Indexed,
{
}

/// A record takes over only a change that is in place and says the same as the record.
pub proof fn law_only_placed_changes_are_adopted(
    change: PathChange,
    root: Seq<char>,
    record: RecordView,
)
    requires
        is_adopted(change, root, record),
    ensures
        change.state == PathChangeState::Materialized,
        change.target is Absent == record.tombstone,
{
}

/// What was seen is what a live record says of the path, field by field.
pub open spec fn seen_as(seen: PathObservation, record: RecordView) -> bool {
    &&& !record.tombstone
    &&& seen.readonly == record.readonly
    &&& record.kind == SyncEntryKind::File && seen.kind == 0 && seen.size == record.size
        && record.content_hash == Some(seen.hash) || record.kind == SyncEntryKind::Directory
        && seen.kind == 1 || record.kind == SyncEntryKind::Symlink && seen.kind == 2
}

/// What was seen is a file with the size and the digest of a manifest, field by field.
pub open spec fn seen_file(seen: Option<PathObservation>, manifest: FileManifest) -> bool {
    seen is Some && seen->0.kind == 0 && seen->0.size == manifest.size && seen->0.hash
        == manifest.file_hash
}

/// A record from elsewhere is applied to a path only if what is there is what the index held: the
/// same kind of object with the same permission and, for a file, the same size and digest, or
/// nothing where the index held nothing or a deletion. Anything else is local work, and the record
/// is refused for it. A deletion leads to nothing at the path, a directory to a directory, and a
/// file to the file of the manifest, which has to have the size and the digest of the record.
pub proof fn law_record_is_applied_only_over_what_was_indexed(
    binding: CausalBinding,
    manifest: Option<ManifestView>,
    expected: Option<PathObservation>,
)
    requires
        record_fault(binding.record@) is None,
        binding.authorization is Some ==> binding.authorization->0@.len()
            <= MAX_AUTHORIZATION_BYTES,
    ensures
        ({
            let record = binding.record@;
            let previous = binding.precondition;
            let held = match expected {
                Some(seen) => previous is Some && seen_as(seen, previous->0@),
                None => previous is None || previous->0.tombstone,
            };
            let fault = causal_fault(binding, manifest, expected);
            let described = manifest is Some && record.content_hash == Some(manifest->0.file_hash)
                && record.size == manifest->0.size;
            &&& !held <==> fault == Some(StoreError::Preservation(PreservationError::LocalChanged))
            &&& held && (record.tombstone || record.kind == SyncEntryKind::Directory) ==> fault
                is None
            &&& held && !record.tombstone && record.kind == SyncEntryKind::File ==> (fault is None
                <==> described)
            &&& !record.tombstone && record.kind != SyncEntryKind::Directory && record.kind
                != SyncEntryKind::File ==> fault is Some
        }),
{
}

/// Local work stops a change before anything is moved for it: it is prepared, and begins to set
/// aside, only while what was expected at the path is what is seen there, and without leave to
/// displace a tree only where no directory holds something. A file comes in only as the manifest
/// says.
pub proof fn law_local_work_stops_a_change(
    change: PathChange,
    seen: Option<PathObservation>,
    staging: Option<PathObservation>,
    occupied: bool,
)
    ensures
        preparing_fault(change.expected, change.preserve_tree, seen, occupied) is None <==> seen
            == change.expected && !(seen is Some && seen->0.kind == 1 && occupied
            && !change.preserve_tree),
        seen != change.expected ==> preparing_fault(
            change.expected,
            change.preserve_tree,
            seen,
            occupied,
        ) == Some(StoreError::Preservation(PreservationError::LocalChanged)),
        capturing_fault(change, seen, staging) is None <==> change.state
            == PathChangeState::Prepared && seen == change.expected && (change.target is File
            ==> seen_file(staging, change.target->File_0)),
        change.state == PathChangeState::Prepared && seen != change.expected ==> capturing_fault(
            change,
            seen,
            staging,
        ) == Some(StoreError::Preservation(PreservationError::LocalChanged)),
{
}

/// A target is put at a path only once what was there is in the private place just as it was, and
/// only if it is the file of the manifest. A deletion is taken for done only where nothing has come
/// to the path again, and a change of permission is made only to the directory that was expected.
pub proof fn law_target_is_placed_only_over_what_is_kept(
    change: PathChange,
    artifact: Option<PathObservation>,
    destination: Option<PathObservation>,
    staging: Option<PathObservation>,
)
    ensures
        placing_fault(change, artifact, destination, staging) is None <==> {
            &&& change.state == PathChangeState::Preserved
            &&& change.expected is Some && !change.metadata_only ==> artifact == change.expected
            &&& change.target is File ==> seen_file(staging, change.target->File_0)
            &&& change.target is Absent ==> destination is None
            &&& change.target is Directory && change.metadata_only ==> destination
                == change.expected
        },
        place_step(change) == PlaceStep::MoveIn <==> change.target is File,
        place_step(change) == PlaceStep::MakeDirectory <==> change.target is Directory
            && !change.metadata_only,
{
}

/// What is found at a path after an interruption is taken for the target only if it is that: the
/// file of the manifest, a directory, or nothing.
pub proof fn law_target_is_known_by_what_it_is(
    target: PathTarget,
    found: Option<PathObservation>,
    record: RecordView,
)
    ensures
        target_seen(target, found) <==> {
            ||| target is File && seen_file(found, target->File_0)
            ||| target is Directory && found is Some && found->0.kind == 1
            ||| target is Absent && found is None
        },
        target_describes(target, record) <==> {
            ||| target is Absent && record.tombstone
            ||| target is Directory && !record.tombstone && record.kind == SyncEntryKind::Directory
            ||| target is File && !record.tombstone && record.kind == SyncEntryKind::File
                && record.size == target->File_0.size && record.content_hash == Some(
                target->File_0.file_hash,
            )
        },
{
}

/// A rollback moves nothing but what the change itself has brought in, and only with the displaced
/// object at hand: whatever else is at the path stays there.
pub proof fn law_rollback_moves_only_what_came_in(
    change: PathChange,
    current: Option<PathObservation>,
    artifact: ArtifactFacts,
    rollback_there: bool,
)
    requires
        !change.metadata_only,
    ensures
        rolling_fault(change, current, artifact, rollback_there) is None && rolling_step(
            change,
            current,
            artifact,
        ) is Move ==> {
            &&& change.causal is Some
            &&& current is Some ==> !rollback_there && (change.target is File && seen_file(
                current,
                change.target->File_0,
            ) || change.target is Directory && current->0.kind == 1)
            &&& current is None ==> change.state != PathChangeState::Materialized || change.target
                is Absent
            &&& change.expected is Some ==> artifact.there && artifact.identity
                == change.expected->0.identity
            &&& rolling_step(change, current, artifact)->set_aside == current is Some
            &&& rolling_step(change, current, artifact)->restore == change.expected is Some
        },
        rolling_fault(change, current, artifact, rollback_there) is None && rolling_step(
            change,
            current,
            artifact,
        ) == RollbackStep::Done ==> {
            ||| current == change.expected && !artifact.resolves && (change.state
                == PathChangeState::Prepared || change.state == PathChangeState::Aborted)
            ||| change.state == PathChangeState::RollingBack && !artifact.there && current is Some
                && change.expected is Some && current->0.identity == change.expected->0.identity
        },
        unadopted_fault(change, current, artifact, rollback_there) is None ==> {
            let restore = unadopted_step(change, true, artifact).restore;
            &&& change.causal is None
            &&& !rollback_there
            &&& change.state == PathChangeState::Materialized ==> {
                ||| change.target is File && seen_file(current, change.target->File_0)
                ||| change.target is Directory && current is Some && current->0.kind == 1
                ||| change.target is Absent && current is None
            }
            &&& change.state != PathChangeState::Materialized ==> current is None || current
                == change.expected
            &&& restore ==> change.expected is Some && artifact.there && artifact.identity
                == change.expected->0.identity
            &&& change.expected is Some && artifact.there ==> restore
        },
{
}

/// A rollback of a change of permission sets it back, and only on the directory that was expected:
/// nothing else of it may have changed.
pub proof fn law_permission_is_set_back(
    change: PathChange,
    current: Option<PathObservation>,
    artifact: ArtifactFacts,
    rollback_there: bool,
)
    requires
        change.metadata_only,
        change.causal is Some,
        change.expected is Some,
    ensures
        rolling_step(change, current, artifact) == RollbackStep::SetReadonly(
            change.expected->0.readonly,
        ),
        rolling_fault(change, current, artifact, rollback_there) is None <==> current is Some && {
            let (seen, wanted) = (current->0, change.expected->0);
            &&& seen.identity == wanted.identity
            &&& seen.kind == wanted.kind
            &&& seen.size == wanted.size
            &&& seen.modified_ns == wanted.modified_ns
            &&& seen.hash == wanted.hash
        },
{
}

/// A journal entry is followed exactly if it is of the first version, its identity is made of
/// digits, letters and dashes, its places are those of its identity, and what it has displaced, if
/// it has got so far, is still in its place and still the same object.
pub proof fn law_journal_entry_is_followed_if_it_fits(
    change: PathChange,
    vault: Seq<char>,
    artifact: ArtifactFacts,
)
    ensures
        binding_fault(change, vault, artifact) is None <==> {
            &&& change.version == 1
            &&& change.id@.len() >= 1
            &&& forall|i: int|
                0 <= i < change.id@.len() ==> ('0' <= (#[trigger] change.id@[i]) <= '9' || 'a'
                    <= change.id@[i] <= 'z' || 'A' <= change.id@[i] <= 'Z' || change.id@[i] == '-')
            &&& change.vault@ == vault
            &&& utf8(change.artifact@) == utf8(vault + "/"@ + change.id@ + "/"@) + change.path@
            &&& change.staging@ == vault + "/"@ + change.id@ + ".incoming"@
            &&& change.rollback_artifact@ == vault + "/"@ + change.id@ + ".rollback"@
            &&& change.expected is Some && !change.metadata_only && (change.state
                == PathChangeState::Preserved || change.state == PathChangeState::Materialized
                || change.state == PathChangeState::Indexed || change.state
                == PathChangeState::Committed) ==> artifact.there && artifact.identity
                == change.expected->0.identity
        },
{
}

/// After an interruption a change that was made for no record and has not put its target in place
/// is aborted, one that the index has taken over is committed, and all others are kept.
pub proof fn law_recovery_goes_by_how_far_it_came(change: PathChange)
    ensures
        recover_step(change) == RecoverStep::Abort <==> change.causal is None && (change.state
            == PathChangeState::Prepared || change.state == PathChangeState::Preserved),
        recover_step(change) == RecoverStep::Commit <==> change.state == PathChangeState::Indexed,
{
}

/// A record takes over a change exactly if that is of its folder and its path, is in place, has put
/// there what the record says, and was made for no other record.
pub proof fn law_record_takes_over_its_own_change(
    change: PathChange,
    root: Seq<char>,
    record: RecordView,
)
    ensures
        is_adopted(change, root, record) <==> {
            &&& change.root@ == root
            &&& change.path@ == record.path
            &&& change.state == PathChangeState::Materialized
            &&& match change.target {
                PathTarget::Absent => record.tombstone,
                PathTarget::Directory => !record.tombstone && record.kind
                    == SyncEntryKind::Directory,
                PathTarget::File(manifest) => !record.tombstone && record.kind
                    == SyncEntryKind::File && record.size == manifest.size && record.content_hash
                    == Some(manifest.file_hash),
            }
            &&& change.causal is Some ==> change.causal->0.record@ == record
        },
{
}

/// A record leads to the target that it asks for: nothing for a deletion, a directory for a
/// directory, and for a file the file of the manifest. Only where a directory is to be and one is
/// already there does nothing change but its permission.
pub proof fn law_record_leads_to_its_target(
    target: PathTarget,
    record: RecordView,
    manifest: Option<ManifestView>,
    expected: Option<PathObservation>,
)
    ensures
        is_target(target, record, manifest) <==> match target {
            PathTarget::Absent => record.tombstone,
            PathTarget::Directory => !record.tombstone && record.kind == SyncEntryKind::Directory,
            PathTarget::File(held) => !record.tombstone && record.kind == SyncEntryKind::File
                && manifest == Some(held@),
        },
        changes_metadata(record, expected) <==> {
            &&& !record.tombstone
            &&& record.kind == SyncEntryKind::Directory
            &&& expected is Some
            &&& expected->0.kind == 1
        },
{
}

/// Displaced objects are kept beside a folder only if that lies in real directories, nothing but a
/// directory has the name of the place, and the place can be reserved.
pub proof fn law_vault_lies_in_real_directories(
    parent: Option<Seq<EntryKind>>,
    found: Option<EntryKind>,
    can_reserve: bool,
)
    ensures
        beside_possible(parent, found, can_reserve) <==> {
            &&& can_reserve
            &&& found is None || found == Some(EntryKind::Directory)
            &&& parent is Some
            &&& forall|i: int|
                0 <= i < parent->0.len() ==> #[trigger] parent->0[i] == EntryKind::Directory
        },
{
}

/// A rollback goes through wherever the change is in place, what it has brought in is at the path,
/// nothing is kept of an earlier rollback, and what it has displaced is still in its place.
pub proof fn law_rollback_goes_through(
    change: PathChange,
    current: Option<PathObservation>,
    artifact: ArtifactFacts,
)
    requires
        !change.metadata_only,
        change.state == PathChangeState::Materialized,
        change.target is File && seen_file(current, change.target->File_0) || change.target
            is Directory && current is Some && current->0.kind == 1 || change.target is Absent
            && current is None,
        change.expected is Some ==> artifact.there && artifact.identity
            == change.expected->0.identity,
    ensures
        change.causal is Some ==> rolling_fault(change, current, artifact, false) is None
            && rolling_step(change, current, artifact) == (RollbackStep::Move {
            set_aside: current is Some,
            restore: change.expected is Some,
        }),
        change.causal is None ==> unadopted_fault(change, current, artifact, false) is None,
{
}

/// What authorizes a record is kept with the change, up to two mebibytes; more is refused.
pub proof fn law_authorization_is_bounded(
    binding: CausalBinding,
    manifest: Option<ManifestView>,
    expected: Option<PathObservation>,
)
    requires
        record_fault(binding.record@) is None,
    ensures
        causal_fault(binding, manifest, expected) == Some(StoreError::AuthorizationTooLarge)
            <==> binding.authorization is Some && binding.authorization->0@.len() > 2_097_152,
{
}

} // verus!
