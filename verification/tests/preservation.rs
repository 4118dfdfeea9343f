//! Changes to a folder, with the folder held in memory.
use deltaweave::hash::{Hash32, ReplicaId};
use deltaweave::manifest::{ChunkDescriptor, ChunkingProfile, FileManifest, MANIFEST_SCHEMA_V1};
use deltaweave::path::WirePath;
use deltaweave::record::{SyncEntryKind, SyncRecord, SyncRecordError, SYNC_RECORD_SCHEMA_V1};
use deltaweave::store::error::{PreservationError, StoreError};
use deltaweave::store::observe::{EntryFacts, EntryKind, PathObservation};
use deltaweave::store::preservation::{
    attempt_id, check_target, check_vault, is_real_directory, plan_causal, plan_vault, vault_name,
    ArtifactFacts, CaptureStep,
    CausalBinding, Incoming, PathChange, PathChangeState, PathTarget, PlaceStep, RecoverStep,
    ResumeStep, RollbackStep, VaultStep,
};
use deltaweave::version::VersionVector;

const LOCAL_CHANGED: StoreError = StoreError::Preservation(PreservationError::LocalChanged);
const STATE_UNAVAILABLE: StoreError =
    StoreError::Preservation(PreservationError::StateUnavailable);

fn object(number: u64, kind: u8, bytes: &[u8]) -> PathObservation {
    PathObservation {
        identity: Some((1, number)),
        kind,
        size: bytes.len() as u64,
        modified_ns: Some(7),
        readonly: false,
        hash: Hash32::digest(bytes),
    }
}

fn manifest(bytes: &[u8]) -> FileManifest {
    FileManifest {
        schema_version: MANIFEST_SCHEMA_V1,
        size: bytes.len() as u64,
        file_hash: Hash32::digest(bytes),
        profile: ChunkingProfile::default(),
        chunks: vec![ChunkDescriptor {
            offset: 0,
            length: bytes.len() as u32,
            hash: Hash32::digest(bytes),
        }],
    }
}

fn record(kind: SyncEntryKind, bytes: &[u8], tombstone: bool) -> SyncRecord {
    let mut version = VersionVector::default();
    version
        .increment(ReplicaId(Hash32::digest(b"replica")))
        .unwrap();
    let is_file = kind == SyncEntryKind::File;
    SyncRecord {
        schema_version: SYNC_RECORD_SCHEMA_V1,
        path: WirePath::new("dir/a.txt").unwrap(),
        kind,
        size: if is_file { bytes.len() as u64 } else { 0 },
        content_hash: if is_file {
            Some(Hash32::digest(bytes))
        } else {
            None
        },
        readonly: false,
        version,
        tombstone,
    }
}

/// The places of a change.
#[derive(Clone, Default)]
struct Folder {
    destination: Option<PathObservation>,
    artifact: Option<PathObservation>,
    staging: Option<PathObservation>,
    rollback: Option<PathObservation>,
}

fn move_free(from: &mut Option<PathObservation>, to: &mut Option<PathObservation>) -> bool {
    if from.is_some() && to.is_none() {
        *to = from.take();
        true
    } else {
        false
    }
}

impl Folder {
    fn artifact_facts(&self) -> ArtifactFacts {
        ArtifactFacts {
            there: self.artifact.is_some(),
            resolves: self.artifact.is_some(),
            identity: self.artifact.and_then(|object| object.identity),
        }
    }

    fn objects(&self) -> usize {
        [self.destination, self.artifact, self.staging, self.rollback]
            .iter()
            .flatten()
            .count()
    }
}

fn prepare(target: PathTarget, folder: &Folder) -> PathChange {
    PathChange::prepare(
        "/root".into(),
        &WirePath::new("dir/a.txt").unwrap(),
        target,
        folder.destination,
        false,
        &folder.destination,
        false,
        "/vault".into(),
        attempt_id("/root", 12, 34),
    )
    .ok()
    .unwrap()
}

fn capture(change: &mut PathChange, folder: &mut Folder) -> Result<(), StoreError> {
    if change.begin_capture(&folder.destination, &folder.staging)? == CaptureStep::MoveAside {
        assert!(move_free(&mut folder.destination, &mut folder.artifact));
    }
    change.finish_capture(&folder.artifact)
}

fn place(change: &mut PathChange, folder: &mut Folder, made: PathObservation) -> Result<(), StoreError> {
    match change.begin_place(&folder.artifact, &folder.destination, &folder.staging)? {
        PlaceStep::MoveIn => {
            if !move_free(&mut folder.staging, &mut folder.destination) {
                return Err(StoreError::Recreated);
            }
        }
        PlaceStep::MakeDirectory => {
            if folder.destination.is_some() {
                return Err(StoreError::Recreated);
            }
            folder.destination = Some(made);
        }
        PlaceStep::Nothing => {}
    }
    change.finish_place()
}

#[test]
fn a_file_is_replaced_and_the_old_one_kept() {
    let old = object(5, 0, b"old");
    let new = object(6, 0, b"new");
    let mut folder = Folder {
        destination: Some(old),
        staging: Some(new),
        ..Folder::default()
    };
    let mut change = prepare(PathTarget::File(manifest(b"new")), &folder);
    assert_eq!(change.state, PathChangeState::Prepared);
    change
        .validate("/vault", &folder.artifact_facts())
        .unwrap();
    capture(&mut change, &mut folder).unwrap();
    assert_eq!(folder.artifact, Some(old));
    assert_eq!(change.state, PathChangeState::Preserved);
    place(&mut change, &mut folder, new).unwrap();
    assert_eq!(change.state, PathChangeState::Materialized);
    assert_eq!(folder.destination, Some(new));
    assert_eq!(folder.artifact, Some(old));
    change
        .validate("/vault", &folder.artifact_facts())
        .unwrap();
    assert_eq!(
        change.validate("/vault", &Folder::default().artifact_facts()),
        Err(STATE_UNAVAILABLE)
    );
    let facts = EntryFacts {
        kind: EntryKind::File,
        identity: new.identity,
        size: 3,
        modified_ns: Some(7),
        changed_ns: None,
        readonly: false,
    };
    assert_eq!(
        change
            .observe(&folder.destination, &facts)
            .unwrap()
            .file_hash(),
        Hash32::digest(b"new")
    );
    assert_eq!(
        change.observe(&Some(old), &facts),
        Err(LOCAL_CHANGED)
    );
    let absence = prepare(PathTarget::Absent, &folder);
    assert_eq!(
        absence.observe(&None, &facts),
        Err(StoreError::NotAFileChange)
    );
    assert!(change.adopted_by("/root", &record(SyncEntryKind::File, b"new", false)));
    assert!(!change.adopted_by("/other", &record(SyncEntryKind::File, b"new", false)));
    assert!(!change.adopted_by("/root", &record(SyncEntryKind::File, b"old", false)));
    change.mark_indexed().unwrap();
    assert_eq!(change.recover(), RecoverStep::Commit);
    assert_eq!(change.state, PathChangeState::Committed);
    assert_eq!(change.recover(), RecoverStep::Keep);
}

#[test]
fn recreation_after_capture_is_never_overwritten() {
    let old = object(5, 0, b"old");
    let new = object(6, 0, b"new");
    let mut folder = Folder {
        destination: Some(old),
        staging: Some(new),
        ..Folder::default()
    };
    let mut change = prepare(PathTarget::File(manifest(b"new")), &folder);
    capture(&mut change, &mut folder).unwrap();
    let recreated = object(9, 0, b"local work");
    folder.destination = Some(recreated);
    assert!(place(&mut change, &mut folder, new).is_err());
    assert_eq!(folder.destination, Some(recreated));
    if change.abort(&folder.artifact_facts()) {
        move_free(&mut folder.artifact, &mut folder.destination);
    }
    assert_eq!(change.state, PathChangeState::Aborted);
    assert_eq!(folder.destination, Some(recreated));
    assert_eq!(folder.artifact, Some(old));
}

#[test]
fn edits_before_and_after_capture_force_retry_without_losing_work() {
    let old = object(5, 0, b"old");
    let edited = object(5, 0, b"edited");
    let mut folder = Folder {
        destination: Some(old),
        staging: Some(object(6, 0, b"new")),
        ..Folder::default()
    };
    let mut change = prepare(PathTarget::File(manifest(b"new")), &folder);
    folder.destination = Some(edited);
    assert_eq!(capture(&mut change, &mut folder), Err(LOCAL_CHANGED));
    assert_eq!(folder.destination, Some(edited));

    folder.destination = Some(old);
    assert_eq!(
        change.begin_capture(&folder.destination, &folder.staging),
        Ok(CaptureStep::MoveAside)
    );
    move_free(&mut folder.destination, &mut folder.artifact);
    folder.artifact = Some(edited);
    assert_eq!(
        change.finish_capture(&folder.artifact),
        Err(StoreError::CaptureChanged)
    );
    assert!(change.abort(&folder.artifact_facts()));
    assert!(move_free(&mut folder.artifact, &mut folder.destination));
    assert_eq!(folder.destination, Some(edited));
}

#[test]
fn staging_that_changed_is_refused() {
    let mut folder = Folder {
        staging: Some(object(6, 0, b"other")),
        ..Folder::default()
    };
    let mut change = prepare(PathTarget::File(manifest(b"new")), &folder);
    assert_eq!(
        capture(&mut change, &mut folder),
        Err(StoreError::StagingChanged)
    );
    folder.staging = Some(object(6, 0, b"new"));
    capture(&mut change, &mut folder).unwrap();
    folder.staging = None;
    assert_eq!(
        place(&mut change, &mut folder, object(1, 1, b"")),
        Err(StoreError::StagingChanged)
    );
    assert_eq!(
        capture(&mut change, &mut folder),
        Err(StoreError::WrongState)
    );
}

#[test]
fn directories_and_absences_are_placed_too() {
    let old = object(5, 0, b"old");
    let made = object(8, 1, b"");
    let mut folder = Folder {
        destination: Some(old),
        ..Folder::default()
    };
    let mut change = prepare(PathTarget::Directory, &folder);
    capture(&mut change, &mut folder).unwrap();
    place(&mut change, &mut folder, made).unwrap();
    assert_eq!(folder.destination, Some(made));
    assert_eq!(folder.artifact, Some(old));

    let mut folder = Folder {
        destination: Some(old),
        ..Folder::default()
    };
    let mut change = prepare(PathTarget::Absent, &folder);
    capture(&mut change, &mut folder).unwrap();
    folder.destination = Some(made);
    assert_eq!(
        place(&mut change, &mut folder, made),
        Err(StoreError::Recreated)
    );
    folder.destination = None;
    place(&mut change, &mut folder, made).unwrap();
    assert_eq!(folder.artifact, Some(old));
    assert_eq!(
        PathChange::prepare(
            "/root".into(),
            &WirePath::new("dir").unwrap(),
            PathTarget::Absent,
            Some(made),
            false,
            &Some(made),
            true,
            "/vault".into(),
            "change-1".into(),
        )
        .err(),
        Some(StoreError::DirectoryNotEmpty)
    );
    assert_eq!(
        PathChange::prepare(
            "/root".into(),
            &WirePath::new("dir").unwrap(),
            PathTarget::Absent,
            Some(made),
            false,
            &Some(old),
            true,
            "/vault".into(),
            "change-1".into(),
        )
        .err(),
        Some(LOCAL_CHANGED)
    );
}

#[test]
fn interrupted_changes_go_on_where_they_were() {
    let old = object(5, 0, b"old");
    let new = object(6, 0, b"new");
    let start = Folder {
        destination: Some(old),
        staging: Some(new),
        ..Folder::default()
    };
    let mut change = prepare(PathTarget::File(manifest(b"new")), &start);
    assert_eq!(
        change.resume_capture(&None, true),
        Ok(ResumeStep::Capture)
    );
    assert_eq!(change.resume_capture(&None, false), Ok(ResumeStep::Abort));
    assert_eq!(
        change.resume_capture(&Some(new), true),
        Err(StoreError::CaptureChanged)
    );
    assert_eq!(
        change.resume_capture(&Some(old), true),
        Ok(ResumeStep::Nothing)
    );
    assert_eq!(change.state, PathChangeState::Preserved);
    let moved = Folder {
        artifact: Some(old),
        staging: Some(new),
        ..Folder::default()
    };
    assert_eq!(
        change.resume_place(&moved.destination, &moved.artifact_facts()),
        Ok(ResumeStep::Place)
    );
    assert_eq!(
        change.resume_place(&Some(new), &start.artifact_facts()),
        Err(STATE_UNAVAILABLE)
    );
    assert_eq!(
        change.resume_place(&Some(new), &moved.artifact_facts()),
        Ok(ResumeStep::Nothing)
    );
    assert_eq!(change.state, PathChangeState::Materialized);
}

fn causal(mut change: PathChange) -> PathChange {
    change.causal = Some(CausalBinding {
        record: record(SyncEntryKind::File, b"new", false),
        precondition: None,
        authorization: None,
    });
    change
}

#[test]
fn rollback_preserves_incoming_and_restores_the_old_object() {
    let old = object(5, 0, b"old");
    let new = object(6, 0, b"new");
    let mut folder = Folder {
        destination: Some(old),
        staging: Some(new),
        ..Folder::default()
    };
    let plain = prepare(PathTarget::File(manifest(b"new")), &folder);
    let mut refused = plain;
    assert_eq!(
        refused.begin_rollback(&folder.destination, &folder.artifact_facts(), false),
        Err(StoreError::NoCausalBinding)
    );
    let mut change = causal(refused);
    capture(&mut change, &mut folder).unwrap();
    place(&mut change, &mut folder, new).unwrap();
    let count = folder.objects();
    let current = folder.destination;
    assert_eq!(
        change.begin_rollback(&Some(object(9, 0, b"local")), &folder.artifact_facts(), false),
        Err(LOCAL_CHANGED)
    );
    assert_eq!(
        change.begin_rollback(&current, &folder.artifact_facts(), true),
        Err(LOCAL_CHANGED)
    );
    assert_eq!(
        change.begin_rollback(&current, &Folder::default().artifact_facts(), false),
        Err(STATE_UNAVAILABLE)
    );
    assert_eq!(
        change.begin_rollback(&current, &folder.artifact_facts(), false),
        Ok(RollbackStep::Move {
            set_aside: true,
            restore: true,
        })
    );
    assert_eq!(change.state, PathChangeState::RollingBack);
    assert!(move_free(&mut folder.destination, &mut folder.rollback));
    PathChange::check_set_aside(&current, &folder.rollback).unwrap();
    assert!(move_free(&mut folder.artifact, &mut folder.destination));
    // The last step was not written down: the next rollback finds it done.
    assert_eq!(
        change.begin_rollback(&folder.destination, &folder.artifact_facts(), true),
        Ok(RollbackStep::Done)
    );
    assert_eq!(change.state, PathChangeState::RolledBack);
    assert_eq!(folder.destination, Some(old));
    assert_eq!(folder.rollback, Some(new));
    assert_eq!(folder.objects(), count);
    assert_eq!(change.finish_rollback(), Err(StoreError::WrongState));
}

#[test]
fn directories_get_their_permission_back() {
    let mut directory = object(5, 1, b"");
    directory.readonly = true;
    let folder = Folder {
        destination: Some(directory),
        ..Folder::default()
    };
    let mut change = causal(prepare(PathTarget::Directory, &folder));
    change.metadata_only = true;
    let mut opened = directory;
    opened.readonly = false;
    assert_eq!(
        change.begin_rollback(&Some(opened), &folder.artifact_facts(), false),
        Ok(RollbackStep::SetReadonly(true))
    );
    change.finish_rollback().unwrap();
    assert_eq!(change.state, PathChangeState::RolledBack);
    assert_eq!(
        change.begin_rollback(&None, &folder.artifact_facts(), false),
        Err(STATE_UNAVAILABLE)
    );
}

#[test]
fn recovery_aborts_only_what_no_record_asked_for() {
    let folder = Folder {
        destination: Some(object(5, 0, b"old")),
        ..Folder::default()
    };
    let mut change = prepare(PathTarget::Absent, &folder);
    assert_eq!(change.recover(), RecoverStep::Abort);
    let mut change = causal(change);
    assert_eq!(change.recover(), RecoverStep::Keep);
    assert_eq!(change.mark_indexed(), Err(StoreError::WrongState));
    assert_eq!(change.commit(), Err(StoreError::WrongState));
}

#[test]
fn journal_entries_name_their_own_places() {
    let folder = Folder::default();
    let change = prepare(PathTarget::Directory, &folder);
    let root = Hash32::digest(b"/root").to_hex();
    assert_eq!(change.id, format!("change-{root}-12-34"));
    assert_eq!(change.artifact, format!("/vault/{}/dir/a.txt", change.id));
    assert_eq!(change.staging, format!("/vault/{}.incoming", change.id));
    assert_eq!(
        change.rollback_artifact,
        format!("/vault/{}.rollback", change.id)
    );
    assert_eq!(vault_name("/root"), format!(".deltaweave-{root}.recovery"));
    assert_eq!(
        change.validate("/elsewhere", &folder.artifact_facts()),
        Err(StoreError::InvalidBinding)
    );
    let mut alias = prepare(PathTarget::Directory, &folder);
    alias.staging = alias.artifact.clone();
    assert_eq!(
        alias.validate("/vault", &folder.artifact_facts()),
        Err(StoreError::InvalidBinding)
    );
    let mut foreign = prepare(PathTarget::Directory, &folder);
    foreign.id = "../x".into();
    assert_eq!(
        foreign.validate("/vault", &folder.artifact_facts()),
        Err(StoreError::InvalidBinding)
    );
}

#[test]
fn private_places_lie_outside_the_folder_on_its_volume() {
    assert_eq!(check_vault("/a/root", "/a/state/trash", true), Ok(()));
    assert_eq!(check_vault("/a/root", "/a/root2", true), Ok(()));
    let refused = Err(StoreError::Preservation(
        PreservationError::RecoveryUnavailable,
    ));
    assert_eq!(check_vault("/a/root", "/a/root/trash", true), refused);
    assert_eq!(check_vault("/a/root", "/a", true), refused);
    assert_eq!(check_vault("/a/root", "/", true), refused);
    assert_eq!(check_vault("/a/root", "/b", false), refused);
    assert_eq!(
        PreservationError::LocalChanged.message(),
        "local state changed; retry synchronization"
    );
}

#[test]
fn records_are_applied_only_to_what_the_index_held() {
    let old = object(5, 0, b"old");
    let binding = |record, precondition| CausalBinding {
        record,
        precondition,
        authorization: None,
    };
    let previous = || Some(record(SyncEntryKind::File, b"old", false));
    let incoming = manifest(b"new");
    let plan = plan_causal(
        &binding(record(SyncEntryKind::File, b"new", false), previous()),
        Some(&incoming),
        &Some(old),
    )
    .ok()
    .unwrap();
    assert!(matches!(plan.target, PathTarget::File(_)));
    assert!(!plan.metadata_only);
    check_target(&plan.target).unwrap();
    assert_eq!(
        plan_causal(
            &binding(record(SyncEntryKind::File, b"new", false), None),
            Some(&incoming),
            &Some(old),
        )
        .err(),
        Some(LOCAL_CHANGED)
    );
    assert_eq!(
        plan_causal(
            &binding(record(SyncEntryKind::File, b"new", false), previous()),
            None,
            &Some(old),
        )
        .err(),
        Some(StoreError::ManifestMissing)
    );
    assert_eq!(
        plan_causal(
            &binding(record(SyncEntryKind::File, b"else", false), previous()),
            Some(&incoming),
            &Some(old),
        )
        .err(),
        Some(StoreError::ManifestMismatch)
    );
    let gone = plan_causal(
        &binding(record(SyncEntryKind::File, b"new", true), previous()),
        None,
        &Some(old),
    )
    .ok()
    .unwrap();
    assert!(matches!(gone.target, PathTarget::Absent));
    let directory = object(6, 1, b"");
    let kept = plan_causal(
        &binding(
            record(SyncEntryKind::Directory, b"", false),
            Some(record(SyncEntryKind::Directory, b"", false)),
        ),
        None,
        &Some(directory),
    )
    .ok()
    .unwrap();
    assert!(kept.metadata_only);
    let mut broken = record(SyncEntryKind::File, b"new", false);
    broken.content_hash = None;
    assert_eq!(
        plan_causal(&binding(broken, previous()), Some(&incoming), &Some(old)).err(),
        Some(StoreError::Record(SyncRecordError::MissingContentHash))
    );
    let mut large = binding(record(SyncEntryKind::File, b"new", true), previous());
    large.authorization = Some(vec![0; 2 * 1024 * 1024 + 1]);
    assert_eq!(
        plan_causal(&large, None, &Some(old)).err(),
        Some(StoreError::AuthorizationTooLarge)
    );
}

fn roll_back_unadopted(change: &mut PathChange, folder: &mut Folder) -> Result<(), StoreError> {
    let step = change.begin_unadopted_rollback(
        &folder.destination,
        folder.staging.is_some(),
        &folder.artifact_facts(),
        folder.rollback.is_some(),
    )?;
    match step.incoming {
        Incoming::Nowhere => {}
        Incoming::Staged => assert!(move_free(&mut folder.staging, &mut folder.rollback)),
        Incoming::Placed => assert!(move_free(&mut folder.destination, &mut folder.rollback)),
    }
    if step.restore {
        assert!(move_free(&mut folder.artifact, &mut folder.destination));
    }
    change.finish_rollback()
}

#[test]
fn rollback_unadopted_preserves_incoming_and_restores_each_unadopted_state() {
    for state in [
        PathChangeState::Prepared,
        PathChangeState::Preserved,
        PathChangeState::Materialized,
    ] {
        let local = object(5, 0, b"local content");
        let incoming = object(6, 0, b"incoming content");
        let mut folder = Folder {
            destination: Some(local),
            staging: Some(incoming),
            ..Folder::default()
        };
        let mut change = prepare(PathTarget::File(manifest(b"incoming content")), &folder);
        if matches!(
            state,
            PathChangeState::Preserved | PathChangeState::Materialized
        ) {
            capture(&mut change, &mut folder).unwrap();
        }
        if state == PathChangeState::Materialized {
            place(&mut change, &mut folder, incoming).unwrap();
        }

        roll_back_unadopted(&mut change, &mut folder).unwrap();
        assert_eq!(change.state, PathChangeState::RolledBack);
        assert_eq!(folder.destination, Some(local));
        assert_eq!(folder.rollback, Some(incoming));
        assert_eq!(folder.staging, None);
        assert_eq!(folder.artifact, None);
    }
}

#[test]
fn rollback_unadopted_rejects_drift_causal_and_indexed_changes() {
    let local = object(5, 0, b"local content");
    let incoming = object(6, 0, b"incoming content");
    let target = || PathTarget::File(manifest(b"incoming content"));
    let mut folder = Folder {
        destination: Some(local),
        staging: Some(incoming),
        ..Folder::default()
    };
    let mut drifted = prepare(target(), &folder);
    capture(&mut drifted, &mut folder).unwrap();
    place(&mut drifted, &mut folder, incoming).unwrap();
    let drift = object(6, 0, b"local drift");
    folder.destination = Some(drift);
    assert_eq!(
        roll_back_unadopted(&mut drifted, &mut folder),
        Err(LOCAL_CHANGED)
    );
    assert_eq!(folder.destination, Some(drift));
    assert_eq!(folder.artifact, Some(local));
    assert_eq!(folder.rollback, None);
    assert_eq!(drifted.state, PathChangeState::Materialized);

    let mut folder = Folder::default();
    let mut bound = causal(prepare(target(), &folder));
    assert_eq!(
        roll_back_unadopted(&mut bound, &mut folder),
        Err(StoreError::BoundToRecord)
    );
    assert_eq!(folder.destination, None);

    let mut indexed = prepare(target(), &folder);
    indexed.state = PathChangeState::Indexed;
    assert_eq!(
        roll_back_unadopted(&mut indexed, &mut folder),
        Err(StoreError::WrongState)
    );
    assert_eq!(indexed.state, PathChangeState::Indexed);
}

#[test]
fn rollback_unadopted_restores_nonfile_targets_without_incoming_stage() {
    for (local, target) in [
        (object(5, 1, b""), PathTarget::Directory),
        (object(7, 0, b"local content"), PathTarget::Absent),
    ] {
        let mut folder = Folder {
            destination: Some(local),
            ..Folder::default()
        };
        let mut change = prepare(target, &folder);
        capture(&mut change, &mut folder).unwrap();
        roll_back_unadopted(&mut change, &mut folder).unwrap();
        assert_eq!(change.state, PathChangeState::RolledBack);
        assert_eq!(folder.destination, Some(local));
        assert_eq!(folder.rollback, None);
    }
}

#[test]
fn missing_materialized_artifact_stops_recovery() {
    let mut folder = Folder {
        destination: Some(object(5, 0, b"local")),
        staging: Some(object(6, 0, b"owner content")),
        ..Folder::default()
    };
    let mut change = prepare(PathTarget::File(manifest(b"owner content")), &folder);
    capture(&mut change, &mut folder).unwrap();
    place(&mut change, &mut folder, object(6, 0, b"owner content")).unwrap();
    folder.artifact = None;
    assert_eq!(
        change.validate("/vault", &folder.artifact_facts()),
        Err(STATE_UNAVAILABLE)
    );
    assert_eq!(
        change.begin_unadopted_rollback(
            &folder.destination,
            false,
            &folder.artifact_facts(),
            false,
        ),
        Err(STATE_UNAVAILABLE)
    );
    assert_eq!(folder.destination, Some(object(6, 0, b"owner content")));
}

#[test]
fn displaced_objects_go_to_the_trash_or_beside_the_folder() {
    let real = vec![EntryKind::Directory; 3];
    let linked = vec![EntryKind::Directory, EntryKind::Symlink];
    let refused = Err(StoreError::Preservation(
        PreservationError::RecoveryUnavailable,
    ));
    assert!(is_real_directory(&real));
    assert!(!is_real_directory(&linked));
    assert_eq!(
        plan_vault(&real, true, &None, None, false),
        Ok(VaultStep::Trash)
    );
    assert_eq!(plan_vault(&linked, true, &None, None, false), refused);
    let parent = Some(real.clone());
    assert_eq!(
        plan_vault(&real, false, &parent, None, true),
        Ok(VaultStep::Beside)
    );
    assert_eq!(
        plan_vault(&real, false, &parent, Some(EntryKind::Directory), true),
        Ok(VaultStep::Beside)
    );
    assert_eq!(
        plan_vault(&real, false, &parent, Some(EntryKind::Symlink), true),
        refused
    );
    assert_eq!(plan_vault(&real, false, &parent, None, false), refused);
    assert_eq!(plan_vault(&real, false, &Some(linked), None, true), refused);
    assert_eq!(plan_vault(&real, false, &None, None, true), refused);
}
