//! Chunks, the files that are put together from them, and what is done to a folder.
use std::collections::{BTreeMap, BTreeSet};

use deltaweave::hash::{ContentHasher, Hash32, ReplicaId};
use deltaweave::manifest::{
    verify_chunk, ChunkDescriptor, ChunkError, ChunkingProfile, FileManifest, ManifestError,
    MANIFEST_SCHEMA_V1,
};
use deltaweave::path::WirePath;
use deltaweave::record::{SyncEntryKind, SyncRecord, SYNC_RECORD_SCHEMA_V1};
use deltaweave::store::chunks::{
    distinct_chunks, missing_chunks, ChunkFile, ChunkStore, InstallStep, Installed, VerifiedChunk,
};
use deltaweave::store::error::{PreservationError, StoreError};
use deltaweave::store::observe::{
    check_destination, identity_of, readonly_mode, same_volume, time_of, Content, DirectoryEntry,
    EntryFacts, EntryKind, MaterializationObservation, PathObservation,
};
use deltaweave::store::operations::{
    check_private, operation_id, plan_directory, plan_materialize, plan_remove, read_private,
    Assembly, DirectoryStep, MaterializeOutcome, MaterializeStep, OperationState, RemoveOutcome,
    RemoveStep, ReplaceStep,
};
use deltaweave::version::VersionVector;

fn fixture(length: usize) -> Vec<u8> {
    (0..length)
        .map(|index| ((index * 31) ^ (index >> 3)) as u8)
        .collect()
}

/// A chunk store whose files are held in memory.
struct Memory {
    store: ChunkStore,
    files: BTreeMap<String, Vec<u8>>,
    blocked: BTreeSet<String>,
    sequence: u64,
}

impl Memory {
    fn open() -> Memory {
        Memory {
            store: ChunkStore::under("/state"),
            files: BTreeMap::new(),
            blocked: BTreeSet::new(),
            sequence: 0,
        }
    }

    fn contains(&self, hash: Hash32) -> bool {
        self.files.contains_key(&self.store.chunk_path(&hash))
    }

    fn read_verified(&self, hash: Hash32) -> Result<Vec<u8>, StoreError> {
        match self.files.get(&self.store.chunk_path(&hash)) {
            Some(bytes) => ChunkStore::read_verified(&hash, bytes.clone()),
            None => Err(StoreError::NotInstalled),
        }
    }

    fn install(&mut self, hash: Hash32, bytes: &[u8]) -> Result<bool, StoreError> {
        let (parent, _) = self.store.chunk_place(&hash);
        if self.blocked.contains(&parent) {
            return Err(StoreError::NotInstalled);
        }
        let path = self.store.chunk_path(&hash);
        let step = {
            let found = match self.files.get(&path) {
                Some(bytes) => ChunkFile::Holds(bytes),
                None => ChunkFile::Missing,
            };
            ChunkStore::install_step(&hash, &found)
        };
        match step {
            InstallStep::Keep => return Ok(false),
            InstallStep::Quarantine => {
                self.sequence += 1;
                let kept = self.store.unique_path(
                    &self.store.trash,
                    "corrupt",
                    7,
                    &hash,
                    self.sequence,
                );
                let old = self.files.remove(&path).expect("something is there");
                self.files.insert(kept, old);
            }
            InstallStep::Write => {}
        }
        self.files.insert(path, bytes.to_vec());
        Ok(true)
    }

    fn install_all(
        &mut self,
        chunks: Vec<(Hash32, Vec<u8>)>,
    ) -> (Result<usize, StoreError>, Vec<u8>) {
        let mut outcomes = Vec::new();
        let mut failed = None;
        for (hash, bytes) in chunks {
            match self.install(hash, &bytes) {
                Ok(written) => outcomes.push(Installed { hash, written }),
                Err(error) => {
                    failed = Some(error);
                    break;
                }
            }
        }
        let report = ChunkStore::batch_report(&outcomes);
        match failed {
            Some(error) => (Err(error), report.parents),
            None => (Ok(report.written), report.parents),
        }
    }

    fn put_verified_batch(
        &mut self,
        chunks: Vec<(Hash32, Vec<u8>)>,
    ) -> (Result<usize, StoreError>, Vec<u8>) {
        match ChunkStore::put_verified_batch(&chunks) {
            Ok(()) => self.install_all(chunks),
            Err(error) => (Err(error), vec![]),
        }
    }

    fn put_validated_batch(
        &mut self,
        chunks: Vec<VerifiedChunk>,
    ) -> (Result<usize, StoreError>, Vec<u8>) {
        let chunks = chunks
            .into_iter()
            .map(|chunk| (chunk.hash(), chunk.bytes().to_vec()))
            .collect();
        self.install_all(chunks)
    }
}

#[test]
fn chunk_store_batch_commits_verified_chunks() {
    let mut store = Memory::open();
    let chunks: Vec<_> = (0..32)
        .map(|index| {
            let bytes = fixture(64 * 1024 + index);
            (Hash32::digest(&bytes), bytes)
        })
        .collect();

    let (written, _) = store.put_verified_batch(chunks.clone());

    assert_eq!(
        written.expect("verified batch can be committed"),
        chunks.len()
    );
    for (hash, bytes) in chunks {
        assert_eq!(
            store.read_verified(hash).expect("batch chunk can be read"),
            bytes
        );
    }
}

#[test]
fn chunk_store_batch_syncs_installed_parents_before_returning_later_error() {
    let mut store = Memory::open();
    let first = fixture(64 * 1024);
    let first_hash = Hash32::digest(&first);
    let mut second = fixture(64 * 1024 + 1);
    let second_hash = loop {
        let hash = Hash32::digest(&second);
        if hash.to_hex()[..2] != first_hash.to_hex()[..2] {
            break hash;
        }
        second.push(1);
    };
    let blocked_parent = store.store.chunk_place(&second_hash).0;
    store.blocked.insert(blocked_parent);

    let (result, synced) =
        store.put_verified_batch(vec![(first_hash, first), (second_hash, second)]);

    assert!(result.is_err());
    assert!(store.contains(first_hash));
    assert_eq!(synced, vec![first_hash.bytes[0]]);
}

#[test]
fn chunk_store_batch_rejects_before_installing_any_chunk() {
    let mut store = Memory::open();
    let good = fixture(64 * 1024);
    let good_hash = Hash32::digest(&good);
    let invalid_hash = Hash32::digest(b"different");

    assert!(store
        .put_verified_batch(vec![(good_hash, good), (invalid_hash, b"bad".to_vec())])
        .0
        .is_err());
    assert!(!store.contains(good_hash));
    assert!(!store.contains(invalid_hash));
}

#[test]
fn chunk_store_rejects_mislabeled_data() {
    assert!(ChunkStore::put_verified(&Hash32::digest(b"good"), b"evil").is_err());
    assert_eq!(
        ChunkStore::put_verified(&Hash32::digest(b"good"), b"evil"),
        Err(StoreError::MislabeledChunk)
    );
    assert_eq!(
        ChunkStore::put_verified(&Hash32::digest(b"good"), b"good"),
        Ok(())
    );
}

fn descriptor_for(bytes: &[u8]) -> ChunkDescriptor {
    ChunkDescriptor {
        offset: 0,
        length: u32::try_from(bytes.len()).expect("fixture fits in a chunk descriptor"),
        hash: Hash32::digest(bytes),
    }
}

fn validated(bytes: Vec<u8>) -> VerifiedChunk {
    let descriptor = descriptor_for(&bytes);
    VerifiedChunk::validate(&descriptor, bytes).expect("fixture matches its descriptor")
}

fn message(error: StoreError) -> &'static str {
    match error {
        StoreError::Chunk(error) => error.message(),
        _ => panic!("the chunk should be at fault"),
    }
}

#[test]
fn verified_chunk_rejects_hash_mismatch() {
    let descriptor = ChunkDescriptor {
        offset: 0,
        length: 4,
        hash: Hash32::digest(b"good"),
    };

    let error = VerifiedChunk::validate(&descriptor, b"evil".to_vec())
        .expect_err("mislabeled bytes must not become a VerifiedChunk");
    assert!(message(error).contains("hash mismatch"));
}

#[test]
fn verified_chunk_rejects_length_mismatch() {
    let descriptor = ChunkDescriptor {
        offset: 0,
        length: 4,
        hash: Hash32::digest(b"good"),
    };

    let short = VerifiedChunk::validate(&descriptor, b"goo".to_vec())
        .expect_err("short bytes must not become a VerifiedChunk");
    let long = VerifiedChunk::validate(&descriptor, b"goods".to_vec())
        .expect_err("long bytes must not become a VerifiedChunk");
    assert!(message(short).contains("length mismatch"));
    assert!(message(long).contains("length mismatch"));
}

#[test]
fn put_validated_batch_installs_prechecked_chunks() {
    let mut store = Memory::open();
    let chunks: Vec<_> = (0..8)
        .map(|index| validated(fixture(32 * 1024 + index)))
        .collect();
    let expected: Vec<_> = chunks
        .iter()
        .map(|chunk| (chunk.hash(), chunk.bytes().to_vec()))
        .collect();

    let (written, _) = store.put_validated_batch(chunks);

    assert_eq!(
        written.expect("validated batch can be committed"),
        expected.len()
    );
    for (hash, bytes) in expected {
        assert_eq!(
            store
                .read_verified(hash)
                .expect("validated chunk can be read"),
            bytes
        );
    }
}

#[test]
fn put_validated_batch_quarantines_corrupt_destination() {
    let mut store = Memory::open();
    let bytes = fixture(48 * 1024);
    let hash = Hash32::digest(&bytes);
    let destination = store.store.chunk_path(&hash);
    store.files.insert(destination, b"corrupt".to_vec());

    let (written, _) = store.put_validated_batch(vec![validated(bytes.clone())]);

    assert_eq!(
        written.expect("validated chunk replaces a corrupt destination"),
        1
    );
    assert_eq!(
        store
            .read_verified(hash)
            .expect("replaced chunk can be read"),
        bytes
    );
    let quarantined = store
        .files
        .keys()
        .filter(|path| path.starts_with("/state/trash/corrupt-"))
        .count();
    assert_eq!(quarantined, 1);
}

#[test]
fn put_validated_batch_syncs_installed_parents_before_returning_later_error() {
    let mut store = Memory::open();
    let first = fixture(64 * 1024);
    let first_hash = Hash32::digest(&first);
    let mut second = fixture(64 * 1024 + 1);
    let second_hash = loop {
        let hash = Hash32::digest(&second);
        if hash.to_hex()[..2] != first_hash.to_hex()[..2] {
            break hash;
        }
        second.push(1);
    };
    let blocked_parent = store.store.chunk_place(&second_hash).0;
    store.blocked.insert(blocked_parent);

    let (result, synced) = store.put_validated_batch(vec![validated(first), validated(second)]);

    assert!(result.is_err());
    assert!(store.contains(first_hash));
    assert_eq!(synced, vec![first_hash.bytes[0]]);
}

fn manifest_of(pieces: &[&[u8]]) -> FileManifest {
    let mut chunks = Vec::new();
    let mut offset = 0;
    for piece in pieces {
        chunks.push(ChunkDescriptor {
            offset,
            length: piece.len() as u32,
            hash: Hash32::digest(piece),
        });
        offset += piece.len() as u64;
    }
    FileManifest {
        schema_version: MANIFEST_SCHEMA_V1,
        size: offset,
        file_hash: Hash32::digest(&pieces.concat()),
        profile: ChunkingProfile::default(),
        chunks,
    }
}

#[test]
fn chunk_names_split_after_two_digits() {
    let store = ChunkStore::under("/state");
    let hash = Hash32::digest(b"chunk");
    let hex = hash.to_hex();
    assert_eq!(
        store.chunk_path(&hash),
        format!("/state/chunks/{}/{}", &hex[..2], &hex[2..])
    );
    assert_eq!(
        store.unique_path(&store.temporary, "chunk", 41, &hash, 1007),
        format!("/state/tmp/chunk-41-{hex}-1007.part")
    );
    let path = WirePath::new("a/b.txt").unwrap();
    assert_eq!(
        store.trash_path(&path, &hash, 3),
        format!("/state/trash/replace-{hex}-3/a/b.txt")
    );
}

#[test]
fn races_for_a_chunk_are_settled_by_its_digest() {
    let hash = Hash32::digest(b"chunk");
    assert_eq!(
        ChunkStore::after_race(&hash, &ChunkFile::Holds(b"chunk")),
        Ok(())
    );
    assert_eq!(
        ChunkStore::after_race(&hash, &ChunkFile::Holds(b"other")),
        Err(StoreError::CorruptChunk)
    );
    assert_eq!(
        ChunkStore::after_race(&hash, &ChunkFile::Missing),
        Err(StoreError::NotInstalled)
    );
    assert_eq!(
        ChunkStore::install_step(&hash, &ChunkFile::Unreadable),
        InstallStep::Quarantine
    );
}

#[test]
fn corrupt_cached_chunk_is_requested_again() {
    let manifest = manifest_of(&[b"one", b"two", b"one"]);
    let one = Hash32::digest(b"one");
    let two = Hash32::digest(b"two");
    assert_eq!(distinct_chunks(&manifest), vec![one, two]);
    assert_eq!(missing_chunks(&manifest, &vec![]), vec![one, two]);
    assert_eq!(missing_chunks(&manifest, &vec![one]), vec![two]);
    assert!(missing_chunks(&manifest, &vec![two, one]).is_empty());
    assert_eq!(
        ChunkStore::read_verified(&one, b"on?".to_vec()),
        Err(StoreError::CorruptChunk)
    );
}

#[test]
fn files_are_put_together_chunk_by_chunk() {
    let manifest = manifest_of(&[b"hello ", b"world"]);
    let mut assembly = Assembly::new(&manifest);
    assert_eq!(assembly.wanted(), Some(Hash32::digest(b"hello ")));
    assert_eq!(assembly.take(b"nonsense"), Err(StoreError::CorruptChunk));
    assembly.take(b"hello ").unwrap();
    assert_eq!(assembly.finish(), Err(StoreError::FileHashMismatch));
    assembly.take(b"world").unwrap();
    assert_eq!(assembly.wanted(), None);
    assembly.finish().unwrap();

    let mut wrong = manifest_of(&[b"hello ", b"world"]);
    wrong.chunks[0].length = 5;
    assert_eq!(
        Assembly::new(&wrong).take(b"hello "),
        Err(StoreError::ExtentMismatch)
    );
    wrong = manifest_of(&[b"hello ", b"world"]);
    wrong.file_hash = Hash32::digest(b"another file");
    let mut assembly = Assembly::new(&wrong);
    assembly.take(b"hello ").unwrap();
    assembly.take(b"world").unwrap();
    assert_eq!(assembly.finish(), Err(StoreError::FileHashMismatch));
}

#[test]
fn hashing_in_pieces_is_hashing_at_once() {
    let mut hasher = ContentHasher::new();
    assert_eq!(hasher.finish(), Hash32::digest(b""));
    hasher.update(b"some ");
    hasher.update(b"bytes");
    assert_eq!(hasher.finish(), Hash32::digest(b"some bytes"));
}

#[test]
fn extents_are_verified_before_they_are_kept() {
    let descriptor = descriptor_for(b"extent");
    assert_eq!(verify_chunk(&descriptor, b"extent"), Ok(()));
    assert_eq!(
        verify_chunk(&descriptor, b"exten"),
        Err(ChunkError::LengthMismatch)
    );
    assert_eq!(
        verify_chunk(&descriptor, b"extenT"),
        Err(ChunkError::HashMismatch)
    );
}

fn facts(kind: EntryKind, size: u64) -> EntryFacts {
    EntryFacts {
        kind,
        identity: identity_of(3, 4),
        size,
        modified_ns: time_of(5, 6),
        changed_ns: time_of(7, 8),
        readonly: false,
    }
}

#[test]
fn materialization_is_planned_and_idempotent() {
    let manifest = manifest_of(&[b"content"]);
    let path = WirePath::new("a.txt").unwrap();
    let written = match plan_materialize(&manifest, &path, None, false, None).unwrap() {
        MaterializeStep::Write(operation) => operation,
        MaterializeStep::Current(_) => panic!("nothing is there"),
    };
    assert_eq!(written.state, OperationState::Prepared);
    assert_eq!(written.id, operation_id(&path, &manifest));
    let committed = written.commit();
    assert_eq!(committed.state, OperationState::Committed);
    match plan_materialize(
        &manifest,
        &path,
        Some(EntryKind::File),
        false,
        Some(manifest.file_hash),
    )
    .unwrap()
    {
        MaterializeStep::Current(operation) => assert_eq!(operation, committed),
        MaterializeStep::Write(_) => panic!("the file is there"),
    }
    assert!(matches!(
        plan_materialize(
            &manifest,
            &path,
            Some(EntryKind::File),
            false,
            Some(Hash32::digest(b"old")),
        ),
        Ok(MaterializeStep::Write(_))
    ));
    assert_eq!(
        plan_materialize(&manifest, &path, Some(EntryKind::Directory), true, None).err(),
        Some(StoreError::DirectoryInTheWay)
    );
    assert!(matches!(
        plan_materialize(&manifest, &path, Some(EntryKind::Directory), false, None),
        Ok(MaterializeStep::Write(_))
    ));
    let mut broken = manifest.clone();
    broken.size = 1;
    assert_eq!(
        plan_materialize(&broken, &path, None, false, None).err(),
        Some(StoreError::Manifest(ManifestError::SizeMismatch))
    );
    assert_ne!(
        operation_id(&path, &manifest),
        operation_id(&WirePath::new("b.txt").unwrap(), &manifest)
    );

    let sight =
        MaterializationObservation::of(&facts(EntryKind::File, 7), manifest.file_hash).unwrap();
    let outcome = MaterializeOutcome::written(
        "/root/a.txt".into(),
        &manifest,
        Some("/trash/a.txt".into()),
        sight,
    );
    assert_eq!(outcome.bytes_written, 7);
    assert!(outcome.replaced_existing && !outcome.already_current);
    assert_eq!(outcome.preserved_path, Some("/trash/a.txt".to_string()));
    let outcome = MaterializeOutcome::current("/root/a.txt".into(), sight);
    assert_eq!(outcome.bytes_written, 0);
    assert!(!outcome.replaced_existing && outcome.already_current);
}

#[test]
fn replacement_moves_never_lose_the_old_file() {
    // Every way in which the moves can go well or not.
    for way in 0..16u32 {
        let (mut destination, mut incoming, mut trash) = (Some("old"), Some("new"), None);
        let mut step = ReplaceStep::first(true);
        let mut turn = 0;
        while step != ReplaceStep::Done && step != ReplaceStep::Failed {
            let well = way & (1 << turn) != 0;
            if well {
                match step {
                    ReplaceStep::MoveAside => trash = destination.take(),
                    ReplaceStep::MoveIn => destination = incoming.take(),
                    ReplaceStep::PutBack => destination = trash.take(),
                    ReplaceStep::DropNew => incoming = None,
                    _ => {}
                }
            }
            step = step.next(well, true);
            turn += 1;
        }
        assert!(destination == Some("old") || trash == Some("old"));
        if step == ReplaceStep::Done {
            assert_eq!(destination, Some("new"));
            assert_eq!(trash, Some("old"));
        }
    }
    assert_eq!(ReplaceStep::first(false), ReplaceStep::MoveIn);
    assert_eq!(
        ReplaceStep::MoveIn.next(false, false),
        ReplaceStep::DropNew
    );
}

#[test]
fn deletion_is_planned_without_losing_content() {
    assert_eq!(plan_remove(None), RemoveStep::Nothing);
    assert_eq!(
        plan_remove(Some(EntryKind::Directory)),
        RemoveStep::RemoveEmptyDirectory
    );
    for kind in [EntryKind::File, EntryKind::Symlink, EntryKind::Other] {
        assert_eq!(plan_remove(Some(kind)), RemoveStep::MoveToTrash);
    }
    let gone = RemoveOutcome::of(RemoveStep::MoveToTrash, "/root/a".into(), "/trash/a".into());
    assert!(gone.removed && gone.preserved_in_trash);
    assert_eq!(gone.preserved_path, Some("/trash/a".to_string()));
    let nothing = RemoveOutcome::of(RemoveStep::Nothing, "/root/a".into(), "/trash/a".into());
    assert!(!nothing.removed && !nothing.preserved_in_trash);
    assert_eq!(nothing.preserved_path, None);
    assert_eq!(plan_directory(None), Ok(DirectoryStep::Make));
    assert_eq!(
        plan_directory(Some(EntryKind::Directory)),
        Ok(DirectoryStep::Nothing)
    );
    assert_eq!(
        plan_directory(Some(EntryKind::File)),
        Ok(DirectoryStep::MoveAsideAndMake)
    );
    assert_eq!(
        plan_directory(Some(EntryKind::Symlink)),
        Err(StoreError::NotADirectory)
    );
}

#[test]
fn materialization_rejects_symlinked_parent() {
    assert_eq!(
        check_destination(EntryKind::Directory, &vec![Some(EntryKind::Symlink)]),
        Err(StoreError::BeneathSymlink)
    );
    assert_eq!(
        check_destination(EntryKind::Symlink, &vec![]),
        Err(StoreError::RootNotReal)
    );
    assert_eq!(
        check_destination(EntryKind::Directory, &vec![Some(EntryKind::File)]),
        Err(StoreError::AncestorNotDirectory)
    );
    assert_eq!(
        check_destination(
            EntryKind::Directory,
            &vec![Some(EntryKind::Directory), None]
        ),
        Ok(())
    );
}

#[test]
fn observations_hold_what_was_seen_and_refuse_what_changed() {
    let file = facts(EntryKind::File, 4);
    let content = || Content::File {
        hash: Hash32::digest(b"data"),
        opened: file.identity,
    };
    let seen = PathObservation::at(&file, &file, content()).unwrap();
    assert_eq!(seen.kind, 0);
    assert_eq!(seen.size, 4);
    assert_eq!(seen.hash, Hash32::digest(b"data"));
    let mut later = file;
    later.changed_ns = time_of(9, 9);
    assert_eq!(
        PathObservation::at(&file, &later, content()),
        Err(StoreError::ChangedWhileObserving)
    );
    assert_eq!(
        PathObservation::at(
            &file,
            &file,
            Content::File {
                hash: Hash32::digest(b"data"),
                opened: identity_of(3, 5),
            },
        ),
        Err(StoreError::ChangedWhileObserving)
    );
    assert_eq!(
        PathObservation::at(&facts(EntryKind::Other, 0), &file, content()),
        Err(StoreError::UnsupportedObject)
    );
    let link = facts(EntryKind::Symlink, 3);
    let target = Content::Symlink {
        target: b"abc".to_vec(),
    };
    let link = PathObservation::at(&link, &link, target).unwrap();
    assert_eq!(link.kind, 2);
    assert_eq!(link.hash, Hash32::digest(b"abc"));
    assert_eq!(
        PathObservation::read(EntryKind::Directory, &vec![], None),
        Ok(None)
    );
    assert_eq!(
        PathObservation::read(EntryKind::Symlink, &vec![], None),
        Err(StoreError::RootNotReal)
    );
}

#[test]
fn directories_are_observed_in_the_order_of_their_names() {
    let directory = facts(EntryKind::Directory, 4096);
    let file = facts(EntryKind::File, 4);
    let child = |bytes: &[u8]| {
        PathObservation::at(
            &file,
            &file,
            Content::File {
                hash: Hash32::digest(bytes),
                opened: file.identity,
            },
        )
        .unwrap()
    };
    let entry = |name: &str, bytes: &[u8]| DirectoryEntry {
        name: name.as_bytes().to_vec(),
        child: child(bytes),
    };
    let see = |entries: Vec<DirectoryEntry>| {
        PathObservation::at(&directory, &directory, Content::Directory { entries }).unwrap()
    };
    let forward = see(vec![entry("a", b"1"), entry("b", b"2")]);
    let reverse = see(vec![entry("b", b"2"), entry("a", b"1")]);
    assert_eq!(forward, reverse);
    assert_eq!(forward.size, 0);
    assert_eq!(forward.kind, 1);
    assert_ne!(forward.hash, see(vec![entry("a", b"2"), entry("b", b"1")]).hash);
    let mut bytes = b"a".to_vec();
    bytes.extend(child(b"1").to_bytes());
    bytes.extend(b"b");
    bytes.extend(child(b"2").to_bytes());
    assert_eq!(forward.hash, Hash32::digest(&bytes));
    // A pair, a kind, a size, a time, a flag and a digest.
    let form = child(b"1").to_bytes();
    assert_eq!(&form[..5], &[1, 3, 4, 0, 4]);
    assert_eq!(form.len(), 5 + 1 + 5 + 1 + 32);
}

#[test]
fn records_match_what_was_seen() {
    let file = facts(EntryKind::File, 4);
    let seen = PathObservation::at(
        &file,
        &file,
        Content::File {
            hash: Hash32::digest(b"data"),
            opened: file.identity,
        },
    )
    .unwrap();
    let mut version = VersionVector::default();
    version
        .increment(ReplicaId(Hash32::digest(b"replica")))
        .unwrap();
    let mut record = SyncRecord {
        schema_version: SYNC_RECORD_SCHEMA_V1,
        path: WirePath::new("a").unwrap(),
        kind: SyncEntryKind::File,
        size: 4,
        content_hash: Some(Hash32::digest(b"data")),
        readonly: false,
        version,
        tombstone: false,
    };
    assert!(seen.matches_record(&record));
    record.readonly = true;
    assert!(!seen.matches_record(&record));
    record.readonly = false;
    record.kind = SyncEntryKind::Directory;
    assert!(!seen.matches_record(&record));
    record.kind = SyncEntryKind::File;
    record.tombstone = true;
    assert!(!seen.matches_record(&record));
}

#[test]
fn readonly_updates_keep_the_file() {
    let before =
        MaterializationObservation::of(&facts(EntryKind::File, 4), Hash32::digest(b"data"))
            .unwrap();
    let mut after = before;
    after.readonly = true;
    after.changed_ns = time_of(99, 0);
    assert_eq!(
        before.after_readonly_update(&before, &after, true),
        Ok(after)
    );
    assert_eq!(
        before.after_readonly_update(&before, &after, false),
        Err(StoreError::ReadonlyNotApplied)
    );
    let mut grown = after;
    grown.size = 5;
    assert_eq!(
        before.after_readonly_update(&before, &grown, true),
        Err(StoreError::ChangedByReadonlyUpdate)
    );
    assert_eq!(
        before.after_readonly_update(&after, &after, true),
        Err(StoreError::Preservation(PreservationError::LocalChanged))
    );
    assert_eq!(
        MaterializationObservation::of(&facts(EntryKind::Symlink, 4), Hash32::digest(b"data"))
            .err(),
        Some(StoreError::NotARegularFile)
    );
    assert_eq!(after.size(), 4);
    assert_eq!(after.identity(), Some((3, 4)));
    assert_eq!(after.modified_ns(), Some(5_000_000_006));
    assert_eq!(after.changed_ns(), Some(99_000_000_000));
    assert_eq!(after.file_hash(), Hash32::digest(b"data"));
    assert!(after.readonly());
    assert_eq!(readonly_mode(0o644, true), 0o444);
    assert_eq!(readonly_mode(0o444, false), 0o644);
    assert_eq!(identity_of(1, 0), None);
    assert_eq!(time_of(-1, 0), None);
    assert_eq!(same_volume(&Some((1, 2)), &Some((1, 9))), Ok(true));
    assert_eq!(
        same_volume(&Some((1, 2)), &None),
        Err(StoreError::IdentityUnavailable)
    );
}

/// Puts a file together in a private place, from chunks that are kept as files or as links.
fn materialize_private(
    manifest: &FileManifest,
    mode: u32,
    above: &[Option<EntryKind>],
    found: Option<EntryKind>,
    chunks: &[(Hash32, EntryKind, &[u8])],
) -> Result<Vec<u8>, StoreError> {
    check_private(
        manifest,
        EntryKind::Directory,
        mode,
        &above.to_vec(),
        found,
    )?;
    let mut assembly = Assembly::new(manifest);
    let mut output = Vec::new();
    while let Some(hash) = assembly.wanted() {
        let (_, kind, bytes) = chunks
            .iter()
            .find(|(kept, _, _)| *kept == hash)
            .ok_or(StoreError::NotInstalled)?;
        let bytes = read_private(&hash, *kind, bytes.to_vec())?;
        assembly.take(&bytes)?;
        output.extend(bytes);
    }
    assembly.finish()?;
    Ok(output)
}

#[test]
fn private_verified_materialization_is_cas_only() {
    let bytes = b"private verified bytes";
    let manifest = manifest_of(&[bytes]);
    let chunks = [(Hash32::digest(bytes), EntryKind::File, &bytes[..])];
    assert_eq!(
        materialize_private(&manifest, 0o700, &[None], None, &chunks),
        Ok(bytes.to_vec())
    );
}

#[test]
fn private_verified_materialization_rejects_bad_cas_and_occupied_destinations() {
    let bytes = b"private CAS validation fixture";
    let hash = Hash32::digest(bytes);
    let manifest = manifest_of(&[bytes]);
    let tampered = [(hash, EntryKind::File, &b"tampered"[..])];
    assert_eq!(
        materialize_private(&manifest, 0o700, &[], None, &tampered),
        Err(StoreError::CorruptChunk)
    );
    assert_eq!(
        materialize_private(&manifest, 0o700, &[], None, &[]),
        Err(StoreError::NotInstalled)
    );
    let chunks = [(hash, EntryKind::File, &bytes[..])];
    let mut bad_full_hash = manifest.clone();
    bad_full_hash.file_hash = Hash32::digest(b"different complete file");
    assert_eq!(
        materialize_private(&bad_full_hash, 0o700, &[], None, &chunks),
        Err(StoreError::FileHashMismatch)
    );
    let mut bad_length = manifest.clone();
    bad_length.chunks[0].length += 1;
    bad_length.size += 1;
    assert_eq!(
        materialize_private(&bad_length, 0o700, &[], None, &chunks),
        Err(StoreError::ExtentMismatch)
    );
    assert_eq!(
        materialize_private(&manifest, 0o700, &[], Some(EntryKind::File), &chunks),
        Err(StoreError::Recreated)
    );
}

#[test]
fn private_verified_materialization_rejects_symlink_ancestors_and_broad_root() {
    let bytes = b"safe bytes";
    let manifest = manifest_of(&[bytes]);
    let chunks = [(Hash32::digest(bytes), EntryKind::File, &bytes[..])];
    let link = Some(EntryKind::Symlink);
    assert_eq!(
        materialize_private(&manifest, 0o700, &[link], None, &chunks),
        Err(StoreError::BeneathSymlink)
    );
    assert_eq!(
        materialize_private(&manifest, 0o755, &[], None, &chunks),
        Err(StoreError::NotPrivate)
    );
    assert_eq!(
        materialize_private(&manifest, 0o700, &[], link, &chunks),
        Err(StoreError::Recreated)
    );
}

#[test]
fn private_verified_materialization_rejects_a_symlinked_cas_chunk() {
    let bytes = b"CAS symlink fixture";
    let manifest = manifest_of(&[bytes]);
    let chunks = [(Hash32::digest(bytes), EntryKind::Symlink, &bytes[..])];
    assert_eq!(
        materialize_private(&manifest, 0o700, &[], None, &chunks),
        Err(StoreError::NotARegularFile)
    );
}

#[test]
fn a_path_is_removed_once() {
    for kind in [EntryKind::File, EntryKind::Symlink, EntryKind::Directory] {
        let first = RemoveOutcome::of(
            plan_remove(Some(kind)),
            "/root/a".into(),
            "/trash/a".into(),
        );
        assert!(first.removed);
        assert_eq!(first.preserved_in_trash, kind != EntryKind::Directory);
        assert_eq!(first.preserved_path.is_some(), first.preserved_in_trash);
        let second = RemoveOutcome::of(plan_remove(None), "/root/a".into(), "/trash/b".into());
        assert!(!second.removed && !second.preserved_in_trash);
        assert_eq!(second.preserved_path, None);
    }
}

#[test]
fn missing_chunks_come_in_the_order_of_their_first_use() {
    let manifest = manifest_of(&[b"c", b"a", b"c", b"b", b"a"]);
    let (a, b, c) = (
        Hash32::digest(b"a"),
        Hash32::digest(b"b"),
        Hash32::digest(b"c"),
    );
    assert_eq!(missing_chunks(&manifest, &vec![]), vec![c, a, b]);
    assert_eq!(missing_chunks(&manifest, &vec![a]), vec![c, b]);
}

#[test]
fn sights_are_the_same_while_nothing_changes() {
    let file = facts(EntryKind::File, 4);
    let directory = facts(EntryKind::Directory, 4096);
    let child = |bytes: &[u8]| {
        let content = Content::File {
            hash: Hash32::digest(bytes),
            opened: file.identity,
        };
        PathObservation::at(&file, &file, content).unwrap()
    };
    let entry = |name: &[u8], bytes: &[u8]| DirectoryEntry {
        name: name.to_vec(),
        child: child(bytes),
    };
    let seen = |entries: Vec<DirectoryEntry>| {
        PathObservation::at(&directory, &directory, Content::Directory { entries }).unwrap()
    };
    let first = seen(vec![entry(b"a", b"1"), entry(b"b", b"2")]);
    assert_eq!(first, seen(vec![entry(b"b", b"2"), entry(b"a", b"1")]));
    assert_ne!(first, seen(vec![entry(b"a", b"1"), entry(b"b", b"3")]));
    assert_ne!(first, seen(vec![entry(b"a", b"1")]));
    let mut touched = directory;
    touched.modified_ns = time_of(77, 0);
    let entries = vec![entry(b"a", b"1"), entry(b"b", b"2")];
    assert_ne!(
        first,
        PathObservation::at(&touched, &touched, Content::Directory { entries }).unwrap()
    );
}
