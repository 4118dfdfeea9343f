//! What an owner signs about snapshots, manifests, grants and applies.
use deltaweave::hash::{Hash32, ReplicaId};
use deltaweave::manifest::{
    ChunkDescriptor, ChunkingProfile, FileManifest, ManifestError, MANIFEST_SCHEMA_V1,
};
use deltaweave::merkle::MerkleTree;
use deltaweave::path::WirePath;
use deltaweave::record::{SyncEntryKind, SyncRecord, SYNC_RECORD_SCHEMA_V1};
use deltaweave::share::authority::{
    request_hash, validate_hash_subset, ActivateGrantReply, ApplyPermit, AuthoritativeSnapshot,
    ManifestAttestation, ShareGrant, SnapshotToken,
};
use deltaweave::share::error::{ShareError, ShareFault};
use deltaweave::share::identity::{SecretKey, ShareId};
use deltaweave::version::VersionVector;

fn fixture_record(owner: ReplicaId) -> (SyncRecord, FileManifest) {
    let bytes = b"authority fixture";
    let hash = Hash32::digest(bytes);
    let manifest = FileManifest {
        schema_version: MANIFEST_SCHEMA_V1,
        size: bytes.len() as u64,
        file_hash: hash,
        profile: ChunkingProfile::default(),
        chunks: vec![ChunkDescriptor {
            offset: 0,
            length: bytes.len() as u32,
            hash,
        }],
    };
    let mut version = VersionVector::default();
    version.increment(owner).unwrap();
    let record = SyncRecord {
        schema_version: SYNC_RECORD_SCHEMA_V1,
        path: WirePath::new("authority.txt").unwrap(),
        kind: SyncEntryKind::File,
        size: bytes.len() as u64,
        content_hash: Some(hash),
        readonly: false,
        version,
        tombstone: false,
    };
    (record, manifest)
}

#[test]
fn owner_binding_and_subset_order_are_fail_closed() {
    let owner = SecretKey::generate();
    let other = SecretKey::generate();
    let share = ShareId([1; 32]);
    let token = SnapshotToken::sign(&owner, share, 1, [2; 32], Hash32::digest(b"root"), 0, 100)
        .unwrap();
    assert!(token.verify_for(owner.public(), share, 100).is_ok());
    assert!(token.verify_for(other.public(), share, 100).is_err());
    assert!(
        validate_hash_subset(&[Hash32::from_bytes([2; 32]), Hash32::from_bytes([1; 32])]).is_err()
    );
    assert!(
        validate_hash_subset(&[Hash32::from_bytes([1; 32]), Hash32::from_bytes([1; 32])]).is_err()
    );
}

#[test]
fn manifest_attestation_binds_exact_record_and_manifest() {
    let owner = SecretKey::generate();
    let share = ShareId([3; 32]);
    let (record, manifest) = fixture_record(ReplicaId(Hash32::digest(b"replica")));
    let token = SnapshotToken::sign(
        &owner,
        share,
        1,
        [4; 32],
        MerkleTree::from_records(vec![record.clone()])
            .unwrap()
            .root_hash(),
        1,
        100,
    )
    .unwrap();
    let attestation = ManifestAttestation::sign(&owner, &token, &record, manifest, 100).unwrap();
    attestation.verify_for(owner.public(), share, 100).unwrap();
    attestation.verify_record(&token, &record).unwrap();
}

#[test]
fn manifest_attestation_rejects_record_size_mismatch() {
    let owner = SecretKey::generate();
    let share = ShareId([5; 32]);
    let (record, manifest) = fixture_record(ReplicaId(Hash32::digest(b"size-replica")));
    let token = SnapshotToken::sign(
        &owner,
        share,
        1,
        [6; 32],
        MerkleTree::from_records(vec![record.clone()])
            .unwrap()
            .root_hash(),
        1,
        100,
    )
    .unwrap();
    let mut wrong_size = record;
    wrong_size.size = wrong_size.size.saturating_add(1);
    assert!(ManifestAttestation::sign(&owner, &token, &wrong_size, manifest, 100).is_err());
}

#[test]
fn complete_snapshots_need_every_record_in_order() {
    let owner = SecretKey::generate();
    let share = ShareId([7; 32]);
    let (record, _) = fixture_record(ReplicaId(Hash32::digest(b"replica")));
    let root = MerkleTree::from_records(vec![record.clone()])
        .unwrap()
        .root_hash();
    let token = SnapshotToken::sign(&owner, share, 1, [4; 32], root, 1, 100).unwrap();
    let whole = AuthoritativeSnapshot {
        token,
        records: vec![record.clone()],
    };
    whole.verify_complete(owner.public(), share, 100).unwrap();
    let empty = AuthoritativeSnapshot {
        token,
        records: vec![],
    };
    assert_eq!(
        empty.verify_complete(owner.public(), share, 100),
        Err(ShareFault::Share(ShareError::ManifestMismatch))
    );
    let mut other = record;
    other.readonly = true;
    let changed = AuthoritativeSnapshot {
        token,
        records: vec![other],
    };
    assert_eq!(
        changed.verify_complete(owner.public(), share, 100),
        Err(ShareFault::Share(ShareError::ManifestMismatch))
    );
    assert_eq!(
        whole.verify_complete(owner.public(), share, 200),
        Err(ShareFault::Share(ShareError::GrantExpired))
    );
}

#[test]
fn grants_replies_and_permits_are_bound_to_their_owner_and_time() {
    let owner = SecretKey::generate();
    let other = SecretKey::generate();
    let consumer = SecretKey::generate().public();
    let share = ShareId([8; 32]);
    let chunk = Hash32::digest(b"chunk");
    let request = request_hash(share, [1; 32], Hash32::digest(b"manifest"), &[chunk]).unwrap();
    let grant = ShareGrant::sign(
        &owner,
        share,
        consumer,
        owner.public(),
        1,
        0,
        [1; 32],
        Hash32::digest(b"manifest"),
        request,
        [2; 32],
        100,
    )
    .unwrap();
    grant.verify_for(owner.public(), share, 100).unwrap();
    assert_eq!(
        grant.verify_for(other.public(), share, 100),
        Err(ShareError::OwnerMismatch)
    );
    assert_eq!(
        grant.verify_for(owner.public(), share, grant.expires_at),
        Err(ShareError::GrantExpired)
    );
    let mut forged = grant;
    forged.nonce = [3; 32];
    assert_eq!(
        forged.verify_for(owner.public(), share, 100),
        Err(ShareError::Protocol)
    );
    assert!(grant.activate_request().matches(&grant));
    assert!(!grant.activate_request().matches(&forged));
    assert_eq!(
        ShareGrant::sign(
            &owner,
            share,
            consumer,
            consumer,
            1,
            0,
            [1; 32],
            Hash32::digest(b"manifest"),
            request,
            [2; 32],
            100,
        ),
        Err(ShareError::EndpointMismatch)
    );

    let reply =
        ActivateGrantReply::sign(&owner, share, consumer, [2; 32], [4; 16], true, 10).unwrap();
    reply.verify_for(owner.public(), share).unwrap();
    let mut longer = reply;
    longer.max_duration_secs = 15;
    assert_eq!(
        longer.verify_for(owner.public(), share),
        Err(ShareError::Protocol)
    );

    let permit =
        ApplyPermit::sign(&owner, share, consumer, 1, [1; 32], chunk, 100, [5; 32]).unwrap();
    permit
        .verify_for(owner.public(), share, consumer, 100)
        .unwrap();
    assert_eq!(
        permit.verify_for(owner.public(), share, other.public(), 100),
        Err(ShareError::EndpointMismatch)
    );
}

#[test]
fn requested_chunks_are_named_in_order_and_bounded() {
    let a = Hash32::from_bytes([1; 32]);
    let b = Hash32::from_bytes([2; 32]);
    assert_eq!(validate_hash_subset(&[a, b]), Ok(()));
    assert_eq!(
        validate_hash_subset(&[b, a]),
        Err(ShareError::ManifestMismatch)
    );
    let share = ShareId([1; 32]);
    let one = request_hash(share, [1; 32], a, &[a]).unwrap();
    assert_ne!(one, request_hash(share, [1; 32], a, &[b]).unwrap());
    assert_ne!(one, request_hash(share, [2; 32], a, &[a]).unwrap());
    assert_eq!(one, request_hash(share, [1; 32], a, &[a]).unwrap());
}

#[test]
fn manifests_name_their_faults() {
    let (_, manifest) = fixture_record(ReplicaId(Hash32::digest(b"replica")));
    manifest.validate().unwrap();
    let mut unknown = manifest.clone();
    unknown.schema_version = 7;
    assert_eq!(unknown.validate(), Err(ManifestError::UnsupportedSchema));
    let mut gap = manifest.clone();
    gap.chunks[0].offset = 1;
    assert_eq!(gap.validate(), Err(ManifestError::BrokenExtent));
    let mut short = manifest.clone();
    short.size += 1;
    assert_eq!(short.validate(), Err(ManifestError::SizeMismatch));
    assert_ne!(manifest.manifest_hash(), short.manifest_hash());
    assert_ne!(manifest.manifest_hash(), manifest.file_hash);
}

#[test]
fn failures_cross_the_wire_as_refusals_only() {
    assert_eq!(
        ShareError::classify(&ShareFault::Share(ShareError::Busy)),
        ShareError::Busy
    );
    assert_eq!(
        ShareError::classify(&ShareFault::Manifest(ManifestError::BrokenExtent)),
        ShareError::TransferFailed
    );
    assert_eq!(ShareError::Busy.message(), "share busy; retry");
}

#[test]
fn an_altered_snapshot_or_token_is_refused() {
    let owner = SecretKey::generate();
    let share = ShareId([9; 32]);
    let replica = ReplicaId(Hash32::digest(b"altered-replica"));
    let (first, _) = fixture_record(replica);
    let (mut second, _) = fixture_record(replica);
    second.path = WirePath::new("other.txt").unwrap();
    let records = vec![first.clone(), second.clone()];
    let root = MerkleTree::from_records(vec![first.clone(), second.clone()])
        .unwrap()
        .root_hash();
    let token = SnapshotToken::sign(&owner, share, 1, [4; 32], root, 2, 100).unwrap();
    let accepted = |records: Vec<SyncRecord>| {
        AuthoritativeSnapshot { token, records }
            .verify_complete(owner.public(), share, 100)
            .is_ok()
    };
    assert!(accepted(records));
    let mut readonly = second.clone();
    readonly.readonly = true;
    let mut later = second.clone();
    later.version.increment(replica).unwrap();
    assert!(!accepted(vec![first.clone(), readonly]));
    assert!(!accepted(vec![first.clone(), later]));
    assert!(!accepted(vec![second.clone(), first.clone()]));
    assert!(!accepted(vec![first.clone()]));
    let mut third = second.clone();
    third.path = WirePath::new("third.txt").unwrap();
    assert!(!accepted(vec![first, second, third]));

    assert_eq!(token.expires_at, 190);
    let check = |token: SnapshotToken, now: u64| token.verify_for(owner.public(), share, now);
    assert_eq!(check(token, 95), Ok(()));
    assert_eq!(check(token, 94), Err(ShareError::ClockRollback));
    assert_eq!(check(token, 189), Ok(()));
    assert_eq!(check(token, 190), Err(ShareError::GrantExpired));
    for altered in [
        SnapshotToken { epoch: 2, ..token },
        SnapshotToken { snapshot: [5; 32], ..token },
        SnapshotToken { root_hash: Hash32::digest(b"other"), ..token },
        SnapshotToken { record_count: 3, ..token },
        SnapshotToken { issued_at: 99, expires_at: 189, ..token },
    ] {
        assert_eq!(check(altered, 100), Err(ShareError::Protocol));
    }
    assert_eq!(
        check(SnapshotToken { share: ShareId([8; 32]), ..token }, 100),
        Err(ShareError::OwnerMismatch)
    );
}
