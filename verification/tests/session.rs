//! A member and an owner talking to each other.
use deltaweave::hash::{Hash32, ReplicaId};
use deltaweave::manifest::{ChunkDescriptor, ChunkingProfile, FileManifest, MANIFEST_SCHEMA_V1};
use deltaweave::merkle::copy_records;
use deltaweave::path::WirePath;
use deltaweave::record::{SyncEntryKind, SyncRecord, SYNC_RECORD_SCHEMA_V1};
use deltaweave::share::authority::{ActivateGrantReply, RevocationReceipt, SnapshotToken};
use deltaweave::share::catalog::Membership;
use deltaweave::share::causal::CausalState;
use deltaweave::share::connections::Connections;
use deltaweave::share::error::{ShareError, ShareFault};
use deltaweave::share::handler::{
    confirm_session, run, send_manifest, send_permit, send_snapshot, start_apply, Served, Step,
};
use deltaweave::share::identity::{EndpointAddr, Permission, SecretKey, ShareId};
use deltaweave::share::owner::{
    candidate_metadata, check_loading, create_owned_share, refresh_causal_state, LoadedFiles,
    OwnerShare,
};
use deltaweave::share::registry::{Registry, StoredRegistry};
use deltaweave::share::roster::RosterHeartbeat;
use deltaweave::share::session::{
    check_foreign, check_resume, check_supplier, check_supplier_storage, enrolled, resumed,
    validated, ActivationLease, ShareSession, SupplierStorage,
};
use deltaweave::share::ticket::ShareTicket;
use deltaweave::share::wire::{
    answered, check_hello, check_hello_length, session_opened, Operation, Reply,
};
use deltaweave::version::VersionVector;

const SECOND: u64 = 1_000_000_000;
const NOW: u64 = 1_700_000_000;

#[test]
fn activation_lease_keeps_request_start_deadline_and_reports_reduced_time() {
    let owner = SecretKey::generate();
    let provider = SecretKey::generate();
    let reply = ActivateGrantReply::sign(
        &owner,
        ShareId([0x31; 32]),
        provider.public(),
        [0x32; 32],
        [0x33; 16],
        true,
        10,
    )
    .unwrap();
    let request_started = 1_000 * SECOND;
    let reply_received = request_started + 4 * SECOND;
    let lease = ActivationLease::from_reply_at(reply, request_started, reply_received).unwrap();

    assert_eq!(
        lease.deadline,
        request_started + 10 * SECOND,
        "the response must not start a fresh activation lease"
    );
    assert_eq!(
        lease.remaining(reply_received),
        6 * SECOND,
        "a delayed response must retain only the remaining request lifetime"
    );
    assert!(lease.is_active(reply_received));
    assert!(!lease.is_active(lease.deadline));
    assert_eq!(lease.remaining(lease.deadline + 1), 0);
}

#[test]
fn activation_lease_rejects_a_reply_that_arrived_after_request_deadline() {
    let owner = SecretKey::generate();
    let provider = SecretKey::generate();
    let reply = ActivateGrantReply::sign(
        &owner,
        ShareId([0x41; 32]),
        provider.public(),
        [0x42; 32],
        [0x43; 16],
        true,
        15,
    )
    .unwrap();
    let request_started = 1_000 * SECOND;
    let error =
        ActivationLease::from_reply_at(reply, request_started, request_started + 16 * SECOND)
            .expect_err("a delayed activation reply must not be revived");

    assert_eq!(error, ShareError::GrantExpired);
}

#[test]
fn refused_activations_give_no_lease() {
    let owner = SecretKey::generate();
    let reply = ActivateGrantReply::sign(
        &owner,
        ShareId([1; 32]),
        owner.public(),
        [2; 32],
        [3; 16],
        false,
        10,
    )
    .unwrap();
    assert_eq!(
        ActivationLease::from_reply_at(reply, 0, 0).err(),
        Some(ShareError::GrantReplay)
    );
}

#[test]
fn opening_messages_are_bounded_and_versioned() {
    assert_eq!(check_hello_length(16384), Ok(16384));
    assert_eq!(check_hello_length(16385), Err(ShareError::Protocol));
    assert_eq!(check_hello(3, true), Ok(()));
    assert_eq!(check_hello(2, true), Err(ShareError::UnsupportedVersion));
    assert_eq!(check_hello(3, false), Err(ShareError::Protocol));
    assert_eq!(session_opened(&Reply::Accepted), Ok(()));
    assert_eq!(
        session_opened(&Reply::Error(ShareError::Busy)),
        Err(ShareError::Busy)
    );
    assert_eq!(
        session_opened(&Reply::GrantDrained),
        Err(ShareError::Protocol)
    );
    assert!(answered(Reply::ApplyAccepted).is_ok());
    assert_eq!(
        answered(Reply::Error(ShareError::NotMember)).err(),
        Some(ShareError::NotMember)
    );
}

struct World {
    owner: SecretKey,
    member: SecretKey,
    share: OwnerShare,
    owner_registry: Registry,
    member_registry: Registry,
    ticket: ShareTicket,
}

impl World {
    fn new(permission: Permission) -> World {
        let owner = SecretKey::generate();
        let member = SecretKey::generate();
        let mut owner_registry =
            Registry::open(StoredRegistry::new(owner.public()), owner.public(), NOW).unwrap();
        let member_registry =
            Registry::open(StoredRegistry::new(member.public()), member.public(), NOW).unwrap();
        let config = create_owned_share(
            &mut owner_registry,
            owner.public(),
            "Authority".into(),
            "/root".into(),
            "/state".into(),
            None,
            None,
            0,
        )
        .unwrap();
        let share = OwnerShare {
            config,
            key: owner.clone(),
            enabled: true,
        };
        let ticket = share
            .issue_key(
                &mut owner_registry,
                permission,
                None,
                EndpointAddr::new(owner.public()),
                NOW,
            )
            .ok()
            .unwrap();
        World {
            owner,
            member,
            share,
            owner_registry,
            member_registry,
            ticket,
        }
    }

    fn served(&self) -> Served {
        Served {
            share: self.share.config.share_id,
            enabled: self.share.enabled,
        }
    }

    fn ask(&mut self, peer: &SecretKey, operation: Operation) -> Step {
        let served = Some(self.served());
        run(
            &mut self.owner_registry,
            &self.owner,
            served,
            self.share.config.share_id,
            peer.public(),
            operation,
            0,
            0,
            NOW,
        )
    }

    fn answer(&mut self, operation: Operation) -> Reply {
        let member = self.member.clone();
        match self.ask(&member, operation) {
            Step::Answer(reply) => reply,
            _ => panic!("the answer should be there"),
        }
    }

    fn enrol(&mut self) -> Membership {
        let reply = self.answer(Operation::Enroll {
            ticket: self.ticket.clone(),
            proof_of_identity: None,
        });
        enrolled(
            &mut self.member_registry,
            &self.ticket,
            self.member.public(),
            &reply,
        )
        .unwrap()
    }

    fn session(&self) -> ShareSession {
        ShareSession::open(
            &self.member_registry,
            self.member.public(),
            self.owner.public(),
            self.share.config.share_id,
        )
        .unwrap()
        .0
    }
}

fn restart(registry: Registry, own: &SecretKey) -> Registry {
    Registry::open(registry.close(), own.public(), NOW).unwrap()
}

#[test]
fn key_revocation_and_member_tombstones_survive_actual_restart() {
    let mut world = World::new(Permission::ReadOnly);
    let grant = world.enrol();
    let old = world.ticket.clone();
    world
        .share
        .revoke_key(&mut world.owner_registry, old.preview().invitation_id, NOW)
        .unwrap();
    assert!(matches!(world.answer(Operation::Session), Reply::Accepted));

    world.owner_registry = restart(world.owner_registry, &world.owner);
    world.member_registry = restart(world.member_registry, &world.member);
    assert_eq!(
        world.member_registry.catalog.relationships()[0].membership,
        grant
    );
    assert!(matches!(
        world.answer(Operation::Validate(old)),
        Reply::Error(_)
    ));
    assert!(matches!(world.answer(Operation::Session), Reply::Accepted));
    world
        .share
        .revoke_member(&mut world.owner_registry, grant.endpoint, NOW)
        .unwrap();
    let active = world
        .share
        .issue_key(
            &mut world.owner_registry,
            Permission::ReadWrite,
            None,
            EndpointAddr::new(world.owner.public()),
            NOW,
        )
        .ok()
        .unwrap();
    let request = |ticket: &ShareTicket| Operation::Enroll {
        ticket: ticket.clone(),
        proof_of_identity: None,
    };
    assert!(matches!(world.answer(request(&active)), Reply::Error(_)));
    let fresh = SecretKey::generate();
    assert!(matches!(
        world.ask(&fresh, request(&active)),
        Step::Answer(Reply::Enrolled(_))
    ));

    world.owner_registry = restart(world.owner_registry, &world.owner);
    assert!(matches!(
        world.answer(Operation::Session),
        Reply::Error(ShareError::MemberRevoked)
    ));
}

fn fixture() -> (SyncRecord, FileManifest) {
    let bytes = b"authority payload";
    let hash = Hash32::digest(bytes);
    let manifest = FileManifest {
        schema_version: MANIFEST_SCHEMA_V1,
        size: bytes.len() as u64,
        file_hash: hash,
        profile: ChunkingProfile::default(),
        chunks: vec![ChunkDescriptor {
            offset: 0,
            length: bytes.len() as u32,
            hash,
        }],
    };
    let mut version = VersionVector::default();
    version
        .increment(ReplicaId(Hash32::digest(b"replica")))
        .unwrap();
    let record = SyncRecord {
        schema_version: SYNC_RECORD_SCHEMA_V1,
        path: WirePath::new("authority.txt").unwrap(),
        kind: SyncEntryKind::File,
        size: bytes.len() as u64,
        content_hash: Some(hash),
        readonly: false,
        version,
        tombstone: false,
    };
    (record, manifest)
}

#[test]
fn keys_are_validated_and_memberships_resumed() {
    let mut world = World::new(Permission::ReadOnly);
    check_foreign(&world.ticket, world.member.public()).unwrap();
    assert_eq!(
        check_foreign(&world.ticket, world.owner.public()),
        Err(ShareError::OwnerMismatch)
    );
    let key = world.ticket.clone();
    let reply = world.answer(Operation::Validate(key));
    let preview = validated(&world.ticket, reply).unwrap();
    assert_eq!(preview.permission, Permission::ReadOnly);
    assert!(matches!(
        world.answer(Operation::Session),
        Reply::Error(ShareError::NotMember)
    ));
    let membership = world.enrol();
    assert!(matches!(world.answer(Operation::Session), Reply::Accepted));
    assert_eq!(
        confirm_session(
            &world.owner_registry,
            &world.served(),
            world.share.config.share_id,
            world.member.public(),
        ),
        Ok(membership)
    );
    let address = EndpointAddr::new(world.owner.public());
    check_resume(world.member.public(), world.owner.public(), &address).unwrap();
    assert_eq!(
        check_resume(world.owner.public(), world.owner.public(), &address),
        Err(ShareError::OwnerMismatch)
    );
    let reply = world.answer(Operation::Resume);
    assert_eq!(
        resumed(
            &mut world.member_registry,
            world.owner.public(),
            world.share.config.share_id,
            world.member.public(),
            address.clone(),
            &reply,
        ),
        Ok(membership)
    );
    assert_eq!(
        check_supplier(
            &world.member_registry,
            world.member.public(),
            world.owner.public(),
            world.share.config.share_id,
            &membership,
        ),
        Ok(membership)
    );
    let mut revoked = membership;
    revoked.revoked_at = Some(NOW);
    revoked.epoch += 1;
    assert_eq!(
        resumed(
            &mut world.member_registry,
            world.owner.public(),
            world.share.config.share_id,
            world.member.public(),
            address,
            &Reply::Resumed(revoked),
        ),
        Err(ShareError::MemberRevoked)
    );
    assert_eq!(
        check_supplier(
            &world.member_registry,
            world.member.public(),
            world.owner.public(),
            world.share.config.share_id,
            &membership,
        ),
        Err(ShareError::ReplicaClaimRejected)
    );
}

#[test]
fn heartbeats_update_the_roster_and_are_taken_once() {
    let mut world = World::new(Permission::ReadWrite);
    world.enrol();
    let mut session = world.session();
    let reply = world.answer(Operation::Roster);
    let roster = session.refresh_roster(reply, NOW).unwrap();
    assert!(!roster.member_is_fresh(world.member.public(), NOW));
    let challenge = session.roster_challenge.unwrap();
    let beat = || {
        RosterHeartbeat::sign(
            &world.member,
            world.owner.public(),
            world.share.config.share_id,
            EndpointAddr::new(world.member.public()),
            challenge,
            NOW,
        )
    };
    let first = beat();
    let again = beat();
    let reply = world.answer(Operation::Heartbeat(first));
    match &reply {
        Reply::Heartbeat(roster) => assert!(roster.member_is_fresh(world.member.public(), NOW)),
        _ => panic!("the heartbeat should be taken"),
    }
    session.heartbeat(challenge, reply, NOW).unwrap();
    assert!(session.roster_challenge.is_none());
    assert!(matches!(
        world.answer(Operation::Heartbeat(again)),
        Reply::Error(ShareError::HeartbeatReplay)
    ));
    assert_eq!(
        session.refresh_roster(Reply::Accepted, NOW).err(),
        Some(ShareError::Protocol)
    );
}

#[test]
fn a_round_trip_binds_snapshot_manifest_grant_and_apply() {
    let mut world = World::new(Permission::ReadWrite);
    let membership = world.enrol();
    let share = world.share.config.share_id;
    let session = world.session();
    let (record, manifest) = fixture();
    let records = vec![record.clone()];

    let member = world.member.clone();
    let epoch = match world.ask(&member, Operation::Snapshot) {
        Step::TakeSnapshot { epoch } => epoch,
        _ => panic!("the share should be scanned"),
    };
    let reply = send_snapshot(
        &mut world.owner_registry,
        &world.owner,
        share,
        epoch,
        copy_records(&records),
        NOW,
    )
    .unwrap();
    let snapshot = session.fetch_authoritative_snapshot(reply, NOW).unwrap();
    assert_eq!(snapshot.token.epoch, membership.epoch);
    assert_eq!(snapshot.records, records);

    let request = session.manifest_request(&snapshot.token, &record).unwrap();
    let (token, wanted) = match world.ask(&member, request) {
        Step::AttestManifest { snapshot, record } => (snapshot, record),
        _ => panic!("the file should be read"),
    };
    let reply = send_manifest(&world.owner, share, &token, &wanted, manifest, NOW).unwrap();
    let attestation = session
        .request_manifest(&snapshot.token, &record, reply, NOW)
        .unwrap();

    let hashes = vec![Hash32::digest(b"authority payload")];
    session
        .swarm_grant_request(&snapshot.token, &attestation, &hashes)
        .unwrap();
    let reply = world.answer(Operation::SwarmGrant {
        provider: world.owner.public(),
        snapshot: snapshot.token,
        manifest: attestation.clone(),
        hashes: hashes.clone(),
    });
    let grant = session
        .request_swarm_grant(
            world.owner.public(),
            &snapshot.token,
            &attestation,
            &hashes,
            &reply,
            NOW,
        )
        .unwrap();
    assert_eq!(grant.provider, world.owner.public());
    assert_eq!(grant.consumer, world.member.public());
    assert_eq!(grant.provider_epoch, 0);
    assert_eq!(
        session
            .request_swarm_grant(
                world.owner.public(),
                &snapshot.token,
                &attestation,
                &[Hash32::digest(b"another")],
                &reply,
                NOW,
            )
            .err(),
        Some(ShareError::ManifestMismatch)
    );

    // The owner is the provider here: it activates, both sides drain.
    let owner = world.owner.clone();
    let activation_id = match world.ask(&owner, Operation::Activate(grant.activate_request())) {
        Step::Answer(Reply::Activate(reply)) => reply.activation_id,
        _ => panic!("the grant should be activated"),
    };
    assert!(matches!(
        world.ask(&owner, Operation::Activate(grant.activate_request())),
        Step::Answer(Reply::Error(ShareError::GrantReplay))
    ));
    let drained = session.grant_drained(&grant, activation_id).unwrap();
    assert!(matches!(world.answer(drained), Reply::GrantDrained));

    let request = session.revalidation_request(&snapshot.token).unwrap();
    assert!(matches!(
        world.ask(&member, request),
        Step::PermitApply { .. }
    ));
    let reply = send_permit(
        &mut world.owner_registry,
        &world.owner,
        world.member.public(),
        &snapshot.token,
        copy_records(&records),
        NOW,
    )
    .unwrap();
    let permit = session
        .revalidate_before_apply(&snapshot.token, &reply, NOW)
        .unwrap();
    let operation_id = [0x71; 16];
    let start = match session.apply_start(&permit, operation_id).unwrap() {
        Operation::ApplyStart(start) => start,
        _ => panic!("a start is asked for"),
    };
    assert!(matches!(
        world.ask(&member, Operation::ApplyStart(start)),
        Step::StartApply(_)
    ));
    assert!(matches!(
        start_apply(
            &mut world.owner_registry,
            &world.owner,
            share,
            world.member.public(),
            &start,
            copy_records(&records),
            NOW,
        ),
        Ok(Reply::ApplyAccepted)
    ));
    assert_eq!(
        start_apply(
            &mut world.owner_registry,
            &world.owner,
            share,
            world.member.public(),
            &start,
            vec![],
            NOW,
        )
        .err(),
        Some(ShareFault::Share(ShareError::ManifestMismatch))
    );
    world
        .owner_registry
        .revoke_member_durable(share, world.member.public(), NOW)
        .unwrap();
    assert!(matches!(
        world
            .owner_registry
            .revocation_receipt(share, world.member.public(), NOW)
            .unwrap(),
        RevocationReceipt::Pending { blockers: 2, .. }
    ));
    // A paused share still takes acknowledgements, and nothing else.
    world.share.pause();
    let drained = session.apply_drained(&permit, operation_id, true).unwrap();
    assert!(matches!(world.answer(drained), Reply::ApplyAccepted));
    assert!(matches!(
        world.answer(Operation::Snapshot),
        Reply::Error(ShareError::Busy)
    ));
    assert!(matches!(
        world.ask(
            &owner,
            Operation::GrantDrained {
                nonce: grant.nonce,
                activation_id,
            },
        ),
        Step::Answer(Reply::GrantDrained)
    ));
    assert!(matches!(
        world
            .owner_registry
            .revocation_receipt(share, world.member.public(), NOW)
            .unwrap(),
        RevocationReceipt::Complete { .. }
    ));
    world.share.resume();
    assert!(matches!(
        world.answer(Operation::Session),
        Reply::Error(ShareError::MemberRevoked)
    ));
}

#[test]
fn a_member_provider_needs_a_fresh_heartbeat() {
    let mut world = World::new(Permission::ReadWrite);
    world.enrol();
    let session = world.session();
    let consumer = SecretKey::generate();
    let key = world.ticket.clone();
    let share = world.share.config.share_id;
    world
        .owner_registry
        .enroll(&key, consumer.public(), None, NOW)
        .unwrap();
    let (record, manifest) = fixture();
    let reply = send_snapshot(
        &mut world.owner_registry,
        &world.owner,
        share,
        1,
        vec![record.clone()],
        NOW,
    )
    .unwrap();
    let snapshot = session.fetch_authoritative_snapshot(reply, NOW).unwrap();
    let reply = send_manifest(&world.owner, share, &snapshot.token, &record, manifest, NOW).unwrap();
    let attestation = session
        .request_manifest(&snapshot.token, &record, reply, NOW)
        .unwrap();
    let hashes = vec![Hash32::digest(b"authority payload")];
    let provider = world.member.public();
    let ask = |world: &mut World| {
        world.ask(
            &consumer,
            Operation::SwarmGrant {
                provider,
                snapshot: snapshot.token,
                manifest: attestation.clone(),
                hashes: hashes.clone(),
            },
        )
    };
    assert!(matches!(
        ask(&mut world),
        Step::Answer(Reply::Error(ShareError::RosterStale))
    ));
    let mut roster_session = world.session();
    let reply = world.answer(Operation::Roster);
    roster_session.refresh_roster(reply, NOW).unwrap();
    let beat = RosterHeartbeat::sign(
        &world.member,
        world.owner.public(),
        share,
        EndpointAddr::new(provider),
        roster_session.roster_challenge.unwrap(),
        NOW,
    );
    assert!(matches!(
        world.answer(Operation::Heartbeat(beat)),
        Reply::Heartbeat(_)
    ));
    let grant = match ask(&mut world) {
        Step::Answer(Reply::Grant(grant)) => grant,
        _ => panic!("the grant should be issued"),
    };
    assert_eq!(grant.provider_epoch, 1);
    let request = session.activation_request(&grant).unwrap();
    let reply = world.answer(Operation::Activate(request));
    let lease = session
        .activate_grant(&grant, &reply, 5 * SECOND, 6 * SECOND)
        .unwrap();
    assert_eq!(lease.deadline, 20 * SECOND);
    assert_eq!(
        session
            .activate_grant(&grant, &reply, 5 * SECOND, 21 * SECOND)
            .err(),
        Some(ShareError::GrantExpired)
    );
}

#[test]
fn unknown_and_paused_shares_are_refused() {
    let mut world = World::new(Permission::ReadWrite);
    let share = world.share.config.share_id;
    let member = world.member.public();
    assert!(matches!(
        run(
            &mut world.owner_registry,
            &world.owner,
            None,
            share,
            member,
            Operation::Session,
            0,
            0,
            NOW,
        ),
        Step::Answer(Reply::Error(ShareError::UnknownShare))
    ));
    world.share.pause();
    assert!(matches!(
        world.answer(Operation::Session),
        Reply::Error(ShareError::Busy)
    ));
    assert_eq!(
        confirm_session(&world.owner_registry, &world.served(), share, member),
        Err(ShareError::Busy)
    );
    assert_eq!(
        world
            .share
            .issue_key(
                &mut world.owner_registry,
                Permission::ReadOnly,
                None,
                EndpointAddr::new(world.owner.public()),
                NOW,
            )
            .err(),
        Some(ShareError::Busy)
    );
}

#[test]
fn rotated_keys_replace_the_old_one() {
    let mut world = World::new(Permission::ReadOnly);
    let id = world.ticket.preview().invitation_id;
    let fresh = world
        .share
        .rotate_key(
            &mut world.owner_registry,
            id,
            None,
            EndpointAddr::new(world.owner.public()),
            NOW,
        )
        .ok()
        .unwrap();
    assert_eq!(fresh.preview().permission, Permission::ReadOnly);
    assert_eq!(
        world.owner_registry.catalog.validate(&world.ticket, NOW),
        Err(ShareError::InvitationRevoked)
    );
    assert_eq!(world.owner_registry.catalog.validate(&fresh, NOW), Ok(()));
    assert_eq!(world.share.keys(&world.owner_registry).unwrap().len(), 2);
    assert_eq!(
        world.share.revoke_key(
            &mut world.owner_registry,
            deltaweave::share::identity::InvitationId([0; 32]),
            NOW,
        ),
        Err(ShareError::InvalidTicket)
    );
}

#[test]
fn shares_keep_the_replica_that_a_folder_was_indexed_under() {
    let owner = SecretKey::generate();
    let mut registry =
        Registry::open(StoredRegistry::new(owner.public()), owner.public(), NOW).unwrap();
    let retained = ReplicaId(Hash32::digest(b"retained"));
    let other = ReplicaId(Hash32::digest(b"other"));
    let create = |registry: &mut Registry, requested, retained| {
        create_owned_share(
            registry,
            owner.public(),
            "Files".into(),
            "/root".into(),
            "/state".into(),
            requested,
            retained,
            0,
        )
    };
    assert_eq!(
        create(&mut registry, Some(other), Some(retained)).err(),
        Some(ShareError::ReplicaClaimRejected)
    );
    assert_eq!(
        create(&mut registry, None, Some(retained)).unwrap().replica,
        retained
    );
    assert_eq!(
        create(&mut registry, Some(other), None).unwrap().replica,
        other
    );
    assert_eq!(
        create_owned_share(
            &mut registry,
            owner.public(),
            "bad\nname".into(),
            "/root".into(),
            "/state".into(),
            None,
            None,
            0,
        )
        .err(),
        Some(ShareError::InvalidTicket)
    );
}

#[test]
fn members_bring_only_their_own_counters() {
    let mut world = World::new(Permission::ReadWrite);
    let membership = world.enrol();
    let config = world.share.config.clone();
    let mut state = CausalState::new(config.share_id, config.replica);
    refresh_causal_state(&mut world.owner_registry, &config, &mut state, &vec![]).unwrap();
    let (mut record, _) = fixture();
    record.version = VersionVector::default();
    record.version.observe(membership.replica, 4);
    let next = candidate_metadata(
        &mut world.owner_registry,
        &config,
        &mut state,
        true,
        world.member.public(),
        membership.epoch,
        &vec![],
        &record,
        NOW,
    )
    .unwrap();
    let audit = world.share.provenance(&next).unwrap();
    assert_eq!(audit.len(), 1);
    assert_eq!(audit[0].peer, world.member.public());
    assert_eq!(audit[0].operation, "adopt");
    assert_eq!(audit[0].record_hash, record.logical_hash());

    let mut forged = record.clone();
    forged.version.observe(config.replica, 1);
    assert_eq!(
        candidate_metadata(
            &mut world.owner_registry,
            &config,
            &mut state,
            true,
            world.member.public(),
            membership.epoch,
            &vec![],
            &forged,
            NOW,
        )
        .err(),
        Some(ShareError::InvalidRecord)
    );
    assert_eq!(
        candidate_metadata(
            &mut world.owner_registry,
            &config,
            &mut state,
            true,
            world.member.public(),
            membership.epoch + 1,
            &vec![],
            &record,
            NOW,
        )
        .err(),
        Some(ShareError::MemberRevoked)
    );
    world
        .share
        .revoke_member(&mut world.owner_registry, world.member.public(), NOW)
        .unwrap();
    assert!(world.share.members(&world.owner_registry).unwrap()[0]
        .revoked_at
        .is_some());
    assert_eq!(
        candidate_metadata(
            &mut world.owner_registry,
            &config,
            &mut state,
            true,
            world.member.public(),
            membership.epoch,
            &vec![],
            &record,
            NOW,
        )
        .err(),
        Some(ShareError::MemberRevoked)
    );
}

#[test]
fn revocation_waits_for_the_connections_of_the_member_alone() {
    let member = SecretKey::generate().public();
    let other = SecretKey::generate().public();
    let mut connections = Connections::new();
    assert!(connections.is_drained(None));
    let first = connections.track(member);
    let second = connections.track(other);
    let third = connections.track(member);
    assert_eq!(connections.of(Some(member)), vec![first, third]);
    assert_eq!(connections.of(None), vec![first, second, third]);
    connections.ended(third);
    assert!(!connections.is_drained(Some(member)));
    connections.ended(first);
    connections.ended(first);
    assert!(connections.is_drained(Some(member)));
    assert!(!connections.is_drained(Some(other)));
    assert!(!connections.is_drained(None));
    assert_eq!(connections.of(None), vec![second]);
}

#[test]
fn a_share_that_was_loaded_is_never_set_up_anew() {
    let files = |databases, in_place, causal_state| LoadedFiles {
        databases,
        in_place,
        causal_state,
    };
    assert_eq!(check_loading(false, files(false, true, false)), Ok(()));
    assert_eq!(check_loading(true, files(true, true, true)), Ok(()));
    for missing in [
        files(false, true, true),
        files(true, false, true),
        files(true, true, false),
    ] {
        assert_eq!(
            check_loading(true, missing),
            Err(ShareError::StateUnavailable)
        );
    }
    assert_eq!(
        check_loading(false, files(false, false, false)),
        Err(ShareError::StateUnavailable)
    );
}

#[test]
fn content_is_served_only_from_the_storage_of_the_share() {
    let owner = SecretKey::generate().public();
    let other = SecretKey::generate().public();
    let share = ShareId([4; 32]);
    let fine = SupplierStorage {
        leased: true,
        leased_for: Some((share, owner)),
        index_on_root: true,
        store_private: true,
    };
    assert_eq!(check_supplier_storage(owner, share, &fine), Ok(()));
    for (storage, error) in [
        (
            SupplierStorage {
                leased: false,
                ..fine
            },
            ShareError::StateUnavailable,
        ),
        (
            SupplierStorage {
                leased_for: None,
                ..fine
            },
            ShareError::OwnerMismatch,
        ),
        (
            SupplierStorage {
                leased_for: Some((share, other)),
                ..fine
            },
            ShareError::OwnerMismatch,
        ),
        (
            SupplierStorage {
                index_on_root: false,
                ..fine
            },
            ShareError::StateUnavailable,
        ),
        (
            SupplierStorage {
                store_private: false,
                ..fine
            },
            ShareError::StateUnavailable,
        ),
    ] {
        assert_eq!(check_supplier_storage(owner, share, &storage), Err(error));
    }
}

#[test]
fn the_shape_of_an_attestation_comes_before_whose_it_is() {
    let owner = SecretKey::generate();
    let share = ShareId([3; 32]);
    let token = SnapshotToken::sign(&owner, share, 1, [4; 32], Hash32::digest(b"root"), 1, NOW)
        .unwrap();
    let foreign = SnapshotToken {
        share: ShareId([5; 32]),
        ..token
    };
    let send = |token: &SnapshotToken| {
        let (record, manifest) = fixture();
        send_manifest(&owner, share, token, &record, manifest, NOW).err()
    };
    assert_eq!(send(&token), None);
    assert_eq!(
        send(&foreign),
        Some(ShareFault::Share(ShareError::OwnerMismatch))
    );
    assert_eq!(
        send(&SnapshotToken { epoch: 0, ..foreign }),
        Some(ShareFault::Share(ShareError::EpochMismatch))
    );
}
