//! What an owner keeps: shares, keys, members, grants and applies.
use std::time::{SystemTime, UNIX_EPOCH};

use deltaweave::hash::{Hash32, ReplicaId};
use deltaweave::merkle::MerkleTree;
use deltaweave::reconcile::conflict_resolver_replica;
use deltaweave::share::authority::{
    ActivationBinding, ActivationCancel, ActivationStateView, ActivationStatusQuery, ApplyCancel,
    ApplyDrained, ApplyPermit, ApplyStart, ApplyStateView, ApplyStatusQuery,
    AuthoritativeSnapshot, ClientIntentPhase, ClientSide, RevocationReceipt, ShareGrant,
    SnapshotToken,
};
use deltaweave::share::catalog::{MemberRelationship, Membership, OwnedShareConfig};
use deltaweave::share::catalog_size::MAX_CATALOG_BYTES;
use deltaweave::share::error::{ShareError, ShareFault};
use deltaweave::share::identity::{EndpointAddr, EndpointId, Permission, SecretKey, ShareId};
use deltaweave::share::intents::CLIENT_INTENT_RETENTION_SECONDS;
use deltaweave::share::registry::{Registry, StoredRegistry, AUTHORITY_RETENTION_SECONDS};
use deltaweave::share::rows::{
    ApplyRow, ApplyState, ClockAnchor, GrantDrainState, GrantRow, GrantState,
};
use deltaweave::share::ticket::{LegacyProof, ShareTicket};

fn now() -> u64 {
    SystemTime::now()
        .duration_since(UNIX_EPOCH)
        .expect("the clock is past the epoch")
        .as_secs()
}

fn config(owner: EndpointId, share: ShareId, name: &str, replica: ReplicaId) -> OwnedShareConfig {
    OwnedShareConfig {
        share_id: share,
        owner,
        name: name.into(),
        root: "/root".into(),
        state_root: "/state".into(),
        replica,
        min_free_space_bytes: 0,
    }
}

fn open(owner: EndpointId) -> Registry {
    Registry::open(StoredRegistry::new(owner), owner, now()).unwrap()
}

fn reopen(registry: Registry, owner: EndpointId) -> Registry {
    Registry::open(registry.close(), owner, now()).unwrap()
}

fn ticket(owner: &SecretKey, share: ShareId, name: &str, permission: Permission) -> ShareTicket {
    ShareTicket::issue(
        owner,
        share,
        name.into(),
        permission,
        None,
        EndpointAddr::new(owner.public()),
        now(),
    )
    .ok()
    .unwrap()
}

#[test]
fn issuance_membership_and_tombstones_are_distinct_durable_authorities() {
    let owner = SecretKey::generate();
    let share = ShareId([1; 32]);
    let mut registry = open(owner.public());
    registry
        .catalog
        .insert_share(
            config(
                owner.public(),
                share,
                "Files",
                ReplicaId(Hash32::digest(b"owner")),
            ),
            vec![],
        )
        .unwrap();
    let key = ticket(&owner, share, "Files", Permission::ReadOnly);
    assert!(registry.catalog.validate(&key, now()).is_err());
    registry.issue(&key, now()).unwrap();
    registry.catalog.shares[0].invitations[0].permission = Permission::ReadWrite;
    assert!(
        registry.catalog.validate(&key, now()).is_err(),
        "signed ticket role did not exactly match durable issuance"
    );
    registry.catalog.shares[0].invitations[0].permission = Permission::ReadOnly;
    let peer = SecretKey::generate().public();
    let first = registry.enroll(&key, peer, None, now()).unwrap();
    assert_eq!(first.permission, Permission::ReadOnly);
    assert_ne!(first.replica, ReplicaId(Hash32::digest(&peer.bytes)));
    assert_eq!(registry.enroll(&key, peer, None, now()).unwrap(), first);
    registry
        .catalog
        .revoke_key(share, key.preview().invitation_id, now())
        .unwrap();
    assert!(registry.catalog.validate(&key, now()).is_err());
    assert!(
        registry.issue(&key, now()).is_err(),
        "replaying a revoked issuance must never resurrect its invitation"
    );
    assert!(registry.authorize(share, peer, false).is_ok());
    assert!(registry.authorize(share, peer, true).is_err());
    assert_eq!(
        registry.authorize(share, peer, true),
        Err(ShareError::PermissionDenied)
    );
    registry.catalog.revoke_member(share, peer, now()).unwrap();
    let mut registry = reopen(registry, owner.public());
    assert!(registry.authorize(share, peer, false).is_err());
    let active = ticket(&owner, share, "Files", Permission::ReadWrite);
    registry.issue(&active, now()).unwrap();
    assert!(registry.enroll(&active, peer, None, now()).is_err());
    assert!(registry
        .enroll(&active, SecretKey::generate().public(), None, now())
        .is_ok());
}

#[test]
fn competing_legacy_claims_have_one_durable_binding_and_owner_is_reserved() {
    let owner = SecretKey::generate();
    let old = SecretKey::generate();
    let share = ShareId([1; 32]);
    let mut registry = open(owner.public());
    let owner_replica = ReplicaId(Hash32::digest(&owner.public().bytes));
    registry
        .catalog
        .insert_share(
            config(owner.public(), share, "Files", owner_replica),
            vec![],
        )
        .unwrap();
    let key = ticket(&owner, share, "Files", Permission::ReadWrite);
    registry.issue(&key, now()).unwrap();
    let replica = ReplicaId(Hash32::digest(&old.public().bytes));
    let mut results = Vec::new();
    for _ in 0..2 {
        let peer = SecretKey::generate().public();
        let proof = LegacyProof::create(&key, &old, peer, replica).unwrap();
        results.push(registry.enroll(&key, peer, Some(&proof), now()));
    }
    assert_eq!(results.iter().filter(|result| result.is_ok()).count(), 1);
    let peer = SecretKey::generate().public();
    let owner_claim = LegacyProof::create(&key, &owner, peer, owner_replica).unwrap();
    assert_eq!(
        registry.enroll(&key, peer, Some(&owner_claim), now()),
        Err(ShareError::ReplicaClaimRejected)
    );
    let winner = results.into_iter().find_map(Result::ok).unwrap();
    let mut registry = reopen(registry, owner.public());
    assert_eq!(
        registry.authorize(share, winner.endpoint, true).unwrap(),
        winner
    );
    let retry_proof = LegacyProof::create(&key, &old, winner.endpoint, replica).unwrap();
    assert_eq!(
        registry
            .enroll(&key, winner.endpoint, Some(&retry_proof), now())
            .unwrap(),
        winner
    );
}

#[test]
fn resume_relationship_requires_exact_binding_and_only_monotonic_revoke() {
    let owner = SecretKey::generate();
    let peer = SecretKey::generate().public();
    let share = ShareId([9; 32]);
    let mut owner_registry = open(owner.public());
    owner_registry
        .catalog
        .insert_share(
            config(
                owner.public(),
                share,
                "Files",
                ReplicaId(Hash32::digest(b"owner")),
            ),
            vec![],
        )
        .unwrap();
    let key = ticket(&owner, share, "Files", Permission::ReadWrite);
    owner_registry.issue(&key, now()).unwrap();
    let membership = owner_registry.enroll(&key, peer, None, now()).unwrap();
    let address = EndpointAddr::new(owner.public());
    let mut registry = open(peer);
    registry
        .catalog
        .store_relationship(MemberRelationship {
            membership,
            address: address.clone(),
        })
        .unwrap();

    for mutate in [
        |candidate: &mut Membership| candidate.permission = Permission::ReadOnly,
        |candidate: &mut Membership| candidate.enrolled_at += 1,
        |candidate: &mut Membership| candidate.epoch += 1,
    ] as [fn(&mut Membership); 3]
    {
        let mut changed = membership;
        mutate(&mut changed);
        assert_eq!(
            registry
                .catalog
                .store_relationship(MemberRelationship {
                    membership: changed,
                    address: address.clone(),
                })
                .unwrap_err(),
            ShareError::ReplicaClaimRejected
        );
    }

    let mut revoked = membership;
    revoked.revoked_at = Some(now());
    revoked.epoch += 1;
    registry
        .catalog
        .store_relationship(MemberRelationship {
            membership: revoked,
            address: address.clone(),
        })
        .unwrap();
    let mut revived = revoked;
    revived.revoked_at = None;
    assert_eq!(
        registry
            .catalog
            .store_relationship(MemberRelationship {
                membership: revived,
                address,
            })
            .unwrap_err(),
        ShareError::ReplicaClaimRejected
    );
}

fn authority_fixture() -> (SecretKey, ShareId, EndpointId, Registry) {
    let owner = SecretKey::generate();
    let peer = SecretKey::generate().public();
    let share = ShareId([0x44; 32]);
    let mut registry = open(owner.public());
    registry
        .catalog
        .insert_share(
            config(
                owner.public(),
                share,
                "Authority",
                ReplicaId(Hash32::digest(b"authority-owner")),
            ),
            vec![],
        )
        .unwrap();
    let key = ticket(&owner, share, "Authority", Permission::ReadWrite);
    registry.issue(&key, now()).unwrap();
    registry.enroll(&key, peer, None, now()).unwrap();
    (owner, share, peer, registry)
}

#[test]
fn client_intent_replay_is_exact_and_restarts_as_unknown() {
    let (owner, share, peer, mut registry) = authority_fixture();
    let grant = ShareGrant::sign(
        &owner,
        share,
        peer,
        owner.public(),
        1,
        0,
        [0xc1; 32],
        Hash32::digest(b"intent-manifest"),
        Hash32::digest(b"intent-request"),
        [0xc2; 32],
        now(),
    )
    .unwrap();
    let operation_id = [0xc3; 16];
    let prepared = registry
        .prepare_client_intent(&grant, ClientSide::Consumer, operation_id, now())
        .unwrap();
    assert!(matches!(prepared.phase, ClientIntentPhase::Prepared));
    let replay = registry
        .prepare_client_intent(&grant, ClientSide::Consumer, operation_id, now())
        .unwrap();
    assert_eq!(replay, prepared);
    assert_eq!(
        registry
            .prepare_client_intent(&grant, ClientSide::Consumer, [0xc4; 16], now())
            .unwrap_err(),
        ShareError::Busy
    );
    registry
        .transition_client_intent(
            &grant,
            ClientSide::Consumer,
            operation_id,
            ClientIntentPhase::AwaitingActivation,
            None,
            now(),
        )
        .unwrap();
    let before_restart = registry.client_intent(&grant).unwrap();
    assert!(matches!(
        before_restart.phase,
        ClientIntentPhase::AwaitingActivation
    ));

    let mut reopened = reopen(registry, owner.public());
    let after_restart = reopened.client_intent(&grant).unwrap();
    assert!(matches!(after_restart.phase, ClientIntentPhase::Unknown));
    assert_eq!(after_restart.binding, before_restart.binding);
    assert_eq!(after_restart.operation_id, operation_id);
    assert_ne!(after_restart.boot_id, before_restart.boot_id);
    assert_eq!(
        reopened
            .transition_client_intent(
                &grant,
                ClientSide::Consumer,
                operation_id,
                ClientIntentPhase::AwaitingActivation,
                None,
                now(),
            )
            .unwrap_err(),
        ShareError::GrantReplay
    );
    reopened
        .transition_client_intent(
            &grant,
            ClientSide::Consumer,
            operation_id,
            ClientIntentPhase::Cancelled,
            None,
            now(),
        )
        .unwrap();
}

#[test]
fn one_sided_grant_drain_keeps_client_intent_recoverable() {
    let (owner, share, peer, mut registry) = authority_fixture();
    let nonce = [0xd1; 32];
    let activation_id = [0xd2; 16];
    let grant = ShareGrant::sign(
        &owner,
        share,
        peer,
        owner.public(),
        1,
        0,
        [0xd3; 32],
        Hash32::digest(b"one-sided-manifest"),
        Hash32::digest(b"one-sided-request"),
        nonce,
        now(),
    )
    .unwrap();
    registry.write_grant(GrantRow {
        grant,
        state: GrantState::Active,
        activation_id: Some(activation_id),
        activation_deadline: Some(now().saturating_add(15)),
        revoked: false,
    });
    registry
        .prepare_client_intent(&grant, ClientSide::Consumer, [0xd4; 16], now())
        .unwrap();
    for phase in [
        ClientIntentPhase::AwaitingActivation,
        ClientIntentPhase::Active,
        ClientIntentPhase::Draining,
    ] {
        registry
            .transition_client_intent(
                &grant,
                ClientSide::Consumer,
                [0xd4; 16],
                phase,
                Some(activation_id),
                now(),
            )
            .unwrap();
    }

    // The consumer has acknowledged, the provider has not. Grant and journal have to stay, and
    // no cleanup may infer completion from one side.
    registry
        .drain_grant(share, nonce, activation_id, peer)
        .unwrap();
    let receipt = registry
        .activation_receipt(
            &ActivationStatusQuery::for_grant(&grant, Some(activation_id)),
            peer,
        )
        .unwrap();
    assert!(matches!(receipt.state, ActivationStateView::Active));
    assert!(receipt.consumer_drained && !receipt.provider_drained);
    assert!(matches!(
        registry.client_intent(&grant).unwrap().phase,
        ClientIntentPhase::Draining
    ));
    registry.gc_client_intents(now().saturating_add(CLIENT_INTENT_RETENTION_SECONDS + 1));
    assert!(registry.client_intent(&grant).is_some());
}

#[test]
fn activation_status_and_cancel_are_exact_and_idempotent() {
    let (owner, share, peer, mut registry) = authority_fixture();
    let nonce = [0xa1; 32];
    let grant = ShareGrant::sign(
        &owner,
        share,
        peer,
        owner.public(),
        1,
        0,
        [0xa2; 32],
        Hash32::digest(b"activation-manifest"),
        Hash32::digest(b"activation-request"),
        nonce,
        now(),
    )
    .unwrap();
    registry.write_grant(GrantRow {
        grant,
        state: GrantState::Issued,
        activation_id: None,
        activation_deadline: None,
        revoked: false,
    });

    let issued = registry
        .activation_receipt(&ActivationStatusQuery::for_grant(&grant, None), peer)
        .unwrap();
    assert!(matches!(issued.state, ActivationStateView::Issued));
    assert_eq!(issued.binding, ActivationBinding::from_grant(&grant));
    assert!(!issued.revoked);
    assert!(!issued.provider_drained && !issued.consumer_drained);

    let cancel = ActivationCancel::for_grant(&grant, None, [0xa3; 16]);
    let denied = registry.cancel_activation(&cancel, peer, now()).unwrap();
    assert!(matches!(denied.state, ActivationStateView::Denied));
    assert!(denied.activation_id.is_none());

    // A retry with a new local operation sees the same denial and cannot issue or activate
    // another grant.
    let retry = registry
        .cancel_activation(
            &ActivationCancel::for_grant(&grant, None, [0xa4; 16]),
            peer,
            now(),
        )
        .unwrap();
    assert!(matches!(retry.state, ActivationStateView::Denied));
    assert_eq!(retry.binding, denied.binding);
    let late = registry
        .activate_grant_at(&owner, &grant.activate_request(), owner.public(), 0, 0, now())
        .unwrap_err();
    assert_eq!(late, ShareError::MemberRevoked);

    let mut wrong = ActivationStatusQuery::for_grant(&grant, None);
    wrong.binding.request_hash = Hash32::digest(b"different-request");
    assert_eq!(
        registry.activation_receipt(&wrong, peer).unwrap_err(),
        ShareError::GrantReplay
    );
}

#[test]
fn activation_status_does_not_synthesize_expiry_before_durable_cancel() {
    let (owner, share, peer, mut registry) = authority_fixture();
    let nonce = [0xa9; 32];
    let mut grant = ShareGrant::sign(
        &owner,
        share,
        peer,
        owner.public(),
        1,
        0,
        [0xaa; 32],
        Hash32::digest(b"expired-manifest"),
        Hash32::digest(b"expired-request"),
        nonce,
        now(),
    )
    .unwrap();
    // The row is trusted here; only its end lies in the past.
    grant.expires_at = now().saturating_sub(1);
    registry.write_grant(GrantRow {
        grant,
        state: GrantState::Issued,
        activation_id: None,
        activation_deadline: None,
        revoked: false,
    });

    let before_cancel = registry
        .activation_receipt(&ActivationStatusQuery::for_grant(&grant, None), peer)
        .unwrap();
    assert!(matches!(before_cancel.state, ActivationStateView::Issued));
    let expired = registry
        .cancel_activation(
            &ActivationCancel::for_grant(&grant, None, [0xab; 16]),
            peer,
            now(),
        )
        .unwrap();
    assert!(matches!(expired.state, ActivationStateView::Expired));
    let after_cancel = registry
        .activation_receipt(&ActivationStatusQuery::for_grant(&grant, None), peer)
        .unwrap();
    assert!(matches!(after_cancel.state, ActivationStateView::Expired));
}

#[test]
fn remove_share_preserves_nonterminal_activation_for_drain_recovery() {
    let (owner, share, peer, mut registry) = authority_fixture();
    let foreign_owner = SecretKey::generate().public();
    registry
        .catalog
        .store_relationship(MemberRelationship {
            membership: Membership {
                share_id: share,
                owner: foreign_owner,
                endpoint: owner.public(),
                permission: Permission::ReadOnly,
                replica: ReplicaId(Hash32::digest(b"foreign-replica")),
                enrolled_at: now(),
                revoked_at: None,
                epoch: 1,
            },
            address: EndpointAddr::new(foreign_owner),
        })
        .unwrap();
    let nonce = [0xa5; 32];
    let grant = ShareGrant::sign(
        &owner,
        share,
        peer,
        owner.public(),
        1,
        0,
        [0xa6; 32],
        Hash32::digest(b"remove-manifest"),
        Hash32::digest(b"remove-request"),
        nonce,
        now(),
    )
    .unwrap();
    registry.write_grant(GrantRow {
        grant,
        state: GrantState::Issued,
        activation_id: None,
        activation_deadline: None,
        revoked: false,
    });

    let error = registry.remove_share(share).unwrap_err();
    assert_eq!(error, ShareError::RevocationPending);
    assert!(registry.catalog.config(share).is_ok());
    assert!(registry.read_grant(&nonce).is_some());

    let cancel =
        ActivationCancel::for_grant(&registry.read_grant(&nonce).unwrap().grant, None, [0xa8; 16]);
    registry.cancel_activation(&cancel, peer, now()).unwrap();
    registry.remove_share(share).unwrap();
    assert!(registry.catalog.relationship(foreign_owner, share).is_ok());
}

#[test]
fn restart_keeps_active_grant_as_unknown_drain_blocker() {
    let (owner, share, peer, mut registry) = authority_fixture();
    let nonce = [0x51; 32];
    let grant = ShareGrant::sign(
        &owner,
        share,
        peer,
        owner.public(),
        1,
        0,
        [0x52; 32],
        Hash32::digest(b"manifest"),
        Hash32::digest(b"request"),
        nonce,
        now(),
    )
    .unwrap();
    registry.write_grant(GrantRow {
        grant,
        state: GrantState::Active,
        activation_id: Some([0x53; 16]),
        activation_deadline: Some(now().saturating_add(15)),
        revoked: false,
    });
    let mut registry = reopen(registry, owner.public());
    assert_eq!(
        registry.read_grant(&nonce).unwrap().state,
        GrantState::Restarted
    );
    assert_eq!(registry.active_grant_blockers(share, peer), 1);
    assert!(registry
        .activate_grant_at(
            &owner,
            &ShareGrant::sign(
                &owner,
                share,
                peer,
                owner.public(),
                1,
                0,
                [0x52; 32],
                Hash32::digest(b"manifest"),
                Hash32::digest(b"request"),
                nonce,
                now(),
            )
            .unwrap()
            .activate_request(),
            owner.public(),
            0,
            0,
            now(),
        )
        .is_err());
}

#[test]
fn durable_revoke_stays_pending_until_exact_grant_drain() {
    let (owner, share, peer, mut registry) = authority_fixture();
    let nonce = [0x61; 32];
    let activation_id = [0x62; 16];
    let grant = ShareGrant::sign(
        &owner,
        share,
        peer,
        owner.public(),
        1,
        0,
        [0x63; 32],
        Hash32::digest(b"manifest"),
        Hash32::digest(b"request"),
        nonce,
        now(),
    )
    .unwrap();
    registry.write_grant(GrantRow {
        grant,
        state: GrantState::Active,
        activation_id: Some(activation_id),
        activation_deadline: Some(now().saturating_add(15)),
        revoked: false,
    });
    let revoked = registry.revoke_member_durable(share, peer, now()).unwrap();
    assert!(revoked.revoked_at.is_some());
    assert!(matches!(
        registry.revocation_receipt(share, peer, now()).unwrap(),
        RevocationReceipt::Pending { blockers: 1, .. }
    ));
    registry
        .drain_grant(share, nonce, activation_id, owner.public())
        .unwrap();
    assert!(matches!(
        registry.revocation_receipt(share, peer, now()).unwrap(),
        RevocationReceipt::Pending { blockers: 1, .. }
    ));
    assert_eq!(
        registry.read_grant(&nonce).unwrap().state,
        GrantState::Active
    );
    registry
        .drain_grant(share, nonce, activation_id, peer)
        .unwrap();
    assert!(matches!(
        registry.revocation_receipt(share, peer, now()).unwrap(),
        RevocationReceipt::Complete { .. }
    ));
}

#[test]
fn activation_rejects_after_request_start_monotonic_deadline() {
    let (owner, share, peer, mut registry) = authority_fixture();
    let nonce = [0x81; 32];
    let grant = ShareGrant::sign(
        &owner,
        share,
        peer,
        owner.public(),
        1,
        0,
        [0x82; 32],
        Hash32::digest(b"manifest"),
        Hash32::digest(b"request"),
        nonce,
        now(),
    )
    .unwrap();
    registry.write_grant(GrantRow {
        grant,
        state: GrantState::Issued,
        activation_id: None,
        activation_deadline: None,
        revoked: false,
    });
    let moment = 100_000_000_000;
    let stale_start = moment - 16_000_000_000;
    let error = registry
        .activate_grant_at(
            &owner,
            &grant.activate_request(),
            owner.public(),
            stale_start,
            moment,
            now(),
        )
        .unwrap_err();
    assert_eq!(error, ShareError::GrantExpired);
    assert_eq!(
        registry.read_grant(&nonce).unwrap().state,
        GrantState::Issued
    );
}

#[test]
fn missing_grant_drain_rows_default_to_two_sided_pending_drain() {
    let (owner, share, peer, mut registry) = authority_fixture();
    let nonce = [0x92; 32];
    let grant = ShareGrant::sign(
        &owner,
        share,
        peer,
        owner.public(),
        1,
        0,
        [0x91; 32],
        Hash32::digest(b"manifest"),
        Hash32::digest(b"request"),
        nonce,
        now(),
    )
    .unwrap();
    let activation_id = [0x93; 16];
    registry.write_grant(GrantRow {
        grant,
        state: GrantState::Active,
        activation_id: Some(activation_id),
        activation_deadline: Some(now().saturating_add(15)),
        revoked: false,
    });
    registry.drains.clear();
    assert_eq!(
        registry.read_grant_drain(&nonce),
        GrantDrainState::default()
    );
    registry
        .drain_grant(share, nonce, activation_id, owner.public())
        .unwrap();
    assert_eq!(
        registry.read_grant_drain(&nonce),
        GrantDrainState {
            provider_drained: true,
            consumer_drained: false,
        }
    );
}

#[test]
fn authority_clock_quarantine_is_managed_only_and_preserves_catalog() {
    let (owner, share, _peer, mut registry) = authority_fixture();
    let empty_root = MerkleTree::from_records(Vec::new()).unwrap().root_hash();
    let first_token =
        SnapshotToken::sign(&owner, share, 1, [0x72; 32], empty_root, 0, now()).unwrap();
    registry
        .store_snapshot(
            AuthoritativeSnapshot {
                token: first_token,
                records: Vec::new(),
            },
            now(),
        )
        .unwrap();
    let config_before = registry.catalog.config(share).unwrap();
    let future = now().saturating_add(30);
    registry.clock = ClockAnchor {
        version: 1,
        last_wall: future,
        boot: [0x73; 16],
        quarantined: false,
    };
    let second_token =
        SnapshotToken::sign(&owner, share, 1, [0x74; 32], empty_root, 0, now()).unwrap();
    assert_eq!(
        registry.store_snapshot(
            AuthoritativeSnapshot {
                token: second_token,
                records: Vec::new(),
            },
            now(),
        ),
        Err(ShareFault::Share(ShareError::ClockRollback))
    );
    let key = ticket(&owner, share, "Authority", Permission::ReadOnly);
    assert_eq!(registry.issue(&key, now()), Err(ShareError::ClockRollback));
    assert_eq!(registry.catalog.config(share).unwrap(), config_before);
    // The catalog stays readable, whatever the clock did.
    let reopened = reopen(registry, owner.public());
    assert_eq!(reopened.catalog.config(share).unwrap(), config_before);
    assert!(reopened.clock.quarantined);
}

#[test]
fn restart_keeps_started_apply_as_unknown_drain_blocker() {
    let (owner, share, peer, mut registry) = authority_fixture();
    let permit = ApplyPermit::sign(
        &owner,
        share,
        peer,
        1,
        [0x81; 32],
        Hash32::digest(b"apply-root"),
        now(),
        [0x82; 32],
    )
    .unwrap();
    registry.write_apply(ApplyRow {
        permit,
        state: ApplyState::Started,
        operation_id: Some([0x83; 16]),
        committed: false,
        revoked: false,
    });
    let reopened = reopen(registry, owner.public());
    assert_eq!(
        reopened.read_apply(&[0x82; 32]).unwrap().state,
        ApplyState::Restarted
    );
    assert_eq!(reopened.active_apply_blockers(share, peer), 1);
}

#[test]
fn authority_gc_expires_unactivated_rows_then_removes_after_retention() {
    let (owner, share, peer, mut registry) = authority_fixture();
    let issued_at = now().saturating_sub(5_000);
    let grant_nonce = [0xa1; 32];
    let grant = ShareGrant::sign(
        &owner,
        share,
        peer,
        owner.public(),
        1,
        0,
        [0xa2; 32],
        Hash32::digest(b"gc-manifest"),
        Hash32::digest(b"gc-request"),
        grant_nonce,
        issued_at,
    )
    .unwrap();
    registry.write_grant(GrantRow {
        grant,
        state: GrantState::Issued,
        activation_id: None,
        activation_deadline: None,
        revoked: false,
    });

    let apply_nonce = [0xa3; 32];
    let permit = ApplyPermit::sign(
        &owner,
        share,
        peer,
        1,
        [0xa4; 32],
        Hash32::digest(b"gc-root"),
        issued_at,
        apply_nonce,
    )
    .unwrap();
    registry.write_apply(ApplyRow {
        permit,
        state: ApplyState::Prepared,
        operation_id: None,
        committed: false,
        revoked: false,
    });

    let expired_at = grant.expires_at.max(permit.expires_at);
    registry.gc_authority(expired_at);
    assert_eq!(
        registry.read_grant(&grant_nonce).unwrap().state,
        GrantState::Expired
    );
    assert_eq!(
        registry.read_apply(&apply_nonce).unwrap().state,
        ApplyState::Expired
    );

    registry.gc_authority(expired_at.saturating_add(AUTHORITY_RETENTION_SECONDS + 1));
    assert!(registry.read_grant(&grant_nonce).is_none());
    assert!(registry.read_apply(&apply_nonce).is_none());
}

#[test]
fn apply_status_and_prepared_cancel_are_exact_and_replay_safe() {
    let (owner, share, peer, mut registry) = authority_fixture();
    let permit = ApplyPermit::sign(
        &owner,
        share,
        peer,
        1,
        [0xb1; 32],
        Hash32::digest(b"status-root"),
        now(),
        [0xb2; 32],
    )
    .unwrap();
    registry.write_apply(ApplyRow {
        permit,
        state: ApplyState::Prepared,
        operation_id: None,
        committed: false,
        revoked: false,
    });
    let prepared = registry
        .apply_status(&ApplyStatusQuery::for_permit(&permit, None), peer)
        .unwrap();
    assert!(matches!(prepared.state, ApplyStateView::Prepared));
    assert_eq!(prepared.operation_id, None);

    let operation_id = [0xb3; 16];
    // The caller may know its own operation though the start never reached the owner. Only then
    // is the permit enough.
    let prepared_with_local_id = registry
        .apply_status(
            &ApplyStatusQuery::for_permit(&permit, Some(operation_id)),
            peer,
        )
        .unwrap();
    assert_eq!(prepared_with_local_id, prepared);
    let denied = registry
        .cancel_apply(&ApplyCancel::for_permit(&permit, operation_id), peer)
        .unwrap();
    assert!(matches!(denied.state, ApplyStateView::Denied));
    assert_eq!(denied.operation_id, Some(operation_id));
    let replay = registry
        .cancel_apply(&ApplyCancel::for_permit(&permit, operation_id), peer)
        .unwrap();
    assert_eq!(replay, denied);
    let status = registry
        .apply_status(
            &ApplyStatusQuery::for_permit(&permit, Some(operation_id)),
            peer,
        )
        .unwrap();
    assert_eq!(status, denied);
    assert_eq!(
        registry
            .apply_start(
                owner.public(),
                share,
                peer,
                permit.root_hash,
                &ApplyStart {
                    operation_id,
                    permit_nonce: permit.nonce,
                },
                now(),
            )
            .unwrap_err(),
        ShareError::MemberRevoked
    );

    let mut wrong = ApplyStatusQuery::for_permit(&permit, Some(operation_id));
    wrong.operation_id = Some([0xb4; 16]);
    assert_eq!(
        registry.apply_status(&wrong, peer).unwrap_err(),
        ShareError::GrantReplay
    );
}

#[test]
fn a_started_writer_can_stop_after_its_member_is_revoked() {
    let (owner, share, peer, mut registry) = authority_fixture();
    let root = Hash32::digest(b"root");
    let permit =
        ApplyPermit::sign(&owner, share, peer, 1, [0xe1; 32], root, now(), [0xe2; 32]).unwrap();
    registry.write_apply(ApplyRow {
        permit,
        state: ApplyState::Prepared,
        operation_id: None,
        committed: false,
        revoked: false,
    });
    let start = ApplyStart {
        operation_id: [0xe3; 16],
        permit_nonce: permit.nonce,
    };
    for _ in 0..2 {
        registry
            .apply_start(owner.public(), share, peer, root, &start, now())
            .unwrap();
    }
    assert_eq!(
        registry.apply_start(
            owner.public(),
            share,
            peer,
            root,
            &ApplyStart {
                operation_id: [0xe4; 16],
                permit_nonce: permit.nonce,
            },
            now(),
        ),
        Err(ShareError::GrantReplay)
    );
    registry.revoke_member_durable(share, peer, now()).unwrap();
    assert!(matches!(
        registry.revocation_receipt(share, peer, now()).unwrap(),
        RevocationReceipt::Pending { blockers: 1, .. }
    ));
    registry
        .apply_drained(
            owner.public(),
            share,
            peer,
            &ApplyDrained {
                operation_id: [0xe3; 16],
                permit_nonce: permit.nonce,
                committed: true,
            },
        )
        .unwrap();
    assert!(matches!(
        registry.revocation_receipt(share, peer, now()).unwrap(),
        RevocationReceipt::Complete {
            member_epoch: 2,
            ..
        }
    ));
}

#[test]
fn a_registry_opens_only_for_its_owner() {
    let owner = SecretKey::generate();
    let other = SecretKey::generate();
    let stored = StoredRegistry::new(owner.public());
    assert_eq!(
        Registry::open(stored, other.public(), now()).err(),
        Some(ShareError::StateUnavailable)
    );
}

#[test]
fn shares_members_and_keys_are_listed_in_order() {
    let (owner, share, peer, mut registry) = authority_fixture();
    assert_eq!(registry.catalog.configs().len(), 1);
    assert_eq!(registry.catalog.members(share).unwrap()[0].endpoint, peer);
    assert_eq!(registry.catalog.invitations(share).unwrap().len(), 1);
    assert_eq!(registry.catalog.is_ready(share), Ok(false));
    registry.catalog.mark_ready(share).unwrap();
    assert_eq!(registry.catalog.is_ready(share), Ok(true));
    assert_eq!(
        registry.catalog.insert_share(
            config(
                owner.public(),
                share,
                "Again",
                ReplicaId(Hash32::digest(b"x"))
            ),
            vec![],
        ),
        Err(ShareError::Busy)
    );
    assert_eq!(
        registry.catalog.config(ShareId([9; 32])).err(),
        Some(ShareError::UnknownShare)
    );
    assert_eq!(
        registry.authorize(share, SecretKey::generate().public(), false),
        Err(ShareError::NotMember)
    );
    let known = registry.catalog.known(share).unwrap();
    registry
        .catalog
        .remember_replicas(share, vec![ReplicaId(Hash32::digest(b"new"))])
        .unwrap();
    assert_eq!(registry.catalog.known(share).unwrap().len(), known.len() + 1);
}

#[test]
fn drawn_replicas_are_ones_that_the_share_does_not_know() {
    let owner = SecretKey::generate();
    let share = ShareId([5; 32]);
    let mut registry = open(owner.public());
    let known: Vec<ReplicaId> = (0..64u8)
        .map(|i| ReplicaId(Hash32 { bytes: [i; 32] }))
        .collect();
    registry
        .catalog
        .insert_share(
            config(
                owner.public(),
                share,
                "Files",
                ReplicaId(Hash32::digest(b"owner")),
            ),
            known,
        )
        .unwrap();
    let held = registry.catalog.known(share).unwrap();
    for _ in 0..16 {
        assert!(!held.contains(&registry.catalog.draw_replica(&share)));
    }
    assert_ne!(
        registry.catalog.draw_replica(&share),
        registry.catalog.draw_replica(&share)
    );
}

/// The parts of a membership as they are written.
fn written_member(
    member: &Membership,
) -> ([u8; 32], [u8; 32], [u8; 32], u8, [u8; 32], u64, Option<u64>, u64) {
    (
        member.share_id.0,
        member.owner.bytes,
        member.endpoint.bytes,
        if member.permission == Permission::ReadWrite { 1 } else { 0 },
        member.replica.0.bytes,
        member.enrolled_at,
        member.revoked_at,
        member.epoch,
    )
}

#[test]
fn a_catalog_takes_the_room_of_its_byte_form() {
    let (owner, share, peer, mut registry) = authority_fixture();
    let foreign = SecretKey::generate().public();
    registry.catalog.revoke_member(share, peer, 300).unwrap();
    registry
        .catalog
        .store_relationship(MemberRelationship {
            membership: Membership {
                share_id: share,
                owner: foreign,
                endpoint: owner.public(),
                permission: Permission::ReadOnly,
                replica: ReplicaId(Hash32::digest(b"elsewhere")),
                enrolled_at: 9,
                revoked_at: None,
                epoch: 1,
            },
            address: EndpointAddr::new(foreign),
        })
        .unwrap();
    let catalog = &registry.catalog;
    let entry = &catalog.shares[0];
    let invitations: Vec<_> = entry
        .invitations
        .iter()
        .map(|held| {
            let value = (
                held.id.0,
                held.share_id.0,
                1u8,
                held.expires_at,
                held.revoked_at,
                held.digest.bytes,
            );
            (held.id.0, value)
        })
        .collect();
    let members: Vec<_> = entry
        .members
        .iter()
        .map(|member| (member.endpoint.bytes, written_member(member)))
        .collect();
    let known: Vec<_> = entry.known.iter().map(|replica| replica.0.bytes).collect();
    let set_up = (
        entry.config.share_id.0,
        entry.config.owner.bytes,
        entry.config.name.clone(),
        entry.config.root.clone(),
        entry.config.state_root.clone(),
        entry.config.replica.0.bytes,
        entry.config.min_free_space_bytes,
    );
    let shares = vec![(
        entry.config.share_id.0,
        (entry.ready, set_up, invitations, members, known),
    )];
    let elsewhere = &catalog.relationships[0].relationship;
    let no_addresses: Vec<u8> = Vec::new();
    let relationships = vec![(
        (foreign.bytes, share.0),
        (
            written_member(&elsewhere.membership),
            (foreign.bytes, no_addresses),
        ),
    )];
    let whole = (catalog.version, catalog.owner.bytes, shares, relationships);
    assert_eq!(catalog.size(), postcard::to_stdvec(&whole).unwrap().len());
    assert!(Registry::open(registry.close(), owner.public(), now()).is_ok());
}

/// Fills a catalog to the last byte.
fn fill(registry: &mut Registry) {
    registry.catalog.shares[0].config.root = "x".repeat(4_000_000);
    let left = MAX_CATALOG_BYTES - registry.catalog.size();
    registry.catalog.shares[0].config.root = "x".repeat(4_000_000 + left);
    assert_eq!(registry.catalog.size(), MAX_CATALOG_BYTES);
}

#[test]
fn a_catalog_never_grows_beyond_its_size() {
    let (owner, share, peer, mut registry) = authority_fixture();
    let key = registry.catalog.invitations(share).unwrap()[0].id;
    let again = ticket(&owner, share, "Authority", Permission::ReadWrite);
    registry.issue(&again, now()).unwrap();
    fill(&mut registry);
    let catalog = &mut registry.catalog;
    assert_eq!(
        catalog.insert_share(
            config(owner.public(), ShareId([1; 32]), "New", ReplicaId(Hash32::digest(b"n"))),
            vec![],
        ),
        Err(ShareError::StateUnavailable)
    );
    assert_eq!(
        catalog.remember_replicas(share, vec![ReplicaId(Hash32::digest(b"new"))]),
        Err(ShareError::StateUnavailable)
    );
    assert_eq!(
        catalog.revoke_key(share, key, now()),
        Err(ShareError::StateUnavailable)
    );
    assert_eq!(
        catalog.revoke_member(share, peer, now()),
        Err(ShareError::StateUnavailable)
    );
    let foreign = SecretKey::generate().public();
    assert_eq!(
        catalog.store_relationship(MemberRelationship {
            membership: Membership {
                share_id: share,
                owner: foreign,
                endpoint: owner.public(),
                permission: Permission::ReadOnly,
                replica: ReplicaId(Hash32::digest(b"elsewhere")),
                enrolled_at: 9,
                revoked_at: None,
                epoch: 1,
            },
            address: EndpointAddr::new(foreign),
        }),
        Err(ShareError::StateUnavailable)
    );
    let other = ticket(&owner, share, "Authority", Permission::ReadWrite);
    assert_eq!(registry.issue(&other, now()), Err(ShareError::StateUnavailable));
    assert_eq!(
        registry.enroll(&again, SecretKey::generate().public(), None, now()),
        Err(ShareError::StateUnavailable)
    );
    assert_eq!(registry.catalog.size(), MAX_CATALOG_BYTES);
    assert_eq!(registry.catalog.shares.len(), 1);
    assert!(registry.catalog.relationships.is_empty());
    assert!(registry.enroll(&again, peer, None, now()).is_ok());
    assert_eq!(registry.catalog.mark_ready(share), Ok(()));
    assert_eq!(registry.remove_share(share), Ok(()));
    assert!(registry.catalog.size() < 100);
}

#[test]
fn a_durable_revocation_is_written_down_whatever_room_it_takes() {
    let (owner, share, peer, mut registry) = authority_fixture();
    fill(&mut registry);
    assert!(registry.is_available());
    let member = registry.revoke_member_durable(share, peer, now()).unwrap();
    assert_eq!(member.epoch, 2);
    assert!(!registry.is_available());
    assert_eq!(
        Registry::open(registry.close(), owner.public(), now()).err(),
        Some(ShareError::StateUnavailable)
    );
}

#[test]
fn every_member_counts_under_a_replica_of_its_own() {
    let (owner, share, peer, mut registry) = authority_fixture();
    let key = ticket(&owner, share, "Authority", Permission::ReadOnly);
    registry.issue(&key, now()).unwrap();
    let first = registry.catalog.member(share, peer).unwrap();
    let second = registry
        .enroll(&key, SecretKey::generate().public(), None, now())
        .unwrap();
    let known = registry.catalog.known(share).unwrap();
    let owners = registry.catalog.config(share).unwrap().replica;
    let all = [owners, conflict_resolver_replica(), first.replica, second.replica];
    for (i, replica) in all.iter().enumerate() {
        assert!(known.contains(replica));
        assert!(!all[..i].contains(replica));
    }
    assert_eq!(known.len(), 4);
    assert_eq!((second.epoch, second.revoked_at), (1, None));
    assert_eq!(second.permission, Permission::ReadOnly);
}

#[test]
fn what_a_restart_changes_is_kept_though_the_registry_is_refused() {
    let (owner, share, peer, mut registry) = authority_fixture();
    let at = now();
    let grant = ShareGrant::sign(
        &owner,
        share,
        peer,
        owner.public(),
        1,
        0,
        [2; 32],
        Hash32::digest(b"manifest"),
        Hash32::digest(b"request"),
        [8; 32],
        at,
    )
    .unwrap();
    registry.grants.push(GrantRow {
        grant,
        state: GrantState::Active,
        activation_id: Some([1; 16]),
        activation_deadline: Some(at + 15),
        revoked: false,
    });
    let mut stored = registry.close();
    let boot = stored.restart(at + 100).unwrap();
    assert_eq!(stored.grants[0].state, GrantState::Restarted);
    assert_eq!(stored.clock.unwrap().boot, boot);
    assert_eq!(stored.clock.unwrap().last_wall, at + 100);
    let mut again = Registry::open_with(stored, owner.public(), at + 100, boot)
        .unwrap()
        .close();
    again.clock = Some(ClockAnchor {
        version: 9,
        ..again.clock.unwrap()
    });
    assert_eq!(again.restart(at + 200), Err(ShareError::StateUnavailable));
    assert_eq!(again.clock.unwrap().last_wall, at + 100);
}

#[test]
fn a_status_is_told_of_the_owners_own_grants_alone() {
    let (owner, share, peer, mut registry) = authority_fixture();
    let stranger = SecretKey::generate();
    let foreign = ShareGrant::sign(
        &stranger,
        share,
        peer,
        stranger.public(),
        1,
        0,
        [2; 32],
        Hash32::digest(b"manifest"),
        Hash32::digest(b"request"),
        [7; 32],
        now(),
    )
    .unwrap();
    registry.write_grant(GrantRow {
        grant: foreign,
        state: GrantState::Issued,
        activation_id: None,
        activation_deadline: None,
        revoked: false,
    });
    let binding = ActivationBinding {
        owner: owner.public(),
        ..ActivationBinding::from_grant(&foreign)
    };
    let query = |binding| ActivationStatusQuery {
        binding,
        activation_id: None,
    };
    assert_eq!(
        registry.activation_receipt(&query(binding), peer).err(),
        Some(ShareError::OwnerMismatch)
    );
    let cancel = ActivationCancel {
        binding,
        activation_id: None,
        operation_id: [1; 16],
    };
    assert_eq!(
        registry.cancel_activation(&cancel, peer, now()).err(),
        Some(ShareError::GrantReplay)
    );
    let unknown = ActivationBinding {
        nonce: [6; 32],
        ..binding
    };
    assert_eq!(
        registry.activation_receipt(&query(unknown), peer).err(),
        Some(ShareError::GrantReplay)
    );
}
