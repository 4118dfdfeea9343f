//! Signed rosters and the heartbeats that keep them fresh.
use deltaweave::share::error::ShareError;
use deltaweave::share::identity::{
    EndpointAddr, EndpointId, Permission, SecretKey, ShareId,
};
use deltaweave::share::roster::{RosterEntry, RosterHeartbeat, SignedRoster};

fn entry(
    owner: EndpointId,
    share: ShareId,
    member: EndpointId,
    epoch: u64,
    heartbeat_at: u64,
    heartbeat_expires_at: u64,
) -> RosterEntry {
    RosterEntry {
        owner,
        share,
        member,
        address: EndpointAddr::new(member),
        permission: Permission::ReadWrite,
        member_epoch: epoch,
        heartbeat_at,
        heartbeat_expires_at,
    }
}

#[test]
fn verify_for_binds_trusted_owner_share_and_filters_stale_members() {
    let owner_key = SecretKey::generate();
    let other_owner = SecretKey::generate();
    let share = ShareId([0x11; 32]);
    let member = SecretKey::generate().public();
    let roster = SignedRoster::sign(
        &owner_key,
        share,
        [1; 32],
        vec![entry(owner_key.public(), share, member, 1, 10, 20)],
        10,
        100,
    )
    .unwrap();

    roster.verify_for(owner_key.public(), share, 50).unwrap();
    assert!(roster.fresh_members(50).is_empty());
    assert!(!roster.member_is_fresh(member, 50));
    assert_eq!(
        roster
            .verify_for(other_owner.public(), share, 50)
            .unwrap_err(),
        ShareError::OwnerMismatch
    );
    assert_eq!(
        roster
            .verify_for(owner_key.public(), ShareId([0x22; 32]), 50)
            .unwrap_err(),
        ShareError::OwnerMismatch
    );
}

#[test]
fn roster_shape_rejects_future_clock_zero_epoch_and_duplicate_members() {
    let owner_key = SecretKey::generate();
    let share = ShareId([0x33; 32]);
    let member = SecretKey::generate().public();
    let future = SignedRoster::sign(
        &owner_key,
        share,
        [2; 32],
        vec![entry(owner_key.public(), share, member, 1, 0, 0)],
        1_006,
        1_090,
    )
    .unwrap();
    assert_eq!(
        future.verify_at(1_000).unwrap_err(),
        ShareError::ClockRollback
    );

    assert_eq!(
        SignedRoster::sign(
            &owner_key,
            share,
            [3; 32],
            vec![entry(owner_key.public(), share, member, 0, 0, 0)],
            1_000,
            1_090,
        )
        .unwrap_err(),
        ShareError::EpochMismatch
    );
    assert_eq!(
        SignedRoster::sign(
            &owner_key,
            share,
            [4; 32],
            vec![
                entry(owner_key.public(), share, member, 1, 0, 0),
                entry(owner_key.public(), share, member, 1, 0, 0),
            ],
            1_000,
            1_090,
        )
        .unwrap_err(),
        ShareError::Protocol
    );
}

#[test]
fn heartbeat_rejects_wrong_address_identity_stale_and_bad_signature() {
    let owner_key = SecretKey::generate();
    let member_key = SecretKey::generate();
    let share = ShareId([0x44; 32]);
    let challenge = [9; 32];
    let wrong_address = EndpointAddr::new(SecretKey::generate().public());
    let wrong_identity = RosterHeartbeat::sign(
        &member_key,
        owner_key.public(),
        share,
        wrong_address,
        challenge,
        100,
    );
    assert_eq!(
        wrong_identity.verify_at(100).unwrap_err(),
        ShareError::EndpointMismatch
    );

    let stale = RosterHeartbeat::sign(
        &member_key,
        owner_key.public(),
        share,
        EndpointAddr::new(member_key.public()),
        challenge,
        1,
    );
    assert_eq!(
        stale.verify_at(100).unwrap_err(),
        ShareError::HeartbeatExpired
    );

    let mut bad_signature = RosterHeartbeat::sign(
        &member_key,
        owner_key.public(),
        share,
        EndpointAddr::new(member_key.public()),
        challenge,
        100,
    );
    bad_signature.signature = SecretKey::generate().sign(b"not this heartbeat");
    assert_eq!(
        bad_signature.verify_at(100).unwrap_err(),
        ShareError::Protocol
    );
}

#[test]
fn fresh_members_are_listed_and_stale_rosters_refused() {
    let owner_key = SecretKey::generate();
    let share = ShareId([0x55; 32]);
    let member = SecretKey::generate().public();
    let roster = SignedRoster::sign(
        &owner_key,
        share,
        [5; 32],
        vec![entry(owner_key.public(), share, member, 1, 10, 80)],
        10,
        100,
    )
    .unwrap();
    assert!(roster.member_is_fresh(member, 50));
    assert_eq!(roster.fresh_members(50).len(), 1);
    assert_eq!(roster.fresh_members(50)[0].member, member);
    assert_eq!(roster.verify_at(100).unwrap_err(), ShareError::RosterStale);
    let mut forged = roster.clone();
    forged.entries[0].permission = Permission::ReadOnly;
    assert_eq!(forged.verify_at(50).unwrap_err(), ShareError::Protocol);
}
