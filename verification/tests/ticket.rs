//! Share keys and the proofs of an earlier identity.
use std::time::{SystemTime, UNIX_EPOCH};

use deltaweave::hash::{Hash32, ReplicaId};
use deltaweave::share::error::ShareError;
use deltaweave::share::identity::{
    EndpointAddr, InvitationId, Permission, SecretKey, ShareId,
};
use deltaweave::share::ticket::{LegacyProof, ShareTicket};

fn now() -> u64 {
    SystemTime::now()
        .duration_since(UNIX_EPOCH)
        .expect("the clock is past the epoch")
        .as_secs()
}

#[test]
fn tickets_verify_canonical_signature_expiry_and_redact_secrets() {
    let key = SecretKey::generate();
    let ticket = ShareTicket::issue(
        &key,
        ShareId([1; 32]),
        "Documents".into(),
        Permission::ReadOnly,
        Some(200),
        EndpointAddr::new(key.public()),
        100,
    )
    .ok()
    .unwrap();
    let encoded = ticket.encode();
    let parsed = ShareTicket::parse_at(&encoded, 150).ok().unwrap();
    assert_eq!(parsed.preview().permission, Permission::ReadOnly);
    assert_eq!(parsed.preview().name, "Documents");
    assert!(!ticket
        .redacted()
        .contains(&hex::encode(ticket.body.bearer)));
    assert_eq!(
        ShareTicket::parse_at(&encoded, 200).err(),
        Some(ShareError::Expired)
    );
    let mut corrupt = ticket.clone();
    corrupt.body.permission = Permission::ReadWrite;
    assert_eq!(
        ShareTicket::parse_at(&corrupt.encode(), 150).err(),
        Some(ShareError::InvalidTicket)
    );
    corrupt = ticket.clone();
    corrupt.body.version = 4;
    assert_eq!(
        ShareTicket::parse_at(&corrupt.encode(), 150).err(),
        Some(ShareError::UnsupportedVersion)
    );
    assert!(ShareTicket::parse_at(&(encoded + "00"), 150).is_err());
    assert!(ShareTicket::parse_at(&"x".repeat(20000), 150).is_err());
}

#[test]
fn legacy_proof_is_bound_to_every_claim_context_field() {
    let owner = SecretKey::generate();
    let old = SecretKey::generate();
    let peer = SecretKey::generate().public();
    let ticket = ShareTicket::issue(
        &owner,
        ShareId([1; 32]),
        "Files".into(),
        Permission::ReadWrite,
        None,
        EndpointAddr::new(owner.public()),
        now(),
    )
    .ok()
    .unwrap();
    let replica = ReplicaId(Hash32::digest(&old.public().bytes));
    let proof = LegacyProof::create(&ticket, &old, peer, replica).unwrap();
    assert_eq!(proof.verify(&ticket, peer).unwrap(), replica);
    let mut attacks = Vec::new();
    let mut p = proof;
    p.version = 2;
    attacks.push(p);
    let mut p = proof;
    p.invitation = InvitationId([9; 32]);
    attacks.push(p);
    let mut p = proof;
    p.share = ShareId([9; 32]);
    attacks.push(p);
    let mut p = proof;
    p.owner = SecretKey::generate().public();
    attacks.push(p);
    let mut p = proof;
    p.new_endpoint = SecretKey::generate().public();
    attacks.push(p);
    let mut p = proof;
    p.old_endpoint = SecretKey::generate().public();
    attacks.push(p);
    let mut p = proof;
    p.replica = ReplicaId(Hash32::digest(b"victim"));
    attacks.push(p);
    let mut p = proof;
    p.signature = SecretKey::generate().sign(b"wrong");
    attacks.push(p);
    for attack in attacks {
        assert_eq!(
            attack.verify(&ticket, peer).unwrap_err(),
            ShareError::ReplicaClaimRejected
        );
    }
}

#[test]
fn a_share_key_reads_back_as_it_was_written() {
    let key = SecretKey::generate();
    let ticket = ShareTicket::issue_with(
        &key,
        ShareId([7; 32]),
        "Bilder".into(),
        Permission::ReadWrite,
        None,
        EndpointAddr::new(key.public()),
        now(),
        InvitationId([3; 32]),
        [4; 32],
    )
    .ok()
    .unwrap();
    let encoded = ticket.encode();
    assert!(encoded.starts_with("dwshare3:"));
    let parsed = ShareTicket::parse(&encoded).ok().unwrap();
    assert_eq!(parsed.encode(), encoded);
    assert_eq!(parsed.body.bearer, [4; 32]);
    assert!(parsed.preview().same(&ticket.preview()));
    assert_eq!(parsed.issuance_digest(), ticket.issuance_digest());
    assert_ne!(
        ticket.issuance_digest(),
        Hash32::digest(encoded.as_bytes())
    );
}

#[test]
fn names_and_lifetimes_of_keys_are_bounded() {
    let key = SecretKey::generate();
    for (name, fault) in [
        ("", Some(ShareError::InvalidTicket)),
        ("a\u{7}b", Some(ShareError::InvalidTicket)),
        ("fine", None),
    ] {
        assert_eq!(
            ShareTicket::issue(
                &key,
                ShareId([1; 32]),
                name.into(),
                Permission::ReadOnly,
                None,
                EndpointAddr::new(key.public()),
                100,
            )
            .err(),
            fault
        );
    }
    assert_eq!(
        ShareTicket::issue(
            &key,
            ShareId([1; 32]),
            "fine".into(),
            Permission::ReadOnly,
            Some(100),
            EndpointAddr::new(key.public()),
            100,
        )
        .err(),
        Some(ShareError::Expired)
    );
}

#[test]
fn keys_with_transport_addresses_are_read_back() {
    let key = SecretKey::generate();
    // 127.0.0.1, port 39999, and 127.0.0.2, port 80.
    let address = EndpointAddr {
        id: key.public(),
        addrs: vec![
            vec![1, 0, 127, 0, 0, 1, 191, 184, 2],
            vec![1, 0, 127, 0, 0, 2, 80],
        ],
    };
    assert!(address.is_transport());
    assert!(EndpointAddr::new(key.public()).is_transport());
    let issue = |address: &EndpointAddr| {
        ShareTicket::issue(
            &key,
            ShareId([1; 32]),
            "Documents".into(),
            Permission::ReadWrite,
            None,
            address.clone(),
            100,
        )
        .ok()
        .unwrap()
    };
    let encoded = issue(&address).encode();
    let parsed = ShareTicket::parse_at(&encoded, 150).ok().unwrap();
    assert_eq!(parsed.encode(), encoded);
    assert_eq!(parsed.address(), address);

    for addrs in [
        vec![vec![9, 9]],
        vec![vec![1, 0, 127, 0], vec![0, 2, 80]],
        vec![
            vec![1, 0, 127, 0, 0, 2, 80],
            vec![1, 0, 127, 0, 0, 1, 191, 184, 2],
        ],
    ] {
        let foreign = EndpointAddr {
            id: key.public(),
            addrs,
        };
        assert!(!foreign.is_transport());
        assert_eq!(
            ShareTicket::parse_at(&issue(&foreign).encode(), 150).err(),
            Some(ShareError::InvalidTicket)
        );
    }
}
