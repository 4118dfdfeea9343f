//! What an owner signs to let members fetch and apply a snapshot: snapshot tokens, manifest
//! attestations, grants, activations and apply permits, and the questions asked about them.
use vstd::prelude::*;

use crate::hash::{blake3_digest, lemma_hash_view_injective, push_bytes, same_array, Hash32};
use crate::manifest::{manifest_digest, manifest_fault, ChunkDescriptor, FileManifest, ManifestView};
use crate::merkle::{copy_records, gathered, load_fault, root_digest, views, MerkleTree};
use crate::order::{byte_less, compare_bytes, ByteOrder};
use crate::record::{
    digest_code, flag_byte, flag_code, kind_byte, kind_code, logical_digest, push_digest,
    record_fault, RecordView, SyncEntryKind, SyncRecord,
};
use crate::share::codec::{in_domain, push_number, push_sized, sized, varint, with_domain};
use crate::share::error::{ShareError, ShareFault};
use crate::share::identity::{
    ed25519_accepts, public_id, signed_by, EndpointId, GrantNonce, PermissionEpoch, SecretKey,
    ShareId, Signature, SnapshotId,
};
use crate::share::roster::saturated;
use crate::table::{Keyed, Measured};
use crate::version::{listed, lemma_listed, VersionEntry};

verus! {

/// The version of everything that is signed here.
pub const AUTHORITY_VERSION: u8 = 1;

/// How long a snapshot token holds.
pub const MAX_SNAPSHOT_TTL_SECONDS: u64 = 90;

/// How long a manifest attestation holds.
pub const MAX_MANIFEST_TTL_SECONDS: u64 = 90;

/// How long a grant can be activated.
pub const MAX_GRANT_TTL_SECONDS: u64 = 120;

/// How long an apply permit can be started.
pub const MAX_APPLY_TTL_SECONDS: u64 = 10;

/// How long an activation holds.
pub const MAX_ACTIVATE_TTL_SECONDS: u16 = 15;

/// The most chunks in one request.
pub const MAX_REQUEST_HASHES: usize = 64;

/// The most records in a snapshot.
pub const MAX_SNAPSHOT_RECORDS: usize = 1_000_000;

/// The largest byte form of anything that is signed or kept here.
pub const MAX_AUTHORITY_FRAME_BYTES: usize = 16_777_216;

/// How far a clock may run ahead.
pub const MAX_CLOCK_SKEW_SECONDS: u64 = 5;

/// The owner's word on what a share holds.
#[derive(Clone, Copy, Debug, Eq)]
pub struct SnapshotToken {
    pub version: u8,
    pub owner: EndpointId,
    pub share: ShareId,
    pub epoch: PermissionEpoch,
    pub snapshot: SnapshotId,
    pub root_hash: Hash32,
    pub record_count: u32,
    pub issued_at: u64,
    pub expires_at: u64,
    pub signature: Signature,
}

impl PartialEq for SnapshotToken {
    fn eq(&self, other: &Self) -> (same: bool) {
        self.version == other.version && self.owner == other.owner && self.share == other.share
            && self.epoch == other.epoch && same_array(&self.snapshot, &other.snapshot)
            && self.root_hash == other.root_hash && self.record_count == other.record_count
            && self.issued_at == other.issued_at && self.expires_at == other.expires_at
            && self.signature == other.signature
    }
}

impl vstd::std_specs::cmp::PartialEqSpecImpl for SnapshotToken {
    open spec fn obeys_eq_spec() -> bool {
        true
    }

    open spec fn eq_spec(&self, other: &Self) -> bool {
        *self == *other
    }
}

/// A snapshot token with the records that it speaks of.
#[derive(Debug, PartialEq, Eq)]
pub struct AuthoritativeSnapshot {
    pub token: SnapshotToken,
    pub records: Vec<SyncRecord>,
}

/// What a complete snapshot says.
#[verifier::ext_equal]
pub struct SnapshotView {
    pub token: SnapshotToken,
    pub records: Seq<RecordView>,
}

impl View for AuthoritativeSnapshot {
    type V = SnapshotView;

    open spec fn view(&self) -> SnapshotView {
        SnapshotView { token: self.token, records: views(self.records@) }
    }
}

impl Keyed for AuthoritativeSnapshot {
    open spec fn key(&self) -> Seq<u8> {
        self.token.snapshot@
    }

    fn key_bytes(&self) -> (bytes: &[u8]) {
        self.token.snapshot.as_slice()
    }
}

/// The owner's word that a record of a snapshot has a manifest.
#[derive(Debug, PartialEq, Eq)]
pub struct ManifestAttestation {
    pub version: u8,
    pub owner: EndpointId,
    pub share: ShareId,
    pub epoch: PermissionEpoch,
    pub snapshot: SnapshotId,
    pub record_hash: Hash32,
    pub manifest: FileManifest,
    pub manifest_hash: Hash32,
    pub issued_at: u64,
    pub expires_at: u64,
    pub signature: Signature,
}

/// What an attestation says.
#[verifier::ext_equal]
pub struct AttestationView {
    pub version: u8,
    pub owner: EndpointId,
    pub share: ShareId,
    pub epoch: PermissionEpoch,
    pub snapshot: SnapshotId,
    pub record_hash: Hash32,
    pub manifest: ManifestView,
    pub manifest_hash: Hash32,
    pub issued_at: u64,
    pub expires_at: u64,
    pub signature: Signature,
}

impl View for ManifestAttestation {
    type V = AttestationView;

    open spec fn view(&self) -> AttestationView {
        AttestationView {
            version: self.version,
            owner: self.owner,
            share: self.share,
            epoch: self.epoch,
            snapshot: self.snapshot,
            record_hash: self.record_hash,
            manifest: self.manifest@,
            manifest_hash: self.manifest_hash,
            issued_at: self.issued_at,
            expires_at: self.expires_at,
            signature: self.signature,
        }
    }
}

impl Clone for ManifestAttestation {
    fn clone(&self) -> (copy: Self)
        ensures
            copy@ == self@,
    {
        ManifestAttestation {
            version: self.version,
            owner: self.owner,
            share: self.share,
            epoch: self.epoch,
            snapshot: self.snapshot,
            record_hash: self.record_hash,
            manifest: self.manifest.clone(),
            manifest_hash: self.manifest_hash,
            issued_at: self.issued_at,
            expires_at: self.expires_at,
            signature: self.signature,
        }
    }
}

/// The owner's leave for one member to fetch some chunks from one provider.
#[derive(Clone, Copy, Debug, Eq)]
pub struct ShareGrant {
    pub version: u8,
    pub owner: EndpointId,
    pub share: ShareId,
    pub consumer: EndpointId,
    pub provider: EndpointId,
    pub epoch: PermissionEpoch,
    pub provider_epoch: PermissionEpoch,
    pub snapshot: SnapshotId,
    pub manifest: Hash32,
    pub request_hash: Hash32,
    pub issued_at: u64,
    pub expires_at: u64,
    pub nonce: GrantNonce,
    pub signature: Signature,
}

impl PartialEq for ShareGrant {
    fn eq(&self, other: &Self) -> (same: bool) {
        self.version == other.version && self.owner == other.owner && self.share == other.share
            && self.consumer == other.consumer && self.provider == other.provider
            && self.epoch == other.epoch && self.provider_epoch == other.provider_epoch
            && same_array(&self.snapshot, &other.snapshot) && self.manifest == other.manifest
            && self.request_hash == other.request_hash && self.issued_at == other.issued_at
            && self.expires_at == other.expires_at && same_array(&self.nonce, &other.nonce)
            && self.signature == other.signature
    }
}

impl vstd::std_specs::cmp::PartialEqSpecImpl for ShareGrant {
    open spec fn obeys_eq_spec() -> bool {
        true
    }

    open spec fn eq_spec(&self, other: &Self) -> bool {
        *self == *other
    }
}

/// A provider's request to activate a grant.
#[derive(Clone, Copy, Debug, Eq)]
pub struct ActivateGrantRequest {
    pub owner: EndpointId,
    pub share: ShareId,
    pub consumer: EndpointId,
    pub provider: EndpointId,
    pub epoch: PermissionEpoch,
    pub provider_epoch: PermissionEpoch,
    pub manifest: Hash32,
    pub request_hash: Hash32,
    pub nonce: GrantNonce,
}

impl PartialEq for ActivateGrantRequest {
    fn eq(&self, other: &Self) -> (same: bool) {
        self.owner == other.owner && self.share == other.share
            && self.consumer == other.consumer && self.provider == other.provider
            && self.epoch == other.epoch && self.provider_epoch == other.provider_epoch
            && self.manifest == other.manifest && self.request_hash == other.request_hash
            && same_array(&self.nonce, &other.nonce)
    }
}

impl vstd::std_specs::cmp::PartialEqSpecImpl for ActivateGrantRequest {
    open spec fn obeys_eq_spec() -> bool {
        true
    }

    open spec fn eq_spec(&self, other: &Self) -> bool {
        *self == *other
    }
}

/// The owner's reply to an activation.
#[derive(Clone, Copy, Debug, Eq)]
pub struct ActivateGrantReply {
    pub share: ShareId,
    pub provider: EndpointId,
    pub nonce: GrantNonce,
    pub activation_id: [u8; 16],
    pub accepted: bool,
    pub max_duration_secs: u16,
    pub signature: Signature,
}

impl PartialEq for ActivateGrantReply {
    fn eq(&self, other: &Self) -> (same: bool) {
        self.share == other.share && self.provider == other.provider
            && same_array(&self.nonce, &other.nonce)
            && same_array(&self.activation_id, &other.activation_id)
            && self.accepted == other.accepted
            && self.max_duration_secs == other.max_duration_secs
            && self.signature == other.signature
    }
}

impl vstd::std_specs::cmp::PartialEqSpecImpl for ActivateGrantReply {
    open spec fn obeys_eq_spec() -> bool {
        true
    }

    open spec fn eq_spec(&self, other: &Self) -> bool {
        *self == *other
    }
}

/// The owner's leave for one member to apply a snapshot.
#[derive(Clone, Copy, Debug, Eq)]
pub struct ApplyPermit {
    pub version: u8,
    pub owner: EndpointId,
    pub share: ShareId,
    pub consumer: EndpointId,
    pub epoch: PermissionEpoch,
    pub snapshot: SnapshotId,
    pub root_hash: Hash32,
    pub issued_at: u64,
    pub expires_at: u64,
    pub nonce: GrantNonce,
    pub signature: Signature,
}

impl PartialEq for ApplyPermit {
    fn eq(&self, other: &Self) -> (same: bool) {
        self.version == other.version && self.owner == other.owner && self.share == other.share
            && self.consumer == other.consumer && self.epoch == other.epoch
            && same_array(&self.snapshot, &other.snapshot) && self.root_hash == other.root_hash
            && self.issued_at == other.issued_at && self.expires_at == other.expires_at
            && same_array(&self.nonce, &other.nonce) && self.signature == other.signature
    }
}

impl vstd::std_specs::cmp::PartialEqSpecImpl for ApplyPermit {
    open spec fn obeys_eq_spec() -> bool {
        true
    }

    open spec fn eq_spec(&self, other: &Self) -> bool {
        *self == *other
    }
}

/// A member starts to apply under a permit.
#[derive(Clone, Copy, Debug, PartialEq, Eq)]
pub struct ApplyStart {
    pub operation_id: [u8; 16],
    pub permit_nonce: GrantNonce,
}

/// A member has stopped to write under a permit.
#[derive(Clone, Copy, Debug, PartialEq, Eq)]
pub struct ApplyDrained {
    pub operation_id: [u8; 16],
    pub permit_nonce: GrantNonce,
    pub committed: bool,
}

/// How far a revocation has come.
#[derive(Clone, Copy, Debug, PartialEq, Eq, Structural)]
pub enum RevocationReceipt {
    Complete { member_epoch: PermissionEpoch, completed_at: u64 },
    Pending { member_epoch: PermissionEpoch, deadline: u64, blockers: u32 },
}

/// What ties a question about a grant to that grant.
#[derive(Clone, Copy, Debug, Eq)]
pub struct ActivationBinding {
    pub owner: EndpointId,
    pub share: ShareId,
    pub consumer: EndpointId,
    pub provider: EndpointId,
    pub epoch: PermissionEpoch,
    pub provider_epoch: PermissionEpoch,
    pub snapshot: SnapshotId,
    pub manifest: Hash32,
    pub request_hash: Hash32,
    pub nonce: GrantNonce,
}

impl PartialEq for ActivationBinding {
    fn eq(&self, other: &Self) -> (same: bool) {
        self.owner == other.owner && self.share == other.share
            && self.consumer == other.consumer && self.provider == other.provider
            && self.epoch == other.epoch && self.provider_epoch == other.provider_epoch
            && same_array(&self.snapshot, &other.snapshot) && self.manifest == other.manifest
            && self.request_hash == other.request_hash && same_array(&self.nonce, &other.nonce)
    }
}

impl vstd::std_specs::cmp::PartialEqSpecImpl for ActivationBinding {
    open spec fn obeys_eq_spec() -> bool {
        true
    }

    open spec fn eq_spec(&self, other: &Self) -> bool {
        *self == *other
    }
}

/// Asks how far a grant has come.
#[derive(Clone, Copy, Debug, PartialEq, Eq)]
pub struct ActivationStatusQuery {
    pub binding: ActivationBinding,
    pub activation_id: Option<[u8; 16]>,
}

/// Asks that a grant be not activated any more.
#[derive(Clone, Copy, Debug, PartialEq, Eq)]
pub struct ActivationCancel {
    pub binding: ActivationBinding,
    pub activation_id: Option<[u8; 16]>,
    pub operation_id: [u8; 16],
}

/// How far a grant has come, as a peer is told.
#[derive(Clone, Copy, Debug, PartialEq, Eq, Structural)]
pub enum ActivationStateView {
    Issued,
    Active,
    Restarted,
    Drained,
    Denied,
    Expired,
}

/// The answer about a grant.
#[derive(Clone, Copy, Debug, PartialEq, Eq)]
pub struct ActivationReceipt {
    pub binding: ActivationBinding,
    pub state: ActivationStateView,
    pub activation_id: Option<[u8; 16]>,
    pub activation_deadline: Option<u64>,
    pub revoked: bool,
    pub provider_drained: bool,
    pub consumer_drained: bool,
    pub admission_open: bool,
}

/// Asks how far an apply has come.
#[derive(Clone, Copy, Debug, PartialEq, Eq)]
pub struct ApplyStatusQuery {
    pub owner: EndpointId,
    pub share: ShareId,
    pub consumer: EndpointId,
    pub permit_nonce: GrantNonce,
    pub operation_id: Option<[u8; 16]>,
}

/// Asks that an apply be not started any more.
#[derive(Clone, Copy, Debug, PartialEq, Eq)]
pub struct ApplyCancel {
    pub owner: EndpointId,
    pub share: ShareId,
    pub consumer: EndpointId,
    pub permit_nonce: GrantNonce,
    pub operation_id: [u8; 16],
}

/// How far an apply has come, as a peer is told.
#[derive(Clone, Copy, Debug, PartialEq, Eq, Structural)]
pub enum ApplyStateView {
    Prepared,
    Started,
    Restarted,
    Drained,
    Denied,
    Expired,
}

/// The answer about an apply.
#[derive(Clone, Copy, Debug, PartialEq, Eq)]
pub struct ApplyReceipt {
    pub owner: EndpointId,
    pub share: ShareId,
    pub consumer: EndpointId,
    pub permit_nonce: GrantNonce,
    pub operation_id: Option<[u8; 16]>,
    pub state: ApplyStateView,
    pub committed: bool,
    pub revoked: bool,
    pub admission_open: bool,
}

/// The side of a grant that a device is on.
#[derive(Clone, Copy, Debug, PartialEq, Eq, Structural)]
pub enum ClientSide {
    Consumer,
    Provider,
}

/// How far a device has come with its side of a grant.
#[derive(Clone, Copy, Debug, PartialEq, Eq, Structural)]
pub enum ClientIntentPhase {
    Prepared,
    AwaitingActivation,
    Active,
    Draining,
    Drained,
    Unknown,
    Cancelled,
}

/// What a device has written down of its side of a grant.
#[derive(Clone, Copy, Debug, PartialEq, Eq)]
pub struct ClientIntentRow {
    pub grant: ShareGrant,
    pub binding: ActivationBinding,
    pub side: ClientSide,
    pub activation_id: Option<[u8; 16]>,
    pub operation_id: [u8; 16],
    pub phase: ClientIntentPhase,
    pub boot_id: [u8; 16],
    pub started_at_wall: u64,
    pub terminal_at_wall: Option<u64>,
}

impl Keyed for ClientIntentRow {
    open spec fn key(&self) -> Seq<u8> {
        self.grant.nonce@
    }

    fn key_bytes(&self) -> (bytes: &[u8]) {
        self.grant.nonce.as_slice()
    }
}

/// Whether an optional identifier is the given one.
pub fn is_id(held: &Option<[u8; 16]>, id: &[u8; 16]) -> (same: bool)
    ensures
        same == (*held == Some(*id)),
{
    match held {
        Some(held) => same_array(held, id),
        None => false,
    }
}

/// What ties a question to a grant.
pub open spec fn binding_of(grant: ShareGrant) -> ActivationBinding {
    ActivationBinding {
        owner: grant.owner,
        share: grant.share,
        consumer: grant.consumer,
        provider: grant.provider,
        epoch: grant.epoch,
        provider_epoch: grant.provider_epoch,
        snapshot: grant.snapshot,
        manifest: grant.manifest,
        request_hash: grant.request_hash,
        nonce: grant.nonce,
    }
}

impl ActivationBinding {
    /// What ties a question to a grant.
    pub fn from_grant(grant: &ShareGrant) -> (binding: Self)
        ensures
            binding == binding_of(*grant),
    {
        ActivationBinding {
            owner: grant.owner,
            share: grant.share,
            consumer: grant.consumer,
            provider: grant.provider,
            epoch: grant.epoch,
            provider_epoch: grant.provider_epoch,
            snapshot: grant.snapshot,
            manifest: grant.manifest,
            request_hash: grant.request_hash,
            nonce: grant.nonce,
        }
    }
}

impl ActivationStatusQuery {
    /// Asks how far a grant has come.
    pub fn for_grant(grant: &ShareGrant, activation_id: Option<[u8; 16]>) -> (query: Self)
        ensures
            query == (ActivationStatusQuery { binding: binding_of(*grant), activation_id }),
    {
        ActivationStatusQuery { binding: ActivationBinding::from_grant(grant), activation_id }
    }
}

impl ActivationCancel {
    /// Asks that a grant be not activated any more.
    pub fn for_grant(
        grant: &ShareGrant,
        activation_id: Option<[u8; 16]>,
        operation_id: [u8; 16],
    ) -> (cancel: Self)
        ensures
            cancel == (ActivationCancel {
                binding: binding_of(*grant),
                activation_id,
                operation_id,
            }),
    {
        ActivationCancel {
            binding: ActivationBinding::from_grant(grant),
            activation_id,
            operation_id,
        }
    }
}

impl ApplyStatusQuery {
    /// Asks how far an apply has come.
    pub fn for_permit(permit: &ApplyPermit, operation_id: Option<[u8; 16]>) -> (query: Self)
        ensures
            query == (ApplyStatusQuery {
                owner: permit.owner,
                share: permit.share,
                consumer: permit.consumer,
                permit_nonce: permit.nonce,
                operation_id,
            }),
    {
        ApplyStatusQuery {
            owner: permit.owner,
            share: permit.share,
            consumer: permit.consumer,
            permit_nonce: permit.nonce,
            operation_id,
        }
    }
}

impl ApplyCancel {
    /// Asks that an apply be not started any more.
    pub fn for_permit(permit: &ApplyPermit, operation_id: [u8; 16]) -> (cancel: Self)
        ensures
            cancel == (ApplyCancel {
                owner: permit.owner,
                share: permit.share,
                consumer: permit.consumer,
                permit_nonce: permit.nonce,
                operation_id,
            }),
    {
        ApplyCancel {
            owner: permit.owner,
            share: permit.share,
            consumer: permit.consumer,
            permit_nonce: permit.nonce,
            operation_id,
        }
    }
}

/// The lifetime ends behind its start, and not by more than a maximum.
pub open spec fn lifetime_holds(issued_at: u64, maximum: u64, expires_at: u64) -> bool {
    expires_at > issued_at && expires_at - issued_at <= maximum
}

fn max_expiry(issued_at: u64, maximum: u64, expires_at: u64) -> (holds: bool)
    ensures
        holds == lifetime_holds(issued_at, maximum, expires_at),
{
    expires_at > issued_at && expires_at - issued_at <= maximum
}

/// Why something that was issued and expires at given times is not taken now.
pub open spec fn timing_fault(issued_at: u64, expires_at: u64, now: u64) -> Option<ShareError> {
    if issued_at > saturated(now, MAX_CLOCK_SKEW_SECONDS) {
        Some(ShareError::ClockRollback)
    } else if expires_at <= now {
        Some(ShareError::GrantExpired)
    } else {
        None
    }
}

fn check_timing(issued_at: u64, expires_at: u64, now: u64) -> (result: Result<(), ShareError>)
    ensures
        match result {
            Ok(()) => timing_fault(issued_at, expires_at, now) is None,
            Err(error) => timing_fault(issued_at, expires_at, now) == Some(error),
        },
{
    if issued_at > now.saturating_add(MAX_CLOCK_SKEW_SECONDS) {
        return Err(ShareError::ClockRollback);
    }
    if expires_at <= now {
        return Err(ShareError::GrantExpired);
    }
    Ok(())
}

/// What of a snapshot token is signed.
pub open spec fn token_payload(token: SnapshotToken) -> Seq<u8> {
    seq![token.version] + token.owner@ + token.share@ + varint(token.epoch as nat)
        + token.snapshot@ + token.root_hash@ + varint(token.record_count as nat) + varint(
        token.issued_at as nat,
    ) + varint(token.expires_at as nat)
}

/// The message of a snapshot token.
pub open spec fn token_message(token: SnapshotToken) -> Seq<u8> {
    in_domain("deltaweave/share-snapshot/v1"@, token_payload(token))
}

/// What is wrong with the shape of a snapshot token.
pub open spec fn token_shape_fault(token: SnapshotToken) -> Option<ShareError> {
    if token.version != AUTHORITY_VERSION {
        Some(ShareError::UnsupportedVersion)
    } else if token.epoch == 0 {
        Some(ShareError::EpochMismatch)
    } else if token.record_count > MAX_SNAPSHOT_RECORDS {
        Some(ShareError::Busy)
    } else if !lifetime_holds(token.issued_at, MAX_SNAPSHOT_TTL_SECONDS, token.expires_at) {
        Some(ShareError::Protocol)
    } else if token_payload(token).len() + 64 > MAX_AUTHORITY_FRAME_BYTES {
        Some(ShareError::Protocol)
    } else {
        None
    }
}

/// Why a snapshot token is not taken for an owner's share.
pub open spec fn token_fault(
    token: SnapshotToken,
    owner: EndpointId,
    share: ShareId,
    now: u64,
) -> Option<ShareError> {
    if token.owner != owner || token.share != share {
        Some(ShareError::OwnerMismatch)
    } else if token_shape_fault(token) is Some {
        token_shape_fault(token)
    } else if !ed25519_accepts(token.owner@, token_message(token), token.signature@) {
        Some(ShareError::Protocol)
    } else {
        timing_fault(token.issued_at, token.expires_at, now)
    }
}

/// The snapshot token that an owner signs.
pub open spec fn signed_token(
    secret: Seq<u8>,
    share: ShareId,
    epoch: PermissionEpoch,
    snapshot: SnapshotId,
    root_hash: Hash32,
    record_count: u32,
    issued_at: u64,
) -> SnapshotToken {
    let unsigned = SnapshotToken {
        version: AUTHORITY_VERSION,
        owner: public_id(secret),
        share,
        epoch,
        snapshot,
        root_hash,
        record_count,
        issued_at,
        expires_at: saturated(issued_at, MAX_SNAPSHOT_TTL_SECONDS),
        signature: arbitrary(),
    };
    SnapshotToken { signature: signed_by(secret, token_message(unsigned)), ..unsigned }
}

impl SnapshotToken {
    fn payload(&self) -> (bytes: Vec<u8>)
        ensures
            bytes@ == token_payload(*self),
    {
        let mut bytes: Vec<u8> = Vec::new();
        bytes.push(self.version);
        push_bytes(&mut bytes, self.owner.bytes.as_slice());
        push_bytes(&mut bytes, self.share.0.as_slice());
        push_number(&mut bytes, self.epoch);
        push_bytes(&mut bytes, self.snapshot.as_slice());
        push_bytes(&mut bytes, self.root_hash.bytes.as_slice());
        push_number(&mut bytes, self.record_count as u64);
        push_number(&mut bytes, self.issued_at);
        push_number(&mut bytes, self.expires_at);
        assert(bytes@ =~= token_payload(*self));
        bytes
    }

    fn message(&self) -> (bytes: Vec<u8>)
        ensures
            bytes@ == token_message(*self),
    {
        with_domain("deltaweave/share-snapshot/v1", self.payload().as_slice())
    }

    /// Signs a snapshot token.
    pub fn sign(
        key: &SecretKey,
        share: ShareId,
        epoch: PermissionEpoch,
        snapshot: SnapshotId,
        root_hash: Hash32,
        record_count: usize,
        issued_at: u64,
    ) -> (token: Result<Self, ShareError>)
        ensures
            ({
                let made = signed_token(
                    key@,
                    share,
                    epoch,
                    snapshot,
                    root_hash,
                    record_count as u32,
                    issued_at,
                );
                match token {
                    Ok(token) => record_count <= u32::MAX && token == made
                        && token_shape_fault(made)
                        is None && ed25519_accepts(made.owner@, token_message(made), made.signature@),
                    Err(error) => if record_count > u32::MAX {
                        error == ShareError::Busy
                    } else {
                        token_shape_fault(made) == Some(error)
                    },
                }
            }),
    {
        if record_count as u64 > u32::MAX as u64 {
            return Err(ShareError::Busy);
        }
        let unsigned = SnapshotToken {
            version: AUTHORITY_VERSION,
            owner: key.public(),
            share,
            epoch,
            snapshot,
            root_hash,
            record_count: record_count as u32,
            issued_at,
            expires_at: issued_at.saturating_add(MAX_SNAPSHOT_TTL_SECONDS),
            signature: Signature { bytes: [0u8; 64] },
        };
        let token = SnapshotToken { signature: key.sign(unsigned.message().as_slice()), ..unsigned };
        assert(token_message(token) == token_message(unsigned));
        match token.validate_shape() {
            Ok(()) => Ok(token),
            Err(error) => Err(error),
        }
    }

    fn validate_shape(&self) -> (result: Result<(), ShareError>)
        ensures
            match result {
                Ok(()) => token_shape_fault(*self) is None,
                Err(error) => token_shape_fault(*self) == Some(error),
            },
    {
        if self.version != AUTHORITY_VERSION {
            return Err(ShareError::UnsupportedVersion);
        }
        if self.epoch == 0 {
            return Err(ShareError::EpochMismatch);
        }
        if self.record_count as usize > MAX_SNAPSHOT_RECORDS {
            return Err(ShareError::Busy);
        }
        if !max_expiry(self.issued_at, MAX_SNAPSHOT_TTL_SECONDS, self.expires_at) {
            return Err(ShareError::Protocol);
        }
        if self.payload().len() > MAX_AUTHORITY_FRAME_BYTES - 64 {
            return Err(ShareError::Protocol);
        }
        Ok(())
    }

    /// Checks the token for an owner's share at a time.
    pub fn verify_for(&self, owner: EndpointId, share: ShareId, now: u64) -> (result: Result<
        (),
        ShareError,
    >)
        ensures
            match result {
                Ok(()) => token_fault(*self, owner, share, now) is None,
                Err(error) => token_fault(*self, owner, share, now) == Some(error),
            },
    {
        if self.owner != owner || self.share != share {
            return Err(ShareError::OwnerMismatch);
        }
        match self.validate_shape() {
            Ok(()) => {},
            Err(error) => {
                return Err(error);
            },
        }
        if !self.owner.verify(self.message().as_slice(), &self.signature) {
            return Err(ShareError::Protocol);
        }
        check_timing(self.issued_at, self.expires_at, now)
    }
}

/// What of a grant is signed.
pub open spec fn grant_payload(grant: ShareGrant) -> Seq<u8> {
    seq![grant.version] + grant.owner@ + grant.share@ + grant.consumer@ + grant.provider@ + varint(
        grant.epoch as nat,
    ) + varint(grant.provider_epoch as nat) + grant.snapshot@ + grant.manifest@
        + grant.request_hash@ + varint(grant.issued_at as nat) + varint(grant.expires_at as nat)
        + grant.nonce@
}

/// The message of a grant.
pub open spec fn grant_message(grant: ShareGrant) -> Seq<u8> {
    in_domain("deltaweave/share-grant/v1"@, grant_payload(grant))
}

/// What is wrong with the shape of a grant.
pub open spec fn grant_shape_fault(grant: ShareGrant) -> Option<ShareError> {
    if grant.version != AUTHORITY_VERSION {
        Some(ShareError::UnsupportedVersion)
    } else if grant.owner == grant.consumer || grant.consumer == grant.provider {
        Some(ShareError::EndpointMismatch)
    } else if grant.epoch == 0 {
        Some(ShareError::EpochMismatch)
    } else if !lifetime_holds(grant.issued_at, MAX_GRANT_TTL_SECONDS, grant.expires_at) {
        Some(ShareError::Protocol)
    } else if grant_payload(grant).len() + 64 > MAX_AUTHORITY_FRAME_BYTES {
        Some(ShareError::Protocol)
    } else {
        None
    }
}

/// Why a grant is not one of an owner's share, whatever the time.
pub open spec fn grant_signature_fault(
    grant: ShareGrant,
    owner: EndpointId,
    share: ShareId,
) -> Option<ShareError> {
    if grant.owner != owner || grant.share != share {
        Some(ShareError::OwnerMismatch)
    } else if grant_shape_fault(grant) is Some {
        grant_shape_fault(grant)
    } else if !ed25519_accepts(grant.owner@, grant_message(grant), grant.signature@) {
        Some(ShareError::Protocol)
    } else {
        None
    }
}

/// Why a grant is not taken for an owner's share.
pub open spec fn grant_fault(
    grant: ShareGrant,
    owner: EndpointId,
    share: ShareId,
    now: u64,
) -> Option<ShareError> {
    if grant_signature_fault(grant, owner, share) is Some {
        grant_signature_fault(grant, owner, share)
    } else {
        timing_fault(grant.issued_at, grant.expires_at, now)
    }
}

/// The grant that an owner signs.
pub open spec fn signed_grant(
    secret: Seq<u8>,
    share: ShareId,
    consumer: EndpointId,
    provider: EndpointId,
    epoch: PermissionEpoch,
    provider_epoch: PermissionEpoch,
    snapshot: SnapshotId,
    manifest: Hash32,
    request_hash: Hash32,
    nonce: GrantNonce,
    issued_at: u64,
) -> ShareGrant {
    let unsigned = ShareGrant {
        version: AUTHORITY_VERSION,
        owner: public_id(secret),
        share,
        consumer,
        provider,
        epoch,
        provider_epoch,
        snapshot,
        manifest,
        request_hash,
        issued_at,
        expires_at: saturated(issued_at, MAX_GRANT_TTL_SECONDS),
        nonce,
        signature: arbitrary(),
    };
    ShareGrant { signature: signed_by(secret, grant_message(unsigned)), ..unsigned }
}

/// Why an owner does not sign a grant.
pub open spec fn grant_refusal(grant: ShareGrant) -> Option<ShareError> {
    if grant.consumer == grant.provider {
        Some(ShareError::EndpointMismatch)
    } else if grant.epoch == 0 {
        Some(ShareError::EpochMismatch)
    } else {
        grant_shape_fault(grant)
    }
}

/// The request to activate a grant.
pub open spec fn activation_of(grant: ShareGrant) -> ActivateGrantRequest {
    ActivateGrantRequest {
        owner: grant.owner,
        share: grant.share,
        consumer: grant.consumer,
        provider: grant.provider,
        epoch: grant.epoch,
        provider_epoch: grant.provider_epoch,
        manifest: grant.manifest,
        request_hash: grant.request_hash,
        nonce: grant.nonce,
    }
}

impl ShareGrant {
    /// What of the grant is signed.
    pub fn payload(&self) -> (bytes: Vec<u8>)
        ensures
            bytes@ == grant_payload(*self),
    {
        let mut bytes: Vec<u8> = Vec::new();
        bytes.push(self.version);
        push_bytes(&mut bytes, self.owner.bytes.as_slice());
        push_bytes(&mut bytes, self.share.0.as_slice());
        push_bytes(&mut bytes, self.consumer.bytes.as_slice());
        push_bytes(&mut bytes, self.provider.bytes.as_slice());
        push_number(&mut bytes, self.epoch);
        push_number(&mut bytes, self.provider_epoch);
        push_bytes(&mut bytes, self.snapshot.as_slice());
        push_bytes(&mut bytes, self.manifest.bytes.as_slice());
        push_bytes(&mut bytes, self.request_hash.bytes.as_slice());
        push_number(&mut bytes, self.issued_at);
        push_number(&mut bytes, self.expires_at);
        push_bytes(&mut bytes, self.nonce.as_slice());
        assert(bytes@ =~= grant_payload(*self));
        bytes
    }

    fn message(&self) -> (bytes: Vec<u8>)
        ensures
            bytes@ == grant_message(*self),
    {
        with_domain("deltaweave/share-grant/v1", self.payload().as_slice())
    }

    /// Signs a grant.
    pub fn sign(
        key: &SecretKey,
        share: ShareId,
        consumer: EndpointId,
        provider: EndpointId,
        epoch: PermissionEpoch,
        provider_epoch: PermissionEpoch,
        snapshot: SnapshotId,
        manifest: Hash32,
        request_hash: Hash32,
        nonce: GrantNonce,
        issued_at: u64,
    ) -> (grant: Result<Self, ShareError>)
        ensures
            ({
                let made = signed_grant(
                    key@,
                    share,
                    consumer,
                    provider,
                    epoch,
                    provider_epoch,
                    snapshot,
                    manifest,
                    request_hash,
                    nonce,
                    issued_at,
                );
                match grant {
                    Ok(grant) => grant == made && grant_refusal(made) is None
                        && grant_signature_fault(made, public_id(key@), share) is None,
                    Err(error) => grant_refusal(made) == Some(error),
                }
            }),
    {
        if consumer == provider {
            return Err(ShareError::EndpointMismatch);
        }
        if epoch == 0 {
            return Err(ShareError::EpochMismatch);
        }
        let unsigned = ShareGrant {
            version: AUTHORITY_VERSION,
            owner: key.public(),
            share,
            consumer,
            provider,
            epoch,
            provider_epoch,
            snapshot,
            manifest,
            request_hash,
            issued_at,
            expires_at: issued_at.saturating_add(MAX_GRANT_TTL_SECONDS),
            nonce,
            signature: Signature { bytes: [0u8; 64] },
        };
        let grant = ShareGrant { signature: key.sign(unsigned.message().as_slice()), ..unsigned };
        assert(grant_message(grant) == grant_message(unsigned));
        match grant.validate_shape() {
            Ok(()) => Ok(grant),
            Err(error) => Err(error),
        }
    }

    fn validate_shape(&self) -> (result: Result<(), ShareError>)
        ensures
            match result {
                Ok(()) => grant_shape_fault(*self) is None,
                Err(error) => grant_shape_fault(*self) == Some(error),
            },
    {
        if self.version != AUTHORITY_VERSION {
            return Err(ShareError::UnsupportedVersion);
        }
        if self.owner == self.consumer || self.consumer == self.provider {
            return Err(ShareError::EndpointMismatch);
        }
        if self.epoch == 0 {
            return Err(ShareError::EpochMismatch);
        }
        if !max_expiry(self.issued_at, MAX_GRANT_TTL_SECONDS, self.expires_at) {
            return Err(ShareError::Protocol);
        }
        if self.payload().len() > MAX_AUTHORITY_FRAME_BYTES - 64 {
            return Err(ShareError::Protocol);
        }
        Ok(())
    }

    /// Checks whose grant it is, whatever the time: recovery looks at grants that have expired.
    pub fn verify_signature_for(&self, owner: EndpointId, share: ShareId) -> (result: Result<
        (),
        ShareError,
    >)
        ensures
            match result {
                Ok(()) => grant_signature_fault(*self, owner, share) is None,
                Err(error) => grant_signature_fault(*self, owner, share) == Some(error),
            },
    {
        if self.owner != owner || self.share != share {
            return Err(ShareError::OwnerMismatch);
        }
        match self.validate_shape() {
            Ok(()) => {},
            Err(error) => {
                return Err(error);
            },
        }
        if !self.owner.verify(self.message().as_slice(), &self.signature) {
            return Err(ShareError::Protocol);
        }
        Ok(())
    }

    /// Checks the grant for an owner's share at a time.
    pub fn verify_for(&self, owner: EndpointId, share: ShareId, now: u64) -> (result: Result<
        (),
        ShareError,
    >)
        ensures
            match result {
                Ok(()) => grant_fault(*self, owner, share, now) is None,
                Err(error) => grant_fault(*self, owner, share, now) == Some(error),
            },
    {
        match self.verify_signature_for(owner, share) {
            Ok(()) => {},
            Err(error) => {
                return Err(error);
            },
        }
        check_timing(self.issued_at, self.expires_at, now)
    }

    /// The request to activate the grant.
    pub fn activate_request(&self) -> (request: ActivateGrantRequest)
        ensures
            request == activation_of(*self),
    {
        ActivateGrantRequest {
            owner: self.owner,
            share: self.share,
            consumer: self.consumer,
            provider: self.provider,
            epoch: self.epoch,
            provider_epoch: self.provider_epoch,
            manifest: self.manifest,
            request_hash: self.request_hash,
            nonce: self.nonce,
        }
    }
}

/// What of an activation request is signed.
pub open spec fn request_payload(request: ActivateGrantRequest) -> Seq<u8> {
    request.owner@ + request.share@ + request.consumer@ + request.provider@ + varint(
        request.epoch as nat,
    ) + varint(request.provider_epoch as nat) + request.manifest@ + request.request_hash@
        + request.nonce@
}

/// The message of an activation request.
pub open spec fn request_message(request: ActivateGrantRequest) -> Seq<u8> {
    in_domain("deltaweave/share-activate/v1"@, request_payload(request))
}

impl ActivateGrantRequest {
    /// Whether the request is the one that activates a grant.
    pub fn matches(&self, grant: &ShareGrant) -> (same: bool)
        ensures
            same == (*self == activation_of(*grant)),
    {
        *self == grant.activate_request()
    }

    fn message(&self) -> (bytes: Vec<u8>)
        ensures
            bytes@ == request_message(*self),
    {
        let mut bytes: Vec<u8> = Vec::new();
        push_bytes(&mut bytes, self.owner.bytes.as_slice());
        push_bytes(&mut bytes, self.share.0.as_slice());
        push_bytes(&mut bytes, self.consumer.bytes.as_slice());
        push_bytes(&mut bytes, self.provider.bytes.as_slice());
        push_number(&mut bytes, self.epoch);
        push_number(&mut bytes, self.provider_epoch);
        push_bytes(&mut bytes, self.manifest.bytes.as_slice());
        push_bytes(&mut bytes, self.request_hash.bytes.as_slice());
        push_bytes(&mut bytes, self.nonce.as_slice());
        assert(bytes@ =~= request_payload(*self));
        with_domain("deltaweave/share-activate/v1", bytes.as_slice())
    }

    /// Checks that the consumer has signed the request.
    pub fn verify_signature(&self, member: EndpointId, signature: &Signature) -> (result: Result<
        (),
        ShareError,
    >)
        ensures
            match result {
                Ok(()) => self.consumer == member && ed25519_accepts(
                    member@,
                    request_message(*self),
                    signature@,
                ),
                Err(error) => if self.consumer != member {
                    error == ShareError::EndpointMismatch
                } else {
                    error == ShareError::Protocol && !ed25519_accepts(
                        member@,
                        request_message(*self),
                        signature@,
                    )
                },
            },
    {
        if self.consumer != member {
            return Err(ShareError::EndpointMismatch);
        }
        if !member.verify(self.message().as_slice(), signature) {
            return Err(ShareError::Protocol);
        }
        Ok(())
    }
}

/// What of an activation reply is signed.
pub open spec fn reply_payload(reply: ActivateGrantReply) -> Seq<u8> {
    reply.share@ + reply.provider@ + reply.nonce@ + reply.activation_id@ + seq![
        flag_code(reply.accepted),
    ] + varint(reply.max_duration_secs as nat)
}

/// The message of an activation reply.
pub open spec fn reply_message(reply: ActivateGrantReply) -> Seq<u8> {
    in_domain("deltaweave/share-activate/v1"@, reply_payload(reply))
}

/// Why an activation reply is not taken for an owner's share.
pub open spec fn reply_fault(
    reply: ActivateGrantReply,
    owner: EndpointId,
    share: ShareId,
) -> Option<ShareError> {
    if reply.share != share {
        Some(ShareError::OwnerMismatch)
    } else if reply.max_duration_secs > MAX_ACTIVATE_TTL_SECONDS || !ed25519_accepts(
        owner@,
        reply_message(reply),
        reply.signature@,
    ) {
        Some(ShareError::Protocol)
    } else {
        None
    }
}

/// The activation reply that an owner signs.
pub open spec fn signed_reply(
    secret: Seq<u8>,
    share: ShareId,
    provider: EndpointId,
    nonce: GrantNonce,
    activation_id: [u8; 16],
    accepted: bool,
    max_duration_secs: u16,
) -> ActivateGrantReply {
    let unsigned = ActivateGrantReply {
        share,
        provider,
        nonce,
        activation_id,
        accepted,
        max_duration_secs,
        signature: arbitrary(),
    };
    ActivateGrantReply { signature: signed_by(secret, reply_message(unsigned)), ..unsigned }
}

impl ActivateGrantReply {
    fn message(&self) -> (bytes: Vec<u8>)
        ensures
            bytes@ == reply_message(*self),
    {
        let mut bytes: Vec<u8> = Vec::new();
        push_bytes(&mut bytes, self.share.0.as_slice());
        push_bytes(&mut bytes, self.provider.bytes.as_slice());
        push_bytes(&mut bytes, self.nonce.as_slice());
        push_bytes(&mut bytes, self.activation_id.as_slice());
        bytes.push(flag_byte(self.accepted));
        push_number(&mut bytes, self.max_duration_secs as u64);
        assert(bytes@ =~= reply_payload(*self));
        with_domain("deltaweave/share-activate/v1", bytes.as_slice())
    }

    /// Signs an activation reply.
    pub fn sign(
        key: &SecretKey,
        share: ShareId,
        provider: EndpointId,
        nonce: GrantNonce,
        activation_id: [u8; 16],
        accepted: bool,
        max_duration_secs: u16,
    ) -> (reply: Result<Self, ShareError>)
        ensures
            match reply {
                Ok(reply) => max_duration_secs <= MAX_ACTIVATE_TTL_SECONDS && reply == signed_reply(
                    key@,
                    share,
                    provider,
                    nonce,
                    activation_id,
                    accepted,
                    max_duration_secs,
                ) && reply_fault(reply, public_id(key@), share) is None,
                Err(error) => max_duration_secs > MAX_ACTIVATE_TTL_SECONDS && error
                    == ShareError::Protocol,
            },
    {
        if max_duration_secs > MAX_ACTIVATE_TTL_SECONDS {
            return Err(ShareError::Protocol);
        }
        let unsigned = ActivateGrantReply {
            share,
            provider,
            nonce,
            activation_id,
            accepted,
            max_duration_secs,
            signature: Signature { bytes: [0u8; 64] },
        };
        let reply = ActivateGrantReply {
            signature: key.sign(unsigned.message().as_slice()),
            ..unsigned
        };
        assert(reply_message(reply) == reply_message(unsigned));
        let id = key.public();
        assert(id@ == public_id(key@)@);
        Ok(reply)
    }

    /// Checks the reply for an owner's share.
    pub fn verify_for(&self, owner: EndpointId, share: ShareId) -> (result: Result<
        (),
        ShareError,
    >)
        ensures
            match result {
                Ok(()) => reply_fault(*self, owner, share) is None,
                Err(error) => reply_fault(*self, owner, share) == Some(error),
            },
    {
        if self.share != share {
            return Err(ShareError::OwnerMismatch);
        }
        if self.max_duration_secs > MAX_ACTIVATE_TTL_SECONDS {
            return Err(ShareError::Protocol);
        }
        if !owner.verify(self.message().as_slice(), &self.signature) {
            return Err(ShareError::Protocol);
        }
        Ok(())
    }
}

/// What of an apply permit is signed.
pub open spec fn permit_payload(permit: ApplyPermit) -> Seq<u8> {
    seq![permit.version] + permit.owner@ + permit.share@ + permit.consumer@ + varint(
        permit.epoch as nat,
    ) + permit.snapshot@ + permit.root_hash@ + varint(permit.issued_at as nat) + varint(
        permit.expires_at as nat,
    ) + permit.nonce@
}

/// The message of an apply permit.
pub open spec fn permit_message(permit: ApplyPermit) -> Seq<u8> {
    in_domain("deltaweave/share-apply/v1"@, permit_payload(permit))
}

/// What is wrong with the shape of an apply permit.
pub open spec fn permit_shape_fault(permit: ApplyPermit) -> Option<ShareError> {
    if permit.version != AUTHORITY_VERSION {
        Some(ShareError::UnsupportedVersion)
    } else if permit.epoch == 0 {
        Some(ShareError::EpochMismatch)
    } else if !lifetime_holds(permit.issued_at, MAX_APPLY_TTL_SECONDS, permit.expires_at) {
        Some(ShareError::Protocol)
    } else if permit_payload(permit).len() + 64 > MAX_AUTHORITY_FRAME_BYTES {
        Some(ShareError::Protocol)
    } else {
        None
    }
}

/// Why an apply permit is not one of an owner's share for a member, whatever the time.
pub open spec fn permit_signature_fault(
    permit: ApplyPermit,
    owner: EndpointId,
    share: ShareId,
    consumer: EndpointId,
) -> Option<ShareError> {
    if permit.owner != owner || permit.share != share {
        Some(ShareError::OwnerMismatch)
    } else if permit.consumer != consumer {
        Some(ShareError::EndpointMismatch)
    } else if permit_shape_fault(permit) is Some {
        permit_shape_fault(permit)
    } else if !ed25519_accepts(permit.owner@, permit_message(permit), permit.signature@) {
        Some(ShareError::Protocol)
    } else {
        None
    }
}

/// Why an apply permit is not taken for an owner's share and a member.
pub open spec fn permit_fault(
    permit: ApplyPermit,
    owner: EndpointId,
    share: ShareId,
    consumer: EndpointId,
    now: u64,
) -> Option<ShareError> {
    if permit_signature_fault(permit, owner, share, consumer) is Some {
        permit_signature_fault(permit, owner, share, consumer)
    } else {
        timing_fault(permit.issued_at, permit.expires_at, now)
    }
}

/// The apply permit that an owner signs.
pub open spec fn signed_permit(
    secret: Seq<u8>,
    share: ShareId,
    consumer: EndpointId,
    epoch: PermissionEpoch,
    snapshot: SnapshotId,
    root_hash: Hash32,
    issued_at: u64,
    nonce: GrantNonce,
) -> ApplyPermit {
    let unsigned = ApplyPermit {
        version: AUTHORITY_VERSION,
        owner: public_id(secret),
        share,
        consumer,
        epoch,
        snapshot,
        root_hash,
        issued_at,
        expires_at: saturated(issued_at, MAX_APPLY_TTL_SECONDS),
        nonce,
        signature: arbitrary(),
    };
    ApplyPermit { signature: signed_by(secret, permit_message(unsigned)), ..unsigned }
}

impl ApplyPermit {
    /// What of the permit is signed.
    pub fn payload(&self) -> (bytes: Vec<u8>)
        ensures
            bytes@ == permit_payload(*self),
    {
        let mut bytes: Vec<u8> = Vec::new();
        bytes.push(self.version);
        push_bytes(&mut bytes, self.owner.bytes.as_slice());
        push_bytes(&mut bytes, self.share.0.as_slice());
        push_bytes(&mut bytes, self.consumer.bytes.as_slice());
        push_number(&mut bytes, self.epoch);
        push_bytes(&mut bytes, self.snapshot.as_slice());
        push_bytes(&mut bytes, self.root_hash.bytes.as_slice());
        push_number(&mut bytes, self.issued_at);
        push_number(&mut bytes, self.expires_at);
        push_bytes(&mut bytes, self.nonce.as_slice());
        assert(bytes@ =~= permit_payload(*self));
        bytes
    }

    fn message(&self) -> (bytes: Vec<u8>)
        ensures
            bytes@ == permit_message(*self),
    {
        with_domain("deltaweave/share-apply/v1", self.payload().as_slice())
    }

    /// Signs an apply permit.
    pub fn sign(
        key: &SecretKey,
        share: ShareId,
        consumer: EndpointId,
        epoch: PermissionEpoch,
        snapshot: SnapshotId,
        root_hash: Hash32,
        issued_at: u64,
        nonce: GrantNonce,
    ) -> (permit: Result<Self, ShareError>)
        ensures
            ({
                let made = signed_permit(
                    key@,
                    share,
                    consumer,
                    epoch,
                    snapshot,
                    root_hash,
                    issued_at,
                    nonce,
                );
                match permit {
                    Ok(permit) => permit == made && permit_signature_fault(
                        made,
                        public_id(key@),
                        share,
                        consumer,
                    ) is None,
                    Err(error) => permit_shape_fault(made) == Some(error),
                }
            }),
    {
        let unsigned = ApplyPermit {
            version: AUTHORITY_VERSION,
            owner: key.public(),
            share,
            consumer,
            epoch,
            snapshot,
            root_hash,
            issued_at,
            expires_at: issued_at.saturating_add(MAX_APPLY_TTL_SECONDS),
            nonce,
            signature: Signature { bytes: [0u8; 64] },
        };
        let permit = ApplyPermit { signature: key.sign(unsigned.message().as_slice()), ..unsigned };
        assert(permit_message(permit) == permit_message(unsigned));
        match permit.validate_shape() {
            Ok(()) => Ok(permit),
            Err(error) => Err(error),
        }
    }

    fn validate_shape(&self) -> (result: Result<(), ShareError>)
        ensures
            match result {
                Ok(()) => permit_shape_fault(*self) is None,
                Err(error) => permit_shape_fault(*self) == Some(error),
            },
    {
        if self.version != AUTHORITY_VERSION {
            return Err(ShareError::UnsupportedVersion);
        }
        if self.epoch == 0 {
            return Err(ShareError::EpochMismatch);
        }
        if !max_expiry(self.issued_at, MAX_APPLY_TTL_SECONDS, self.expires_at) {
            return Err(ShareError::Protocol);
        }
        if self.payload().len() > MAX_AUTHORITY_FRAME_BYTES - 64 {
            return Err(ShareError::Protocol);
        }
        Ok(())
    }

    /// Checks whose permit it is and for whom, whatever the time.
    pub fn verify_signature_for(
        &self,
        owner: EndpointId,
        share: ShareId,
        consumer: EndpointId,
    ) -> (result: Result<(), ShareError>)
        ensures
            match result {
                Ok(()) => permit_signature_fault(*self, owner, share, consumer) is None,
                Err(error) => permit_signature_fault(*self, owner, share, consumer) == Some(error),
            },
    {
        if self.owner != owner || self.share != share {
            return Err(ShareError::OwnerMismatch);
        }
        if self.consumer != consumer {
            return Err(ShareError::EndpointMismatch);
        }
        match self.validate_shape() {
            Ok(()) => {},
            Err(error) => {
                return Err(error);
            },
        }
        if !self.owner.verify(self.message().as_slice(), &self.signature) {
            return Err(ShareError::Protocol);
        }
        Ok(())
    }

    /// Checks the permit for an owner's share and a member at a time.
    pub fn verify_for(
        &self,
        owner: EndpointId,
        share: ShareId,
        consumer: EndpointId,
        now: u64,
    ) -> (result: Result<(), ShareError>)
        ensures
            match result {
                Ok(()) => permit_fault(*self, owner, share, consumer, now) is None,
                Err(error) => permit_fault(*self, owner, share, consumer, now) == Some(error),
            },
    {
        match self.verify_signature_for(owner, share, consumer) {
            Ok(()) => {},
            Err(error) => {
                return Err(error);
            },
        }
        check_timing(self.issued_at, self.expires_at, now)
    }
}

/// Version entries one behind the other.
pub open spec fn counter_bytes(entries: Seq<VersionEntry>) -> Seq<u8>
    decreases entries.len(),
{
    if entries.len() == 0 {
        Seq::empty()
    } else {
        counter_bytes(entries.drop_last()) + entries.last().replica@ + varint(
            entries.last().counter as nat,
        )
    }
}

/// The byte form of a record.
pub open spec fn record_bytes(record: RecordView) -> Seq<u8> {
    varint(record.schema_version as nat) + sized(record.path) + seq![kind_code(record.kind)]
        + varint(record.size as nat) + digest_code(record.content_hash) + seq![
        flag_code(record.readonly),
    ] + varint(listed(record.version).len()) + counter_bytes(listed(record.version)) + seq![
        flag_code(record.tombstone),
    ]
}

/// Records one behind the other.
pub open spec fn records_bytes(records: Seq<RecordView>) -> Seq<u8>
    decreases records.len(),
{
    if records.len() == 0 {
        Seq::empty()
    } else {
        records_bytes(records.drop_last()) + record_bytes(records.last())
    }
}

/// The byte form of a complete snapshot.
pub open spec fn snapshot_bytes(snapshot: SnapshotView) -> Seq<u8> {
    token_payload(snapshot.token) + snapshot.token.signature@ + varint(snapshot.records.len())
        + records_bytes(snapshot.records)
}

/// Appends the byte form of counters.
pub fn push_counters(out: &mut Vec<u8>, entries: &Vec<VersionEntry>)
    ensures
        final(out)@ == old(out)@ + counter_bytes(entries@),
{
    let mut i: usize = 0;
    assert(out@ =~= old(out)@ + counter_bytes(entries@.take(0)));
    while i < entries.len()
        invariant
            i <= entries@.len(),
            out@ == old(out)@ + counter_bytes(entries@.take(i as int)),
        decreases entries@.len() - i,
    {
        push_bytes(out, entries[i].replica.0.bytes.as_slice());
        push_number(out, entries[i].counter);
        i = i + 1;
        proof {
            let more = entries@.take(i as int);
            assert(more.drop_last() =~= entries@.take(i - 1));
            assert(out@ =~= old(out)@ + counter_bytes(more));
        }
    }
    assert(entries@.take(i as int) =~= entries@);
}

/// Appends the byte form of a record.
pub fn push_record(out: &mut Vec<u8>, record: &SyncRecord)
    ensures
        final(out)@ == old(out)@ + record_bytes(record@),
{
    let entries = record.version.entries();
    proof {
        lemma_listed(entries@);
    }
    push_number(out, record.schema_version as u64);
    push_sized(out, record.path.key_bytes());
    out.push(kind_byte(record.kind));
    push_number(out, record.size);
    let ghost head = varint(record.schema_version as nat) + sized(record.path@) + seq![
        kind_code(record.kind),
    ] + varint(record.size as nat);
    assert(out@ =~= old(out)@ + head);
    push_digest(out, &record.content_hash);
    out.push(flag_byte(record.readonly));
    push_number(out, entries.len() as u64);
    let ghost middle = head + digest_code(record.content_hash) + seq![flag_code(record.readonly)]
        + varint(entries@.len());
    assert(out@ =~= old(out)@ + middle);
    push_counters(out, entries);
    out.push(flag_byte(record.tombstone));
    assert(out@ =~= old(out)@ + (middle + counter_bytes(entries@) + seq![
        flag_code(record.tombstone),
    ]));
}

/// The records are in strictly ascending path order.
pub open spec fn paths_ascend(records: Seq<RecordView>) -> bool {
    forall|i: int, j: int|
        0 <= i < j < records.len() ==> byte_less(
            #[trigger] records[i].path,
            #[trigger] records[j].path,
        )
}

/// What is wrong with the first faulty record at or behind position `i`.
pub open spec fn records_fault_from(records: Seq<RecordView>, i: int) -> Option<ShareFault>
    decreases records.len() - i,
{
    if i < 0 || i >= records.len() {
        None
    } else {
        match record_fault(records[i]) {
            Some(error) => Some(ShareFault::Record(error)),
            None => records_fault_from(records, i + 1),
        }
    }
}

/// Why a complete snapshot is not taken for an owner's share.
pub open spec fn snapshot_fault(
    snapshot: SnapshotView,
    owner: EndpointId,
    share: ShareId,
    now: u64,
) -> Option<ShareFault> {
    if token_fault(snapshot.token, owner, share, now) is Some {
        Some(ShareFault::Share(token_fault(snapshot.token, owner, share, now)->0))
    } else if snapshot.records.len() != snapshot.token.record_count {
        Some(ShareFault::Share(ShareError::ManifestMismatch))
    } else if !paths_ascend(snapshot.records) {
        Some(ShareFault::Share(ShareError::InvalidRecord))
    } else if records_fault_from(snapshot.records, 0) is Some {
        records_fault_from(snapshot.records, 0)
    } else if load_fault(snapshot.records) is Some {
        Some(ShareFault::Reconcile(load_fault(snapshot.records)->0))
    } else if root_digest(gathered(snapshot.records)) != snapshot.token.root_hash@ {
        Some(ShareFault::Share(ShareError::ManifestMismatch))
    } else if snapshot_bytes(snapshot).len() > MAX_AUTHORITY_FRAME_BYTES {
        Some(ShareFault::Share(ShareError::Protocol))
    } else {
        None
    }
}

fn in_path_order(records: &Vec<SyncRecord>) -> (holds: bool)
    ensures
        holds == paths_ascend(views(records@)),
{
    let ghost all = views(records@);
    if records.len() == 0 {
        return true;
    }
    let mut i: usize = 1;
    while i < records.len()
        invariant
            1 <= i <= records@.len(),
            all == views(records@),
            forall|x: int, y: int|
                0 <= x < y < i ==> byte_less(#[trigger] all[x].path, #[trigger] all[y].path),
        decreases records@.len() - i,
    {
        let before = records[i - 1].path.key_bytes();
        let here = records[i].path.key_bytes();
        assert(before@ == all[i - 1].path && here@ == all[i as int].path);
        match compare_bytes(before, here) {
            ByteOrder::Less => {},
            _ => {
                proof {
                    crate::order::lemma_byte_less_asym(before@, here@);
                    assert(!byte_less(all[i - 1].path, all[i as int].path));
                }
                return false;
            },
        }
        proof {
            assert forall|x: int, y: int| 0 <= x < y < i + 1 implies byte_less(
                #[trigger] all[x].path,
                #[trigger] all[y].path,
            ) by {
                if y == i && x < i - 1 {
                    crate::order::lemma_byte_less_trans(
                        all[x].path,
                        all[i - 1].path,
                        all[i as int].path,
                    );
                }
            }
        }
        i = i + 1;
    }
    true
}

impl AuthoritativeSnapshot {
    /// The number of bytes in the byte form.
    pub fn size(&self) -> (size: usize)
        ensures
            size == snapshot_bytes(self@).len(),
    {
        let mut bytes = self.token.payload();
        push_bytes(&mut bytes, self.token.signature.bytes.as_slice());
        push_number(&mut bytes, self.records.len() as u64);
        let ghost head = bytes@;
        let ghost all = views(self.records@);
        let mut i: usize = 0;
        assert(bytes@ =~= head + records_bytes(all.take(0)));
        while i < self.records.len()
            invariant
                i <= self.records@.len(),
                all == views(self.records@),
                bytes@ == head + records_bytes(all.take(i as int)),
            decreases self.records@.len() - i,
        {
            push_record(&mut bytes, &self.records[i]);
            i = i + 1;
            proof {
                assert(all.take(i as int).drop_last() =~= all.take(i - 1));
                assert(bytes@ =~= head + records_bytes(all.take(i as int)));
            }
        }
        proof {
            assert(all.take(i as int) =~= all);
            assert(bytes@ =~= snapshot_bytes(self@));
        }
        bytes.len()
    }

    /// Checks the token, the records and that they belong together.
    pub fn verify_complete(&self, owner: EndpointId, share: ShareId, now: u64) -> (result: Result<
        (),
        ShareFault,
    >)
        ensures
            match result {
                Ok(()) => snapshot_fault(self@, owner, share, now) is None,
                Err(fault) => snapshot_fault(self@, owner, share, now) == Some(fault),
            },
    {
        match self.token.verify_for(owner, share, now) {
            Ok(()) => {},
            Err(error) => {
                return Err(ShareFault::Share(error));
            },
        }
        if self.records.len() as u64 != self.token.record_count as u64 {
            return Err(ShareFault::Share(ShareError::ManifestMismatch));
        }
        if !in_path_order(&self.records) {
            return Err(ShareFault::Share(ShareError::InvalidRecord));
        }
        let ghost all = views(self.records@);
        let mut i: usize = 0;
        while i < self.records.len()
            invariant
                i <= self.records@.len(),
                all == views(self.records@),
                token_fault(self.token, owner, share, now) is None,
                self.records@.len() == self.token.record_count,
                paths_ascend(all),
                records_fault_from(all, 0) == records_fault_from(all, i as int),
            decreases self.records@.len() - i,
        {
            match self.records[i].validate() {
                Ok(()) => {},
                Err(error) => {
                    return Err(ShareFault::Record(error));
                },
            }
            i = i + 1;
        }
        let tree = match MerkleTree::from_records(copy_records(&self.records)) {
            Ok(tree) => tree,
            Err(error) => {
                return Err(ShareFault::Reconcile(error));
            },
        };
        let root = tree.root_hash();
        proof {
            if root@ == self.token.root_hash@ {
                lemma_hash_view_injective(root, self.token.root_hash);
            }
        }
        if root != self.token.root_hash {
            return Err(ShareFault::Share(ShareError::ManifestMismatch));
        }
        if self.size() > MAX_AUTHORITY_FRAME_BYTES {
            return Err(ShareFault::Share(ShareError::Protocol));
        }
        Ok(())
    }

    /// Whether two snapshots say the same.
    pub fn same(&self, other: &Self) -> (same: bool)
        ensures
            same == (self@ == other@),
    {
        if self.token != other.token || self.records.len() != other.records.len() {
            proof {
                if self@ == other@ {
                    assert(self@.records.len() == other@.records.len());
                }
            }
            return false;
        }
        let mut i: usize = 0;
        while i < self.records.len()
            invariant
                i <= self.records@.len(),
                self.records@.len() == other.records@.len(),
                forall|k: int| 0 <= k < i ==> (#[trigger] self.records@[k])@ == other.records@[k]@,
            decreases self.records@.len() - i,
        {
            if !self.records[i].same(&other.records[i]) {
                proof {
                    if self@ == other@ {
                        assert(self@.records[i as int] == other@.records[i as int]);
                    }
                }
                return false;
            }
            i = i + 1;
        }
        assert(self@.records =~= other@.records);
        true
    }
}

impl Measured for AuthoritativeSnapshot {
    open spec fn measure(&self) -> nat {
        snapshot_bytes(self@).len()
    }

    fn size_of(&self) -> (size: usize) {
        self.size()
    }
}

impl Clone for AuthoritativeSnapshot {
    fn clone(&self) -> (copy: Self)
        ensures
            copy@ == self@,
    {
        AuthoritativeSnapshot { token: self.token, records: copy_records(&self.records) }
    }
}

/// Chunk descriptors one behind the other.
pub open spec fn chunks_bytes(chunks: Seq<ChunkDescriptor>) -> Seq<u8>
    decreases chunks.len(),
{
    if chunks.len() == 0 {
        Seq::empty()
    } else {
        chunks_bytes(chunks.drop_last()) + varint(chunks.last().offset as nat) + varint(
            chunks.last().length as nat,
        ) + chunks.last().hash@
    }
}

/// The byte form of a manifest.
pub open spec fn manifest_bytes(manifest: ManifestView) -> Seq<u8> {
    varint(manifest.schema_version as nat) + varint(manifest.size as nat) + manifest.file_hash@
        + varint(manifest.profile.minimum as nat) + varint(manifest.profile.average as nat)
        + varint(manifest.profile.maximum as nat) + varint(manifest.chunks.len()) + chunks_bytes(
        manifest.chunks,
    )
}

fn push_manifest(out: &mut Vec<u8>, manifest: &FileManifest)
    ensures
        final(out)@ == old(out)@ + manifest_bytes(manifest@),
{
    push_number(out, manifest.schema_version as u64);
    push_number(out, manifest.size);
    push_bytes(out, manifest.file_hash.bytes.as_slice());
    push_number(out, manifest.profile.minimum as u64);
    push_number(out, manifest.profile.average as u64);
    push_number(out, manifest.profile.maximum as u64);
    push_number(out, manifest.chunks.len() as u64);
    let ghost head = out@;
    let ghost all = manifest.chunks@;
    let mut i: usize = 0;
    assert(out@ =~= head + chunks_bytes(all.take(0)));
    while i < manifest.chunks.len()
        invariant
            i <= manifest.chunks@.len(),
            all == manifest.chunks@,
            out@ == head + chunks_bytes(all.take(i as int)),
        decreases manifest.chunks@.len() - i,
    {
        push_number(out, manifest.chunks[i].offset);
        push_number(out, manifest.chunks[i].length as u64);
        push_bytes(out, manifest.chunks[i].hash.bytes.as_slice());
        i = i + 1;
        proof {
            assert(all.take(i as int).drop_last() =~= all.take(i - 1));
            assert(out@ =~= head + chunks_bytes(all.take(i as int)));
        }
    }
    proof {
        assert(all.take(i as int) =~= all);
        assert(out@ =~= old(out)@ + manifest_bytes(manifest@));
    }
}

/// What of an attestation is signed.
pub open spec fn attestation_payload(a: AttestationView) -> Seq<u8> {
    seq![a.version] + a.owner@ + a.share@ + varint(a.epoch as nat) + a.snapshot@ + a.record_hash@
        + manifest_bytes(a.manifest) + a.manifest_hash@ + varint(a.issued_at as nat) + varint(
        a.expires_at as nat,
    )
}

/// The message of an attestation.
pub open spec fn attestation_message(a: AttestationView) -> Seq<u8> {
    in_domain("deltaweave/share-manifest/v1"@, attestation_payload(a))
}

/// What is wrong with the shape of an attestation.
pub open spec fn attestation_shape_fault(a: AttestationView) -> Option<ShareFault> {
    if a.version != AUTHORITY_VERSION {
        Some(ShareFault::Share(ShareError::UnsupportedVersion))
    } else if a.epoch == 0 {
        Some(ShareFault::Share(ShareError::EpochMismatch))
    } else if manifest_fault(a.manifest) is Some {
        Some(ShareFault::Manifest(manifest_fault(a.manifest)->0))
    } else if a.manifest_hash@ != manifest_digest(a.manifest) {
        Some(ShareFault::Share(ShareError::ManifestMismatch))
    } else if !lifetime_holds(a.issued_at, MAX_MANIFEST_TTL_SECONDS, a.expires_at) {
        Some(ShareFault::Share(ShareError::Protocol))
    } else if attestation_payload(a).len() + 64 > MAX_AUTHORITY_FRAME_BYTES {
        Some(ShareFault::Share(ShareError::Protocol))
    } else {
        None
    }
}

/// Why an attestation is not taken for an owner's share.
pub open spec fn attestation_fault(
    a: AttestationView,
    owner: EndpointId,
    share: ShareId,
    now: u64,
) -> Option<ShareFault> {
    if a.owner != owner || a.share != share {
        Some(ShareFault::Share(ShareError::OwnerMismatch))
    } else if attestation_shape_fault(a) is Some {
        attestation_shape_fault(a)
    } else if !ed25519_accepts(a.owner@, attestation_message(a), a.signature@) {
        Some(ShareFault::Share(ShareError::Protocol))
    } else if timing_fault(a.issued_at, a.expires_at, now) is Some {
        Some(ShareFault::Share(timing_fault(a.issued_at, a.expires_at, now)->0))
    } else {
        None
    }
}

/// The record is a live file with the digest and the size that the manifest has.
pub open spec fn describes(manifest: ManifestView, record: RecordView) -> bool {
    &&& !record.tombstone
    &&& record.kind == SyncEntryKind::File
    &&& record.content_hash == Some(manifest.file_hash)
    &&& record.size == manifest.size
}

/// Why an attestation does not speak of a record of a snapshot.
pub open spec fn attested_fault(
    a: AttestationView,
    snapshot: SnapshotToken,
    record: RecordView,
) -> Option<ShareError> {
    if a.snapshot != snapshot.snapshot || a.share != snapshot.share {
        Some(ShareError::ManifestMismatch)
    } else if a.epoch != snapshot.epoch {
        Some(ShareError::EpochMismatch)
    } else if a.record_hash@ != logical_digest(record) || !describes(a.manifest, record) {
        Some(ShareError::ManifestMismatch)
    } else {
        None
    }
}

/// The attestation that an owner signs, up to the two digests in it.
pub open spec fn is_attestation(
    a: AttestationView,
    secret: Seq<u8>,
    snapshot: SnapshotToken,
    record: RecordView,
    manifest: ManifestView,
    issued_at: u64,
) -> bool {
    &&& a.version == AUTHORITY_VERSION
    &&& a.owner == public_id(secret)
    &&& a.share == snapshot.share
    &&& a.epoch == snapshot.epoch
    &&& a.snapshot == snapshot.snapshot
    &&& a.record_hash@ == logical_digest(record)
    &&& a.manifest == manifest
    &&& a.manifest_hash@ == manifest_digest(manifest)
    &&& a.issued_at == issued_at
    &&& a.expires_at == saturated(issued_at, MAX_MANIFEST_TTL_SECONDS)
    &&& a.signature == signed_by(secret, attestation_message(a))
}

/// Why an owner does not attest a manifest for a record, before the attestation is made.
pub open spec fn attesting_fault(record: RecordView, manifest: ManifestView) -> Option<
    ShareFault,
> {
    if record_fault(record) is Some {
        Some(ShareFault::Record(record_fault(record)->0))
    } else if record.tombstone || record.kind != SyncEntryKind::File || record.content_hash
        is None {
        Some(ShareFault::Share(ShareError::ManifestMismatch))
    } else if manifest_fault(manifest) is Some {
        Some(ShareFault::Manifest(manifest_fault(manifest)->0))
    } else if !describes(manifest, record) {
        Some(ShareFault::Share(ShareError::ManifestMismatch))
    } else {
        None
    }
}

impl ManifestAttestation {
    fn payload(&self) -> (bytes: Vec<u8>)
        ensures
            bytes@ == attestation_payload(self@),
    {
        let mut bytes: Vec<u8> = Vec::new();
        bytes.push(self.version);
        push_bytes(&mut bytes, self.owner.bytes.as_slice());
        push_bytes(&mut bytes, self.share.0.as_slice());
        push_number(&mut bytes, self.epoch);
        push_bytes(&mut bytes, self.snapshot.as_slice());
        push_bytes(&mut bytes, self.record_hash.bytes.as_slice());
        push_manifest(&mut bytes, &self.manifest);
        push_bytes(&mut bytes, self.manifest_hash.bytes.as_slice());
        push_number(&mut bytes, self.issued_at);
        push_number(&mut bytes, self.expires_at);
        assert(bytes@ =~= attestation_payload(self@));
        bytes
    }

    fn message(&self) -> (bytes: Vec<u8>)
        ensures
            bytes@ == attestation_message(self@),
    {
        with_domain("deltaweave/share-manifest/v1", self.payload().as_slice())
    }

    /// Attests a manifest for a record of a snapshot.
    pub fn sign(
        key: &SecretKey,
        snapshot: &SnapshotToken,
        record: &SyncRecord,
        manifest: FileManifest,
        issued_at: u64,
    ) -> (attestation: Result<Self, ShareFault>)
        ensures
            match attestation {
                Ok(attestation) => {
                    &&& attesting_fault(record@, manifest@) is None
                    &&& is_attestation(
                        attestation@,
                        key@,
                        *snapshot,
                        record@,
                        manifest@,
                        issued_at,
                    )
                    &&& attestation_shape_fault(attestation@) is None
                    &&& ed25519_accepts(
                        attestation.owner@,
                        attestation_message(attestation@),
                        attestation.signature@,
                    )
                    &&& attested_fault(attestation@, *snapshot, record@) is None
                },
                Err(fault) => if attesting_fault(record@, manifest@) is Some {
                    attesting_fault(record@, manifest@) == Some(fault)
                } else {
                    exists|a: AttestationView|
                        #![trigger attestation_shape_fault(a)]
                        is_attestation(a, key@, *snapshot, record@, manifest@, issued_at)
                            && attestation_shape_fault(a) == Some(fault)
                },
            },
    {
        match record.validate() {
            Ok(()) => {},
            Err(error) => {
                return Err(ShareFault::Record(error));
            },
        }
        if record.tombstone || record.kind != SyncEntryKind::File {
            return Err(ShareFault::Share(ShareError::ManifestMismatch));
        }
        let content = match record.content_hash {
            Some(content) => content,
            None => {
                return Err(ShareFault::Share(ShareError::ManifestMismatch));
            },
        };
        match manifest.validate() {
            Ok(()) => {},
            Err(error) => {
                return Err(ShareFault::Manifest(error));
            },
        }
        if manifest.file_hash != content || manifest.size != record.size {
            return Err(ShareFault::Share(ShareError::ManifestMismatch));
        }
        let record_hash = record.logical_hash();
        let manifest_hash = manifest.manifest_hash();
        let unsigned = ManifestAttestation {
            version: AUTHORITY_VERSION,
            owner: key.public(),
            share: snapshot.share,
            epoch: snapshot.epoch,
            snapshot: snapshot.snapshot,
            record_hash,
            manifest,
            manifest_hash,
            issued_at,
            expires_at: issued_at.saturating_add(MAX_MANIFEST_TTL_SECONDS),
            signature: Signature { bytes: [0u8; 64] },
        };
        let signature = key.sign(unsigned.message().as_slice());
        let ghost before = unsigned@;
        let attestation = ManifestAttestation {
            version: unsigned.version,
            owner: unsigned.owner,
            share: unsigned.share,
            epoch: unsigned.epoch,
            snapshot: unsigned.snapshot,
            record_hash: unsigned.record_hash,
            manifest: unsigned.manifest,
            manifest_hash: unsigned.manifest_hash,
            issued_at: unsigned.issued_at,
            expires_at: unsigned.expires_at,
            signature,
        };
        assert(attestation_message(attestation@) == attestation_message(before));
        assert(is_attestation(attestation@, key@, *snapshot, record@, manifest@, issued_at));
        match attestation.validate_shape() {
            Ok(()) => Ok(attestation),
            Err(fault) => Err(fault),
        }
    }

    fn validate_shape(&self) -> (result: Result<(), ShareFault>)
        ensures
            match result {
                Ok(()) => attestation_shape_fault(self@) is None,
                Err(fault) => attestation_shape_fault(self@) == Some(fault),
            },
    {
        if self.version != AUTHORITY_VERSION {
            return Err(ShareFault::Share(ShareError::UnsupportedVersion));
        }
        if self.epoch == 0 {
            return Err(ShareFault::Share(ShareError::EpochMismatch));
        }
        match self.manifest.validate() {
            Ok(()) => {},
            Err(error) => {
                return Err(ShareFault::Manifest(error));
            },
        }
        let hash = self.manifest.manifest_hash();
        proof {
            if hash@ == self.manifest_hash@ {
                lemma_hash_view_injective(hash, self.manifest_hash);
            }
        }
        if self.manifest_hash != hash {
            return Err(ShareFault::Share(ShareError::ManifestMismatch));
        }
        if !max_expiry(self.issued_at, MAX_MANIFEST_TTL_SECONDS, self.expires_at) {
            return Err(ShareFault::Share(ShareError::Protocol));
        }
        if self.payload().len() > MAX_AUTHORITY_FRAME_BYTES - 64 {
            return Err(ShareFault::Share(ShareError::Protocol));
        }
        Ok(())
    }

    /// Checks the attestation for an owner's share at a time.
    pub fn verify_for(&self, owner: EndpointId, share: ShareId, now: u64) -> (result: Result<
        (),
        ShareFault,
    >)
        ensures
            match result {
                Ok(()) => attestation_fault(self@, owner, share, now) is None,
                Err(fault) => attestation_fault(self@, owner, share, now) == Some(fault),
            },
    {
        if self.owner != owner || self.share != share {
            return Err(ShareFault::Share(ShareError::OwnerMismatch));
        }
        match self.validate_shape() {
            Ok(()) => {},
            Err(fault) => {
                return Err(fault);
            },
        }
        if !self.owner.verify(self.message().as_slice(), &self.signature) {
            return Err(ShareFault::Share(ShareError::Protocol));
        }
        match check_timing(self.issued_at, self.expires_at, now) {
            Ok(()) => Ok(()),
            Err(error) => Err(ShareFault::Share(error)),
        }
    }

    /// Checks that the attestation speaks of a record of a snapshot.
    pub fn verify_record(&self, snapshot: &SnapshotToken, record: &SyncRecord) -> (result: Result<
        (),
        ShareError,
    >)
        ensures
            match result {
                Ok(()) => attested_fault(self@, *snapshot, record@) is None,
                Err(error) => attested_fault(self@, *snapshot, record@) == Some(error),
            },
    {
        if !same_array(&self.snapshot, &snapshot.snapshot) || self.share != snapshot.share {
            return Err(ShareError::ManifestMismatch);
        }
        if self.epoch != snapshot.epoch {
            return Err(ShareError::EpochMismatch);
        }
        let hash = record.logical_hash();
        proof {
            if hash@ == self.record_hash@ {
                lemma_hash_view_injective(hash, self.record_hash);
            }
        }
        if self.record_hash != hash {
            return Err(ShareError::ManifestMismatch);
        }
        match record.content_hash {
            None => {
                return Err(ShareError::ManifestMismatch);
            },
            Some(content) => if record.tombstone || record.kind != SyncEntryKind::File
                || self.manifest.file_hash != content || self.manifest.size != record.size {
                return Err(ShareError::ManifestMismatch);
            },
        }
        Ok(())
    }
}

/// The digests are in strictly ascending order.
pub open spec fn hashes_ascend(hashes: Seq<Hash32>) -> bool {
    forall|i: int, j: int|
        0 <= i < j < hashes.len() ==> byte_less(#[trigger] hashes[i]@, #[trigger] hashes[j]@)
}

/// Why digests cannot be requested together.
pub open spec fn subset_fault(hashes: Seq<Hash32>) -> Option<ShareError> {
    if hashes.len() > MAX_REQUEST_HASHES {
        Some(ShareError::Busy)
    } else if !hashes_ascend(hashes) {
        Some(ShareError::ManifestMismatch)
    } else {
        None
    }
}

/// Checks that digests can be requested together: not too many, each once, in order.
pub fn validate_hash_subset(hashes: &[Hash32]) -> (result: Result<(), ShareError>)
    ensures
        match result {
            Ok(()) => subset_fault(hashes@) is None,
            Err(error) => subset_fault(hashes@) == Some(error),
        },
{
    if hashes.len() > MAX_REQUEST_HASHES {
        return Err(ShareError::Busy);
    }
    if hashes.len() == 0 {
        return Ok(());
    }
    let mut i: usize = 1;
    while i < hashes.len()
        invariant
            1 <= i <= hashes@.len() <= MAX_REQUEST_HASHES,
            forall|x: int, y: int|
                0 <= x < y < i ==> byte_less(#[trigger] hashes@[x]@, #[trigger] hashes@[y]@),
        decreases hashes@.len() - i,
    {
        if hashes[i - 1].at_least(&hashes[i]) {
            assert(!byte_less(hashes@[i - 1]@, hashes@[i as int]@));
            return Err(ShareError::ManifestMismatch);
        }
        proof {
            assert forall|x: int, y: int| 0 <= x < y < i + 1 implies byte_less(
                #[trigger] hashes@[x]@,
                #[trigger] hashes@[y]@,
            ) by {
                if y == i && x < i - 1 {
                    crate::order::lemma_byte_less_trans(
                        hashes@[x]@,
                        hashes@[i - 1]@,
                        hashes@[i as int]@,
                    );
                }
            }
        }
        i = i + 1;
    }
    Ok(())
}

/// Digests one behind the other.
pub open spec fn hashes_bytes(hashes: Seq<Hash32>) -> Seq<u8>
    decreases hashes.len(),
{
    if hashes.len() == 0 {
        Seq::empty()
    } else {
        hashes_bytes(hashes.drop_last()) + hashes.last()@
    }
}

/// The digest that ties a request to its share, its snapshot, its manifest and its chunks.
pub open spec fn request_digest(
    share: ShareId,
    snapshot: SnapshotId,
    manifest: Hash32,
    hashes: Seq<Hash32>,
) -> Seq<u8> {
    blake3_digest(
        in_domain(
            "deltaweave/share-swarm/request/v1"@,
            share@ + snapshot@ + manifest@ + varint(hashes.len()) + hashes_bytes(hashes),
        ),
    )
}

/// The digest of a request.
pub fn request_hash(
    share: ShareId,
    snapshot: SnapshotId,
    manifest: Hash32,
    hashes: &[Hash32],
) -> (hash: Result<Hash32, ShareError>)
    ensures
        match hash {
            Ok(hash) => subset_fault(hashes@) is None && hash@ == request_digest(
                share,
                snapshot,
                manifest,
                hashes@,
            ),
            Err(error) => subset_fault(hashes@) == Some(error),
        },
{
    match validate_hash_subset(hashes) {
        Ok(()) => {},
        Err(error) => {
            return Err(error);
        },
    }
    let mut bytes: Vec<u8> = Vec::new();
    push_bytes(&mut bytes, share.0.as_slice());
    push_bytes(&mut bytes, snapshot.as_slice());
    push_bytes(&mut bytes, manifest.bytes.as_slice());
    push_number(&mut bytes, hashes.len() as u64);
    let ghost head = bytes@;
    let mut i: usize = 0;
    assert(bytes@ =~= head + hashes_bytes(hashes@.take(0)));
    while i < hashes.len()
        invariant
            i <= hashes@.len(),
            bytes@ == head + hashes_bytes(hashes@.take(i as int)),
        decreases hashes@.len() - i,
    {
        push_bytes(&mut bytes, hashes[i].bytes.as_slice());
        i = i + 1;
        proof {
            assert(hashes@.take(i as int).drop_last() =~= hashes@.take(i - 1));
            assert(bytes@ =~= head + hashes_bytes(hashes@.take(i as int)));
        }
    }
    proof {
        assert(hashes@.take(i as int) =~= hashes@);
        assert(head =~= share@ + snapshot@ + manifest@ + varint(hashes@.len()));
    }
    Ok(
        Hash32::digest(
            with_domain("deltaweave/share-swarm/request/v1", bytes.as_slice()).as_slice(),
        ),
    )
}

/// A grant that an owner has signed is taken for that owner's share until it expires, and for no
/// other.
pub proof fn law_signed_grant_is_taken(
    grant: ShareGrant,
    owner: EndpointId,
    share: ShareId,
    now: u64,
)
    requires
        grant_signature_fault(grant, grant.owner, grant.share) is None,
    ensures
        grant_fault(grant, owner, share, now) is None <==> grant.owner == owner && grant.share
            == share && grant.issued_at <= saturated(now, MAX_CLOCK_SKEW_SECONDS) && now
            < grant.expires_at,
{
}

/// An attestation that is taken for a record fixes what the record says of the file: another
/// record with another digest is not attested by it.
pub proof fn law_attestation_binds_the_record(
    a: AttestationView,
    snapshot: SnapshotToken,
    one: RecordView,
    other: RecordView,
)
    requires
        attested_fault(a, snapshot, one) is None,
        attested_fault(a, snapshot, other) is None,
    ensures
        logical_digest(one) == logical_digest(other),
        one.content_hash == other.content_hash,
        one.size == other.size,
        describes(a.manifest, one),
{
}

} // verus!
