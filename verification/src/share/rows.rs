//! What an owner writes down of grants, applies, challenges and its clock.
use vstd::prelude::*;

use crate::hash::push_bytes;
use crate::share::authority::{
    grant_payload, permit_payload, ActivationBinding, ApplyPermit, ClientIntentRow, ShareGrant,
};
use crate::share::codec::{optional_number, push_number, push_optional, varint};
use crate::share::identity::{EndpointId, GrantNonce, ShareId};
use crate::table::{Keyed, Measured};

verus! {

/// How far a grant has come.
#[derive(Clone, Copy, Debug, PartialEq, Eq, Structural)]
pub enum GrantState {
    Issued,
    Active,
    Drained,
    Denied,
    /// Active when the process ended. It still blocks, and cannot be activated again.
    Restarted,
    /// Never activated within its lifetime.
    Expired,
}

/// A grant in the journal.
#[derive(Clone, Copy, Debug, PartialEq, Eq)]
pub struct GrantRow {
    pub grant: ShareGrant,
    pub state: GrantState,
    pub activation_id: Option<[u8; 16]>,
    pub activation_deadline: Option<u64>,
    /// A member of the grant was revoked. Kept apart from the state, so that a grant that was
    /// active stays a blocker.
    pub revoked: bool,
}

impl Keyed for GrantRow {
    open spec fn key(&self) -> Seq<u8> {
        self.grant.nonce@
    }

    fn key_bytes(&self) -> (bytes: &[u8]) {
        self.grant.nonce.as_slice()
    }
}

/// Which sides of a grant have stopped.
#[derive(Clone, Copy, Debug, PartialEq, Eq, Structural)]
pub struct GrantDrainState {
    pub provider_drained: bool,
    pub consumer_drained: bool,
}

/// Neither side has stopped.
pub open spec fn undrained() -> GrantDrainState {
    GrantDrainState { provider_drained: false, consumer_drained: false }
}

impl Default for GrantDrainState {
    fn default() -> (state: Self)
        ensures
            state == undrained(),
    {
        GrantDrainState { provider_drained: false, consumer_drained: false }
    }
}

/// Which sides of one grant have stopped.
#[derive(Clone, Copy, Debug, PartialEq, Eq)]
pub struct DrainRow {
    pub nonce: GrantNonce,
    pub state: GrantDrainState,
}

impl Keyed for DrainRow {
    open spec fn key(&self) -> Seq<u8> {
        self.nonce@
    }

    fn key_bytes(&self) -> (bytes: &[u8]) {
        self.nonce.as_slice()
    }
}

/// How far an apply has come.
#[derive(Clone, Copy, Debug, PartialEq, Eq, Structural)]
pub enum ApplyState {
    Prepared,
    Started,
    Drained,
    Denied,
    /// Started when the process ended. Only a fresh acknowledgement ends it.
    Restarted,
    /// Never started within its lifetime.
    Expired,
}

/// An apply in the journal.
#[derive(Clone, Copy, Debug, PartialEq, Eq)]
pub struct ApplyRow {
    pub permit: ApplyPermit,
    pub state: ApplyState,
    pub operation_id: Option<[u8; 16]>,
    pub committed: bool,
    /// The member was revoked. A started apply stays visible until it is acknowledged.
    pub revoked: bool,
}

impl Keyed for ApplyRow {
    open spec fn key(&self) -> Seq<u8> {
        self.permit.nonce@
    }

    fn key_bytes(&self) -> (bytes: &[u8]) {
        self.permit.nonce.as_slice()
    }
}

/// The highest time that was seen, kept over restarts.
#[derive(Clone, Copy, Debug, PartialEq, Eq)]
pub struct ClockAnchor {
    pub version: u8,
    pub last_wall: u64,
    pub boot: [u8; 16],
    pub quarantined: bool,
}

/// A challenge that a member answers with its next heartbeat.
#[derive(Clone, Copy, Debug, PartialEq, Eq)]
pub struct HeartbeatChallenge {
    pub version: u8,
    pub owner: EndpointId,
    pub share: ShareId,
    pub member: EndpointId,
    pub challenge: [u8; 32],
    pub issued_at: u64,
    pub expires_at: u64,
    pub used: bool,
}

/// A challenge under its key.
#[derive(Debug, PartialEq, Eq)]
pub struct ChallengeRow {
    pub key: Vec<u8>,
    pub challenge: HeartbeatChallenge,
}

impl Keyed for ChallengeRow {
    open spec fn key(&self) -> Seq<u8> {
        self.key@
    }

    fn key_bytes(&self) -> (bytes: &[u8]) {
        self.key.as_slice()
    }
}

impl View for ChallengeRow {
    type V = HeartbeatChallenge;

    open spec fn view(&self) -> HeartbeatChallenge {
        self.challenge
    }
}

/// The key of a challenge: the share, then the member.
pub open spec fn challenge_key(share: ShareId, member: EndpointId) -> Seq<u8> {
    share@ + member@
}

/// The key of a challenge.
pub fn challenge_bytes(share: &ShareId, member: &EndpointId) -> (key: Vec<u8>)
    ensures
        key@ == challenge_key(*share, *member),
{
    let mut key: Vec<u8> = Vec::new();
    push_bytes(&mut key, share.0.as_slice());
    push_bytes(&mut key, member.bytes.as_slice());
    assert(key@ =~= challenge_key(*share, *member));
    key
}

/// The moment at which an activation ends, on a clock that no one sets back.
#[derive(Clone, Copy, Debug, PartialEq, Eq)]
pub struct DeadlineRow {
    pub nonce: GrantNonce,
    pub at: u64,
}

impl Keyed for DeadlineRow {
    open spec fn key(&self) -> Seq<u8> {
        self.nonce@
    }

    fn key_bytes(&self) -> (bytes: &[u8]) {
        self.nonce.as_slice()
    }
}

/// The byte form of an optional identifier.
pub open spec fn optional_id(id: Option<[u8; 16]>) -> Seq<u8> {
    match id {
        Some(id) => seq![1u8] + id@,
        None => seq![0u8],
    }
}

fn push_id(out: &mut Vec<u8>, id: &Option<[u8; 16]>)
    ensures
        final(out)@ == old(out)@ + optional_id(*id),
{
    match id {
        Some(id) => {
            out.push(1);
            push_bytes(out, id.as_slice());
            assert(out@ =~= old(out)@ + (seq![1u8] + id@));
        },
        None => {
            out.push(0);
            assert(out@ =~= old(out)@ + seq![0u8]);
        },
    }
}

/// The byte form of a grant in the journal, with one byte for its state.
pub open spec fn grant_row_bytes(row: GrantRow) -> Seq<u8> {
    grant_payload(row.grant) + row.grant.signature@ + seq![0u8] + optional_id(row.activation_id)
        + optional_number(row.activation_deadline) + seq![0u8]
}

impl GrantRow {
    /// The number of bytes in the byte form.
    pub fn size(&self) -> (size: usize)
        ensures
            size == grant_row_bytes(*self).len(),
    {
        let mut bytes = self.grant.payload();
        push_bytes(&mut bytes, self.grant.signature.bytes.as_slice());
        bytes.push(0);
        push_id(&mut bytes, &self.activation_id);
        push_optional(&mut bytes, self.activation_deadline);
        bytes.push(0);
        assert(bytes@ =~= grant_row_bytes(*self));
        bytes.len()
    }
}

/// The byte form of an apply in the journal, with one byte for each flag and its state.
pub open spec fn apply_row_bytes(row: ApplyRow) -> Seq<u8> {
    permit_payload(row.permit) + row.permit.signature@ + seq![0u8] + optional_id(row.operation_id)
        + seq![0u8, 0u8]
}

impl ApplyRow {
    /// The number of bytes in the byte form.
    pub fn size(&self) -> (size: usize)
        ensures
            size == apply_row_bytes(*self).len(),
    {
        let mut bytes = self.permit.payload();
        push_bytes(&mut bytes, self.permit.signature.bytes.as_slice());
        bytes.push(0);
        push_id(&mut bytes, &self.operation_id);
        bytes.push(0);
        bytes.push(0);
        assert(bytes@ =~= apply_row_bytes(*self));
        bytes.len()
    }
}

/// The byte form of a binding.
pub open spec fn binding_bytes(binding: ActivationBinding) -> Seq<u8> {
    binding.owner@ + binding.share@ + binding.consumer@ + binding.provider@ + varint(
        binding.epoch as nat,
    ) + varint(binding.provider_epoch as nat) + binding.snapshot@ + binding.manifest@
        + binding.request_hash@ + binding.nonce@
}

/// The byte form of what a device has written down of its side of a grant, with one byte for the
/// side and one for the phase.
pub open spec fn intent_bytes(row: ClientIntentRow) -> Seq<u8> {
    grant_payload(row.grant) + row.grant.signature@ + binding_bytes(row.binding) + seq![0u8]
        + optional_id(row.activation_id) + row.operation_id@ + seq![0u8] + row.boot_id@ + varint(
        row.started_at_wall as nat,
    ) + optional_number(row.terminal_at_wall)
}

impl ClientIntentRow {
    /// The number of bytes in the byte form.
    pub fn size(&self) -> (size: usize)
        ensures
            size == intent_bytes(*self).len(),
    {
        let mut bytes = self.grant.payload();
        push_bytes(&mut bytes, self.grant.signature.bytes.as_slice());
        let binding = &self.binding;
        push_bytes(&mut bytes, binding.owner.bytes.as_slice());
        push_bytes(&mut bytes, binding.share.0.as_slice());
        push_bytes(&mut bytes, binding.consumer.bytes.as_slice());
        push_bytes(&mut bytes, binding.provider.bytes.as_slice());
        push_number(&mut bytes, binding.epoch);
        push_number(&mut bytes, binding.provider_epoch);
        push_bytes(&mut bytes, binding.snapshot.as_slice());
        push_bytes(&mut bytes, binding.manifest.bytes.as_slice());
        push_bytes(&mut bytes, binding.request_hash.bytes.as_slice());
        push_bytes(&mut bytes, binding.nonce.as_slice());
        bytes.push(0);
        push_id(&mut bytes, &self.activation_id);
        push_bytes(&mut bytes, self.operation_id.as_slice());
        bytes.push(0);
        push_bytes(&mut bytes, self.boot_id.as_slice());
        push_number(&mut bytes, self.started_at_wall);
        push_optional(&mut bytes, self.terminal_at_wall);
        assert(bytes@ =~= intent_bytes(*self));
        bytes.len()
    }
}

impl Measured for GrantRow {
    open spec fn measure(&self) -> nat {
        grant_row_bytes(*self).len()
    }

    fn size_of(&self) -> (size: usize) {
        self.size()
    }
}

impl Measured for ApplyRow {
    open spec fn measure(&self) -> nat {
        apply_row_bytes(*self).len()
    }

    fn size_of(&self) -> (size: usize) {
        self.size()
    }
}

impl Measured for ClientIntentRow {
    open spec fn measure(&self) -> nat {
        intent_bytes(*self).len()
    }

    fn size_of(&self) -> (size: usize) {
        self.size()
    }
}

} // verus!
