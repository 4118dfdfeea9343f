//! The member's side of a share: what it asks for, and what of the answers it believes.
use vstd::prelude::*;

use crate::hash::{lemma_hash_view_injective, same_array, Hash32};
use crate::record::SyncRecord;
use crate::share::activation::ACTIVATION_NANOS;
use crate::share::authority::{
    activation_of, attestation_fault, attested_fault, grant_fault, permit_fault, reply_fault,
    request_digest, request_hash, snapshot_fault, subset_fault, validate_hash_subset,
    ActivateGrantReply, ActivateGrantRequest, ApplyDrained, ApplyPermit, ApplyStart,
    AttestationView, AuthoritativeSnapshot, ManifestAttestation, ShareGrant, SnapshotToken,
    MAX_ACTIVATE_TTL_SECONDS,
};
use crate::share::catalog::{
    pair_key, related_catalog, relating_fault, CatalogView, MemberRelationship, Membership,
    RelationshipView,
};
use crate::share::error::{ShareError, ShareFault};
use crate::share::grants::{entry_of, roster_member};
use crate::share::identity::{EndpointAddr, EndpointId, GrantNonce, ShareId};
use crate::share::registry::{with_catalog, Registry, RegistryView};
use crate::share::roster::{roster_fault_for, RosterView, SignedRoster};
use crate::share::ticket::{preview_of, ShareTicket, TicketPreview};
use crate::share::wire::{Operation, Reply};

verus! {

/// The nanoseconds of a second.
pub const SECOND_NANOS: u64 = 1_000_000_000;

/// A provider's hold on an activated grant. It ends at a moment that is counted from when the
/// activation was asked for, so a late answer does not make it longer.
#[derive(Clone, Copy, Debug, PartialEq, Eq)]
pub struct ActivationLease {
    pub reply: ActivateGrantReply,
    pub deadline: u64,
}

/// How long an activation holds at the most, in nanoseconds.
pub open spec fn lease_nanos(reply: ActivateGrantReply) -> int {
    if reply.max_duration_secs < MAX_ACTIVATE_TTL_SECONDS {
        reply.max_duration_secs * SECOND_NANOS
    } else {
        MAX_ACTIVATE_TTL_SECONDS * SECOND_NANOS
    }
}

/// Why an answer gives no hold on a grant.
pub open spec fn lease_fault(reply: ActivateGrantReply, started: u64, now: u64) -> Option<
    ShareError,
> {
    if !reply.accepted {
        Some(ShareError::GrantReplay)
    } else if started + lease_nanos(reply) > u64::MAX || now >= started + lease_nanos(reply) {
        Some(ShareError::GrantExpired)
    } else {
        None
    }
}

impl ActivationLease {
    /// The hold that an answer gives, for an activation that was asked for at a moment.
    pub fn from_reply_at(reply: ActivateGrantReply, started: u64, now: u64) -> (lease: Result<
        Self,
        ShareError,
    >)
        ensures
            match lease {
                Ok(lease) => lease_fault(reply, started, now) is None && lease.reply == reply
                    && lease.deadline == started + lease_nanos(reply),
                Err(error) => lease_fault(reply, started, now) == Some(error),
            },
    {
        if !reply.accepted {
            return Err(ShareError::GrantReplay);
        }
        let seconds: u64 = if reply.max_duration_secs < MAX_ACTIVATE_TTL_SECONDS {
            reply.max_duration_secs as u64
        } else {
            MAX_ACTIVATE_TTL_SECONDS as u64
        };
        let deadline = match started.checked_add(seconds * SECOND_NANOS) {
            Some(deadline) => deadline,
            None => {
                return Err(ShareError::GrantExpired);
            },
        };
        if now >= deadline {
            return Err(ShareError::GrantExpired);
        }
        Ok(ActivationLease { reply, deadline })
    }

    /// How many nanoseconds are left at a moment.
    pub fn remaining(&self, now: u64) -> (left: u64)
        ensures
            left == (if now < self.deadline {
                self.deadline - now
            } else {
                0
            }),
    {
        self.deadline.saturating_sub(now)
    }

    /// Whether the hold can still admit work at a moment.
    pub fn is_active(&self, now: u64) -> (active: bool)
        ensures
            active == (now < self.deadline),
            active == (self.remaining_nanos(now) > 0),
    {
        now < self.deadline
    }

    /// What is left at a moment.
    pub open spec fn remaining_nanos(&self, now: u64) -> int {
        if now < self.deadline {
            self.deadline - now
        } else {
            0
        }
    }
}

/// A hold never outlasts the moment at which the activation was asked for by more than an
/// activation may hold, however late the answer came.
pub proof fn law_lease_is_bounded_by_its_request(
    reply: ActivateGrantReply,
    started: u64,
    now: u64,
)
    requires
        lease_fault(reply, started, now) is None,
    ensures
        now < started + lease_nanos(reply) <= started + ACTIVATION_NANOS,
{
}

/// A session of a member with an owner.
#[derive(Debug)]
pub struct ShareSession {
    pub membership: Membership,
    /// The challenge for the next heartbeat.
    pub roster_challenge: Option<GrantNonce>,
}

/// Why a session is not opened.
pub open spec fn session_fault(
    catalog: CatalogView,
    own: EndpointId,
    owner: EndpointId,
    share: ShareId,
) -> Option<ShareError> {
    let key = pair_key(owner, share);
    if !catalog.relationships.contains_key(key) {
        Some(ShareError::NotMember)
    } else if catalog.relationships[key].membership.owner != owner
        || catalog.relationships[key].address.id != owner || owner == own {
        Some(ShareError::OwnerMismatch)
    } else {
        None
    }
}

/// Why a roster is not believed by a member.
pub open spec fn own_roster_fault(membership: Membership, roster: RosterView, now: u64) -> Option<
    ShareError,
> {
    if roster_fault_for(roster, membership.owner, membership.share_id, now) is Some {
        roster_fault_for(roster, membership.owner, membership.share_id, now)
    } else {
        match entry_of(roster.entries, membership.endpoint, 0) {
            Some(entry) => if entry.permission == membership.permission && entry.member_epoch
                == membership.epoch {
                None
            } else {
                Some(ShareError::EpochMismatch)
            },
            None => Some(ShareError::EpochMismatch),
        }
    }
}

/// Why a member does not ask for a grant.
pub open spec fn wanting_fault(
    membership: Membership,
    snapshot: SnapshotToken,
    manifest: AttestationView,
    hashes: Seq<Hash32>,
) -> Option<ShareError> {
    if snapshot.epoch != membership.epoch {
        Some(ShareError::EpochMismatch)
    } else if snapshot.share != membership.share_id {
        Some(ShareError::OwnerMismatch)
    } else if manifest.share != snapshot.share {
        Some(ShareError::ManifestMismatch)
    } else if manifest.epoch != snapshot.epoch {
        Some(ShareError::EpochMismatch)
    } else {
        subset_fault(hashes)
    }
}

/// Why a grant is not believed by the member that has asked for it.
pub open spec fn own_grant_fault(
    membership: Membership,
    grant: ShareGrant,
    provider: EndpointId,
    snapshot: SnapshotToken,
    manifest: AttestationView,
    hashes: Seq<Hash32>,
    now: u64,
) -> Option<ShareError> {
    if grant_fault(grant, membership.owner, membership.share_id, now) is Some {
        grant_fault(grant, membership.owner, membership.share_id, now)
    } else if grant.consumer != membership.endpoint || grant.provider != provider {
        Some(ShareError::EndpointMismatch)
    } else if grant.epoch != membership.epoch {
        Some(ShareError::EpochMismatch)
    } else if subset_fault(hashes) is Some {
        subset_fault(hashes)
    } else if grant.request_hash@ != request_digest(
        membership.share_id,
        snapshot.snapshot,
        manifest.manifest_hash,
        hashes,
    ) {
        Some(ShareError::ManifestMismatch)
    } else {
        None
    }
}

/// Why a permit is not believed by the member that has asked for it.
pub open spec fn own_permit_fault(
    membership: Membership,
    permit: ApplyPermit,
    snapshot: SnapshotToken,
    now: u64,
) -> Option<ShareError> {
    let fault = permit_fault(
        permit,
        membership.owner,
        membership.share_id,
        membership.endpoint,
        now,
    );
    if fault is Some {
        fault
    } else if permit.epoch != membership.epoch {
        Some(ShareError::EpochMismatch)
    } else if permit.snapshot != snapshot.snapshot || permit.root_hash != snapshot.root_hash {
        Some(ShareError::ManifestMismatch)
    } else {
        None
    }
}

/// Why a provider does not ask to activate a grant.
pub open spec fn serving_fault(membership: Membership, grant: ShareGrant) -> Option<ShareError> {
    if grant.provider != membership.endpoint {
        Some(ShareError::EndpointMismatch)
    } else if grant.share != membership.share_id || grant.owner != membership.owner
        || grant.provider_epoch != membership.epoch {
        Some(ShareError::EpochMismatch)
    } else {
        None
    }
}

/// Why an answer about an activation gives a provider no hold on the grant.
pub open spec fn own_lease_fault(
    membership: Membership,
    grant: ShareGrant,
    reply: ActivateGrantReply,
    started: u64,
    now: u64,
) -> Option<ShareError> {
    if reply_fault(reply, membership.owner, membership.share_id) is Some {
        reply_fault(reply, membership.owner, membership.share_id)
    } else if reply.provider != membership.endpoint {
        Some(ShareError::EndpointMismatch)
    } else if reply.nonce != grant.nonce {
        Some(ShareError::GrantReplay)
    } else {
        lease_fault(reply, started, now)
    }
}

impl ShareSession {
    /// Opens a session from a membership that is kept. No role is taken from a caller.
    pub fn open(registry: &Registry, own: EndpointId, owner: EndpointId, share: ShareId) -> (session:
        Result<(Self, EndpointAddr), ShareError>)
        requires
            registry.wf(),
        ensures
            match session {
                Ok(session) => {
                    let held = registry@.catalog.relationships[pair_key(owner, share)];
                    &&& session_fault(registry@.catalog, own, owner, share) is None
                    &&& session.0.membership == held.membership
                    &&& session.0.roster_challenge is None
                    &&& session.1@ == held.address
                },
                Err(error) => session_fault(registry@.catalog, own, owner, share) == Some(error),
            },
    {
        let held = match registry.catalog.relationship(owner, share) {
            Ok(held) => held,
            Err(error) => {
                return Err(error);
            },
        };
        if held.membership.owner != owner || held.address.id != owner || owner == own {
            return Err(ShareError::OwnerMismatch);
        }
        Ok(
            (
                ShareSession { membership: held.membership, roster_challenge: None },
                held.address,
            ),
        )
    }

    fn check_roster(&self, roster: &SignedRoster, now: u64) -> (result: Result<(), ShareError>)
        ensures
            match result {
                Ok(()) => own_roster_fault(self.membership, roster@, now) is None,
                Err(error) => own_roster_fault(self.membership, roster@, now) == Some(error),
            },
    {
        match roster.verify_for(self.membership.owner, self.membership.share_id, now) {
            Ok(()) => {},
            Err(error) => {
                return Err(error);
            },
        }
        match roster_member(roster, &self.membership.endpoint) {
            Some(entry) => if entry.permission == self.membership.permission && entry.member_epoch
                == self.membership.epoch {
                Ok(())
            } else {
                Err(ShareError::EpochMismatch)
            },
            None => Err(ShareError::EpochMismatch),
        }
    }

    /// Takes the answer to a request for a roster, and keeps the challenge that came with it.
    pub fn refresh_roster(&mut self, reply: Reply, now: u64) -> (roster: Result<
        SignedRoster,
        ShareError,
    >)
        ensures
            final(self).membership == old(self).membership,
            match reply {
                Reply::Roster { roster: sent, challenge } => {
                    let fault = own_roster_fault(old(self).membership, sent@, now);
                    match roster {
                        Ok(roster) => fault is None && roster == sent
                            && final(self).roster_challenge == Some(challenge),
                        Err(error) => fault == Some(error) && final(self).roster_challenge
                            == old(self).roster_challenge,
                    }
                },
                _ => roster == Err::<SignedRoster, ShareError>(ShareError::Protocol)
                    && final(self).roster_challenge == old(self).roster_challenge,
            },
    {
        match reply {
            Reply::Roster { roster, challenge } => {
                match self.check_roster(&roster, now) {
                    Ok(()) => {},
                    Err(error) => {
                        return Err(error);
                    },
                }
                self.roster_challenge = Some(challenge);
                Ok(roster)
            },
            _ => Err(ShareError::Protocol),
        }
    }

    /// Takes the answer to a heartbeat. The challenge that it has answered is used up.
    pub fn heartbeat(&mut self, challenge: GrantNonce, reply: Reply, now: u64) -> (result: Result<
        (),
        ShareError,
    >)
        ensures
            final(self).membership == old(self).membership,
            match reply {
                Reply::Heartbeat(roster) => {
                    let fault = own_roster_fault(old(self).membership, roster@, now);
                    match result {
                        Ok(()) => fault is None && final(self).roster_challenge == (if old(
                            self,
                        ).roster_challenge == Some(challenge) {
                            None
                        } else {
                            old(self).roster_challenge
                        }),
                        Err(error) => fault == Some(error) && final(self).roster_challenge
                            == old(self).roster_challenge,
                    }
                },
                _ => result == Err::<(), ShareError>(ShareError::Protocol)
                    && final(self).roster_challenge == old(self).roster_challenge,
            },
    {
        match reply {
            Reply::Heartbeat(roster) => {
                match self.check_roster(&roster, now) {
                    Ok(()) => {},
                    Err(error) => {
                        return Err(error);
                    },
                }
                let answered = match &self.roster_challenge {
                    Some(held) => same_array(held, &challenge),
                    None => false,
                };
                if answered {
                    self.roster_challenge = None;
                }
                Ok(())
            },
            _ => Err(ShareError::Protocol),
        }
    }

    /// Takes the answer to a request for a complete snapshot.
    pub fn fetch_authoritative_snapshot(&self, reply: Reply, now: u64) -> (snapshot: Result<
        AuthoritativeSnapshot,
        ShareFault,
    >)
        ensures
            match reply {
                Reply::Snapshot(sent) => {
                    let fault = snapshot_fault(
                        sent@,
                        self.membership.owner,
                        self.membership.share_id,
                        now,
                    );
                    match snapshot {
                        Ok(snapshot) => fault is None && sent.token.epoch == self.membership.epoch
                            && snapshot == sent,
                        Err(error) => if fault is Some {
                            fault == Some(error)
                        } else {
                            error == ShareFault::Share(ShareError::EpochMismatch)
                                && sent.token.epoch != self.membership.epoch
                        },
                    }
                },
                _ => snapshot == Err::<AuthoritativeSnapshot, ShareFault>(
                    ShareFault::Share(ShareError::Protocol),
                ),
            },
    {
        match reply {
            Reply::Snapshot(snapshot) => {
                match snapshot.verify_complete(
                    self.membership.owner,
                    self.membership.share_id,
                    now,
                ) {
                    Ok(()) => {},
                    Err(fault) => {
                        return Err(fault);
                    },
                }
                if snapshot.token.epoch != self.membership.epoch {
                    return Err(ShareFault::Share(ShareError::EpochMismatch));
                }
                Ok(snapshot)
            },
            _ => Err(ShareFault::Share(ShareError::Protocol)),
        }
    }

    /// Asks for the manifest of a record of a snapshot.
    pub fn manifest_request(&self, snapshot: &SnapshotToken, record: &SyncRecord) -> (operation:
        Result<Operation, ShareError>)
        ensures
            match operation {
                Ok(operation) => snapshot.epoch == self.membership.epoch && match operation {
                    Operation::Manifest { snapshot: asked, record: about } => asked == *snapshot
                        && about@ == record@,
                    _ => false,
                },
                Err(error) => snapshot.epoch != self.membership.epoch && error
                    == ShareError::EpochMismatch,
            },
    {
        if snapshot.epoch != self.membership.epoch {
            return Err(ShareError::EpochMismatch);
        }
        Ok(Operation::Manifest { snapshot: *snapshot, record: record.clone() })
    }

    /// Takes the answer to a request for a manifest.
    pub fn request_manifest(
        &self,
        snapshot: &SnapshotToken,
        record: &SyncRecord,
        reply: Reply,
        now: u64,
    ) -> (attestation: Result<ManifestAttestation, ShareFault>)
        ensures
            match reply {
                Reply::Manifest(sent) => {
                    let fault = attestation_fault(
                        sent@,
                        self.membership.owner,
                        self.membership.share_id,
                        now,
                    );
                    let about = attested_fault(sent@, *snapshot, record@);
                    match attestation {
                        Ok(attestation) => fault is None && about is None && attestation == sent,
                        Err(error) => if fault is Some {
                            fault == Some(error)
                        } else {
                            about is Some && error == ShareFault::Share(about->0)
                        },
                    }
                },
                _ => attestation == Err::<ManifestAttestation, ShareFault>(
                    ShareFault::Share(ShareError::Protocol),
                ),
            },
    {
        match reply {
            Reply::Manifest(attestation) => {
                match attestation.verify_for(
                    self.membership.owner,
                    self.membership.share_id,
                    now,
                ) {
                    Ok(()) => {},
                    Err(fault) => {
                        return Err(fault);
                    },
                }
                match attestation.verify_record(snapshot, record) {
                    Ok(()) => Ok(attestation),
                    Err(error) => Err(ShareFault::Share(error)),
                }
            },
            _ => Err(ShareFault::Share(ShareError::Protocol)),
        }
    }

    /// Checks a request for a grant before it is sent.
    pub fn swarm_grant_request(
        &self,
        snapshot: &SnapshotToken,
        manifest: &ManifestAttestation,
        hashes: &[Hash32],
    ) -> (result: Result<(), ShareError>)
        ensures
            match result {
                Ok(()) => wanting_fault(self.membership, *snapshot, manifest@, hashes@) is None,
                Err(error) => wanting_fault(self.membership, *snapshot, manifest@, hashes@)
                    == Some(error),
            },
    {
        if snapshot.epoch != self.membership.epoch {
            return Err(ShareError::EpochMismatch);
        }
        if snapshot.share != self.membership.share_id {
            return Err(ShareError::OwnerMismatch);
        }
        if manifest.share != snapshot.share {
            return Err(ShareError::ManifestMismatch);
        }
        if manifest.epoch != snapshot.epoch {
            return Err(ShareError::EpochMismatch);
        }
        validate_hash_subset(hashes)
    }

    /// Takes the answer to a request for a grant. It is bound to this member, the provider and the
    /// chunks that were asked for.
    pub fn request_swarm_grant(
        &self,
        provider: EndpointId,
        snapshot: &SnapshotToken,
        manifest: &ManifestAttestation,
        hashes: &[Hash32],
        reply: &Reply,
        now: u64,
    ) -> (grant: Result<ShareGrant, ShareError>)
        ensures
            match *reply {
                Reply::Grant(sent) => {
                    let fault = own_grant_fault(
                        self.membership,
                        sent,
                        provider,
                        *snapshot,
                        manifest@,
                        hashes@,
                        now,
                    );
                    match grant {
                        Ok(grant) => fault is None && grant == sent,
                        Err(error) => fault == Some(error),
                    }
                },
                _ => grant == Err::<ShareGrant, ShareError>(ShareError::Protocol),
            },
    {
        match reply {
            Reply::Grant(grant) => {
                match grant.verify_for(self.membership.owner, self.membership.share_id, now) {
                    Ok(()) => {},
                    Err(error) => {
                        return Err(error);
                    },
                }
                if grant.consumer != self.membership.endpoint || grant.provider != provider {
                    return Err(ShareError::EndpointMismatch);
                }
                if grant.epoch != self.membership.epoch {
                    return Err(ShareError::EpochMismatch);
                }
                let expected = match request_hash(
                    self.membership.share_id,
                    snapshot.snapshot,
                    manifest.manifest_hash,
                    hashes,
                ) {
                    Ok(expected) => expected,
                    Err(error) => {
                        return Err(error);
                    },
                };
                proof {
                    if grant.request_hash@ == expected@ {
                        lemma_hash_view_injective(grant.request_hash, expected);
                    }
                }
                if grant.request_hash != expected {
                    return Err(ShareError::ManifestMismatch);
                }
                Ok(*grant)
            },
            _ => Err(ShareError::Protocol),
        }
    }

    /// Asks, as a provider, to activate a grant.
    pub fn activation_request(&self, grant: &ShareGrant) -> (request: Result<
        ActivateGrantRequest,
        ShareError,
    >)
        ensures
            match request {
                Ok(request) => serving_fault(self.membership, *grant) is None && request
                    == activation_of(*grant),
                Err(error) => serving_fault(self.membership, *grant) == Some(error),
            },
    {
        if grant.provider != self.membership.endpoint {
            return Err(ShareError::EndpointMismatch);
        }
        if grant.share != self.membership.share_id || grant.owner != self.membership.owner
            || grant.provider_epoch != self.membership.epoch {
            return Err(ShareError::EpochMismatch);
        }
        Ok(grant.activate_request())
    }

    /// Takes the answer to an activation that was asked for at a moment. One that took too long is
    /// no activation, whatever it says.
    pub fn activate_grant(&self, grant: &ShareGrant, reply: &Reply, started: u64, now: u64) -> (lease:
        Result<ActivationLease, ShareError>)
        ensures
            if now - started > ACTIVATION_NANOS {
                lease == Err::<ActivationLease, ShareError>(ShareError::GrantExpired)
            } else {
                match *reply {
                    Reply::Activate(sent) => {
                        let fault = own_lease_fault(self.membership, *grant, sent, started, now);
                        match lease {
                            Ok(lease) => fault is None && lease.reply == sent && lease.deadline
                                == started + lease_nanos(sent),
                            Err(error) => fault == Some(error),
                        }
                    },
                    _ => lease == Err::<ActivationLease, ShareError>(ShareError::Protocol),
                }
            },
    {
        if now > started && now - started > ACTIVATION_NANOS {
            return Err(ShareError::GrantExpired);
        }
        match reply {
            Reply::Activate(reply) => {
                match reply.verify_for(self.membership.owner, self.membership.share_id) {
                    Ok(()) => {},
                    Err(error) => {
                        return Err(error);
                    },
                }
                if reply.provider != self.membership.endpoint {
                    return Err(ShareError::EndpointMismatch);
                }
                if !same_array(&reply.nonce, &grant.nonce) {
                    return Err(ShareError::GrantReplay);
                }
                ActivationLease::from_reply_at(*reply, started, now)
            },
            _ => Err(ShareError::Protocol),
        }
    }

    /// Says that this member's side of a grant has stopped.
    pub fn grant_drained(&self, grant: &ShareGrant, activation_id: [u8; 16]) -> (operation: Result<
        Operation,
        ShareError,
    >)
        ensures
            ({
                let member = self.membership;
                let party = grant.consumer == member.endpoint || grant.provider == member.endpoint;
                match operation {
                    Ok(operation) => grant.share == member.share_id && party && operation == (
                    Operation::GrantDrained { nonce: grant.nonce, activation_id }),
                    Err(error) => if grant.share != member.share_id {
                        error == ShareError::OwnerMismatch
                    } else {
                        !party && error == ShareError::EndpointMismatch
                    },
                }
            }),
    {
        if grant.share != self.membership.share_id {
            return Err(ShareError::OwnerMismatch);
        }
        if grant.consumer != self.membership.endpoint && grant.provider
            != self.membership.endpoint {
            return Err(ShareError::EndpointMismatch);
        }
        Ok(Operation::GrantDrained { nonce: grant.nonce, activation_id })
    }

    /// Asks for leave to apply a snapshot.
    pub fn revalidation_request(&self, snapshot: &SnapshotToken) -> (operation: Result<
        Operation,
        ShareError,
    >)
        ensures
            match operation {
                Ok(operation) => snapshot.epoch == self.membership.epoch && operation == (
                Operation::Revalidate { snapshot: *snapshot }),
                Err(error) => snapshot.epoch != self.membership.epoch && error
                    == ShareError::EpochMismatch,
            },
    {
        if snapshot.epoch != self.membership.epoch {
            return Err(ShareError::EpochMismatch);
        }
        Ok(Operation::Revalidate { snapshot: *snapshot })
    }

    /// Takes the answer to a request for leave to apply.
    pub fn revalidate_before_apply(&self, snapshot: &SnapshotToken, reply: &Reply, now: u64) -> (
    permit: Result<ApplyPermit, ShareError>)
        ensures
            match *reply {
                Reply::ApplyPermit(sent) => {
                    let fault = own_permit_fault(self.membership, sent, *snapshot, now);
                    match permit {
                        Ok(permit) => fault is None && permit == sent,
                        Err(error) => fault == Some(error),
                    }
                },
                _ => permit == Err::<ApplyPermit, ShareError>(ShareError::Protocol),
            },
    {
        match reply {
            Reply::ApplyPermit(permit) => {
                match permit.verify_for(
                    self.membership.owner,
                    self.membership.share_id,
                    self.membership.endpoint,
                    now,
                ) {
                    Ok(()) => {},
                    Err(error) => {
                        return Err(error);
                    },
                }
                if permit.epoch != self.membership.epoch {
                    return Err(ShareError::EpochMismatch);
                }
                if !same_array(&permit.snapshot, &snapshot.snapshot) || permit.root_hash
                    != snapshot.root_hash {
                    return Err(ShareError::ManifestMismatch);
                }
                Ok(*permit)
            },
            _ => Err(ShareError::Protocol),
        }
    }

    /// Says that this member starts to apply under a permit.
    pub fn apply_start(&self, permit: &ApplyPermit, operation_id: [u8; 16]) -> (operation: Result<
        Operation,
        ShareError,
    >)
        ensures
            match operation {
                Ok(operation) => permit.consumer == self.membership.endpoint && operation
                    == Operation::ApplyStart(
                    ApplyStart { operation_id, permit_nonce: permit.nonce },
                ),
                Err(error) => permit.consumer != self.membership.endpoint && error
                    == ShareError::EndpointMismatch,
            },
    {
        if permit.consumer != self.membership.endpoint {
            return Err(ShareError::EndpointMismatch);
        }
        Ok(Operation::ApplyStart(ApplyStart { operation_id, permit_nonce: permit.nonce }))
    }

    /// Says that this member's writer has stopped.
    pub fn apply_drained(&self, permit: &ApplyPermit, operation_id: [u8; 16], committed: bool) -> (
    operation: Result<Operation, ShareError>)
        ensures
            match operation {
                Ok(operation) => permit.consumer == self.membership.endpoint && operation
                    == Operation::ApplyDrained(
                    ApplyDrained { operation_id, permit_nonce: permit.nonce, committed },
                ),
                Err(error) => permit.consumer != self.membership.endpoint && error
                    == ShareError::EndpointMismatch,
            },
    {
        if permit.consumer != self.membership.endpoint {
            return Err(ShareError::EndpointMismatch);
        }
        Ok(
            Operation::ApplyDrained(
                ApplyDrained { operation_id, permit_nonce: permit.nonce, committed },
            ),
        )
    }
}

/// Checks that a share key is not one of the device itself before it is shown to its owner.
pub fn check_foreign(ticket: &ShareTicket, own: EndpointId) -> (result: Result<(), ShareError>)
    ensures
        match result {
            Ok(()) => ticket.body.owner != own,
            Err(error) => ticket.body.owner == own && error == ShareError::OwnerMismatch,
        },
{
    if ticket.body.owner == own {
        return Err(ShareError::OwnerMismatch);
    }
    Ok(())
}

/// Takes the answer to a question whether a share key is honoured.
pub fn validated(ticket: &ShareTicket, reply: Reply) -> (preview: Result<TicketPreview, ShareError>)
    ensures
        match reply {
            Reply::Validated(sent) => match preview {
                Ok(preview) => preview == sent && sent@ == preview_of(ticket.body@),
                Err(error) => sent@ != preview_of(ticket.body@) && error
                    == ShareError::InvalidTicket,
            },
            _ => preview == Err::<TicketPreview, ShareError>(ShareError::Protocol),
        },
{
    match reply {
        Reply::Validated(preview) => {
            if !preview.same(&ticket.preview()) {
                return Err(ShareError::InvalidTicket);
            }
            Ok(preview)
        },
        _ => Err(ShareError::Protocol),
    }
}

/// The membership is the one that was asked for.
pub open spec fn is_own(member: Membership, owner: EndpointId, share: ShareId, own: EndpointId) -> bool {
    member.owner == owner && member.share_id == share && member.endpoint == own
}

/// Takes a membership that an owner has sent in, and keeps it.
fn keep_membership(
    registry: &mut Registry,
    member: Membership,
    owner: EndpointId,
    share: ShareId,
    own: EndpointId,
    address: EndpointAddr,
) -> (result: Result<(), ShareError>)
    requires
        old(registry).wf(),
    ensures
        final(registry).wf(),
        kept(old(registry)@, final(registry)@, result, member, owner, share, own, address@),
{
    if member.owner != owner || member.share_id != share || member.endpoint != own {
        return Err(ShareError::OwnerMismatch);
    }
    registry.catalog.store_relationship(MemberRelationship { membership: member, address })
}

/// What keeping a membership comes to.
pub open spec fn kept(
    before: RegistryView,
    after: RegistryView,
    result: Result<(), ShareError>,
    member: Membership,
    owner: EndpointId,
    share: ShareId,
    own: EndpointId,
    address: crate::share::identity::AddressView,
) -> bool {
    let said = RelationshipView { membership: member, address };
    match result {
        Ok(()) => {
            &&& is_own(member, owner, share, own)
            &&& relating_fault(before.catalog, said) is None
            &&& after == with_catalog(
                before,
                related_catalog(before.catalog, said),
            )
        },
        Err(error) => after == before && if is_own(member, owner, share, own) {
            relating_fault(before.catalog, said) == Some(error)
        } else {
            error == ShareError::OwnerMismatch
        },
    }
}

/// Takes the answer to an enrolment, and keeps the membership.
pub fn enrolled(
    registry: &mut Registry,
    ticket: &ShareTicket,
    own: EndpointId,
    reply: &Reply,
) -> (member: Result<Membership, ShareError>)
    requires
        old(registry).wf(),
    ensures
        final(registry).wf(),
        match *reply {
            Reply::Enrolled(sent) => kept(
                old(registry)@,
                final(registry)@,
                (match member {
                    Ok(_) => Ok(()),
                    Err(error) => Err(error),
                }),
                sent,
                ticket.body.owner,
                ticket.body.share_id,
                own,
                ticket.body.address@,
            ) && (member is Ok ==> member->Ok_0 == sent),
            _ => member == Err::<Membership, ShareError>(ShareError::Protocol) && final(
                registry)@ == old(registry)@,
        },
{
    match reply {
        Reply::Enrolled(sent) => {
            match keep_membership(
                registry,
                *sent,
                ticket.body.owner,
                ticket.body.share_id,
                own,
                ticket.address(),
            ) {
                Ok(()) => Ok(*sent),
                Err(error) => Err(error),
            }
        },
        _ => Err(ShareError::Protocol),
    }
}

/// Checks whom a membership is asked back from.
pub fn check_resume(own: EndpointId, owner: EndpointId, address: &EndpointAddr) -> (result: Result<
    (),
    ShareError,
>)
    ensures
        match result {
            Ok(()) => owner != own && address.id == owner,
            Err(error) => !(owner != own && address.id == owner) && error
                == ShareError::OwnerMismatch,
        },
{
    if owner == own || address.id != owner {
        return Err(ShareError::OwnerMismatch);
    }
    Ok(())
}

/// Takes the answer to a request for a membership that is already there, and keeps it. One that
/// was revoked is kept too, and refused.
pub fn resumed(
    registry: &mut Registry,
    owner: EndpointId,
    share: ShareId,
    own: EndpointId,
    address: EndpointAddr,
    reply: &Reply,
) -> (member: Result<Membership, ShareError>)
    requires
        old(registry).wf(),
    ensures
        final(registry).wf(),
        match *reply {
            Reply::Resumed(sent) => match member {
                Ok(member) => member == sent && sent.revoked_at is None && kept(
                    old(registry)@,
                    final(registry)@,
                    Ok(()),
                    sent,
                    owner,
                    share,
                    own,
                    address@,
                ),
                Err(error) => kept(
                    old(registry)@,
                    final(registry)@,
                    Err(error),
                    sent,
                    owner,
                    share,
                    own,
                    address@,
                ) || error == ShareError::MemberRevoked && sent.revoked_at is Some && kept(
                    old(registry)@,
                    final(registry)@,
                    Ok(()),
                    sent,
                    owner,
                    share,
                    own,
                    address@,
                ),
            },
            _ => member == Err::<Membership, ShareError>(ShareError::Protocol) && final(
                registry)@ == old(registry)@,
        },
{
    match reply {
        Reply::Resumed(sent) => {
            match keep_membership(registry, *sent, owner, share, own, address) {
                Ok(()) => {},
                Err(error) => {
                    return Err(error);
                },
            }
            if sent.revoked_at.is_some() {
                return Err(ShareError::MemberRevoked);
            }
            Ok(*sent)
        },
        _ => Err(ShareError::Protocol),
    }
}

/// Checks that a membership that a caller shows is the one that is kept, and still holds.
pub fn check_supplier(
    registry: &Registry,
    own: EndpointId,
    owner: EndpointId,
    share: ShareId,
    membership: &Membership,
) -> (member: Result<Membership, ShareError>)
    requires
        registry.wf(),
    ensures
        ({
            let held = registry@.catalog.relationships[pair_key(owner, share)].membership;
            let there = registry@.catalog.relationships.contains_key(pair_key(owner, share));
            let fine = held == *membership && is_own(*membership, owner, share, own)
                && membership.revoked_at is None;
            match member {
                Ok(member) => there && fine && member == held,
                Err(error) => if !there {
                    error == ShareError::NotMember
                } else {
                    !fine && error == ShareError::ReplicaClaimRejected
                },
            }
        }),
{
    let held = match registry.catalog.relationship(owner, share) {
        Ok(held) => held.membership,
        Err(error) => {
            return Err(error);
        },
    };
    let same = held.share_id == membership.share_id && held.owner == membership.owner
        && held.endpoint == membership.endpoint && held.permission == membership.permission
        && held.replica == membership.replica && held.enrolled_at == membership.enrolled_at
        && held.revoked_at == membership.revoked_at && held.epoch == membership.epoch;
    if !same || membership.endpoint != own || membership.owner != owner || membership.share_id
        != share || membership.revoked_at.is_some() {
        return Err(ShareError::ReplicaClaimRejected);
    }
    Ok(held)
}

/// What is known of the storage that a member serves content from.
#[derive(Clone, Copy, Debug, PartialEq, Eq)]
pub struct SupplierStorage {
    /// Whether the lease is one of the folder.
    pub leased: bool,
    /// The share, and its owner, that the folder was leased for, if it was for one.
    pub leased_for: Option<(ShareId, EndpointId)>,
    /// Whether the index is one of the folder.
    pub index_on_root: bool,
    /// Whether the store lies in a private place of the lease.
    pub store_private: bool,
}

/// Why a member does not serve content of a share from a storage.
pub open spec fn storage_fault(
    owner: EndpointId,
    share: ShareId,
    storage: SupplierStorage,
) -> Option<ShareError> {
    if !storage.leased {
        Some(ShareError::StateUnavailable)
    } else if storage.leased_for != Some((share, owner)) {
        Some(ShareError::OwnerMismatch)
    } else if !storage.index_on_root || !storage.store_private {
        Some(ShareError::StateUnavailable)
    } else {
        None
    }
}

/// Checks the storage that a member serves content of a share from.
pub fn check_supplier_storage(owner: EndpointId, share: ShareId, storage: &SupplierStorage) -> (
result: Result<(), ShareError>)
    ensures
        match result {
            Ok(()) => storage_fault(owner, share, *storage) is None,
            Err(error) => storage_fault(owner, share, *storage) == Some(error),
        },
{
    if !storage.leased {
        return Err(ShareError::StateUnavailable);
    }
    let own = match &storage.leased_for {
        Some(held) => held.0 == share && held.1 == owner,
        None => false,
    };
    if !own {
        return Err(ShareError::OwnerMismatch);
    }
    if !storage.index_on_root || !storage.store_private {
        return Err(ShareError::StateUnavailable);
    }
    Ok(())
}

} // verus!
