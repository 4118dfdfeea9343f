//! The owner's side of a share: what a member is answered.
//!
//! Whoever asks is the device at the other end of the connection; no role is taken from what is
//! sent. What needs the files of the share is handed out as a step, and answered once they are
//! read.
use vstd::prelude::*;

use crate::hash::{hash_with, lemma_hash_with, Hash32, ReplicaId};
use crate::manifest::{FileManifest, ManifestView};
use crate::merkle::{copy_records, gathered, load_fault, root_digest, views, MerkleTree};
use crate::record::{logical_digest, RecordView, SyncEntryKind, SyncRecord};
use crate::share::activation::{activates, draining_fault, with_drained};
use crate::share::applies::{permits, starting_fault, stopping_fault, with_started, with_stopped};
use crate::share::authority::{
    attestation_fault, attestation_shape_fault, attesting_fault, is_attestation, signed_token,
    snapshot_fault, token_fault, token_shape_fault, ActivateGrantReply, ActivateGrantRequest,
    ApplyStart, AttestationView, AuthoritativeSnapshot, ManifestAttestation, ShareGrant,
    SnapshotToken, SnapshotView,
};
use crate::share::catalog::{
    access_fault, claimed, enrols, honouring_fault, member_of, replica_known, Membership,
};
use crate::share::error::{classified, ShareError, ShareFault};
use crate::share::grants::{find_record, grants, record_with, stores};
use crate::share::heartbeats::{accepts, challenges};
use crate::share::identity::{
    public_id, EndpointId, GrantNonce, PermissionEpoch, SecretKey, ShareId, SnapshotId,
};
use crate::share::registry::{clock_fault, clocked, with_catalog, Registry, RegistryView};
use crate::share::roster::{random_nonce, HeartbeatView, RosterHeartbeat, SignedRoster};
use crate::share::ticket::{preview_of, LegacyProof, ShareTicket, SignedTicket};
use crate::share::wire::{Operation, Reply};

verus! {

/// A share that is served.
#[derive(Clone, Copy, Debug, PartialEq, Eq)]
pub struct Served {
    pub share: ShareId,
    /// Whether the share takes requests. One that is paused or withdrawn does not.
    pub enabled: bool,
}

/// What is done for a request.
pub enum Step {
    /// The answer is there.
    Answer(Reply),
    /// The share is scanned, and its records are sent as a snapshot for a member with this epoch.
    TakeSnapshot { epoch: PermissionEpoch },
    /// The file of a record is read, and its manifest is attested.
    AttestManifest { snapshot: SnapshotToken, record: SyncRecord },
    /// The share is scanned, and an apply is permitted if it still holds what the snapshot says.
    PermitApply { snapshot: SnapshotToken },
    /// The records are listed, and an apply is started if they are still the same.
    StartApply(ApplyStart),
}

/// The request is one on snapshots, grants and applies.
pub open spec fn is_authority(operation: Operation) -> bool {
    match operation {
        Operation::Snapshot => true,
        Operation::Manifest { .. } => true,
        Operation::SwarmGrant { .. } => true,
        Operation::Revalidate { .. } => true,
        Operation::ApplyStart(_) => true,
        Operation::ApplyDrained(_) => true,
        Operation::Activate(_) => true,
        Operation::GrantDrained { .. } => true,
        _ => false,
    }
}

/// The request says that something has stopped. It is taken while a share is paused, too: else a
/// writer that is known to have stopped would block a revocation for ever.
pub open spec fn is_acknowledgement(operation: Operation) -> bool {
    operation is ApplyDrained || operation is GrantDrained
}

/// What a request for a membership comes to.
pub open spec fn enrolling(
    before: RegistryView,
    after: RegistryView,
    result: Result<Reply, ShareError>,
    share: ShareId,
    peer: EndpointId,
    ticket: SignedTicket,
    claim: Option<LegacyProof>,
    now: u64,
) -> bool {
    if ticket.body.share_id != share {
        result == Err::<Reply, ShareError>(ShareError::InvalidTicket) && after == before
    } else {
        &&& after == with_catalog(before, after.catalog)
        &&& exists|member: Result<Membership, ShareError>, fresh: ReplicaId|
            #![trigger enrols(before.catalog, after.catalog, member, ticket, peer, claim, fresh, now)]
            !replica_known(before.catalog, share, fresh)
                && enrols(before.catalog, after.catalog, member, ticket, peer, claim, fresh, now)
                && result == (match member {
                Ok(member) => Ok::<Reply, ShareError>(Reply::Enrolled(member)),
                Err(error) => Err(error),
            })
    }
}

/// What a request for a roster comes to.
pub open spec fn sends_roster(
    before: RegistryView,
    after: RegistryView,
    result: Result<Reply, ShareError>,
    secret: Seq<u8>,
    share: ShareId,
    peer: EndpointId,
    now: u64,
) -> bool {
    exists|
        made: Result<(SignedRoster, GrantNonce), ShareError>,
        generation: SnapshotId,
        drawn: GrantNonce,
    |
        #![trigger challenges(before, after, made, secret, share, peer, generation, drawn, now)]
        challenges(before, after, made, secret, share, peer, generation, drawn, now) && result == (
        match made {
            Ok(made) => Ok::<Reply, ShareError>(
                Reply::Roster { roster: made.0, challenge: made.1 },
            ),
            Err(error) => Err(error),
        })
}

/// What a heartbeat comes to.
pub open spec fn takes_heartbeat(
    before: RegistryView,
    after: RegistryView,
    result: Result<Reply, ShareError>,
    secret: Seq<u8>,
    share: ShareId,
    peer: EndpointId,
    heartbeat: HeartbeatView,
    now: u64,
) -> bool {
    if heartbeat.share != share {
        result == Err::<Reply, ShareError>(ShareError::OwnerMismatch) && after == before
    } else {
        exists|made: Result<SignedRoster, ShareError>, generation: SnapshotId|
            #![trigger accepts(before, after, made, secret, heartbeat, peer, generation, now)]
            accepts(before, after, made, secret, heartbeat, peer, generation, now) && result == (
            match made {
                Ok(roster) => Ok::<Reply, ShareError>(Reply::Heartbeat(roster)),
                Err(error) => Err(error),
            })
    }
}

fn enroll(
    registry: &mut Registry,
    share: ShareId,
    peer: EndpointId,
    ticket: &ShareTicket,
    claim: Option<LegacyProof>,
    now: u64,
) -> (result: Result<Reply, ShareError>)
    requires
        old(registry).wf(),
    ensures
        final(registry).wf(),
        enrolling(old(registry)@, final(registry)@, result, share, peer, ticket@, claim, now),
{
    if ticket.body.share_id != share {
        return Err(ShareError::InvalidTicket);
    }
    let shown = match &claim {
        Some(claim) => Some(claim),
        None => None,
    };
    assert(claimed(shown) == claim);
    match registry.enroll(ticket, peer, shown, now) {
        Ok(member) => Ok(Reply::Enrolled(member)),
        Err(error) => Err(error),
    }
}

fn send_roster(
    registry: &mut Registry,
    key: &SecretKey,
    share: ShareId,
    peer: EndpointId,
    now: u64,
) -> (result: Result<Reply, ShareError>)
    requires
        old(registry).wf(),
    ensures
        final(registry).wf(),
        sends_roster(old(registry)@, final(registry)@, result, key@, share, peer, now),
{
    match registry.issue_roster_challenge(key, share, peer, now) {
        Ok(made) => Ok(Reply::Roster { roster: made.0, challenge: made.1 }),
        Err(error) => Err(error),
    }
}

fn take_heartbeat(
    registry: &mut Registry,
    key: &SecretKey,
    share: ShareId,
    peer: EndpointId,
    heartbeat: &RosterHeartbeat,
    now: u64,
) -> (result: Result<Reply, ShareError>)
    requires
        old(registry).wf(),
    ensures
        final(registry).wf(),
        takes_heartbeat(
            old(registry)@,
            final(registry)@,
            result,
            key@,
            share,
            peer,
            heartbeat@,
            now,
        ),
{
    if heartbeat.share != share {
        return Err(ShareError::OwnerMismatch);
    }
    match registry.accept_roster_heartbeat(key, heartbeat, peer, now) {
        Ok(roster) => Ok(Reply::Heartbeat(roster)),
        Err(error) => Err(error),
    }
}

/// What a request on keys, memberships and rosters comes to.
pub open spec fn controls(
    before: RegistryView,
    after: RegistryView,
    result: Result<Reply, ShareError>,
    secret: Seq<u8>,
    enabled: bool,
    share: ShareId,
    peer: EndpointId,
    operation: Operation,
    now: u64,
) -> bool {
    if !enabled {
        result == Err::<Reply, ShareError>(ShareError::Busy) && after == before
    } else {
        match operation {
            Operation::Validate(ticket) => after == before && if ticket.body.share_id != share {
                result == Err::<Reply, ShareError>(ShareError::InvalidTicket)
            } else if !before.catalog.shares.contains_key(share@) {
                result == Err::<Reply, ShareError>(ShareError::UnknownShare)
            } else {
                let fault = honouring_fault(before.catalog.shares[share@], ticket@, now);
                match result {
                    Ok(Reply::Validated(preview)) => fault is None && preview@ == preview_of(
                        ticket.body@,
                    ),
                    Ok(_) => false,
                    Err(error) => fault == Some(error),
                }
            },
            Operation::Enroll { ticket, proof_of_identity } => enrolling(
                before,
                after,
                result,
                share,
                peer,
                ticket@,
                proof_of_identity,
                now,
            ),
            Operation::Session => after == before && match access_fault(
                before.catalog,
                share,
                peer,
                false,
            ) {
                Some(error) => result == Err::<Reply, ShareError>(error),
                None => result == Ok::<Reply, ShareError>(Reply::Accepted),
            },
            Operation::Resume => after == before && match access_fault(
                before.catalog,
                share,
                peer,
                false,
            ) {
                Some(error) => result == Err::<Reply, ShareError>(error),
                None => result == Ok::<Reply, ShareError>(
                    Reply::Resumed(member_of(before.catalog, share, peer)),
                ),
            },
            Operation::Roster => sends_roster(before, after, result, secret, share, peer, now),
            Operation::Heartbeat(heartbeat) => takes_heartbeat(
                before,
                after,
                result,
                secret,
                share,
                peer,
                heartbeat@,
                now,
            ),
            _ => result == Err::<Reply, ShareError>(ShareError::Protocol) && after == before,
        }
    }
}

/// Answers a request on keys, memberships and rosters.
fn control(
    registry: &mut Registry,
    key: &SecretKey,
    enabled: bool,
    share: ShareId,
    peer: EndpointId,
    operation: Operation,
    now: u64,
) -> (result: Result<Reply, ShareError>)
    requires
        old(registry).wf(),
    ensures
        final(registry).wf(),
        controls(
            old(registry)@,
            final(registry)@,
            result,
            key@,
            enabled,
            share,
            peer,
            operation,
            now,
        ),
{
    if !enabled {
        return Err(ShareError::Busy);
    }
    match operation {
        Operation::Validate(ticket) => {
            if ticket.body.share_id != share {
                return Err(ShareError::InvalidTicket);
            }
            match registry.catalog.validate(&ticket, now) {
                Ok(()) => Ok(Reply::Validated(ticket.preview())),
                Err(error) => Err(error),
            }
        },
        Operation::Enroll { ticket, proof_of_identity } => enroll(
            registry,
            share,
            peer,
            &ticket,
            proof_of_identity,
            now,
        ),
        Operation::Session => match registry.authorize(share, peer, false) {
            Ok(_) => Ok(Reply::Accepted),
            Err(error) => Err(error),
        },
        Operation::Resume => match registry.authorize(share, peer, false) {
            Ok(member) => Ok(Reply::Resumed(member)),
            Err(error) => Err(error),
        },
        Operation::Roster => send_roster(registry, key, share, peer, now),
        Operation::Heartbeat(heartbeat) => take_heartbeat(
            registry,
            key,
            share,
            peer,
            &heartbeat,
            now,
        ),
        _ => Err(ShareError::Protocol),
    }
}

/// Why no manifest is attested for a record, before its file is read.
pub open spec fn manifest_fault_for(
    s: RegistryView,
    owner: EndpointId,
    share: ShareId,
    peer: EndpointId,
    snapshot: SnapshotToken,
    record: RecordView,
    now: u64,
) -> Option<ShareError> {
    if access_fault(s.catalog, share, peer, false) is Some {
        access_fault(s.catalog, share, peer, false)
    } else if token_fault(snapshot, owner, share, now) is Some {
        token_fault(snapshot, owner, share, now)
    } else if !s.snapshots.contains_key(snapshot.snapshot@)
        || s.snapshots[snapshot.snapshot@].token != snapshot {
        Some(ShareError::ManifestMismatch)
    } else if record_with(
        s.snapshots[snapshot.snapshot@]@.records,
        logical_digest(record),
        0,
    ) != Some(record) || record.tombstone || record.kind != SyncEntryKind::File {
        Some(ShareError::ManifestMismatch)
    } else {
        None
    }
}

/// Why a request for a grant is not one for this share.
pub open spec fn grant_request_fault(
    share: ShareId,
    peer: EndpointId,
    provider: EndpointId,
    snapshot: SnapshotToken,
    manifest: AttestationView,
) -> Option<ShareError> {
    if snapshot.share != share || manifest.share != share {
        Some(ShareError::OwnerMismatch)
    } else if manifest.epoch != snapshot.epoch {
        Some(ShareError::EpochMismatch)
    } else if peer == provider {
        Some(ShareError::EndpointMismatch)
    } else {
        None
    }
}

/// The request is refused, and nothing has changed.
pub open spec fn refused(
    before: RegistryView,
    after: RegistryView,
    result: Result<Step, ShareFault>,
    error: ShareError,
) -> bool {
    result == Err::<Step, ShareFault>(ShareFault::Share(error)) && after == before
}

/// What a request for a grant comes to.
pub open spec fn sends_grant(
    before: RegistryView,
    after: RegistryView,
    result: Result<Step, ShareFault>,
    secret: Seq<u8>,
    share: ShareId,
    peer: EndpointId,
    provider: EndpointId,
    snapshot: SnapshotToken,
    manifest: AttestationView,
    hashes: Seq<Hash32>,
    now: u64,
) -> bool {
    match grant_request_fault(share, peer, provider, snapshot, manifest) {
        Some(error) => refused(before, after, result, error),
        None => exists|made: Result<ShareGrant, ShareFault>, nonce: GrantNonce|
            #![trigger grants(before, after, made, secret, peer, provider, snapshot, manifest, hashes, nonce, now)]
            grants(
                before,
                after,
                made,
                secret,
                peer,
                provider,
                snapshot,
                manifest,
                hashes,
                nonce,
                now,
            ) && result == (match made {
                Ok(grant) => Ok::<Step, ShareFault>(Step::Answer(Reply::Grant(grant))),
                Err(fault) => Err(fault),
            }),
    }
}

/// What a request to activate a grant comes to.
pub open spec fn sends_activation(
    before: RegistryView,
    after: RegistryView,
    result: Result<Step, ShareFault>,
    secret: Seq<u8>,
    share: ShareId,
    peer: EndpointId,
    request: ActivateGrantRequest,
    started: u64,
    moment: u64,
    now: u64,
) -> bool {
    if request.share != share {
        refused(before, after, result, ShareError::OwnerMismatch)
    } else {
        exists|made: Result<ActivateGrantReply, ShareError>, activation_id: [u8; 16]|
            #![trigger activates(before, after, made, secret, request, peer, started, moment, activation_id, now)]
            activates(
                before,
                after,
                made,
                secret,
                request,
                peer,
                started,
                moment,
                activation_id,
                now,
            ) && result == (match made {
                Ok(reply) => Ok::<Step, ShareFault>(Step::Answer(Reply::Activate(reply))),
                Err(error) => Err(ShareFault::Share(error)),
            })
    }
}

fn send_grant(
    registry: &mut Registry,
    key: &SecretKey,
    share: ShareId,
    peer: EndpointId,
    provider: EndpointId,
    snapshot: &SnapshotToken,
    manifest: &ManifestAttestation,
    hashes: &[Hash32],
    now: u64,
) -> (result: Result<Step, ShareFault>)
    requires
        old(registry).wf(),
    ensures
        final(registry).wf(),
        sends_grant(
            old(registry)@,
            final(registry)@,
            result,
            key@,
            share,
            peer,
            provider,
            *snapshot,
            manifest@,
            hashes@,
            now,
        ),
{
    if snapshot.share != share || manifest.share != share {
        return Err(ShareFault::Share(ShareError::OwnerMismatch));
    }
    if manifest.epoch != snapshot.epoch {
        return Err(ShareFault::Share(ShareError::EpochMismatch));
    }
    if peer == provider {
        return Err(ShareFault::Share(ShareError::EndpointMismatch));
    }
    match registry.issue_swarm_grant(key, peer, provider, snapshot, manifest, hashes, now) {
        Ok(grant) => Ok(Step::Answer(Reply::Grant(grant))),
        Err(fault) => Err(fault),
    }
}

fn send_activation(
    registry: &mut Registry,
    key: &SecretKey,
    share: ShareId,
    peer: EndpointId,
    request: &ActivateGrantRequest,
    started: u64,
    moment: u64,
    now: u64,
) -> (result: Result<Step, ShareFault>)
    requires
        old(registry).wf(),
    ensures
        final(registry).wf(),
        sends_activation(
            old(registry)@,
            final(registry)@,
            result,
            key@,
            share,
            peer,
            *request,
            started,
            moment,
            now,
        ),
{
    if request.share != share {
        return Err(ShareFault::Share(ShareError::OwnerMismatch));
    }
    match registry.activate_grant_at(key, request, peer, started, moment, now) {
        Ok(reply) => Ok(Step::Answer(Reply::Activate(reply))),
        Err(error) => Err(ShareFault::Share(error)),
    }
}

/// What a request on snapshots, grants and applies comes to.
pub open spec fn authorizes(
    before: RegistryView,
    after: RegistryView,
    result: Result<Step, ShareFault>,
    secret: Seq<u8>,
    served: Served,
    share: ShareId,
    peer: EndpointId,
    operation: Operation,
    started: u64,
    moment: u64,
    now: u64,
) -> bool {
    let owner = public_id(secret);
    let access = access_fault(before.catalog, share, peer, false);
    if !served.enabled && !is_acknowledgement(operation) {
        refused(before, after, result, ShareError::Busy)
    } else if served.share != share {
        refused(before, after, result, ShareError::UnknownShare)
    } else {
        match operation {
            Operation::Snapshot => match access {
                Some(error) => refused(before, after, result, error),
                None => after == before && result == Ok::<Step, ShareFault>(
                    Step::TakeSnapshot { epoch: member_of(before.catalog, share, peer).epoch },
                ),
            },
            Operation::Manifest { snapshot, record } => match manifest_fault_for(
                before,
                owner,
                share,
                peer,
                snapshot,
                record@,
                now,
            ) {
                Some(error) => refused(before, after, result, error),
                None => after == before && result == Ok::<Step, ShareFault>(
                    Step::AttestManifest { snapshot, record },
                ),
            },
            Operation::SwarmGrant { provider, snapshot, manifest, hashes } => sends_grant(
                before,
                after,
                result,
                secret,
                share,
                peer,
                provider,
                snapshot,
                manifest@,
                hashes@,
                now,
            ),
            Operation::Revalidate { snapshot } => match access {
                Some(error) => refused(before, after, result, error),
                None => after == before && result == Ok::<Step, ShareFault>(
                    Step::PermitApply { snapshot },
                ),
            },
            Operation::ApplyStart(start) => match access {
                Some(error) => refused(before, after, result, error),
                None => after == before && result == Ok::<Step, ShareFault>(
                    Step::StartApply(start),
                ),
            },
            Operation::ApplyDrained(drained) => match stopping_fault(
                before,
                owner,
                share,
                peer,
                drained,
            ) {
                Some(error) => refused(before, after, result, error),
                None => after == with_stopped(before, drained) && result == Ok::<Step, ShareFault>(
                    Step::Answer(Reply::ApplyAccepted),
                ),
            },
            Operation::GrantDrained { nonce, activation_id } => match draining_fault(
                before,
                share,
                nonce,
                activation_id,
                peer,
            ) {
                Some(error) => refused(before, after, result, error),
                None => after == with_drained(before, nonce, peer) && result == Ok::<
                    Step,
                    ShareFault,
                >(Step::Answer(Reply::GrantDrained)),
            },
            Operation::Activate(request) => sends_activation(
                before,
                after,
                result,
                secret,
                share,
                peer,
                request,
                started,
                moment,
                now,
            ),
            _ => refused(before, after, result, ShareError::Protocol),
        }
    }
}

fn check_manifest_request(
    registry: &Registry,
    owner: EndpointId,
    share: ShareId,
    peer: EndpointId,
    snapshot: &SnapshotToken,
    record: &SyncRecord,
    now: u64,
) -> (result: Result<(), ShareError>)
    requires
        registry.wf(),
    ensures
        match result {
            Ok(()) => manifest_fault_for(
                registry@,
                owner,
                share,
                peer,
                *snapshot,
                record@,
                now,
            ) is None,
            Err(error) => manifest_fault_for(
                registry@,
                owner,
                share,
                peer,
                *snapshot,
                record@,
                now,
            ) == Some(error),
        },
{
    match registry.authorize(share, peer, false) {
        Ok(_) => {},
        Err(error) => {
            return Err(error);
        },
    }
    match snapshot.verify_for(owner, share, now) {
        Ok(()) => {},
        Err(error) => {
            return Err(error);
        },
    }
    let stored = match registry.snapshot(&snapshot.snapshot) {
        Some(stored) => stored,
        None => {
            return Err(ShareError::ManifestMismatch);
        },
    };
    if stored.token != *snapshot {
        return Err(ShareError::ManifestMismatch);
    }
    match find_record(&stored.records, &record.logical_hash()) {
        Some(held) => {
            if !held.same(record) || record.tombstone || record.kind != SyncEntryKind::File {
                return Err(ShareError::ManifestMismatch);
            }
            Ok(())
        },
        None => Err(ShareError::ManifestMismatch),
    }
}

fn from_error(result: Result<(), ShareError>, reply: Reply) -> (step: Result<Step, ShareFault>)
    ensures
        step == (match result {
            Ok(()) => Ok::<Step, ShareFault>(Step::Answer(reply)),
            Err(error) => Err(ShareFault::Share(error)),
        }),
{
    match result {
        Ok(()) => Ok(Step::Answer(reply)),
        Err(error) => Err(ShareFault::Share(error)),
    }
}

/// Takes a request on snapshots, grants and applies.
fn run_authority(
    registry: &mut Registry,
    key: &SecretKey,
    served: &Served,
    share: ShareId,
    peer: EndpointId,
    operation: Operation,
    started: u64,
    moment: u64,
    now: u64,
) -> (result: Result<Step, ShareFault>)
    requires
        old(registry).wf(),
    ensures
        final(registry).wf(),
        authorizes(
            old(registry)@,
            final(registry)@,
            result,
            key@,
            *served,
            share,
            peer,
            operation,
            started,
            moment,
            now,
        ),
{
    let acknowledgement = match &operation {
        Operation::ApplyDrained(_) => true,
        Operation::GrantDrained { .. } => true,
        _ => false,
    };
    if !acknowledgement && !served.enabled {
        return Err(ShareFault::Share(ShareError::Busy));
    }
    if served.share != share {
        return Err(ShareFault::Share(ShareError::UnknownShare));
    }
    match operation {
        Operation::Snapshot => match registry.authorize(share, peer, false) {
            Ok(member) => Ok(Step::TakeSnapshot { epoch: member.epoch }),
            Err(error) => Err(ShareFault::Share(error)),
        },
        Operation::Manifest { snapshot, record } => {
            match check_manifest_request(
                registry,
                key.public(),
                share,
                peer,
                &snapshot,
                &record,
                now,
            ) {
                Ok(()) => Ok(Step::AttestManifest { snapshot, record }),
                Err(error) => Err(ShareFault::Share(error)),
            }
        },
        Operation::SwarmGrant { provider, snapshot, manifest, hashes } => send_grant(
            registry,
            key,
            share,
            peer,
            provider,
            &snapshot,
            &manifest,
            hashes.as_slice(),
            now,
        ),
        Operation::Revalidate { snapshot } => match registry.authorize(share, peer, false) {
            Ok(_) => Ok(Step::PermitApply { snapshot }),
            Err(error) => Err(ShareFault::Share(error)),
        },
        Operation::ApplyStart(start) => match registry.authorize(share, peer, false) {
            Ok(_) => Ok(Step::StartApply(start)),
            Err(error) => Err(ShareFault::Share(error)),
        },
        Operation::ApplyDrained(drained) => from_error(
            registry.apply_drained(key.public(), share, peer, &drained),
            Reply::ApplyAccepted,
        ),
        Operation::GrantDrained { nonce, activation_id } => from_error(
            registry.drain_grant(share, nonce, activation_id, peer),
            Reply::GrantDrained,
        ),
        Operation::Activate(request) => send_activation(
            registry,
            key,
            share,
            peer,
            &request,
            started,
            moment,
            now,
        ),
        _ => Err(ShareFault::Share(ShareError::Protocol)),
    }
}

/// What is done after a result: a failure is answered with what a peer may be told of it.
pub open spec fn told(result: Result<Step, ShareFault>) -> Step {
    match result {
        Ok(step) => step,
        Err(fault) => Step::Answer(Reply::Error(classified(fault))),
    }
}

/// What a request comes to.
pub open spec fn runs(
    before: RegistryView,
    after: RegistryView,
    step: Step,
    secret: Seq<u8>,
    served: Option<Served>,
    share: ShareId,
    peer: EndpointId,
    operation: Operation,
    started: u64,
    moment: u64,
    now: u64,
) -> bool {
    match served {
        None => step == Step::Answer(Reply::Error(ShareError::UnknownShare)) && after == before,
        Some(served) => if is_authority(operation) {
            exists|result: Result<Step, ShareFault>|
                step == told(result) && #[trigger] authorizes(
                    before,
                    after,
                    result,
                    secret,
                    served,
                    share,
                    peer,
                    operation,
                    started,
                    moment,
                    now,
                )
        } else {
            exists|result: Result<Reply, ShareError>|
                step == Step::Answer(
                    match result {
                        Ok(reply) => reply,
                        Err(error) => Reply::Error(error),
                    },
                ) && #[trigger] controls(
                    before,
                    after,
                    result,
                    secret,
                    served.enabled,
                    share,
                    peer,
                    operation,
                    now,
                )
        },
    }
}

/// Takes a request of the device at the other end of a connection, for a share.
pub fn run(
    registry: &mut Registry,
    key: &SecretKey,
    served: Option<Served>,
    share: ShareId,
    peer: EndpointId,
    operation: Operation,
    started: u64,
    moment: u64,
    now: u64,
) -> (step: Step)
    requires
        old(registry).wf(),
    ensures
        final(registry).wf(),
        runs(
            old(registry)@,
            final(registry)@,
            step,
            key@,
            served,
            share,
            peer,
            operation,
            started,
            moment,
            now,
        ),
{
    let served = match served {
        Some(served) => served,
        None => {
            return Step::Answer(Reply::Error(ShareError::UnknownShare));
        },
    };
    let authority = match &operation {
        Operation::Snapshot => true,
        Operation::Manifest { .. } => true,
        Operation::SwarmGrant { .. } => true,
        Operation::Revalidate { .. } => true,
        Operation::ApplyStart(_) => true,
        Operation::ApplyDrained(_) => true,
        Operation::Activate(_) => true,
        Operation::GrantDrained { .. } => true,
        _ => false,
    };
    if authority {
        match run_authority(registry, key, &served, share, peer, operation, started, moment, now) {
            Ok(step) => step,
            Err(fault) => Step::Answer(Reply::Error(ShareError::classify(&fault))),
        }
    } else {
        match control(registry, key, served.enabled, share, peer, operation, now) {
            Ok(reply) => Step::Answer(reply),
            Err(error) => Step::Answer(Reply::Error(error)),
        }
    }
}

/// Checks a session once more after it was entered where a revocation would find it, and gives the
/// membership that it runs under.
pub fn confirm_session(
    registry: &Registry,
    served: &Served,
    share: ShareId,
    peer: EndpointId,
) -> (member: Result<Membership, ShareError>)
    requires
        registry.wf(),
    ensures
        match member {
            Ok(member) => served.enabled && access_fault(registry@.catalog, share, peer, false)
                is None && member == member_of(registry@.catalog, share, peer),
            Err(error) => if served.enabled {
                access_fault(registry@.catalog, share, peer, false) == Some(error)
            } else {
                error == ShareError::Busy
            },
        },
{
    if !served.enabled {
        return Err(ShareError::Busy);
    }
    registry.authorize(share, peer, false)
}

/// The snapshot that records lead to.
pub open spec fn snapshot_made(
    secret: Seq<u8>,
    share: ShareId,
    epoch: PermissionEpoch,
    records: Seq<RecordView>,
    id: SnapshotId,
    now: u64,
) -> SnapshotView {
    SnapshotView {
        token: signed_token(
            secret,
            share,
            epoch,
            id,
            hash_with(root_digest(gathered(records))),
            records.len() as u32,
            now,
        ),
        records,
    }
}

/// Why records lead to no snapshot.
pub open spec fn snapshot_made_fault(
    secret: Seq<u8>,
    share: ShareId,
    epoch: PermissionEpoch,
    records: Seq<RecordView>,
    id: SnapshotId,
    now: u64,
) -> Option<ShareFault> {
    let made = snapshot_made(secret, share, epoch, records, id, now);
    if load_fault(records) is Some {
        Some(ShareFault::Reconcile(load_fault(records)->0))
    } else if records.len() > u32::MAX {
        Some(ShareFault::Share(ShareError::Busy))
    } else if token_shape_fault(made.token) is Some {
        Some(ShareFault::Share(token_shape_fault(made.token)->0))
    } else {
        snapshot_fault(made, public_id(secret), share, now)
    }
}

/// What sending a snapshot comes to. The one that is kept says what the one that is sent says.
pub open spec fn sends_snapshot(
    before: RegistryView,
    after: RegistryView,
    result: Result<Reply, ShareFault>,
    secret: Seq<u8>,
    share: ShareId,
    epoch: PermissionEpoch,
    records: Seq<RecordView>,
    id: SnapshotId,
    now: u64,
) -> bool {
    let made = snapshot_made(secret, share, epoch, records, id, now);
    match snapshot_made_fault(secret, share, epoch, records, id, now) {
        Some(fault) => result == Err::<Reply, ShareFault>(fault) && after == before,
        None => exists|kept: AuthoritativeSnapshot, outcome: Result<(), ShareFault>|
            #![trigger stores(before, after, outcome, kept, now)]
            stores(before, after, outcome, kept, now) && kept@ == made && match outcome {
                Ok(()) => sent_snapshot(result, made),
                Err(fault) => result == Err::<Reply, ShareFault>(fault),
            },
    }
}

/// The answer is a snapshot that says this.
pub open spec fn sent_snapshot(result: Result<Reply, ShareFault>, made: SnapshotView) -> bool {
    match result {
        Ok(Reply::Snapshot(sent)) => sent@ == made,
        _ => false,
    }
}

/// Makes the snapshot that records lead to.
fn make_snapshot(
    key: &SecretKey,
    share: ShareId,
    epoch: PermissionEpoch,
    records: Vec<SyncRecord>,
    id: SnapshotId,
    now: u64,
) -> (snapshot: Result<AuthoritativeSnapshot, ShareFault>)
    ensures
        ({
            let fault = snapshot_made_fault(key@, share, epoch, views(records@), id, now);
            match snapshot {
                Ok(snapshot) => fault is None && snapshot@ == snapshot_made(
                    key@,
                    share,
                    epoch,
                    views(records@),
                    id,
                    now,
                ),
                Err(error) => fault == Some(error),
            }
        }),
{
    let ghost all = views(records@);
    assert(all.len() == records@.len());
    let tree = match MerkleTree::from_records(copy_records(&records)) {
        Ok(tree) => tree,
        Err(error) => {
            return Err(ShareFault::Reconcile(error));
        },
    };
    let root = tree.root_hash();
    proof {
        lemma_hash_with(root);
    }
    let token = match SnapshotToken::sign(key, share, epoch, id, root, records.len(), now) {
        Ok(token) => token,
        Err(error) => {
            return Err(ShareFault::Share(error));
        },
    };
    let snapshot = AuthoritativeSnapshot { token, records };
    assert(snapshot@ == snapshot_made(key@, share, epoch, all, id, now));
    match snapshot.verify_complete(key.public(), share, now) {
        Ok(()) => Ok(snapshot),
        Err(fault) => Err(fault),
    }
}

/// Sends the records of a share as a snapshot under a given identity, and keeps it.
pub fn send_snapshot_with(
    registry: &mut Registry,
    key: &SecretKey,
    share: ShareId,
    epoch: PermissionEpoch,
    records: Vec<SyncRecord>,
    id: SnapshotId,
    now: u64,
) -> (result: Result<Reply, ShareFault>)
    requires
        old(registry).wf(),
    ensures
        final(registry).wf(),
        sends_snapshot(
            old(registry)@,
            final(registry)@,
            result,
            key@,
            share,
            epoch,
            views(records@),
            id,
            now,
        ),
{
    let snapshot = match make_snapshot(key, share, epoch, records, id, now) {
        Ok(snapshot) => snapshot,
        Err(fault) => {
            return Err(fault);
        },
    };
    let sent = snapshot.clone();
    let outcome = registry.store_snapshot(snapshot, now);
    let result = match outcome {
        Ok(()) => Ok(Reply::Snapshot(sent)),
        Err(fault) => Err(fault),
    };
    assert(stores(old(registry)@, registry@, outcome, snapshot, now));
    result
}

/// Sends the records of a share as a snapshot under a fresh identity, and keeps it.
pub fn send_snapshot(
    registry: &mut Registry,
    key: &SecretKey,
    share: ShareId,
    epoch: PermissionEpoch,
    records: Vec<SyncRecord>,
    now: u64,
) -> (result: Result<Reply, ShareFault>)
    requires
        old(registry).wf(),
    ensures
        final(registry).wf(),
        exists|id: SnapshotId| #[trigger]
            sends_snapshot(
                old(registry)@,
                final(registry)@,
                result,
                key@,
                share,
                epoch,
                views(records@),
                id,
                now,
            ),
{
    let ghost all = views(records@);
    let id = random_nonce();
    let result = send_snapshot_with(registry, key, share, epoch, records, id, now);
    assert(sends_snapshot(
        old(registry)@,
        registry@,
        result,
        key@,
        share,
        epoch,
        all,
        id,
        now,
    ));
    result
}

/// Why an attestation is not sent. Its shape comes before whose it is.
pub open spec fn unsent_fault(
    a: AttestationView,
    owner: EndpointId,
    share: ShareId,
    now: u64,
) -> Option<ShareFault> {
    if attestation_shape_fault(a) is Some {
        attestation_shape_fault(a)
    } else {
        attestation_fault(a, owner, share, now)
    }
}

/// What attesting a manifest comes to.
pub open spec fn sends_manifest(
    result: Result<Reply, ShareFault>,
    secret: Seq<u8>,
    share: ShareId,
    snapshot: SnapshotToken,
    record: RecordView,
    manifest: ManifestView,
    now: u64,
) -> bool {
    match result {
        Ok(Reply::Manifest(sent)) => {
            &&& attesting_fault(record, manifest) is None
            &&& is_attestation(sent@, secret, snapshot, record, manifest, now)
            &&& attestation_fault(sent@, public_id(secret), share, now) is None
        },
        Ok(_) => false,
        Err(fault) => if attesting_fault(record, manifest) is Some {
            attesting_fault(record, manifest) == Some(fault)
        } else {
            exists|a: AttestationView|
                #![trigger attestation_shape_fault(a)]
                is_attestation(a, secret, snapshot, record, manifest, now) && unsent_fault(
                    a,
                    public_id(secret),
                    share,
                    now,
                ) == Some(fault)
        },
    }
}

/// Attests the manifest of the file that a record describes.
pub fn send_manifest(
    key: &SecretKey,
    share: ShareId,
    snapshot: &SnapshotToken,
    record: &SyncRecord,
    manifest: FileManifest,
    now: u64,
) -> (result: Result<Reply, ShareFault>)
    ensures
        sends_manifest(result, key@, share, *snapshot, record@, manifest@, now),
{
    let attestation = match ManifestAttestation::sign(key, snapshot, record, manifest, now) {
        Ok(attestation) => attestation,
        Err(fault) => {
            return Err(fault);
        },
    };
    match attestation.verify_for(key.public(), share, now) {
        Ok(()) => Ok(Reply::Manifest(attestation)),
        Err(fault) => {
            assert(attestation_shape_fault(attestation@) is None);
            Err(fault)
        },
    }
}

/// What permitting an apply comes to.
pub open spec fn sends_permit(
    before: RegistryView,
    after: RegistryView,
    result: Result<Reply, ShareFault>,
    secret: Seq<u8>,
    peer: EndpointId,
    snapshot: SnapshotToken,
    records: Seq<RecordView>,
    nonce: GrantNonce,
    now: u64,
) -> bool {
    let root = hash_with(root_digest(gathered(records)));
    match load_fault(records) {
        Some(error) => result == Err::<Reply, ShareFault>(ShareFault::Reconcile(error)) && after
            == before,
        None => match result {
            Ok(Reply::ApplyPermit(permit)) => permits(
                before,
                after,
                Ok(permit),
                secret,
                peer,
                snapshot,
                root,
                nonce,
                now,
            ),
            Err(ShareFault::Share(error)) => permits(
                before,
                after,
                Err(error),
                secret,
                peer,
                snapshot,
                root,
                nonce,
                now,
            ),
            _ => false,
        },
    }
}

/// Permits an apply under a given nonce if the records of the share are those of the snapshot.
pub fn send_permit_with(
    registry: &mut Registry,
    key: &SecretKey,
    peer: EndpointId,
    snapshot: &SnapshotToken,
    records: Vec<SyncRecord>,
    nonce: GrantNonce,
    now: u64,
) -> (result: Result<Reply, ShareFault>)
    requires
        old(registry).wf(),
    ensures
        final(registry).wf(),
        sends_permit(
            old(registry)@,
            final(registry)@,
            result,
            key@,
            peer,
            *snapshot,
            views(records@),
            nonce,
            now,
        ),
{
    let root = match MerkleTree::from_records(records) {
        Ok(tree) => tree.root_hash(),
        Err(error) => {
            return Err(ShareFault::Reconcile(error));
        },
    };
    proof {
        lemma_hash_with(root);
    }
    match registry.issue_apply_permit_with(key, peer, snapshot, root, nonce, now) {
        Ok(permit) => Ok(Reply::ApplyPermit(permit)),
        Err(error) => Err(ShareFault::Share(error)),
    }
}

/// Permits an apply if the records of the share are those of the snapshot.
pub fn send_permit(
    registry: &mut Registry,
    key: &SecretKey,
    peer: EndpointId,
    snapshot: &SnapshotToken,
    records: Vec<SyncRecord>,
    now: u64,
) -> (result: Result<Reply, ShareFault>)
    requires
        old(registry).wf(),
    ensures
        final(registry).wf(),
        exists|nonce: GrantNonce| #[trigger]
            sends_permit(
                old(registry)@,
                final(registry)@,
                result,
                key@,
                peer,
                *snapshot,
                views(records@),
                nonce,
                now,
            ),
{
    let ghost all = views(records@);
    let nonce = random_nonce();
    let result = send_permit_with(registry, key, peer, snapshot, records, nonce, now);
    assert(sends_permit(
        old(registry)@,
        registry@,
        result,
        key@,
        peer,
        *snapshot,
        all,
        nonce,
        now,
    ));
    result
}

/// Starts an apply if the records of the share are still those that it was permitted for.
pub fn start_apply(
    registry: &mut Registry,
    key: &SecretKey,
    share: ShareId,
    peer: EndpointId,
    start: &ApplyStart,
    records: Vec<SyncRecord>,
    now: u64,
) -> (result: Result<Reply, ShareFault>)
    requires
        old(registry).wf(),
    ensures
        final(registry).wf(),
        ({
            let all = views(records@);
            let s = clocked(old(registry)@, now);
            let root = hash_with(root_digest(gathered(all)));
            let fault = starting_fault(s, public_id(key@), share, peer, root, *start, now);
            if load_fault(all) is Some {
                result == Err::<Reply, ShareFault>(ShareFault::Reconcile(load_fault(all)->0))
                    && final(registry)@ == old(registry)@
            } else if clock_fault(old(registry)@.clock, now) is Some {
                result == Err::<Reply, ShareFault>(
                    ShareFault::Share(clock_fault(old(registry)@.clock, now)->0),
                ) && final(registry)@ == s
            } else if fault is Some {
                result == Err::<Reply, ShareFault>(ShareFault::Share(fault->0)) && final(
                    registry)@ == s
            } else {
                result == Ok::<Reply, ShareFault>(Reply::ApplyAccepted) && final(registry)@
                    == with_started(s, *start)
            }
        }),
{
    let root = match MerkleTree::from_records(records) {
        Ok(tree) => tree.root_hash(),
        Err(error) => {
            return Err(ShareFault::Reconcile(error));
        },
    };
    proof {
        lemma_hash_with(root);
    }
    match registry.apply_start(key.public(), share, peer, root, start, now) {
        Ok(()) => Ok(Reply::ApplyAccepted),
        Err(error) => Err(ShareFault::Share(error)),
    }
}

} // verus!
