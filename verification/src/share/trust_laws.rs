//! What a signed word must hold to be taken, who may use a share, and what a key is good for.
use vstd::prelude::*;

use crate::hash::{blake3_digest, ReplicaId};
use crate::manifest::{manifest_digest, manifest_fault, ManifestView};
use crate::record::{logical_digest, record_fault, RecordView, SyncEntryKind};
use crate::share::authority::{
    attestation_fault, attestation_message, attestation_payload, attested_fault, attesting_fault,
    grant_fault, grant_message, grant_payload, permit_fault, permit_message, permit_payload,
    reply_fault, reply_message, token_fault, token_message, token_payload, ActivateGrantReply,
    ApplyPermit, AttestationView, ShareGrant, SnapshotToken,
};
use crate::share::catalog::{
    access_fault, enrols, honouring_fault, issued_catalog, issuing_fault, knows_its_own,
    relating_fault, replicas_known, revocation_fault, revoked_member, unissued_catalog,
    unissuing_fault, with_member, CatalogView, Membership, RelationshipView, ShareView,
};
use crate::share::catalog_size::catalog_fits;
use crate::share::error::ShareError;
use crate::share::identity::{ed25519_accepts, EndpointId, InvitationId, Permission, ShareId};
use crate::share::roster_laws::after_seconds;
use crate::share::ticket::{
    preview_of, proof_holds, proof_message, ticket_bytes, ticket_fault, ticket_message, LegacyProof,
    SignedTicket, TicketView,
};
use crate::text::utf8;

verus! {

/// A word that was given at one time and ends at another holds at a third: it does not come from
/// more than five seconds ahead, and its end has not come.
pub open spec fn holds_at(issued_at: u64, expires_at: u64, now: u64) -> bool {
    issued_at <= after_seconds(now, 5) && now < expires_at
}

/// A word ends after it was given, and no later than so many seconds after.
pub open spec fn ends_within(issued_at: u64, expires_at: u64, seconds: int) -> bool {
    issued_at < expires_at && expires_at <= issued_at + seconds
}

/// A snapshot token is taken for an owner's share exactly if it names both, is of the first
/// version, has an epoch, counts no more than a million records, was signed by that owner, lives
/// for at most ninety seconds and holds at the time.
pub proof fn law_token_is_taken_for_what_it_says(
    token: SnapshotToken,
    owner: EndpointId,
    share: ShareId,
    now: u64,
)
    ensures
        token_fault(token, owner, share, now) is None <==> {
            &&& token.owner == owner
            &&& token.share == share
            &&& token.version == 1
            &&& token.epoch >= 1
            &&& token.record_count <= 1_000_000
            &&& token_payload(token).len() <= 16_777_152
            &&& ed25519_accepts(owner@, token_message(token), token.signature@)
            &&& ends_within(token.issued_at, token.expires_at, 90)
            &&& holds_at(token.issued_at, token.expires_at, now)
        },
        token.owner != owner || token.share != share ==> token_fault(token, owner, share, now)
            == Some(ShareError::OwnerMismatch),
        token_fault(token, owner, share, token.issued_at) is None && token.expires_at <= now
            ==> token_fault(token, owner, share, now) == Some(ShareError::GrantExpired),
        token_fault(token, owner, share, token.issued_at) is None && token.issued_at
            > after_seconds(now, 5) ==> token_fault(token, owner, share, now) == Some(
            ShareError::ClockRollback,
        ),
{
}

/// A grant is taken for an owner's share exactly if it names both, is of the first version, is for
/// a device that is neither the owner nor the one that serves it, has an epoch, was signed by that
/// owner, lives for at most two minutes and holds at the time.
pub proof fn law_grant_is_taken_for_what_it_says(
    grant: ShareGrant,
    owner: EndpointId,
    share: ShareId,
    now: u64,
)
    ensures
        grant_fault(grant, owner, share, now) is None <==> {
            &&& grant.owner == owner
            &&& grant.share == share
            &&& grant.version == 1
            &&& grant.consumer != owner
            &&& grant.consumer != grant.provider
            &&& grant.epoch >= 1
            &&& grant_payload(grant).len() <= 16_777_152
            &&& ed25519_accepts(owner@, grant_message(grant), grant.signature@)
            &&& ends_within(grant.issued_at, grant.expires_at, 120)
            &&& holds_at(grant.issued_at, grant.expires_at, now)
        },
        grant.owner != owner || grant.share != share ==> grant_fault(grant, owner, share, now)
            == Some(ShareError::OwnerMismatch),
        grant_fault(grant, owner, share, grant.issued_at) is None && grant.expires_at <= now
            ==> grant_fault(grant, owner, share, now) == Some(ShareError::GrantExpired),
        grant_fault(grant, owner, share, grant.issued_at) is None && grant.issued_at
            > after_seconds(now, 5) ==> grant_fault(grant, owner, share, now) == Some(
            ShareError::ClockRollback,
        ),
{
}

/// An apply permit is taken for a member of an owner's share exactly if it names all three, is of
/// the first version, has an epoch, was signed by that owner, lives for at most ten seconds and
/// holds at the time.
pub proof fn law_permit_is_taken_for_what_it_says(
    permit: ApplyPermit,
    owner: EndpointId,
    share: ShareId,
    consumer: EndpointId,
    now: u64,
)
    ensures
        permit_fault(permit, owner, share, consumer, now) is None <==> {
            &&& permit.owner == owner
            &&& permit.share == share
            &&& permit.consumer == consumer
            &&& permit.version == 1
            &&& permit.epoch >= 1
            &&& permit_payload(permit).len() <= 16_777_152
            &&& ed25519_accepts(owner@, permit_message(permit), permit.signature@)
            &&& ends_within(permit.issued_at, permit.expires_at, 10)
            &&& holds_at(permit.issued_at, permit.expires_at, now)
        },
        permit.owner != owner || permit.share != share ==> permit_fault(
            permit,
            owner,
            share,
            consumer,
            now,
        ) == Some(ShareError::OwnerMismatch),
        permit_fault(permit, owner, share, consumer, permit.issued_at) is None && permit.expires_at
            <= now ==> permit_fault(permit, owner, share, consumer, now) == Some(
            ShareError::GrantExpired,
        ),
{
}

/// The answer to an activation is taken for an owner's share exactly if it names the share, gives
/// no more than fifteen seconds and was signed by that owner.
pub proof fn law_reply_is_taken_for_what_it_says(
    reply: ActivateGrantReply,
    owner: EndpointId,
    share: ShareId,
)
    ensures
        reply_fault(reply, owner, share) is None <==> {
            &&& reply.share == share
            &&& reply.max_duration_secs <= 15
            &&& ed25519_accepts(owner@, reply_message(reply), reply.signature@)
        },
        reply.share != share ==> reply_fault(reply, owner, share) == Some(
            ShareError::OwnerMismatch,
        ),
{
}

/// An attested manifest is taken for an owner's share exactly if it names both, is of the first
/// version, has an epoch, holds a manifest that is valid and whose digest it gives, was signed by
/// that owner, lives for at most ninety seconds and holds at the time.
pub proof fn law_attestation_is_taken_for_what_it_says(
    a: AttestationView,
    owner: EndpointId,
    share: ShareId,
    now: u64,
)
    ensures
        attestation_fault(a, owner, share, now) is None <==> {
            &&& a.owner == owner
            &&& a.share == share
            &&& a.version == 1
            &&& a.epoch >= 1
            &&& manifest_fault(a.manifest) is None
            &&& a.manifest_hash@ == manifest_digest(a.manifest)
            &&& attestation_payload(a).len() <= 16_777_152
            &&& ed25519_accepts(owner@, attestation_message(a), a.signature@)
            &&& ends_within(a.issued_at, a.expires_at, 90)
            &&& holds_at(a.issued_at, a.expires_at, now)
        },
{
}

/// An attested manifest speaks of a record of a snapshot exactly if it names the snapshot, its
/// share and its epoch, gives the digest of the record, and the record is a file that is there,
/// of the size and with the content of the manifest.
pub proof fn law_attested_manifest_is_of_its_record(
    a: AttestationView,
    snapshot: SnapshotToken,
    record: RecordView,
)
    ensures
        attested_fault(a, snapshot, record) is None <==> {
            &&& a.snapshot == snapshot.snapshot
            &&& a.share == snapshot.share
            &&& a.epoch == snapshot.epoch
            &&& a.record_hash@ == logical_digest(record)
            &&& record.kind == SyncEntryKind::File
            &&& !record.tombstone
            &&& record.content_hash == Some(a.manifest.file_hash)
            &&& record.size == a.manifest.size
        },
{
}

/// An owner attests a manifest for a record exactly if both are valid and the record is a file that
/// is there, of the size and with the content of the manifest.
pub proof fn law_only_files_are_attested(record: RecordView, manifest: ManifestView)
    ensures
        attesting_fault(record, manifest) is None <==> {
            &&& record_fault(record) is None
            &&& manifest_fault(manifest) is None
            &&& record.kind == SyncEntryKind::File
            &&& !record.tombstone
            &&& record.content_hash == Some(manifest.file_hash)
            &&& record.size == manifest.size
        },
{
}

/// A share key is taken exactly if it is of the third version, names a share in at most 255 bytes
/// without control characters, points at its owner with at most sixteen addresses, is within 8192
/// bytes, was signed by that owner, and has no end or one that has not come and is after its issue.
pub proof fn law_key_is_taken_for_what_it_says(ticket: SignedTicket, now: u64)
    ensures
        ticket_fault(ticket, now) is None <==> {
            &&& ticket.body.version == 3
            &&& ticket.body.name.len() >= 1
            &&& utf8(ticket.body.name).len() <= 255
            &&& forall|i: int|
                0 <= i < ticket.body.name.len() ==> !((#[trigger] ticket.body.name[i]) as u32
                    <= 0x1f || 0x7f <= ticket.body.name[i] as u32 <= 0x9f)
            &&& ticket.body.address.id == ticket.body.owner
            &&& ticket.body.address.addrs.len() <= 16
            &&& ticket_bytes(ticket).len() <= 8192
            &&& ed25519_accepts(
                ticket.body.owner@,
                ticket_message(ticket.body),
                ticket.signature@,
            )
            &&& match ticket.body.expires_at {
                Some(end) => now < end && ticket.body.issued_at < end,
                None => true,
            }
        },
        ticket_fault(ticket, ticket.body.issued_at) is None && ticket_fault(ticket, now) is Some
            ==> ticket_fault(ticket, now) == Some(ShareError::Expired),
        ticket.body.version != 3 ==> ticket_fault(ticket, now) == Some(
            ShareError::UnsupportedVersion,
        ),
{
}

/// What a key shows before it is used is what it says of itself, and neither its secret nor where
/// its owner is.
pub proof fn law_preview_is_of_the_key(body: TicketView)
    ensures
        preview_of(body).share_id == body.share_id,
        preview_of(body).owner == body.owner,
        preview_of(body).name == body.name,
        preview_of(body).permission == body.permission,
        preview_of(body).invitation_id == body.invitation_id,
        preview_of(body).expires_at == body.expires_at,
{
}

/// A share honours a key at a time exactly if the key is taken, the share has issued it and not
/// revoked it since, and what was noted at its issue is what it says: its share, its permission,
/// its end, and the digest of all that was signed.
pub proof fn law_key_is_honoured_while_it_is_issued(
    entry: ShareView,
    ticket: SignedTicket,
    now: u64,
)
    ensures
        honouring_fault(entry, ticket, now) is None <==> {
            &&& ticket_fault(ticket, now) is None
            &&& entry.config.owner == ticket.body.owner
            &&& entry.invitations.contains_key(ticket.body.invitation_id@)
            &&& ({
                let issued = entry.invitations[ticket.body.invitation_id@];
                &&& issued.revoked_at is None
                &&& issued.share_id == ticket.body.share_id
                &&& issued.permission == ticket.body.permission
                &&& issued.expires_at == ticket.body.expires_at
                &&& issued.digest@ == blake3_digest(ticket_message(ticket.body))
            })
        },
        ticket_fault(ticket, now) is None && entry.invitations.contains_key(
            ticket.body.invitation_id@,
        ) && entry.invitations[ticket.body.invitation_id@].revoked_at is Some ==> honouring_fault(
            entry,
            ticket,
            now,
        ) == Some(ShareError::InvitationRevoked),
{
}

/// The proof that a device shows of a retained identity holds exactly if it is made for the key,
/// for the share and its owner and for the device that shows it, is of another device than that,
/// names the replica that goes with the retained key, and that key has signed it.
pub proof fn law_retained_identity_is_proved_for_one_use(
    claim: LegacyProof,
    body: TicketView,
    peer: EndpointId,
)
    ensures
        proof_holds(claim, body, peer) <==> {
            &&& claim.version == 3
            &&& claim.invitation == body.invitation_id
            &&& claim.share == body.share_id
            &&& claim.owner == body.owner
            &&& claim.new_endpoint == peer
            &&& claim.old_endpoint != peer
            &&& claim.replica@ == blake3_digest(claim.old_endpoint@)
            &&& ed25519_accepts(claim.old_endpoint@, proof_message(claim), claim.signature@)
        },
{
}

/// A device may use a share exactly if it is a member that is not revoked, and may write in it
/// exactly if it was let write besides. What is missing is told apart.
pub proof fn law_access_is_for_members(
    catalog: CatalogView,
    share: ShareId,
    peer: EndpointId,
    write: bool,
)
    ensures
        access_fault(catalog, share, peer, write) is None <==> {
            &&& catalog.shares.contains_key(share@)
            &&& catalog.shares[share@].members.contains_key(peer@)
            &&& catalog.shares[share@].members[peer@].revoked_at is None
            &&& write ==> catalog.shares[share@].members[peer@].permission == Permission::ReadWrite
        },
        !catalog.shares.contains_key(share@) ==> access_fault(catalog, share, peer, write) == Some(
            ShareError::UnknownShare,
        ),
        catalog.shares.contains_key(share@) && !catalog.shares[share@].members.contains_key(peer@)
            ==> access_fault(catalog, share, peer, write) == Some(ShareError::NotMember),
        access_fault(catalog, share, peer, write) is Some && access_fault(
            catalog,
            share,
            peer,
            false,
        ) is None ==> access_fault(catalog, share, peer, write) == Some(
            ShareError::PermissionDenied,
        ),
{
}

/// Revoking a member is refused only where there is no such member, its epoch cannot move or the
/// catalog would be too large. It sets the time, moves the epoch on by one and leaves everything
/// else of the member, of the share and of the catalog.
pub proof fn law_revocation_touches_one_member(
    catalog: CatalogView,
    share: ShareId,
    peer: EndpointId,
    now: u64,
)
    ensures
        revocation_fault(catalog, share, peer, now) is None ==> {
            &&& catalog.shares.contains_key(share@)
            &&& catalog.shares[share@].members.contains_key(peer@)
            &&& ({
                let was = catalog.shares[share@].members[peer@];
                let is = revoked_member(was, now);
                let after = with_member(catalog, share, peer, is);
                &&& after.shares[share@].members[peer@] == is
                &&& after.owner == catalog.owner
                &&& after.relationships == catalog.relationships
                &&& after.shares.dom() =~= catalog.shares.dom()
                &&& forall|key: Seq<u8>|
                    key != share@ && catalog.shares.contains_key(key)
                        ==> #[trigger] after.shares[key] == catalog.shares[key]
                &&& after.shares[share@].config == catalog.shares[share@].config
                &&& after.shares[share@].ready == catalog.shares[share@].ready
                &&& after.shares[share@].invitations == catalog.shares[share@].invitations
                &&& after.shares[share@].known == catalog.shares[share@].known
                &&& forall|key: Seq<u8>|
                    key != peer@ && catalog.shares[share@].members.contains_key(key)
                        ==> #[trigger] after.shares[share@].members[key]
                        == catalog.shares[share@].members[key]
                &&& is.share_id == was.share_id
                &&& is.owner == was.owner
                &&& is.endpoint == was.endpoint
                &&& is.permission == was.permission
                &&& is.replica == was.replica
                &&& is.enrolled_at == was.enrolled_at
                &&& was.revoked_at is None ==> is.revoked_at == Some(now) && is.epoch == was.epoch
                    + 1
                &&& was.revoked_at is Some ==> is == was
            })
        },
        catalog.shares.contains_key(share@) && catalog.shares[share@].members.contains_key(peer@)
            && catalog.shares[share@].members[peer@].epoch < u64::MAX && catalog_fits(
            with_member(
                catalog,
                share,
                peer,
                revoked_member(catalog.shares[share@].members[peer@], now),
            ),
        ) ==> revocation_fault(catalog, share, peer, now) is None,
{
}

/// A device is enrolled only with a key that its share honours, never as the owner's own device,
/// and never again once it is revoked. One that was a member before stays what it was. A new one is
/// a member of that share and its owner under its own name, from that time on, with the permission
/// of the key, at the first epoch, under the replica that it has proved to hold or else the one
/// drawn for it; all other members, and all other shares, stay.
pub proof fn law_enrolment_makes_the_member_of_the_key(
    before: CatalogView,
    after: CatalogView,
    member: Membership,
    ticket: SignedTicket,
    peer: EndpointId,
    claim: Option<LegacyProof>,
    fresh: ReplicaId,
    now: u64,
)
    requires
        enrols(before, after, Ok(member), ticket, peer, claim, fresh, now),
        replicas_known(before),
    ensures
        peer != before.owner,
        before.shares.contains_key(ticket.body.share_id@),
        honouring_fault(before.shares[ticket.body.share_id@], ticket, now) is None,
        claim is Some ==> proof_holds(claim->0, ticket.body, peer) && member.replica
            == claim->0.replica,
        before.shares[ticket.body.share_id@].members.contains_key(peer@) ==> after == before
            && member == before.shares[ticket.body.share_id@].members[peer@] && member.revoked_at
            is None,
        !before.shares[ticket.body.share_id@].members.contains_key(peer@) ==> {
            let was = before.shares[ticket.body.share_id@];
            let is = after.shares[ticket.body.share_id@];
            &&& was.members.dom().len() < 4096
            &&& member.share_id == was.config.share_id
            &&& member.owner == before.owner
            &&& member.endpoint == peer
            &&& member.permission == ticket.body.permission
            &&& member.enrolled_at == now
            &&& member.revoked_at is None
            &&& member.epoch == 1
            &&& claim is None ==> member.replica == fresh && !was.known.contains(fresh@)
            &&& member.replica != was.config.replica
            &&& forall|key: Seq<u8>|
                was.members.contains_key(key) ==> #[trigger] is.members[key] == was.members[key]
                    && was.members[key].replica != member.replica
            &&& is.members =~= was.members.insert(peer@, member)
            &&& is.known =~= was.known.insert(member.replica@)
            &&& is.invitations == was.invitations
            &&& is.config == was.config
            &&& is.ready == was.ready
            &&& after.owner == before.owner
            &&& after.relationships == before.relationships
            &&& forall|key: Seq<u8>|
                key != ticket.body.share_id@ && before.shares.contains_key(key)
                    ==> #[trigger] after.shares[key] == before.shares[key]
        },
{
    let was = before.shares[ticket.body.share_id@];
    if !was.members.contains_key(peer@) {
        assert(knows_its_own(was));
        if member.replica == was.config.replica {
            assert(was.known.contains(member.replica@));
        }
        assert forall|key: Seq<u8>| was.members.contains_key(key) implies #[trigger] after.shares[
        ticket.body.share_id@].members[key] == was.members[key] && was.members[key].replica
            != member.replica by {
            assert(was.known.contains(was.members[key].replica@));
        }
    }
}

/// A device that shows a key that is honoured and claims nothing becomes a member, if it is not the
/// owner's own, was not a member before and there is room for it.
pub proof fn law_key_lets_a_device_in(
    before: CatalogView,
    after: CatalogView,
    result: Result<Membership, ShareError>,
    ticket: SignedTicket,
    peer: EndpointId,
    fresh: ReplicaId,
    now: u64,
)
    requires
        enrols(before, after, result, ticket, peer, None, fresh, now),
        peer != before.owner,
        before.shares.contains_key(ticket.body.share_id@),
        honouring_fault(before.shares[ticket.body.share_id@], ticket, now) is None,
    ensures
        ({
            let was = before.shares[ticket.body.share_id@];
            &&& was.members.contains_key(peer@) && was.members[peer@].revoked_at is None
                ==> result is Ok
            &&& was.members.contains_key(peer@) && was.members[peer@].revoked_at is Some ==> result
                == Err::<Membership, ShareError>(ShareError::MemberRevoked)
            &&& !was.members.contains_key(peer@) && was.members.dom().len() < 4096
                && was.known.len() < 4096 && !was.known.contains(fresh@) ==> result is Ok || result
                == Err::<Membership, ShareError>(ShareError::StateUnavailable)
            &&& !was.members.contains_key(peer@) && was.members.dom().len() >= 4096 ==> result
                == Err::<Membership, ShareError>(ShareError::Busy)
        }),
{
}

/// A key that is issued is noted under its name with what it says, not revoked. Issuing the very
/// same key again changes nothing. The key that it takes the place of is revoked from that time,
/// unless it was before, and keeps everything else. All other keys, members and shares stay.
pub proof fn law_issue_notes_the_key(
    catalog: CatalogView,
    ticket: SignedTicket,
    revoke: Option<InvitationId>,
    now: u64,
)
    requires
        issuing_fault(catalog, ticket, revoke, now) is None,
    ensures
        catalog.shares.contains_key(ticket.body.share_id@),
        ({
            let after = issued_catalog(catalog, ticket, revoke, now);
            let was = catalog.shares[ticket.body.share_id@];
            let is = after.shares[ticket.body.share_id@];
            let noted = is.invitations[ticket.body.invitation_id@];
            &&& was.config.owner == ticket.body.owner
            &&& was.config.name == ticket.body.name
            &&& is.invitations.contains_key(ticket.body.invitation_id@)
            &&& noted.share_id == ticket.body.share_id
            &&& noted.permission == ticket.body.permission
            &&& noted.expires_at == ticket.body.expires_at
            &&& noted.revoked_at is None
            &&& was.invitations.contains_key(ticket.body.invitation_id@) ==> noted
                == was.invitations[ticket.body.invitation_id@]
            &&& !was.invitations.contains_key(ticket.body.invitation_id@) ==> noted.id
                == ticket.body.invitation_id && was.invitations.dom().len() < 4096
            &&& revoke is Some ==> {
                let older = was.invitations[revoke->0@];
                let ended = is.invitations[revoke->0@];
                &&& revoke->0 != ticket.body.invitation_id
                &&& was.invitations.contains_key(revoke->0@)
                &&& ended.id == older.id
                &&& ended.share_id == older.share_id
                &&& ended.permission == older.permission
                &&& ended.expires_at == older.expires_at
                &&& ended.digest == older.digest
                &&& older.revoked_at is None ==> ended.revoked_at == Some(now)
                &&& older.revoked_at is Some ==> ended.revoked_at == older.revoked_at
            }
            &&& forall|key: Seq<u8>|
                was.invitations.contains_key(key) && (revoke is None || key != revoke->0@)
                    ==> #[trigger] is.invitations[key] == was.invitations[key]
            &&& is.members == was.members
            &&& is.known == was.known
            &&& is.config == was.config
            &&& is.ready == was.ready
            &&& after.owner == catalog.owner
            &&& after.relationships == catalog.relationships
            &&& forall|key: Seq<u8>|
                key != ticket.body.share_id@ && catalog.shares.contains_key(key)
                    ==> #[trigger] after.shares[key] == catalog.shares[key]
        }),
{
    if let Some(older) = revoke {
        if older@ == ticket.body.invitation_id@ {
            assert(older.0 =~= ticket.body.invitation_id.0);
        }
    }
}

/// Revoking a key ends that key from that time, unless it was ended before, and nothing else.
pub proof fn law_revocation_of_a_key_ends_it(
    catalog: CatalogView,
    share: ShareId,
    invitation: InvitationId,
    now: u64,
)
    requires
        unissuing_fault(catalog, share, invitation, now) is None,
    ensures
        catalog.shares.contains_key(share@),
        catalog.shares[share@].invitations.contains_key(invitation@),
        ({
            let after = unissued_catalog(catalog, share, invitation, now);
            let was = catalog.shares[share@];
            let is = after.shares[share@];
            let older = was.invitations[invitation@];
            let ended = is.invitations[invitation@];
            &&& is.invitations.dom() =~= was.invitations.dom()
            &&& ended.id == older.id
            &&& ended.share_id == older.share_id
            &&& ended.permission == older.permission
            &&& ended.expires_at == older.expires_at
            &&& ended.digest == older.digest
            &&& older.revoked_at is None ==> ended.revoked_at == Some(now)
            &&& older.revoked_at is Some ==> ended.revoked_at == older.revoked_at
            &&& forall|key: Seq<u8>|
                key != invitation@ && was.invitations.contains_key(key)
                    ==> #[trigger] is.invitations[key] == was.invitations[key]
            &&& is.members == was.members
            &&& is.known == was.known
            &&& is.config == was.config
            &&& is.ready == was.ready
            &&& after.owner == catalog.owner
            &&& after.relationships == catalog.relationships
            &&& forall|key: Seq<u8>|
                key != share@ && catalog.shares.contains_key(key)
                    ==> #[trigger] after.shares[key] == catalog.shares[key]
        }),
{
}

/// A membership elsewhere is taken in only if it is this device's own, and of another device whose
/// address goes with it. One that is held already may come again, or come revoked and no earlier;
/// what it is of, the replica and the permission never change, and one that is revoked never comes
/// back.
pub proof fn law_membership_elsewhere_stays_what_it_is(
    catalog: CatalogView,
    relationship: RelationshipView,
    key: Seq<u8>,
)
    requires
        key == relationship.membership.owner@ + relationship.membership.share_id@,
        relating_fault(catalog, relationship) is None,
    ensures
        relationship.membership.endpoint == catalog.owner,
        relationship.membership.owner == relationship.address.id,
        relationship.membership.owner != catalog.owner,
        catalog.relationships.contains_key(key) ==> {
            let held = catalog.relationships[key].membership;
            let new = relationship.membership;
            &&& new.owner == held.owner
            &&& new.endpoint == held.endpoint
            &&& new.replica == held.replica
            &&& new.permission == held.permission
            &&& new.enrolled_at == held.enrolled_at
            &&& new.epoch >= held.epoch
            &&& held.revoked_at is Some ==> new.revoked_at == held.revoked_at && new.epoch
                == held.epoch
            &&& held.revoked_at is None && new.revoked_at is None ==> new.epoch == held.epoch
        },
{
}

} // verus!
