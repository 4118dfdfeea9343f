//! What holds of the registry over several requests.
use vstd::prelude::*;

use crate::hash::{Hash32, ReplicaId};
use crate::share::activation::{
    activates, activating_fault, apply_blocks, blocking_applies, blocking_grants, draining_fault,
    grant_blocks, revocation_of, with_cancelled, with_drained, with_revoked,
};
use crate::share::applies::{starting_fault, stopping_fault, with_started, with_stopped};
use crate::share::authority::{
    activation_of, ActivateGrantReply, ActivateGrantRequest, ApplyDrained, ApplyStart,
    AttestationView, ShareGrant, SnapshotToken,
};
use crate::share::catalog::{
    access_fault, enrols, honouring_fault, issued_invitations, member_of, revoked_invitation,
    revoked_member, revoking_fault, CatalogView, Invitation, Membership,
};
use crate::share::error::ShareError;
use crate::share::grants::{entry_of, grants};
use crate::share::identity::{public_id, EndpointId, GrantNonce, InvitationId, Permission, ShareId};
use crate::share::registry::{
    apply_gone, apply_over, clock_fault, clocked, drain_of, expired_apply, expired_grant,
    grant_gone, grant_over, issues_key, removing_fault, reopened_clock, restarted_apply,
    restarted_grant, seen, swept, without_share, RegistryView,
};
use crate::share::roster::{entries_fault_from, EntryView};
use crate::share::rows::{ApplyRow, ApplyState, ClockAnchor, GrantRow, GrantState};
use crate::share::ticket::{LegacyProof, SignedTicket};
use crate::table::listing;

verus! {

/// A member that is revoked may do nothing in the share from then on.
pub proof fn law_revoked_member_is_refused(
    s: RegistryView,
    share: ShareId,
    peer: EndpointId,
    now: u64,
    write: bool,
)
    requires
        revoking_fault(s.catalog, share, peer) is None,
    ensures
        access_fault(with_revoked(s, share, peer, now).catalog, share, peer, write) == Some(
            ShareError::MemberRevoked,
        ),
{
}

/// No enrolment brings a revoked member back, with whatever key and whatever proof.
pub proof fn law_enrolment_never_restores_a_revoked_member(
    before: CatalogView,
    after: CatalogView,
    result: Result<Membership, ShareError>,
    ticket: SignedTicket,
    peer: EndpointId,
    claim: Option<LegacyProof>,
    fresh: ReplicaId,
    now: u64,
    share: ShareId,
    other: EndpointId,
)
    requires
        enrols(before, after, result, ticket, peer, claim, fresh, now),
        access_fault(before, share, other, false) == Some(ShareError::MemberRevoked),
    ensures
        access_fault(after, share, other, false) == Some(ShareError::MemberRevoked),
        other == peer && ticket.body.share_id == share ==> result is Err,
{
    if result is Ok && !before.shares[ticket.body.share_id@].members.contains_key(peer@) {
        if ticket.body.share_id@ == share@ {
            assert(other@ != peer@);
        }
    }
}

/// Revoking a member moves its epoch on, once: everything that was signed for the old one is
/// refused, and revoking it again changes nothing.
pub proof fn law_revocation_moves_the_epoch_once(member: Membership, now: u64, later: u64)
    requires
        member.epoch < u64::MAX,
    ensures
        member.revoked_at is None ==> revoked_member(member, now).epoch == member.epoch + 1,
        revoked_member(revoked_member(member, now), later) == revoked_member(member, now),
{
}

/// A device that was enrolled may use the share, and enrolling it again changes nothing and gives
/// the same membership.
pub proof fn law_enrolled_device_is_a_member(
    before: CatalogView,
    after: CatalogView,
    member: Membership,
    ticket: SignedTicket,
    peer: EndpointId,
    claim: Option<LegacyProof>,
    fresh: ReplicaId,
    now: u64,
)
    requires
        enrols(before, after, Ok(member), ticket, peer, claim, fresh, now),
    ensures
        access_fault(after, ticket.body.share_id, peer, false) is None,
        member_of(after, ticket.body.share_id, peer) == member,
        enrols(after, after, Ok(member), ticket, peer, claim, fresh, now),
{
    let share = ticket.body.share_id;
    assert(after.shares[share@].invitations == before.shares[share@].invitations);
    assert(after.shares[share@].config == before.shares[share@].config);
}

/// Enrolling a device gives it the permission of the key that it showed, if it was no member
/// before.
pub proof fn law_enrolment_gives_the_permission_of_the_key(
    before: CatalogView,
    after: CatalogView,
    member: Membership,
    ticket: SignedTicket,
    peer: EndpointId,
    claim: Option<LegacyProof>,
    fresh: ReplicaId,
    now: u64,
)
    requires
        enrols(before, after, Ok(member), ticket, peer, claim, fresh, now),
        !before.shares[ticket.body.share_id@].members.contains_key(peer@),
    ensures
        member.permission == ticket.body.permission,
        access_fault(after, ticket.body.share_id, peer, true) is None <==> ticket.body.permission
            == Permission::ReadWrite,
{
}

/// A key that was issued is honoured, at the time at which it was issued.
pub proof fn law_issued_key_is_honoured(
    before: RegistryView,
    after: RegistryView,
    ticket: SignedTicket,
    now: u64,
)
    requires
        issues_key(before, after, Ok(()), ticket, None, now),
    ensures
        honouring_fault(after.catalog.shares[ticket.body.share_id@], ticket, now) is None,
{
}

/// A key that is revoked is not honoured any more, at any time.
pub proof fn law_revoked_key_is_refused(
    entry: crate::share::catalog::ShareView,
    ticket: SignedTicket,
    now: u64,
    later: u64,
)
    requires
        entry.invitations.contains_key(ticket.body.invitation_id@),
    ensures
        honouring_fault(
            crate::share::catalog::ShareView {
                invitations: entry.invitations.insert(
                    ticket.body.invitation_id@,
                    revoked_invitation(entry.invitations[ticket.body.invitation_id@], now),
                ),
                ..entry
            },
            ticket,
            later,
        ) is Some,
{
}

/// Issuing keys never brings a revoked one back.
pub proof fn law_issuing_never_restores_a_revoked_key(
    invitations: Map<Seq<u8>, Invitation>,
    ticket: SignedTicket,
    revoke: Option<InvitationId>,
    now: u64,
    key: Seq<u8>,
)
    requires
        invitations.contains_key(key),
        invitations[key].revoked_at is Some,
    ensures
        issued_invitations(invitations, ticket, revoke, now).contains_key(key),
        issued_invitations(invitations, ticket, revoke, now)[key] == invitations[key],
{
}

/// Once the clock has gone back nothing is granted any more, whatever it shows later.
pub proof fn law_clock_quarantine_is_for_good(clock: ClockAnchor, wall: u64, later: u64)
    requires
        clock_fault(clock, wall) is Some,
    ensures
        clock_fault(seen(clock, wall), later) is Some,
        seen(seen(clock, wall), later) == seen(clock, wall),
{
}

/// A restart does not lift a quarantine.
pub proof fn law_restart_keeps_the_quarantine(clock: ClockAnchor, wall: u64, boot: [u8; 16])
    requires
        clock.quarantined,
    ensures
        reopened_clock(Some(clock), wall, boot).quarantined,
{
}

/// The time that was seen last never goes back.
pub proof fn law_clock_never_goes_back(clock: ClockAnchor, wall: u64)
    ensures
        seen(clock, wall).last_wall >= clock.last_wall,
{
}

/// A grant is drained only when both sides have said so: the lifetime of an activation is no
/// acknowledgement, and one side cannot speak for the other.
pub proof fn law_drain_needs_both_sides(
    s: RegistryView,
    share: ShareId,
    nonce: GrantNonce,
    activation_id: [u8; 16],
    peer: EndpointId,
)
    requires
        draining_fault(s, share, nonce, activation_id, peer) is None,
        s.grants[nonce@].grant.nonce == nonce,
        s.grants[nonce@].state != GrantState::Drained,
        s.grants[nonce@].grant.consumer != s.grants[nonce@].grant.provider,
    ensures
        ({
            let row = s.grants[nonce@];
            let after = with_drained(s, nonce, peer);
            &&& after.grants.contains_key(nonce@)
            &&& after.grants[nonce@].state == GrantState::Drained <==> (if row.grant.consumer
                == peer {
                drain_of(s, nonce).provider_drained
            } else {
                drain_of(s, nonce).consumer_drained
            })
        }),
{
}

/// The second side's word drains a grant, in whichever order they come.
pub proof fn law_both_sides_drain_a_grant(
    s: RegistryView,
    share: ShareId,
    nonce: GrantNonce,
    activation_id: [u8; 16],
    first: EndpointId,
    second: EndpointId,
)
    requires
        draining_fault(s, share, nonce, activation_id, first) is None,
        draining_fault(s, share, nonce, activation_id, second) is None,
        s.grants[nonce@].grant.nonce == nonce,
        first != second,
    ensures
        ({
            let middle = with_drained(s, nonce, first);
            &&& draining_fault(middle, share, nonce, activation_id, second) is None
            &&& with_drained(middle, nonce, second).grants[nonce@].state == GrantState::Drained
        }),
{
}

/// What may still have a writer is never swept away, however old it is.
pub proof fn law_sweep_keeps_what_is_in_flight(
    s: RegistryView,
    wall: u64,
    share: ShareId,
    peer: EndpointId,
    key: Seq<u8>,
)
    ensures
        s.grants.contains_key(key) && grant_blocks(s.grants[key], share, peer) ==> swept(
            s,
            wall,
        ).grants.contains_key(key) && swept(s, wall).grants[key] == s.grants[key],
        s.applies.contains_key(key) && apply_blocks(s.applies[key], share, peer) ==> swept(
            s,
            wall,
        ).applies.contains_key(key) && swept(s, wall).applies[key] == s.applies[key],
{
}

/// Only what is over, and was kept for long enough, is swept away.
pub proof fn law_sweep_removes_only_what_is_over(s: RegistryView, wall: u64, key: Seq<u8>)
    ensures
        s.grants.contains_key(key) && !swept(s, wall).grants.contains_key(key) ==> grant_gone(
            expired_grant(s.grants[key], wall),
            wall,
        ),
        s.applies.contains_key(key) && !swept(s, wall).applies.contains_key(key) ==> apply_gone(
            expired_apply(s.applies[key], wall),
            wall,
        ),
        swept(s, wall).catalog == s.catalog,
        swept(s, wall).rosters == s.rosters,
        swept(s, wall).intents == s.intents,
{
}

/// What was in flight when a process ended still blocks after a restart, and nothing else starts
/// to.
pub proof fn law_restart_keeps_blockers(
    grant: GrantRow,
    apply: ApplyRow,
    share: ShareId,
    peer: EndpointId,
)
    ensures
        grant_blocks(restarted_grant(grant), share, peer) == grant_blocks(grant, share, peer),
        apply_blocks(restarted_apply(apply), share, peer) == apply_blocks(apply, share, peer),
{
}

/// A restart never lets a grant be activated again that was active.
pub proof fn law_restart_does_not_reopen_grants(row: GrantRow)
    ensures
        restarted_grant(row).state == GrantState::Issued <==> row.state == GrantState::Issued,
        restarted_grant(row).state != GrantState::Active,
{
}

/// A revocation leaves nothing open: every grant and every permit of the member is over, or still
/// has to drain and is marked.
pub proof fn law_revocation_denies_what_is_open(
    s: RegistryView,
    share: ShareId,
    peer: EndpointId,
    now: u64,
    key: Seq<u8>,
)
    ensures
        ({
            let after = with_revoked(s, share, peer, now);
            &&& s.grants.contains_key(key) && s.grants[key].grant.share == share && (
            s.grants[key].grant.consumer == peer || s.grants[key].grant.provider == peer)
                ==> after.grants.contains_key(key) && (grant_over(after.grants[key].state)
                || after.grants[key].revoked && grant_blocks(after.grants[key], share, peer))
            &&& s.applies.contains_key(key) && s.applies[key].permit.share == share
                && s.applies[key].permit.consumer == peer ==> after.applies.contains_key(key)
                && after.applies[key].revoked && (apply_over(after.applies[key].state)
                || apply_blocks(after.applies[key], share, peer))
        }),
{
}

/// A revocation is reported as complete only when nothing of the member is in flight.
pub proof fn law_complete_revocation_has_no_blockers(
    s: RegistryView,
    share: ShareId,
    peer: EndpointId,
    now: u64,
)
    ensures
        revocation_of(s, share, peer, now) is Complete <==> blocking_grants(
            listing(s.grants),
            share,
            peer,
        ) == 0 && blocking_applies(listing(s.applies), share, peer) == 0,
{
}

/// Counting zero blockers is finding none.
pub proof fn law_no_blockers_means_none(
    rows: Seq<GrantRow>,
    applies: Seq<ApplyRow>,
    share: ShareId,
    peer: EndpointId,
)
    ensures
        blocking_grants(rows, share, peer) == 0 <==> forall|i: int|
            0 <= i < rows.len() ==> !grant_blocks(#[trigger] rows[i], share, peer),
        blocking_applies(applies, share, peer) == 0 <==> forall|i: int|
            0 <= i < applies.len() ==> !apply_blocks(#[trigger] applies[i], share, peer),
    decreases rows.len() + applies.len(),
{
    if rows.len() > 0 {
        law_no_blockers_means_none(rows.drop_last(), applies, share, peer);
        assert forall|i: int| 0 <= i < rows.len() - 1 implies #[trigger] rows[i]
            == rows.drop_last()[i] by {}
        if forall|i: int| 0 <= i < rows.len() ==> !grant_blocks(#[trigger] rows[i], share, peer) {
            assert(!grant_blocks(rows[rows.len() - 1], share, peer));
            assert forall|i: int| 0 <= i < rows.drop_last().len() implies !grant_blocks(
                #[trigger] rows.drop_last()[i],
                share,
                peer,
            ) by {
                assert(rows[i] == rows.drop_last()[i]);
            }
        }
        if blocking_grants(rows, share, peer) == 0 {
            assert forall|i: int| 0 <= i < rows.len() implies !grant_blocks(
                #[trigger] rows[i],
                share,
                peer,
            ) by {
                if i < rows.len() - 1 {
                    assert(rows.drop_last()[i] == rows[i]);
                }
            }
        }
    } else if applies.len() > 0 {
        law_no_blockers_means_none(rows, applies.drop_last(), share, peer);
        if forall|i: int| 0 <= i < applies.len() ==> !apply_blocks(
            #[trigger] applies[i],
            share,
            peer,
        ) {
            assert(!apply_blocks(applies[applies.len() - 1], share, peer));
            assert forall|i: int| 0 <= i < applies.drop_last().len() implies !apply_blocks(
                #[trigger] applies.drop_last()[i],
                share,
                peer,
            ) by {
                assert(applies[i] == applies.drop_last()[i]);
            }
        }
        if blocking_applies(applies, share, peer) == 0 {
            assert forall|i: int| 0 <= i < applies.len() implies !apply_blocks(
                #[trigger] applies[i],
                share,
                peer,
            ) by {
                if i < applies.len() - 1 {
                    assert(applies.drop_last()[i] == applies[i]);
                }
            }
        }
    }
}

/// Cancelling a grant again changes nothing.
pub proof fn law_cancel_is_idempotent(s: RegistryView, nonce: GrantNonce, now: u64, later: u64)
    requires
        s.grants.contains_key(nonce@),
        s.grants[nonce@].grant.nonce == nonce,
    ensures
        with_cancelled(with_cancelled(s, nonce, now), nonce, later) == with_cancelled(
            s,
            nonce,
            now,
        ),
{
}

/// A grant that was cancelled is never activated.
pub proof fn law_cancelled_grant_is_not_activated(
    s: RegistryView,
    owner: EndpointId,
    request: ActivateGrantRequest,
    peer: EndpointId,
    now: u64,
    later: u64,
)
    requires
        s.grants.contains_key(request.nonce@),
        s.grants[request.nonce@].grant.nonce == request.nonce,
    ensures
        activating_fault(with_cancelled(s, request.nonce, now), owner, request, peer, later) is Some,
{
}

/// A grant is activated at most once.
pub proof fn law_grant_is_activated_once(
    before: RegistryView,
    after: RegistryView,
    reply: ActivateGrantReply,
    secret: Seq<u8>,
    request: ActivateGrantRequest,
    peer: EndpointId,
    started: u64,
    moment: u64,
    activation_id: [u8; 16],
    now: u64,
    later: u64,
)
    requires
        activates(
            before,
            after,
            Ok(reply),
            secret,
            request,
            peer,
            started,
            moment,
            activation_id,
            now,
        ),
    ensures
        activating_fault(after, public_id(secret), request, peer, later) == (
        if before.grants[request.nonce@].revoked {
            Some(ShareError::MemberRevoked)
        } else {
            Some(ShareError::GrantReplay)
        }),
{
}

/// A grant that was just issued can be activated by its provider.
pub proof fn law_issued_grant_can_be_activated(
    before: RegistryView,
    after: RegistryView,
    grant: ShareGrant,
    secret: Seq<u8>,
    consumer: EndpointId,
    provider: EndpointId,
    token: SnapshotToken,
    manifest: AttestationView,
    hashes: Seq<Hash32>,
    nonce: GrantNonce,
    now: u64,
)
    requires
        grants(
            before,
            after,
            Ok(grant),
            secret,
            consumer,
            provider,
            token,
            manifest,
            hashes,
            nonce,
            now,
        ),
    ensures
        clock_fault(after.clock, now) is None,
        activating_fault(
            clocked(after, now),
            public_id(secret),
            activation_of(grant),
            provider,
            now,
        ) is None,
{
    let s = after;
    let share = token.share;
    if provider != s.catalog.owner {
        lemma_entry_address(s.rosters[share@].entries, s.catalog.owner, share, provider, 0);
    }
}

/// An entry of a roster that is taken has the address of its member.
proof fn lemma_entry_address(
    entries: Seq<EntryView>,
    owner: EndpointId,
    share: ShareId,
    member: EndpointId,
    i: int,
)
    requires
        0 <= i,
        entries_fault_from(entries, owner, share, i) is None,
    ensures
        match entry_of(entries, member, i) {
            Some(entry) => entry.address.id == member,
            None => true,
        },
    decreases entries.len() - i,
{
    if i < entries.len() {
        lemma_entry_address(entries, owner, share, member, i + 1);
    }
}

/// Starting an apply again with the same operation changes nothing.
pub proof fn law_start_is_idempotent(
    s: RegistryView,
    owner: EndpointId,
    share: ShareId,
    peer: EndpointId,
    root: Hash32,
    start: ApplyStart,
    now: u64,
)
    requires
        starting_fault(s, owner, share, peer, root, start, now) is None,
        s.applies[start.permit_nonce@].permit.nonce == start.permit_nonce,
    ensures
        starting_fault(with_started(s, start), owner, share, peer, root, start, now) is None,
        with_started(with_started(s, start), start) == with_started(s, start),
{
}

/// A writer that was started can always say that it has stopped, also once its member is revoked,
/// and after that it blocks no more.
pub proof fn law_started_writer_can_stop(
    s: RegistryView,
    owner: EndpointId,
    share: ShareId,
    peer: EndpointId,
    root: Hash32,
    start: ApplyStart,
    committed: bool,
    now: u64,
    later: u64,
)
    requires
        starting_fault(s, owner, share, peer, root, start, now) is None,
        s.applies[start.permit_nonce@].permit.nonce == start.permit_nonce,
        s.applies[start.permit_nonce@].state != ApplyState::Drained,
    ensures
        ({
            let drained = ApplyDrained {
                operation_id: start.operation_id,
                permit_nonce: start.permit_nonce,
                committed,
            };
            let revoked = with_revoked(with_started(s, start), share, peer, later);
            &&& stopping_fault(revoked, owner, share, peer, drained) is None
            &&& !apply_blocks(
                with_stopped(revoked, drained).applies[start.permit_nonce@],
                share,
                peer,
            )
        }),
{
}

/// A share goes only when nothing of it is in flight, and then nothing of it is left.
pub proof fn law_removed_share_leaves_nothing(s: RegistryView, share: ShareId, key: Seq<u8>)
    requires
        removing_fault(s, share) is None,
    ensures
        ({
            let after = without_share(s, share);
            &&& !after.catalog.shares.contains_key(share@)
            &&& after.grants.contains_key(key) ==> after.grants[key].grant.share != share
            &&& after.applies.contains_key(key) ==> after.applies[key].permit.share != share
            &&& after.snapshots.contains_key(key) ==> after.snapshots[key].token.share != share
            &&& s.grants.contains_key(key) && s.grants[key].grant.share == share ==> grant_over(
                s.grants[key].state,
            )
            &&& s.applies.contains_key(key) && s.applies[key].permit.share == share ==> apply_over(
                s.applies[key].state,
            )
        }),
{
}

} // verus!
