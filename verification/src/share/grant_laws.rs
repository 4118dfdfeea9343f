//! What a grant, an activation, an apply and a revocation mean, told by the rows that are kept.
use vstd::prelude::*;

use crate::hash::Hash32;
use crate::share::activation::{
    activates, applies_deadline, apply_blocks, blocking_applies, blocking_grants, cancelled,
    draining_fault, grant_blocks, grants_deadline, provider_side_fault, receipt_of, revocation_of,
    with_cancelled, with_drained, with_revoked,
};
use crate::share::applies::{
    apply_cancel_fault, apply_query_fault, apply_receipt_of, cancelled_apply, permits,
    starting_fault, stopping_fault, with_started, with_stopped,
};
use crate::share::authority::{
    grant_message, permit_message, token_message, ActivateGrantReply, ActivateGrantRequest,
    ActivationStateView, ApplyCancel, ApplyDrained, ApplyPermit, ApplyStart, ApplyStateView,
    ApplyStatusQuery, AttestationView, ClientIntentPhase, ClientIntentRow, RevocationReceipt,
    ShareGrant, SnapshotToken,
};
use crate::share::error::ShareError;
use crate::share::grants::{entry_of, grants, is_listed};
use crate::share::identity::{ed25519_accepts, public_id, EndpointId, GrantNonce, ShareId};
use crate::share::intents::{intents_swept, transitioned};
use crate::share::registry::{
    clock_fault, reopened_clock, restarted_apply, restarted_grant, restarted_intent, seen, swept,
    RegistryView,
};
use crate::share::roster_laws::after_seconds;
use crate::share::rows::{ApplyRow, ApplyState, ClockAnchor, GrantDrainState, GrantRow, GrantState};
use crate::table::listing;

verus! {

/// The device is a member of the share that is not revoked, under an epoch.
pub open spec fn serves_under(
    s: RegistryView,
    share: ShareId,
    device: EndpointId,
    epoch: u64,
) -> bool {
    &&& s.catalog.shares.contains_key(share@)
    &&& s.catalog.shares[share@].members.contains_key(device@)
    &&& s.catalog.shares[share@].members[device@].revoked_at is None
    &&& s.catalog.shares[share@].members[device@].epoch == epoch
}

/// The roster that is kept for the share lists the device as one that has reported and still holds.
pub open spec fn is_live(
    s: RegistryView,
    share: ShareId,
    device: EndpointId,
    epoch: u64,
    now: u64,
) -> bool {
    let roster = s.rosters[share@];
    &&& s.rosters.contains_key(share@)
    &&& roster.owner == s.catalog.owner
    &&& roster.share == share
    &&& now < roster.expires_at
    &&& exists|k: int|
        0 <= k < roster.entries.len() && (#[trigger] roster.entries[k]).member == device
            && roster.entries[k].member_epoch == epoch && now
            < roster.entries[k].heartbeat_expires_at
}

proof fn lemma_entry_found(
    entries: Seq<crate::share::roster::EntryView>,
    member: EndpointId,
    i: int,
)
    requires
        0 <= i,
        entry_of(entries, member, i) is Some,
    ensures
        exists|k: int|
            0 <= k < entries.len() && (#[trigger] entries[k]).member == member && entries[k]
                == entry_of(entries, member, i)->0,
    decreases entries.len() - i,
{
    if i < entries.len() && entries[i].member != member {
        lemma_entry_found(entries, member, i + 1);
    }
}

/// A grant that is issued lets one member of a share fetch from another, or from the owner, and says
/// so exactly: who, in which share, under the epochs that both have then, for which snapshot and
/// manifest. The snapshot is one that the owner has signed and keeps, the provider is known to be
/// live, and only chunks of the manifest are asked for, no more than 64. The grant is signed, holds
/// for 120 seconds, and is written down as issued under a nonce that was not used before. All other
/// grants stay, and no membership changes.
pub proof fn law_grant_says_who_may_fetch_what(
    before: RegistryView,
    after: RegistryView,
    made: ShareGrant,
    secret: Seq<u8>,
    consumer: EndpointId,
    provider: EndpointId,
    token: SnapshotToken,
    manifest: AttestationView,
    hashes: Seq<Hash32>,
    nonce: GrantNonce,
    now: u64,
)
    requires
        grants(
            before,
            after,
            Ok(made),
            secret,
            consumer,
            provider,
            token,
            manifest,
            hashes,
            nonce,
            now,
        ),
    ensures
        made.owner == public_id(secret),
        made.owner == before.catalog.owner,
        made.share == token.share,
        made.consumer == consumer,
        made.provider == provider,
        made.consumer != made.provider,
        made.consumer != made.owner,
        made.epoch == token.epoch,
        made.epoch > 0,
        serves_under(before, made.share, consumer, made.epoch),
        provider == before.catalog.owner ==> made.provider_epoch == 0,
        provider != before.catalog.owner ==> serves_under(
            before,
            made.share,
            provider,
            made.provider_epoch,
        ) && is_live(before, made.share, provider, made.provider_epoch, now),
        made.snapshot == token.snapshot,
        made.manifest == manifest.manifest_hash,
        made.nonce == nonce,
        made.issued_at == now,
        made.expires_at == after_seconds(now, 120),
        ed25519_accepts(made.owner@, grant_message(made), made.signature@),
        token.owner == made.owner,
        ed25519_accepts(token.owner@, token_message(token), token.signature@),
        now < token.expires_at,
        manifest.owner == made.owner,
        manifest.share == token.share,
        manifest.snapshot == token.snapshot,
        now < manifest.expires_at,
        before.snapshots.contains_key(token.snapshot@),
        before.snapshots[token.snapshot@].token == token,
        hashes.len() <= 64,
        forall|i: int|
            0 <= i < hashes.len() ==> exists|j: int|
                0 <= j < manifest.manifest.chunks.len() && (
                #[trigger] manifest.manifest.chunks[j]).hash == #[trigger] hashes[i],
        after.grants.contains_key(nonce@),
        after.grants[nonce@] == (GrantRow {
            grant: made,
            state: GrantState::Issued,
            activation_id: None,
            activation_deadline: None,
            revoked: false,
        }),
        after.drains.contains_key(nonce@),
        !after.drains[nonce@].state.provider_drained,
        !after.drains[nonce@].state.consumer_drained,
        after.catalog == before.catalog,
        after.rosters == before.rosters,
{
    let share = token.share;
    if provider != before.catalog.owner {
        lemma_entry_found(before.rosters[share@].entries, provider, 0);
    }
    assert forall|i: int| 0 <= i < hashes.len() implies exists|j: int|
        0 <= j < manifest.manifest.chunks.len() && (#[trigger] manifest.manifest.chunks[j]).hash
            == #[trigger] hashes[i] by {
        assert(is_listed(manifest.manifest.chunks, hashes[i]));
    }
}

/// An activation turns an issued grant that is not revoked and in its time into an active one, at the
/// request of its provider, while both ends still have the epochs of the grant and the provider is
/// live. It holds for 15 seconds from when the request came, and the reply that says so is signed.
/// Nothing else changes but the clock.
pub proof fn law_activation_opens_an_issued_grant(
    before: RegistryView,
    after: RegistryView,
    reply: ActivateGrantReply,
    secret: Seq<u8>,
    request: ActivateGrantRequest,
    remote_peer: EndpointId,
    started: u64,
    moment: u64,
    activation_id: [u8; 16],
    now: u64,
)
    requires
        activates(
            before,
            after,
            Ok(reply),
            secret,
            request,
            remote_peer,
            started,
            moment,
            activation_id,
            now,
        ),
        before.grants[request.nonce@].grant.nonce == request.nonce,
    ensures
        ({
            let held = before.grants[request.nonce@];
            let grant = held.grant;
            &&& moment - started <= 15_000_000_000
            &&& before.grants.contains_key(request.nonce@)
            &&& held.state == GrantState::Issued
            &&& !held.revoked
            &&& now < grant.expires_at
            &&& grant.issued_at <= now + 5
            &&& ed25519_accepts(grant.owner@, grant_message(grant), grant.signature@)
            &&& grant.owner == public_id(secret)
            &&& grant.owner == before.catalog.owner
            &&& grant.provider == remote_peer
            &&& request.owner == grant.owner
            &&& request.share == grant.share
            &&& request.consumer == grant.consumer
            &&& request.provider == grant.provider
            &&& request.epoch == grant.epoch
            &&& request.provider_epoch == grant.provider_epoch
            &&& request.manifest == grant.manifest
            &&& request.request_hash == grant.request_hash
            &&& serves_under(before, grant.share, grant.consumer, grant.epoch)
            &&& grant.provider == before.catalog.owner ==> grant.provider_epoch == 0
            &&& grant.provider != before.catalog.owner ==> serves_under(
                before,
                grant.share,
                grant.provider,
                grant.provider_epoch,
            ) && is_live(before, grant.share, grant.provider, grant.provider_epoch, now)
            &&& reply.share == grant.share
            &&& reply.provider == grant.provider
            &&& reply.nonce == grant.nonce
            &&& reply.activation_id == activation_id
            &&& reply.accepted
            &&& reply.max_duration_secs == 15
            &&& after.grants == before.grants.insert(
                request.nonce@,
                GrantRow {
                    state: GrantState::Active,
                    activation_id: Some(activation_id),
                    activation_deadline: Some(after_seconds(now, 15) as u64),
                    ..held
                },
            )
            &&& after.deadlines.contains_key(request.nonce@)
            &&& after.deadlines[request.nonce@].at == after_seconds(started, 15_000_000_000)
            &&& after.deadlines.remove(request.nonce@) =~= before.deadlines.remove(request.nonce@)
            &&& after.catalog == before.catalog
            &&& after.applies == before.applies
        }),
{
    let grant = before.grants[request.nonce@].grant;
    if grant.provider != before.catalog.owner {
        lemma_entry_found(before.rosters[grant.share@].entries, grant.provider, 0);
    }
}

/// A provider serves a consumer only under a grant that is active and not revoked, that neither side
/// has ended, and whose time and activation have not run out; and under such a grant it does.
pub proof fn law_provider_serves_only_active_grants(
    s: RegistryView,
    grant: ShareGrant,
    local_provider: EndpointId,
    remote_consumer: EndpointId,
    now: u64,
    moment: u64,
)
    requires
        crate::share::authority::grant_signature_fault(grant, grant.owner, grant.share) is None,
        grant.issued_at <= now + 5,
    ensures
        provider_side_fault(s, grant, local_provider, remote_consumer, now, moment) is None <==> {
            &&& grant.provider == local_provider
            &&& grant.consumer == remote_consumer
            &&& s.grants.contains_key(grant.nonce@)
            &&& s.grants[grant.nonce@].grant == grant
            &&& s.grants[grant.nonce@].state == GrantState::Active
            &&& !s.grants[grant.nonce@].revoked
            &&& s.drains.contains_key(grant.nonce@) ==> {
                let marks = s.drains[grant.nonce@].state;
                !marks.provider_drained && !marks.consumer_drained
            }
            &&& s.deadlines.contains_key(grant.nonce@)
            &&& moment < s.deadlines[grant.nonce@].at
            &&& now < grant.expires_at
        },
{
}

/// An acknowledgement is taken from either end of a grant that was activated, for that activation,
/// and sets the mark of that end alone. The grant is over when both marks are set, and not before.
pub proof fn law_acknowledgement_marks_one_side(
    s: RegistryView,
    share: ShareId,
    nonce: GrantNonce,
    activation_id: [u8; 16],
    peer: EndpointId,
)
    requires
        s.grants.contains_key(nonce@),
        s.grants[nonce@].grant.nonce == nonce,
    ensures
        ({
            let row = s.grants[nonce@];
            let grant = row.grant;
            let marks = if s.drains.contains_key(nonce@) {
                s.drains[nonce@].state
            } else {
                GrantDrainState { provider_drained: false, consumer_drained: false }
            };
            let provider = marks.provider_drained || grant.provider == peer;
            let consumer = marks.consumer_drained || grant.consumer == peer;
            let after = with_drained(s, nonce, peer);
            &&& draining_fault(s, share, nonce, activation_id, peer) is None <==> grant.share
                == share && (grant.provider == peer || grant.consumer == peer) && row.activation_id
                == Some(activation_id) && (row.state == GrantState::Active || row.state
                == GrantState::Restarted || row.state == GrantState::Drained)
            &&& row.state == GrantState::Drained ==> after == s
            &&& row.state != GrantState::Drained ==> {
                &&& after.drains[nonce@].state.provider_drained == provider
                &&& after.drains[nonce@].state.consumer_drained == consumer
                &&& after.grants[nonce@] == (GrantRow {
                    state: if provider && consumer {
                        GrantState::Drained
                    } else {
                        row.state
                    },
                    ..row
                })
                &&& provider && consumer ==> !after.deadlines.contains_key(nonce@)
                &&& !(provider && consumer) ==> after.deadlines == s.deadlines
            }
            &&& after.grants.remove(nonce@) =~= s.grants.remove(nonce@)
            &&& after.catalog == s.catalog
        }),
{
}

/// Cancelling ends a grant that was not activated, for good; one that was stays as it is. The answer
/// tells how far the grant has come.
pub proof fn law_cancelling_ends_what_was_not_activated(
    s: RegistryView,
    row: GrantRow,
    drain: GrantDrainState,
    now: u64,
)
    ensures
        row.state != GrantState::Issued ==> cancelled(row, now) == row && with_cancelled(
            RegistryView { grants: s.grants.insert(row.grant.nonce@, row), ..s },
            row.grant.nonce,
            now,
        ).grants[row.grant.nonce@] == row,
        row.state == GrantState::Issued ==> cancelled(row, now) == (GrantRow {
            state: if now < row.grant.expires_at {
                GrantState::Denied
            } else {
                GrantState::Expired
            },
            activation_deadline: None,
            ..row
        }),
        receipt_of(row, drain).state == ActivationStateView::Issued <==> row.state
            == GrantState::Issued,
        receipt_of(row, drain).state == ActivationStateView::Active <==> row.state
            == GrantState::Active,
        receipt_of(row, drain).state == ActivationStateView::Restarted <==> row.state
            == GrantState::Restarted,
        receipt_of(row, drain).state == ActivationStateView::Drained <==> row.state
            == GrantState::Drained,
        receipt_of(row, drain).state == ActivationStateView::Denied <==> row.state
            == GrantState::Denied,
        receipt_of(row, drain).activation_id == row.activation_id,
        receipt_of(row, drain).activation_deadline == row.activation_deadline,
        receipt_of(row, drain).revoked == row.revoked,
        receipt_of(row, drain).provider_drained == drain.provider_drained,
        receipt_of(row, drain).consumer_drained == drain.consumer_drained,
        receipt_of(row, drain).binding.nonce == row.grant.nonce,
        receipt_of(row, drain).binding.owner == row.grant.owner,
        receipt_of(row, drain).binding.share == row.grant.share,
        receipt_of(row, drain).binding.consumer == row.grant.consumer,
        receipt_of(row, drain).binding.provider == row.grant.provider,
        receipt_of(row, drain).binding.epoch == row.grant.epoch,
        receipt_of(row, drain).binding.provider_epoch == row.grant.provider_epoch,
        receipt_of(row, drain).binding.snapshot == row.grant.snapshot,
        receipt_of(row, drain).binding.manifest == row.grant.manifest,
        receipt_of(row, drain).binding.request_hash == row.grant.request_hash,
{
}

/// Revoking a member denies every grant of the share that it is an end of and that was not
/// activated, and every apply of its that was not started. What is in flight is marked and stays in
/// flight; what is over, and what is of others or of other shares, stays as it is. The member is
/// revoked from that time on, and its epoch moves on.
pub proof fn law_revocation_reaches_all_of_the_member(
    s: RegistryView,
    share: ShareId,
    peer: EndpointId,
    now: u64,
    key: Seq<u8>,
)
    requires
        s.catalog.shares.contains_key(share@),
        s.catalog.shares[share@].members.contains_key(peer@),
        s.catalog.shares[share@].members[peer@].epoch < u64::MAX,
    ensures
        ({
            let after = with_revoked(s, share, peer, now);
            let (member, revoked) = (
                s.catalog.shares[share@].members[peer@],
                after.catalog.shares[share@].members[peer@],
            );
            let (row, left) = (s.grants[key], after.grants[key]);
            let (apply, left_apply) = (s.applies[key], after.applies[key]);
            let ours = row.grant.share == share && (row.grant.consumer == peer
                || row.grant.provider == peer);
            let own = apply.permit.share == share && apply.permit.consumer == peer;
            &&& revoked.revoked_at is Some
            &&& member.revoked_at is None ==> revoked.revoked_at == Some(now) && revoked.epoch
                == member.epoch + 1
            &&& member.revoked_at is Some ==> revoked == member
            &&& revoked.endpoint == member.endpoint && revoked.permission == member.permission
                && revoked.replica == member.replica
            &&& after.grants.contains_key(key) == s.grants.contains_key(key)
            &&& s.grants.contains_key(key) ==> {
                &&& left.grant == row.grant && left.activation_id == row.activation_id
                    && left.activation_deadline == row.activation_deadline
                &&& !ours ==> left == row
                &&& ours && row.state == GrantState::Issued ==> left.state == GrantState::Denied
                    && left.revoked
                &&& ours && (row.state == GrantState::Active || row.state == GrantState::Restarted)
                    ==> left.state == row.state && left.revoked
                &&& ours && (row.state == GrantState::Drained || row.state == GrantState::Denied
                    || row.state == GrantState::Expired) ==> left == row
            }
            &&& after.applies.contains_key(key) == s.applies.contains_key(key)
            &&& s.applies.contains_key(key) ==> {
                &&& left_apply.permit == apply.permit && left_apply.operation_id
                    == apply.operation_id && left_apply.committed == apply.committed
                &&& !own ==> left_apply == apply
                &&& own ==> left_apply.revoked
                &&& own && apply.state == ApplyState::Prepared ==> left_apply.state
                    == ApplyState::Denied
                &&& own && apply.state != ApplyState::Prepared ==> left_apply.state == apply.state
            }
            &&& after.drains == s.drains
            &&& after.deadlines == s.deadlines
        }),
{
}

proof fn lemma_blocking_grants(rows: Seq<GrantRow>, share: ShareId, peer: EndpointId, now: u64)
    ensures
        blocking_grants(rows, share, peer) == rows.filter(
            |row: GrantRow|
                row.grant.share == share && (row.grant.consumer == peer || row.grant.provider
                    == peer) && (row.state == GrantState::Active || row.state
                    == GrantState::Restarted),
        ).len(),
        grants_deadline(rows, share, peer, now) >= now,
        forall|i: int|
            0 <= i < rows.len() && grant_blocks(#[trigger] rows[i], share, peer)
                && rows[i].activation_deadline is Some ==> grants_deadline(rows, share, peer, now)
                >= rows[i].activation_deadline->0,
    decreases rows.len(),
{
    reveal(Seq::filter);
    if rows.len() > 0 {
        let less = rows.drop_last();
        lemma_blocking_grants(less, share, peer, now);
        assert forall|i: int|
            0 <= i < rows.len() && grant_blocks(#[trigger] rows[i], share, peer)
                && rows[i].activation_deadline is Some implies grants_deadline(
            rows,
            share,
            peer,
            now,
        ) >= rows[i].activation_deadline->0 by {
            if i < less.len() {
                assert(less[i] == rows[i]);
            }
        }
    }
}

proof fn lemma_blocking_applies(rows: Seq<ApplyRow>, share: ShareId, peer: EndpointId, from: u64)
    ensures
        blocking_applies(rows, share, peer) == rows.filter(
            |row: ApplyRow|
                row.permit.share == share && row.permit.consumer == peer && (row.state
                    == ApplyState::Started || row.state == ApplyState::Restarted),
        ).len(),
        applies_deadline(rows, share, peer, from) >= from,
        forall|i: int|
            0 <= i < rows.len() && apply_blocks(#[trigger] rows[i], share, peer)
                ==> applies_deadline(rows, share, peer, from) >= rows[i].permit.expires_at,
    decreases rows.len(),
{
    reveal(Seq::filter);
    if rows.len() > 0 {
        let less = rows.drop_last();
        lemma_blocking_applies(less, share, peer, from);
        assert forall|i: int|
            0 <= i < rows.len() && apply_blocks(#[trigger] rows[i], share, peer) implies
            applies_deadline(rows, share, peer, from) >= rows[i].permit.expires_at by {
            if i < less.len() {
                assert(less[i] == rows[i]);
            }
        }
    }
}

/// A revocation is complete when nothing of the member is in flight, and pending as long as anything
/// is: every grant of the share that it is an end of and that is active, or was when a process
/// ended, and every apply of its that is started, or was. The answer counts them, and names a time
/// at which the last of them has run out.
pub proof fn law_revocation_waits_for_all_in_flight(
    s: RegistryView,
    share: ShareId,
    peer: EndpointId,
    now: u64,
)
    ensures
        ({
            let open = listing(s.grants).filter(
                |row: GrantRow|
                    row.grant.share == share && (row.grant.consumer == peer || row.grant.provider
                        == peer) && (row.state == GrantState::Active || row.state
                        == GrantState::Restarted),
            ).len() + listing(s.applies).filter(
                |row: ApplyRow|
                    row.permit.share == share && row.permit.consumer == peer && (row.state
                        == ApplyState::Started || row.state == ApplyState::Restarted),
            ).len();
            let epoch = s.catalog.shares[share@].members[peer@].epoch;
            match revocation_of(s, share, peer, now) {
                RevocationReceipt::Complete { member_epoch, completed_at } => open == 0
                    && member_epoch == epoch && completed_at == now,
                RevocationReceipt::Pending { member_epoch, deadline, blockers } => {
                    &&& open > 0
                    &&& member_epoch == epoch
                    &&& open <= u32::MAX ==> blockers == open
                    &&& deadline >= now
                    &&& forall|i: int|
                        0 <= i < listing(s.grants).len() && (#[trigger] listing(
                            s.grants,
                        )[i]).state == GrantState::Active && listing(s.grants)[i].grant.share
                            == share && listing(s.grants)[i].grant.consumer == peer && listing(
                            s.grants,
                        )[i].activation_deadline is Some ==> deadline >= listing(
                            s.grants,
                        )[i].activation_deadline->0
                    &&& forall|i: int|
                        0 <= i < listing(s.applies).len() && (#[trigger] listing(
                            s.applies,
                        )[i]).state == ApplyState::Started && listing(s.applies)[i].permit.share
                            == share && listing(s.applies)[i].permit.consumer == peer ==> deadline
                            >= listing(s.applies)[i].permit.expires_at
                },
            }
        }),
{
    lemma_blocking_grants(listing(s.grants), share, peer, now);
    lemma_blocking_applies(
        listing(s.applies),
        share,
        peer,
        grants_deadline(listing(s.grants), share, peer, now),
    );
    let grants = listing(s.grants);
    assert forall|i: int|
        0 <= i < grants.len() && (#[trigger] grants[i]).state == GrantState::Active
            && grants[i].grant.share == share && grants[i].grant.consumer == peer implies
        grant_blocks(grants[i], share, peer) by {}
    let applies = listing(s.applies);
    assert forall|i: int|
        0 <= i < applies.len() && (#[trigger] applies[i]).state == ApplyState::Started
            && applies[i].permit.share == share && applies[i].permit.consumer == peer implies
        apply_blocks(applies[i], share, peer) by {}
}

/// A permit lets a member of the share, under the epoch it has, apply one snapshot that the owner has
/// signed and keeps, while the share still has the root of that snapshot. It is signed, holds for ten
/// seconds, and is written down under a nonce that was not used before.
pub proof fn law_permit_says_who_may_apply_what(
    before: RegistryView,
    after: RegistryView,
    permit: ApplyPermit,
    secret: Seq<u8>,
    consumer: EndpointId,
    token: SnapshotToken,
    root: Hash32,
    nonce: GrantNonce,
    now: u64,
)
    requires
        permits(before, after, Ok(permit), secret, consumer, token, root, nonce, now),
    ensures
        permit.owner == public_id(secret),
        permit.share == token.share,
        permit.consumer == consumer,
        permit.epoch == token.epoch,
        serves_under(before, permit.share, consumer, permit.epoch),
        permit.snapshot == token.snapshot,
        permit.root_hash == root,
        token.root_hash == root,
        token.owner == permit.owner,
        ed25519_accepts(token.owner@, token_message(token), token.signature@),
        now < token.expires_at,
        before.snapshots.contains_key(token.snapshot@),
        before.snapshots[token.snapshot@].token == token,
        permit.issued_at == now,
        permit.expires_at == after_seconds(now, 10),
        permit.nonce == nonce,
        after.applies.contains_key(nonce@),
        after.applies[nonce@] == (ApplyRow {
            permit,
            state: ApplyState::Prepared,
            operation_id: None,
            committed: false,
            revoked: false,
        }),
        after.catalog == before.catalog,
{
}

/// An apply is started by the member that the permit is for, while it is a member under the epoch of
/// the permit, the share has the root of the permit, and the permit is in its time; once, for one
/// operation. It is stopped by the same member for the same operation, whether or not it is revoked
/// by then, and keeps what came of it.
pub proof fn law_apply_is_one_members_one_operation(
    s: RegistryView,
    owner: EndpointId,
    share: ShareId,
    peer: EndpointId,
    root: Hash32,
    start: ApplyStart,
    drained: ApplyDrained,
    now: u64,
)
    requires
        s.applies.contains_key(start.permit_nonce@),
        s.applies[start.permit_nonce@].permit.nonce == start.permit_nonce,
        drained.permit_nonce == start.permit_nonce,
    ensures
        ({
            let row = s.applies[start.permit_nonce@];
            let permit = row.permit;
            let started = with_started(s, start).applies[start.permit_nonce@];
            let stopped = with_stopped(s, drained).applies[start.permit_nonce@];
            &&& starting_fault(s, owner, share, peer, root, start, now) is None ==> {
                &&& permit.owner == owner && permit.share == share && permit.consumer == peer
                &&& !row.revoked
                &&& serves_under(s, share, peer, permit.epoch)
                &&& permit.root_hash == root
                &&& ed25519_accepts(permit.owner@, permit_message(permit), permit.signature@)
                &&& now < permit.expires_at
                &&& row.state == ApplyState::Prepared || row.operation_id == Some(
                    start.operation_id,
                ) && (row.state == ApplyState::Started || row.state == ApplyState::Drained)
            }
            &&& row.state == ApplyState::Prepared ==> started == (ApplyRow {
                state: ApplyState::Started,
                operation_id: Some(start.operation_id),
                ..row
            })
            &&& row.state != ApplyState::Prepared ==> started == row
            &&& stopping_fault(s, owner, share, peer, drained) is None <==> {
                &&& permit.owner == owner && permit.share == share && permit.consumer == peer
                &&& row.operation_id == Some(drained.operation_id)
                &&& row.state == ApplyState::Started || row.state == ApplyState::Restarted
                    || row.state == ApplyState::Drained && row.committed == drained.committed
            }
            &&& row.state != ApplyState::Drained ==> stopped == (ApplyRow {
                state: ApplyState::Drained,
                committed: drained.committed,
                ..row
            })
            &&& with_started(s, start).applies.remove(start.permit_nonce@) =~= s.applies.remove(
                start.permit_nonce@,
            )
            &&& with_stopped(s, drained).applies.remove(start.permit_nonce@) =~= s.applies.remove(
                start.permit_nonce@,
            )
            &&& with_started(s, start).catalog == s.catalog
            &&& with_stopped(s, drained).catalog == s.catalog
        }),
{
}

/// What a peer is told of an apply is what is written down, and a question about it is answered only
/// to the member that it is of. Cancelling ends one that was not started, and no other.
pub proof fn law_apply_is_told_as_it_is(
    s: RegistryView,
    row: ApplyRow,
    query: ApplyStatusQuery,
    cancel: ApplyCancel,
    operation_id: [u8; 16],
    peer: EndpointId,
)
    ensures
        apply_receipt_of(row).owner == row.permit.owner,
        apply_receipt_of(row).share == row.permit.share,
        apply_receipt_of(row).consumer == row.permit.consumer,
        apply_receipt_of(row).permit_nonce == row.permit.nonce,
        apply_receipt_of(row).operation_id == row.operation_id,
        apply_receipt_of(row).committed == row.committed,
        apply_receipt_of(row).revoked == row.revoked,
        apply_receipt_of(row).state == ApplyStateView::Prepared <==> row.state
            == ApplyState::Prepared,
        apply_receipt_of(row).state == ApplyStateView::Started <==> row.state
            == ApplyState::Started,
        apply_receipt_of(row).state == ApplyStateView::Restarted <==> row.state
            == ApplyState::Restarted,
        apply_receipt_of(row).state == ApplyStateView::Drained <==> row.state
            == ApplyState::Drained,
        apply_receipt_of(row).state == ApplyStateView::Denied <==> row.state == ApplyState::Denied,
        apply_query_fault(s, query, peer) is None ==> query.owner == s.catalog.owner
            && s.applies.contains_key(query.permit_nonce@)
            && s.applies[query.permit_nonce@].permit.owner == query.owner
            && s.applies[query.permit_nonce@].permit.share == query.share
            && s.applies[query.permit_nonce@].permit.consumer == peer && query.consumer == peer && (
        s.applies[query.permit_nonce@].operation_id is Some ==> query.operation_id
            == s.applies[query.permit_nonce@].operation_id),
        apply_cancel_fault(s, cancel, peer) is None ==> cancel.owner == s.catalog.owner
            && s.applies.contains_key(cancel.permit_nonce@)
            && s.applies[cancel.permit_nonce@].permit.share == cancel.share
            && s.applies[cancel.permit_nonce@].permit.consumer == peer && cancel.consumer == peer
            && (s.applies[cancel.permit_nonce@].operation_id is Some ==> Some(cancel.operation_id)
            == s.applies[cancel.permit_nonce@].operation_id),
        row.state == ApplyState::Prepared ==> cancelled_apply(row, operation_id) == (ApplyRow {
            state: ApplyState::Denied,
            operation_id: Some(operation_id),
            ..row
        }),
        row.state != ApplyState::Prepared ==> cancelled_apply(row, operation_id) == row,
{
}

/// Nothing is granted once the clock has gone back by more than five seconds behind the latest time
/// that was seen, not even when it comes forward again; a clock that lags less is taken. The latest
/// time is kept, over restarts too.
pub proof fn law_clock_is_watched(
    clock: ClockAnchor,
    wall: u64,
    later: u64,
    boot: [u8; 16],
)
    requires
        clock.version == 1,
    ensures
        clock_fault(clock, wall) is None <==> !clock.quarantined && clock.last_wall <= wall + 5,
        clock_fault(clock, wall) is Some ==> clock_fault(clock, wall) == Some(
            ShareError::ClockRollback,
        ) && clock_fault(seen(clock, wall), later) is Some && clock_fault(
            reopened_clock(Some(seen(clock, wall)), later, boot),
            later,
        ) is Some,
        clock_fault(clock, wall) is None ==> !seen(clock, wall).quarantined && seen(
            clock,
            wall,
        ).last_wall == (if wall > clock.last_wall {
            wall
        } else {
            clock.last_wall
        }),
        reopened_clock(Some(clock), wall, boot).last_wall >= clock.last_wall,
        reopened_clock(Some(clock), wall, boot).quarantined <==> clock.quarantined
            || clock.last_wall > wall + 5,
        clock.last_wall <= wall + 5 && wall > clock.last_wall ==> reopened_clock(
            Some(clock),
            wall,
            boot,
        ).last_wall == wall,
        reopened_clock(None, wall, boot).last_wall == wall,
        !reopened_clock(None, wall, boot).quarantined,
{
}

/// A sweep removes a grant or an apply only when it is over and an hour has passed since it expired;
/// one that was never used is over when its time is. What is in flight stays, however old.
pub proof fn law_sweep_keeps_an_hour(s: RegistryView, wall: u64, key: Seq<u8>)
    ensures
        ({
            let after = swept(s, wall);
            let (row, apply) = (s.grants[key], s.applies[key]);
            let over = row.state == GrantState::Drained || row.state == GrantState::Denied
                || row.state == GrantState::Expired || row.state == GrantState::Issued
                && row.grant.expires_at <= wall;
            let apply_is_over = apply.state == ApplyState::Drained || apply.state
                == ApplyState::Denied || apply.state == ApplyState::Expired || apply.state
                == ApplyState::Prepared && apply.permit.expires_at <= wall;
            &&& s.grants.contains_key(key) ==> (after.grants.contains_key(key) <==> !(over
                && after_seconds(row.grant.expires_at, 3600) <= wall))
            &&& after.grants.contains_key(key) ==> s.grants.contains_key(key) && after.grants[key]
                == (GrantRow {
                state: if row.state == GrantState::Issued && row.grant.expires_at <= wall {
                    GrantState::Expired
                } else {
                    row.state
                },
                ..row
            })
            &&& s.applies.contains_key(key) ==> (after.applies.contains_key(key) <==> !(
            apply_is_over && after_seconds(apply.permit.expires_at, 3600) <= wall))
            &&& after.applies.contains_key(key) ==> s.applies.contains_key(key)
                && after.applies[key] == (ApplyRow {
                state: if apply.state == ApplyState::Prepared && apply.permit.expires_at <= wall {
                    ApplyState::Expired
                } else {
                    apply.state
                },
                ..apply
            })
            &&& after.snapshots.contains_key(key) ==> s.snapshots.contains_key(key)
                && after.snapshots[key] == s.snapshots[key]
            &&& s.snapshots.contains_key(key) && wall < after_seconds(
                s.snapshots[key].token.expires_at,
                3600,
            ) ==> after.snapshots.contains_key(key)
            &&& after.catalog == s.catalog
            &&& after.rosters == s.rosters
            &&& after.intents == s.intents
        }),
{
}

/// A snapshot that some grant or apply of the journals is for is never swept.
pub proof fn law_sweep_keeps_what_is_referred_to(
    s: RegistryView,
    wall: u64,
    key: Seq<u8>,
    other: Seq<u8>,
)
    requires
        s.snapshots.contains_key(key),
        s.grants.contains_key(other) && s.grants[other].grant.snapshot
            == s.snapshots[key].token.snapshot || s.applies.contains_key(other)
            && s.applies[other].permit.snapshot == s.snapshots[key].token.snapshot,
    ensures
        swept(s, wall).snapshots.contains_key(key),
{
}

/// After a restart, what was active or started is kept as that it was, and blocks; nothing else of a
/// grant or an apply changes. What a device had going on its own side is unknown to it.
pub proof fn law_restart_keeps_what_was_going_on(
    row: GrantRow,
    apply: ApplyRow,
    intent: ClientIntentRow,
    wall: u64,
    boot: [u8; 16],
)
    ensures
        restarted_grant(row) == (GrantRow {
            state: if row.state == GrantState::Active {
                GrantState::Restarted
            } else {
                row.state
            },
            ..row
        }),
        restarted_apply(apply) == (ApplyRow {
            state: if apply.state == ApplyState::Started {
                ApplyState::Restarted
            } else {
                apply.state
            },
            ..apply
        }),
        intent.boot_id != boot && intent.phase != ClientIntentPhase::Drained && intent.phase
            != ClientIntentPhase::Cancelled ==> restarted_intent(intent, wall, boot).phase
            == ClientIntentPhase::Unknown,
        intent.phase == ClientIntentPhase::Drained || intent.phase == ClientIntentPhase::Cancelled
            ==> restarted_intent(intent, wall, boot).phase == intent.phase && restarted_intent(
            intent,
            wall,
            boot,
        ).terminal_at_wall is Some,
        restarted_intent(intent, wall, boot).grant == intent.grant,
        restarted_intent(intent, wall, boot).operation_id == intent.operation_id,
        restarted_intent(intent, wall, boot).activation_id == intent.activation_id,
{
}

/// An intent is forgotten an hour after it came to its end, and not before; one that is not over is
/// never forgotten. A step keeps the activation that the intent is bound to, and notes when the
/// intent came to its end.
pub proof fn law_intents_are_kept_while_they_matter(
    s: RegistryView,
    key: Seq<u8>,
    phase: ClientIntentPhase,
    activation_id: Option<[u8; 16]>,
    now: u64,
)
    requires
        s.intents.contains_key(key),
    ensures
        ({
            let row = s.intents[key];
            let next = transitioned(row, phase, activation_id, now);
            let over = row.phase == ClientIntentPhase::Drained || row.phase
                == ClientIntentPhase::Cancelled;
            let ended = if row.terminal_at_wall is Some {
                row.terminal_at_wall->0
            } else {
                row.started_at_wall
            };
            &&& intents_swept(s, now).intents.contains_key(key) <==> !(over && after_seconds(
                ended,
                3600,
            ) <= now)
            &&& next.phase == phase
            &&& row.activation_id is Some ==> next.activation_id == row.activation_id
            &&& row.activation_id is None ==> next.activation_id == activation_id
            &&& phase == ClientIntentPhase::Drained || phase == ClientIntentPhase::Cancelled
                ==> next.terminal_at_wall is Some
            &&& row.terminal_at_wall is Some ==> next.terminal_at_wall == row.terminal_at_wall
            &&& row.terminal_at_wall is None && (phase == ClientIntentPhase::Drained || phase
                == ClientIntentPhase::Cancelled) ==> next.terminal_at_wall == Some(now)
            &&& next.grant == row.grant && next.operation_id == row.operation_id && next.side
                == row.side
        }),
{
}

} // verus!
