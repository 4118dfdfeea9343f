//! When an owner lets something happen: exactly what has to hold of those who ask, and of what is
//! written down.
use vstd::prelude::*;

use crate::hash::{hash_with, Hash32};
use crate::record::{logical_digest, RecordView};
use crate::share::activation::{activates, activating_fault, query_fault, receipt_of, status_fault};
use crate::share::applies::{
    apply_cancel_fault, apply_query_fault, apply_receipt_of, permitted, permitting_fault,
    prepared_row, starting_fault,
};
use crate::share::authority::{
    activation_of, attestation_fault, attested_fault, binding_of, grant_fault, grant_refusal,
    permit_fault, permit_shape_fault, permit_signature_fault, request_digest, subset_fault,
    token_fault, ActivateGrantReply, ActivateGrantRequest, ActivationBinding, ActivationStateView,
    ApplyCancel, ApplyStart, ApplyStateView, ApplyStatusQuery, AttestationView, ShareGrant,
    SnapshotToken,
};
use crate::share::error::ShareError;
use crate::share::grant_laws::serves_under;
use crate::share::grants::{
    asking_fault, ends_fault, entry_of, granted, granting_fault, grants, is_listed, issued_row,
    record_with,
};
use crate::share::identity::{public_id, EndpointId, GrantNonce, ShareId};
use crate::share::registry::{crowded, RegistryView};
use crate::share::roster::{roster_fault_for, EntryView};
use crate::share::rows::{
    apply_row_bytes, grant_row_bytes, ApplyRow, ApplyState, GrantDrainState, GrantRow, GrantState,
};

verus! {

/// The roster that is kept for the share is the owner's, holds, and lists the device as one that has
/// reported and still holds, under an epoch.
pub open spec fn reported(
    s: RegistryView,
    share: ShareId,
    device: EndpointId,
    epoch: u64,
    now: u64,
) -> bool {
    &&& s.rosters.contains_key(share@)
    &&& roster_fault_for(s.rosters[share@], s.catalog.owner, share, now) is None
    &&& exists|k: int| is_report(s.rosters[share@].entries, k, device, epoch, now)
}

/// The entry is a report of the device that still holds, under an epoch.
pub open spec fn is_report(
    entries: Seq<EntryView>,
    k: int,
    device: EndpointId,
    epoch: u64,
    now: u64,
) -> bool {
    0 <= k < entries.len() && entries[k].member == device && entries[k].member_epoch == epoch && now
        < entries[k].heartbeat_expires_at
}

proof fn lemma_only_entry(entries: Seq<EntryView>, member: EndpointId, i: int, k: int)
    requires
        0 <= i <= k < entries.len(),
        entries[k].member == member,
        forall|a: int, b: int|
            0 <= a < b < entries.len() ==> (#[trigger] entries[a]).member != (
            #[trigger] entries[b]).member,
    ensures
        entry_of(entries, member, i) == Some(entries[k]),
    decreases k - i,
{
    if i < k {
        lemma_only_entry(entries, member, i + 1, k);
    }
}

proof fn lemma_no_entry(entries: Seq<EntryView>, member: EndpointId, i: int)
    requires
        0 <= i,
    ensures
        match entry_of(entries, member, i) {
            Some(entry) => exists|k: int|
                i <= k < entries.len() && #[trigger] entries[k] == entry && entry.member == member,
            None => true,
        },
    decreases entries.len() - i,
{
    if i < entries.len() && entries[i].member != member {
        lemma_no_entry(entries, member, i + 1);
    }
}

/// The entry of a device in a roster that is taken is its only one.
proof fn lemma_reported(
    s: RegistryView,
    share: ShareId,
    device: EndpointId,
    epoch: u64,
    now: u64,
)
    requires
        s.rosters.contains_key(share@),
        roster_fault_for(s.rosters[share@], s.catalog.owner, share, now) is None,
    ensures
        reported(s, share, device, epoch, now) <==> match entry_of(
            s.rosters[share@].entries,
            device,
            0,
        ) {
            Some(entry) => entry.member_epoch == epoch && now < entry.heartbeat_expires_at,
            None => false,
        },
        match entry_of(s.rosters[share@].entries, device, 0) {
            Some(entry) => entry.member == device && entry.address.id == device,
            None => true,
        },
{
    let entries = s.rosters[share@].entries;
    lemma_no_entry(entries, device, 0);
    assert forall|a: int, b: int| 0 <= a < b < entries.len() implies (#[trigger] entries[a]).member
        != (#[trigger] entries[b]).member by {}
    match entry_of(entries, device, 0) {
        Some(entry) => {
            let k = choose|k: int|
                0 <= k < entries.len() && #[trigger] entries[k] == entry && entry.member == device;
            lemma_bound(entries, s.catalog.owner, share, 0, k);
            assert(entry.heartbeat_expires_at <= now || is_report(
                entries,
                k,
                device,
                entry.member_epoch,
                now,
            ));
        },
        None => {},
    }
    if reported(s, share, device, epoch, now) {
        let k = choose|k: int| is_report(entries, k, device, epoch, now);
        lemma_only_entry(entries, device, 0, k);
    }
}

proof fn lemma_bound(
    entries: Seq<EntryView>,
    owner: EndpointId,
    share: ShareId,
    from: int,
    k: int,
)
    requires
        crate::share::roster::entries_fault_from(entries, owner, share, from) is None,
        0 <= from <= k < entries.len(),
    ensures
        entries[k].address.id == entries[k].member,
    decreases k - from,
{
    if from < k {
        lemma_bound(entries, owner, share, from + 1, k);
    }
}

/// An activation is let happen exactly if the request comes from the provider that it names, for a
/// grant that is kept and says the same, was issued and neither used nor revoked, and still holds;
/// and if both ends are members, not revoked, under the epochs of the grant, and the provider, if it
/// is not the owner, has reported.
pub proof fn law_activation_is_let_happen(
    s: RegistryView,
    owner: EndpointId,
    request: ActivateGrantRequest,
    remote_peer: EndpointId,
    now: u64,
)
    ensures
        activating_fault(s, owner, request, remote_peer, now) is None <==> {
            let row = s.grants[request.nonce@];
            &&& request.provider == remote_peer
            &&& s.grants.contains_key(request.nonce@)
            &&& activation_of(row.grant) == request
            &&& row.state == GrantState::Issued
            &&& !row.revoked
            &&& grant_fault(row.grant, owner, request.share, now) is None
            &&& s.catalog.owner == owner
            &&& serves_under(s, request.share, request.consumer, request.epoch)
            &&& if request.provider == owner {
                request.provider_epoch == 0
            } else {
                serves_under(s, request.share, request.provider, request.provider_epoch)
                    && reported(s, request.share, request.provider, request.provider_epoch, now)
            }
        },
        ({
            let row = s.grants[request.nonce@];
            request.provider == remote_peer && s.grants.contains_key(request.nonce@)
                && activation_of(row.grant) == request && !row.revoked && (row.state
                == GrantState::Active || row.state == GrantState::Drained || row.state
                == GrantState::Restarted) ==> activating_fault(s, owner, request, remote_peer, now)
                == Some(ShareError::GrantReplay)
        }),
{
    if s.rosters.contains_key(request.share@) && roster_fault_for(
        s.rosters[request.share@],
        s.catalog.owner,
        request.share,
        now,
    ) is None {
        lemma_reported(s, request.share, request.provider, request.provider_epoch, now);
    }
}

/// An activation request says what the grant says.
pub proof fn law_request_is_of_the_grant(grant: ShareGrant)
    ensures
        activation_of(grant).owner == grant.owner,
        activation_of(grant).share == grant.share,
        activation_of(grant).consumer == grant.consumer,
        activation_of(grant).provider == grant.provider,
        activation_of(grant).epoch == grant.epoch,
        activation_of(grant).provider_epoch == grant.provider_epoch,
        activation_of(grant).manifest == grant.manifest,
        activation_of(grant).request_hash == grant.request_hash,
        activation_of(grant).nonce == grant.nonce,
{
}

/// An activation that may happen does, unless more than fifteen seconds have gone by since the
/// request came or the clock has gone back.
pub proof fn law_activation_happens_in_time(
    before: RegistryView,
    after: RegistryView,
    result: Result<ActivateGrantReply, ShareError>,
    secret: Seq<u8>,
    request: ActivateGrantRequest,
    remote_peer: EndpointId,
    started: u64,
    moment: u64,
    activation_id: [u8; 16],
    now: u64,
)
    requires
        activates(
            before,
            after,
            result,
            secret,
            request,
            remote_peer,
            started,
            moment,
            activation_id,
            now,
        ),
    ensures
        moment - started > 15_000_000_000 ==> result == Err::<ActivateGrantReply, ShareError>(
            ShareError::GrantExpired,
        ) && after == before,
        moment - started <= 15_000_000_000 && !before.clock.quarantined && before.clock.version == 1
            && before.clock.last_wall <= now + 5 ==> (result is Ok <==> activating_fault(
            crate::share::registry::clocked(before, now),
            public_id(secret),
            request,
            remote_peer,
            now,
        ) is None),
        result is Err ==> after.grants == before.grants && after.catalog == before.catalog,
{
}

/// The two ends of a grant are in order exactly if the consumer is a member, not revoked, under the
/// epoch of the snapshot, and the provider is another device: the owner, or a member that is not
/// revoked and has reported under its epoch, with its permission.
pub proof fn law_grant_is_between_members(
    s: RegistryView,
    owner: EndpointId,
    token: SnapshotToken,
    consumer: EndpointId,
    provider: EndpointId,
    now: u64,
)
    ensures
        ends_fault(s, owner, token, consumer, provider, now) is None ==> {
            &&& s.catalog.owner == owner
            &&& provider != consumer
            &&& serves_under(s, token.share, consumer, token.epoch)
            &&& provider != owner ==> {
                let member = s.catalog.shares[token.share@].members[provider@];
                serves_under(s, token.share, provider, member.epoch) && reported(
                    s,
                    token.share,
                    provider,
                    member.epoch,
                    now,
                )
            }
        },
        s.catalog.owner == owner && provider == owner && consumer != owner && serves_under(
            s,
            token.share,
            consumer,
            token.epoch,
        ) ==> ends_fault(s, owner, token, consumer, provider, now) is None,
        ({
            let member = s.catalog.shares[token.share@].members[provider@];
            let entries = s.rosters[token.share@].entries;
            &&& s.catalog.owner == owner
            &&& provider != owner
            &&& provider != consumer
            &&& serves_under(s, token.share, consumer, token.epoch)
            &&& serves_under(s, token.share, provider, member.epoch)
            &&& reported(s, token.share, provider, member.epoch, now)
            &&& forall|k: int|
                0 <= k < entries.len() && (#[trigger] entries[k]).member == provider
                    ==> entries[k].permission == member.permission
        }) ==> ends_fault(s, owner, token, consumer, provider, now) is None,
{
    let member = s.catalog.shares[token.share@].members[provider@];
    if s.rosters.contains_key(token.share@) && roster_fault_for(
        s.rosters[token.share@],
        s.catalog.owner,
        token.share,
        now,
    ) is None {
        lemma_reported(s, token.share, provider, member.epoch, now);
        lemma_no_entry(s.rosters[token.share@].entries, provider, 0);
    }
}

proof fn lemma_record_first(records: Seq<RecordView>, digest: Seq<u8>, i: int)
    requires
        0 <= i,
    ensures
        match record_with(records, digest, i) {
            Some(record) => logical_digest(record) == digest && exists|k: int|
                i <= k < records.len() && #[trigger] records[k] == record,
            None => forall|k: int|
                i <= k < records.len() ==> logical_digest(#[trigger] records[k]) != digest,
        },
    decreases records.len() - i,
{
    if i < records.len() {
        lemma_record_first(records, digest, i + 1);
    }
}

/// What is asked for is in order only if the token and the manifest are the owner's and hold, the
/// snapshot is kept under that token, the manifest is that of a record of it, and all the chunks are
/// of the manifest. Where no other record of the snapshot has that digest, that is enough.
pub proof fn law_chunks_are_granted_of_a_kept_record(
    s: RegistryView,
    owner: EndpointId,
    token: SnapshotToken,
    manifest: AttestationView,
    hashes: Seq<Hash32>,
    record: RecordView,
    now: u64,
)
    ensures
        asking_fault(s, owner, token, manifest, hashes, now) is None ==> {
            &&& token_fault(token, owner, token.share, now) is None
            &&& attestation_fault(manifest, owner, token.share, now) is None
            &&& subset_fault(hashes) is None
            &&& s.snapshots.contains_key(token.snapshot@)
            &&& s.snapshots[token.snapshot@].token == token
            &&& exists|k: int|
                0 <= k < s.snapshots[token.snapshot@]@.records.len() && attested_fault(
                    manifest,
                    token,
                    #[trigger] s.snapshots[token.snapshot@]@.records[k],
                ) is None
            &&& forall|i: int|
                0 <= i < hashes.len() ==> is_listed(
                    manifest.manifest.chunks,
                    #[trigger] hashes[i],
                )
        },
        ({
            let records = s.snapshots[token.snapshot@]@.records;
            &&& token_fault(token, owner, token.share, now) is None
            &&& attestation_fault(manifest, owner, token.share, now) is None
            &&& subset_fault(hashes) is None
            &&& s.snapshots.contains_key(token.snapshot@)
            &&& s.snapshots[token.snapshot@].token == token
            &&& records.contains(record)
            &&& attested_fault(manifest, token, record) is None
            &&& forall|k: int|
                0 <= k < records.len() && logical_digest(#[trigger] records[k]) == logical_digest(
                    record,
                ) ==> records[k] == record
            &&& forall|i: int|
                0 <= i < hashes.len() ==> exists|j: int|
                    0 <= j < manifest.manifest.chunks.len() && (
                    #[trigger] manifest.manifest.chunks[j]).hash == #[trigger] hashes[i]
        }) ==> asking_fault(s, owner, token, manifest, hashes, now) is None,
{
    let records = s.snapshots[token.snapshot@]@.records;
    lemma_record_first(records, manifest.record_hash@, 0);
    if records.contains(record) {
        let k = choose|k: int| 0 <= k < records.len() && records[k] == record;
        assert(records[k] == record);
    }
    if forall|i: int|
        0 <= i < hashes.len() ==> exists|j: int|
            0 <= j < manifest.manifest.chunks.len() && (#[trigger] manifest.manifest.chunks[j]).hash
                == #[trigger] hashes[i] {
        assert forall|i: int| 0 <= i < hashes.len() implies #[trigger] is_listed(
            manifest.manifest.chunks,
            hashes[i],
        ) by {
            let h = hashes[i];
            let j = choose|j: int|
                0 <= j < manifest.manifest.chunks.len() && (
                #[trigger] manifest.manifest.chunks[j]).hash == h;
            assert(manifest.manifest.chunks[j].hash == h);
        }
    }
}

/// A grant is issued exactly if what is asked for and the two ends are in order, the grant can be
/// written, there is room for it, and its number was not used; and it is for the very chunks of the
/// very manifest and snapshot that were asked for.
pub proof fn law_grant_is_issued_if_all_is_in_order(
    s: RegistryView,
    secret: Seq<u8>,
    consumer: EndpointId,
    provider: EndpointId,
    token: SnapshotToken,
    manifest: AttestationView,
    hashes: Seq<Hash32>,
    nonce: GrantNonce,
    now: u64,
)
    ensures
        ({
            let grant = granted(s, secret, consumer, provider, token, manifest, hashes, nonce, now);
            &&& granting_fault(
                s,
                secret,
                consumer,
                provider,
                token,
                manifest,
                hashes,
                nonce,
                now,
            ) is None <==> {
                &&& asking_fault(s, public_id(secret), token, manifest, hashes, now) is None
                &&& ends_fault(s, public_id(secret), token, consumer, provider, now) is None
                &&& grant_refusal(grant) is None
                &&& !crowded(s, grant_row_bytes(issued_row(grant)).len())
                &&& !s.grants.contains_key(nonce@)
            }
            &&& grant.request_hash == hash_with(
                request_digest(token.share, token.snapshot, manifest.manifest_hash, hashes),
            )
        }),
{
}

/// An apply is permitted exactly if the token is the owner's and holds, the share still has its
/// root, the snapshot is kept under it, the one who asks is a member, not revoked, under its epoch,
/// the permit can be written, there is room for it, and its number was not used.
pub proof fn law_apply_is_permitted_if_nothing_has_changed(
    s: RegistryView,
    secret: Seq<u8>,
    consumer: EndpointId,
    token: SnapshotToken,
    root: Hash32,
    nonce: GrantNonce,
    now: u64,
)
    ensures
        ({
            let permit = permitted(s, secret, consumer, token, root, nonce, now);
            permitting_fault(s, secret, consumer, token, root, nonce, now) is None <==> {
                &&& token_fault(token, public_id(secret), token.share, now) is None
                &&& token.root_hash == root
                &&& s.snapshots.contains_key(token.snapshot@)
                &&& s.snapshots[token.snapshot@].token == token
                &&& serves_under(s, token.share, consumer, token.epoch)
                &&& permit_shape_fault(permit) is None
                &&& !crowded(s, apply_row_bytes(prepared_row(permit)).len())
                &&& !s.applies.contains_key(nonce@)
            }
        }),
        token_fault(token, public_id(secret), token.share, now) is None && token.root_hash != root
            ==> permitting_fault(s, secret, consumer, token, root, nonce, now) == Some(
            ShareError::ManifestMismatch,
        ),
{
}

/// An apply is started exactly if it is kept, of that owner and share and for that member, neither
/// it nor the member is revoked, the member has its epoch, the share has its root, it still holds,
/// and it was not started before, or for the same operation.
pub proof fn law_apply_is_started_by_its_member(
    s: RegistryView,
    owner: EndpointId,
    share: ShareId,
    peer: EndpointId,
    root: Hash32,
    start: ApplyStart,
    now: u64,
)
    ensures
        starting_fault(s, owner, share, peer, root, start, now) is None <==> {
            let row = s.applies[start.permit_nonce@];
            &&& s.applies.contains_key(start.permit_nonce@)
            &&& row.permit.owner == owner
            &&& row.permit.share == share
            &&& row.permit.consumer == peer
            &&& !row.revoked
            &&& serves_under(s, share, peer, row.permit.epoch)
            &&& row.permit.root_hash == root
            &&& permit_fault(row.permit, owner, share, peer, now) is None
            &&& row.state == ApplyState::Prepared || (row.state == ApplyState::Started || row.state
                == ApplyState::Drained) && row.operation_id == Some(start.operation_id)
        },
{
}

/// A question about a grant is answered exactly if it is put to the owner whose grant it is, names
/// all of the grant, comes from one of its two ends, and names its activation if it names any.
pub proof fn law_grant_is_told_to_its_ends(
    s: RegistryView,
    binding: ActivationBinding,
    activation_id: Option<[u8; 16]>,
    peer: EndpointId,
)
    ensures
        query_fault(s, binding, activation_id, peer) is None <==> {
            let row = s.grants[binding.nonce@];
            &&& binding.owner == s.catalog.owner
            &&& s.grants.contains_key(binding.nonce@)
            &&& binding_of(row.grant) == binding
            &&& peer == row.grant.consumer || peer == row.grant.provider
            &&& activation_id is None || activation_id == row.activation_id
        },
        status_fault(s, binding, activation_id, peer) is None <==> query_fault(
            s,
            binding,
            activation_id,
            peer,
        ) is None,
        binding.owner == s.catalog.owner && !s.grants.contains_key(binding.nonce@) ==> query_fault(
            s,
            binding,
            activation_id,
            peer,
        ) == Some(ShareError::GrantReplay),
{
}

/// What is told of a grant or an apply that has expired says so, and that the owner still answers.
pub proof fn law_receipt_tells_what_has_expired(
    row: GrantRow,
    drain: GrantDrainState,
    apply: ApplyRow,
)
    ensures
        receipt_of(row, drain).state == ActivationStateView::Expired <==> row.state
            == GrantState::Expired,
        receipt_of(row, drain).admission_open,
        apply_receipt_of(apply).state == ApplyStateView::Expired <==> apply.state
            == ApplyState::Expired,
        apply_receipt_of(apply).admission_open,
{
}

/// A question about an apply is answered, and one that was not started is cancelled, exactly for the
/// member that it is for, if the permit is the owner's and all that is named of it is right. An
/// apply that has an operation is known by it; one that has none may be asked about under any
/// while it is only prepared.
pub proof fn law_apply_is_told_to_its_member(
    s: RegistryView,
    query: ApplyStatusQuery,
    cancel: ApplyCancel,
    peer: EndpointId,
)
    ensures
        apply_query_fault(s, query, peer) is None <==> {
            let row = s.applies[query.permit_nonce@];
            &&& query.owner == s.catalog.owner
            &&& s.applies.contains_key(query.permit_nonce@)
            &&& row.permit.owner == query.owner
            &&& row.permit.share == query.share
            &&& row.permit.consumer == query.consumer
            &&& row.permit.nonce == query.permit_nonce
            &&& query.consumer == peer
            &&& row.operation_id is Some ==> query.operation_id == row.operation_id
            &&& row.operation_id is None ==> query.operation_id is None || row.state
                == ApplyState::Prepared
            &&& permit_signature_fault(row.permit, query.owner, query.share, peer) is None
        },
        apply_cancel_fault(s, cancel, peer) is None <==> {
            let row = s.applies[cancel.permit_nonce@];
            &&& cancel.owner == s.catalog.owner
            &&& s.applies.contains_key(cancel.permit_nonce@)
            &&& row.permit.owner == cancel.owner
            &&& row.permit.share == cancel.share
            &&& row.permit.consumer == cancel.consumer
            &&& row.permit.nonce == cancel.permit_nonce
            &&& cancel.consumer == peer
            &&& row.operation_id is Some ==> row.operation_id == Some(cancel.operation_id)
            &&& permit_signature_fault(row.permit, cancel.owner, cancel.share, peer) is None
        },
{
}

} // verus!
