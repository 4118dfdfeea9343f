//! What a member believes of its owner, what it keeps, and what an owner sets up.
use vstd::prelude::*;

use crate::hash::{Hash32, ReplicaId};
use crate::order::{byte_less, lemma_byte_less_asym};
use crate::share::authority::{
    binding_of, grant_fault, permit_fault, reply_fault, request_digest, subset_fault,
    ActivateGrantReply, ApplyPermit, AttestationView, ClientIntentPhase, ClientIntentRow,
    ClientSide, ShareGrant, SnapshotToken,
};
use crate::share::catalog::{CatalogView, ConfigView, Membership};
use crate::share::connections::{numbers_of, Link};
use crate::share::error::ShareError;
use crate::share::identity::{AddressView, EndpointId, ShareId};
use crate::share::intents::{
    advances, may_transition, prepared_intent, prepares, preparing_fault,
};
use crate::share::owner::{creates, new_config};
use crate::share::registry::RegistryView;
use crate::share::roster::{roster_fault_for, RosterView};
use crate::share::rows::intent_bytes;
use crate::share::session::{
    kept, lease_fault, lease_nanos, own_grant_fault, own_lease_fault, own_permit_fault,
    own_roster_fault, serving_fault, session_fault, storage_fault, wanting_fault, SupplierStorage,
};
use crate::table::{listing, total};

verus! {

/// A session is opened exactly under a membership that is kept for the share and its owner, of that
/// owner and at that owner's address, and never with the device itself.
pub proof fn law_session_is_with_the_owner(
    catalog: CatalogView,
    own: EndpointId,
    owner: EndpointId,
    share: ShareId,
)
    ensures
        session_fault(catalog, own, owner, share) is None <==> {
            let key = owner@ + share@;
            &&& catalog.relationships.contains_key(key)
            &&& catalog.relationships[key].membership.owner == owner
            &&& catalog.relationships[key].address.id == owner
            &&& owner != own
        },
        !catalog.relationships.contains_key(owner@ + share@) ==> session_fault(
            catalog,
            own,
            owner,
            share,
        ) == Some(ShareError::NotMember),
{
}

/// An answer gives a hold on a grant exactly if the activation was accepted and the time that it
/// gives, of which no more than fifteen seconds count, has not gone by since it was asked for.
pub proof fn law_lease_counts_from_the_request(reply: ActivateGrantReply, started: u64, now: u64)
    requires
        started + 15_000_000_000 <= u64::MAX,
    ensures
        lease_nanos(reply) == (if reply.max_duration_secs <= 15 {
            reply.max_duration_secs * 1_000_000_000
        } else {
            15_000_000_000
        }),
        lease_fault(reply, started, now) is None <==> reply.accepted && now - started
            < lease_nanos(reply),
        !reply.accepted ==> lease_fault(reply, started, now) == Some(ShareError::GrantReplay),
        reply.accepted && lease_fault(reply, started, now) is Some ==> lease_fault(
            reply,
            started,
            now,
        ) == Some(ShareError::GrantExpired),
{
}

proof fn lemma_own_entry(entries: Seq<crate::share::roster::EntryView>, member: EndpointId, i: int)
    requires
        0 <= i,
    ensures
        match crate::share::grants::entry_of(entries, member, i) {
            Some(entry) => entry.member == member && exists|k: int|
                i <= k < entries.len() && #[trigger] entries[k] == entry,
            None => forall|k: int|
                i <= k < entries.len() ==> (#[trigger] entries[k]).member != member,
        },
    decreases entries.len() - i,
{
    if i < entries.len() {
        lemma_own_entry(entries, member, i + 1);
    }
}

/// A roster that a member believes is one of its owner and its share that holds, and lists the
/// member itself with the permission and the epoch that it has.
pub proof fn law_believed_roster_lists_the_member(
    membership: Membership,
    roster: RosterView,
    now: u64,
)
    ensures
        own_roster_fault(membership, roster, now) is None ==> {
            &&& roster_fault_for(roster, membership.owner, membership.share_id, now) is None
            &&& exists|k: int|
                0 <= k < roster.entries.len() && (#[trigger] roster.entries[k]).member
                    == membership.endpoint && roster.entries[k].permission == membership.permission
                    && roster.entries[k].member_epoch == membership.epoch
        },
        roster_fault_for(roster, membership.owner, membership.share_id, now) is None && (forall|
            k: int,
        |
            0 <= k < roster.entries.len() ==> (#[trigger] roster.entries[k]).member
                != membership.endpoint) ==> own_roster_fault(membership, roster, now) == Some(
            ShareError::EpochMismatch,
        ),
        roster_fault_for(roster, membership.owner, membership.share_id, now) is None && (exists|
            k: int,
        |
            0 <= k < roster.entries.len() && (#[trigger] roster.entries[k]).member
                == membership.endpoint) && (forall|k: int|
            0 <= k < roster.entries.len() && (#[trigger] roster.entries[k]).member
                == membership.endpoint ==> roster.entries[k].permission == membership.permission
                && roster.entries[k].member_epoch == membership.epoch) ==> own_roster_fault(
            membership,
            roster,
            now,
        ) is None,
{
    lemma_own_entry(roster.entries, membership.endpoint, 0);
}

/// A member asks for a grant only under its own epoch and share, for a manifest of the same, and
/// for chunks that may be asked for together.
pub proof fn law_grant_is_wanted_for_ones_own(
    membership: Membership,
    snapshot: SnapshotToken,
    manifest: AttestationView,
    hashes: Seq<Hash32>,
)
    ensures
        wanting_fault(membership, snapshot, manifest, hashes) is None <==> {
            &&& snapshot.epoch == membership.epoch
            &&& snapshot.share == membership.share_id
            &&& manifest.share == membership.share_id
            &&& manifest.epoch == membership.epoch
            &&& subset_fault(hashes) is None
        },
{
}

/// At most sixty-four chunks may be asked for together, in ascending order, so that none is named
/// twice.
pub proof fn law_chunks_are_asked_for_in_order(hashes: Seq<Hash32>)
    ensures
        subset_fault(hashes) is None <==> hashes.len() <= 64 && forall|i: int, j: int|
            0 <= i < j < hashes.len() ==> byte_less(#[trigger] hashes[i]@, #[trigger] hashes[j]@),
        hashes.len() > 64 ==> subset_fault(hashes) == Some(ShareError::Busy),
        subset_fault(hashes) is None ==> hashes.no_duplicates(),
{
    if subset_fault(hashes) is None {
        assert forall|i: int, j: int|
            0 <= i < hashes.len() && 0 <= j < hashes.len() && i != j implies hashes[i]
            != hashes[j] by {
            if i < j {
                assert(byte_less(hashes[i]@, hashes[j]@));
            } else {
                assert(byte_less(hashes[j]@, hashes[i]@));
            }
            lemma_byte_less_asym(hashes[i]@, hashes[j]@);
            lemma_byte_less_asym(hashes[j]@, hashes[i]@);
        }
    }
}

/// A member believes a grant exactly if it is one of its owner and its share that holds, for the
/// member itself and the provider that it named, under its own epoch, and for the very chunks of
/// the very manifest and snapshot that it asked for.
pub proof fn law_believed_grant_is_what_was_asked_for(
    membership: Membership,
    grant: ShareGrant,
    provider: EndpointId,
    snapshot: SnapshotToken,
    manifest: AttestationView,
    hashes: Seq<Hash32>,
    now: u64,
)
    ensures
        own_grant_fault(membership, grant, provider, snapshot, manifest, hashes, now) is None <==> {
            &&& grant_fault(grant, membership.owner, membership.share_id, now) is None
            &&& grant.consumer == membership.endpoint
            &&& grant.provider == provider
            &&& grant.epoch == membership.epoch
            &&& subset_fault(hashes) is None
            &&& grant.request_hash@ == request_digest(
                membership.share_id,
                snapshot.snapshot,
                manifest.manifest_hash,
                hashes,
            )
        },
{
}

/// A member believes a permit exactly if it is one of its owner and its share for the member itself
/// that holds, under its own epoch, and for the snapshot that it is about to apply.
pub proof fn law_believed_permit_is_for_the_snapshot(
    membership: Membership,
    permit: ApplyPermit,
    snapshot: SnapshotToken,
    now: u64,
)
    ensures
        own_permit_fault(membership, permit, snapshot, now) is None <==> {
            &&& permit_fault(
                permit,
                membership.owner,
                membership.share_id,
                membership.endpoint,
                now,
            ) is None
            &&& permit.epoch == membership.epoch
            &&& permit.snapshot == snapshot.snapshot
            &&& permit.root_hash == snapshot.root_hash
        },
{
}

/// A member serves a grant exactly if it is named as the one that serves it, by its owner, for its
/// share and under its own epoch.
pub proof fn law_member_serves_what_names_it(membership: Membership, grant: ShareGrant)
    ensures
        serving_fault(membership, grant) is None <==> {
            &&& grant.provider == membership.endpoint
            &&& grant.share == membership.share_id
            &&& grant.owner == membership.owner
            &&& grant.provider_epoch == membership.epoch
        },
        grant.provider != membership.endpoint ==> serving_fault(membership, grant) == Some(
            ShareError::EndpointMismatch,
        ),
{
}

/// The answer to an activation gives a member a hold exactly if its owner has signed it for its
/// share, for the member itself and for that grant, and it gives a hold at the time.
pub proof fn law_lease_is_of_the_grant(
    membership: Membership,
    grant: ShareGrant,
    reply: ActivateGrantReply,
    started: u64,
    now: u64,
)
    ensures
        own_lease_fault(membership, grant, reply, started, now) is None <==> {
            &&& reply_fault(reply, membership.owner, membership.share_id) is None
            &&& reply.provider == membership.endpoint
            &&& reply.nonce == grant.nonce
            &&& lease_fault(reply, started, now) is None
        },
{
}

/// A membership that an owner has sent is kept only if it is of that owner and of the share, and
/// the device's own. It is then found under both with the address it came with; all other
/// memberships, and all else, stay. One that is refused changes nothing.
pub proof fn law_membership_is_kept_as_it_was_sent(
    before: RegistryView,
    after: RegistryView,
    result: Result<(), ShareError>,
    member: Membership,
    owner: EndpointId,
    share: ShareId,
    own: EndpointId,
    address: AddressView,
)
    requires
        kept(before, after, result, member, owner, share, own, address),
    ensures
        result is Err ==> after == before,
        member.owner != owner || member.share_id != share || member.endpoint != own ==> result
            == Err::<(), ShareError>(ShareError::OwnerMismatch),
        result is Ok ==> {
            let held = after.catalog.relationships[owner@ + share@];
            &&& member.owner == owner
            &&& member.share_id == share
            &&& member.endpoint == own
            &&& after.catalog.relationships.contains_key(owner@ + share@)
            &&& held.membership == member
            &&& held.address == address
            &&& after.catalog.shares == before.catalog.shares
            &&& after.catalog.owner == before.catalog.owner
            &&& forall|key: Seq<u8>|
                key != owner@ + share@ && before.catalog.relationships.contains_key(key)
                    ==> #[trigger] after.catalog.relationships[key]
                    == before.catalog.relationships[key]
            &&& after.grants == before.grants
            &&& after.applies == before.applies
            &&& after.snapshots == before.snapshots
            &&& after.intents == before.intents
            &&& after.clock == before.clock
        },
{
}

/// A member serves content from a folder exactly if it holds the lease of it, the lease is for the
/// share and its owner, and both the index and the store are of that folder.
pub proof fn law_content_is_served_from_the_leased_folder(
    owner: EndpointId,
    share: ShareId,
    storage: SupplierStorage,
)
    ensures
        storage_fault(owner, share, storage) is None <==> {
            &&& storage.leased
            &&& storage.leased_for == Some((share, owner))
            &&& storage.index_on_root
            &&& storage.store_private
        },
        storage.leased && storage.leased_for != Some((share, owner)) ==> storage_fault(
            owner,
            share,
            storage,
        ) == Some(ShareError::OwnerMismatch),
{
}

/// A share is set up as it is asked for: a folder that was indexed before keeps its replica, and
/// nobody may ask for another; else the replica is the one asked for, or the fresh one. It is there
/// afterwards, not ready, without keys and without members; all other shares stay.
pub proof fn law_share_is_set_up_as_asked(
    before: RegistryView,
    after: RegistryView,
    owner: EndpointId,
    name: Seq<char>,
    root: Seq<char>,
    state_root: Seq<char>,
    requested: Option<ReplicaId>,
    retained: Option<ReplicaId>,
    floor: u64,
    share: ShareId,
    fresh: ReplicaId,
    result: Result<ConfigView, ShareError>,
)
    requires
        creates(
            before,
            after,
            result,
            new_config(
                owner,
                name,
                root,
                state_root,
                requested,
                retained,
                floor,
                share,
                fresh,
            ),
            requested,
            retained,
        ),
    ensures
        result is Err ==> after == before,
        result is Ok ==> {
            let config = result->Ok_0;
            let made = after.catalog.shares[share@];
            &&& name.len() >= 1
            &&& owner == before.catalog.owner
            &&& before.catalog.shares.dom().len() < 256
            &&& !before.catalog.shares.contains_key(share@)
            &&& requested is Some && retained is Some ==> requested == retained
            &&& config.share_id == share
            &&& config.owner == owner
            &&& config.name == name
            &&& config.root == root
            &&& config.state_root == state_root
            &&& config.min_free_space_bytes == floor
            &&& retained is Some ==> config.replica == retained->0
            &&& retained is None && requested is Some ==> config.replica == requested->0
            &&& retained is None && requested is None ==> config.replica == fresh
            &&& after.catalog.shares.contains_key(share@)
            &&& made.config == config
            &&& !made.ready
            &&& made.invitations =~= Map::empty()
            &&& made.members =~= Map::empty()
            &&& made.known.contains(config.replica@)
            &&& forall|key: Seq<u8>|
                before.catalog.shares.contains_key(key) ==> #[trigger] after.catalog.shares[key]
                    == before.catalog.shares[key]
        },
        requested is Some && retained is Some && requested != retained ==> result is Err,
{
}

/// The steps that an intent can take, by where they lead. None leads back to the beginning, and
/// none out of an end.
pub proof fn law_intents_go_forward(from: ClientIntentPhase, to: ClientIntentPhase)
    requires
        from != to,
    ensures
        advances(from, to) <==> match to {
            ClientIntentPhase::Prepared => false,
            ClientIntentPhase::AwaitingActivation => from == ClientIntentPhase::Prepared,
            ClientIntentPhase::Active => from == ClientIntentPhase::AwaitingActivation,
            ClientIntentPhase::Draining => from == ClientIntentPhase::AwaitingActivation || from
                == ClientIntentPhase::Active || from == ClientIntentPhase::Unknown,
            ClientIntentPhase::Drained => from == ClientIntentPhase::Active || from
                == ClientIntentPhase::Draining || from == ClientIntentPhase::Unknown,
            ClientIntentPhase::Cancelled => from == ClientIntentPhase::Prepared || from
                == ClientIntentPhase::AwaitingActivation || from == ClientIntentPhase::Unknown,
            ClientIntentPhase::Unknown => from != ClientIntentPhase::Drained && from
                != ClientIntentPhase::Cancelled,
        },
{
}

/// An intent takes a step only for the very grant, side and operation that it was written down for,
/// and never under another activation than the one it has.
pub proof fn law_intent_is_for_one_operation(
    s: RegistryView,
    grant: ShareGrant,
    side: ClientSide,
    operation_id: [u8; 16],
    phase: ClientIntentPhase,
    activation_id: Option<[u8; 16]>,
)
    ensures
        may_transition(s, grant, side, operation_id, phase, activation_id) ==> {
            let row = s.intents[grant.nonce@];
            &&& s.intents.contains_key(grant.nonce@)
            &&& row.grant == grant
            &&& row.side == side
            &&& row.operation_id == operation_id
            &&& activation_id is None || row.activation_id is None || row.activation_id
                == activation_id
            &&& row.phase == ClientIntentPhase::Drained ==> phase == ClientIntentPhase::Drained
            &&& row.phase == ClientIntentPhase::Cancelled ==> phase == ClientIntentPhase::Cancelled
        },
        ({
            let row = s.intents[grant.nonce@];
            &&& s.intents.contains_key(grant.nonce@)
            &&& row.grant == grant
            &&& row.binding == binding_of(grant)
            &&& row.side == side
            &&& row.operation_id == operation_id
            &&& activation_id is None || row.activation_id is None || row.activation_id
                == activation_id
            &&& advances(row.phase, phase)
        }) ==> may_transition(s, grant, side, operation_id, phase, activation_id),
{
}

/// An intent is written down only for a grant that holds, as one that has only been prepared, in
/// this run and from now on. One that is there already comes back as it is to whoever wants the
/// same, and to nobody else.
pub proof fn law_intent_is_written_down_once(
    before: RegistryView,
    after: RegistryView,
    row: ClientIntentRow,
    grant: ShareGrant,
    side: ClientSide,
    operation_id: [u8; 16],
    wall: u64,
)
    requires
        prepares(before, after, Ok(row), grant, side, operation_id, wall),
    ensures
        grant_fault(grant, grant.owner, grant.share, wall) is None,
        after.intents.contains_key(grant.nonce@),
        after.intents[grant.nonce@] == row,
        row.grant == grant,
        row.side == side,
        row.operation_id == operation_id,
        !before.intents.contains_key(grant.nonce@) ==> {
            &&& row.phase == ClientIntentPhase::Prepared
            &&& row.activation_id is None
            &&& row.boot_id == before.boot_id
            &&& row.started_at_wall == wall
            &&& row.terminal_at_wall is None
        },
        after.grants == before.grants,
        after.applies == before.applies,
        after.snapshots == before.snapshots,
        after.catalog == before.catalog,
{
}

/// The connections that are counted as a device's are exactly those that are its own, and all are
/// counted where no device is named.
pub proof fn law_connections_are_counted_by_device(links: Seq<Link>, peer: Option<EndpointId>)
    ensures
        forall|id: u64|
            #![trigger numbers_of(links, peer).contains(id)]
            numbers_of(links, peer).contains(id) <==> exists|k: int|
                0 <= k < links.len() && (#[trigger] links[k]).id == id && (peer is None || peer
                    == Some(links[k].peer)),
{
    let own = |connection: Link| crate::share::connections::concerns(connection, peer);
    let ids = numbers_of(links, peer);
    let kept = links.filter(own);
    assert forall|id: u64| #[trigger] ids.contains(id) <==> exists|k: int|
        0 <= k < links.len() && (#[trigger] links[k]).id == id && (peer is None || peer == Some(
            links[k].peer,
        )) by {
        if ids.contains(id) {
            let at = choose|at: int| 0 <= at < ids.len() && ids[at] == id;
            assert(kept[at].id == id);
            links.lemma_filter_contains_rev(own, kept[at]);
        }
        if exists|k: int|
            0 <= k < links.len() && (#[trigger] links[k]).id == id && (peer is None || peer
                == Some(links[k].peer)) {
            let k = choose|k: int|
                0 <= k < links.len() && (#[trigger] links[k]).id == id && (peer is None || peer
                    == Some(links[k].peer));
            assert(own(links[k]));
            links.lemma_filter_contains(own, k);
            assert(kept.contains(links[k]));
            let at = choose|at: int| 0 <= at < kept.len() && kept[at] == links[k];
            assert(ids[at] == id);
        }
    }
}

/// An intent is written down exactly if nothing is written under the number of its grant and there
/// is room for it, or if what is written there is for the same grant, side and operation. Another
/// operation has to wait; another grant or side is refused.
pub proof fn law_intent_keeps_others_out(
    s: RegistryView,
    grant: ShareGrant,
    side: ClientSide,
    operation_id: [u8; 16],
    wall: u64,
)
    ensures
        ({
            let held = s.intents[grant.nonce@];
            let fault = preparing_fault(s, grant, side, operation_id, wall);
            if s.intents.contains_key(grant.nonce@) {
                &&& fault is None ==> held.grant == grant && held.side == side && held.operation_id
                    == operation_id
                &&& held.grant == grant && held.binding == binding_of(grant) && held.side == side
                    && held.operation_id == operation_id ==> fault is None
                &&& held.grant != grant || held.side != side ==> fault == Some(
                    ShareError::GrantReplay,
                )
                &&& held.grant == grant && held.binding == binding_of(grant) && held.side == side
                    && held.operation_id != operation_id ==> fault == Some(ShareError::Busy)
            } else {
                &&& s.intents.dom().len() >= 4096 ==> fault == Some(ShareError::Busy)
                &&& s.intents.dom().len() < 4096 && total(listing(s.intents)) + intent_bytes(
                    prepared_intent(s, grant, side, operation_id, wall),
                ).len() <= 16_777_216 ==> fault is None
            }
        }),
{
}

} // verus!
