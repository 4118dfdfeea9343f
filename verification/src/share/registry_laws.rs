//! What an owner writes down of its shares, and what goes when a share goes.
use vstd::prelude::*;

use crate::hash::ReplicaId;
use crate::merkle::{gathered, load_fault, root_digest};
use crate::order::byte_less;
use crate::record::{record_fault, RecordView};
use crate::reconcile::resolver_id;
use crate::share::authority::{
    binding_of, records_fault_from, snapshot_bytes, snapshot_fault, token_fault, ShareGrant,
    SnapshotView,
};
use crate::share::catalog::{
    fresh_share, honouring_fault, inserting_fault, issuing_fault, knowing, remembering_fault,
    with_share, CatalogView, ConfigView,
};
use crate::share::catalog_size::catalog_fits;
use crate::share::codec::varint;
use crate::share::error::{ShareError, ShareFault};
use crate::share::identity::{
    public_id, signed_by, AddressView, EndpointId, InvitationId, Permission, ShareId,
};
use crate::share::owner::hands_out;
use crate::share::registry::{
    clock_fault, crowded, issues_key, removing_fault, without_share, RegistryView,
};
use crate::share::rows::{ApplyState, GrantState};
use crate::share::ticket::{
    issued_body, ticket_fault, ticket_message, ShareTicket, SignedTicket, TicketView,
};
use crate::table::{listing, total};

verus! {

/// A share goes exactly if it is there and none of its grants and applies is still open: every one
/// has been drained or denied, or has expired; one that a restart has interrupted is still open.
pub proof fn law_share_goes_when_all_is_over(s: RegistryView, share: ShareId)
    ensures
        removing_fault(s, share) is None <==> {
            &&& s.catalog.shares.contains_key(share@)
            &&& forall|k: Seq<u8>|
                s.grants.contains_key(k) && (#[trigger] s.grants[k]).grant.share == share
                    ==> s.grants[k].state != GrantState::Issued && s.grants[k].state
                    != GrantState::Active && s.grants[k].state != GrantState::Restarted
            &&& forall|k: Seq<u8>|
                s.applies.contains_key(k) && (#[trigger] s.applies[k]).permit.share == share
                    ==> s.applies[k].state != ApplyState::Prepared && s.applies[k].state
                    != ApplyState::Started && s.applies[k].state != ApplyState::Restarted
        },
        (exists|k: Seq<u8>|
            s.grants.contains_key(k) && (#[trigger] s.grants[k]).grant.share == share
                && s.grants[k].state == GrantState::Active) ==> removing_fault(s, share) == Some(
            ShareError::RevocationPending,
        ),
{
}

/// When a share goes, all that is about other shares stays as it is.
pub proof fn law_other_shares_stay(s: RegistryView, share: ShareId, key: Seq<u8>)
    ensures
        ({
            let after = without_share(s, share);
            &&& key != share@ && s.catalog.shares.contains_key(key)
                ==> after.catalog.shares.contains_key(key) && after.catalog.shares[key]
                == s.catalog.shares[key]
            &&& key != share@ && s.rosters.contains_key(key) ==> after.rosters.contains_key(key)
                && after.rosters[key] == s.rosters[key]
            &&& key != s.catalog.owner@ + share@ && s.catalog.relationships.contains_key(key)
                ==> after.catalog.relationships.contains_key(key)
                && after.catalog.relationships[key] == s.catalog.relationships[key]
            &&& s.grants.contains_key(key) && s.grants[key].grant.share != share
                ==> after.grants.contains_key(key) && after.grants[key] == s.grants[key]
            &&& s.applies.contains_key(key) && s.applies[key].permit.share != share
                ==> after.applies.contains_key(key) && after.applies[key] == s.applies[key]
            &&& s.snapshots.contains_key(key) && s.snapshots[key].token.share != share
                ==> after.snapshots.contains_key(key) && after.snapshots[key] == s.snapshots[key]
            &&& s.challenges.contains_key(key) && s.challenges[key].share != share
                ==> after.challenges.contains_key(key) && after.challenges[key]
                == s.challenges[key]
            &&& after.challenges.contains_key(key) ==> after.challenges[key].share != share
            &&& !after.rosters.contains_key(share@)
            &&& after.clock == s.clock
            &&& after.intents == s.intents
            &&& after.boot_id == s.boot_id
            &&& after.catalog.owner == s.catalog.owner
        }),
{
}

/// There is room for one more row exactly while the journals hold fewer than 4096 rows and, with
/// the new one, no more than sixteen mebibytes.
pub proof fn law_journals_are_bounded(s: RegistryView, size: nat)
    ensures
        crowded(s, size) <==> !({
            &&& s.snapshots.dom().len() + s.grants.dom().len() + s.applies.dom().len() < 4096
            &&& total(listing(s.snapshots)) + total(listing(s.grants)) + total(listing(s.applies))
                + size <= 16_777_216
        }),
{
}

/// What ties a question to a grant is everything that the grant is about: two grants with the same
/// binding are of the same owner, share, devices, epochs, snapshot, manifest, chunks and number.
pub proof fn law_binding_is_all_of_the_grant(grant: ShareGrant, other: ShareGrant)
    ensures
        binding_of(grant) == binding_of(other) <==> {
            &&& grant.owner == other.owner
            &&& grant.share == other.share
            &&& grant.consumer == other.consumer
            &&& grant.provider == other.provider
            &&& grant.epoch == other.epoch
            &&& grant.provider_epoch == other.provider_epoch
            &&& grant.snapshot == other.snapshot
            &&& grant.manifest == other.manifest
            &&& grant.request_hash == other.request_hash
            &&& grant.nonce == other.nonce
        },
        binding_of(grant).owner == grant.owner,
        binding_of(grant).share == grant.share,
        binding_of(grant).consumer == grant.consumer,
        binding_of(grant).provider == grant.provider,
        binding_of(grant).epoch == grant.epoch,
        binding_of(grant).provider_epoch == grant.provider_epoch,
        binding_of(grant).snapshot == grant.snapshot,
        binding_of(grant).manifest == grant.manifest,
        binding_of(grant).request_hash == grant.request_hash,
        binding_of(grant).nonce == grant.nonce,
{
}

proof fn lemma_records_fine(records: Seq<RecordView>, i: int)
    requires
        0 <= i,
    ensures
        records_fault_from(records, i) is None <==> forall|k: int|
            i <= k < records.len() ==> record_fault(#[trigger] records[k]) is None,
    decreases records.len() - i,
{
    if i < records.len() {
        lemma_records_fine(records, i + 1);
    }
}

/// A complete snapshot is taken exactly if its token is, it has as many records as the token says,
/// in the order of their paths and each valid, they can be put in a tree whose digest is the one in
/// the token, and all of it is within sixteen mebibytes.
pub proof fn law_snapshot_is_taken_with_its_records(
    snapshot: SnapshotView,
    owner: EndpointId,
    share: ShareId,
    now: u64,
)
    ensures
        snapshot_fault(snapshot, owner, share, now) is None <==> {
            &&& token_fault(snapshot.token, owner, share, now) is None
            &&& snapshot.records.len() == snapshot.token.record_count
            &&& forall|i: int, j: int|
                0 <= i < j < snapshot.records.len() ==> byte_less(
                    (#[trigger] snapshot.records[i]).path,
                    (#[trigger] snapshot.records[j]).path,
                )
            &&& forall|i: int|
                0 <= i < snapshot.records.len() ==> record_fault(
                    #[trigger] snapshot.records[i],
                ) is None
            &&& load_fault(snapshot.records) is None
            &&& root_digest(gathered(snapshot.records)) == snapshot.token.root_hash@
            &&& snapshot_bytes(snapshot).len() <= 16_777_216
        },
        token_fault(snapshot.token, owner, share, now) is Some ==> snapshot_fault(
            snapshot,
            owner,
            share,
            now,
        ) == Some(ShareFault::Share(token_fault(snapshot.token, owner, share, now)->0)),
{
    lemma_records_fine(snapshot.records, 0);
}

/// A number is written in groups of seven bits, the lowest first, and only the last group has its
/// top bit clear.
pub proof fn law_number_is_written_in_groups(value: nat, rest: nat, low: nat)
    requires
        low < 128,
        value == rest * 128 + low,
    ensures
        rest == 0 ==> varint(value) == seq![low as u8],
        rest > 0 ==> varint(value) == seq![(low + 128) as u8] + varint(rest),
{
    assert(value / 128 == rest && value % 128 == low) by (nonlinear_arith)
        requires
            low < 128,
            value == rest * 128 + low,
    ;
}

/// A share is added exactly if it is the device's own, its replica is not the resolver's, there are
/// fewer than 256 and none of its name, and the catalog stays within its size.
pub proof fn law_share_is_added_once(
    catalog: CatalogView,
    config: ConfigView,
    known: Seq<ReplicaId>,
)
    ensures
        inserting_fault(catalog, config, known) is None <==> {
            &&& config.owner == catalog.owner
            &&& config.replica@ != resolver_id()
            &&& catalog.shares.dom().len() < 256
            &&& !catalog.shares.contains_key(config.share_id@)
            &&& catalog_fits(with_share(catalog, config.share_id, fresh_share(config, known)))
        },
        ({
            let made = fresh_share(config, known);
            &&& made.config == config
            &&& !made.ready
            &&& made.members =~= Map::empty()
            &&& made.invitations =~= Map::empty()
            &&& made.known.contains(config.replica@)
            &&& made.known.contains(resolver_id())
        }),
{
}

/// A share comes to know replicas exactly if it is there, they are no more than 4096, and the
/// catalog stays within its size. It then knows those, and nothing else of the catalog changes.
pub proof fn law_share_knows_what_it_is_told(
    catalog: CatalogView,
    share: ShareId,
    known: Set<Seq<u8>>,
)
    ensures
        remembering_fault(catalog, share, known) is None <==> {
            &&& catalog.shares.contains_key(share@)
            &&& known.len() <= 4096
            &&& catalog_fits(knowing(catalog, share, known))
        },
        catalog.shares.contains_key(share@) ==> {
            let after = knowing(catalog, share, known);
            &&& after.shares[share@].known == known
            &&& after.shares[share@].members == catalog.shares[share@].members
            &&& after.shares[share@].invitations == catalog.shares[share@].invitations
            &&& after.shares[share@].config == catalog.shares[share@].config
            &&& after.shares[share@].ready == catalog.shares[share@].ready
            &&& after.shares.dom() =~= catalog.shares.dom()
            &&& forall|key: Seq<u8>|
                key != share@ && catalog.shares.contains_key(key) ==> #[trigger] after.shares[key]
                    == catalog.shares[key]
            &&& after.owner == catalog.owner
            &&& after.relationships == catalog.relationships
        },
{
}

/// A key is issued exactly if it is one that is taken, the clock is in order, and the catalog can
/// note it. A key that is refused is not noted anywhere.
pub proof fn law_issued_key_is_a_good_one(
    before: RegistryView,
    after: RegistryView,
    result: Result<(), ShareError>,
    ticket: SignedTicket,
    revoke: Option<InvitationId>,
    now: u64,
)
    requires
        issues_key(before, after, result, ticket, revoke, now),
    ensures
        result is Ok <==> ticket_fault(ticket, now) is None && clock_fault(before.clock, now) is None
            && issuing_fault(before.catalog, ticket, revoke, now) is None,
        result is Err ==> after.catalog == before.catalog,
        result is Ok ==> after.catalog.shares[ticket.body.share_id@].invitations.contains_key(
            ticket.body.invitation_id@,
        ),
        after.grants == before.grants,
        after.applies == before.applies,
        after.snapshots == before.snapshots,
        after.rosters == before.rosters,
        after.intents == before.intents,
{
}

/// A key that an owner issues says what it was asked to say, of the share and of its owner.
pub proof fn law_issued_key_says_what_was_asked(
    secret: Seq<u8>,
    share: ShareId,
    name: Seq<char>,
    permission: Permission,
    expires_at: Option<u64>,
    address: AddressView,
    issued_at: u64,
    id: InvitationId,
    bearer: [u8; 32],
)
    ensures
        ({
            let body = issued_body(
                secret,
                share,
                name,
                permission,
                expires_at,
                address,
                issued_at,
                id,
                bearer,
            );
            &&& body.version == 3
            &&& body.share_id == share
            &&& body.owner == public_id(secret)
            &&& body.name == name
            &&& body.permission == permission
            &&& body.invitation_id == id
            &&& body.bearer == bearer
            &&& body.issued_at == issued_at
            &&& body.expires_at == expires_at
            &&& body.address == address
        }),
{
}

/// A key that an owner hands out says what was asked, was taken at its issue, is signed by the owner,
/// and is noted in the share under its name, so that it is honoured. Nothing is noted of one that
/// is not handed out.
pub proof fn law_handed_out_key_is_noted(
    before: RegistryView,
    after: RegistryView,
    result: Result<ShareTicket, ShareError>,
    secret: Seq<u8>,
    body: TicketView,
    now: u64,
)
    requires
        hands_out(before, after, result, secret, body, now),
    ensures
        match result {
            Ok(ticket) => {
                let noted = after.catalog.shares[body.share_id@].invitations[body.invitation_id@];
                &&& ticket@.body == body
                &&& ticket@.signature == signed_by(secret, ticket_message(body))
                &&& ticket_fault(ticket@, body.issued_at) is None
                &&& before.catalog.shares.contains_key(body.share_id@)
                &&& after.catalog.shares[body.share_id@].invitations.contains_key(
                    body.invitation_id@,
                )
                &&& noted.permission == body.permission
                &&& noted.expires_at == body.expires_at
                &&& noted.revoked_at is None
                &&& honouring_fault(after.catalog.shares[body.share_id@], ticket@, now) is None
            },
            Err(_) => after.catalog == before.catalog,
        },
{
}

} // verus!
