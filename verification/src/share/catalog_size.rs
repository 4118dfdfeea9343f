//! How much room a catalog takes when it is written down, and how much it may take.
use vstd::prelude::*;

use crate::hash::push_bytes;
use crate::share::catalog::{
    Catalog, CatalogView, ConfigView, Invitation, Membership, OwnedShareConfig, RelationshipRow,
    RelationshipView, ShareEntry, ShareView,
};
use crate::share::codec::{
    optional_number, push_number, push_optional, push_sized, sized, varint,
};
use crate::share::identity::{address_bytes, permission_byte, permission_code, push_address};
use crate::table::{
    capped, lemma_rank_unique, lemma_table_size, lemma_total, lemma_view_of, lemma_weight, total,
    total_size, weight, Keyed, Measured,
};
use crate::text::utf8;

verus! {

/// The most bytes that a written catalog takes.
pub const MAX_CATALOG_BYTES: usize = 16_777_216;

/// The byte form of a membership.
pub open spec fn membership_bytes(member: Membership) -> Seq<u8> {
    member.share_id@ + member.owner@ + member.endpoint@ + seq![permission_code(member.permission)]
        + member.replica@ + varint(member.enrolled_at as nat) + optional_number(member.revoked_at)
        + varint(member.epoch as nat)
}

/// The byte form of an invitation.
pub open spec fn invitation_bytes(invitation: Invitation) -> Seq<u8> {
    invitation.id@ + invitation.share_id@ + seq![permission_code(invitation.permission)]
        + optional_number(invitation.expires_at) + optional_number(invitation.revoked_at)
        + invitation.digest@
}

/// The byte form of what is set up for a share.
pub open spec fn config_bytes(config: ConfigView) -> Seq<u8> {
    config.share_id@ + config.owner@ + sized(utf8(config.name)) + sized(utf8(config.root)) + sized(
        utf8(config.state_root),
    ) + config.replica@ + varint(config.min_free_space_bytes as nat)
}

/// The byte form of a membership elsewhere.
pub open spec fn relationship_bytes(relationship: RelationshipView) -> Seq<u8> {
    membership_bytes(relationship.membership) + address_bytes(relationship.address)
}

/// The size of a written map: the number of its entries, and those.
pub open spec fn map_size<V>(all: Map<Seq<u8>, V>, size: spec_fn(V) -> nat) -> nat {
    varint(all.dom().len()).len() + weight(all, size)
}

/// The size of an invitation behind its key.
pub open spec fn invitation_size() -> spec_fn(Invitation) -> nat {
    |invitation: Invitation| 32 + invitation_bytes(invitation).len()
}

/// The size of a membership behind its key.
pub open spec fn membership_size() -> spec_fn(Membership) -> nat {
    |member: Membership| 32 + membership_bytes(member).len()
}

/// The size of a membership elsewhere behind its key, the owner and the share.
pub open spec fn relationship_size() -> spec_fn(RelationshipView) -> nat {
    |relationship: RelationshipView| 64 + relationship_bytes(relationship).len()
}

/// The size of a share behind its key: whether it is ready, what is set up, its invitations, its
/// members and the replicas it knows.
pub open spec fn share_size() -> spec_fn(ShareView) -> nat {
    |entry: ShareView|
        33 + config_bytes(entry.config).len() + map_size(entry.invitations, invitation_size())
            + map_size(entry.members, membership_size()) + varint(entry.known.len()).len() + 32
            * entry.known.len()
}

/// The size of a catalog: its version, its owner, the shares and the memberships elsewhere.
pub open spec fn catalog_size(catalog: CatalogView) -> nat {
    33 + map_size(catalog.shares, share_size()) + map_size(
        catalog.relationships,
        relationship_size(),
    )
}

/// The catalog is within its size.
pub open spec fn catalog_fits(catalog: CatalogView) -> bool {
    catalog_size(catalog) <= MAX_CATALOG_BYTES
}

/// The number of bytes in the form of a number.
fn number_size(value: u64) -> (size: usize)
    ensures
        size == varint(value as nat).len(),
{
    let mut bytes: Vec<u8> = Vec::new();
    push_number(&mut bytes, value);
    assert(bytes@ =~= varint(value as nat));
    bytes.len()
}

fn push_membership(out: &mut Vec<u8>, member: &Membership)
    ensures
        final(out)@ == old(out)@ + membership_bytes(*member),
{
    push_bytes(out, member.share_id.0.as_slice());
    push_bytes(out, member.owner.bytes.as_slice());
    push_bytes(out, member.endpoint.bytes.as_slice());
    out.push(permission_byte(member.permission));
    push_bytes(out, member.replica.0.bytes.as_slice());
    push_number(out, member.enrolled_at);
    push_optional(out, member.revoked_at);
    push_number(out, member.epoch);
    assert(out@ =~= old(out)@ + membership_bytes(*member));
}

/// The number of bytes in the form of what is set up for a share.
fn config_size(config: &OwnedShareConfig) -> (size: usize)
    ensures
        size == config_bytes(config@).len(),
{
    let mut bytes: Vec<u8> = Vec::new();
    push_bytes(&mut bytes, config.share_id.0.as_slice());
    push_bytes(&mut bytes, config.owner.bytes.as_slice());
    push_sized(&mut bytes, config.name.as_str().as_bytes());
    push_sized(&mut bytes, config.root.as_str().as_bytes());
    push_sized(&mut bytes, config.state_root.as_str().as_bytes());
    push_bytes(&mut bytes, config.replica.0.bytes.as_slice());
    push_number(&mut bytes, config.min_free_space_bytes);
    assert(bytes@ =~= config_bytes(config@));
    bytes.len()
}

impl Measured for Membership {
    open spec fn measure(&self) -> nat {
        membership_size()(*self)
    }

    fn size_of(&self) -> (size: usize) {
        let mut bytes: Vec<u8> = Vec::new();
        push_membership(&mut bytes, self);
        assert(bytes@ =~= membership_bytes(*self));
        bytes.len().saturating_add(32)
    }
}

impl Measured for Invitation {
    open spec fn measure(&self) -> nat {
        invitation_size()(*self)
    }

    fn size_of(&self) -> (size: usize) {
        let mut bytes: Vec<u8> = Vec::new();
        push_bytes(&mut bytes, self.id.0.as_slice());
        push_bytes(&mut bytes, self.share_id.0.as_slice());
        bytes.push(permission_byte(self.permission));
        push_optional(&mut bytes, self.expires_at);
        push_optional(&mut bytes, self.revoked_at);
        push_bytes(&mut bytes, self.digest.bytes.as_slice());
        assert(bytes@ =~= invitation_bytes(*self));
        bytes.len().saturating_add(32)
    }
}

impl Measured for RelationshipRow {
    open spec fn measure(&self) -> nat {
        relationship_size()(self@)
    }

    fn size_of(&self) -> (size: usize) {
        let mut bytes: Vec<u8> = Vec::new();
        push_membership(&mut bytes, &self.relationship.membership);
        push_address(&mut bytes, &self.relationship.address);
        assert(bytes@ =~= relationship_bytes(self@));
        bytes.len().saturating_add(64)
    }
}

/// The size of a share, counted along its lists.
pub open spec fn listed_size(entry: ShareEntry) -> nat {
    33 + config_bytes(entry.config@).len() + varint(entry.invitations@.len()).len() + total(
        entry.invitations@,
    ) + varint(entry.members@.len()).len() + total(entry.members@) + varint(
        entry.known@.len(),
    ).len() + 32 * entry.known@.len()
}

impl Measured for ShareEntry {
    open spec fn measure(&self) -> nat {
        listed_size(*self)
    }

    fn size_of(&self) -> (size: usize) {
        let known = self.known.len();
        let replicas: usize = if known > usize::MAX / 32 {
            usize::MAX
        } else {
            32 * known
        };
        config_size(&self.config).saturating_add(33).saturating_add(
            number_size(self.invitations.len() as u64),
        ).saturating_add(total_size(&self.invitations)).saturating_add(
            number_size(self.members.len() as u64),
        ).saturating_add(total_size(&self.members)).saturating_add(
            number_size(known as u64),
        ).saturating_add(replicas)
    }
}

/// In order, a share takes what its lists take.
proof fn lemma_listed(entry: ShareEntry)
    requires
        entry.wf(),
    ensures
        listed_size(entry) == share_size()(entry@),
{
    lemma_table_size(entry.invitations@);
    lemma_table_size(entry.members@);
    lemma_table_size(entry.known@);
    assert forall|i: int| 0 <= i < entry.invitations@.len() implies invitation_size()(
        entry@.invitations[#[trigger] entry.invitations@[i].key()],
    ) == entry.invitations@[i].measure() by {
        lemma_rank_unique(entry.invitations@, i);
    }
    lemma_total(entry.invitations@, entry@.invitations, invitation_size());
    assert forall|i: int| 0 <= i < entry.members@.len() implies membership_size()(
        entry@.members[#[trigger] entry.members@[i].key()],
    ) == entry.members@[i].measure() by {
        lemma_rank_unique(entry.members@, i);
    }
    lemma_total(entry.members@, entry@.members, membership_size());
}

impl Catalog {
    /// The number of bytes that the catalog takes when it is written down, or the largest number
    /// where that does not fit.
    pub fn size(&self) -> (size: usize)
        requires
            self.ordered(),
        ensures
            size == capped(catalog_size(self@)),
    {
        proof {
            lemma_view_of(self.shares@);
            lemma_view_of(self.relationships@);
            assert forall|i: int| 0 <= i < self.shares@.len() implies share_size()(
                self@.shares[#[trigger] self.shares@[i].key()],
            ) == self.shares@[i].measure() by {
                lemma_listed(self.shares@[i]);
            }
            lemma_total(self.shares@, self@.shares, share_size());
            lemma_total(self.relationships@, self@.relationships, relationship_size());
        }
        number_size(self.shares.len() as u64).saturating_add(33).saturating_add(
            total_size(&self.shares),
        ).saturating_add(number_size(self.relationships.len() as u64)).saturating_add(
            total_size(&self.relationships),
        )
    }

    /// Whether the catalog is within its size.
    pub fn fits(&self) -> (fits: bool)
        requires
            self.ordered(),
        ensures
            fits == catalog_fits(self@),
    {
        self.size() <= MAX_CATALOG_BYTES
    }
}

/// A smaller number takes no more bytes.
proof fn lemma_varint_grows(a: nat, b: nat)
    requires
        a <= b,
    ensures
        varint(a).len() <= varint(b).len(),
    decreases b,
{
    if b >= 128 && a >= 128 {
        lemma_varint_grows(a / 128, b / 128);
    } else if b >= 128 {
        assert(varint(b).len() == 1 + varint(b / 128).len());
    }
}

/// A map takes no more when an entry is taken out.
proof fn lemma_map_taken<V>(all: Map<Seq<u8>, V>, size: spec_fn(V) -> nat, key: Seq<u8>)
    requires
        all.dom().finite(),
    ensures
        map_size(all.remove(key), size) <= map_size(all, size),
{
    if all.contains_key(key) {
        lemma_weight(all, size, key);
        lemma_varint_grows(all.remove(key).dom().len(), all.dom().len());
    } else {
        assert(all.remove(key) =~= all);
    }
}

/// A catalog stays within its size when a share or a membership elsewhere is taken out.
pub proof fn lemma_fits_without(catalog: CatalogView, share: Seq<u8>, pair: Seq<u8>)
    requires
        catalog_fits(catalog),
        catalog.shares.dom().finite(),
        catalog.relationships.dom().finite(),
    ensures
        catalog_fits(CatalogView { shares: catalog.shares.remove(share), ..catalog }),
        catalog_fits(CatalogView { relationships: catalog.relationships.remove(pair), ..catalog }),
{
    lemma_map_taken(catalog.shares, share_size(), share);
    lemma_map_taken(catalog.relationships, relationship_size(), pair);
}

/// A catalog keeps its size when a share is changed for another of the same size.
pub proof fn lemma_same_size(catalog: CatalogView, share: Seq<u8>, entry: ShareView)
    requires
        catalog.shares.dom().finite(),
        catalog.shares.contains_key(share),
        share_size()(entry) == share_size()(catalog.shares[share]),
    ensures
        catalog_size(CatalogView { shares: catalog.shares.insert(share, entry), ..catalog })
            == catalog_size(catalog),
{
    let after = catalog.shares.insert(share, entry);
    lemma_weight(catalog.shares, share_size(), share);
    lemma_weight(after, share_size(), share);
    assert(after.remove(share) =~= catalog.shares.remove(share));
    assert(after.dom() =~= catalog.shares.dom());
}

/// The catalog of a device that owns nothing yet is within its size.
pub proof fn lemma_empty_fits(catalog: CatalogView)
    requires
        catalog.shares == Map::<Seq<u8>, ShareView>::empty(),
        catalog.relationships == Map::<Seq<u8>, RelationshipView>::empty(),
    ensures
        catalog_fits(catalog),
{
}

} // verus!
