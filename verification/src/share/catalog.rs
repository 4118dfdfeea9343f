//! The shares that a device owns, who may use them, and the shares that it is a member of.
use vstd::prelude::*;

use crate::hash::{
    blake3_digest, hash_with, le_bytes, lemma_hash_with, push_bytes, push_le, Hash32, ReplicaId,
};
use crate::reconcile::{conflict_resolver_replica, resolver_id};
use crate::share::catalog_size::{
    catalog_fits, lemma_empty_fits, lemma_fits_without, lemma_same_size,
};
use crate::share::error::ShareError;
use crate::share::identity::{
    constant_time_same, random_bytes, AddressView, EndpointAddr, EndpointId, InvitationId,
    Permission, ShareId,
};
use crate::share::ticket::{
    proof_holds, ticket_fault, ticket_message, LegacyProof, ShareTicket, SignedTicket,
};
use crate::table::{
    ascending, find, holds, in_order, lemma_rank_unique, lemma_table_empty, lemma_table_size,
    lemma_update, lemma_view_empty, lemma_view_of, lemma_view_put, lemma_view_take, locate, put,
    table, take, view_table, Keyed,
};
use crate::text::same_text;

verus! {

/// The version of the catalog that this library reads and writes.
pub const CATALOG_VERSION: u8 = 3;

/// The most shares of one owner.
pub const MAX_SHARES: usize = 256;

/// The most members of a share.
pub const MAX_MEMBERS: usize = 4096;

/// The most invitations of a share.
pub const MAX_INVITATIONS: usize = 4096;

/// The most replicas known to a share.
pub const MAX_REPLICAS: usize = 4096;

/// What the owner has set up for a share.
#[derive(Debug, PartialEq, Eq)]
pub struct OwnedShareConfig {
    pub share_id: ShareId,
    pub owner: EndpointId,
    pub name: String,
    pub root: String,
    pub state_root: String,
    pub replica: ReplicaId,
    pub min_free_space_bytes: u64,
}

/// What a configuration says.
#[verifier::ext_equal]
pub struct ConfigView {
    pub share_id: ShareId,
    pub owner: EndpointId,
    pub name: Seq<char>,
    pub root: Seq<char>,
    pub state_root: Seq<char>,
    pub replica: ReplicaId,
    pub min_free_space_bytes: u64,
}

impl View for OwnedShareConfig {
    type V = ConfigView;

    open spec fn view(&self) -> ConfigView {
        ConfigView {
            share_id: self.share_id,
            owner: self.owner,
            name: self.name@,
            root: self.root@,
            state_root: self.state_root@,
            replica: self.replica,
            min_free_space_bytes: self.min_free_space_bytes,
        }
    }
}

impl Clone for OwnedShareConfig {
    fn clone(&self) -> (copy: Self)
        ensures
            copy@ == self@,
    {
        OwnedShareConfig {
            share_id: self.share_id,
            owner: self.owner,
            name: self.name.clone(),
            root: self.root.clone(),
            state_root: self.state_root.clone(),
            replica: self.replica,
            min_free_space_bytes: self.min_free_space_bytes,
        }
    }
}

/// A member of a share.
#[derive(Clone, Copy, Debug, PartialEq, Eq)]
pub struct Membership {
    pub share_id: ShareId,
    pub owner: EndpointId,
    pub endpoint: EndpointId,
    pub permission: Permission,
    pub replica: ReplicaId,
    pub enrolled_at: u64,
    pub revoked_at: Option<u64>,
    pub epoch: u64,
}

impl Keyed for Membership {
    open spec fn key(&self) -> Seq<u8> {
        self.endpoint@
    }

    fn key_bytes(&self) -> (bytes: &[u8]) {
        self.endpoint.bytes.as_slice()
    }
}

/// An invitation to a share, as the owner has issued it.
#[derive(Clone, Copy, Debug, PartialEq, Eq)]
pub struct Invitation {
    pub id: InvitationId,
    pub share_id: ShareId,
    pub permission: Permission,
    pub expires_at: Option<u64>,
    pub revoked_at: Option<u64>,
    /// The digest of the whole signed issuance, its random bearer among it.
    pub digest: Hash32,
}

impl Keyed for Invitation {
    open spec fn key(&self) -> Seq<u8> {
        self.id@
    }

    fn key_bytes(&self) -> (bytes: &[u8]) {
        self.id.0.as_slice()
    }
}

/// A membership of this device in another owner's share.
#[derive(Debug, PartialEq, Eq)]
pub struct MemberRelationship {
    pub membership: Membership,
    pub address: EndpointAddr,
}

/// What a relationship says.
#[verifier::ext_equal]
pub struct RelationshipView {
    pub membership: Membership,
    pub address: AddressView,
}

impl View for MemberRelationship {
    type V = RelationshipView;

    open spec fn view(&self) -> RelationshipView {
        RelationshipView { membership: self.membership, address: self.address@ }
    }
}

impl Clone for MemberRelationship {
    fn clone(&self) -> (copy: Self)
        ensures
            copy@ == self@,
    {
        MemberRelationship { membership: self.membership, address: self.address.clone() }
    }
}

/// The key of a relationship: the remote owner, then the share.
pub open spec fn pair_key(owner: EndpointId, share: ShareId) -> Seq<u8> {
    owner@ + share@
}

/// The key of a relationship.
pub fn pair_bytes(owner: &EndpointId, share: &ShareId) -> (key: Vec<u8>)
    ensures
        key@ == pair_key(*owner, *share),
{
    let mut key: Vec<u8> = Vec::new();
    push_bytes(&mut key, owner.bytes.as_slice());
    push_bytes(&mut key, share.0.as_slice());
    assert(key@ =~= pair_key(*owner, *share));
    key
}

/// A relationship under its key.
#[derive(Debug, PartialEq, Eq)]
pub struct RelationshipRow {
    pub key: Vec<u8>,
    pub relationship: MemberRelationship,
}

impl Keyed for RelationshipRow {
    open spec fn key(&self) -> Seq<u8> {
        self.key@
    }

    fn key_bytes(&self) -> (bytes: &[u8]) {
        self.key.as_slice()
    }
}

impl View for RelationshipRow {
    type V = RelationshipView;

    open spec fn view(&self) -> RelationshipView {
        self.relationship@
    }
}

impl RelationshipRow {
    /// The row stands under the key of its relationship.
    pub open spec fn wf(&self) -> bool {
        self.key@ == pair_key(
            self.relationship.membership.owner,
            self.relationship.membership.share_id,
        )
    }
}

/// A share with its invitations, its members and the replicas it knows.
#[derive(Debug, PartialEq, Eq)]
pub struct ShareEntry {
    pub ready: bool,
    pub config: OwnedShareConfig,
    pub invitations: Vec<Invitation>,
    pub members: Vec<Membership>,
    pub known: Vec<ReplicaId>,
}

/// What a share entry says.
#[verifier::ext_equal]
pub struct ShareView {
    pub ready: bool,
    pub config: ConfigView,
    pub invitations: Map<Seq<u8>, Invitation>,
    pub members: Map<Seq<u8>, Membership>,
    pub known: Set<Seq<u8>>,
}

impl View for ShareEntry {
    type V = ShareView;

    open spec fn view(&self) -> ShareView {
        ShareView {
            ready: self.ready,
            config: self.config@,
            invitations: table(self.invitations@),
            members: table(self.members@),
            known: table(self.known@).dom(),
        }
    }
}

impl Keyed for ShareEntry {
    open spec fn key(&self) -> Seq<u8> {
        self.config.share_id@
    }

    fn key_bytes(&self) -> (bytes: &[u8]) {
        self.config.share_id.0.as_slice()
    }
}

/// Items said again.
fn copy_items<T: Copy>(items: &Vec<T>) -> (copy: Vec<T>)
    ensures
        copy@ == items@,
{
    let mut copy: Vec<T> = Vec::new();
    let mut i: usize = 0;
    while i < items.len()
        invariant
            i <= items@.len(),
            copy@ == items@.take(i as int),
        decreases items@.len() - i,
    {
        copy.push(items[i]);
        i = i + 1;
        assert(copy@ =~= items@.take(i as int));
    }
    assert(copy@ =~= items@);
    copy
}

impl Clone for ShareEntry {
    fn clone(&self) -> (copy: Self)
        ensures
            copy@ == self@,
            copy.wf() == self.wf(),
            copy.invitations@ == self.invitations@,
            copy.members@ == self.members@,
            copy.known@ == self.known@,
    {
        ShareEntry {
            ready: self.ready,
            config: self.config.clone(),
            invitations: copy_items(&self.invitations),
            members: copy_items(&self.members),
            known: copy_items(&self.known),
        }
    }
}

impl ShareEntry {
    /// The tables are in order.
    pub open spec fn wf(&self) -> bool {
        &&& ascending(self.invitations@)
        &&& ascending(self.members@)
        &&& ascending(self.known@)
    }
}

/// The shares of a device and its memberships elsewhere.
#[derive(Debug, PartialEq, Eq)]
pub struct Catalog {
    pub version: u8,
    pub owner: EndpointId,
    pub shares: Vec<ShareEntry>,
    pub relationships: Vec<RelationshipRow>,
}

/// What a catalog says.
#[verifier::ext_equal]
pub struct CatalogView {
    pub version: u8,
    pub owner: EndpointId,
    pub shares: Map<Seq<u8>, ShareView>,
    pub relationships: Map<Seq<u8>, RelationshipView>,
}

impl View for Catalog {
    type V = CatalogView;

    open spec fn view(&self) -> CatalogView {
        CatalogView {
            version: self.version,
            owner: self.owner,
            shares: view_table(self.shares@),
            relationships: view_table(self.relationships@),
        }
    }
}

impl Catalog {
    /// The tables are in order, all the way down, and the catalog is within its size.
    pub open spec fn wf(&self) -> bool {
        self.ordered() && catalog_fits(self@)
    }

    /// The tables are in order, all the way down.
    pub open spec fn ordered(&self) -> bool {
        &&& ascending(self.shares@)
        &&& forall|i: int| 0 <= i < self.shares@.len() ==> (#[trigger] self.shares@[i]).wf()
        &&& ascending(self.relationships@)
        &&& forall|i: int|
            0 <= i < self.relationships@.len() ==> (#[trigger] self.relationships@[i]).wf()
    }
}

/// The replicas of a list.
pub open spec fn replica_set(replicas: Seq<ReplicaId>) -> Set<Seq<u8>> {
    Set::new(
        |key: Seq<u8>| exists|i: int| 0 <= i < replicas.len() && #[trigger] replicas[i]@ == key,
    )
}

/// Adds replicas to a table of replicas.
fn add_replicas(known: &mut Vec<ReplicaId>, more: &Vec<ReplicaId>)
    requires
        ascending(old(known)@),
    ensures
        ascending(final(known)@),
        table(final(known)@).dom() == table(old(known)@).dom().union(replica_set(more@)),
{
    let ghost before = table(known@).dom();
    let mut i: usize = 0;
    assert(table(known@).dom() =~= before.union(replica_set(more@.take(0))));
    while i < more.len()
        invariant
            i <= more@.len(),
            ascending(known@),
            table(known@).dom() == before.union(replica_set(more@.take(i as int))),
        decreases more@.len() - i,
    {
        put(known, more[i]);
        i = i + 1;
        proof {
            let part = more@.take(i as int);
            let less = more@.take(i - 1);
            assert forall|k: Seq<u8>| #[trigger] replica_set(part).contains(k) == (replica_set(
                less,
            ).contains(k) || k == more@[i - 1]@) by {
                if replica_set(part).contains(k) {
                    let j = choose|j: int| 0 <= j < part.len() && #[trigger] part[j]@ == k;
                    if j < i - 1 {
                        assert(less[j]@ == k);
                    }
                }
                if replica_set(less).contains(k) {
                    let j = choose|j: int| 0 <= j < less.len() && #[trigger] less[j]@ == k;
                    assert(part[j]@ == k);
                }
                if k == more@[i - 1]@ {
                    assert(part[i - 1]@ == k);
                }
            }
            assert(table(known@).dom() =~= before.union(replica_set(part)));
        }
    }
    assert(more@.take(i as int) =~= more@);
}

/// Why a share is not added to a catalog.
pub open spec fn inserting_fault(
    catalog: CatalogView,
    config: ConfigView,
    known: Seq<ReplicaId>,
) -> Option<ShareError> {
    if config.owner != catalog.owner || config.replica@ == resolver_id() {
        Some(ShareError::ReplicaClaimRejected)
    } else if catalog.shares.dom().len() >= MAX_SHARES || catalog.shares.contains_key(
        config.share_id@,
    ) {
        Some(ShareError::Busy)
    } else if !catalog_fits(with_share(catalog, config.share_id, fresh_share(config, known))) {
        Some(ShareError::StateUnavailable)
    } else {
        None
    }
}

/// A share that was just added.
pub open spec fn fresh_share(config: ConfigView, known: Seq<ReplicaId>) -> ShareView {
    ShareView {
        ready: false,
        config,
        invitations: Map::empty(),
        members: Map::empty(),
        known: replica_set(known).insert(config.replica@).insert(resolver_id()),
    }
}

/// The share knows the replica of its owner, that of the resolver and those of its members.
pub open spec fn knows_its_own(entry: ShareView) -> bool {
    &&& entry.known.contains(entry.config.replica@)
    &&& entry.known.contains(resolver_id())
    &&& forall|key: Seq<u8>|
        entry.members.contains_key(key) ==> entry.known.contains(
            (#[trigger] entry.members[key]).replica@,
        )
}

/// Every share knows the replicas that count in it. No change of a catalog ends that.
pub open spec fn replicas_known(catalog: CatalogView) -> bool {
    forall|key: Seq<u8>|
        catalog.shares.contains_key(key) ==> knows_its_own(#[trigger] catalog.shares[key])
}

/// The catalog with one share changed.
pub open spec fn with_share(catalog: CatalogView, share: ShareId, entry: ShareView) -> CatalogView {
    CatalogView { shares: catalog.shares.insert(share@, entry), ..catalog }
}

/// The catalog with other replicas known to a share.
pub open spec fn knowing(catalog: CatalogView, share: ShareId, known: Set<Seq<u8>>) -> CatalogView {
    with_share(catalog, share, ShareView { known, ..catalog.shares[share@] })
}

/// Why a share does not come to know replicas.
pub open spec fn remembering_fault(
    catalog: CatalogView,
    share: ShareId,
    known: Set<Seq<u8>>,
) -> Option<ShareError> {
    if !catalog.shares.contains_key(share@) {
        Some(ShareError::UnknownShare)
    } else if known.len() > MAX_REPLICAS {
        Some(ShareError::InvalidRecord)
    } else if !catalog_fits(knowing(catalog, share, known)) {
        Some(ShareError::StateUnavailable)
    } else {
        None
    }
}

impl Catalog {
    /// Puts another entry in the place of one of the same share, unless the catalog would not be
    /// within its size.
    fn replace_share(&mut self, i: usize, entry: ShareEntry) -> (result: Result<(), ShareError>)
        requires
            old(self).wf(),
            i < old(self).shares@.len(),
            entry.key() == old(self).shares@[i as int].key(),
            entry.wf(),
        ensures
            final(self).wf(),
            replicas_known(old(self)@) && knows_its_own(entry@) ==> replicas_known(final(self)@),
            ({
                let after = with_share(old(self)@, entry.config.share_id, entry@);
                match result {
                    Ok(()) => catalog_fits(after) && final(self)@ == after,
                    Err(error) => error == ShareError::StateUnavailable && !catalog_fits(after)
                        && final(self)@ == old(self)@,
                }
            }),
    {
        let ghost before = self.shares@;
        let mut other = entry;
        std::mem::swap(&mut self.shares[i], &mut other);
        proof {
            assert(self.shares@ =~= before.update(i as int, entry));
            lemma_entry_changed(before, i as int, entry, self.shares@);
        }
        if !self.fits() {
            std::mem::swap(&mut self.shares[i], &mut other);
            assert(self.shares@ =~= before);
            return Err(ShareError::StateUnavailable);
        }
        Ok(())
    }

    /// The catalog of a device that owns nothing yet.
    pub fn new(owner: EndpointId) -> (catalog: Self)
        ensures
            catalog.wf(),
            replicas_known(catalog@),
            catalog@ == (CatalogView {
                version: CATALOG_VERSION,
                owner,
                shares: Map::empty(),
                relationships: Map::empty(),
            }),
    {
        let catalog = Catalog {
            version: CATALOG_VERSION,
            owner,
            shares: Vec::new(),
            relationships: Vec::new(),
        };
        proof {
            lemma_view_empty::<ShareEntry>();
            lemma_view_empty::<RelationshipRow>();
            lemma_empty_fits(catalog@);
        }
        catalog
    }

    /// Whether the tables are in order, all the way down.
    pub fn is_ordered(&self) -> (holds: bool)
        ensures
            holds == self.ordered(),
    {
        if !in_order(&self.shares) || !in_order(&self.relationships) {
            return false;
        }
        let mut i: usize = 0;
        while i < self.shares.len()
            invariant
                i <= self.shares@.len(),
                forall|k: int| 0 <= k < i ==> (#[trigger] self.shares@[k]).wf(),
            decreases self.shares@.len() - i,
        {
            let entry = &self.shares[i];
            if !in_order(&entry.invitations) || !in_order(&entry.members) || !in_order(
                &entry.known,
            ) {
                assert(!self.shares@[i as int].wf());
                return false;
            }
            i = i + 1;
        }
        let mut j: usize = 0;
        while j < self.relationships.len()
            invariant
                j <= self.relationships@.len(),
                forall|k: int| 0 <= k < j ==> (#[trigger] self.relationships@[k]).wf(),
            decreases self.relationships@.len() - j,
        {
            let row = &self.relationships[j];
            let key = pair_bytes(
                &row.relationship.membership.owner,
                &row.relationship.membership.share_id,
            );
            if !crate::order::same_bytes(row.key.as_slice(), key.as_slice()) {
                assert(!self.relationships@[j as int].wf());
                return false;
            }
            j = j + 1;
        }
        true
    }

    /// Where a share stands.
    fn index_of(&self, share: &ShareId) -> (index: Option<usize>)
        requires
            self.ordered(),
        ensures
            match index {
                Some(i) => i < self.shares@.len() && self.shares@[i as int].key() == share@
                    && self@.shares.contains_key(share@) && self@.shares[share@]
                    == self.shares@[i as int]@ && self.shares@[i as int].wf(),
                None => !self@.shares.contains_key(share@),
            },
    {
        let place = locate(&self.shares, share.0.as_slice());
        proof {
            lemma_view_of(self.shares@);
        }
        if place.found {
            Some(place.at)
        } else {
            None
        }
    }

    /// Adds a share.
    pub fn insert_share(&mut self, config: OwnedShareConfig, known: Vec<ReplicaId>) -> (result:
        Result<(), ShareError>)
        requires
            old(self).wf(),
        ensures
            final(self).wf(),
            replicas_known(old(self)@) ==> replicas_known(final(self)@),
            match result {
                Ok(()) => inserting_fault(old(self)@, config@, known@) is None
                    && final(self)@ == with_share(
                    old(self)@,
                    config.share_id,
                    fresh_share(config@, known@),
                ),
                Err(error) => inserting_fault(old(self)@, config@, known@) == Some(error)
                    && final(self)@ == old(self)@,
            },
    {
        let resolver = conflict_resolver_replica();
        proof {
            lemma_view_of(self.shares@);
            if config.replica@ == resolver@ {
                crate::hash::lemma_hash_view_injective(config.replica.0, resolver.0);
            }
        }
        if config.owner != self.owner || config.replica == resolver {
            return Err(ShareError::ReplicaClaimRejected);
        }
        if self.shares.len() >= MAX_SHARES || holds(&self.shares, config.share_id.0.as_slice()) {
            return Err(ShareError::Busy);
        }
        let mut all: Vec<ReplicaId> = Vec::new();
        proof {
            lemma_table_empty::<ReplicaId>();
            lemma_table_empty::<Invitation>();
            lemma_table_empty::<Membership>();
        }
        add_replicas(&mut all, &known);
        put(&mut all, config.replica);
        put(&mut all, resolver);
        let ghost before = self.shares@;
        let share = config.share_id;
        let entry = ShareEntry {
            ready: false,
            config,
            invitations: Vec::new(),
            members: Vec::new(),
            known: all,
        };
        let ghost item = entry;
        put(&mut self.shares, entry);
        proof {
            assert(item@.known =~= fresh_share(config@, known@).known);
            assert(item@ =~= fresh_share(config@, known@));
            lemma_view_put(before, item, self.shares@);
            lemma_put_keeps_wf(before, item, self.shares@);
        }
        if !self.fits() {
            take(&mut self.shares, share.0.as_slice());
            proof {
                assert(table(self.shares@) =~= table(before));
                crate::table::lemma_table_canonical(self.shares@, before);
            }
            return Err(ShareError::StateUnavailable);
        }
        Ok(())
    }

    /// Whether a share is ready.
    pub fn is_ready(&self, share: ShareId) -> (ready: Result<bool, ShareError>)
        requires
            self.wf(),
        ensures
            ready == (if self@.shares.contains_key(share@) {
                Ok::<bool, ShareError>(self@.shares[share@].ready)
            } else {
                Err(ShareError::UnknownShare)
            }),
    {
        match self.index_of(&share) {
            Some(i) => Ok(self.shares[i].ready),
            None => Err(ShareError::UnknownShare),
        }
    }

    /// Marks a share as ready.
    pub fn mark_ready(&mut self, share: ShareId) -> (result: Result<(), ShareError>)
        requires
            old(self).wf(),
        ensures
            final(self).wf(),
            replicas_known(old(self)@) ==> replicas_known(final(self)@),
            match result {
                Ok(()) => old(self)@.shares.contains_key(share@) && final(self)@ == with_share(
                    old(self)@,
                    share,
                    (ShareView { ready: true, ..old(self)@.shares[share@] }),
                ),
                Err(error) => error == ShareError::UnknownShare
                    && !old(self)@.shares.contains_key(share@) && final(self)@ == old(self)@,
            },
    {
        let i = match self.index_of(&share) {
            Some(i) => i,
            None => {
                return Err(ShareError::UnknownShare);
            },
        };
        let ghost before = self.shares@;
        let entry = &mut self.shares[i];
        entry.ready = true;
        proof {
            lemma_entry_changed(before, i as int, self.shares@[i as int], self.shares@);
            lemma_view_of(before);
            lemma_table_size(before);
            lemma_same_size(old(self)@, share@, self.shares@[i as int]@);
        }
        Ok(())
    }

    /// What is set up for every share, in the order of their identities.
    pub fn configs(&self) -> (configs: Vec<OwnedShareConfig>)
        ensures
            configs@.len() == self.shares@.len(),
            forall|i: int|
                0 <= i < configs@.len() ==> (#[trigger] configs@[i])@ == self.shares@[i].config@,
    {
        let mut configs: Vec<OwnedShareConfig> = Vec::new();
        let mut i: usize = 0;
        while i < self.shares.len()
            invariant
                i <= self.shares@.len(),
                configs@.len() == i,
                forall|k: int| 0 <= k < i ==> (#[trigger] configs@[k])@ == self.shares@[k].config@,
            decreases self.shares@.len() - i,
        {
            configs.push(self.shares[i].config.clone());
            i = i + 1;
        }
        configs
    }

    /// What is set up for a share.
    pub fn config(&self, share: ShareId) -> (config: Result<OwnedShareConfig, ShareError>)
        requires
            self.wf(),
        ensures
            match config {
                Ok(config) => self@.shares.contains_key(share@) && config@
                    == self@.shares[share@].config,
                Err(error) => error == ShareError::UnknownShare && !self@.shares.contains_key(
                    share@,
                ),
            },
    {
        match self.index_of(&share) {
            Some(i) => Ok(self.shares[i].config.clone()),
            None => Err(ShareError::UnknownShare),
        }
    }

    /// Adds replicas to those that a share knows.
    pub fn remember_replicas(&mut self, share: ShareId, known: Vec<ReplicaId>) -> (result: Result<
        (),
        ShareError,
    >)
        requires
            old(self).wf(),
        ensures
            final(self).wf(),
            replicas_known(old(self)@) ==> replicas_known(final(self)@),
            ({
                let all = old(self)@.shares[share@].known.union(replica_set(known@));
                match result {
                    Ok(()) => remembering_fault(old(self)@, share, all) is None && final(self)@
                        == knowing(old(self)@, share, all),
                    Err(error) => remembering_fault(old(self)@, share, all) == Some(error)
                        && final(self)@ == old(self)@,
                }
            }),
    {
        let i = match self.index_of(&share) {
            Some(i) => i,
            None => {
                return Err(ShareError::UnknownShare);
            },
        };
        let mut all = copy_items(&self.shares[i].known);
        add_replicas(&mut all, &known);
        proof {
            lemma_table_size(all@);
        }
        if all.len() > MAX_REPLICAS {
            return Err(ShareError::InvalidRecord);
        }
        let mut entry = self.shares[i].clone();
        entry.known = all;
        self.replace_share(i, entry)
    }

    /// The replicas that a share knows, in order.
    pub fn known(&self, share: ShareId) -> (known: Result<Vec<ReplicaId>, ShareError>)
        requires
            self.wf(),
        ensures
            match known {
                Ok(known) => self@.shares.contains_key(share@) && ascending(known@) && table(
                    known@,
                ).dom() == self@.shares[share@].known,
                Err(error) => error == ShareError::UnknownShare && !self@.shares.contains_key(
                    share@,
                ),
            },
    {
        match self.index_of(&share) {
            Some(i) => Ok(copy_items(&self.shares[i].known)),
            None => Err(ShareError::UnknownShare),
        }
    }
}

/// Changing one entry, but for its identity, changes the catalog in that share alone.
proof fn lemma_entry_changed(before: Seq<ShareEntry>, at: int, item: ShareEntry, after: Seq<
    ShareEntry,
>)
    requires
        ascending(before),
        forall|i: int| 0 <= i < before.len() ==> (#[trigger] before[i]).wf(),
        0 <= at < before.len(),
        at <= usize::MAX,
        item.key() == before[at].key(),
        item.wf(),
        after == before.update(at, item),
    ensures
        ascending(after),
        forall|i: int| 0 <= i < after.len() ==> (#[trigger] after[i]).wf(),
        view_table(after) == view_table(before).insert(item.key(), item@),
{
    lemma_update(before, at, item);
    lemma_view_put(before, item, after);
}

/// Putting an entry in keeps every entry in order.
proof fn lemma_put_keeps_wf(before: Seq<ShareEntry>, item: ShareEntry, after: Seq<ShareEntry>)
    requires
        ascending(after),
        forall|i: int| 0 <= i < before.len() ==> (#[trigger] before[i]).wf(),
        item.wf(),
        table(after) == table(before).insert(item.key(), item),
    ensures
        forall|i: int| 0 <= i < after.len() ==> (#[trigger] after[i]).wf(),
{
    assert forall|i: int| 0 <= i < after.len() implies (#[trigger] after[i]).wf() by {
        lemma_rank_unique(after, i);
        let key = after[i].key();
        if key != item.key() {
            assert(table(before).contains_key(key));
            let r = crate::table::rank_of(before, key);
            assert(before[r].wf());
        }
    }
}

/// Why a share key is not the one that a share has issued, or not honoured any more.
pub open spec fn honouring_fault(entry: ShareView, ticket: SignedTicket, now: u64) -> Option<
    ShareError,
> {
    let body = ticket.body;
    if ticket_fault(ticket, now) is Some {
        ticket_fault(ticket, now)
    } else if !entry.invitations.contains_key(body.invitation_id@) {
        Some(ShareError::InvalidTicket)
    } else {
        let issued = entry.invitations[body.invitation_id@];
        if issued.revoked_at is Some {
            Some(ShareError::InvitationRevoked)
        } else if issued.digest@ != blake3_digest(ticket_message(body)) || issued.share_id
            != body.share_id || issued.permission != body.permission || issued.expires_at
            != body.expires_at || entry.config.owner != body.owner {
            Some(ShareError::InvalidTicket)
        } else {
            None
        }
    }
}

impl ShareEntry {
    /// Checks that a share key is one that the share has issued and still honours.
    pub fn validate_ticket(&self, ticket: &ShareTicket, now: u64) -> (result: Result<
        (),
        ShareError,
    >)
        requires
            self.wf(),
        ensures
            match result {
                Ok(()) => honouring_fault(self@, ticket@, now) is None,
                Err(error) => honouring_fault(self@, ticket@, now) == Some(error),
            },
    {
        match ticket.verify_at(now) {
            Ok(()) => {},
            Err(error) => {
                return Err(error);
            },
        }
        let issued = match find(&self.invitations, ticket.body.invitation_id.0.as_slice()) {
            Some(issued) => issued,
            None => {
                return Err(ShareError::InvalidTicket);
            },
        };
        if issued.revoked_at.is_some() {
            return Err(ShareError::InvitationRevoked);
        }
        let digest = ticket.issuance_digest();
        if !constant_time_same(&issued.digest.bytes, &digest.bytes) || issued.share_id
            != ticket.body.share_id || issued.permission != ticket.body.permission
            || issued.expires_at != ticket.body.expires_at || self.config.owner
            != ticket.body.owner {
            return Err(ShareError::InvalidTicket);
        }
        Ok(())
    }
}

/// The invitation that a share key stands for.
pub open spec fn invitation_of(ticket: SignedTicket) -> Invitation {
    Invitation {
        id: ticket.body.invitation_id,
        share_id: ticket.body.share_id,
        permission: ticket.body.permission,
        expires_at: ticket.body.expires_at,
        revoked_at: None,
        digest: hash_with(blake3_digest(ticket_message(ticket.body))),
    }
}

/// An invitation that is revoked at a time, unless it was before.
pub open spec fn revoked_invitation(invitation: Invitation, now: u64) -> Invitation {
    if invitation.revoked_at is Some {
        invitation
    } else {
        Invitation { revoked_at: Some(now), ..invitation }
    }
}

/// Why a share key is not issued, and an older one not revoked with it.
pub open spec fn issuing_fault(
    catalog: CatalogView,
    ticket: SignedTicket,
    revoke: Option<InvitationId>,
    now: u64,
) -> Option<ShareError> {
    let body = ticket.body;
    if !catalog.shares.contains_key(body.share_id@) {
        Some(ShareError::UnknownShare)
    } else {
        let entry = catalog.shares[body.share_id@];
        let again = entry.invitations.contains_key(body.invitation_id@);
        if entry.config.owner != body.owner || entry.config.name != body.name {
            Some(ShareError::InvalidTicket)
        } else if again && entry.invitations[body.invitation_id@] != (Invitation {
            id: entry.invitations[body.invitation_id@].id,
            ..invitation_of(ticket)
        }) {
            Some(ShareError::InvalidTicket)
        } else if revoke is Some && (revoke->0 == body.invitation_id
            || !entry.invitations.contains_key(revoke->0@)) {
            Some(ShareError::InvalidTicket)
        } else if !again && entry.invitations.dom().len() >= MAX_INVITATIONS {
            Some(ShareError::Busy)
        } else if !catalog_fits(issued_catalog(catalog, ticket, revoke, now)) {
            Some(ShareError::StateUnavailable)
        } else {
            None
        }
    }
}

/// The invitations of a share once a key is issued and an older one revoked with it.
pub open spec fn issued_invitations(
    invitations: Map<Seq<u8>, Invitation>,
    ticket: SignedTicket,
    revoke: Option<InvitationId>,
    now: u64,
) -> Map<Seq<u8>, Invitation> {
    let left = match revoke {
        Some(id) => invitations.insert(id@, revoked_invitation(invitations[id@], now)),
        None => invitations,
    };
    if invitations.contains_key(ticket.body.invitation_id@) {
        left
    } else {
        left.insert(ticket.body.invitation_id@, invitation_of(ticket))
    }
}

/// The catalog once a key is issued and an older one revoked with it.
pub open spec fn issued_catalog(
    catalog: CatalogView,
    ticket: SignedTicket,
    revoke: Option<InvitationId>,
    now: u64,
) -> CatalogView {
    let share = ticket.body.share_id;
    let entry = catalog.shares[share@];
    with_share(
        catalog,
        share,
        ShareView {
            invitations: issued_invitations(entry.invitations, ticket, revoke, now),
            ..entry
        },
    )
}

/// Revokes the invitation under an identity that is there.
fn revoke_in(invitations: &mut Vec<Invitation>, id: &InvitationId, now: u64)
    requires
        ascending(old(invitations)@),
        table(old(invitations)@).contains_key(id@),
    ensures
        ascending(final(invitations)@),
        table(final(invitations)@) == table(old(invitations)@).insert(
            id@,
            revoked_invitation(table(old(invitations)@)[id@], now),
        ),
{
    let ghost before = invitations@;
    let place = locate(invitations, id.0.as_slice());
    proof {
        lemma_rank_unique(before, place.at as int);
    }
    let mut invitation = invitations[place.at];
    if invitation.revoked_at.is_none() {
        invitation.revoked_at = Some(now);
    }
    invitations.set(place.at, invitation);
    proof {
        lemma_update(before, place.at as int, invitation);
    }
}

/// The catalog once an invitation of a share is revoked.
pub open spec fn unissued_catalog(
    catalog: CatalogView,
    share: ShareId,
    invitation: InvitationId,
    now: u64,
) -> CatalogView {
    let entry = catalog.shares[share@];
    with_share(
        catalog,
        share,
        ShareView {
            invitations: entry.invitations.insert(
                invitation@,
                revoked_invitation(entry.invitations[invitation@], now),
            ),
            ..entry
        },
    )
}

/// Why an invitation is not revoked.
pub open spec fn unissuing_fault(
    catalog: CatalogView,
    share: ShareId,
    invitation: InvitationId,
    now: u64,
) -> Option<ShareError> {
    if !catalog.shares.contains_key(share@) {
        Some(ShareError::UnknownShare)
    } else if !catalog.shares[share@].invitations.contains_key(invitation@) {
        Some(ShareError::InvalidTicket)
    } else if !catalog_fits(unissued_catalog(catalog, share, invitation, now)) {
        Some(ShareError::StateUnavailable)
    } else {
        None
    }
}

/// Whether an invitation is exactly the one that a share key stands for, and not revoked.
fn is_exact(issued: &Invitation, ticket: &ShareTicket) -> (exact: bool)
    ensures
        exact == (*issued == (Invitation { id: issued.id, ..invitation_of(ticket@) })),
{
    let digest = ticket.issuance_digest();
    proof {
        lemma_hash_with(digest);
    }
    issued.share_id == ticket.body.share_id && issued.permission == ticket.body.permission
        && issued.expires_at == ticket.body.expires_at && issued.digest == digest
        && issued.revoked_at.is_none()
}

impl Catalog {
    /// Issues a share key and, when it takes the place of another, revokes that one. Issuing the
    /// very same key again changes nothing, and never brings a revoked one back.
    pub fn issue_with_revocation(
        &mut self,
        ticket: &ShareTicket,
        revoke: Option<InvitationId>,
        now: u64,
    ) -> (result: Result<(), ShareError>)
        requires
            old(self).wf(),
        ensures
            final(self).wf(),
            replicas_known(old(self)@) ==> replicas_known(final(self)@),
            match result {
                Ok(()) => issuing_fault(old(self)@, ticket@, revoke, now) is None && final(self)@
                    == issued_catalog(old(self)@, ticket@, revoke, now) && invitation_of(
                    ticket@,
                ).digest@ == blake3_digest(ticket_message(ticket.body@)),
                Err(error) => issuing_fault(old(self)@, ticket@, revoke, now) == Some(error)
                    && final(self)@ == old(self)@,
            },
    {
        let i = match self.index_of(&ticket.body.share_id) {
            Some(i) => i,
            None => {
                return Err(ShareError::UnknownShare);
            },
        };
        let held = &self.shares[i];
        if held.config.owner != ticket.body.owner || !same_text(
            held.config.name.as_str(),
            ticket.body.name.as_str(),
        ) {
            return Err(ShareError::InvalidTicket);
        }
        let again = match find(&held.invitations, ticket.body.invitation_id.0.as_slice()) {
            Some(issued) => {
                if !is_exact(issued, ticket) {
                    return Err(ShareError::InvalidTicket);
                }
                true
            },
            None => false,
        };
        match &revoke {
            Some(id) => {
                if *id == ticket.body.invitation_id || !holds(&held.invitations, id.0.as_slice()) {
                    return Err(ShareError::InvalidTicket);
                }
            },
            None => {},
        }
        proof {
            lemma_table_size(held.invitations@);
        }
        if !again && held.invitations.len() >= MAX_INVITATIONS {
            return Err(ShareError::Busy);
        }
        let digest = ticket.issuance_digest();
        proof {
            lemma_hash_with(digest);
        }
        let mut entry = held.clone();
        match &revoke {
            Some(id) => {
                revoke_in(&mut entry.invitations, id, now);
            },
            None => {},
        }
        if !again {
            let invitation = Invitation {
                id: ticket.body.invitation_id,
                share_id: ticket.body.share_id,
                permission: ticket.body.permission,
                expires_at: ticket.body.expires_at,
                revoked_at: None,
                digest,
            };
            put(&mut entry.invitations, invitation);
        }
        self.replace_share(i, entry)
    }

    /// Checks that a share key is one that its share has issued and still honours.
    pub fn validate(&self, ticket: &ShareTicket, now: u64) -> (result: Result<(), ShareError>)
        requires
            self.wf(),
        ensures
            match result {
                Ok(()) => self@.shares.contains_key(ticket.body.share_id@) && honouring_fault(
                    self@.shares[ticket.body.share_id@],
                    ticket@,
                    now,
                ) is None,
                Err(error) => if self@.shares.contains_key(ticket.body.share_id@) {
                    honouring_fault(self@.shares[ticket.body.share_id@], ticket@, now) == Some(
                        error,
                    )
                } else {
                    error == ShareError::UnknownShare
                },
            },
    {
        match self.index_of(&ticket.body.share_id) {
            Some(i) => self.shares[i].validate_ticket(ticket, now),
            None => Err(ShareError::UnknownShare),
        }
    }

    /// Revokes an invitation, unless it was before.
    pub fn revoke_key(&mut self, share: ShareId, invitation: InvitationId, now: u64) -> (result:
        Result<(), ShareError>)
        requires
            old(self).wf(),
        ensures
            final(self).wf(),
            replicas_known(old(self)@) ==> replicas_known(final(self)@),
            match result {
                Ok(()) => unissuing_fault(old(self)@, share, invitation, now) is None
                    && final(self)@ == unissued_catalog(old(self)@, share, invitation, now),
                Err(error) => unissuing_fault(old(self)@, share, invitation, now) == Some(error)
                    && final(self)@ == old(self)@,
            },
    {
        let i = match self.index_of(&share) {
            Some(i) => i,
            None => {
                return Err(ShareError::UnknownShare);
            },
        };
        if !holds(&self.shares[i].invitations, invitation.0.as_slice()) {
            return Err(ShareError::InvalidTicket);
        }
        let mut entry = self.shares[i].clone();
        revoke_in(&mut entry.invitations, &invitation, now);
        self.replace_share(i, entry)
    }

    /// The invitations of a share, in the order of their identities.
    pub fn invitations(&self, share: ShareId) -> (invitations: Result<Vec<Invitation>, ShareError>)
        requires
            self.wf(),
        ensures
            match invitations {
                Ok(invitations) => self@.shares.contains_key(share@) && ascending(invitations@)
                    && table(invitations@) == self@.shares[share@].invitations,
                Err(error) => error == ShareError::UnknownShare && !self@.shares.contains_key(
                    share@,
                ),
            },
    {
        match self.index_of(&share) {
            Some(i) => Ok(copy_items(&self.shares[i].invitations)),
            None => Err(ShareError::UnknownShare),
        }
    }
}

/// Some member counts its changes under a replica.
pub open spec fn replica_taken(members: Map<Seq<u8>, Membership>, replica: ReplicaId) -> bool {
    exists|key: Seq<u8>| members.contains_key(key) && (#[trigger] members[key]).replica == replica
}

/// The replica that an enrolled device counts its changes under: the one it has proved to hold,
/// or a fresh one.
pub open spec fn enrolled_replica(claim: Option<LegacyProof>, fresh: ReplicaId) -> ReplicaId {
    match claim {
        Some(claim) => claim.replica,
        None => fresh,
    }
}

/// Why a device is not enrolled.
pub open spec fn enrolling_fault(
    catalog: CatalogView,
    ticket: SignedTicket,
    peer: EndpointId,
    claim: Option<LegacyProof>,
    fresh: ReplicaId,
    now: u64,
) -> Option<ShareError> {
    let entry = catalog.shares[ticket.body.share_id@];
    let unproved = claim is Some && !proof_holds(claim->0, ticket.body, peer);
    if peer == catalog.owner {
        Some(ShareError::OwnerMismatch)
    } else if !catalog.shares.contains_key(ticket.body.share_id@) {
        Some(ShareError::UnknownShare)
    } else if honouring_fault(entry, ticket, now) is Some {
        honouring_fault(entry, ticket, now)
    } else if entry.members.contains_key(peer@) {
        if entry.members[peer@].revoked_at is Some {
            Some(ShareError::MemberRevoked)
        } else if unproved || claim is Some && claim->0.replica != entry.members[peer@].replica {
            Some(ShareError::ReplicaClaimRejected)
        } else {
            None
        }
    } else if entry.members.dom().len() >= MAX_MEMBERS {
        Some(ShareError::Busy)
    } else if unproved || claim is Some && (claim->0.replica == entry.config.replica
        || claim->0.replica@ == resolver_id() || replica_taken(
        entry.members,
        claim->0.replica,
    )) {
        Some(ShareError::ReplicaClaimRejected)
    } else if claim is None && entry.known.contains(fresh@) {
        Some(ShareError::Busy)
    } else if !entry.known.contains(enrolled_replica(claim, fresh)@) && entry.known.len()
        >= MAX_REPLICAS {
        Some(ShareError::Busy)
    } else if !catalog_fits(
        enrolled_catalog(catalog, ticket, peer, enrolled_replica(claim, fresh), now),
    ) {
        Some(ShareError::StateUnavailable)
    } else {
        None
    }
}

/// A device that was just enrolled.
pub open spec fn new_member(
    catalog: CatalogView,
    ticket: SignedTicket,
    peer: EndpointId,
    replica: ReplicaId,
    now: u64,
) -> Membership {
    Membership {
        share_id: catalog.shares[ticket.body.share_id@].config.share_id,
        owner: catalog.owner,
        endpoint: peer,
        permission: ticket.body.permission,
        replica,
        enrolled_at: now,
        revoked_at: None,
        epoch: 1,
    }
}

/// The catalog once a device is enrolled that was no member.
pub open spec fn enrolled_catalog(
    catalog: CatalogView,
    ticket: SignedTicket,
    peer: EndpointId,
    replica: ReplicaId,
    now: u64,
) -> CatalogView {
    let share = ticket.body.share_id;
    let entry = catalog.shares[share@];
    with_share(
        catalog,
        share,
        ShareView {
            members: entry.members.insert(peer@, new_member(catalog, ticket, peer, replica, now)),
            known: entry.known.insert(replica@),
            ..entry
        },
    )
}

/// What enrolling a device comes to.
pub open spec fn enrols(
    before: CatalogView,
    after: CatalogView,
    result: Result<Membership, ShareError>,
    ticket: SignedTicket,
    peer: EndpointId,
    claim: Option<LegacyProof>,
    fresh: ReplicaId,
    now: u64,
) -> bool {
    let entry = before.shares[ticket.body.share_id@];
    match result {
        Err(error) => enrolling_fault(before, ticket, peer, claim, fresh, now) == Some(error)
            && after == before,
        Ok(member) => enrolling_fault(before, ticket, peer, claim, fresh, now) is None
            && if entry.members.contains_key(peer@) {
            member == entry.members[peer@] && after == before
        } else {
            let replica = enrolled_replica(claim, fresh);
            &&& member == new_member(before, ticket, peer, replica, now)
            &&& after == enrolled_catalog(before, ticket, peer, replica, now)
        },
    }
}

/// The device is a member of the share, revoked or not.
pub open spec fn is_member(catalog: CatalogView, share: ShareId, peer: EndpointId) -> bool {
    catalog.shares.contains_key(share@) && catalog.shares[share@].members.contains_key(peer@)
}

/// The replica is neither the owner's nor the resolver's nor that of a member.
pub open spec fn is_its_own(entry: ShareView, replica: ReplicaId) -> bool {
    &&& replica@ != entry.config.replica@
    &&& replica@ != resolver_id()
    &&& !replica_taken(entry.members, replica)
}

/// A device that becomes a member is not the owner, starts at the first epoch with what its key
/// permits, and counts under a replica of its own. The share comes to know that replica and no
/// other, and never more than the most that it may know; it still knows all that count in it.
pub proof fn law_new_member_has_its_own_replica(
    before: CatalogView,
    after: CatalogView,
    member: Membership,
    ticket: SignedTicket,
    peer: EndpointId,
    claim: Option<LegacyProof>,
    fresh: ReplicaId,
    now: u64,
)
    requires
        replicas_known(before),
        enrols(before, after, Ok(member), ticket, peer, claim, fresh, now),
    ensures
        replicas_known(after),
        !is_member(before, ticket.body.share_id, peer) ==> {
            let held = before.shares[ticket.body.share_id@];
            let known = after.shares[ticket.body.share_id@].known;
            &&& peer != before.owner
            &&& member.endpoint == peer
            &&& member.permission == ticket.body.permission
            &&& member.epoch == 1
            &&& member.revoked_at is None
            &&& is_its_own(held, member.replica)
            &&& known == held.known.insert(member.replica@)
            &&& held.known.finite() && known != held.known ==> known.len() <= MAX_REPLICAS
        },
{
    let share = ticket.body.share_id;
    let held = before.shares[share@];
    assert(knows_its_own(held));
    if !held.members.contains_key(peer@) {
        if claim is Some && member.replica@ == held.config.replica@ {
            crate::hash::lemma_hash_view_injective(member.replica.0, held.config.replica.0);
        }
        if held.known.contains(member.replica@) {
            assert(held.known.insert(member.replica@) =~= held.known);
        }
        assert(knows_its_own(after.shares[share@]));
    }
}

/// The proof that is shown, if one is.
pub open spec fn claimed(claim: Option<&LegacyProof>) -> Option<LegacyProof> {
    match claim {
        Some(claim) => Some(*claim),
        None => None,
    }
}

/// The share is there and knows the replica.
pub open spec fn replica_known(catalog: CatalogView, share: ShareId, replica: ReplicaId) -> bool {
    catalog.shares.contains_key(share@) && catalog.shares[share@].known.contains(replica@)
}

/// A replica with a number in its first eight bytes.
fn numbered(base: &ReplicaId, number: u64) -> (replica: ReplicaId)
    ensures
        replica@.take(8) == le_bytes(number),
{
    let mut digits: Vec<u8> = Vec::new();
    push_le(&mut digits, number);
    assert(digits@ =~= le_bytes(number));
    let mut bytes = base.0.bytes;
    let mut i: usize = 0;
    while i < 8
        invariant
            i <= 8,
            digits@ == le_bytes(number),
            forall|k: int| 0 <= k < i ==> bytes@[k] == digits@[k],
        decreases 8 - i,
    {
        bytes[i] = digits[i];
        i = i + 1;
    }
    let replica = ReplicaId(Hash32::from_bytes(bytes));
    assert(replica@.take(8) =~= le_bytes(number));
    replica
}

/// Counts from a replica on until one is not in a list.
fn first_unknown(known: &Vec<ReplicaId>, base: &ReplicaId) -> (replica: ReplicaId)
    requires
        ascending(known@),
    ensures
        !table(known@).dom().contains(replica@),
{
    let count = known.len();
    let ghost mut tried: Seq<Seq<u8>> = Seq::empty();
    let mut number: usize = 0;
    let mut replica = numbered(base, 0);
    while number < count && holds(known, replica.0.bytes.as_slice())
        invariant
            ascending(known@),
            number <= count == known@.len(),
            replica@.take(8) == le_bytes(number as u64),
            tried.len() == number,
            forall|k: int|
                0 <= k < number ==> (#[trigger] tried[k]).take(8) == le_bytes(k as u64) && table(
                    known@,
                ).dom().contains(tried[k]),
        decreases count - number,
    {
        proof {
            tried = tried.push(replica@);
        }
        number = number + 1;
        replica = numbered(base, number as u64);
    }
    proof {
        if table(known@).dom().contains(replica@) {
            // One more replica than the list is long would be in it.
            let all = tried.push(replica@);
            assert forall|i: int, j: int| 0 <= i < j < all.len() implies all[i] != all[j] by {
                if all[i] == all[j] {
                    crate::hash::lemma_le_bytes_injective(i as u64, j as u64);
                }
            }
            assert(all.no_duplicates());
            all.unique_seq_to_set();
            lemma_table_size(known@);
            assert(all.to_set().subset_of(table(known@).dom()));
            vstd::set_lib::lemma_len_subset(all.to_set(), table(known@).dom());
        }
    }
    replica
}

/// Whether some member counts its changes under a replica.
fn takes_replica(members: &Vec<Membership>, replica: &ReplicaId) -> (taken: bool)
    requires
        ascending(members@),
    ensures
        taken == replica_taken(table(members@), *replica),
{
    let mut i: usize = 0;
    while i < members.len()
        invariant
            i <= members@.len(),
            ascending(members@),
            forall|k: int| 0 <= k < i ==> (#[trigger] members@[k]).replica != *replica,
        decreases members@.len() - i,
    {
        if members[i].replica == *replica {
            proof {
                lemma_rank_unique(members@, i as int);
                assert(table(members@)[members@[i as int].key()].replica == *replica);
            }
            return true;
        }
        i = i + 1;
    }
    false
}

impl Catalog {
    /// Enrols a device that shows a share key, with a replica drawn for it. A member that comes
    /// again gets its membership as it is; one that was revoked stays out.
    pub fn enroll_with(
        &mut self,
        ticket: &ShareTicket,
        peer: EndpointId,
        claim: Option<&LegacyProof>,
        fresh: ReplicaId,
        now: u64,
    ) -> (result: Result<Membership, ShareError>)
        requires
            old(self).wf(),
        ensures
            final(self).wf(),
            replicas_known(old(self)@) ==> replicas_known(final(self)@),
            enrols(
                old(self)@,
                final(self)@,
                result,
                ticket@,
                peer,
                claimed(claim),
                fresh,
                now,
            ),
    {
        if peer == self.owner {
            return Err(ShareError::OwnerMismatch);
        }
        let i = match self.index_of(&ticket.body.share_id) {
            Some(i) => i,
            None => {
                return Err(ShareError::UnknownShare);
            },
        };
        let held = &self.shares[i];
        match held.validate_ticket(ticket, now) {
            Ok(()) => {},
            Err(error) => {
                return Err(error);
            },
        }
        match find(&held.members, peer.bytes.as_slice()) {
            Some(member) => {
                if member.revoked_at.is_some() {
                    return Err(ShareError::MemberRevoked);
                }
                match claim {
                    Some(claim) => match claim.verify(ticket, peer) {
                        Ok(replica) => if replica != member.replica {
                            return Err(ShareError::ReplicaClaimRejected);
                        },
                        Err(error) => {
                            return Err(error);
                        },
                    },
                    None => {},
                }
                return Ok(*member);
            },
            None => {},
        }
        proof {
            lemma_table_size(held.members@);
            lemma_table_size(held.known@);
        }
        if held.members.len() >= MAX_MEMBERS {
            return Err(ShareError::Busy);
        }
        let replica = match claim {
            Some(claim) => {
                let replica = match claim.verify(ticket, peer) {
                    Ok(replica) => replica,
                    Err(error) => {
                        return Err(error);
                    },
                };
                let resolver = conflict_resolver_replica();
                proof {
                    if replica@ == resolver@ {
                        crate::hash::lemma_hash_view_injective(replica.0, resolver.0);
                    }
                }
                if replica == held.config.replica || replica == resolver || takes_replica(
                    &held.members,
                    &replica,
                ) {
                    return Err(ShareError::ReplicaClaimRejected);
                }
                replica
            },
            None => {
                if holds(&held.known, fresh.0.bytes.as_slice()) {
                    return Err(ShareError::Busy);
                }
                fresh
            },
        };
        if !holds(&held.known, replica.0.bytes.as_slice()) && held.known.len() >= MAX_REPLICAS {
            return Err(ShareError::Busy);
        }
        let member = Membership {
            share_id: held.config.share_id,
            owner: self.owner,
            endpoint: peer,
            permission: ticket.body.permission,
            replica,
            enrolled_at: now,
            revoked_at: None,
            epoch: 1,
        };
        let mut entry = held.clone();
        put(&mut entry.known, replica);
        put(&mut entry.members, member);
        assert(entry@.known =~= held@.known.insert(replica@));
        match self.replace_share(i, entry) {
            Ok(()) => Ok(member),
            Err(error) => Err(error),
        }
    }

    /// Enrols a device that shows a share key. A replica is drawn for it at random, again as long
    /// as the share knows the one that was drawn.
    pub fn enroll(
        &mut self,
        ticket: &ShareTicket,
        peer: EndpointId,
        claim: Option<&LegacyProof>,
        now: u64,
    ) -> (result: Result<Membership, ShareError>)
        requires
            old(self).wf(),
        ensures
            final(self).wf(),
            replicas_known(old(self)@) ==> replicas_known(final(self)@),
            exists|fresh: ReplicaId|
                !replica_known(old(self)@, ticket@.body.share_id, fresh) && #[trigger] enrols(
                    old(self)@,
                    final(self)@,
                    result,
                    ticket@,
                    peer,
                    claimed(claim),
                    fresh,
                    now,
                ),
    {
        let fresh = self.draw_replica(&ticket.body.share_id);
        self.enroll_with(ticket, peer, claim, fresh, now)
    }

    /// Draws a replica that the share does not know: at random, again as long as the share knows
    /// the one that was drawn. Should chance give known ones only, the first bytes of the last are
    /// counted up until the share does not know the replica.
    pub fn draw_replica(&self, share: &ShareId) -> (fresh: ReplicaId)
        requires
            self.wf(),
        ensures
            !replica_known(self@, *share, fresh),
    {
        let mut fresh = ReplicaId(Hash32::from_bytes(random_bytes()));
        let mut tries: usize = 0;
        while tries < MAX_REPLICAS && self.knows(share, &fresh)
            invariant
                self.wf(),
            decreases MAX_REPLICAS - tries,
        {
            fresh = ReplicaId(Hash32::from_bytes(random_bytes()));
            tries = tries + 1;
        }
        if !self.knows(share, &fresh) {
            return fresh;
        }
        match self.index_of(share) {
            Some(i) => first_unknown(&self.shares[i].known, &fresh),
            None => fresh,
        }
    }

    /// Whether a share knows a replica.
    fn knows(&self, share: &ShareId, replica: &ReplicaId) -> (known: bool)
        requires
            self.wf(),
        ensures
            known == replica_known(self@, *share, *replica),
    {
        match self.index_of(share) {
            Some(i) => holds(&self.shares[i].known, replica.0.bytes.as_slice()),
            None => false,
        }
    }
}

/// Why a device may not use a share.
pub open spec fn access_fault(
    catalog: CatalogView,
    share: ShareId,
    peer: EndpointId,
    write: bool,
) -> Option<ShareError> {
    if !catalog.shares.contains_key(share@) {
        Some(ShareError::UnknownShare)
    } else if !catalog.shares[share@].members.contains_key(peer@) {
        Some(ShareError::NotMember)
    } else {
        let member = catalog.shares[share@].members[peer@];
        if member.revoked_at is Some {
            Some(ShareError::MemberRevoked)
        } else if write && member.permission != Permission::ReadWrite {
            Some(ShareError::PermissionDenied)
        } else {
            None
        }
    }
}

/// A member of a share.
pub open spec fn member_of(catalog: CatalogView, share: ShareId, peer: EndpointId) -> Membership {
    catalog.shares[share@].members[peer@]
}

/// A member that is revoked at a time, unless it was before.
pub open spec fn revoked_member(member: Membership, now: u64) -> Membership {
    if member.revoked_at is Some {
        member
    } else {
        Membership { revoked_at: Some(now), epoch: (member.epoch + 1) as u64, ..member }
    }
}

/// Why a member is not revoked.
pub open spec fn revoking_fault(catalog: CatalogView, share: ShareId, peer: EndpointId) -> Option<
    ShareError,
> {
    if !catalog.shares.contains_key(share@) {
        Some(ShareError::UnknownShare)
    } else if !catalog.shares[share@].members.contains_key(peer@) {
        Some(ShareError::NotMember)
    } else if member_of(catalog, share, peer).revoked_at is None && member_of(
        catalog,
        share,
        peer,
    ).epoch == u64::MAX {
        Some(ShareError::StateUnavailable)
    } else {
        None
    }
}

/// Why a member is not revoked within the size of the catalog.
pub open spec fn revocation_fault(
    catalog: CatalogView,
    share: ShareId,
    peer: EndpointId,
    now: u64,
) -> Option<ShareError> {
    if revoking_fault(catalog, share, peer) is Some {
        revoking_fault(catalog, share, peer)
    } else if !catalog_fits(
        with_member(catalog, share, peer, revoked_member(member_of(catalog, share, peer), now)),
    ) {
        Some(ShareError::StateUnavailable)
    } else {
        None
    }
}

/// The catalog with one member of a share changed.
pub open spec fn with_member(
    catalog: CatalogView,
    share: ShareId,
    peer: EndpointId,
    member: Membership,
) -> CatalogView {
    let entry = catalog.shares[share@];
    with_share(
        catalog,
        share,
        ShareView { members: entry.members.insert(peer@, member), ..entry },
    )
}

impl Catalog {
    /// Checks that a device may use a share, and gives its membership.
    pub fn authorize(&self, share: ShareId, peer: EndpointId, write: bool) -> (member: Result<
        Membership,
        ShareError,
    >)
        requires
            self.wf(),
        ensures
            match member {
                Ok(member) => access_fault(self@, share, peer, write) is None && member
                    == member_of(self@, share, peer),
                Err(error) => access_fault(self@, share, peer, write) == Some(error),
            },
    {
        match self.index_of(&share) {
            None => Err(ShareError::UnknownShare),
            Some(i) => match find(&self.shares[i].members, peer.bytes.as_slice()) {
                None => Err(ShareError::NotMember),
                Some(member) => {
                    if member.revoked_at.is_some() {
                        return Err(ShareError::MemberRevoked);
                    }
                    if write && member.permission != Permission::ReadWrite {
                        return Err(ShareError::PermissionDenied);
                    }
                    Ok(*member)
                },
            },
        }
    }

    /// A member of a share, revoked or not.
    pub fn member(&self, share: ShareId, peer: EndpointId) -> (member: Result<
        Membership,
        ShareError,
    >)
        requires
            self.wf(),
        ensures
            match member {
                Ok(member) => self@.shares.contains_key(share@)
                    && self@.shares[share@].members.contains_key(peer@) && member == member_of(
                    self@,
                    share,
                    peer,
                ),
                Err(error) => if self@.shares.contains_key(share@) {
                    error == ShareError::NotMember && !self@.shares[share@].members.contains_key(
                        peer@,
                    )
                } else {
                    error == ShareError::UnknownShare
                },
            },
    {
        match self.index_of(&share) {
            None => Err(ShareError::UnknownShare),
            Some(i) => match find(&self.shares[i].members, peer.bytes.as_slice()) {
                None => Err(ShareError::NotMember),
                Some(member) => Ok(*member),
            },
        }
    }

    /// The members of a share, revoked ones too, in the order of their identities.
    pub fn members(&self, share: ShareId) -> (members: Result<Vec<Membership>, ShareError>)
        requires
            self.wf(),
        ensures
            match members {
                Ok(members) => self@.shares.contains_key(share@) && ascending(members@) && table(
                    members@,
                ) == self@.shares[share@].members,
                Err(error) => error == ShareError::UnknownShare && !self@.shares.contains_key(
                    share@,
                ),
            },
    {
        match self.index_of(&share) {
            Some(i) => Ok(copy_items(&self.shares[i].members)),
            None => Err(ShareError::UnknownShare),
        }
    }

    /// The entry of a share once a member is revoked, where it stands, and the member.
    fn revoked_entry(&self, share: &ShareId, peer: &EndpointId, now: u64) -> (result: Result<
        (usize, ShareEntry, Membership),
        ShareError,
    >)
        requires
            self.ordered(),
        ensures
            match result {
                Ok((i, entry, member)) => {
                    &&& revoking_fault(self@, *share, *peer) is None
                    &&& member == revoked_member(member_of(self@, *share, *peer), now)
                    &&& i < self.shares@.len()
                    &&& entry.key() == self.shares@[i as int].key()
                    &&& entry.wf()
                    &&& entry.config.share_id@ == share@
                    &&& replicas_known(self@) ==> knows_its_own(entry@)
                    &&& with_share(self@, *share, entry@) == with_member(
                        self@,
                        *share,
                        *peer,
                        member,
                    )
                },
                Err(error) => revoking_fault(self@, *share, *peer) == Some(error),
            },
    {
        let i = match self.index_of(share) {
            Some(i) => i,
            None => {
                return Err(ShareError::UnknownShare);
            },
        };
        let place = locate(&self.shares[i].members, peer.bytes.as_slice());
        if !place.found {
            return Err(ShareError::NotMember);
        }
        let mut entry = self.shares[i].clone();
        let ghost held = entry.members@;
        proof {
            lemma_rank_unique(held, place.at as int);
        }
        let mut member = entry.members[place.at];
        if member.revoked_at.is_none() {
            if member.epoch == u64::MAX {
                return Err(ShareError::StateUnavailable);
            }
            member.revoked_at = Some(now);
            member.epoch = member.epoch + 1;
        }
        entry.members.set(place.at, member);
        proof {
            lemma_update(held, place.at as int, member);
        }
        Ok((i, entry, member))
    }

    /// Revokes a member, unless it was before, and moves its epoch on.
    pub fn revoke_member(&mut self, share: ShareId, peer: EndpointId, now: u64) -> (result: Result<
        Membership,
        ShareError,
    >)
        requires
            old(self).wf(),
        ensures
            final(self).wf(),
            replicas_known(old(self)@) ==> replicas_known(final(self)@),
            match result {
                Ok(member) => revocation_fault(old(self)@, share, peer, now) is None && member
                    == revoked_member(member_of(old(self)@, share, peer), now) && final(self)@
                    == with_member(old(self)@, share, peer, member),
                Err(error) => revocation_fault(old(self)@, share, peer, now) == Some(error)
                    && final(self)@ == old(self)@,
            },
    {
        match self.revoked_entry(&share, &peer, now) {
            Ok((i, entry, member)) => match self.replace_share(i, entry) {
                Ok(()) => Ok(member),
                Err(error) => Err(error),
            },
            Err(error) => Err(error),
        }
    }

    /// Revokes a member, as `revoke_member` does, whatever room the catalog then takes.
    pub(crate) fn force_revocation(&mut self, share: ShareId, peer: EndpointId, now: u64) -> (result:
        Result<Membership, ShareError>)
        requires
            old(self).wf(),
        ensures
            final(self).ordered(),
            replicas_known(old(self)@) ==> replicas_known(final(self)@),
            match result {
                Ok(member) => revoking_fault(old(self)@, share, peer) is None && member
                    == revoked_member(member_of(old(self)@, share, peer), now) && final(self)@
                    == with_member(old(self)@, share, peer, member),
                Err(error) => revoking_fault(old(self)@, share, peer) == Some(error)
                    && final(self)@ == old(self)@,
            },
    {
        match self.revoked_entry(&share, &peer, now) {
            Ok((i, entry, member)) => {
                let ghost before = self.shares@;
                let ghost item = entry;
                self.shares.set(i, entry);
                proof {
                    lemma_entry_changed(before, i as int, item, self.shares@);
                }
                Ok(member)
            },
            Err(error) => Err(error),
        }
    }
}

/// The catalog once a membership elsewhere is taken in.
pub open spec fn related_catalog(catalog: CatalogView, relationship: RelationshipView) -> CatalogView {
    let member = relationship.membership;
    CatalogView {
        relationships: catalog.relationships.insert(
            pair_key(member.owner, member.share_id),
            relationship,
        ),
        ..catalog
    }
}

/// Why a membership elsewhere is not taken in.
pub open spec fn relating_fault(catalog: CatalogView, relationship: RelationshipView) -> Option<
    ShareError,
> {
    let member = relationship.membership;
    let key = pair_key(member.owner, member.share_id);
    if member.endpoint != catalog.owner || member.owner != relationship.address.id || member.owner
        == catalog.owner {
        Some(ShareError::OwnerMismatch)
    } else if catalog.relationships.contains_key(key) {
        let held = catalog.relationships[key].membership;
        let revokes = held.revoked_at is None && member.revoked_at is Some;
        if held.replica != member.replica || held.permission != member.permission
            || held.enrolled_at != member.enrolled_at || held.endpoint != member.endpoint
            || held.owner != member.owner {
            Some(ShareError::ReplicaClaimRejected)
        } else if revokes && member.epoch < held.epoch {
            Some(ShareError::ReplicaClaimRejected)
        } else if !revokes && (held.epoch != member.epoch || held.revoked_at != member.revoked_at) {
            Some(ShareError::ReplicaClaimRejected)
        } else if !catalog_fits(related_catalog(catalog, relationship)) {
            Some(ShareError::StateUnavailable)
        } else {
            None
        }
    } else if !catalog_fits(related_catalog(catalog, relationship)) {
        Some(ShareError::StateUnavailable)
    } else {
        None
    }
}

proof fn lemma_rows_put(before: Seq<RelationshipRow>, item: RelationshipRow, after: Seq<
    RelationshipRow,
>)
    requires
        ascending(after),
        forall|i: int| 0 <= i < before.len() ==> (#[trigger] before[i]).wf(),
        item.wf(),
        table(after) == table(before).insert(item.key(), item),
    ensures
        forall|i: int| 0 <= i < after.len() ==> (#[trigger] after[i]).wf(),
{
    assert forall|i: int| 0 <= i < after.len() implies (#[trigger] after[i]).wf() by {
        lemma_rank_unique(after, i);
        let key = after[i].key();
        if key != item.key() {
            assert(table(before).contains_key(key));
            let r = crate::table::rank_of(before, key);
            assert(before[r].wf());
        }
    }
}

proof fn lemma_rows_taken(before: Seq<RelationshipRow>, key: Seq<u8>, after: Seq<RelationshipRow>)
    requires
        ascending(after),
        forall|i: int| 0 <= i < before.len() ==> (#[trigger] before[i]).wf(),
        table(after) == table(before).remove(key),
    ensures
        forall|i: int| 0 <= i < after.len() ==> (#[trigger] after[i]).wf(),
{
    assert forall|i: int| 0 <= i < after.len() implies (#[trigger] after[i]).wf() by {
        lemma_rank_unique(after, i);
        let own = after[i].key();
        assert(table(before).contains_key(own));
        let r = crate::table::rank_of(before, own);
        assert(before[r].wf());
    }
}

impl Catalog {
    /// Takes a membership elsewhere in. One that is held already can only be replaced by the same,
    /// or by its revocation.
    pub fn store_relationship(&mut self, relationship: MemberRelationship) -> (result: Result<
        (),
        ShareError,
    >)
        requires
            old(self).wf(),
        ensures
            final(self).wf(),
            replicas_known(old(self)@) ==> replicas_known(final(self)@),
            match result {
                Ok(()) => relating_fault(old(self)@, relationship@) is None && final(self)@
                    == related_catalog(old(self)@, relationship@),
                Err(error) => relating_fault(old(self)@, relationship@) == Some(error)
                    && final(self)@ == old(self)@,
            },
    {
        let member = relationship.membership;
        if member.endpoint != self.owner || member.owner != relationship.address.id || member.owner
            == self.owner {
            return Err(ShareError::OwnerMismatch);
        }
        let key = pair_bytes(&member.owner, &member.share_id);
        proof {
            lemma_view_of(self.relationships@);
        }
        match find(&self.relationships, key.as_slice()) {
            Some(row) => {
                let held = row.relationship.membership;
                assert(self@.relationships[key@].membership == held);
                if held.replica != member.replica || held.permission != member.permission
                    || held.enrolled_at != member.enrolled_at || held.endpoint != member.endpoint
                    || held.owner != member.owner {
                    return Err(ShareError::ReplicaClaimRejected);
                }
                if held.revoked_at.is_none() && member.revoked_at.is_some() {
                    if member.epoch < held.epoch {
                        return Err(ShareError::ReplicaClaimRejected);
                    }
                } else if held.epoch != member.epoch || held.revoked_at != member.revoked_at {
                    return Err(ShareError::ReplicaClaimRejected);
                }
            },
            None => {},
        }
        let ghost before = self.relationships@;
        let row = RelationshipRow { key, relationship };
        let ghost item = row;
        let replaced = put(&mut self.relationships, row);
        proof {
            lemma_view_put(before, item, self.relationships@);
            lemma_rows_put(before, item, self.relationships@);
        }
        if !self.fits() {
            match replaced {
                Some(row) => {
                    put(&mut self.relationships, row);
                },
                None => {
                    let key = pair_bytes(&member.owner, &member.share_id);
                    take(&mut self.relationships, key.as_slice());
                },
            }
            proof {
                assert(table(self.relationships@) =~= table(before));
                crate::table::lemma_table_canonical(self.relationships@, before);
            }
            return Err(ShareError::StateUnavailable);
        }
        Ok(())
    }

    /// All memberships elsewhere, in the order of owner and share.
    pub fn relationships(&self) -> (relationships: Vec<MemberRelationship>)
        ensures
            relationships@.len() == self.relationships@.len(),
            forall|i: int|
                0 <= i < relationships@.len() ==> (#[trigger] relationships@[i])@
                    == self.relationships@[i]@,
    {
        let mut copy: Vec<MemberRelationship> = Vec::new();
        let mut i: usize = 0;
        while i < self.relationships.len()
            invariant
                i <= self.relationships@.len(),
                copy@.len() == i,
                forall|k: int| 0 <= k < i ==> (#[trigger] copy@[k])@ == self.relationships@[k]@,
            decreases self.relationships@.len() - i,
        {
            copy.push(self.relationships[i].relationship.clone());
            i = i + 1;
        }
        copy
    }

    /// A membership elsewhere.
    pub fn relationship(&self, owner: EndpointId, share: ShareId) -> (relationship: Result<
        MemberRelationship,
        ShareError,
    >)
        requires
            self.wf(),
        ensures
            match relationship {
                Ok(relationship) => self@.relationships.contains_key(pair_key(owner, share))
                    && relationship@ == self@.relationships[pair_key(owner, share)],
                Err(error) => error == ShareError::NotMember && !self@.relationships.contains_key(
                    pair_key(owner, share),
                ),
            },
    {
        proof {
            lemma_view_of(self.relationships@);
        }
        match find(&self.relationships, pair_bytes(&owner, &share).as_slice()) {
            Some(row) => Ok(row.relationship.clone()),
            None => Err(ShareError::NotMember),
        }
    }

    /// Forgets a membership elsewhere, if there is one.
    pub fn forget_relationship(&mut self, owner: EndpointId, share: ShareId)
        requires
            old(self).wf(),
        ensures
            final(self).wf(),
            replicas_known(old(self)@) ==> replicas_known(final(self)@),
            final(self)@ == (CatalogView {
                relationships: old(self)@.relationships.remove(pair_key(owner, share)),
                ..old(self)@
            }),
    {
        let ghost before = self.relationships@;
        let key = pair_bytes(&owner, &share);
        take(&mut self.relationships, key.as_slice());
        proof {
            lemma_view_take(before, key@, self.relationships@);
            lemma_rows_taken(before, key@, self.relationships@);
            lemma_view_of(before);
            lemma_table_size(before);
            lemma_view_of(old(self).shares@);
            lemma_table_size(old(self).shares@);
            lemma_fits_without(old(self)@, Seq::empty(), key@);
        }
    }

    /// Removes a share, and a membership in it that would name this device as the owner.
    /// Memberships in other owners' shares stay, whatever their identities.
    pub fn remove_share(&mut self, share: ShareId) -> (result: Result<(), ShareError>)
        requires
            old(self).wf(),
        ensures
            final(self).wf(),
            replicas_known(old(self)@) ==> replicas_known(final(self)@),
            match result {
                Ok(()) => old(self)@.shares.contains_key(share@) && final(self)@ == (CatalogView {
                    shares: old(self)@.shares.remove(share@),
                    relationships: old(self)@.relationships.remove(
                        pair_key(old(self)@.owner, share),
                    ),
                    ..old(self)@
                }),
                Err(error) => error == ShareError::UnknownShare
                    && !old(self)@.shares.contains_key(share@) && final(self)@ == old(self)@,
            },
    {
        let ghost before = self.shares@;
        proof {
            lemma_view_of(before);
        }
        if !holds(&self.shares, share.0.as_slice()) {
            return Err(ShareError::UnknownShare);
        }
        take(&mut self.shares, share.0.as_slice());
        proof {
            lemma_view_take(before, share@, self.shares@);
            assert forall|i: int| 0 <= i < self.shares@.len() implies (
            #[trigger] self.shares@[i]).wf() by {
                lemma_rank_unique(self.shares@, i);
                let own = self.shares@[i].key();
                assert(table(before).contains_key(own));
                let r = crate::table::rank_of(before, own);
                assert(before[r].wf());
            }
            lemma_table_size(before);
            lemma_view_of(self.relationships@);
            lemma_table_size(self.relationships@);
            lemma_fits_without(old(self)@, share@, Seq::empty());
        }
        let owner = self.owner;
        self.forget_relationship(owner, share);
        Ok(())
    }
}

} // verus!
