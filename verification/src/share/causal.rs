//! What an owner remembers of the changes it has taken in: how far each replica has come, and who
//! brought the latest ones.
use vstd::prelude::*;

use crate::hash::{hash_with, lemma_hash_with, push_bytes, Hash32, ReplicaId};
use crate::merkle::views;
use crate::path::WirePath;
use crate::reconcile::{conflict_resolver_replica, resolver_id};
use crate::record::{logical_digest, RecordView, SyncRecord};
use crate::share::authority::{counter_bytes, push_counters};
use crate::share::catalog::{
    access_fault, member_of, CatalogView, Membership, OwnedShareConfig, MAX_REPLICAS,
};
use crate::share::codec::{push_number, push_sized, sized, varint};
use crate::share::error::ShareError;
use crate::share::identity::{EndpointId, ShareId};
use crate::share::registry::Registry;
use crate::table::{
    ascending, find, has_key, holds, in_order, lemma_table_empty, lemma_table_size,
    lemma_table_take, put, table, Keyed,
};
use crate::text::utf8;
use crate::version::{
    counter_of, counters, joined, larger, lemma_listed, listed, Counters, VersionEntry,
};

verus! {

/// The version of the causal state.
pub const CAUSAL_VERSION: u8 = 3;

/// The most changes that are remembered with who brought them.
pub const MAX_AUDIT: usize = 512;

/// The largest byte form of one record's version.
pub const MAX_VERSION_BYTES: usize = 262_144;

/// The largest byte form of the causal state.
pub const MAX_STATE_BYTES: usize = 2_097_152;

/// Who brought a change. It is the device that was authenticated, never one that a version names.
#[derive(Debug, PartialEq, Eq)]
pub struct MutationProvenance {
    pub peer: EndpointId,
    pub membership_epoch: u64,
    pub path: WirePath,
    pub operation: String,
    pub record_hash: Hash32,
    pub accepted_at: u64,
}

/// What a provenance says.
#[verifier::ext_equal]
pub struct ProvenanceView {
    pub peer: EndpointId,
    pub membership_epoch: u64,
    pub path: Seq<u8>,
    pub operation: Seq<char>,
    pub record_hash: Hash32,
    pub accepted_at: u64,
}

impl View for MutationProvenance {
    type V = ProvenanceView;

    open spec fn view(&self) -> ProvenanceView {
        ProvenanceView {
            peer: self.peer,
            membership_epoch: self.membership_epoch,
            path: self.path@,
            operation: self.operation@,
            record_hash: self.record_hash,
            accepted_at: self.accepted_at,
        }
    }
}

/// What provenances say.
pub open spec fn audit_views(audit: Seq<MutationProvenance>) -> Seq<ProvenanceView> {
    Seq::new(audit.len(), |i: int| audit[i]@)
}

/// How far each replica has come in a share, and who brought the latest changes.
#[derive(Debug, PartialEq, Eq)]
pub struct CausalState {
    pub version: u8,
    pub share: ShareId,
    pub owner_replica: ReplicaId,
    pub ceilings: Vec<VersionEntry>,
    pub audit: Vec<MutationProvenance>,
}

/// What a causal state says.
#[verifier::ext_equal]
pub struct CausalView {
    pub version: u8,
    pub share: ShareId,
    pub owner_replica: ReplicaId,
    pub ceilings: Counters,
    pub audit: Seq<ProvenanceView>,
}

impl View for CausalState {
    type V = CausalView;

    open spec fn view(&self) -> CausalView {
        CausalView {
            version: self.version,
            share: self.share,
            owner_replica: self.owner_replica,
            ceilings: counters(self.ceilings@),
            audit: audit_views(self.audit@),
        }
    }
}

impl Clone for MutationProvenance {
    fn clone(&self) -> (copy: Self)
        ensures
            copy@ == self@,
    {
        MutationProvenance {
            peer: self.peer,
            membership_epoch: self.membership_epoch,
            path: self.path.clone(),
            operation: self.operation.clone(),
            record_hash: self.record_hash,
            accepted_at: self.accepted_at,
        }
    }
}

impl Clone for CausalState {
    fn clone(&self) -> (copy: Self)
        ensures
            copy@ == self@,
            copy.wf() == self.wf(),
    {
        let mut ceilings: Vec<VersionEntry> = Vec::new();
        let mut i: usize = 0;
        while i < self.ceilings.len()
            invariant
                i <= self.ceilings@.len(),
                ceilings@ == self.ceilings@.take(i as int),
            decreases self.ceilings@.len() - i,
        {
            ceilings.push(self.ceilings[i]);
            i = i + 1;
            assert(ceilings@ =~= self.ceilings@.take(i as int));
        }
        assert(ceilings@ =~= self.ceilings@);
        let mut audit: Vec<MutationProvenance> = Vec::new();
        let mut k: usize = 0;
        while k < self.audit.len()
            invariant
                k <= self.audit@.len(),
                audit@.len() == k,
                forall|j: int| 0 <= j < k ==> (#[trigger] audit@[j])@ == self.audit@[j]@,
            decreases self.audit@.len() - k,
        {
            audit.push(self.audit[k].clone());
            k = k + 1;
        }
        assert(audit_views(audit@) =~= audit_views(self.audit@));
        CausalState {
            version: self.version,
            share: self.share,
            owner_replica: self.owner_replica,
            ceilings,
            audit,
        }
    }
}

/// The state is one of the share, and within its bounds.
pub open spec fn state_fits(s: CausalView, share: ShareId, replica: ReplicaId) -> bool {
    &&& s.version == CAUSAL_VERSION
    &&& s.share == share
    &&& s.owner_replica == replica
    &&& s.ceilings.dom().len() <= MAX_REPLICAS
    &&& s.audit.len() <= MAX_AUDIT
}

/// The counters with a replica in them, if only at zero.
pub open spec fn or_zero(m: Counters, replica: Seq<u8>) -> Counters {
    if m.contains_key(replica) {
        m
    } else {
        m.insert(replica, 0)
    }
}

/// How far each replica has come once the versions of records are seen.
pub open spec fn raised_by(m: Counters, records: Seq<RecordView>) -> Counters
    decreases records.len(),
{
    if records.len() == 0 {
        m
    } else {
        joined(raised_by(m, records.drop_last()), records.last().version)
    }
}

/// How far each replica has come once the owner, the resolver and all records are seen.
pub open spec fn refreshed_ceilings(s: CausalView, records: Seq<RecordView>) -> Counters {
    raised_by(or_zero(or_zero(s.ceilings, s.owner_replica@), resolver_id()), records)
}

/// The state cannot take the records in.
pub open spec fn refresh_fails(s: CausalView, records: Seq<RecordView>) -> bool {
    ||| exists|i: int|
        0 <= i < records.len() && (#[trigger] records[i]).version.dom().len() > MAX_REPLICAS
    ||| refreshed_ceilings(s, records).dom().len() > MAX_REPLICAS
}

/// Counters and table have the same keys.
proof fn lemma_counters(entries: Seq<VersionEntry>)
    requires
        ascending(entries),
    ensures
        counters(entries).dom() == table(entries).dom(),
        counters(entries).dom().len() == entries.len(),
        counters(entries).dom().finite(),
{
    lemma_table_size(entries);
    assert(counters(entries).dom() =~= table(entries).dom());
}

/// Raises the counter of a replica to at least a number.
fn raise(ceilings: &mut Vec<VersionEntry>, replica: ReplicaId, counter: u64)
    requires
        ascending(old(ceilings)@),
    ensures
        ascending(final(ceilings)@),
        counters(final(ceilings)@) == counters(old(ceilings)@).insert(
            replica@,
            larger(counter_of(counters(old(ceilings)@), replica@), counter),
        ),
{
    let ghost before = counters(ceilings@);
    let held: u64 = match find(ceilings, replica.0.bytes.as_slice()) {
        Some(entry) => entry.counter,
        None => 0,
    };
    assert(held == counter_of(before, replica@)) by {
        assert(before.contains_key(replica@) == table(ceilings@).contains_key(replica@));
    }
    let counter = if held < counter {
        counter
    } else {
        held
    };
    let ghost old_table = table(ceilings@);
    put(ceilings, VersionEntry { replica, counter });
    proof {
        let goal = before.insert(replica@, counter);
        assert forall|k: Seq<u8>| #![trigger counters(ceilings@).dom().contains(k)]
            counters(ceilings@).dom().contains(k) == goal.dom().contains(k) && (
            goal.dom().contains(k) ==> counters(ceilings@)[k] == goal[k]) by {
            assert(table(ceilings@).dom().contains(k) == has_key(ceilings@, k));
            assert(before.dom().contains(k) == old_table.dom().contains(k));
        }
        assert(counters(ceilings@) =~= goal);
    }
}

/// Raises the counters to at least those of a version.
fn raise_all(ceilings: &mut Vec<VersionEntry>, entries: &Vec<VersionEntry>)
    requires
        ascending(old(ceilings)@),
        ascending(entries@),
    ensures
        ascending(final(ceilings)@),
        counters(final(ceilings)@) == joined(counters(old(ceilings)@), counters(entries@)),
{
    let ghost before = counters(ceilings@);
    let mut i: usize = 0;
    assert(counters(ceilings@) =~= joined(before, counters(entries@.take(0))));
    while i < entries.len()
        invariant
            i <= entries@.len(),
            ascending(ceilings@),
            ascending(entries@),
            counters(ceilings@) == joined(before, counters(entries@.take(i as int))),
        decreases entries@.len() - i,
    {
        let ghost less = entries@.take(i as int);
        raise(ceilings, entries[i].replica, entries[i].counter);
        proof {
            lemma_table_take(entries@, i as int);
            let more = entries@.take(i + 1);
            let entry = entries@[i as int];
            assert forall|k: Seq<u8>| #![trigger counters(more).dom().contains(k)]
                counters(more).dom().contains(k) == (counters(less).dom().contains(k) || k
                    == entry.replica@) && (counters(more).dom().contains(k) ==> counters(more)[k]
                == (if k == entry.replica@ {
                entry.counter
            } else {
                counters(less)[k]
            })) by {
                assert(table(more).dom().contains(k) == has_key(more, k));
                assert(table(less).dom().contains(k) == has_key(less, k));
            }
            assert(!counters(less).dom().contains(entry.replica@)) by {
                assert(table(less).dom().contains(entry.replica@) == has_key(
                    less,
                    entry.replica@,
                ));
            }
            assert(counters(ceilings@) =~= joined(before, counters(more)));
        }
        i = i + 1;
    }
    assert(entries@.take(i as int) =~= entries@);
}

impl CausalState {
    /// The tables are in order.
    pub open spec fn wf(&self) -> bool {
        ascending(self.ceilings@)
    }

    /// The state of a share that has taken nothing in.
    pub fn new(share: ShareId, owner_replica: ReplicaId) -> (state: Self)
        ensures
            state.wf(),
            state@ == (CausalView {
                version: CAUSAL_VERSION,
                share,
                owner_replica,
                ceilings: Map::empty(),
                audit: Seq::empty(),
            }),
    {
        let state = CausalState {
            version: CAUSAL_VERSION,
            share,
            owner_replica,
            ceilings: Vec::new(),
            audit: Vec::new(),
        };
        proof {
            lemma_table_empty::<VersionEntry>();
            assert(state@.ceilings =~= Map::empty());
            assert(state@.audit =~= Seq::empty());
        }
        state
    }

    /// Checks that a state that was read is one of the share, in order and within its bounds.
    pub fn check(&self, config: &OwnedShareConfig) -> (result: Result<(), ShareError>)
        ensures
            match result {
                Ok(()) => self.wf() && state_fits(self@, config.share_id, config.replica),
                Err(error) => error == ShareError::StateUnavailable && !(self.wf() && state_fits(
                    self@,
                    config.share_id,
                    config.replica,
                )),
            },
    {
        if !in_order(&self.ceilings) {
            return Err(ShareError::StateUnavailable);
        }
        proof {
            lemma_counters(self.ceilings@);
        }
        if self.version != CAUSAL_VERSION || self.share != config.share_id || self.owner_replica
            != config.replica || self.ceilings.len() > MAX_REPLICAS || self.audit.len()
            > MAX_AUDIT {
            return Err(ShareError::StateUnavailable);
        }
        Ok(())
    }

    /// Takes note of how far every replica has come in the records of the share.
    pub fn refresh(self, records: &Vec<SyncRecord>) -> (state: Result<Self, ShareError>)
        requires
            self.wf(),
        ensures
            match state {
                Ok(state) => !refresh_fails(self@, views(records@)) && state.wf() && state@ == (
                CausalView {
                    ceilings: refreshed_ceilings(self@, views(records@)),
                    ..self@
                }),
                Err(error) => refresh_fails(self@, views(records@)) && error
                    == ShareError::InvalidRecord,
            },
    {
        let ghost all = views(records@);
        let ghost start = self@;
        let mut ceilings = self.ceilings;
        let resolver = conflict_resolver_replica();
        let ghost first = counters(ceilings@);
        raise(&mut ceilings, self.owner_replica, 0);
        proof {
            assert(counters(ceilings@) =~= or_zero(first, self.owner_replica@));
        }
        let ghost second = counters(ceilings@);
        raise(&mut ceilings, resolver, 0);
        proof {
            assert(counters(ceilings@) =~= or_zero(second, resolver_id()));
        }
        let ghost base = counters(ceilings@);
        let mut i: usize = 0;
        assert(all.take(0) =~= Seq::empty());
        while i < records.len()
            invariant
                i <= records@.len(),
                all == views(records@),
                start == self@,
                base == or_zero(or_zero(start.ceilings, start.owner_replica@), resolver_id()),
                ascending(ceilings@),
                counters(ceilings@) == raised_by(base, all.take(i as int)),
                forall|k: int|
                    0 <= k < i ==> (#[trigger] all[k]).version.dom().len() <= MAX_REPLICAS,
            decreases records@.len() - i,
        {
            let entries = records[i].version.entries();
            proof {
                lemma_counters(entries@);
                assert(all[i as int].version == counters(entries@));
            }
            if entries.len() > MAX_REPLICAS {
                assert(all[i as int].version.dom().len() > MAX_REPLICAS);
                return Err(ShareError::InvalidRecord);
            }
            raise_all(&mut ceilings, entries);
            i = i + 1;
            proof {
                let more = all.take(i as int);
                assert(more.drop_last() =~= all.take(i - 1));
                assert(more.last() == all[i - 1]);
            }
        }
        proof {
            assert(all.take(i as int) =~= all);
            lemma_counters(ceilings@);
        }
        if ceilings.len() > MAX_REPLICAS {
            return Err(ShareError::InvalidRecord);
        }
        Ok(
            CausalState {
                version: self.version,
                share: self.share,
                owner_replica: self.owner_replica,
                ceilings,
                audit: self.audit,
            },
        )
    }
}

/// A member may bring a count: of its own replica any, of the resolver one more than was seen, of
/// any other no more than was seen. Replicas that the share does not know count for nothing.
pub open spec fn count_allowed(
    s: CausalView,
    member: Membership,
    known: Set<Seq<u8>>,
    replica: Seq<u8>,
    counter: u64,
) -> bool {
    let ceiling = counter_of(s.ceilings, replica);
    &&& known.contains(replica)
    &&& if replica == resolver_id() {
        ceiling < u64::MAX && counter <= ceiling + 1
    } else {
        replica == member.replica@ || counter <= ceiling
    }
}

/// The record's version is one that a member may bring.
pub open spec fn version_allowed(
    s: CausalView,
    member: Membership,
    known: Set<Seq<u8>>,
    version: Counters,
) -> bool {
    &&& version.dom().len() <= MAX_REPLICAS
    &&& varint(listed(version).len()).len() + counter_bytes(listed(version)).len()
        <= MAX_VERSION_BYTES
    &&& forall|replica: Seq<u8>|
        version.contains_key(replica) ==> count_allowed(
            s,
            member,
            known,
            replica,
            #[trigger] version[replica],
        )
}

/// Who brings a record.
pub open spec fn provenance_of(
    member: Membership,
    record: RecordView,
    now: u64,
) -> ProvenanceView {
    ProvenanceView {
        peer: member.endpoint,
        membership_epoch: member.epoch,
        path: record.path,
        operation: if record.tombstone {
            "delete"@
        } else {
            "adopt"@
        },
        record_hash: hash_with(logical_digest(record)),
        accepted_at: now,
    }
}

/// The latest changes with one more, the oldest dropped where they get too many.
pub open spec fn with_change(audit: Seq<ProvenanceView>, change: ProvenanceView) -> Seq<
    ProvenanceView,
> {
    let longer = audit.push(change);
    if longer.len() > MAX_AUDIT {
        longer.skip(1)
    } else {
        longer
    }
}

/// The state once a record is taken in.
pub open spec fn taken_in(
    s: CausalView,
    member: Membership,
    record: RecordView,
    now: u64,
) -> CausalView {
    CausalView {
        ceilings: joined(s.ceilings, record.version),
        audit: with_change(s.audit, provenance_of(member, record, now)),
        ..s
    }
}

/// The byte form of a provenance.
pub open spec fn provenance_bytes(p: ProvenanceView) -> Seq<u8> {
    p.peer@ + varint(p.membership_epoch as nat) + sized(p.path) + sized(utf8(p.operation))
        + p.record_hash@ + varint(p.accepted_at as nat)
}

/// Provenances one behind the other.
pub open spec fn audit_bytes(audit: Seq<ProvenanceView>) -> Seq<u8>
    decreases audit.len(),
{
    if audit.len() == 0 {
        Seq::empty()
    } else {
        audit_bytes(audit.drop_last()) + provenance_bytes(audit.last())
    }
}

/// The byte form of a causal state with given entries.
pub open spec fn state_bytes(s: CausalView, entries: Seq<VersionEntry>) -> Seq<u8> {
    seq![s.version] + s.share@ + s.owner_replica@ + varint(entries.len()) + counter_bytes(entries)
        + varint(s.audit.len()) + audit_bytes(s.audit)
}

/// The entries that list counters in order.
pub open spec fn entries_of(m: Counters) -> Seq<VersionEntry> {
    choose|entries: Seq<VersionEntry>| ascending(entries) && #[trigger] counters(entries) == m
}

/// Entries in order are fixed by their counters.
proof fn lemma_entries_of(entries: Seq<VersionEntry>)
    requires
        ascending(entries),
    ensures
        entries_of(counters(entries)) == entries,
{
    let other = entries_of(counters(entries));
    assert(ascending(other) && counters(other) == counters(entries));
    lemma_counters(other);
    lemma_counters(entries);
    assert forall|i: int| 0 <= i < entries.len() implies entries[i] == other[i] by {
        crate::table::lemma_same_keys_same_rank(entries, other, i);
        crate::table::lemma_rank_unique(entries, i);
        crate::table::lemma_rank_unique(other, i);
        let k = entries[i].key();
        assert(counters(entries).dom().contains(k));
        assert(counters(entries)[k] == entries[i].counter);
        assert(counters(other).dom().contains(k));
        assert(counters(other)[k] == other[i].counter);
        crate::hash::lemma_hash_view_injective(entries[i].replica.0, other[i].replica.0);
    }
    assert(entries =~= other);
}

/// The number of bytes that a version takes with the number of its entries in front.
fn version_size(entries: &Vec<VersionEntry>) -> (size: usize)
    ensures
        size == varint(entries@.len()).len() + counter_bytes(entries@).len(),
{
    let mut bytes: Vec<u8> = Vec::new();
    push_number(&mut bytes, entries.len() as u64);
    push_counters(&mut bytes, entries);
    bytes.len()
}

impl CausalState {
    /// The number of bytes in the byte form.
    pub fn size(&self) -> (size: usize)
        requires
            self.wf(),
        ensures
            size == state_bytes(self@, entries_of(self@.ceilings)).len(),
    {
        proof {
            lemma_entries_of(self.ceilings@);
        }
        let mut bytes: Vec<u8> = Vec::new();
        bytes.push(self.version);
        push_bytes(&mut bytes, self.share.0.as_slice());
        push_bytes(&mut bytes, self.owner_replica.0.bytes.as_slice());
        push_number(&mut bytes, self.ceilings.len() as u64);
        push_counters(&mut bytes, &self.ceilings);
        push_number(&mut bytes, self.audit.len() as u64);
        let ghost head = bytes@;
        let ghost all = audit_views(self.audit@);
        let mut i: usize = 0;
        assert(bytes@ =~= head + audit_bytes(all.take(0)));
        while i < self.audit.len()
            invariant
                i <= self.audit@.len(),
                all == audit_views(self.audit@),
                bytes@ == head + audit_bytes(all.take(i as int)),
            decreases self.audit@.len() - i,
        {
            let change = &self.audit[i];
            let ghost before = bytes@;
            push_bytes(&mut bytes, change.peer.bytes.as_slice());
            push_number(&mut bytes, change.membership_epoch);
            push_sized(&mut bytes, change.path.key_bytes());
            push_sized(&mut bytes, change.operation.as_str().as_bytes());
            push_bytes(&mut bytes, change.record_hash.bytes.as_slice());
            push_number(&mut bytes, change.accepted_at);
            i = i + 1;
            proof {
                assert(bytes@ =~= before + provenance_bytes(all[i - 1]));
                assert(all.take(i as int).drop_last() =~= all.take(i - 1));
                assert(bytes@ =~= head + audit_bytes(all.take(i as int)));
            }
        }
        proof {
            assert(all.take(i as int) =~= all);
            assert(bytes@ =~= state_bytes(self@, self.ceilings@));
        }
        bytes.len()
    }

    /// Whether a member may bring a version.
    fn allows(&self, member: &Membership, known: &Vec<ReplicaId>, entries: &Vec<VersionEntry>) -> (
    allowed: bool)
        requires
            self.wf(),
            ascending(known@),
            ascending(entries@),
        ensures
            allowed == forall|replica: Seq<u8>|
                counters(entries@).contains_key(replica) ==> count_allowed(
                    self@,
                    *member,
                    table(known@).dom(),
                    replica,
                    #[trigger] counters(entries@)[replica],
                ),
    {
        let resolver = conflict_resolver_replica();
        let mut i: usize = 0;
        while i < entries.len()
            invariant
                i <= entries@.len(),
                self.wf(),
                ascending(known@),
                ascending(entries@),
                resolver@ == resolver_id(),
                forall|k: int|
                    0 <= k < i ==> count_allowed(
                        self@,
                        *member,
                        table(known@).dom(),
                        (#[trigger] entries@[k]).replica@,
                        entries@[k].counter,
                    ),
            decreases entries@.len() - i,
        {
            let replica = entries[i].replica;
            let counter = entries[i].counter;
            let ceiling: u64 = match find(&self.ceilings, replica.0.bytes.as_slice()) {
                Some(entry) => entry.counter,
                None => 0,
            };
            proof {
                assert(self@.ceilings.contains_key(replica@) == table(
                    self.ceilings@,
                ).contains_key(replica@));
                if replica@ == resolver@ {
                    crate::hash::lemma_hash_view_injective(replica.0, resolver.0);
                }
                if replica@ == member.replica@ {
                    crate::hash::lemma_hash_view_injective(replica.0, member.replica.0);
                }
            }
            let allowed = holds(known, replica.0.bytes.as_slice()) && if replica == resolver {
                ceiling < u64::MAX && counter <= ceiling + 1
            } else {
                replica == member.replica || counter <= ceiling
            };
            assert(allowed == count_allowed(
                self@,
                *member,
                table(known@).dom(),
                replica@,
                counter,
            ));
            if !allowed {
                proof {
                    crate::table::lemma_rank_unique(entries@, i as int);
                    assert(counters(entries@).contains_key(replica@));
                    assert(counters(entries@)[replica@] == counter);
                }
                return false;
            }
            i = i + 1;
        }
        proof {
            assert forall|replica: Seq<u8>|
                counters(entries@).contains_key(replica) implies count_allowed(
                self@,
                *member,
                table(known@).dom(),
                replica,
                #[trigger] counters(entries@)[replica],
            ) by {
                assert(has_key(entries@, replica));
                let r = crate::table::rank_of(entries@, replica);
                assert(entries@[r].key() == replica);
                crate::table::lemma_rank_unique(entries@, r);
            }
        }
        true
    }

    /// Takes a record in that a member brings, if its version is one that the member may bring,
    /// and writes down who brought it.
    pub fn take_in(
        self,
        member: &Membership,
        known: &Vec<ReplicaId>,
        record: &SyncRecord,
        now: u64,
    ) -> (state: Result<Self, ShareError>)
        requires
            self.wf(),
            ascending(known@),
        ensures
            ({
                let next = taken_in(self@, *member, record@, now);
                let fits = state_bytes(next, entries_of(next.ceilings)).len() <= MAX_STATE_BYTES;
                let allowed = version_allowed(
                    self@,
                    *member,
                    table(known@).dom(),
                    record@.version,
                );
                match state {
                    Ok(state) => allowed && fits && state.wf() && state@ == next,
                    Err(error) => !(allowed && fits) && error == ShareError::InvalidRecord,
                }
            }),
    {
        let entries = record.version.entries();
        proof {
            lemma_listed(entries@);
            lemma_counters(entries@);
        }
        if entries.len() > MAX_REPLICAS || version_size(entries) > MAX_VERSION_BYTES {
            return Err(ShareError::InvalidRecord);
        }
        if !self.allows(member, known, entries) {
            return Err(ShareError::InvalidRecord);
        }
        let ghost start = self@;
        let mut ceilings = self.ceilings;
        raise_all(&mut ceilings, entries);
        let record_hash = record.logical_hash();
        proof {
            lemma_hash_with(record_hash);
        }
        let operation: String = if record.tombstone {
            "delete".to_owned()
        } else {
            "adopt".to_owned()
        };
        let change = MutationProvenance {
            peer: member.endpoint,
            membership_epoch: member.epoch,
            path: record.path.clone(),
            operation,
            record_hash,
            accepted_at: now,
        };
        let mut audit = self.audit;
        let ghost before = audit@;
        let ghost said = change@;
        audit.push(change);
        proof {
            assert(audit_views(audit@) =~= start.audit.push(said));
        }
        if audit.len() > MAX_AUDIT {
            let ghost longer = audit@;
            audit.remove(0);
            proof {
                assert(audit_views(audit@) =~= audit_views(longer).skip(1));
            }
        }
        let state = CausalState {
            version: self.version,
            share: self.share,
            owner_replica: self.owner_replica,
            ceilings,
            audit,
        };
        proof {
            assert(state@ =~= taken_in(start, *member, record@, now));
        }
        if state.size() > MAX_STATE_BYTES {
            return Err(ShareError::InvalidRecord);
        }
        Ok(state)
    }
}

/// Why a device that was authenticated under an epoch may not go on.
pub open spec fn continuing_fault(
    catalog: CatalogView,
    enabled: bool,
    share: ShareId,
    peer: EndpointId,
    epoch: u64,
    write: bool,
) -> Option<ShareError> {
    if !enabled {
        Some(ShareError::Busy)
    } else if access_fault(catalog, share, peer, write) is Some {
        access_fault(catalog, share, peer, write)
    } else if member_of(catalog, share, peer).epoch != epoch {
        Some(ShareError::MemberRevoked)
    } else {
        None
    }
}

/// Checks that a device that was authenticated under an epoch may go on.
pub fn check_authorization(
    registry: &Registry,
    enabled: bool,
    share: ShareId,
    peer: EndpointId,
    epoch: u64,
    write: bool,
) -> (member: Result<Membership, ShareError>)
    requires
        registry.wf(),
    ensures
        match member {
            Ok(member) => continuing_fault(
                registry@.catalog,
                enabled,
                share,
                peer,
                epoch,
                write,
            ) is None && member == member_of(registry@.catalog, share, peer),
            Err(error) => continuing_fault(
                registry@.catalog,
                enabled,
                share,
                peer,
                epoch,
                write,
            ) == Some(error),
        },
{
    if !enabled {
        return Err(ShareError::Busy);
    }
    match registry.authorize(share, peer, write) {
        Ok(member) => if member.epoch != epoch {
            Err(ShareError::MemberRevoked)
        } else {
            Ok(member)
        },
        Err(error) => Err(error),
    }
}

/// A member cannot move the count of another replica beyond what the share has seen.
pub proof fn law_member_cannot_forge_another_replica(
    s: CausalView,
    member: Membership,
    known: Set<Seq<u8>>,
    record: RecordView,
    now: u64,
    replica: Seq<u8>,
)
    requires
        version_allowed(s, member, known, record.version),
        replica != member.replica@,
        replica != resolver_id(),
    ensures
        counter_of(taken_in(s, member, record, now).ceilings, replica) == counter_of(
            s.ceilings,
            replica,
        ),
{
    if record.version.contains_key(replica) {
        assert(count_allowed(s, member, known, replica, record.version[replica]));
    }
}

/// Taking a record in never lowers what was seen of any replica.
pub proof fn law_ceilings_never_fall(
    s: CausalView,
    member: Membership,
    record: RecordView,
    now: u64,
    replica: Seq<u8>,
)
    ensures
        counter_of(s.ceilings, replica) <= counter_of(
            taken_in(s, member, record, now).ceilings,
            replica,
        ),
{
}

} // verus!
