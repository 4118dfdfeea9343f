//! Which records an owner takes in from a member, and what it keeps of them.
use vstd::prelude::*;

use crate::hash::{hash_with, ReplicaId};
use crate::reconcile::{resolved, resolver_id, ConflictReason, MergeState, ReconcileError};
use crate::record::{logical_digest, RecordView};
use crate::share::authority::counter_bytes;
use crate::share::catalog::{CatalogView, Membership, OwnedShareConfig};
use crate::share::causal::{
    continuing_fault, count_allowed, entries_of, raised_by, refreshed_ceilings, state_bytes,
    state_fits, taken_in, version_allowed, CausalState, CausalView,
};
use crate::share::codec::varint;
use crate::share::error::ShareError;
use crate::share::identity::{EndpointId, Permission, ShareId};
use crate::share::owner::{brings, known_after, refreshed_state, refreshing_fault, with_known};
use crate::share::registry::RegistryView;
use crate::version::{counter_of, joined, listed, Counters};

verus! {

/// The version is of a size that is taken: at most 4096 replicas, and at most 262144 bytes.
pub open spec fn version_is_small(version: Counters) -> bool {
    &&& version.dom().len() <= 4096
    &&& varint(listed(version).len()).len() + counter_bytes(listed(version)).len() <= 262_144
}

/// The version counts nothing that its bringer could not know: of its own replica as far as it
/// says, of the resolver at most one further than was seen, of any other replica no further, and
/// of none that the share does not know.
pub open spec fn counts_honestly(
    version: Counters,
    own: ReplicaId,
    ceilings: Counters,
    known: Set<Seq<u8>>,
) -> bool {
    forall|replica: Seq<u8>| #[trigger]
        version.contains_key(replica) ==> {
            &&& known.contains(replica)
            &&& replica == resolver_id() ==> counter_of(ceilings, replica) < u64::MAX
                && counter_of(version, replica) <= counter_of(ceilings, replica) + 1
            &&& replica != resolver_id() && replica != own@ ==> counter_of(version, replica)
                <= counter_of(ceilings, replica)
        }
}

/// A version that counts honestly is one that the member may bring, and no other is: one more
/// resolution than was seen is taken, two more are not, and neither is a count of someone else's
/// work that the share has not seen or of a replica that it does not know.
pub proof fn law_honest_versions_are_allowed(
    s: CausalView,
    member: Membership,
    known: Set<Seq<u8>>,
    version: Counters,
)
    requires
        version_is_small(version),
    ensures
        version_allowed(s, member, known, version) <==> counts_honestly(
            version,
            member.replica,
            s.ceilings,
            known,
        ),
{
    if version_allowed(s, member, known, version) {
        assert forall|replica: Seq<u8>| #[trigger] version.contains_key(replica) implies {
            &&& known.contains(replica)
            &&& replica == resolver_id() ==> counter_of(s.ceilings, replica) < u64::MAX
                && counter_of(version, replica) <= counter_of(s.ceilings, replica) + 1
            &&& replica != resolver_id() && replica != member.replica@ ==> counter_of(
                version,
                replica,
            ) <= counter_of(s.ceilings, replica)
        } by {
            assert(count_allowed(s, member, known, replica, version[replica]));
        }
    }
    if counts_honestly(version, member.replica, s.ceilings, known) {
        assert forall|replica: Seq<u8>| version.contains_key(replica) implies count_allowed(
            s,
            member,
            known,
            replica,
            #[trigger] version[replica],
        ) by {}
    }
}

/// What a member has resolved is taken in: the version that a merge gives to a conflict of two
/// records that the share has seen, but for the member's own work in them, is one that the member
/// may bring.
pub proof fn law_resolution_of_a_member_is_allowed(
    s: CausalView,
    member: Membership,
    known: Set<Seq<u8>>,
    state: MergeState,
    after: MergeState,
    left: RecordView,
    right: RecordView,
    reason: ConflictReason,
)
    requires
        left.path == right.path,
        state.occupied.contains(left.path),
        resolved(state, left, right, reason) == Ok::<MergeState, ReconcileError>(after),
        known.contains(resolver_id()),
        counter_of(s.ceilings, resolver_id()) < u64::MAX,
        forall|replica: Seq<u8>| #[trigger] left.version.contains_key(replica) ==> known.contains(
            replica,
        ) && (replica == member.replica@ && replica != resolver_id() || counter_of(
            left.version,
            replica,
        ) <= counter_of(s.ceilings, replica)),
        forall|replica: Seq<u8>| #[trigger] right.version.contains_key(replica) ==> known.contains(
            replica,
        ) && (replica == member.replica@ && replica != resolver_id() || counter_of(
            right.version,
            replica,
        ) <= counter_of(s.ceilings, replica)),
        version_is_small(after.merged[left.path].version),
    ensures
        version_allowed(s, member, known, after.merged[left.path].version),
{
    let version = after.merged[left.path].version;
    let seen = joined(left.version, right.version);
    let loser = if crate::reconcile::left_wins(left, right) {
        right
    } else {
        left
    };
    crate::conflict_path::lemma_allocated_is_free(
        loser.path,
        logical_digest(loser),
        state.occupied,
        0,
    );
    assert(version == seen.insert(
        resolver_id(),
        (counter_of(seen, resolver_id()) + 1) as u64,
    ));
    assert forall|replica: Seq<u8>| #[trigger] version.contains_key(replica) implies {
        &&& known.contains(replica)
        &&& replica == resolver_id() ==> counter_of(s.ceilings, replica) < u64::MAX && counter_of(
            version,
            replica,
        ) <= counter_of(s.ceilings, replica) + 1
        &&& replica != resolver_id() && replica != member.replica@ ==> counter_of(version, replica)
            <= counter_of(s.ceilings, replica)
    } by {
        assert(left.version.contains_key(replica) || right.version.contains_key(replica) || replica
            == resolver_id());
    }
    law_honest_versions_are_allowed(s, member, known, version);
}

/// Taking a record in raises what was seen of every replica to what the record counts, and lowers
/// nothing. The last change that is noted is the one of the record: who brought it under which
/// epoch, of which path, which record, when, and whether it deletes. At most the 512 latest changes
/// are kept, all in their order.
pub proof fn law_record_that_is_taken_in_is_noted(
    s: CausalView,
    member: Membership,
    record: RecordView,
    now: u64,
    replica: Seq<u8>,
)
    requires
        s.audit.len() <= 512,
    ensures
        ({
            let next = taken_in(s, member, record, now);
            let noted = next.audit.last();
            let (old, new) = (
                counter_of(s.ceilings, replica),
                counter_of(record.version, replica),
            );
            &&& counter_of(next.ceilings, replica) >= old
            &&& counter_of(next.ceilings, replica) >= new
            &&& counter_of(next.ceilings, replica) == old || counter_of(next.ceilings, replica)
                == new
            &&& next.version == s.version
            &&& next.share == s.share
            &&& next.owner_replica == s.owner_replica
            &&& 0 < next.audit.len() <= 512
            &&& next.audit.len() == (if s.audit.len() == 512 {
                512
            } else {
                s.audit.len() + 1
            })
            &&& next.audit.drop_last() =~= s.audit.skip(s.audit.len() + 1 - next.audit.len())
            &&& noted.peer == member.endpoint
            &&& noted.membership_epoch == member.epoch
            &&& noted.path == record.path
            &&& noted.accepted_at == now
            &&& noted.record_hash == hash_with(logical_digest(record))
            &&& noted.operation == (if record.tombstone {
                "delete"@
            } else {
                "adopt"@
            })
        }),
{
}

/// How far a replica is taken to have come is how far some record or the state before says, and no
/// record and no state says that it has come further.
pub proof fn law_ceilings_are_what_was_seen(
    s: CausalView,
    records: Seq<RecordView>,
    replica: Seq<u8>,
)
    ensures
        ({
            let seen = counter_of(refreshed_ceilings(s, records), replica);
            &&& seen >= counter_of(s.ceilings, replica)
            &&& forall|i: int|
                0 <= i < records.len() ==> seen >= counter_of(
                    (#[trigger] records[i]).version,
                    replica,
                )
            &&& seen == counter_of(s.ceilings, replica) || exists|i: int|
                0 <= i < records.len() && seen == counter_of(
                    (#[trigger] records[i]).version,
                    replica,
                )
            &&& refreshed_ceilings(s, records).contains_key(s.owner_replica@)
            &&& refreshed_ceilings(s, records).contains_key(resolver_id())
        }),
{
    let start = crate::share::causal::or_zero(
        crate::share::causal::or_zero(s.ceilings, s.owner_replica@),
        resolver_id(),
    );
    assert(counter_of(start, replica) == counter_of(s.ceilings, replica));
    assert(start.contains_key(s.owner_replica@) && start.contains_key(resolver_id()));
    lemma_raised(start, records, replica);
}

proof fn lemma_raised(m: Counters, records: Seq<RecordView>, replica: Seq<u8>)
    ensures
        ({
            let all = raised_by(m, records);
            let seen = counter_of(all, replica);
            &&& seen >= counter_of(m, replica)
            &&& forall|i: int|
                0 <= i < records.len() ==> seen >= counter_of(
                    (#[trigger] records[i]).version,
                    replica,
                )
            &&& seen == counter_of(m, replica) || exists|i: int|
                0 <= i < records.len() && seen == counter_of(
                    (#[trigger] records[i]).version,
                    replica,
                )
            &&& forall|k: Seq<u8>| #[trigger] m.contains_key(k) ==> all.contains_key(k)
        }),
    decreases records.len(),
{
    if records.len() > 0 {
        let less = records.drop_last();
        lemma_raised(m, less, replica);
        let before = raised_by(m, less);
        let all = raised_by(m, records);
        let seen = counter_of(all, replica);
        assert forall|i: int| 0 <= i < records.len() implies seen >= counter_of(
            (#[trigger] records[i]).version,
            replica,
        ) by {
            if i < less.len() {
                assert(less[i] == records[i]);
            }
        }
        if seen == counter_of(before, replica) {
            if seen != counter_of(m, replica) {
                let i = choose|i: int|
                    0 <= i < less.len() && counter_of(before, replica) == counter_of(
                        (#[trigger] less[i]).version,
                        replica,
                    );
                assert(records[i] == less[i]);
            }
        } else {
            assert(seen == counter_of(records[records.len() - 1].version, replica));
        }
    }
}

/// A record that a member brings is taken in: the member is not revoked, may write, and was
/// authenticated under its epoch, the share is open, and the version counts honestly against what
/// the share has seen by then. A member that may not write, is revoked, or counts otherwise is
/// refused, and the reason says so.
pub proof fn law_members_record_is_taken_in(
    before: RegistryView,
    after: RegistryView,
    result: Result<CausalView, ShareError>,
    config: OwnedShareConfig,
    held: CausalState,
    left: CausalState,
    enabled: bool,
    peer: EndpointId,
    epoch: u64,
    records: Seq<RecordView>,
    record: RecordView,
    now: u64,
)
    requires
        brings(
            before,
            after,
            result,
            config,
            held,
            left,
            enabled,
            peer,
            epoch,
            records,
            record,
            now,
        ),
        before.catalog.shares.contains_key(config.share_id@),
        before.catalog.shares[config.share_id@].members.contains_key(peer@),
        version_is_small(record.version),
    ensures
        ({
            let member = before.catalog.shares[config.share_id@].members[peer@];
            let state = refreshed_state(held@, records);
            let next = taken_in(state, member, record, now);
            let known = known_after(before, held@, records);
            let honest = counts_honestly(record.version, member.replica, state.ceilings, known);
            let small = state_bytes(next, entries_of(next.ceilings)).len() <= 2_097_152;
            &&& !enabled ==> result == Err::<CausalView, ShareError>(ShareError::Busy)
            &&& enabled && member.revoked_at is Some ==> result == Err::<CausalView, ShareError>(
                ShareError::MemberRevoked,
            )
            &&& enabled && member.revoked_at is None && member.permission == Permission::ReadOnly
                ==> result == Err::<CausalView, ShareError>(ShareError::PermissionDenied)
            &&& enabled && member.revoked_at is None && member.permission == Permission::ReadWrite
                && member.epoch != epoch ==> result == Err::<CausalView, ShareError>(
                ShareError::MemberRevoked,
            )
            &&& result is Err && refreshing_fault(before, config, held, records) is Some ==> after
                == before
            &&& enabled && member.revoked_at is None && member.permission == Permission::ReadWrite
                && member.epoch == epoch && refreshing_fault(before, config, held, records) is None
                ==> {
                &&& result is Ok <==> honest && small
                &&& result is Ok ==> result->Ok_0 == next
                &&& result is Err ==> result->Err_0 == ShareError::InvalidRecord
                &&& left@.ceilings == state.ceilings
            }
        }),
{
    let member = before.catalog.shares[config.share_id@].members[peer@];
    let state = refreshed_state(held@, records);
    let known = known_after(before, held@, records);
    law_honest_versions_are_allowed(state, member, known, record.version);
    if refreshing_fault(before, config, held, records) is None {
        let s = with_known(before, held@, records);
        assert(s.catalog.shares[state.share@].known == known);
    }
}

/// A state that was read is one of the share exactly if it is of the third version, of that share
/// and that owner's replica, and speaks of no more than 4096 replicas and 512 changes.
pub proof fn law_state_is_of_its_share(s: CausalView, share: ShareId, replica: ReplicaId)
    ensures
        state_fits(s, share, replica) <==> {
            &&& s.version == 3
            &&& s.share == share
            &&& s.owner_replica == replica
            &&& s.ceilings.dom().len() <= 4096
            &&& s.audit.len() <= 512
        },
{
}

/// A device that was let in under an epoch may go on exactly while the share takes requests, the
/// device is a member that is not revoked, under that very epoch, and may write if it is to.
pub proof fn law_member_goes_on_under_its_epoch(
    catalog: CatalogView,
    enabled: bool,
    share: ShareId,
    peer: EndpointId,
    epoch: u64,
    write: bool,
)
    ensures
        continuing_fault(catalog, enabled, share, peer, epoch, write) is None <==> {
            &&& enabled
            &&& catalog.shares.contains_key(share@)
            &&& catalog.shares[share@].members.contains_key(peer@)
            &&& catalog.shares[share@].members[peer@].revoked_at is None
            &&& catalog.shares[share@].members[peer@].epoch == epoch
            &&& write ==> catalog.shares[share@].members[peer@].permission == Permission::ReadWrite
        },
        !enabled ==> continuing_fault(catalog, enabled, share, peer, epoch, write) == Some(
            ShareError::Busy,
        ),
{
}

proof fn lemma_raised_counts(m: Counters, records: Seq<RecordView>, replica: Seq<u8>)
    ensures
        raised_by(m, records).contains_key(replica) <==> m.contains_key(replica) || exists|i: int|
            0 <= i < records.len() && (#[trigger] records[i]).version.contains_key(replica),
    decreases records.len(),
{
    if records.len() > 0 {
        let less = records.drop_last();
        lemma_raised_counts(m, less, replica);
        if exists|i: int|
            0 <= i < less.len() && (#[trigger] less[i]).version.contains_key(replica) {
            let i = choose|i: int|
                0 <= i < less.len() && (#[trigger] less[i]).version.contains_key(replica);
            assert(records[i] == less[i]);
        }
        if exists|i: int|
            0 <= i < records.len() && (#[trigger] records[i]).version.contains_key(replica) {
            let i = choose|i: int|
                0 <= i < records.len() && (#[trigger] records[i]).version.contains_key(replica);
            if i < less.len() {
                assert(less[i] == records[i]);
            }
        }
        assert(records[records.len() - 1] == records.last());
    }
}

/// What a share knows once its records are seen is what it knew, what the state has counted, the
/// owner's replica, the resolver, and every replica that a record counts; nothing else.
pub proof fn law_share_knows_all_that_count(
    s: RegistryView,
    state: CausalView,
    records: Seq<RecordView>,
    replica: Seq<u8>,
)
    ensures
        known_after(s, state, records).contains(replica) <==> {
            ||| s.catalog.shares[state.share@].known.contains(replica)
            ||| state.ceilings.contains_key(replica)
            ||| replica == state.owner_replica@
            ||| replica == resolver_id()
            ||| exists|i: int|
                0 <= i < records.len() && (#[trigger] records[i]).version.contains_key(replica)
        },
        refreshed_state(state, records).share == state.share,
        refreshed_state(state, records).owner_replica == state.owner_replica,
        refreshed_state(state, records).version == state.version,
        refreshed_state(state, records).audit == state.audit,
{
    let start = crate::share::causal::or_zero(
        crate::share::causal::or_zero(state.ceilings, state.owner_replica@),
        resolver_id(),
    );
    lemma_raised_counts(start, records, replica);
}

} // verus!
