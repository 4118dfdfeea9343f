//! What a plan of the scheduler is good for.
use vstd::prelude::*;

use crate::hash::Hash32;
use crate::order::byte_less;
use crate::swarm::{
    assigned_to, best_among, eligible, law_schedule_keeps_its_limits, lemma_best_is_eligible,
    preferred, provider_count, rarest_first, schedule, sources, ChunkAssignment, PeerAvailability,
    SchedulerLimits,
};

verus! {

/// How many chunks a peer is given in a plan.
pub open spec fn given(plan: Seq<ChunkAssignment>, id: Seq<u8>) -> nat {
    plan.filter(|a: ChunkAssignment| a.peer@ == id).len()
}

/// A peer is given some chunk in a plan.
pub open spec fn is_source(plan: Seq<ChunkAssignment>, id: Seq<u8>) -> bool {
    exists|i: int| 0 <= i < plan.len() && (#[trigger] plan[i]).peer@ == id
}

/// How many peers are given a chunk in a plan.
pub open spec fn source_count(plan: Seq<ChunkAssignment>) -> nat {
    Set::new(|id: Seq<u8>| is_source(plan, id)).len()
}

/// How many peers have a chunk.
pub open spec fn holders(peers: Seq<PeerAvailability>, hash: Seq<u8>) -> nat {
    Set::new(|k: int| 0 <= k < peers.len() && peers[k].available@.contains(hash)).len()
}

/// A peer has a chunk, and can be given it on top of a plan within the bounds.
pub open spec fn can_be_given(
    peer: PeerAvailability,
    hash: Seq<u8>,
    plan: Seq<ChunkAssignment>,
    limits: SchedulerLimits,
) -> bool {
    &&& peer.available@.contains(hash)
    &&& given(plan, peer.id@) < limits.max_chunks_per_peer
    &&& is_source(plan, peer.id@) || source_count(plan) < limits.max_sources
}

/// How long, in milliseconds, a peer takes for what is queued for it. A peer without any rate is
/// taken to send a byte in a second.
pub open spec fn waiting(peer: PeerAvailability) -> int {
    peer.queued_bytes * 1000 / (if peer.goodput_bytes_per_second > 0 {
        peer.goodput_bytes_per_second as int
    } else {
        1
    })
}

/// No number of a peer is so large that it is cut off.
pub open spec fn in_range(peer: PeerAvailability, chunks: nat) -> bool {
    &&& peer.queued_bytes * 1000 <= u64::MAX
    &&& peer.rtt_ms + waiting(peer) + peer.failure_penalty * 500 + chunks <= u64::MAX
}

proof fn lemma_given(plan: Seq<ChunkAssignment>, id: Seq<u8>)
    ensures
        assigned_to(plan, id) == given(plan, id),
    decreases plan.len(),
{
    reveal(Seq::filter);
    if plan.len() > 0 {
        lemma_given(plan.drop_last(), id);
    }
}

proof fn lemma_sources(plan: Seq<ChunkAssignment>)
    ensures
        sources(plan) == Set::new(|id: Seq<u8>| is_source(plan, id)),
        sources(plan).len() == source_count(plan),
    decreases plan.len(),
{
    let all = Set::new(|id: Seq<u8>| is_source(plan, id));
    if plan.len() > 0 {
        let less = plan.drop_last();
        lemma_sources(less);
        assert forall|id: Seq<u8>| #[trigger] sources(plan).contains(id) == all.contains(id) by {
            if is_source(plan, id) {
                let i = choose|i: int| 0 <= i < plan.len() && (#[trigger] plan[i]).peer@ == id;
                if i < less.len() {
                    assert(less[i].peer@ == id);
                }
            }
            if is_source(less, id) {
                let i = choose|i: int| 0 <= i < less.len() && (#[trigger] less[i]).peer@ == id;
                assert(plan[i].peer@ == id);
            }
            if id == plan.last().peer@ {
                assert(plan[plan.len() - 1].peer@ == id);
            }
        }
    }
    assert(sources(plan) =~= all);
}

proof fn lemma_can_be_given(
    peer: PeerAvailability,
    hash: Seq<u8>,
    plan: Seq<ChunkAssignment>,
    limits: SchedulerLimits,
)
    ensures
        eligible(peer, hash, plan, limits) == can_be_given(peer, hash, plan, limits),
{
    lemma_given(plan, peer.id@);
    lemma_sources(plan);
}

proof fn lemma_holders(peers: Seq<PeerAvailability>, hash: Seq<u8>)
    ensures
        provider_count(peers, hash) == holders(peers, hash),
        Set::new(|k: int| 0 <= k < peers.len() && peers[k].available@.contains(hash)).finite(),
    decreases peers.len(),
{
    let all = Set::new(|k: int| 0 <= k < peers.len() && peers[k].available@.contains(hash));
    if peers.len() == 0 {
        assert(all =~= Set::empty());
    } else {
        let less = peers.drop_last();
        let rest = Set::new(|k: int| 0 <= k < less.len() && less[k].available@.contains(hash));
        lemma_holders(less, hash);
        if peers.last().available@.contains(hash) {
            assert(all =~= rest.insert(peers.len() - 1));
        } else {
            assert(all =~= rest);
        }
    }
}

/// Where an assignment of a plan comes from: the chunk that was next, given to the preferred peer
/// on top of the assignments before it.
proof fn lemma_assignment(
    ordered: Seq<Hash32>,
    peers: Seq<PeerAvailability>,
    limits: SchedulerLimits,
    i: int,
) -> (n: int)
    requires
        0 <= i < schedule(ordered, peers, limits).len(),
    ensures
        ({
            let plan = schedule(ordered, peers, limits);
            let best = best_among(peers, peers.len(), plan[i].hash@, plan.take(i), limits);
            &&& 0 <= n < ordered.len()
            &&& ordered[n] == plan[i].hash
            &&& schedule(ordered.take(n), peers, limits) == plan.take(i)
            &&& 0 <= best < peers.len()
            &&& plan[i].peer == peers[best].id
        }),
    decreases ordered.len(),
{
    let plan = schedule(ordered, peers, limits);
    let less = ordered.drop_last();
    let before = schedule(less, peers, limits);
    let hash = ordered.last();
    lemma_best_is_eligible(peers, peers.len(), hash@, before, limits);
    if i < before.len() {
        let n = lemma_assignment(less, peers, limits, i);
        assert(plan.take(i) =~= before.take(i));
        assert(ordered.take(n) =~= less.take(n));
        n
    } else {
        assert(plan.take(i) =~= before);
        assert(ordered.take(ordered.len() - 1) =~= less);
        ordered.len() - 1
    }
}

/// What comes later in the order is planned later.
proof fn lemma_prefix(
    ordered: Seq<Hash32>,
    peers: Seq<PeerAvailability>,
    limits: SchedulerLimits,
    n: int,
)
    requires
        0 <= n <= ordered.len(),
    ensures
        ({
            let plan = schedule(ordered, peers, limits);
            let before = schedule(ordered.take(n), peers, limits);
            before.len() <= plan.len() && before == plan.take(before.len() as int)
        }),
    decreases ordered.len() - n,
{
    let plan = schedule(ordered, peers, limits);
    let before = schedule(ordered.take(n), peers, limits);
    if n == ordered.len() {
        assert(ordered.take(n) =~= ordered);
        assert(plan.take(plan.len() as int) =~= plan);
    } else {
        lemma_prefix(ordered, peers, limits, n + 1);
        let next = schedule(ordered.take(n + 1), peers, limits);
        assert(ordered.take(n + 1).drop_last() =~= ordered.take(n));
        assert(before =~= next.take(before.len() as int));
        assert(before =~= plan.take(before.len() as int));
    }
}

/// Each chunk goes to the peer that has it soonest. For every peer that could be given the chunk in
/// its place, the one that is given it takes no longer: by its round trip, what is queued for it,
/// half a second for each point of its failures, and a millisecond for each chunk that it was given
/// before. Of two that take as long, the one with fewer chunks is given it, and then the one with
/// the smaller identifier.
pub proof fn law_chunk_goes_to_the_soonest_peer(
    ordered: Seq<Hash32>,
    peers: Seq<PeerAvailability>,
    limits: SchedulerLimits,
    i: int,
    q: int,
) -> (p: int)
    requires
        0 <= i < schedule(ordered, peers, limits).len(),
        0 <= q < peers.len(),
        can_be_given(
            peers[q],
            schedule(ordered, peers, limits)[i].hash@,
            schedule(ordered, peers, limits).take(i),
            limits,
        ),
        forall|k: int|
            0 <= k < peers.len() ==> in_range(
                #[trigger] peers[k],
                given(schedule(ordered, peers, limits).take(i), peers[k].id@),
            ),
    ensures
        ({
            let plan = schedule(ordered, peers, limits);
            let (a, b) = (peers[p], peers[q]);
            let (x, y) = (given(plan.take(i), a.id@), given(plan.take(i), b.id@));
            let soonest = a.rtt_ms + waiting(a) + a.failure_penalty * 500 + x;
            let sooner = b.rtt_ms + waiting(b) + b.failure_penalty * 500 + y;
            &&& 0 <= p < peers.len()
            &&& a.id == plan[i].peer
            &&& can_be_given(a, plan[i].hash@, plan.take(i), limits)
            &&& soonest <= sooner
            &&& soonest == sooner ==> x < y || x == y && !byte_less(b.id@, a.id@)
        }),
{
    let plan = schedule(ordered, peers, limits);
    let hash = plan[i].hash@;
    let n = lemma_assignment(ordered, peers, limits, i);
    lemma_best_is_eligible(peers, peers.len(), hash, plan.take(i), limits);
    let p = best_among(peers, peers.len(), hash, plan.take(i), limits);
    lemma_can_be_given(peers[p], hash, plan.take(i), limits);
    lemma_can_be_given(peers[q], hash, plan.take(i), limits);
    lemma_given(plan.take(i), peers[p].id@);
    lemma_given(plan.take(i), peers[q].id@);
    assert(in_range(peers[p], given(plan.take(i), peers[p].id@)));
    assert(in_range(peers[q], given(plan.take(i), peers[q].id@)));
    assert(!preferred(peers[q], peers[p], plan.take(i)));
    p
}

/// Each signal of a peer counts. A peer that could be given a chunk is passed over only for one that
/// is better in some signal: with the same round trip and as many chunks given before, one that
/// fails less or has less queued is given the chunk, whatever its rate and its queue are made of;
/// and against another peer with the same queue and as many chunks, one point of failures counts as
/// just 500 milliseconds of the round trip.
pub proof fn law_every_signal_of_a_peer_counts(
    ordered: Seq<Hash32>,
    peers: Seq<PeerAvailability>,
    limits: SchedulerLimits,
    i: int,
    q: int,
) -> (p: int)
    requires
        0 <= i < schedule(ordered, peers, limits).len(),
        0 <= q < peers.len(),
        can_be_given(
            peers[q],
            schedule(ordered, peers, limits)[i].hash@,
            schedule(ordered, peers, limits).take(i),
            limits,
        ),
        forall|k: int|
            0 <= k < peers.len() ==> in_range(
                #[trigger] peers[k],
                given(schedule(ordered, peers, limits).take(i), peers[k].id@),
            ),
    ensures
        ({
            let plan = schedule(ordered, peers, limits);
            let (a, b) = (peers[p], peers[q]);
            let (x, y) = (given(plan.take(i), a.id@), given(plan.take(i), b.id@));
            &&& 0 <= p < peers.len()
            &&& a.id == plan[i].peer
            &&& b.rtt_ms <= a.rtt_ms && waiting(b) <= waiting(a) && b.failure_penalty
                <= a.failure_penalty && y <= x ==> b.rtt_ms == a.rtt_ms && waiting(b) == waiting(a)
                && b.failure_penalty == a.failure_penalty && y == x
            &&& waiting(a) == waiting(b) && x == y ==> a.rtt_ms + 500 * a.failure_penalty
                <= b.rtt_ms + 500 * b.failure_penalty
            &&& a.failure_penalty == b.failure_penalty && x == y ==> a.rtt_ms + waiting(a)
                <= b.rtt_ms + waiting(b)
            &&& a.rtt_ms == b.rtt_ms && a.failure_penalty == b.failure_penalty ==> waiting(a) + x
                <= waiting(b) + y
        }),
{
    law_chunk_goes_to_the_soonest_peer(ordered, peers, limits, i, q)
}

/// Chunks are planned rarest first: of two that are planned, fewer peers have the first one, or as
/// many have both and the second does not come before it by its digest.
pub proof fn law_rarest_chunks_are_planned_first(
    ordered: Seq<Hash32>,
    missing: Seq<Hash32>,
    peers: Seq<PeerAvailability>,
    limits: SchedulerLimits,
    i: int,
    j: int,
)
    requires
        rarest_first(ordered, missing, peers),
        0 <= i < j < schedule(ordered, peers, limits).len(),
    ensures
        ({
            let plan = schedule(ordered, peers, limits);
            let (a, b) = (plan[i].hash@, plan[j].hash@);
            &&& holders(peers, a) <= holders(peers, b)
            &&& holders(peers, a) == holders(peers, b) ==> !byte_less(b, a)
            &&& missing.contains(plan[i].hash)
            &&& missing.contains(plan[j].hash)
        }),
{
    let plan = schedule(ordered, peers, limits);
    let m = lemma_assignment(ordered, peers, limits, i);
    let n = lemma_assignment(ordered, peers, limits, j);
    if n <= m {
        let part = ordered.take(m);
        lemma_prefix(part, peers, limits, n);
        assert(part.take(n) =~= ordered.take(n));
        assert(plan.take(j).len() <= plan.take(i).len());
    }
    lemma_holders(peers, plan[i].hash@);
    lemma_holders(peers, plan[j].hash@);
    assert(!crate::swarm::rarer(peers, ordered[n]@, ordered[m]@));
    ordered.to_multiset_ensures();
    missing.to_multiset_ensures();
    assert(ordered.contains(ordered[m]) && ordered.contains(ordered[n]));
    assert(missing.to_multiset().count(ordered[m]) > 0);
    assert(missing.to_multiset().count(ordered[n]) > 0);
}

/// No peer is left idle: while the plan is not full, every chunk of which some holder could still be
/// given one more is planned.
pub proof fn law_chunk_that_can_be_given_is_given(
    ordered: Seq<Hash32>,
    peers: Seq<PeerAvailability>,
    limits: SchedulerLimits,
    n: int,
    q: int,
)
    requires
        schedule(ordered, peers, limits).len() < limits.max_assignments,
        0 <= n < ordered.len(),
        0 <= q < peers.len(),
        can_be_given(peers[q], ordered[n]@, schedule(ordered, peers, limits), limits),
    ensures
        exists|i: int|
            0 <= i < schedule(ordered, peers, limits).len() && (#[trigger] schedule(
                ordered,
                peers,
                limits,
            )[i]).hash == ordered[n],
{
    let plan = schedule(ordered, peers, limits);
    let before = schedule(ordered.take(n), peers, limits);
    let next = schedule(ordered.take(n + 1), peers, limits);
    let id = peers[q].id@;
    assert(ordered.take(n + 1).drop_last() =~= ordered.take(n));
    assert(ordered.take(n + 1).last() == ordered[n]);
    lemma_prefix(ordered, peers, limits, n);
    lemma_prefix(ordered, peers, limits, n + 1);
    lemma_given_grows(plan, before.len() as int, id);
    lemma_given(before, id);
    lemma_given(plan, id);
    lemma_sources(before);
    lemma_sources(plan);
    law_schedule_keeps_its_limits(ordered, peers, limits, id);
    assert(sources(before).subset_of(sources(plan))) by {
        assert forall|other: Seq<u8>| sources(before).contains(other) implies sources(
            plan,
        ).contains(other) by {
            let k = choose|k: int| 0 <= k < before.len() && (#[trigger] before[k]).peer@ == other;
            assert(plan[k].peer@ == other);
        }
    }
    vstd::set_lib::lemma_len_subset(sources(before), sources(plan));
    if !sources(before).contains(id) && sources(plan).contains(id) {
        vstd::set_lib::lemma_set_subset_finite(sources(plan), sources(before));
        vstd::set_lib::lemma_len_subset(sources(before).insert(id), sources(plan));
    }
    assert(eligible(peers[q], ordered[n]@, before, limits));
    lemma_best_is_eligible(peers, peers.len(), ordered[n]@, before, limits);
    assert(next.len() == before.len() + 1);
    assert(next.last().hash == ordered[n]);
    assert(plan.take(next.len() as int)[before.len() as int] == next[before.len() as int]);
    assert(plan[before.len() as int].hash == ordered[n]);
}

proof fn lemma_given_grows(plan: Seq<ChunkAssignment>, n: int, id: Seq<u8>)
    requires
        0 <= n <= plan.len(),
    ensures
        given(plan.take(n), id) <= given(plan, id),
    decreases plan.len() - n,
{
    if n == plan.len() {
        assert(plan.take(n) =~= plan);
    } else {
        lemma_given_grows(plan, n + 1, id);
        reveal(Seq::filter);
        assert(plan.take(n + 1).drop_last() =~= plan.take(n));
    }
}

} // verus!
