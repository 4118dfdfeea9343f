//! Bounded, deterministic multi-peer chunk scheduling.
use vstd::prelude::*;

use crate::hash::{blake3_digest, le_bytes, push_bytes, push_le, Hash32};
use crate::order::{byte_less, lemma_byte_less_asym, lemma_byte_less_total, lemma_byte_less_trans};
use crate::table::{
    ascending, has_key, holds, lemma_table_empty, lemma_table_size, put, table, Keyed,
};

verus! {

/// A set of chunk digests.
#[derive(Debug, PartialEq, Eq)]
pub struct ChunkSet {
    hashes: Vec<Hash32>,
}

impl View for ChunkSet {
    type V = Set<Seq<u8>>;

    closed spec fn view(&self) -> Set<Seq<u8>> {
        Set::new(|hash: Seq<u8>| has_key(self.hashes@, hash))
    }
}

impl ChunkSet {
    #[verifier::type_invariant]
    spec fn inv(&self) -> bool {
        ascending(self.hashes@)
    }

    /// The set of some digests.
    pub fn from_hashes(hashes: &[Hash32]) -> (set: Self)
        ensures
            forall|hash: Seq<u8>| #[trigger]
                set@.contains(hash) <==> exists|i: int|
                    0 <= i < hashes@.len() && #[trigger] hashes@[i]@ == hash,
    {
        let mut sorted: Vec<Hash32> = Vec::new();
        proof {
            lemma_table_empty::<Hash32>();
        }
        let mut i: usize = 0;
        while i < hashes.len()
            invariant
                i <= hashes@.len(),
                ascending(sorted@),
                forall|hash: Seq<u8>| #[trigger]
                    has_key(sorted@, hash) <==> exists|k: int|
                        0 <= k < i && #[trigger] hashes@[k]@ == hash,
            decreases hashes@.len() - i,
        {
            let ghost before = sorted@;
            let item = hashes[i];
            put(&mut sorted, item);
            proof {
                assert forall|hash: Seq<u8>| #[trigger]
                    has_key(sorted@, hash) <==> exists|k: int|
                        0 <= k < i + 1 && #[trigger] hashes@[k]@ == hash by {
                    assert(table(sorted@).contains_key(hash) == has_key(sorted@, hash));
                    assert(table(before).contains_key(hash) == has_key(before, hash));
                    if hash == item@ {
                        assert(hashes@[i as int]@ == hash);
                    }
                }
            }
            i = i + 1;
        }
        let set = ChunkSet { hashes: sorted };
        proof {
            assert forall|hash: Seq<u8>| #[trigger]
                set@.contains(hash) <==> exists|k: int|
                    0 <= k < hashes@.len() && #[trigger] hashes@[k]@ == hash by {
                assert(set@.contains(hash) == has_key(set.hashes@, hash));
            }
        }
        set
    }

    /// Whether a digest is in the set.
    pub fn contains(&self, hash: &Hash32) -> (r: bool)
        ensures
            r == self@.contains(hash@),
    {
        proof {
            use_type_invariant(self);
        }
        holds(&self.hashes, hash.key_bytes())
    }
}

/// Chunk availability and transfer health of one authorized peer.
#[derive(Debug, PartialEq, Eq)]
pub struct PeerAvailability {
    /// Stable authenticated peer identifier.
    pub id: Hash32,
    /// The chunk digests that the peer advertises.
    pub available: ChunkSet,
    /// Smoothed round-trip time in milliseconds.
    pub rtt_ms: u32,
    /// Bytes already queued for the peer.
    pub queued_bytes: u64,
    /// Smoothed verified payload rate.
    pub goodput_bytes_per_second: u64,
    /// Smoothed failure penalty.
    pub failure_penalty: u32,
}

/// Hard bounds of one scheduler pass.
#[derive(Clone, Copy, Debug, PartialEq, Eq, Structural)]
pub struct SchedulerLimits {
    /// Most peers that are used as sources.
    pub max_sources: usize,
    /// Most chunks that are assigned to one peer.
    pub max_chunks_per_peer: usize,
    /// Most assignments of one pass.
    pub max_assignments: usize,
}

impl Default for SchedulerLimits {
    fn default() -> (limits: Self)
        ensures
            limits.max_sources == 8,
            limits.max_chunks_per_peer == 8,
            limits.max_assignments == 64,
    {
        SchedulerLimits { max_sources: 8, max_chunks_per_peer: 8, max_assignments: 64 }
    }
}

/// One chunk assigned to one peer.
#[derive(Clone, Copy, Debug, PartialEq, Eq)]
pub struct ChunkAssignment {
    /// The missing chunk.
    pub hash: Hash32,
    /// The provider selected for it.
    pub peer: Hash32,
}

/// Bounded view of a group of peers.
#[derive(Clone, Debug, PartialEq, Eq)]
pub struct Overlay {
    /// Peers to stay connected to.
    pub active: Vec<Hash32>,
    /// Candidates to fall back on.
    pub passive: Vec<Hash32>,
}

/// The smaller of two numbers.
pub open spec fn at_most(value: int, bound: int) -> int {
    if value < bound {
        value
    } else {
        bound
    }
}

/// How many active peers a group of a size has.
pub open spec fn active_limit(peer_count: int) -> int {
    if peer_count <= 1 {
        peer_count
    } else if peer_count <= 10 {
        at_most(6, peer_count)
    } else if peer_count <= 100 {
        at_most(8, peer_count)
    } else {
        at_most(12, peer_count)
    }
}

/// How many passive peers a group of a size has.
pub open spec fn passive_limit(peer_count: int) -> int {
    let rest = peer_count - active_limit(peer_count);
    if peer_count <= 1 {
        0
    } else if peer_count <= 10 {
        at_most(12, rest)
    } else if peer_count <= 100 {
        at_most(32, rest)
    } else {
        at_most(64, rest)
    }
}

/// The digest that stands for the peer at an index.
pub open spec fn peer_digest(self_id: Seq<u8>, index: int) -> Seq<u8> {
    blake3_digest(self_id + le_bytes(index as u64))
}

/// The bytes of digests.
pub open spec fn hash_views(hashes: Seq<Hash32>) -> Seq<Seq<u8>> {
    Seq::new(hashes.len(), |i: int| hashes[i]@)
}

/// The digests of a group in index order.
pub open spec fn group_digests(self_id: Seq<u8>, peer_count: int) -> Seq<Seq<u8>> {
    Seq::new(peer_count as nat, |i: int| peer_digest(self_id, i))
}

/// No later name comes before an earlier one.
pub open spec fn in_byte_order(names: Seq<Seq<u8>>) -> bool {
    forall|i: int, j: int|
        0 <= i < j < names.len() ==> !byte_less(#[trigger] names[j], #[trigger] names[i])
}

/// The list holds the same names, each as often, in byte order.
pub open spec fn sorts(sorted: Seq<Seq<u8>>, names: Seq<Seq<u8>>) -> bool {
    in_byte_order(sorted) && sorted.to_multiset() == names.to_multiset()
}

/// Puts a digest behind all that do not come after it.
fn insert_sorted(sorted: &mut Vec<Hash32>, hash: Hash32)
    requires
        in_byte_order(hash_views(old(sorted)@)),
    ensures
        in_byte_order(hash_views(final(sorted)@)),
        hash_views(final(sorted)@).to_multiset() == hash_views(
            old(sorted)@,
        ).to_multiset().insert(hash@),
        final(sorted)@.len() == old(sorted)@.len() + 1,
{
    let ghost before = sorted@;
    let ghost names = hash_views(before);
    let mut at: usize = sorted.len();
    while at > 0 && !hash.at_least(&sorted[at - 1])
        invariant
            at <= sorted@.len(),
            sorted@ == before,
            names == hash_views(before),
            in_byte_order(names),
            forall|k: int| at <= k < before.len() ==> byte_less(hash@, #[trigger] names[k]),
        decreases at,
    {
        assert(names[at - 1] == sorted@[at - 1]@);
        at = at - 1;
    }
    sorted.insert(at, hash);
    proof {
        let after = hash_views(sorted@);
        assert(after =~= names.insert(at as int, hash@));
        names.to_multiset_ensures();
        vstd::seq_lib::to_multiset_insert(names, at as int, hash@);
        assert forall|i: int, j: int| 0 <= i < j < after.len() implies !byte_less(
            #[trigger] after[j],
            #[trigger] after[i],
        ) by {
            let x = if i < at { i } else { i - 1 };
            let y = if j < at { j } else { j - 1 };
            if i != at && j != at {
                assert(after[i] == names[x] && after[j] == names[y]);
            } else if i == at {
                assert(after[j] == names[y]);
                lemma_byte_less_asym(hash@, names[y]);
            } else {
                assert(after[i] == names[x]);
                if at > 0 {
                    assert(!byte_less(hash@, names[at - 1]));
                    if x < at - 1 && byte_less(hash@, names[x]) {
                        assert(!byte_less(names[at - 1], names[x]));
                        lemma_byte_less_total(names[at - 1], names[x]);
                        lemma_byte_less_trans(hash@, names[x], names[at - 1]);
                    }
                }
            }
        }
    }
}

/// What the overlay of a group is: the digests of its peers in byte order, the first ones active,
/// the next ones passive.
pub open spec fn is_overlay(overlay: Overlay, self_id: Seq<u8>, peer_count: int) -> bool {
    exists|sorted: Seq<Seq<u8>>|
        {
            &&& #[trigger] sorts(sorted, group_digests(self_id, peer_count))
            &&& hash_views(overlay.active@) == sorted.take(active_limit(peer_count))
            &&& hash_views(overlay.passive@) == sorted.skip(active_limit(peer_count)).take(
                passive_limit(peer_count),
            )
        }
}

/// Builds the bounded view of a group of a size.
pub fn build_overlay(self_id: Hash32, peer_count: usize) -> (overlay: Overlay)
    ensures
        is_overlay(overlay, self_id@, peer_count as int),
        overlay.active@.len() == active_limit(peer_count as int),
        overlay.passive@.len() == passive_limit(peer_count as int),
{
    let active_count: usize = if peer_count <= 1 {
        peer_count
    } else if peer_count <= 10 {
        if peer_count < 6 {
            peer_count
        } else {
            6
        }
    } else if peer_count <= 100 {
        8
    } else {
        12
    };
    let rest: usize = peer_count - active_count;
    let most: usize = if peer_count <= 1 {
        0
    } else if peer_count <= 10 {
        12
    } else if peer_count <= 100 {
        32
    } else {
        64
    };
    let passive_count: usize = if rest < most {
        rest
    } else {
        most
    };
    assert(active_count == active_limit(peer_count as int));
    assert(passive_count == passive_limit(peer_count as int));
    let mut sorted: Vec<Hash32> = Vec::new();
    let ghost all = group_digests(self_id@, peer_count as int);
    proof {
        assert(all.take(0) =~= hash_views(sorted@));
    }
    let mut i: usize = 0;
    while i < peer_count
        invariant
            i <= peer_count,
            all == group_digests(self_id@, peer_count as int),
            sorted@.len() == i,
            sorts(hash_views(sorted@), all.take(i as int)),
        decreases peer_count - i,
    {
        let mut seed: Vec<u8> = Vec::new();
        push_bytes(&mut seed, self_id.bytes.as_slice());
        push_le(&mut seed, i as u64);
        assert(seed@ =~= self_id@ + le_bytes(i as u64));
        insert_sorted(&mut sorted, Hash32::digest(seed.as_slice()));
        proof {
            assert(all.take(i + 1) =~= all.take(i as int).push(all[i as int]));
            all.take(i as int).to_multiset_ensures();
        }
        i = i + 1;
    }
    proof {
        assert(all.take(i as int) =~= all);
    }
    let ghost names = hash_views(sorted@);
    let mut active: Vec<Hash32> = Vec::new();
    let mut passive: Vec<Hash32> = Vec::new();
    let mut k: usize = 0;
    while k < active_count
        invariant
            k <= active_count <= sorted@.len(),
            active@ == sorted@.take(k as int),
        decreases active_count - k,
    {
        active.push(sorted[k]);
        k = k + 1;
        assert(active@ =~= sorted@.take(k as int));
    }
    let end: usize = active_count + passive_count;
    assert(passive@ =~= sorted@.skip(active_count as int).take(0));
    while k < end
        invariant
            active_count <= k <= end <= sorted@.len(),
            passive@ == sorted@.skip(active_count as int).take(k - active_count),
        decreases end - k,
    {
        passive.push(sorted[k]);
        k = k + 1;
        assert(passive@ =~= sorted@.skip(active_count as int).take(k - active_count));
    }
    proof {
        assert(hash_views(active@) =~= names.take(active_count as int));
        assert(hash_views(passive@) =~= names.skip(active_count as int).take(
            passive_count as int,
        ));
        assert(sorts(names, group_digests(self_id@, peer_count as int)));
    }
    Overlay { active, passive }
}

/// The overlay stays bounded, however large the group: at most twelve active and sixty-four
/// passive peers, and never more than the group has.
pub proof fn law_overlay_stays_bounded(peer_count: int)
    requires
        0 <= peer_count,
    ensures
        0 <= active_limit(peer_count) <= 12,
        0 <= passive_limit(peer_count) <= 64,
        active_limit(peer_count) + passive_limit(peer_count) <= peer_count,
        peer_count > 0 ==> active_limit(peer_count) > 0,
{
}

/// How many peers have a chunk.
pub open spec fn provider_count(peers: Seq<PeerAvailability>, hash: Seq<u8>) -> nat
    decreases peers.len(),
{
    if peers.len() == 0 {
        0
    } else {
        provider_count(peers.drop_last(), hash) + if peers.last().available@.contains(hash) {
            1nat
        } else {
            0
        }
    }
}

/// A chunk comes before another: fewer peers have it, or as many and its digest is smaller.
pub open spec fn rarer(peers: Seq<PeerAvailability>, a: Seq<u8>, b: Seq<u8>) -> bool {
    provider_count(peers, a) < provider_count(peers, b) || (provider_count(peers, a)
        == provider_count(peers, b) && byte_less(a, b))
}

/// No later chunk comes before an earlier one.
pub open spec fn rarest_in_front(peers: Seq<PeerAvailability>, hashes: Seq<Hash32>) -> bool {
    forall|i: int, j: int|
        0 <= i < j < hashes.len() ==> !rarer(
            peers,
            (#[trigger] hashes[j])@,
            (#[trigger] hashes[i])@,
        )
}

/// The same chunks, each as often, rarest first.
pub open spec fn rarest_first(
    ordered: Seq<Hash32>,
    missing: Seq<Hash32>,
    peers: Seq<PeerAvailability>,
) -> bool {
    rarest_in_front(peers, ordered) && ordered.to_multiset() == missing.to_multiset()
}

/// How many chunks a peer has been assigned.
pub open spec fn assigned_to(assignments: Seq<ChunkAssignment>, peer: Seq<u8>) -> nat
    decreases assignments.len(),
{
    if assignments.len() == 0 {
        0
    } else {
        assigned_to(assignments.drop_last(), peer) + if assignments.last().peer@ == peer {
            1nat
        } else {
            0
        }
    }
}

/// The peers that have been assigned a chunk.
pub open spec fn sources(assignments: Seq<ChunkAssignment>) -> Set<Seq<u8>>
    decreases assignments.len(),
{
    if assignments.len() == 0 {
        Set::empty()
    } else {
        sources(assignments.drop_last()).insert(assignments.last().peer@)
    }
}

/// The largest 64-bit number, or the value if that is smaller.
pub open spec fn capped(value: int) -> int {
    at_most(value, u64::MAX as int)
}

/// What it costs to fetch one more chunk from a peer, in milliseconds: the round trip, the time
/// its queue takes, half a second for each failure point, and one for each chunk assigned.
pub open spec fn peer_cost(peer: PeerAvailability, assigned: nat) -> int {
    let goodput = if peer.goodput_bytes_per_second == 0 {
        1
    } else {
        peer.goodput_bytes_per_second as int
    };
    capped(
        peer.rtt_ms + capped(peer.queued_bytes * 1000) / goodput + peer.failure_penalty * 500
            + assigned,
    )
}

/// The peer may be given the chunk: it has it, and no bound stands against it.
pub open spec fn eligible(
    peer: PeerAvailability,
    hash: Seq<u8>,
    assignments: Seq<ChunkAssignment>,
    limits: SchedulerLimits,
) -> bool {
    &&& peer.available@.contains(hash)
    &&& assigned_to(assignments, peer.id@) < limits.max_chunks_per_peer
    &&& sources(assignments).contains(peer.id@) || sources(assignments).len() < limits.max_sources
}

/// A peer is preferred to another: it costs less, or as much with fewer chunks assigned, or as
/// much with as many and its identifier is smaller.
pub open spec fn preferred(
    a: PeerAvailability,
    b: PeerAvailability,
    assignments: Seq<ChunkAssignment>,
) -> bool {
    let na = assigned_to(assignments, a.id@);
    let nb = assigned_to(assignments, b.id@);
    let ca = peer_cost(a, na);
    let cb = peer_cost(b, nb);
    ca < cb || (ca == cb && (na < nb || (na == nb && byte_less(a.id@, b.id@))))
}

/// The position of the preferred peer among the first `n`, or -1 if none may be given the chunk.
pub open spec fn best_among(
    peers: Seq<PeerAvailability>,
    n: nat,
    hash: Seq<u8>,
    assignments: Seq<ChunkAssignment>,
    limits: SchedulerLimits,
) -> int
    decreases n,
{
    if n == 0 {
        -1
    } else {
        let best = best_among(peers, (n - 1) as nat, hash, assignments, limits);
        if !eligible(peers[n - 1], hash, assignments, limits) {
            best
        } else if best < 0 || preferred(peers[n - 1], peers[best], assignments) {
            n - 1
        } else {
            best
        }
    }
}

/// The assignments after one more chunk has been looked at.
pub open spec fn schedule_step(
    assignments: Seq<ChunkAssignment>,
    hash: Hash32,
    peers: Seq<PeerAvailability>,
    limits: SchedulerLimits,
) -> Seq<ChunkAssignment> {
    let best = best_among(peers, peers.len(), hash@, assignments, limits);
    if assignments.len() >= limits.max_assignments || best < 0 {
        assignments
    } else {
        assignments.push(ChunkAssignment { hash, peer: peers[best].id })
    }
}

/// The assignments for chunks in an order.
pub open spec fn schedule(
    ordered: Seq<Hash32>,
    peers: Seq<PeerAvailability>,
    limits: SchedulerLimits,
) -> Seq<ChunkAssignment>
    decreases ordered.len(),
{
    if ordered.len() == 0 {
        Seq::empty()
    } else {
        schedule_step(
            schedule(ordered.drop_last(), peers, limits),
            ordered.last(),
            peers,
            limits,
        )
    }
}

fn count_providers(peers: &Vec<PeerAvailability>, hash: &Hash32) -> (n: usize)
    ensures
        n == provider_count(peers@, hash@),
{
    let mut n: usize = 0;
    let mut i: usize = 0;
    while i < peers.len()
        invariant
            i <= peers@.len(),
            n <= i,
            n == provider_count(peers@.take(i as int), hash@),
        decreases peers@.len() - i,
    {
        proof {
            assert(peers@.take(i + 1).drop_last() =~= peers@.take(i as int));
        }
        if peers[i].available.contains(hash) {
            n = n + 1;
        }
        i = i + 1;
    }
    assert(peers@.take(i as int) =~= peers@);
    n
}

fn is_rarer(peers: &Vec<PeerAvailability>, a: &Hash32, na: usize, b: &Hash32, nb: usize) -> (r: bool)
    requires
        na == provider_count(peers@, a@),
        nb == provider_count(peers@, b@),
    ensures
        r == rarer(peers@, a@, b@),
{
    na < nb || (na == nb && !a.at_least(b))
}

/// Puts the missing chunks in order, rarest first.
fn order_rarest(missing: &[Hash32], peers: &Vec<PeerAvailability>) -> (ordered: Vec<Hash32>)
    ensures
        rarest_first(ordered@, missing@, peers@),
{
    let mut ordered: Vec<Hash32> = Vec::new();
    let mut counts: Vec<usize> = Vec::new();
    let mut i: usize = 0;
    proof {
        assert(missing@.take(0) =~= ordered@);
    }
    while i < missing.len()
        invariant
            i <= missing@.len(),
            counts@.len() == ordered@.len(),
            forall|k: int|
                0 <= k < ordered@.len() ==> counts@[k] == provider_count(
                    peers@,
                    (#[trigger] ordered@[k])@,
                ),
            rarest_in_front(peers@, ordered@),
            ordered@.to_multiset() == missing@.take(i as int).to_multiset(),
        decreases missing@.len() - i,
    {
        let hash = missing[i];
        let count = count_providers(peers, &hash);
        let ghost before = ordered@;
        let mut at: usize = ordered.len();
        while at > 0 && is_rarer(peers, &hash, count, &ordered[at - 1], counts[at - 1])
            invariant
                at <= ordered@.len(),
                ordered@ == before,
                counts@.len() == ordered@.len(),
                count == provider_count(peers@, hash@),
                forall|k: int|
                    0 <= k < ordered@.len() ==> counts@[k] == provider_count(
                        peers@,
                        (#[trigger] ordered@[k])@,
                    ),
                forall|k: int|
                    at <= k < before.len() ==> rarer(peers@, hash@, (#[trigger] before[k])@),
            decreases at,
        {
            at = at - 1;
        }
        ordered.insert(at, hash);
        counts.insert(at, count);
        proof {
            let after = ordered@;
            vstd::seq_lib::to_multiset_insert(before, at as int, hash);
            assert(missing@.take(i + 1) =~= missing@.take(i as int).push(hash));
            missing@.take(i as int).to_multiset_ensures();
            assert forall|x: int, y: int| 0 <= x < y < after.len() implies !rarer(
                peers@,
                (#[trigger] after[y])@,
                (#[trigger] after[x])@,
            ) by {
                let bx = if x < at { x } else { x - 1 };
                let by_ = if y < at { y } else { y - 1 };
                if x != at && y != at {
                    assert(after[x] == before[bx] && after[y] == before[by_]);
                } else if x == at {
                    assert(after[y] == before[by_]);
                    lemma_byte_less_asym(hash@, before[by_]@);
                } else {
                    assert(after[x] == before[bx]);
                    if at > 0 {
                        lemma_rarer_chain(peers@, hash@, before, at as int, bx);
                    }
                }
            }
        }
        i = i + 1;
    }
    assert(missing@.take(i as int) =~= missing@);
    ordered
}

proof fn lemma_rarer_chain(
    peers: Seq<PeerAvailability>,
    hash: Seq<u8>,
    before: Seq<Hash32>,
    at: int,
    x: int,
)
    requires
        rarest_in_front(peers, before),
        0 <= x < at <= before.len(),
        !rarer(peers, hash, before[at - 1]@),
    ensures
        !rarer(peers, hash, before[x]@),
{
    if x < at - 1 {
        let a = before[x]@;
        let b = before[at - 1]@;
        assert(!rarer(peers, before[at - 1]@, before[x]@));
        lemma_byte_less_total(b, a);
        lemma_byte_less_trans(hash, a, b);
    }
}

fn count_assigned(assignments: &Vec<ChunkAssignment>, peer: &Hash32) -> (n: usize)
    ensures
        n == assigned_to(assignments@, peer@),
        n <= assignments@.len(),
{
    let mut n: usize = 0;
    let mut i: usize = 0;
    while i < assignments.len()
        invariant
            i <= assignments@.len(),
            n <= i,
            n == assigned_to(assignments@.take(i as int), peer@),
        decreases assignments@.len() - i,
    {
        proof {
            assert(assignments@.take(i + 1).drop_last() =~= assignments@.take(i as int));
            if assignments@[i as int].peer@ == peer@ {
                crate::hash::lemma_hash_view_injective(assignments@[i as int].peer, *peer);
            }
        }
        if assignments[i].peer == *peer {
            n = n + 1;
        }
        i = i + 1;
    }
    assert(assignments@.take(i as int) =~= assignments@);
    n
}

fn capped_sum(a: u64, b: u64) -> (sum: u64)
    ensures
        sum == capped(a + b),
{
    match a.checked_add(b) {
        Some(sum) => sum,
        None => u64::MAX,
    }
}

fn cost_of(peer: &PeerAvailability, assigned: usize) -> (cost: u64)
    ensures
        cost == peer_cost(*peer, assigned as nat),
{
    let goodput: u64 = if peer.goodput_bytes_per_second == 0 {
        1
    } else {
        peer.goodput_bytes_per_second
    };
    let queued: u64 = match peer.queued_bytes.checked_mul(1000) {
        Some(queued) => queued,
        None => u64::MAX,
    };
    let queue_ms: u64 = queued / goodput;
    let penalty: u64 = peer.failure_penalty as u64 * 500;
    let with_queue = capped_sum(peer.rtt_ms as u64, queue_ms);
    let with_penalty = capped_sum(with_queue, penalty);
    let cost = capped_sum(with_penalty, assigned as u64);
    proof {
        assert(queued == capped(peer.queued_bytes * 1000));
        assert(queue_ms == capped(peer.queued_bytes * 1000) / (goodput as int));
    }
    cost
}

/// Finds the preferred peer that may be given a chunk.
fn select_peer(
    peers: &Vec<PeerAvailability>,
    hash: &Hash32,
    assignments: &Vec<ChunkAssignment>,
    used: &Vec<Hash32>,
    limits: SchedulerLimits,
) -> (best: Option<usize>)
    requires
        ascending(used@),
        forall|key: Seq<u8>| #[trigger]
            has_key(used@, key) == sources(assignments@).contains(key),
        used@.len() == sources(assignments@).len(),
    ensures
        match best {
            Some(best) => best == best_among(
                peers@,
                peers@.len(),
                hash@,
                assignments@,
                limits,
            ) && best < peers@.len(),
            None => best_among(peers@, peers@.len(), hash@, assignments@, limits) == -1,
        },
{
    let mut best: Option<usize> = None;
    let mut best_cost: u64 = 0;
    let mut best_assigned: usize = 0;
    let mut i: usize = 0;
    while i < peers.len()
        invariant
            i <= peers@.len(),
            ascending(used@),
            forall|key: Seq<u8>| #[trigger]
                has_key(used@, key) == sources(assignments@).contains(key),
            used@.len() == sources(assignments@).len(),
            match best {
                Some(best) => {
                    &&& best == best_among(peers@, i as nat, hash@, assignments@, limits)
                    &&& best < i
                    &&& best_assigned == assigned_to(assignments@, peers@[best as int].id@)
                    &&& best_cost == peer_cost(peers@[best as int], best_assigned as nat)
                },
                None => best_among(peers@, i as nat, hash@, assignments@, limits) == -1,
            },
        decreases peers@.len() - i,
    {
        let peer = &peers[i];
        let assigned = count_assigned(assignments, &peer.id);
        if peer.available.contains(hash) && assigned < limits.max_chunks_per_peer && (holds(
            used,
            peer.id.key_bytes(),
        ) || used.len() < limits.max_sources) {
            let cost = cost_of(peer, assigned);
            let better = match best {
                None => true,
                Some(current) => cost < best_cost || (cost == best_cost && (assigned < best_assigned
                    || (assigned == best_assigned && !peer.id.at_least(&peers[current].id)))),
            };
            if better {
                best = Some(i);
                best_cost = cost;
                best_assigned = assigned;
            }
        }
        i = i + 1;
    }
    best
}

/// Assigns missing chunks rarest first, each to the provider that costs least.
pub fn schedule_chunks(
    missing: &[Hash32],
    peers: &Vec<PeerAvailability>,
    limits: SchedulerLimits,
) -> (assignments: Vec<ChunkAssignment>)
    ensures
        exists|ordered: Seq<Hash32>| #[trigger]
            rarest_first(ordered, missing@, peers@) && assignments@ == schedule(
                ordered,
                peers@,
                limits,
            ),
{
    let ordered = order_rarest(missing, peers);
    let mut assignments: Vec<ChunkAssignment> = Vec::new();
    let mut used: Vec<Hash32> = Vec::new();
    proof {
        lemma_table_empty::<Hash32>();
        assert(ordered@.take(0) =~= Seq::empty());
    }
    let mut i: usize = 0;
    while i < ordered.len()
        invariant
            i <= ordered@.len(),
            assignments@ == schedule(ordered@.take(i as int), peers@, limits),
            ascending(used@),
            sources(assignments@).finite(),
            forall|key: Seq<u8>| #[trigger]
                has_key(used@, key) == sources(assignments@).contains(key),
            used@.len() == sources(assignments@).len(),
        decreases ordered@.len() - i,
    {
        let hash = ordered[i];
        proof {
            assert(ordered@.take(i + 1).drop_last() =~= ordered@.take(i as int));
        }
        if assignments.len() < limits.max_assignments {
            match select_peer(peers, &hash, &assignments, &used, limits) {
                Some(best) => {
                    let ghost before = assignments@;
                    let ghost used_before = used@;
                    let id = peers[best].id;
                    put(&mut used, id);
                    assignments.push(ChunkAssignment { hash, peer: id });
                    proof {
                        assert(assignments@.drop_last() =~= before);
                        assert forall|key: Seq<u8>| #[trigger]
                            has_key(used@, key) == sources(assignments@).contains(key) by {
                            assert(table(used@).contains_key(key) == has_key(used@, key));
                            assert(table(used_before).contains_key(key) == has_key(
                                used_before,
                                key,
                            ));
                        }
                        assert(table(used@).dom() =~= sources(assignments@)) by {
                            assert forall|key: Seq<u8>| #[trigger]
                                table(used@).dom().contains(key) == sources(
                                    assignments@,
                                ).contains(key) by {
                                assert(table(used@).contains_key(key) == has_key(used@, key));
                            }
                        }
                        lemma_table_size(used@);
                    }
                },
                None => {},
            }
        }
        i = i + 1;
    }
    assert(ordered@.take(i as int) =~= ordered@);
    assignments
}

/// A plan keeps every bound: the number of assignments, of chunks for one peer, and of sources.
pub proof fn law_schedule_keeps_its_limits(
    ordered: Seq<Hash32>,
    peers: Seq<PeerAvailability>,
    limits: SchedulerLimits,
    peer: Seq<u8>,
)
    ensures
        schedule(ordered, peers, limits).len() <= limits.max_assignments,
        schedule(ordered, peers, limits).len() <= ordered.len(),
        assigned_to(schedule(ordered, peers, limits), peer) <= limits.max_chunks_per_peer,
        sources(schedule(ordered, peers, limits)).finite(),
        sources(schedule(ordered, peers, limits)).len() <= limits.max_sources,
    decreases ordered.len(),
{
    if ordered.len() > 0 {
        let before = schedule(ordered.drop_last(), peers, limits);
        law_schedule_keeps_its_limits(ordered.drop_last(), peers, limits, peer);
        let hash = ordered.last();
        let best = best_among(peers, peers.len(), hash@, before, limits);
        lemma_best_is_eligible(peers, peers.len(), hash@, before, limits);
        let after = schedule(ordered, peers, limits);
        if after != before {
            assert(after.drop_last() =~= before);
            assert(after.last() == ChunkAssignment { hash, peer: peers[best].id });
        }
    }
}

/// The selected peer may be given the chunk, and no other that may is preferred to it.
pub proof fn lemma_best_is_eligible(
    peers: Seq<PeerAvailability>,
    n: nat,
    hash: Seq<u8>,
    assignments: Seq<ChunkAssignment>,
    limits: SchedulerLimits,
)
    requires
        n <= peers.len(),
    ensures
        ({
            let best = best_among(peers, n, hash, assignments, limits);
            &&& -1 <= best < n
            &&& best >= 0 ==> eligible(peers[best], hash, assignments, limits)
            &&& forall|i: int|
                0 <= i < n && eligible(#[trigger] peers[i], hash, assignments, limits) ==> best >= 0
                    && !preferred(peers[i], peers[best], assignments)
        }),
    decreases n,
{
    if n > 0 {
        let m = (n - 1) as nat;
        lemma_best_is_eligible(peers, m, hash, assignments, limits);
        let prior = best_among(peers, m, hash, assignments, limits);
        let best = best_among(peers, n, hash, assignments, limits);
        lemma_byte_less_asym(peers[m as int].id@, peers[m as int].id@);
        assert forall|i: int|
            0 <= i < n && eligible(#[trigger] peers[i], hash, assignments, limits) implies best >= 0
            && !preferred(peers[i], peers[best], assignments) by {
            if i < m && best == m && prior >= 0 {
                assert(!preferred(peers[i], peers[prior], assignments));
                lemma_byte_less_trans(peers[i].id@, peers[best].id@, peers[prior].id@);
            }
            if i == m && best != m {
                assert(!preferred(peers[m as int], peers[prior], assignments));
            }
        }
    }
}

/// A chunk is only assigned to a peer that has it, and only if it is missing.
pub proof fn law_assigned_chunks_are_available(
    ordered: Seq<Hash32>,
    peers: Seq<PeerAvailability>,
    limits: SchedulerLimits,
    i: int,
)
    requires
        0 <= i < schedule(ordered, peers, limits).len(),
    ensures
        exists|k: int|
            0 <= k < peers.len()
                && #[trigger] peers[k].id == schedule(ordered, peers, limits)[i].peer
                && peers[k].available@.contains(schedule(ordered, peers, limits)[i].hash@),
        ordered.contains(schedule(ordered, peers, limits)[i].hash),
    decreases ordered.len(),
{
    let after = schedule(ordered, peers, limits);
    let before = schedule(ordered.drop_last(), peers, limits);
    let hash = ordered.last();
    let best = best_among(peers, peers.len(), hash@, before, limits);
    lemma_best_is_eligible(peers, peers.len(), hash@, before, limits);
    if i < before.len() {
        law_assigned_chunks_are_available(ordered.drop_last(), peers, limits, i);
        assert(after[i] == before[i]);
        let x = choose|x: int|
            0 <= x < ordered.drop_last().len() && ordered.drop_last()[x] == before[i].hash;
        assert(ordered[x] == before[i].hash);
    } else {
        assert(after[i] == ChunkAssignment { hash, peer: peers[best].id });
        assert(peers[best].id == after[i].peer);
        assert(ordered[ordered.len() - 1] == hash);
    }
}

/// A pass makes progress: if some peer has the rarest chunk and every bound is positive, at least
/// one chunk is assigned.
pub proof fn law_schedule_makes_progress(
    ordered: Seq<Hash32>,
    peers: Seq<PeerAvailability>,
    limits: SchedulerLimits,
    k: int,
)
    requires
        ordered.len() > 0,
        0 <= k < peers.len(),
        peers[k].available@.contains(ordered[0]@),
        limits.max_assignments > 0,
        limits.max_chunks_per_peer > 0,
        limits.max_sources > 0,
    ensures
        schedule(ordered, peers, limits).len() > 0,
    decreases ordered.len(),
{
    if ordered.len() == 1 {
        let none = Seq::<ChunkAssignment>::empty();
        assert(ordered.drop_last() =~= Seq::empty());
        assert(schedule(ordered.drop_last(), peers, limits) == none);
        assert(sources(none).len() == 0);
        lemma_best_is_eligible(peers, peers.len(), ordered[0]@, none, limits);
        assert(eligible(peers[k], ordered[0]@, none, limits));
    } else {
        assert(ordered.drop_last()[0] == ordered[0]);
        law_schedule_makes_progress(ordered.drop_last(), peers, limits, k);
    }
}

} // verus!
