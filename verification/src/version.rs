//! Version vectors: how much of each replica's history a state has seen.
use vstd::prelude::*;

use crate::hash::{lemma_hash_view_injective, ReplicaId};
use crate::table::{
    ascending, find, has_key, lemma_rank_unique, lemma_table_canonical, lemma_table_empty, put,
    rank_of, table, Keyed,
};

verus! {

/// One replica's counter.
#[derive(Clone, Copy, Debug, PartialEq, Eq)]
pub struct VersionEntry {
    pub replica: ReplicaId,
    pub counter: u64,
}

impl Keyed for VersionEntry {
    open spec fn key(&self) -> Seq<u8> {
        self.replica@
    }

    fn key_bytes(&self) -> (bytes: &[u8]) {
        self.replica.0.bytes.as_slice()
    }
}

/// How two version vectors stand to each other.
#[derive(Clone, Copy, Debug, PartialEq, Eq, Structural)]
pub enum CausalRelation {
    Before,
    After,
    Equal,
    Concurrent,
}

/// A replica's counter cannot go any higher.
#[derive(Clone, Copy, Debug, PartialEq, Eq, Structural)]
pub struct CounterExhausted;

/// The highest counter seen of each replica; a replica that is not listed has none.
#[derive(Debug, PartialEq, Eq)]
pub struct VersionVector {
    entries: Vec<VersionEntry>,
}

/// The counters of a version vector by replica.
pub type Counters = Map<Seq<u8>, u64>;

/// The counter of a replica, zero if it is not listed.
pub open spec fn counter_of(counters: Counters, replica: Seq<u8>) -> u64 {
    if counters.contains_key(replica) {
        counters[replica]
    } else {
        0
    }
}

/// Nothing that `a` has seen is missing from `b`.
pub open spec fn seen_by(a: Counters, b: Counters) -> bool {
    forall|replica: Seq<u8>| #[trigger] counter_of(a, replica) <= counter_of(b, replica)
}

/// The causal relation of two version vectors.
pub open spec fn causal_relation(a: Counters, b: Counters) -> CausalRelation {
    if seen_by(a, b) && seen_by(b, a) {
        CausalRelation::Equal
    } else if seen_by(a, b) {
        CausalRelation::Before
    } else if seen_by(b, a) {
        CausalRelation::After
    } else {
        CausalRelation::Concurrent
    }
}

/// The larger of two counters.
pub open spec fn larger(a: u64, b: u64) -> u64 {
    if a < b {
        b
    } else {
        a
    }
}

/// Everything that either vector has seen.
pub open spec fn joined(a: Counters, b: Counters) -> Counters {
    Map::new(
        |replica: Seq<u8>| a.contains_key(replica) || b.contains_key(replica),
        |replica: Seq<u8>| larger(counter_of(a, replica), counter_of(b, replica)),
    )
}

/// A vector after it has seen one more counter.
pub open spec fn with_counter(a: Counters, replica: Seq<u8>, counter: u64) -> Counters {
    if counter <= counter_of(a, replica) {
        a
    } else {
        a.insert(replica, counter)
    }
}

/// Every listed counter is positive.
pub open spec fn all_positive(entries: Seq<VersionEntry>) -> bool {
    forall|i: int| 0 <= i < entries.len() ==> 0 < #[trigger] entries[i].counter
}

/// The counters that the entries list.
pub open spec fn counters(entries: Seq<VersionEntry>) -> Counters {
    Map::new(
        |replica: Seq<u8>| has_key(entries, replica),
        |replica: Seq<u8>| table(entries)[replica].counter,
    )
}

impl View for VersionVector {
    type V = Counters;

    closed spec fn view(&self) -> Counters {
        counters(self.entries@)
    }
}

impl Default for VersionVector {
    fn default() -> (version: Self)
        ensures
            version@ == Counters::empty(),
    {
        let version = VersionVector { entries: Vec::new() };
        assert(version@ =~= Counters::empty());
        version
    }
}

impl Clone for VersionVector {
    fn clone(&self) -> (copy: Self)
        ensures
            copy@ == self@,
    {
        proof {
            use_type_invariant(self);
        }
        let mut entries: Vec<VersionEntry> = Vec::new();
        let mut i: usize = 0;
        while i < self.entries.len()
            invariant
                i <= self.entries@.len(),
                entries@ == self.entries@.take(i as int),
            decreases self.entries@.len() - i,
        {
            entries.push(self.entries[i]);
            i = i + 1;
            assert(entries@ =~= self.entries@.take(i as int));
        }
        assert(entries@ =~= self.entries@);
        VersionVector { entries }
    }
}

impl VersionVector {
    #[verifier::type_invariant]
    spec fn inv(&self) -> bool {
        &&& ascending(self.entries@)
        &&& all_positive(self.entries@)
    }

    /// The counter of a replica, zero if none has been seen.
    pub fn get(&self, replica: ReplicaId) -> (counter: u64)
        ensures
            counter == counter_of(self@, replica@),
    {
        proof {
            use_type_invariant(self);
        }
        match find(&self.entries, replica.key_bytes()) {
            Some(entry) => entry.counter,
            None => 0,
        }
    }

    /// Takes note of a counter of a replica. A counter that is not new changes nothing.
    pub fn observe(&mut self, replica: ReplicaId, counter: u64)
        ensures
            final(self)@ == with_counter(old(self)@, replica@, counter),
    {
        proof {
            use_type_invariant(&*self);
        }
        if counter <= self.get(replica) {
            return ;
        }
        let mut entries: Vec<VersionEntry> = Vec::new();
        proof {
            lemma_table_empty::<VersionEntry>();
        }
        std::mem::swap(&mut entries, &mut self.entries);
        let ghost before = entries@;
        let entry = VersionEntry { replica, counter };
        put(&mut entries, entry);
        proof {
            lemma_counters_put(before, entries@, entry);
        }
        self.entries = entries;
    }

    /// Counts one more change of a replica.
    pub fn increment(&mut self, replica: ReplicaId) -> (result: Result<(), CounterExhausted>)
        ensures
            result is Ok <==> counter_of(old(self)@, replica@) < u64::MAX,
            result is Ok ==> final(self)@ == old(self)@.insert(
                replica@,
                (counter_of(old(self)@, replica@) + 1) as u64,
            ),
            result is Err ==> final(self)@ == old(self)@,
    {
        let counter = self.get(replica);
        if counter == u64::MAX {
            return Err(CounterExhausted);
        }
        self.observe(replica, counter + 1);
        Ok(())
    }

    /// Takes note of everything that another vector has seen.
    pub fn merge(&mut self, other: &VersionVector)
        ensures
            final(self)@ == joined(old(self)@, other@),
    {
        let ghost before = self@;
        let mut i: usize = 0;
        proof {
            use_type_invariant(other);
            assert(self@ =~= joined(before, counters(other.entries@.take(0))));
        }
        while i < other.entries.len()
            invariant
                i <= other.entries@.len(),
                ascending(other.entries@),
                all_positive(other.entries@),
                self@ == joined(before, counters(other.entries@.take(i as int))),
            decreases other.entries@.len() - i,
        {
            let entry = other.entries[i];
            self.observe(entry.replica, entry.counter);
            proof {
                lemma_counters_take(other.entries@, i as int);
                let seen = counters(other.entries@.take(i as int));
                let now = counters(other.entries@.take(i + 1));
                assert(now =~= seen.insert(entry.replica@, entry.counter));
                assert(counter_of(seen, entry.replica@) == 0) by {
                    lemma_absent_from_take(other.entries@, i as int);
                }
                assert(self@ =~= joined(before, now));
            }
            i = i + 1;
        }
        proof {
            assert(other.entries@.take(i as int) =~= other.entries@);
        }
    }

    /// How this vector stands to another.
    pub fn relation(&self, other: &VersionVector) -> (relation: CausalRelation)
        ensures
            relation == causal_relation(self@, other@),
    {
        let forward = self.seen_in(other);
        let backward = other.seen_in(self);
        if forward && backward {
            CausalRelation::Equal
        } else if forward {
            CausalRelation::Before
        } else if backward {
            CausalRelation::After
        } else {
            CausalRelation::Concurrent
        }
    }

    fn seen_in(&self, other: &VersionVector) -> (r: bool)
        ensures
            r == seen_by(self@, other@),
    {
        proof {
            use_type_invariant(self);
        }
        let mut i: usize = 0;
        while i < self.entries.len()
            invariant
                i <= self.entries@.len(),
                ascending(self.entries@),
                forall|k: int|
                    0 <= k < i ==> (#[trigger] self.entries@[k]).counter <= counter_of(
                        other@,
                        self.entries@[k].replica@,
                    ),
            decreases self.entries@.len() - i,
        {
            let entry = self.entries[i];
            proof {
                lemma_rank_unique(self.entries@, i as int);
            }
            if entry.counter > other.get(entry.replica) {
                assert(counter_of(self@, entry.replica@) > counter_of(other@, entry.replica@));
                return false;
            }
            i = i + 1;
        }
        assert forall|replica: Seq<u8>| #[trigger]
            counter_of(self@, replica) <= counter_of(other@, replica) by {
            if self@.contains_key(replica) {
                let r = rank_of(self.entries@, replica);
                assert(self.entries@[r].key() == replica);
                lemma_rank_unique(self.entries@, r);
            }
        }
        true
    }

    /// The entries in replica order.
    pub fn entries(&self) -> (entries: &Vec<VersionEntry>)
        ensures
            ascending(entries@),
            all_positive(entries@),
            counters(entries@) == self@,
    {
        proof {
            use_type_invariant(self);
        }
        &self.entries
    }

    /// Whether two vectors have seen the same.
    pub fn same(&self, other: &VersionVector) -> (same: bool)
        ensures
            same == (self@ == other@),
    {
        proof {
            use_type_invariant(self);
            use_type_invariant(other);
        }
        let same = self.seen_in(other) && other.seen_in(self);
        proof {
            if same {
                lemma_equal_counters(self.entries@, other.entries@);
            }
        }
        same
    }
}

proof fn lemma_equal_counters(a: Seq<VersionEntry>, b: Seq<VersionEntry>)
    requires
        ascending(a),
        ascending(b),
        all_positive(a),
        all_positive(b),
        seen_by(counters(a), counters(b)),
        seen_by(counters(b), counters(a)),
    ensures
        counters(a) == counters(b),
{
    let ca = counters(a);
    let cb = counters(b);
    assert forall|k: Seq<u8>|
        (#[trigger] ca.dom().contains(k)) == cb.dom().contains(k) && counter_of(ca, k)
            == counter_of(cb, k) by {
        assert(counter_of(ca, k) <= counter_of(cb, k));
        assert(counter_of(cb, k) <= counter_of(ca, k));
        if has_key(a, k) {
            assert(a[rank_of(a, k)].counter > 0);
        }
        if has_key(b, k) {
            assert(b[rank_of(b, k)].counter > 0);
        }
    }
    assert(ca.dom() =~= cb.dom());
    assert forall|k: Seq<u8>| ca.dom().contains(k) implies #[trigger] ca[k] == cb[k] by {
        assert(counter_of(ca, k) == counter_of(cb, k));
    }
    assert(ca =~= cb);
}

proof fn lemma_counters_put(
    before: Seq<VersionEntry>,
    after: Seq<VersionEntry>,
    entry: VersionEntry,
)
    requires
        ascending(before),
        ascending(after),
        all_positive(before),
        entry.counter > 0,
        table(after) == table(before).insert(entry.replica@, entry),
    ensures
        all_positive(after),
        counters(after) == counters(before).insert(entry.replica@, entry.counter),
{
    assert forall|i: int| 0 <= i < after.len() implies 0 < #[trigger] after[i].counter by {
        lemma_rank_unique(after, i);
        let k = after[i].key();
        if k != entry.replica@ {
            assert(table(before).contains_key(k));
            assert(before[rank_of(before, k)].counter > 0);
        }
    }
    let goal = counters(before).insert(entry.replica@, entry.counter);
    assert forall|k: Seq<u8>|
        (#[trigger] counters(after).dom().contains(k)) == goal.dom().contains(k) by {
        assert(table(after).contains_key(k) == has_key(after, k));
        assert(table(before).contains_key(k) == has_key(before, k));
    }
    assert(counters(after).dom() =~= goal.dom());
    assert forall|k: Seq<u8>| counters(after).dom().contains(k) implies #[trigger] counters(
        after,
    )[k] == goal[k] by {
        assert(table(after).contains_key(k));
    }
    assert(counters(after) =~= goal);
}

proof fn lemma_absent_from_take(entries: Seq<VersionEntry>, i: int)
    requires
        ascending(entries),
        0 <= i < entries.len(),
    ensures
        !counters(entries.take(i)).contains_key(entries[i].replica@),
{
    let a = entries.take(i);
    let k = entries[i].replica@;
    if has_key(a, k) {
        let r = rank_of(a, k);
        assert(crate::order::byte_less(entries[r].key(), entries[i].key()));
        crate::order::lemma_byte_less_asym(k, k);
    }
}

proof fn lemma_counters_take(entries: Seq<VersionEntry>, i: int)
    requires
        ascending(entries),
        0 <= i < entries.len(),
    ensures
        counters(entries.take(i + 1)) == counters(entries.take(i)).insert(
            entries[i].replica@,
            entries[i].counter,
        ),
{
    let a = entries.take(i);
    let b = entries.take(i + 1);
    assert forall|x: int, y: int| 0 <= x < y < b.len() implies crate::order::byte_less(
        #[trigger] b[x].key(),
        #[trigger] b[y].key(),
    ) by {
        assert(crate::order::byte_less(entries[x].key(), entries[y].key()));
    }
    assert forall|x: int, y: int| 0 <= x < y < a.len() implies crate::order::byte_less(
        #[trigger] a[x].key(),
        #[trigger] a[y].key(),
    ) by {
        assert(crate::order::byte_less(entries[x].key(), entries[y].key()));
    }
    let goal = counters(a).insert(entries[i].replica@, entries[i].counter);
    assert(b[i] == entries[i]);
    lemma_rank_unique(b, i);
    assert forall|k: Seq<u8>| counters(b).contains_key(k) == goal.contains_key(k) by {
        if has_key(b, k) {
            let r = rank_of(b, k);
            if r < i {
                assert(a[r].key() == k);
            }
        }
        if has_key(a, k) {
            let r = rank_of(a, k);
            assert(b[r].key() == k);
        }
    }
    assert forall|k: Seq<u8>| counters(b).contains_key(k) implies #[trigger] counters(b)[k]
        == goal[k] by {
        let r = rank_of(b, k);
        lemma_rank_unique(b, r);
        if k != entries[i].replica@ {
            assert(a[r].key() == k);
            lemma_rank_unique(a, r);
        }
    }
    assert(counters(b) =~= goal);
}

/// The entries that list the counters, in replica order.
pub open spec fn listed(wanted: Counters) -> Seq<VersionEntry> {
    choose|entries: Seq<VersionEntry>|
        ascending(entries) && all_positive(entries) && #[trigger] counters(entries) == wanted
}

/// The counters fix the entries that list them.
pub proof fn lemma_listed(entries: Seq<VersionEntry>)
    requires
        ascending(entries),
        all_positive(entries),
    ensures
        listed(counters(entries)) == entries,
{
    let other = listed(counters(entries));
    assert(ascending(other) && all_positive(other) && counters(other) == counters(entries));
    assert forall|k: Seq<u8>| #[trigger]
        table(other).dom().contains(k) == table(entries).dom().contains(k) by {
        assert(counters(other).dom().contains(k) == has_key(other, k));
        assert(counters(entries).dom().contains(k) == has_key(entries, k));
    }
    assert(table(other).dom() =~= table(entries).dom());
    assert forall|k: Seq<u8>| table(other).dom().contains(k) implies #[trigger] table(other)[k]
        == table(entries)[k] by {
        let a = table(other)[k];
        let b = table(entries)[k];
        assert(counters(other)[k] == counters(entries)[k]);
        assert(a.replica@ == b.replica@);
        lemma_hash_view_injective(a.replica.0, b.replica.0);
    }
    assert(table(other) =~= table(entries));
    lemma_table_canonical(other, entries);
}

/// Merging is the least upper bound: the merge has seen what either side has, and any vector
/// that has seen both sides has seen the merge.
pub proof fn law_merge_is_least_upper_bound(a: Counters, b: Counters, c: Counters)
    ensures
        seen_by(a, joined(a, b)),
        seen_by(b, joined(a, b)),
        seen_by(a, c) && seen_by(b, c) ==> seen_by(joined(a, b), c),
{
    assert forall|k: Seq<u8>| counter_of(joined(a, b), k) == larger(
        counter_of(a, k),
        counter_of(b, k),
    ) by {}
    if seen_by(a, c) && seen_by(b, c) {
        assert forall|k: Seq<u8>| #[trigger]
            counter_of(joined(a, b), k) <= counter_of(c, k) by {
            assert(counter_of(a, k) <= counter_of(c, k));
            assert(counter_of(b, k) <= counter_of(c, k));
        }
    }
}

/// Merging does not depend on the order of its arguments.
pub proof fn law_merge_commutes(a: Counters, b: Counters)
    ensures
        joined(a, b) == joined(b, a),
{
    assert(joined(a, b) =~= joined(b, a));
}

/// Merging does not depend on grouping.
pub proof fn law_merge_associates(a: Counters, b: Counters, c: Counters)
    ensures
        joined(joined(a, b), c) == joined(a, joined(b, c)),
{
    assert(joined(joined(a, b), c) =~= joined(a, joined(b, c)));
}

/// Merging a vector with itself changes nothing.
pub proof fn law_merge_is_idempotent(a: Counters)
    ensures
        joined(a, a) == a,
{
    assert(joined(a, a) =~= a);
}

/// Turning the arguments round turns the relation round.
pub proof fn law_relation_is_antisymmetric(a: Counters, b: Counters)
    ensures
        causal_relation(a, b) == CausalRelation::Before <==> causal_relation(b, a)
            == CausalRelation::After,
        causal_relation(a, b) == CausalRelation::Equal <==> causal_relation(b, a)
            == CausalRelation::Equal,
        causal_relation(a, b) == CausalRelation::Concurrent <==> causal_relation(b, a)
            == CausalRelation::Concurrent,
{
}

/// A counted change comes after the state it was made on.
pub proof fn law_increment_advances(a: Counters, replica: Seq<u8>)
    requires
        counter_of(a, replica) < u64::MAX,
    ensures
        causal_relation(
            a,
            a.insert(replica, (counter_of(a, replica) + 1) as u64),
        ) == CausalRelation::Before,
{
    let b = a.insert(replica, (counter_of(a, replica) + 1) as u64);
    assert(counter_of(b, replica) > counter_of(a, replica));
}

} // verus!
