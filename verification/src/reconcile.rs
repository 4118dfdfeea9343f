//! Causal reconciliation of two snapshots.
use vstd::prelude::*;

use crate::conflict_path::{allocate_conflict_path, allocated, lemma_allocated_is_free, path_set};
use crate::hash::{blake3_derived, blake3_digest, le_bytes, push_le, Hash32, ReplicaId};
use crate::merkle::{
    copy_records, differs, gathered, law_no_difference_to_itself, leaves, lemma_namespace_put,
    load_fault, namespace, names_ascend, root_digest, views, MerkleTree, Namespace, MAX_DEPTH,
};
use crate::order::byte_less;
use crate::path::{components, WirePath, WirePathError};
use crate::record::{
    digest_code, flag_byte, flag_code, kind_byte, kind_code, logical_digest, push_digest,
    same_object, RecordView, SyncEntryKind, SyncRecord, SyncRecordError,
};
use crate::table::{
    ascending, has_key, lemma_rank_unique, lemma_table_empty, put, rank_of, table, Keyed,
};
use crate::text::utf8;
use crate::version::{causal_relation, counter_of, joined, CausalRelation};

verus! {

/// Why a snapshot cannot be loaded or two snapshots cannot be merged.
#[derive(Clone, Copy, Debug, PartialEq, Eq, Structural)]
pub enum ReconcileError {
    /// A record breaks its schema.
    InvalidRecord(SyncRecordError),
    /// A query prefix is not a portable path.
    InvalidPrefix(WirePathError),
    /// A snapshot holds two records for one path.
    DuplicatePath,
    /// The conflict resolver's counter cannot go any higher.
    CounterOverflow,
    /// The original path leaves no portable space for a conflict suffix.
    ConflictPathTooLong,
    /// No unused conflict name is left.
    ConflictPathExhausted,
    /// A generated conflict name is not a portable path.
    ConflictPath(WirePathError),
}

/// Why two path states needed a deterministic resolution.
#[derive(Clone, Copy, Debug, PartialEq, Eq, Structural)]
pub enum ConflictReason {
    /// Both replicas advanced the path on their own.
    ConcurrentEdit,
    /// Equal causal clocks carried different states.
    EqualClockDivergence,
}

/// What a merge notes of one conflict.
#[derive(Debug, PartialEq, Eq)]
pub struct ConflictRecord {
    /// The path whose state was selected.
    pub path: WirePath,
    /// The path that keeps the losing live file, if there is one to keep.
    pub conflict_path: Option<WirePath>,
    /// Digest of the selected record before the resolution.
    pub winner_hash: Hash32,
    /// Digest of the other record before the resolution.
    pub loser_hash: Hash32,
    /// Why the conflict arose.
    pub reason: ConflictReason,
}

/// What a conflict note says.
#[verifier::ext_equal]
pub struct ConflictView {
    pub path: Seq<u8>,
    pub conflict_path: Option<Seq<u8>>,
    pub winner_hash: Seq<u8>,
    pub loser_hash: Seq<u8>,
    pub reason: ConflictReason,
}

impl View for ConflictRecord {
    type V = ConflictView;

    open spec fn view(&self) -> ConflictView {
        ConflictView {
            path: self.path@,
            conflict_path: match self.conflict_path {
                Some(path) => Some(path@),
                None => None,
            },
            winner_hash: self.winner_hash@,
            loser_hash: self.loser_hash@,
            reason: self.reason,
        }
    }
}

/// What conflict notes say.
pub open spec fn conflict_views(conflicts: Seq<ConflictRecord>) -> Seq<ConflictView> {
    Seq::new(conflicts.len(), |i: int| conflicts[i]@)
}

/// Counts of one merge.
#[derive(Clone, Copy, Debug, PartialEq, Eq, Structural)]
pub struct MergeStats {
    /// Paths whose state was the same on both sides.
    pub equal: usize,
    /// Paths taken from the left by causality or absence on the right.
    pub selected_left: usize,
    /// Paths taken from the right by causality or absence on the left.
    pub selected_right: usize,
    /// Paths resolved deterministically.
    pub conflicts: usize,
    /// Conflict copies in the merged namespace.
    pub conflict_copies: usize,
}

/// The namespace that two snapshots merge into.
#[derive(Debug, PartialEq, Eq)]
pub struct MergeResult {
    /// The records in path order.
    pub records: Vec<SyncRecord>,
    /// The conflicts in path order.
    pub conflicts: Vec<ConflictRecord>,
    /// What was counted.
    pub stats: MergeStats,
}

/// How far a merge has come.
#[verifier::ext_equal]
pub struct MergeState {
    /// Paths that no conflict copy may take.
    pub occupied: Set<Seq<u8>>,
    /// The merged records.
    pub merged: Namespace,
    /// The conflicts met.
    pub conflicts: Seq<ConflictView>,
    /// What was counted.
    pub stats: MergeStats,
}

/// No path counted yet.
pub open spec fn no_stats() -> MergeStats {
    MergeStats { equal: 0, selected_left: 0, selected_right: 0, conflicts: 0, conflict_copies: 0 }
}

/// What the winner of a conflict is decided by, apart from the kind.
pub open spec fn state_material(record: RecordView) -> Seq<u8> {
    seq![kind_code(record.kind)] + le_bytes(record.size) + digest_code(record.content_hash) + seq![
        flag_code(record.readonly),
        flag_code(record.tombstone),
    ]
}

/// The digest by which the winner of a conflict is decided.
pub open spec fn state_digest(record: RecordView) -> Seq<u8> {
    blake3_derived("deltaweave sync state winner v1"@, state_material(record))
}

/// The replica under which conflict resolutions are counted.
pub open spec fn resolver_id() -> Seq<u8> {
    blake3_digest(utf8("deltaweave deterministic conflict resolver v1"@))
}

/// The record is of a directory that is there.
pub open spec fn live_directory(record: RecordView) -> bool {
    !record.tombstone && record.kind == SyncEntryKind::Directory
}

/// The left record wins: a live directory over anything else, otherwise the larger state digest.
pub open spec fn left_wins(left: RecordView, right: RecordView) -> bool {
    if live_directory(left) != live_directory(right) {
        live_directory(left)
    } else {
        !byte_less(state_digest(left), state_digest(right))
    }
}

/// The losing record is of a live file whose content the winner does not keep.
pub open spec fn loser_kept(winner: RecordView, loser: RecordView) -> bool {
    &&& !loser.tombstone
    &&& loser.kind == SyncEntryKind::File
    &&& winner.tombstone || winner.content_hash != loser.content_hash
}

/// One more path counted on the left.
pub open spec fn count_left(stats: MergeStats) -> MergeStats {
    MergeStats { selected_left: (stats.selected_left + 1) as usize, ..stats }
}

/// One more path counted on the right.
pub open spec fn count_right(stats: MergeStats) -> MergeStats {
    MergeStats { selected_right: (stats.selected_right + 1) as usize, ..stats }
}

/// One more path counted as equal.
pub open spec fn count_equal(stats: MergeStats) -> MergeStats {
    MergeStats { equal: (stats.equal + 1) as usize, ..stats }
}

/// One more conflict counted, with or without a copy.
pub open spec fn count_conflict(stats: MergeStats, copy: bool) -> MergeStats {
    MergeStats {
        conflicts: (stats.conflicts + 1) as usize,
        conflict_copies: if copy {
            (stats.conflict_copies + 1) as usize
        } else {
            stats.conflict_copies
        },
        ..stats
    }
}

/// What the resolution of a conflict does: the winner stays at the path, a losing live file moves
/// to a conflict path, and both carry the merged version with one more count of the resolver.
pub open spec fn resolved(
    state: MergeState,
    left: RecordView,
    right: RecordView,
    reason: ConflictReason,
) -> Result<MergeState, ReconcileError> {
    let (winner, loser) = if left_wins(left, right) {
        (left, right)
    } else {
        (right, left)
    };
    let known = joined(left.version, right.version);
    let counter = counter_of(known, resolver_id());
    if counter == u64::MAX {
        Err(ReconcileError::CounterOverflow)
    } else {
        let version = known.insert(resolver_id(), (counter + 1) as u64);
        let canonical = RecordView { version, ..winner };
        let merged = state.merged.insert(winner.path, canonical);
        let note = ConflictView {
            path: left.path,
            conflict_path: None,
            winner_hash: logical_digest(winner),
            loser_hash: logical_digest(loser),
            reason,
        };
        if loser_kept(winner, loser) {
            match allocated(loser.path, logical_digest(loser), state.occupied) {
                Err(error) => Err(error),
                Ok(path) => Ok(
                    MergeState {
                        occupied: state.occupied.insert(path),
                        merged: merged.insert(
                            path,
                            RecordView { path, version, tombstone: false, ..loser },
                        ),
                        conflicts: state.conflicts.push(
                            ConflictView { conflict_path: Some(path), ..note },
                        ),
                        stats: count_conflict(state.stats, true),
                    },
                ),
            }
        } else {
            Ok(
                MergeState {
                    occupied: state.occupied,
                    merged,
                    conflicts: state.conflicts.push(note),
                    stats: count_conflict(state.stats, false),
                },
            )
        }
    }
}

/// Where a resolution that fails leaves the merge: nothing has changed when the resolver cannot
/// count on, and the winner stands at its path when no conflict path is found.
pub open spec fn abandoned(state: MergeState, left: RecordView, right: RecordView) -> MergeState {
    let winner = if left_wins(left, right) {
        left
    } else {
        right
    };
    let known = joined(left.version, right.version);
    let counter = counter_of(known, resolver_id());
    if counter == u64::MAX {
        state
    } else {
        let version = known.insert(resolver_id(), (counter + 1) as u64);
        MergeState {
            merged: state.merged.insert(winner.path, RecordView { version, ..winner }),
            ..state
        }
    }
}

/// What the merge of one path does.
pub open spec fn merge_step(
    left: Namespace,
    right: Namespace,
    state: MergeState,
    path: Seq<u8>,
) -> Result<MergeState, ReconcileError> {
    if !right.contains_key(path) {
        Ok(
            MergeState {
                merged: state.merged.insert(path, left[path]),
                stats: count_left(state.stats),
                ..state
            },
        )
    } else if !left.contains_key(path) {
        Ok(
            MergeState {
                merged: state.merged.insert(path, right[path]),
                stats: count_right(state.stats),
                ..state
            },
        )
    } else {
        let a = left[path];
        let b = right[path];
        match causal_relation(a.version, b.version) {
            CausalRelation::Before => Ok(
                MergeState {
                    merged: state.merged.insert(path, b),
                    stats: count_right(state.stats),
                    ..state
                },
            ),
            CausalRelation::After => Ok(
                MergeState {
                    merged: state.merged.insert(path, a),
                    stats: count_left(state.stats),
                    ..state
                },
            ),
            CausalRelation::Equal => if same_object(a, b) {
                Ok(
                    MergeState {
                        merged: state.merged.insert(path, a),
                        stats: count_equal(state.stats),
                        ..state
                    },
                )
            } else {
                resolved(state, a, b, ConflictReason::EqualClockDivergence)
            },
            CausalRelation::Concurrent => if same_object(a, b) {
                Ok(
                    MergeState {
                        merged: state.merged.insert(
                            path,
                            RecordView { version: joined(a.version, b.version), ..a },
                        ),
                        stats: count_equal(state.stats),
                        ..state
                    },
                )
            } else {
                resolved(state, a, b, ConflictReason::ConcurrentEdit)
            },
        }
    }
}

/// The state after the first `n` paths.
pub open spec fn merge_upto(
    left: Namespace,
    right: Namespace,
    paths: Seq<Seq<u8>>,
    n: nat,
) -> Result<MergeState, ReconcileError>
    decreases n,
{
    if n == 0 {
        Ok(
            MergeState {
                occupied: paths.to_set(),
                merged: Namespace::empty(),
                conflicts: Seq::empty(),
                stats: no_stats(),
            },
        )
    } else {
        match merge_upto(left, right, paths, (n - 1) as nat) {
            Err(error) => Err(error),
            Ok(state) => merge_step(left, right, state, paths[n - 1]),
        }
    }
}

/// The paths of either side in ascending order.
pub open spec fn lists_paths(left: Namespace, right: Namespace, paths: Seq<Seq<u8>>) -> bool {
    &&& names_ascend(paths)
    &&& forall|path: Seq<u8>| #[trigger]
        paths.contains(path) <==> left.contains_key(path) || right.contains_key(path)
}

/// The paths of either side in ascending order.
pub open spec fn all_paths(left: Namespace, right: Namespace) -> Seq<Seq<u8>> {
    choose|paths: Seq<Seq<u8>>| lists_paths(left, right, paths)
}

/// The root digests and sizes of the two sides are the same.
pub open spec fn same_root(left: Namespace, right: Namespace) -> bool {
    root_digest(left) == root_digest(right) && left.dom().len() == right.dom().len()
}

/// What two snapshots merge into: the left one as it is if the roots are the same, otherwise what
/// their paths come to in path order.
pub open spec fn merge_outcome(left: Namespace, right: Namespace) -> Result<
    MergeState,
    ReconcileError,
> {
    if same_root(left, right) {
        Ok(
            MergeState {
                occupied: left.dom(),
                merged: left,
                conflicts: Seq::empty(),
                stats: MergeStats { equal: left.dom().len() as usize, ..no_stats() },
            },
        )
    } else {
        let paths = all_paths(left, right);
        merge_upto(left, right, paths, paths.len())
    }
}

/// The records of a merge, each under its own path.
pub open spec fn well_keyed(space: Namespace) -> bool {
    forall|path: Seq<u8>| #[trigger] space.contains_key(path) ==> space[path].path == path
}

/// A list of records in path order makes a well-keyed namespace.
pub proof fn lemma_well_keyed(records: Seq<SyncRecord>)
    requires
        ascending(records),
    ensures
        well_keyed(namespace(records)),
{
    assert forall|path: Seq<u8>| #[trigger] namespace(records).contains_key(path) implies namespace(
        records,
    )[path].path == path by {
        let r = rank_of(records, path);
        lemma_rank_unique(records, r);
    }
}

fn state_hash(record: &SyncRecord) -> (hash: Hash32)
    ensures
        hash@ == state_digest(record@),
{
    let mut material: Vec<u8> = Vec::new();
    material.push(kind_byte(record.kind));
    push_le(&mut material, record.size);
    push_digest(&mut material, &record.content_hash);
    material.push(flag_byte(record.readonly));
    material.push(flag_byte(record.tombstone));
    assert(material@ =~= state_material(record@));
    Hash32::derive("deltaweave sync state winner v1", material.as_slice())
}

/// The replica under which conflict resolutions are counted.
pub fn conflict_resolver_replica() -> (replica: ReplicaId)
    ensures
        replica@ == resolver_id(),
{
    ReplicaId(Hash32::digest("deltaweave deterministic conflict resolver v1".as_bytes()))
}

fn should_preserve_loser(winner: &SyncRecord, loser: &SyncRecord) -> (r: bool)
    ensures
        r == loser_kept(winner@, loser@),
{
    !loser.tombstone && loser.kind == SyncEntryKind::File && (winner.tombstone
        || winner.content_hash != loser.content_hash)
}

fn is_live_directory(record: &SyncRecord) -> (r: bool)
    ensures
        r == live_directory(record@),
{
    !record.tombstone && record.kind == SyncEntryKind::Directory
}

fn wins_left(left: &SyncRecord, right: &SyncRecord) -> (r: bool)
    ensures
        r == left_wins(left@, right@),
{
    let left_directory = is_live_directory(left);
    let right_directory = is_live_directory(right);
    if left_directory != right_directory {
        left_directory
    } else {
        state_hash(left).at_least(&state_hash(right))
    }
}

/// A merge under way.
struct MergeProgress {
    occupied: Vec<WirePath>,
    merged: Vec<SyncRecord>,
    conflicts: Vec<ConflictRecord>,
    stats: MergeStats,
}

impl MergeProgress {
    spec fn inv(&self) -> bool {
        ascending(self.occupied@) && ascending(self.merged@)
    }

    spec fn state(&self) -> MergeState {
        MergeState {
            occupied: path_set(self.occupied@),
            merged: namespace(self.merged@),
            conflicts: conflict_views(self.conflicts@),
            stats: self.stats,
        }
    }

    fn insert(&mut self, record: SyncRecord)
        requires
            old(self).inv(),
        ensures
            final(self).inv(),
            final(self).state() == (MergeState {
                merged: old(self).state().merged.insert(record.path@, record@),
                ..old(self).state()
            }),
    {
        let ghost before = self.merged@;
        put(&mut self.merged, record);
        proof {
            lemma_namespace_put(before, self.merged@, record);
        }
    }

    fn occupy(&mut self, path: WirePath)
        requires
            old(self).inv(),
        ensures
            final(self).inv(),
            final(self).state() == (MergeState {
                occupied: old(self).state().occupied.insert(path@),
                ..old(self).state()
            }),
    {
        let ghost before = self.occupied@;
        put(&mut self.occupied, path);
        proof {
            assert forall|key: Seq<u8>| #[trigger]
                path_set(self.occupied@).contains(key) == path_set(before).insert(path@).contains(
                key,
            ) by {
                assert(table(self.occupied@).contains_key(key) == has_key(self.occupied@, key));
                assert(table(before).contains_key(key) == has_key(before, key));
            }
            assert(path_set(self.occupied@) =~= path_set(before).insert(path@));
        }
    }

    /// Resolves a conflict of two records of one path.
    #[verifier::rlimit(30)]
    fn resolve_conflict(
        &mut self,
        left: &SyncRecord,
        right: &SyncRecord,
        reason: ConflictReason,
    ) -> (result: Result<(), ReconcileError>)
        requires
            old(self).inv(),
            old(self).stats.conflicts < usize::MAX,
            old(self).stats.conflict_copies < usize::MAX,
        ensures
            final(self).inv(),
            match result {
                Ok(()) => resolved(old(self).state(), left@, right@, reason) == Ok::<
                    MergeState,
                    ReconcileError,
                >(final(self).state()),
                Err(error) => resolved(old(self).state(), left@, right@, reason) == Err::<
                    MergeState,
                    ReconcileError,
                >(error) && final(self).state() == abandoned(old(self).state(), left@, right@) && (
                error == ReconcileError::CounterOverflow ==> *final(self) == *old(self)),
            },
    {
        let ghost before = self.state();
        let ghost expected = resolved(before, left@, right@, reason);
        let (winner, loser) = if wins_left(left, right) {
            (left, right)
        } else {
            (right, left)
        };
        let winner_hash = winner.logical_hash();
        let loser_hash = loser.logical_hash();
        let mut version = left.version.clone();
        version.merge(&right.version);
        if version.increment(conflict_resolver_replica()).is_err() {
            return Err(ReconcileError::CounterOverflow);
        }
        let mut canonical = winner.clone();
        canonical.version = version.clone();
        self.insert(canonical);
        let mut conflict_path: Option<WirePath> = None;
        if should_preserve_loser(winner, loser) {
            let path = match allocate_conflict_path(&loser.path, &loser_hash, &self.occupied) {
                Ok(path) => path,
                Err(error) => {
                    proof {
                        lemma_allocated_is_free(
                            loser.path@,
                            loser_hash@,
                            path_set(self.occupied@),
                            0,
                        );
                        assert(self.state() == abandoned(before, left@, right@));
                        assert(expected == Err::<MergeState, ReconcileError>(error));
                    }
                    return Err(error);
                },
            };
            let mut preserved = loser.clone();
            preserved.path = path.clone();
            preserved.version = version;
            preserved.tombstone = false;
            self.insert(preserved);
            self.occupy(path.clone());
            self.stats.conflict_copies = self.stats.conflict_copies + 1;
            conflict_path = Some(path);
        }
        let note = ConflictRecord {
            path: left.path.clone(),
            conflict_path,
            winner_hash,
            loser_hash,
            reason,
        };
        let ghost notes = self.conflicts@;
        self.conflicts.push(note);
        self.stats.conflicts = self.stats.conflicts + 1;
        proof {
            assert(conflict_views(self.conflicts@) =~= conflict_views(notes).push(note@));
            let after = self.state();
            assert(expected is Ok);
            let goal = expected->Ok_0;
            assert(after.merged =~= goal.merged);
            assert(after.occupied =~= goal.occupied);
            assert(after.conflicts =~= goal.conflicts);
            assert(after.stats == goal.stats);
        }
        Ok(())
    }
}

/// The bytes of each path.
pub open spec fn path_views(paths: Seq<WirePath>) -> Seq<Seq<u8>> {
    Seq::new(paths.len(), |i: int| paths[i]@)
}

proof fn lemma_path_views(paths: Seq<WirePath>)
    requires
        ascending(paths),
    ensures
        names_ascend(path_views(paths)),
        path_views(paths).to_set() == path_set(paths),
        forall|path: Seq<u8>| #[trigger] path_views(paths).contains(path) == has_key(paths, path),
{
    let all = path_views(paths);
    assert forall|i: int, j: int| 0 <= i < j < all.len() implies byte_less(
        #[trigger] all[i],
        #[trigger] all[j],
    ) by {
        assert(byte_less(paths[i].key(), paths[j].key()));
    }
    assert forall|path: Seq<u8>| #[trigger] all.contains(path) == has_key(paths, path) by {
        if all.contains(path) {
            let i = choose|i: int| 0 <= i < all.len() && all[i] == path;
            assert(paths[i].key() == path);
        }
        if has_key(paths, path) {
            let r = rank_of(paths, path);
            assert(all[r] == path);
        }
    }
    assert(all.to_set() =~= path_set(paths)) by {
        assert forall|path: Seq<u8>| #[trigger]
            all.to_set().contains(path) == path_set(paths).contains(path) by {
            assert(all.to_set().contains(path) == all.contains(path));
        }
    }
}

/// Adds the paths of all records.
fn add_paths(paths: &mut Vec<WirePath>, records: &Vec<SyncRecord>)
    requires
        ascending(old(paths)@),
        ascending(records@),
    ensures
        ascending(final(paths)@),
        forall|path: Seq<u8>| #[trigger]
            has_key(final(paths)@, path) == (has_key(old(paths)@, path) || has_key(
                records@,
                path,
            )),
{
    let ghost before = paths@;
    let mut i: usize = 0;
    while i < records.len()
        invariant
            i <= records@.len(),
            ascending(paths@),
            forall|path: Seq<u8>| #[trigger]
                has_key(paths@, path) == (has_key(before, path) || has_key(
                    records@.take(i as int),
                    path,
                )),
        decreases records@.len() - i,
    {
        let ghost middle = paths@;
        let path = records[i].path.clone();
        put(paths, path);
        proof {
            assert forall|key: Seq<u8>| #[trigger]
                has_key(paths@, key) == (has_key(before, key) || has_key(
                    records@.take(i + 1),
                    key,
                )) by {
                assert(table(paths@).contains_key(key) == has_key(paths@, key));
                assert(table(middle).contains_key(key) == has_key(middle, key));
                let less = records@.take(i as int);
                let more = records@.take(i + 1);
                if has_key(less, key) {
                    let r = rank_of(less, key);
                    assert(more[r].key() == key);
                }
                if has_key(more, key) {
                    let r = rank_of(more, key);
                    if r < i {
                        assert(less[r].key() == key);
                    }
                }
                assert(more[i as int].key() == path@);
            }
        }
        i = i + 1;
    }
    proof {
        assert(records@.take(i as int) =~= records@);
    }
}

/// What a merge result says.
pub open spec fn says(result: MergeResult, state: MergeState) -> bool {
    &&& ascending(result.records@)
    &&& namespace(result.records@) == state.merged
    &&& conflict_views(result.conflicts@) == state.conflicts
    &&& result.stats == state.stats
}

/// The sum of what was counted by path.
spec fn counted(stats: MergeStats) -> int {
    stats.equal + stats.selected_left + stats.selected_right + stats.conflicts
}

/// Merges two complete snapshots into one namespace that does not depend on which is which.
pub fn merge_snapshots(left: &MerkleTree, right: &MerkleTree) -> (result: Result<
    MergeResult,
    ReconcileError,
>)
    ensures
        match result {
            Ok(result) => match merge_outcome(left@, right@) {
                Ok(state) => says(result, state),
                Err(_) => false,
            },
            Err(error) => merge_outcome(left@, right@) == Err::<MergeState, ReconcileError>(error),
        },
{
    let left_hash = left.root_hash();
    let right_hash = right.root_hash();
    proof {
        if left_hash@ == right_hash@ {
            crate::hash::lemma_hash_view_injective(left_hash, right_hash);
        }
    }
    if left_hash == right_hash && left.len() == right.len() {
        let records = copy_records(left.records());
        let stats = MergeStats {
            equal: left.len(),
            selected_left: 0,
            selected_right: 0,
            conflicts: 0,
            conflict_copies: 0,
        };
        let conflicts: Vec<ConflictRecord> = Vec::new();
        assert(conflict_views(conflicts@) =~= Seq::empty());
        return Ok(MergeResult { records, conflicts, stats });
    }
    let ghost l = left@;
    let ghost r = right@;
    let left_records = left.records();
    let right_records = right.records();
    let mut paths: Vec<WirePath> = Vec::new();
    let mut occupied: Vec<WirePath> = Vec::new();
    proof {
        lemma_table_empty::<WirePath>();
        lemma_well_keyed(left_records@);
        lemma_well_keyed(right_records@);
    }
    add_paths(&mut paths, left_records);
    add_paths(&mut paths, right_records);
    add_paths(&mut occupied, left_records);
    add_paths(&mut occupied, right_records);
    let ghost all = path_views(paths@);
    proof {
        lemma_path_views(paths@);
        assert(path_set(occupied@) =~= path_set(paths@));
        assert forall|path: Seq<u8>| #[trigger]
            all.contains(path) <==> l.contains_key(path) || r.contains_key(path) by {
            assert(all.contains(path) == has_key(paths@, path));
        }
        assert(lists_paths(l, r, all));
        crate::merkle::lemma_names_canonical(all_paths(l, r), all);
        lemma_table_empty::<SyncRecord>();
    }
    let mut progress = MergeProgress {
        occupied,
        merged: Vec::new(),
        conflicts: Vec::new(),
        stats: MergeStats {
            equal: 0,
            selected_left: 0,
            selected_right: 0,
            conflicts: 0,
            conflict_copies: 0,
        },
    };
    proof {
        assert(progress.state().merged =~= Namespace::empty());
        assert(progress.state().conflicts =~= Seq::empty());
        assert(merge_upto(l, r, all, 0) == Ok::<MergeState, ReconcileError>(progress.state()));
    }
    let mut i: usize = 0;
    while i < paths.len()
        invariant
            i <= paths@.len(),
            all == path_views(paths@),
            l == left@,
            r == right@,
            !same_root(l, r),
            all == all_paths(l, r),
            forall|path: Seq<u8>| #[trigger]
                all.contains(path) <==> l.contains_key(path) || r.contains_key(path),
            well_keyed(l),
            well_keyed(r),
            progress.inv(),
            merge_upto(l, r, all, i as nat) == Ok::<MergeState, ReconcileError>(progress.state()),
            counted(progress.stats) == i,
            progress.stats.conflict_copies <= progress.stats.conflicts,
        decreases paths@.len() - i,
    {
        let path = &paths[i];
        let ghost before = progress.state();
        let ghost step = merge_step(l, r, before, path@);
        proof {
            assert(all[i as int] == path@);
            assert(all.contains(path@));
            assert(merge_upto(l, r, all, (i + 1) as nat) == step);
            if step is Err {
                lemma_error_stays(l, r, all, (i + 1) as nat, all.len());
            }
        }
        let (pick, side) = match (left.get(path), right.get(path)) {
            (Some(a), None) => (Pick::Take(a), Side::Left),
            (None, Some(b)) => (Pick::Take(b), Side::Right),
            (Some(a), Some(b)) => match a.version.relation(&b.version) {
                CausalRelation::Before => (Pick::Take(b), Side::Right),
                CausalRelation::After => (Pick::Take(a), Side::Left),
                CausalRelation::Equal => if a.same_state(b) {
                    (Pick::Take(a), Side::Both)
                } else {
                    (Pick::Resolve(a, b, ConflictReason::EqualClockDivergence), Side::Both)
                },
                CausalRelation::Concurrent => if a.same_state(b) {
                    (Pick::Join(a, b), Side::Both)
                } else {
                    (Pick::Resolve(a, b, ConflictReason::ConcurrentEdit), Side::Both)
                },
            },
            (None, None) => {
                assert(false);
                return Err(ReconcileError::DuplicatePath);
            },
        };
        match pick {
            Pick::Take(record) => {
                progress.insert(record.clone());
            },
            Pick::Join(a, b) => {
                let mut record = a.clone();
                record.version.merge(&b.version);
                progress.insert(record);
            },
            Pick::Resolve(a, b, reason) => {
                match progress.resolve_conflict(a, b, reason) {
                    Ok(()) => {},
                    Err(error) => {
                        return Err(error);
                    },
                }
                i = i + 1;
                continue ;
            },
        }
        match side {
            Side::Left => {
                progress.stats.selected_left = progress.stats.selected_left + 1;
            },
            Side::Right => {
                progress.stats.selected_right = progress.stats.selected_right + 1;
            },
            Side::Both => {
                progress.stats.equal = progress.stats.equal + 1;
            },
        }
        proof {
            assert(step is Ok);
            let goal = step->Ok_0;
            let after = progress.state();
            assert(after.merged =~= goal.merged);
            assert(after.occupied =~= goal.occupied);
            assert(after.conflicts =~= goal.conflicts);
            assert(after.stats == goal.stats);
        }
        i = i + 1;
    }
    Ok(
        MergeResult {
            records: progress.merged,
            conflicts: progress.conflicts,
            stats: progress.stats,
        },
    )
}

/// What is done with the records of one path.
enum Pick<'a> {
    Take(&'a SyncRecord),
    Join(&'a SyncRecord, &'a SyncRecord),
    Resolve(&'a SyncRecord, &'a SyncRecord, ConflictReason),
}

/// Where the state of one path comes from.
enum Side {
    Left,
    Right,
    Both,
}

/// A merge that has failed stays failed.
proof fn lemma_error_stays(
    left: Namespace,
    right: Namespace,
    paths: Seq<Seq<u8>>,
    n: nat,
    m: nat,
)
    requires
        n <= m,
        merge_upto(left, right, paths, n) is Err,
    ensures
        merge_upto(left, right, paths, m) == merge_upto(left, right, paths, n),
    decreases m,
{
    if n < m {
        lemma_error_stays(left, right, paths, n, (m - 1) as nat);
    }
}

impl MergeResult {
    /// Builds the Merkle tree of the merged namespace.
    pub fn tree(&self) -> (tree: Result<MerkleTree, ReconcileError>)
        ensures
            match tree {
                Ok(tree) => load_fault(views(self.records@)) is None && tree@ == gathered(
                    views(self.records@),
                ),
                Err(error) => load_fault(views(self.records@)) == Some(error),
            },
    {
        MerkleTree::from_records(copy_records(&self.records))
    }
}

/// One piece of work that leads to a merged namespace.
#[derive(Debug, PartialEq, Eq)]
pub enum ApplyAction {
    /// Materialize or update a live object, then adopt its exact version.
    Materialize { record: SyncRecord },
    /// Remove a live object if it is there, and keep the tombstone.
    Delete { record: SyncRecord },
}

/// What an action says.
#[verifier::ext_equal]
pub struct ActionView {
    /// The object goes away.
    pub deletes: bool,
    /// The record to adopt.
    pub record: RecordView,
}

impl View for ApplyAction {
    type V = ActionView;

    open spec fn view(&self) -> ActionView {
        match self {
            ApplyAction::Materialize { record } => ActionView { deletes: false, record: record@ },
            ApplyAction::Delete { record } => ActionView { deletes: true, record: record@ },
        }
    }
}

/// What actions say.
pub open spec fn action_views(actions: Seq<ApplyAction>) -> Seq<ActionView> {
    Seq::new(actions.len(), |i: int| actions[i]@)
}

/// The paths that the comparison of two namespaces finds, in ascending order.
pub open spec fn lists_differences(
    current: Namespace,
    desired: Namespace,
    paths: Seq<Seq<u8>>,
) -> bool {
    &&& names_ascend(paths)
    &&& forall|path: Seq<u8>| #[trigger]
        paths.contains(path) <==> differs(
            leaves(current),
            leaves(desired),
            components(path),
            MAX_DEPTH as nat,
        )
}

/// The paths that the comparison of two namespaces finds, in ascending order.
pub open spec fn differences(current: Namespace, desired: Namespace) -> Seq<Seq<u8>> {
    choose|paths: Seq<Seq<u8>>| lists_differences(current, desired, paths)
}

/// The work for some paths: each desired record that is not there already.
pub open spec fn plan(current: Namespace, desired: Namespace, paths: Seq<Seq<u8>>) -> Seq<
    ActionView,
>
    decreases paths.len(),
{
    if paths.len() == 0 {
        Seq::empty()
    } else {
        let earlier = plan(current, desired, paths.drop_last());
        let path = paths.last();
        if !desired.contains_key(path) || (current.contains_key(path) && current[path]
            == desired[path]) {
            earlier
        } else {
            earlier.push(
                ActionView { deletes: desired[path].tombstone, record: desired[path] },
            )
        }
    }
}

/// Works out what leads from a tree to a merge result.
pub fn actions_to_reach(current: &MerkleTree, desired: &MergeResult) -> (actions: Result<
    Vec<ApplyAction>,
    ReconcileError,
>)
    ensures
        match actions {
            Ok(actions) => {
                let goal = gathered(views(desired.records@));
                &&& load_fault(views(desired.records@)) is None
                &&& action_views(actions@) == plan(current@, goal, differences(current@, goal))
            },
            Err(error) => load_fault(views(desired.records@)) == Some(error),
        },
{
    let tree = match desired.tree() {
        Ok(tree) => tree,
        Err(error) => {
            return Err(error);
        },
    };
    let paths = current.different_paths(&tree);
    let ghost here = current@;
    let ghost goal = tree@;
    let ghost all = path_views(paths@);
    proof {
        lemma_path_views(paths@);
        assert(lists_differences(here, goal, all));
        crate::merkle::lemma_names_canonical(differences(here, goal), all);
    }
    let mut actions: Vec<ApplyAction> = Vec::new();
    assert(action_views(actions@) =~= plan(here, goal, all.take(0)));
    let mut i: usize = 0;
    while i < paths.len()
        invariant
            i <= paths@.len(),
            here == current@,
            goal == tree@,
            all == path_views(paths@),
            action_views(actions@) == plan(here, goal, all.take(i as int)),
        decreases paths@.len() - i,
    {
        let path = &paths[i];
        let ghost before = actions@;
        proof {
            assert(all.take(i + 1).drop_last() =~= all.take(i as int));
            assert(all.take(i + 1).last() == path@);
        }
        match tree.get(path) {
            Some(record) => {
                let there = match current.get(path) {
                    Some(held) => held.same(record),
                    None => false,
                };
                if !there {
                    let action = if record.tombstone {
                        ApplyAction::Delete { record: record.clone() }
                    } else {
                        ApplyAction::Materialize { record: record.clone() }
                    };
                    actions.push(action);
                    assert(action_views(actions@) =~= action_views(before).push(action@));
                }
            },
            None => {},
        }
        i = i + 1;
    }
    assert(all.take(i as int) =~= all);
    Ok(actions)
}

/// There is nothing to do where the namespace is reached.
pub proof fn law_nothing_to_do_when_reached(space: Namespace)
    ensures
        plan(space, space, differences(space, space)) == Seq::<ActionView>::empty(),
{
    let none = Seq::<Seq<u8>>::empty();
    assert(lists_differences(space, space, none)) by {
        assert forall|path: Seq<u8>| #[trigger]
            none.contains(path) <==> differs(
                leaves(space),
                leaves(space),
                components(path),
                MAX_DEPTH as nat,
            ) by {
            law_no_difference_to_itself(leaves(space), components(path), MAX_DEPTH as nat);
        }
    }
    let paths = differences(space, space);
    assert(lists_differences(space, space, paths));
    crate::merkle::lemma_names_canonical(paths, none);
}

proof fn lemma_plan_holds(current: Namespace, desired: Namespace, paths: Seq<Seq<u8>>, k: int)
    requires
        0 <= k < paths.len(),
        desired.contains_key(paths[k]),
        !(current.contains_key(paths[k]) && current[paths[k]] == desired[paths[k]]),
    ensures
        plan(current, desired, paths).contains(
            ActionView { deletes: desired[paths[k]].tombstone, record: desired[paths[k]] },
        ),
    decreases paths.len(),
{
    let wanted = ActionView { deletes: desired[paths[k]].tombstone, record: desired[paths[k]] };
    let all = plan(current, desired, paths);
    let earlier = plan(current, desired, paths.drop_last());
    if k == paths.len() - 1 {
        assert(all[all.len() - 1] == wanted);
    } else {
        lemma_plan_holds(current, desired, paths.drop_last(), k);
        let i = choose|i: int| 0 <= i < earlier.len() && earlier[i] == wanted;
        assert(all[i] == wanted);
    }
}

/// The paths on which two namespaces differ can be listed in order.
proof fn lemma_differences_listed(current: Namespace, desired: Namespace)
    requires
        current.dom().finite(),
        desired.dom().finite(),
    ensures
        lists_differences(current, desired, differences(current, desired)),
{
    let found = Set::new(
        |path: Seq<u8>|
            differs(leaves(current), leaves(desired), components(path), MAX_DEPTH as nat),
    );
    let all = current.dom() + desired.dom();
    assert(found.subset_of(all)) by {
        assert forall|path: Seq<u8>| found.contains(path) implies all.contains(path) by {
            crate::path::lemma_components_slashed(path);
            lemma_differs_somewhere(
                leaves(current),
                leaves(desired),
                components(path),
                MAX_DEPTH as nat,
            );
        }
    }
    vstd::set_lib::lemma_set_subset_finite(all, found);
    let paths = crate::merkle::lemma_names_listable(found);
    assert(lists_differences(current, desired, paths));
}

/// A leaf on which the sides differ is a leaf of one of them.
proof fn lemma_differs_somewhere(
    left: crate::merkle::Leaves,
    right: crate::merkle::Leaves,
    parts: Seq<Seq<u8>>,
    depth: nat,
)
    requires
        differs(left, right, parts, depth),
    ensures
        left.contains_key(parts) || right.contains_key(parts),
    decreases parts.len(),
{
    if parts.len() > 0 {
        let rest = parts.drop_first();
        let a = crate::merkle::below(left, parts[0]);
        let b = crate::merkle::below(right, parts[0]);
        assert(seq![parts[0]] + rest =~= parts);
        if crate::merkle::populated(a) && crate::merkle::populated(b) {
            lemma_differs_somewhere(a, b, rest, (depth - 1) as nat);
        }
    }
}

/// The actions reach the desired namespace: where digests do not collide, every desired record
/// that is not there already has an action that adopts it.
pub proof fn law_actions_reach_the_goal(current: Namespace, desired: Namespace, path: Seq<u8>)
    requires
        crate::merkle::no_collision(leaves(current), leaves(desired), MAX_DEPTH as nat),
        components(path).len() <= MAX_DEPTH,
        current.dom().finite(),
        desired.dom().finite(),
        desired.contains_key(path),
        current.contains_key(path) ==> logical_digest(current[path]) != logical_digest(
            desired[path],
        ),
    ensures
        plan(current, desired, differences(current, desired)).contains(
            ActionView { deletes: desired[path].tombstone, record: desired[path] },
        ),
{
    let parts = components(path);
    crate::path::lemma_components_slashed(path);
    crate::merkle::law_diff_is_exact(leaves(current), leaves(desired), parts, MAX_DEPTH as nat);
    assert(leaves(desired).contains_key(parts));
    let paths = differences(current, desired);
    lemma_differences_listed(current, desired);
    assert(paths.contains(path));
    let k = choose|k: int| 0 <= k < paths.len() && paths[k] == path;
    lemma_plan_holds(current, desired, paths, k);
}

/// What a plan holds: an action for each of the paths that has a desired record which is not there
/// already, in path order.
proof fn lemma_plan_shape(current: Namespace, desired: Namespace, paths: Seq<Seq<u8>>)
    requires
        names_ascend(paths),
        well_keyed(desired),
    ensures
        ({
            let all = plan(current, desired, paths);
            &&& forall|i: int|
                0 <= i < all.len() ==> paths.contains((#[trigger] all[i]).record.path)
                    && desired.contains_key(all[i].record.path) && all[i] == (ActionView {
                    deletes: desired[all[i].record.path].tombstone,
                    record: desired[all[i].record.path],
                })
            &&& forall|i: int, j: int|
                0 <= i < j < all.len() ==> byte_less(
                    (#[trigger] all[i]).record.path,
                    (#[trigger] all[j]).record.path,
                )
        }),
    decreases paths.len(),
{
    if paths.len() > 0 {
        let less = paths.drop_last();
        let last = paths.last();
        let all = plan(current, desired, paths);
        let earlier = plan(current, desired, less);
        lemma_plan_shape(current, desired, less);
        assert(paths[paths.len() - 1] == last);
        assert forall|i: int| 0 <= i < earlier.len() implies paths.contains(
            (#[trigger] earlier[i]).record.path,
        ) && byte_less(earlier[i].record.path, last) by {
            let k = choose|k: int| 0 <= k < less.len() && less[k] == earlier[i].record.path;
            assert(paths[k] == less[k]);
            assert(byte_less(paths[k], paths[paths.len() - 1]));
        }
        assert forall|i: int| 0 <= i < all.len() implies paths.contains(
            (#[trigger] all[i]).record.path,
        ) && desired.contains_key(all[i].record.path) && all[i] == (ActionView {
            deletes: desired[all[i].record.path].tombstone,
            record: desired[all[i].record.path],
        }) by {
            if i < earlier.len() {
                assert(all[i] == earlier[i]);
            } else {
                assert(paths.contains(last));
            }
        }
        assert forall|i: int, j: int| 0 <= i < j < all.len() implies byte_less(
            (#[trigger] all[i]).record.path,
            (#[trigger] all[j]).record.path,
        ) by {
            assert(all[i] == earlier[i]);
            if j < earlier.len() {
                assert(all[j] == earlier[j]);
            }
        }
    }
}

/// The actions come in path order, at most one for a path, and each adopts the desired record of
/// its path. Where digests do not collide, there is one for a path exactly if it has a desired
/// record, and the record that is there, if any, has another digest.
pub proof fn law_one_action_for_each_difference(current: Namespace, desired: Namespace)
    requires
        current.dom().finite(),
        desired.dom().finite(),
        well_keyed(desired),
    ensures
        ({
            let actions = plan(current, desired, differences(current, desired));
            &&& forall|i: int, j: int|
                0 <= i < j < actions.len() ==> byte_less(
                    (#[trigger] actions[i]).record.path,
                    (#[trigger] actions[j]).record.path,
                )
            &&& forall|i: int|
                0 <= i < actions.len() ==> desired.contains_key(
                    (#[trigger] actions[i]).record.path,
                ) && actions[i] == (ActionView {
                    deletes: desired[actions[i].record.path].tombstone,
                    record: desired[actions[i].record.path],
                })
            &&& crate::merkle::no_collision(leaves(current), leaves(desired), MAX_DEPTH as nat)
                ==> forall|path: Seq<u8>| #[trigger]
                components(path).len() <= MAX_DEPTH ==> (acted_on(actions, path) <==> (
                desired.contains_key(path) && !(current.contains_key(path) && logical_digest(
                    current[path],
                ) == logical_digest(desired[path]))))
        }),
{
    let paths = differences(current, desired);
    let actions = plan(current, desired, paths);
    lemma_differences_listed(current, desired);
    lemma_plan_shape(current, desired, paths);
    if crate::merkle::no_collision(leaves(current), leaves(desired), MAX_DEPTH as nat) {
        assert forall|path: Seq<u8>| #[trigger] components(path).len() <= MAX_DEPTH implies (
        acted_on(actions, path) <==> (desired.contains_key(path) && !(current.contains_key(path)
            && logical_digest(current[path]) == logical_digest(desired[path])))) by {
            let parts = components(path);
            crate::path::lemma_components_slashed(path);
            crate::merkle::law_diff_is_exact(
                leaves(current),
                leaves(desired),
                parts,
                MAX_DEPTH as nat,
            );
            if acted_on(actions, path) {
                let i = choose|i: int|
                    0 <= i < actions.len() && (#[trigger] actions[i]).record.path == path;
                assert(paths.contains(actions[i].record.path));
            }
            if desired.contains_key(path) && !(current.contains_key(path) && logical_digest(
                current[path],
            ) == logical_digest(desired[path])) {
                law_actions_reach_the_goal(current, desired, path);
                let action = ActionView {
                    deletes: desired[path].tombstone,
                    record: desired[path],
                };
                let i = choose|i: int| 0 <= i < actions.len() && actions[i] == action;
                assert(actions[i].record.path == path);
            }
        }
    }
}

/// Some action is for this path.
pub open spec fn acted_on(actions: Seq<ActionView>, path: Seq<u8>) -> bool {
    exists|i: int| 0 <= i < actions.len() && (#[trigger] actions[i]).record.path == path
}

} // verus!
