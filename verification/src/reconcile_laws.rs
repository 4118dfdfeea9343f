//! What holds of every merge.
use vstd::prelude::*;

use crate::conflict_path::{
    allocated, law_allocated_name_is_portable_and_free, lemma_allocated_is_free,
};
use crate::hash::{blake3_derived, blake3_digest, le_bytes};
use crate::merkle::{lemma_names_canonical, lemma_names_listable, names_ascend, Namespace};
use crate::order::{byte_less, lemma_byte_less_asym, lemma_byte_less_total};
use crate::reconcile::{
    all_paths, left_wins, lists_paths, live_directory, loser_kept, merge_outcome, merge_step,
    merge_upto, resolved, resolver_id, same_root, state_digest, state_material, well_keyed,
    ConflictReason, ConflictView, MergeState, MergeStats, ReconcileError,
};
use crate::record::{
    digest_code, flag_code, kind_code, logical_digest, record_fault, same_object, RecordView,
    SyncEntryKind,
};
use crate::text::utf8;
use crate::version::{
    causal_relation, counter_of, joined, larger, law_merge_commutes, law_merge_is_least_upper_bound,
    law_relation_is_antisymmetric, seen_by, CausalRelation, Counters,
};

verus! {

/// A snapshot as a tree holds it: finitely many records, each under its own path, in order, and
/// with no counter of zero.
pub open spec fn valid_snapshot(space: Namespace) -> bool {
    &&& space.dom().finite()
    &&& well_keyed(space)
    &&& forall|path: Seq<u8>| #[trigger]
        space.contains_key(path) ==> record_fault(space[path]) is None && listed_positive(
            space[path].version,
        )
}

/// No listed counter is zero.
pub open spec fn listed_positive(version: Counters) -> bool {
    forall|replica: Seq<u8>| #[trigger] version.contains_key(replica) ==> version[replica] > 0
}

/// The paths of two snapshots can be listed in order.
proof fn lemma_paths_listed(left: Namespace, right: Namespace)
    requires
        left.dom().finite(),
        right.dom().finite(),
    ensures
        lists_paths(left, right, all_paths(left, right)),
{
    let paths = lemma_names_listable(left.dom() + right.dom());
    assert forall|path: Seq<u8>| #[trigger]
        paths.contains(path) <==> left.contains_key(path) || right.contains_key(path) by {
        assert((left.dom() + right.dom()).contains(path) == (left.contains_key(path)
            || right.contains_key(path)));
    }
    assert(lists_paths(left, right, paths));
}

/// The digests tell the two snapshots apart: the same root means the same records, and objects in
/// a conflict that their digests decide have different ones.
pub open spec fn digests_tell_apart(left: Namespace, right: Namespace) -> bool {
    &&& same_root(left, right) ==> left == right
    &&& forall|path: Seq<u8>| #[trigger]
        in_conflict(left, right, path) && live_directory(left[path]) == live_directory(right[path])
            ==> state_digest(left[path]) != state_digest(right[path])
}

/// The counts with the sides exchanged.
pub open spec fn mirrored(stats: MergeStats) -> MergeStats {
    MergeStats {
        selected_left: stats.selected_right,
        selected_right: stats.selected_left,
        ..stats
    }
}

/// Two merges come to the same, but for which side is left and which right in the counts.
pub open spec fn mirror_images(
    a: Result<MergeState, ReconcileError>,
    b: Result<MergeState, ReconcileError>,
) -> bool {
    match (a, b) {
        (Ok(x), Ok(y)) => {
            &&& x.occupied == y.occupied
            &&& x.merged == y.merged
            &&& x.conflicts == y.conflicts
            &&& y.stats == mirrored(x.stats)
        },
        (Err(x), Err(y)) => x == y,
        _ => false,
    }
}

/// The conflict is met at this path.
pub open spec fn in_conflict(left: Namespace, right: Namespace, path: Seq<u8>) -> bool {
    &&& left.contains_key(path)
    &&& right.contains_key(path)
    &&& !same_object(left[path], right[path])
    &&& causal_relation(left[path].version, right[path].version) == CausalRelation::Equal
        || causal_relation(left[path].version, right[path].version) == CausalRelation::Concurrent
}

/// The record that wins a conflict.
pub open spec fn winner_of(left: RecordView, right: RecordView) -> RecordView {
    if left_wins(left, right) {
        left
    } else {
        right
    }
}

/// The record that loses a conflict.
pub open spec fn loser_of(left: RecordView, right: RecordView) -> RecordView {
    if left_wins(left, right) {
        right
    } else {
        left
    }
}

proof fn lemma_equal_versions(a: Counters, b: Counters)
    requires
        listed_positive(a),
        listed_positive(b),
        causal_relation(a, b) == CausalRelation::Equal,
    ensures
        a == b,
{
    assert(seen_by(a, b) && seen_by(b, a));
    assert forall|k: Seq<u8>|
        #![trigger a.dom().contains(k)]
        a.dom().contains(k) == b.dom().contains(k) && (a.dom().contains(k) ==> a[k] == b[k]) by {
        assert(counter_of(a, k) <= counter_of(b, k));
        assert(counter_of(b, k) <= counter_of(a, k));
        assert(a.contains_key(k) ==> a[k] > 0);
        assert(b.contains_key(k) ==> b[k] > 0);
    }
    assert(a =~= b);
}

proof fn lemma_resolved_mirrored(
    x: MergeState,
    y: MergeState,
    a: RecordView,
    b: RecordView,
    reason: ConflictReason,
)
    requires
        x.occupied == y.occupied,
        x.merged == y.merged,
        x.conflicts == y.conflicts,
        y.stats == mirrored(x.stats),
        a.path == b.path,
        live_directory(a) == live_directory(b) ==> state_digest(a) != state_digest(b),
    ensures
        mirror_images(resolved(x, a, b, reason), resolved(y, b, a, reason)),
{
    lemma_byte_less_total(state_digest(a), state_digest(b));
    lemma_byte_less_asym(state_digest(a), state_digest(b));
    law_merge_commutes(a.version, b.version);
    assert(left_wins(a, b) == !left_wins(b, a));
}

proof fn lemma_step_mirrored(
    left: Namespace,
    right: Namespace,
    x: MergeState,
    y: MergeState,
    path: Seq<u8>,
)
    requires
        valid_snapshot(left),
        valid_snapshot(right),
        digests_tell_apart(left, right),
        left.contains_key(path) || right.contains_key(path),
        x.occupied == y.occupied,
        x.merged == y.merged,
        x.conflicts == y.conflicts,
        y.stats == mirrored(x.stats),
    ensures
        mirror_images(merge_step(left, right, x, path), merge_step(right, left, y, path)),
{
    if left.contains_key(path) && right.contains_key(path) {
        let a = left[path];
        let b = right[path];
        law_relation_is_antisymmetric(a.version, b.version);
        law_merge_commutes(a.version, b.version);
        if same_object(a, b) {
            assert(record_fault(a) is None && record_fault(b) is None);
            if causal_relation(a.version, b.version) == CausalRelation::Equal {
                lemma_equal_versions(a.version, b.version);
                assert(a == b);
            } else {
                assert(RecordView { version: joined(a.version, b.version), ..a } == RecordView {
                    version: joined(b.version, a.version),
                    ..b
                });
            }
        } else if in_conflict(left, right, path) {
            lemma_resolved_mirrored(x, y, a, b, ConflictReason::EqualClockDivergence);
            lemma_resolved_mirrored(x, y, a, b, ConflictReason::ConcurrentEdit);
        }
    }
}

proof fn lemma_upto_mirrored(left: Namespace, right: Namespace, paths: Seq<Seq<u8>>, n: nat)
    requires
        valid_snapshot(left),
        valid_snapshot(right),
        digests_tell_apart(left, right),
        lists_paths(left, right, paths),
        n <= paths.len(),
    ensures
        mirror_images(merge_upto(left, right, paths, n), merge_upto(right, left, paths, n)),
    decreases n,
{
    if n > 0 {
        lemma_upto_mirrored(left, right, paths, (n - 1) as nat);
        assert(paths.contains(paths[n - 1]));
        match (
            merge_upto(left, right, paths, (n - 1) as nat),
            merge_upto(right, left, paths, (n - 1) as nat),
        ) {
            (Ok(x), Ok(y)) => {
                lemma_step_mirrored(left, right, x, y, paths[n - 1]);
            },
            _ => {},
        }
    }
}

/// Merging does not depend on orientation: left with right and right with left come to the same
/// records and the same conflicts, or fail alike. Only the two counts of selected paths change
/// places.
pub proof fn law_merge_is_orientation_independent(left: Namespace, right: Namespace)
    requires
        valid_snapshot(left),
        valid_snapshot(right),
        digests_tell_apart(left, right),
    ensures
        mirror_images(merge_outcome(left, right), merge_outcome(right, left)),
{
    if !same_root(left, right) {
        let a = all_paths(left, right);
        lemma_paths_listed(left, right);
        assert(lists_paths(right, left, a));
        let b = all_paths(right, left);
        lemma_paths_listed(right, left);
        lemma_names_canonical(a, b);
        lemma_upto_mirrored(left, right, a, a.len());
    }
}

/// Merging a snapshot with itself gives it back, with no conflict.
pub proof fn law_merge_with_itself_is_identity(space: Namespace)
    ensures
        match merge_outcome(space, space) {
            Ok(state) => state.merged == space && state.conflicts.len() == 0,
            Err(_) => false,
        },
{
}

/// What every step of a merge keeps: the listed paths stay occupied, what is merged is occupied,
/// and each of the paths gone through is merged.
spec fn merge_inv(left: Namespace, right: Namespace, paths: Seq<Seq<u8>>, n: nat, state: MergeState) -> bool {
    &&& forall|path: Seq<u8>| #[trigger] paths.contains(path) ==> state.occupied.contains(path)
    &&& forall|path: Seq<u8>| #[trigger]
        state.merged.contains_key(path) ==> state.occupied.contains(path)
            && state.merged[path].path == path
    &&& forall|k: int| 0 <= k < n ==> state.merged.contains_key(#[trigger] paths[k])
    &&& forall|k: int|
        0 <= k < n && in_conflict(left, right, #[trigger] paths[k]) && loser_kept(
            winner_of(left[paths[k]], right[paths[k]]),
            loser_of(left[paths[k]], right[paths[k]]),
        ) ==> exists|copy: Seq<u8>| kept_at(left, right, paths[k], state.merged, copy)
    &&& forall|k: int|
        0 <= k < n ==> version_covers(left, right, #[trigger] paths[k], state.merged[paths[k]])
            && settles(left, right, paths[k], state.merged[paths[k]])
    &&& forall|path: Seq<u8>| #[trigger]
        state.merged.contains_key(path) ==> paths.contains(path) || is_copy(
            left,
            right,
            state.merged[path],
        )
    &&& state.merged.dom().finite()
}

/// The record is a copy of a file that was there on one side, in conflict with the other.
spec fn is_copy(left: Namespace, right: Namespace, record: RecordView) -> bool {
    exists|path: Seq<u8>|
        #![trigger in_conflict(left, right, path)]
        in_conflict(left, right, path) && loser_kept(
            winner_of(left[path], right[path]),
            loser_of(left[path], right[path]),
        ) && record == RecordView {
            path: record.path,
            version: record.version,
            ..loser_of(left[path], right[path])
        }
}

/// A record takes the place of another: it has seen what the other has, and says the same of the
/// path unless it has seen more.
pub open spec fn absorbs(record: RecordView, other: RecordView) -> bool {
    &&& seen_by(other.version, record.version)
    &&& same_object(record, other) || !seen_by(record.version, other.version)
}

/// The record of a path on which the sides do not compete: the only one, or the later one.
pub open spec fn later_record(left: Namespace, right: Namespace, path: Seq<u8>) -> Option<
    RecordView,
> {
    if !right.contains_key(path) {
        Some(left[path])
    } else if !left.contains_key(path) {
        Some(right[path])
    } else {
        match causal_relation(left[path].version, right[path].version) {
            CausalRelation::Before => Some(right[path]),
            CausalRelation::After => Some(left[path]),
            _ => None,
        }
    }
}

/// A record settles a path: it is the later one where there is one, and takes the place of the
/// records of both sides. Where neither is later it says what both say, or what the winner says.
pub open spec fn settles(
    left: Namespace,
    right: Namespace,
    path: Seq<u8>,
    record: RecordView,
) -> bool {
    &&& later_record(left, right, path) is Some ==> record == later_record(left, right, path)->0
    &&& left.contains_key(path) ==> absorbs(record, left[path])
    &&& right.contains_key(path) ==> absorbs(record, right[path])
    &&& in_conflict(left, right, path) ==> record == RecordView {
        version: record.version,
        ..winner_of(left[path], right[path])
    }
    &&& left.contains_key(path) && right.contains_key(path) && same_object(
        left[path],
        right[path],
    ) ==> same_object(record, left[path])
    &&& in_conflict(left, right, path) ==> {
        let known = joined(left[path].version, right[path].version);
        counter_of(known, resolver_id()) < u64::MAX && record.version == known.insert(
            resolver_id(),
            (counter_of(known, resolver_id()) + 1) as u64,
        )
    }
    &&& left.contains_key(path) && right.contains_key(path) && same_object(
        left[path],
        right[path],
    ) && causal_relation(left[path].version, right[path].version) == CausalRelation::Concurrent
        ==> record.version == joined(left[path].version, right[path].version)
    &&& left.contains_key(path) && right.contains_key(path) && same_object(
        left[path],
        right[path],
    ) && causal_relation(left[path].version, right[path].version) == CausalRelation::Equal
        ==> record.version == left[path].version
}

/// The merged record has seen what the records of its path on both sides have.
pub open spec fn version_covers(
    left: Namespace,
    right: Namespace,
    path: Seq<u8>,
    record: RecordView,
) -> bool {
    &&& left.contains_key(path) ==> seen_by(left[path].version, record.version)
    &&& right.contains_key(path) ==> seen_by(right[path].version, record.version)
}

/// The losing file of a path is kept, as it was, under a path that neither side had.
pub open spec fn kept_at(
    left: Namespace,
    right: Namespace,
    path: Seq<u8>,
    merged: Namespace,
    copy: Seq<u8>,
) -> bool {
    let loser = loser_of(left[path], right[path]);
    &&& merged.contains_key(copy)
    &&& !left.contains_key(copy)
    &&& !right.contains_key(copy)
    &&& merged[copy] == RecordView { path: copy, version: merged[copy].version, ..loser }
}

proof fn lemma_resolver_version(a: Counters, b: Counters, replica: Seq<u8>)
    requires
        counter_of(joined(a, b), replica) < u64::MAX,
    ensures
        seen_by(a, joined(a, b).insert(replica, (counter_of(joined(a, b), replica) + 1) as u64)),
        seen_by(b, joined(a, b).insert(replica, (counter_of(joined(a, b), replica) + 1) as u64)),
        !seen_by(joined(a, b).insert(replica, (counter_of(joined(a, b), replica) + 1) as u64), a),
        !seen_by(joined(a, b).insert(replica, (counter_of(joined(a, b), replica) + 1) as u64), b),
{
    law_merge_is_least_upper_bound(a, b, a);
    let known = joined(a, b);
    let version = known.insert(replica, (counter_of(known, replica) + 1) as u64);
    assert forall|k: Seq<u8>| counter_of(known, k) <= #[trigger] counter_of(version, k) by {}
    assert forall|k: Seq<u8>| #[trigger] counter_of(a, k) <= counter_of(version, k) by {
        assert(counter_of(a, k) <= counter_of(known, k));
        assert(counter_of(known, k) <= counter_of(version, k));
    }
    assert forall|k: Seq<u8>| #[trigger] counter_of(b, k) <= counter_of(version, k) by {
        assert(counter_of(b, k) <= counter_of(known, k));
        assert(counter_of(known, k) <= counter_of(version, k));
    }
    assert(counter_of(version, replica) == counter_of(known, replica) + 1);
    assert(counter_of(a, replica) <= counter_of(known, replica));
    assert(counter_of(b, replica) <= counter_of(known, replica));
}

/// What a conflict is resolved to follows both sides: its version counts the resolver once more
/// than either side and every other replica as far as the further one, and a copy of the losing
/// file has that version too. It fails before anything is changed exactly where the resolver cannot
/// count on.
pub proof fn law_resolution_follows_both(
    state: MergeState,
    left: RecordView,
    right: RecordView,
    reason: ConflictReason,
)
    requires
        left.path == right.path,
        state.occupied.contains(left.path),
    ensures
        ({
            let resolver = crate::reconcile::resolver_id();
            let known = joined(left.version, right.version);
            let outcome = resolved(state, left, right, reason);
            &&& outcome == Err::<MergeState, ReconcileError>(ReconcileError::CounterOverflow)
                <==> counter_of(known, resolver) == u64::MAX
            &&& outcome == Err::<MergeState, ReconcileError>(ReconcileError::CounterOverflow)
                ==> crate::reconcile::abandoned(state, left, right) == state
            &&& match outcome {
                Ok(after) => {
                    let version = after.merged[left.path].version;
                    let note = after.conflicts.last();
                    &&& counter_of(version, resolver) == counter_of(known, resolver) + 1
                    &&& forall|replica: Seq<u8>|
                        replica != resolver ==> #[trigger] counter_of(version, replica) == larger(
                            counter_of(left.version, replica),
                            counter_of(right.version, replica),
                        )
                    &&& causal_relation(version, left.version) == CausalRelation::After
                    &&& causal_relation(version, right.version) == CausalRelation::After
                    &&& note.conflict_path is Some ==> after.merged[note.conflict_path->0].version
                        == version
                },
                Err(_) => true,
            }
        }),
{
    let resolver = crate::reconcile::resolver_id();
    let known = joined(left.version, right.version);
    let loser = loser_of(left, right);
    let digest = crate::record::logical_digest(loser);
    lemma_allocated_is_free(loser.path, digest, state.occupied, 0);
    if counter_of(known, resolver) < u64::MAX {
        lemma_resolver_version(left.version, right.version, resolver);
        let version = known.insert(resolver, (counter_of(known, resolver) + 1) as u64);
        match resolved(state, left, right, reason) {
            Ok(after) => {
                assert(after.merged[left.path].version == version);
                assert forall|replica: Seq<u8>| replica != resolver implies #[trigger] counter_of(
                    version,
                    replica,
                ) == larger(
                    counter_of(left.version, replica),
                    counter_of(right.version, replica),
                ) by {
                    assert(counter_of(version, replica) == counter_of(known, replica));
                }
            },
            Err(_) => {},
        }
    }
}

/// What one step adds: the record of its path, and the copy of a losing file if it keeps one.
struct StepEffect {
    record: RecordView,
    copy: Option<RecordView>,
}

spec fn has_effect(
    left: Namespace,
    right: Namespace,
    path: Seq<u8>,
    before: MergeState,
    after: MergeState,
    effect: StepEffect,
) -> bool {
    &&& effect.record.path == path
    &&& version_covers(left, right, path, effect.record)
    &&& settles(left, right, path, effect.record)
    &&& match effect.copy {
        None => {
            &&& after.merged == before.merged.insert(path, effect.record)
            &&& after.occupied == before.occupied
            &&& !(in_conflict(left, right, path) && loser_kept(
                winner_of(left[path], right[path]),
                loser_of(left[path], right[path]),
            ))
        },
        Some(copy) => {
            &&& in_conflict(left, right, path)
            &&& loser_kept(
                winner_of(left[path], right[path]),
                loser_of(left[path], right[path]),
            )
            &&& after.merged == before.merged.insert(path, effect.record).insert(copy.path, copy)
            &&& after.occupied == before.occupied.insert(copy.path)
            &&& !before.occupied.contains(copy.path)
            &&& copy == RecordView {
                path: copy.path,
                version: copy.version,
                ..loser_of(left[path], right[path])
            }
        },
    }
}

proof fn lemma_resolved_effect(
    left: Namespace,
    right: Namespace,
    path: Seq<u8>,
    before: MergeState,
    after: MergeState,
    reason: ConflictReason,
) -> (effect: StepEffect)
    requires
        well_keyed(left),
        well_keyed(right),
        in_conflict(left, right, path),
        resolved(before, left[path], right[path], reason) == Ok::<MergeState, ReconcileError>(
            after,
        ),
    ensures
        has_effect(left, right, path, before, after, effect),
{
    let a = left[path];
    let b = right[path];
    let winner = winner_of(a, b);
    let loser = loser_of(a, b);
    let known = joined(a.version, b.version);
    let resolver = crate::reconcile::resolver_id();
    lemma_resolver_version(a.version, b.version, resolver);
    let version = known.insert(resolver, (counter_of(known, resolver) + 1) as u64);
    let digest = crate::record::logical_digest(loser);
    law_allocated_name_is_portable_and_free(loser.path, digest, before.occupied);
    let record = RecordView { version, ..winner };
    if loser_kept(winner, loser) {
        let copy = allocated(loser.path, digest, before.occupied)->Ok_0;
        StepEffect {
            record,
            copy: Some(RecordView { path: copy, version, tombstone: false, ..loser }),
        }
    } else {
        StepEffect { record, copy: None }
    }
}

proof fn lemma_step_effect(
    left: Namespace,
    right: Namespace,
    path: Seq<u8>,
    before: MergeState,
    after: MergeState,
) -> (effect: StepEffect)
    requires
        well_keyed(left),
        well_keyed(right),
        left.contains_key(path) || right.contains_key(path),
        merge_step(left, right, before, path) == Ok::<MergeState, ReconcileError>(after),
    ensures
        has_effect(left, right, path, before, after, effect),
{
    if !right.contains_key(path) {
        StepEffect { record: left[path], copy: None }
    } else if !left.contains_key(path) {
        StepEffect { record: right[path], copy: None }
    } else {
        let a = left[path];
        let b = right[path];
        law_merge_is_least_upper_bound(a.version, b.version, a.version);
        match causal_relation(a.version, b.version) {
            CausalRelation::Before => StepEffect { record: b, copy: None },
            CausalRelation::After => StepEffect { record: a, copy: None },
            CausalRelation::Equal => if same_object(a, b) {
                StepEffect { record: a, copy: None }
            } else {
                lemma_resolved_effect(
                    left,
                    right,
                    path,
                    before,
                    after,
                    ConflictReason::EqualClockDivergence,
                )
            },
            CausalRelation::Concurrent => if same_object(a, b) {
                StepEffect {
                    record: RecordView { version: joined(a.version, b.version), ..a },
                    copy: None,
                }
            } else {
                lemma_resolved_effect(
                    left,
                    right,
                    path,
                    before,
                    after,
                    ConflictReason::ConcurrentEdit,
                )
            },
        }
    }
}

proof fn lemma_step_inv(
    left: Namespace,
    right: Namespace,
    paths: Seq<Seq<u8>>,
    n: nat,
    before: MergeState,
    after: MergeState,
)
    requires
        well_keyed(left),
        well_keyed(right),
        lists_paths(left, right, paths),
        n < paths.len(),
        merge_inv(left, right, paths, n, before),
        merge_step(left, right, before, paths[n as int]) == Ok::<MergeState, ReconcileError>(after),
    ensures
        merge_inv(left, right, paths, n + 1, after),
{
    let path = paths[n as int];
    assert(paths.contains(path));
    let effect = lemma_step_effect(left, right, path, before, after);
    lemma_effect_inv(left, right, paths, n, before, after, effect);
}

proof fn lemma_effect_inv(
    left: Namespace,
    right: Namespace,
    paths: Seq<Seq<u8>>,
    n: nat,
    before: MergeState,
    after: MergeState,
    effect: StepEffect,
)
    requires
        lists_paths(left, right, paths),
        n < paths.len(),
        merge_inv(left, right, paths, n, before),
        has_effect(left, right, paths[n as int], before, after, effect),
    ensures
        merge_inv(left, right, paths, n + 1, after),
{
    let path = paths[n as int];
    assert(paths.contains(path));
    assert forall|k: int| 0 <= k < n implies #[trigger] paths[k] != path by {
        assert(byte_less(paths[k], paths[n as int]));
        lemma_byte_less_asym(path, path);
    }
    // What was merged before stays as it was.
    assert forall|other: Seq<u8>| before.merged.contains_key(other) && other
        != path implies #[trigger] after.merged.contains_key(other) && after.merged[other]
        == before.merged[other] by {
        assert(before.occupied.contains(other));
    }
    assert(after.merged.contains_key(path) && after.merged[path] == effect.record) by {
        assert(before.occupied.contains(path));
    }
    assert forall|k: int| 0 <= k < n + 1 implies after.merged.contains_key(#[trigger] paths[k])
        && version_covers(left, right, paths[k], after.merged[paths[k]]) && settles(
        left,
        right,
        paths[k],
        after.merged[paths[k]],
    ) by {
        if k < n {
            assert(before.merged.contains_key(paths[k]));
            assert(after.merged[paths[k]] == before.merged[paths[k]]);
        }
    }
    assert forall|k: int|
        0 <= k < n + 1 && in_conflict(left, right, #[trigger] paths[k]) && loser_kept(
            winner_of(left[paths[k]], right[paths[k]]),
            loser_of(left[paths[k]], right[paths[k]]),
        ) implies exists|copy: Seq<u8>| kept_at(left, right, paths[k], after.merged, copy) by {
        if k < n {
            let copy = choose|copy: Seq<u8>|
                kept_at(left, right, paths[k], before.merged, copy);
            assert(before.merged.contains_key(copy));
            assert(copy != path);
            assert(after.merged[copy] == before.merged[copy]);
            assert(kept_at(left, right, paths[k], after.merged, copy));
        } else {
            let copy = effect.copy->0.path;
            assert(!paths.contains(copy));
            assert(kept_at(left, right, paths[k], after.merged, copy));
        }
    }
    assert forall|other: Seq<u8>| #[trigger] after.merged.contains_key(other) implies paths.contains(
        other,
    ) || is_copy(left, right, after.merged[other]) by {
        if before.merged.contains_key(other) && other != path {
            assert(after.merged[other] == before.merged[other]);
        }
    }
}

proof fn lemma_upto_inv(left: Namespace, right: Namespace, paths: Seq<Seq<u8>>, n: nat)
    requires
        well_keyed(left),
        well_keyed(right),
        lists_paths(left, right, paths),
        n <= paths.len(),
    ensures
        match merge_upto(left, right, paths, n) {
            Ok(state) => merge_inv(left, right, paths, n, state),
            Err(_) => true,
        },
    decreases n,
{
    if n > 0 {
        lemma_upto_inv(left, right, paths, (n - 1) as nat);
        match merge_upto(left, right, paths, (n - 1) as nat) {
            Ok(before) => {
                match merge_step(left, right, before, paths[n - 1]) {
                    Ok(after) => {
                        lemma_step_inv(left, right, paths, (n - 1) as nat, before, after);
                    },
                    Err(_) => {},
                }
            },
            Err(_) => {},
        }
    } else {
        assert forall|path: Seq<u8>| #[trigger] paths.contains(path) implies paths.to_set().contains(
            path,
        ) by {}
    }
}

/// A merge loses no path and forgets no history: every path of either side is in the result, each
/// under its own name, and its version has seen what both sides have.
pub proof fn law_merge_keeps_every_path(left: Namespace, right: Namespace, path: Seq<u8>)
    requires
        left.dom().finite(),
        right.dom().finite(),
        well_keyed(left),
        well_keyed(right),
        same_root(left, right) ==> left == right,
        left.contains_key(path) || right.contains_key(path),
    ensures
        match merge_outcome(left, right) {
            Ok(state) => {
                &&& state.merged.contains_key(path)
                &&& state.merged[path].path == path
                &&& version_covers(left, right, path, state.merged[path])
            },
            Err(_) => true,
        },
{
    if !same_root(left, right) {
        let paths = all_paths(left, right);
        lemma_paths_listed(left, right);
        lemma_upto_inv(left, right, paths, paths.len());
        assert(paths.contains(path));
        let k = choose|k: int| 0 <= k < paths.len() && paths[k] == path;
        assert(paths[k] == path);
    }
}

/// A merge loses no file: the live file that loses a conflict, if the winner does not hold its
/// content, is in the result under a path that neither side had, with its content and size as
/// they were.
pub proof fn law_merge_keeps_the_losing_file(left: Namespace, right: Namespace, path: Seq<u8>)
    requires
        left.dom().finite(),
        right.dom().finite(),
        well_keyed(left),
        well_keyed(right),
        same_root(left, right) ==> left == right,
        in_conflict(left, right, path),
        loser_kept(winner_of(left[path], right[path]), loser_of(left[path], right[path])),
    ensures
        match merge_outcome(left, right) {
            Ok(state) => exists|copy: Seq<u8>| kept_at(left, right, path, state.merged, copy),
            Err(_) => true,
        },
{
    if !same_root(left, right) {
        let paths = all_paths(left, right);
        lemma_paths_listed(left, right);
        lemma_upto_inv(left, right, paths, paths.len());
        assert(paths.contains(path));
        let k = choose|k: int| 0 <= k < paths.len() && paths[k] == path;
        assert(in_conflict(left, right, paths[k]));
    }
}

/// Where the sides do not compete the later state wins, an update as well as a deletion: a path
/// that only one side has is taken from there, and else the record whose history holds the other's.
pub proof fn law_later_state_wins(left: Namespace, right: Namespace, path: Seq<u8>)
    requires
        left.dom().finite(),
        right.dom().finite(),
        well_keyed(left),
        well_keyed(right),
        same_root(left, right) ==> left == right,
        left.contains_key(path) || right.contains_key(path),
        later_record(left, right, path) is Some,
    ensures
        match merge_outcome(left, right) {
            Ok(state) => state.merged.contains_key(path) && state.merged[path] == later_record(
                left,
                right,
                path,
            )->0,
            Err(_) => true,
        },
{
    if !same_root(left, right) {
        let paths = all_paths(left, right);
        lemma_paths_listed(left, right);
        lemma_upto_inv(left, right, paths, paths.len());
        assert(paths.contains(path));
        let k = choose|k: int| 0 <= k < paths.len() && paths[k] == path;
        assert(paths[k] == path);
    } else {
        assert(seen_by(left[path].version, left[path].version));
    }
}

/// One side takes the place of the other at every path.
spec fn takes_over(space: Namespace, side: Namespace) -> bool {
    forall|path: Seq<u8>| #[trigger]
        side.contains_key(path) ==> space.contains_key(path) && absorbs(space[path], side[path])
}

proof fn lemma_absorbed(space: Namespace, side: Namespace, paths: Seq<Seq<u8>>, n: nat)
    requires
        takes_over(space, side),
        lists_paths(space, side, paths),
        n <= paths.len(),
    ensures
        match merge_upto(space, side, paths, n) {
            Ok(state) => {
                &&& state.conflicts.len() == 0
                &&& forall|path: Seq<u8>| #[trigger]
                    state.merged.contains_key(path) <==> paths.take(n as int).contains(path)
                &&& forall|path: Seq<u8>| #[trigger]
                    state.merged.contains_key(path) ==> state.merged[path] == space[path]
            },
            Err(_) => false,
        },
    decreases n,
{
    if n == 0 {
        assert(paths.take(0) =~= Seq::empty());
    } else {
        lemma_absorbed(space, side, paths, (n - 1) as nat);
        let path = paths[n - 1];
        assert(paths.contains(path));
        assert(space.contains_key(path));
        let shorter = paths.take(n - 1);
        let longer = paths.take(n as int);
        assert(longer =~= shorter.push(path));
        assert forall|other: Seq<u8>| #[trigger]
            longer.contains(other) <==> shorter.contains(other) || other == path by {
            if longer.contains(other) {
                let k = choose|k: int| 0 <= k < longer.len() && longer[k] == other;
                if k < n - 1 {
                    assert(shorter[k] == other);
                }
            }
            if shorter.contains(other) {
                let k = choose|k: int| 0 <= k < shorter.len() && shorter[k] == other;
                assert(longer[k] == other);
            }
            if other == path {
                assert(longer[n - 1] == other);
            }
        }
    }
}

proof fn lemma_absorbs_side(space: Namespace, side: Namespace)
    requires
        takes_over(space, side),
        space.dom().finite(),
        side.dom().finite(),
    ensures
        match merge_outcome(space, side) {
            Ok(state) => state.merged == space && state.conflicts.len() == 0,
            Err(_) => false,
        },
{
    if !same_root(space, side) {
        let paths = all_paths(space, side);
        lemma_paths_listed(space, side);
        lemma_absorbed(space, side, paths, paths.len());
        assert(paths.take(paths.len() as int) =~= paths);
        let state = merge_upto(space, side, paths, paths.len())->Ok_0;
        assert forall|path: Seq<u8>| #[trigger]
            state.merged.contains_key(path) == space.contains_key(path) by {}
        assert(state.merged =~= space);
    }
}

/// A merge is final: what it comes to, merged with either side once more, comes to the same again
/// with no conflict. Devices that have taken the result over agree with those that have not yet.
pub proof fn law_merge_is_final(left: Namespace, right: Namespace)
    requires
        left.dom().finite(),
        right.dom().finite(),
        well_keyed(left),
        well_keyed(right),
    ensures
        match merge_outcome(left, right) {
            Ok(state) => {
                &&& (match merge_outcome(state.merged, left) {
                    Ok(again) => again.merged == state.merged && again.conflicts.len() == 0,
                    Err(_) => false,
                })
                &&& (match merge_outcome(state.merged, right) {
                    Ok(again) => again.merged == state.merged && again.conflicts.len() == 0,
                    Err(_) => false,
                })
            },
            Err(_) => true,
        },
{
    if !same_root(left, right) {
        let paths = all_paths(left, right);
        lemma_paths_listed(left, right);
        lemma_upto_inv(left, right, paths, paths.len());
        match merge_upto(left, right, paths, paths.len()) {
            Ok(state) => {
                assert forall|path: Seq<u8>|
                    left.contains_key(path) || right.contains_key(
                        path,
                    ) implies #[trigger] state.merged.contains_key(path) && settles(
                    left,
                    right,
                    path,
                    state.merged[path],
                ) by {
                    assert(paths.contains(path));
                    let k = choose|k: int| 0 <= k < paths.len() && paths[k] == path;
                    assert(paths[k] == path);
                }
                assert(takes_over(state.merged, left)) by {
                    assert forall|path: Seq<u8>| #[trigger]
                        left.contains_key(path) implies state.merged.contains_key(path) && absorbs(
                        state.merged[path],
                        left[path],
                    ) by {
                        assert(state.merged.contains_key(path));
                    }
                }
                assert(takes_over(state.merged, right)) by {
                    assert forall|path: Seq<u8>| #[trigger]
                        right.contains_key(path) implies state.merged.contains_key(path) && absorbs(
                        state.merged[path],
                        right[path],
                    ) by {
                        assert(state.merged.contains_key(path));
                    }
                }
                lemma_absorbs_side(state.merged, left);
                lemma_absorbs_side(state.merged, right);
            },
            Err(_) => {},
        }
    }
}

proof fn lemma_upto_conflicts(left: Namespace, right: Namespace, paths: Seq<Seq<u8>>, n: nat)
    requires
        well_keyed(left),
        well_keyed(right),
        lists_paths(left, right, paths),
        n <= paths.len(),
    ensures
        match merge_upto(left, right, paths, n) {
            Ok(state) => {
                &&& forall|i: int|
                    0 <= i < state.conflicts.len() ==> exists|k: int|
                        0 <= k < n && #[trigger] paths[k] == (#[trigger] state.conflicts[i]).path
                            && in_conflict(left, right, paths[k])
                &&& forall|i: int, j: int|
                    0 <= i < j < state.conflicts.len() ==> byte_less(
                        (#[trigger] state.conflicts[i]).path,
                        (#[trigger] state.conflicts[j]).path,
                    )
            },
            Err(_) => true,
        },
    decreases n,
{
    if n > 0 {
        lemma_upto_conflicts(left, right, paths, (n - 1) as nat);
        let path = paths[n - 1];
        assert(paths.contains(path));
        match merge_upto(left, right, paths, (n - 1) as nat) {
            Ok(before) => {
                match merge_step(left, right, before, path) {
                    Ok(after) => {
                        let old_len = before.conflicts.len() as int;
                        assert forall|i: int| 0 <= i < after.conflicts.len() implies exists|k: int|
                            0 <= k < n
                                && #[trigger] paths[k] == (#[trigger] after.conflicts[i]).path
                                && in_conflict(left, right, paths[k]) by {
                            if i < old_len {
                                assert(after.conflicts[i] == before.conflicts[i]);
                                let k = choose|k: int|
                                    0 <= k < n - 1 && #[trigger] paths[k]
                                        == before.conflicts[i].path && in_conflict(
                                        left,
                                        right,
                                        paths[k],
                                    );
                                assert(paths[k] == after.conflicts[i].path);
                            } else {
                                assert(paths[n - 1] == after.conflicts[i].path);
                            }
                        }
                        assert forall|i: int, j: int|
                            0 <= i < j < after.conflicts.len() implies byte_less(
                            (#[trigger] after.conflicts[i]).path,
                            (#[trigger] after.conflicts[j]).path,
                        ) by {
                            assert(after.conflicts[i] == before.conflicts[i]);
                            if j < old_len {
                                assert(after.conflicts[j] == before.conflicts[j]);
                            } else {
                                let k = choose|k: int|
                                    0 <= k < n - 1 && #[trigger] paths[k]
                                        == before.conflicts[i].path && in_conflict(
                                        left,
                                        right,
                                        paths[k],
                                    );
                                assert(byte_less(paths[k], paths[n - 1]));
                            }
                        }
                    },
                    Err(_) => {},
                }
            },
            Err(_) => {},
        }
    }
}

/// Conflicts are noted in path order, each for a path on which the sides really conflict: where
/// one side's history holds the other's, its state wins with no conflict.
pub proof fn law_conflicts_are_real_and_in_path_order(left: Namespace, right: Namespace)
    requires
        left.dom().finite(),
        right.dom().finite(),
        well_keyed(left),
        well_keyed(right),
    ensures
        match merge_outcome(left, right) {
            Ok(state) => {
                &&& forall|i: int|
                    0 <= i < state.conflicts.len() ==> in_conflict(
                        left,
                        right,
                        (#[trigger] state.conflicts[i]).path,
                    )
                &&& forall|i: int, j: int|
                    0 <= i < j < state.conflicts.len() ==> byte_less(
                        (#[trigger] state.conflicts[i]).path,
                        (#[trigger] state.conflicts[j]).path,
                    )
            },
            Err(_) => true,
        },
{
    if !same_root(left, right) {
        let paths = all_paths(left, right);
        lemma_paths_listed(left, right);
        lemma_upto_conflicts(left, right, paths, paths.len());
    }
}

/// The two records say the same of the object at a path, field by field.
pub open spec fn alike(a: RecordView, b: RecordView) -> bool {
    &&& a.kind == b.kind
    &&& a.size == b.size
    &&& a.content_hash == b.content_hash
    &&& a.readonly == b.readonly
    &&& a.tombstone == b.tombstone
}

/// The record was made by someone who had seen the other one, and more.
pub open spec fn follows(record: RecordView, other: RecordView) -> bool {
    &&& forall|replica: Seq<u8>| #[trigger]
        counter_of(other.version, replica) <= counter_of(record.version, replica)
    &&& exists|replica: Seq<u8>| #[trigger]
        counter_of(other.version, replica) < counter_of(record.version, replica)
}

/// The record is of a file that is there.
pub open spec fn live_file(record: RecordView) -> bool {
    !record.tombstone && record.kind == SyncEntryKind::File
}

/// Neither record follows the other, so that neither can simply take its place.
proof fn lemma_follows(a: RecordView, b: RecordView)
    ensures
        follows(a, b) <==> causal_relation(b.version, a.version) == CausalRelation::Before,
        follows(a, b) <==> causal_relation(a.version, b.version) == CausalRelation::After,
{
    if seen_by(b.version, a.version) && !seen_by(a.version, b.version) {
        let replica = choose|replica: Seq<u8>|
            !(#[trigger] counter_of(a.version, replica) <= counter_of(b.version, replica));
        assert(counter_of(b.version, replica) < counter_of(a.version, replica));
    }
    if follows(a, b) {
        let replica = choose|replica: Seq<u8>| #[trigger]
            counter_of(b.version, replica) < counter_of(a.version, replica);
        assert(counter_of(a.version, replica) > counter_of(b.version, replica));
        assert(!seen_by(a.version, b.version));
        assert(seen_by(b.version, a.version));
    }
}

/// What a merge that succeeds comes to at a path.
proof fn lemma_settled(left: Namespace, right: Namespace, path: Seq<u8>)
    requires
        valid_snapshot(left),
        valid_snapshot(right),
        same_root(left, right) ==> left == right,
        left.contains_key(path) || right.contains_key(path),
    ensures
        match merge_outcome(left, right) {
            Ok(state) => {
                &&& state.merged.contains_key(path)
                &&& state.merged[path].path == path
                &&& version_covers(left, right, path, state.merged[path])
                &&& settles(left, right, path, state.merged[path])
                &&& in_conflict(left, right, path) && loser_kept(
                    winner_of(left[path], right[path]),
                    loser_of(left[path], right[path]),
                ) ==> exists|copy: Seq<u8>| kept_at(left, right, path, state.merged, copy)
            },
            Err(_) => true,
        },
{
    if !same_root(left, right) {
        let paths = all_paths(left, right);
        lemma_paths_listed(left, right);
        lemma_upto_inv(left, right, paths, paths.len());
        assert(paths.contains(path));
        let k = choose|k: int| 0 <= k < paths.len() && paths[k] == path;
        assert(paths[k] == path);
    }
}

/// A merge loses no content: a file that is there on one side is a file of the result, at its own
/// path or another, unless the other side has seen it and put something in its place. (Something
/// else than a file that has the very same content there can stand for it.)
pub proof fn law_merge_loses_no_content(
    left: Namespace,
    right: Namespace,
    side: Namespace,
    other: Namespace,
    path: Seq<u8>,
)
    requires
        valid_snapshot(left),
        valid_snapshot(right),
        same_root(left, right) ==> left == right,
        side == left && other == right || side == right && other == left,
        side.contains_key(path),
        live_file(side[path]),
        !(other.contains_key(path) && follows(other[path], side[path])),
        !(other.contains_key(path) && other[path].kind != SyncEntryKind::File
            && !other[path].tombstone && other[path].content_hash == side[path].content_hash),
    ensures
        match merge_outcome(left, right) {
            Ok(state) => exists|place: Seq<u8>| #[trigger]
                state.merged.contains_key(place) && live_file(state.merged[place])
                    && state.merged[place].content_hash == side[path].content_hash,
            Err(_) => true,
        },
{
    let own = side[path];
    lemma_settled(left, right, path);
    assert(record_fault(own) is None);
    if other.contains_key(path) {
        lemma_follows(other[path], own);
        lemma_follows(own, other[path]);
        assert(record_fault(other[path]) is None);
    }
    match merge_outcome(left, right) {
        Ok(state) => {
            let record = state.merged[path];
            if other.contains_key(path) && in_conflict(left, right, path) && !alike(record, own) {
                if loser_kept(
                    winner_of(left[path], right[path]),
                    loser_of(left[path], right[path]),
                ) {
                    let copy = choose|copy: Seq<u8>|
                        kept_at(left, right, path, state.merged, copy);
                    assert(state.merged.contains_key(copy));
                } else {
                    assert(winner_of(left[path], right[path]) == other[path]);
                }
            }
        },
        Err(_) => {},
    }
}

/// What a merge makes of a path follows from what the two sides have there. The only record stays,
/// and one that follows the other takes its place. Otherwise the result says what one of them says:
/// what both do if they agree, and that the directory is there if only one says so. Its version has
/// seen all that either has.
pub proof fn law_merge_decides_each_path(left: Namespace, right: Namespace, path: Seq<u8>)
    requires
        valid_snapshot(left),
        valid_snapshot(right),
        same_root(left, right) ==> left == right,
        left.contains_key(path) || right.contains_key(path),
    ensures
        match merge_outcome(left, right) {
            Ok(state) => {
                let record = state.merged[path];
                let (a, b) = (left[path], right[path]);
                &&& state.merged.contains_key(path)
                &&& record.path == path
                &&& !right.contains_key(path) ==> record == a
                &&& !left.contains_key(path) ==> record == b
                &&& left.contains_key(path) && right.contains_key(path) ==> {
                    &&& follows(a, b) ==> record == a
                    &&& follows(b, a) ==> record == b
                    &&& alike(record, a) || alike(record, b)
                    &&& !follows(a, b) && !follows(b, a) && a.kind == SyncEntryKind::Directory
                        && !a.tombstone && !(b.kind == SyncEntryKind::Directory && !b.tombstone)
                        ==> alike(record, a)
                    &&& !follows(a, b) && !follows(b, a) && b.kind == SyncEntryKind::Directory
                        && !b.tombstone && !(a.kind == SyncEntryKind::Directory && !a.tombstone)
                        ==> alike(record, b)
                    &&& forall|replica: Seq<u8>| #[trigger]
                        counter_of(record.version, replica) >= counter_of(a.version, replica)
                            && counter_of(record.version, replica) >= counter_of(
                            b.version,
                            replica,
                        )
                }
            },
            Err(_) => true,
        },
{
    lemma_settled(left, right, path);
    if left.contains_key(path) && right.contains_key(path) {
        lemma_follows(left[path], right[path]);
        lemma_follows(right[path], left[path]);
        match merge_outcome(left, right) {
            Ok(state) => {
                let record = state.merged[path];
                assert forall|replica: Seq<u8>| #[trigger]
                    counter_of(record.version, replica) >= counter_of(left[path].version, replica)
                        && counter_of(record.version, replica) >= counter_of(
                        right[path].version,
                        replica,
                    ) by {
                    assert(counter_of(left[path].version, replica) <= counter_of(
                        record.version,
                        replica,
                    ));
                    assert(counter_of(right[path].version, replica) <= counter_of(
                        record.version,
                        replica,
                    ));
                }
            },
            Err(_) => {},
        }
    }
}

/// A merge makes nothing up: a record at a path that neither side has is that of a file, with the
/// content, size and permission of a file that one side has somewhere and that was in conflict
/// there.
pub proof fn law_merge_makes_nothing_up(left: Namespace, right: Namespace, place: Seq<u8>)
    requires
        valid_snapshot(left),
        valid_snapshot(right),
    ensures
        match merge_outcome(left, right) {
            Ok(state) => state.merged.contains_key(place) && !left.contains_key(place)
                && !right.contains_key(place) ==> {
                &&& live_file(state.merged[place])
                &&& state.merged[place].path == place
                &&& exists|path: Seq<u8>|
                    #![trigger left.contains_key(path), right.contains_key(path)]
                    left.contains_key(path) && right.contains_key(path) && !alike(
                        left[path],
                        right[path],
                    ) && !follows(left[path], right[path]) && !follows(right[path], left[path]) && (
                    alike(state.merged[place], left[path]) || alike(
                        state.merged[place],
                        right[path],
                    ))
            },
            Err(_) => true,
        },
{
    if !same_root(left, right) {
        let paths = all_paths(left, right);
        lemma_paths_listed(left, right);
        lemma_upto_inv(left, right, paths, paths.len());
        match merge_outcome(left, right) {
            Ok(state) => {
                if state.merged.contains_key(place) && !left.contains_key(place)
                    && !right.contains_key(place) {
                    assert(!paths.contains(place));
                    let record = state.merged[place];
                    let path = choose|path: Seq<u8>|
                        #![trigger in_conflict(left, right, path)]
                        in_conflict(left, right, path) && loser_kept(
                            winner_of(left[path], right[path]),
                            loser_of(left[path], right[path]),
                        ) && record == RecordView {
                            path: record.path,
                            version: record.version,
                            ..loser_of(left[path], right[path])
                        };
                    lemma_follows(left[path], right[path]);
                    lemma_follows(right[path], left[path]);
                    assert(left.contains_key(path) && right.contains_key(path));
                }
            },
            Err(_) => {},
        }
    }
}

/// Notes and counts of a merge so far.
spec fn noted(
    left: Namespace,
    right: Namespace,
    paths: Seq<Seq<u8>>,
    n: nat,
    state: MergeState,
) -> bool {
    let stats = state.stats;
    &&& stats.equal + stats.selected_left + stats.selected_right + stats.conflicts == n
    &&& stats.conflicts == state.conflicts.len()
    &&& stats.conflict_copies <= stats.conflicts
    &&& stats.conflict_copies == state.conflicts.filter(
        |note: ConflictView| note.conflict_path is Some,
    ).len()
    &&& forall|k: int|
        0 <= k < n && in_conflict(left, right, #[trigger] paths[k]) ==> exists|i: int|
            0 <= i < state.conflicts.len() && (#[trigger] state.conflicts[i]).path == paths[k]
    &&& forall|i: int|
        0 <= i < state.conflicts.len() ==> note_holds(
            left,
            right,
            state.merged,
            #[trigger] state.conflicts[i],
        ) && placed_apart(paths, n, state.conflicts[i])
}

/// The path of a note is one of those gone through, and its copy is at none of the listed paths.
spec fn placed_apart(paths: Seq<Seq<u8>>, n: nat, note: ConflictView) -> bool {
    &&& exists|k: int| 0 <= k < n && #[trigger] paths[k] == note.path
    &&& note.conflict_path is Some ==> !paths.contains(note.conflict_path->0)
}

/// A note says what became of its path.
pub open spec fn note_holds(
    left: Namespace,
    right: Namespace,
    merged: Namespace,
    note: ConflictView,
) -> bool {
    let (a, b) = (left[note.path], right[note.path]);
    &&& left.contains_key(note.path)
    &&& right.contains_key(note.path)
    &&& !alike(a, b)
    &&& !follows(a, b)
    &&& !follows(b, a)
    &&& note.reason == ConflictReason::EqualClockDivergence <==> (forall|replica: Seq<u8>|
        #[trigger]
        counter_of(a.version, replica) == counter_of(b.version, replica))
    &&& merged.contains_key(note.path)
    &&& alike(merged[note.path], a) && note.winner_hash == logical_digest(a) && note.loser_hash
        == logical_digest(b) && copied(merged, note, b) || alike(merged[note.path], b)
        && note.winner_hash == logical_digest(b) && note.loser_hash == logical_digest(a) && copied(
        merged,
        note,
        a,
    )
}

/// The copy that a note speaks of is that of the losing file.
pub open spec fn copied(merged: Namespace, note: ConflictView, loser: RecordView) -> bool {
    match note.conflict_path {
        Some(place) => merged.contains_key(place) && place != note.path && live_file(loser)
            && alike(merged[place], loser) && merged[place].version == merged[note.path].version,
        None => true,
    }
}

/// A note still holds when more is merged behind it.
proof fn lemma_note_stays(
    left: Namespace,
    right: Namespace,
    paths: Seq<Seq<u8>>,
    n: nat,
    before: Namespace,
    after: Namespace,
    note: ConflictView,
)
    requires
        names_ascend(paths),
        n < paths.len(),
        note_holds(left, right, before, note),
        placed_apart(paths, n, note),
        forall|other: Seq<u8>| #[trigger]
            before.contains_key(other) && other != paths[n as int] ==> after.contains_key(other)
                && after[other] == before[other],
    ensures
        note_holds(left, right, after, note),
        placed_apart(paths, n + 1, note),
{
    let k = choose|k: int| 0 <= k < n && #[trigger] paths[k] == note.path;
    assert(byte_less(paths[k], paths[n as int]));
    lemma_byte_less_asym(note.path, note.path);
    assert(before.contains_key(note.path));
    assert(0 <= k < n + 1 && paths[k] == note.path);
    if note.conflict_path is Some {
        let place = note.conflict_path->0;
        assert(before.contains_key(place));
        assert(paths.contains(paths[n as int]));
    }
}

/// One more note is one more copy if it speaks of one.
proof fn lemma_copies_counted(notes: Seq<ConflictView>, note: ConflictView)
    ensures
        notes.push(note).filter(|note: ConflictView| note.conflict_path is Some).len()
            == notes.filter(|note: ConflictView| note.conflict_path is Some).len() + (
        if note.conflict_path is Some {
            1nat
        } else {
            0
        }),
{
    assert(notes.push(note).drop_last() =~= notes);
    reveal(Seq::filter);
}

/// Versions that have seen each other have seen as much of every replica.
proof fn lemma_same_clock(a: Counters, b: Counters)
    ensures
        causal_relation(a, b) == CausalRelation::Equal <==> (forall|replica: Seq<u8>| #[trigger]
            counter_of(a, replica) == counter_of(b, replica)),
{
    if causal_relation(a, b) == CausalRelation::Equal {
        assert forall|replica: Seq<u8>| #[trigger] counter_of(a, replica) == counter_of(
            b,
            replica,
        ) by {
            assert(counter_of(b, replica) <= counter_of(a, replica));
        }
    }
    if forall|replica: Seq<u8>| #[trigger] counter_of(a, replica) == counter_of(b, replica) {
        assert forall|replica: Seq<u8>| #[trigger] counter_of(b, replica) <= counter_of(
            a,
            replica,
        ) by {
            assert(counter_of(a, replica) == counter_of(b, replica));
        }
    }
}

/// The note of a conflict that was just resolved holds, and what was merged before stays.
proof fn lemma_new_note(
    left: Namespace,
    right: Namespace,
    paths: Seq<Seq<u8>>,
    n: nat,
    before: MergeState,
    after: MergeState,
    reason: ConflictReason,
)
    requires
        valid_snapshot(left),
        valid_snapshot(right),
        lists_paths(left, right, paths),
        n < paths.len(),
        merge_inv(left, right, paths, n, before),
        in_conflict(left, right, paths[n as int]),
        reason == (if causal_relation(
            left[paths[n as int]].version,
            right[paths[n as int]].version,
        ) == CausalRelation::Equal {
            ConflictReason::EqualClockDivergence
        } else {
            ConflictReason::ConcurrentEdit
        }),
        resolved(before, left[paths[n as int]], right[paths[n as int]], reason) == Ok::<
            MergeState,
            ReconcileError,
        >(after),
    ensures
        after.conflicts == before.conflicts.push(after.conflicts.last()),
        note_holds(left, right, after.merged, after.conflicts.last()),
        placed_apart(paths, n + 1, after.conflicts.last()),
        after.conflicts.last().path == paths[n as int],
        after.stats == crate::reconcile::count_conflict(
            before.stats,
            after.conflicts.last().conflict_path is Some,
        ),
        forall|other: Seq<u8>| #[trigger]
            before.merged.contains_key(other) && other != paths[n as int]
                ==> after.merged.contains_key(other) && after.merged[other]
                == before.merged[other],
{
    let path = paths[n as int];
    let (a, b) = (left[path], right[path]);
    let loser = loser_of(a, b);
    let digest = logical_digest(loser);
    assert(paths.contains(path));
    lemma_follows(a, b);
    lemma_follows(b, a);
    lemma_same_clock(a.version, b.version);
    lemma_allocated_is_free(loser.path, digest, before.occupied, 0);
    assert(before.occupied.contains(path));
    assert(0 <= n < n + 1 && paths[n as int] == path);
    let note = after.conflicts.last();
    assert(after.conflicts =~= before.conflicts.push(note));
    assert(note.path == path);
    let place = allocated(loser.path, digest, before.occupied);
    if loser_kept(winner_of(a, b), loser) {
        assert(place is Ok && note.conflict_path == Some(place->Ok_0));
        assert(place->Ok_0 != path);
        assert(!paths.contains(place->Ok_0));
    }
    assert forall|other: Seq<u8>| #[trigger]
        before.merged.contains_key(other) && other != path implies after.merged.contains_key(other)
        && after.merged[other] == before.merged[other] by {
        assert(before.occupied.contains(other));
    }
}

/// One more note that holds is noted.
proof fn lemma_resolution_noted(
    left: Namespace,
    right: Namespace,
    paths: Seq<Seq<u8>>,
    n: nat,
    before: MergeState,
    after: MergeState,
    note: ConflictView,
)
    requires
        names_ascend(paths),
        n < paths.len() <= usize::MAX,
        noted(left, right, paths, n, before),
        after.conflicts == before.conflicts.push(note),
        note_holds(left, right, after.merged, note),
        placed_apart(paths, n + 1, note),
        note.path == paths[n as int],
        after.stats == crate::reconcile::count_conflict(
            before.stats,
            note.conflict_path is Some,
        ),
        forall|other: Seq<u8>| #[trigger]
            before.merged.contains_key(other) && other != paths[n as int]
                ==> after.merged.contains_key(other) && after.merged[other]
                == before.merged[other],
    ensures
        noted(left, right, paths, n + 1, after),
{
    lemma_copies_counted(before.conflicts, note);
    assert forall|i: int| 0 <= i < after.conflicts.len() implies note_holds(
        left,
        right,
        after.merged,
        #[trigger] after.conflicts[i],
    ) && placed_apart(paths, n + 1, after.conflicts[i]) by {
        if i < before.conflicts.len() {
            assert(after.conflicts[i] == before.conflicts[i]);
            lemma_note_stays(left, right, paths, n, before.merged, after.merged, before.conflicts[i]);
        }
    }
    assert forall|k: int|
        0 <= k < n + 1 && in_conflict(left, right, #[trigger] paths[k]) implies exists|i: int|
        0 <= i < after.conflicts.len() && (#[trigger] after.conflicts[i]).path == paths[k] by {
        if k < n {
            let i = choose|i: int|
                0 <= i < before.conflicts.len() && (#[trigger] before.conflicts[i]).path
                    == paths[k];
            assert(after.conflicts[i].path == paths[k]);
        } else {
            assert(after.conflicts[before.conflicts.len() as int].path == paths[k]);
        }
    }
}

proof fn lemma_upto_noted(left: Namespace, right: Namespace, paths: Seq<Seq<u8>>, n: nat)
    requires
        valid_snapshot(left),
        valid_snapshot(right),
        lists_paths(left, right, paths),
        n <= paths.len() <= usize::MAX,
    ensures
        match merge_upto(left, right, paths, n) {
            Ok(state) => noted(left, right, paths, n, state),
            Err(_) => true,
        },
    decreases n,
{
    if n == 0 {
        reveal(Seq::filter);
    } else {
        let m = (n - 1) as nat;
        let path = paths[n - 1];
        lemma_upto_noted(left, right, paths, m);
        lemma_upto_inv(left, right, paths, m);
        assert(paths.contains(path));
        match merge_upto(left, right, paths, m) {
            Ok(before) => {
                match merge_step(left, right, before, path) {
                    Ok(after) => {
                        if in_conflict(left, right, path) {
                            let reason = if causal_relation(
                                left[path].version,
                                right[path].version,
                            ) == CausalRelation::Equal {
                                ConflictReason::EqualClockDivergence
                            } else {
                                ConflictReason::ConcurrentEdit
                            };
                            lemma_new_note(left, right, paths, m, before, after, reason);
                            lemma_resolution_noted(
                                left,
                                right,
                                paths,
                                m,
                                before,
                                after,
                                after.conflicts.last(),
                            );
                        } else {
                            assert(after.conflicts == before.conflicts);
                            assert forall|i: int| 0 <= i < after.conflicts.len() implies note_holds(
                                left,
                                right,
                                after.merged,
                                #[trigger] after.conflicts[i],
                            ) && placed_apart(paths, n, after.conflicts[i]) by {
                                lemma_note_stays(
                                    left,
                                    right,
                                    paths,
                                    m,
                                    before.merged,
                                    after.merged,
                                    before.conflicts[i],
                                );
                            }
                        }
                    },
                    Err(_) => {},
                }
            },
            Err(_) => {},
        }
    }
}

/// A merge notes each conflict, and only those, with what became of it: who won, who lost, why they
/// were in conflict, and where the losing file is kept. It counts every path once, every conflict,
/// and every copy.
pub proof fn law_merge_notes_every_conflict(left: Namespace, right: Namespace)
    requires
        valid_snapshot(left),
        valid_snapshot(right),
        same_root(left, right) ==> left == right,
        left.dom().len() + right.dom().len() <= usize::MAX,
    ensures
        match merge_outcome(left, right) {
            Ok(state) => {
                let stats = state.stats;
                &&& forall|path: Seq<u8>|
                    #![trigger left.contains_key(path), right.contains_key(path)]
                    left.contains_key(path) && right.contains_key(path) && !alike(
                        left[path],
                        right[path],
                    ) && !follows(left[path], right[path]) && !follows(right[path], left[path])
                        ==> exists|i: int|
                        0 <= i < state.conflicts.len() && (#[trigger] state.conflicts[i]).path
                            == path
                &&& forall|i: int|
                    0 <= i < state.conflicts.len() ==> note_holds(
                        left,
                        right,
                        state.merged,
                        #[trigger] state.conflicts[i],
                    )
                &&& stats.conflicts == state.conflicts.len()
                &&& stats.conflict_copies == state.conflicts.filter(
                    |note: ConflictView| note.conflict_path is Some,
                ).len()
                &&& stats.equal + stats.selected_left + stats.selected_right + stats.conflicts
                    == left.dom().union(right.dom()).len()
            },
            Err(_) => true,
        },
{
    let all = left.dom().union(right.dom());
    if same_root(left, right) {
        assert(all =~= left.dom());
        reveal(Seq::filter);
        assert forall|path: Seq<u8>|
            #![trigger left.contains_key(path), right.contains_key(path)]
            left.contains_key(path) && right.contains_key(path) implies alike(
            left[path],
            right[path],
        ) by {}
    } else {
        let paths = all_paths(left, right);
        lemma_paths_listed(left, right);
        assert(paths.to_set() =~= all);
        assert forall|i: int, j: int| 0 <= i < j < paths.len() implies paths[i] != paths[j] by {
            assert(byte_less(paths[i], paths[j]));
            lemma_byte_less_asym(paths[i], paths[i]);
        }
        assert(paths.no_duplicates());
        paths.unique_seq_to_set();
        vstd::set_lib::lemma_len_union(left.dom(), right.dom());
        lemma_upto_noted(left, right, paths, paths.len());
        match merge_outcome(left, right) {
            Ok(state) => {
                assert forall|path: Seq<u8>|
                    #![trigger left.contains_key(path), right.contains_key(path)]
                    left.contains_key(path) && right.contains_key(path) && !alike(
                        left[path],
                        right[path],
                    ) && !follows(left[path], right[path]) && !follows(
                        right[path],
                        left[path],
                    ) implies exists|i: int|
                    0 <= i < state.conflicts.len() && (#[trigger] state.conflicts[i]).path
                        == path by {
                    lemma_follows(left[path], right[path]);
                    lemma_follows(right[path], left[path]);
                    assert(paths.contains(path));
                    let k = choose|k: int| 0 <= k < paths.len() && paths[k] == path;
                    assert(in_conflict(left, right, paths[k]));
                }
            },
            Err(_) => {},
        }
    }
}

/// The two records compete for a path: they do not say the same, and neither has seen the other.
pub open spec fn compete(a: RecordView, b: RecordView) -> bool {
    !alike(a, b) && !follows(a, b) && !follows(b, a)
}

/// Of two records that compete, of which neither or both are of a directory that is there, the one
/// whose state has the larger digest stays at the path, whichever side it comes from.
pub proof fn law_larger_state_wins(left: Namespace, right: Namespace, path: Seq<u8>)
    requires
        valid_snapshot(left),
        valid_snapshot(right),
        same_root(left, right) ==> left == right,
        left.contains_key(path),
        right.contains_key(path),
        compete(left[path], right[path]),
        (left[path].kind == SyncEntryKind::Directory && !left[path].tombstone) == (right[path].kind
            == SyncEntryKind::Directory && !right[path].tombstone),
    ensures
        match merge_outcome(left, right) {
            Ok(state) => {
                let x = blake3_derived(
                    "deltaweave sync state winner v1"@,
                    state_material(left[path]),
                );
                let y = blake3_derived(
                    "deltaweave sync state winner v1"@,
                    state_material(right[path]),
                );
                &&& byte_less(y, x) ==> alike(state.merged[path], left[path])
                &&& byte_less(x, y) ==> alike(state.merged[path], right[path])
            },
            Err(_) => true,
        },
{
    lemma_settled(left, right, path);
    lemma_follows(left[path], right[path]);
    lemma_follows(right[path], left[path]);
    lemma_byte_less_asym(state_digest(left[path]), state_digest(right[path]));
    lemma_byte_less_asym(state_digest(right[path]), state_digest(left[path]));
}

/// What a winner is decided by tells apart all that two records can say of an object: kind, size,
/// content, permission and whether it is there.
pub proof fn law_state_material_fixes_the_object(a: RecordView, b: RecordView)
    ensures
        state_material(a) == state_material(b) <==> alike(a, b),
{
    if state_material(a) == state_material(b) {
        let (x, y) = (state_material(a), state_material(b));
        let (p, q) = (digest_code(a.content_hash), digest_code(b.content_hash));
        let (s, t) = (le_bytes(a.size), le_bytes(b.size));
        assert(s.len() == 8 && t.len() == 8);
        assert(x[0] == kind_code(a.kind));
        assert(y[0] == kind_code(b.kind));
        assert(s =~= x.subrange(1, 9));
        assert(t =~= y.subrange(1, 9));
        crate::hash::lemma_le_bytes_injective(a.size, b.size);
        assert(x.len() == 11 + p.len());
        assert(y.len() == 11 + q.len());
        assert(p =~= x.subrange(9, x.len() - 2));
        assert(q =~= y.subrange(9, y.len() - 2));
        match (a.content_hash, b.content_hash) {
            (Some(h), Some(g)) => {
                assert(p.skip(1) =~= h@);
                assert(q.skip(1) =~= g@);
                crate::hash::lemma_hash_view_injective(h, g);
            },
            (Some(h), None) => {
                assert(p.len() == 33);
            },
            (None, Some(g)) => {
                assert(q.len() == 33);
            },
            (None, None) => {},
        }
        assert(x[x.len() - 2] == flag_code(a.readonly));
        assert(y[y.len() - 2] == flag_code(b.readonly));
        assert(x[x.len() - 1] == flag_code(a.tombstone));
        assert(y[y.len() - 1] == flag_code(b.tombstone));
    }
}

proof fn lemma_joined_counter(a: Counters, b: Counters, replica: Seq<u8>)
    ensures
        counter_of(joined(a, b), replica) == larger(counter_of(a, replica), counter_of(b, replica)),
{
}

/// The version that a merge gives to a path on which neither side is later.
proof fn lemma_settled_version(left: Namespace, right: Namespace, path: Seq<u8>)
    requires
        valid_snapshot(left),
        valid_snapshot(right),
        same_root(left, right) ==> left == right,
        left.contains_key(path),
        right.contains_key(path),
        later_record(left, right, path) is None,
    ensures
        match merge_outcome(left, right) {
            Ok(state) => {
                let known = joined(left[path].version, right[path].version);
                if same_object(left[path], right[path]) {
                    state.merged[path].version == known
                } else {
                    counter_of(known, resolver_id()) < u64::MAX && state.merged[path].version
                        == known.insert(
                        resolver_id(),
                        (counter_of(known, resolver_id()) + 1) as u64,
                    )
                }
            },
            Err(_) => true,
        },
{
    lemma_settled(left, right, path);
    let (a, b) = (left[path].version, right[path].version);
    if causal_relation(a, b) == CausalRelation::Equal {
        lemma_equal_versions(a, b);
        crate::version::law_merge_is_idempotent(a);
    }
}

/// Where two records compete, the version of what stays has seen exactly what both have, and one
/// more decision of the resolver. Where they say the same and neither has seen the other, it has
/// seen exactly what both have.
pub proof fn law_merge_counts_its_decisions(
    left: Namespace,
    right: Namespace,
    path: Seq<u8>,
    replica: Seq<u8>,
)
    requires
        valid_snapshot(left),
        valid_snapshot(right),
        same_root(left, right) ==> left == right,
        left.contains_key(path),
        right.contains_key(path),
        !follows(left[path], right[path]),
        !follows(right[path], left[path]),
    ensures
        match merge_outcome(left, right) {
            Ok(state) => {
                let x = counter_of(left[path].version, replica);
                let y = counter_of(right[path].version, replica);
                let most = if x < y {
                    y
                } else {
                    x
                };
                let count = counter_of(state.merged[path].version, replica);
                &&& alike(left[path], right[path]) ==> count == most
                &&& !alike(left[path], right[path]) && replica != blake3_digest(
                    utf8("deltaweave deterministic conflict resolver v1"@),
                ) ==> count == most
                &&& !alike(left[path], right[path]) && replica == blake3_digest(
                    utf8("deltaweave deterministic conflict resolver v1"@),
                ) ==> count == most + 1
            },
            Err(_) => true,
        },
{
    let (a, b) = (left[path], right[path]);
    lemma_settled_version(left, right, path);
    lemma_follows(a, b);
    lemma_follows(b, a);
    lemma_joined_counter(a.version, b.version, replica);
}

proof fn lemma_upto_fails(left: Namespace, right: Namespace, paths: Seq<Seq<u8>>, n: nat)
    requires
        lists_paths(left, right, paths),
        n <= paths.len(),
    ensures
        match merge_upto(left, right, paths, n) {
            Ok(_) => true,
            Err(error) => exists|k: int|
                0 <= k < n && in_conflict(left, right, #[trigger] paths[k]) && (error
                    == ReconcileError::CounterOverflow <==> counter_of(
                    joined(left[paths[k]].version, right[paths[k]].version),
                    resolver_id(),
                ) == u64::MAX),
        },
    decreases n,
{
    if n > 0 {
        let m = (n - 1) as nat;
        lemma_upto_fails(left, right, paths, m);
        assert(paths.contains(paths[n - 1]));
        match merge_upto(left, right, paths, m) {
            Ok(before) => {
                let loser = loser_of(left[paths[n - 1]], right[paths[n - 1]]);
                lemma_allocated_is_free(loser.path, logical_digest(loser), before.occupied, 0);
                match merge_step(left, right, before, paths[n - 1]) {
                    Ok(_) => {},
                    Err(_) => {
                        assert(in_conflict(left, right, paths[n - 1]));
                    },
                }
            },
            Err(error) => {
                let k = choose|k: int|
                    0 <= k < m && in_conflict(left, right, #[trigger] paths[k]) && (error
                        == ReconcileError::CounterOverflow <==> counter_of(
                        joined(left[paths[k]].version, right[paths[k]].version),
                        resolver_id(),
                    ) == u64::MAX);
                assert(in_conflict(left, right, paths[k]));
            },
        }
    }
}

/// A merge fails only where records compete for a path: because the resolver has no count left
/// there, or else because no name for a copy can be found.
pub proof fn law_merge_fails_only_in_conflict(left: Namespace, right: Namespace)
    requires
        valid_snapshot(left),
        valid_snapshot(right),
    ensures
        match merge_outcome(left, right) {
            Ok(_) => true,
            Err(error) => exists|path: Seq<u8>|
                #![trigger left.contains_key(path), right.contains_key(path)]
                left.contains_key(path) && right.contains_key(path) && compete(
                    left[path],
                    right[path],
                ) && (error == ReconcileError::CounterOverflow <==> counter_of(
                    left[path].version,
                    resolver_id(),
                ) == u64::MAX || counter_of(right[path].version, resolver_id()) == u64::MAX),
        },
{
    if !same_root(left, right) {
        let paths = all_paths(left, right);
        lemma_paths_listed(left, right);
        lemma_upto_fails(left, right, paths, paths.len());
        match merge_outcome(left, right) {
            Ok(_) => {},
            Err(error) => {
                let k = choose|k: int|
                    0 <= k < paths.len() && in_conflict(left, right, #[trigger] paths[k]) && (error
                        == ReconcileError::CounterOverflow <==> counter_of(
                        joined(left[paths[k]].version, right[paths[k]].version),
                        resolver_id(),
                    ) == u64::MAX);
                let path = paths[k];
                lemma_follows(left[path], right[path]);
                lemma_follows(right[path], left[path]);
                assert(left.contains_key(path) && right.contains_key(path));
            },
        }
    }
}

/// The first paths of a list that meet a condition.
spec fn tallied(paths: Seq<Seq<u8>>, n: nat, wanted: spec_fn(Seq<u8>) -> bool) -> Set<Seq<u8>>
    decreases n,
{
    if n == 0 {
        Set::empty()
    } else if wanted(paths[n - 1]) {
        tallied(paths, (n - 1) as nat, wanted).insert(paths[n - 1])
    } else {
        tallied(paths, (n - 1) as nat, wanted)
    }
}

proof fn lemma_tallied(paths: Seq<Seq<u8>>, n: nat, wanted: spec_fn(Seq<u8>) -> bool)
    requires
        n <= paths.len(),
        paths.no_duplicates(),
    ensures
        tallied(paths, n, wanted).finite(),
        forall|path: Seq<u8>| #[trigger]
            tallied(paths, n, wanted).contains(path) <==> wanted(path) && exists|k: int|
                0 <= k < n && #[trigger] paths[k] == path,
        n > 0 ==> tallied(paths, n, wanted).len() == tallied(paths, (n - 1) as nat, wanted).len()
            + if wanted(paths[n - 1]) {
            1nat
        } else {
            0
        },
    decreases n,
{
    if n > 0 {
        let m = (n - 1) as nat;
        lemma_tallied(paths, m, wanted);
        assert(paths[n - 1] == paths[n - 1]);
        assert forall|path: Seq<u8>| #[trigger]
            tallied(paths, n, wanted).contains(path) <==> wanted(path) && exists|k: int|
                0 <= k < n && #[trigger] paths[k] == path by {
            if wanted(path) && exists|k: int| 0 <= k < n && #[trigger] paths[k] == path {
                let k = choose|k: int| 0 <= k < n && #[trigger] paths[k] == path;
                if k < m {
                    assert(tallied(paths, m, wanted).contains(path));
                }
            }
        }
        if tallied(paths, m, wanted).contains(paths[n - 1]) {
            let k = choose|k: int| 0 <= k < m && #[trigger] paths[k] == paths[n - 1];
            assert(paths[k] != paths[n - 1]);
        }
    }
}

/// The path is taken from one side: only that side has it, or has seen what the other one has.
pub open spec fn is_taken_from(side: Namespace, other: Namespace, path: Seq<u8>) -> bool {
    side.contains_key(path) && (other.contains_key(path) ==> follows(side[path], other[path]))
}

proof fn lemma_upto_counted(left: Namespace, right: Namespace, paths: Seq<Seq<u8>>, n: nat)
    requires
        valid_snapshot(left),
        valid_snapshot(right),
        lists_paths(left, right, paths),
        paths.no_duplicates(),
        n <= paths.len() <= usize::MAX,
    ensures
        match merge_upto(left, right, paths, n) {
            Ok(state) => {
                &&& state.stats.selected_left == tallied(
                    paths,
                    n,
                    |path: Seq<u8>| is_taken_from(left, right, path),
                ).len()
                &&& state.stats.selected_right == tallied(
                    paths,
                    n,
                    |path: Seq<u8>| is_taken_from(right, left, path),
                ).len()
            },
            Err(_) => true,
        },
    decreases n,
{
    let a = |path: Seq<u8>| is_taken_from(left, right, path);
    let b = |path: Seq<u8>| is_taken_from(right, left, path);
    lemma_tallied(paths, n, a);
    lemma_tallied(paths, n, b);
    if n > 0 {
        let m = (n - 1) as nat;
        let path = paths[n - 1];
        lemma_upto_counted(left, right, paths, m);
        lemma_upto_noted(left, right, paths, m);
        assert(paths.contains(path));
        lemma_follows(left[path], right[path]);
        lemma_follows(right[path], left[path]);
    }
}

/// A merge counts as taken from a side exactly the paths that only that side has, or on which it has
/// seen what the other one has.
pub proof fn law_merge_counts_what_each_side_gave(left: Namespace, right: Namespace)
    requires
        valid_snapshot(left),
        valid_snapshot(right),
        same_root(left, right) ==> left == right,
        left.dom().len() + right.dom().len() <= usize::MAX,
    ensures
        match merge_outcome(left, right) {
            Ok(state) => {
                &&& state.stats.selected_left == left.dom().filter(
                    |path: Seq<u8>| is_taken_from(left, right, path),
                ).len()
                &&& state.stats.selected_right == right.dom().filter(
                    |path: Seq<u8>| is_taken_from(right, left, path),
                ).len()
            },
            Err(_) => true,
        },
{
    let a = |path: Seq<u8>| is_taken_from(left, right, path);
    let b = |path: Seq<u8>| is_taken_from(right, left, path);
    if same_root(left, right) {
        assert(left.dom().filter(a) =~= Set::empty()) by {
            assert forall|path: Seq<u8>| !#[trigger] left.dom().filter(a).contains(path) by {
                lemma_follows(left[path], left[path]);
            }
        }
        assert(right.dom().filter(b) =~= Set::empty()) by {
            assert forall|path: Seq<u8>| !#[trigger] right.dom().filter(b).contains(path) by {
                lemma_follows(left[path], left[path]);
            }
        }
    } else {
        let paths = all_paths(left, right);
        let all = left.dom().union(right.dom());
        lemma_paths_listed(left, right);
        assert(paths.to_set() =~= all);
        assert forall|i: int, j: int| 0 <= i < j < paths.len() implies paths[i] != paths[j] by {
            assert(byte_less(paths[i], paths[j]));
            lemma_byte_less_asym(paths[i], paths[i]);
        }
        assert(paths.no_duplicates());
        paths.unique_seq_to_set();
        vstd::set_lib::lemma_len_union(left.dom(), right.dom());
        lemma_upto_counted(left, right, paths, paths.len());
        lemma_tallied(paths, paths.len(), a);
        lemma_tallied(paths, paths.len(), b);
        assert(tallied(paths, paths.len(), a) =~= left.dom().filter(a)) by {
            assert forall|path: Seq<u8>| #[trigger] left.dom().filter(a).contains(path) implies exists|
                k: int,
            |
                0 <= k < paths.len() && #[trigger] paths[k] == path by {
                assert(paths.contains(path));
            }
        }
        assert(tallied(paths, paths.len(), b) =~= right.dom().filter(b)) by {
            assert forall|path: Seq<u8>| #[trigger] right.dom().filter(b).contains(path) implies exists|
                k: int,
            |
                0 <= k < paths.len() && #[trigger] paths[k] == path by {
                assert(paths.contains(path));
            }
        }
    }
}

} // verus!
