//! Trees, merges and the actions that follow from them.
use deltaweave::hash::{Hash32, ReplicaId};
use deltaweave::merkle::{copy_records, MerkleTree};
use deltaweave::path::{WirePath, WirePathError};
use deltaweave::reconcile::{
    actions_to_reach, conflict_resolver_replica, merge_snapshots, ApplyAction, MergeResult,
    MergeStats, ReconcileError,
};
use deltaweave::record::{SyncEntryKind, SyncRecord, SyncRecordError, SYNC_RECORD_SCHEMA_V1};
use deltaweave::version::{CausalRelation, VersionVector};

fn replica(name: &[u8]) -> ReplicaId {
    ReplicaId(Hash32::digest(name))
}

fn file(path: &str, replica: ReplicaId, counter: u64, bytes: &[u8]) -> SyncRecord {
    let mut version = VersionVector::default();
    version.observe(replica, counter);
    SyncRecord {
        schema_version: SYNC_RECORD_SCHEMA_V1,
        path: WirePath::new(path).expect("fixture path is portable"),
        kind: SyncEntryKind::File,
        size: bytes.len() as u64,
        content_hash: Some(Hash32::digest(bytes)),
        readonly: false,
        version,
        tombstone: false,
    }
}

fn directory(path: &str, replica: ReplicaId, counter: u64) -> SyncRecord {
    let mut version = VersionVector::default();
    version.observe(replica, counter);
    SyncRecord {
        schema_version: SYNC_RECORD_SCHEMA_V1,
        path: WirePath::new(path).expect("fixture path is portable"),
        kind: SyncEntryKind::Directory,
        size: 0,
        content_hash: None,
        readonly: false,
        version,
        tombstone: false,
    }
}

fn tombstone(mut record: SyncRecord, replica: ReplicaId) -> SyncRecord {
    record
        .version
        .increment(replica)
        .expect("clock can advance");
    record.tombstone = true;
    record
}

fn tree(records: Vec<SyncRecord>) -> MerkleTree {
    MerkleTree::from_records(records).expect("tree is valid")
}

#[test]
fn merkle_root_is_input_order_independent() {
    let node = replica(b"node");
    let left = tree(vec![
        file("folder/a.txt", node, 1, b"a"),
        file("folder/b.txt", node, 2, b"b"),
    ]);
    let right = tree(vec![
        file("folder/b.txt", node, 2, b"b"),
        file("folder/a.txt", node, 1, b"a"),
    ]);
    assert_eq!(left.root_hash(), right.root_hash());
    assert!(left.different_paths(&right).is_empty());
}

#[test]
fn merkle_diff_descends_to_changed_paths() {
    let node = replica(b"node");
    let left = tree(vec![
        file("a/keep.txt", node, 1, b"same"),
        file("a/change.txt", node, 2, b"before"),
        file("b/remove.txt", node, 3, b"remove"),
    ]);
    let right = tree(vec![
        file("a/keep.txt", node, 1, b"same"),
        file("a/change.txt", node, 3, b"after"),
        file("c/add.txt", node, 4, b"add"),
    ]);
    assert_eq!(
        left.different_paths(&right),
        ["a/change.txt", "b/remove.txt", "c/add.txt"]
            .map(|path| WirePath::new(path).expect("path is portable"))
    );
}

#[test]
fn node_summaries_support_changed_subtree_queries() {
    let node = replica(b"node");
    let tree = tree(vec![
        file("docs/a.txt", node, 1, b"a"),
        file("docs/nested/b.txt", node, 2, b"b"),
        file("photos/c.jpg", node, 3, b"c"),
    ]);
    let root = tree
        .node_summary("")
        .expect("query is valid")
        .expect("root exists");
    assert_eq!(root.hash, tree.root_hash());
    assert_eq!(root.record_count, 3);
    assert_eq!(
        root.children
            .iter()
            .map(|child| child.name.as_str())
            .collect::<Vec<_>>(),
        vec!["docs", "photos"]
    );

    let docs = tree
        .node_summary("docs")
        .expect("query is valid")
        .expect("subtree exists");
    assert_eq!(docs.record_count, 2);
    assert_eq!(tree.records_under("docs").expect("query is valid").len(), 2);
    assert!(tree
        .node_summary("missing")
        .expect("query is valid")
        .is_none());
    assert!(tree.node_summary("../escape").is_err());
}

#[test]
fn large_namespace_diff_stays_path_precise() {
    let node = replica(b"large-node");
    let left_records: Vec<_> = (0_u64..10_000)
        .map(|index| {
            file(
                &format!("bucket-{:02}/file-{index:05}.bin", index % 100),
                node,
                index + 1,
                &index.to_le_bytes(),
            )
        })
        .collect();
    let mut right_records = copy_records(&left_records);
    let changed = 7_321_usize;
    right_records[changed] = file(
        &format!("bucket-{:02}/file-{changed:05}.bin", changed % 100),
        node,
        20_000,
        b"changed payload",
    );

    let left = MerkleTree::from_records(left_records).expect("large tree is valid");
    let right = MerkleTree::from_records(right_records).expect("changed tree is valid");
    assert_ne!(left.root_hash(), right.root_hash());
    assert_eq!(left.len(), 10_000);
    assert_eq!(
        left.different_paths(&right),
        vec![WirePath::new("bucket-21/file-07321.bin").expect("path is portable")]
    );
    assert_eq!(
        right
            .node_summary("bucket-21")
            .expect("query is valid")
            .expect("bucket exists")
            .record_count,
        100
    );
}

#[test]
fn causal_update_and_delete_win_without_conflict() {
    let alpha = replica(b"alpha");
    let initial = file("report.txt", alpha, 1, b"one");
    let mut updated = file("report.txt", alpha, 2, b"two");
    updated.version = initial.clone().version;
    updated.version.increment(alpha).expect("clock can advance");
    let left = tree(vec![initial]);
    let right = tree(vec![updated.clone()]);
    let merged = merge_snapshots(&left, &right).expect("merge succeeds");
    assert_eq!(merged.records, vec![updated.clone()]);
    assert!(merged.conflicts.is_empty());

    let deleted = tombstone(updated, alpha);
    let right = tree(vec![deleted.clone()]);
    let merged = merge_snapshots(&merged.tree().expect("tree is valid"), &right)
        .expect("delete merge succeeds");
    assert_eq!(merged.records, vec![deleted]);
    assert!(merged.conflicts.is_empty());
}

#[test]
fn concurrent_edits_converge_and_preserve_the_loser() {
    let alpha = replica(b"alpha");
    let beta = replica(b"beta");
    let left = tree(vec![file("report.txt", alpha, 2, b"alpha edit")]);
    let right = tree(vec![file("report.txt", beta, 1, b"beta edit")]);

    let forward = merge_snapshots(&left, &right).expect("merge succeeds");
    let reverse = merge_snapshots(&right, &left).expect("reverse merge succeeds");
    assert_eq!(forward, reverse);
    assert_eq!(forward.stats.conflicts, 1);
    assert_eq!(forward.stats.conflict_copies, 1);
    assert_eq!(forward.records.len(), 2);
    let conflict = forward.conflicts.first().expect("conflict is recorded");
    assert!(conflict
        .conflict_path
        .as_ref()
        .is_some_and(|path| path.as_str().contains(".conflict-")));

    let canonical = forward.tree().expect("merged tree is valid");
    let repeated = merge_snapshots(&canonical, &canonical).expect("merge is idempotent");
    assert_eq!(repeated.records, forward.records);
    assert!(repeated.conflicts.is_empty());
}

#[test]
fn concurrent_identical_content_only_merges_causal_knowledge() {
    let alpha = replica(b"alpha");
    let beta = replica(b"beta");
    let left = tree(vec![file("same.bin", alpha, 2, b"same")]);
    let right = tree(vec![file("same.bin", beta, 3, b"same")]);
    let merged = merge_snapshots(&left, &right).expect("merge succeeds");
    assert!(merged.conflicts.is_empty());
    assert_eq!(merged.records.len(), 1);
    assert_eq!(merged.records[0].version.get(alpha), 2);
    assert_eq!(merged.records[0].version.get(beta), 3);
}

#[test]
fn concurrent_file_vs_tree_preserves_file_and_materializable_subtree() {
    let alpha = replica(b"alpha");
    let beta = replica(b"beta");
    let left = tree(vec![file("tree", alpha, 1, b"file bytes")]);
    let right = tree(vec![
        directory("tree", beta, 1),
        file("tree/child.txt", beta, 2, b"child bytes"),
    ]);

    let forward = merge_snapshots(&left, &right).expect("merge succeeds");
    let reverse = merge_snapshots(&right, &left).expect("reverse merge succeeds");
    assert_eq!(forward.records, reverse.records);
    assert_eq!(forward.conflicts, reverse.conflicts);
    assert_eq!(forward.stats.selected_left, reverse.stats.selected_right);
    assert_eq!(forward.stats.selected_right, reverse.stats.selected_left);
    assert!(forward.records.iter().any(|record| {
        record.path.as_str() == "tree"
            && record.kind == SyncEntryKind::Directory
            && !record.tombstone
    }));
    assert!(forward.records.iter().any(|record| {
        record.path.as_str() == "tree/child.txt"
            && record.content_hash == Some(Hash32::digest(b"child bytes"))
    }));
    let conflict_path = forward.conflicts[0]
        .conflict_path
        .as_ref()
        .expect("file side is retained as a conflict copy");
    assert!(!conflict_path.as_str().starts_with("tree/"));
    assert!(forward.records.iter().any(|record| {
        &record.path == conflict_path && record.content_hash == Some(Hash32::digest(b"file bytes"))
    }));
}

#[test]
fn partitioned_three_peer_model_reaches_one_root() {
    let alpha = replica(b"alpha");
    let beta = replica(b"beta");
    let gamma = replica(b"gamma");
    let initial = file("shared.txt", alpha, 1, b"initial");

    let mut alpha_edit = initial.clone();
    alpha_edit
        .version
        .increment(alpha)
        .expect("clock can advance");
    alpha_edit.content_hash = Some(Hash32::digest(b"alpha edit"));
    alpha_edit.size = b"alpha edit".len() as u64;

    let mut beta_edit = initial.clone();
    beta_edit
        .version
        .increment(beta)
        .expect("clock can advance");
    beta_edit.content_hash = Some(Hash32::digest(b"beta edit"));
    beta_edit.size = b"beta edit".len() as u64;

    let gamma_delete = tombstone(initial, gamma);
    let mut peers = [
        tree(vec![alpha_edit]),
        tree(vec![beta_edit]),
        tree(vec![gamma_delete]),
    ];

    for (left, right) in [(0, 1), (1, 2), (0, 2), (0, 1), (1, 2)] {
        let merged = merge_snapshots(&peers[left], &peers[right]).expect("merge succeeds");
        let tree = merged.tree().expect("merged tree is valid");
        peers[left] = tree.clone();
        peers[right] = tree;
    }
    assert_eq!(peers[0].root_hash(), peers[1].root_hash());
    assert_eq!(peers[1].root_hash(), peers[2].root_hash());
}

#[test]
fn conflict_name_stays_portable_for_long_unicode_names() {
    let alpha = replica(b"alpha");
    let beta = replica(b"beta");
    let long_name = format!("{}.txt", "자료".repeat(40));
    let original = WirePath::new(&long_name).expect("fixture fits portable limit");
    let left = tree(vec![file(original.as_str(), alpha, 1, b"left")]);
    let right = tree(vec![file(original.as_str(), beta, 1, b"right")]);
    let merged = merge_snapshots(&left, &right).expect("merge succeeds");
    let path = merged.conflicts[0]
        .conflict_path
        .as_ref()
        .expect("losing file is preserved");
    assert!(path.as_str().len() <= 255);
    assert!(path.as_str().contains(".conflict-"));
}

#[test]
fn actions_are_idempotent_and_include_tombstones() {
    let alpha = replica(b"alpha");
    let live = file("gone.txt", alpha, 1, b"content");
    let deleted = tombstone(live.clone(), alpha);
    let current = tree(vec![live]);
    let desired = MergeResult {
        records: vec![deleted.clone()],
        conflicts: Vec::new(),
        stats: MergeStats {
            equal: 0,
            selected_left: 0,
            selected_right: 1,
            conflicts: 0,
            conflict_copies: 0,
        },
    };
    assert_eq!(
        actions_to_reach(&current, &desired).expect("actions can be planned"),
        vec![ApplyAction::Delete { record: deleted }]
    );
    assert!(
        actions_to_reach(&desired.tree().expect("tree is valid"), &desired)
            .expect("actions can be planned")
            .is_empty()
    );
}

#[test]
fn trees_refuse_faulty_and_repeated_records() {
    let node = replica(b"node");
    let mut unknown = file("a.txt", node, 1, b"a");
    unknown.schema_version = 9;
    assert_eq!(
        MerkleTree::from_records(vec![unknown]).err(),
        Some(ReconcileError::InvalidRecord(
            SyncRecordError::UnsupportedSchema
        ))
    );
    let mut hollow = file("a.txt", node, 1, b"a");
    hollow.content_hash = None;
    assert_eq!(
        MerkleTree::from_records(vec![hollow]).err(),
        Some(ReconcileError::InvalidRecord(
            SyncRecordError::MissingContentHash
        ))
    );
    let mut heavy = directory("a", node, 1);
    heavy.size = 4;
    assert_eq!(
        MerkleTree::from_records(vec![heavy]).err(),
        Some(ReconcileError::InvalidRecord(
            SyncRecordError::UnexpectedContent
        ))
    );
    assert_eq!(
        MerkleTree::from_records(vec![
            file("a.txt", node, 1, b"a"),
            file("a.txt", node, 2, b"b"),
        ])
        .err(),
        Some(ReconcileError::DuplicatePath)
    );
    assert!(matches!(
        tree(vec![]).node_summary("a//b"),
        Err(ReconcileError::InvalidPrefix(_))
    ));
}

#[test]
fn merging_is_commutative_and_idempotent_on_values() {
    let alpha = replica(b"alpha");
    let beta = replica(b"beta");
    let left = tree(vec![
        file("a.txt", alpha, 1, b"a"),
        file("b.txt", alpha, 2, b"left"),
    ]);
    let right = tree(vec![
        file("b.txt", beta, 4, b"right"),
        file("c.txt", beta, 1, b"c"),
    ]);
    let forward = merge_snapshots(&left, &right).expect("merge succeeds");
    let reverse = merge_snapshots(&right, &left).expect("merge succeeds");
    assert_eq!(forward.records, reverse.records);
    assert_eq!(forward.conflicts, reverse.conflicts);
    assert_eq!(forward.stats.conflicts, 1);
    let winner = forward
        .records
        .iter()
        .find(|record| record.path.as_str() == "b.txt")
        .expect("the path stays");
    assert_eq!(winner.version.get(conflict_resolver_replica()), 1);
    let merged = forward.tree().expect("tree is valid");
    let again = merge_snapshots(&merged, &left).expect("merge succeeds");
    assert_eq!(again.records, forward.records);
    assert!(again.conflicts.is_empty());
}

#[test]
fn paths_name_their_faults() {
    for (text, fault) in [
        ("", WirePathError::Empty),
        ("/a", WirePathError::Absolute),
        ("a//b", WirePathError::EmptyComponent),
        ("a/../b", WirePathError::Traversal),
        ("a\\b", WirePathError::ForbiddenCharacter),
        ("nul.txt", WirePathError::ReservedName),
    ] {
        assert_eq!(WirePath::new(text).err(), Some(fault), "{text}");
    }
    let path = WirePath::new("a/b.txt").expect("path is portable");
    assert_eq!(path.components(), vec!["a".to_string(), "b.txt".to_string()]);
}

#[test]
fn versions_count_and_refuse_to_wrap() {
    let alpha = replica(b"alpha");
    let mut version = VersionVector::default();
    version.observe(alpha, 7);
    version.observe(alpha, 3);
    assert_eq!(version.get(alpha), 7);
    version.observe(alpha, u64::MAX);
    assert!(version.increment(alpha).is_err());
    assert_eq!(version.get(alpha), u64::MAX);
}

#[test]
fn the_counts_of_a_summary_add_up() {
    let alpha = replica(b"alpha");
    let whole = tree(vec![
        directory("a", alpha, 1),
        file("a/one", alpha, 1, b"1"),
        file("a/two", alpha, 1, b"2"),
        file("a!", alpha, 1, b"3"),
        file("b/deep/er", alpha, 1, b"4"),
    ]);
    for (prefix, names, own) in [
        ("", vec!["a", "a!", "b"], 0),
        ("a", vec!["one", "two"], 1),
        ("b", vec!["deep"], 0),
        ("b/deep/er", vec![], 1),
    ] {
        let summary = whole.node_summary(prefix).unwrap().unwrap();
        let children: Vec<&str> = summary.children.iter().map(|c| c.name.as_str()).collect();
        assert_eq!(children, names);
        let counted: usize = summary.children.iter().map(|c| c.record_count).sum();
        assert_eq!(summary.record_count, counted + own);
        assert_eq!(summary.record.is_some(), own == 1);
        assert_eq!(summary.record_count, whole.records_under(prefix).unwrap().len());
    }
    assert_eq!(whole.node_summary("").unwrap().unwrap().hash, whole.root_hash());
    assert_eq!(whole.node_summary("c").unwrap(), None);
    assert!(whole.records_under("c").unwrap().is_empty());
}

#[test]
fn a_tree_lists_what_it_was_built_from() {
    let alpha = replica(b"alpha");
    let (x, y, z) = (
        file("c", alpha, 1, b"1"),
        file("a", alpha, 2, b"2"),
        file("b", alpha, 3, b"3"),
    );
    let built = tree(vec![x.clone(), y.clone(), z.clone()]);
    assert_eq!(*built.records(), vec![y.clone(), z, x]);
    assert_eq!(
        MerkleTree::from_records(vec![y.clone(), y]).err(),
        Some(ReconcileError::DuplicatePath)
    );
}

#[test]
fn there_is_one_action_for_each_difference() {
    let alpha = replica(b"alpha");
    let beta = replica(b"beta");
    let same = file("same", alpha, 1, b"same");
    let old = file("changed", alpha, 1, b"old");
    let gone = file("gone", alpha, 1, b"gone");
    let current = tree(vec![same.clone(), old.clone(), gone.clone()]);
    let mut changed = file("changed", alpha, 2, b"new");
    changed.version.observe(beta, 1);
    let deleted = tombstone(gone, alpha);
    let added = file("added", beta, 1, b"added");
    let goal = merge_snapshots(
        &current,
        &tree(vec![changed.clone(), deleted.clone(), added.clone()]),
    )
    .unwrap();
    assert_eq!(
        actions_to_reach(&current, &goal).unwrap(),
        vec![
            ApplyAction::Materialize { record: added },
            ApplyAction::Materialize { record: changed },
            ApplyAction::Delete { record: deleted },
        ]
    );
    assert!(actions_to_reach(&goal.tree().unwrap(), &goal).unwrap().is_empty());
}

#[test]
fn a_resolution_follows_both_sides() {
    let alpha = replica(b"alpha");
    let beta = replica(b"beta");
    let resolver = conflict_resolver_replica();
    let mut left = file("a", alpha, 4, b"left");
    left.version.observe(resolver, 6);
    let right = file("a", beta, 2, b"right");
    let merged = merge_snapshots(&tree(vec![left.clone()]), &tree(vec![right.clone()])).unwrap();
    assert_eq!(merged.records.len(), 2);
    for record in &merged.records {
        assert_eq!(record.version.get(resolver), 7);
        assert_eq!(record.version.get(alpha), 4);
        assert_eq!(record.version.get(beta), 2);
        assert_eq!(record.version.relation(&left.version), CausalRelation::After);
        assert_eq!(record.version.relation(&right.version), CausalRelation::After);
    }
    left.version.observe(resolver, u64::MAX);
    assert_eq!(
        merge_snapshots(&tree(vec![left]), &tree(vec![right])).err(),
        Some(ReconcileError::CounterOverflow)
    );
}
