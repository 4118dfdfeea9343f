//! What holds of the Merkle tree and what it says, over several questions to it.
use vstd::prelude::*;

use crate::hash::{blake3_derived, le_bytes, lemma_le_bytes_injective, lemma_same_parts};
use crate::merkle::{
    below, child_names, children_material, gathered, headed, is_at, is_child, leaf, leaves,
    lemma_headed_step, lemma_headed_total, lemma_names_listable, lemma_namespace_size,
    lemma_no_load_fault, lemma_under_nothing, lemma_under_under, lies_under, lists_children,
    load_fault, load_fault_at, load_fault_from, namespace, own_material, populated, query_parts,
    records_below, root_digest, subtree_digest, summarizes, summarizes_child, under, views, Leaves,
    MerkleChildSummary, MerkleNodeSummary, Namespace,
};
use crate::order::byte_less;
use crate::path::{
    components, lemma_components_injective, lemma_components_slashed, lemma_position_of, path_fault,
    position_of, slashed,
};
use crate::reconcile::ReconcileError;
use crate::record::{record_fault, RecordView, SyncRecord};
use crate::table::{ascending, has_key, lemma_rank_unique, rank_of, Keyed};
use crate::text::utf8;

verus! {

/// The components of two paths with a slash between them.
proof fn lemma_components_joined(a: Seq<u8>, b: Seq<u8>)
    ensures
        components(a + seq![0x2fu8] + b) == components(a) + components(b),
    decreases a.len(),
{
    let whole = a + seq![0x2fu8] + b;
    lemma_position_of(a, 0x2f);
    lemma_position_of(whole, 0x2f);
    let at = position_of(a, 0x2f);
    let first = position_of(whole, 0x2f);
    assert(whole[a.len() as int] == 0x2f);
    assert(first <= a.len());
    if at < a.len() {
        assert(whole[at] == 0x2f);
        assert(first == at) by {
            if first < at {
                assert(whole[first] == a[first]);
            }
        }
        let rest = a.skip(at + 1);
        lemma_components_joined(rest, b);
        assert(whole.skip(at + 1) =~= rest + seq![0x2fu8] + b);
        assert(whole.take(at) =~= a.take(at));
        assert(components(whole) =~= components(a) + components(b));
    } else {
        assert(first == a.len()) by {
            if first < a.len() {
                assert(whole[first] == a[first]);
            }
        }
        assert(whole.take(first) =~= a);
        assert(whole.skip(first + 1) =~= b);
        assert(components(whole) =~= components(a) + components(b));
    }
}

/// Two lists of components put together.
proof fn lemma_slashed_joined(a: Seq<Seq<u8>>, b: Seq<Seq<u8>>)
    requires
        a.len() > 0,
        b.len() > 0,
    ensures
        slashed(a + b) == slashed(a) + seq![0x2fu8] + slashed(b),
    decreases a.len(),
{
    let whole = a + b;
    if a.len() == 1 {
        assert(whole.drop_first() =~= b);
    } else {
        lemma_slashed_joined(a.drop_first(), b);
        assert(whole.drop_first() =~= a.drop_first() + b);
        assert(slashed(whole) =~= slashed(a) + seq![0x2fu8] + slashed(b));
    }
}

/// A path lies under another exactly where its components start with those of the other.
proof fn lemma_under_by_components(path: Seq<u8>, prefix: Seq<u8>)
    ensures
        lies_under(path, prefix) <==> components(prefix).len() <= components(path).len()
            && components(path).take(components(prefix).len() as int) == components(prefix),
{
    let own = components(path);
    let head = components(prefix);
    lemma_components_slashed(path);
    lemma_components_slashed(prefix);
    if lies_under(path, prefix) {
        if path == prefix {
            assert(own.take(head.len() as int) =~= head);
        } else {
            let rest = path.skip(prefix.len() as int + 1);
            assert(path =~= prefix + seq![0x2fu8] + rest);
            lemma_components_joined(prefix, rest);
            assert(own.take(head.len() as int) =~= head);
        }
    }
    if head.len() <= own.len() && own.take(head.len() as int) == head {
        let rest = own.skip(head.len() as int);
        assert(own =~= head + rest);
        if rest.len() == 0 {
            assert(own =~= head);
        } else {
            lemma_slashed_joined(head, rest);
            assert(path == prefix + seq![0x2fu8] + slashed(rest));
            assert(path.take(prefix.len() as int) =~= prefix);
        }
    }
}

/// The leaves under a prefix are as many as the records at and beneath it.
proof fn lemma_leaves_under(space: Namespace, prefix: Seq<char>)
    requires
        space.dom().finite(),
        prefix.len() == 0 || path_fault(utf8(prefix)) is None,
    ensures
        under(leaves(space), query_parts(utf8(prefix))).dom().finite(),
        under(leaves(space), query_parts(utf8(prefix))).dom().len() == records_below(
            space,
            prefix,
        ).dom().len(),
        populated(under(leaves(space), query_parts(utf8(prefix)))) <==> exists|path: Seq<u8>|
            records_below(space, prefix).contains_key(path),
{
    let bytes = utf8(prefix);
    if prefix.len() == 0 {
        assert(prefix =~= Seq::empty());
        assert(bytes =~= Seq::empty());
    }
    let head = query_parts(bytes);
    let all = under(leaves(space), head);
    let part = records_below(space, prefix);
    let f = |path: Seq<u8>| components(path).skip(head.len() as int);
    assert forall|path: Seq<u8>| #[trigger] part.contains_key(path) implies components(path) == head
        + f(path) by {
        lemma_under_by_components(path, bytes);
        assert(components(path) =~= head + f(path));
    }
    assert(part.dom() =~= space.dom().filter(
        |path: Seq<u8>| prefix.len() == 0 || lies_under(path, bytes),
    ));
    space.dom().lemma_len_filter(|path: Seq<u8>| prefix.len() == 0 || lies_under(path, bytes));
    assert(vstd::relations::injective_on(f, part.dom())) by {
        assert forall|p: Seq<u8>, q: Seq<u8>|
            part.dom().contains(p) && part.dom().contains(q) && #[trigger] f(p) == #[trigger] f(
                q,
            ) implies p == q by {
            assert(part.contains_key(p) && part.contains_key(q));
            lemma_components_injective(p, q);
        }
    }
    assert forall|rest: Seq<Seq<u8>>| #[trigger] part.dom().map(f).contains(rest)
        == all.dom().contains(rest) by {
        if part.dom().map(f).contains(rest) {
            let p = choose|p: Seq<u8>| part.dom().contains(p) && f(p) == rest;
            assert(part.contains_key(p));
            lemma_components_slashed(p);
        }
        if all.dom().contains(rest) {
            let parts = head + rest;
            let p = slashed(parts);
            assert(leaves(space).contains_key(parts));
            assert(components(p) == parts);
            assert(parts.take(head.len() as int) =~= head);
            lemma_under_by_components(p, bytes);
            assert(part.dom().contains(p));
            assert(f(p) =~= rest);
        }
    }
    assert(part.dom().map(f) =~= all.dom());
    vstd::set_lib::lemma_map_size(part.dom(), all.dom(), f);
    if populated(all) {
        let rest = choose|rest: Seq<Seq<u8>>| all.contains_key(rest);
        assert(part.dom().map(f).contains(rest));
        let p = choose|p: Seq<u8>| part.dom().contains(p) && f(p) == rest;
        assert(part.contains_key(p));
    }
    if exists|path: Seq<u8>| part.contains_key(path) {
        let p = choose|path: Seq<u8>| part.contains_key(path);
        assert(part.dom().map(f).contains(f(p)));
        assert(all.contains_key(f(p)));
    }
}

/// A namespace has as many leaves as records.
pub proof fn lemma_leaves_counted(space: Namespace)
    requires
        space.dom().finite(),
    ensures
        leaves(space).dom().finite(),
        leaves(space).dom().len() == space.dom().len(),
{
    let none = Seq::<char>::empty();
    lemma_leaves_under(space, none);
    assert(utf8(none) =~= Seq::empty());
    lemma_under_nothing(leaves(space));
    assert(records_below(space, none) =~= space);
}

/// Finitely many leaves have a list of children.
proof fn lemma_children_listable(all: Leaves)
    requires
        all.dom().finite(),
    ensures
        lists_children(all, child_names(all)),
{
    let deep = all.dom().filter(|parts: Seq<Seq<u8>>| parts.len() > 0);
    let f = |parts: Seq<Seq<u8>>| parts[0];
    all.dom().lemma_len_filter(|parts: Seq<Seq<u8>>| parts.len() > 0);
    deep.lemma_map_finite(f);
    let names = deep.map(f);
    let list = lemma_names_listable(names);
    assert forall|name: Seq<u8>| #[trigger] list.contains(name) <==> is_child(all, name) by {
        if names.contains(name) {
            let parts = choose|parts: Seq<Seq<u8>>| deep.contains(parts) && f(parts) == name;
            assert(all.contains_key(parts) && parts.len() > 0 && parts[0] == name);
        }
        if is_child(all, name) {
            let parts = choose|parts: Seq<Seq<u8>>| #[trigger]
                all.contains_key(parts) && parts.len() > 0 && parts[0] == name;
            assert(deep.contains(parts) && f(parts) == name);
        }
    }
    assert(lists_children(all, list));
}

/// The numbers of records of children together.
pub open spec fn child_count(children: Seq<MerkleChildSummary>) -> nat
    decreases children.len(),
{
    if children.len() == 0 {
        0
    } else {
        child_count(children.drop_last()) + children.last().record_count as nat
    }
}

proof fn lemma_child_count(
    children: Seq<MerkleChildSummary>,
    all: Leaves,
    depth: nat,
    i: int,
)
    requires
        all.dom().finite(),
        lists_children(all, child_names(all)),
        children.len() == child_names(all).len(),
        forall|k: int|
            0 <= k < children.len() ==> summarizes_child(
                #[trigger] children[k],
                all,
                child_names(all)[k],
                depth,
            ),
        0 <= i <= children.len(),
    ensures
        child_count(children.take(i)) == headed(all, child_names(all).take(i)).len(),
    decreases i,
{
    let names = child_names(all);
    if i == 0 {
        assert(headed(all, names.take(0)) =~= Set::empty());
    } else {
        lemma_child_count(children, all, depth, i - 1);
        lemma_headed_step(all, names, i - 1);
        assert(children.take(i).drop_last() =~= children.take(i - 1));
        assert(summarizes_child(children[i - 1], all, names[i - 1], depth));
    }
}

/// The counts of a summary add up: it counts the records at and beneath its prefix, which are
/// those of its children and the one at the prefix itself. The children come in the order of their
/// names, and the digest of the root is that of the whole namespace.
pub proof fn law_summary_adds_up(
    summary: MerkleNodeSummary,
    space: Namespace,
    prefix: Seq<char>,
    listed: Seq<SyncRecord>,
)
    requires
        space.dom().finite(),
        prefix.len() == 0 || path_fault(utf8(prefix)) is None,
        summarizes(summary, space, prefix),
        ascending(listed),
        namespace(listed) == records_below(space, prefix),
    ensures
        summary.record_count == listed.len(),
        summary.record_count == child_count(summary.children@) + (if summary.record is Some {
            1nat
        } else {
            0
        }),
        forall|i: int, j: int|
            0 <= i < j < summary.children@.len() ==> byte_less(
                utf8((#[trigger] summary.children@[i]).name@),
                utf8((#[trigger] summary.children@[j]).name@),
            ),
        prefix.len() == 0 ==> summary.hash@ == root_digest(space) && summary.record is None,
{
    let bytes = utf8(prefix);
    let head = query_parts(bytes);
    let all = under(leaves(space), head);
    let depth = (crate::merkle::MAX_DEPTH - head.len()) as nat;
    let names = child_names(all);
    lemma_leaves_under(space, prefix);
    lemma_namespace_size(listed);
    lemma_children_listable(all);
    lemma_child_count(summary.children@, all, depth, summary.children@.len() as int);
    assert(summary.children@.take(summary.children@.len() as int) =~= summary.children@);
    assert(names.take(names.len() as int) =~= names);
    lemma_headed_total(all, names);
    lemma_components_slashed(bytes);
    let none = Seq::<Seq<u8>>::empty();
    assert(head + none =~= head);
    if prefix.len() == 0 {
        assert(prefix =~= Seq::empty());
        assert(bytes =~= Seq::empty());
        lemma_components_slashed(slashed(none));
        lemma_under_nothing(leaves(space));
        assert(!all.contains_key(none));
    } else {
        assert(all.contains_key(none) == space.contains_key(bytes));
    }
    assert forall|i: int, j: int| 0 <= i < j < summary.children@.len() implies byte_less(
        utf8((#[trigger] summary.children@[i]).name@),
        utf8((#[trigger] summary.children@[j]).name@),
    ) by {
        assert(summarizes_child(summary.children@[i], all, names[i], depth));
        assert(summarizes_child(summary.children@[j], all, names[j], depth));
        assert(byte_less(names[i], names[j]));
    }
}

/// There is nothing to summarize at a prefix exactly where no record lies at it or beneath it.
pub proof fn law_nothing_to_summarize(space: Namespace, prefix: Seq<char>)
    requires
        space.dom().finite(),
        path_fault(utf8(prefix)) is None,
    ensures
        !populated(under(leaves(space), query_parts(utf8(prefix)))) <==> records_below(
            space,
            prefix,
        ).dom() == Set::<Seq<u8>>::empty(),
{
    lemma_leaves_under(space, prefix);
    let part = records_below(space, prefix);
    if !populated(under(leaves(space), query_parts(utf8(prefix)))) {
        assert(part.dom() =~= Set::empty());
    } else {
        let path = choose|path: Seq<u8>| part.contains_key(path);
        assert(part.dom().contains(path));
    }
}

/// Of records that are each in order, building a tree refuses exactly those lists in which a path
/// occurs twice.
pub proof fn law_only_duplicates_are_refused(records: Seq<RecordView>)
    requires
        forall|i: int| 0 <= i < records.len() ==> record_fault(#[trigger] records[i]) is None,
    ensures
        load_fault(records) == (if exists|i: int, j: int|
            0 <= i < j < records.len() && (#[trigger] records[i]).path == (
            #[trigger] records[j]).path {
            Some(ReconcileError::DuplicatePath)
        } else {
            None
        }),
{
    lemma_duplicates_from(records, 0);
    if exists|i: int, j: int|
        0 <= i < j < records.len() && (#[trigger] records[i]).path == (#[trigger] records[j]).path {
        let (i, j) = choose|i: int, j: int|
            0 <= i < j < records.len() && (#[trigger] records[i]).path == (
            #[trigger] records[j]).path;
        if load_fault(records) is None {
            lemma_no_load_fault(records, 0);
            assert(is_at(records, i, records[j].path));
            assert(load_fault_at(records, j) is None);
        }
    }
}

/// From a position on, a fault of records that are each in order is a path that occurs twice.
proof fn lemma_duplicates_from(records: Seq<RecordView>, i: int)
    requires
        0 <= i,
        forall|k: int| 0 <= k < records.len() ==> record_fault(#[trigger] records[k]) is None,
    ensures
        match load_fault_from(records, i) {
            Some(error) => error == ReconcileError::DuplicatePath && exists|a: int, b: int|
                0 <= a < b < records.len() && (#[trigger] records[a]).path == (
                #[trigger] records[b]).path,
            None => true,
        },
    decreases records.len() - i,
{
    if i < records.len() {
        assert(record_fault(records[i]) is None);
        if load_fault_at(records, i) is Some {
            let j = choose|j: int| 0 <= j < i && is_at(records, j, records[i].path);
            assert(records[j].path == records[i].path);
        } else {
            lemma_duplicates_from(records, i + 1);
        }
    }
}

/// A tree lists just the records that it was built from, each as often: in path order, and
/// otherwise unchanged.
pub proof fn law_tree_lists_what_was_given(given: Seq<SyncRecord>, listed: Seq<SyncRecord>)
    requires
        load_fault(views(given)) is None,
        ascending(listed),
        namespace(listed) == gathered(views(given)),
    ensures
        listed.len() == given.len(),
        views(listed).to_multiset() == views(given).to_multiset(),
{
    let a = views(given);
    let b = views(listed);
    lemma_no_load_fault(a, 0);
    assert forall|i: int, j: int| 0 <= i < j < a.len() implies a[i].path != a[j].path by {
        assert(load_fault_at(a, j) is None);
        if a[i].path == a[j].path {
            assert(is_at(a, i, a[j].path));
        }
    }
    assert(a.no_duplicates());
    assert forall|i: int, j: int| 0 <= i < j < b.len() implies b[i] != b[j] by {
        lemma_rank_unique(listed, i);
        lemma_rank_unique(listed, j);
        if b[i] == b[j] {
            assert(listed[i].key() == listed[j].key());
        }
    }
    assert(b.no_duplicates());
    assert forall|record: RecordView| #[trigger] a.contains(record) == b.contains(record) by {
        if a.contains(record) {
            let i = choose|i: int| 0 <= i < a.len() && a[i] == record;
            let path = record.path;
            assert(is_at(a, i, path));
            let k = choose|k: int| is_at(a, k, path);
            assert(k == i) by {
                if k < i {
                    assert(a[k].path != a[i].path);
                } else if i < k {
                    assert(a[i].path != a[k].path);
                }
            }
            assert(namespace(listed).contains_key(path));
            let r = rank_of(listed, path);
            assert(has_key(listed, path));
            lemma_rank_unique(listed, r);
            assert(gathered(a)[path] == a[k]);
            assert(namespace(listed)[path] == listed[r]@);
            assert(b[r] == record);
        }
        if b.contains(record) {
            let r = choose|r: int| 0 <= r < b.len() && b[r] == record;
            let path = listed[r].key();
            lemma_rank_unique(listed, r);
            assert(has_key(listed, path));
            assert(gathered(a).contains_key(path));
            let k = choose|k: int| is_at(a, k, path);
            assert(gathered(a)[path] == a[k]);
            assert(a[k] == record);
        }
    }
    a.to_multiset_ensures();
    b.to_multiset_ensures();
    a.lemma_multiset_has_no_duplicates();
    b.lemma_multiset_has_no_duplicates();
    assert forall|record: RecordView| #[trigger]
        a.to_multiset().count(record) == b.to_multiset().count(record) by {
        assert(a.contains(record) == (a.to_multiset().count(record) > 0));
        assert(b.contains(record) == (b.to_multiset().count(record) > 0));
    }
    assert(a.to_multiset() =~= b.to_multiset());
}

/// What the digest of a node is derived from.
pub open spec fn node_material(all: Leaves, depth: nat) -> Seq<u8> {
    own_material(all) + children_material(all, child_names(all), depth)
}

/// At every place of the two sides, nodes with the same digest are derived from the same bytes.
pub open spec fn nodes_told_apart(left: Leaves, right: Leaves, depth: nat) -> bool {
    forall|prefix: Seq<Seq<u8>>|
        #![trigger under(left, prefix), under(right, prefix)]
        prefix.len() <= depth && subtree_digest(
            under(left, prefix),
            (depth - prefix.len()) as nat,
        ) == subtree_digest(under(right, prefix), (depth - prefix.len()) as nat) ==> node_material(
            under(left, prefix),
            (depth - prefix.len()) as nat,
        ) == node_material(under(right, prefix), (depth - prefix.len()) as nat)
}

/// The digests of nodes and of leaves have 32 bytes.
pub open spec fn digests_are_whole(all: Leaves) -> bool {
    &&& forall|material: Seq<u8>|
        (#[trigger] blake3_derived("deltaweave merkle path node v1"@, material)).len() == 32
    &&& forall|parts: Seq<Seq<u8>>| #[trigger] all.contains_key(parts) ==> all[parts].len() == 32
}

/// The leaves are those of a tree of some depth, with names of a length that can be written.
pub open spec fn is_tree(all: Leaves, depth: nat) -> bool {
    &&& all.dom().finite()
    &&& forall|parts: Seq<Seq<u8>>| #[trigger]
        all.contains_key(parts) ==> parts.len() <= depth && forall|i: int|
            0 <= i < parts.len() ==> (#[trigger] parts[i]).len() <= u64::MAX
}

/// The bytes of one child.
#[verifier::opaque]
spec fn child_entry(all: Leaves, name: Seq<u8>, depth: nat) -> Seq<u8> {
    le_bytes(name.len() as u64) + name + subtree_digest(below(all, name), (depth - 1) as nat)
        + le_bytes(below(all, name).dom().len() as u64)
}

proof fn lemma_children_last(all: Leaves, names: Seq<Seq<u8>>, depth: nat)
    requires
        depth > 0,
        names.len() > 0,
    ensures
        children_material(all, names, depth) == children_material(all, names.drop_last(), depth)
            + child_entry(all, names.last(), depth),
        child_entry(all, names.last(), depth).len() > 0,
{
    reveal(child_entry);
    let name = names.last();
    let before = children_material(all, names.drop_last(), depth);
    let digest = subtree_digest(below(all, name), (depth - 1) as nat);
    let count = le_bytes(below(all, name).dom().len() as u64);
    let length = le_bytes(name.len() as u64);
    lemma_five(before, length, name, digest, count);
    lemma_five(Seq::empty(), length, name, digest, count);
    assert(Seq::<u8>::empty() + length =~= length);
    assert(Seq::<u8>::empty() + (length + (name + (digest + count))) =~= length + (name + (digest
        + count)));
}

proof fn lemma_children_front(all: Leaves, names: Seq<Seq<u8>>, depth: nat)
    requires
        depth > 0,
        names.len() > 0,
    ensures
        children_material(all, names, depth) == child_entry(all, names[0], depth)
            + children_material(all, names.skip(1), depth),
        child_entry(all, names[0], depth).len() > 0,
    decreases names.len(),
{
    lemma_children_last(all, names, depth);
    let name = names.last();
    let less = names.drop_last();
    let before = children_material(all, less, depth);
    if names.len() == 1 {
        assert(less =~= Seq::empty());
        assert(names.skip(1) =~= Seq::empty());
        assert(before =~= Seq::empty());
        assert(children_material(all, names, depth) =~= child_entry(all, names[0], depth)
            + children_material(all, names.skip(1), depth));
    } else {
        lemma_children_front(all, less, depth);
        let rest = names.skip(1);
        assert(less.skip(1) =~= rest.drop_last());
        assert(rest.last() == name);
        let middle = children_material(all, less.skip(1), depth);
        lemma_children_last(all, rest, depth);
        assert(children_material(all, names, depth) =~= child_entry(all, names[0], depth)
            + children_material(all, rest, depth));
    }
}

/// The bytes of one child, with whatever behind them, fix its name and its digest.
proof fn lemma_child_entry(
    a: Leaves,
    x: Seq<u8>,
    r: Seq<u8>,
    b: Leaves,
    y: Seq<u8>,
    s: Seq<u8>,
    depth: nat,
)
    requires
        digests_are_whole(a),
        digests_are_whole(b),
        x.len() <= u64::MAX,
        y.len() <= u64::MAX,
        child_entry(a, x, depth) + r == child_entry(b, y, depth) + s,
    ensures
        x == y,
        r == s,
        subtree_digest(below(a, x), (depth - 1) as nat) == subtree_digest(
            below(b, y),
            (depth - 1) as nat,
        ),
{
    reveal(child_entry);
    let (dx, dy) = (
        subtree_digest(below(a, x), (depth - 1) as nat),
        subtree_digest(below(b, y), (depth - 1) as nat),
    );
    let (lx, ly) = (le_bytes(x.len() as u64), le_bytes(y.len() as u64));
    let (cx, cy) = (
        le_bytes(below(a, x).dom().len() as u64),
        le_bytes(below(b, y).dom().len() as u64),
    );
    lemma_five(lx, x, dx, cx, r);
    lemma_five(ly, y, dy, cy, s);
    lemma_same_parts(lx, x + (dx + (cx + r)), ly, y + (dy + (cy + s)));
    lemma_le_bytes_injective(x.len() as u64, y.len() as u64);
    lemma_same_parts(x, dx + (cx + r), y, dy + (cy + s));
    lemma_same_parts(dx, cx + r, dy, cy + s);
    lemma_same_parts(cx, r, cy, s);
}

proof fn lemma_five(a: Seq<u8>, b: Seq<u8>, c: Seq<u8>, d: Seq<u8>, e: Seq<u8>)
    ensures
        a + b + c + d + e == a + (b + (c + (d + e))),
{
    assert(a + b + c + d + e =~= a + (b + (c + (d + e))));
}

/// The bytes of all children fix their names and their digests.
proof fn lemma_children_fixed(
    a: Leaves,
    x: Seq<Seq<u8>>,
    b: Leaves,
    y: Seq<Seq<u8>>,
    depth: nat,
)
    requires
        depth > 0,
        digests_are_whole(a),
        digests_are_whole(b),
        forall|i: int| 0 <= i < x.len() ==> (#[trigger] x[i]).len() <= u64::MAX,
        forall|i: int| 0 <= i < y.len() ==> (#[trigger] y[i]).len() <= u64::MAX,
        children_material(a, x, depth) == children_material(b, y, depth),
    ensures
        x == y,
        forall|i: int|
            0 <= i < x.len() ==> subtree_digest(below(a, #[trigger] x[i]), (depth - 1) as nat)
                == subtree_digest(below(b, x[i]), (depth - 1) as nat),
    decreases x.len(),
{
    if x.len() > 0 {
        lemma_children_front(a, x, depth);
    }
    if y.len() > 0 {
        lemma_children_front(b, y, depth);
    }
    if x.len() == 0 || y.len() == 0 {
        assert(children_material(a, Seq::empty(), depth).len() == 0);
        if x.len() > 0 {
            assert(child_entry(a, x[0], depth).len() > 0);
            assert(y =~= Seq::empty());
        } else if y.len() > 0 {
            assert(child_entry(b, y[0], depth).len() > 0);
            assert(x =~= Seq::empty());
        }
        assert(x =~= y);
    } else {
        let (u, v) = (x.skip(1), y.skip(1));
        lemma_child_entry(
            a,
            x[0],
            children_material(a, u, depth),
            b,
            y[0],
            children_material(b, v, depth),
            depth,
        );
        assert forall|i: int| 0 <= i < u.len() implies (#[trigger] u[i]).len() <= u64::MAX by {
            assert(u[i] == x[i + 1]);
        }
        assert forall|i: int| 0 <= i < v.len() implies (#[trigger] v[i]).len() <= u64::MAX by {
            assert(v[i] == y[i + 1]);
        }
        lemma_children_fixed(a, u, b, v, depth);
        assert forall|i: int| 0 <= i < x.len() implies x[i] == y[i] && subtree_digest(
            below(a, #[trigger] x[i]),
            (depth - 1) as nat,
        ) == subtree_digest(below(b, x[i]), (depth - 1) as nat) by {
            if i > 0 {
                assert(u[i - 1] == x[i] && v[i - 1] == y[i]);
            }
        }
        assert(x =~= y);
    }
}

/// What stands for the own record, with whatever behind it, fixes the record.
proof fn lemma_own_fixed(a: Leaves, r: Seq<u8>, b: Leaves, s: Seq<u8>)
    requires
        digests_are_whole(a),
        digests_are_whole(b),
        own_material(a) + r == own_material(b) + s,
    ensures
        leaf(a, Seq::empty()) == leaf(b, Seq::empty()),
        r == s,
{
    let none = Seq::<Seq<u8>>::empty();
    assert((own_material(a) + r)[0] == own_material(a)[0]);
    assert((own_material(b) + s)[0] == own_material(b)[0]);
    lemma_same_parts(own_material(a), r, own_material(b), s);
    if a.contains_key(none) && b.contains_key(none) {
        lemma_same_parts(seq![1u8], a[none], seq![1u8], b[none]);
    }
}

/// The digest of a node leaves nothing of the tree below it out: where digests do not collide, two
/// trees with the same digest have the same leaves at the same places.
pub proof fn law_digest_fixes_the_tree(a: Leaves, b: Leaves, depth: nat)
    requires
        is_tree(a, depth),
        is_tree(b, depth),
        digests_are_whole(a),
        digests_are_whole(b),
        nodes_told_apart(a, b, depth),
        subtree_digest(a, depth) == subtree_digest(b, depth),
    ensures
        a == b,
    decreases depth,
{
    let none = Seq::<Seq<u8>>::empty();
    lemma_under_nothing(a);
    lemma_under_nothing(b);
    assert(node_material(under(a, none), (depth - none.len()) as nat) == node_material(
        under(b, none),
        (depth - none.len()) as nat,
    ));
    let (x, y) = (child_names(a), child_names(b));
    lemma_children_listable(a);
    lemma_children_listable(b);
    lemma_own_fixed(
        a,
        children_material(a, x, depth),
        b,
        children_material(b, y, depth),
    );
    if depth > 0 {
        lemma_names_short(a, depth);
        lemma_names_short(b, depth);
        lemma_children_fixed(a, x, b, y, depth);
    }
    assert forall|parts: Seq<Seq<u8>>|
        #![trigger a.dom().contains(parts)]
        a.dom().contains(parts) == b.dom().contains(parts) && (a.dom().contains(parts) ==> a[parts]
            == b[parts]) by {
        if parts.len() == 0 {
            assert(parts =~= none);
        } else if a.dom().contains(parts) || b.dom().contains(parts) {
            assert(a.contains_key(parts) || b.contains_key(parts));
            let name = parts[0];
            if a.contains_key(parts) {
                assert(is_child(a, name));
            } else {
                assert(is_child(b, name));
            }
            assert(x.contains(name));
            let k = choose|k: int| 0 <= k < x.len() && x[k] == name;
            assert(subtree_digest(below(a, x[k]), (depth - 1) as nat) == subtree_digest(
                below(b, x[k]),
                (depth - 1) as nat,
            ));
            lemma_told_apart_below(a, b, depth, name);
            lemma_tree_below(a, depth, name);
            lemma_tree_below(b, depth, name);
            law_digest_fixes_the_tree(below(a, name), below(b, name), (depth - 1) as nat);
            let rest = parts.drop_first();
            assert(seq![name] + rest =~= parts);
            assert(below(a, name).contains_key(rest) == a.contains_key(parts));
            assert(below(b, name).contains_key(rest) == b.contains_key(parts));
            if a.contains_key(parts) {
                assert(below(a, name)[rest] == a[parts]);
                assert(below(b, name)[rest] == b[parts]);
            }
        }
    }
    assert(a =~= b);
}

proof fn lemma_names_short(all: Leaves, depth: nat)
    requires
        is_tree(all, depth),
        lists_children(all, child_names(all)),
    ensures
        forall|i: int|
            0 <= i < child_names(all).len() ==> (#[trigger] child_names(all)[i]).len() <= u64::MAX,
{
    let names = child_names(all);
    assert forall|i: int| 0 <= i < names.len() implies (#[trigger] names[i]).len() <= u64::MAX by {
        assert(names.contains(names[i]));
        assert(is_child(all, names[i]));
        let parts = choose|parts: Seq<Seq<u8>>| #[trigger]
            all.contains_key(parts) && parts.len() > 0 && parts[0] == names[i];
        assert(parts[0].len() <= u64::MAX);
    }
}

proof fn lemma_told_apart_below(a: Leaves, b: Leaves, depth: nat, name: Seq<u8>)
    requires
        depth > 0,
        nodes_told_apart(a, b, depth),
    ensures
        nodes_told_apart(below(a, name), below(b, name), (depth - 1) as nat),
{
    let (x, y) = (below(a, name), below(b, name));
    assert forall|prefix: Seq<Seq<u8>>|
        #![trigger under(x, prefix), under(y, prefix)]
        prefix.len() <= depth - 1 && subtree_digest(
            under(x, prefix),
            (depth - 1 - prefix.len()) as nat,
        ) == subtree_digest(under(y, prefix), (depth - 1 - prefix.len()) as nat) implies
        node_material(under(x, prefix), (depth - 1 - prefix.len()) as nat) == node_material(
        under(y, prefix),
        (depth - 1 - prefix.len()) as nat,
    ) by {
        let whole = seq![name] + prefix;
        lemma_under_under(a, seq![name], prefix);
        lemma_under_under(b, seq![name], prefix);
        assert(under(a, whole) == under(x, prefix) && under(b, whole) == under(y, prefix));
        assert(whole.len() == prefix.len() + 1);
    }
}

proof fn lemma_tree_below(all: Leaves, depth: nat, name: Seq<u8>)
    requires
        depth > 0,
        is_tree(all, depth),
        digests_are_whole(all),
    ensures
        is_tree(below(all, name), (depth - 1) as nat),
        digests_are_whole(below(all, name)),
{
    let part = below(all, name);
    crate::merkle::lemma_below_size(all, name);
    assert forall|parts: Seq<Seq<u8>>| #[trigger] part.contains_key(parts) implies parts.len()
        <= depth - 1 && part[parts].len() == 32 && forall|i: int|
        0 <= i < parts.len() ==> (#[trigger] parts[i]).len() <= u64::MAX by {
        let whole = seq![name] + parts;
        assert(all.contains_key(whole));
        assert forall|i: int| 0 <= i < parts.len() implies (#[trigger] parts[i]).len()
            <= u64::MAX by {
            assert(whole[i + 1] == parts[i]);
        }
    }
}

proof fn lemma_below_under(all: Leaves, parts: Seq<Seq<u8>>, name: Seq<u8>)
    ensures
        below(under(all, parts), name) == under(all, parts.push(name)),
{
    lemma_under_under(all, parts, seq![name]);
    assert(parts + seq![name] =~= parts.push(name));
}

proof fn lemma_child_says(
    summary: MerkleNodeSummary,
    space: Namespace,
    prefix: Seq<char>,
    i: int,
)
    requires
        summarizes(summary, space, prefix),
        0 <= i < summary.children@.len(),
    ensures
        ({
            let parts = query_parts(utf8(prefix));
            let inside = below(under(leaves(space), parts), utf8(summary.children@[i].name@));
            let depth = ((crate::merkle::MAX_DEPTH - parts.len()) as nat - 1) as nat;
            &&& summary.children@[i].hash@ == subtree_digest(inside, depth)
            &&& summary.children@[i].record_count == inside.dom().len()
        }),
{
    let all = under(leaves(space), query_parts(utf8(prefix)));
    let depth = (crate::merkle::MAX_DEPTH - query_parts(utf8(prefix)).len()) as nat;
    assert(summarizes_child(summary.children@[i], all, child_names(all)[i], depth));
}

proof fn lemma_node_says(summary: MerkleNodeSummary, space: Namespace, prefix: Seq<char>)
    requires
        summarizes(summary, space, prefix),
    ensures
        ({
            let parts = query_parts(utf8(prefix));
            let inside = under(leaves(space), parts);
            &&& summary.hash@ == subtree_digest(
                inside,
                (crate::merkle::MAX_DEPTH - parts.len()) as nat,
            )
            &&& summary.record_count == inside.dom().len()
        }),
{
}

/// What a summary says of a child is what a question about that child itself is answered: the same
/// digest, and the same number of records, down to the deepest level. So a difference can be
/// followed downwards.
pub proof fn law_child_is_summarized_alike(
    summary: MerkleNodeSummary,
    child: MerkleNodeSummary,
    space: Namespace,
    prefix: Seq<char>,
    child_prefix: Seq<char>,
    i: int,
)
    requires
        summarizes(summary, space, prefix),
        summarizes(child, space, child_prefix),
        0 <= i < summary.children@.len(),
        query_parts(utf8(prefix)).len() < crate::merkle::MAX_DEPTH,
        query_parts(utf8(child_prefix)) == query_parts(utf8(prefix)).push(
            utf8(summary.children@[i].name@),
        ),
    ensures
        summary.children@[i].hash@ == child.hash@,
        summary.children@[i].record_count == child.record_count,
{
    let parts = query_parts(utf8(prefix));
    let name = utf8(summary.children@[i].name@);
    lemma_child_says(summary, space, prefix, i);
    lemma_node_says(child, space, child_prefix);
    lemma_below_under(leaves(space), parts, name);
}

} // verus!
