//! The deterministic Merkle tree over path records.
use vstd::prelude::*;

use crate::hash::{blake3_derived, le_bytes, push_bytes, push_le, Hash32};
use crate::order::{
    byte_less, compare_bytes, lemma_byte_less_asym, lemma_byte_less_total, ByteOrder,
};
use crate::path::{components, lemma_components_slashed, path_fault, slashed, text_bytes, WirePath};
use crate::reconcile::ReconcileError;
use crate::record::{logical_digest, record_fault, RecordView, SyncRecord};
use crate::table::{
    ascending, find, has_key, lemma_rank_unique, lemma_table_empty, lemma_table_size, locate,
    placed, put, rank_of, table, Keyed, Place,
};
use crate::text::utf8;

verus! {

/// No portable path has more components than this.
pub const MAX_DEPTH: u32 = 4096;

/// The logical digests of records by the components of their paths.
pub type Leaves = Map<Seq<Seq<u8>>, Seq<u8>>;

/// The records of a namespace by path.
pub type Namespace = Map<Seq<u8>, RecordView>;

/// The leaves of a namespace.
pub open spec fn leaves(namespace: Namespace) -> Leaves {
    Map::new(
        |parts: Seq<Seq<u8>>|
            namespace.contains_key(slashed(parts)) && components(slashed(parts)) == parts,
        |parts: Seq<Seq<u8>>| logical_digest(namespace[slashed(parts)]),
    )
}

/// The leaves under a list of components.
pub open spec fn under(all: Leaves, prefix: Seq<Seq<u8>>) -> Leaves {
    Map::new(
        |parts: Seq<Seq<u8>>| all.contains_key(prefix + parts),
        |parts: Seq<Seq<u8>>| all[prefix + parts],
    )
}

/// The leaves under one component.
pub open spec fn below(all: Leaves, name: Seq<u8>) -> Leaves {
    under(all, seq![name])
}

/// There is some leaf.
pub open spec fn populated(all: Leaves) -> bool {
    exists|parts: Seq<Seq<u8>>| all.contains_key(parts)
}

/// The digest of a leaf that is there.
pub open spec fn leaf(all: Leaves, parts: Seq<Seq<u8>>) -> Option<Seq<u8>> {
    if all.contains_key(parts) {
        Some(all[parts])
    } else {
        None
    }
}

/// Some leaf starts with this component.
pub open spec fn is_child(all: Leaves, name: Seq<u8>) -> bool {
    exists|parts: Seq<Seq<u8>>| #[trigger]
        all.contains_key(parts) && parts.len() > 0 && parts[0] == name
}

/// The names are in strictly ascending byte order.
pub open spec fn names_ascend(names: Seq<Seq<u8>>) -> bool {
    forall|i: int, j: int|
        0 <= i < j < names.len() ==> byte_less(#[trigger] names[i], #[trigger] names[j])
}

/// These are the first components of the leaves, in ascending order.
pub open spec fn lists_children(all: Leaves, names: Seq<Seq<u8>>) -> bool {
    &&& names_ascend(names)
    &&& forall|name: Seq<u8>| #[trigger] names.contains(name) <==> is_child(all, name)
}

/// The first components of the leaves, in ascending order.
pub open spec fn child_names(all: Leaves) -> Seq<Seq<u8>> {
    choose|names: Seq<Seq<u8>>| lists_children(all, names)
}

/// What stands for the record at a node itself.
pub open spec fn own_material(all: Leaves) -> Seq<u8> {
    if all.contains_key(Seq::empty()) {
        seq![1u8] + all[Seq::empty()]
    } else {
        seq![0u8]
    }
}

/// What stands for the children: each name with its length, digest and number of records.
pub open spec fn children_material(all: Leaves, names: Seq<Seq<u8>>, depth: nat) -> Seq<u8>
    decreases depth, 0nat, names.len(),
{
    if depth == 0 || names.len() == 0 {
        Seq::empty()
    } else {
        let name = names.last();
        children_material(all, names.drop_last(), depth) + le_bytes(name.len() as u64) + name
            + subtree_digest(below(all, name), (depth - 1) as nat) + le_bytes(
            below(all, name).dom().len() as u64,
        )
    }
}

/// The digest of the leaves, none of which lies deeper than `depth`.
pub open spec fn subtree_digest(all: Leaves, depth: nat) -> Seq<u8>
    decreases depth, 1nat, 0nat,
{
    blake3_derived(
        "deltaweave merkle path node v1"@,
        own_material(all) + children_material(all, child_names(all), depth),
    )
}

/// The root digest of a namespace.
pub open spec fn root_digest(namespace: Namespace) -> Seq<u8> {
    subtree_digest(leaves(namespace), MAX_DEPTH as nat)
}

/// Digest and number of records are the same on both sides.
pub open spec fn seems_same(left: Leaves, right: Leaves, depth: nat) -> bool {
    &&& subtree_digest(left, depth) == subtree_digest(right, depth)
    &&& left.dom().len() == right.dom().len()
}

/// A descent that goes only into subtrees that do not seem the same comes to a leaf on which the
/// sides differ. A subtree that one side lacks differs in all its leaves.
pub open spec fn differs(left: Leaves, right: Leaves, parts: Seq<Seq<u8>>, depth: nat) -> bool
    decreases parts.len(),
{
    if seems_same(left, right, depth) {
        false
    } else if parts.len() == 0 {
        leaf(left, parts) != leaf(right, parts)
    } else {
        let a = below(left, parts[0]);
        let b = below(right, parts[0]);
        let rest = parts.drop_first();
        if populated(a) && populated(b) {
            differs(a, b, rest, (depth - 1) as nat)
        } else {
            a.contains_key(rest) || b.contains_key(rest)
        }
    }
}

/// The names that a set of leaves starts with fix the list of them.
proof fn lemma_child_names(all: Leaves, names: Seq<Seq<u8>>)
    requires
        lists_children(all, names),
    ensures
        child_names(all) == names,
{
    let other = child_names(all);
    assert(lists_children(all, other));
    lemma_names_canonical(other, names);
}

/// The names in an ascending list fix the list.
pub proof fn lemma_names_canonical(a: Seq<Seq<u8>>, b: Seq<Seq<u8>>)
    requires
        names_ascend(a),
        names_ascend(b),
        forall|name: Seq<u8>| #[trigger] a.contains(name) <==> b.contains(name),
    ensures
        a == b,
{
    assert forall|i: int| 0 <= i < a.len() implies i < b.len() && a[i] == b[i] by {
        lemma_names_prefix(a, b, i);
    }
    if a.len() < b.len() {
        lemma_names_prefix(b, a, a.len() as int);
    } else if b.len() < a.len() {
        lemma_names_prefix(a, b, b.len() as int);
    }
    assert(a =~= b);
}

proof fn lemma_names_prefix(a: Seq<Seq<u8>>, b: Seq<Seq<u8>>, i: int)
    requires
        names_ascend(a),
        names_ascend(b),
        forall|name: Seq<u8>| #[trigger] a.contains(name) <==> b.contains(name),
        0 <= i < a.len(),
    ensures
        i < b.len(),
        a[i] == b[i],
    decreases i,
{
    assert(a.contains(a[i]));
    let rb = choose|r: int| 0 <= r < b.len() && b[r] == a[i];
    if rb < i {
        lemma_names_prefix(a, b, rb);
        assert(byte_less(a[rb], a[i]));
        lemma_byte_less_asym(a[i], a[i]);
    } else if rb > i {
        assert(b.contains(b[i]));
        assert(a.contains(b[i]));
        let ra = choose|r: int| 0 <= r < a.len() && a[r] == b[i];
        if ra < i {
            lemma_names_prefix(a, b, ra);
            assert(byte_less(b[ra], b[i]));
            lemma_byte_less_asym(b[i], b[i]);
        } else {
            assert(byte_less(b[i], b[rb]));
            if ra > i {
                assert(byte_less(a[i], a[ra]));
            }
            lemma_byte_less_asym(a[i], b[i]);
        }
    }
}

/// Finitely many names can be listed in ascending order.
pub proof fn lemma_names_listable(names: Set<Seq<u8>>) -> (list: Seq<Seq<u8>>)
    requires
        names.finite(),
    ensures
        names_ascend(list),
        forall|name: Seq<u8>| #[trigger] list.contains(name) <==> names.contains(name),
    decreases names.len(),
{
    if names.len() == 0 {
        assert(names =~= Set::empty());
        let list = Seq::<Seq<u8>>::empty();
        assert forall|name: Seq<u8>| #[trigger] list.contains(name) <==> names.contains(name) by {}
        list
    } else {
        let name = names.choose();
        let rest = names.remove(name);
        let shorter = lemma_names_listable(rest);
        let at = lemma_gap(shorter, name, 0);
        let list = shorter.insert(at, name);
        assert forall|i: int, j: int| 0 <= i < j < list.len() implies byte_less(
            #[trigger] list[i],
            #[trigger] list[j],
        ) by {
            let si = if i < at { i } else { i - 1 };
            let sj = if j < at { j } else { j - 1 };
            if i != at {
                assert(list[i] == shorter[si]);
            }
            if j != at {
                assert(list[j] == shorter[sj]);
            }
            if i != at && j != at {
                assert(byte_less(shorter[si], shorter[sj]));
            }
        }
        assert forall|other: Seq<u8>| #[trigger] list.contains(other) <==> names.contains(
            other,
        ) by {
            if list.contains(other) {
                let i = choose|i: int| 0 <= i < list.len() && list[i] == other;
                if i != at {
                    let si = if i < at { i } else { i - 1 };
                    assert(shorter[si] == other);
                    assert(shorter.contains(other));
                }
            }
            if names.contains(other) {
                if other == name {
                    assert(list[at] == other);
                } else {
                    assert(shorter.contains(other));
                    let si = choose|si: int| 0 <= si < shorter.len() && shorter[si] == other;
                    let i = if si < at { si } else { si + 1 };
                    assert(list[i] == other);
                }
            }
        }
        list
    }
}

/// Where a new name goes in an ascending list.
proof fn lemma_gap(names: Seq<Seq<u8>>, name: Seq<u8>, from: int) -> (at: int)
    requires
        names_ascend(names),
        !names.contains(name),
        0 <= from <= names.len(),
        forall|i: int| 0 <= i < from ==> byte_less(#[trigger] names[i], name),
    ensures
        0 <= at <= names.len(),
        forall|i: int| 0 <= i < at ==> byte_less(#[trigger] names[i], name),
        forall|i: int| at <= i < names.len() ==> byte_less(name, #[trigger] names[i]),
    decreases names.len() - from,
{
    if from == names.len() {
        from
    } else if byte_less(names[from], name) {
        lemma_gap(names, name, from + 1)
    } else {
        lemma_byte_less_total(names[from], name);
        assert(names.contains(names[from]));
        assert forall|i: int| from <= i < names.len() implies byte_less(name, #[trigger] names[i]) by {
            if i > from {
                assert(byte_less(names[from], names[i]));
                crate::order::lemma_byte_less_trans(name, names[from], names[i]);
            }
        }
        from
    }
}

/// The record at a node.
#[derive(Debug)]
struct NodeRecord {
    hash: Hash32,
    path: WirePath,
}

/// One child of a node.
#[derive(Debug)]
struct MerkleChild {
    name: String,
    node: MerkleNode,
}

/// A node of the path trie.
#[derive(Debug)]
struct MerkleNode {
    record: Option<NodeRecord>,
    children: Vec<MerkleChild>,
    subtree_hash: Hash32,
    record_count: usize,
}

impl Keyed for MerkleChild {
    closed spec fn key(&self) -> Seq<u8> {
        utf8(self.name@)
    }

    fn key_bytes(&self) -> (bytes: &[u8]) {
        self.name.as_str().as_bytes()
    }
}

/// The node that a list of components leads to.
spec fn lookup(node: MerkleNode, parts: Seq<Seq<u8>>) -> Option<MerkleNode>
    decreases parts.len(),
{
    if parts.len() == 0 {
        Some(node)
    } else if has_key(node.children@, parts[0]) {
        lookup(table(node.children@)[parts[0]].node, parts.drop_first())
    } else {
        None
    }
}

/// A record is there.
spec fn holds_leaf(node: MerkleNode, parts: Seq<Seq<u8>>) -> bool {
    lookup(node, parts) is Some && lookup(node, parts)->0.record is Some
}

/// The leaves of a node.
spec fn content(node: MerkleNode) -> Leaves {
    Map::new(
        |parts: Seq<Seq<u8>>| holds_leaf(node, parts),
        |parts: Seq<Seq<u8>>| lookup(node, parts)->0.record->0.hash@,
    )
}

/// The shape of a node: children in order, none of them without a record in it, and no deeper
/// than `depth`.
spec fn shaped(node: MerkleNode, depth: nat) -> bool
    decreases depth,
{
    &&& ascending(node.children@)
    &&& forall|i: int|
        #![trigger node.children@[i]]
        0 <= i < node.children@.len() ==> {
            &&& depth > 0
            &&& shaped(node.children@[i].node, (depth - 1) as nat)
            &&& exists|parts: Seq<Seq<u8>>| content(node.children@[i].node).contains_key(parts)
        }
}

/// Each recorded path is the path of its node.
spec fn labelled(node: MerkleNode, prefix: Seq<Seq<u8>>) -> bool {
    forall|parts: Seq<Seq<u8>>| #[trigger]
        holds_leaf(node, parts) ==> components(lookup(node, parts)->0.record->0.path@) == prefix
            + parts
}

proof fn lemma_content_step(node: MerkleNode, i: int)
    requires
        ascending(node.children@),
        0 <= i < node.children@.len(),
    ensures
        below(content(node), node.children@[i].key()) == content(node.children@[i].node),
        has_key(node.children@, node.children@[i].key()),
        table(node.children@)[node.children@[i].key()] == node.children@[i],
{
    let child = node.children@[i];
    let name = child.key();
    lemma_rank_unique(node.children@, i);
    let a = below(content(node), name);
    let b = content(child.node);
    assert forall|parts: Seq<Seq<u8>>|
        #![trigger a.dom().contains(parts)]
        a.dom().contains(parts) == b.dom().contains(parts) && lookup(node, seq![name] + parts)
            == lookup(child.node, parts) by {
        let whole = seq![name] + parts;
        assert(whole.drop_first() =~= parts);
        assert(whole[0] == name);
    }
    assert(a.dom() =~= b.dom());
    assert forall|parts: Seq<Seq<u8>>| a.dom().contains(parts) implies #[trigger] a[parts]
        == b[parts] by {
        assert(a.dom().contains(parts));
    }
    assert(a =~= b);
}

proof fn lemma_content_own(node: MerkleNode)
    ensures
        content(node).contains_key(Seq::empty()) == (node.record is Some),
        node.record is Some ==> content(node)[Seq::empty()] == node.record->0.hash@,
{
}

/// A leaf behind a component lies in the child of that name.
proof fn lemma_content_child(node: MerkleNode, parts: Seq<Seq<u8>>)
    requires
        ascending(node.children@),
        content(node).contains_key(parts),
        parts.len() > 0,
    ensures
        has_key(node.children@, parts[0]),
        content(table(node.children@)[parts[0]].node).contains_key(parts.drop_first()),
{
}

/// The children of a shaped node are the first components of its leaves.
proof fn lemma_children_listed(node: MerkleNode, depth: nat)
    requires
        shaped(node, depth),
    ensures
        lists_children(content(node), keys(node.children@)),
        child_names(content(node)) == keys(node.children@),
{
    let names = keys(node.children@);
    let all = content(node);
    assert forall|i: int, j: int| 0 <= i < j < names.len() implies byte_less(
        #[trigger] names[i],
        #[trigger] names[j],
    ) by {
        assert(byte_less(node.children@[i].key(), node.children@[j].key()));
    }
    assert forall|name: Seq<u8>| #[trigger] names.contains(name) <==> is_child(all, name) by {
        if names.contains(name) {
            let i = choose|i: int| 0 <= i < names.len() && names[i] == name;
            let child = node.children@[i];
            lemma_content_step(node, i);
            let rest = choose|parts: Seq<Seq<u8>>| content(child.node).contains_key(parts);
            assert(below(all, name).contains_key(rest));
            let whole = seq![name] + rest;
            assert(all.contains_key(whole) && whole.len() > 0 && whole[0] == name);
        }
        if is_child(all, name) {
            let parts = choose|parts: Seq<Seq<u8>>| #[trigger]
                all.contains_key(parts) && parts.len() > 0 && parts[0] == name;
            lemma_content_child(node, parts);
            let r = rank_of(node.children@, name);
            assert(names[r] == name);
        }
    }
    lemma_child_names(all, names);
}

/// The names of the children.
spec fn keys(children: Seq<MerkleChild>) -> Seq<Seq<u8>> {
    Seq::new(children.len(), |i: int| children[i].key())
}

impl MerkleNode {
    fn empty() -> (node: MerkleNode)
        ensures
            node.record is None,
            node.children@.len() == 0,
            content(node) == Leaves::empty(),
    {
        let node = MerkleNode {
            record: None,
            children: Vec::new(),
            subtree_hash: Hash32::default(),
            record_count: 0,
        };
        assert(content(node) =~= Leaves::empty()) by {
            assert forall|parts: Seq<Seq<u8>>| !content(node).dom().contains(parts) by {
                if parts.len() > 0 {
                    assert(!has_key(node.children@, parts[0]));
                }
            }
        }
        node
    }

    /// Puts a record at the node that the components from `at` on lead to.
    fn insert(&mut self, parts: &Vec<String>, at: usize, leaf: NodeRecord, Ghost(depth): Ghost<nat>)
        requires
            at <= parts@.len(),
            parts@.len() - at <= depth,
            shaped(*old(self), depth),
        ensures
            shaped(*final(self), depth),
            content(*final(self)) == content(*old(self)).insert(
                text_bytes(parts@).skip(at as int),
                leaf.hash@,
            ),
            forall|prefix: Seq<Seq<u8>>| #[trigger]
                labelled(*old(self), prefix) && components(leaf.path@) == prefix + text_bytes(
                    parts@,
                ).skip(at as int) ==> labelled(*final(self), prefix),
        decreases parts@.len() - at,
    {
        let ghost before = *self;
        let ghost rest = text_bytes(parts@).skip(at as int);
        if at == parts.len() {
            self.record = Some(leaf);
            proof {
                assert(rest =~= Seq::<Seq<u8>>::empty());
                lemma_own_replaced(before, *self, depth, leaf);
            }
            return ;
        }
        let place = locate(&self.children, parts[at].as_str().as_bytes());
        if !place.found {
            self.children.insert(
                place.at,
                MerkleChild { name: parts[at].clone(), node: MerkleNode::empty() },
            );
        }
        let ghost middle = *self;
        let ghost name = rest[0];
        proof {
            assert(rest[0] == utf8(parts@[at as int]@));
            assert(rest.drop_first() =~= text_bytes(parts@).skip(at + 1));
            lemma_child_ready(before, middle, place, name, depth);
        }
        self.children[place.at].node.insert(
            parts,
            at + 1,
            leaf,
            Ghost((depth - 1) as nat),
        );
        proof {
            lemma_child_replaced(before, middle, *self, place, rest, leaf, depth);
        }
    }
}

proof fn lemma_own_replaced(before: MerkleNode, after: MerkleNode, depth: nat, leaf: NodeRecord)
    requires
        shaped(before, depth),
        after == (MerkleNode { record: Some(leaf), ..before }),
    ensures
        shaped(after, depth),
        content(after) == content(before).insert(Seq::empty(), leaf.hash@),
        forall|prefix: Seq<Seq<u8>>| #[trigger]
            labelled(before, prefix) && components(leaf.path@) == prefix + Seq::<
                Seq<u8>,
            >::empty() ==> labelled(after, prefix),
{
    assert forall|parts: Seq<Seq<u8>>| parts.len() > 0 implies #[trigger] lookup(after, parts)
        == lookup(before, parts) by {}
    let goal = content(before).insert(Seq::empty(), leaf.hash@);
    assert forall|parts: Seq<Seq<u8>>|
        #![trigger content(after).dom().contains(parts)]
        content(after).dom().contains(parts) == goal.dom().contains(parts) && (content(
            after,
        ).dom().contains(parts) ==> content(after)[parts] == goal[parts]) by {
        if parts.len() == 0 {
            assert(parts =~= Seq::empty());
        } else {
            assert(lookup(after, parts) == lookup(before, parts));
        }
    }
    assert(content(after) =~= goal);
    assert forall|prefix: Seq<Seq<u8>>| #[trigger]
        labelled(before, prefix) && components(leaf.path@) == prefix + Seq::<
            Seq<u8>,
        >::empty() implies labelled(after, prefix) by {
        assert forall|parts: Seq<Seq<u8>>| #[trigger]
            holds_leaf(after, parts) implies components(lookup(after, parts)->0.record->0.path@)
            == prefix + parts by {
            if parts.len() > 0 {
                assert(lookup(after, parts) == lookup(before, parts));
                assert(holds_leaf(before, parts));
            } else {
                assert(parts =~= Seq::empty());
            }
        }
    }
}

/// The child that an insertion goes on in: the one that was there, or an empty one.
proof fn lemma_child_ready(
    before: MerkleNode,
    middle: MerkleNode,
    place: Place,
    name: Seq<u8>,
    depth: nat,
)
    requires
        shaped(before, depth),
        depth > 0,
        placed(before.children@, name, place),
        place.found ==> middle == before,
        !place.found ==> {
            &&& middle.record == before.record
            &&& exists|child: MerkleChild|
                {
                    &&& child.key() == name
                    &&& child.node.record is None
                    &&& child.node.children@.len() == 0
                    &&& middle.children@ == #[trigger] before.children@.insert(
                        place.at as int,
                        child,
                    )
                }
        },
    ensures
        place.at < middle.children@.len(),
        middle.children@[place.at as int].key() == name,
        shaped(middle.children@[place.at as int].node, (depth - 1) as nat),
{
    if !place.found {
        let node = middle.children@[place.at as int].node;
        assert(ascending(node.children@));
    }
}

proof fn lemma_child_replaced(
    before: MerkleNode,
    middle: MerkleNode,
    after: MerkleNode,
    place: Place,
    rest: Seq<Seq<u8>>,
    leaf: NodeRecord,
    depth: nat,
)
    requires
        shaped(before, depth),
        depth > 0,
        rest.len() > 0,
        place.at < middle.children@.len(),
        placed(before.children@, rest[0], place),
        place.found ==> middle == before,
        middle.record == before.record,
        after.record == before.record,
        middle.children@[place.at as int].key() == rest[0],
        !place.found ==> {
            &&& middle.children@[place.at as int].node.record is None
            &&& middle.children@[place.at as int].node.children@.len() == 0
            &&& middle.children@ == before.children@.insert(
                place.at as int,
                middle.children@[place.at as int],
            )
        },
        after.children@.len() == middle.children@.len(),
        after.children@ == middle.children@.update(
            place.at as int,
            after.children@[place.at as int],
        ),
        after.children@[place.at as int].key() == rest[0],
        shaped(after.children@[place.at as int].node, (depth - 1) as nat),
        content(after.children@[place.at as int].node)
            == content(middle.children@[place.at as int].node).insert(
            rest.drop_first(),
            leaf.hash@,
        ),
        forall|prefix: Seq<Seq<u8>>| #[trigger]
            labelled(middle.children@[place.at as int].node, prefix)
                && components(leaf.path@) == prefix
                + rest.drop_first() ==> labelled(after.children@[place.at as int].node, prefix),
    ensures
        shaped(after, depth),
        content(after) == content(before).insert(rest, leaf.hash@),
        forall|prefix: Seq<Seq<u8>>| #[trigger]
            labelled(before, prefix) && components(leaf.path@) == prefix + rest ==> labelled(
                after,
                prefix,
            ),
{
    let name = rest[0];
    let at = place.at as int;
    let old_child = middle.children@[at];
    let new_child = after.children@[at];
    // The table of the children changes at this name only.
    assert(ascending(after.children@) && table(after.children@) == table(before.children@).insert(
        name,
        new_child,
    )) by {
        if place.found {
            assert(after.children@ =~= before.children@.update(at, new_child));
        } else {
            assert(after.children@ =~= before.children@.insert(at, new_child));
        }
        crate::table::lemma_put(before.children@, place, new_child, after.children@);
    }
    let all = content(before);
    let goal = all.insert(rest, leaf.hash@);
    lemma_rank_unique(after.children@, at);
    assert forall|parts: Seq<Seq<u8>>|
        #![trigger content(after).dom().contains(parts)]
        content(after).dom().contains(parts) == goal.dom().contains(parts) && (content(
            after,
        ).dom().contains(parts) ==> content(after)[parts] == goal[parts]) by {
        lemma_lookup_split(before, middle, after, place, rest, leaf, parts);
    }
    assert(content(after) =~= goal);
    assert forall|i: int|
        #![trigger after.children@[i]]
        0 <= i < after.children@.len() implies {
        &&& depth > 0
        &&& shaped(after.children@[i].node, (depth - 1) as nat)
        &&& exists|parts: Seq<Seq<u8>>| content(after.children@[i].node).contains_key(parts)
    } by {
        if i == at {
            assert(content(new_child.node).contains_key(rest.drop_first()));
        } else {
            let b = if place.found || i < at {
                i
            } else {
                i - 1
            };
            assert(after.children@[i] == before.children@[b]);
        }
    }
    assert forall|prefix: Seq<Seq<u8>>| #[trigger]
        labelled(before, prefix) && components(leaf.path@) == prefix + rest implies labelled(
        after,
        prefix,
    ) by {
        let inner = prefix.push(name);
        assert(inner + rest.drop_first() =~= prefix + rest);
        assert(labelled(old_child.node, inner)) by {
            assert forall|parts: Seq<Seq<u8>>| #[trigger]
                holds_leaf(old_child.node, parts) implies components(
                lookup(old_child.node, parts)->0.record->0.path@,
            ) == inner + parts by {
                if place.found {
                    lemma_content_step(before, at);
                    let whole = seq![name] + parts;
                    assert(whole.drop_first() =~= parts);
                    assert(holds_leaf(before, whole));
                    assert(prefix + whole =~= inner + parts);
                } else if parts.len() > 0 {
                    assert(!has_key(old_child.node.children@, parts[0]));
                }
            }
        }
        assert(labelled(new_child.node, inner));
        assert forall|parts: Seq<Seq<u8>>| #[trigger]
            holds_leaf(after, parts) implies components(lookup(after, parts)->0.record->0.path@)
            == prefix + parts by {
            if parts.len() > 0 && parts[0] == name {
                assert(lookup(after, parts) == lookup(new_child.node, parts.drop_first()));
                assert(holds_leaf(new_child.node, parts.drop_first()));
                assert(inner + parts.drop_first() =~= prefix + parts);
            } else {
                if parts.len() > 0 {
                    lemma_other_child(before, after, name, new_child, parts);
                }
                assert(holds_leaf(before, parts));
            }
        }
    }
}

/// A lookup under another name is not touched.
proof fn lemma_other_child(
    before: MerkleNode,
    after: MerkleNode,
    name: Seq<u8>,
    child: MerkleChild,
    parts: Seq<Seq<u8>>,
)
    requires
        table(after.children@) == table(before.children@).insert(name, child),
        parts.len() > 0,
        parts[0] != name,
    ensures
        lookup(after, parts) == lookup(before, parts),
{
    assert(table(after.children@).contains_key(parts[0]) == has_key(after.children@, parts[0]));
    assert(table(before.children@).contains_key(parts[0]) == has_key(before.children@, parts[0]));
}

proof fn lemma_lookup_split(
    before: MerkleNode,
    middle: MerkleNode,
    after: MerkleNode,
    place: Place,
    rest: Seq<Seq<u8>>,
    leaf: NodeRecord,
    parts: Seq<Seq<u8>>,
)
    requires
        ascending(before.children@),
        ascending(after.children@),
        rest.len() > 0,
        place.at < middle.children@.len(),
        after.children@.len() == middle.children@.len(),
        after.record == before.record,
        after.children@[place.at as int].key() == rest[0],
        middle.children@[place.at as int].key() == rest[0],
        table(after.children@)
            == table(before.children@).insert(rest[0], after.children@[place.at as int]),
        has_key(after.children@, rest[0]),
        table(after.children@)[rest[0]] == after.children@[place.at as int],
        place.found ==> middle == before,
        !place.found ==> {
            &&& middle.children@[place.at as int].node.record is None
            &&& middle.children@[place.at as int].node.children@.len() == 0
            &&& !has_key(before.children@, rest[0])
        },
        content(after.children@[place.at as int].node)
            == content(middle.children@[place.at as int].node).insert(
            rest.drop_first(),
            leaf.hash@,
        ),
    ensures
        content(after).dom().contains(parts) == content(before).insert(
            rest,
            leaf.hash@,
        ).dom().contains(parts),
        content(after).dom().contains(parts) ==> content(after)[parts] == content(before).insert(
            rest,
            leaf.hash@,
        )[parts],
{
    let name = rest[0];
    let at = place.at as int;
    let goal = content(before).insert(rest, leaf.hash@);
    if parts.len() == 0 {
        assert(content(after).dom().contains(parts) == holds_leaf(after, parts));
        assert(content(before).dom().contains(parts) == holds_leaf(before, parts));
    } else if parts[0] == name {
        let tail = parts.drop_first();
        let inner = content(after.children@[at].node);
        let prior = content(middle.children@[at].node);
        assert(lookup(after, parts) == lookup(after.children@[at].node, tail));
        assert(content(after).dom().contains(parts) == inner.dom().contains(tail));
        assert((parts == rest) == (tail == rest.drop_first())) by {
            if tail == rest.drop_first() {
                assert(parts =~= seq![name] + tail);
                assert(rest =~= seq![name] + rest.drop_first());
            }
        }
        if place.found {
            lemma_content_step(before, at);
            assert(lookup(before, parts) == lookup(middle.children@[at].node, tail));
        } else {
            assert(lookup(before, parts) is None);
            assert(!prior.dom().contains(tail)) by {
                if tail.len() > 0 {
                    assert(!has_key(middle.children@[at].node.children@, tail[0]));
                }
            }
        }
        assert(content(before).dom().contains(parts) == prior.dom().contains(tail));
        if content(after).dom().contains(parts) {
            assert(content(after)[parts] == inner[tail]);
            if parts != rest {
                assert(content(before)[parts] == prior[tail]);
            }
        }
    } else {
        lemma_other_child(before, after, name, after.children@[at], parts);
        assert(parts != rest);
        assert(content(after).dom().contains(parts) == holds_leaf(after, parts));
        assert(content(before).dom().contains(parts) == holds_leaf(before, parts));
    }
}

/// The leaves whose first component is one of the names.
pub open spec fn headed(all: Leaves, names: Seq<Seq<u8>>) -> Set<Seq<Seq<u8>>> {
    all.dom().filter(|parts: Seq<Seq<u8>>| parts.len() > 0 && names.contains(parts[0]))
}

/// Leaves under one more name add up.
pub proof fn lemma_headed_step(all: Leaves, names: Seq<Seq<u8>>, i: int)
    requires
        all.dom().finite(),
        names_ascend(names),
        0 <= i < names.len(),
    ensures
        below(all, names[i]).dom().finite(),
        headed(all, names.take(i)).finite(),
        headed(all, names.take(i + 1)).len() == headed(all, names.take(i)).len() + below(
            all,
            names[i],
        ).dom().len(),
        headed(all, names.take(i + 1)).len() <= all.dom().len(),
{
    let name = names[i];
    let a = headed(all, names.take(i));
    let b = headed(all, seq![name]);
    let c = headed(all, names.take(i + 1));
    all.dom().lemma_len_filter(
        |parts: Seq<Seq<u8>>| parts.len() > 0 && names.take(i).contains(parts[0]),
    );
    all.dom().lemma_len_filter(
        |parts: Seq<Seq<u8>>| parts.len() > 0 && seq![name].contains(parts[0]),
    );
    all.dom().lemma_len_filter(
        |parts: Seq<Seq<u8>>| parts.len() > 0 && names.take(i + 1).contains(parts[0]),
    );
    assert(a.disjoint(b)) by {
        assert forall|parts: Seq<Seq<u8>>| a.contains(parts) implies !b.contains(parts) by {
            let r = choose|r: int| 0 <= r < i && names.take(i)[r] == parts[0];
            assert(byte_less(names[r], names[i]));
            lemma_byte_less_asym(name, name);
            if b.contains(parts) {
                assert(parts[0] == name);
            }
        }
    }
    assert(c =~= a + b) by {
        assert forall|parts: Seq<Seq<u8>>| c.contains(parts) == (a + b).contains(parts) by {
            if c.contains(parts) {
                let more = names.take(i + 1);
                let r = choose|r: int| 0 <= r < more.len() && more[r] == parts[0];
                if r < i {
                    assert(names.take(i)[r] == parts[0]);
                } else {
                    assert(seq![name][0] == parts[0]);
                }
            }
            if a.contains(parts) {
                let r = choose|r: int| 0 <= r < i && names.take(i)[r] == parts[0];
                assert(names.take(i + 1)[r] == parts[0]);
            }
            if b.contains(parts) {
                assert(parts[0] == name);
                assert(names.take(i + 1)[i] == parts[0]);
            }
        }
    }
    vstd::set_lib::lemma_set_disjoint_lens(a, b);
    lemma_below_size(all, name);
}

/// A namespace under one name is as large as the part that starts with the name.
pub proof fn lemma_below_size(all: Leaves, name: Seq<u8>)
    requires
        all.dom().finite(),
    ensures
        below(all, name).dom().finite(),
        below(all, name).dom().len() == headed(all, seq![name]).len(),
        below(all, name).dom().len() <= all.dom().len(),
{
    let b = headed(all, seq![name]);
    let f = |parts: Seq<Seq<u8>>| parts.drop_first();
    let y = below(all, name).dom();
    all.dom().lemma_len_filter(
        |parts: Seq<Seq<u8>>| parts.len() > 0 && seq![name].contains(parts[0]),
    );
    assert forall|parts: Seq<Seq<u8>>| #[trigger] b.contains(parts) implies parts == seq![name]
        + parts.drop_first() && parts.len() > 0 by {
        assert(parts[0] == name);
        assert(parts =~= seq![name] + parts.drop_first());
    }
    assert(vstd::relations::injective_on(f, b)) by {
        assert forall|p: Seq<Seq<u8>>, q: Seq<Seq<u8>>|
            b.contains(p) && b.contains(q) && #[trigger] f(p) == #[trigger] f(q) implies p == q by {
            assert(p == seq![name] + p.drop_first());
            assert(q == seq![name] + q.drop_first());
        }
    }
    assert(b.map(f) =~= y) by {
        assert forall|tail: Seq<Seq<u8>>| #[trigger] b.map(f).contains(tail)
            == y.contains(tail) by {
            if b.map(f).contains(tail) {
                let p = choose|p: Seq<Seq<u8>>| b.contains(p) && f(p) == tail;
                assert(p == seq![name] + tail);
            }
            if y.contains(tail) {
                let p = seq![name] + tail;
                assert(seq![name].contains(p[0])) by {
                    assert(seq![name][0] == name);
                }
                assert(b.contains(p));
                assert(p.drop_first() =~= tail);
                assert(f(p) == tail);
            }
        }
    }
    vstd::set_lib::lemma_map_size(b, y, f);
}

/// All leaves are the own one and those behind the listed names.
pub proof fn lemma_headed_total(all: Leaves, names: Seq<Seq<u8>>)
    requires
        all.dom().finite(),
        lists_children(all, names),
    ensures
        all.dom().len() == headed(all, names).len() + (if all.contains_key(Seq::empty()) {
            1nat
        } else {
            0
        }),
{
    let a = headed(all, names);
    let root = Seq::<Seq<u8>>::empty();
    all.dom().lemma_len_filter(
        |parts: Seq<Seq<u8>>| parts.len() > 0 && names.contains(parts[0]),
    );
    assert forall|parts: Seq<Seq<u8>>| all.dom().contains(parts)
        && parts != root implies #[trigger] a.contains(
        parts,
    ) by {
        if parts.len() == 0 {
            assert(parts =~= root);
        }
        assert(all.contains_key(parts) && parts.len() > 0);
        assert(is_child(all, parts[0]));
    }
    if all.contains_key(root) {
        assert(all.dom() =~= a.insert(root));
    } else {
        assert(all.dom() =~= a);
    }
}

/// Every node holds the digest and the number of the records under it.
spec fn sealed(node: MerkleNode, depth: nat) -> bool
    decreases depth,
{
    &&& content(node).dom().finite()
    &&& node.subtree_hash@ == subtree_digest(content(node), depth)
    &&& node.record_count == content(node).dom().len()
    &&& forall|i: int|
        #![trigger node.children@[i]]
        0 <= i < node.children@.len() ==> depth > 0 && sealed(
            node.children@[i].node,
            (depth - 1) as nat,
        )
}

/// Both nodes have the same records at the same places.
spec fn same_records(a: MerkleNode, b: MerkleNode) -> bool {
    forall|parts: Seq<Seq<u8>>|
        #![trigger lookup(a, parts)]
        #![trigger lookup(b, parts)]
        {
            &&& lookup(a, parts) is Some == lookup(b, parts) is Some
            &&& lookup(a, parts) is Some ==> lookup(a, parts)->0.record == lookup(
                b,
                parts,
            )->0.record
        }
}

proof fn lemma_same_records(a: MerkleNode, b: MerkleNode)
    requires
        same_records(a, b),
    ensures
        content(a) == content(b),
        forall|prefix: Seq<Seq<u8>>| #[trigger] labelled(a, prefix) ==> labelled(b, prefix),
{
    assert forall|parts: Seq<Seq<u8>>|
        #![trigger content(a).dom().contains(parts)]
        content(a).dom().contains(parts) == content(b).dom().contains(parts) && (content(
            a,
        ).dom().contains(parts) ==> content(a)[parts] == content(b)[parts]) by {
        assert(lookup(a, parts) is Some == lookup(b, parts) is Some);
    }
    assert(content(a) =~= content(b));
    assert forall|prefix: Seq<Seq<u8>>| #[trigger] labelled(a, prefix) implies labelled(
        b,
        prefix,
    ) by {
        assert forall|parts: Seq<Seq<u8>>| #[trigger] holds_leaf(b, parts) implies components(
            lookup(b, parts)->0.record->0.path@,
        ) == prefix + parts by {
            assert(lookup(a, parts) is Some == lookup(b, parts) is Some);
            assert(holds_leaf(a, parts));
        }
    }
}

/// Nodes whose children agree one by one agree.
proof fn lemma_same_children(a: MerkleNode, b: MerkleNode)
    requires
        ascending(a.children@),
        a.record == b.record,
        a.children@.len() == b.children@.len(),
        forall|i: int|
            #![trigger a.children@[i]]
            #![trigger b.children@[i]]
            0 <= i < a.children@.len() ==> a.children@[i].key() == b.children@[i].key()
                && same_records(a.children@[i].node, b.children@[i].node),
    ensures
        ascending(b.children@),
        same_records(a, b),
{
    assert forall|i: int, j: int| 0 <= i < j < b.children@.len() implies byte_less(
        #[trigger] b.children@[i].key(),
        #[trigger] b.children@[j].key(),
    ) by {
        assert(byte_less(a.children@[i].key(), a.children@[j].key()));
    }
    assert forall|parts: Seq<Seq<u8>>|
        #![trigger lookup(a, parts)]
        #![trigger lookup(b, parts)]
        {
            &&& lookup(a, parts) is Some == lookup(b, parts) is Some
            &&& lookup(a, parts) is Some ==> lookup(a, parts)->0.record == lookup(
                b,
                parts,
            )->0.record
        } by {
        if parts.len() > 0 {
            if has_key(a.children@, parts[0]) {
                let r = rank_of(a.children@, parts[0]);
                assert(b.children@[r].key() == parts[0]);
                lemma_rank_unique(a.children@, r);
                lemma_rank_unique(b.children@, r);
                assert(same_records(a.children@[r].node, b.children@[r].node));
                assert(lookup(a, parts) == lookup(a.children@[r].node, parts.drop_first()));
                assert(lookup(b, parts) == lookup(b.children@[r].node, parts.drop_first()));
            } else if has_key(b.children@, parts[0]) {
                let r = rank_of(b.children@, parts[0]);
                assert(a.children@[r].key() == parts[0]);
            }
        }
    }
}

impl MerkleNode {
    /// Computes the digest and the number of records of every node.
    fn finalize(&mut self, depth: u32)
        requires
            shaped(*old(self), depth as nat),
            content(*old(self)).dom().finite(),
            content(*old(self)).dom().len() <= usize::MAX,
        ensures
            sealed(*final(self), depth as nat),
            shaped(*final(self), depth as nat),
            same_records(*old(self), *final(self)),
        decreases depth,
    {
        let ghost before = *self;
        let ghost all = content(before);
        let ghost names = keys(before.children@);
        proof {
            lemma_children_listed(before, depth as nat);
            lemma_content_own(before);
        }
        let mut material: Vec<u8> = Vec::new();
        let mut record_count: usize = 0;
        match &self.record {
            Some(record) => {
                material.push(1);
                push_bytes(&mut material, record.hash.bytes.as_slice());
                record_count = 1;
            },
            None => {
                material.push(0);
            },
        }
        proof {
            assert(material@ =~= own_material(all));
            assert(names.take(0) =~= Seq::<Seq<u8>>::empty());
            assert(headed(all, names.take(0)) =~= Set::empty());
            assert(material@ =~= own_material(all) + children_material(
                all,
                names.take(0),
                depth as nat,
            ));
            lemma_headed_total(all, names);
        }
        let mut i: usize = 0;
        while i < self.children.len()
            invariant
                i <= self.children@.len(),
                self.children@.len() == before.children@.len(),
                self.record == before.record,
                shaped(before, depth as nat),
                all == content(before),
                names == keys(before.children@),
                names_ascend(names),
                all.dom().finite(),
                all.dom().len() <= usize::MAX,
                all.dom().len() == headed(all, names).len() + (if all.contains_key(Seq::empty()) {
                    1nat
                } else {
                    0
                }),
                forall|j: int|
                    #![trigger self.children@[j]]
                    0 <= j < i ==> {
                        &&& self.children@[j].key() == before.children@[j].key()
                        &&& same_records(before.children@[j].node, self.children@[j].node)
                        &&& depth > 0
                        &&& shaped(self.children@[j].node, (depth - 1) as nat)
                        &&& sealed(self.children@[j].node, (depth - 1) as nat)
                    },
                forall|j: int|
                    #![trigger self.children@[j]]
                    i <= j < self.children@.len() ==> self.children@[j] == before.children@[j],
                record_count == headed(all, names.take(i as int)).len() + (if all.contains_key(
                    Seq::empty(),
                ) {
                    1nat
                } else {
                    0
                }),
                material@ == own_material(all) + children_material(
                    all,
                    names.take(i as int),
                    depth as nat,
                ),
            decreases self.children@.len() - i,
        {
            proof {
                assert(before.children@[i as int] == self.children@[i as int]);
                lemma_content_step(before, i as int);
                lemma_headed_step(all, names, i as int);
                lemma_headed_monotone(all, names, i + 1);
                lemma_below_size(all, names[i as int]);
                assert(names[i as int] == before.children@[i as int].key());
            }
            self.children[i].node.finalize(depth - 1);
            let child = &self.children[i];
            proof {
                lemma_same_records(before.children@[i as int].node, child.node);
                assert(names.take(i + 1).drop_last() =~= names.take(i as int));
                assert(names.take(i + 1).last() == names[i as int]);
            }
            record_count = record_count + child.node.record_count;
            let name = child.name.as_str().as_bytes();
            push_le(&mut material, name.len() as u64);
            push_bytes(&mut material, name);
            push_bytes(&mut material, child.node.subtree_hash.bytes.as_slice());
            push_le(&mut material, child.node.record_count as u64);
            proof {
                assert(material@ =~= own_material(all) + children_material(
                    all,
                    names.take(i + 1),
                    depth as nat,
                ));
            }
            i = i + 1;
        }
        self.record_count = record_count;
        self.subtree_hash = Hash32::derive("deltaweave merkle path node v1", material.as_slice());
        proof {
            assert(names.take(i as int) =~= names);
            lemma_same_children(before, *self);
            lemma_same_records(before, *self);
            assert forall|j: int|
                #![trigger self.children@[j]]
                0 <= j < self.children@.len() implies {
                &&& depth > 0
                &&& shaped(self.children@[j].node, (depth - 1) as nat)
                &&& exists|parts: Seq<Seq<u8>>| content(self.children@[j].node).contains_key(parts)
            } by {
                lemma_same_records(before.children@[j].node, self.children@[j].node);
            }
        }
    }
}

proof fn lemma_headed_monotone(all: Leaves, names: Seq<Seq<u8>>, i: int)
    requires
        all.dom().finite(),
        0 <= i <= names.len(),
    ensures
        headed(all, names.take(i)).len() <= headed(all, names).len(),
{
    let a = headed(all, names.take(i));
    let b = headed(all, names);
    all.dom().lemma_len_filter(
        |parts: Seq<Seq<u8>>| parts.len() > 0 && names.contains(parts[0]),
    );
    assert(a.subset_of(b)) by {
        assert forall|parts: Seq<Seq<u8>>| a.contains(parts) implies b.contains(parts) by {
            let r = choose|r: int| 0 <= r < i && names.take(i)[r] == parts[0];
            assert(names[r] == parts[0]);
        }
    }
    vstd::set_lib::lemma_len_subset(a, b);
}

/// The path lies under the prefix and is reported there.
spec fn reported(
    path: Seq<u8>,
    prefix: Seq<Seq<u8>>,
    wanted: spec_fn(Seq<Seq<u8>>) -> bool,
) -> bool {
    let parts = components(path);
    &&& prefix.len() <= parts.len()
    &&& parts.take(prefix.len() as int) == prefix
    &&& wanted(parts.skip(prefix.len() as int))
}

/// A path is reported under a prefix if what is behind the prefix is wanted.
proof fn lemma_reported(
    path: Seq<u8>,
    prefix: Seq<Seq<u8>>,
    parts: Seq<Seq<u8>>,
    wanted: spec_fn(Seq<Seq<u8>>) -> bool,
)
    requires
        components(path) == prefix + parts,
    ensures
        reported(path, prefix, wanted) == wanted(parts),
{
    assert((prefix + parts).take(prefix.len() as int) =~= prefix);
    assert((prefix + parts).skip(prefix.len() as int) =~= parts);
}

/// Under a longer prefix the same path is reported if the rest behind it is.
proof fn lemma_reported_step(
    path: Seq<u8>,
    prefix: Seq<Seq<u8>>,
    name: Seq<u8>,
    wanted: spec_fn(Seq<Seq<u8>>) -> bool,
    inner: spec_fn(Seq<Seq<u8>>) -> bool,
)
    requires
        forall|rest: Seq<Seq<u8>>| #[trigger] inner(rest) == wanted(seq![name] + rest),
    ensures
        reported(path, prefix.push(name), inner) == (reported(path, prefix, wanted) && components(
            path,
        ).len() > prefix.len() && components(path)[prefix.len() as int] == name),
{
    let parts = components(path);
    let n = prefix.len() as int;
    let longer = prefix.push(name);
    if n < parts.len() {
        assert(parts.take(n + 1) =~= parts.take(n).push(parts[n]));
        let rest = parts.skip(n + 1);
        if parts.take(n) == prefix && parts[n] == name {
            assert(parts.skip(n) =~= seq![name] + rest);
            assert(inner(rest) == wanted(parts.skip(n)));
            assert(parts.take(n + 1) =~= longer);
        }
        if parts.take(n + 1) == longer {
            assert(longer[n] == name);
            assert(parts.take(n) =~= parts.take(n + 1).take(n));
            assert(longer.take(n) =~= prefix);
        }
    }
}

impl MerkleNode {
    /// Adds the paths of all records under this node.
    fn collect_paths(
        &self,
        paths: &mut Vec<WirePath>,
        Ghost(prefix): Ghost<Seq<Seq<u8>>>,
        depth: u32,
    )
        requires
            shaped(*self, depth as nat),
            labelled(*self, prefix),
            ascending(old(paths)@),
        ensures
            ascending(final(paths)@),
            forall|path: Seq<u8>| #[trigger]
                has_key(final(paths)@, path) <==> has_key(old(paths)@, path) || reported(
                    path,
                    prefix,
                    |parts: Seq<Seq<u8>>| content(*self).contains_key(parts),
                ),
        decreases depth,
    {
        let ghost all = content(*self);
        let ghost wanted = |parts: Seq<Seq<u8>>| all.contains_key(parts);
        let ghost before = paths@;
        match &self.record {
            Some(record) => {
                proof {
                    assert(holds_leaf(*self, Seq::empty()));
                    assert(prefix + Seq::<Seq<u8>>::empty() =~= prefix);
                }
                put(paths, record.path.clone());
            },
            None => {},
        }
        let ghost names = keys(self.children@);
        proof {
            lemma_children_listed(*self, depth as nat);
            lemma_content_own(*self);
            assert forall|path: Seq<u8>| #[trigger]
                has_key(paths@, path) <==> has_key(before, path) || (reported(path, prefix, wanted)
                    && components(path).len() == prefix.len()) by {
                if components(path).len() == prefix.len() {
                    if components(path).take(prefix.len() as int) == prefix {
                        assert(components(path) =~= prefix);
                        assert(prefix + Seq::<Seq<u8>>::empty() =~= prefix);
                        lemma_reported(path, prefix, Seq::empty(), wanted);
                        if self.record is Some {
                            crate::path::lemma_components_injective(path, self.record->0.path@);
                        }
                    }
                }
                if self.record is Some {
                    assert(components(self.record->0.path@) == prefix + Seq::<Seq<u8>>::empty());
                    assert(prefix + Seq::<Seq<u8>>::empty() =~= prefix);
                    lemma_reported(self.record->0.path@, prefix, Seq::empty(), wanted);
                    assert(table(paths@).contains_key(path) == has_key(paths@, path));
                    assert(table(before).contains_key(path) == has_key(before, path));
                }
            }
        }
        let mut i: usize = 0;
        while i < self.children.len()
            invariant
                i <= self.children@.len(),
                shaped(*self, depth as nat),
                labelled(*self, prefix),
                ascending(paths@),
                all == content(*self),
                wanted == (|parts: Seq<Seq<u8>>| all.contains_key(parts)),
                names == keys(self.children@),
                names_ascend(names),
                forall|path: Seq<u8>| #[trigger]
                    has_key(paths@, path) <==> has_key(before, path) || (reported(
                        path,
                        prefix,
                        wanted,
                    ) && (components(path).len() == prefix.len() || names.take(i as int).contains(
                        components(path)[prefix.len() as int],
                    ))),
            decreases self.children@.len() - i,
        {
            let ghost middle = paths@;
            let child = &self.children[i];
            let ghost name = child.key();
            let ghost inner = |parts: Seq<Seq<u8>>| content(child.node).contains_key(parts);
            proof {
                lemma_content_step(*self, i as int);
                lemma_child_labelled(*self, prefix, i as int);
                assert(names[i as int] == name);
            }
            child.node.collect_paths(paths, Ghost(prefix.push(name)), depth - 1);
            proof {
                assert forall|rest: Seq<Seq<u8>>| #[trigger] inner(rest) == wanted(
                    seq![name] + rest,
                ) by {
                    assert(below(all, name).contains_key(rest) == all.contains_key(
                        seq![name] + rest,
                    ));
                }
                assert forall|path: Seq<u8>| #[trigger]
                    has_key(paths@, path) <==> has_key(before, path) || (reported(
                        path,
                        prefix,
                        wanted,
                    ) && (components(path).len() == prefix.len() || names.take(i + 1).contains(
                        components(path)[prefix.len() as int],
                    ))) by {
                    lemma_reported_step(path, prefix, name, wanted, inner);
                    assert(has_key(middle, path) || !has_key(middle, path));
                    lemma_take_more(names, i as int, components(path)[prefix.len() as int]);
                }
            }
            i = i + 1;
        }
        proof {
            assert(names.take(i as int) =~= names);
            assert forall|path: Seq<u8>| #[trigger]
                has_key(paths@, path) <==> has_key(before, path) || reported(
                    path,
                    prefix,
                    |parts: Seq<Seq<u8>>| content(*self).contains_key(parts),
                ) by {
                let parts = components(path);
                if reported(path, prefix, wanted) && parts.len() > prefix.len() {
                    let rest = parts.skip(prefix.len() as int);
                    assert(all.contains_key(rest) && rest.len() > 0);
                    assert(rest[0] == parts[prefix.len() as int]);
                    assert(is_child(all, rest[0]));
                    assert(names.contains(rest[0]));
                }
                assert(reported(path, prefix, wanted) == reported(
                    path,
                    prefix,
                    |parts: Seq<Seq<u8>>| content(*self).contains_key(parts),
                ));
            }
        }
    }
}

proof fn lemma_take_more(names: Seq<Seq<u8>>, i: int, name: Seq<u8>)
    requires
        0 <= i < names.len(),
    ensures
        names.take(i + 1).contains(name) == (names.take(i).contains(name) || name == names[i]),
{
    let more = names.take(i + 1);
    let less = names.take(i);
    if more.contains(name) {
        let r = choose|r: int| 0 <= r < more.len() && more[r] == name;
        if r < i {
            assert(less[r] == name);
        }
    }
    if less.contains(name) {
        let r = choose|r: int| 0 <= r < less.len() && less[r] == name;
        assert(more[r] == name);
    }
    assert(more[i] == names[i]);
}

proof fn lemma_child_labelled(node: MerkleNode, prefix: Seq<Seq<u8>>, i: int)
    requires
        ascending(node.children@),
        labelled(node, prefix),
        0 <= i < node.children@.len(),
    ensures
        labelled(node.children@[i].node, prefix.push(node.children@[i].key())),
{
    let child = node.children@[i];
    let name = child.key();
    lemma_rank_unique(node.children@, i);
    assert forall|parts: Seq<Seq<u8>>| #[trigger] holds_leaf(child.node, parts) implies components(
        lookup(child.node, parts)->0.record->0.path@,
    ) == prefix.push(name) + parts by {
        let whole = seq![name] + parts;
        assert(whole.drop_first() =~= parts);
        assert(lookup(node, whole) == lookup(child.node, parts));
        assert(holds_leaf(node, whole));
        assert(prefix + whole =~= prefix.push(name) + parts);
    }
}

/// A component whose subtree has been gone through: it is the name of one of the first `i` left
/// or `j` right children.
spec fn visited(
    left: Seq<Seq<u8>>,
    right: Seq<Seq<u8>>,
    i: int,
    j: int,
    name: Seq<u8>,
) -> bool {
    left.take(i).contains(name) || right.take(j).contains(name)
}

/// Which paths the comparison of two nodes has reported so far.
spec fn diff_progress(
    left: MerkleNode,
    right: MerkleNode,
    depth: nat,
    prefix: Seq<Seq<u8>>,
    before: Seq<WirePath>,
    after: Seq<WirePath>,
    i: int,
    j: int,
) -> bool {
    forall|path: Seq<u8>| #[trigger]
        has_key(after, path) <==> has_key(before, path) || (reported(
            path,
            prefix,
            |parts: Seq<Seq<u8>>| differs(content(left), content(right), parts, depth),
        ) && (components(path).len() == prefix.len() || visited(
            keys(left.children@),
            keys(right.children@),
            i,
            j,
            components(path)[prefix.len() as int],
        )))
}

/// The first `i` left and `j` right children come before all others.
spec fn split_at_names(left: Seq<Seq<u8>>, right: Seq<Seq<u8>>, i: int, j: int) -> bool {
    &&& 0 <= i <= left.len()
    &&& 0 <= j <= right.len()
    &&& forall|a: int, b: int|
        0 <= a < i && j <= b < right.len() ==> byte_less(#[trigger] left[a], #[trigger] right[b])
    &&& forall|a: int, b: int|
        i <= a < left.len() && 0 <= b < j ==> byte_less(#[trigger] right[b], #[trigger] left[a])
}

proof fn lemma_not_listed(names: Seq<Seq<u8>>, j: int, name: Seq<u8>)
    requires
        names_ascend(names),
        0 <= j <= names.len(),
        forall|b: int| 0 <= b < j ==> byte_less(#[trigger] names[b], name),
        j < names.len() ==> byte_less(name, names[j]),
    ensures
        !names.contains(name),
{
    if names.contains(name) {
        let r = choose|r: int| 0 <= r < names.len() && names[r] == name;
        lemma_byte_less_asym(name, name);
        if r >= j {
            lemma_byte_less_asym(name, names[j]);
            if r > j {
                assert(byte_less(names[j], names[r]));
            }
        }
    }
}

/// A child that one side lacks: the reported paths under it are all its leaves.
proof fn lemma_one_sided(
    left: MerkleNode,
    right: MerkleNode,
    depth: nat,
    name: Seq<u8>,
    node: MerkleNode,
    rest: Seq<Seq<u8>>,
)
    requires
        shaped(left, depth),
        shaped(right, depth),
        !seems_same(content(left), content(right), depth),
        (content(node) == below(content(left), name) && !keys(right.children@).contains(name))
            || (content(node) == below(content(right), name) && !keys(left.children@).contains(
            name,
        )),
    ensures
        content(node).contains_key(rest) == differs(
            content(left),
            content(right),
            seq![name] + rest,
            depth,
        ),
{
    let whole = seq![name] + rest;
    assert(whole.drop_first() =~= rest);
    lemma_children_listed(left, depth);
    lemma_children_listed(right, depth);
    if !keys(right.children@).contains(name) {
        lemma_unlisted_empty(content(right), keys(right.children@), name);
    }
    if !keys(left.children@).contains(name) {
        lemma_unlisted_empty(content(left), keys(left.children@), name);
    }
}

proof fn lemma_unlisted_empty(all: Leaves, names: Seq<Seq<u8>>, name: Seq<u8>)
    requires
        lists_children(all, names),
        !names.contains(name),
    ensures
        forall|parts: Seq<Seq<u8>>| !(#[trigger] below(all, name).contains_key(parts)),
{
    assert forall|parts: Seq<Seq<u8>>| !(#[trigger] below(all, name).contains_key(parts)) by {
        let whole = seq![name] + parts;
        if all.contains_key(whole) {
            assert(whole.len() > 0 && whole[0] == name);
            assert(is_child(all, name));
        }
    }
}

/// A child that both sides have: the reported paths under it are those of its own comparison.
proof fn lemma_two_sided(
    left: MerkleNode,
    right: MerkleNode,
    depth: nat,
    i: int,
    j: int,
    rest: Seq<Seq<u8>>,
)
    requires
        depth > 0,
        shaped(left, depth),
        shaped(right, depth),
        !seems_same(content(left), content(right), depth),
        0 <= i < left.children@.len(),
        0 <= j < right.children@.len(),
        left.children@[i].key() == right.children@[j].key(),
    ensures
        differs(
            content(left.children@[i].node),
            content(right.children@[j].node),
            rest,
            (depth - 1) as nat,
        ) == differs(content(left), content(right), seq![left.children@[i].key()] + rest, depth),
{
    let whole = seq![left.children@[i].key()] + rest;
    assert(whole.drop_first() =~= rest);
    lemma_content_step(left, i);
    lemma_content_step(right, j);
    assert(populated(content(left.children@[i].node)));
    assert(populated(content(right.children@[j].node)));
}

/// One more child has been gone through.
proof fn lemma_diff_step(
    left: MerkleNode,
    right: MerkleNode,
    depth: nat,
    prefix: Seq<Seq<u8>>,
    before: Seq<WirePath>,
    middle: Seq<WirePath>,
    after: Seq<WirePath>,
    i: int,
    j: int,
    ni: int,
    nj: int,
    name: Seq<u8>,
    inner: spec_fn(Seq<Seq<u8>>) -> bool,
)
    requires
        diff_progress(left, right, depth, prefix, before, middle, i, j),
        forall|path: Seq<u8>| #[trigger]
            has_key(after, path) <==> has_key(middle, path) || reported(
                path,
                prefix.push(name),
                inner,
            ),
        forall|rest: Seq<Seq<u8>>| #[trigger]
            inner(rest) == differs(content(left), content(right), seq![name] + rest, depth),
        0 <= i <= left.children@.len(),
        0 <= j <= right.children@.len(),
        ni == i || (ni == i + 1 && i < left.children@.len() && left.children@[i].key() == name),
        nj == j || (nj == j + 1 && j < right.children@.len() && right.children@[j].key() == name),
        ni > i || nj > j,
    ensures
        diff_progress(left, right, depth, prefix, before, after, ni, nj),
{
    let wanted = |parts: Seq<Seq<u8>>| differs(content(left), content(right), parts, depth);
    let a = keys(left.children@);
    let b = keys(right.children@);
    assert forall|path: Seq<u8>| #[trigger]
        has_key(after, path) <==> has_key(before, path) || (reported(path, prefix, wanted) && (
        components(path).len() == prefix.len() || visited(
            a,
            b,
            ni,
            nj,
            components(path)[prefix.len() as int],
        ))) by {
        let here = components(path)[prefix.len() as int];
        lemma_reported_step(path, prefix, name, wanted, inner);
        assert(has_key(middle, path) || !has_key(middle, path));
        if ni > i {
            lemma_take_more(a, i, here);
        }
        if nj > j {
            lemma_take_more(b, j, here);
        }
    }
}

/// Adds the paths on which two nodes differ, going only into subtrees that do not seem the same.
fn diff_nodes(
    left: &MerkleNode,
    right: &MerkleNode,
    paths: &mut Vec<WirePath>,
    Ghost(prefix): Ghost<Seq<Seq<u8>>>,
    depth: u32,
)
    requires
        shaped(*left, depth as nat),
        shaped(*right, depth as nat),
        sealed(*left, depth as nat),
        sealed(*right, depth as nat),
        labelled(*left, prefix),
        labelled(*right, prefix),
        ascending(old(paths)@),
    ensures
        ascending(final(paths)@),
        forall|path: Seq<u8>| #[trigger]
            has_key(final(paths)@, path) <==> has_key(old(paths)@, path) || reported(
                path,
                prefix,
                |parts: Seq<Seq<u8>>|
                    differs(content(*left), content(*right), parts, depth as nat),
            ),
    decreases depth,
{
    let ghost before = paths@;
    let ghost l = content(*left);
    let ghost r = content(*right);
    let ghost d = depth as nat;
    let ghost wanted = |parts: Seq<Seq<u8>>| differs(l, r, parts, d);
    if left.subtree_hash == right.subtree_hash && left.record_count == right.record_count {
        proof {
            assert(seems_same(l, r, d));
            assert forall|path: Seq<u8>| !(#[trigger] reported(path, prefix, wanted)) by {}
        }
        return ;
    }
    proof {
        if seems_same(l, r, d) {
            crate::hash::lemma_hash_view_injective(left.subtree_hash, right.subtree_hash);
        }
        assert(!seems_same(l, r, d));
    }
    let ghost root = Seq::<Seq<u8>>::empty();
    let own: Option<&NodeRecord> = match (&left.record, &right.record) {
        (Some(a), Some(b)) => if a.hash == b.hash {
            None
        } else {
            Some(a)
        },
        (Some(a), None) => Some(a),
        (None, Some(b)) => Some(b),
        (None, None) => None,
    };
    proof {
        lemma_content_own(*left);
        lemma_content_own(*right);
        if left.record is Some && right.record is Some && left.record->0.hash@
            == right.record->0.hash@ {
            crate::hash::lemma_hash_view_injective(left.record->0.hash, right.record->0.hash);
        }
        assert((own is Some) == differs(l, r, root, d));
        assert(prefix + root =~= prefix);
        if own is Some {
            if left.record is Some {
                assert(holds_leaf(*left, root));
            } else {
                assert(holds_leaf(*right, root));
            }
            assert(components(own->0.path@) == prefix);
        }
    }
    match own {
        Some(record) => {
            put(paths, record.path.clone());
        },
        None => {},
    }
    let ghost a = keys(left.children@);
    let ghost b = keys(right.children@);
    proof {
        lemma_children_listed(*left, d);
        lemma_children_listed(*right, d);
        assert forall|path: Seq<u8>| #[trigger]
            has_key(paths@, path) <==> has_key(before, path) || (reported(path, prefix, wanted) && (
            components(path).len() == prefix.len() || visited(
                a,
                b,
                0,
                0,
                components(path)[prefix.len() as int],
            ))) by {
            if components(path) == prefix {
                lemma_reported(path, prefix, root, wanted);
                if own is Some {
                    crate::path::lemma_components_injective(path, own->0.path@);
                }
            }
            if reported(path, prefix, wanted) && components(path).len() == prefix.len() {
                assert(components(path) =~= prefix);
            }
            if own is Some {
                assert(table(paths@).contains_key(path) == has_key(paths@, path));
                assert(table(before).contains_key(path) == has_key(before, path));
                lemma_reported(own->0.path@, prefix, root, wanted);
            }
        }
        assert(diff_progress(*left, *right, d, prefix, before, paths@, 0, 0));
    }
    let mut i: usize = 0;
    let mut j: usize = 0;
    while i < left.children.len() || j < right.children.len()
        invariant
            i <= left.children@.len(),
            j <= right.children@.len(),
            shaped(*left, d),
            shaped(*right, d),
            sealed(*left, d),
            sealed(*right, d),
            labelled(*left, prefix),
            labelled(*right, prefix),
            ascending(paths@),
            d == depth as nat,
            l == content(*left),
            r == content(*right),
            a == keys(left.children@),
            b == keys(right.children@),
            names_ascend(a),
            names_ascend(b),
            !seems_same(l, r, d),
            split_at_names(a, b, i as int, j as int),
            diff_progress(*left, *right, d, prefix, before, paths@, i as int, j as int),
        decreases left.children@.len() - i + right.children@.len() - j,
    {
        let ghost middle = paths@;
        let side: ByteOrder = if i >= left.children.len() {
            ByteOrder::Greater
        } else if j >= right.children.len() {
            ByteOrder::Less
        } else {
            compare_bytes(left.children[i].key_bytes(), right.children[j].key_bytes())
        };
        match side {
            ByteOrder::Less => {
                let child = &left.children[i];
                let ghost name = child.key();
                let ghost inner = |parts: Seq<Seq<u8>>| content(child.node).contains_key(parts);
                proof {
                    assert(a[i as int] == name);
                    lemma_not_listed(b, j as int, name);
                    lemma_content_step(*left, i as int);
                    lemma_child_labelled(*left, prefix, i as int);
                }
                child.node.collect_paths(paths, Ghost(prefix.push(name)), depth - 1);
                proof {
                    assert forall|rest: Seq<Seq<u8>>| #[trigger]
                        inner(rest) == differs(l, r, seq![name] + rest, d) by {
                        lemma_one_sided(*left, *right, d, name, child.node, rest);
                    }
                    lemma_diff_step(
                        *left,
                        *right,
                        d,
                        prefix,
                        before,
                        middle,
                        paths@,
                        i as int,
                        j as int,
                        i + 1,
                        j as int,
                        name,
                        inner,
                    );
                    lemma_split_left(a, b, i as int, j as int);
                }
                i = i + 1;
            },
            ByteOrder::Greater => {
                let child = &right.children[j];
                let ghost name = child.key();
                let ghost inner = |parts: Seq<Seq<u8>>| content(child.node).contains_key(parts);
                proof {
                    assert(b[j as int] == name);
                    lemma_not_listed(a, i as int, name);
                    lemma_content_step(*right, j as int);
                    lemma_child_labelled(*right, prefix, j as int);
                }
                child.node.collect_paths(paths, Ghost(prefix.push(name)), depth - 1);
                proof {
                    assert forall|rest: Seq<Seq<u8>>| #[trigger]
                        inner(rest) == differs(l, r, seq![name] + rest, d) by {
                        lemma_one_sided(*left, *right, d, name, child.node, rest);
                    }
                    lemma_diff_step(
                        *left,
                        *right,
                        d,
                        prefix,
                        before,
                        middle,
                        paths@,
                        i as int,
                        j as int,
                        i as int,
                        j + 1,
                        name,
                        inner,
                    );
                    lemma_split_left(b, a, j as int, i as int);
                }
                j = j + 1;
            },
            ByteOrder::Same => {
                let left_child = &left.children[i];
                let right_child = &right.children[j];
                let ghost name = left_child.key();
                let ghost inner = |parts: Seq<Seq<u8>>|
                    differs(
                        content(left_child.node),
                        content(right_child.node),
                        parts,
                        (d - 1) as nat,
                    );
                proof {
                    assert(a[i as int] == name && b[j as int] == name);
                    lemma_content_step(*left, i as int);
                    lemma_child_labelled(*left, prefix, i as int);
                    lemma_child_labelled(*right, prefix, j as int);
                }
                diff_nodes(
                    &left_child.node,
                    &right_child.node,
                    paths,
                    Ghost(prefix.push(name)),
                    depth - 1,
                );
                proof {
                    assert forall|rest: Seq<Seq<u8>>| #[trigger]
                        inner(rest) == differs(l, r, seq![name] + rest, d) by {
                        lemma_two_sided(*left, *right, d, i as int, j as int, rest);
                    }
                    lemma_diff_step(
                        *left,
                        *right,
                        d,
                        prefix,
                        before,
                        middle,
                        paths@,
                        i as int,
                        j as int,
                        i + 1,
                        j + 1,
                        name,
                        inner,
                    );
                    assert(split_at_names(a, b, i + 1, j + 1));
                }
                i = i + 1;
                j = j + 1;
            },
        }
    }
    proof {
        assert(a.take(i as int) =~= a);
        assert(b.take(j as int) =~= b);
        assert forall|path: Seq<u8>| #[trigger]
            has_key(paths@, path) <==> has_key(before, path) || reported(
                path,
                prefix,
                |parts: Seq<Seq<u8>>| differs(content(*left), content(*right), parts, d),
            ) by {
            let parts = components(path);
            let all = |parts: Seq<Seq<u8>>| differs(content(*left), content(*right), parts, d);
            assert(all == wanted);
            if reported(path, prefix, all) && parts.len() > prefix.len() {
                let rest = parts.skip(prefix.len() as int);
                assert(rest[0] == parts[prefix.len() as int]);
                lemma_differs_listed(l, r, rest, d);
                assert(a.contains(rest[0]) <==> is_child(l, rest[0]));
                assert(b.contains(rest[0]) <==> is_child(r, rest[0]));
            }
        }
    }
}

proof fn lemma_split_left(a: Seq<Seq<u8>>, b: Seq<Seq<u8>>, i: int, j: int)
    requires
        names_ascend(b),
        split_at_names(a, b, i, j),
        i < a.len(),
        j < b.len() ==> byte_less(a[i], b[j]),
    ensures
        split_at_names(a, b, i + 1, j),
        split_at_names(b, a, j, i + 1),
{
    assert forall|x: int, y: int| 0 <= x < i + 1 && j <= y < b.len() implies byte_less(
        #[trigger] a[x],
        #[trigger] b[y],
    ) by {
        if x == i && y > j {
            assert(byte_less(b[j], b[y]));
            crate::order::lemma_byte_less_trans(a[i], b[j], b[y]);
        }
    }
}

/// A leaf on which the sides differ lies behind a child of one of them.
proof fn lemma_differs_listed(left: Leaves, right: Leaves, parts: Seq<Seq<u8>>, depth: nat)
    requires
        differs(left, right, parts, depth),
        parts.len() > 0,
    ensures
        is_child(left, parts[0]) || is_child(right, parts[0]),
{
    let a = below(left, parts[0]);
    let b = below(right, parts[0]);
    let rest = parts.drop_first();
    let name = parts[0];
    if populated(a) {
        let some = choose|some: Seq<Seq<u8>>| a.contains_key(some);
        let whole = seq![name] + some;
        assert(left.contains_key(whole) && whole.len() > 0 && whole[0] == name);
    } else if populated(b) {
        let some = choose|some: Seq<Seq<u8>>| b.contains_key(some);
        let whole = seq![name] + some;
        assert(right.contains_key(whole) && whole.len() > 0 && whole[0] == name);
    } else {
        assert(!a.contains_key(rest));
        assert(!b.contains_key(rest));
    }
}

/// What records say.
pub open spec fn views(records: Seq<SyncRecord>) -> Seq<RecordView> {
    Seq::new(records.len(), |i: int| records[i]@)
}

/// The namespace that records in path order make up.
pub open spec fn namespace(records: Seq<SyncRecord>) -> Namespace {
    Map::new(
        |path: Seq<u8>| has_key(records, path),
        |path: Seq<u8>| table(records)[path]@,
    )
}

/// The record is for this path.
pub open spec fn is_at(records: Seq<RecordView>, i: int, path: Seq<u8>) -> bool {
    0 <= i < records.len() && records[i].path == path
}

/// The namespace that records in any order make up.
pub open spec fn gathered(records: Seq<RecordView>) -> Namespace {
    Map::new(
        |path: Seq<u8>| exists|i: int| is_at(records, i, path),
        |path: Seq<u8>| records[choose|i: int| is_at(records, i, path)],
    )
}

/// What is wrong with one of the records, given those before it.
pub open spec fn load_fault_at(records: Seq<RecordView>, i: int) -> Option<ReconcileError> {
    match record_fault(records[i]) {
        Some(error) => Some(ReconcileError::InvalidRecord(error)),
        None => if exists|j: int| 0 <= j < i && is_at(records, j, records[i].path) {
            Some(ReconcileError::DuplicatePath)
        } else {
            None
        },
    }
}

/// What is wrong with the first faulty record at or behind position `i`.
pub open spec fn load_fault_from(records: Seq<RecordView>, i: int) -> Option<ReconcileError>
    decreases records.len() - i,
{
    if i < 0 || i >= records.len() {
        None
    } else if load_fault_at(records, i) is Some {
        load_fault_at(records, i)
    } else {
        load_fault_from(records, i + 1)
    }
}

/// What is wrong with a snapshot: the fault of its first faulty record.
pub open spec fn load_fault(records: Seq<RecordView>) -> Option<ReconcileError> {
    load_fault_from(records, 0)
}

/// The path is the prefix or lies in the directory that it names.
pub open spec fn lies_under(path: Seq<u8>, prefix: Seq<u8>) -> bool {
    ||| path == prefix
    ||| prefix.len() < path.len() && path.take(prefix.len() as int) == prefix
        && path[prefix.len() as int] == 0x2f
}

/// The part of a namespace at and beneath a prefix; all of it for an empty one.
pub open spec fn records_below(space: Namespace, prefix: Seq<char>) -> Namespace {
    space.restrict(
        Set::new(|path: Seq<u8>| prefix.len() == 0 || lies_under(path, utf8(prefix))),
    )
}

/// Every record is in order.
spec fn all_valid(records: Seq<SyncRecord>) -> bool {
    forall|i: int|
        #![trigger records[i]]
        0 <= i < records.len() ==> record_fault(records[i]@) is None && path_fault(
            records[i].path@,
        ) is None
}

/// Immutable deterministic Merkle tree over portable path records.
#[derive(Debug)]
pub struct MerkleTree {
    root: MerkleNode,
    records: Vec<SyncRecord>,
}

impl View for MerkleTree {
    type V = Namespace;

    closed spec fn view(&self) -> Namespace {
        namespace(self.records@)
    }
}

/// Digest and number of records of one immediate child subtree.
#[derive(Clone, Debug, PartialEq, Eq)]
pub struct MerkleChildSummary {
    /// The component name beneath the queried prefix.
    pub name: String,
    /// Digest of the complete child subtree.
    pub hash: Hash32,
    /// Number of records in the child subtree.
    pub record_count: usize,
}

/// Description of one node that can be sent to a peer.
#[derive(Clone, Debug, PartialEq, Eq)]
pub struct MerkleNodeSummary {
    /// Empty for the root, otherwise a portable path prefix.
    pub prefix: String,
    /// Digest of this complete subtree.
    pub hash: Hash32,
    /// Number of records in this subtree.
    pub record_count: usize,
    /// The record at this exact path, if there is one.
    pub record: Option<SyncRecord>,
    /// The immediate children in component order.
    pub children: Vec<MerkleChildSummary>,
}

/// What a child summary says of a child of the leaves.
pub open spec fn summarizes_child(
    summary: MerkleChildSummary,
    all: Leaves,
    name: Seq<u8>,
    depth: nat,
) -> bool {
    &&& utf8(summary.name@) == name
    &&& summary.hash@ == subtree_digest(below(all, name), (depth - 1) as nat)
    &&& summary.record_count == below(all, name).dom().len()
}

/// What a node summary says of the leaves under its prefix.
pub open spec fn summarizes(
    summary: MerkleNodeSummary,
    namespace: Namespace,
    prefix: Seq<char>,
) -> bool {
    let path = utf8(prefix);
    let parts = query_parts(path);
    let all = under(leaves(namespace), parts);
    let depth = (MAX_DEPTH - parts.len()) as nat;
    &&& summary.prefix@ == prefix
    &&& summary.hash@ == subtree_digest(all, depth)
    &&& summary.record_count == all.dom().len()
    &&& match summary.record {
        Some(record) => path.len() > 0 && namespace.contains_key(path) && record@
            == namespace[path],
        None => path.len() == 0 || !namespace.contains_key(path),
    }
    &&& summary.children@.len() == child_names(all).len()
    &&& forall|i: int|
        0 <= i < summary.children@.len() ==> summarizes_child(
            #[trigger] summary.children@[i],
            all,
            child_names(all)[i],
            depth,
        )
}

/// The components that a query prefix leads through; none for the root.
pub open spec fn query_parts(path: Seq<u8>) -> Seq<Seq<u8>> {
    if path.len() == 0 {
        Seq::empty()
    } else {
        components(path)
    }
}

/// A path has no more components than bytes, and one more where it starts with a slash.
pub proof fn lemma_components_bound(path: Seq<u8>)
    ensures
        components(path).len() <= path.len() + 1,
        path.len() > 0 && path[0] != 0x2f ==> components(path).len() <= path.len(),
    decreases path.len(),
{
    crate::path::lemma_position_of(path, 0x2f);
    let at = crate::path::position_of(path, 0x2f);
    if at < path.len() {
        lemma_components_bound(path.skip(at + 1));
    }
}

/// One more record in the namespace is one more leaf.
proof fn lemma_leaf_added(space: Namespace, path: Seq<u8>, record: RecordView)
    ensures
        leaves(space.insert(path, record)) == leaves(space).insert(
            components(path),
            logical_digest(record),
        ),
{
    lemma_components_slashed(path);
    let a = leaves(space.insert(path, record));
    let b = leaves(space).insert(components(path), logical_digest(record));
    assert forall|parts: Seq<Seq<u8>>|
        #![trigger a.dom().contains(parts)]
        a.dom().contains(parts) == b.dom().contains(parts) && (a.dom().contains(parts) ==> a[parts]
            == b[parts]) by {
        if slashed(parts) == path && components(slashed(parts)) == parts {
            assert(parts == components(path));
        }
    }
    assert(a =~= b);
}

proof fn lemma_namespace_take(records: Seq<SyncRecord>, i: int)
    requires
        ascending(records),
        0 <= i < records.len(),
    ensures
        namespace(records.take(i + 1)) == namespace(records.take(i)).insert(
            records[i].path@,
            records[i]@,
        ),
{
    crate::table::lemma_table_take(records, i);
    let a = namespace(records.take(i + 1));
    let b = namespace(records.take(i)).insert(records[i].path@, records[i]@);
    lemma_namespace_put(records.take(i), records.take(i + 1), records[i]);
}

/// Putting a record into the table puts it into the namespace.
pub proof fn lemma_namespace_put(before: Seq<SyncRecord>, after: Seq<SyncRecord>, record: SyncRecord)
    requires
        table(after) == table(before).insert(record.path@, record),
    ensures
        namespace(after) == namespace(before).insert(record.path@, record@),
{
    let a = namespace(after);
    let b = namespace(before).insert(record.path@, record@);
    assert forall|path: Seq<u8>|
        #![trigger a.dom().contains(path)]
        a.dom().contains(path) == b.dom().contains(path) && (a.dom().contains(path) ==> a[path]
            == b[path]) by {
        assert(table(after).contains_key(path) == has_key(after, path));
        assert(table(before).contains_key(path) == has_key(before, path));
    }
    assert(a =~= b);
}

/// The namespace of records in path order has as many paths as there are records.
pub proof fn lemma_namespace_size(records: Seq<SyncRecord>)
    requires
        ascending(records),
    ensures
        namespace(records).dom().finite(),
        namespace(records).dom().len() == records.len(),
{
    lemma_table_size(records);
    assert(namespace(records).dom() =~= table(records).dom());
}

/// One more record that is not a duplicate is one more path.
proof fn lemma_gathered_take(records: Seq<RecordView>, i: int)
    requires
        0 <= i < records.len(),
        !(exists|j: int| 0 <= j < i && is_at(records, j, records[i].path)),
        forall|j: int| 0 <= j < i ==> load_fault_at(records, j) is None,
    ensures
        !gathered(records.take(i)).contains_key(records[i].path),
        gathered(records.take(i + 1)) == gathered(records.take(i)).insert(
            records[i].path,
            records[i],
        ),
{
    let less = records.take(i);
    let more = records.take(i + 1);
    let key = records[i].path;
    assert forall|j: int, path: Seq<u8>| #[trigger] is_at(less, j, path) implies is_at(
        records,
        j,
        path,
    ) && is_at(more, j, path) by {}
    let a = gathered(more);
    let b = gathered(less).insert(key, records[i]);
    assert(is_at(more, i, key));
    assert forall|path: Seq<u8>|
        #![trigger a.dom().contains(path)]
        a.dom().contains(path) == b.dom().contains(path) && (a.dom().contains(path) ==> a[path]
            == b[path]) by {
        if a.dom().contains(path) {
            let x = choose|x: int| is_at(more, x, path);
            if path == key {
                if x < i {
                    assert(is_at(records, x, key));
                }
            } else {
                assert(is_at(less, x, path));
                let y = choose|y: int| is_at(less, y, path);
                if x != y {
                    let hi = if x < y { y } else { x };
                    let lo = if x < y { x } else { y };
                    assert(load_fault_at(records, hi) is None);
                    assert(is_at(records, lo, records[hi].path));
                }
            }
        }
        if b.dom().contains(path) && path != key {
            let y = choose|y: int| is_at(less, y, path);
            assert(is_at(more, y, path));
        }
    }
    assert(a =~= b);
}

impl MerkleTree {
    #[verifier::type_invariant]
    spec fn inv(&self) -> bool {
        &&& ascending(self.records@)
        &&& all_valid(self.records@)
        &&& shaped(self.root, MAX_DEPTH as nat)
        &&& sealed(self.root, MAX_DEPTH as nat)
        &&& labelled(self.root, Seq::empty())
        &&& content(self.root) == leaves(namespace(self.records@))
    }

    /// Builds the tree of records in any order.
    pub fn from_records(records: Vec<SyncRecord>) -> (tree: Result<Self, ReconcileError>)
        ensures
            match tree {
                Ok(tree) => load_fault(views(records@)) is None && tree@ == gathered(
                    views(records@),
                ),
                Err(error) => load_fault(views(records@)) == Some(error),
            },
    {
        let ghost input = records@;
        let ghost all = views(records@);
        let mut sorted: Vec<SyncRecord> = Vec::new();
        proof {
            lemma_table_empty::<SyncRecord>();
            assert(namespace(sorted@) =~= gathered(all.take(0)));
        }
        for record in iter: records
            invariant
                iter.seq() == input,
                all == views(input),
                ascending(sorted@),
                all_valid(sorted@),
                namespace(sorted@) == gathered(all.take(iter.index() as int)),
                forall|j: int| 0 <= j < iter.index() ==> load_fault_at(all, j) is None,
                load_fault(all) == load_fault_from(all, iter.index() as int),
        {
            let ghost i = iter.index() as int;
            assert(all[i] == record@);
            match record.validate() {
                Err(error) => {
                    return Err(ReconcileError::InvalidRecord(error));
                },
                Ok(()) => {},
            }
            let path = record.path.as_str();
            let ghost before = sorted@;
            let ghost given = record;
            let replaced = put(&mut sorted, record);
            proof {
                let less = all.take(i);
                assert(table(before).contains_key(given.path@) == has_key(before, given.path@));
                assert(namespace(before).contains_key(given.path@) == has_key(
                    before,
                    given.path@,
                ));
                assert((replaced is Some) == gathered(less).contains_key(given.path@));
                if replaced is Some {
                    let j = choose|j: int| is_at(less, j, given.path@);
                    assert(is_at(all, j, all[i].path));
                    assert(load_fault_at(all, i) == Some(ReconcileError::DuplicatePath));
                } else {
                    assert forall|j: int| 0 <= j < i implies !is_at(all, j, all[i].path) by {
                        if is_at(all, j, all[i].path) {
                            assert(is_at(less, j, all[i].path));
                        }
                    }
                    assert(load_fault_at(all, i) is None);
                    lemma_gathered_take(all, i);
                    lemma_namespace_put(before, sorted@, given);
                    assert forall|k: int|
                        #![trigger sorted@[k]]
                        0 <= k < sorted@.len() implies record_fault(sorted@[k]@) is None
                        && path_fault(sorted@[k].path@) is None by {
                        lemma_rank_unique(sorted@, k);
                        let key = sorted@[k].path@;
                        if key != given.path@ {
                            assert(table(before).contains_key(key));
                            assert(before[rank_of(before, key)] == sorted@[k]);
                        }
                    }
                }
            }
            if replaced.is_some() {
                return Err(ReconcileError::DuplicatePath);
            }
        }
        proof {
            assert(all.take(all.len() as int) =~= all);
        }
        Ok(MerkleTree::from_sorted(sorted))
    }

    /// Builds the tree of valid records in path order.
    fn from_sorted(records: Vec<SyncRecord>) -> (tree: Self)
        requires
            ascending(records@),
            all_valid(records@),
        ensures
            tree@ == namespace(records@),
    {
        let mut root = MerkleNode::empty();
        let ghost depth = MAX_DEPTH as nat;
        proof {
            assert(ascending(root.children@));
            assert(namespace(records@.take(0)) =~= Namespace::empty());
            assert(leaves(Namespace::empty()) =~= Leaves::empty());
            assert(labelled(root, Seq::empty())) by {
                assert forall|parts: Seq<Seq<u8>>| !(#[trigger] holds_leaf(root, parts)) by {
                    assert(content(root).dom().contains(parts) == holds_leaf(root, parts));
                }
            }
        }
        let mut i: usize = 0;
        while i < records.len()
            invariant
                i <= records@.len(),
                depth == MAX_DEPTH as nat,
                ascending(records@),
                all_valid(records@),
                shaped(root, depth),
                labelled(root, Seq::empty()),
                content(root) == leaves(namespace(records@.take(i as int))),
                content(root).dom().finite(),
                content(root).dom().len() <= i,
            decreases records@.len() - i,
        {
            let record = &records[i];
            let parts = record.path.components();
            let leaf = NodeRecord { hash: record.logical_hash(), path: record.path.clone() };
            proof {
                lemma_components_bound(record.path@);
                lemma_namespace_take(records@, i as int);
                lemma_leaf_added(
                    namespace(records@.take(i as int)),
                    record.path@,
                    record@,
                );
                assert(text_bytes(parts@).skip(0) =~= text_bytes(parts@));
                assert(Seq::<Seq<u8>>::empty() + text_bytes(parts@) =~= text_bytes(parts@));
            }
            root.insert(&parts, 0, leaf, Ghost(depth));
            i = i + 1;
        }
        proof {
            assert(records@.take(i as int) =~= records@);
        }
        let ghost before = root;
        root.finalize(MAX_DEPTH);
        proof {
            lemma_same_records(before, root);
        }
        MerkleTree { root, records }
    }

    /// The root digest: the constant-size test whether two trees are the same.
    pub fn root_hash(&self) -> (hash: Hash32)
        ensures
            hash@ == root_digest(self@),
    {
        proof {
            use_type_invariant(self);
        }
        self.root.subtree_hash
    }

    /// The number of paths in the tree.
    pub fn len(&self) -> (n: usize)
        ensures
            n == self@.dom().len(),
            self@.dom().finite(),
    {
        proof {
            use_type_invariant(self);
            lemma_namespace_size(self.records@);
        }
        self.records.len()
    }

    /// Whether the tree has no path.
    pub fn is_empty(&self) -> (empty: bool)
        ensures
            empty == (self@ == Namespace::empty()),
    {
        proof {
            use_type_invariant(self);
            lemma_namespace_size(self.records@);
        }
        let empty = self.records.len() == 0;
        proof {
            if empty {
                assert(self@ =~= Namespace::empty());
            }
        }
        empty
    }

    /// The record of a path.
    pub fn get(&self, path: &WirePath) -> (record: Option<&SyncRecord>)
        ensures
            match record {
                Some(record) => self@.contains_key(path@) && record@ == self@[path@]
                    && record.path@ == path@,
                None => !self@.contains_key(path@),
            },
    {
        proof {
            use_type_invariant(self);
        }
        find(&self.records, path.key_bytes())
    }

    /// The records in path order.
    pub fn records(&self) -> (records: &Vec<SyncRecord>)
        ensures
            ascending(records@),
            namespace(records@) == self@,
            forall|i: int|
                #![trigger records@[i]]
                0 <= i < records@.len() ==> record_fault(records@[i]@) is None,
    {
        proof {
            use_type_invariant(self);
        }
        &self.records
    }
}

/// Components behind components.
pub proof fn lemma_under_under(all: Leaves, a: Seq<Seq<u8>>, b: Seq<Seq<u8>>)
    ensures
        under(under(all, a), b) == under(all, a + b),
{
    let x = under(under(all, a), b);
    let y = under(all, a + b);
    assert forall|parts: Seq<Seq<u8>>|
        #![trigger x.dom().contains(parts)]
        x.dom().contains(parts) == y.dom().contains(parts) && (x.dom().contains(parts) ==> x[parts]
            == y[parts]) by {
        assert(a + (b + parts) =~= (a + b) + parts);
    }
    assert(x =~= y);
}

/// Where there is no leaf there is none further down.
proof fn lemma_under_empty(all: Leaves, a: Seq<Seq<u8>>, b: Seq<Seq<u8>>)
    requires
        !populated(under(all, a)),
    ensures
        !populated(under(all, a + b)),
{
    lemma_under_under(all, a, b);
    if populated(under(all, a + b)) {
        let some = choose|some: Seq<Seq<u8>>| under(all, a + b).contains_key(some);
        assert(under(under(all, a), b).contains_key(some));
        assert(under(all, a).contains_key(b + some));
    }
}

/// A child of a node that is as it should be.
proof fn lemma_descend(node: MerkleNode, all: Leaves, prefix: Seq<Seq<u8>>, name: Seq<u8>, depth: nat)
    requires
        shaped(node, depth),
        sealed(node, depth),
        content(node) == under(all, prefix),
    ensures
        match table(node.children@).contains_key(name) {
            true => {
                let child = table(node.children@)[name].node;
                &&& depth > 0
                &&& shaped(child, (depth - 1) as nat)
                &&& sealed(child, (depth - 1) as nat)
                &&& content(child) == under(all, prefix.push(name))
                &&& populated(content(child))
            },
            false => !populated(under(all, prefix.push(name))),
        },
{
    assert(prefix + seq![name] =~= prefix.push(name));
    lemma_under_under(all, prefix, seq![name]);
    assert(below(content(node), name) == under(all, prefix.push(name)));
    if has_key(node.children@, name) {
        let r = rank_of(node.children@, name);
        lemma_content_step(node, r);
        assert(node.children@[r].key() == name);
    } else {
        lemma_children_listed(node, depth);
        assert(!keys(node.children@).contains(name)) by {
            if keys(node.children@).contains(name) {
                let r = choose|r: int|
                    0 <= r < keys(node.children@).len() && keys(node.children@)[r] == name;
                assert(node.children@[r].key() == name);
            }
        }
        lemma_unlisted_empty(content(node), keys(node.children@), name);
    }
}

/// What a sealed node knows of its child.
proof fn lemma_child_summary(node: MerkleNode, depth: nat, i: int)
    requires
        shaped(node, depth),
        sealed(node, depth),
        0 <= i < node.children@.len(),
    ensures
        node.children@[i].node.subtree_hash@ == subtree_digest(
            below(content(node), node.children@[i].key()),
            (depth - 1) as nat,
        ),
        node.children@[i].node.record_count == below(
            content(node),
            node.children@[i].key(),
        ).dom().len(),
{
    let child = node.children@[i];
    assert(sealed(child.node, (depth - 1) as nat));
    assert(child.node.subtree_hash@ == subtree_digest(content(child.node), (depth - 1) as nat));
    assert(below(content(node), child.key()) == content(child.node)) by {
        lemma_content_step(node, i);
    }
}

fn summarize_children(node: &MerkleNode, Ghost(depth): Ghost<nat>) -> (children: Vec<
    MerkleChildSummary,
>)
    requires
        shaped(*node, depth),
        sealed(*node, depth),
    ensures
        children@.len() == child_names(content(*node)).len(),
        forall|i: int|
            0 <= i < children@.len() ==> summarizes_child(
                #[trigger] children@[i],
                content(*node),
                child_names(content(*node))[i],
                depth,
            ),
{
    let ghost all = content(*node);
    let ghost names = keys(node.children@);
    proof {
        lemma_children_listed(*node, depth);
        assert forall|i: int|
            #![trigger node.children@[i]]
            0 <= i < node.children@.len() implies node.children@[i].node.subtree_hash@
            == subtree_digest(below(all, names[i]), (depth - 1) as nat)
            && node.children@[i].node.record_count == below(all, names[i]).dom().len() by {
            lemma_child_summary(*node, depth, i);
        }
    }
    let mut children: Vec<MerkleChildSummary> = Vec::new();
    let mut i: usize = 0;
    while i < node.children.len()
        invariant
            i <= node.children@.len(),
            children@.len() == i,
            names == keys(node.children@),
            forall|k: int|
                #![trigger node.children@[k]]
                0 <= k < node.children@.len() ==> node.children@[k].node.subtree_hash@
                    == subtree_digest(below(all, names[k]), (depth - 1) as nat)
                    && node.children@[k].node.record_count == below(all, names[k]).dom().len(),
            forall|k: int|
                0 <= k < i ==> summarizes_child(#[trigger] children@[k], all, names[k], depth),
        decreases node.children@.len() - i,
    {
        let child = &node.children[i];
        children.push(
            MerkleChildSummary {
                name: child.name.clone(),
                hash: child.node.subtree_hash,
                record_count: child.node.record_count,
            },
        );
        i = i + 1;
    }
    children
}

/// A list of records said again.
pub fn copy_records(records: &Vec<SyncRecord>) -> (copy: Vec<SyncRecord>)
    ensures
        views(copy@) == views(records@),
        ascending(records@) ==> ascending(copy@) && namespace(copy@) == namespace(records@),
{
    let mut copy: Vec<SyncRecord> = Vec::new();
    let mut i: usize = 0;
    while i < records.len()
        invariant
            i <= records@.len(),
            copy@.len() == i,
            forall|k: int| 0 <= k < i ==> (#[trigger] copy@[k])@ == records@[k]@,
        decreases records@.len() - i,
    {
        copy.push(records[i].clone());
        i = i + 1;
    }
    proof {
        assert(views(copy@) =~= views(records@));
        if ascending(records@) {
            lemma_views_fix_namespace(copy@, records@);
        }
    }
    copy
}

/// What records say fixes their order and their namespace.
pub proof fn lemma_views_fix_namespace(a: Seq<SyncRecord>, b: Seq<SyncRecord>)
    requires
        views(a) == views(b),
        ascending(b),
    ensures
        ascending(a),
        namespace(a) == namespace(b),
{
    assert(a.len() == views(a).len());
    assert(b.len() == views(b).len());
    assert forall|i: int| 0 <= i < a.len() implies (#[trigger] a[i])@ == b[i]@ by {
        assert(views(a)[i] == views(b)[i]);
    }
    assert forall|i: int, j: int| 0 <= i < j < a.len() implies byte_less(
        #[trigger] a[i].key(),
        #[trigger] a[j].key(),
    ) by {
        assert(a[i]@ == b[i]@ && a[j]@ == b[j]@);
        assert(byte_less(b[i].key(), b[j].key()));
    }
    assert forall|path: Seq<u8>|
        #![trigger namespace(a).dom().contains(path)]
        namespace(a).dom().contains(path) == namespace(b).dom().contains(path) && (namespace(
            a,
        ).dom().contains(path) ==> namespace(a)[path] == namespace(b)[path]) by {
        if has_key(a, path) {
            let r = rank_of(a, path);
            assert(a[r]@ == b[r]@);
            assert(b[r].key() == path);
            lemma_rank_unique(a, r);
            lemma_rank_unique(b, r);
        } else if has_key(b, path) {
            let r = rank_of(b, path);
            assert(a[r]@ == b[r]@);
            assert(a[r].key() == path);
        }
    }
    assert(namespace(a) =~= namespace(b));
}

/// Whether a path is the prefix or lies in the directory that it names.
fn is_under(path: &[u8], prefix: &[u8]) -> (r: bool)
    ensures
        r == lies_under(path@, prefix@),
{
    if path.len() < prefix.len() {
        return false;
    }
    if path.len() > prefix.len() && path[prefix.len()] != 0x2f {
        return false;
    }
    let head = vstd::slice::slice_subrange(path, 0, prefix.len());
    let same = crate::order::same_bytes(head, prefix);
    proof {
        assert(head@ =~= path@.take(prefix@.len() as int));
        if path@.len() == prefix@.len() {
            assert(head@ =~= path@);
        }
    }
    same
}

fn copy_valid(records: &Vec<SyncRecord>) -> (copy: Vec<SyncRecord>)
    requires
        ascending(records@),
        all_valid(records@),
    ensures
        ascending(copy@),
        all_valid(copy@),
        namespace(copy@) == namespace(records@),
{
    let copy = copy_records(records);
    proof {
        assert(views(copy@).len() == copy@.len() && views(records@).len() == records@.len());
        assert forall|i: int|
            #![trigger copy@[i]]
            0 <= i < copy@.len() implies record_fault(copy@[i]@) is None && path_fault(
            copy@[i].path@,
        ) is None by {
            assert(views(copy@)[i] == views(records@)[i]);
            assert(copy@[i]@ == records@[i]@);
            assert(copy@[i]@.path == records@[i]@.path);
        }
    }
    copy
}

impl Clone for MerkleTree {
    fn clone(&self) -> (copy: Self)
        ensures
            copy@ == self@,
    {
        proof {
            use_type_invariant(self);
        }
        MerkleTree::from_sorted(copy_valid(&self.records))
    }
}

impl MerkleTree {
    /// Describes the node at a prefix; an empty prefix selects the root.
    pub fn node_summary(&self, prefix: &str) -> (summary: Result<
        Option<MerkleNodeSummary>,
        ReconcileError,
    >)
        ensures
            match summary {
                Ok(Some(summary)) => {
                    &&& prefix@.len() == 0 || path_fault(utf8(prefix@)) is None
                    &&& prefix@.len() == 0 || populated(
                        under(leaves(self@), query_parts(utf8(prefix@))),
                    )
                    &&& summarizes(summary, self@, prefix@)
                },
                Ok(None) => prefix@.len() > 0 && path_fault(utf8(prefix@)) is None && !populated(
                    under(leaves(self@), query_parts(utf8(prefix@))),
                ),
                Err(error) => prefix@.len() > 0 && match path_fault(utf8(prefix@)) {
                    Some(fault) => error == ReconcileError::InvalidPrefix(fault),
                    None => false,
                },
            },
    {
        proof {
            use_type_invariant(self);
        }
        let ghost all = leaves(self@);
        let ghost bytes = utf8(prefix@);
        let mut parts: Vec<String> = Vec::new();
        let mut record: Option<SyncRecord> = None;
        if !prefix.is_empty() {
            let path = match WirePath::new(prefix) {
                Ok(path) => path,
                Err(error) => {
                    return Err(ReconcileError::InvalidPrefix(error));
                },
            };
            parts = path.components();
            record = match self.get(&path) {
                Some(record) => Some(record.clone()),
                None => None,
            };
            assert(bytes.len() > 0);
        } else {
            assert(prefix@ =~= Seq::empty());
            assert(bytes =~= Seq::empty());
            assert(text_bytes(parts@) =~= query_parts(bytes));
        }
        let ghost whole = query_parts(bytes);
        let mut node: &MerkleNode = &self.root;
        let mut i: usize = 0;
        proof {
            lemma_components_bound(bytes);
            assert(whole.take(0) =~= Seq::<Seq<u8>>::empty());
            lemma_under_nothing(all);
        }
        while i < parts.len()
            invariant
                i <= parts@.len(),
                parts@.len() <= MAX_DEPTH,
                whole == text_bytes(parts@),
                whole == query_parts(bytes),
                bytes == utf8(prefix@),
                all == leaves(self@),
                prefix@.len() > 0 || parts@.len() == 0,
                prefix@.len() > 0 ==> path_fault(bytes) is None,
                shaped(*node, (MAX_DEPTH - i) as nat),
                sealed(*node, (MAX_DEPTH - i) as nat),
                content(*node) == under(all, whole.take(i as int)),
                i > 0 ==> populated(content(*node)),
            decreases parts@.len() - i,
        {
            let ghost name = whole[i as int];
            proof {
                lemma_descend(*node, all, whole.take(i as int), name, (MAX_DEPTH - i) as nat);
                assert(whole.take(i + 1) =~= whole.take(i as int).push(name));
                assert(whole.take(i + 1) + whole.skip(i + 1) =~= whole);
                assert(name == utf8(parts@[i as int]@));
            }
            match find(&node.children, parts[i].as_str().as_bytes()) {
                Some(child) => {
                    node = &child.node;
                },
                None => {
                    proof {
                        lemma_under_empty(all, whole.take(i + 1), whole.skip(i + 1));
                    }
                    return Ok(None);
                },
            }
            i = i + 1;
        }
        proof {
            assert(whole.take(i as int) =~= whole);
            if prefix@.len() > 0 {
                lemma_components_slashed(bytes);
            }
        }
        let children = summarize_children(node, Ghost((MAX_DEPTH - whole.len()) as nat));
        Ok(
            Some(
                MerkleNodeSummary {
                    prefix: prefix.to_owned(),
                    hash: node.subtree_hash,
                    record_count: node.record_count,
                    record,
                    children,
                },
            ),
        )
    }

    /// The records at and beneath a prefix; an empty prefix returns the full snapshot.
    pub fn records_under(&self, prefix: &str) -> (records: Result<Vec<SyncRecord>, ReconcileError>)
        ensures
            match records {
                Ok(records) => {
                    &&& prefix@.len() == 0 || path_fault(utf8(prefix@)) is None
                    &&& ascending(records@)
                    &&& namespace(records@) == records_below(self@, prefix@)
                },
                Err(error) => prefix@.len() > 0 && match path_fault(utf8(prefix@)) {
                    Some(fault) => error == ReconcileError::InvalidPrefix(fault),
                    None => false,
                },
            },
    {
        proof {
            use_type_invariant(self);
        }
        let ghost wanted = Set::new(
            |path: Seq<u8>| prefix@.len() == 0 || lies_under(path, utf8(prefix@)),
        );
        assert(self@.restrict(wanted) =~= records_below(self@, prefix@));
        if prefix.is_empty() {
            assert(self@.restrict(wanted) =~= self@);
            return Ok(copy_records(&self.records));
        }
        let prefix_path = match WirePath::new(prefix) {
            Ok(path) => path,
            Err(error) => {
                return Err(ReconcileError::InvalidPrefix(error));
            },
        };
        let mut found: Vec<SyncRecord> = Vec::new();
        let mut i: usize = 0;
        proof {
            lemma_table_empty::<SyncRecord>();
            assert(namespace(found@) =~= namespace(self.records@.take(0)).restrict(wanted));
        }
        while i < self.records.len()
            invariant
                i <= self.records@.len(),
                ascending(self.records@),
                prefix@.len() > 0,
                prefix_path@ == utf8(prefix@),
                wanted == Set::new(
                    |path: Seq<u8>| prefix@.len() == 0 || lies_under(path, utf8(prefix@)),
                ),
                ascending(found@),
                namespace(found@) == namespace(self.records@.take(i as int)).restrict(wanted),
            decreases self.records@.len() - i,
        {
            let record = &self.records[i];
            let ghost before = namespace(self.records@.take(i as int));
            let ghost prior = found@;
            proof {
                lemma_namespace_take(self.records@, i as int);
                crate::table::lemma_table_take(self.records@, i as int);
            }
            if is_under(record.path.key_bytes(), prefix_path.key_bytes()) {
                let copy = record.clone();
                put(&mut found, copy);
                proof {
                    lemma_namespace_put(prior, found@, copy);
                    assert(before.insert(record.path@, record@).restrict(wanted)
                        =~= before.restrict(wanted).insert(record.path@, record@));
                }
            } else {
                proof {
                    assert(before.insert(record.path@, record@).restrict(wanted)
                        =~= before.restrict(wanted)) by {
                        assert(namespace(self.records@.take(i as int)).dom().contains(
                            record.path@,
                        ) == has_key(self.records@.take(i as int), record.path@));
                    }
                }
            }
            i = i + 1;
        }
        proof {
            assert(self.records@.take(i as int) =~= self.records@);
        }
        Ok(found)
    }

    /// The paths that a descent into mismatched subtrees finds, in path order.
    pub fn different_paths(&self, other: &Self) -> (paths: Vec<WirePath>)
        ensures
            ascending(paths@),
            forall|path: Seq<u8>| #[trigger]
                has_key(paths@, path) <==> differs(
                    leaves(self@),
                    leaves(other@),
                    components(path),
                    MAX_DEPTH as nat,
                ),
    {
        proof {
            use_type_invariant(self);
            use_type_invariant(other);
            lemma_table_empty::<WirePath>();
        }
        let mut paths: Vec<WirePath> = Vec::new();
        diff_nodes(&self.root, &other.root, &mut paths, Ghost(Seq::empty()), MAX_DEPTH);
        proof {
            let wanted = |parts: Seq<Seq<u8>>|
                differs(content(self.root), content(other.root), parts, MAX_DEPTH as nat);
            assert forall|path: Seq<u8>| #[trigger]
                has_key(paths@, path) <==> differs(
                    leaves(self@),
                    leaves(other@),
                    components(path),
                    MAX_DEPTH as nat,
                ) by {
                assert(Seq::<Seq<u8>>::empty() + components(path) =~= components(path));
                lemma_reported(path, Seq::empty(), components(path), wanted);
            }
        }
        paths
    }
}

/// Building a tree does not depend on the order of the records: two lists of the same records,
/// each path once, make up the same namespace and so have the same root digest.
pub proof fn law_root_ignores_order(a: Seq<RecordView>, b: Seq<RecordView>)
    requires
        load_fault(a) is None,
        load_fault(b) is None,
        forall|record: RecordView| #[trigger] a.contains(record) <==> b.contains(record),
    ensures
        gathered(a) == gathered(b),
        root_digest(gathered(a)) == root_digest(gathered(b)),
{
    lemma_no_load_fault(a, 0);
    lemma_no_load_fault(b, 0);
    let x = gathered(a);
    let y = gathered(b);
    assert forall|path: Seq<u8>|
        #![trigger x.dom().contains(path)]
        x.dom().contains(path) == y.dom().contains(path) && (x.dom().contains(path) ==> x[path]
            == y[path]) by {
        if x.dom().contains(path) {
            let i = choose|i: int| is_at(a, i, path);
            assert(a.contains(a[i]));
            let k = choose|k: int| 0 <= k < b.len() && b[k] == a[i];
            assert(is_at(b, k, path));
            let j = choose|j: int| is_at(b, j, path);
            if j != k {
                let hi = if j < k { k } else { j };
                let lo = if j < k { j } else { k };
                assert(load_fault_at(b, hi) is None);
                assert(is_at(b, lo, b[hi].path));
            }
        }
        if y.dom().contains(path) {
            let j = choose|j: int| is_at(b, j, path);
            assert(b.contains(b[j]));
            assert(a.contains(b[j]));
            let k = choose|k: int| 0 <= k < a.len() && a[k] == b[j];
            assert(is_at(a, k, path));
        }
    }
    assert(x =~= y);
}

/// A snapshot without a fault has no faulty record.
pub proof fn lemma_no_load_fault(records: Seq<RecordView>, i: int)
    requires
        0 <= i,
        load_fault_from(records, i) is None,
    ensures
        forall|j: int| i <= j < records.len() ==> #[trigger] load_fault_at(records, j) is None,
    decreases records.len() - i,
{
    if i < records.len() {
        lemma_no_load_fault(records, i + 1);
    }
}

/// Subtrees that seem the same are the same, at every place of the two sides.
pub open spec fn no_collision(left: Leaves, right: Leaves, depth: nat) -> bool {
    forall|prefix: Seq<Seq<u8>>|
        prefix.len() <= depth && #[trigger] seems_same(
            under(left, prefix),
            under(right, prefix),
            (depth - prefix.len()) as nat,
        ) ==> under(left, prefix) == under(right, prefix)
}

/// The descent is exact: where digests do not collide, it finds a leaf if and only if the two
/// sides differ on it.
pub proof fn law_diff_is_exact(left: Leaves, right: Leaves, parts: Seq<Seq<u8>>, depth: nat)
    requires
        no_collision(left, right, depth),
        parts.len() <= depth,
    ensures
        differs(left, right, parts, depth) <==> leaf(left, parts) != leaf(right, parts),
    decreases parts.len(),
{
    lemma_under_nothing(left);
    lemma_under_nothing(right);
    let none = Seq::<Seq<u8>>::empty();
    if seems_same(left, right, depth) {
        assert(seems_same(under(left, none), under(right, none), (depth - none.len()) as nat));
    } else if parts.len() > 0 {
        let name = parts[0];
        let a = below(left, name);
        let b = below(right, name);
        let rest = parts.drop_first();
        assert(seq![name] + rest =~= parts);
        assert(leaf(a, rest) == leaf(left, parts));
        assert(leaf(b, rest) == leaf(right, parts));
        if populated(a) && populated(b) {
            assert forall|prefix: Seq<Seq<u8>>|
                prefix.len() <= depth - 1 && #[trigger] seems_same(
                    under(a, prefix),
                    under(b, prefix),
                    (depth - 1 - prefix.len()) as nat,
                ) implies under(a, prefix) == under(b, prefix) by {
                let whole = seq![name] + prefix;
                lemma_under_under(left, seq![name], prefix);
                lemma_under_under(right, seq![name], prefix);
                assert(seems_same(
                    under(left, whole),
                    under(right, whole),
                    (depth - whole.len()) as nat,
                ));
            }
            law_diff_is_exact(a, b, rest, (depth - 1) as nat);
        }
    }
}

pub proof fn lemma_under_nothing(all: Leaves)
    ensures
        under(all, Seq::empty()) == all,
{
    let x = under(all, Seq::empty());
    assert forall|parts: Seq<Seq<u8>>|
        #![trigger x.dom().contains(parts)]
        x.dom().contains(parts) == all.dom().contains(parts) && (x.dom().contains(parts)
            ==> x[parts] == all[parts]) by {
        assert(Seq::<Seq<u8>>::empty() + parts =~= parts);
    }
    assert(x =~= all);
}

/// A namespace does not differ from itself.
pub proof fn law_no_difference_to_itself(all: Leaves, parts: Seq<Seq<u8>>, depth: nat)
    ensures
        !differs(all, all, parts, depth),
{
}

} // verus!
