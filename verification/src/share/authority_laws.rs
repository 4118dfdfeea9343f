//! What an owner's word on a snapshot fixes.
use vstd::prelude::*;

use crate::hash::{lemma_array_view_injective, lemma_hash_view_injective, lemma_same_parts};
use crate::merkle::{
    gathered, is_at, law_diff_is_exact, leaf, leaves, lemma_components_bound, no_collision,
    seems_same, Namespace, MAX_DEPTH,
};
use crate::merkle_laws::lemma_leaves_counted;
use crate::order::lemma_byte_less_asym;
use crate::path::{components, lemma_components_slashed};
use crate::record::{
    is_held, law_material_fixes_the_record, logical_digest, record_material, RecordView,
};
use crate::share::authority::{
    paths_ascend, snapshot_fault, token_fault, token_message, token_payload, token_shape_fault,
    SnapshotToken, SnapshotView, MAX_CLOCK_SKEW_SECONDS,
};
use crate::share::codec::{lemma_varint_first, varint};
use crate::share::error::ShareError;
use crate::share::identity::{ed25519_accepts, lemma_endpoint_view_injective, EndpointId, ShareId};
use crate::share::roster::saturated;

verus! {

/// Two snapshot tokens say the same, whatever their signatures.
pub open spec fn same_word(a: SnapshotToken, b: SnapshotToken) -> bool {
    a == (SnapshotToken { signature: a.signature, ..b })
}

/// The signed bytes of a token leave nothing of it out: they fix all that it says.
pub proof fn law_signed_bytes_fix_the_token(a: SnapshotToken, b: SnapshotToken)
    requires
        token_message(a) == token_message(b),
    ensures
        same_word(a, b),
{
    let domain = crate::text::utf8("deltaweave/share-snapshot/v1"@) + seq![0u8];
    lemma_same_parts(domain, token_payload(a), domain, token_payload(b));
    let (a8, b8) = (varint(a.expires_at as nat), varint(b.expires_at as nat));
    let (a7, b7) = (varint(a.issued_at as nat) + a8, varint(b.issued_at as nat) + b8);
    let (a6, b6) = (varint(a.record_count as nat) + a7, varint(b.record_count as nat) + b7);
    let (a5, b5) = (a.root_hash@ + a6, b.root_hash@ + b6);
    let (a4, b4) = (a.snapshot@ + a5, b.snapshot@ + b5);
    let (a3, b3) = (varint(a.epoch as nat) + a4, varint(b.epoch as nat) + b4);
    let (a2, b2) = (a.share@ + a3, b.share@ + b3);
    let (a1, b1) = (a.owner@ + a2, b.owner@ + b2);
    lemma_token_nested(a);
    lemma_token_nested(b);
    lemma_same_parts(seq![a.version], a1, seq![b.version], b1);
    assert(seq![a.version][0] == seq![b.version][0]);
    lemma_same_parts(a.owner@, a2, b.owner@, b2);
    lemma_endpoint_view_injective(a.owner, b.owner);
    lemma_same_parts(a.share@, a3, b.share@, b3);
    lemma_array_view_injective(a.share.0, b.share.0);
    lemma_varint_first(a.epoch as nat, a4, b.epoch as nat, b4);
    lemma_same_parts(a.snapshot@, a5, b.snapshot@, b5);
    lemma_array_view_injective(a.snapshot, b.snapshot);
    lemma_same_parts(a.root_hash@, a6, b.root_hash@, b6);
    lemma_hash_view_injective(a.root_hash, b.root_hash);
    lemma_varint_first(a.record_count as nat, a7, b.record_count as nat, b7);
    lemma_varint_first(a.issued_at as nat, a8, b.issued_at as nat, b8);
    assert(a8 + Seq::<u8>::empty() =~= b8 + Seq::<u8>::empty());
    lemma_varint_first(a.expires_at as nat, Seq::empty(), b.expires_at as nat, Seq::empty());
}

/// The bytes of a token, taken from the front.
proof fn lemma_token_nested(t: SnapshotToken)
    ensures
        token_payload(t) == seq![t.version] + (t.owner@ + (t.share@ + (varint(t.epoch as nat) + (
        t.snapshot@ + (t.root_hash@ + (varint(t.record_count as nat) + (varint(t.issued_at as nat)
            + varint(t.expires_at as nat)))))))),
{
    crate::record::lemma_nested(
        seq![t.version],
        t.owner@,
        t.share@,
        varint(t.epoch as nat),
        t.snapshot@,
        t.root_hash@,
        varint(t.record_count as nat),
        varint(t.issued_at as nat),
        varint(t.expires_at as nat),
    );
}

/// A token that is in order and signed by its owner is taken for that owner's share from when it
/// was issued until it expires, and refused otherwise: as another's for another owner or share, as
/// from a clock that went back when it comes too early, as expired when it comes too late.
pub proof fn law_signed_token_is_taken(
    token: SnapshotToken,
    owner: EndpointId,
    share: ShareId,
    now: u64,
)
    requires
        token_shape_fault(token) is None,
        ed25519_accepts(token.owner@, token_message(token), token.signature@),
    ensures
        token_fault(token, owner, share, now) == (if token.owner != owner || token.share != share {
            Some(ShareError::OwnerMismatch)
        } else if token.issued_at > saturated(now, MAX_CLOCK_SKEW_SECONDS) {
            Some(ShareError::ClockRollback)
        } else if token.expires_at <= now {
            Some(ShareError::GrantExpired)
        } else {
            None
        }),
{
}

/// A token that was altered is refused: where the owner's key takes the signature for the message
/// of the token alone, no token that says anything else is taken with it.
pub proof fn law_altered_token_is_refused(
    token: SnapshotToken,
    altered: SnapshotToken,
    owner: EndpointId,
    share: ShareId,
    now: u64,
)
    requires
        altered.signature == token.signature,
        !same_word(altered, token),
        forall|message: Seq<u8>|
            ed25519_accepts(owner@, message, token.signature@) ==> message == token_message(token),
    ensures
        token_fault(altered, owner, share, now) is Some,
{
    if token_fault(altered, owner, share, now) is None {
        assert(ed25519_accepts(owner@, token_message(altered), token.signature@));
        law_signed_bytes_fix_the_token(altered, token);
    }
}

/// No two records of one path among two lists have the same digest of different bytes.
pub open spec fn records_told_apart(a: Namespace, b: Namespace) -> bool {
    forall|path: Seq<u8>| #[trigger]
        a.contains_key(path) && b.contains_key(path) && logical_digest(a[path]) == logical_digest(
            b[path],
        ) ==> record_material(a[path]) == record_material(b[path])
}

/// Records in path order are those of their namespace.
proof fn lemma_in_namespace(records: Seq<RecordView>, i: int)
    requires
        paths_ascend(records),
        0 <= i < records.len(),
    ensures
        gathered(records).contains_key(records[i].path),
        gathered(records)[records[i].path] == records[i],
{
    let path = records[i].path;
    assert(is_at(records, i, path));
    let k = choose|k: int| is_at(records, k, path);
    lemma_byte_less_asym(path, path);
    if k < i {
        assert(crate::order::byte_less(records[k].path, records[i].path));
    } else if i < k {
        assert(crate::order::byte_less(records[i].path, records[k].path));
    }
}

/// The namespace of records in path order fixes them.
proof fn lemma_records_canonical(a: Seq<RecordView>, b: Seq<RecordView>)
    requires
        paths_ascend(a),
        paths_ascend(b),
        gathered(a) == gathered(b),
    ensures
        a == b,
{
    let x = Seq::new(a.len(), |i: int| a[i].path);
    let y = Seq::new(b.len(), |i: int| b[i].path);
    assert forall|path: Seq<u8>| #[trigger] x.contains(path) == y.contains(path) by {
        if x.contains(path) {
            let i = choose|i: int| 0 <= i < x.len() && x[i] == path;
            lemma_in_namespace(a, i);
            let k = choose|k: int| is_at(b, k, path);
            assert(y[k] == path);
        }
        if y.contains(path) {
            let i = choose|i: int| 0 <= i < y.len() && y[i] == path;
            lemma_in_namespace(b, i);
            let k = choose|k: int| is_at(a, k, path);
            assert(x[k] == path);
        }
    }
    assert forall|i: int, j: int| 0 <= i < j < x.len() implies crate::order::byte_less(
        #[trigger] x[i],
        #[trigger] x[j],
    ) by {
        assert(crate::order::byte_less(a[i].path, a[j].path));
    }
    assert forall|i: int, j: int| 0 <= i < j < y.len() implies crate::order::byte_less(
        #[trigger] y[i],
        #[trigger] y[j],
    ) by {
        assert(crate::order::byte_less(b[i].path, b[j].path));
    }
    crate::merkle::lemma_names_canonical(x, y);
    assert(x.len() == y.len());
    assert forall|i: int| 0 <= i < a.len() implies a[i] == b[i] by {
        assert(x[i] == y[i]);
        lemma_in_namespace(a, i);
        lemma_in_namespace(b, i);
    }
    assert(a =~= b);
}

/// There are as many paths as records in path order.
proof fn lemma_as_many_paths(records: Seq<RecordView>)
    requires
        paths_ascend(records),
    ensures
        gathered(records).dom().finite(),
        gathered(records).dom().len() == records.len(),
{
    let paths = Seq::new(records.len(), |i: int| records[i].path);
    assert forall|i: int, j: int| 0 <= i < j < paths.len() implies paths[i] != paths[j] by {
        assert(crate::order::byte_less(records[i].path, records[j].path));
        lemma_byte_less_asym(records[i].path, records[j].path);
        lemma_byte_less_asym(records[i].path, records[i].path);
    }
    assert(paths.no_duplicates());
    paths.unique_seq_to_set();
    assert(paths.to_set() =~= gathered(records).dom()) by {
        assert forall|path: Seq<u8>| #[trigger] paths.to_set().contains(path) == gathered(
            records,
        ).dom().contains(path) by {
            if paths.contains(path) {
                let i = choose|i: int| 0 <= i < paths.len() && paths[i] == path;
                assert(is_at(records, i, path));
            }
            if gathered(records).dom().contains(path) {
                let k = choose|k: int| is_at(records, k, path);
                assert(paths[k] == path);
            }
        }
    }
}

/// A snapshot that is accepted fixes its records: where digests do not collide, no list from which
/// a record is left out, to which one is added, or in which one is moved or altered is accepted
/// with the same root digest.
pub proof fn law_accepted_snapshot_fixes_its_records(
    snapshot: SnapshotView,
    altered: SnapshotView,
    owner: EndpointId,
    share: ShareId,
    now: u64,
    later: u64,
)
    requires
        snapshot_fault(snapshot, owner, share, now) is None,
        altered.token.root_hash == snapshot.token.root_hash,
        altered.token.record_count == snapshot.token.record_count,
        altered.records != snapshot.records,
        forall|i: int| 0 <= i < snapshot.records.len() ==> is_held(#[trigger] snapshot.records[i]),
        forall|i: int| 0 <= i < altered.records.len() ==> is_held(#[trigger] altered.records[i]),
        no_collision(
            leaves(gathered(snapshot.records)),
            leaves(gathered(altered.records)),
            MAX_DEPTH as nat,
        ),
        records_told_apart(gathered(snapshot.records), gathered(altered.records)),
    ensures
        snapshot_fault(altered, owner, share, later) is Some,
{
    if snapshot_fault(altered, owner, share, later) is None {
        let a = snapshot.records;
        let b = altered.records;
        let (x, y) = (gathered(a), gathered(b));
        lemma_as_many_paths(a);
        lemma_as_many_paths(b);
        lemma_leaves_counted(x);
        lemma_leaves_counted(y);
        assert(seems_same(leaves(x), leaves(y), MAX_DEPTH as nat));
        assert forall|path: Seq<u8>| #![trigger x.dom().contains(path)]
            x.dom().contains(path) == y.dom().contains(path) && (x.dom().contains(path) ==> x[path]
                == y[path]) by {
            let parts = components(path);
            lemma_components_slashed(path);
            if x.dom().contains(path) {
                let k = choose|k: int| is_at(a, k, path);
                lemma_in_namespace(a, k);
                assert(is_held(a[k]));
                lemma_components_bound(path);
                law_diff_is_exact(leaves(x), leaves(y), parts, MAX_DEPTH as nat);
                assert(leaf(leaves(x), parts) == leaf(leaves(y), parts));
                let j = choose|j: int| is_at(b, j, path);
                lemma_in_namespace(b, j);
                assert(is_held(b[j]));
                assert(x.contains_key(path) && y.contains_key(path));
                law_material_fixes_the_record(x[path], y[path]);
            }
            if y.dom().contains(path) {
                let j = choose|j: int| is_at(b, j, path);
                lemma_in_namespace(b, j);
                assert(is_held(b[j]));
                lemma_components_bound(path);
                law_diff_is_exact(leaves(x), leaves(y), parts, MAX_DEPTH as nat);
                assert(leaf(leaves(x), parts) == leaf(leaves(y), parts));
            }
        }
        assert(x =~= y);
        lemma_records_canonical(a, b);
    }
}

} // verus!
