//! What versions, records, overlays and the names of copies are, told by their parts.
use vstd::prelude::*;
use vstd::utf8::is_char_boundary;

use crate::conflict_path::{
    allocated, allocated_from, attempt_path, component_budget, conflict_name, conflict_path,
    conflict_suffix, extension_at, floor_boundary, last_before, last_position, name_of, parent_of,
    truncated,
};
use crate::hash::{blake3_digest, hex_text, le_bytes};
use crate::order::byte_less;
use crate::path::path_fault;
use crate::reconcile::ReconcileError;
use crate::record::{record_fault, RecordView, SyncEntryKind, SyncRecordError};
use crate::swarm::{
    active_limit, group_digests, hash_views, is_overlay, passive_limit, sorts, Overlay,
};
use crate::text::{decimal, utf8};
use crate::version::{
    causal_relation, counter_of, joined, seen_by, with_counter, CausalRelation, Counters,
};

verus! {

/// Two versions are equal if no replica tells them apart, one is before the other if that has seen
/// all of it and more, and they are concurrent if each has seen something that the other has not.
pub proof fn law_relation_is_by_what_was_seen(a: Counters, b: Counters)
    ensures
        causal_relation(a, b) == CausalRelation::Equal <==> forall|replica: Seq<u8>| #[trigger]
            counter_of(a, replica) == counter_of(b, replica),
        causal_relation(a, b) == CausalRelation::Before <==> (forall|replica: Seq<u8>| #[trigger]
            counter_of(a, replica) <= counter_of(b, replica)) && exists|replica: Seq<u8>|
            #[trigger] counter_of(a, replica) < counter_of(b, replica),
        causal_relation(a, b) == CausalRelation::After <==> (forall|replica: Seq<u8>| #[trigger]
            counter_of(b, replica) <= counter_of(a, replica)) && exists|replica: Seq<u8>|
            #[trigger] counter_of(b, replica) < counter_of(a, replica),
        causal_relation(a, b) == CausalRelation::Concurrent <==> (exists|replica: Seq<u8>|
            #[trigger] counter_of(a, replica) < counter_of(b, replica)) && exists|replica: Seq<u8>|
            #[trigger] counter_of(b, replica) < counter_of(a, replica),
{
    if !seen_by(a, b) {
        let replica = choose|replica: Seq<u8>|
            !(#[trigger] counter_of(a, replica) <= counter_of(b, replica));
        assert(counter_of(b, replica) < counter_of(a, replica));
    }
    if !seen_by(b, a) {
        let replica = choose|replica: Seq<u8>|
            !(#[trigger] counter_of(b, replica) <= counter_of(a, replica));
        assert(counter_of(a, replica) < counter_of(b, replica));
    }
    if seen_by(a, b) && seen_by(b, a) {
        assert forall|replica: Seq<u8>| #[trigger] counter_of(a, replica) == counter_of(
            b,
            replica,
        ) by {
            assert(counter_of(b, replica) <= counter_of(a, replica));
        }
    }
    if forall|replica: Seq<u8>| #[trigger] counter_of(a, replica) == counter_of(b, replica) {
        assert forall|replica: Seq<u8>| #[trigger] counter_of(b, replica) <= counter_of(
            a,
            replica,
        ) by {
            assert(counter_of(a, replica) == counter_of(b, replica));
        }
        assert(seen_by(a, b) && seen_by(b, a));
    }
}

/// A merged version has of each replica the larger of the two counters, and one that has seen a
/// counter has the larger of that and its own; no other replica's counter changes.
pub proof fn law_versions_only_grow(
    a: Counters,
    b: Counters,
    seen: Seq<u8>,
    counter: u64,
    replica: Seq<u8>,
)
    ensures
        counter_of(joined(a, b), replica) >= counter_of(a, replica),
        counter_of(joined(a, b), replica) >= counter_of(b, replica),
        counter_of(joined(a, b), replica) == counter_of(a, replica) || counter_of(
            joined(a, b),
            replica,
        ) == counter_of(b, replica),
        replica != seen ==> counter_of(with_counter(a, seen, counter), replica) == counter_of(
            a,
            replica,
        ),
        counter_of(with_counter(a, seen, counter), seen) >= counter,
        counter_of(with_counter(a, seen, counter), seen) >= counter_of(a, seen),
        counter_of(with_counter(a, seen, counter), seen) == counter || counter_of(
            with_counter(a, seen, counter),
            seen,
        ) == counter_of(a, seen),
{
}

/// A record is valid exactly if it is of the first schema and, unless it is of a deletion, has a
/// digest if it is of a file, and neither a digest nor a size if it is of a directory.
pub proof fn law_valid_record_has_what_its_kind_needs(record: RecordView)
    ensures
        record_fault(record) is None <==> {
            &&& record.schema_version == 1
            &&& record.tombstone || record.kind != SyncEntryKind::File || record.content_hash
                is Some
            &&& record.tombstone || record.kind != SyncEntryKind::Directory || record.size == 0
                && record.content_hash is None
        },
        record.schema_version != 1 ==> record_fault(record) == Some(
            SyncRecordError::UnsupportedSchema,
        ),
{
}

/// How large the overlay of a group is: a single peer is active; of up to ten, six are active, of up
/// to a hundred, eight, and of more, twelve, or all if they are fewer. Of the others twelve,
/// thirty-two or sixty-four are passive, or all if they are fewer.
pub proof fn law_overlay_grows_with_its_group(peer_count: int)
    requires
        0 <= peer_count,
    ensures
        peer_count <= 6 ==> active_limit(peer_count) == peer_count && passive_limit(peer_count)
            == 0,
        6 <= peer_count <= 10 ==> active_limit(peer_count) == 6 && passive_limit(peer_count)
            == peer_count - 6,
        10 < peer_count <= 40 ==> active_limit(peer_count) == 8 && passive_limit(peer_count)
            == peer_count - 8,
        40 <= peer_count <= 100 ==> active_limit(peer_count) == 8 && passive_limit(peer_count)
            == 32,
        peer_count > 100 ==> active_limit(peer_count) == 12 && passive_limit(peer_count) == 64,
{
}

/// The name is the digest of a device's own name with a number below the size of its group.
pub open spec fn is_peer(name: Seq<u8>, self_id: Seq<u8>, peer_count: int) -> bool {
    exists|k: u64| k < peer_count && name == blake3_digest(self_id + #[trigger] le_bytes(k))
}

/// The peers of an overlay are peers of the group, each known by the digest of the device's own
/// name with a number below the size of the group, and no passive peer comes before an active one.
pub proof fn law_overlay_is_of_the_group(overlay: Overlay, self_id: Seq<u8>, peer_count: int)
    requires
        0 <= peer_count <= u64::MAX,
        is_overlay(overlay, self_id, peer_count),
    ensures
        overlay.active@.len() == active_limit(peer_count),
        overlay.passive@.len() == passive_limit(peer_count),
        forall|i: int|
            0 <= i < overlay.active@.len() ==> is_peer(
                (#[trigger] overlay.active@[i])@,
                self_id,
                peer_count,
            ),
        forall|i: int|
            0 <= i < overlay.passive@.len() ==> is_peer(
                (#[trigger] overlay.passive@[i])@,
                self_id,
                peer_count,
            ),
        forall|i: int, j: int|
            0 <= i < overlay.active@.len() && 0 <= j < overlay.passive@.len() ==> !byte_less(
                (#[trigger] overlay.passive@[j])@,
                (#[trigger] overlay.active@[i])@,
            ),
{
    let group = group_digests(self_id, peer_count);
    let sorted = choose|sorted: Seq<Seq<u8>>|
        {
            &&& #[trigger] sorts(sorted, group)
            &&& hash_views(overlay.active@) == sorted.take(active_limit(peer_count))
            &&& hash_views(overlay.passive@) == sorted.skip(active_limit(peer_count)).take(
                passive_limit(peer_count),
            )
        };
    let n = active_limit(peer_count);
    crate::swarm::law_overlay_stays_bounded(peer_count);
    sorted.to_multiset_ensures();
    group.to_multiset_ensures();
    assert(sorted.len() == group.len());
    assert forall|at: int| 0 <= at < sorted.len() implies is_peer(
        #[trigger] sorted[at],
        self_id,
        peer_count,
    ) by {
        assert(sorted.contains(sorted[at]));
        assert(sorted.to_multiset().count(sorted[at]) > 0);
        assert(group.contains(sorted[at]));
        let k = choose|k: int| 0 <= k < group.len() && group[k] == sorted[at];
        assert(sorted[at] == blake3_digest(self_id + le_bytes(k as u64)));
    }
    let (active, passive) = (hash_views(overlay.active@), hash_views(overlay.passive@));
    assert(active.len() == overlay.active@.len());
    assert(passive.len() == overlay.passive@.len());
    assert forall|i: int| 0 <= i < overlay.active@.len() implies is_peer(
        (#[trigger] overlay.active@[i])@,
        self_id,
        peer_count,
    ) by {
        assert(overlay.active@[i]@ == active[i]);
        assert(active[i] == sorted[i]);
    }
    assert forall|i: int| 0 <= i < overlay.passive@.len() implies is_peer(
        (#[trigger] overlay.passive@[i])@,
        self_id,
        peer_count,
    ) by {
        assert(overlay.passive@[i]@ == passive[i]);
        assert(passive[i] == sorted[n + i]);
    }
    assert forall|i: int, j: int|
        0 <= i < overlay.active@.len() && 0 <= j < overlay.passive@.len() implies !byte_less(
        (#[trigger] overlay.passive@[j])@,
        (#[trigger] overlay.active@[i])@,
    ) by {
        assert(overlay.active@[i]@ == active[i]);
        assert(active[i] == sorted[i]);
        assert(overlay.passive@[j]@ == passive[j]);
        assert(passive[j] == sorted[n + j]);
    }
}

proof fn lemma_last_at(bytes: Seq<u8>, wanted: u8, end: int, at: int)
    requires
        -1 <= at < end <= bytes.len(),
        at >= 0 ==> bytes[at] == wanted,
        forall|k: int| at < k < end ==> bytes[k] != wanted,
    ensures
        last_before(bytes, wanted, end) == at,
    decreases end,
{
    if end - 1 > at {
        lemma_last_at(bytes, wanted, end - 1, at);
    }
}

proof fn lemma_parts(original: Seq<u8>, directory: int, stem: int)
    requires
        0 <= directory < stem <= original.len(),
        directory == 0 || original[directory - 1] == 0x2f,
        forall|k: int| directory <= k < original.len() ==> original[k] != 0x2f,
        stem < original.len() ==> original[stem] == 0x2e,
        forall|k: int| stem < k < original.len() ==> original[k] != 0x2e,
        stem == original.len() ==> forall|k: int|
            directory < k < original.len() ==> original[k] != 0x2e,
    ensures
        last_position(original, 0x2f) == directory - 1,
        name_of(original) == original.skip(directory),
        extension_at(name_of(original)) == stem - directory,
{
    lemma_last_at(original, 0x2f, original.len() as int, directory - 1);
    let name = original.skip(directory);
    if stem < original.len() {
        lemma_last_at(name, 0x2e, name.len() as int, stem - directory);
    } else if name[0] == 0x2e {
        lemma_last_at(name, 0x2e, name.len() as int, 0);
    } else {
        lemma_last_at(name, 0x2e, name.len() as int, -1);
    }
}

proof fn lemma_marked(original: Seq<u8>, mark: Seq<u8>, directory: int, stem: int)
    requires
        0 <= directory < stem <= original.len(),
        last_position(original, 0x2f) == directory - 1,
        directory > 0 ==> original[directory - 1] == 0x2f,
        name_of(original) == original.skip(directory),
        extension_at(name_of(original)) == stem - directory,
        original.len() - directory + mark.len() <= 255,
        original.len() + mark.len() <= 4096,
    ensures
        component_budget(original) > mark.len(),
        ({
            let name = conflict_name(name_of(original), mark, component_budget(original));
            original.take(stem) + mark + original.skip(stem) == match parent_of(original) {
                Some(parent) => parent + seq![0x2fu8] + name,
                None => name,
            }
        }),
{
    let whole = original.skip(directory);
    let at = stem - directory;
    let name = conflict_name(whole, mark, component_budget(original));
    assert(name == whole.take(at) + mark + whole.skip(at));
    let named = original.take(stem) + mark + original.skip(stem);
    if directory > 0 {
        assert(original.take(directory - 1) + seq![0x2fu8] + name =~= named);
    } else {
        assert(name =~= named);
    }
}

/// The name of a copy is the name of the file with a mark in it: behind it the extension, and in
/// front the rest, in the same directory. This is the whole name where it fits within the limits
/// of a name and a path.
pub proof fn law_copy_is_named_after_its_file(
    original: Seq<u8>,
    token: Seq<char>,
    counter: Option<u32>,
    directory: int,
    stem: int,
)
    requires
        0 <= directory < stem <= original.len(),
        directory == 0 || original[directory - 1] == 0x2f,
        forall|k: int| directory <= k < original.len() ==> original[k] != 0x2f,
        stem < original.len() ==> original[stem] == 0x2e,
        forall|k: int| stem < k < original.len() ==> original[k] != 0x2e,
        stem == original.len() ==> forall|k: int|
            directory < k < original.len() ==> original[k] != 0x2e,
    ensures
        ({
            let mark = utf8(
                match counter {
                    Some(serial) => ".conflict-"@ + token + "-"@ + decimal(serial as nat),
                    None => ".conflict-"@ + token,
                },
            );
            let named = original.take(stem) + mark + original.skip(stem);
            original.len() - directory + mark.len() <= 255 && original.len() + mark.len() <= 4096
                && path_fault(named) is None ==> conflict_path(original, token, counter) == Ok::<
                Seq<u8>,
                ReconcileError,
            >(named)
        }),
{
    let mark = utf8(conflict_suffix(token, counter));
    let named = original.take(stem) + mark + original.skip(stem);
    lemma_parts(original, directory, stem);
    if original.len() - directory + mark.len() <= 255 && original.len() + mark.len() <= 4096 {
        lemma_marked(original, mark, directory, stem);
    }
}

/// The name that is tried for a copy: with the first twelve digits of the digest, then sixteen,
/// twenty-four, thirty-two, forty-eight and all of them, and then with all of them and a serial
/// number, counted from one.
pub open spec fn nth_name(original: Seq<u8>, digest: Seq<u8>, attempt: int) -> Result<
    Seq<u8>,
    ReconcileError,
> {
    if attempt < 6 {
        conflict_path(
            original,
            hex_text(digest).take(seq![12int, 16, 24, 32, 48, 64][attempt]),
            None,
        )
    } else {
        conflict_path(original, hex_text(digest).take(64), Some((attempt - 5) as u32))
    }
}

proof fn lemma_first_free(
    original: Seq<u8>,
    digest: Seq<u8>,
    occupied: Set<Seq<u8>>,
    from: int,
    attempt: int,
)
    requires
        0 <= from <= attempt < 10006,
        forall|k: int|
            from <= k < attempt ==> match #[trigger] nth_name(original, digest, k) {
                Ok(name) => occupied.contains(name),
                Err(_) => false,
            },
        match nth_name(original, digest, attempt) {
            Ok(name) => !occupied.contains(name),
            Err(_) => true,
        },
    ensures
        allocated_from(original, digest, occupied, from) == nth_name(original, digest, attempt),
    decreases attempt - from,
{
    assert(nth_name(original, digest, from) == attempt_path(original, digest, from));
    if from < attempt {
        lemma_first_free(original, digest, occupied, from + 1, attempt);
    }
}

/// A copy gets the first name in turn that is free. A name that cannot be made ends the search.
pub proof fn law_copy_gets_the_first_free_name(
    original: Seq<u8>,
    digest: Seq<u8>,
    occupied: Set<Seq<u8>>,
    attempt: int,
)
    requires
        0 <= attempt < 10006,
        forall|k: int|
            0 <= k < attempt ==> match #[trigger] nth_name(original, digest, k) {
                Ok(name) => occupied.contains(name),
                Err(_) => false,
            },
        match nth_name(original, digest, attempt) {
            Ok(name) => !occupied.contains(name),
            Err(_) => true,
        },
    ensures
        allocated(original, digest, occupied) == nth_name(original, digest, attempt),
{
    lemma_first_free(original, digest, occupied, 0, attempt);
}

proof fn lemma_floor(bytes: Seq<u8>, maximum: int)
    ensures
        0 <= floor_boundary(bytes, maximum),
        maximum >= 0 ==> floor_boundary(bytes, maximum) <= maximum,
        floor_boundary(bytes, maximum) > 0 ==> is_char_boundary(
            bytes,
            floor_boundary(bytes, maximum),
        ),
        forall|k: int|
            floor_boundary(bytes, maximum) < k <= maximum ==> !is_char_boundary(bytes, k),
    decreases maximum,
{
    if maximum > 0 && !is_char_boundary(bytes, maximum) {
        lemma_floor(bytes, maximum - 1);
    }
}

/// A text that is cut to a number of bytes is the longest beginning of it that fits and ends
/// between two characters.
pub proof fn law_text_is_cut_between_characters(bytes: Seq<u8>, maximum: int)
    requires
        0 <= maximum,
    ensures
        bytes.len() <= maximum ==> truncated(bytes, maximum) == bytes,
        bytes.len() > maximum ==> {
            let kept = truncated(bytes, maximum);
            &&& kept.len() <= maximum
            &&& kept == bytes.take(kept.len() as int)
            &&& kept.len() == 0 || is_char_boundary(bytes, kept.len() as int)
            &&& forall|k: int| kept.len() < k <= maximum ==> !is_char_boundary(bytes, k)
        },
{
    lemma_floor(bytes, maximum);
}

proof fn lemma_none_free(original: Seq<u8>, digest: Seq<u8>, occupied: Set<Seq<u8>>, from: int)
    requires
        0 <= from <= 10006,
        forall|k: int|
            from <= k < 10006 ==> match #[trigger] nth_name(original, digest, k) {
                Ok(name) => occupied.contains(name),
                Err(_) => false,
            },
    ensures
        allocated_from(original, digest, occupied, from) == Err::<Seq<u8>, ReconcileError>(
            ReconcileError::ConflictPathExhausted,
        ),
    decreases 10006 - from,
{
    if from < 10006 {
        assert(nth_name(original, digest, from) == attempt_path(original, digest, from));
        lemma_none_free(original, digest, occupied, from + 1);
    }
}

/// A copy gets no name only once six digests and ten thousand serial numbers are all taken.
pub proof fn law_names_run_out_last(original: Seq<u8>, digest: Seq<u8>, occupied: Set<Seq<u8>>)
    requires
        forall|k: int|
            0 <= k < 10006 ==> match #[trigger] nth_name(original, digest, k) {
                Ok(name) => occupied.contains(name),
                Err(_) => false,
            },
    ensures
        allocated(original, digest, occupied) == Err::<Seq<u8>, ReconcileError>(
            ReconcileError::ConflictPathExhausted,
        ),
{
    lemma_none_free(original, digest, occupied, 0);
}

} // verus!
