//! What a manifest, a chunk, a sight of an object and a replacement have to be, told by what is on
//! the disk.
use vstd::prelude::*;

use crate::hash::{blake3_derived, blake3_digest, Hash32};
use crate::manifest::{
    chunk_fault, extent_end, extent_holds, manifest_digest, manifest_fault, ChunkDescriptor,
    ChunkError, ManifestView,
};
use crate::record::{RecordView, SyncEntryKind};
use crate::store::chunks::{is_chunk, touched, written_count, ChunkFile, Installed};
use crate::store::error::StoreError;
use crate::store::observe::{
    ancestors_fault, destination_fault, materialized, observing_fault, readonly_fault, sees,
    sight_is_file, sight_matches, Content, DirectoryEntry, EntryFacts, EntryKind,
    MaterializationObservation, PathObservation,
};
use crate::store::operations::{
    following, is_current, materialize_fault, moved, operation_digest, piece_fault, private_fault,
    removal_of, Places, RemoveStep, ReplaceStep,
};

verus! {

/// The chunks lie one behind the other from the start of a file to its end, and none is empty.
pub open spec fn covers(chunks: Seq<ChunkDescriptor>, size: u64) -> bool {
    &&& forall|i: int| 0 <= i < chunks.len() ==> (#[trigger] chunks[i]).length > 0
    &&& chunks.len() > 0 ==> chunks[0].offset == 0
    &&& forall|i: int, j: int|
        0 <= i < chunks.len() && j == i + 1 && j < chunks.len() ==> (#[trigger] chunks[j]).offset
            == (#[trigger] chunks[i]).offset + chunks[i].length
    &&& size == (if chunks.len() == 0 {
        0
    } else {
        chunks.last().offset + chunks.last().length
    })
}

proof fn lemma_offsets(chunks: Seq<ChunkDescriptor>, n: nat)
    requires
        n < chunks.len(),
        forall|i: int| 0 <= i <= n ==> #[trigger] extent_holds(chunks, i),
    ensures
        chunks[n as int].offset == extent_end(chunks, n),
        n > 0 ==> chunks[n as int].offset == chunks[n - 1].offset + chunks[n - 1].length,
        extent_end(chunks, n + 1) == chunks[n as int].offset + chunks[n as int].length,
    decreases n,
{
    assert(extent_holds(chunks, n as int));
    if n > 0 {
        lemma_offsets(chunks, (n - 1) as nat);
    }
}

proof fn lemma_extents(chunks: Seq<ChunkDescriptor>, size: u64, n: nat)
    requires
        n < chunks.len(),
        covers(chunks, size),
    ensures
        chunks[n as int].offset == extent_end(chunks, n),
        extent_holds(chunks, n as int),
        extent_end(chunks, n + 1) == chunks[n as int].offset + chunks[n as int].length,
    decreases n,
{
    if n > 0 {
        lemma_extents(chunks, size, (n - 1) as nat);
        assert(chunks[n as int].offset == chunks[n - 1].offset + chunks[n - 1].length);
    }
    assert(chunks[n as int].length > 0);
}

/// A manifest is valid exactly if it is of the first schema and its chunks cover the file: they
/// start at its beginning, follow one another without a gap, are not empty, and end at its size.
pub proof fn law_valid_manifest_covers_the_file(manifest: ManifestView)
    ensures
        manifest_fault(manifest) is None <==> manifest.schema_version == 1 && covers(
            manifest.chunks,
            manifest.size,
        ),
{
    let chunks = manifest.chunks;
    if manifest_fault(manifest) is None {
        assert forall|i: int| 0 <= i < chunks.len() implies #[trigger] extent_holds(chunks, i) by {
        }
        assert forall|i: int| 0 <= i < chunks.len() implies (#[trigger] chunks[i]).length > 0 by {
            assert(extent_holds(chunks, i));
        }
        if chunks.len() > 0 {
            lemma_offsets(chunks, 0);
            lemma_offsets(chunks, (chunks.len() - 1) as nat);
        }
        assert forall|i: int, j: int|
            0 <= i < chunks.len() && j == i + 1 && j < chunks.len() implies (
        #[trigger] chunks[j]).offset == (#[trigger] chunks[i]).offset + chunks[i].length by {
            lemma_offsets(chunks, j as nat);
        }
    }
    if manifest.schema_version == 1 && covers(chunks, manifest.size) {
        assert forall|i: int| 0 <= i < chunks.len() implies #[trigger] extent_holds(chunks, i) by {
            lemma_extents(chunks, manifest.size, i as nat);
        }
        if chunks.len() > 0 {
            lemma_extents(chunks, manifest.size, (chunks.len() - 1) as nat);
        }
    }
}

/// Bytes are a chunk exactly if they have its length and its digest. The length is looked at first
/// where a chunk comes in, and the digest where a file is put together.
pub proof fn law_chunk_is_known_by_length_and_digest(descriptor: ChunkDescriptor, bytes: Seq<u8>)
    ensures
        chunk_fault(descriptor, bytes) is None <==> bytes.len() == descriptor.length
            && blake3_digest(bytes) == descriptor.hash@,
        piece_fault(descriptor, bytes) is None <==> bytes.len() == descriptor.length
            && blake3_digest(bytes) == descriptor.hash@,
        bytes.len() != descriptor.length ==> chunk_fault(descriptor, bytes) == Some(
            ChunkError::LengthMismatch,
        ),
        blake3_digest(bytes) != descriptor.hash@ ==> piece_fault(descriptor, bytes) == Some(
            StoreError::CorruptChunk,
        ),
{
}

/// What is at the place of a chunk is that chunk exactly if it can be read and has the digest.
pub proof fn law_chunk_file_is_known_by_its_digest(hash: Hash32, file: ChunkFile)
    ensures
        is_chunk(hash, file) <==> match file {
            ChunkFile::Holds(bytes) => blake3_digest(bytes@) == hash@,
            ChunkFile::Missing => false,
            ChunkFile::Unreadable => false,
        },
{
}

/// A batch counts what it has written, and only that, and the directories that have to reach the
/// disk are those of what it has written.
pub proof fn law_batch_counts_what_it_wrote(outcomes: Seq<Installed>)
    ensures
        written_count(outcomes) == outcomes.filter(|one: Installed| one.written).len(),
        forall|byte: u8|
            #[trigger] touched(outcomes, byte) <==> exists|i: int|
                0 <= i < outcomes.len() && (#[trigger] outcomes[i]).written
                    && outcomes[i].hash.bytes@[0] == byte,
    decreases outcomes.len(),
{
    let wrote = |one: Installed| one.written;
    reveal_with_fuel(Seq::filter, 1);
    if outcomes.len() > 0 {
        law_batch_counts_what_it_wrote(outcomes.drop_last());
    }
}

/// A file is installed unless its manifest is not valid or a directory that holds something is in
/// the way. It is already there exactly if there is a file with its digest.
pub proof fn law_file_is_installed_where_nothing_is_lost(
    manifest: ManifestView,
    existing: Option<EntryKind>,
    occupied: bool,
    content: Option<Hash32>,
)
    ensures
        materialize_fault(manifest, existing, occupied) is None <==> manifest_fault(manifest) is None
            && (existing != Some(EntryKind::Directory) || !occupied),
        manifest_fault(manifest) is None && existing == Some(EntryKind::Directory) && occupied
            ==> materialize_fault(manifest, existing, occupied) == Some(
            StoreError::DirectoryInTheWay,
        ),
        is_current(manifest, existing, content) <==> existing == Some(EntryKind::File) && content
            == Some(manifest.file_hash),
{
}

/// Two operations are the same only if they are on the same path and of manifests with the same
/// digest, where digests of different bytes differ.
pub proof fn law_operation_is_of_one_path_and_manifest(
    path: Seq<u8>,
    manifest: ManifestView,
    other_path: Seq<u8>,
    other: ManifestView,
)
    requires
        manifest_digest(manifest).len() == 32,
        manifest_digest(other).len() == 32,
        blake3_derived("deltaweave operation v1"@, path + manifest_digest(manifest))
            == blake3_derived("deltaweave operation v1"@, other_path + manifest_digest(other))
            ==> path + manifest_digest(manifest) == other_path + manifest_digest(other),
    ensures
        operation_digest(path, manifest) == operation_digest(other_path, other) <==> path
            == other_path && manifest_digest(manifest) == manifest_digest(other),
{
    if operation_digest(path, manifest) == operation_digest(other_path, other) {
        let a = path + manifest_digest(manifest);
        let b = other_path + manifest_digest(other);
        assert(a == b);
        assert(path =~= a.take(a.len() - 32));
        assert(other_path =~= b.take(b.len() - 32));
        assert(manifest_digest(manifest) =~= a.skip(a.len() - 32));
        assert(manifest_digest(other) =~= b.skip(b.len() - 32));
    }
}

/// The moves of a replacement, each with whether it went well, one after the other.
pub open spec fn replaced_by(
    places: Places,
    step: ReplaceStep,
    outcomes: Seq<bool>,
    replaced: bool,
) -> (Places, ReplaceStep)
    decreases outcomes.len(),
{
    if outcomes.len() == 0 {
        (places, step)
    } else {
        replaced_by(
            moved(places, step, outcomes[0]),
            following(step, outcomes[0], replaced),
            outcomes.skip(1),
            replaced,
        )
    }
}

/// A replacement whose moves all go well leaves the new file in its place and the old one in the
/// trash. One whose new file cannot be moved in puts the old one back, drops the new one, and fails.
/// One that cannot move the old one aside fails at once, with everything where it was.
pub proof fn law_failed_replacement_puts_back(former: Seq<u8>, new: Seq<u8>)
    ensures
        ({
            let start = Places { destination: Some(former), incoming: Some(new), trash: None };
            let first = ReplaceStep::MoveAside;
            &&& replaced_by(start, first, seq![true, true], true) == (
                Places { destination: Some(new), incoming: None, trash: Some(former) },
                ReplaceStep::Done,
            )
            &&& replaced_by(start, first, seq![true, false, true, true], true) == (
                Places { destination: Some(former), incoming: None, trash: None },
                ReplaceStep::Failed,
            )
            &&& replaced_by(start, first, seq![false], true) == (start, ReplaceStep::Failed)
        }),
        ({
            let start = Places { destination: None, incoming: Some(new), trash: None };
            let first = ReplaceStep::MoveIn;
            &&& replaced_by(start, first, seq![true], false) == (
                Places { destination: Some(new), incoming: None, trash: None },
                ReplaceStep::Done,
            )
            &&& replaced_by(start, first, seq![false, true], false) == (
                Places { destination: None, incoming: None, trash: None },
                ReplaceStep::Failed,
            )
        }),
{
    reveal_with_fuel(replaced_by, 6);
    assert(seq![true, true].skip(1) =~= seq![true]);
    assert(seq![true].skip(1) =~= seq![]);
    assert(seq![false].skip(1) =~= seq![]);
    assert(seq![true, false, true, true].skip(1) =~= seq![false, true, true]);
    assert(seq![false, true, true].skip(1) =~= seq![true, true]);
    assert(seq![false, true].skip(1) =~= seq![true]);
}

/// What is removed, by what is there: nothing where there is nothing, a directory in its place, and
/// everything else into the trash.
pub proof fn law_content_is_removed_into_the_trash(existing: Option<EntryKind>)
    ensures
        removal_of(existing) == RemoveStep::Nothing <==> existing is None,
        removal_of(existing) == RemoveStep::RemoveEmptyDirectory <==> existing == Some(
            EntryKind::Directory,
        ),
        removal_of(existing) == RemoveStep::MoveToTrash <==> existing is Some && existing->0
            != EntryKind::Directory,
{
}

proof fn lemma_ancestors_fine(above: Seq<Option<EntryKind>>, i: int)
    requires
        0 <= i,
    ensures
        ancestors_fault(above, i) is None <==> forall|k: int|
            i <= k < above.len() ==> (#[trigger] above[k]) is None || above[k] == Some(
                EntryKind::Directory,
            ),
    decreases above.len() - i,
{
    if i < above.len() {
        lemma_ancestors_fine(above, i + 1);
    }
}

/// A path is used exactly if the root is a real directory and everything above the path is one too,
/// or is not there yet.
pub proof fn law_path_is_reached_through_directories(
    root: EntryKind,
    above: Seq<Option<EntryKind>>,
)
    ensures
        destination_fault(root, above) is None <==> root == EntryKind::Directory && forall|k: int|
            0 <= k < above.len() ==> (#[trigger] above[k]) is None || above[k] == Some(
                EntryKind::Directory,
            ),
        above.len() > 0 && root == EntryKind::Directory && above[0] == Some(EntryKind::Symlink)
            ==> destination_fault(root, above) == Some(StoreError::BeneathSymlink),
{
    lemma_ancestors_fine(above, 0);
}

/// A file is put together in private exactly if its manifest is valid, the place can be reached
/// through directories, nobody but the owner may enter it, and nothing is at the path.
pub proof fn law_private_place_is_the_owners(
    manifest: ManifestView,
    root: EntryKind,
    mode: u32,
    above: Seq<Option<EntryKind>>,
    found: Option<EntryKind>,
)
    ensures
        private_fault(manifest, root, mode, above, found) is None <==> {
            &&& manifest_fault(manifest) is None
            &&& destination_fault(root, above) is None
            &&& mode & 0x3fu32 == 0
            &&& found is None
        },
{
    assert(mode % 64 == 0 <==> mode & 0x3fu32 == 0) by (bit_vector);
}

/// An object is seen exactly if it is a file, a directory or a symbolic link, was read as what it
/// is, was the one that was opened, and was the same before and after in all that the filesystem
/// says of when and what it is.
pub proof fn law_object_is_seen_if_it_stays(before: EntryFacts, after: EntryFacts, content: Content)
    ensures
        observing_fault(before, after, content) is None <==> {
            &&& match content {
                Content::File { opened, .. } => before.kind == EntryKind::File && opened
                    == before.identity,
                Content::Symlink { .. } => before.kind == EntryKind::Symlink,
                Content::Directory { .. } => before.kind == EntryKind::Directory,
            }
            &&& after.identity == before.identity
            &&& after.size == before.size
            &&& after.modified_ns == before.modified_ns
            &&& after.changed_ns == before.changed_ns
        },
        before.kind == EntryKind::Other ==> observing_fault(before, after, content) == Some(
            StoreError::UnsupportedObject,
        ),
        before.kind != EntryKind::Other && observing_fault(before, after, content) is Some
            ==> observing_fault(before, after, content) == Some(StoreError::ChangedWhileObserving),
{
}

/// What is seen of an object is what the filesystem said of it, its kind as a number, a size for
/// all but directories, and the digest of a file, or of where a link points.
pub proof fn law_sight_says_what_is_there(
    before: EntryFacts,
    after: EntryFacts,
    content: Content,
    sight: PathObservation,
)
    requires
        sees(before, after, content, sight),
    ensures
        sight.identity == before.identity,
        sight.modified_ns == before.modified_ns,
        sight.readonly == before.readonly,
        sight.kind == 0 <==> before.kind == EntryKind::File,
        sight.kind == 1 <==> before.kind == EntryKind::Directory,
        sight.kind == 2 <==> before.kind == EntryKind::Symlink,
        before.kind == EntryKind::Directory ==> sight.size == 0,
        before.kind != EntryKind::Directory ==> sight.size == before.size,
        match content {
            Content::File { hash, .. } => sight.hash@ == hash@,
            Content::Symlink { target } => sight.hash@ == blake3_digest(target@),
            Content::Directory { entries } => entries@.len() == 0 ==> sight.hash@ == blake3_digest(
                Seq::<u8>::empty(),
            ),
        },
{
    match content {
        Content::Directory { entries } => {
            if entries@.len() == 0 {
                crate::table::lemma_table_empty::<DirectoryEntry>();
                crate::table::lemma_listing(Seq::<DirectoryEntry>::empty());
            }
        },
        _ => {},
    }
}

/// A file that was put together is what its manifest says exactly if there is a file of that size
/// with that digest.
pub proof fn law_file_is_known_by_size_and_digest(
    sight: Option<PathObservation>,
    manifest: ManifestView,
)
    ensures
        sight_is_file(sight, manifest) <==> sight is Some && sight->0.kind == 0 && sight->0.size
            == manifest.size && sight->0.hash == manifest.file_hash,
{
}

/// What was seen is what a record says exactly if the record is not a deletion, both have the same
/// leave to write, and they are of one kind: for files also of one size and one digest.
pub proof fn law_record_describes_what_was_seen(seen: PathObservation, record: RecordView)
    ensures
        sight_matches(seen, record) <==> {
            &&& !record.tombstone
            &&& seen.readonly == record.readonly
            &&& record.kind == SyncEntryKind::File && seen.kind == 0 && seen.size == record.size
                && record.content_hash == Some(seen.hash) || record.kind
                == SyncEntryKind::Directory && seen.kind == 1 || record.kind
                == SyncEntryKind::Symlink && seen.kind == 2
        },
{
}

/// What is noted of an installed file is its digest and what the filesystem said of it.
pub proof fn law_installed_file_is_noted_as_it_is(facts: EntryFacts, hash: Hash32)
    ensures
        materialized(facts, hash).file_hash == hash,
        materialized(facts, hash).identity == facts.identity,
        materialized(facts, hash).size == facts.size,
        materialized(facts, hash).modified_ns == facts.modified_ns,
        materialized(facts, hash).changed_ns == facts.changed_ns,
        materialized(facts, hash).readonly == facts.readonly,
{
}

/// A change of the leave to write is accepted exactly if the file was the one that was noted, in
/// everything, and is still the same object of the same size that nobody has modified, with the
/// leave that was wanted.
pub proof fn law_only_the_leave_to_write_changes(
    held: MaterializationObservation,
    before: MaterializationObservation,
    after: MaterializationObservation,
    readonly: bool,
)
    ensures
        readonly_fault(held, before, after, readonly) is None <==> {
            &&& before.file_hash == held.file_hash
            &&& before.identity == held.identity
            &&& before.size == held.size
            &&& before.modified_ns == held.modified_ns
            &&& before.changed_ns == held.changed_ns
            &&& before.readonly == held.readonly
            &&& after.identity == held.identity
            &&& after.size == held.size
            &&& after.modified_ns == held.modified_ns
            &&& after.readonly == readonly
        },
{
}

} // verus!
