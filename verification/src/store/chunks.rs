//! Chunks under the names of their digests.
use vstd::prelude::*;

use crate::hash::{blake3_digest, hex_text, Hash32};
use crate::manifest::{chunk_fault, verify_chunk, ChunkDescriptor, FileManifest};
use crate::path::WirePath;
use crate::store::error::StoreError;
use crate::text::{append_number, append_text, decimal, utf8};

verus! {

/// The bytes of a chunk that were checked against its descriptor.
#[derive(Debug)]
pub struct VerifiedChunk {
    hash: Hash32,
    bytes: Vec<u8>,
}

/// What a checked chunk holds.
#[verifier::ext_equal]
pub struct ChunkView {
    pub hash: Hash32,
    pub bytes: Seq<u8>,
}

impl View for VerifiedChunk {
    type V = ChunkView;

    closed spec fn view(&self) -> ChunkView {
        ChunkView { hash: self.hash, bytes: self.bytes@ }
    }
}

impl VerifiedChunk {
    #[verifier::type_invariant]
    spec fn inv(&self) -> bool {
        blake3_digest(self.bytes@) == self.hash@
    }

    /// Checks bytes against a descriptor.
    pub fn validate(descriptor: &ChunkDescriptor, bytes: Vec<u8>) -> (chunk: Result<
        Self,
        StoreError,
    >)
        ensures
            match chunk {
                Ok(chunk) => chunk_fault(*descriptor, bytes@) is None && chunk@.hash
                    == descriptor.hash && chunk@.bytes == bytes@,
                Err(error) => chunk_fault(*descriptor, bytes@) is Some && error
                    == StoreError::Chunk(chunk_fault(*descriptor, bytes@)->0),
            },
    {
        match verify_chunk(descriptor, bytes.as_slice()) {
            Ok(()) => Ok(VerifiedChunk { hash: descriptor.hash, bytes }),
            Err(error) => Err(StoreError::Chunk(error)),
        }
    }

    /// The digest of the chunk.
    pub fn hash(&self) -> (hash: Hash32)
        ensures
            hash == self@.hash,
            blake3_digest(self@.bytes) == hash@,
    {
        proof {
            use_type_invariant(self);
        }
        self.hash
    }

    /// The bytes of the chunk.
    pub fn bytes(&self) -> (bytes: &[u8])
        ensures
            bytes@ == self@.bytes,
            blake3_digest(bytes@) == self@.hash@,
    {
        proof {
            use_type_invariant(self);
        }
        self.bytes.as_slice()
    }
}

/// Whether bytes have a digest.
fn has_digest(hash: &Hash32, bytes: &[u8]) -> (has: bool)
    ensures
        has == (blake3_digest(bytes@) == hash@),
{
    let actual = Hash32::digest(bytes);
    proof {
        if actual@ == hash@ {
            crate::hash::lemma_hash_view_injective(actual, *hash);
        }
    }
    actual == *hash
}

/// A path below a directory.
pub open spec fn below(directory: Seq<char>, name: Seq<char>) -> Seq<char> {
    directory + "/"@ + name
}

/// Joins a path to a directory.
pub fn join(directory: &str, name: &str) -> (path: String)
    ensures
        path@ == below(directory@, name@),
{
    let mut path: String = directory.to_owned();
    append_text(&mut path, "/");
    append_text(&mut path, name);
    path
}

/// The directories of a chunk store: the chunks, what is being written, and what was put away.
#[derive(Debug, PartialEq, Eq)]
pub struct ChunkStore {
    pub chunks: String,
    pub temporary: String,
    pub trash: String,
}

/// What is found at the place of a chunk.
pub enum ChunkFile<'a> {
    /// There is no file.
    Missing,
    /// There is a file that cannot be read.
    Unreadable,
    /// There is a file with these bytes.
    Holds(&'a [u8]),
}

/// What is done about the place of a chunk.
#[derive(Clone, Copy, Debug, PartialEq, Eq, Structural)]
pub enum InstallStep {
    /// The chunk is there.
    Keep,
    /// Something else is there. It is put away, and the chunk is written.
    Quarantine,
    /// Nothing is there. The chunk is written.
    Write,
}

/// The file is the chunk.
pub open spec fn is_chunk(hash: Hash32, file: ChunkFile) -> bool {
    match file {
        ChunkFile::Holds(bytes) => blake3_digest(bytes@) == hash@,
        _ => false,
    }
}

/// A chunk of a batch, and whether it was written.
#[derive(Clone, Copy, Debug, PartialEq, Eq)]
pub struct Installed {
    pub hash: Hash32,
    pub written: bool,
}

/// How many chunks were written.
pub open spec fn written_count(outcomes: Seq<Installed>) -> nat
    decreases outcomes.len(),
{
    if outcomes.len() == 0 {
        0
    } else {
        written_count(outcomes.drop_last()) + if outcomes.last().written {
            1nat
        } else {
            0
        }
    }
}

/// A chunk was written into the directory of this leading byte.
pub open spec fn touched(outcomes: Seq<Installed>, byte: u8) -> bool {
    exists|i: int|
        0 <= i < outcomes.len() && (#[trigger] outcomes[i]).written && outcomes[i].hash@[0] == byte
}

/// What a batch came to.
#[derive(Debug)]
pub struct BatchReport {
    /// How many chunks were written.
    pub written: usize,
    /// The leading bytes of their digests, each once and in order: the directories that have to
    /// reach the disk.
    pub parents: Vec<u8>,
}

/// The first chunk at or behind position `i` that does not have its digest.
pub open spec fn mislabeled_from(chunks: Seq<(Hash32, Vec<u8>)>, i: int) -> Option<int>
    decreases chunks.len() - i,
{
    if i < 0 || i >= chunks.len() {
        None
    } else if blake3_digest(chunks[i].1@) != chunks[i].0@ {
        Some(i)
    } else {
        mislabeled_from(chunks, i + 1)
    }
}

/// The digests of a manifest's first `n` chunks, each where it occurs first.
pub open spec fn distinct(manifest: Seq<ChunkDescriptor>, n: nat) -> Seq<Hash32>
    decreases n,
{
    if n == 0 {
        Seq::empty()
    } else {
        let before = distinct(manifest, (n - 1) as nat);
        let hash = manifest[n - 1].hash;
        if before.contains(hash) {
            before
        } else {
            before.push(hash)
        }
    }
}

fn lists(hashes: &Vec<Hash32>, hash: &Hash32) -> (listed: bool)
    ensures
        listed == hashes@.contains(*hash),
{
    let mut i: usize = 0;
    while i < hashes.len()
        invariant
            i <= hashes@.len(),
            forall|k: int| 0 <= k < i ==> hashes@[k] != *hash,
        decreases hashes@.len() - i,
    {
        if hashes[i] == *hash {
            assert(hashes@[i as int] == *hash);
            return true;
        }
        i = i + 1;
    }
    false
}

/// The digests of a manifest's chunks, each once, in the order of the file.
pub fn distinct_chunks(manifest: &FileManifest) -> (hashes: Vec<Hash32>)
    ensures
        hashes@ == distinct(manifest.chunks@, manifest.chunks@.len()),
{
    let mut hashes: Vec<Hash32> = Vec::new();
    let mut i: usize = 0;
    while i < manifest.chunks.len()
        invariant
            i <= manifest.chunks@.len(),
            hashes@ == distinct(manifest.chunks@, i as nat),
        decreases manifest.chunks@.len() - i,
    {
        let hash = manifest.chunks[i].hash;
        if !lists(&hashes, &hash) {
            hashes.push(hash);
        }
        i = i + 1;
    }
    hashes
}

/// The digests that are not among those that are held.
pub open spec fn not_held(hashes: Seq<Hash32>, held: Seq<Hash32>) -> Seq<Hash32> {
    hashes.filter(|hash: Hash32| !held.contains(hash))
}

/// The chunks of a manifest that are not among those that were read and found in order, each once,
/// in the order of the file.
pub fn missing_chunks(manifest: &FileManifest, held: &Vec<Hash32>) -> (missing: Vec<Hash32>)
    ensures
        missing@ == not_held(distinct(manifest.chunks@, manifest.chunks@.len()), held@),
{
    let hashes = distinct_chunks(manifest);
    let ghost wanted = |hash: Hash32| !held@.contains(hash);
    let mut missing: Vec<Hash32> = Vec::new();
    let mut i: usize = 0;
    proof {
        reveal(Seq::filter);
        assert(hashes@.take(0).filter(wanted) =~= Seq::empty());
    }
    while i < hashes.len()
        invariant
            i <= hashes@.len(),
            wanted == (|hash: Hash32| !held@.contains(hash)),
            missing@ == hashes@.take(i as int).filter(wanted),
        decreases hashes@.len() - i,
    {
        let hash = hashes[i];
        if !lists(held, &hash) {
            missing.push(hash);
        }
        i = i + 1;
        proof {
            reveal(Seq::filter);
            let more = hashes@.take(i as int);
            assert(more.drop_last() =~= hashes@.take(i - 1));
            assert(more.last() == hash);
        }
    }
    assert(hashes@.take(i as int) =~= hashes@);
    missing
}

/// The chunk is used in the manifest.
pub open spec fn is_used(chunks: Seq<ChunkDescriptor>, hash: Hash32) -> bool {
    exists|k: int| 0 <= k < chunks.len() && (#[trigger] chunks[k]).hash == hash
}

/// Two chunks are not the same, and the first of them is used before any use of the second.
pub open spec fn used_before(chunks: Seq<ChunkDescriptor>, first: Hash32, second: Hash32) -> bool {
    &&& first != second
    &&& forall|b: int|
        0 <= b < chunks.len() && (#[trigger] chunks[b]).hash == second ==> is_used(
            chunks.take(b),
            first,
        )
}

proof fn lemma_distinct(chunks: Seq<ChunkDescriptor>, n: nat)
    requires
        n <= chunks.len(),
    ensures
        forall|hash: Hash32| #[trigger]
            distinct(chunks, n).contains(hash) <==> is_used(chunks.take(n as int), hash),
        forall|i: int, j: int|
            0 <= i < j < distinct(chunks, n).len() ==> used_before(
                chunks.take(n as int),
                #[trigger] distinct(chunks, n)[i],
                #[trigger] distinct(chunks, n)[j],
            ),
    decreases n,
{
    if n > 0 {
        let m = (n - 1) as nat;
        let less = chunks.take(m as int);
        let more = chunks.take(n as int);
        let before = distinct(chunks, m);
        let all = distinct(chunks, n);
        let last = chunks[m as int].hash;
        lemma_distinct(chunks, m);
        assert forall|hash: Hash32| is_used(more, hash) == (is_used(less, hash) || hash
            == last) by {
            if is_used(more, hash) {
                let k = choose|k: int| 0 <= k < more.len() && (#[trigger] more[k]).hash == hash;
                if k < m {
                    assert(less[k].hash == hash);
                }
            }
            if is_used(less, hash) {
                let k = choose|k: int| 0 <= k < less.len() && (#[trigger] less[k]).hash == hash;
                assert(more[k].hash == hash);
            }
            if hash == last {
                assert(more[m as int].hash == hash);
            }
        }
        assert forall|hash: Hash32| #[trigger] all.contains(hash) <==> is_used(more, hash) by {
            if before.contains(hash) {
                let k = choose|k: int| 0 <= k < before.len() && before[k] == hash;
                assert(all[k] == hash);
            }
            if all.contains(hash) {
                let k = choose|k: int| 0 <= k < all.len() && all[k] == hash;
                if k < before.len() {
                    assert(before[k] == hash);
                }
            }
            if hash == last && !before.contains(last) {
                assert(all[before.len() as int] == last);
            }
        }
        assert forall|i: int, j: int| 0 <= i < j < all.len() implies used_before(
            more,
            #[trigger] all[i],
            #[trigger] all[j],
        ) by {
            assert(all[i] == before[i]);
            assert(before.contains(before[i]));
            assert forall|b: int|
                0 <= b < more.len() && (#[trigger] more[b]).hash == all[j] implies is_used(
                more.take(b),
                all[i],
            ) by {
                assert(more.take(b) =~= less.take(b));
                if b < m {
                    assert(less[b].hash == all[j]);
                    assert(before.contains(all[j])) by {
                        assert(is_used(less, all[j]));
                    }
                    let k = choose|k: int| 0 <= k < before.len() && before[k] == all[j];
                    if j < before.len() {
                        assert(used_before(less, before[i], before[j]));
                    }
                } else {
                    assert(less.take(b) =~= less);
                }
            }
            if j < before.len() {
                assert(used_before(less, before[i], before[j]));
            }
        }
    }
}

/// What holds of any two items of a list in their order holds of those that are kept.
proof fn lemma_kept_in_order(
    hashes: Seq<Hash32>,
    wanted: spec_fn(Hash32) -> bool,
    rule: spec_fn(Hash32, Hash32) -> bool,
)
    requires
        forall|i: int, j: int|
            0 <= i < j < hashes.len() ==> rule(#[trigger] hashes[i], #[trigger] hashes[j]),
    ensures
        forall|i: int, j: int|
            0 <= i < j < hashes.filter(wanted).len() ==> rule(
                #[trigger] hashes.filter(wanted)[i],
                #[trigger] hashes.filter(wanted)[j],
            ),
    decreases hashes.len(),
{
    reveal(Seq::filter);
    if hashes.len() > 0 {
        let less = hashes.drop_last();
        let last = hashes.last();
        let kept = less.filter(wanted);
        let all = hashes.filter(wanted);
        lemma_kept_in_order(less, wanted, rule);
        assert forall|i: int, j: int| 0 <= i < j < all.len() implies rule(
            #[trigger] all[i],
            #[trigger] all[j],
        ) by {
            assert(all[i] == kept[i]);
            if j < kept.len() {
                assert(all[j] == kept[j]);
            } else {
                assert(kept.contains(kept[i]));
                less.lemma_filter_contains_rev(wanted, kept[i]);
                let k = choose|k: int| 0 <= k < less.len() && less[k] == kept[i];
                assert(rule(hashes[k], hashes[hashes.len() - 1]));
            }
        }
    }
}

/// What is missing of a manifest is just what it uses and what is not held, no chunk twice, in the
/// order in which the file uses them first.
pub proof fn law_missing_chunks_in_order(chunks: Seq<ChunkDescriptor>, held: Seq<Hash32>)
    ensures
        ({
            let missing = not_held(distinct(chunks, chunks.len()), held);
            &&& missing.no_duplicates()
            &&& forall|hash: Hash32| #[trigger]
                missing.contains(hash) <==> is_used(chunks, hash) && !held.contains(hash)
            &&& forall|i: int, j: int|
                0 <= i < j < missing.len() ==> used_before(
                    chunks,
                    #[trigger] missing[i],
                    #[trigger] missing[j],
                )
        }),
{
    let all = distinct(chunks, chunks.len());
    let missing = not_held(all, held);
    let wanted = |hash: Hash32| !held.contains(hash);
    let rule = |first: Hash32, second: Hash32| used_before(chunks, first, second);
    lemma_distinct(chunks, chunks.len());
    assert(chunks.take(chunks.len() as int) =~= chunks);
    assert(missing == all.filter(wanted));
    lemma_kept_in_order(all, wanted, rule);
    assert forall|i: int, j: int| 0 <= i < j < missing.len() implies used_before(
        chunks,
        #[trigger] missing[i],
        #[trigger] missing[j],
    ) by {
        assert(rule(missing[i], missing[j]));
    }
    assert forall|hash: Hash32| #[trigger] missing.contains(hash) <==> is_used(chunks, hash)
        && !held.contains(hash) by {
        if missing.contains(hash) {
            let i = choose|i: int| 0 <= i < missing.len() && missing[i] == hash;
            all.lemma_filter_pred(wanted, i);
            all.lemma_filter_contains_rev(wanted, hash);
        }
        if is_used(chunks, hash) && !held.contains(hash) {
            assert(all.contains(hash));
            let k = choose|k: int| 0 <= k < all.len() && all[k] == hash;
            all.lemma_filter_contains(wanted, k);
        }
    }
}

/// The name that is written while a chunk comes in, or that a corrupt one is put away under.
pub open spec fn unique_name(kind: Seq<char>, process: u32, hash: Hash32, sequence: u64) -> Seq<
    char,
> {
    kind + "-"@ + decimal(process as nat) + "-"@ + hex_text(hash@) + "-"@ + decimal(sequence as nat)
        + ".part"@
}

impl ChunkStore {
    /// The directories of a store under its state directory.
    pub fn under(state_root: &str) -> (store: Self)
        ensures
            store.chunks@ == below(state_root@, "chunks"@),
            store.temporary@ == below(state_root@, "tmp"@),
            store.trash@ == below(state_root@, "trash"@),
    {
        ChunkStore {
            chunks: join(state_root, "chunks"),
            temporary: join(state_root, "tmp"),
            trash: join(state_root, "trash"),
        }
    }

    /// The directory and the name of a chunk: the first two hexadecimal digits of its digest, and
    /// the others.
    pub fn chunk_place(&self, hash: &Hash32) -> (place: (String, String))
        ensures
            place.0@ == below(self.chunks@, hex_text(hash@).take(2)),
            place.1@ == hex_text(hash@).skip(2),
    {
        let encoded = hash.to_hex();
        proof {
            crate::hash::lemma_hex_length(hash@);
            assert(hex_text(hash@).len() == 64);
        }
        let head = encoded.as_str().substring_ascii(0, 2);
        let tail = encoded.as_str().substring_ascii(2, 64);
        assert(head@ =~= hex_text(hash@).take(2));
        assert(tail@ =~= hex_text(hash@).skip(2));
        (join(self.chunks.as_str(), head), tail.to_owned())
    }

    /// The path of a chunk.
    pub fn chunk_path(&self, hash: &Hash32) -> (path: String)
        ensures
            path@ == below(
                below(self.chunks@, hex_text(hash@).take(2)),
                hex_text(hash@).skip(2),
            ),
    {
        let place = self.chunk_place(hash);
        join(place.0.as_str(), place.1.as_str())
    }

    /// A name that no other process and no other call uses.
    pub fn unique_path(
        &self,
        root: &str,
        kind: &str,
        process: u32,
        hash: &Hash32,
        sequence: u64,
    ) -> (path: String)
        ensures
            path@ == below(root@, unique_name(kind@, process, *hash, sequence)),
    {
        let mut name: String = kind.to_owned();
        append_text(&mut name, "-");
        append_number(&mut name, process as u64);
        append_text(&mut name, "-");
        append_text(&mut name, hash.to_hex().as_str());
        append_text(&mut name, "-");
        append_number(&mut name, sequence);
        append_text(&mut name, ".part");
        assert(name@ =~= unique_name(kind@, process, *hash, sequence));
        join(root, name.as_str())
    }

    /// The path under which a file of the folder is put away.
    pub fn trash_path(&self, path: &WirePath, manifest_hash: &Hash32, sequence: u64) -> (kept:
        String)
        ensures
            utf8(kept@) == utf8(
                below(
                    self.trash@,
                    "replace-"@ + hex_text(manifest_hash@) + "-"@ + decimal(sequence as nat),
                ) + "/"@,
            ) + path@,
    {
        let mut name: String = "replace-".to_owned();
        append_text(&mut name, manifest_hash.to_hex().as_str());
        append_text(&mut name, "-");
        append_number(&mut name, sequence);
        let mut kept = join(self.trash.as_str(), name.as_str());
        append_text(&mut kept, "/");
        append_text(&mut kept, path.as_str());
        kept
    }

    /// Checks bytes that are offered under a digest, before anything is written.
    pub fn put_verified(hash: &Hash32, bytes: &[u8]) -> (result: Result<(), StoreError>)
        ensures
            match result {
                Ok(()) => blake3_digest(bytes@) == hash@,
                Err(error) => blake3_digest(bytes@) != hash@ && error
                    == StoreError::MislabeledChunk,
            },
    {
        if has_digest(hash, bytes) {
            Ok(())
        } else {
            Err(StoreError::MislabeledChunk)
        }
    }

    /// Checks all chunks of a batch before any of them is written.
    pub fn put_verified_batch(chunks: &Vec<(Hash32, Vec<u8>)>) -> (result: Result<(), StoreError>)
        ensures
            match result {
                Ok(()) => mislabeled_from(chunks@, 0) is None,
                Err(error) => mislabeled_from(chunks@, 0) is Some && error
                    == StoreError::MislabeledChunk,
            },
    {
        let mut i: usize = 0;
        while i < chunks.len()
            invariant
                i <= chunks@.len(),
                mislabeled_from(chunks@, 0) == mislabeled_from(chunks@, i as int),
            decreases chunks@.len() - i,
        {
            if !has_digest(&chunks[i].0, chunks[i].1.as_slice()) {
                return Err(StoreError::MislabeledChunk);
            }
            i = i + 1;
        }
        Ok(())
    }

    /// Checks a chunk that was read against the digest that it is kept under.
    pub fn read_verified(hash: &Hash32, bytes: Vec<u8>) -> (chunk: Result<Vec<u8>, StoreError>)
        ensures
            match chunk {
                Ok(chunk) => chunk == bytes && blake3_digest(bytes@) == hash@,
                Err(error) => blake3_digest(bytes@) != hash@ && error == StoreError::CorruptChunk,
            },
    {
        if has_digest(hash, bytes.as_slice()) {
            Ok(bytes)
        } else {
            Err(StoreError::CorruptChunk)
        }
    }

    /// What is done about the place of a chunk.
    pub fn install_step(hash: &Hash32, found: &ChunkFile) -> (step: InstallStep)
        ensures
            step == (if *found is Missing {
                InstallStep::Write
            } else if is_chunk(*hash, *found) {
                InstallStep::Keep
            } else {
                InstallStep::Quarantine
            }),
    {
        match found {
            ChunkFile::Missing => InstallStep::Write,
            ChunkFile::Unreadable => InstallStep::Quarantine,
            ChunkFile::Holds(bytes) => if has_digest(hash, bytes) {
                InstallStep::Keep
            } else {
                InstallStep::Quarantine
            },
        }
    }

    /// What a chunk that could not be moved to its place comes to: somebody else may have put it
    /// there.
    pub fn after_race(hash: &Hash32, found: &ChunkFile) -> (result: Result<(), StoreError>)
        ensures
            match result {
                Ok(()) => is_chunk(*hash, *found),
                Err(error) => !is_chunk(*hash, *found) && error == (if *found is Missing {
                    StoreError::NotInstalled
                } else {
                    StoreError::CorruptChunk
                }),
            },
    {
        match found {
            ChunkFile::Missing => Err(StoreError::NotInstalled),
            ChunkFile::Unreadable => Err(StoreError::CorruptChunk),
            ChunkFile::Holds(bytes) => if has_digest(hash, bytes) {
                Ok(())
            } else {
                Err(StoreError::CorruptChunk)
            },
        }
    }

    /// What a batch came to, as far as it got.
    pub fn batch_report(outcomes: &Vec<Installed>) -> (report: BatchReport)
        ensures
            report.written == written_count(outcomes@),
            forall|byte: u8| report.parents@.contains(byte) == touched(outcomes@, byte),
            forall|i: int, j: int|
                0 <= i < j < report.parents@.len() ==> report.parents@[i] < report.parents@[j],
    {
        let mut marks: [bool; 256] = [false; 256];
        let mut written: usize = 0;
        let mut i: usize = 0;
        while i < outcomes.len()
            invariant
                i <= outcomes@.len(),
                written <= i,
                written == written_count(outcomes@.take(i as int)),
                forall|byte: u8| #[trigger]
                    marks@[byte as int] == touched(outcomes@.take(i as int), byte),
            decreases outcomes@.len() - i,
        {
            let ghost before = outcomes@.take(i as int);
            let ghost marked = marks@;
            let byte: u8 = outcomes[i].hash.bytes[0];
            if outcomes[i].written {
                written = written + 1;
                marks[byte as usize] = true;
            }
            i = i + 1;
            proof {
                let more = outcomes@.take(i as int);
                assert(more.drop_last() =~= before);
                assert(more.last() == outcomes@[i - 1]);
                assert forall|b: u8| #[trigger] marks@[b as int] == touched(more, b) by {
                    assert(marked[b as int] == touched(before, b));
                    if touched(before, b) {
                        let k = choose|k: int|
                            0 <= k < before.len() && (#[trigger] before[k]).written
                                && before[k].hash@[0] == b;
                        assert(more[k] == before[k]);
                    }
                    if touched(more, b) {
                        let k = choose|k: int|
                            0 <= k < more.len() && (#[trigger] more[k]).written && more[k].hash@[0]
                                == b;
                        if k < i - 1 {
                            assert(before[k] == more[k]);
                        }
                    }
                    if more[i - 1].written {
                        assert(touched(more, byte));
                    }
                }
            }
        }
        assert(outcomes@.take(i as int) =~= outcomes@);
        let mut parents: Vec<u8> = Vec::new();
        let mut byte: usize = 0;
        while byte < 256
            invariant
                byte <= 256,
                forall|b: u8| #[trigger] marks@[b as int] == touched(outcomes@, b),
                forall|b: u8|
                    parents@.contains(b) == (b < byte && #[trigger] touched(outcomes@, b)),
                forall|x: int| 0 <= x < parents@.len() ==> #[trigger] parents@[x] < byte,
                forall|x: int, y: int|
                    0 <= x < y < parents@.len() ==> parents@[x] < parents@[y],
            decreases 256 - byte,
        {
            let ghost before = parents@;
            if marks[byte] {
                parents.push(byte as u8);
            }
            proof {
                assert forall|b: u8|
                    parents@.contains(b) == (b < byte + 1 && #[trigger] touched(outcomes@, b)) by {
                    assert(before.contains(b) == (b < byte && touched(outcomes@, b)));
                    assert(marks@[b as int] == touched(outcomes@, b));
                    if before.contains(b) {
                        let k = choose|k: int| 0 <= k < before.len() && before[k] == b;
                        assert(parents@[k] == b);
                    }
                    if b == byte && touched(outcomes@, b) {
                        assert(parents@[parents@.len() - 1] == b);
                    }
                    if parents@.contains(b) && !before.contains(b) {
                        let k = choose|k: int| 0 <= k < parents@.len() && parents@[k] == b;
                        if k < before.len() {
                            assert(before[k] == b);
                        }
                    }
                }
            }
            byte = byte + 1;
        }
        BatchReport { written, parents }
    }
}

/// Every chunk of a batch that passes its check has the digest that it is offered under.
pub proof fn law_checked_batch_is_verified(chunks: Seq<(Hash32, Vec<u8>)>, i: int)
    requires
        mislabeled_from(chunks, 0) is None,
        0 <= i < chunks.len(),
    ensures
        blake3_digest(chunks[i].1@) == chunks[i].0@,
{
    lemma_batch_checked(chunks, 0, i);
}

proof fn lemma_batch_checked(chunks: Seq<(Hash32, Vec<u8>)>, from: int, i: int)
    requires
        mislabeled_from(chunks, from) is None,
        0 <= from <= i < chunks.len(),
    ensures
        blake3_digest(chunks[i].1@) == chunks[i].0@,
    decreases i - from,
{
    if from < i {
        lemma_batch_checked(chunks, from + 1, i);
    }
}

} // verus!
