//! File manifests: a file as a sequence of content-addressed chunks.
use vstd::prelude::*;

use crate::hash::{blake3_derived, blake3_digest, le_bytes, push_bytes, push_le, Hash32};

verus! {

/// The manifest schema that this library reads and writes.
pub const MANIFEST_SCHEMA_V1: u16 = 1;

/// The chunk sizes that a file was split with.
#[derive(Clone, Copy, Debug, PartialEq, Eq, Structural)]
pub struct ChunkingProfile {
    pub minimum: u32,
    pub average: u32,
    pub maximum: u32,
}

impl Default for ChunkingProfile {
    fn default() -> (profile: Self)
        ensures
            profile.minimum == 0x4000,
            profile.average == 0x1_0000,
            profile.maximum == 0x4_0000,
    {
        ChunkingProfile { minimum: 0x4000, average: 0x1_0000, maximum: 0x4_0000 }
    }
}

/// One chunk of a file.
#[derive(Clone, Copy, Debug, PartialEq, Eq)]
pub struct ChunkDescriptor {
    pub offset: u64,
    pub length: u32,
    pub hash: Hash32,
}

/// A file as a sequence of chunks.
#[derive(Debug, PartialEq, Eq)]
pub struct FileManifest {
    pub schema_version: u16,
    pub size: u64,
    pub file_hash: Hash32,
    pub profile: ChunkingProfile,
    pub chunks: Vec<ChunkDescriptor>,
}

/// What a manifest says.
#[verifier::ext_equal]
pub struct ManifestView {
    pub schema_version: u16,
    pub size: u64,
    pub file_hash: Hash32,
    pub profile: ChunkingProfile,
    pub chunks: Seq<ChunkDescriptor>,
}

impl View for FileManifest {
    type V = ManifestView;

    open spec fn view(&self) -> ManifestView {
        ManifestView {
            schema_version: self.schema_version,
            size: self.size,
            file_hash: self.file_hash,
            profile: self.profile,
            chunks: self.chunks@,
        }
    }
}

/// Why a manifest breaks its schema.
#[derive(Clone, Copy, Debug, PartialEq, Eq, Structural)]
pub enum ManifestError {
    /// The schema version is not known.
    UnsupportedSchema,
    /// A chunk is empty, or does not start where the one before it ends.
    BrokenExtent,
    /// The chunks do not add up to the size of the file.
    SizeMismatch,
}

/// Why bytes are not the chunk that a descriptor describes.
#[derive(Clone, Copy, Debug, PartialEq, Eq, Structural)]
pub enum ChunkError {
    /// The length is another.
    LengthMismatch,
    /// The digest is another.
    HashMismatch,
}

/// The text of a chunk failure.
pub open spec fn chunk_error_text(error: ChunkError) -> Seq<char> {
    match error {
        ChunkError::LengthMismatch => "chunk length mismatch"@,
        ChunkError::HashMismatch => "chunk hash mismatch"@,
    }
}

impl ChunkError {
    /// The text that the failure is shown as.
    pub fn message(&self) -> (text: &'static str)
        ensures
            text@ == chunk_error_text(*self),
    {
        match self {
            ChunkError::LengthMismatch => "chunk length mismatch",
            ChunkError::HashMismatch => "chunk hash mismatch",
        }
    }
}

/// Where the first `n` chunks end.
pub open spec fn extent_end(chunks: Seq<ChunkDescriptor>, n: nat) -> int
    decreases n,
{
    if n == 0 {
        0
    } else {
        extent_end(chunks, (n - 1) as nat) + chunks[n - 1].length
    }
}

/// The chunk starts where the one before it ends, and is not empty.
pub open spec fn extent_holds(chunks: Seq<ChunkDescriptor>, i: int) -> bool {
    chunks[i].length > 0 && chunks[i].offset == extent_end(chunks, i as nat)
}

/// What is wrong with a manifest.
pub open spec fn manifest_fault(manifest: ManifestView) -> Option<ManifestError> {
    if manifest.schema_version != MANIFEST_SCHEMA_V1 {
        Some(ManifestError::UnsupportedSchema)
    } else if exists|i: int|
        0 <= i < manifest.chunks.len() && !#[trigger] extent_holds(manifest.chunks, i) {
        Some(ManifestError::BrokenExtent)
    } else if extent_end(manifest.chunks, manifest.chunks.len()) != manifest.size {
        Some(ManifestError::SizeMismatch)
    } else {
        None
    }
}

/// The bytes of chunk descriptors one behind the other.
pub open spec fn chunk_material(chunks: Seq<ChunkDescriptor>) -> Seq<u8>
    decreases chunks.len(),
{
    if chunks.len() == 0 {
        Seq::empty()
    } else {
        let last = chunks.last();
        chunk_material(chunks.drop_last()) + le_bytes(last.offset) + le_bytes(last.length as u64)
            + last.hash@
    }
}

/// The bytes that a manifest's digest is derived from.
pub open spec fn manifest_material(manifest: ManifestView) -> Seq<u8> {
    le_bytes(manifest.schema_version as u64) + le_bytes(manifest.size) + manifest.file_hash@
        + le_bytes(manifest.profile.minimum as u64) + le_bytes(manifest.profile.average as u64)
        + le_bytes(manifest.profile.maximum as u64) + le_bytes(manifest.chunks.len() as u64)
        + chunk_material(manifest.chunks)
}

/// The bytes of a manifest's digest.
pub open spec fn manifest_digest(manifest: ManifestView) -> Seq<u8> {
    blake3_derived("deltaweave file manifest v1"@, manifest_material(manifest))
}

/// What is wrong with bytes that should be a chunk.
pub open spec fn chunk_fault(descriptor: ChunkDescriptor, bytes: Seq<u8>) -> Option<ChunkError> {
    if bytes.len() != descriptor.length {
        Some(ChunkError::LengthMismatch)
    } else if blake3_digest(bytes) != descriptor.hash@ {
        Some(ChunkError::HashMismatch)
    } else {
        None
    }
}

/// Checks bytes against the descriptor of a chunk.
pub fn verify_chunk(descriptor: &ChunkDescriptor, bytes: &[u8]) -> (result: Result<(), ChunkError>)
    ensures
        match result {
            Ok(()) => chunk_fault(*descriptor, bytes@) is None,
            Err(error) => chunk_fault(*descriptor, bytes@) == Some(error),
        },
{
    if bytes.len() as u64 != descriptor.length as u64 {
        return Err(ChunkError::LengthMismatch);
    }
    let hash = Hash32::digest(bytes);
    proof {
        if hash@ == descriptor.hash@ {
            crate::hash::lemma_hash_view_injective(hash, descriptor.hash);
        }
    }
    if hash != descriptor.hash {
        return Err(ChunkError::HashMismatch);
    }
    Ok(())
}

impl Clone for FileManifest {
    fn clone(&self) -> (copy: Self)
        ensures
            copy@ == self@,
    {
        let mut chunks: Vec<ChunkDescriptor> = Vec::new();
        let mut i: usize = 0;
        while i < self.chunks.len()
            invariant
                i <= self.chunks@.len(),
                chunks@ == self.chunks@.take(i as int),
            decreases self.chunks@.len() - i,
        {
            chunks.push(self.chunks[i]);
            i = i + 1;
            assert(chunks@ =~= self.chunks@.take(i as int));
        }
        assert(chunks@ =~= self.chunks@);
        FileManifest {
            schema_version: self.schema_version,
            size: self.size,
            file_hash: self.file_hash,
            profile: self.profile,
            chunks,
        }
    }
}

impl FileManifest {
    /// Checks the manifest against its schema.
    pub fn validate(&self) -> (result: Result<(), ManifestError>)
        ensures
            match result {
                Ok(()) => manifest_fault(self@) is None,
                Err(error) => manifest_fault(self@) == Some(error),
            },
    {
        if self.schema_version != MANIFEST_SCHEMA_V1 {
            return Err(ManifestError::UnsupportedSchema);
        }
        let mut end: u64 = 0;
        let mut i: usize = 0;
        while i < self.chunks.len()
            invariant
                i <= self.chunks@.len(),
                self.schema_version == MANIFEST_SCHEMA_V1,
                end == extent_end(self.chunks@, i as nat),
                forall|k: int| 0 <= k < i ==> #[trigger] extent_holds(self.chunks@, k),
            decreases self.chunks@.len() - i,
        {
            let chunk = &self.chunks[i];
            if chunk.length == 0 || chunk.offset != end {
                assert(!extent_holds(self.chunks@, i as int));
                return Err(ManifestError::BrokenExtent);
            }
            assert(extent_holds(self.chunks@, i as int));
            if end > u64::MAX - chunk.length as u64 {
                // The next chunk cannot start where this one ends, and the size cannot be reached.
                proof {
                    lemma_extent_grows(self.chunks@, (i + 1) as nat, self.chunks@.len());
                }
                if i + 1 < self.chunks.len() {
                    assert(!extent_holds(self.chunks@, i + 1));
                    return Err(ManifestError::BrokenExtent);
                }
                return Err(ManifestError::SizeMismatch);
            }
            end = end + chunk.length as u64;
            i = i + 1;
        }
        if end != self.size {
            return Err(ManifestError::SizeMismatch);
        }
        Ok(())
    }

    /// The digest of everything the manifest says.
    pub fn manifest_hash(&self) -> (hash: Hash32)
        ensures
            hash@ == manifest_digest(self@),
    {
        let mut material: Vec<u8> = Vec::new();
        push_le(&mut material, self.schema_version as u64);
        push_le(&mut material, self.size);
        push_bytes(&mut material, self.file_hash.bytes.as_slice());
        push_le(&mut material, self.profile.minimum as u64);
        push_le(&mut material, self.profile.average as u64);
        push_le(&mut material, self.profile.maximum as u64);
        push_le(&mut material, self.chunks.len() as u64);
        let ghost head = material@;
        let mut i: usize = 0;
        assert(material@ =~= head + chunk_material(self.chunks@.take(0)));
        while i < self.chunks.len()
            invariant
                i <= self.chunks@.len(),
                material@ == head + chunk_material(self.chunks@.take(i as int)),
            decreases self.chunks@.len() - i,
        {
            push_le(&mut material, self.chunks[i].offset);
            push_le(&mut material, self.chunks[i].length as u64);
            push_bytes(&mut material, self.chunks[i].hash.bytes.as_slice());
            i = i + 1;
            proof {
                assert(self.chunks@.take(i as int).drop_last() =~= self.chunks@.take(i - 1));
                assert(material@ =~= head + chunk_material(self.chunks@.take(i as int)));
            }
        }
        proof {
            assert(self.chunks@.take(i as int) =~= self.chunks@);
            assert(material@ =~= manifest_material(self@));
        }
        Hash32::derive("deltaweave file manifest v1", material.as_slice())
    }

    /// Whether two manifests say the same.
    pub fn same(&self, other: &Self) -> (same: bool)
        ensures
            same == (self@ == other@),
    {
        if self.schema_version != other.schema_version || self.size != other.size || self.file_hash
            != other.file_hash || self.profile != other.profile || self.chunks.len()
            != other.chunks.len() {
            return false;
        }
        let mut i: usize = 0;
        while i < self.chunks.len()
            invariant
                i <= self.chunks@.len(),
                self.chunks@.len() == other.chunks@.len(),
                forall|k: int| 0 <= k < i ==> self.chunks@[k] == other.chunks@[k],
            decreases self.chunks@.len() - i,
        {
            if self.chunks[i].offset != other.chunks[i].offset || self.chunks[i].length
                != other.chunks[i].length || self.chunks[i].hash != other.chunks[i].hash {
                assert(self@.chunks[i as int] != other@.chunks[i as int]);
                return false;
            }
            i = i + 1;
        }
        assert(self.chunks@ =~= other.chunks@);
        true
    }
}

proof fn lemma_extent_grows(chunks: Seq<ChunkDescriptor>, n: nat, m: nat)
    requires
        n <= m,
    ensures
        extent_end(chunks, n) <= extent_end(chunks, m),
    decreases m,
{
    if n < m {
        lemma_extent_grows(chunks, n, (m - 1) as nat);
    }
}

} // verus!
