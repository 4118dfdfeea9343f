//! Sync records: the versioned state of one path.
use vstd::prelude::*;

use crate::hash::{
    blake3_derived, le_bytes, lemma_hash_view_injective, lemma_le_bytes_injective,
    lemma_same_parts, push_bytes, push_le, Hash32,
};
use crate::path::{path_fault, WirePath};
use crate::table::{ascending, Keyed};
use crate::version::{
    all_positive, counters, lemma_listed, listed, Counters, VersionEntry, VersionVector,
};

verus! {

/// The record schema that this library reads and writes.
pub const SYNC_RECORD_SCHEMA_V1: u16 = 1;

/// What kind of object a path names.
#[derive(Clone, Copy, Debug, PartialEq, Eq, Structural, Hash)]
pub enum SyncEntryKind {
    File,
    Directory,
    Symlink,
    Other,
}

/// The byte that stands for a kind.
pub open spec fn kind_code(kind: SyncEntryKind) -> u8 {
    match kind {
        SyncEntryKind::File => 0,
        SyncEntryKind::Directory => 1,
        SyncEntryKind::Symlink => 2,
        SyncEntryKind::Other => 3,
    }
}

/// The byte that stands for a truth value.
pub open spec fn flag_code(flag: bool) -> u8 {
    if flag {
        1
    } else {
        0
    }
}

/// The bytes that stand for an optional digest.
pub open spec fn digest_code(digest: Option<Hash32>) -> Seq<u8> {
    match digest {
        Some(digest) => seq![1u8] + digest@,
        None => seq![0u8],
    }
}

/// The versioned state of one path.
#[derive(Debug, PartialEq, Eq)]
pub struct SyncRecord {
    pub schema_version: u16,
    pub path: WirePath,
    pub kind: SyncEntryKind,
    pub size: u64,
    pub content_hash: Option<Hash32>,
    pub readonly: bool,
    pub version: VersionVector,
    pub tombstone: bool,
}

/// What a sync record says.
#[verifier::ext_equal]
pub struct RecordView {
    pub schema_version: u16,
    pub path: Seq<u8>,
    pub kind: SyncEntryKind,
    pub size: u64,
    pub content_hash: Option<Hash32>,
    pub readonly: bool,
    pub version: Counters,
    pub tombstone: bool,
}

/// Why a record breaks its schema.
#[derive(Clone, Copy, Debug, PartialEq, Eq, Structural)]
pub enum SyncRecordError {
    /// The schema version is not known.
    UnsupportedSchema,
    /// A live file has no content digest.
    MissingContentHash,
    /// A live directory has a size or a content digest.
    UnexpectedContent,
}

/// What is wrong with a record.
pub open spec fn record_fault(record: RecordView) -> Option<SyncRecordError> {
    if record.schema_version != SYNC_RECORD_SCHEMA_V1 {
        Some(SyncRecordError::UnsupportedSchema)
    } else if !record.tombstone && record.kind == SyncEntryKind::File && record.content_hash
        is None {
        Some(SyncRecordError::MissingContentHash)
    } else if !record.tombstone && record.kind == SyncEntryKind::Directory && (record.size != 0
        || record.content_hash is Some) {
        Some(SyncRecordError::UnexpectedContent)
    } else {
        None
    }
}

/// The two records say the same of the object at the path, whatever their versions.
pub open spec fn same_object(a: RecordView, b: RecordView) -> bool {
    &&& a.kind == b.kind
    &&& a.size == b.size
    &&& a.content_hash == b.content_hash
    &&& a.readonly == b.readonly
    &&& a.tombstone == b.tombstone
}

/// The bytes of version entries one behind the other.
pub open spec fn entry_bytes(entries: Seq<VersionEntry>) -> Seq<u8>
    decreases entries.len(),
{
    if entries.len() == 0 {
        Seq::empty()
    } else {
        entry_bytes(entries.drop_last()) + entries.last().replica@ + le_bytes(
            entries.last().counter,
        )
    }
}

/// The bytes that a record's logical digest is derived from: every field, each with its length
/// where that is not fixed.
pub open spec fn record_material(record: RecordView) -> Seq<u8> {
    le_bytes(record.schema_version as u64) + le_bytes(record.path.len() as u64) + record.path
        + seq![kind_code(record.kind)] + le_bytes(record.size) + digest_code(record.content_hash)
        + seq![flag_code(record.readonly), flag_code(record.tombstone)] + le_bytes(
        listed(record.version).len() as u64,
    ) + entry_bytes(listed(record.version))
}

/// The bytes of a record's logical digest.
pub open spec fn logical_digest(record: RecordView) -> Seq<u8> {
    blake3_derived("deltaweave sync record v1"@, record_material(record))
}

/// The record is one that a device can hold: its path is portable, and its version lists counters.
pub open spec fn is_held(record: RecordView) -> bool {
    &&& path_fault(record.path) is None
    &&& ascending(listed(record.version))
    &&& all_positive(listed(record.version))
    &&& counters(listed(record.version)) == record.version
    &&& listed(record.version).len() <= u64::MAX
}

proof fn lemma_entry_bytes_len(entries: Seq<VersionEntry>)
    ensures
        entry_bytes(entries).len() == 40 * entries.len(),
    decreases entries.len(),
{
    if entries.len() > 0 {
        lemma_entry_bytes_len(entries.drop_last());
    }
}

/// The bytes of version entries fix them.
proof fn lemma_entry_bytes_injective(a: Seq<VersionEntry>, b: Seq<VersionEntry>)
    requires
        a.len() == b.len(),
        entry_bytes(a) == entry_bytes(b),
    ensures
        a == b,
    decreases a.len(),
{
    if a.len() > 0 {
        let x = a.drop_last();
        let y = b.drop_last();
        lemma_entry_bytes_len(x);
        lemma_entry_bytes_len(y);
        let p = a.last();
        let q = b.last();
        assert(entry_bytes(a) =~= entry_bytes(x) + (p.replica@ + le_bytes(p.counter)));
        assert(entry_bytes(b) =~= entry_bytes(y) + (q.replica@ + le_bytes(q.counter)));
        lemma_same_parts(
            entry_bytes(x),
            p.replica@ + le_bytes(p.counter),
            entry_bytes(y),
            q.replica@ + le_bytes(q.counter),
        );
        lemma_same_parts(p.replica@, le_bytes(p.counter), q.replica@, le_bytes(q.counter));
        lemma_entry_bytes_injective(x, y);
        lemma_hash_view_injective(p.replica.0, q.replica.0);
        lemma_le_bytes_injective(p.counter, q.counter);
        assert(a =~= x.push(p));
        assert(b =~= y.push(q));
    } else {
        assert(a =~= b);
    }
}

/// Nine byte strings one behind the other, taken from either end.
pub proof fn lemma_nested(
    a: Seq<u8>,
    b: Seq<u8>,
    c: Seq<u8>,
    d: Seq<u8>,
    e: Seq<u8>,
    f: Seq<u8>,
    g: Seq<u8>,
    h: Seq<u8>,
    i: Seq<u8>,
)
    ensures
        a + b + c + d + e + f + g + h + i == a + (b + (c + (d + (e + (f + (g + (h + i))))))),
{
    assert(a + b + c + d + e + f + g + h + i =~= a + b + c + d + e + f + g + (h + i));
    let hi = h + i;
    assert(a + b + c + d + e + f + g + hi =~= a + b + c + d + e + f + (g + hi));
    let gi = g + hi;
    assert(a + b + c + d + e + f + gi =~= a + b + c + d + e + (f + gi));
    let fi = f + gi;
    assert(a + b + c + d + e + fi =~= a + b + c + d + (e + fi));
    let ei = e + fi;
    assert(a + b + c + d + ei =~= a + b + c + (d + ei));
    let di = d + ei;
    assert(a + b + c + di =~= a + b + (c + di));
    let ci = c + di;
    assert(a + b + ci =~= a + (b + ci));
}

/// Where nine byte strings one behind the other are the same as nine others, and each first string
/// says how long the next are, they are the same one by one.
proof fn lemma_same_nine(a: Seq<Seq<u8>>, b: Seq<Seq<u8>>)
    requires
        a.len() == 9,
        b.len() == 9,
        a[0] + a[1] + a[2] + a[3] + a[4] + a[5] + a[6] + a[7] + a[8] == b[0] + b[1] + b[2] + b[3]
            + b[4] + b[5] + b[6] + b[7] + b[8],
        a[0].len() == b[0].len(),
        a[1].len() == b[1].len(),
        a[1] == b[1] ==> a[2].len() == b[2].len(),
        a[3].len() == b[3].len(),
        a[4].len() == b[4].len(),
        a[5].len() > 0,
        b[5].len() > 0,
        a[5][0] == b[5][0] ==> a[5].len() == b[5].len(),
        a[6].len() == b[6].len(),
        a[7].len() == b[7].len(),
    ensures
        a == b,
{
    lemma_nested(a[0], a[1], a[2], a[3], a[4], a[5], a[6], a[7], a[8]);
    lemma_nested(b[0], b[1], b[2], b[3], b[4], b[5], b[6], b[7], b[8]);
    let (a7, b7) = (a[7] + a[8], b[7] + b[8]);
    let (a6, b6) = (a[6] + a7, b[6] + b7);
    let (a5, b5) = (a[5] + a6, b[5] + b6);
    let (a4, b4) = (a[4] + a5, b[4] + b5);
    let (a3, b3) = (a[3] + a4, b[3] + b4);
    let (a2, b2) = (a[2] + a3, b[2] + b3);
    let (a1, b1) = (a[1] + a2, b[1] + b2);
    lemma_same_parts(a[0], a1, b[0], b1);
    lemma_same_parts(a[1], a2, b[1], b2);
    lemma_same_parts(a[2], a3, b[2], b3);
    lemma_same_parts(a[3], a4, b[3], b4);
    lemma_same_parts(a[4], a5, b[4], b5);
    assert(a5[0] == a[5][0] && b5[0] == b[5][0]);
    lemma_same_parts(a[5], a6, b[5], b6);
    lemma_same_parts(a[6], a7, b[6], b7);
    lemma_same_parts(a[7], a[8], b[7], b[8]);
    assert(a =~= b);
}

/// The parts of a record's bytes.
spec fn material_parts(record: RecordView) -> Seq<Seq<u8>> {
    seq![
        le_bytes(record.schema_version as u64),
        le_bytes(record.path.len() as u64),
        record.path,
        seq![kind_code(record.kind)],
        le_bytes(record.size),
        digest_code(record.content_hash),
        seq![flag_code(record.readonly), flag_code(record.tombstone)],
        le_bytes(listed(record.version).len() as u64),
        entry_bytes(listed(record.version)),
    ]
}

/// The bytes that the logical digest is derived from leave nothing of a record out: they fix it.
pub proof fn law_material_fixes_the_record(a: RecordView, b: RecordView)
    requires
        is_held(a),
        is_held(b),
        record_material(a) == record_material(b),
    ensures
        a == b,
{
    let (p, q) = (material_parts(a), material_parts(b));
    let (x, y) = (listed(a.version), listed(b.version));
    if p[1] == q[1] {
        lemma_le_bytes_injective(a.path.len() as u64, b.path.len() as u64);
    }
    lemma_same_nine(p, q);
    assert(p[0] == q[0] && p[2] == q[2] && p[4] == q[4] && p[7] == q[7] && p[8] == q[8]);
    lemma_le_bytes_injective(a.schema_version as u64, b.schema_version as u64);
    assert(p[3][0] == q[3][0]);
    lemma_le_bytes_injective(a.size, b.size);
    assert(p[5] == q[5]);
    assert(p[5][0] == q[5][0]);
    if a.content_hash is Some {
        let (m, n) = (a.content_hash->0, b.content_hash->0);
        assert(m@ =~= p[5].skip(1));
        assert(n@ =~= q[5].skip(1));
        lemma_hash_view_injective(m, n);
    }
    assert(p[6] == q[6]);
    assert(p[6][0] == q[6][0] && p[6][1] == q[6][1]);
    lemma_le_bytes_injective(x.len() as u64, y.len() as u64);
    lemma_entry_bytes_injective(x, y);
    assert(a =~= b);
}

impl View for SyncRecord {
    type V = RecordView;

    open spec fn view(&self) -> RecordView {
        RecordView {
            schema_version: self.schema_version,
            path: self.path@,
            kind: self.kind,
            size: self.size,
            content_hash: self.content_hash,
            readonly: self.readonly,
            version: self.version@,
            tombstone: self.tombstone,
        }
    }
}

impl Keyed for SyncRecord {
    open spec fn key(&self) -> Seq<u8> {
        self.path@
    }

    fn key_bytes(&self) -> (bytes: &[u8]) {
        self.path.key_bytes()
    }
}

impl Clone for SyncRecord {
    fn clone(&self) -> (copy: Self)
        ensures
            copy@ == self@,
    {
        SyncRecord {
            schema_version: self.schema_version,
            path: self.path.clone(),
            kind: self.kind,
            size: self.size,
            content_hash: self.content_hash,
            readonly: self.readonly,
            version: self.version.clone(),
            tombstone: self.tombstone,
        }
    }
}

/// Appends the bytes of an optional digest.
pub fn push_digest(out: &mut Vec<u8>, digest: &Option<Hash32>)
    ensures
        final(out)@ == old(out)@ + digest_code(*digest),
{
    match digest {
        Some(digest) => {
            out.push(1);
            push_bytes(out, digest.bytes.as_slice());
            assert(out@ =~= old(out)@ + (seq![1u8] + digest@));
        },
        None => {
            out.push(0);
            assert(out@ =~= old(out)@ + seq![0u8]);
        },
    }
}

/// The byte that stands for a kind.
pub fn kind_byte(kind: SyncEntryKind) -> (code: u8)
    ensures
        code == kind_code(kind),
{
    match kind {
        SyncEntryKind::File => 0,
        SyncEntryKind::Directory => 1,
        SyncEntryKind::Symlink => 2,
        SyncEntryKind::Other => 3,
    }
}

/// The byte that stands for a truth value.
pub fn flag_byte(flag: bool) -> (code: u8)
    ensures
        code == flag_code(flag),
{
    if flag {
        1
    } else {
        0
    }
}

fn push_entries(out: &mut Vec<u8>, entries: &Vec<VersionEntry>)
    ensures
        final(out)@ == old(out)@ + entry_bytes(entries@),
{
    let mut i: usize = 0;
    assert(out@ =~= old(out)@ + entry_bytes(entries@.take(0)));
    while i < entries.len()
        invariant
            i <= entries@.len(),
            out@ == old(out)@ + entry_bytes(entries@.take(i as int)),
        decreases entries@.len() - i,
    {
        push_bytes(out, entries[i].replica.0.bytes.as_slice());
        push_le(out, entries[i].counter);
        i = i + 1;
        proof {
            let now = entries@.take(i as int);
            assert(now.drop_last() =~= entries@.take(i - 1));
            assert(out@ =~= old(out)@ + entry_bytes(now));
        }
    }
    assert(entries@.take(i as int) =~= entries@);
}

impl SyncRecord {
    /// Checks the record against its schema.
    pub fn validate(&self) -> (result: Result<(), SyncRecordError>)
        ensures
            match result {
                Ok(()) => record_fault(self@) is None,
                Err(error) => record_fault(self@) == Some(error),
            },
    {
        if self.schema_version != SYNC_RECORD_SCHEMA_V1 {
            return Err(SyncRecordError::UnsupportedSchema);
        }
        if !self.tombstone && self.kind == SyncEntryKind::File && self.content_hash.is_none() {
            return Err(SyncRecordError::MissingContentHash);
        }
        if !self.tombstone && self.kind == SyncEntryKind::Directory && (self.size != 0
            || self.content_hash.is_some()) {
            return Err(SyncRecordError::UnexpectedContent);
        }
        Ok(())
    }

    /// The digest of everything the record says.
    pub fn logical_hash(&self) -> (hash: Hash32)
        ensures
            hash@ == logical_digest(self@),
            is_held(self@),
    {
        let path = self.path.as_str().as_bytes();
        let entries = self.version.entries();
        proof {
            lemma_listed(entries@);
        }
        let mut material: Vec<u8> = Vec::new();
        push_le(&mut material, self.schema_version as u64);
        push_le(&mut material, path.len() as u64);
        push_bytes(&mut material, path);
        material.push(kind_byte(self.kind));
        push_le(&mut material, self.size);
        push_digest(&mut material, &self.content_hash);
        material.push(flag_byte(self.readonly));
        material.push(flag_byte(self.tombstone));
        push_le(&mut material, entries.len() as u64);
        push_entries(&mut material, entries);
        assert(material@ =~= record_material(self@));
        Hash32::derive("deltaweave sync record v1", material.as_slice())
    }

    /// Whether two records say the same of the object at the path, whatever their versions.
    pub fn same_state(&self, other: &SyncRecord) -> (same: bool)
        ensures
            same == same_object(self@, other@),
    {
        self.kind == other.kind && self.size == other.size && self.content_hash
            == other.content_hash && self.readonly == other.readonly && self.tombstone
            == other.tombstone
    }

    /// Whether two records say the same.
    pub fn same(&self, other: &SyncRecord) -> (same: bool)
        ensures
            same == (self@ == other@),
    {
        self.schema_version == other.schema_version && self.path.same(&other.path)
            && self.same_state(other) && self.version.same(&other.version)
    }
}

} // verus!
