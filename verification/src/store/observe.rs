//! What is seen of the objects in a folder, without following symbolic links.
use vstd::prelude::*;

use crate::hash::{blake3_digest, push_bytes, ContentHasher, Hash32};
use crate::manifest::{FileManifest, ManifestView};
use crate::record::{flag_byte, flag_code, RecordView, SyncEntryKind, SyncRecord};
use crate::share::codec::{push_number, push_wide, varint};
use crate::store::error::StoreError;
use crate::table::{ascending, lemma_table_empty, put, table, Keyed};

verus! {

/// What kind of object is at a path.
#[derive(Clone, Copy, Debug, PartialEq, Eq, Structural)]
pub enum EntryKind {
    File,
    Directory,
    Symlink,
    Other,
}

/// What the filesystem says of an object.
#[derive(Clone, Copy, Debug, PartialEq, Eq)]
pub struct EntryFacts {
    pub kind: EntryKind,
    /// Device and number of the object, where the filesystem tells them.
    pub identity: Option<(u64, u64)>,
    pub size: u64,
    pub modified_ns: Option<u128>,
    pub changed_ns: Option<u128>,
    pub readonly: bool,
}

/// The identity of an object. Number zero says nothing.
pub fn identity_of(device: u64, number: u64) -> (identity: Option<(u64, u64)>)
    ensures
        identity == (if number == 0 {
            None::<(u64, u64)>
        } else {
            Some((device, number))
        }),
{
    if number == 0 {
        None
    } else {
        Some((device, number))
    }
}

/// A time in nanoseconds since the epoch, from seconds and nanoseconds. One before the epoch says
/// nothing.
pub fn time_of(seconds: i64, nanos: i64) -> (time: Option<u128>)
    ensures
        time == (if seconds < 0 || nanos < 0 {
            None::<u128>
        } else {
            Some((seconds * 1_000_000_000 + nanos) as u128)
        }),
{
    if seconds < 0 || nanos < 0 {
        return None;
    }
    Some(seconds as u128 * 1_000_000_000u128 + nanos as u128)
}

/// The permission bits of a file with or without leave to write. Leave is taken from everyone, and
/// given to the owner alone.
pub fn readonly_mode(mode: u32, readonly: bool) -> (bits: u32)
    ensures
        bits == (if readonly {
            mode & !0x92u32
        } else {
            mode | 0x80u32
        }),
{
    if readonly {
        mode & !0x92u32
    } else {
        mode | 0x80u32
    }
}

/// A file that was made read-only can be written by no one, one that was not by its owner, and
/// no other permission changes.
pub proof fn law_readonly_mode(mode: u32)
    ensures
        (mode & !0x92u32) & 0x92u32 == 0,
        (mode & !0x92u32) & !0x92u32 == mode & !0x92u32,
        (mode | 0x80u32) & 0x80u32 == 0x80,
        (mode | 0x80u32) & !0x80u32 == mode & !0x80u32,
{
    assert((mode & !0x92u32) & 0x92u32 == 0) by (bit_vector);
    assert((mode & !0x92u32) & !0x92u32 == mode & !0x92u32) by (bit_vector);
    assert((mode | 0x80u32) & 0x80u32 == 0x80) by (bit_vector);
    assert((mode | 0x80u32) & !0x80u32 == mode & !0x80u32) by (bit_vector);
}

/// Whether two identities are the same.
pub fn same_identity(a: &Option<(u64, u64)>, b: &Option<(u64, u64)>) -> (same: bool)
    ensures
        same == (*a == *b),
{
    match (a, b) {
        (Some(a), Some(b)) => a.0 == b.0 && a.1 == b.1,
        (None, None) => true,
        _ => false,
    }
}

/// Whether two times are the same.
pub fn same_time(a: &Option<u128>, b: &Option<u128>) -> (same: bool)
    ensures
        same == (*a == *b),
{
    match (a, b) {
        (Some(a), Some(b)) => *a == *b,
        (None, None) => true,
        _ => false,
    }
}

/// Whether two objects are on one volume.
pub fn same_volume(left: &Option<(u64, u64)>, right: &Option<(u64, u64)>) -> (result: Result<
    bool,
    StoreError,
>)
    ensures
        match (*left, *right) {
            (Some(left), Some(right)) => result == Ok::<bool, StoreError>(left.0 == right.0),
            _ => result == Err::<bool, StoreError>(StoreError::IdentityUnavailable),
        },
{
    match (left, right) {
        (Some(left), Some(right)) => Ok(left.0 == right.0),
        _ => Err(StoreError::IdentityUnavailable),
    }
}

/// Why no object is looked for at a path, given what is at each directory above it.
pub open spec fn ancestors_fault(above: Seq<Option<EntryKind>>, i: int) -> Option<StoreError>
    decreases above.len() - i,
{
    if i < 0 || i >= above.len() {
        None
    } else {
        match above[i] {
            Some(EntryKind::Symlink) => Some(StoreError::BeneathSymlink),
            Some(EntryKind::File) => Some(StoreError::AncestorNotDirectory),
            Some(EntryKind::Other) => Some(StoreError::AncestorNotDirectory),
            _ => ancestors_fault(above, i + 1),
        }
    }
}

/// Why a path below a root is not used.
pub open spec fn destination_fault(root: EntryKind, above: Seq<Option<EntryKind>>) -> Option<
    StoreError,
> {
    if root != EntryKind::Directory {
        Some(StoreError::RootNotReal)
    } else {
        ancestors_fault(above, 0)
    }
}

/// Checks that the root is a real directory and that no directory above the path is a symbolic
/// link or anything but a directory. One that is not there yet is fine.
pub fn check_destination(root: EntryKind, above: &Vec<Option<EntryKind>>) -> (result: Result<
    (),
    StoreError,
>)
    ensures
        match result {
            Ok(()) => destination_fault(root, above@) is None,
            Err(error) => destination_fault(root, above@) == Some(error),
        },
{
    if root != EntryKind::Directory {
        return Err(StoreError::RootNotReal);
    }
    let mut i: usize = 0;
    while i < above.len()
        invariant
            i <= above@.len(),
            root == EntryKind::Directory,
            ancestors_fault(above@, 0) == ancestors_fault(above@, i as int),
        decreases above@.len() - i,
    {
        match &above[i] {
            Some(EntryKind::Symlink) => {
                return Err(StoreError::BeneathSymlink);
            },
            Some(EntryKind::File) => {
                return Err(StoreError::AncestorNotDirectory);
            },
            Some(EntryKind::Other) => {
                return Err(StoreError::AncestorNotDirectory);
            },
            Some(EntryKind::Directory) => {},
            None => {},
        }
        i = i + 1;
    }
    Ok(())
}

/// Nothing is ever written through a symbolic link above the path.
pub proof fn law_no_symlink_is_followed(root: EntryKind, above: Seq<Option<EntryKind>>, i: int)
    requires
        destination_fault(root, above) is None,
        0 <= i < above.len(),
    ensures
        root == EntryKind::Directory,
        above[i] is None || above[i] == Some(EntryKind::Directory),
{
    lemma_ancestors(above, 0, i);
}

proof fn lemma_ancestors(above: Seq<Option<EntryKind>>, from: int, i: int)
    requires
        ancestors_fault(above, from) is None,
        0 <= from <= i < above.len(),
    ensures
        above[i] is None || above[i] == Some(EntryKind::Directory),
    decreases i - from,
{
    if from < i {
        lemma_ancestors(above, from + 1, i);
    }
}

/// What was seen of an object: what it is, and the digest of all that it holds.
#[derive(Clone, Copy, Debug, Eq)]
pub struct PathObservation {
    pub identity: Option<(u64, u64)>,
    /// 0 for a file, 1 for a directory, 2 for a symbolic link.
    pub kind: u8,
    pub size: u64,
    pub modified_ns: Option<u128>,
    pub readonly: bool,
    pub hash: Hash32,
}

impl PartialEq for PathObservation {
    fn eq(&self, other: &Self) -> (same: bool) {
        same_identity(&self.identity, &other.identity) && self.kind == other.kind && self.size
            == other.size && same_time(&self.modified_ns, &other.modified_ns) && self.readonly
            == other.readonly && self.hash == other.hash
    }
}

impl vstd::std_specs::cmp::PartialEqSpecImpl for PathObservation {
    open spec fn obeys_eq_spec() -> bool {
        true
    }

    open spec fn eq_spec(&self, other: &Self) -> bool {
        *self == *other
    }
}

/// Whether two sights are the same.
pub fn same_sight(a: &Option<PathObservation>, b: &Option<PathObservation>) -> (same: bool)
    ensures
        same == (*a == *b),
{
    match (a, b) {
        (Some(a), Some(b)) => *a == *b,
        (None, None) => true,
        _ => false,
    }
}

/// What an object holds.
pub enum Content {
    /// The digest of a file that was read through, and the identity that the open file had.
    File { hash: Hash32, opened: Option<(u64, u64)> },
    /// The target of a symbolic link, as bytes.
    Symlink { target: Vec<u8> },
    /// The objects in a directory.
    Directory { entries: Vec<DirectoryEntry> },
}

/// An object in a directory.
#[derive(Debug)]
pub struct DirectoryEntry {
    pub name: Vec<u8>,
    pub child: PathObservation,
}

impl Keyed for DirectoryEntry {
    open spec fn key(&self) -> Seq<u8> {
        self.name@
    }

    fn key_bytes(&self) -> (bytes: &[u8]) {
        self.name.as_slice()
    }
}

/// A pair of numbers that may be missing.
pub open spec fn identity_bytes(identity: Option<(u64, u64)>) -> Seq<u8> {
    match identity {
        Some(pair) => seq![1u8] + varint(pair.0 as nat) + varint(pair.1 as nat),
        None => seq![0u8],
    }
}

/// A time that may be missing.
pub open spec fn time_bytes(time: Option<u128>) -> Seq<u8> {
    match time {
        Some(time) => seq![1u8] + varint(time as nat),
        None => seq![0u8],
    }
}

/// The byte form of what was seen of an object.
pub open spec fn observation_bytes(o: PathObservation) -> Seq<u8> {
    identity_bytes(o.identity) + seq![o.kind] + varint(o.size as nat) + time_bytes(o.modified_ns)
        + seq![flag_code(o.readonly)] + o.hash@
}

/// The bytes that the digest of a directory is taken of: each name, and what was seen there.
pub open spec fn directory_bytes(entries: Seq<DirectoryEntry>) -> Seq<u8>
    decreases entries.len(),
{
    if entries.len() == 0 {
        Seq::empty()
    } else {
        directory_bytes(entries.drop_last()) + entries.last().name@ + observation_bytes(
            entries.last().child,
        )
    }
}

/// The entries of a directory in the order of their names. A name stands for one object.
pub open spec fn by_name(entries: Seq<DirectoryEntry>) -> Map<Seq<u8>, DirectoryEntry>
    decreases entries.len(),
{
    if entries.len() == 0 {
        Map::empty()
    } else {
        by_name(entries.drop_last()).insert(entries.last().name@, entries.last())
    }
}

/// The digest of what an object holds.
pub open spec fn content_digest(content: Content) -> Seq<u8> {
    match content {
        Content::File { hash, opened } => hash@,
        Content::Symlink { target } => blake3_digest(target@),
        Content::Directory { entries } => blake3_digest(
            directory_bytes(crate::table::listing(by_name(entries@))),
        ),
    }
}

/// The kind of an object as a number.
pub open spec fn kind_number(kind: EntryKind) -> u8 {
    match kind {
        EntryKind::File => 0,
        EntryKind::Directory => 1,
        EntryKind::Symlink => 2,
        EntryKind::Other => 3,
    }
}

/// The content is of the kind that the object is.
pub open spec fn content_fits(kind: EntryKind, content: Content) -> bool {
    match content {
        Content::File { .. } => kind == EntryKind::File,
        Content::Symlink { .. } => kind == EntryKind::Symlink,
        Content::Directory { .. } => kind == EntryKind::Directory,
    }
}

/// Why an object cannot be observed.
pub open spec fn observing_fault(before: EntryFacts, after: EntryFacts, content: Content) -> Option<
    StoreError,
> {
    if before.kind == EntryKind::Other {
        Some(StoreError::UnsupportedObject)
    } else if !content_fits(before.kind, content) {
        Some(StoreError::ChangedWhileObserving)
    } else if content is File && content->opened != before.identity {
        Some(StoreError::ChangedWhileObserving)
    } else if before.identity != after.identity || before.size != after.size || before.modified_ns
        != after.modified_ns || before.changed_ns != after.changed_ns {
        Some(StoreError::ChangedWhileObserving)
    } else {
        None
    }
}

/// What is seen of an object with a content.
pub open spec fn observed(facts: EntryFacts, hash: Hash32) -> PathObservation {
    PathObservation {
        identity: facts.identity,
        kind: kind_number(facts.kind),
        size: if facts.kind == EntryKind::Directory {
            0
        } else {
            facts.size
        },
        modified_ns: facts.modified_ns,
        readonly: facts.readonly,
        hash,
    }
}

/// The record describes what was seen.
pub open spec fn sight_matches(o: PathObservation, record: RecordView) -> bool {
    &&& !record.tombstone
    &&& o.readonly == record.readonly
    &&& match record.kind {
        SyncEntryKind::File => o.kind == 0 && o.size == record.size && record.content_hash == Some(
            o.hash,
        ),
        SyncEntryKind::Directory => o.kind == 1,
        SyncEntryKind::Symlink => o.kind == 2,
        SyncEntryKind::Other => false,
    }
}

/// What was seen is a file with the size and the digest of a manifest.
pub open spec fn sight_is_file(o: Option<PathObservation>, manifest: ManifestView) -> bool {
    match o {
        Some(o) => o.kind == 0 && o.size == manifest.size && o.hash == manifest.file_hash,
        None => false,
    }
}

/// Whether what was seen is a file with the size and the digest of a manifest.
pub fn file_matches_manifest(sight: &Option<PathObservation>, manifest: &FileManifest) -> (same:
    bool)
    ensures
        same == sight_is_file(*sight, manifest@),
{
    match sight {
        Some(o) => o.kind == 0 && o.size == manifest.size && o.hash == manifest.file_hash,
        None => false,
    }
}

fn push_identity(out: &mut Vec<u8>, identity: &Option<(u64, u64)>)
    ensures
        final(out)@ == old(out)@ + identity_bytes(*identity),
{
    match identity {
        Some(pair) => {
            out.push(1);
            push_number(out, pair.0);
            push_number(out, pair.1);
        },
        None => {
            out.push(0);
        },
    }
    assert(out@ =~= old(out)@ + identity_bytes(*identity));
}

fn push_time(out: &mut Vec<u8>, time: &Option<u128>)
    ensures
        final(out)@ == old(out)@ + time_bytes(*time),
{
    match time {
        Some(time) => {
            out.push(1);
            push_wide(out, *time);
        },
        None => {
            out.push(0);
        },
    }
    assert(out@ =~= old(out)@ + time_bytes(*time));
}

fn sort_entries(entries: Vec<DirectoryEntry>) -> (sorted: Vec<DirectoryEntry>)
    ensures
        ascending(sorted@),
        table(sorted@) == by_name(entries@),
{
    let ghost all = entries@;
    let mut sorted: Vec<DirectoryEntry> = Vec::new();
    proof {
        lemma_table_empty::<DirectoryEntry>();
        assert(all.take(0) =~= Seq::empty());
    }
    for entry in iter: entries
        invariant
            iter.seq() == all,
            ascending(sorted@),
            table(sorted@) == by_name(all.take(iter.index() as int)),
    {
        proof {
            let i = iter.index() as int;
            let more = all.take(i + 1);
            assert(more.drop_last() =~= all.take(i));
            assert(more.last() == all[i]);
        }
        put(&mut sorted, entry);
    }
    assert(all.take(all.len() as int) =~= all);
    sorted
}

impl PathObservation {
    /// The byte form.
    pub fn to_bytes(&self) -> (bytes: Vec<u8>)
        ensures
            bytes@ == observation_bytes(*self),
    {
        let mut bytes: Vec<u8> = Vec::new();
        push_identity(&mut bytes, &self.identity);
        bytes.push(self.kind);
        push_number(&mut bytes, self.size);
        push_time(&mut bytes, &self.modified_ns);
        bytes.push(flag_byte(self.readonly));
        push_bytes(&mut bytes, self.hash.bytes.as_slice());
        assert(bytes@ =~= observation_bytes(*self));
        bytes
    }

    /// What is seen of an object, from what the filesystem said of it before and after its content
    /// was read. One that changed meanwhile was not seen.
    pub fn at(before: &EntryFacts, after: &EntryFacts, content: Content) -> (sight: Result<
        Self,
        StoreError,
    >)
        ensures
            match sight {
                Ok(sight) => sees(*before, *after, content, sight),
                Err(error) => observing_fault(*before, *after, content) == Some(error),
            },
    {
        let ghost given = content;
        let kind: u8 = match before.kind {
            EntryKind::File => 0,
            EntryKind::Directory => 1,
            EntryKind::Symlink => 2,
            EntryKind::Other => {
                return Err(StoreError::UnsupportedObject);
            },
        };
        let hash = match content {
            Content::File { hash, opened } => {
                if kind != 0 || !same_identity(&opened, &before.identity) {
                    return Err(StoreError::ChangedWhileObserving);
                }
                hash
            },
            Content::Symlink { target } => {
                if kind != 2 {
                    return Err(StoreError::ChangedWhileObserving);
                }
                Hash32::digest(target.as_slice())
            },
            Content::Directory { entries } => {
                if kind != 1 {
                    return Err(StoreError::ChangedWhileObserving);
                }
                let sorted = sort_entries(entries);
                proof {
                    crate::table::lemma_listing(sorted@);
                }
                let mut hasher = ContentHasher::new();
                let mut i: usize = 0;
                assert(sorted@.take(0) =~= Seq::empty());
                while i < sorted.len()
                    invariant
                        i <= sorted@.len(),
                        hasher.wf(),
                        hasher@ == directory_bytes(sorted@.take(i as int)),
                    decreases sorted@.len() - i,
                {
                    hasher.update(sorted[i].name.as_slice());
                    let child = sorted[i].child.to_bytes();
                    hasher.update(child.as_slice());
                    i = i + 1;
                    proof {
                        let more = sorted@.take(i as int);
                        assert(more.drop_last() =~= sorted@.take(i - 1));
                        assert(more.last() == sorted@[i - 1]);
                    }
                }
                assert(sorted@.take(i as int) =~= sorted@);
                hasher.finish()
            },
        };
        if !same_identity(&before.identity, &after.identity) || before.size != after.size
            || !same_time(&before.modified_ns, &after.modified_ns) || !same_time(
            &before.changed_ns,
            &after.changed_ns,
        ) {
            return Err(StoreError::ChangedWhileObserving);
        }
        Ok(
            PathObservation {
                identity: before.identity,
                kind,
                size: if kind == 1 {
                    0
                } else {
                    before.size
                },
                modified_ns: before.modified_ns,
                readonly: before.readonly,
                hash,
            },
        )
    }

    /// What is seen at a path below a root, the directories above it being in order. Nothing there
    /// is nothing seen.
    pub fn read(
        root: EntryKind,
        above: &Vec<Option<EntryKind>>,
        leaf: Option<(EntryFacts, EntryFacts, Content)>,
    ) -> (sight: Result<Option<Self>, StoreError>)
        ensures
            match sight {
                Ok(None) => destination_fault(root, above@) is None && leaf is None,
                Ok(Some(sight)) => destination_fault(root, above@) is None && match leaf {
                    Some((before, after, content)) => sees(before, after, content, sight),
                    None => false,
                },
                Err(error) => if destination_fault(root, above@) is Some {
                    destination_fault(root, above@) == Some(error)
                } else {
                    match leaf {
                        Some((before, after, content)) => observing_fault(before, after, content)
                            == Some(error),
                        None => false,
                    }
                },
            },
    {
        match check_destination(root, above) {
            Ok(()) => {},
            Err(error) => {
                return Err(error);
            },
        }
        match leaf {
            None => Ok(None),
            Some((before, after, content)) => match PathObservation::at(&before, &after, content) {
                Ok(sight) => Ok(Some(sight)),
                Err(error) => Err(error),
            },
        }
    }

    /// Whether a record describes what was seen.
    pub fn matches_record(&self, record: &SyncRecord) -> (same: bool)
        ensures
            same == sight_matches(*self, record@),
    {
        !record.tombstone && self.readonly == record.readonly && match record.kind {
            SyncEntryKind::File => self.kind == 0 && self.size == record.size
                && match &record.content_hash {
                Some(hash) => *hash == self.hash,
                None => false,
            },
            SyncEntryKind::Directory => self.kind == 1,
            SyncEntryKind::Symlink => self.kind == 2,
            SyncEntryKind::Other => false,
        }
    }
}

/// What was seen of a file right after it was put together and installed.
#[derive(Clone, Copy, Debug, Eq)]
pub struct MaterializationObservation {
    pub file_hash: Hash32,
    pub identity: Option<(u64, u64)>,
    pub size: u64,
    pub modified_ns: Option<u128>,
    pub changed_ns: Option<u128>,
    pub readonly: bool,
}

impl PartialEq for MaterializationObservation {
    fn eq(&self, other: &Self) -> (same: bool) {
        self.file_hash == other.file_hash && same_identity(&self.identity, &other.identity)
            && self.size == other.size && same_time(&self.modified_ns, &other.modified_ns)
            && same_time(&self.changed_ns, &other.changed_ns) && self.readonly == other.readonly
    }
}

impl vstd::std_specs::cmp::PartialEqSpecImpl for MaterializationObservation {
    open spec fn obeys_eq_spec() -> bool {
        true
    }

    open spec fn eq_spec(&self, other: &Self) -> bool {
        *self == *other
    }
}

/// What is seen of a regular file with a digest.
pub open spec fn materialized(facts: EntryFacts, file_hash: Hash32) -> MaterializationObservation {
    MaterializationObservation {
        file_hash,
        identity: facts.identity,
        size: facts.size,
        modified_ns: facts.modified_ns,
        changed_ns: facts.changed_ns,
        readonly: facts.readonly,
    }
}

/// Why a change of the write permission is not accepted.
pub open spec fn readonly_fault(
    held: MaterializationObservation,
    before: MaterializationObservation,
    after: MaterializationObservation,
    readonly: bool,
) -> Option<StoreError> {
    if before != held {
        Some(StoreError::Preservation(crate::store::error::PreservationError::LocalChanged))
    } else if after.identity != before.identity || after.size != before.size || after.modified_ns
        != before.modified_ns {
        Some(StoreError::ChangedByReadonlyUpdate)
    } else if after.readonly != readonly {
        Some(StoreError::ReadonlyNotApplied)
    } else {
        None
    }
}

impl MaterializationObservation {
    /// What is seen of a regular file with a digest.
    pub fn of(facts: &EntryFacts, file_hash: Hash32) -> (sight: Result<Self, StoreError>)
        ensures
            match sight {
                Ok(sight) => facts.kind == EntryKind::File && sight == materialized(
                    *facts,
                    file_hash,
                ),
                Err(error) => facts.kind != EntryKind::File && error
                    == StoreError::NotARegularFile,
            },
    {
        if facts.kind != EntryKind::File {
            return Err(StoreError::NotARegularFile);
        }
        Ok(
            MaterializationObservation {
                file_hash,
                identity: facts.identity,
                size: facts.size,
                modified_ns: facts.modified_ns,
                changed_ns: facts.changed_ns,
                readonly: facts.readonly,
            },
        )
    }

    /// The digest of the file.
    pub fn file_hash(&self) -> (hash: Hash32)
        ensures
            hash == self.file_hash,
    {
        self.file_hash
    }

    /// The identity of the file.
    pub fn identity(&self) -> (identity: Option<(u64, u64)>)
        ensures
            identity == self.identity,
    {
        self.identity
    }

    /// The length of the file.
    pub fn size(&self) -> (size: u64)
        ensures
            size == self.size,
    {
        self.size
    }

    /// When the file was modified, in nanoseconds since the epoch.
    pub fn modified_ns(&self) -> (time: Option<u128>)
        ensures
            time == self.modified_ns,
    {
        self.modified_ns
    }

    /// When the file or what is said of it changed, in nanoseconds since the epoch.
    pub fn changed_ns(&self) -> (time: Option<u128>)
        ensures
            time == self.changed_ns,
    {
        self.changed_ns
    }

    /// Whether the file is read-only.
    pub fn readonly(&self) -> (readonly: bool)
        ensures
            readonly == self.readonly,
    {
        self.readonly
    }

    /// Checks that the file is still the one that was seen before its write permission is set.
    pub fn before_readonly_update(&self, before: &Self) -> (result: Result<(), StoreError>)
        ensures
            match result {
                Ok(()) => *before == *self,
                Err(error) => *before != *self && error == StoreError::Preservation(
                    crate::store::error::PreservationError::LocalChanged,
                ),
            },
    {
        if *before != *self {
            return Err(
                StoreError::Preservation(crate::store::error::PreservationError::LocalChanged),
            );
        }
        Ok(())
    }

    /// What is seen of the file once its write permission was set. Identity, length and the time
    /// of its last modification have to be the same; the time of its last change need not.
    pub fn after_readonly_update(&self, before: &Self, after: &Self, readonly: bool) -> (sight:
        Result<Self, StoreError>)
        ensures
            match sight {
                Ok(sight) => readonly_fault(*self, *before, *after, readonly) is None && sight
                    == *after,
                Err(error) => readonly_fault(*self, *before, *after, readonly) == Some(error),
            },
    {
        match self.before_readonly_update(before) {
            Ok(()) => {},
            Err(error) => {
                return Err(error);
            },
        }
        if !same_identity(&after.identity, &before.identity) || after.size != before.size
            || !same_time(&after.modified_ns, &before.modified_ns) {
            return Err(StoreError::ChangedByReadonlyUpdate);
        }
        if after.readonly != readonly {
            return Err(StoreError::ReadonlyNotApplied);
        }
        Ok(*after)
    }
}

/// What was seen is what is seen of an object with a content that did not change meanwhile.
pub open spec fn sees(
    before: EntryFacts,
    after: EntryFacts,
    content: Content,
    sight: PathObservation,
) -> bool {
    &&& observing_fault(before, after, content) is None
    &&& sight == observed(before, sight.hash)
    &&& sight.hash@ == content_digest(content)
}

/// Two directories hold the same: under the same names the same was seen.
pub open spec fn same_entries(a: Seq<DirectoryEntry>, b: Seq<DirectoryEntry>) -> bool {
    &&& by_name(a).dom() == by_name(b).dom()
    &&& forall|name: Seq<u8>| #[trigger]
        by_name(a).contains_key(name) ==> by_name(a)[name].child == by_name(b)[name].child
}

/// Two objects hold the same.
pub open spec fn same_content(a: Content, b: Content) -> bool {
    match (a, b) {
        (Content::File { hash: x, .. }, Content::File { hash: y, .. }) => x == y,
        (Content::Symlink { target: x }, Content::Symlink { target: y }) => x@ == y@,
        (Content::Directory { entries: x }, Content::Directory { entries: y }) => same_entries(
            x@,
            y@,
        ),
        _ => false,
    }
}

/// What is seen of two objects apart from their content is the same.
pub open spec fn same_facts(a: EntryFacts, b: EntryFacts) -> bool {
    &&& a.kind == b.kind
    &&& a.identity == b.identity
    &&& a.kind == EntryKind::Directory || a.size == b.size
    &&& a.modified_ns == b.modified_ns
    &&& a.readonly == b.readonly
}

/// The bytes that the digest of a content is taken of. Of a file only the digest is told.
pub open spec fn content_material(content: Content) -> Seq<u8> {
    match content {
        Content::File { hash, opened } => hash@,
        Content::Symlink { target } => target@,
        Content::Directory { entries } => directory_bytes(
            crate::table::listing(by_name(entries@)),
        ),
    }
}

/// Each entry stands under its own name, and there are finitely many.
proof fn lemma_by_name(entries: Seq<DirectoryEntry>)
    ensures
        by_name(entries).dom().finite(),
        forall|name: Seq<u8>| #[trigger]
            by_name(entries).contains_key(name) ==> by_name(entries)[name].name@ == name,
    decreases entries.len(),
{
    if entries.len() > 0 {
        lemma_by_name(entries.drop_last());
    }
}

/// The entries of a directory can be listed in the order of their names.
proof fn lemma_entries_listable(entries: Seq<DirectoryEntry>)
    ensures
        ascending(crate::table::listing(by_name(entries))),
        table(crate::table::listing(by_name(entries))) == by_name(entries),
{
    let all = by_name(entries);
    lemma_by_name(entries);
    let names = crate::merkle::lemma_names_listable(all.dom());
    let list = Seq::new(names.len(), |i: int| all[names[i]]);
    assert forall|i: int| 0 <= i < list.len() implies (#[trigger] list[i]).key() == names[i]
        && all.contains_key(names[i]) by {
        assert(names.contains(names[i]));
    }
    assert(ascending(list)) by {
        assert forall|i: int, j: int| 0 <= i < j < list.len() implies crate::order::byte_less(
            #[trigger] list[i].key(),
            #[trigger] list[j].key(),
        ) by {
            assert(crate::order::byte_less(names[i], names[j]));
        }
    }
    assert forall|name: Seq<u8>| #![trigger table(list).dom().contains(name)]
        table(list).dom().contains(name) == all.dom().contains(name) && (all.dom().contains(name)
            ==> table(list)[name] == all[name]) by {
        if all.dom().contains(name) {
            assert(names.contains(name));
            let i = choose|i: int| 0 <= i < names.len() && names[i] == name;
            assert(list[i].key() == name);
            crate::table::lemma_rank_unique(list, i);
        }
        if crate::table::has_key(list, name) {
            let i = crate::table::rank_of(list, name);
            assert(list[i].key() == names[i]);
        }
    }
    assert(table(list) =~= all);
}

/// Lists of the same names with the same sights have the same bytes.
proof fn lemma_same_directory_bytes(a: Seq<DirectoryEntry>, b: Seq<DirectoryEntry>)
    requires
        a.len() == b.len(),
        forall|i: int|
            0 <= i < a.len() ==> (#[trigger] a[i]).name@ == b[i].name@ && a[i].child == b[i].child,
    ensures
        directory_bytes(a) == directory_bytes(b),
    decreases a.len(),
{
    if a.len() > 0 {
        let x = a.drop_last();
        let y = b.drop_last();
        assert forall|i: int| 0 <= i < x.len() implies (#[trigger] x[i]).name@ == y[i].name@
            && x[i].child == y[i].child by {
            assert(a[i].name@ == b[i].name@);
        }
        lemma_same_directory_bytes(x, y);
        assert(a[a.len() - 1].name@ == b[b.len() - 1].name@);
    }
}

proof fn lemma_same_material(a: Seq<DirectoryEntry>, b: Seq<DirectoryEntry>)
    requires
        same_entries(a, b),
    ensures
        directory_bytes(crate::table::listing(by_name(a))) == directory_bytes(
            crate::table::listing(by_name(b)),
        ),
{
    let x = crate::table::listing(by_name(a));
    let y = crate::table::listing(by_name(b));
    lemma_entries_listable(a);
    lemma_entries_listable(b);
    crate::table::lemma_table_size(x);
    crate::table::lemma_table_size(y);
    assert forall|i: int| 0 <= i < x.len() implies (#[trigger] x[i]).name@ == y[i].name@
        && x[i].child == y[i].child by {
        crate::table::lemma_same_keys_same_rank(x, y, i);
        crate::table::lemma_rank_unique(x, i);
        crate::table::lemma_rank_unique(y, i);
        assert(x[i].key() == y[i].key());
        assert(by_name(a).contains_key(x[i].key()));
    }
    lemma_same_directory_bytes(x, y);
}

/// Two sights of an object are the same where nothing of it has changed, in whatever order the
/// entries of a directory were found. Sights that are the same are of objects of which the same
/// was told, with contents of the same digest: where digests do not collide, of the same bytes.
pub proof fn law_same_sight_where_nothing_changed(
    before: EntryFacts,
    after: EntryFacts,
    content: Content,
    sight: PathObservation,
    later_before: EntryFacts,
    later_after: EntryFacts,
    later_content: Content,
    later: PathObservation,
)
    requires
        sees(before, after, content, sight),
        sees(later_before, later_after, later_content, later),
    ensures
        same_facts(before, later_before) && same_content(content, later_content) ==> sight == later,
        sight == later ==> same_facts(before, later_before) && content_digest(content)
            == content_digest(later_content),
        sight == later && (blake3_digest(content_material(content)) == blake3_digest(
            content_material(later_content),
        ) ==> content_material(content) == content_material(later_content)) ==> content_material(
            content,
        ) == content_material(later_content),
{
    if same_facts(before, later_before) && same_content(content, later_content) {
        match (content, later_content) {
            (Content::Directory { entries: x }, Content::Directory { entries: y }) => {
                lemma_same_material(x@, y@);
            },
            _ => {},
        }
        assert(sight.hash@ == later.hash@);
        crate::hash::lemma_hash_view_injective(sight.hash, later.hash);
    }
}

} // verus!
