//! The written forms of numbers, digests, records and keys.
use vstd::prelude::*;

use crate::hash::{hex_bytes, hex_text, le_bytes};
use crate::record::{
    digest_code, entry_bytes, flag_code, kind_code, record_material, RecordView, SyncEntryKind,
};
use crate::share::catalog::CatalogView;
use crate::share::catalog_size::{catalog_fits, catalog_size};
use crate::share::codec::varint;
use crate::share::error::ShareError;
use crate::share::heartbeats::{entries_fault, next_entries};
use crate::share::identity::{permission_code, Permission, ShareId};
use crate::share::registry::RegistryView;
use crate::share::roster::{entries_bytes, roster_signature_fault};
use crate::share::ticket::{parsed_ticket, ticket_bytes, ticket_fault, ticket_text, SignedTicket};
use crate::text::{decimal, utf8};
use crate::version::listed;

verus! {

/// A number is written in eight bytes, the lowest first.
pub proof fn law_lowest_byte_comes_first(value: u64, rest: u64, low: u8)
    requires
        value == 256 * rest + low,
    ensures
        le_bytes(value).len() == 8,
        le_bytes(value)[0] == low,
        le_bytes(value).skip(1) == le_bytes(rest).take(7),
        le_bytes(rest)[7] == 0,
{
    assert(value / 256 == rest && value % 256 == low);
    assert(value / 0x1_0000 == rest / 0x100);
    assert(value / 0x100_0000 == rest / 0x1_0000);
    assert(value / 0x1_0000_0000 == rest / 0x100_0000);
    assert(value / 0x100_0000_0000 == rest / 0x1_0000_0000);
    assert(value / 0x1_0000_0000_0000 == rest / 0x100_0000_0000);
    assert(value / 0x100_0000_0000_0000 == rest / 0x1_0000_0000_0000);
    assert(le_bytes(value).skip(1) =~= le_bytes(rest).take(7));
}

/// A byte is written as two hexadecimal digits in lower case, the higher half first.
pub proof fn law_byte_is_two_digits(bytes: Seq<u8>, i: int)
    requires
        0 <= i < bytes.len(),
    ensures
        hex_text(bytes).len() == 2 * bytes.len(),
        hex_text(bytes)[2 * i] == "0123456789abcdef"@[bytes[i] as int / 16],
        hex_text(bytes)[2 * i + 1] == "0123456789abcdef"@[bytes[i] as int % 16],
{
    reveal_strlit("0123456789abcdef");
    assert((2 * i) / 2 == i && (2 * i) % 2 == 0);
    assert((2 * i + 1) / 2 == i && (2 * i + 1) % 2 == 1);
    assert(0 <= bytes[i] as int / 16 < 16);
    assert(0 <= bytes[i] as int % 16 < 16);
}

/// A number is written with its last decimal digit behind all the others.
pub proof fn law_last_digit_comes_last(value: nat, rest: nat, digit: nat)
    requires
        digit < 10,
        value == 10 * rest + digit,
    ensures
        rest == 0 ==> decimal(value) == seq!["0123456789"@[digit as int]],
        rest > 0 ==> decimal(value) == decimal(rest).push("0123456789"@[digit as int]),
{
    reveal_strlit("0123456789");
    assert(value / 10 == rest && value % 10 == digit);
    assert(decimal(digit) =~= seq!["0123456789"@[digit as int]]);
    if rest > 0 {
        assert(decimal(value) == decimal(rest) + decimal(digit));
        assert(decimal(value) =~= decimal(rest).push("0123456789"@[digit as int]));
    }
}

/// The numbers that stand for kinds, truth values and permissions.
pub proof fn law_kinds_have_their_numbers()
    ensures
        kind_code(SyncEntryKind::File) == 0,
        kind_code(SyncEntryKind::Directory) == 1,
        kind_code(SyncEntryKind::Symlink) == 2,
        kind_code(SyncEntryKind::Other) == 3,
        flag_code(false) == 0,
        flag_code(true) == 1,
        permission_code(Permission::ReadOnly) == 0,
        permission_code(Permission::ReadWrite) == 1,
{
}

/// Where the parts of a byte string are.
proof fn lemma_laid_out(
    a: Seq<u8>,
    b: Seq<u8>,
    path: Seq<u8>,
    kind: u8,
    d: Seq<u8>,
    code: Seq<u8>,
    first: u8,
    second: u8,
    e: Seq<u8>,
    entries: Seq<u8>,
)
    requires
        a.len() == 8,
        b.len() == 8,
        d.len() == 8,
        e.len() == 8,
        code.len() > 0,
    ensures
        ({
            let bytes = a + b + path + seq![kind] + d + code + seq![first, second] + e + entries;
            let at: int = 16 + path.len() as int;
            let next: int = at + 9 + code.len() as int;
            &&& bytes.subrange(0, 8) == a
            &&& bytes.subrange(8, 16) == b
            &&& bytes.subrange(16, at) == path
            &&& bytes[at] == kind
            &&& bytes.subrange(at + 1, at + 9) == d
            &&& bytes.subrange(at + 9, next) == code
            &&& bytes[next] == first
            &&& bytes[next + 1] == second
            &&& bytes.subrange(next + 2, next + 10) == e
            &&& bytes.skip(next + 10) == entries
        }),
{
    let bytes = a + b + path + seq![kind] + d + code + seq![first, second] + e + entries;
    let at: int = 16 + path.len() as int;
    let next: int = at + 9 + code.len() as int;
    assert(bytes.subrange(0, 8) =~= a);
    assert(bytes.subrange(8, 16) =~= b);
    assert(bytes.subrange(16, at) =~= path);
    assert(bytes.subrange(at + 1, at + 9) =~= d);
    assert(bytes.subrange(at + 9, next) =~= code);
    assert(bytes.subrange(next + 2, next + 10) =~= e);
    assert(bytes.skip(next + 10) =~= entries);
}

/// The bytes of a record's digest are its schema, the length of its path, the path, its kind, its
/// size, its content with a byte that says whether it has one, its permission, whether it is a
/// deletion, how many replicas its version counts, and those with their counters.
pub proof fn law_record_is_written_in_order(record: RecordView)
    ensures
        ({
            let bytes = record_material(record);
            let path: int = 16 + record.path.len() as int;
            let content: int = if record.content_hash is Some {
                33
            } else {
                1
            };
            &&& bytes.subrange(0, 8) == le_bytes(record.schema_version as u64)
            &&& bytes.subrange(8, 16) == le_bytes(record.path.len() as u64)
            &&& bytes.subrange(16, path) == record.path
            &&& bytes[path] == kind_code(record.kind)
            &&& bytes.subrange(path + 1, path + 9) == le_bytes(record.size)
            &&& bytes.subrange(path + 9, path + 9 + content) == (match record.content_hash {
                Some(digest) => seq![1u8] + digest@,
                None => seq![0u8],
            })
            &&& bytes[path + 9 + content] == flag_code(record.readonly)
            &&& bytes[path + 10 + content] == flag_code(record.tombstone)
            &&& bytes.subrange(path + 11 + content, path + 19 + content) == le_bytes(
                listed(record.version).len() as u64,
            )
            &&& bytes.skip(path + 19 + content) == entry_bytes(listed(record.version))
        }),
{
    lemma_laid_out(
        le_bytes(record.schema_version as u64),
        le_bytes(record.path.len() as u64),
        record.path,
        kind_code(record.kind),
        le_bytes(record.size),
        digest_code(record.content_hash),
        flag_code(record.readonly),
        flag_code(record.tombstone),
        le_bytes(listed(record.version).len() as u64),
        entry_bytes(listed(record.version)),
    );
}

/// A text is read as a share key only if it is no longer than such a key can be, starts as one, goes
/// on with hexadecimal digits, and these are the bytes of a key that is taken: the very ones that
/// the key is written as. A text that starts as anything else is told to be of another version.
pub proof fn law_key_is_read_from_its_text(text: Seq<u8>, now: u64)
    ensures
        match parsed_ticket(text, now) {
            Ok(ticket) => {
                &&& text.len() <= 16393
                &&& text.len() >= 9 && text.take(9) == utf8("dwshare3:"@)
                &&& hex_bytes(text.skip(9)) == Some(ticket_bytes(ticket))
                &&& ticket_fault(ticket, now) is None
            },
            Err(error) => {
                &&& text.len() > 16393 ==> error == ShareError::InvalidTicket
                &&& text.len() <= 16393 && !(text.len() >= 9 && text.take(9) == utf8("dwshare3:"@))
                    ==> error == ShareError::UnsupportedVersion
                &&& text.len() <= 16393 && text.len() >= 9 && text.take(9) == utf8("dwshare3:"@)
                    && hex_bytes(text.skip(9)) is None ==> error == ShareError::InvalidTicket
            },
        },
{
}

/// A key is written as its mark and the hexadecimal digits of its bytes.
pub proof fn law_key_is_written_with_its_mark(ticket: SignedTicket)
    ensures
        ticket_text(ticket) == "dwshare3:"@ + hex_text(ticket_bytes(ticket)),
{
}

/// A catalog is within its size exactly if it takes no more than sixteen mebibytes.
pub proof fn law_catalog_is_bounded(catalog: CatalogView)
    ensures
        catalog_fits(catalog) <==> catalog_size(catalog) <= 16_777_216,
{
}

/// The next roster of a share can be made exactly if the share is there, the roster that is kept for
/// it, if any, is the owner's for that share, and the entries are no more than 4096 and take no more
/// than 65536 bytes.
pub proof fn law_roster_can_be_made(s: RegistryView, share: ShareId)
    ensures
        entries_fault(s, share) is None <==> {
            let entries = next_entries(s, share);
            &&& s.catalog.shares.contains_key(share@)
            &&& s.rosters.contains_key(share@) ==> {
                &&& s.rosters[share@].owner == s.catalog.owner
                &&& s.rosters[share@].share == share
                &&& roster_signature_fault(s.rosters[share@]) is None
            }
            &&& entries.len() <= 4096
            &&& varint(entries.len()).len() + entries_bytes(entries).len() <= 65536
        },
{
}

} // verus!
