//! Names for the conflict copies of losing files.
use vstd::prelude::*;
use vstd::utf8::{encode_utf8_valid_utf8, is_char_boundary};

use crate::hash::hex_text;
use crate::path::{path_fault, WirePath, MAX_COMPONENT_BYTES, MAX_PATH_BYTES};
use crate::reconcile::ReconcileError;
use crate::table::{ascending, has_key, holds, Keyed};
use crate::text::{
    append_number, append_text, byte_len, decimal, drop_leading_ascii, split_before_ascii, utf8,
};

verus! {

/// The position of the last such byte in front of `end`, or -1.
pub open spec fn last_before(bytes: Seq<u8>, wanted: u8, end: int) -> int
    decreases end,
{
    if end <= 0 {
        -1
    } else if bytes[end - 1] == wanted {
        end - 1
    } else {
        last_before(bytes, wanted, end - 1)
    }
}

/// The position of the last such byte, or -1.
pub open spec fn last_position(bytes: Seq<u8>, wanted: u8) -> int {
    last_before(bytes, wanted, bytes.len() as int)
}

proof fn lemma_last_before(bytes: Seq<u8>, wanted: u8, end: int)
    requires
        0 <= end <= bytes.len(),
    ensures
        -1 <= last_before(bytes, wanted, end) < end || (end == 0 && last_before(bytes, wanted, end)
            == -1),
        last_before(bytes, wanted, end) >= 0 ==> bytes[last_before(bytes, wanted, end)] == wanted,
    decreases end,
{
    if end > 0 && bytes[end - 1] != wanted {
        lemma_last_before(bytes, wanted, end - 1);
    }
}

/// Finds the last such byte.
fn find_last(bytes: &[u8], wanted: u8) -> (at: Option<usize>)
    ensures
        match at {
            Some(at) => at == last_position(bytes@, wanted) && at < bytes@.len()
                && bytes@[at as int]
                == wanted,
            None => last_position(bytes@, wanted) == -1,
        },
{
    let mut end: usize = bytes.len();
    while end > 0
        invariant
            end <= bytes@.len(),
            last_position(bytes@, wanted) == last_before(bytes@, wanted, end as int),
        decreases end,
    {
        if bytes[end - 1] == wanted {
            return Some(end - 1);
        }
        end = end - 1;
    }
    None
}

/// The directory part of a path, without the slash behind it; nothing at the top.
pub open spec fn parent_of(path: Seq<u8>) -> Option<Seq<u8>> {
    let at = last_position(path, 0x2f);
    if at < 0 {
        None
    } else {
        Some(path.take(at))
    }
}

/// The last component of a path.
pub open spec fn name_of(path: Seq<u8>) -> Seq<u8> {
    path.skip(last_position(path, 0x2f) + 1)
}

/// Where the extension of a name starts: at its last dot, unless that is its first byte.
pub open spec fn extension_at(name: Seq<u8>) -> int {
    let at = last_position(name, 0x2e);
    if at > 0 {
        at
    } else {
        name.len() as int
    }
}

/// The largest character boundary that is not behind `maximum`.
pub open spec fn floor_boundary(bytes: Seq<u8>, maximum: int) -> int
    decreases maximum,
{
    if maximum <= 0 {
        0
    } else if is_char_boundary(bytes, maximum) {
        maximum
    } else {
        floor_boundary(bytes, maximum - 1)
    }
}

/// As many whole characters from the front as fit into `maximum` bytes.
pub open spec fn truncated(bytes: Seq<u8>, maximum: int) -> Seq<u8> {
    if bytes.len() <= maximum {
        bytes
    } else {
        bytes.take(floor_boundary(bytes, maximum))
    }
}

/// Keeps as many whole characters as fit into a number of bytes.
pub fn truncate_utf8<'a>(value: &'a str, maximum_bytes: usize) -> (kept: &'a str)
    ensures
        utf8(kept@) == truncated(utf8(value@), maximum_bytes as int),
{
    if byte_len(value) <= maximum_bytes {
        return value;
    }
    let ghost bytes = utf8(value@);
    proof {
        encode_utf8_valid_utf8(value@);
    }
    let mut end: usize = maximum_bytes;
    while end > 0 && !value.is_char_boundary(end)
        invariant
            bytes == utf8(value@),
            end <= maximum_bytes,
            floor_boundary(bytes, maximum_bytes as int) == floor_boundary(bytes, end as int),
        decreases end,
    {
        end = end - 1;
    }
    assert(floor_boundary(bytes, end as int) == end);
    let parts = value.split_at(end);
    assert(utf8(parts.0@) =~= bytes.take(end as int));
    parts.0
}

/// What marks a conflict copy: the digest token, and a serial number where the token alone does
/// not tell the copies apart.
pub open spec fn conflict_suffix(token: Seq<char>, counter: Option<u32>) -> Seq<char> {
    match counter {
        Some(value) => ".conflict-"@ + token + "-"@ + decimal(value as nat),
        None => ".conflict-"@ + token,
    }
}

/// The bytes in front of the last component, the slash included.
pub open spec fn parent_bytes(original: Seq<u8>) -> int {
    last_position(original, 0x2f) + 1
}

/// The room that the last component of a conflict copy has.
pub open spec fn component_budget(original: Seq<u8>) -> int {
    let room = MAX_PATH_BYTES - parent_bytes(original);
    if room < MAX_COMPONENT_BYTES {
        room
    } else {
        MAX_COMPONENT_BYTES as int
    }
}

/// The last component of a conflict copy: the stem, shortened to what fits, the suffix, and the
/// extension if there is room for it.
pub open spec fn conflict_name(name: Seq<u8>, suffix: Seq<u8>, budget: int) -> Seq<u8> {
    let at = extension_at(name);
    let extension = if suffix.len() + (name.len() - at) < budget {
        name.skip(at)
    } else {
        Seq::empty()
    };
    truncated(name.take(at), budget - suffix.len() - extension.len()) + suffix + extension
}

/// The path of a conflict copy.
pub open spec fn conflict_path(original: Seq<u8>, token: Seq<char>, counter: Option<u32>) -> Result<
    Seq<u8>,
    ReconcileError,
> {
    let suffix = utf8(conflict_suffix(token, counter));
    let budget = component_budget(original);
    if budget < 0 || suffix.len() >= budget {
        Err(ReconcileError::ConflictPathTooLong)
    } else {
        let name = conflict_name(name_of(original), suffix, budget);
        let value = match parent_of(original) {
            Some(parent) => parent + seq![0x2fu8] + name,
            None => name,
        };
        match path_fault(value) {
            Some(fault) => Err(ReconcileError::ConflictPath(fault)),
            None => Ok(value),
        }
    }
}

fn build_suffix(token: &str, counter: Option<u32>) -> (suffix: String)
    ensures
        suffix@ == conflict_suffix(token@, counter),
{
    let mut suffix: String = ".conflict-".to_owned();
    append_text(&mut suffix, token);
    match counter {
        Some(value) => {
            append_text(&mut suffix, "-");
            append_number(&mut suffix, value as u64);
        },
        None => {},
    }
    suffix
}

proof fn lemma_slash_bytes()
    ensures
        utf8("/"@) == seq![0x2fu8],
{
    reveal_strlit("/");
    assert(vstd::utf8::is_ascii_chars("/"@)) by {
        assert("/"@[0] == '/');
    }
    vstd::utf8::is_ascii_chars_encode_utf8("/"@);
    assert(utf8("/"@) =~= seq![0x2fu8]);
}

/// Splits a path into its directory, if it has one, and its last component.
fn split_parent<'a>(text: &'a str) -> (parts: (Option<&'a str>, &'a str))
    ensures
        match parts.0 {
            Some(parent) => parent_of(utf8(text@)) == Some(utf8(parent@)) && utf8(parent@).len() + 1
                == parent_bytes(utf8(text@)),
            None => parent_of(utf8(text@)) is None && parent_bytes(utf8(text@)) == 0,
        },
        utf8(parts.1@) == name_of(utf8(text@)),
{
    match find_last(text.as_bytes(), 0x2f) {
        Some(at) => {
            let (parent, rest) = split_before_ascii(text, at);
            let name = drop_leading_ascii(rest);
            assert(utf8(name@) =~= name_of(utf8(text@)));
            (Some(parent), name)
        },
        None => {
            assert(name_of(utf8(text@)) =~= utf8(text@));
            (None, text)
        },
    }
}

/// Splits a name into its stem and its extension.
fn split_extension<'a>(name: &'a str) -> (parts: (&'a str, &'a str))
    ensures
        utf8(parts.0@) == utf8(name@).take(extension_at(utf8(name@))),
        utf8(parts.1@) == utf8(name@).skip(extension_at(utf8(name@))),
{
    match find_last(name.as_bytes(), 0x2e) {
        Some(at) => if at > 0 {
            return split_before_ascii(name, at);
        },
        None => {},
    }
    proof {
        reveal_strlit("");
        assert(utf8(""@) =~= Seq::empty());
        assert(utf8(name@).take(utf8(name@).len() as int) =~= utf8(name@));
        assert(utf8(name@).skip(utf8(name@).len() as int) =~= Seq::empty());
    }
    (name, "")
}

/// Builds the path of a conflict copy.
pub fn build_conflict_path(original: &WirePath, token: &str, counter: Option<u32>) -> (path: Result<
    WirePath,
    ReconcileError,
>)
    ensures
        match path {
            Ok(path) => conflict_path(original@, token@, counter) == Ok::<Seq<u8>, ReconcileError>(
                path@,
            ),
            Err(error) => conflict_path(original@, token@, counter) == Err::<
                Seq<u8>,
                ReconcileError,
            >(error),
        },
{
    let (parent, name) = split_parent(original.as_str());
    let (stem, extension) = split_extension(name);
    let suffix = build_suffix(token, counter);
    proof {
        lemma_last_before(original@, 0x2f, original@.len() as int);
    }
    let parent_len: usize = match parent {
        Some(parent) => byte_len(parent) + 1,
        None => 0,
    };
    let path_budget: usize = MAX_PATH_BYTES - parent_len;
    let budget: usize = if path_budget < MAX_COMPONENT_BYTES {
        path_budget
    } else {
        MAX_COMPONENT_BYTES
    };
    let suffix_len = byte_len(suffix.as_str());
    if suffix_len >= budget {
        return Err(ReconcileError::ConflictPathTooLong);
    }
    let ghost whole = utf8(name@);
    proof {
        reveal_strlit("");
        assert(utf8(""@) =~= Seq::empty());
        lemma_last_before(whole, 0x2e, whole.len() as int);
    }
    let kept_extension: &str = if byte_len(extension) < budget - suffix_len {
        extension
    } else {
        ""
    };
    let kept_stem = truncate_utf8(stem, budget - suffix_len - byte_len(kept_extension));
    let mut value: String = match parent {
        Some(parent) => parent.to_owned(),
        None => "".to_owned(),
    };
    if parent.is_some() {
        append_text(&mut value, "/");
    }
    let ghost head = utf8(value@);
    append_text(&mut value, kept_stem);
    append_text(&mut value, suffix.as_str());
    append_text(&mut value, kept_extension);
    proof {
        lemma_slash_bytes();
        let made = conflict_name(whole, utf8(suffix@), budget as int);
        assert(utf8(value@) =~= head + made);
        assert(head + made =~= (match parent_of(original@) {
            Some(parent) => parent + seq![0x2fu8] + made,
            None => made,
        }));
    }
    match WirePath::new(value.as_str()) {
        Ok(path) => Ok(path),
        Err(error) => Err(ReconcileError::ConflictPath(error)),
    }
}

/// How many conflict names are tried at most.
pub const MAX_ATTEMPTS: u32 = 10006;

/// How many digits of the digest the attempt uses.
pub open spec fn token_length(attempt: int) -> int {
    if attempt == 0 {
        12
    } else if attempt == 1 {
        16
    } else if attempt == 2 {
        24
    } else if attempt == 3 {
        32
    } else if attempt == 4 {
        48
    } else {
        64
    }
}

/// The serial number that the attempt uses: none for the first six, then counting from one.
pub open spec fn attempt_serial(attempt: int) -> Option<u32> {
    if attempt < 6 {
        None
    } else {
        Some((attempt - 5) as u32)
    }
}

/// The name that an attempt comes to.
pub open spec fn attempt_path(original: Seq<u8>, digest: Seq<u8>, attempt: int) -> Result<
    Seq<u8>,
    ReconcileError,
> {
    conflict_path(
        original,
        hex_text(digest).take(token_length(attempt)),
        attempt_serial(attempt),
    )
}

/// The first name from an attempt on that is not occupied. A name that cannot be built ends the
/// search.
pub open spec fn allocated_from(
    original: Seq<u8>,
    digest: Seq<u8>,
    occupied: Set<Seq<u8>>,
    attempt: int,
) -> Result<Seq<u8>, ReconcileError>
    decreases MAX_ATTEMPTS - attempt,
{
    if attempt >= MAX_ATTEMPTS {
        Err(ReconcileError::ConflictPathExhausted)
    } else {
        match attempt_path(original, digest, attempt) {
            Err(error) => Err(error),
            Ok(path) => if occupied.contains(path) {
                allocated_from(original, digest, occupied, attempt + 1)
            } else {
                Ok(path)
            },
        }
    }
}

/// The conflict name of a file that lost, by its path and logical digest.
pub open spec fn allocated(original: Seq<u8>, digest: Seq<u8>, occupied: Set<Seq<u8>>) -> Result<
    Seq<u8>,
    ReconcileError,
> {
    allocated_from(original, digest, occupied, 0)
}

/// An allocated name is a portable path that was not occupied. Counting is no reason to fail.
pub proof fn lemma_allocated_is_free(
    original: Seq<u8>,
    digest: Seq<u8>,
    occupied: Set<Seq<u8>>,
    attempt: int,
)
    ensures
        match allocated_from(original, digest, occupied, attempt) {
            Ok(path) => !occupied.contains(path) && path_fault(path) is None,
            Err(error) => error != ReconcileError::CounterOverflow,
        },
    decreases MAX_ATTEMPTS - attempt,
{
    if attempt < MAX_ATTEMPTS {
        match attempt_path(original, digest, attempt) {
            Ok(path) => {
                if occupied.contains(path) {
                    lemma_allocated_is_free(original, digest, occupied, attempt + 1);
                }
            },
            Err(_) => {},
        }
    }
}

/// A conflict name that is allocated is portable and was not in use, whatever was.
pub proof fn law_allocated_name_is_portable_and_free(
    original: Seq<u8>,
    digest: Seq<u8>,
    occupied: Set<Seq<u8>>,
)
    ensures
        match allocated(original, digest, occupied) {
            Ok(path) => {
                &&& !occupied.contains(path)
                &&& path_fault(path) is None
                &&& path.len() <= MAX_PATH_BYTES
            },
            Err(_) => true,
        },
{
    lemma_allocated_is_free(original, digest, occupied, 0);
}

/// The paths that a table of paths holds.
pub open spec fn path_set(paths: Seq<WirePath>) -> Set<Seq<u8>> {
    Set::new(|path: Seq<u8>| has_key(paths, path))
}

/// Finds the conflict name of a file that lost.
pub fn allocate_conflict_path(original: &WirePath, hash: &crate::hash::Hash32, occupied: &Vec<
    WirePath,
>) -> (path: Result<WirePath, ReconcileError>)
    requires
        ascending(occupied@),
    ensures
        match path {
            Ok(path) => allocated(original@, hash@, path_set(occupied@)) == Ok::<
                Seq<u8>,
                ReconcileError,
            >(path@),
            Err(error) => allocated(original@, hash@, path_set(occupied@)) == Err::<
                Seq<u8>,
                ReconcileError,
            >(error),
        },
{
    let token = hash.to_hex();
    proof {
        lemma_hex_is_ascii(hash@);
    }
    let mut attempt: u32 = 0;
    while attempt < MAX_ATTEMPTS
        invariant
            attempt <= MAX_ATTEMPTS,
            ascending(occupied@),
            token@ == hex_text(hash@),
            token@.len() == 64,
            token.is_ascii(),
            allocated(original@, hash@, path_set(occupied@)) == allocated_from(
                original@,
                hash@,
                path_set(occupied@),
                attempt as int,
            ),
        decreases MAX_ATTEMPTS - attempt,
    {
        let length: usize = match attempt {
            0 => 12,
            1 => 16,
            2 => 24,
            3 => 32,
            4 => 48,
            _ => 64,
        };
        let serial: Option<u32> = if attempt < 6 {
            None
        } else {
            Some(attempt - 5)
        };
        let part = token.as_str().substring_ascii(0, length);
        assert(part@ =~= hex_text(hash@).take(token_length(attempt as int)));
        match build_conflict_path(original, part, serial) {
            Ok(path) => {
                if !holds(occupied, path.key_bytes()) {
                    return Ok(path);
                }
            },
            Err(error) => {
                return Err(error);
            },
        }
        attempt = attempt + 1;
    }
    Err(ReconcileError::ConflictPathExhausted)
}

proof fn lemma_hex_is_ascii(bytes: Seq<u8>)
    ensures
        vstd::utf8::is_ascii_chars(hex_text(bytes)),
        hex_text(bytes).len() == 2 * bytes.len(),
{
    assert forall|i: int| 0 <= i < hex_text(bytes).len() implies (hex_text(bytes)[i] as nat) < 128 by {
        let b = bytes[i / 2] as int;
        assert(0 <= b / 16 < 16);
        assert(0 <= b % 16 < 16);
    }
}

} // verus!
