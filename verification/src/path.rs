//! Portable relative paths.
use vstd::prelude::*;

use crate::order::same_bytes;
use crate::table::Keyed;
use crate::text::{drop_leading_ascii, split_before_ascii, utf8};

verus! {

/// The longest path, in bytes.
pub const MAX_PATH_BYTES: usize = 4096;

/// The longest path component, in bytes.
pub const MAX_COMPONENT_BYTES: usize = 255;

/// Why a text is not a portable path.
#[derive(Clone, Copy, Debug, PartialEq, Eq, Structural)]
pub enum WirePathError {
    /// The path is empty.
    Empty,
    /// The path is longer than the portable limit.
    TooLong,
    /// The path starts at a root.
    Absolute,
    /// A component is empty.
    EmptyComponent,
    /// A component is `.` or `..`.
    Traversal,
    /// A component is longer than the portable limit.
    ComponentTooLong,
    /// A component holds a control character, a backslash or a colon.
    ForbiddenCharacter,
    /// A component names a Windows device.
    ReservedName,
}

/// The position of the first `wanted` byte at or behind `from`, or the length.
pub open spec fn position_from(bytes: Seq<u8>, wanted: u8, from: int) -> int
    decreases bytes.len() - from,
{
    if from >= bytes.len() {
        bytes.len() as int
    } else if bytes[from] == wanted {
        from
    } else {
        position_from(bytes, wanted, from + 1)
    }
}

proof fn lemma_position_from(bytes: Seq<u8>, wanted: u8, from: int)
    requires
        0 <= from <= bytes.len(),
    ensures
        from <= position_from(bytes, wanted, from) <= bytes.len(),
        position_from(bytes, wanted, from) < bytes.len() ==> bytes[position_from(
            bytes,
            wanted,
            from,
        )] == wanted,
        forall|k: int| from <= k < position_from(bytes, wanted, from) ==> bytes[k] != wanted,
    decreases bytes.len() - from,
{
    if from < bytes.len() && bytes[from] != wanted {
        lemma_position_from(bytes, wanted, from + 1);
    }
}

/// The position of the first such byte, or the length.
pub open spec fn position_of(bytes: Seq<u8>, wanted: u8) -> int {
    position_from(bytes, wanted, 0)
}

/// What the position of the first such byte is.
pub proof fn lemma_position_of(bytes: Seq<u8>, wanted: u8)
    ensures
        0 <= position_of(bytes, wanted) <= bytes.len(),
        position_of(bytes, wanted) < bytes.len() ==> bytes[position_of(bytes, wanted)] == wanted,
        forall|k: int| 0 <= k < position_of(bytes, wanted) ==> bytes[k] != wanted,
{
    lemma_position_from(bytes, wanted, 0);
}

/// Finds the first such byte.
pub fn find_byte(bytes: &[u8], wanted: u8) -> (at: usize)
    ensures
        at == position_of(bytes@, wanted),
        at <= bytes@.len(),
{
    let mut at: usize = 0;
    while at < bytes.len() && bytes[at] != wanted
        invariant
            at <= bytes@.len(),
            position_of(bytes@, wanted) == position_from(bytes@, wanted, at as int),
        decreases bytes@.len() - at,
    {
        at = at + 1;
    }
    at
}

/// The parts of a path between its slashes.
pub open spec fn components(path: Seq<u8>) -> Seq<Seq<u8>>
    decreases path.len(),
    via components_decreases
{
    let at = position_of(path, 0x2f);
    if at >= path.len() {
        seq![path]
    } else {
        seq![path.take(at)] + components(path.skip(at + 1))
    }
}

#[via_fn]
proof fn components_decreases(path: Seq<u8>) {
    lemma_position_of(path, 0x2f);
}

/// Components put together with slashes between them.
pub open spec fn slashed(parts: Seq<Seq<u8>>) -> Seq<u8>
    decreases parts.len(),
{
    if parts.len() == 0 {
        Seq::empty()
    } else if parts.len() == 1 {
        parts[0]
    } else {
        parts[0] + seq![0x2fu8] + slashed(parts.drop_first())
    }
}

/// The components of a path put together again are the path.
pub proof fn lemma_components_slashed(path: Seq<u8>)
    ensures
        slashed(components(path)) == path,
        components(path).len() > 0,
    decreases path.len(),
{
    lemma_position_of(path, 0x2f);
    let at = position_of(path, 0x2f);
    if at < path.len() {
        let rest = path.skip(at + 1);
        lemma_components_slashed(rest);
        assert(components(path).drop_first() =~= components(rest));
        assert(path.take(at) + seq![0x2fu8] + rest =~= path);
    }
}

/// Different paths have different components.
pub proof fn lemma_components_injective(a: Seq<u8>, b: Seq<u8>)
    requires
        components(a) == components(b),
    ensures
        a == b,
{
    lemma_components_slashed(a);
    lemma_components_slashed(b);
}

/// An ASCII letter in upper case; other bytes as they are.
pub open spec fn upper(byte: u8) -> u8 {
    if 0x61 <= byte <= 0x7a {
        (byte - 0x20) as u8
    } else {
        byte
    }
}

/// The letters of a Windows device name, with the port digit where it has one.
pub open spec fn device_letters(a: u8, b: u8, c: u8) -> bool {
    ||| a == 0x43 && b == 0x4f && c == 0x4e
    ||| a == 0x50 && b == 0x52 && c == 0x4e
    ||| a == 0x41 && b == 0x55 && c == 0x58
    ||| a == 0x4e && b == 0x55 && c == 0x4c
}

/// The letters of a Windows port name.
pub open spec fn port_letters(a: u8, b: u8, c: u8) -> bool {
    ||| a == 0x43 && b == 0x4f && c == 0x4d
    ||| a == 0x4c && b == 0x50 && c == 0x54
}

/// The component, up to its first dot and in any case, is `CON`, `PRN`, `AUX`, `NUL`, or `COM` or
/// `LPT` with a digit from one to nine.
pub open spec fn names_device(part: Seq<u8>) -> bool {
    let stem = part.take(position_of(part, 0x2e));
    ||| stem.len() == 3 && device_letters(upper(stem[0]), upper(stem[1]), upper(stem[2]))
    ||| stem.len() == 4 && port_letters(upper(stem[0]), upper(stem[1]), upper(stem[2])) && 0x31
        <= stem[3] <= 0x39
}

/// A control character, a backslash or a colon.
pub open spec fn forbidden_byte(byte: u8) -> bool {
    byte < 0x20 || byte == 0x7f || byte == 0x5c || byte == 0x3a
}

/// What is wrong with a path component.
pub open spec fn component_fault(part: Seq<u8>) -> Option<WirePathError> {
    if part.len() == 0 {
        Some(WirePathError::EmptyComponent)
    } else if part == seq![0x2eu8] || part == seq![0x2eu8, 0x2eu8] {
        Some(WirePathError::Traversal)
    } else if part.len() > MAX_COMPONENT_BYTES {
        Some(WirePathError::ComponentTooLong)
    } else if exists|i: int| 0 <= i < part.len() && forbidden_byte(#[trigger] part[i]) {
        Some(WirePathError::ForbiddenCharacter)
    } else if names_device(part) {
        Some(WirePathError::ReservedName)
    } else {
        None
    }
}

/// What is wrong with the first faulty component at or behind position `i`.
pub open spec fn fault_from(parts: Seq<Seq<u8>>, i: int) -> Option<WirePathError>
    decreases parts.len() - i,
{
    if i < 0 || i >= parts.len() {
        None
    } else if component_fault(parts[i]) is Some {
        component_fault(parts[i])
    } else {
        fault_from(parts, i + 1)
    }
}

/// What is wrong with a path.
pub open spec fn path_fault(path: Seq<u8>) -> Option<WirePathError> {
    if path.len() == 0 {
        Some(WirePathError::Empty)
    } else if path.len() > MAX_PATH_BYTES {
        Some(WirePathError::TooLong)
    } else if path[0] == 0x2f {
        Some(WirePathError::Absolute)
    } else {
        fault_from(components(path), 0)
    }
}

/// The bytes of each text.
pub open spec fn text_bytes(texts: Seq<String>) -> Seq<Seq<u8>> {
    Seq::new(texts.len(), |i: int| utf8(texts[i]@))
}

/// Splits a path text into its components.
pub fn split_components(text: &str) -> (parts: Vec<String>)
    ensures
        text_bytes(parts@) == components(utf8(text@)),
{
    let mut parts: Vec<String> = Vec::new();
    let mut rest: &str = text;
    let ghost whole = components(utf8(text@));
    assert(text_bytes(parts@) + components(utf8(rest@)) =~= whole);
    loop
        invariant_except_break
            text_bytes(parts@) + components(utf8(rest@)) == whole,
        ensures
            text_bytes(parts@) == whole,
        decreases utf8(rest@).len(),
    {
        let bytes = rest.as_bytes();
        let at = find_byte(bytes, 0x2f);
        let ghost before = text_bytes(parts@);
        let ghost here = utf8(rest@);
        if at >= bytes.len() {
            parts.push(rest.to_owned());
            assert(components(here) =~= seq![here]);
            assert(text_bytes(parts@) =~= before.push(here));
            assert(before.push(here) =~= before + seq![here]);
            break;
        }
        proof {
            lemma_position_of(here, 0x2f);
        }
        let (head, tail) = split_before_ascii(rest, at);
        parts.push(head.to_owned());
        rest = drop_leading_ascii(tail);
        proof {
            assert(utf8(rest@) =~= here.skip(at + 1));
            assert(text_bytes(parts@) =~= before.push(here.take(at as int)));
            assert(before.push(here.take(at as int)) + components(utf8(rest@)) =~= before
                + components(here));
        }
    }
    parts
}

fn upper_byte(byte: u8) -> (up: u8)
    ensures
        up == upper(byte),
{
    if 0x61 <= byte && byte <= 0x7a {
        byte - 0x20
    } else {
        byte
    }
}

fn check_device(part: &[u8]) -> (r: bool)
    ensures
        r == names_device(part@),
{
    let end = find_byte(part, 0x2e);
    if end != 3 && end != 4 {
        return false;
    }
    let a = upper_byte(part[0]);
    let b = upper_byte(part[1]);
    let c = upper_byte(part[2]);
    let ghost stem = part@.take(end as int);
    assert(stem[0] == part@[0] && stem[1] == part@[1] && stem[2] == part@[2]);
    if end == 3 {
        (a == 0x43 && b == 0x4f && c == 0x4e) || (a == 0x50 && b == 0x52 && c == 0x4e) || (a == 0x41
            && b == 0x55 && c == 0x58) || (a == 0x4e && b == 0x55 && c == 0x4c)
    } else {
        assert(stem[3] == part@[3]);
        ((a == 0x43 && b == 0x4f && c == 0x4d) || (a == 0x4c && b == 0x50 && c == 0x54)) && 0x31
            <= part[3] && part[3] <= 0x39
    }
}

fn check_component(part: &[u8]) -> (fault: Option<WirePathError>)
    ensures
        fault == component_fault(part@),
{
    if part.len() == 0 {
        return Some(WirePathError::EmptyComponent);
    }
    if part[0] == 0x2e && (part.len() == 1 || (part.len() == 2 && part[1] == 0x2e)) {
        if part.len() == 1 {
            assert(part@ =~= seq![0x2eu8]);
        } else {
            assert(part@ =~= seq![0x2eu8, 0x2eu8]);
        }
        return Some(WirePathError::Traversal);
    }
    assert(part@ != seq![0x2eu8] && part@ != seq![0x2eu8, 0x2eu8]) by {
        if part@ == seq![0x2eu8, 0x2eu8] {
            assert(part@[1] == 0x2e);
        }
    }
    if part.len() > MAX_COMPONENT_BYTES {
        return Some(WirePathError::ComponentTooLong);
    }
    let mut i: usize = 0;
    while i < part.len()
        invariant
            i <= part@.len(),
            0 < part@.len() <= MAX_COMPONENT_BYTES,
            part@ != seq![0x2eu8],
            part@ != seq![0x2eu8, 0x2eu8],
            forall|k: int| 0 <= k < i ==> !forbidden_byte(#[trigger] part@[k]),
        decreases part@.len() - i,
    {
        let byte = part[i];
        if byte < 0x20 || byte == 0x7f || byte == 0x5c || byte == 0x3a {
            assert(forbidden_byte(part@[i as int]));
            return Some(WirePathError::ForbiddenCharacter);
        }
        i = i + 1;
    }
    if check_device(part) {
        Some(WirePathError::ReservedName)
    } else {
        None
    }
}

/// Finds what is wrong with a path text.
pub fn check_path(text: &str) -> (fault: Option<WirePathError>)
    ensures
        fault == path_fault(utf8(text@)),
{
    let bytes = text.as_bytes();
    if bytes.len() == 0 {
        return Some(WirePathError::Empty);
    }
    if bytes.len() > MAX_PATH_BYTES {
        return Some(WirePathError::TooLong);
    }
    if bytes[0] == 0x2f {
        return Some(WirePathError::Absolute);
    }
    let parts = split_components(text);
    let ghost whole = components(utf8(text@));
    let mut i: usize = 0;
    while i < parts.len()
        invariant
            i <= parts@.len(),
            whole == text_bytes(parts@),
            path_fault(utf8(text@)) == fault_from(whole, 0),
            fault_from(whole, 0) == fault_from(whole, i as int),
        decreases parts@.len() - i,
    {
        assert(whole[i as int] == utf8(parts@[i as int]@));
        let fault = check_component(parts[i].as_str().as_bytes());
        if fault.is_some() {
            return fault;
        }
        i = i + 1;
    }
    None
}

/// A portable relative path.
#[derive(Debug, PartialEq, Eq, PartialOrd, Ord, Hash)]
pub struct WirePath {
    text: String,
}

impl View for WirePath {
    type V = Seq<u8>;

    /// The UTF-8 bytes of the path.
    closed spec fn view(&self) -> Seq<u8> {
        utf8(self.text@)
    }
}

impl Keyed for WirePath {
    open spec fn key(&self) -> Seq<u8> {
        self@
    }

    fn key_bytes(&self) -> (bytes: &[u8]) {
        assert(self.key() == utf8(self.text@));
        self.text.as_str().as_bytes()
    }
}

impl Clone for WirePath {
    fn clone(&self) -> (copy: Self)
        ensures
            copy == *self,
    {
        proof {
            use_type_invariant(self);
        }
        WirePath { text: self.text.clone() }
    }
}

impl WirePath {
    #[verifier::type_invariant]
    spec fn inv(&self) -> bool {
        path_fault(utf8(self.text@)) is None
    }

    /// Checks a text against the portable path rules.
    pub fn new(text: &str) -> (path: Result<Self, WirePathError>)
        ensures
            match path {
                Ok(path) => path_fault(utf8(text@)) is None && path@ == utf8(text@),
                Err(error) => path_fault(utf8(text@)) == Some(error),
            },
    {
        match check_path(text) {
            Some(error) => Err(error),
            None => Ok(WirePath { text: text.to_owned() }),
        }
    }

    /// The path as text.
    pub fn as_str(&self) -> (text: &str)
        ensures
            utf8(text@) == self@,
            path_fault(self@) is None,
    {
        proof {
            use_type_invariant(self);
        }
        self.text.as_str()
    }

    /// The components of the path.
    pub fn components(&self) -> (parts: Vec<String>)
        ensures
            text_bytes(parts@) == components(self@),
            path_fault(self@) is None,
    {
        proof {
            use_type_invariant(self);
        }
        split_components(self.text.as_str())
    }

    /// Whether two paths are the same.
    pub fn same(&self, other: &WirePath) -> (same: bool)
        ensures
            same == (self@ == other@),
    {
        same_bytes(self.key_bytes(), other.key_bytes())
    }
}

} // verus!
