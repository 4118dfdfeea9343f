//! What a portable path can be trusted for.
use vstd::prelude::*;

use crate::path::{
    component_fault, components, fault_from, lemma_position_of, names_device, path_fault,
    position_of, WirePathError,
};

verus! {

/// An ASCII letter in either case.
pub open spec fn is_letter(byte: u8, small: u8) -> bool {
    byte == small || byte == small - 0x20
}

/// The component starts with three letters in any case.
pub open spec fn starts_with(part: Seq<u8>, a: u8, b: u8, c: u8) -> bool {
    part.len() >= 3 && is_letter(part[0], a) && is_letter(part[1], b) && is_letter(part[2], c)
}

/// The component is a name that some system takes for a device, in any case and with any extension:
/// CON, PRN, AUX, NUL, or COM or LPT with a digit from one to nine.
pub open spec fn is_device(part: Seq<u8>) -> bool {
    ||| (starts_with(part, 0x63, 0x6f, 0x6e) || starts_with(part, 0x70, 0x72, 0x6e) || starts_with(
        part,
        0x61,
        0x75,
        0x78,
    ) || starts_with(part, 0x6e, 0x75, 0x6c)) && (part.len() == 3 || part[3] == 0x2e)
    ||| (starts_with(part, 0x63, 0x6f, 0x6d) || starts_with(part, 0x6c, 0x70, 0x74)) && part.len()
        >= 4 && 0x31 <= part[3] <= 0x39 && (part.len() == 4 || part[4] == 0x2e)
}

/// What every component of a portable path is: not empty, no step up or in place, of at most 255
/// bytes, and without control characters, backslashes and colons.
pub open spec fn is_plain(part: Seq<u8>) -> bool {
    &&& 0 < part.len() <= 255
    &&& part != seq![0x2eu8]
    &&& part != seq![0x2eu8, 0x2eu8]
    &&& forall|i: int|
        0 <= i < part.len() ==> (#[trigger] part[i]) >= 0x20 && part[i] != 0x7f && part[i] != 0x5c
            && part[i] != 0x3a
}

proof fn lemma_component(parts: Seq<Seq<u8>>, from: int, i: int)
    requires
        fault_from(parts, from) is None,
        0 <= from <= i < parts.len(),
    ensures
        component_fault(parts[i]) is None,
    decreases i - from,
{
    if from < i {
        lemma_component(parts, from + 1, i);
    }
}

/// A portable path stays inside its folder on every system: it is not empty and not absolute, has at
/// most 4096 bytes, and none of its components leads up, is empty, or holds what some system takes
/// for more than a name.
pub proof fn law_portable_path_stays_inside(path: Seq<u8>, i: int)
    requires
        path_fault(path) is None,
        0 <= i < components(path).len(),
    ensures
        0 < path.len() <= 4096,
        path[0] != 0x2f,
        is_plain(components(path)[i]),
{
    let part = components(path)[i];
    lemma_component(components(path), 0, i);
    assert forall|k: int| 0 <= k < part.len() implies (#[trigger] part[k]) >= 0x20 && part[k] != 0x7f
        && part[k] != 0x5c && part[k] != 0x3a by {
        if part[k] < 0x20 || part[k] == 0x7f || part[k] == 0x5c || part[k] == 0x3a {
            assert(crate::path::forbidden_byte(part[k]));
        }
    }
}

/// A component that some system takes for a device is refused.
pub proof fn law_device_names_are_refused(part: Seq<u8>)
    requires
        is_plain(part),
        is_device(part),
    ensures
        component_fault(part) == Some(WirePathError::ReservedName),
{
    lemma_position_of(part, 0x2e);
    let at = position_of(part, 0x2e);
    let stem = part.take(at);
    assert(at >= 3);
    assert(names_device(part));
    lemma_plain(part);
}

proof fn lemma_plain(part: Seq<u8>)
    requires
        is_plain(part),
    ensures
        !(exists|i: int| 0 <= i < part.len() && crate::path::forbidden_byte(#[trigger] part[i])),
{
}

proof fn lemma_no_device(part: Seq<u8>)
    requires
        is_plain(part),
        !is_device(part),
    ensures
        !names_device(part),
        component_fault(part) is None,
{
    lemma_position_of(part, 0x2e);
    lemma_plain(part);
    let at = position_of(part, 0x2e);
    let stem = part.take(at);
    if names_device(part) {
        assert(stem[0] == part[0] && stem[1] == part[1] && stem[2] == part[2]);
        if stem.len() == 3 {
            assert(part.len() == 3 || part[3] == 0x2e);
        } else {
            assert(stem[3] == part[3]);
            assert(part.len() == 4 || part[4] == 0x2e);
        }
    }
}

/// A path is refused only for one of these reasons: a component that is plain and names no device is
/// in order, and a path of such components is portable.
pub proof fn law_plain_paths_are_portable(path: Seq<u8>)
    requires
        0 < path.len() <= 4096,
        path[0] != 0x2f,
        forall|i: int|
            0 <= i < components(path).len() ==> is_plain(#[trigger] components(path)[i])
                && !is_device(components(path)[i]),
    ensures
        path_fault(path) is None,
{
    lemma_no_fault(components(path), 0);
}

proof fn lemma_no_fault(parts: Seq<Seq<u8>>, from: int)
    requires
        0 <= from <= parts.len(),
        forall|i: int|
            0 <= i < parts.len() ==> is_plain(#[trigger] parts[i]) && !is_device(parts[i]),
    ensures
        fault_from(parts, from) is None,
    decreases parts.len() - from,
{
    if from < parts.len() {
        lemma_no_fault(parts, from + 1);
        lemma_no_device(parts[from]);
    }
}

/// What a path or a component is refused for is what is wrong with it.
pub proof fn law_path_is_refused_for_what_is_wrong(path: Seq<u8>, part: Seq<u8>)
    ensures
        path.len() == 0 ==> path_fault(path) == Some(WirePathError::Empty),
        path.len() > 4096 ==> path_fault(path) == Some(WirePathError::TooLong),
        0 < path.len() <= 4096 && path[0] == 0x2f ==> path_fault(path) == Some(
            WirePathError::Absolute,
        ),
        part.len() == 0 ==> component_fault(part) == Some(WirePathError::EmptyComponent),
        part == seq![0x2eu8] || part == seq![0x2eu8, 0x2eu8] ==> component_fault(part) == Some(
            WirePathError::Traversal,
        ),
        part.len() > 255 ==> component_fault(part) == Some(WirePathError::ComponentTooLong),
{
}

} // verus!
