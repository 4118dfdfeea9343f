//! The byte-wise lexicographic order that every key in the library is kept in.
use vstd::prelude::*;

verus! {

/// How two byte strings stand to each other.
#[derive(Clone, Copy, Debug, PartialEq, Eq, Structural)]
pub enum ByteOrder {
    Less,
    Same,
    Greater,
}

/// `a` comes before `b` when only the bytes from position `i` on are looked at.
pub open spec fn less_from(a: Seq<u8>, b: Seq<u8>, i: int) -> bool
    decreases a.len() - i,
{
    if i < 0 || i >= b.len() {
        false
    } else if i >= a.len() {
        true
    } else if a[i] != b[i] {
        a[i] < b[i]
    } else {
        less_from(a, b, i + 1)
    }
}

/// The byte-wise lexicographic order: a proper prefix comes before what extends it.
pub open spec fn byte_less(a: Seq<u8>, b: Seq<u8>) -> bool {
    less_from(a, b, 0)
}

proof fn lemma_less_from_asym(a: Seq<u8>, b: Seq<u8>, i: int)
    requires
        0 <= i,
        less_from(a, b, i),
    ensures
        !less_from(b, a, i),
    decreases a.len() - i,
{
    if i < a.len() && a[i] == b[i] {
        lemma_less_from_asym(a, b, i + 1);
    }
}

proof fn lemma_less_from_total(a: Seq<u8>, b: Seq<u8>, i: int)
    requires
        0 <= i <= a.len(),
        i <= b.len(),
        forall|k: int| 0 <= k < i ==> a[k] == b[k],
        !less_from(a, b, i),
        !less_from(b, a, i),
    ensures
        a == b,
    decreases a.len() - i,
{
    if i < a.len() && i < b.len() {
        lemma_less_from_total(a, b, i + 1);
    } else {
        assert(a =~= b);
    }
}

proof fn lemma_less_from_trans(a: Seq<u8>, b: Seq<u8>, c: Seq<u8>, i: int)
    requires
        0 <= i,
        less_from(a, b, i),
        less_from(b, c, i),
    ensures
        less_from(a, c, i),
    decreases a.len() - i,
{
    if i < a.len() && a[i] == b[i] && b[i] == c[i] {
        lemma_less_from_trans(a, b, c, i + 1);
    }
}

/// No byte string comes before itself, and no two come before each other.
pub proof fn lemma_byte_less_asym(a: Seq<u8>, b: Seq<u8>)
    ensures
        byte_less(a, b) ==> !byte_less(b, a),
        !byte_less(a, a),
{
    if byte_less(a, b) {
        lemma_less_from_asym(a, b, 0);
    }
    if byte_less(a, a) {
        lemma_less_from_asym(a, a, 0);
    }
}

/// Of two different byte strings one comes before the other.
pub proof fn lemma_byte_less_total(a: Seq<u8>, b: Seq<u8>)
    ensures
        byte_less(a, b) || byte_less(b, a) || a == b,
{
    if !byte_less(a, b) && !byte_less(b, a) {
        lemma_less_from_total(a, b, 0);
    }
}

/// The order is transitive.
pub proof fn lemma_byte_less_trans(a: Seq<u8>, b: Seq<u8>, c: Seq<u8>)
    ensures
        byte_less(a, b) && byte_less(b, c) ==> byte_less(a, c),
{
    if byte_less(a, b) && byte_less(b, c) {
        lemma_less_from_trans(a, b, c, 0);
    }
}

/// Compares two byte strings lexicographically.
pub fn compare_bytes(a: &[u8], b: &[u8]) -> (order: ByteOrder)
    ensures
        order == ByteOrder::Less <==> byte_less(a@, b@),
        order == ByteOrder::Same <==> a@ == b@,
        order == ByteOrder::Greater <==> byte_less(b@, a@),
{
    proof {
        lemma_byte_less_asym(a@, b@);
        lemma_byte_less_asym(b@, b@);
    }
    let mut i: usize = 0;
    while i < a.len() && i < b.len()
        invariant
            i <= a@.len(),
            i <= b@.len(),
            forall|k: int| 0 <= k < i ==> a@[k] == b@[k],
            byte_less(a@, b@) == less_from(a@, b@, i as int),
            byte_less(b@, a@) == less_from(b@, a@, i as int),
            byte_less(a@, b@) ==> !byte_less(b@, a@),
            !byte_less(b@, b@),
        decreases a@.len() - i,
    {
        if a[i] < b[i] {
            return ByteOrder::Less;
        }
        if a[i] > b[i] {
            return ByteOrder::Greater;
        }
        i = i + 1;
    }
    if i < b.len() {
        ByteOrder::Less
    } else if i < a.len() {
        ByteOrder::Greater
    } else {
        assert(a@ =~= b@);
        ByteOrder::Same
    }
}

/// Whether two byte strings are the same.
pub fn same_bytes(a: &[u8], b: &[u8]) -> (same: bool)
    ensures
        same == (a@ == b@),
{
    if a.len() != b.len() {
        return false;
    }
    let mut i: usize = 0;
    while i < a.len()
        invariant
            i <= a@.len(),
            a@.len() == b@.len(),
            forall|k: int| 0 <= k < i ==> a@[k] == b@[k],
        decreases a@.len() - i,
    {
        if a[i] != b[i] {
            return false;
        }
        i = i + 1;
    }
    assert(a@ =~= b@);
    true
}

proof fn lemma_first_difference(a: Seq<u8>, b: Seq<u8>, i: int, k: int)
    requires
        0 <= i <= k,
        k <= a.len(),
        k <= b.len(),
        forall|j: int| 0 <= j < k ==> a[j] == b[j],
    ensures
        k < a.len() && k < b.len() && a[k] < b[k] ==> less_from(a, b, i),
        k < a.len() && k < b.len() && a[k] > b[k] ==> !less_from(a, b, i),
        k == a.len() && k < b.len() ==> less_from(a, b, i),
        k == b.len() ==> !less_from(a, b, i),
    decreases k - i,
{
    if i < k {
        lemma_first_difference(a, b, i + 1, k);
    }
}

/// Of two byte strings that are alike up to a position, the one with the smaller byte there comes
/// first, or the one that ends there.
pub proof fn law_first_difference_decides(a: Seq<u8>, b: Seq<u8>, k: int)
    requires
        0 <= k <= a.len(),
        k <= b.len(),
        forall|j: int| 0 <= j < k ==> a[j] == b[j],
    ensures
        k < a.len() && k < b.len() && a[k] != b[k] ==> (byte_less(a, b) <==> a[k] < b[k]),
        k == a.len() ==> (byte_less(a, b) <==> a.len() < b.len()),
        k == b.len() ==> !byte_less(a, b),
{
    lemma_first_difference(a, b, 0, k);
}

} // verus!
