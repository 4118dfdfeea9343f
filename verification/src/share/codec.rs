//! The byte forms that are signed and measured: fields one behind the other, numbers in seven-bit
//! groups.
use vstd::prelude::*;

use crate::hash::push_bytes;

verus! {

/// A number in groups of seven bits, the lowest first; every group but the last has its top bit
/// set.
pub open spec fn varint(value: nat) -> Seq<u8>
    decreases value,
{
    if value < 128 {
        seq![value as u8]
    } else {
        seq![(value % 128 + 128) as u8] + varint(value / 128)
    }
}

/// `postcard::to_stdvec` on an unsigned number wider than a byte: seven bits to a byte, the lowest
/// group first, the top bit of each byte telling whether another one follows.
#[verifier::external_body]
fn encode_number(value: u64) -> (bytes: Vec<u8>)
    ensures
        bytes@ == varint(value as nat),
{
    postcard::to_stdvec(&value).expect("a number always has a byte form")
}

/// `postcard::to_stdvec` on an unsigned number of 128 bits, which is written as narrower ones are.
#[verifier::external_body]
fn encode_wide(value: u128) -> (bytes: Vec<u8>)
    ensures
        bytes@ == varint(value as nat),
{
    postcard::to_stdvec(&value).expect("a number always has a byte form")
}

/// Appends a number of up to 128 bits.
pub fn push_wide(out: &mut Vec<u8>, value: u128)
    ensures
        final(out)@ == old(out)@ + varint(value as nat),
{
    let bytes = encode_wide(value);
    push_bytes(out, bytes.as_slice());
}

/// Appends a number.
pub fn push_number(out: &mut Vec<u8>, value: u64)
    ensures
        final(out)@ == old(out)@ + varint(value as nat),
{
    let bytes = encode_number(value);
    push_bytes(out, bytes.as_slice());
}

/// The bytes of a number, with others behind them, fix it.
pub proof fn lemma_varint_first(a: nat, r: Seq<u8>, b: nat, s: Seq<u8>)
    requires
        varint(a) + r == varint(b) + s,
    ensures
        a == b,
        r == s,
    decreases a,
{
    let x = varint(a) + r;
    let y = varint(b) + s;
    assert(x[0] == varint(a)[0]);
    assert(y[0] == varint(b)[0]);
    if a < 128 {
        assert(b < 128);
        assert(x.skip(1) =~= r);
        assert(y.skip(1) =~= s);
    } else {
        assert(b >= 128);
        assert(x.skip(1) =~= varint(a / 128) + r);
        assert(y.skip(1) =~= varint(b / 128) + s);
        lemma_varint_first(a / 128, r, b / 128, s);
    }
}

/// A byte string with its length in front.
pub open spec fn sized(bytes: Seq<u8>) -> Seq<u8> {
    varint(bytes.len()) + bytes
}

/// Appends a byte string with its length in front.
pub fn push_sized(out: &mut Vec<u8>, bytes: &[u8])
    ensures
        final(out)@ == old(out)@ + sized(bytes@),
{
    push_number(out, bytes.len() as u64);
    push_bytes(out, bytes);
    assert(out@ =~= old(out)@ + sized(bytes@));
}

/// A number that may be missing.
pub open spec fn optional_number(value: Option<u64>) -> Seq<u8> {
    match value {
        Some(value) => seq![1u8] + varint(value as nat),
        None => seq![0u8],
    }
}

/// Appends a number that may be missing.
pub fn push_optional(out: &mut Vec<u8>, value: Option<u64>)
    ensures
        final(out)@ == old(out)@ + optional_number(value),
{
    match value {
        Some(value) => {
            out.push(1);
            push_number(out, value);
            assert(out@ =~= old(out)@ + (seq![1u8] + varint(value as nat)));
        },
        None => {
            out.push(0);
            assert(out@ =~= old(out)@ + seq![0u8]);
        },
    }
}

/// The bytes that are signed: a domain, a zero byte, and the payload.
pub open spec fn in_domain(domain: Seq<char>, payload: Seq<u8>) -> Seq<u8> {
    crate::text::utf8(domain) + seq![0u8] + payload
}

/// Puts a domain in front of a payload.
pub fn with_domain(domain: &str, payload: &[u8]) -> (bytes: Vec<u8>)
    ensures
        bytes@ == in_domain(domain@, payload@),
{
    let mut bytes: Vec<u8> = Vec::new();
    push_bytes(&mut bytes, domain.as_bytes());
    bytes.push(0);
    push_bytes(&mut bytes, payload);
    assert(bytes@ =~= in_domain(domain@, payload@));
    bytes
}

} // verus!
