//! 32-byte digests and the BLAKE3 and hexadecimal functions behind them.
use vstd::prelude::*;

use crate::order::{byte_less, compare_bytes, same_bytes, ByteOrder};
use crate::table::Keyed;

verus! {

/// What `blake3::hash` returns for an input.
pub uninterp spec fn blake3_digest(input: Seq<u8>) -> Seq<u8>;

/// What `blake3::derive_key` returns for a context and a key material.
pub uninterp spec fn blake3_derived(context: Seq<char>, material: Seq<u8>) -> Seq<u8>;

/// `blake3::hash`: the unkeyed BLAKE3 digest of the input, a function of the input alone.
#[verifier::external_body]
fn hash_input(input: &[u8]) -> (digest: [u8; 32])
    ensures
        digest@ == blake3_digest(input@),
{
    *blake3::hash(input).as_bytes()
}

/// `blake3::derive_key`: 32 bytes derived from a context string and a key material, a function
/// of the two alone. A hasher made with `Hasher::new_derive_key` and fed the same bytes in any
/// number of pieces finalizes to the same value.
#[verifier::external_body]
fn derive_input(context: &str, material: &[u8]) -> (digest: [u8; 32])
    ensures
        digest@ == blake3_derived(context@, material@),
{
    blake3::derive_key(context, material)
}

/// The lower-case hexadecimal digit of a value under 16.
pub open spec fn hex_digit(value: int) -> char {
    if value < 10 {
        (('0' as u32) + value) as char
    } else {
        (('a' as u32) + value - 10) as char
    }
}

/// The lower-case hexadecimal text of a byte string: two digits for each byte, high half first.
pub open spec fn hex_text(bytes: Seq<u8>) -> Seq<char> {
    Seq::new(
        2 * bytes.len(),
        |i: int|
            if i % 2 == 0 {
                hex_digit(bytes[i / 2] as int / 16)
            } else {
                hex_digit(bytes[i / 2] as int % 16)
            },
    )
}

/// `hex::encode`: the lower-case hexadecimal text of the bytes.
#[verifier::external_body]
pub(crate) fn hex_encode(bytes: &[u8]) -> (text: String)
    ensures
        text@ == hex_text(bytes@),
{
    hex::encode(bytes)
}

/// The value of a hexadecimal digit in either case, or -1.
pub open spec fn hex_value(digit: u8) -> int {
    if 0x30 <= digit <= 0x39 {
        digit - 0x30
    } else if 0x61 <= digit <= 0x66 {
        digit - 0x61 + 10
    } else if 0x41 <= digit <= 0x46 {
        digit - 0x41 + 10
    } else {
        -1
    }
}

/// The bytes that a hexadecimal text stands for; none if its length is odd or it holds anything
/// but hexadecimal digits.
pub open spec fn hex_bytes(text: Seq<u8>) -> Option<Seq<u8>> {
    if text.len() % 2 == 0 && forall|i: int|
        0 <= i < text.len() ==> hex_value(#[trigger] text[i]) >= 0 {
        Some(
            Seq::new(
                text.len() / 2,
                |i: int| (hex_value(text[2 * i]) * 16 + hex_value(text[2 * i + 1])) as u8,
            ),
        )
    } else {
        None
    }
}

/// `hex::decode`: the bytes that a hexadecimal text stands for. Which digit was wrong is left out.
#[verifier::external_body]
pub(crate) fn hex_decode(text: &[u8]) -> (bytes: Option<Vec<u8>>)
    ensures
        match bytes {
            Some(bytes) => hex_bytes(text@) == Some(bytes@),
            None => hex_bytes(text@) is None,
        },
{
    hex::decode(text).ok()
}

/// A hexadecimal text has two ASCII digits for each byte.
pub proof fn lemma_hex_length(bytes: Seq<u8>)
    ensures
        vstd::utf8::is_ascii_chars(hex_text(bytes)),
        crate::text::utf8(hex_text(bytes)).len() == 2 * bytes.len(),
{
    let chars = hex_text(bytes);
    assert forall|i: int| 0 <= i < chars.len() implies '\0' <= #[trigger] chars[i] <= '\u{7f}' by {
        let b = bytes[i / 2] as int;
        assert(0 <= b / 16 < 16);
        assert(0 <= b % 16 < 16);
    }
    vstd::utf8::is_ascii_chars_encode_utf8(chars);
}

/// Reading a hexadecimal text gives back the bytes it was written from.
pub proof fn law_hex_reads_back(bytes: Seq<u8>)
    ensures
        hex_bytes(crate::text::utf8(hex_text(bytes))) == Some(bytes),
{
    let chars = hex_text(bytes);
    lemma_hex_length(bytes);
    vstd::utf8::is_ascii_chars_encode_utf8(chars);
    let text = crate::text::utf8(chars);
    assert forall|i: int| 0 <= i < text.len() implies hex_value(#[trigger] text[i]) == (if i % 2
        == 0 {
        bytes[i / 2] as int / 16
    } else {
        bytes[i / 2] as int % 16
    }) by {
        let b = bytes[i / 2] as int;
        assert(0 <= b / 16 < 16);
        assert(0 <= b % 16 < 16);
        assert(text[i] == chars[i] as u8);
    }
    let back = hex_bytes(text)->0;
    assert forall|i: int| 0 <= i < bytes.len() implies #[trigger] back[i] == bytes[i] by {
        assert(hex_value(text[2 * i]) == bytes[i] as int / 16);
        assert(hex_value(text[2 * i + 1]) == bytes[i] as int % 16);
    }
    assert(back =~= bytes);
}

/// Whether two arrays hold the same bytes.
pub fn same_array<const N: usize>(a: &[u8; N], b: &[u8; N]) -> (same: bool)
    ensures
        same == (*a == *b),
{
    let same = same_bytes(a.as_slice(), b.as_slice());
    proof {
        if a@ == b@ {
            assert forall|i: int| 0 <= i < N implies a[i] == b[i] by {
                assert(a@[i] == b@[i]);
            }
            assert(*a =~= *b);
        }
    }
    same
}

/// Two arrays with the same view are the same array.
pub proof fn lemma_array_view_injective<const N: usize>(a: [u8; N], b: [u8; N])
    requires
        a@ == b@,
    ensures
        a == b,
{
    assert forall|i: int| 0 <= i < N implies a[i] == b[i] by {
        assert(a@[i] == b@[i]);
    }
    assert(a =~= b);
}

/// The eight little-endian bytes of a number.
pub open spec fn le_bytes(value: u64) -> Seq<u8> {
    seq![
        (value % 256) as u8,
        (value / 0x100 % 256) as u8,
        (value / 0x1_0000 % 256) as u8,
        (value / 0x100_0000 % 256) as u8,
        (value / 0x1_0000_0000 % 256) as u8,
        (value / 0x100_0000_0000 % 256) as u8,
        (value / 0x1_0000_0000_0000 % 256) as u8,
        (value / 0x100_0000_0000_0000 % 256) as u8,
    ]
}

/// Where two byte strings are the same and their first parts are as long, the parts are the same.
pub proof fn lemma_same_parts(a: Seq<u8>, b: Seq<u8>, c: Seq<u8>, d: Seq<u8>)
    requires
        a + b == c + d,
        a.len() == c.len(),
    ensures
        a == c,
        b == d,
{
    let whole = a + b;
    assert(a =~= whole.take(a.len() as int));
    assert(c =~= (c + d).take(c.len() as int));
    assert(b =~= whole.skip(a.len() as int));
    assert(d =~= (c + d).skip(c.len() as int));
}

/// Numbers with the same little-endian bytes are the same.
pub proof fn lemma_le_bytes_injective(a: u64, b: u64)
    requires
        le_bytes(a) == le_bytes(b),
    ensures
        a == b,
{
    let x = le_bytes(a);
    let y = le_bytes(b);
    assert(x[0] == y[0]);
    assert(a % 256 == b % 256);
    assert(x[1] == y[1]);
    assert(a / 0x100 % 256 == b / 0x100 % 256);
    assert(x[2] == y[2]);
    assert(a / 0x1_0000 % 256 == b / 0x1_0000 % 256);
    assert(x[3] == y[3]);
    assert(a / 0x100_0000 % 256 == b / 0x100_0000 % 256);
    assert(x[4] == y[4]);
    assert(a / 0x1_0000_0000 % 256 == b / 0x1_0000_0000 % 256);
    assert(x[5] == y[5]);
    assert(a / 0x100_0000_0000 % 256 == b / 0x100_0000_0000 % 256);
    assert(x[6] == y[6]);
    assert(a / 0x1_0000_0000_0000 % 256 == b / 0x1_0000_0000_0000 % 256);
    assert(x[7] == y[7]);
    assert(a / 0x100_0000_0000_0000 % 256 == b / 0x100_0000_0000_0000 % 256);
    assert(a == b) by (bit_vector)
        requires
            a % 256 == b % 256,
            a / 0x100 % 256 == b / 0x100 % 256,
            a / 0x1_0000 % 256 == b / 0x1_0000 % 256,
            a / 0x100_0000 % 256 == b / 0x100_0000 % 256,
            a / 0x1_0000_0000 % 256 == b / 0x1_0000_0000 % 256,
            a / 0x100_0000_0000 % 256 == b / 0x100_0000_0000 % 256,
            a / 0x1_0000_0000_0000 % 256 == b / 0x1_0000_0000_0000 % 256,
            a / 0x100_0000_0000_0000 % 256 == b / 0x100_0000_0000_0000 % 256,
    ;
}

/// Appends the eight little-endian bytes of a number.
pub fn push_le(out: &mut Vec<u8>, value: u64)
    ensures
        final(out)@ == old(out)@ + le_bytes(value),
{
    out.push((value % 256) as u8);
    out.push((value / 0x100 % 256) as u8);
    out.push((value / 0x1_0000 % 256) as u8);
    out.push((value / 0x100_0000 % 256) as u8);
    out.push((value / 0x1_0000_0000 % 256) as u8);
    out.push((value / 0x100_0000_0000 % 256) as u8);
    out.push((value / 0x1_0000_0000_0000 % 256) as u8);
    out.push((value / 0x100_0000_0000_0000 % 256) as u8);
    assert(out@ =~= old(out)@ + le_bytes(value));
}

/// Appends a byte string.
pub fn push_bytes(out: &mut Vec<u8>, bytes: &[u8])
    ensures
        final(out)@ == old(out)@ + bytes@,
{
    let mut i: usize = 0;
    assert(out@ =~= old(out)@ + bytes@.take(0));
    while i < bytes.len()
        invariant
            i <= bytes@.len(),
            out@ == old(out)@ + bytes@.take(i as int),
        decreases bytes@.len() - i,
    {
        out.push(bytes[i]);
        i = i + 1;
        assert(bytes@.take(i as int) =~= bytes@.take(i - 1).push(bytes@[i - 1]));
        assert(out@ =~= old(out)@ + bytes@.take(i as int));
    }
    assert(bytes@.take(i as int) =~= bytes@);
}

/// A 32-byte digest.
#[derive(Clone, Copy, Debug, Eq, PartialOrd, Ord, Hash)]
pub struct Hash32 {
    pub bytes: [u8; 32],
}

impl PartialEq for Hash32 {
    fn eq(&self, other: &Self) -> (same: bool) {
        same_array(&self.bytes, &other.bytes)
    }
}

impl vstd::std_specs::cmp::PartialEqSpecImpl for Hash32 {
    open spec fn obeys_eq_spec() -> bool {
        true
    }

    open spec fn eq_spec(&self, other: &Self) -> bool {
        *self == *other
    }
}

impl Default for Hash32 {
    fn default() -> (hash: Self)
        ensures
            hash@ == Seq::new(32, |i: int| 0u8),
    {
        let hash = Hash32 { bytes: [0u8; 32] };
        assert(hash.bytes@ =~= Seq::new(32, |i: int| 0u8));
        hash
    }
}

impl View for Hash32 {
    type V = Seq<u8>;

    open spec fn view(&self) -> Seq<u8> {
        self.bytes@
    }
}

impl Keyed for Hash32 {
    open spec fn key(&self) -> Seq<u8> {
        self.bytes@
    }

    fn key_bytes(&self) -> (bytes: &[u8]) {
        self.bytes.as_slice()
    }
}

impl Hash32 {
    /// The BLAKE3 digest of a byte string.
    pub fn digest(input: &[u8]) -> (hash: Self)
        ensures
            hash@ == blake3_digest(input@),
    {
        Hash32 { bytes: hash_input(input) }
    }

    /// The BLAKE3 key derived from a context and a material.
    pub fn derive(context: &str, material: &[u8]) -> (hash: Self)
        ensures
            hash@ == blake3_derived(context@, material@),
    {
        Hash32 { bytes: derive_input(context, material) }
    }

    /// Wraps 32 bytes.
    pub fn from_bytes(bytes: [u8; 32]) -> (hash: Self)
        ensures
            hash.bytes == bytes,
    {
        Hash32 { bytes }
    }

    /// The 32 bytes.
    pub fn as_bytes(&self) -> (bytes: &[u8; 32])
        ensures
            bytes == self.bytes,
    {
        &self.bytes
    }

    /// The 64 lower-case hexadecimal digits.
    pub fn to_hex(&self) -> (text: String)
        ensures
            text@ == hex_text(self@),
    {
        hex_encode(self.bytes.as_slice())
    }

    /// Whether this digest is not before `other` in byte order.
    pub fn at_least(&self, other: &Self) -> (r: bool)
        ensures
            r == !byte_less(self@, other@),
    {
        match compare_bytes(self.bytes.as_slice(), other.bytes.as_slice()) {
            ByteOrder::Less => false,
            _ => true,
        }
    }
}

/// `blake3::Hasher`: a digest that is computed piece by piece.
#[verifier::external_type_specification]
#[verifier::external_body]
pub struct ExHasher(blake3::Hasher);

/// The bytes that a `blake3::Hasher` was fed so far.
pub uninterp spec fn hasher_input(hasher: blake3::Hasher) -> Seq<u8>;

/// A `blake3::Hasher` that was made for the regular digest, with neither key nor context.
pub uninterp spec fn hasher_is_regular(hasher: blake3::Hasher) -> bool;

/// `blake3::Hasher::new`: a hasher for the regular digest that was fed nothing.
#[verifier::external_body]
fn new_hasher() -> (hasher: blake3::Hasher)
    ensures
        hasher_is_regular(hasher),
        hasher_input(hasher) == Seq::<u8>::empty(),
{
    blake3::Hasher::new()
}

/// `blake3::Hasher::update`: feeds bytes behind those that were fed before.
#[verifier::external_body]
fn feed_hasher(hasher: &mut blake3::Hasher, bytes: &[u8])
    requires
        hasher_is_regular(*old(hasher)),
    ensures
        hasher_is_regular(*final(hasher)),
        hasher_input(*final(hasher)) == hasher_input(*old(hasher)) + bytes@,
{
    hasher.update(bytes);
}

/// `blake3::Hasher::finalize`: the digest of all bytes that were fed, the same that `blake3::hash`
/// gives for them at once.
#[verifier::external_body]
fn finish_hasher(hasher: &blake3::Hasher) -> (digest: [u8; 32])
    requires
        hasher_is_regular(*hasher),
    ensures
        digest@ == blake3_digest(hasher_input(*hasher)),
{
    *hasher.finalize().as_bytes()
}

/// A digest that is computed piece by piece.
pub struct ContentHasher {
    inner: blake3::Hasher,
}

impl View for ContentHasher {
    type V = Seq<u8>;

    /// The bytes that were fed so far.
    closed spec fn view(&self) -> Seq<u8> {
        hasher_input(self.inner)
    }
}

impl ContentHasher {
    /// The hasher computes the regular digest.
    pub closed spec fn wf(&self) -> bool {
        hasher_is_regular(self.inner)
    }

    /// A hasher that was fed nothing.
    pub fn new() -> (hasher: Self)
        ensures
            hasher.wf(),
            hasher@ == Seq::<u8>::empty(),
    {
        ContentHasher { inner: new_hasher() }
    }

    /// Feeds bytes.
    pub fn update(&mut self, bytes: &[u8])
        requires
            old(self).wf(),
        ensures
            final(self).wf(),
            final(self)@ == old(self)@ + bytes@,
    {
        feed_hasher(&mut self.inner, bytes);
    }

    /// The digest of all bytes that were fed.
    pub fn finish(&self) -> (hash: Hash32)
        requires
            self.wf(),
        ensures
            hash@ == blake3_digest(self@),
    {
        Hash32 { bytes: finish_hasher(&self.inner) }
    }
}

/// Two digests with the same bytes are the same.
pub proof fn lemma_hash_view_injective(a: Hash32, b: Hash32)
    requires
        a@ == b@,
    ensures
        a == b,
{
    lemma_array_view_injective(a.bytes, b.bytes);
}

/// The digest that holds given bytes.
pub open spec fn hash_with(bytes: Seq<u8>) -> Hash32 {
    choose|hash: Hash32| hash@ == bytes
}

/// A digest is the one that holds its bytes.
pub proof fn lemma_hash_with(hash: Hash32)
    ensures
        hash_with(hash@) == hash,
{
    let other = hash_with(hash@);
    assert(other@ == hash@);
    lemma_hash_view_injective(other, hash);
}

/// The identity under which a replica counts its changes.
#[derive(Clone, Copy, Debug, Eq, PartialOrd, Ord, Hash)]
pub struct ReplicaId(pub Hash32);

impl PartialEq for ReplicaId {
    fn eq(&self, other: &Self) -> (same: bool) {
        self.0 == other.0
    }
}

impl vstd::std_specs::cmp::PartialEqSpecImpl for ReplicaId {
    open spec fn obeys_eq_spec() -> bool {
        true
    }

    open spec fn eq_spec(&self, other: &Self) -> bool {
        *self == *other
    }
}

impl View for ReplicaId {
    type V = Seq<u8>;

    open spec fn view(&self) -> Seq<u8> {
        self.0@
    }
}

impl Keyed for ReplicaId {
    open spec fn key(&self) -> Seq<u8> {
        self.0@
    }

    fn key_bytes(&self) -> (bytes: &[u8]) {
        self.0.bytes.as_slice()
    }
}

} // verus!
