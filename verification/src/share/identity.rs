//! Device identities, signatures and the identifiers of shares.
use vstd::prelude::*;

use crate::hash::{lemma_array_view_injective, same_array};
use crate::share::codec::varint;
use crate::table::Keyed;

verus! {

/// The public key that belongs to a secret key, as `iroh::SecretKey::public` gives it.
pub uninterp spec fn ed25519_public(secret: Seq<u8>) -> Seq<u8>;

/// The signature of a message, as `iroh::SecretKey::sign` gives it.
pub uninterp spec fn ed25519_signature(secret: Seq<u8>, message: Seq<u8>) -> Seq<u8>;

/// `iroh::PublicKey::verify` accepts the signature, and the key is one.
pub uninterp spec fn ed25519_accepts(
    public: Seq<u8>,
    message: Seq<u8>,
    signature: Seq<u8>,
) -> bool;

/// `iroh::SecretKey::public`: the public key of a secret key, a function of the secret bytes.
#[verifier::external_body]
fn public_bytes(secret: &[u8; 32]) -> (public: [u8; 32])
    ensures
        public@ == ed25519_public(secret@),
{
    *iroh::SecretKey::from_bytes(secret).public().as_bytes()
}

/// `iroh::SecretKey::sign`: a deterministic signature, a function of the secret bytes and the
/// message. The public key of the secret key accepts it for that message.
#[verifier::external_body]
fn sign_bytes(secret: &[u8; 32], message: &[u8]) -> (signature: [u8; 64])
    ensures
        signature@ == ed25519_signature(secret@, message@),
        ed25519_accepts(ed25519_public(secret@), message@, signature@),
{
    iroh::SecretKey::from_bytes(secret).sign(message).to_bytes()
}

/// `iroh::PublicKey::verify`, on a key that `iroh::PublicKey::from_bytes` takes: whether the
/// signature is one of the message by that key, a function of the three byte strings. Bytes that
/// are no key accept nothing.
#[verifier::external_body]
fn accepts_bytes(public: &[u8; 32], message: &[u8], signature: &[u8; 64]) -> (accepted: bool)
    ensures
        accepted == ed25519_accepts(public@, message@, signature@),
{
    match iroh::PublicKey::from_bytes(public) {
        Ok(key) => key.verify(message, &iroh::Signature::from_bytes(signature)).is_ok(),
        Err(_) => false,
    }
}

/// `iroh::SecretKey::generate`: 32 fresh random bytes. Nothing is claimed of them.
#[verifier::external_body]
pub(crate) fn random_bytes() -> (bytes: [u8; 32]) {
    iroh::SecretKey::generate().to_bytes()
}

/// `subtle::ConstantTimeEq::ct_eq` on two arrays: whether they hold the same bytes. That the time
/// does not depend on them is not stated.
#[verifier::external_body]
pub(crate) fn constant_time_same(a: &[u8; 32], b: &[u8; 32]) -> (same: bool)
    ensures
        same == (a@ == b@),
{
    bool::from(subtle::ConstantTimeEq::ct_eq(a.as_slice(), b.as_slice()))
}

/// A one-use challenge or grant nonce.
pub type GrantNonce = [u8; 32];

/// The identity of one signed roster or snapshot.
pub type SnapshotId = [u8; 32];

/// The permission epoch of a membership.
pub type PermissionEpoch = u64;

/// The identity of a device: its public key.
#[derive(Clone, Copy, Debug, Eq, PartialOrd, Ord, Hash)]
pub struct EndpointId {
    pub bytes: [u8; 32],
}

impl PartialEq for EndpointId {
    fn eq(&self, other: &Self) -> (same: bool) {
        same_array(&self.bytes, &other.bytes)
    }
}

impl vstd::std_specs::cmp::PartialEqSpecImpl for EndpointId {
    open spec fn obeys_eq_spec() -> bool {
        true
    }

    open spec fn eq_spec(&self, other: &Self) -> bool {
        *self == *other
    }
}

impl View for EndpointId {
    type V = Seq<u8>;

    open spec fn view(&self) -> Seq<u8> {
        self.bytes@
    }
}

impl Keyed for EndpointId {
    open spec fn key(&self) -> Seq<u8> {
        self.bytes@
    }

    fn key_bytes(&self) -> (bytes: &[u8]) {
        self.bytes.as_slice()
    }
}

impl EndpointId {
    /// Whether a signature is one of a message by this device.
    pub fn verify(&self, message: &[u8], signature: &Signature) -> (accepted: bool)
        ensures
            accepted == ed25519_accepts(self@, message@, signature@),
    {
        accepts_bytes(&self.bytes, message, &signature.bytes)
    }
}

/// Two devices with the same key are the same.
pub proof fn lemma_endpoint_view_injective(a: EndpointId, b: EndpointId)
    requires
        a@ == b@,
    ensures
        a == b,
{
    lemma_array_view_injective(a.bytes, b.bytes);
}

/// A signature.
#[derive(Clone, Copy, Debug, Eq)]
pub struct Signature {
    pub bytes: [u8; 64],
}

impl PartialEq for Signature {
    fn eq(&self, other: &Self) -> (same: bool) {
        same_array(&self.bytes, &other.bytes)
    }
}

impl vstd::std_specs::cmp::PartialEqSpecImpl for Signature {
    open spec fn obeys_eq_spec() -> bool {
        true
    }

    open spec fn eq_spec(&self, other: &Self) -> bool {
        *self == *other
    }
}

impl View for Signature {
    type V = Seq<u8>;

    open spec fn view(&self) -> Seq<u8> {
        self.bytes@
    }
}

/// The secret key of a device.
#[derive(Clone)]
pub struct SecretKey {
    bytes: [u8; 32],
}

impl View for SecretKey {
    type V = Seq<u8>;

    closed spec fn view(&self) -> Seq<u8> {
        self.bytes@
    }
}

impl SecretKey {
    /// The key of 32 secret bytes.
    pub fn from_bytes(bytes: [u8; 32]) -> (key: Self)
        ensures
            key@ == bytes@,
    {
        SecretKey { bytes }
    }

    /// A fresh random key.
    pub fn generate() -> (key: Self) {
        SecretKey { bytes: random_bytes() }
    }

    /// The identity of the device.
    pub fn public(&self) -> (id: EndpointId)
        ensures
            id == public_id(self@),
            id@ == ed25519_public(self@),
    {
        let id = EndpointId { bytes: public_bytes(&self.bytes) };
        proof {
            lemma_endpoint_view_injective(id, public_id(self@));
        }
        id
    }

    /// Signs a message.
    pub fn sign(&self, message: &[u8]) -> (signature: Signature)
        ensures
            signature == signed_by(self@, message@),
            ed25519_accepts(ed25519_public(self@), message@, signature@),
    {
        let signature = Signature { bytes: sign_bytes(&self.bytes, message) };
        proof {
            assert(signature@ == ed25519_signature(self@, message@));
            assert(signed_by(self@, message@)@ == ed25519_signature(self@, message@));
            lemma_array_view_injective(signature.bytes, signed_by(self@, message@).bytes);
        }
        signature
    }
}

/// The identity of the device that holds a secret key.
pub open spec fn public_id(secret: Seq<u8>) -> EndpointId {
    choose|id: EndpointId| id@ == ed25519_public(secret)
}

/// The signature that a secret key gives a message.
pub open spec fn signed_by(secret: Seq<u8>, message: Seq<u8>) -> Signature {
    choose|signature: Signature| signature@ == ed25519_signature(secret, message)
}

/// The identity of a share.
#[derive(Clone, Copy, Debug, Eq, PartialOrd, Ord, Hash)]
pub struct ShareId(pub [u8; 32]);

impl PartialEq for ShareId {
    fn eq(&self, other: &Self) -> (same: bool) {
        same_array(&self.0, &other.0)
    }
}

impl vstd::std_specs::cmp::PartialEqSpecImpl for ShareId {
    open spec fn obeys_eq_spec() -> bool {
        true
    }

    open spec fn eq_spec(&self, other: &Self) -> bool {
        *self == *other
    }
}

impl View for ShareId {
    type V = Seq<u8>;

    open spec fn view(&self) -> Seq<u8> {
        self.0@
    }
}

/// The identity of an invitation.
#[derive(Clone, Copy, Debug, Eq, PartialOrd, Ord, Hash)]
pub struct InvitationId(pub [u8; 32]);

impl PartialEq for InvitationId {
    fn eq(&self, other: &Self) -> (same: bool) {
        same_array(&self.0, &other.0)
    }
}

impl vstd::std_specs::cmp::PartialEqSpecImpl for InvitationId {
    open spec fn obeys_eq_spec() -> bool {
        true
    }

    open spec fn eq_spec(&self, other: &Self) -> bool {
        *self == *other
    }
}

impl View for InvitationId {
    type V = Seq<u8>;

    open spec fn view(&self) -> Seq<u8> {
        self.0@
    }
}

/// What a member may do.
#[derive(Clone, Copy, Debug, PartialEq, Eq, Structural)]
pub enum Permission {
    ReadOnly,
    ReadWrite,
}

/// The number that stands for a permission.
pub open spec fn permission_code(permission: Permission) -> u8 {
    match permission {
        Permission::ReadOnly => 0,
        Permission::ReadWrite => 1,
    }
}

/// The number that stands for a permission.
pub fn permission_byte(permission: Permission) -> (code: u8)
    ensures
        code == permission_code(permission),
{
    match permission {
        Permission::ReadOnly => 0,
        Permission::ReadWrite => 1,
    }
}

/// Where a device can be reached: its identity and the byte forms of its transport addresses.
#[derive(Debug, PartialEq, Eq)]
pub struct EndpointAddr {
    pub id: EndpointId,
    pub addrs: Vec<Vec<u8>>,
}

/// What an address says.
#[verifier::ext_equal]
pub struct AddressView {
    pub id: EndpointId,
    pub addrs: Seq<Seq<u8>>,
}

/// The bytes of each entry.
pub open spec fn byte_views(items: Seq<Vec<u8>>) -> Seq<Seq<u8>> {
    Seq::new(items.len(), |i: int| items[i]@)
}

impl View for EndpointAddr {
    type V = AddressView;

    open spec fn view(&self) -> AddressView {
        AddressView { id: self.id, addrs: byte_views(self.addrs@) }
    }
}

/// Byte strings one behind the other.
pub open spec fn concatenated(items: Seq<Seq<u8>>) -> Seq<u8>
    decreases items.len(),
{
    if items.len() == 0 {
        Seq::empty()
    } else {
        concatenated(items.drop_last()) + items.last()
    }
}

/// The byte form of an address: the identity, the number of transport addresses, and those.
pub open spec fn address_bytes(address: AddressView) -> Seq<u8> {
    address.id@ + varint(address.addrs.len()) + concatenated(address.addrs)
}

/// Appends the byte form of an address.
pub fn push_address(out: &mut Vec<u8>, address: &EndpointAddr)
    ensures
        final(out)@ == old(out)@ + address_bytes(address@),
{
    crate::hash::push_bytes(out, address.id.bytes.as_slice());
    crate::share::codec::push_number(out, address.addrs.len() as u64);
    let ghost head = out@;
    let ghost all = address@.addrs;
    let mut i: usize = 0;
    assert(out@ =~= head + concatenated(all.take(0)));
    while i < address.addrs.len()
        invariant
            i <= address.addrs@.len(),
            all == byte_views(address.addrs@),
            out@ == head + concatenated(all.take(i as int)),
        decreases address.addrs@.len() - i,
    {
        crate::hash::push_bytes(out, address.addrs[i].as_slice());
        i = i + 1;
        proof {
            assert(all.take(i as int).drop_last() =~= all.take(i - 1));
            assert(out@ =~= head + concatenated(all.take(i as int)));
        }
    }
    proof {
        assert(all.take(i as int) =~= all);
        assert(out@ =~= old(out)@ + address_bytes(address@));
    }
}

/// A byte string said again.
pub fn copy_bytes(bytes: &Vec<u8>) -> (copy: Vec<u8>)
    ensures
        copy@ == bytes@,
{
    let mut copy: Vec<u8> = Vec::new();
    crate::hash::push_bytes(&mut copy, bytes.as_slice());
    assert(copy@ =~= bytes@);
    copy
}

impl Clone for EndpointAddr {
    fn clone(&self) -> (copy: Self)
        ensures
            copy@ == self@,
    {
        let mut addrs: Vec<Vec<u8>> = Vec::new();
        let mut i: usize = 0;
        while i < self.addrs.len()
            invariant
                i <= self.addrs@.len(),
                addrs@.len() == i,
                forall|k: int| 0 <= k < i ==> (#[trigger] addrs@[k])@ == self.addrs@[k]@,
            decreases self.addrs@.len() - i,
        {
            addrs.push(copy_bytes(&self.addrs[i]));
            i = i + 1;
        }
        assert(byte_views(addrs@) =~= byte_views(self.addrs@));
        EndpointAddr { id: self.id, addrs }
    }
}

/// The address that bytes are the form of, as `postcard::from_bytes` reads them.
pub uninterp spec fn decoded_address(bytes: Seq<u8>) -> Option<AddressView>;

/// `postcard::from_bytes` on an `iroh::EndpointAddr`: the address that the bytes are the form of, if
/// they are one, a function of the bytes. Transport addresses come out as the byte forms that
/// `postcard::to_stdvec` gives them.
#[verifier::external_body]
fn decode_address(bytes: &[u8]) -> (address: Option<EndpointAddr>)
    ensures
        match address {
            Some(address) => decoded_address(bytes@) == Some(address@),
            None => decoded_address(bytes@) is None,
        },
{
    let read: iroh::EndpointAddr = postcard::from_bytes(bytes).ok()?;
    let addrs = read.addrs.iter().map(postcard::to_stdvec).collect::<Result<_, _>>().ok()?;
    Some(EndpointAddr { id: EndpointId { bytes: *read.id.as_bytes() }, addrs })
}

/// The address is one of the transport: it is read back from its own byte form.
pub open spec fn is_transport_address(address: AddressView) -> bool {
    decoded_address(address_bytes(address)) == Some(address)
}

impl EndpointAddr {
    /// Whether the address is one of the transport.
    pub fn is_transport(&self) -> (fits: bool)
        ensures
            fits == is_transport_address(self@),
    {
        let mut bytes: Vec<u8> = Vec::new();
        push_address(&mut bytes, self);
        assert(bytes@ =~= address_bytes(self@));
        match decode_address(bytes.as_slice()) {
            Some(read) => read.same(self),
            None => false,
        }
    }

    /// A device of which only the identity is known.
    pub fn new(id: EndpointId) -> (address: Self)
        ensures
            address@ == (AddressView { id, addrs: Seq::empty() }),
    {
        let address = EndpointAddr { id, addrs: Vec::new() };
        assert(address@.addrs =~= Seq::empty());
        address
    }

    /// Whether two addresses say the same.
    pub fn same(&self, other: &Self) -> (same: bool)
        ensures
            same == (self@ == other@),
    {
        if self.id != other.id || self.addrs.len() != other.addrs.len() {
            proof {
                if self@ == other@ {
                    assert(self@.addrs.len() == other@.addrs.len());
                }
            }
            return false;
        }
        let mut i: usize = 0;
        while i < self.addrs.len()
            invariant
                i <= self.addrs@.len(),
                self.addrs@.len() == other.addrs@.len(),
                forall|k: int|
                    0 <= k < i ==> (#[trigger] self.addrs@[k])@ == other.addrs@[k]@,
            decreases self.addrs@.len() - i,
        {
            if !crate::order::same_bytes(self.addrs[i].as_slice(), other.addrs[i].as_slice()) {
                proof {
                    if self@ == other@ {
                        assert(self@.addrs[i as int] == other@.addrs[i as int]);
                    }
                }
                return false;
            }
            i = i + 1;
        }
        assert(self@.addrs =~= other@.addrs);
        true
    }
}

} // verus!
