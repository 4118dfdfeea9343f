//! Share keys: signed invitations, and the proof that carries a retained identity over.
use vstd::prelude::*;

use crate::hash::{
    blake3_digest, hex_bytes, hex_decode, hex_encode, hex_text, law_hex_reads_back, push_bytes,
    Hash32, ReplicaId,
};
use crate::order::same_bytes;
use crate::share::codec::{
    in_domain, optional_number, push_number, push_optional, push_sized, sized, varint, with_domain,
};
use crate::share::error::ShareError;
use crate::share::identity::{
    address_bytes, byte_views, ed25519_accepts, ed25519_public, is_transport_address, permission_byte, permission_code,
    public_id, push_address, random_bytes, signed_by, AddressView, EndpointAddr, EndpointId,
    InvitationId, Permission, SecretKey, ShareId, Signature,
};
use crate::text::{append_text, utf8};

verus! {

/// The version of share keys that this library issues and takes.
pub const TICKET_VERSION: u8 = 3;

/// The largest byte form of a share key.
pub const MAX_TICKET_BYTES: usize = 8192;

/// The most transport addresses in one address.
pub const MAX_ADDRESSES: usize = 16;

/// The longest share name, in bytes.
pub const MAX_NAME_BYTES: usize = 255;

/// What a share key shows before it is used. It does not say that the owner still honours it.
#[derive(Clone, Debug, PartialEq, Eq)]
pub struct TicketPreview {
    pub share_id: ShareId,
    pub owner: EndpointId,
    pub name: String,
    pub permission: Permission,
    pub invitation_id: InvitationId,
    pub expires_at: Option<u64>,
}

/// What a preview says.
#[verifier::ext_equal]
pub struct PreviewView {
    pub share_id: ShareId,
    pub owner: EndpointId,
    pub name: Seq<char>,
    pub permission: Permission,
    pub invitation_id: InvitationId,
    pub expires_at: Option<u64>,
}

impl View for TicketPreview {
    type V = PreviewView;

    open spec fn view(&self) -> PreviewView {
        PreviewView {
            share_id: self.share_id,
            owner: self.owner,
            name: self.name@,
            permission: self.permission,
            invitation_id: self.invitation_id,
            expires_at: self.expires_at,
        }
    }
}

/// What a share key shows before it is used.
pub open spec fn preview_of(body: TicketView) -> PreviewView {
    PreviewView {
        share_id: body.share_id,
        owner: body.owner,
        name: body.name,
        permission: body.permission,
        invitation_id: body.invitation_id,
        expires_at: body.expires_at,
    }
}

impl TicketPreview {
    /// Whether two previews say the same.
    pub fn same(&self, other: &Self) -> (same: bool)
        ensures
            same == (self@ == other@),
    {
        let names = same_bytes(self.name.as_str().as_bytes(), other.name.as_str().as_bytes());
        proof {
            if utf8(self.name@) == utf8(other.name@) {
                crate::text::lemma_utf8_injective(self.name@, other.name@);
            }
        }
        self.share_id == other.share_id && self.owner == other.owner && names && self.permission
            == other.permission && self.invitation_id == other.invitation_id && self.expires_at
            == other.expires_at
    }
}

/// The signed part of a share key.
pub struct TicketBody {
    pub version: u8,
    pub share_id: ShareId,
    pub owner: EndpointId,
    pub name: String,
    pub permission: Permission,
    pub invitation_id: InvitationId,
    pub bearer: [u8; 32],
    pub issued_at: u64,
    pub expires_at: Option<u64>,
    pub address: EndpointAddr,
}

/// A bearer credential. It has no debug form, so no log can show it.
pub struct ShareTicket {
    pub body: TicketBody,
    pub signature: Signature,
}

/// What a share key says.
#[verifier::ext_equal]
pub struct TicketView {
    pub version: u8,
    pub share_id: ShareId,
    pub owner: EndpointId,
    pub name: Seq<char>,
    pub permission: Permission,
    pub invitation_id: InvitationId,
    pub bearer: [u8; 32],
    pub issued_at: u64,
    pub expires_at: Option<u64>,
    pub address: AddressView,
}

/// A share key with its signature.
#[verifier::ext_equal]
pub struct SignedTicket {
    pub body: TicketView,
    pub signature: Signature,
}

impl View for TicketBody {
    type V = TicketView;

    open spec fn view(&self) -> TicketView {
        TicketView {
            version: self.version,
            share_id: self.share_id,
            owner: self.owner,
            name: self.name@,
            permission: self.permission,
            invitation_id: self.invitation_id,
            bearer: self.bearer,
            issued_at: self.issued_at,
            expires_at: self.expires_at,
            address: self.address@,
        }
    }
}

impl View for ShareTicket {
    type V = SignedTicket;

    open spec fn view(&self) -> SignedTicket {
        SignedTicket { body: self.body@, signature: self.signature }
    }
}

impl Clone for ShareTicket {
    fn clone(&self) -> (copy: Self)
        ensures
            copy@ == self@,
    {
        ShareTicket {
            body: TicketBody {
                version: self.body.version,
                share_id: self.body.share_id,
                owner: self.body.owner,
                name: self.body.name.clone(),
                permission: self.body.permission,
                invitation_id: self.body.invitation_id,
                bearer: self.body.bearer,
                issued_at: self.body.issued_at,
                expires_at: self.body.expires_at,
                address: self.body.address.clone(),
            },
            signature: self.signature,
        }
    }
}

/// The byte form of the signed part.
pub open spec fn body_bytes(body: TicketView) -> Seq<u8> {
    seq![body.version] + body.share_id@ + body.owner@ + sized(utf8(body.name)) + varint(
        permission_code(body.permission) as nat,
    ) + body.invitation_id@ + body.bearer@ + varint(body.issued_at as nat) + optional_number(
        body.expires_at,
    ) + address_bytes(body.address)
}

/// The byte form of a share key.
pub open spec fn ticket_bytes(ticket: SignedTicket) -> Seq<u8> {
    body_bytes(ticket.body) + ticket.signature@
}

/// The message that the owner signs.
pub open spec fn ticket_message(body: TicketView) -> Seq<u8> {
    in_domain("deltaweave/share/invitation/v3"@, body_bytes(body))
}

/// The text form of a share key.
pub open spec fn ticket_text(ticket: SignedTicket) -> Seq<char> {
    "dwshare3:"@ + hex_text(ticket_bytes(ticket))
}

/// A control character.
pub open spec fn is_control(c: char) -> bool {
    (c as u32) < 0x20 || 0x7f <= (c as u32) <= 0x9f
}

/// A name that a share can have: not empty, not too long, and without control characters.
pub open spec fn name_allowed(name: Seq<char>) -> bool {
    &&& 0 < name.len()
    &&& utf8(name).len() <= MAX_NAME_BYTES
    &&& forall|i: int| 0 <= i < name.len() ==> !is_control(#[trigger] name[i])
}

/// Why a share key is not taken at a time.
pub open spec fn ticket_fault(ticket: SignedTicket, now: u64) -> Option<ShareError> {
    let body = ticket.body;
    if body.version != TICKET_VERSION {
        Some(ShareError::UnsupportedVersion)
    } else if !name_allowed(body.name) || body.address.id != body.owner || body.address.addrs.len()
        > MAX_ADDRESSES || ticket_bytes(ticket).len() > MAX_TICKET_BYTES {
        Some(ShareError::InvalidTicket)
    } else if !ed25519_accepts(body.owner@, ticket_message(body), ticket.signature@) {
        Some(ShareError::InvalidTicket)
    } else if body.expires_at is Some && (body.expires_at->0 <= now || body.expires_at->0
        <= body.issued_at) {
        Some(ShareError::Expired)
    } else {
        None
    }
}

/// The share key that bytes are the form of, as `postcard::from_bytes` reads them.
pub uninterp spec fn decoded_ticket(bytes: Seq<u8>) -> Option<SignedTicket>;

/// The key is one of a device that has a secret key, and its address is one of the transport: the
/// device's own with no transport addresses, or one that is read back from its byte form.
pub open spec fn is_device_ticket(ticket: SignedTicket, secret: Seq<u8>) -> bool {
    &&& ticket.body.owner@ == ed25519_public(secret)
    &&& ticket.body.address.id == ticket.body.owner && ticket.body.address.addrs.len() == 0
        || is_transport_address(ticket.body.address)
}

/// The fields of a share key, as they follow one another in its byte form.
struct TicketFields {
    version: u8,
    share: [u8; 32],
    owner: [u8; 32],
    name: String,
    write: bool,
    invitation: [u8; 32],
    bearer: [u8; 32],
    issued_at: u64,
    expires_at: Option<u64>,
    id: [u8; 32],
    addrs: Vec<Vec<u8>>,
    signature: [u8; 64],
}

impl TicketFields {
    /// The share key that the fields make.
    spec fn ticket(self) -> SignedTicket {
        SignedTicket {
            body: TicketView {
                version: self.version,
                share_id: ShareId(self.share),
                owner: EndpointId { bytes: self.owner },
                name: self.name@,
                permission: if self.write {
                    Permission::ReadWrite
                } else {
                    Permission::ReadOnly
                },
                invitation_id: InvitationId(self.invitation),
                bearer: self.bearer,
                issued_at: self.issued_at,
                expires_at: self.expires_at,
                address: AddressView {
                    id: EndpointId { bytes: self.id },
                    addrs: byte_views(self.addrs@),
                },
            },
            signature: Signature { bytes: self.signature },
        }
    }

    fn into_ticket(self) -> (ticket: ShareTicket)
        ensures
            ticket@ == self.ticket(),
    {
        let permission = if self.write {
            Permission::ReadWrite
        } else {
            Permission::ReadOnly
        };
        ShareTicket {
            body: TicketBody {
                version: self.version,
                share_id: ShareId(self.share),
                owner: EndpointId { bytes: self.owner },
                name: self.name,
                permission,
                invitation_id: InvitationId(self.invitation),
                bearer: self.bearer,
                issued_at: self.issued_at,
                expires_at: self.expires_at,
                address: EndpointAddr { id: EndpointId { bytes: self.id }, addrs: self.addrs },
            },
            signature: Signature { bytes: self.signature },
        }
    }
}

/// `postcard::from_bytes`, on the fields of a share key one behind the other: the fields that the
/// bytes are the form of, if they are one, a function of the bytes. Transport addresses come out
/// as the byte forms that `postcard::to_stdvec` gives them. A key whose owner is the public key of
/// some secret key is read back from its own byte form, if its address is the owner's with no
/// transport addresses, or one that is read back from its own byte form itself.
#[verifier::external_body]
fn decode_ticket(bytes: &[u8]) -> (fields: Option<TicketFields>)
    ensures
        match fields {
            Some(fields) => decoded_ticket(bytes@) == Some(fields.ticket()),
            None => decoded_ticket(bytes@) is None,
        },
        forall|wanted: SignedTicket, secret: Seq<u8>|
            #![trigger is_device_ticket(wanted, secret)]
            is_device_ticket(wanted, secret) && ticket_bytes(wanted) == bytes@ ==> fields is Some
                && fields->0.ticket() == wanted,
{
    let (version, share, owner, name, write, invitation, bearer, issued_at, expires_at, to, by): (
        u8, [u8; 32], iroh::PublicKey, String, bool, [u8; 32], [u8; 32], u64, Option<u64>,
        iroh::EndpointAddr, iroh::Signature) = postcard::from_bytes(bytes).ok()?;
    let addrs = to.addrs.iter().map(postcard::to_stdvec).collect::<Result<_, _>>().ok()?;
    let (owner, id, signature) = (*owner.as_bytes(), *to.id.as_bytes(), by.to_bytes());
    Some(TicketFields { version, share, owner, name, write, invitation, bearer, issued_at,
        expires_at, id, addrs, signature })
}

/// Whether a name can be given to a share.
pub fn check_name(name: &str) -> (allowed: bool)
    ensures
        allowed == name_allowed(name@),
{
    if name.is_empty() || name.as_bytes().len() > MAX_NAME_BYTES {
        return false;
    }
    let count = name.unicode_len();
    let mut i: usize = 0;
    while i < count
        invariant
            i <= count,
            count == name@.len(),
            forall|k: int| 0 <= k < i ==> !is_control(#[trigger] name@[k]),
        decreases count - i,
    {
        let code: u32 = name.get_char(i) as u32;
        if code < 0x20 || (0x7f <= code && code <= 0x9f) {
            assert(is_control(name@[i as int]));
            return false;
        }
        i = i + 1;
    }
    true
}

impl TicketBody {
    fn encode(&self) -> (bytes: Vec<u8>)
        ensures
            bytes@ == body_bytes(self@),
    {
        let mut bytes: Vec<u8> = Vec::new();
        bytes.push(self.version);
        push_bytes(&mut bytes, self.share_id.0.as_slice());
        push_bytes(&mut bytes, self.owner.bytes.as_slice());
        push_sized(&mut bytes, self.name.as_str().as_bytes());
        push_number(&mut bytes, permission_byte(self.permission) as u64);
        push_bytes(&mut bytes, self.invitation_id.0.as_slice());
        push_bytes(&mut bytes, self.bearer.as_slice());
        push_number(&mut bytes, self.issued_at);
        push_optional(&mut bytes, self.expires_at);
        push_address(&mut bytes, &self.address);
        assert(bytes@ =~= body_bytes(self@));
        bytes
    }

    fn message(&self) -> (bytes: Vec<u8>)
        ensures
            bytes@ == ticket_message(self@),
    {
        with_domain("deltaweave/share/invitation/v3", self.encode().as_slice())
    }
}

/// What an owner's share key says.
pub open spec fn issued_body(
    secret: Seq<u8>,
    share_id: ShareId,
    name: Seq<char>,
    permission: Permission,
    expires_at: Option<u64>,
    address: AddressView,
    issued_at: u64,
    invitation_id: InvitationId,
    bearer: [u8; 32],
) -> TicketView {
    TicketView {
        version: TICKET_VERSION,
        share_id,
        owner: public_id(secret),
        name,
        permission,
        invitation_id,
        bearer,
        issued_at,
        expires_at,
        address,
    }
}

/// A share key that its owner has signed.
pub open spec fn signed_ticket(secret: Seq<u8>, body: TicketView) -> SignedTicket {
    SignedTicket { body, signature: signed_by(secret, ticket_message(body)) }
}

/// What issuing a share key comes to.
pub open spec fn issues(
    ticket: Result<ShareTicket, ShareError>,
    secret: Seq<u8>,
    body: TicketView,
) -> bool {
    match ticket {
        Ok(ticket) => ticket@ == signed_ticket(secret, body) && ticket_fault(
            signed_ticket(secret, body),
            body.issued_at,
        ) is None,
        Err(error) => ticket_fault(signed_ticket(secret, body), body.issued_at) == Some(error),
    }
}

impl ShareTicket {
    /// Issues a share key under two given identifiers.
    pub fn issue_with(
        key: &SecretKey,
        share_id: ShareId,
        name: String,
        permission: Permission,
        expires_at: Option<u64>,
        address: EndpointAddr,
        issued_at: u64,
        invitation_id: InvitationId,
        bearer: [u8; 32],
    ) -> (ticket: Result<Self, ShareError>)
        ensures
            issues(
                ticket,
                key@,
                issued_body(
                    key@,
                    share_id,
                    name@,
                    permission,
                    expires_at,
                    address@,
                    issued_at,
                    invitation_id,
                    bearer,
                ),
            ),
    {
        let body = TicketBody {
            version: TICKET_VERSION,
            share_id,
            owner: key.public(),
            name,
            permission,
            invitation_id,
            bearer,
            issued_at,
            expires_at,
            address,
        };
        let signature = key.sign(body.message().as_slice());
        let ticket = ShareTicket { body, signature };
        match ticket.verify_at(issued_at) {
            Ok(()) => Ok(ticket),
            Err(error) => Err(error),
        }
    }

    /// Issues a share key under two fresh random identifiers.
    pub fn issue(
        key: &SecretKey,
        share_id: ShareId,
        name: String,
        permission: Permission,
        expires_at: Option<u64>,
        address: EndpointAddr,
        issued_at: u64,
    ) -> (ticket: Result<Self, ShareError>)
        ensures
            exists|invitation_id: InvitationId, bearer: [u8; 32]|
                issues(
                    ticket,
                    key@,
                    #[trigger] issued_body(
                        key@,
                        share_id,
                        name@,
                        permission,
                        expires_at,
                        address@,
                        issued_at,
                        invitation_id,
                        bearer,
                    ),
                ),
    {
        let invitation_id = InvitationId(random_bytes());
        let bearer = random_bytes();
        ShareTicket::issue_with(
            key,
            share_id,
            name,
            permission,
            expires_at,
            address,
            issued_at,
            invitation_id,
            bearer,
        )
    }

    fn to_bytes(&self) -> (bytes: Vec<u8>)
        ensures
            bytes@ == ticket_bytes(self@),
    {
        let mut bytes = self.body.encode();
        push_bytes(&mut bytes, self.signature.bytes.as_slice());
        bytes
    }

    /// The text form.
    pub fn encode(&self) -> (text: String)
        ensures
            text@ == ticket_text(self@),
    {
        let mut text: String = "dwshare3:".to_owned();
        let digits = hex_encode(self.to_bytes().as_slice());
        append_text(&mut text, digits.as_str());
        text
    }

    /// Why the share key is not taken at a time, if so.
    pub fn verify_at(&self, now: u64) -> (result: Result<(), ShareError>)
        ensures
            match result {
                Ok(()) => ticket_fault(self@, now) is None,
                Err(error) => ticket_fault(self@, now) == Some(error),
            },
    {
        if self.body.version != TICKET_VERSION {
            return Err(ShareError::UnsupportedVersion);
        }
        if !check_name(self.body.name.as_str()) || self.body.address.id != self.body.owner
            || self.body.address.addrs.len() > MAX_ADDRESSES || self.to_bytes().len()
            > MAX_TICKET_BYTES {
            return Err(ShareError::InvalidTicket);
        }
        if !self.body.owner.verify(self.body.message().as_slice(), &self.signature) {
            return Err(ShareError::InvalidTicket);
        }
        match self.body.expires_at {
            Some(expiry) => if expiry <= now || expiry <= self.body.issued_at {
                return Err(ShareError::Expired);
            },
            None => {},
        }
        Ok(())
    }

    /// What the share key shows before it is used.
    pub fn preview(&self) -> (preview: TicketPreview)
        ensures
            preview@ == preview_of(self.body@),
    {
        TicketPreview {
            share_id: self.body.share_id,
            owner: self.body.owner,
            name: self.body.name.clone(),
            permission: self.body.permission,
            invitation_id: self.body.invitation_id,
            expires_at: self.body.expires_at,
        }
    }

    /// Where the owner can be reached.
    pub fn address(&self) -> (address: EndpointAddr)
        ensures
            address@ == self.body.address@,
    {
        self.body.address.clone()
    }

    /// The text that a log shows of any share key.
    pub fn redacted(&self) -> (text: &'static str)
        ensures
            text@ == "ShareTicket { credential: \"[REDACTED]\" }"@,
    {
        "ShareTicket { credential: \"[REDACTED]\" }"
    }

    /// The digest by which the owner knows that the key is as it was issued.
    pub fn issuance_digest(&self) -> (digest: Hash32)
        ensures
            digest@ == blake3_digest(ticket_message(self.body@)),
    {
        Hash32::digest(self.body.message().as_slice())
    }
}

/// The prefix of the text form, in bytes.
pub open spec fn has_prefix(text: Seq<u8>) -> bool {
    text.len() >= 9 && text.take(9) == utf8("dwshare3:"@)
}

/// What reading a text as a share key comes to.
pub open spec fn parsed_ticket(text: Seq<u8>, now: u64) -> Result<SignedTicket, ShareError> {
    if text.len() > 2 * MAX_TICKET_BYTES + 9 {
        Err(ShareError::InvalidTicket)
    } else if !has_prefix(text) {
        Err(ShareError::UnsupportedVersion)
    } else {
        match hex_bytes(text.skip(9)) {
            None => Err(ShareError::InvalidTicket),
            Some(bytes) => match decoded_ticket(bytes) {
                None => Err(ShareError::InvalidTicket),
                Some(ticket) => if ticket_bytes(ticket) != bytes {
                    Err(ShareError::InvalidTicket)
                } else {
                    match ticket_fault(ticket, now) {
                        Some(error) => Err(error),
                        None => Ok(ticket),
                    }
                },
            },
        }
    }
}

proof fn lemma_prefix()
    ensures
        utf8("dwshare3:"@).len() == 9,
        "dwshare3:"@.len() == 9,
{
    reveal_strlit("dwshare3:");
    assert(vstd::utf8::is_ascii_chars("dwshare3:"@));
    vstd::utf8::is_ascii_chars_encode_utf8("dwshare3:"@);
}

/// The bytes of the text form are the prefix and the hexadecimal digits.
proof fn lemma_text_bytes(ticket: SignedTicket)
    ensures
        utf8(ticket_text(ticket)).len() == 9 + 2 * ticket_bytes(ticket).len(),
        has_prefix(utf8(ticket_text(ticket))),
        hex_bytes(utf8(ticket_text(ticket)).skip(9)) == Some(ticket_bytes(ticket)),
{
    lemma_prefix();
    let bytes = ticket_bytes(ticket);
    crate::text::lemma_utf8_concat("dwshare3:"@, hex_text(bytes));
    law_hex_reads_back(bytes);
    let text = utf8(ticket_text(ticket));
    assert(text.take(9) =~= utf8("dwshare3:"@));
    assert(text.skip(9) =~= utf8(hex_text(bytes)));
    crate::hash::lemma_hex_length(bytes);
}

/// `std::time::SystemTime::elapsed` of the Unix epoch: the wall time, in seconds. Nothing is
/// claimed of it. A clock that stands before the epoch reads as zero.
#[verifier::external_body]
fn wall_time() -> (now: u64) {
    std::time::UNIX_EPOCH.elapsed().unwrap_or_default().as_secs()
}

impl ShareTicket {
    /// Reads the text form of a share key and checks it now.
    pub fn parse(encoded: &str) -> (ticket: Result<Self, ShareError>)
        ensures
            exists|now: u64|
                match ticket {
                    Ok(ticket) => #[trigger] parsed_ticket(utf8(encoded@), now) == Ok::<
                        SignedTicket,
                        ShareError,
                    >(ticket@),
                    Err(error) => parsed_ticket(utf8(encoded@), now) == Err::<
                        SignedTicket,
                        ShareError,
                    >(error),
                },
    {
        let now = wall_time();
        ShareTicket::parse_at(encoded, now)
    }

    /// Reads the text form of a share key and checks it at a time. The text form of a key that is
    /// in order is read back as that key.
    pub fn parse_at(encoded: &str, now: u64) -> (ticket: Result<Self, ShareError>)
        ensures
            match ticket {
                Ok(ticket) => parsed_ticket(utf8(encoded@), now) == Ok::<SignedTicket, ShareError>(
                    ticket@,
                ),
                Err(error) => parsed_ticket(utf8(encoded@), now) == Err::<
                    SignedTicket,
                    ShareError,
                >(error),
            },
            forall|wanted: SignedTicket, secret: Seq<u8>|
                #![trigger is_device_ticket(wanted, secret)]
                is_device_ticket(wanted, secret) && encoded@ == ticket_text(wanted) && ticket_bytes(
                    wanted,
                ).len() <= MAX_TICKET_BYTES ==> match ticket_fault(wanted, now) {
                    None => ticket is Ok && ticket->Ok_0@ == wanted,
                    Some(error) => ticket is Err && ticket->Err_0 == error,
                },
    {
        let text = encoded.as_bytes();
        proof {
            lemma_prefix();
            assert forall|wanted: SignedTicket| encoded@ == #[trigger] ticket_text(
                wanted,
            ) implies text@.len() == 9 + 2 * ticket_bytes(wanted).len() && has_prefix(text@)
                && hex_bytes(text@.skip(9)) == Some(ticket_bytes(wanted)) by {
                lemma_text_bytes(wanted);
            }
        }
        if text.len() > 2 * MAX_TICKET_BYTES + 9 {
            return Err(ShareError::InvalidTicket);
        }
        if text.len() < 9 {
            return Err(ShareError::UnsupportedVersion);
        }
        let head = vstd::slice::slice_subrange(text, 0, 9);
        assert(head@ =~= text@.take(9));
        if !same_bytes(head, "dwshare3:".as_bytes()) {
            return Err(ShareError::UnsupportedVersion);
        }
        let digits = vstd::slice::slice_subrange(text, 9, text.len());
        assert(digits@ =~= text@.skip(9));
        let bytes = match hex_decode(digits) {
            Some(bytes) => bytes,
            None => {
                return Err(ShareError::InvalidTicket);
            },
        };
        let ticket = match decode_ticket(bytes.as_slice()) {
            Some(fields) => fields.into_ticket(),
            None => {
                return Err(ShareError::InvalidTicket);
            },
        };
        if !same_bytes(ticket.to_bytes().as_slice(), bytes.as_slice()) {
            return Err(ShareError::InvalidTicket);
        }
        match ticket.verify_at(now) {
            Ok(()) => Ok(ticket),
            Err(error) => Err(error),
        }
    }
}

/// The proof that a device holds the key of a retained identity. The retained secret key never
/// leaves its device.
#[derive(Clone, Copy, Debug, PartialEq, Eq)]
pub struct LegacyProof {
    pub version: u8,
    pub invitation: InvitationId,
    pub share: ShareId,
    pub owner: EndpointId,
    pub new_endpoint: EndpointId,
    pub old_endpoint: EndpointId,
    pub replica: ReplicaId,
    pub signature: Signature,
}

/// The message that the retained key signs.
pub open spec fn proof_message(claim: LegacyProof) -> Seq<u8> {
    in_domain(
        "deltaweave/share/legacy-claim/v3"@,
        seq![claim.version] + claim.invitation@ + claim.share@ + claim.owner@ + claim.new_endpoint@
            + claim.old_endpoint@ + claim.replica@,
    )
}

/// The proof holds for a share key and the device that shows it: every field is bound to the
/// claim, the replica is the one of the retained key, and that key has signed.
pub open spec fn proof_holds(claim: LegacyProof, body: TicketView, peer: EndpointId) -> bool {
    &&& claim.version == TICKET_VERSION
    &&& claim.invitation == body.invitation_id
    &&& claim.share == body.share_id
    &&& claim.owner == body.owner
    &&& claim.new_endpoint == peer
    &&& claim.old_endpoint != peer
    &&& claim.replica@ == blake3_digest(claim.old_endpoint@)
    &&& ed25519_accepts(claim.old_endpoint@, proof_message(claim), claim.signature@)
}

impl LegacyProof {
    fn message(&self) -> (bytes: Vec<u8>)
        ensures
            bytes@ == proof_message(*self),
    {
        let mut payload: Vec<u8> = Vec::new();
        payload.push(self.version);
        push_bytes(&mut payload, self.invitation.0.as_slice());
        push_bytes(&mut payload, self.share.0.as_slice());
        push_bytes(&mut payload, self.owner.bytes.as_slice());
        push_bytes(&mut payload, self.new_endpoint.bytes.as_slice());
        push_bytes(&mut payload, self.old_endpoint.bytes.as_slice());
        push_bytes(&mut payload, self.replica.0.bytes.as_slice());
        assert(payload@ =~= seq![self.version] + self.invitation@ + self.share@ + self.owner@
            + self.new_endpoint@ + self.old_endpoint@ + self.replica@);
        with_domain("deltaweave/share/legacy-claim/v3", payload.as_slice())
    }

    /// Proves that the device holds the key of a retained replica.
    pub fn create(
        ticket: &ShareTicket,
        old_key: &SecretKey,
        new_endpoint: EndpointId,
        replica: ReplicaId,
    ) -> (claim: Result<Self, ShareError>)
        ensures
            match claim {
                Ok(claim) => {
                    &&& replica@ == blake3_digest(ed25519_public(old_key@))
                    &&& claim.version == TICKET_VERSION
                    &&& claim.invitation == ticket.body.invitation_id
                    &&& claim.share == ticket.body.share_id
                    &&& claim.owner == ticket.body.owner
                    &&& claim.new_endpoint == new_endpoint
                    &&& claim.old_endpoint@ == ed25519_public(old_key@)
                    &&& claim.replica == replica
                    &&& claim.signature == signed_by(old_key@, proof_message(claim))
                    &&& claim.old_endpoint != new_endpoint ==> proof_holds(
                        claim,
                        ticket.body@,
                        new_endpoint,
                    )
                },
                Err(error) => error == ShareError::ReplicaClaimRejected && replica@
                    != blake3_digest(ed25519_public(old_key@)),
            },
    {
        let old_endpoint = old_key.public();
        let expected = Hash32::digest(old_endpoint.bytes.as_slice());
        proof {
            if replica@ == expected@ {
                crate::hash::lemma_hash_view_injective(replica.0, expected);
            }
        }
        if replica.0 != expected {
            return Err(ShareError::ReplicaClaimRejected);
        }
        let unsigned = LegacyProof {
            version: TICKET_VERSION,
            invitation: ticket.body.invitation_id,
            share: ticket.body.share_id,
            owner: ticket.body.owner,
            new_endpoint,
            old_endpoint,
            replica,
            signature: Signature { bytes: [0u8; 64] },
        };
        let signature = old_key.sign(unsigned.message().as_slice());
        let claim = LegacyProof { signature, ..unsigned };
        assert(proof_message(claim) == proof_message(unsigned));
        Ok(claim)
    }

    /// Checks the proof for a share key and the device that shows it.
    pub fn verify(&self, ticket: &ShareTicket, peer: EndpointId) -> (replica: Result<
        ReplicaId,
        ShareError,
    >)
        ensures
            match replica {
                Ok(replica) => proof_holds(*self, ticket.body@, peer) && replica == self.replica,
                Err(error) => !proof_holds(*self, ticket.body@, peer) && error
                    == ShareError::ReplicaClaimRejected,
            },
    {
        let expected = Hash32::digest(self.old_endpoint.bytes.as_slice());
        proof {
            if self.replica@ == expected@ {
                crate::hash::lemma_hash_view_injective(self.replica.0, expected);
            }
        }
        if self.version != TICKET_VERSION || self.invitation != ticket.body.invitation_id
            || self.share != ticket.body.share_id || self.owner != ticket.body.owner
            || self.new_endpoint != peer || self.old_endpoint == peer || self.replica.0
            != expected {
            return Err(ShareError::ReplicaClaimRejected);
        }
        if !self.old_endpoint.verify(self.message().as_slice(), &self.signature) {
            return Err(ShareError::ReplicaClaimRejected);
        }
        Ok(self.replica)
    }
}

} // verus!
