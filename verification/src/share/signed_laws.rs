//! Signed bytes leave nothing of what is signed out: whoever alters it has to sign again.
use vstd::prelude::*;
use vstd::utf8::{is_ascii_chars, is_ascii_chars_encode_utf8};

use crate::hash::{
    le_bytes, lemma_array_view_injective, lemma_hash_view_injective, lemma_le_bytes_injective,
    lemma_same_parts, Hash32,
};
use crate::manifest::{chunk_material, manifest_material, ChunkDescriptor, ManifestView};
use crate::record::flag_code;
use crate::share::authority::{
    attestation_message, attestation_payload, grant_message, grant_payload, hashes_bytes,
    permit_message, permit_payload, reply_message, reply_payload, request_message, request_payload,
    token_message, token_payload, ActivateGrantReply, ActivateGrantRequest, ApplyPermit,
    AttestationView, ShareGrant, SnapshotToken,
};
use crate::share::codec::{in_domain, lemma_varint_first, optional_number, varint};
use crate::share::identity::{
    address_bytes, lemma_endpoint_view_injective, permission_code, ShareId, SnapshotId,
};
use crate::share::roster::{
    heartbeat_message, heartbeat_payload, roster_message, roster_payload, HeartbeatView, RosterView,
};
use crate::share::ticket::{body_bytes, proof_message, ticket_message, LegacyProof, TicketView};
use crate::text::utf8;

verus! {

/// A part of a byte form: bytes of a known length, or a number that tells where it ends.
enum Part {
    Bytes(Seq<u8>),
    Number(nat),
}

spec fn part_bytes(part: Part) -> Seq<u8> {
    match part {
        Part::Bytes(bytes) => bytes,
        Part::Number(number) => varint(number),
    }
}

/// Parts one behind the other.
spec fn flat(parts: Seq<Part>) -> Seq<u8>
    decreases parts.len(),
{
    if parts.len() == 0 {
        Seq::empty()
    } else {
        flat(parts.drop_last()) + part_bytes(parts.last())
    }
}

/// Two parts are of the same form.
spec fn like(a: Part, b: Part) -> bool {
    match (a, b) {
        (Part::Bytes(x), Part::Bytes(y)) => x.len() == y.len(),
        (Part::Number(_), Part::Number(_)) => true,
        _ => false,
    }
}

proof fn lemma_flat_push(parts: Seq<Part>, part: Part)
    ensures
        flat(parts.push(part)) == flat(parts) + part_bytes(part),
{
    assert(parts.push(part).drop_last() =~= parts);
}

proof fn lemma_flat_front(parts: Seq<Part>)
    requires
        parts.len() > 0,
    ensures
        flat(parts) == part_bytes(parts[0]) + flat(parts.skip(1)),
    decreases parts.len(),
{
    if parts.len() == 1 {
        assert(parts.drop_last() =~= Seq::empty());
        assert(parts.skip(1) =~= Seq::empty());
        assert(flat(parts) =~= part_bytes(parts[0]) + flat(parts.skip(1)));
    } else {
        let less = parts.drop_last();
        lemma_flat_front(less);
        assert(less.skip(1) =~= parts.skip(1).drop_last());
        assert(parts.skip(1).last() == parts.last());
        assert(flat(parts) =~= part_bytes(parts[0]) + flat(parts.skip(1)));
    }
}

/// Parts of the same forms, with the same bytes and whatever behind them, are the same.
proof fn lemma_flat_fixes(p: Seq<Part>, r: Seq<u8>, q: Seq<Part>, s: Seq<u8>)
    requires
        p.len() == q.len(),
        forall|i: int| 0 <= i < p.len() ==> like(#[trigger] p[i], q[i]),
        flat(p) + r == flat(q) + s,
    ensures
        p == q,
        r == s,
    decreases p.len(),
{
    if p.len() == 0 {
        assert(flat(p) + r =~= r);
        assert(flat(q) + s =~= s);
        assert(p =~= q);
    } else {
        lemma_flat_front(p);
        lemma_flat_front(q);
        let (x, y) = (p.skip(1), q.skip(1));
        assert(flat(p) + r =~= part_bytes(p[0]) + (flat(x) + r));
        assert(flat(q) + s =~= part_bytes(q[0]) + (flat(y) + s));
        assert(like(p[0], q[0]));
        match (p[0], q[0]) {
            (Part::Bytes(a), Part::Bytes(b)) => {
                lemma_same_parts(a, flat(x) + r, b, flat(y) + s);
            },
            (Part::Number(a), Part::Number(b)) => {
                lemma_varint_first(a, flat(x) + r, b, flat(y) + s);
            },
            _ => {},
        }
        assert forall|i: int| 0 <= i < x.len() implies like(#[trigger] x[i], y[i]) by {
            assert(like(p[i + 1], q[i + 1]));
        }
        lemma_flat_fixes(x, r, y, s);
        assert forall|i: int| 0 <= i < p.len() implies p[i] == q[i] by {
            if i > 0 {
                assert(x[i - 1] == y[i - 1]);
            }
        }
        assert(p =~= q);
    }
}

proof fn lemma_flat_injective(p: Seq<Part>, q: Seq<Part>)
    requires
        p.len() == q.len(),
        forall|i: int| 0 <= i < p.len() ==> like(#[trigger] p[i], q[i]),
        flat(p) == flat(q),
    ensures
        p == q,
{
    let none = Seq::<u8>::empty();
    assert(flat(p) + none =~= flat(q) + none);
    lemma_flat_fixes(p, none, q, none);
}

/// The same message in the same domain is the same payload.
proof fn lemma_same_payload(domain: Seq<char>, a: Seq<u8>, b: Seq<u8>)
    requires
        crate::share::codec::in_domain(domain, a) == crate::share::codec::in_domain(domain, b),
    ensures
        a == b,
{
    lemma_same_parts(utf8(domain) + seq![0u8], a, utf8(domain) + seq![0u8], b);
}

/// The parts of the signed bytes.
spec fn grant_parts(v: ShareGrant) -> Seq<Part> {
    Seq::<Part>::empty()
        .push(Part::Bytes(seq![v.version]))
        .push(Part::Bytes(v.owner@))
        .push(Part::Bytes(v.share@))
        .push(Part::Bytes(v.consumer@))
        .push(Part::Bytes(v.provider@))
        .push(Part::Number(v.epoch as nat))
        .push(Part::Number(v.provider_epoch as nat))
        .push(Part::Bytes(v.snapshot@))
        .push(Part::Bytes(v.manifest@))
        .push(Part::Bytes(v.request_hash@))
        .push(Part::Number(v.issued_at as nat))
        .push(Part::Number(v.expires_at as nat))
        .push(Part::Bytes(v.nonce@))
}

proof fn lemma_grant_parts(v: ShareGrant)
    ensures
        flat(grant_parts(v)) == grant_payload(v),
        grant_parts(v).len() == 13,
        grant_parts(v)[0] == Part::Bytes(seq![v.version]),
        grant_parts(v)[1] == Part::Bytes(v.owner@),
        grant_parts(v)[2] == Part::Bytes(v.share@),
        grant_parts(v)[3] == Part::Bytes(v.consumer@),
        grant_parts(v)[4] == Part::Bytes(v.provider@),
        grant_parts(v)[5] == Part::Number(v.epoch as nat),
        grant_parts(v)[6] == Part::Number(v.provider_epoch as nat),
        grant_parts(v)[7] == Part::Bytes(v.snapshot@),
        grant_parts(v)[8] == Part::Bytes(v.manifest@),
        grant_parts(v)[9] == Part::Bytes(v.request_hash@),
        grant_parts(v)[10] == Part::Number(v.issued_at as nat),
        grant_parts(v)[11] == Part::Number(v.expires_at as nat),
        grant_parts(v)[12] == Part::Bytes(v.nonce@),
{
    let s0 = Seq::<Part>::empty();
    assert(flat(s0) =~= Seq::empty());
    let s1 = s0.push(Part::Bytes(seq![v.version]));
    lemma_flat_push(s0, Part::Bytes(seq![v.version]));
    assert(flat(s1) =~= seq![v.version]);
    let s2 = s1.push(Part::Bytes(v.owner@));
    lemma_flat_push(s1, Part::Bytes(v.owner@));
    let s3 = s2.push(Part::Bytes(v.share@));
    lemma_flat_push(s2, Part::Bytes(v.share@));
    let s4 = s3.push(Part::Bytes(v.consumer@));
    lemma_flat_push(s3, Part::Bytes(v.consumer@));
    let s5 = s4.push(Part::Bytes(v.provider@));
    lemma_flat_push(s4, Part::Bytes(v.provider@));
    let s6 = s5.push(Part::Number(v.epoch as nat));
    lemma_flat_push(s5, Part::Number(v.epoch as nat));
    let s7 = s6.push(Part::Number(v.provider_epoch as nat));
    lemma_flat_push(s6, Part::Number(v.provider_epoch as nat));
    let s8 = s7.push(Part::Bytes(v.snapshot@));
    lemma_flat_push(s7, Part::Bytes(v.snapshot@));
    let s9 = s8.push(Part::Bytes(v.manifest@));
    lemma_flat_push(s8, Part::Bytes(v.manifest@));
    let s10 = s9.push(Part::Bytes(v.request_hash@));
    lemma_flat_push(s9, Part::Bytes(v.request_hash@));
    let s11 = s10.push(Part::Number(v.issued_at as nat));
    lemma_flat_push(s10, Part::Number(v.issued_at as nat));
    let s12 = s11.push(Part::Number(v.expires_at as nat));
    lemma_flat_push(s11, Part::Number(v.expires_at as nat));
    let s13 = s12.push(Part::Bytes(v.nonce@));
    lemma_flat_push(s12, Part::Bytes(v.nonce@));
}

/// The signed bytes of a grant fix all that it says.
pub proof fn law_signed_bytes_fix_the_grant(a: ShareGrant, b: ShareGrant)
    requires
        grant_message(a) == grant_message(b),
    ensures
        a == (ShareGrant { signature: a.signature, ..b }),
{
    lemma_same_payload("deltaweave/share-grant/v1"@, grant_payload(a), grant_payload(b));
    lemma_grant_parts(a);
    lemma_grant_parts(b);
    let (p, q) = (grant_parts(a), grant_parts(b));
    assert forall|i: int| 0 <= i < p.len() implies like(#[trigger] p[i], q[i]) by {
        assert(i == 0 || i == 1 || i == 2 || i == 3 || i == 4 || i == 5 || i == 6 || i == 7
            || i == 8 || i == 9 || i == 10 || i == 11 || i == 12);
    }
    lemma_flat_injective(p, q);
    assert(p[0] == q[0]);
    assert(p[1] == q[1]);
    assert(p[2] == q[2]);
    assert(p[3] == q[3]);
    assert(p[4] == q[4]);
    assert(p[5] == q[5]);
    assert(p[6] == q[6]);
    assert(p[7] == q[7]);
    assert(p[8] == q[8]);
    assert(p[9] == q[9]);
    assert(p[10] == q[10]);
    assert(p[11] == q[11]);
    assert(p[12] == q[12]);
    assert(seq![a.version][0] == seq![b.version][0]);
    lemma_endpoint_view_injective(a.owner, b.owner);
    lemma_array_view_injective(a.share.0, b.share.0);
    lemma_endpoint_view_injective(a.consumer, b.consumer);
    lemma_endpoint_view_injective(a.provider, b.provider);
    lemma_array_view_injective(a.snapshot, b.snapshot);
    lemma_hash_view_injective(a.manifest, b.manifest);
    lemma_hash_view_injective(a.request_hash, b.request_hash);
    lemma_array_view_injective(a.nonce, b.nonce);
}

/// The parts of the signed bytes.
spec fn permit_parts(v: ApplyPermit) -> Seq<Part> {
    Seq::<Part>::empty()
        .push(Part::Bytes(seq![v.version]))
        .push(Part::Bytes(v.owner@))
        .push(Part::Bytes(v.share@))
        .push(Part::Bytes(v.consumer@))
        .push(Part::Number(v.epoch as nat))
        .push(Part::Bytes(v.snapshot@))
        .push(Part::Bytes(v.root_hash@))
        .push(Part::Number(v.issued_at as nat))
        .push(Part::Number(v.expires_at as nat))
        .push(Part::Bytes(v.nonce@))
}

proof fn lemma_permit_parts(v: ApplyPermit)
    ensures
        flat(permit_parts(v)) == permit_payload(v),
        permit_parts(v).len() == 10,
        permit_parts(v)[0] == Part::Bytes(seq![v.version]),
        permit_parts(v)[1] == Part::Bytes(v.owner@),
        permit_parts(v)[2] == Part::Bytes(v.share@),
        permit_parts(v)[3] == Part::Bytes(v.consumer@),
        permit_parts(v)[4] == Part::Number(v.epoch as nat),
        permit_parts(v)[5] == Part::Bytes(v.snapshot@),
        permit_parts(v)[6] == Part::Bytes(v.root_hash@),
        permit_parts(v)[7] == Part::Number(v.issued_at as nat),
        permit_parts(v)[8] == Part::Number(v.expires_at as nat),
        permit_parts(v)[9] == Part::Bytes(v.nonce@),
{
    let s0 = Seq::<Part>::empty();
    assert(flat(s0) =~= Seq::empty());
    let s1 = s0.push(Part::Bytes(seq![v.version]));
    lemma_flat_push(s0, Part::Bytes(seq![v.version]));
    assert(flat(s1) =~= seq![v.version]);
    let s2 = s1.push(Part::Bytes(v.owner@));
    lemma_flat_push(s1, Part::Bytes(v.owner@));
    let s3 = s2.push(Part::Bytes(v.share@));
    lemma_flat_push(s2, Part::Bytes(v.share@));
    let s4 = s3.push(Part::Bytes(v.consumer@));
    lemma_flat_push(s3, Part::Bytes(v.consumer@));
    let s5 = s4.push(Part::Number(v.epoch as nat));
    lemma_flat_push(s4, Part::Number(v.epoch as nat));
    let s6 = s5.push(Part::Bytes(v.snapshot@));
    lemma_flat_push(s5, Part::Bytes(v.snapshot@));
    let s7 = s6.push(Part::Bytes(v.root_hash@));
    lemma_flat_push(s6, Part::Bytes(v.root_hash@));
    let s8 = s7.push(Part::Number(v.issued_at as nat));
    lemma_flat_push(s7, Part::Number(v.issued_at as nat));
    let s9 = s8.push(Part::Number(v.expires_at as nat));
    lemma_flat_push(s8, Part::Number(v.expires_at as nat));
    let s10 = s9.push(Part::Bytes(v.nonce@));
    lemma_flat_push(s9, Part::Bytes(v.nonce@));
}

/// The signed bytes of a permit fix all that it says.
pub proof fn law_signed_bytes_fix_the_permit(a: ApplyPermit, b: ApplyPermit)
    requires
        permit_message(a) == permit_message(b),
    ensures
        a == (ApplyPermit { signature: a.signature, ..b }),
{
    lemma_same_payload("deltaweave/share-apply/v1"@, permit_payload(a), permit_payload(b));
    lemma_permit_parts(a);
    lemma_permit_parts(b);
    let (p, q) = (permit_parts(a), permit_parts(b));
    assert forall|i: int| 0 <= i < p.len() implies like(#[trigger] p[i], q[i]) by {
        assert(i == 0 || i == 1 || i == 2 || i == 3 || i == 4 || i == 5 || i == 6 || i == 7
            || i == 8 || i == 9);
    }
    lemma_flat_injective(p, q);
    assert(p[0] == q[0]);
    assert(p[1] == q[1]);
    assert(p[2] == q[2]);
    assert(p[3] == q[3]);
    assert(p[4] == q[4]);
    assert(p[5] == q[5]);
    assert(p[6] == q[6]);
    assert(p[7] == q[7]);
    assert(p[8] == q[8]);
    assert(p[9] == q[9]);
    assert(seq![a.version][0] == seq![b.version][0]);
    lemma_endpoint_view_injective(a.owner, b.owner);
    lemma_array_view_injective(a.share.0, b.share.0);
    lemma_endpoint_view_injective(a.consumer, b.consumer);
    lemma_array_view_injective(a.snapshot, b.snapshot);
    lemma_hash_view_injective(a.root_hash, b.root_hash);
    lemma_array_view_injective(a.nonce, b.nonce);
}

/// The parts of the signed bytes.
spec fn request_parts(v: ActivateGrantRequest) -> Seq<Part> {
    Seq::<Part>::empty()
        .push(Part::Bytes(v.owner@))
        .push(Part::Bytes(v.share@))
        .push(Part::Bytes(v.consumer@))
        .push(Part::Bytes(v.provider@))
        .push(Part::Number(v.epoch as nat))
        .push(Part::Number(v.provider_epoch as nat))
        .push(Part::Bytes(v.manifest@))
        .push(Part::Bytes(v.request_hash@))
        .push(Part::Bytes(v.nonce@))
}

proof fn lemma_request_parts(v: ActivateGrantRequest)
    ensures
        flat(request_parts(v)) == request_payload(v),
        request_parts(v).len() == 9,
        request_parts(v)[0] == Part::Bytes(v.owner@),
        request_parts(v)[1] == Part::Bytes(v.share@),
        request_parts(v)[2] == Part::Bytes(v.consumer@),
        request_parts(v)[3] == Part::Bytes(v.provider@),
        request_parts(v)[4] == Part::Number(v.epoch as nat),
        request_parts(v)[5] == Part::Number(v.provider_epoch as nat),
        request_parts(v)[6] == Part::Bytes(v.manifest@),
        request_parts(v)[7] == Part::Bytes(v.request_hash@),
        request_parts(v)[8] == Part::Bytes(v.nonce@),
{
    let s0 = Seq::<Part>::empty();
    assert(flat(s0) =~= Seq::empty());
    let s1 = s0.push(Part::Bytes(v.owner@));
    lemma_flat_push(s0, Part::Bytes(v.owner@));
    assert(flat(s1) =~= v.owner@);
    let s2 = s1.push(Part::Bytes(v.share@));
    lemma_flat_push(s1, Part::Bytes(v.share@));
    let s3 = s2.push(Part::Bytes(v.consumer@));
    lemma_flat_push(s2, Part::Bytes(v.consumer@));
    let s4 = s3.push(Part::Bytes(v.provider@));
    lemma_flat_push(s3, Part::Bytes(v.provider@));
    let s5 = s4.push(Part::Number(v.epoch as nat));
    lemma_flat_push(s4, Part::Number(v.epoch as nat));
    let s6 = s5.push(Part::Number(v.provider_epoch as nat));
    lemma_flat_push(s5, Part::Number(v.provider_epoch as nat));
    let s7 = s6.push(Part::Bytes(v.manifest@));
    lemma_flat_push(s6, Part::Bytes(v.manifest@));
    let s8 = s7.push(Part::Bytes(v.request_hash@));
    lemma_flat_push(s7, Part::Bytes(v.request_hash@));
    let s9 = s8.push(Part::Bytes(v.nonce@));
    lemma_flat_push(s8, Part::Bytes(v.nonce@));
}

/// The bytes of a request to activate a grant fix all that it says.
pub proof fn law_signed_bytes_fix_the_request(a: ActivateGrantRequest, b: ActivateGrantRequest)
    requires
        request_message(a) == request_message(b),
    ensures
        a == b,
{
    lemma_same_payload("deltaweave/share-activate/v1"@, request_payload(a), request_payload(b));
    lemma_request_parts(a);
    lemma_request_parts(b);
    let (p, q) = (request_parts(a), request_parts(b));
    assert forall|i: int| 0 <= i < p.len() implies like(#[trigger] p[i], q[i]) by {
        assert(i == 0 || i == 1 || i == 2 || i == 3 || i == 4 || i == 5 || i == 6 || i == 7
            || i == 8);
    }
    lemma_flat_injective(p, q);
    assert(p[0] == q[0]);
    assert(p[1] == q[1]);
    assert(p[2] == q[2]);
    assert(p[3] == q[3]);
    assert(p[4] == q[4]);
    assert(p[5] == q[5]);
    assert(p[6] == q[6]);
    assert(p[7] == q[7]);
    assert(p[8] == q[8]);
    lemma_endpoint_view_injective(a.owner, b.owner);
    lemma_array_view_injective(a.share.0, b.share.0);
    lemma_endpoint_view_injective(a.consumer, b.consumer);
    lemma_endpoint_view_injective(a.provider, b.provider);
    lemma_hash_view_injective(a.manifest, b.manifest);
    lemma_hash_view_injective(a.request_hash, b.request_hash);
    lemma_array_view_injective(a.nonce, b.nonce);
}

/// The parts of the signed bytes.
spec fn reply_parts(v: ActivateGrantReply) -> Seq<Part> {
    Seq::<Part>::empty()
        .push(Part::Bytes(v.share@))
        .push(Part::Bytes(v.provider@))
        .push(Part::Bytes(v.nonce@))
        .push(Part::Bytes(v.activation_id@))
        .push(Part::Bytes(seq![flag_code(v.accepted)]))
        .push(Part::Number(v.max_duration_secs as nat))
}

proof fn lemma_reply_parts(v: ActivateGrantReply)
    ensures
        flat(reply_parts(v)) == reply_payload(v),
        reply_parts(v).len() == 6,
        reply_parts(v)[0] == Part::Bytes(v.share@),
        reply_parts(v)[1] == Part::Bytes(v.provider@),
        reply_parts(v)[2] == Part::Bytes(v.nonce@),
        reply_parts(v)[3] == Part::Bytes(v.activation_id@),
        reply_parts(v)[4] == Part::Bytes(seq![flag_code(v.accepted)]),
        reply_parts(v)[5] == Part::Number(v.max_duration_secs as nat),
{
    let s0 = Seq::<Part>::empty();
    assert(flat(s0) =~= Seq::empty());
    let s1 = s0.push(Part::Bytes(v.share@));
    lemma_flat_push(s0, Part::Bytes(v.share@));
    assert(flat(s1) =~= v.share@);
    let s2 = s1.push(Part::Bytes(v.provider@));
    lemma_flat_push(s1, Part::Bytes(v.provider@));
    let s3 = s2.push(Part::Bytes(v.nonce@));
    lemma_flat_push(s2, Part::Bytes(v.nonce@));
    let s4 = s3.push(Part::Bytes(v.activation_id@));
    lemma_flat_push(s3, Part::Bytes(v.activation_id@));
    let s5 = s4.push(Part::Bytes(seq![flag_code(v.accepted)]));
    lemma_flat_push(s4, Part::Bytes(seq![flag_code(v.accepted)]));
    let s6 = s5.push(Part::Number(v.max_duration_secs as nat));
    lemma_flat_push(s5, Part::Number(v.max_duration_secs as nat));
}

/// The signed bytes of a reply to an activation fix all that it says.
pub proof fn law_signed_bytes_fix_the_reply(a: ActivateGrantReply, b: ActivateGrantReply)
    requires
        reply_message(a) == reply_message(b),
    ensures
        a == (ActivateGrantReply { signature: a.signature, ..b }),
{
    lemma_same_payload("deltaweave/share-activate/v1"@, reply_payload(a), reply_payload(b));
    lemma_reply_parts(a);
    lemma_reply_parts(b);
    let (p, q) = (reply_parts(a), reply_parts(b));
    assert forall|i: int| 0 <= i < p.len() implies like(#[trigger] p[i], q[i]) by {
        assert(i == 0 || i == 1 || i == 2 || i == 3 || i == 4 || i == 5);
    }
    lemma_flat_injective(p, q);
    assert(p[0] == q[0]);
    assert(p[1] == q[1]);
    assert(p[2] == q[2]);
    assert(p[3] == q[3]);
    assert(p[4] == q[4]);
    assert(p[5] == q[5]);
    assert(seq![flag_code(a.accepted)][0] == seq![flag_code(b.accepted)][0]);
    lemma_array_view_injective(a.share.0, b.share.0);
    lemma_endpoint_view_injective(a.provider, b.provider);
    lemma_array_view_injective(a.nonce, b.nonce);
    lemma_array_view_injective(a.activation_id, b.activation_id);
}

/// What of a proof is signed.
spec fn proof_payload(claim: LegacyProof) -> Seq<u8> {
    seq![claim.version] + claim.invitation@ + claim.share@ + claim.owner@ + claim.new_endpoint@
        + claim.old_endpoint@ + claim.replica@
}

/// The parts of the signed bytes.
spec fn proof_parts(v: LegacyProof) -> Seq<Part> {
    Seq::<Part>::empty()
        .push(Part::Bytes(seq![v.version]))
        .push(Part::Bytes(v.invitation@))
        .push(Part::Bytes(v.share@))
        .push(Part::Bytes(v.owner@))
        .push(Part::Bytes(v.new_endpoint@))
        .push(Part::Bytes(v.old_endpoint@))
        .push(Part::Bytes(v.replica@))
}

proof fn lemma_proof_parts(v: LegacyProof)
    ensures
        flat(proof_parts(v)) == proof_payload(v),
        proof_parts(v).len() == 7,
        proof_parts(v)[0] == Part::Bytes(seq![v.version]),
        proof_parts(v)[1] == Part::Bytes(v.invitation@),
        proof_parts(v)[2] == Part::Bytes(v.share@),
        proof_parts(v)[3] == Part::Bytes(v.owner@),
        proof_parts(v)[4] == Part::Bytes(v.new_endpoint@),
        proof_parts(v)[5] == Part::Bytes(v.old_endpoint@),
        proof_parts(v)[6] == Part::Bytes(v.replica@),
{
    let s0 = Seq::<Part>::empty();
    assert(flat(s0) =~= Seq::empty());
    let s1 = s0.push(Part::Bytes(seq![v.version]));
    lemma_flat_push(s0, Part::Bytes(seq![v.version]));
    assert(flat(s1) =~= seq![v.version]);
    let s2 = s1.push(Part::Bytes(v.invitation@));
    lemma_flat_push(s1, Part::Bytes(v.invitation@));
    let s3 = s2.push(Part::Bytes(v.share@));
    lemma_flat_push(s2, Part::Bytes(v.share@));
    let s4 = s3.push(Part::Bytes(v.owner@));
    lemma_flat_push(s3, Part::Bytes(v.owner@));
    let s5 = s4.push(Part::Bytes(v.new_endpoint@));
    lemma_flat_push(s4, Part::Bytes(v.new_endpoint@));
    let s6 = s5.push(Part::Bytes(v.old_endpoint@));
    lemma_flat_push(s5, Part::Bytes(v.old_endpoint@));
    let s7 = s6.push(Part::Bytes(v.replica@));
    lemma_flat_push(s6, Part::Bytes(v.replica@));
}

/// The signed bytes of a proof fix all that it says.
pub proof fn law_signed_bytes_fix_the_proof(a: LegacyProof, b: LegacyProof)
    requires
        proof_message(a) == proof_message(b),
    ensures
        a == (LegacyProof { signature: a.signature, ..b }),
{
    lemma_same_payload("deltaweave/share/legacy-claim/v3"@, proof_payload(a), proof_payload(b));
    lemma_proof_parts(a);
    lemma_proof_parts(b);
    let (p, q) = (proof_parts(a), proof_parts(b));
    assert forall|i: int| 0 <= i < p.len() implies like(#[trigger] p[i], q[i]) by {
        assert(i == 0 || i == 1 || i == 2 || i == 3 || i == 4 || i == 5 || i == 6);
    }
    lemma_flat_injective(p, q);
    assert(p[0] == q[0]);
    assert(p[1] == q[1]);
    assert(p[2] == q[2]);
    assert(p[3] == q[3]);
    assert(p[4] == q[4]);
    assert(p[5] == q[5]);
    assert(p[6] == q[6]);
    assert(seq![a.version][0] == seq![b.version][0]);
    lemma_array_view_injective(a.invitation.0, b.invitation.0);
    lemma_array_view_injective(a.share.0, b.share.0);
    lemma_endpoint_view_injective(a.owner, b.owner);
    lemma_endpoint_view_injective(a.new_endpoint, b.new_endpoint);
    lemma_endpoint_view_injective(a.old_endpoint, b.old_endpoint);
    lemma_hash_view_injective(a.replica.0, b.replica.0);
}

/// The parts of the signed bytes.
spec fn key_head_parts(v: TicketView) -> Seq<Part> {
    Seq::<Part>::empty()
        .push(Part::Bytes(seq![v.version]))
        .push(Part::Bytes(v.share_id@))
        .push(Part::Bytes(v.owner@))
        .push(Part::Number(utf8(v.name).len()))
}

proof fn lemma_key_head_parts(v: TicketView)
    ensures
        flat(key_head_parts(v)) == seq![v.version] + v.share_id@ + v.owner@
            + varint(utf8(v.name).len()),
        key_head_parts(v).len() == 4,
        key_head_parts(v)[0] == Part::Bytes(seq![v.version]),
        key_head_parts(v)[1] == Part::Bytes(v.share_id@),
        key_head_parts(v)[2] == Part::Bytes(v.owner@),
        key_head_parts(v)[3] == Part::Number(utf8(v.name).len()),
{
    let s0 = Seq::<Part>::empty();
    assert(flat(s0) =~= Seq::empty());
    let s1 = s0.push(Part::Bytes(seq![v.version]));
    lemma_flat_push(s0, Part::Bytes(seq![v.version]));
    assert(flat(s1) =~= seq![v.version]);
    let s2 = s1.push(Part::Bytes(v.share_id@));
    lemma_flat_push(s1, Part::Bytes(v.share_id@));
    let s3 = s2.push(Part::Bytes(v.owner@));
    lemma_flat_push(s2, Part::Bytes(v.owner@));
    let s4 = s3.push(Part::Number(utf8(v.name).len()));
    lemma_flat_push(s3, Part::Number(utf8(v.name).len()));
}

/// The parts of the signed bytes.
spec fn key_middle_parts(v: TicketView) -> Seq<Part> {
    Seq::<Part>::empty()
        .push(Part::Bytes(utf8(v.name)))
        .push(Part::Number(permission_code(v.permission) as nat))
        .push(Part::Bytes(v.invitation_id@))
        .push(Part::Bytes(v.bearer@))
        .push(Part::Number(v.issued_at as nat))
}

proof fn lemma_key_middle_parts(v: TicketView)
    ensures
        flat(key_middle_parts(v)) == utf8(v.name) + varint(permission_code(v.permission) as nat)
            + v.invitation_id@ + v.bearer@ + varint(v.issued_at as nat),
        key_middle_parts(v).len() == 5,
        key_middle_parts(v)[0] == Part::Bytes(utf8(v.name)),
        key_middle_parts(v)[1] == Part::Number(permission_code(v.permission) as nat),
        key_middle_parts(v)[2] == Part::Bytes(v.invitation_id@),
        key_middle_parts(v)[3] == Part::Bytes(v.bearer@),
        key_middle_parts(v)[4] == Part::Number(v.issued_at as nat),
{
    let s0 = Seq::<Part>::empty();
    assert(flat(s0) =~= Seq::empty());
    let s1 = s0.push(Part::Bytes(utf8(v.name)));
    lemma_flat_push(s0, Part::Bytes(utf8(v.name)));
    assert(flat(s1) =~= utf8(v.name));
    let s2 = s1.push(Part::Number(permission_code(v.permission) as nat));
    lemma_flat_push(s1, Part::Number(permission_code(v.permission) as nat));
    let s3 = s2.push(Part::Bytes(v.invitation_id@));
    lemma_flat_push(s2, Part::Bytes(v.invitation_id@));
    let s4 = s3.push(Part::Bytes(v.bearer@));
    lemma_flat_push(s3, Part::Bytes(v.bearer@));
    let s5 = s4.push(Part::Number(v.issued_at as nat));
    lemma_flat_push(s4, Part::Number(v.issued_at as nat));
}

/// The parts of the signed bytes.
spec fn manifest_head_parts(v: ManifestView) -> Seq<Part> {
    Seq::<Part>::empty()
        .push(Part::Bytes(eight(v.schema_version as u64)))
        .push(Part::Bytes(eight(v.size)))
        .push(Part::Bytes(v.file_hash@))
        .push(Part::Bytes(eight(v.profile.minimum as u64)))
        .push(Part::Bytes(eight(v.profile.average as u64)))
        .push(Part::Bytes(eight(v.profile.maximum as u64)))
        .push(Part::Bytes(eight(v.chunks.len() as u64)))
}

proof fn lemma_manifest_head_parts(v: ManifestView)
    ensures
        flat(manifest_head_parts(v)) == le_bytes(v.schema_version as u64) + le_bytes(v.size)
            + v.file_hash@ + le_bytes(v.profile.minimum as u64)
            + le_bytes(v.profile.average as u64) + le_bytes(v.profile.maximum as u64)
            + le_bytes(v.chunks.len() as u64),
        manifest_head_parts(v).len() == 7,
        manifest_head_parts(v)[0] == Part::Bytes(eight(v.schema_version as u64)),
        manifest_head_parts(v)[1] == Part::Bytes(eight(v.size)),
        manifest_head_parts(v)[2] == Part::Bytes(v.file_hash@),
        manifest_head_parts(v)[3] == Part::Bytes(eight(v.profile.minimum as u64)),
        manifest_head_parts(v)[4] == Part::Bytes(eight(v.profile.average as u64)),
        manifest_head_parts(v)[5] == Part::Bytes(eight(v.profile.maximum as u64)),
        manifest_head_parts(v)[6] == Part::Bytes(eight(v.chunks.len() as u64)),
{
    reveal(eight);
    let s0 = Seq::<Part>::empty();
    assert(flat(s0) =~= Seq::empty());
    let s1 = s0.push(Part::Bytes(eight(v.schema_version as u64)));
    lemma_flat_push(s0, Part::Bytes(eight(v.schema_version as u64)));
    assert(flat(s1) =~= eight(v.schema_version as u64));
    let s2 = s1.push(Part::Bytes(eight(v.size)));
    lemma_flat_push(s1, Part::Bytes(eight(v.size)));
    let s3 = s2.push(Part::Bytes(v.file_hash@));
    lemma_flat_push(s2, Part::Bytes(v.file_hash@));
    let s4 = s3.push(Part::Bytes(eight(v.profile.minimum as u64)));
    lemma_flat_push(s3, Part::Bytes(eight(v.profile.minimum as u64)));
    let s5 = s4.push(Part::Bytes(eight(v.profile.average as u64)));
    lemma_flat_push(s4, Part::Bytes(eight(v.profile.average as u64)));
    let s6 = s5.push(Part::Bytes(eight(v.profile.maximum as u64)));
    lemma_flat_push(s5, Part::Bytes(eight(v.profile.maximum as u64)));
    let s7 = s6.push(Part::Bytes(eight(v.chunks.len() as u64)));
    lemma_flat_push(s6, Part::Bytes(eight(v.chunks.len() as u64)));
}

proof fn lemma_key_nested(v: TicketView)
    ensures
        body_bytes(v) == flat(key_head_parts(v)) + (flat(key_middle_parts(v)) + (optional_number(
            v.expires_at,
        ) + address_bytes(v.address))),
{
    lemma_key_head_parts(v);
    lemma_key_middle_parts(v);
    let name = utf8(v.name);
    let head = seq![v.version] + v.share_id@ + v.owner@;
    let count = varint(name.len());
    let permission = varint(permission_code(v.permission) as nat);
    let (id, bearer, issued) = (v.invitation_id@, v.bearer@, varint(v.issued_at as nat));
    let (end, address) = (optional_number(v.expires_at), address_bytes(v.address));
    assert(head + (count + name) =~= head + count + name);
    crate::record::lemma_nested(
        head + count,
        name,
        permission,
        id,
        bearer,
        issued,
        end,
        address,
        Seq::empty(),
    );
    crate::record::lemma_nested(
        name,
        permission,
        id,
        bearer,
        issued,
        end,
        address,
        Seq::empty(),
        Seq::empty(),
    );
    let middle = name + permission + id + bearer + issued;
    assert(body_bytes(v) == head + (count + name) + permission + id + bearer + issued + end
        + address);
    let whole = head + count + name + permission + id + bearer + issued + end + address;
    assert(whole + Seq::<u8>::empty() =~= whole);
    assert(middle + end + address + Seq::<u8>::empty() + Seq::<u8>::empty() =~= middle + (end
        + address));
    assert(address + (Seq::<u8>::empty() + Seq::<u8>::empty()) =~= address);
    assert(address + Seq::<u8>::empty() =~= address);
}

/// A number that may be missing, with bytes behind it, is fixed by its bytes.
proof fn lemma_optional_first(a: Option<u64>, r: Seq<u8>, b: Option<u64>, s: Seq<u8>)
    requires
        optional_number(a) + r == optional_number(b) + s,
    ensures
        a == b,
        r == s,
{
    let (x, y) = (optional_number(a) + r, optional_number(b) + s);
    assert(x[0] == optional_number(a)[0]);
    assert(y[0] == optional_number(b)[0]);
    match (a, b) {
        (Some(m), Some(n)) => {
            assert(x =~= seq![1u8] + (varint(m as nat) + r));
            assert(y =~= seq![1u8] + (varint(n as nat) + s));
            lemma_same_parts(
                seq![1u8],
                varint(m as nat) + r,
                seq![1u8],
                varint(n as nat) + s,
            );
            lemma_varint_first(m as nat, r, n as nat, s);
        },
        (None, None) => {
            lemma_same_parts(seq![0u8], r, seq![0u8], s);
        },
        _ => {},
    }
}

/// The signed bytes of a share key fix all that it says: the share and its owner, the name, what it
/// permits, its identity and its bearer, its times, and the bytes of the owner's address.
pub proof fn law_signed_bytes_fix_the_key(a: TicketView, b: TicketView)
    requires
        ticket_message(a) == ticket_message(b),
    ensures
        a.version == b.version,
        a.share_id == b.share_id,
        a.owner == b.owner,
        utf8(a.name) == utf8(b.name),
        a.permission == b.permission,
        a.invitation_id == b.invitation_id,
        a.bearer == b.bearer,
        a.issued_at == b.issued_at,
        a.expires_at == b.expires_at,
        address_bytes(a.address) == address_bytes(b.address),
{
    lemma_same_payload("deltaweave/share/invitation/v3"@, body_bytes(a), body_bytes(b));
    lemma_key_nested(a);
    lemma_key_nested(b);
    lemma_key_head_parts(a);
    lemma_key_head_parts(b);
    lemma_key_middle_parts(a);
    lemma_key_middle_parts(b);
    let (x, y) = (
        optional_number(a.expires_at) + address_bytes(a.address),
        optional_number(b.expires_at) + address_bytes(b.address),
    );
    let (p, q) = (key_head_parts(a), key_head_parts(b));
    let (m, n) = (key_middle_parts(a), key_middle_parts(b));
    assert forall|i: int| 0 <= i < p.len() implies like(#[trigger] p[i], q[i]) by {
        assert(i == 0 || i == 1 || i == 2 || i == 3);
    }
    lemma_flat_fixes(p, flat(m) + x, q, flat(n) + y);
    assert(p[0] == q[0] && p[1] == q[1] && p[2] == q[2] && p[3] == q[3]);
    assert forall|i: int| 0 <= i < m.len() implies like(#[trigger] m[i], n[i]) by {
        assert(i == 0 || i == 1 || i == 2 || i == 3 || i == 4);
    }
    lemma_flat_fixes(m, x, n, y);
    assert(m[0] == n[0] && m[1] == n[1] && m[2] == n[2] && m[3] == n[3] && m[4] == n[4]);
    lemma_optional_first(
        a.expires_at,
        address_bytes(a.address),
        b.expires_at,
        address_bytes(b.address),
    );
    assert(seq![a.version][0] == seq![b.version][0]);
    lemma_array_view_injective(a.share_id.0, b.share_id.0);
    lemma_endpoint_view_injective(a.owner, b.owner);
    lemma_array_view_injective(a.invitation_id.0, b.invitation_id.0);
    lemma_array_view_injective(a.bearer, b.bearer);
}

proof fn lemma_hashes_fixed(a: Seq<Hash32>, b: Seq<Hash32>)
    requires
        a.len() == b.len(),
        hashes_bytes(a) == hashes_bytes(b),
    ensures
        a == b,
    decreases a.len(),
{
    if a.len() > 0 {
        lemma_hashes_len(a.drop_last());
        lemma_hashes_len(b.drop_last());
        lemma_same_parts(
            hashes_bytes(a.drop_last()),
            a.last()@,
            hashes_bytes(b.drop_last()),
            b.last()@,
        );
        lemma_hashes_fixed(a.drop_last(), b.drop_last());
        lemma_hash_view_injective(a.last(), b.last());
        assert(a =~= a.drop_last().push(a.last()));
        assert(b =~= b.drop_last().push(b.last()));
    } else {
        assert(a =~= b);
    }
}

proof fn lemma_hashes_len(a: Seq<Hash32>)
    ensures
        hashes_bytes(a).len() == 32 * a.len(),
    decreases a.len(),
{
    if a.len() > 0 {
        lemma_hashes_len(a.drop_last());
    }
}

/// The bytes that a request's digest is taken of fix what is asked for: the share, the snapshot, the
/// manifest and every chunk.
pub proof fn law_request_bytes_fix_the_request(
    share: ShareId,
    snapshot: SnapshotId,
    manifest: Hash32,
    hashes: Seq<Hash32>,
    other_share: ShareId,
    other_snapshot: SnapshotId,
    other_manifest: Hash32,
    others: Seq<Hash32>,
)
    requires
        share@ + snapshot@ + manifest@ + varint(hashes.len()) + hashes_bytes(hashes) == other_share@
            + other_snapshot@ + other_manifest@ + varint(others.len()) + hashes_bytes(others),
    ensures
        share == other_share,
        snapshot == other_snapshot,
        manifest == other_manifest,
        hashes == others,
{
    let (x, y) = (
        varint(hashes.len()) + hashes_bytes(hashes),
        varint(others.len()) + hashes_bytes(others),
    );
    let (p, q) = (share@ + snapshot@ + manifest@, other_share@ + other_snapshot@ + other_manifest@);
    assert(p + varint(hashes.len()) + hashes_bytes(hashes) =~= p + x);
    assert(q + varint(others.len()) + hashes_bytes(others) =~= q + y);
    lemma_same_parts(p, x, q, y);
    lemma_same_parts(
        share@ + snapshot@,
        manifest@,
        other_share@ + other_snapshot@,
        other_manifest@,
    );
    lemma_same_parts(share@, snapshot@, other_share@, other_snapshot@);
    lemma_varint_first(hashes.len(), hashes_bytes(hashes), others.len(), hashes_bytes(others));
    lemma_hashes_fixed(hashes, others);
    lemma_array_view_injective(share.0, other_share.0);
    lemma_array_view_injective(snapshot, other_snapshot);
    lemma_hash_view_injective(manifest, other_manifest);
}

proof fn lemma_chunk_material_len(chunks: Seq<ChunkDescriptor>)
    ensures
        chunk_material(chunks).len() == 48 * chunks.len(),
    decreases chunks.len(),
{
    if chunks.len() > 0 {
        lemma_chunk_material_len(chunks.drop_last());
    }
}

proof fn lemma_chunk_material(a: Seq<ChunkDescriptor>, b: Seq<ChunkDescriptor>)
    requires
        a.len() == b.len(),
        chunk_material(a) == chunk_material(b),
    ensures
        a == b,
    decreases a.len(),
{
    if a.len() > 0 {
        let (x, y) = (a.drop_last(), b.drop_last());
        let (p, q) = (a.last(), b.last());
        lemma_chunk_material_len(x);
        lemma_chunk_material_len(y);
        let m = chunk_material(x) + le_bytes(p.offset);
        let n = chunk_material(y) + le_bytes(q.offset);
        lemma_same_parts(
            m + le_bytes(p.length as u64),
            p.hash@,
            n + le_bytes(q.length as u64),
            q.hash@,
        );
        lemma_same_parts(m, le_bytes(p.length as u64), n, le_bytes(q.length as u64));
        lemma_same_parts(
            chunk_material(x),
            le_bytes(p.offset),
            chunk_material(y),
            le_bytes(q.offset),
        );
        lemma_le_bytes_injective(p.offset, q.offset);
        lemma_le_bytes_injective(p.length as u64, q.length as u64);
        lemma_hash_view_injective(p.hash, q.hash);
        lemma_chunk_material(x, y);
        assert(a =~= x.push(p));
        assert(b =~= y.push(q));
    } else {
        assert(a =~= b);
    }
}

/// The eight bytes of a number.
#[verifier::opaque]
spec fn eight(value: u64) -> Seq<u8> {
    le_bytes(value)
}

proof fn lemma_eight_len(value: u64)
    ensures
        eight(value).len() == 8,
{
    reveal(eight);
}

proof fn lemma_eight_injective(a: u64, b: u64)
    requires
        eight(a) == eight(b),
    ensures
        a == b,
{
    reveal(eight);
    lemma_le_bytes_injective(a, b);
}

proof fn lemma_manifest_like(a: ManifestView, b: ManifestView)
    ensures
        ({
            let (p, q) = (manifest_head_parts(a), manifest_head_parts(b));
            p.len() == q.len() && forall|i: int| 0 <= i < p.len() ==> like(#[trigger] p[i], q[i])
        }),
{
    let (p, q) = (manifest_head_parts(a), manifest_head_parts(b));
    lemma_eight_len(a.schema_version as u64);
    lemma_eight_len(b.schema_version as u64);
    lemma_eight_len(a.size);
    lemma_eight_len(b.size);
    lemma_eight_len(a.profile.minimum as u64);
    lemma_eight_len(b.profile.minimum as u64);
    lemma_eight_len(a.profile.average as u64);
    lemma_eight_len(b.profile.average as u64);
    lemma_eight_len(a.profile.maximum as u64);
    lemma_eight_len(b.profile.maximum as u64);
    lemma_eight_len(a.chunks.len() as u64);
    lemma_eight_len(b.chunks.len() as u64);
    assert forall|i: int| 0 <= i < p.len() implies like(#[trigger] p[i], q[i]) by {
        assert(i == 0 || i == 1 || i == 2 || i == 3 || i == 4 || i == 5 || i == 6);
    }
}

proof fn lemma_manifest_split(v: ManifestView)
    ensures
        manifest_material(v) == flat(manifest_head_parts(v)) + chunk_material(v.chunks),
{
    lemma_manifest_head_parts(v);
}

/// The bytes that a manifest's digest is derived from leave nothing of it out: they fix the file, its
/// size, how it was split, and every chunk with its place.
#[verifier::rlimit(60)]
pub proof fn law_material_fixes_the_manifest(a: ManifestView, b: ManifestView)
    requires
        a.chunks.len() <= u64::MAX,
        b.chunks.len() <= u64::MAX,
        manifest_material(a) == manifest_material(b),
    ensures
        a == b,
{
    let (p, q) = (manifest_head_parts(a), manifest_head_parts(b));
    lemma_manifest_split(a);
    lemma_manifest_split(b);
    lemma_manifest_like(a, b);
    lemma_flat_fixes(p, chunk_material(a.chunks), q, chunk_material(b.chunks));
    assert(p[0] == q[0] && p[1] == q[1] && p[2] == q[2] && p[3] == q[3]);
    assert(p[4] == q[4] && p[5] == q[5] && p[6] == q[6]);
    lemma_eight_injective(a.schema_version as u64, b.schema_version as u64);
    lemma_eight_injective(a.size, b.size);
    lemma_eight_injective(a.profile.minimum as u64, b.profile.minimum as u64);
    lemma_eight_injective(a.profile.average as u64, b.profile.average as u64);
    lemma_eight_injective(a.profile.maximum as u64, b.profile.maximum as u64);
    lemma_eight_injective(a.chunks.len() as u64, b.chunks.len() as u64);
    lemma_hash_view_injective(a.file_hash, b.file_hash);
    lemma_chunk_material(a.chunks, b.chunks);
    assert(a =~= b);
}

proof fn lemma_domain_shows(domain: Seq<char>, payload: Seq<u8>)
    requires
        is_ascii_chars(domain),
        domain.len() > 18,
    ensures
        in_domain(domain, payload).len() > 18,
        in_domain(domain, payload)[17] == domain[17] as u8,
        in_domain(domain, payload)[18] == domain[18] as u8,
{
    is_ascii_chars_encode_utf8(domain);
}

/// What is signed for one purpose is never what is signed for another: a snapshot, a manifest, a
/// grant, an activation, an apply, a roster, a heartbeat, a share key and the proof of a retained
/// identity all have bytes of their own.
pub proof fn law_signed_bytes_are_for_one_purpose(
    token: SnapshotToken,
    attestation: AttestationView,
    grant: ShareGrant,
    request: ActivateGrantRequest,
    reply: ActivateGrantReply,
    permit: ApplyPermit,
    roster: RosterView,
    heartbeat: HeartbeatView,
    key: TicketView,
    claim: LegacyProof,
    activation: Seq<u8>,
)
    requires
        activation == request_message(request) || activation == reply_message(reply),
    ensures
        seq![
            token_message(token),
            attestation_message(attestation),
            grant_message(grant),
            activation,
            permit_message(permit),
            roster_message(roster),
            heartbeat_message(heartbeat),
            ticket_message(key),
            proof_message(claim),
        ].no_duplicates(),
{
    reveal_strlit("deltaweave/share-snapshot/v1");
    reveal_strlit("deltaweave/share-manifest/v1");
    reveal_strlit("deltaweave/share-grant/v1");
    reveal_strlit("deltaweave/share-activate/v1");
    reveal_strlit("deltaweave/share-apply/v1");
    reveal_strlit("deltaweave/share-roster/v1");
    reveal_strlit("deltaweave/share-heartbeat/v1");
    reveal_strlit("deltaweave/share/invitation/v3");
    reveal_strlit("deltaweave/share/legacy-claim/v3");
    lemma_domain_shows("deltaweave/share-snapshot/v1"@, token_payload(token));
    lemma_domain_shows("deltaweave/share-manifest/v1"@, attestation_payload(attestation));
    lemma_domain_shows("deltaweave/share-grant/v1"@, grant_payload(grant));
    lemma_domain_shows("deltaweave/share-activate/v1"@, request_payload(request));
    lemma_domain_shows("deltaweave/share-activate/v1"@, reply_payload(reply));
    lemma_domain_shows("deltaweave/share-apply/v1"@, permit_payload(permit));
    lemma_domain_shows("deltaweave/share-roster/v1"@, roster_payload(roster));
    lemma_domain_shows("deltaweave/share-heartbeat/v1"@, heartbeat_payload(heartbeat));
    lemma_domain_shows("deltaweave/share/invitation/v3"@, body_bytes(key));
    lemma_domain_shows(
        "deltaweave/share/legacy-claim/v3"@,
        seq![claim.version] + claim.invitation@ + claim.share@ + claim.owner@ + claim.new_endpoint@
            + claim.old_endpoint@ + claim.replica@,
    );
}

} // verus!
