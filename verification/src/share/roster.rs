//! Owner-signed rosters of members and the heartbeats that keep them fresh.
use vstd::prelude::*;

use crate::hash::push_bytes;
use crate::share::codec::{in_domain, push_number, varint, with_domain};
use crate::share::error::ShareError;
use crate::share::identity::{
    address_bytes, ed25519_accepts, permission_byte, permission_code, public_id, push_address,
    random_bytes, signed_by, AddressView, EndpointAddr, EndpointId, GrantNonce, Permission,
    PermissionEpoch, SecretKey, ShareId, Signature, SnapshotId,
};
use crate::table::Keyed;

verus! {

/// How long a roster holds.
pub const ROSTER_TTL_SECONDS: u64 = 90;

/// How often a member reports.
pub const ROSTER_HEARTBEAT_INTERVAL_SECONDS: u64 = 30;

/// How long a report holds.
pub const ROSTER_STALE_AFTER_SECONDS: u64 = 90;

/// The most members in a roster.
pub const MAX_ROSTER_ENTRIES: usize = 4096;

/// The largest byte form of a roster or a heartbeat.
pub const MAX_ROSTER_FRAME_BYTES: usize = 65536;

/// The most transport addresses of a member.
pub const MAX_ENDPOINT_ADDRESSES: usize = 16;

/// How far a clock may run ahead.
pub const MAX_CLOCK_SKEW_SECONDS: u64 = 5;

/// One member in a roster.
#[derive(Debug, PartialEq, Eq)]
pub struct RosterEntry {
    pub owner: EndpointId,
    pub share: ShareId,
    pub member: EndpointId,
    pub address: EndpointAddr,
    pub permission: Permission,
    pub member_epoch: PermissionEpoch,
    pub heartbeat_at: u64,
    pub heartbeat_expires_at: u64,
}

/// What a roster entry says.
#[verifier::ext_equal]
pub struct EntryView {
    pub owner: EndpointId,
    pub share: ShareId,
    pub member: EndpointId,
    pub address: AddressView,
    pub permission: Permission,
    pub member_epoch: PermissionEpoch,
    pub heartbeat_at: u64,
    pub heartbeat_expires_at: u64,
}

impl View for RosterEntry {
    type V = EntryView;

    open spec fn view(&self) -> EntryView {
        EntryView {
            owner: self.owner,
            share: self.share,
            member: self.member,
            address: self.address@,
            permission: self.permission,
            member_epoch: self.member_epoch,
            heartbeat_at: self.heartbeat_at,
            heartbeat_expires_at: self.heartbeat_expires_at,
        }
    }
}

impl Clone for RosterEntry {
    fn clone(&self) -> (copy: Self)
        ensures
            copy@ == self@,
    {
        RosterEntry {
            owner: self.owner,
            share: self.share,
            member: self.member,
            address: self.address.clone(),
            permission: self.permission,
            member_epoch: self.member_epoch,
            heartbeat_at: self.heartbeat_at,
            heartbeat_expires_at: self.heartbeat_expires_at,
        }
    }
}

/// A roster that its owner has signed.
#[derive(Debug, PartialEq, Eq)]
pub struct SignedRoster {
    pub owner: EndpointId,
    pub share: ShareId,
    pub generation: SnapshotId,
    pub entries: Vec<RosterEntry>,
    pub issued_at: u64,
    pub expires_at: u64,
    pub signature: Signature,
}

/// What a roster says.
#[verifier::ext_equal]
pub struct RosterView {
    pub owner: EndpointId,
    pub share: ShareId,
    pub generation: SnapshotId,
    pub entries: Seq<EntryView>,
    pub issued_at: u64,
    pub expires_at: u64,
    pub signature: Signature,
}

/// What roster entries say.
pub open spec fn entry_views(entries: Seq<RosterEntry>) -> Seq<EntryView> {
    Seq::new(entries.len(), |i: int| entries[i]@)
}

impl View for SignedRoster {
    type V = RosterView;

    open spec fn view(&self) -> RosterView {
        RosterView {
            owner: self.owner,
            share: self.share,
            generation: self.generation,
            entries: entry_views(self.entries@),
            issued_at: self.issued_at,
            expires_at: self.expires_at,
            signature: self.signature,
        }
    }
}

impl Keyed for SignedRoster {
    open spec fn key(&self) -> Seq<u8> {
        self.share@
    }

    fn key_bytes(&self) -> (bytes: &[u8]) {
        self.share.0.as_slice()
    }
}

/// A member's signed report of where it can be reached.
#[derive(Debug, PartialEq, Eq)]
pub struct RosterHeartbeat {
    pub owner: EndpointId,
    pub share: ShareId,
    pub member: EndpointId,
    pub address: EndpointAddr,
    pub challenge: GrantNonce,
    pub sent_at: u64,
    pub signature: Signature,
}

/// What a heartbeat says.
#[verifier::ext_equal]
pub struct HeartbeatView {
    pub owner: EndpointId,
    pub share: ShareId,
    pub member: EndpointId,
    pub address: AddressView,
    pub challenge: GrantNonce,
    pub sent_at: u64,
    pub signature: Signature,
}

impl View for RosterHeartbeat {
    type V = HeartbeatView;

    open spec fn view(&self) -> HeartbeatView {
        HeartbeatView {
            owner: self.owner,
            share: self.share,
            member: self.member,
            address: self.address@,
            challenge: self.challenge,
            sent_at: self.sent_at,
            signature: self.signature,
        }
    }
}

/// A sum that stops at the largest 64-bit number.
pub open spec fn saturated(a: u64, b: u64) -> u64 {
    if a + b > u64::MAX {
        u64::MAX
    } else {
        (a + b) as u64
    }
}

/// The byte form of a roster entry.
pub open spec fn entry_bytes(entry: EntryView) -> Seq<u8> {
    entry.owner@ + entry.share@ + entry.member@ + address_bytes(entry.address) + varint(
        permission_code(entry.permission) as nat,
    ) + varint(entry.member_epoch as nat) + varint(entry.heartbeat_at as nat) + varint(
        entry.heartbeat_expires_at as nat,
    )
}

/// Roster entries one behind the other.
pub open spec fn entries_bytes(entries: Seq<EntryView>) -> Seq<u8>
    decreases entries.len(),
{
    if entries.len() == 0 {
        Seq::empty()
    } else {
        entries_bytes(entries.drop_last()) + entry_bytes(entries.last())
    }
}

/// What of a roster is signed.
pub open spec fn roster_payload(roster: RosterView) -> Seq<u8> {
    roster.owner@ + roster.share@ + roster.generation@ + varint(roster.entries.len())
        + entries_bytes(roster.entries) + varint(roster.issued_at as nat) + varint(
        roster.expires_at as nat,
    )
}

/// The message that the owner signs.
pub open spec fn roster_message(roster: RosterView) -> Seq<u8> {
    in_domain("deltaweave/share-roster/v1"@, roster_payload(roster))
}

/// What of a heartbeat is signed.
pub open spec fn heartbeat_payload(heartbeat: HeartbeatView) -> Seq<u8> {
    heartbeat.owner@ + heartbeat.share@ + heartbeat.member@ + address_bytes(heartbeat.address)
        + heartbeat.challenge@ + varint(heartbeat.sent_at as nat)
}

/// The message that the member signs.
pub open spec fn heartbeat_message(heartbeat: HeartbeatView) -> Seq<u8> {
    in_domain("deltaweave/share-heartbeat/v1"@, heartbeat_payload(heartbeat))
}

/// The entry has either never reported, or a report that holds for no longer than it may.
pub open spec fn heartbeat_in_bounds(entry: EntryView) -> bool {
    ||| entry.heartbeat_at == 0 && entry.heartbeat_expires_at == 0
    ||| entry.heartbeat_at > 0 && entry.heartbeat_expires_at > entry.heartbeat_at
        && entry.heartbeat_expires_at <= saturated(entry.heartbeat_at, ROSTER_STALE_AFTER_SECONDS)
}

/// The entry is bound to the roster it stands in.
pub open spec fn entry_bound(entry: EntryView, owner: EndpointId, share: ShareId) -> bool {
    &&& entry.owner == owner
    &&& entry.share == share
    &&& entry.member != owner
    &&& entry.address.id == entry.member
    &&& entry.address.addrs.len() <= MAX_ENDPOINT_ADDRESSES
    &&& heartbeat_in_bounds(entry)
}

/// What is wrong with a roster entry.
pub open spec fn entry_fault(entry: EntryView, owner: EndpointId, share: ShareId) -> Option<
    ShareError,
> {
    if entry.member_epoch == 0 {
        Some(ShareError::EpochMismatch)
    } else if !entry_bound(entry, owner, share) {
        Some(ShareError::EndpointMismatch)
    } else {
        None
    }
}

/// What is wrong with the first faulty entry at or behind position `i`.
pub open spec fn entries_fault_from(
    entries: Seq<EntryView>,
    owner: EndpointId,
    share: ShareId,
    i: int,
) -> Option<ShareError>
    decreases entries.len() - i,
{
    if i < 0 || i >= entries.len() {
        None
    } else if entry_fault(entries[i], owner, share) is Some {
        entry_fault(entries[i], owner, share)
    } else {
        entries_fault_from(entries, owner, share, i + 1)
    }
}

/// Two entries are of the same member.
pub open spec fn lists_member_twice(entries: Seq<EntryView>) -> bool {
    exists|i: int, j: int|
        0 <= i < j < entries.len() && #[trigger] entries[i].member == #[trigger] entries[j].member
}

/// What is wrong with the shape of a roster.
pub open spec fn roster_shape_fault(roster: RosterView) -> Option<ShareError> {
    if roster.entries.len() > MAX_ROSTER_ENTRIES || roster.expires_at <= roster.issued_at
        || roster.expires_at - roster.issued_at > ROSTER_TTL_SECONDS || roster_payload(roster).len()
        + 64 > MAX_ROSTER_FRAME_BYTES {
        Some(ShareError::Protocol)
    } else if entries_fault_from(roster.entries, roster.owner, roster.share, 0) is Some {
        entries_fault_from(roster.entries, roster.owner, roster.share, 0)
    } else if lists_member_twice(roster.entries) {
        Some(ShareError::Protocol)
    } else {
        None
    }
}

/// Why a roster is not one of its owner.
pub open spec fn roster_signature_fault(roster: RosterView) -> Option<ShareError> {
    if roster_shape_fault(roster) is Some {
        roster_shape_fault(roster)
    } else if !ed25519_accepts(roster.owner@, roster_message(roster), roster.signature@) {
        Some(ShareError::Protocol)
    } else {
        None
    }
}

/// Why a roster is not taken at a time.
pub open spec fn roster_fault(roster: RosterView, now: u64) -> Option<ShareError> {
    if roster_signature_fault(roster) is Some {
        roster_signature_fault(roster)
    } else if roster.issued_at > saturated(now, MAX_CLOCK_SKEW_SECONDS) {
        Some(ShareError::ClockRollback)
    } else if roster.expires_at <= now {
        Some(ShareError::RosterStale)
    } else {
        None
    }
}

/// Why a roster is not taken for an owner's share at a time.
pub open spec fn roster_fault_for(
    roster: RosterView,
    owner: EndpointId,
    share: ShareId,
    now: u64,
) -> Option<ShareError> {
    if roster.owner != owner || roster.share != share {
        Some(ShareError::OwnerMismatch)
    } else {
        roster_fault(roster, now)
    }
}

/// Why a heartbeat is not taken at a time.
pub open spec fn heartbeat_fault(heartbeat: HeartbeatView, now: u64) -> Option<ShareError> {
    if heartbeat.address.id != heartbeat.member || heartbeat.address.addrs.len()
        > MAX_ENDPOINT_ADDRESSES {
        Some(ShareError::EndpointMismatch)
    } else if heartbeat.sent_at > saturated(now, MAX_CLOCK_SKEW_SECONDS) || now > saturated(
        heartbeat.sent_at,
        ROSTER_STALE_AFTER_SECONDS,
    ) {
        Some(ShareError::HeartbeatExpired)
    } else if heartbeat_payload(heartbeat).len() + 64 > MAX_ROSTER_FRAME_BYTES {
        Some(ShareError::Protocol)
    } else if !ed25519_accepts(
        heartbeat.member@,
        heartbeat_message(heartbeat),
        heartbeat.signature@,
    ) {
        Some(ShareError::Protocol)
    } else {
        None
    }
}

/// The roster that an owner signs.
pub open spec fn signed_roster(
    secret: Seq<u8>,
    share: ShareId,
    generation: SnapshotId,
    entries: Seq<EntryView>,
    issued_at: u64,
    expires_at: u64,
) -> RosterView {
    let unsigned = RosterView {
        owner: public_id(secret),
        share,
        generation,
        entries,
        issued_at,
        expires_at,
        signature: arbitrary(),
    };
    RosterView { signature: signed_by(secret, roster_message(unsigned)), ..unsigned }
}

/// Appends the byte form of a roster entry.
pub fn push_entry(out: &mut Vec<u8>, entry: &RosterEntry)
    ensures
        final(out)@ == old(out)@ + entry_bytes(entry@),
{
    push_bytes(out, entry.owner.bytes.as_slice());
    push_bytes(out, entry.share.0.as_slice());
    push_bytes(out, entry.member.bytes.as_slice());
    push_address(out, &entry.address);
    push_number(out, permission_byte(entry.permission) as u64);
    push_number(out, entry.member_epoch);
    push_number(out, entry.heartbeat_at);
    push_number(out, entry.heartbeat_expires_at);
    assert(out@ =~= old(out)@ + entry_bytes(entry@));
}

fn check_entry(entry: &RosterEntry, owner: &EndpointId, share: &ShareId) -> (fault: Option<
    ShareError,
>)
    ensures
        fault == entry_fault(entry@, *owner, *share),
{
    if entry.member_epoch == 0 {
        return Some(ShareError::EpochMismatch);
    }
    let silent = entry.heartbeat_at == 0 && entry.heartbeat_expires_at == 0;
    let timely = entry.heartbeat_at > 0 && entry.heartbeat_expires_at > entry.heartbeat_at
        && entry.heartbeat_expires_at <= entry.heartbeat_at.saturating_add(
        ROSTER_STALE_AFTER_SECONDS,
    );
    if entry.owner == *owner && entry.share == *share && entry.member != *owner && entry.address.id
        == entry.member && entry.address.addrs.len() <= MAX_ENDPOINT_ADDRESSES && (silent
        || timely) {
        None
    } else {
        Some(ShareError::EndpointMismatch)
    }
}

/// Whether two entries are of the same member.
fn repeats_member(entries: &Vec<RosterEntry>) -> (r: bool)
    ensures
        r == lists_member_twice(entry_views(entries@)),
{
    let ghost all = entry_views(entries@);
    let mut j: usize = 0;
    while j < entries.len()
        invariant
            j <= entries@.len(),
            all == entry_views(entries@),
            forall|x: int, y: int|
                0 <= x < y < j ==> #[trigger] all[x].member != #[trigger] all[y].member,
        decreases entries@.len() - j,
    {
        let mut i: usize = 0;
        while i < j
            invariant
                i <= j,
                j < entries@.len(),
                all == entry_views(entries@),
                forall|x: int, y: int|
                    0 <= x < y < j ==> #[trigger] all[x].member != #[trigger] all[y].member,
                forall|x: int| 0 <= x < i ==> #[trigger] all[x].member != all[j as int].member,
            decreases j - i,
        {
            if entries[i].member == entries[j].member {
                assert(all[i as int].member == all[j as int].member);
                return true;
            }
            i = i + 1;
        }
        j = j + 1;
    }
    false
}

impl SignedRoster {
    fn payload(&self) -> (bytes: Vec<u8>)
        ensures
            bytes@ == roster_payload(self@),
    {
        let mut bytes: Vec<u8> = Vec::new();
        push_bytes(&mut bytes, self.owner.bytes.as_slice());
        push_bytes(&mut bytes, self.share.0.as_slice());
        push_bytes(&mut bytes, self.generation.as_slice());
        push_number(&mut bytes, self.entries.len() as u64);
        let ghost head = bytes@;
        let ghost all = entry_views(self.entries@);
        let mut i: usize = 0;
        assert(bytes@ =~= head + entries_bytes(all.take(0)));
        while i < self.entries.len()
            invariant
                i <= self.entries@.len(),
                all == entry_views(self.entries@),
                bytes@ == head + entries_bytes(all.take(i as int)),
            decreases self.entries@.len() - i,
        {
            push_entry(&mut bytes, &self.entries[i]);
            i = i + 1;
            proof {
                assert(all.take(i as int).drop_last() =~= all.take(i - 1));
                assert(bytes@ =~= head + entries_bytes(all.take(i as int)));
            }
        }
        push_number(&mut bytes, self.issued_at);
        push_number(&mut bytes, self.expires_at);
        proof {
            assert(all.take(i as int) =~= all);
            assert(bytes@ =~= roster_payload(self@));
        }
        bytes
    }

    /// Signs a roster.
    pub fn sign(
        key: &SecretKey,
        share: ShareId,
        generation: SnapshotId,
        entries: Vec<RosterEntry>,
        issued_at: u64,
        expires_at: u64,
    ) -> (roster: Result<Self, ShareError>)
        ensures
            ({
                let made = signed_roster(
                    key@,
                    share,
                    generation,
                    entry_views(entries@),
                    issued_at,
                    expires_at,
                );
                match roster {
                    Ok(roster) => roster@ == made && roster_signature_fault(made) is None,
                    Err(error) => roster_shape_fault(made) == Some(error),
                }
            }),
    {
        let unsigned = SignedRoster {
            owner: key.public(),
            share,
            generation,
            entries,
            issued_at,
            expires_at,
            signature: Signature { bytes: [0u8; 64] },
        };
        let signature = key.sign(
            with_domain("deltaweave/share-roster/v1", unsigned.payload().as_slice()).as_slice(),
        );
        let ghost before = unsigned@;
        let roster = SignedRoster {
            owner: unsigned.owner,
            share: unsigned.share,
            generation: unsigned.generation,
            entries: unsigned.entries,
            issued_at: unsigned.issued_at,
            expires_at: unsigned.expires_at,
            signature,
        };
        assert(roster_payload(roster@) == roster_payload(before));
        match roster.validate_shape() {
            Ok(()) => Ok(roster),
            Err(error) => Err(error),
        }
    }

    fn validate_shape(&self) -> (result: Result<(), ShareError>)
        ensures
            match result {
                Ok(()) => roster_shape_fault(self@) is None,
                Err(error) => roster_shape_fault(self@) == Some(error),
            },
    {
        if self.entries.len() > MAX_ROSTER_ENTRIES || self.expires_at <= self.issued_at
            || self.expires_at - self.issued_at > ROSTER_TTL_SECONDS || self.payload().len()
            > MAX_ROSTER_FRAME_BYTES - 64 {
            return Err(ShareError::Protocol);
        }
        let ghost all = entry_views(self.entries@);
        let mut i: usize = 0;
        while i < self.entries.len()
            invariant
                i <= self.entries@.len(),
                all == entry_views(self.entries@),
                !(self@.entries.len() > MAX_ROSTER_ENTRIES || self.expires_at <= self.issued_at
                    || self.expires_at - self.issued_at > ROSTER_TTL_SECONDS || roster_payload(
                    self@,
                ).len() + 64 > MAX_ROSTER_FRAME_BYTES),
                entries_fault_from(all, self.owner, self.share, 0) == entries_fault_from(
                    all,
                    self.owner,
                    self.share,
                    i as int,
                ),
            decreases self.entries@.len() - i,
        {
            match check_entry(&self.entries[i], &self.owner, &self.share) {
                Some(error) => {
                    return Err(error);
                },
                None => {},
            }
            i = i + 1;
        }
        if repeats_member(&self.entries) {
            return Err(ShareError::Protocol);
        }
        Ok(())
    }

    /// Checks that the roster is one of its owner.
    pub fn verify_signature(&self) -> (result: Result<(), ShareError>)
        ensures
            match result {
                Ok(()) => roster_signature_fault(self@) is None,
                Err(error) => roster_signature_fault(self@) == Some(error),
            },
    {
        match self.validate_shape() {
            Ok(()) => {},
            Err(error) => {
                return Err(error);
            },
        }
        let message = with_domain("deltaweave/share-roster/v1", self.payload().as_slice());
        if !self.owner.verify(message.as_slice(), &self.signature) {
            return Err(ShareError::Protocol);
        }
        Ok(())
    }

    /// Checks the owner's signature and the lifetime of the roster at a time. Neither an entry nor
    /// an address in it gives a permission.
    pub fn verify_at(&self, now: u64) -> (result: Result<(), ShareError>)
        ensures
            match result {
                Ok(()) => roster_fault(self@, now) is None,
                Err(error) => roster_fault(self@, now) == Some(error),
            },
    {
        match self.verify_signature() {
            Ok(()) => {},
            Err(error) => {
                return Err(error);
            },
        }
        if self.issued_at > now.saturating_add(MAX_CLOCK_SKEW_SECONDS) {
            return Err(ShareError::ClockRollback);
        }
        if self.expires_at <= now {
            return Err(ShareError::RosterStale);
        }
        Ok(())
    }

    /// Checks the roster for an owner's share that the caller has already authenticated.
    pub fn verify_for(&self, owner: EndpointId, share: ShareId, now: u64) -> (result: Result<
        (),
        ShareError,
    >)
        ensures
            match result {
                Ok(()) => roster_fault_for(self@, owner, share, now) is None,
                Err(error) => roster_fault_for(self@, owner, share, now) == Some(error),
            },
    {
        if self.owner != owner || self.share != share {
            return Err(ShareError::OwnerMismatch);
        }
        self.verify_at(now)
    }

    /// The first entry of a member.
    pub fn member(&self, member: EndpointId) -> (entry: Option<&RosterEntry>)
        ensures
            match entry {
                Some(entry) => exists|i: int|
                    0 <= i < self.entries@.len() && #[trigger] self.entries@[i] == *entry
                        && entry.member == member && forall|k: int|
                        0 <= k < i ==> (#[trigger] self.entries@[k]).member != member,
                None => forall|k: int|
                    0 <= k < self.entries@.len() ==> (#[trigger] self.entries@[k]).member
                        != member,
            },
    {
        let mut i: usize = 0;
        while i < self.entries.len()
            invariant
                i <= self.entries@.len(),
                forall|k: int| 0 <= k < i ==> (#[trigger] self.entries@[k]).member != member,
            decreases self.entries@.len() - i,
        {
            if self.entries[i].member == member {
                return Some(&self.entries[i]);
            }
            i = i + 1;
        }
        None
    }

    /// Whether a member's report still holds.
    pub fn member_is_fresh(&self, member: EndpointId, now: u64) -> (fresh: bool)
        ensures
            fresh == exists|i: int|
                0 <= i < self.entries@.len() && (#[trigger] self.entries@[i]).member == member
                    && self.entries@[i].heartbeat_expires_at > now && forall|k: int|
                    0 <= k < i ==> (#[trigger] self.entries@[k]).member != member,
    {
        match self.member(member) {
            Some(entry) => {
                proof {
                    let i = choose|i: int|
                        0 <= i < self.entries@.len() && #[trigger] self.entries@[i] == *entry
                            && entry.member == member && forall|k: int|
                            0 <= k < i ==> (#[trigger] self.entries@[k]).member != member;
                    assert(self.entries@[i].member == member);
                    assert forall|j: int|
                        0 <= j < self.entries@.len() && (#[trigger] self.entries@[j]).member
                            == member && (forall|k: int|
                            0 <= k < j ==> (#[trigger] self.entries@[k]).member
                                != member) implies j == i by {
                        if i < j {
                            assert(self.entries@[i].member != member);
                        } else if j < i {
                            assert(self.entries@[j].member != member);
                        }
                    }
                }
                entry.heartbeat_expires_at > now
            },
            None => false,
        }
    }

    /// The entries whose report still holds. Entries without one stay in the roster, but no
    /// provider is picked among them.
    pub fn fresh_members(&self, now: u64) -> (fresh: Vec<&RosterEntry>)
        ensures
            fresh@.len() == self.entries@.filter(
                |entry: RosterEntry| entry.heartbeat_expires_at > now,
            ).len(),
            forall|i: int|
                0 <= i < fresh@.len() ==> *#[trigger] fresh@[i] == self.entries@.filter(
                    |entry: RosterEntry| entry.heartbeat_expires_at > now,
                )[i],
    {
        let ghost wanted = |entry: RosterEntry| entry.heartbeat_expires_at > now;
        let mut fresh: Vec<&RosterEntry> = Vec::new();
        let mut i: usize = 0;
        proof {
            reveal(Seq::filter);
            assert(self.entries@.take(0).filter(wanted) =~= Seq::empty());
        }
        while i < self.entries.len()
            invariant
                i <= self.entries@.len(),
                wanted == (|entry: RosterEntry| entry.heartbeat_expires_at > now),
                fresh@.len() == self.entries@.take(i as int).filter(wanted).len(),
                forall|k: int|
                    0 <= k < fresh@.len() ==> *#[trigger] fresh@[k] == self.entries@.take(
                        i as int,
                    ).filter(wanted)[k],
            decreases self.entries@.len() - i,
        {
            proof {
                reveal(Seq::filter);
                let more = self.entries@.take(i + 1);
                assert(more.drop_last() =~= self.entries@.take(i as int));
                assert(more.last() == self.entries@[i as int]);
            }
            if self.entries[i].heartbeat_expires_at > now {
                fresh.push(&self.entries[i]);
            }
            i = i + 1;
        }
        assert(self.entries@.take(i as int) =~= self.entries@);
        fresh
    }
}

impl Clone for SignedRoster {
    fn clone(&self) -> (copy: Self)
        ensures
            copy@ == self@,
    {
        let entries = copy_entries(&self.entries);
        SignedRoster {
            owner: self.owner,
            share: self.share,
            generation: self.generation,
            entries,
            issued_at: self.issued_at,
            expires_at: self.expires_at,
            signature: self.signature,
        }
    }
}

/// Roster entries said again.
pub fn copy_entries(entries: &Vec<RosterEntry>) -> (copy: Vec<RosterEntry>)
    ensures
        entry_views(copy@) == entry_views(entries@),
{
    let mut copy: Vec<RosterEntry> = Vec::new();
    let mut i: usize = 0;
    while i < entries.len()
        invariant
            i <= entries@.len(),
            copy@.len() == i,
            forall|k: int| 0 <= k < i ==> (#[trigger] copy@[k])@ == entries@[k]@,
        decreases entries@.len() - i,
    {
        copy.push(entries[i].clone());
        i = i + 1;
    }
    assert(entry_views(copy@) =~= entry_views(entries@));
    copy
}

impl RosterHeartbeat {
    fn payload(&self) -> (bytes: Vec<u8>)
        ensures
            bytes@ == heartbeat_payload(self@),
    {
        let mut bytes: Vec<u8> = Vec::new();
        push_bytes(&mut bytes, self.owner.bytes.as_slice());
        push_bytes(&mut bytes, self.share.0.as_slice());
        push_bytes(&mut bytes, self.member.bytes.as_slice());
        push_address(&mut bytes, &self.address);
        push_bytes(&mut bytes, self.challenge.as_slice());
        push_number(&mut bytes, self.sent_at);
        assert(bytes@ =~= heartbeat_payload(self@));
        bytes
    }

    /// Signs a report.
    pub fn sign(
        key: &SecretKey,
        owner: EndpointId,
        share: ShareId,
        address: EndpointAddr,
        challenge: GrantNonce,
        sent_at: u64,
    ) -> (heartbeat: Self)
        ensures
            heartbeat.owner == owner,
            heartbeat.share == share,
            heartbeat.member == public_id(key@),
            heartbeat.address@ == address@,
            heartbeat.challenge == challenge,
            heartbeat.sent_at == sent_at,
            heartbeat.signature == signed_by(key@, heartbeat_message(heartbeat@)),
            ed25519_accepts(
                heartbeat.member@,
                heartbeat_message(heartbeat@),
                heartbeat.signature@,
            ),
    {
        let unsigned = RosterHeartbeat {
            owner,
            share,
            member: key.public(),
            address,
            challenge,
            sent_at,
            signature: Signature { bytes: [0u8; 64] },
        };
        let signature = key.sign(
            with_domain("deltaweave/share-heartbeat/v1", unsigned.payload().as_slice()).as_slice(),
        );
        let ghost before = unsigned@;
        let heartbeat = RosterHeartbeat {
            owner: unsigned.owner,
            share: unsigned.share,
            member: unsigned.member,
            address: unsigned.address,
            challenge: unsigned.challenge,
            sent_at: unsigned.sent_at,
            signature,
        };
        assert(heartbeat_payload(heartbeat@) == heartbeat_payload(before));
        heartbeat
    }

    /// Checks a report at a time.
    pub fn verify_at(&self, now: u64) -> (result: Result<(), ShareError>)
        ensures
            match result {
                Ok(()) => heartbeat_fault(self@, now) is None,
                Err(error) => heartbeat_fault(self@, now) == Some(error),
            },
    {
        if self.address.id != self.member || self.address.addrs.len() > MAX_ENDPOINT_ADDRESSES {
            return Err(ShareError::EndpointMismatch);
        }
        if self.sent_at > now.saturating_add(MAX_CLOCK_SKEW_SECONDS) || now
            > self.sent_at.saturating_add(ROSTER_STALE_AFTER_SECONDS) {
            return Err(ShareError::HeartbeatExpired);
        }
        let payload = self.payload();
        if payload.len() > MAX_ROSTER_FRAME_BYTES - 64 {
            return Err(ShareError::Protocol);
        }
        let message = with_domain("deltaweave/share-heartbeat/v1", payload.as_slice());
        if !self.member.verify(message.as_slice(), &self.signature) {
            return Err(ShareError::Protocol);
        }
        Ok(())
    }
}

/// A fresh random nonce.
pub fn random_nonce() -> (nonce: GrantNonce) {
    random_bytes()
}

/// When a report that was received at a time stops to hold.
pub fn heartbeat_expiry(sent_at: u64) -> (expiry: u64)
    ensures
        expiry == saturated(sent_at, ROSTER_STALE_AFTER_SECONDS),
{
    sent_at.saturating_add(ROSTER_STALE_AFTER_SECONDS)
}

/// A roster is taken for no other owner's share than the one it was signed for, and only by that
/// owner's signature.
pub proof fn law_roster_is_bound_to_its_owner(
    roster: RosterView,
    owner: EndpointId,
    share: ShareId,
    now: u64,
)
    requires
        roster_fault_for(roster, owner, share, now) is None,
    ensures
        roster.owner == owner,
        roster.share == share,
        ed25519_accepts(owner@, roster_message(roster), roster.signature@),
        roster.expires_at > now,
        roster.issued_at <= saturated(now, MAX_CLOCK_SKEW_SECONDS),
{
}

} // verus!
