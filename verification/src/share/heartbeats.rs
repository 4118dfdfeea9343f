//! How an owner keeps its rosters fresh: one-use challenges, and the heartbeats that answer them.
use vstd::prelude::*;

use crate::hash::same_array;
use crate::share::catalog::{member_of, Catalog, Membership};
use crate::share::codec::{push_number, varint};
use crate::share::error::ShareError;
use crate::share::grants::{entry_of, roster_member};
use crate::share::identity::{
    public_id, AddressView, EndpointAddr, EndpointId, GrantNonce, SecretKey, ShareId, SnapshotId,
};
use crate::share::registry::{clock_fault, clocked, Registry, RegistryView};
use crate::share::roster::{
    entries_bytes, entry_views, heartbeat_expiry, heartbeat_fault, push_entry, random_nonce,
    roster_shape_fault, roster_signature_fault, saturated, signed_roster, EntryView, HeartbeatView,
    RosterEntry, RosterHeartbeat, RosterView, SignedRoster, MAX_ROSTER_ENTRIES,
    MAX_ROSTER_FRAME_BYTES, ROSTER_STALE_AFTER_SECONDS, ROSTER_TTL_SECONDS,
};
use crate::share::rows::{challenge_bytes, challenge_key, ChallengeRow, HeartbeatChallenge};
use crate::table::{find, lemma_listing, lemma_view_of, lemma_view_put, listing, put};

verus! {

/// The version of challenges.
pub const ROSTER_VERSION: u8 = 1;

/// How far a member's clock may lag behind the owner's.
pub const CHALLENGE_LAG_SECONDS: u64 = 5;

/// The entry that a member has in a roster: what the last roster said of where it is, if that
/// still holds of the member, and nothing otherwise.
pub open spec fn entry_for(
    member: Membership,
    owner: EndpointId,
    share: ShareId,
    previous: Option<RosterView>,
) -> EntryView {
    let blank = EntryView {
        owner,
        share,
        member: member.endpoint,
        address: AddressView { id: member.endpoint, addrs: Seq::empty() },
        permission: member.permission,
        member_epoch: member.epoch,
        heartbeat_at: 0,
        heartbeat_expires_at: 0,
    };
    match previous {
        None => blank,
        Some(roster) => match entry_of(roster.entries, member.endpoint, 0) {
            None => blank,
            Some(held) => if held.owner == owner && held.share == share && held.address.id
                == member.endpoint && held.member_epoch == member.epoch {
                EntryView {
                    address: held.address,
                    heartbeat_at: held.heartbeat_at,
                    heartbeat_expires_at: held.heartbeat_expires_at,
                    ..blank
                }
            } else {
                blank
            },
        },
    }
}

/// The entries of the members that are not revoked.
pub open spec fn entries_for(
    members: Seq<Membership>,
    owner: EndpointId,
    share: ShareId,
    previous: Option<RosterView>,
) -> Seq<EntryView>
    decreases members.len(),
{
    if members.len() == 0 {
        Seq::empty()
    } else {
        let before = entries_for(members.drop_last(), owner, share, previous);
        if members.last().revoked_at is Some {
            before
        } else {
            before.push(entry_for(members.last(), owner, share, previous))
        }
    }
}

/// The entries of the next roster of a share.
pub open spec fn next_entries(s: RegistryView, share: ShareId) -> Seq<EntryView> {
    entries_for(
        listing(s.catalog.shares[share@].members),
        s.catalog.owner,
        share,
        held_roster(s, share),
    )
}

/// The roster that is kept for a share.
pub open spec fn held_roster(s: RegistryView, share: ShareId) -> Option<RosterView> {
    if s.rosters.contains_key(share@) {
        Some(s.rosters[share@])
    } else {
        None
    }
}

/// Why the next roster of a share cannot be made.
pub open spec fn entries_fault(s: RegistryView, share: ShareId) -> Option<ShareError> {
    let held = held_roster(s, share);
    let entries = next_entries(s, share);
    if !s.catalog.shares.contains_key(share@) {
        Some(ShareError::UnknownShare)
    } else if held is Some && (held->0.owner != s.catalog.owner || held->0.share != share) {
        Some(ShareError::StateUnavailable)
    } else if held is Some && roster_signature_fault(held->0) is Some {
        roster_signature_fault(held->0)
    } else if entries.len() > MAX_ROSTER_ENTRIES || varint(entries.len()).len() + entries_bytes(
        entries,
    ).len() > MAX_ROSTER_FRAME_BYTES {
        Some(ShareError::Busy)
    } else {
        None
    }
}

fn entry_of_member(
    member: &Membership,
    owner: EndpointId,
    share: ShareId,
    previous: Option<&SignedRoster>,
) -> (entry: RosterEntry)
    ensures
        entry@ == entry_for(
            *member,
            owner,
            share,
            (match previous {
                Some(roster) => Some(roster@),
                None => None,
            }),
        ),
{
    match previous {
        Some(roster) => match roster_member(roster, &member.endpoint) {
            Some(held) => if held.owner == owner && held.share == share && held.address.id
                == member.endpoint && held.member_epoch == member.epoch {
                return RosterEntry {
                    owner,
                    share,
                    member: member.endpoint,
                    address: held.address.clone(),
                    permission: member.permission,
                    member_epoch: member.epoch,
                    heartbeat_at: held.heartbeat_at,
                    heartbeat_expires_at: held.heartbeat_expires_at,
                };
            },
            None => {},
        },
        None => {},
    }
    RosterEntry {
        owner,
        share,
        member: member.endpoint,
        address: EndpointAddr::new(member.endpoint),
        permission: member.permission,
        member_epoch: member.epoch,
        heartbeat_at: 0,
        heartbeat_expires_at: 0,
    }
}

/// The number of bytes that entries take with their number in front.
fn entries_size(entries: &Vec<RosterEntry>) -> (size: usize)
    ensures
        size == varint(entries@.len()).len() + entries_bytes(entry_views(entries@)).len(),
{
    let mut bytes: Vec<u8> = Vec::new();
    push_number(&mut bytes, entries.len() as u64);
    let ghost head = bytes@;
    let ghost all = entry_views(entries@);
    let mut i: usize = 0;
    assert(bytes@ =~= head + entries_bytes(all.take(0)));
    while i < entries.len()
        invariant
            i <= entries@.len(),
            all == entry_views(entries@),
            bytes@ == head + entries_bytes(all.take(i as int)),
        decreases entries@.len() - i,
    {
        push_entry(&mut bytes, &entries[i]);
        i = i + 1;
        proof {
            assert(all.take(i as int).drop_last() =~= all.take(i - 1));
            assert(bytes@ =~= head + entries_bytes(all.take(i as int)));
        }
    }
    assert(all.take(i as int) =~= all);
    bytes.len()
}

impl Registry {
    /// The roster that is kept for a share.
    pub fn stored_roster(&self, share: ShareId) -> (roster: Option<&SignedRoster>)
        requires
            self.wf(),
        ensures
            match roster {
                Some(roster) => held_roster(self@, share) == Some(roster@),
                None => held_roster(self@, share) is None,
            },
    {
        proof {
            lemma_view_of(self.rosters@);
        }
        find(&self.rosters, share.0.as_slice())
    }

    /// The entries of the next roster of a share.
    pub fn roster_entries(&self, share: ShareId) -> (entries: Result<Vec<RosterEntry>, ShareError>)
        requires
            self.wf(),
        ensures
            match entries {
                Ok(entries) => entries_fault(self@, share) is None && entry_views(entries@)
                    == next_entries(self@, share),
                Err(error) => entries_fault(self@, share) == Some(error),
            },
    {
        let members = match self.catalog.members(share) {
            Ok(members) => members,
            Err(error) => {
                return Err(error);
            },
        };
        let owner = self.catalog.owner;
        let previous = self.stored_roster(share);
        match previous {
            Some(roster) => {
                if roster.owner != owner || roster.share != share {
                    return Err(ShareError::StateUnavailable);
                }
                match roster.verify_signature() {
                    Ok(()) => {},
                    Err(error) => {
                        return Err(error);
                    },
                }
            },
            None => {},
        }
        let ghost held = held_roster(self@, share);
        proof {
            lemma_listing(members@);
        }
        let mut entries: Vec<RosterEntry> = Vec::new();
        let mut i: usize = 0;
        assert(entry_views(entries@) =~= entries_for(members@.take(0), owner, share, held));
        while i < members.len()
            invariant
                i <= members@.len(),
                held == (match previous {
                    Some(roster) => Some(roster@),
                    None => None,
                }),
                entry_views(entries@) == entries_for(members@.take(i as int), owner, share, held),
            decreases members@.len() - i,
        {
            let ghost before = entries@;
            if members[i].revoked_at.is_none() {
                entries.push(entry_of_member(&members[i], owner, share, previous));
            }
            i = i + 1;
            proof {
                let more = members@.take(i as int);
                assert(more.drop_last() =~= members@.take(i - 1));
                assert(more.last() == members@[i - 1]);
                if members@[i - 1].revoked_at is None {
                    assert(entry_views(entries@) =~= entry_views(before).push(
                        entry_for(members@[i - 1], owner, share, held),
                    ));
                }
            }
        }
        assert(members@.take(i as int) =~= members@);
        if entries.len() > MAX_ROSTER_ENTRIES || entries_size(&entries) > MAX_ROSTER_FRAME_BYTES {
            return Err(ShareError::Busy);
        }
        Ok(entries)
    }

    fn write_roster_and_challenge(&mut self, roster: SignedRoster, challenge: HeartbeatChallenge)
        requires
            old(self).wf(),
        ensures
            final(self).wf(),
            final(self)@ == with_challenge(old(self)@, roster@, challenge),
    {
        let ghost rosters = self.rosters@;
        let ghost challenges = self.challenges@;
        let ghost kept = roster;
        let row = ChallengeRow {
            key: challenge_bytes(&roster.share, &challenge.member),
            challenge,
        };
        let ghost item = row;
        put(&mut self.rosters, roster);
        put(&mut self.challenges, row);
        proof {
            lemma_view_put(rosters, kept, self.rosters@);
            lemma_view_put(challenges, item, self.challenges@);
        }
    }
}

/// The registry with a roster and a challenge written down.
pub open spec fn with_challenge(
    s: RegistryView,
    roster: RosterView,
    challenge: HeartbeatChallenge,
) -> RegistryView {
    RegistryView {
        rosters: s.rosters.insert(roster.share@, roster),
        challenges: s.challenges.insert(
            challenge_key(roster.share, challenge.member),
            challenge,
        ),
        ..s
    }
}

/// Why a device is not one whose heartbeat the owner of a key waits for.
pub open spec fn awaited_fault(
    s: RegistryView,
    owner: EndpointId,
    share: ShareId,
    member: EndpointId,
) -> Option<ShareError> {
    if s.catalog.owner != owner {
        Some(ShareError::OwnerMismatch)
    } else if !s.catalog.shares.contains_key(share@) {
        Some(ShareError::UnknownShare)
    } else if !s.catalog.shares[share@].members.contains_key(member@) {
        Some(ShareError::NotMember)
    } else if member_of(s.catalog, share, member).revoked_at is Some {
        Some(ShareError::MemberRevoked)
    } else {
        None
    }
}

fn check_awaited(catalog: &Catalog, owner: EndpointId, share: ShareId, member: EndpointId) -> (result:
    Result<(), ShareError>)
    requires
        catalog.wf(),
    ensures
        forall|s: RegistryView|
            #![trigger awaited_fault(s, owner, share, member)]
            s.catalog == catalog@ ==> match result {
                Ok(()) => awaited_fault(s, owner, share, member) is None,
                Err(error) => awaited_fault(s, owner, share, member) == Some(error),
            },
{
    if catalog.owner != owner {
        return Err(ShareError::OwnerMismatch);
    }
    match catalog.member(share, member) {
        Ok(held) => if held.revoked_at.is_some() {
            Err(ShareError::MemberRevoked)
        } else {
            Ok(())
        },
        Err(error) => Err(error),
    }
}

/// The roster that goes out with a challenge.
pub open spec fn next_roster(
    s: RegistryView,
    secret: Seq<u8>,
    share: ShareId,
    generation: SnapshotId,
    now: u64,
) -> RosterView {
    signed_roster(
        secret,
        share,
        generation,
        next_entries(s, share),
        now,
        saturated(now, ROSTER_TTL_SECONDS),
    )
}

/// A challenge that was just issued.
pub open spec fn fresh_challenge(
    s: RegistryView,
    share: ShareId,
    member: EndpointId,
    challenge: GrantNonce,
    now: u64,
) -> HeartbeatChallenge {
    HeartbeatChallenge {
        version: ROSTER_VERSION,
        owner: s.catalog.owner,
        share,
        member,
        challenge,
        issued_at: now,
        expires_at: saturated(now, ROSTER_STALE_AFTER_SECONDS),
        used: false,
    }
}

/// What asking for a challenge comes to.
pub open spec fn challenges(
    before: RegistryView,
    after: RegistryView,
    result: Result<(SignedRoster, GrantNonce), ShareError>,
    secret: Seq<u8>,
    share: ShareId,
    member: EndpointId,
    generation: SnapshotId,
    challenge: GrantNonce,
    now: u64,
) -> bool {
    let s = clocked(before, now);
    let early = awaited_fault(before, public_id(secret), share, member);
    let roster = next_roster(s, secret, share, generation, now);
    match result {
        Err(error) => if early is Some {
            early == Some(error) && after == before
        } else {
            after == s && if clock_fault(before.clock, now) is Some {
                clock_fault(before.clock, now) == Some(error)
            } else if entries_fault(s, share) is Some {
                entries_fault(s, share) == Some(error)
            } else {
                roster_shape_fault(roster) == Some(error)
            }
        },
        Ok(made) => {
            &&& early is None
            &&& clock_fault(before.clock, now) is None
            &&& entries_fault(s, share) is None
            &&& roster_signature_fault(roster) is None
            &&& made.0@ == roster
            &&& made.1 == challenge
            &&& after == with_challenge(
                s,
                roster,
                fresh_challenge(s, share, member, challenge, now),
            )
        },
    }
}

impl Registry {
    /// Gives a member a fresh roster and a challenge for its next heartbeat, under given
    /// identifiers. Neither gives any permission.
    pub fn issue_roster_challenge_with(
        &mut self,
        owner_key: &SecretKey,
        share: ShareId,
        member: EndpointId,
        generation: SnapshotId,
        challenge: GrantNonce,
        now: u64,
    ) -> (result: Result<(SignedRoster, GrantNonce), ShareError>)
        requires
            old(self).wf(),
        ensures
            final(self).wf(),
            challenges(
                old(self)@,
                final(self)@,
                result,
                owner_key@,
                share,
                member,
                generation,
                challenge,
                now,
            ),
    {
        match check_awaited(&self.catalog, owner_key.public(), share, member) {
            Ok(()) => {},
            Err(error) => {
                assert(awaited_fault(old(self)@, public_id(owner_key@), share, member) == Some(
                    error,
                ));
                return Err(error);
            },
        }
        assert(awaited_fault(old(self)@, public_id(owner_key@), share, member) is None);
        match self.observe_authority_clock(now) {
            Ok(()) => {},
            Err(error) => {
                return Err(error);
            },
        }
        let entries = match self.roster_entries(share) {
            Ok(entries) => entries,
            Err(error) => {
                return Err(error);
            },
        };
        let roster = match SignedRoster::sign(
            owner_key,
            share,
            generation,
            entries,
            now,
            now.saturating_add(ROSTER_TTL_SECONDS),
        ) {
            Ok(roster) => roster,
            Err(error) => {
                return Err(error);
            },
        };
        let record = HeartbeatChallenge {
            version: ROSTER_VERSION,
            owner: self.catalog.owner,
            share,
            member,
            challenge,
            issued_at: now,
            expires_at: now.saturating_add(ROSTER_STALE_AFTER_SECONDS),
            used: false,
        };
        self.write_roster_and_challenge(roster.clone(), record);
        Ok((roster, challenge))
    }

    /// Gives a member a fresh roster and a challenge for its next heartbeat.
    pub fn issue_roster_challenge(
        &mut self,
        owner_key: &SecretKey,
        share: ShareId,
        member: EndpointId,
        now: u64,
    ) -> (result: Result<(SignedRoster, GrantNonce), ShareError>)
        requires
            old(self).wf(),
        ensures
            final(self).wf(),
            exists|generation: SnapshotId, challenge: GrantNonce| #[trigger]
                challenges(
                    old(self)@,
                    final(self)@,
                    result,
                    owner_key@,
                    share,
                    member,
                    generation,
                    challenge,
                    now,
                ),
    {
        let generation = random_nonce();
        let challenge = random_nonce();
        let result = self.issue_roster_challenge_with(
            owner_key,
            share,
            member,
            generation,
            challenge,
            now,
        );
        assert(challenges(
            old(self)@,
            self@,
            result,
            owner_key@,
            share,
            member,
            generation,
            challenge,
            now,
        ));
        result
    }
}

/// The challenge is the one that the heartbeat answers, and it was not answered before.
pub open spec fn answers(
    challenge: HeartbeatChallenge,
    owner: EndpointId,
    heartbeat: HeartbeatView,
) -> bool {
    &&& challenge.version == ROSTER_VERSION
    &&& challenge.owner == owner
    &&& challenge.share == heartbeat.share
    &&& challenge.member == heartbeat.member
    &&& challenge.challenge == heartbeat.challenge
    &&& !challenge.used
}

/// The heartbeat was sent, and came, in the time of its challenge.
pub open spec fn in_time(
    challenge: HeartbeatChallenge,
    heartbeat: HeartbeatView,
    now: u64,
) -> bool {
    &&& now < challenge.expires_at
    &&& heartbeat.sent_at + CHALLENGE_LAG_SECONDS >= challenge.issued_at
    &&& heartbeat.sent_at <= challenge.expires_at
}

/// The entries with the heartbeat's sender where it says that it is. The owner's own time counts,
/// so a heartbeat cannot claim to be fresher than it is.
pub open spec fn refreshed(
    entries: Seq<EntryView>,
    heartbeat: HeartbeatView,
    now: u64,
) -> Seq<EntryView> {
    Seq::new(
        entries.len(),
        |i: int|
            if entries[i].member == heartbeat.member {
                EntryView {
                    address: heartbeat.address,
                    heartbeat_at: now,
                    heartbeat_expires_at: saturated(now, ROSTER_STALE_AFTER_SECONDS),
                    ..entries[i]
                }
            } else {
                entries[i]
            },
    )
}

/// Why a heartbeat is not accepted, the clock being in order and the right device having sent it.
pub open spec fn accepting_fault(
    s: RegistryView,
    owner: EndpointId,
    heartbeat: HeartbeatView,
    now: u64,
) -> Option<ShareError> {
    let share = heartbeat.share;
    let key = challenge_key(share, heartbeat.member);
    if heartbeat_fault(heartbeat, now) is Some {
        heartbeat_fault(heartbeat, now)
    } else if awaited_fault(s, owner, share, heartbeat.member) is Some {
        awaited_fault(s, owner, share, heartbeat.member)
    } else if !s.challenges.contains_key(key) || !answers(
        s.challenges[key],
        s.catalog.owner,
        heartbeat,
    ) {
        Some(ShareError::HeartbeatReplay)
    } else if !in_time(s.challenges[key], heartbeat, now) {
        Some(ShareError::HeartbeatExpired)
    } else if entries_fault(s, share) is Some {
        entries_fault(s, share)
    } else if entry_of(next_entries(s, share), heartbeat.member, 0) is None {
        Some(ShareError::NotMember)
    } else {
        None
    }
}

/// The roster that an accepted heartbeat leads to.
pub open spec fn refreshed_roster(
    s: RegistryView,
    secret: Seq<u8>,
    heartbeat: HeartbeatView,
    generation: SnapshotId,
    now: u64,
) -> RosterView {
    signed_roster(
        secret,
        heartbeat.share,
        generation,
        refreshed(next_entries(s, heartbeat.share), heartbeat, now),
        now,
        saturated(now, ROSTER_TTL_SECONDS),
    )
}

/// What a heartbeat comes to.
pub open spec fn accepts(
    before: RegistryView,
    after: RegistryView,
    result: Result<SignedRoster, ShareError>,
    secret: Seq<u8>,
    heartbeat: HeartbeatView,
    remote_peer: EndpointId,
    generation: SnapshotId,
    now: u64,
) -> bool {
    let s = clocked(before, now);
    let owner = public_id(secret);
    let key = challenge_key(heartbeat.share, heartbeat.member);
    let foreign = heartbeat.owner != owner || heartbeat.member != remote_peer;
    let fault = accepting_fault(s, owner, heartbeat, now);
    let roster = refreshed_roster(s, secret, heartbeat, generation, now);
    match result {
        Err(error) => if foreign {
            error == ShareError::EndpointMismatch && after == before
        } else {
            after == s && if clock_fault(before.clock, now) is Some {
                clock_fault(before.clock, now) == Some(error)
            } else if fault is Some {
                fault == Some(error)
            } else {
                roster_shape_fault(roster) == Some(error)
            }
        },
        Ok(made) => {
            &&& !foreign
            &&& clock_fault(before.clock, now) is None
            &&& fault is None
            &&& roster_signature_fault(roster) is None
            &&& made@ == roster
            &&& after == with_challenge(
                s,
                roster,
                HeartbeatChallenge { used: true, ..s.challenges[key] },
            )
        },
    }
}

/// Puts the heartbeat's sender where it says that it is.
fn refresh(entries: &mut Vec<RosterEntry>, heartbeat: &RosterHeartbeat, now: u64) -> (found: bool)
    ensures
        found == (entry_of(entry_views(old(entries)@), heartbeat.member, 0) is Some),
        entry_views(final(entries)@) == refreshed(entry_views(old(entries)@), heartbeat@, now),
{
    let ghost all = entry_views(entries@);
    let mut found = false;
    let mut i: usize = 0;
    while i < entries.len()
        invariant
            i <= entries@.len(),
            entries@.len() == all.len(),
            forall|k: int|
                0 <= k < i ==> (#[trigger] entries@[k])@ == refreshed(all, heartbeat@, now)[k],
            forall|k: int| i <= k < all.len() ==> (#[trigger] entries@[k])@ == all[k],
            !found ==> entry_of(all, heartbeat.member, 0) == entry_of(
                all,
                heartbeat.member,
                i as int,
            ),
            found ==> entry_of(all, heartbeat.member, 0) is Some,
        decreases all.len() - i,
    {
        if entries[i].member == heartbeat.member {
            let held = entries[i].clone();
            let fresh = RosterEntry {
                owner: held.owner,
                share: held.share,
                member: held.member,
                address: heartbeat.address.clone(),
                permission: held.permission,
                member_epoch: held.member_epoch,
                heartbeat_at: now,
                heartbeat_expires_at: heartbeat_expiry(now),
            };
            entries.set(i, fresh);
            found = true;
        }
        i = i + 1;
    }
    assert(entry_views(entries@) =~= refreshed(all, heartbeat@, now));
    found
}

impl Registry {
    /// The challenge that is kept for a member.
    fn read_challenge(&self, share: &ShareId, member: &EndpointId) -> (challenge: Option<
        HeartbeatChallenge,
    >)
        requires
            self.wf(),
        ensures
            challenge == (if self@.challenges.contains_key(challenge_key(*share, *member)) {
                Some(self@.challenges[challenge_key(*share, *member)])
            } else {
                None
            }),
    {
        proof {
            lemma_view_of(self.challenges@);
        }
        match find(&self.challenges, challenge_bytes(share, member).as_slice()) {
            Some(row) => Some(row.challenge),
            None => None,
        }
    }

    /// Accepts a heartbeat from the device that sent it, if it answers its challenge in time, and
    /// gives the roster that follows, under a given identity. Membership is not touched.
    pub fn accept_roster_heartbeat_with(
        &mut self,
        owner_key: &SecretKey,
        heartbeat: &RosterHeartbeat,
        remote_peer: EndpointId,
        generation: SnapshotId,
        now: u64,
    ) -> (result: Result<SignedRoster, ShareError>)
        requires
            old(self).wf(),
        ensures
            final(self).wf(),
            accepts(
                old(self)@,
                final(self)@,
                result,
                owner_key@,
                heartbeat@,
                remote_peer,
                generation,
                now,
            ),
    {
        let owner = owner_key.public();
        if heartbeat.owner != owner || heartbeat.member != remote_peer {
            return Err(ShareError::EndpointMismatch);
        }
        match self.observe_authority_clock(now) {
            Ok(()) => {},
            Err(error) => {
                return Err(error);
            },
        }
        match heartbeat.verify_at(now) {
            Ok(()) => {},
            Err(error) => {
                return Err(error);
            },
        }
        match check_awaited(&self.catalog, owner, heartbeat.share, heartbeat.member) {
            Ok(()) => {},
            Err(error) => {
                assert(awaited_fault(self@, owner, heartbeat.share, heartbeat.member) == Some(
                    error,
                ));
                return Err(error);
            },
        }
        assert(awaited_fault(self@, owner, heartbeat.share, heartbeat.member) is None);
        let mut challenge = match self.read_challenge(&heartbeat.share, &heartbeat.member) {
            Some(challenge) => challenge,
            None => {
                return Err(ShareError::HeartbeatReplay);
            },
        };
        if challenge.version != ROSTER_VERSION || challenge.owner != self.catalog.owner
            || challenge.share != heartbeat.share || challenge.member != heartbeat.member
            || !same_array(&challenge.challenge, &heartbeat.challenge) || challenge.used {
            return Err(ShareError::HeartbeatReplay);
        }
        if now >= challenge.expires_at || heartbeat.sent_at < challenge.issued_at.saturating_sub(
            CHALLENGE_LAG_SECONDS,
        ) || heartbeat.sent_at > challenge.expires_at {
            return Err(ShareError::HeartbeatExpired);
        }
        let mut entries = match self.roster_entries(heartbeat.share) {
            Ok(entries) => entries,
            Err(error) => {
                return Err(error);
            },
        };
        if !refresh(&mut entries, heartbeat, now) {
            return Err(ShareError::NotMember);
        }
        let roster = match SignedRoster::sign(
            owner_key,
            heartbeat.share,
            generation,
            entries,
            now,
            now.saturating_add(ROSTER_TTL_SECONDS),
        ) {
            Ok(roster) => roster,
            Err(error) => {
                return Err(error);
            },
        };
        challenge.used = true;
        self.write_roster_and_challenge(roster.clone(), challenge);
        Ok(roster)
    }

    /// Accepts a heartbeat from the device that sent it.
    pub fn accept_roster_heartbeat(
        &mut self,
        owner_key: &SecretKey,
        heartbeat: &RosterHeartbeat,
        remote_peer: EndpointId,
        now: u64,
    ) -> (result: Result<SignedRoster, ShareError>)
        requires
            old(self).wf(),
        ensures
            final(self).wf(),
            exists|generation: SnapshotId| #[trigger]
                accepts(
                    old(self)@,
                    final(self)@,
                    result,
                    owner_key@,
                    heartbeat@,
                    remote_peer,
                    generation,
                    now,
                ),
    {
        let generation = random_nonce();
        let result = self.accept_roster_heartbeat_with(
            owner_key,
            heartbeat,
            remote_peer,
            generation,
            now,
        );
        assert(accepts(
            old(self)@,
            self@,
            result,
            owner_key@,
            heartbeat@,
            remote_peer,
            generation,
            now,
        ));
        result
    }
}

/// A heartbeat is accepted at most once: what it leaves behind refuses it as a replay.
pub proof fn law_heartbeat_is_accepted_once(
    before: RegistryView,
    after: RegistryView,
    result: Result<SignedRoster, ShareError>,
    secret: Seq<u8>,
    heartbeat: HeartbeatView,
    remote_peer: EndpointId,
    generation: SnapshotId,
    now: u64,
    later: u64,
)
    requires
        accepts(before, after, result, secret, heartbeat, remote_peer, generation, now),
        result is Ok,
        heartbeat_fault(heartbeat, later) is None,
    ensures
        accepting_fault(after, public_id(secret), heartbeat, later) == Some(
            ShareError::HeartbeatReplay,
        ),
{
}

} // verus!
