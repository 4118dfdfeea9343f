//! What a heartbeat does for the member that sends it, and what a roster can be trusted for.
use vstd::prelude::*;

use crate::share::catalog::Membership;
use crate::share::error::ShareError;
use crate::share::grants::entry_of;
use crate::share::heartbeats::{
    accepting_fault, accepts, challenges, entries_fault, entries_for, entry_for, held_roster,
    next_entries,
};
use crate::share::identity::{
    ed25519_accepts, public_id, EndpointId, GrantNonce, ShareId, SnapshotId,
};
use crate::share::registry::{clocked, RegistryView};
use crate::share::roster::{
    heartbeat_message, roster_fault_for, roster_message, EntryView, HeartbeatView, RosterView,
    SignedRoster,
};
use crate::share::rows::challenge_key;
use crate::table::listing;

verus! {

/// The first entry of a member in a list.
pub open spec fn stands_first(entries: Seq<EntryView>, k: int) -> bool {
    &&& 0 <= k < entries.len()
    &&& forall|j: int| 0 <= j < k ==> (#[trigger] entries[j]).member != entries[k].member
}

proof fn lemma_entry_of(entries: Seq<EntryView>, member: EndpointId, i: int)
    requires
        0 <= i <= entries.len(),
    ensures
        match entry_of(entries, member, i) {
            Some(entry) => exists|k: int|
                i <= k < entries.len() && entry == #[trigger] entries[k] && entry.member == member
                    && forall|j: int| i <= j < k ==> (#[trigger] entries[j]).member != member,
            None => forall|k: int| i <= k < entries.len() ==> (#[trigger] entries[k]).member
                != member,
        },
    decreases entries.len() - i,
{
    if i < entries.len() && entries[i].member != member {
        lemma_entry_of(entries, member, i + 1);
        match entry_of(entries, member, i) {
            Some(entry) => {
                let k = choose|k: int|
                    i + 1 <= k < entries.len() && entry == #[trigger] entries[k] && entry.member
                        == member && forall|j: int|
                        i + 1 <= j < k ==> (#[trigger] entries[j]).member != member;
                assert(entries[k] == entry);
            },
            None => {},
        }
    }
}

/// What an entry of a member says of where it is: what the first entry of the roster before says,
/// if that was one of the same owner, share and epoch and bound to the member, and nothing
/// otherwise.
#[verifier::opaque]
pub open spec fn carried(
    entry: EntryView,
    owner: EndpointId,
    share: ShareId,
    previous: Option<RosterView>,
) -> bool {
    let nowhere = entry.address.id == entry.member && entry.address.addrs.len() == 0
        && entry.heartbeat_at == 0 && entry.heartbeat_expires_at == 0;
    &&& entry.owner == owner
    &&& entry.share == share
    &&& match previous {
        None => nowhere,
        Some(roster) => {
            &&& forall|k: int|
                stands_first(roster.entries, k) && (#[trigger] roster.entries[k]).member
                    == entry.member ==> if roster.entries[k].owner == owner
                    && roster.entries[k].share == share && roster.entries[k].address.id
                    == entry.member && roster.entries[k].member_epoch == entry.member_epoch {
                    entry.address == roster.entries[k].address && entry.heartbeat_at
                        == roster.entries[k].heartbeat_at && entry.heartbeat_expires_at
                        == roster.entries[k].heartbeat_expires_at
                } else {
                    nowhere
                }
            &&& (forall|k: int|
                0 <= k < roster.entries.len() ==> (#[trigger] roster.entries[k]).member
                    != entry.member) ==> nowhere
        },
    }
}

/// The entry is that of a member as the catalog has it.
pub open spec fn is_entry_of(entry: EntryView, member: Membership) -> bool {
    &&& member.revoked_at is None
    &&& entry.member == member.endpoint
    &&& entry.permission == member.permission
    &&& entry.member_epoch == member.epoch
}

proof fn lemma_entry_for(
    member: Membership,
    owner: EndpointId,
    share: ShareId,
    previous: Option<RosterView>,
)
    requires
        member.revoked_at is None,
    ensures
        is_entry_of(entry_for(member, owner, share, previous), member),
        carried(entry_for(member, owner, share, previous), owner, share, previous),
{
    let entry = entry_for(member, owner, share, previous);
    reveal(carried);
    match previous {
        Some(roster) => {
            lemma_entry_of(roster.entries, member.endpoint, 0);
            match entry_of(roster.entries, member.endpoint, 0) {
                Some(held) => {
                    let at = choose|k: int|
                        0 <= k < roster.entries.len() && held == #[trigger] roster.entries[k]
                            && held.member == member.endpoint && forall|j: int|
                            0 <= j < k ==> (#[trigger] roster.entries[j]).member
                                != member.endpoint;
                    assert forall|k: int|
                        stands_first(roster.entries, k) && (#[trigger] roster.entries[k]).member
                            == entry.member implies k == at by {
                        if k < at {
                            assert(roster.entries[k].member != member.endpoint);
                        } else if at < k {
                            assert(roster.entries[at].member != roster.entries[k].member);
                        }
                    }
                    assert(roster.entries[at].member == entry.member);
                },
                None => {
                    assert forall|k: int|
                        stands_first(roster.entries, k) implies (
                    #[trigger] roster.entries[k]).member != entry.member by {}
                },
            }
        },
        None => {},
    }
}

/// Every entry is that of a member that is not revoked.
#[verifier::opaque]
pub open spec fn all_are_members(entries: Seq<EntryView>, members: Seq<Membership>) -> bool {
    forall|i: int| 0 <= i < entries.len() ==> is_of_some(#[trigger] entries[i], members)
}

/// The entry is that of one of the members.
pub open spec fn is_of_some(entry: EntryView, members: Seq<Membership>) -> bool {
    exists|m: int| 0 <= m < members.len() && is_entry_of(entry, #[trigger] members[m])
}

/// Every member that is not revoked has an entry.
#[verifier::opaque]
pub open spec fn all_have_entries(entries: Seq<EntryView>, members: Seq<Membership>) -> bool {
    forall|m: int|
        0 <= m < members.len() && (#[trigger] members[m]).revoked_at is None ==> exists|i: int|
            0 <= i < entries.len() && is_entry_of(#[trigger] entries[i], members[m])
}

/// The entries say of where the members are what the roster before did.
spec fn all_carried(
    entries: Seq<EntryView>,
    owner: EndpointId,
    share: ShareId,
    previous: Option<RosterView>,
) -> bool {
    forall|i: int|
        0 <= i < entries.len() ==> carried(#[trigger] entries[i], owner, share, previous)
}

proof fn lemma_all_are_members(
    members: Seq<Membership>,
    owner: EndpointId,
    share: ShareId,
    previous: Option<RosterView>,
)
    ensures
        all_are_members(entries_for(members, owner, share, previous), members),
        all_carried(entries_for(members, owner, share, previous), owner, share, previous),
    decreases members.len(),
{
    reveal(all_are_members);
    if members.len() > 0 {
        let rest = members.drop_last();
        let last = members.last();
        let before = entries_for(rest, owner, share, previous);
        let entries = entries_for(members, owner, share, previous);
        lemma_all_are_members(rest, owner, share, previous);
        if last.revoked_at is None {
            lemma_entry_for(last, owner, share, previous);
        }
        assert forall|i: int| 0 <= i < entries.len() implies is_of_some(
            #[trigger] entries[i],
            members,
        ) by {
            if i < before.len() {
                assert(entries[i] == before[i]);
                assert(is_of_some(before[i], rest));
                let m = choose|m: int|
                    0 <= m < rest.len() && is_entry_of(before[i], #[trigger] rest[m]);
                assert(is_entry_of(entries[i], members[m]));
            } else {
                assert(is_entry_of(entries[i], members[members.len() - 1]));
            }
        }
        assert forall|i: int| 0 <= i < entries.len() implies carried(
            #[trigger] entries[i],
            owner,
            share,
            previous,
        ) by {
            if i < before.len() {
                assert(entries[i] == before[i]);
            }
        }
    }
}

proof fn lemma_all_have_entries(
    members: Seq<Membership>,
    owner: EndpointId,
    share: ShareId,
    previous: Option<RosterView>,
)
    ensures
        all_have_entries(entries_for(members, owner, share, previous), members),
    decreases members.len(),
{
    reveal(all_have_entries);
    if members.len() > 0 {
        let rest = members.drop_last();
        let last = members.last();
        let before = entries_for(rest, owner, share, previous);
        let entries = entries_for(members, owner, share, previous);
        lemma_all_have_entries(rest, owner, share, previous);
        if last.revoked_at is None {
            lemma_entry_for(last, owner, share, previous);
        }
        assert forall|m: int|
            0 <= m < members.len() && (#[trigger] members[m]).revoked_at is None implies exists|
            i: int,
        |
            0 <= i < entries.len() && is_entry_of(#[trigger] entries[i], members[m]) by {
            if m < rest.len() {
                assert(rest[m] == members[m]);
                let i = choose|i: int|
                    0 <= i < before.len() && is_entry_of(#[trigger] before[i], rest[m]);
                assert(is_entry_of(entries[i], members[m]));
            } else {
                assert(is_entry_of(entries[before.len() as int], members[m]));
            }
        }
    }
}

/// Entries of the same members list the same members.
proof fn lemma_same_members(
    plain: Seq<EntryView>,
    entries: Seq<EntryView>,
    members: Seq<Membership>,
)
    requires
        all_are_members(plain, members),
        all_have_entries(plain, members),
        entries.len() == plain.len(),
        forall|i: int|
            #![trigger entries[i]]
            #![trigger plain[i]]
            0 <= i < entries.len() ==> entries[i].member == plain[i].member
                && entries[i].permission == plain[i].permission && entries[i].member_epoch
                == plain[i].member_epoch,
    ensures
        all_are_members(entries, members),
        all_have_entries(entries, members),
{
    assert(all_are_members(entries, members)) by {
        reveal(all_are_members);
        assert forall|i: int| 0 <= i < entries.len() implies is_of_some(
            #[trigger] entries[i],
            members,
        ) by {
            assert(is_of_some(plain[i], members));
            let m = choose|m: int|
                0 <= m < members.len() && is_entry_of(plain[i], #[trigger] members[m]);
            assert(is_entry_of(entries[i], members[m]));
        }
    }
    assert(all_have_entries(entries, members)) by {
        reveal(all_have_entries);
        assert forall|m: int|
            0 <= m < members.len() && (#[trigger] members[m]).revoked_at is None implies exists|
            i: int,
        |
            0 <= i < entries.len() && is_entry_of(#[trigger] entries[i], members[m]) by {
            let i = choose|i: int|
                0 <= i < plain.len() && is_entry_of(#[trigger] plain[i], members[m]);
            assert(is_entry_of(entries[i], members[m]));
        }
    }
}

/// The latest time up to which something holds for some seconds.
pub open spec fn after_seconds(time: u64, seconds: int) -> int {
    if time + seconds > u64::MAX {
        u64::MAX as int
    } else {
        time + seconds
    }
}

/// An accepted heartbeat publishes where its member is: the roster that is given out, and kept, has
/// an entry of the member with the address of the heartbeat and the owner's own time, good for 90
/// seconds. Every other entry says of its member what the roster before did, and the members that
/// are not revoked all have one, with their permission and their epoch. The roster is the owner's,
/// and holds for 90 seconds.
pub proof fn law_heartbeat_publishes_where_the_member_is(
    before: RegistryView,
    after: RegistryView,
    made: SignedRoster,
    secret: Seq<u8>,
    heartbeat: HeartbeatView,
    remote_peer: EndpointId,
    generation: SnapshotId,
    now: u64,
)
    requires
        accepts(before, after, Ok(made), secret, heartbeat, remote_peer, generation, now),
    ensures
        ({
            let entries = made@.entries;
            let members = listing(before.catalog.shares[heartbeat.share@].members);
            let previous = if before.rosters.contains_key(heartbeat.share@) {
                Some(before.rosters[heartbeat.share@])
            } else {
                None
            };
            &&& after.rosters == before.rosters.insert(heartbeat.share@, made@)
            &&& made@.owner == public_id(secret)
            &&& made@.share == heartbeat.share
            &&& made@.issued_at == now
            &&& made@.expires_at == after_seconds(now, 90)
            &&& ed25519_accepts(made@.owner@, roster_message(made@), made@.signature@)
            &&& exists|i: int|
                0 <= i < entries.len() && (#[trigger] entries[i]).member == heartbeat.member
            &&& forall|i: int|
                0 <= i < entries.len() && (#[trigger] entries[i]).member == heartbeat.member ==> {
                    &&& entries[i].address == heartbeat.address
                    &&& entries[i].heartbeat_at == now
                    &&& entries[i].heartbeat_expires_at == after_seconds(now, 90)
                }
            &&& forall|i: int|
                0 <= i < entries.len() && (#[trigger] entries[i]).member != heartbeat.member
                    ==> carried(entries[i], before.catalog.owner, heartbeat.share, previous)
            &&& all_are_members(entries, members)
            &&& all_have_entries(entries, members)
        }),
{
    let s = clocked(before, now);
    let share = heartbeat.share;
    let plain = next_entries(s, share);
    let entries = made@.entries;
    let members = listing(before.catalog.shares[share@].members);
    let previous = held_roster(s, share);
    lemma_all_are_members(members, s.catalog.owner, share, previous);
    lemma_all_have_entries(members, s.catalog.owner, share, previous);
    lemma_same_members(plain, entries, members);
    lemma_entry_of(plain, heartbeat.member, 0);
    let k = choose|k: int|
        0 <= k < plain.len() && entry_of(plain, heartbeat.member, 0)->0 == #[trigger] plain[k]
            && plain[k].member == heartbeat.member;
    assert(entries[k].member == heartbeat.member);
    assert forall|i: int|
        0 <= i < entries.len() && (#[trigger] entries[i]).member != heartbeat.member implies carried(
        entries[i],
        before.catalog.owner,
        share,
        previous,
    ) by {
        assert(entries[i] == plain[i]);
    }
}

/// A heartbeat is accepted from the member itself, signed by it, and only in answer to the challenge
/// that the owner keeps for it: the same 32 bytes, not answered before, before the challenge
/// expires, and sent no more than five seconds before the challenge was given out. The challenge is
/// then spent, and nothing else changes but the roster and the clock.
pub proof fn law_heartbeat_answers_its_challenge(
    before: RegistryView,
    after: RegistryView,
    made: SignedRoster,
    secret: Seq<u8>,
    heartbeat: HeartbeatView,
    remote_peer: EndpointId,
    generation: SnapshotId,
    now: u64,
)
    requires
        accepts(before, after, Ok(made), secret, heartbeat, remote_peer, generation, now),
    ensures
        ({
            let key = challenge_key(heartbeat.share, heartbeat.member);
            let challenge = before.challenges[key];
            let member = before.catalog.shares[heartbeat.share@].members[heartbeat.member@];
            &&& heartbeat.member == remote_peer
            &&& heartbeat.owner == public_id(secret)
            &&& heartbeat.owner == before.catalog.owner
            &&& before.catalog.shares.contains_key(heartbeat.share@)
            &&& before.catalog.shares[heartbeat.share@].members.contains_key(heartbeat.member@)
            &&& member.revoked_at is None
            &&& ed25519_accepts(
                heartbeat.member@,
                heartbeat_message(heartbeat),
                heartbeat.signature@,
            )
            &&& heartbeat.address.id == heartbeat.member
            &&& heartbeat.address.addrs.len() <= 16
            &&& heartbeat.sent_at <= now + 5
            &&& now <= heartbeat.sent_at + 90
            &&& before.challenges.contains_key(key)
            &&& challenge.owner == heartbeat.owner
            &&& challenge.share == heartbeat.share
            &&& challenge.member == heartbeat.member
            &&& challenge.challenge == heartbeat.challenge
            &&& !challenge.used
            &&& now < challenge.expires_at
            &&& heartbeat.sent_at <= challenge.expires_at
            &&& heartbeat.sent_at + 5 >= challenge.issued_at
            &&& after.challenges.contains_key(key)
            &&& after.challenges[key].used
            &&& after.challenges.remove(key) =~= before.challenges.remove(key)
            &&& after.catalog == before.catalog
            &&& after.grants == before.grants
            &&& after.applies == before.applies
        }),
{
}

/// A heartbeat that keeps to all that is asked of it is accepted, unless the roster cannot be made.
pub proof fn law_proper_heartbeat_is_accepted(
    s: RegistryView,
    owner: EndpointId,
    heartbeat: HeartbeatView,
    now: u64,
    m: int,
)
    requires
        ({
            let key = challenge_key(heartbeat.share, heartbeat.member);
            let challenge = s.challenges[key];
            let members = listing(s.catalog.shares[heartbeat.share@].members);
            &&& s.catalog.owner == owner
            &&& s.catalog.shares.contains_key(heartbeat.share@)
            &&& s.catalog.shares[heartbeat.share@].members.contains_key(heartbeat.member@)
            &&& s.catalog.shares[heartbeat.share@].members[heartbeat.member@].revoked_at is None
            &&& 0 <= m < members.len()
            &&& members[m].endpoint == heartbeat.member
            &&& members[m].revoked_at is None
            &&& ed25519_accepts(
                heartbeat.member@,
                heartbeat_message(heartbeat),
                heartbeat.signature@,
            )
            &&& crate::share::roster::heartbeat_payload(heartbeat).len() + 64 <= 65536
            &&& heartbeat.address.id == heartbeat.member
            &&& heartbeat.address.addrs.len() <= 16
            &&& heartbeat.sent_at <= now + 5
            &&& now <= heartbeat.sent_at + 90
            &&& s.challenges.contains_key(key)
            &&& challenge.version == 1
            &&& challenge.owner == owner
            &&& challenge.share == heartbeat.share
            &&& challenge.member == heartbeat.member
            &&& challenge.challenge == heartbeat.challenge
            &&& !challenge.used
            &&& now < challenge.expires_at
            &&& heartbeat.sent_at <= challenge.expires_at
            &&& heartbeat.sent_at + 5 >= challenge.issued_at
            &&& entries_fault(s, heartbeat.share) is None
        }),
    ensures
        accepting_fault(s, owner, heartbeat, now) is None,
{
    let members = listing(s.catalog.shares[heartbeat.share@].members);
    let plain = next_entries(s, heartbeat.share);
    lemma_all_have_entries(
        members,
        s.catalog.owner,
        heartbeat.share,
        held_roster(s, heartbeat.share),
    );
    reveal(all_have_entries);
    lemma_entry_of(plain, heartbeat.member, 0);
    let i = choose|i: int| 0 <= i < plain.len() && is_entry_of(#[trigger] plain[i], members[m]);
    assert(plain[i].member == heartbeat.member);
}

/// A challenge is given to a member that is not revoked, is kept unused under the member with the
/// very bytes that are given out, and can be answered for 90 seconds. It takes the place of the
/// member's last one and of no other.
pub proof fn law_challenge_is_kept_for_its_member(
    before: RegistryView,
    after: RegistryView,
    made: (SignedRoster, GrantNonce),
    secret: Seq<u8>,
    share: ShareId,
    member: EndpointId,
    generation: SnapshotId,
    challenge: GrantNonce,
    now: u64,
)
    requires
        challenges(before, after, Ok(made), secret, share, member, generation, challenge, now),
    ensures
        ({
            let key = challenge_key(share, member);
            let kept = after.challenges[key];
            &&& before.catalog.owner == public_id(secret)
            &&& before.catalog.shares.contains_key(share@)
            &&& before.catalog.shares[share@].members.contains_key(member@)
            &&& before.catalog.shares[share@].members[member@].revoked_at is None
            &&& after.challenges.contains_key(key)
            &&& kept.challenge == made.1
            &&& made.1 == challenge
            &&& kept.owner == before.catalog.owner
            &&& kept.share == share
            &&& kept.member == member
            &&& !kept.used
            &&& kept.issued_at == now
            &&& kept.expires_at == after_seconds(now, 90)
            &&& after.challenges.remove(key) =~= before.challenges.remove(key)
            &&& after.rosters == before.rosters.insert(share@, made.0@)
            &&& made.0@.share == share
            &&& made.0@.issued_at == now
            &&& made.0@.expires_at == after_seconds(now, 90)
            &&& after.catalog == before.catalog
        }),
{
}

/// A roster that is taken for an owner's share was signed by that owner for that share, is in its
/// time, and speaks of no member twice; none of its entries is of the owner, bound to another
/// device's address, or fresh for more than 90 seconds.
pub proof fn law_taken_roster_is_the_owners(
    roster: RosterView,
    owner: EndpointId,
    share: ShareId,
    now: u64,
    i: int,
    j: int,
)
    requires
        roster_fault_for(roster, owner, share, now) is None,
        0 <= i < j < roster.entries.len(),
    ensures
        roster.owner == owner,
        roster.share == share,
        ed25519_accepts(owner@, roster_message(roster), roster.signature@),
        roster.issued_at <= now + 5,
        now < roster.expires_at,
        roster.expires_at <= roster.issued_at + 90,
        roster.entries.len() <= 4096,
        roster.entries[i].member != roster.entries[j].member,
        is_proper(roster.entries[i], owner, share),
        is_proper(roster.entries[j], owner, share),
{
    lemma_entry_in_order(roster.entries, owner, share, 0, i);
    lemma_entry_in_order(roster.entries, owner, share, 0, j);
}

/// An entry that can be in an owner's roster.
pub open spec fn is_proper(entry: EntryView, owner: EndpointId, share: ShareId) -> bool {
    &&& entry.owner == owner
    &&& entry.share == share
    &&& entry.member != owner
    &&& entry.address.id == entry.member
    &&& entry.address.addrs.len() <= 16
    &&& entry.member_epoch > 0
    &&& entry.heartbeat_expires_at <= entry.heartbeat_at + 90
    &&& entry.heartbeat_at == 0 ==> entry.heartbeat_expires_at == 0
}

proof fn lemma_entry_in_order(
    entries: Seq<EntryView>,
    owner: EndpointId,
    share: ShareId,
    from: int,
    i: int,
)
    requires
        crate::share::roster::entries_fault_from(entries, owner, share, from) is None,
        0 <= from <= i < entries.len(),
    ensures
        is_proper(entries[i], owner, share),
    decreases i - from,
{
    if from < i {
        lemma_entry_in_order(entries, owner, share, from + 1, i);
    }
}

/// Why a roster is refused for its time: it comes from a clock that went back, or is stale.
pub proof fn law_roster_is_refused_for_its_time(
    roster: RosterView,
    owner: EndpointId,
    share: ShareId,
    now: u64,
)
    requires
        roster.owner == owner,
        roster.share == share,
        crate::share::roster::roster_signature_fault(roster) is None,
    ensures
        roster_fault_for(roster, owner, share, now) == (if roster.issued_at > now + 5 {
            Some(ShareError::ClockRollback)
        } else if now >= roster.expires_at {
            Some(ShareError::RosterStale)
        } else {
            None
        }),
{
}

proof fn lemma_entries_proper(
    entries: Seq<EntryView>,
    owner: EndpointId,
    share: ShareId,
    from: int,
)
    requires
        0 <= from,
        forall|i: int|
            from <= i < entries.len() ==> is_proper(#[trigger] entries[i], owner, share) && (
            entries[i].heartbeat_at > 0 ==> entries[i].heartbeat_at
                < entries[i].heartbeat_expires_at),
    ensures
        crate::share::roster::entries_fault_from(entries, owner, share, from) is None,
    decreases entries.len() - from,
{
    if from < entries.len() {
        assert(is_proper(entries[from], owner, share));
        lemma_entries_proper(entries, owner, share, from + 1);
    }
}

/// A roster that its owner has signed, that is in its time and within its bounds, and whose entries
/// are proper and speak of no member twice, is taken.
pub proof fn law_proper_roster_is_taken(
    roster: RosterView,
    owner: EndpointId,
    share: ShareId,
    now: u64,
)
    requires
        roster.owner == owner,
        roster.share == share,
        ed25519_accepts(owner@, roster_message(roster), roster.signature@),
        roster.issued_at <= now + 5,
        now < roster.expires_at,
        roster.issued_at < roster.expires_at <= roster.issued_at + 90,
        roster.entries.len() <= 4096,
        crate::share::roster::roster_payload(roster).len() + 64 <= 65536,
        forall|i: int, j: int|
            0 <= i < j < roster.entries.len() ==> (#[trigger] roster.entries[i]).member != (
            #[trigger] roster.entries[j]).member,
        forall|i: int|
            0 <= i < roster.entries.len() ==> is_proper(
                #[trigger] roster.entries[i],
                owner,
                share,
            ) && (roster.entries[i].heartbeat_at > 0 ==> roster.entries[i].heartbeat_at
                < roster.entries[i].heartbeat_expires_at),
    ensures
        roster_fault_for(roster, owner, share, now) is None,
{
    lemma_entries_proper(roster.entries, owner, share, 0);
}

/// The roster that goes out with a challenge lists the members that are not revoked, and no others,
/// each where the last roster has it if that still holds of it.
pub proof fn law_roster_lists_the_members(
    before: RegistryView,
    after: RegistryView,
    made: (SignedRoster, GrantNonce),
    secret: Seq<u8>,
    share: ShareId,
    member: EndpointId,
    generation: SnapshotId,
    challenge: GrantNonce,
    now: u64,
)
    requires
        challenges(before, after, Ok(made), secret, share, member, generation, challenge, now),
    ensures
        ({
            let entries = made.0@.entries;
            let members = listing(before.catalog.shares[share@].members);
            let previous = if before.rosters.contains_key(share@) {
                Some(before.rosters[share@])
            } else {
                None
            };
            &&& made.0@.owner == public_id(secret)
            &&& made.0@.generation == generation
            &&& ed25519_accepts(made.0@.owner@, roster_message(made.0@), made.0@.signature@)
            &&& forall|i: int|
                0 <= i < entries.len() ==> carried(
                    #[trigger] entries[i],
                    before.catalog.owner,
                    share,
                    previous,
                )
            &&& all_are_members(entries, members)
            &&& all_have_entries(entries, members)
        }),
{
    let s = clocked(before, now);
    let members = listing(before.catalog.shares[share@].members);
    let previous = held_roster(s, share);
    lemma_all_are_members(members, s.catalog.owner, share, previous);
    lemma_all_have_entries(members, s.catalog.owner, share, previous);
}

} // verus!
