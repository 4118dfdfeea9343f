//! Grants: how an owner lets one member fetch from another, follows the transfer, and calls it
//! back.
use vstd::prelude::*;

use crate::hash::{hash_with, lemma_hash_with, Hash32};
use crate::manifest::ChunkDescriptor;
use crate::merkle::views;
use crate::record::{logical_digest, RecordView, SyncRecord};
use crate::share::authority::{
    attestation_fault, attested_fault, grant_refusal, grant_signature_fault, request_digest,
    request_hash, signed_grant, snapshot_fault, subset_fault, token_fault, validate_hash_subset,
    AttestationView, AuthoritativeSnapshot, ManifestAttestation, ShareGrant, SnapshotToken,
};
use crate::share::catalog::member_of;
use crate::share::error::{ShareError, ShareFault};
use crate::share::identity::{public_id, EndpointId, GrantNonce, SecretKey, ShareId};
use crate::share::registry::{
    clock_fault, clocked, crowded, swept, with_grant, Registry, RegistryView,
};
use crate::share::roster::{entry_views, random_nonce, roster_fault_for, EntryView, SignedRoster};
use crate::share::rows::{grant_row_bytes, undrained, GrantDrainState, GrantRow, GrantState};
use crate::table::{find, lemma_view_of, put, Measured};

verus! {

/// Why a complete snapshot is not kept.
pub open spec fn keeping_fault(
    s: RegistryView,
    snapshot: AuthoritativeSnapshot,
    now: u64,
) -> Option<ShareFault> {
    let id = snapshot.token.snapshot;
    if clock_fault(s.clock, now) is Some {
        Some(ShareFault::Share(clock_fault(s.clock, now)->0))
    } else if snapshot_fault(snapshot@, s.catalog.owner, snapshot.token.share, now) is Some {
        snapshot_fault(snapshot@, s.catalog.owner, snapshot.token.share, now)
    } else if !s.catalog.shares.contains_key(snapshot.token.share@) {
        Some(ShareFault::Share(ShareError::UnknownShare))
    } else {
        let left = swept(s, now);
        if left.snapshots.contains_key(id@) {
            if left.snapshots[id@]@ != snapshot@ {
                Some(ShareFault::Share(ShareError::GrantReplay))
            } else {
                None
            }
        } else if crowded(left, snapshot.measure()) {
            Some(ShareFault::Share(ShareError::Busy))
        } else {
            None
        }
    }
}

/// A refusal before the journals were swept.
pub open spec fn refused_early(
    s: RegistryView,
    snapshot: AuthoritativeSnapshot,
    now: u64,
) -> bool {
    ||| clock_fault(s.clock, now) is Some
    ||| snapshot_fault(snapshot@, s.catalog.owner, snapshot.token.share, now) is Some
    ||| !s.catalog.shares.contains_key(snapshot.token.share@)
}

/// What keeping a complete snapshot comes to.
pub open spec fn stores(
    before: RegistryView,
    after: RegistryView,
    result: Result<(), ShareFault>,
    snapshot: AuthoritativeSnapshot,
    now: u64,
) -> bool {
    let s = clocked(before, now);
    let left = swept(s, now);
    match result {
        Err(fault) => keeping_fault(before, snapshot, now) == Some(fault) && after == (
        if refused_early(before, snapshot, now) {
            s
        } else {
            left
        }),
        Ok(()) => keeping_fault(before, snapshot, now) is None && after == (
        if left.snapshots.contains_key(snapshot.token.snapshot@) {
            left
        } else {
            RegistryView {
                snapshots: left.snapshots.insert(snapshot.token.snapshot@, snapshot),
                ..left
            }
        }),
    }
}

impl Registry {
    /// Keeps a complete snapshot of a share. The same snapshot may come again; another one under
    /// its identity may not.
    pub fn store_snapshot(&mut self, snapshot: AuthoritativeSnapshot, now: u64) -> (result: Result<
        (),
        ShareFault,
    >)
        requires
            old(self).wf(),
        ensures
            final(self).wf(),
            stores(old(self)@, final(self)@, result, snapshot, now),
    {
        match self.observe_authority_clock(now) {
            Ok(()) => {},
            Err(error) => {
                return Err(ShareFault::Share(error));
            },
        }
        match snapshot.verify_complete(self.catalog.owner, snapshot.token.share, now) {
            Ok(()) => {},
            Err(fault) => {
                return Err(fault);
            },
        }
        proof {
            lemma_view_of(self.catalog.shares@);
        }
        if !crate::table::holds(&self.catalog.shares, snapshot.token.share.0.as_slice()) {
            return Err(ShareFault::Share(ShareError::UnknownShare));
        }
        self.gc_authority(now);
        proof {
            assert(swept(clocked(old(self)@, now), now).snapshots =~= swept(
                old(self)@,
                now,
            ).snapshots);
            lemma_sweep_ignores_clock(old(self)@, now);
        }
        match self.snapshot(&snapshot.token.snapshot) {
            Some(held) => {
                if !held.same(&snapshot) {
                    return Err(ShareFault::Share(ShareError::GrantReplay));
                }
                return Ok(());
            },
            None => {},
        }
        let size = snapshot.size();
        match self.ensure_authority_capacity(size) {
            Ok(()) => {},
            Err(error) => {
                return Err(ShareFault::Share(error));
            },
        }
        put(&mut self.snapshots, snapshot);
        Ok(())
    }
}

/// A sweep does not look at the clock anchor.
pub proof fn lemma_sweep_ignores_clock(s: RegistryView, now: u64)
    ensures
        swept(clocked(s, now), now) == clocked(swept(s, now), now),
{
    let a = swept(clocked(s, now), now);
    let b = clocked(swept(s, now), now);
    let c = clocked(s, now);
    assert forall|id: crate::share::identity::SnapshotId|
        crate::share::registry::referenced(c, id) == #[trigger] crate::share::registry::referenced(
            s,
            id,
        ) by {}
    assert(a.snapshots =~= b.snapshots);
    assert(a.grants =~= b.grants);
    assert(a.drains =~= b.drains);
    assert(a.applies =~= b.applies);
}

/// The first record with a digest, at or behind position `i`.
pub open spec fn record_with(records: Seq<RecordView>, digest: Seq<u8>, i: int) -> Option<
    RecordView,
>
    decreases records.len() - i,
{
    if i < 0 || i >= records.len() {
        None
    } else if logical_digest(records[i]) == digest {
        Some(records[i])
    } else {
        record_with(records, digest, i + 1)
    }
}

/// Finds the first record with a digest.
pub fn find_record<'a>(records: &'a Vec<SyncRecord>, digest: &Hash32) -> (record: Option<
    &'a SyncRecord,
>)
    ensures
        match record {
            Some(record) => record_with(views(records@), digest@, 0) == Some(record@),
            None => record_with(views(records@), digest@, 0) is None,
        },
{
    let ghost all = views(records@);
    let mut i: usize = 0;
    while i < records.len()
        invariant
            i <= records@.len(),
            all == views(records@),
            record_with(all, digest@, 0) == record_with(all, digest@, i as int),
        decreases records@.len() - i,
    {
        let hash = records[i].logical_hash();
        proof {
            if hash@ == digest@ {
                crate::hash::lemma_hash_view_injective(hash, *digest);
            }
        }
        if hash == *digest {
            return Some(&records[i]);
        }
        i = i + 1;
    }
    None
}

/// The manifest has a chunk with each digest.
pub open spec fn all_listed(chunks: Seq<ChunkDescriptor>, hashes: Seq<Hash32>) -> bool {
    forall|i: int| 0 <= i < hashes.len() ==> #[trigger] is_listed(chunks, hashes[i])
}

/// The manifest has a chunk with the digest.
pub open spec fn is_listed(chunks: Seq<ChunkDescriptor>, hash: Hash32) -> bool {
    exists|j: int| 0 <= j < chunks.len() && (#[trigger] chunks[j]).hash == hash
}

fn lists_all(chunks: &Vec<ChunkDescriptor>, hashes: &[Hash32]) -> (r: bool)
    ensures
        r == all_listed(chunks@, hashes@),
{
    let mut i: usize = 0;
    while i < hashes.len()
        invariant
            i <= hashes@.len(),
            forall|k: int| 0 <= k < i ==> #[trigger] is_listed(chunks@, hashes@[k]),
        decreases hashes@.len() - i,
    {
        let mut found = false;
        let mut j: usize = 0;
        while j < chunks.len()
            invariant
                j <= chunks@.len(),
                i < hashes@.len(),
                found == exists|k: int|
                    0 <= k < j && (#[trigger] chunks@[k]).hash == hashes@[i as int],
            decreases chunks@.len() - j,
        {
            if chunks[j].hash == hashes[i] {
                assert(chunks@[j as int].hash == hashes@[i as int]);
                found = true;
            }
            j = j + 1;
        }
        if !found {
            assert(!is_listed(chunks@, hashes@[i as int]));
            return false;
        }
        assert(is_listed(chunks@, hashes@[i as int]));
        i = i + 1;
    }
    true
}

/// The first entry of a member.
pub open spec fn entry_of(entries: Seq<EntryView>, member: EndpointId, i: int) -> Option<EntryView>
    decreases entries.len() - i,
{
    if i < 0 || i >= entries.len() {
        None
    } else if entries[i].member == member {
        Some(entries[i])
    } else {
        entry_of(entries, member, i + 1)
    }
}

/// The first entry of a member in a roster.
pub fn roster_member<'a>(
    roster: &'a SignedRoster,
    member: &EndpointId,
) -> (entry: Option<&'a crate::share::roster::RosterEntry>)
    ensures
        match entry {
            Some(entry) => entry_of(roster@.entries, *member, 0) == Some(entry@),
            None => entry_of(roster@.entries, *member, 0) is None,
        },
{
    let ghost all = entry_views(roster.entries@);
    let mut i: usize = 0;
    while i < roster.entries.len()
        invariant
            i <= roster.entries@.len(),
            all == entry_views(roster.entries@),
            entry_of(all, *member, 0) == entry_of(all, *member, i as int),
        decreases roster.entries@.len() - i,
    {
        if roster.entries[i].member == *member {
            return Some(&roster.entries[i]);
        }
        i = i + 1;
    }
    None
}

/// Why a member cannot be a provider now: the owner itself always can.
pub open spec fn provider_fault(
    s: RegistryView,
    share: ShareId,
    provider: EndpointId,
    now: u64,
) -> Option<ShareError> {
    let members = s.catalog.shares[share@].members;
    if provider == s.catalog.owner {
        None
    } else if !members.contains_key(provider@) {
        Some(ShareError::NotMember)
    } else if members[provider@].revoked_at is Some {
        Some(ShareError::MemberRevoked)
    } else if !s.rosters.contains_key(share@) {
        Some(ShareError::RosterStale)
    } else if roster_fault_for(s.rosters[share@], s.catalog.owner, share, now) is Some {
        roster_fault_for(s.rosters[share@], s.catalog.owner, share, now)
    } else {
        match entry_of(s.rosters[share@].entries, provider, 0) {
            None => Some(ShareError::RosterStale),
            Some(entry) => if entry.heartbeat_expires_at <= now {
                Some(ShareError::RosterStale)
            } else if entry.member_epoch != members[provider@].epoch || entry.permission
                != members[provider@].permission {
                Some(ShareError::EpochMismatch)
            } else {
                None
            },
        }
    }
}

/// The epoch under which a provider serves: zero for the owner.
pub open spec fn provider_epoch(s: RegistryView, share: ShareId, provider: EndpointId) -> u64 {
    if provider == s.catalog.owner {
        0
    } else {
        member_of(s.catalog, share, provider).epoch
    }
}

/// Why the two ends of a grant are not in order.
pub open spec fn ends_fault(
    s: RegistryView,
    owner: EndpointId,
    token: SnapshotToken,
    consumer: EndpointId,
    provider: EndpointId,
    now: u64,
) -> Option<ShareError> {
    let share = token.share;
    if s.catalog.owner != owner {
        Some(ShareError::OwnerMismatch)
    } else if !s.catalog.shares.contains_key(share@) {
        Some(ShareError::UnknownShare)
    } else if !s.catalog.shares[share@].members.contains_key(consumer@) {
        Some(ShareError::NotMember)
    } else if member_of(s.catalog, share, consumer).revoked_at is Some {
        Some(ShareError::MemberRevoked)
    } else if member_of(s.catalog, share, consumer).epoch != token.epoch {
        Some(ShareError::EpochMismatch)
    } else if provider == consumer {
        Some(ShareError::EndpointMismatch)
    } else {
        provider_fault(s, share, provider, now)
    }
}

/// Why what is asked for is not in order.
pub open spec fn asking_fault(
    s: RegistryView,
    owner: EndpointId,
    token: SnapshotToken,
    manifest: AttestationView,
    hashes: Seq<Hash32>,
    now: u64,
) -> Option<ShareFault> {
    if token_fault(token, owner, token.share, now) is Some {
        Some(ShareFault::Share(token_fault(token, owner, token.share, now)->0))
    } else if attestation_fault(manifest, owner, token.share, now) is Some {
        attestation_fault(manifest, owner, token.share, now)
    } else if subset_fault(hashes) is Some {
        Some(ShareFault::Share(subset_fault(hashes)->0))
    } else if !s.snapshots.contains_key(token.snapshot@) || s.snapshots[token.snapshot@].token
        != token {
        Some(ShareFault::Share(ShareError::ManifestMismatch))
    } else {
        match record_with(s.snapshots[token.snapshot@]@.records, manifest.record_hash@, 0) {
            None => Some(ShareFault::Share(ShareError::ManifestMismatch)),
            Some(record) => if attested_fault(manifest, token, record) is Some {
                Some(ShareFault::Share(attested_fault(manifest, token, record)->0))
            } else if !all_listed(manifest.manifest.chunks, hashes) {
                Some(ShareFault::Share(ShareError::ManifestMismatch))
            } else {
                None
            },
        }
    }
}

/// The grant that a request leads to.
pub open spec fn granted(
    s: RegistryView,
    secret: Seq<u8>,
    consumer: EndpointId,
    provider: EndpointId,
    token: SnapshotToken,
    manifest: AttestationView,
    hashes: Seq<Hash32>,
    nonce: GrantNonce,
    now: u64,
) -> ShareGrant {
    signed_grant(
        secret,
        token.share,
        consumer,
        provider,
        member_of(s.catalog, token.share, consumer).epoch,
        provider_epoch(s, token.share, provider),
        token.snapshot,
        manifest.manifest_hash,
        hash_with(request_digest(token.share, token.snapshot, manifest.manifest_hash, hashes)),
        nonce,
        now,
    )
}

/// A grant that was just issued.
pub open spec fn issued_row(grant: ShareGrant) -> GrantRow {
    GrantRow {
        grant,
        state: GrantState::Issued,
        activation_id: None,
        activation_deadline: None,
        revoked: false,
    }
}

/// Why a grant is not issued, once the journals are swept.
pub open spec fn granting_fault(
    s: RegistryView,
    secret: Seq<u8>,
    consumer: EndpointId,
    provider: EndpointId,
    token: SnapshotToken,
    manifest: AttestationView,
    hashes: Seq<Hash32>,
    nonce: GrantNonce,
    now: u64,
) -> Option<ShareFault> {
    let owner = public_id(secret);
    let grant = granted(s, secret, consumer, provider, token, manifest, hashes, nonce, now);
    if asking_fault(s, owner, token, manifest, hashes, now) is Some {
        asking_fault(s, owner, token, manifest, hashes, now)
    } else if ends_fault(s, owner, token, consumer, provider, now) is Some {
        Some(ShareFault::Share(ends_fault(s, owner, token, consumer, provider, now)->0))
    } else if grant_refusal(grant) is Some {
        Some(ShareFault::Share(grant_refusal(grant)->0))
    } else if crowded(s, grant_row_bytes(issued_row(grant)).len()) {
        Some(ShareFault::Share(ShareError::Busy))
    } else if s.grants.contains_key(nonce@) {
        Some(ShareFault::Share(ShareError::GrantReplay))
    } else {
        None
    }
}

/// What asking for a grant comes to.
pub open spec fn grants(
    before: RegistryView,
    after: RegistryView,
    result: Result<ShareGrant, ShareFault>,
    secret: Seq<u8>,
    consumer: EndpointId,
    provider: EndpointId,
    token: SnapshotToken,
    manifest: AttestationView,
    hashes: Seq<Hash32>,
    nonce: GrantNonce,
    now: u64,
) -> bool {
    let s = swept(clocked(before, now), now);
    let fault = granting_fault(
        s,
        secret,
        consumer,
        provider,
        token,
        manifest,
        hashes,
        nonce,
        now,
    );
    let grant = granted(s, secret, consumer, provider, token, manifest, hashes, nonce, now);
    match result {
        Err(error) => if clock_fault(before.clock, now) is Some {
            error == ShareFault::Share(clock_fault(before.clock, now)->0) && after == clocked(
                before,
                now,
            )
        } else {
            fault == Some(error) && after == s
        },
        Ok(made) => {
            &&& clock_fault(before.clock, now) is None
            &&& fault is None
            &&& made == grant
            &&& grant_signature_fault(grant, grant.owner, grant.share) is None
            &&& after == with_grant(s, issued_row(grant), undrained())
        },
    }
}

impl Registry {
    fn check_provider(&self, share: &ShareId, provider: &EndpointId, now: u64) -> (epoch: Result<
        u64,
        ShareError,
    >)
        requires
            self.wf(),
            self@.catalog.shares.contains_key(share@),
        ensures
            match epoch {
                Ok(epoch) => provider_fault(self@, *share, *provider, now) is None && epoch
                    == provider_epoch(self@, *share, *provider),
                Err(error) => provider_fault(self@, *share, *provider, now) == Some(error),
            },
    {
        if *provider == self.catalog.owner {
            return Ok(0);
        }
        let member = match self.catalog.member(*share, *provider) {
            Ok(member) => member,
            Err(error) => {
                return Err(error);
            },
        };
        if member.revoked_at.is_some() {
            return Err(ShareError::MemberRevoked);
        }
        proof {
            lemma_view_of(self.rosters@);
        }
        let roster = match find(&self.rosters, share.0.as_slice()) {
            Some(roster) => roster,
            None => {
                return Err(ShareError::RosterStale);
            },
        };
        assert(self@.rosters[share@] == roster@);
        match roster.verify_for(self.catalog.owner, *share, now) {
            Ok(()) => {},
            Err(error) => {
                return Err(error);
            },
        }
        match roster_member(roster, provider) {
            None => {
                return Err(ShareError::RosterStale);
            },
            Some(entry) => {
                if entry.heartbeat_expires_at <= now {
                    return Err(ShareError::RosterStale);
                }
                if entry.member_epoch != member.epoch || entry.permission != member.permission {
                    return Err(ShareError::EpochMismatch);
                }
            },
        }
        Ok(member.epoch)
    }

    fn check_ends(
        &self,
        owner: &EndpointId,
        token: &SnapshotToken,
        consumer: &EndpointId,
        provider: &EndpointId,
        now: u64,
    ) -> (epochs: Result<(u64, u64), ShareError>)
        requires
            self.wf(),
        ensures
            match epochs {
                Ok(epochs) => ends_fault(self@, *owner, *token, *consumer, *provider, now) is None
                    && epochs.0 == member_of(self@.catalog, token.share, *consumer).epoch
                    && epochs.1 == provider_epoch(self@, token.share, *provider),
                Err(error) => ends_fault(self@, *owner, *token, *consumer, *provider, now) == Some(
                    error,
                ),
            },
    {
        if self.catalog.owner != *owner {
            return Err(ShareError::OwnerMismatch);
        }
        let member = match self.catalog.member(token.share, *consumer) {
            Ok(member) => member,
            Err(error) => {
                return Err(error);
            },
        };
        if member.revoked_at.is_some() {
            return Err(ShareError::MemberRevoked);
        }
        if member.epoch != token.epoch {
            return Err(ShareError::EpochMismatch);
        }
        if *provider == *consumer {
            return Err(ShareError::EndpointMismatch);
        }
        match self.check_provider(&token.share, provider, now) {
            Ok(epoch) => Ok((member.epoch, epoch)),
            Err(error) => Err(error),
        }
    }

    fn check_asking(
        &self,
        owner: &EndpointId,
        token: &SnapshotToken,
        manifest: &ManifestAttestation,
        hashes: &[Hash32],
        now: u64,
    ) -> (result: Result<(), ShareFault>)
        requires
            self.wf(),
        ensures
            match result {
                Ok(()) => asking_fault(self@, *owner, *token, manifest@, hashes@, now) is None,
                Err(fault) => asking_fault(self@, *owner, *token, manifest@, hashes@, now) == Some(
                    fault,
                ),
            },
    {
        match token.verify_for(*owner, token.share, now) {
            Ok(()) => {},
            Err(error) => {
                return Err(ShareFault::Share(error));
            },
        }
        match manifest.verify_for(*owner, token.share, now) {
            Ok(()) => {},
            Err(fault) => {
                return Err(fault);
            },
        }
        match validate_hash_subset(hashes) {
            Ok(()) => {},
            Err(error) => {
                return Err(ShareFault::Share(error));
            },
        }
        let held = match self.snapshot(&token.snapshot) {
            Some(held) => held,
            None => {
                return Err(ShareFault::Share(ShareError::ManifestMismatch));
            },
        };
        if held.token != *token {
            return Err(ShareFault::Share(ShareError::ManifestMismatch));
        }
        let record = match find_record(&held.records, &manifest.record_hash) {
            Some(record) => record,
            None => {
                return Err(ShareFault::Share(ShareError::ManifestMismatch));
            },
        };
        match manifest.verify_record(token, record) {
            Ok(()) => {},
            Err(error) => {
                return Err(ShareFault::Share(error));
            },
        }
        if !lists_all(&manifest.manifest.chunks, hashes) {
            return Err(ShareFault::Share(ShareError::ManifestMismatch));
        }
        Ok(())
    }

    /// Issues a grant under a given nonce. Both ends are checked, and what is asked for against
    /// the snapshot that the owner has kept. A provider other than the owner needs a fresh
    /// heartbeat.
    pub fn issue_swarm_grant_with(
        &mut self,
        owner_key: &SecretKey,
        consumer: EndpointId,
        provider: EndpointId,
        snapshot: &SnapshotToken,
        manifest: &ManifestAttestation,
        hashes: &[Hash32],
        nonce: GrantNonce,
        now: u64,
    ) -> (result: Result<ShareGrant, ShareFault>)
        requires
            old(self).wf(),
        ensures
            final(self).wf(),
            grants(
                old(self)@,
                final(self)@,
                result,
                owner_key@,
                consumer,
                provider,
                *snapshot,
                manifest@,
                hashes@,
                nonce,
                now,
            ),
    {
        match self.observe_authority_clock(now) {
            Ok(()) => {},
            Err(error) => {
                return Err(ShareFault::Share(error));
            },
        }
        self.gc_authority(now);
        let owner = owner_key.public();
        match self.check_asking(&owner, snapshot, manifest, hashes, now) {
            Ok(()) => {},
            Err(fault) => {
                return Err(fault);
            },
        }
        let epochs = match self.check_ends(&owner, snapshot, &consumer, &provider, now) {
            Ok(epochs) => epochs,
            Err(error) => {
                return Err(ShareFault::Share(error));
            },
        };
        let request = match request_hash(
            snapshot.share,
            snapshot.snapshot,
            manifest.manifest_hash,
            hashes,
        ) {
            Ok(request) => request,
            Err(error) => {
                return Err(ShareFault::Share(error));
            },
        };
        proof {
            lemma_hash_with(request);
        }
        let grant = match ShareGrant::sign(
            owner_key,
            snapshot.share,
            consumer,
            provider,
            epochs.0,
            epochs.1,
            snapshot.snapshot,
            manifest.manifest_hash,
            request,
            nonce,
            now,
        ) {
            Ok(grant) => grant,
            Err(error) => {
                return Err(ShareFault::Share(error));
            },
        };
        let row = GrantRow {
            grant,
            state: GrantState::Issued,
            activation_id: None,
            activation_deadline: None,
            revoked: false,
        };
        match self.ensure_authority_capacity(row.size()) {
            Ok(()) => {},
            Err(error) => {
                return Err(ShareFault::Share(error));
            },
        }
        if self.read_grant(&nonce).is_some() {
            return Err(ShareFault::Share(ShareError::GrantReplay));
        }
        self.write_grant_and_drain(row, GrantDrainState::default());
        Ok(grant)
    }

    /// Issues a grant under a fresh random nonce.
    pub fn issue_swarm_grant(
        &mut self,
        owner_key: &SecretKey,
        consumer: EndpointId,
        provider: EndpointId,
        snapshot: &SnapshotToken,
        manifest: &ManifestAttestation,
        hashes: &[Hash32],
        now: u64,
    ) -> (result: Result<ShareGrant, ShareFault>)
        requires
            old(self).wf(),
        ensures
            final(self).wf(),
            exists|nonce: GrantNonce| #[trigger]
                grants(
                    old(self)@,
                    final(self)@,
                    result,
                    owner_key@,
                    consumer,
                    provider,
                    *snapshot,
                    manifest@,
                    hashes@,
                    nonce,
                    now,
                ),
    {
        let nonce = random_nonce();
        let result = self.issue_swarm_grant_with(
            owner_key,
            consumer,
            provider,
            snapshot,
            manifest,
            hashes,
            nonce,
            now,
        );
        assert(grants(
            old(self)@,
            self@,
            result,
            owner_key@,
            consumer,
            provider,
            *snapshot,
            manifest@,
            hashes@,
            nonce,
            now,
        ));
        result
    }
}

} // verus!
