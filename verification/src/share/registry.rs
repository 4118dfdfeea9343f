//! The owner's registry: the catalog, the journals of what was granted, and the clock that guards
//! them.
use vstd::prelude::*;

use crate::hash::{blake3_digest, same_array, ReplicaId};
use crate::share::authority::{
    AuthoritativeSnapshot, ClientIntentPhase, ClientIntentRow, MAX_CLOCK_SKEW_SECONDS,
};
use crate::share::catalog::{
    access_fault, claimed, enrols, invitation_of, is_its_own, is_member, issued_catalog,
    issuing_fault, law_new_member_has_its_own_replica, member_of, pair_key, replica_known,
    replicas_known, Catalog, CatalogView, Membership, CATALOG_VERSION,
};
use crate::share::catalog_size::catalog_fits;
use crate::share::error::ShareError;
use crate::share::identity::{
    random_bytes, EndpointId, GrantNonce, InvitationId, ShareId, SnapshotId,
};
use crate::share::roster::{saturated, RosterView, SignedRoster};
use crate::share::rows::{
    undrained, ApplyRow, ApplyState, ChallengeRow, ClockAnchor, DeadlineRow, DrainRow,
    GrantDrainState, GrantRow, GrantState, HeartbeatChallenge,
};
use crate::share::ticket::{ticket_fault, ticket_message, LegacyProof, ShareTicket, SignedTicket};
use crate::table::{
    ascending, change_all, filtered, find, holds, in_order, keep_by, keep_marked, lemma_listing,
    lemma_rank_unique, lemma_table_empty, lemma_table_size, lemma_view_filtered, lemma_view_take,
    listing, put, table, take, total, total_size, view_table, Change, Choice, Keyed,
};

verus! {

/// The most snapshots, grants and applies in the journals.
pub const MAX_AUTHORITY_ROWS: usize = 4096;

/// The most bytes of snapshots, grants and applies in the journals.
pub const MAX_AUTHORITY_BYTES: usize = 16_777_216;

/// How long a row that is over stays in the journal.
pub const AUTHORITY_RETENTION_SECONDS: u64 = 3600;

/// The version of the clock anchor.
pub const CLOCK_VERSION: u8 = 1;

/// What an owner keeps over restarts.
#[derive(Debug)]
pub struct StoredRegistry {
    pub catalog: Catalog,
    pub rosters: Vec<SignedRoster>,
    pub challenges: Vec<ChallengeRow>,
    pub snapshots: Vec<AuthoritativeSnapshot>,
    pub grants: Vec<GrantRow>,
    pub drains: Vec<DrainRow>,
    pub applies: Vec<ApplyRow>,
    pub intents: Vec<ClientIntentRow>,
    pub clock: Option<ClockAnchor>,
}

impl StoredRegistry {
    /// Every table is in order and the catalog is within its size.
    pub open spec fn wf(&self) -> bool {
        &&& self.catalog.wf()
        &&& ascending(self.rosters@)
        &&& ascending(self.challenges@)
        &&& ascending(self.snapshots@)
        &&& ascending(self.grants@)
        &&& ascending(self.drains@)
        &&& ascending(self.applies@)
        &&& ascending(self.intents@)
    }

    /// What a device without any shares keeps.
    pub fn new(owner: EndpointId) -> (stored: Self)
        ensures
            stored.wf(),
            stored.catalog@ == (CatalogView {
                version: CATALOG_VERSION,
                owner,
                shares: Map::empty(),
                relationships: Map::empty(),
            }),
            stored.rosters@.len() == 0,
            stored.challenges@.len() == 0,
            stored.snapshots@.len() == 0,
            stored.grants@.len() == 0,
            stored.drains@.len() == 0,
            stored.applies@.len() == 0,
            stored.intents@.len() == 0,
            stored.clock is None,
    {
        StoredRegistry {
            catalog: Catalog::new(owner),
            rosters: Vec::new(),
            challenges: Vec::new(),
            snapshots: Vec::new(),
            grants: Vec::new(),
            drains: Vec::new(),
            applies: Vec::new(),
            intents: Vec::new(),
            clock: None,
        }
    }

    /// Whether every table is in order and the catalog is within its size.
    pub fn is_valid(&self) -> (holds: bool)
        ensures
            holds == self.wf(),
    {
        self.catalog.is_ordered() && self.catalog.fits() && in_order(&self.rosters) && in_order(&self.challenges)
            && in_order(&self.snapshots) && in_order(&self.grants) && in_order(&self.drains)
            && in_order(&self.applies) && in_order(&self.intents)
    }
}

/// The registry of a running owner.
#[derive(Debug)]
pub struct Registry {
    pub catalog: Catalog,
    pub rosters: Vec<SignedRoster>,
    pub challenges: Vec<ChallengeRow>,
    pub snapshots: Vec<AuthoritativeSnapshot>,
    pub grants: Vec<GrantRow>,
    pub drains: Vec<DrainRow>,
    pub applies: Vec<ApplyRow>,
    pub intents: Vec<ClientIntentRow>,
    pub clock: ClockAnchor,
    /// When the activations of this process end, on a clock that no one sets back.
    pub deadlines: Vec<DeadlineRow>,
    /// The identity of this process.
    pub boot_id: [u8; 16],
}

/// What a registry says.
#[verifier::ext_equal]
pub struct RegistryView {
    pub catalog: CatalogView,
    pub rosters: Map<Seq<u8>, RosterView>,
    pub challenges: Map<Seq<u8>, HeartbeatChallenge>,
    pub snapshots: Map<Seq<u8>, AuthoritativeSnapshot>,
    pub grants: Map<Seq<u8>, GrantRow>,
    pub drains: Map<Seq<u8>, DrainRow>,
    pub applies: Map<Seq<u8>, ApplyRow>,
    pub intents: Map<Seq<u8>, ClientIntentRow>,
    pub clock: ClockAnchor,
    pub deadlines: Map<Seq<u8>, DeadlineRow>,
    pub boot_id: [u8; 16],
}

impl View for Registry {
    type V = RegistryView;

    open spec fn view(&self) -> RegistryView {
        RegistryView {
            catalog: self.catalog@,
            rosters: view_table(self.rosters@),
            challenges: view_table(self.challenges@),
            snapshots: table(self.snapshots@),
            grants: table(self.grants@),
            drains: table(self.drains@),
            applies: table(self.applies@),
            intents: table(self.intents@),
            clock: self.clock,
            deadlines: table(self.deadlines@),
            boot_id: self.boot_id,
        }
    }
}

impl Registry {
    /// Every table is in order and the catalog is within its size.
    pub open spec fn wf(&self) -> bool {
        self.ordered() && catalog_fits(self@.catalog)
    }

    /// Whether the catalog is within its size, so that requests are served.
    pub fn is_available(&self) -> (available: bool)
        requires
            self.ordered(),
        ensures
            available == self.wf(),
    {
        self.catalog.fits()
    }

    /// Every table is in order.
    pub open spec fn ordered(&self) -> bool {
        &&& self.catalog.ordered()
        &&& ascending(self.rosters@)
        &&& ascending(self.challenges@)
        &&& ascending(self.snapshots@)
        &&& ascending(self.grants@)
        &&& ascending(self.drains@)
        &&& ascending(self.applies@)
        &&& ascending(self.intents@)
        &&& ascending(self.deadlines@)
    }
}

/// The anchor is for a later time than a clock can honestly show, or was so before.
pub open spec fn rolled_back(clock: ClockAnchor, wall: u64) -> bool {
    clock.quarantined || saturated(wall, MAX_CLOCK_SKEW_SECONDS) < clock.last_wall
}

/// Why nothing is granted at a time.
pub open spec fn clock_fault(clock: ClockAnchor, wall: u64) -> Option<ShareError> {
    if clock.version != CLOCK_VERSION {
        Some(ShareError::StateUnavailable)
    } else if rolled_back(clock, wall) {
        Some(ShareError::ClockRollback)
    } else {
        None
    }
}

/// The anchor once a time was seen: quarantined for good if it went back, moved on otherwise.
pub open spec fn seen(clock: ClockAnchor, wall: u64) -> ClockAnchor {
    if clock.version != CLOCK_VERSION {
        clock
    } else if rolled_back(clock, wall) {
        ClockAnchor { quarantined: true, ..clock }
    } else if wall > clock.last_wall {
        ClockAnchor { last_wall: wall, ..clock }
    } else {
        clock
    }
}

/// The registry once a time was seen.
pub open spec fn clocked(s: RegistryView, wall: u64) -> RegistryView {
    RegistryView { clock: seen(s.clock, wall), ..s }
}

/// The anchor that a process starts with.
pub open spec fn reopened_clock(
    previous: Option<ClockAnchor>,
    wall: u64,
    boot: [u8; 16],
) -> ClockAnchor {
    match previous {
        None => ClockAnchor { version: CLOCK_VERSION, last_wall: wall, boot, quarantined: false },
        Some(clock) => if saturated(wall, MAX_CLOCK_SKEW_SECONDS) < clock.last_wall {
            ClockAnchor { quarantined: true, boot, ..clock }
        } else if wall > clock.last_wall {
            ClockAnchor { last_wall: wall, boot, ..clock }
        } else {
            ClockAnchor { boot, ..clock }
        },
    }
}

/// A grant as it is found after a restart.
pub open spec fn restarted_grant(row: GrantRow) -> GrantRow {
    if row.state == GrantState::Active {
        GrantRow { state: GrantState::Restarted, ..row }
    } else {
        row
    }
}

/// An apply as it is found after a restart.
pub open spec fn restarted_apply(row: ApplyRow) -> ApplyRow {
    if row.state == ApplyState::Started {
        ApplyRow { state: ApplyState::Restarted, ..row }
    } else {
        row
    }
}

/// The intent has come to its end.
pub open spec fn intent_over(phase: ClientIntentPhase) -> bool {
    phase == ClientIntentPhase::Drained || phase == ClientIntentPhase::Cancelled
}

/// An intent as it is found after a restart: what was going on is unknown now, and what was over
/// gets a time from which it is kept.
pub open spec fn restarted_intent(row: ClientIntentRow, wall: u64, boot: [u8; 16]) -> ClientIntentRow {
    if row.boot_id != boot && !intent_over(row.phase) {
        ClientIntentRow { phase: ClientIntentPhase::Unknown, boot_id: boot, ..row }
    } else if intent_over(row.phase) && row.terminal_at_wall is None {
        ClientIntentRow { terminal_at_wall: Some(wall), ..row }
    } else {
        row
    }
}

/// The stored registry can be opened by a device.
pub open spec fn opens(stored: StoredRegistry, owner: EndpointId) -> bool {
    &&& stored.wf()
    &&& stored.clock is Some ==> stored.clock->0.version == CLOCK_VERSION
    &&& stored.catalog.version == CATALOG_VERSION
    &&& stored.catalog.owner == owner
}

/// What a registry says when it was just opened.
pub open spec fn opened(stored: StoredRegistry, wall: u64, boot: [u8; 16]) -> RegistryView {
    RegistryView {
        catalog: stored.catalog@,
        rosters: view_table(stored.rosters@),
        challenges: view_table(stored.challenges@),
        snapshots: table(stored.snapshots@),
        grants: table(stored.grants@).map_values(|row: GrantRow| restarted_grant(row)),
        drains: table(stored.drains@),
        applies: table(stored.applies@).map_values(|row: ApplyRow| restarted_apply(row)),
        intents: table(stored.intents@).map_values(
            |row: ClientIntentRow| restarted_intent(row, wall, boot),
        ),
        clock: reopened_clock(stored.clock, wall, boot),
        deadlines: Map::empty(),
        boot_id: boot,
    }
}

struct RestartGrants;

impl Change<GrantRow> for RestartGrants {
    closed spec fn changed(&self, item: GrantRow) -> GrantRow {
        restarted_grant(item)
    }

    fn change(&self, item: &GrantRow) -> (r: GrantRow) {
        let mut row = *item;
        if row.state == GrantState::Active {
            row.state = GrantState::Restarted;
        }
        row
    }
}

struct RestartApplies;

impl Change<ApplyRow> for RestartApplies {
    closed spec fn changed(&self, item: ApplyRow) -> ApplyRow {
        restarted_apply(item)
    }

    fn change(&self, item: &ApplyRow) -> (r: ApplyRow) {
        let mut row = *item;
        if row.state == ApplyState::Started {
            row.state = ApplyState::Restarted;
        }
        row
    }
}

struct RestartIntents {
    wall: u64,
    boot: [u8; 16],
}

impl Change<ClientIntentRow> for RestartIntents {
    closed spec fn changed(&self, item: ClientIntentRow) -> ClientIntentRow {
        restarted_intent(item, self.wall, self.boot)
    }

    fn change(&self, item: &ClientIntentRow) -> (r: ClientIntentRow) {
        let mut row = *item;
        let over = row.phase == ClientIntentPhase::Drained || row.phase
            == ClientIntentPhase::Cancelled;
        if !same_array(&row.boot_id, &self.boot) && !over {
            row.phase = ClientIntentPhase::Unknown;
            row.boot_id = self.boot;
        } else if over && row.terminal_at_wall.is_none() {
            row.terminal_at_wall = Some(self.wall);
        }
        row
    }
}

/// A new process can take the stored registry over.
pub open spec fn restarts(stored: StoredRegistry) -> bool {
    &&& ascending(stored.grants@)
    &&& ascending(stored.applies@)
    &&& ascending(stored.intents@)
    &&& stored.clock is Some ==> stored.clock->0.version == CLOCK_VERSION
}

/// What a new process has made of a stored registry.
pub open spec fn is_restarted(
    before: StoredRegistry,
    after: StoredRegistry,
    wall: u64,
    boot: [u8; 16],
) -> bool {
    &&& after == StoredRegistry {
        grants: after.grants,
        applies: after.applies,
        intents: after.intents,
        clock: Some(reopened_clock(before.clock, wall, boot)),
        ..before
    }
    &&& ascending(after.grants@)
    &&& ascending(after.applies@)
    &&& ascending(after.intents@)
    &&& table(after.grants@) == table(before.grants@).map_values(
        |row: GrantRow| restarted_grant(row),
    )
    &&& table(after.applies@) == table(before.applies@).map_values(
        |row: ApplyRow| restarted_apply(row),
    )
    &&& table(after.intents@) == table(before.intents@).map_values(
        |row: ClientIntentRow| restarted_intent(row, wall, boot),
    )
}

/// A stored registry that a process has taken over opens as it did before, to the same: taking it
/// over and opening it can be two steps, with what the first has changed written down between them.
pub proof fn law_restart_is_taken_once(
    before: StoredRegistry,
    after: StoredRegistry,
    owner: EndpointId,
    wall: u64,
    boot: [u8; 16],
)
    requires
        restarts(before),
        is_restarted(before, after, wall, boot),
    ensures
        opens(after, owner) == opens(before, owner),
        opened(after, wall, boot) == opened(before, wall, boot),
{
    let (x, y) = (opened(after, wall, boot), opened(before, wall, boot));
    assert(x.grants =~= y.grants);
    assert(x.applies =~= y.applies);
    assert(x.intents =~= y.intents);
    assert(x.clock == y.clock);
}

/// A fresh random identity of a process.
fn random_boot() -> [u8; 16] {
    let drawn = random_bytes();
    let mut boot = [0u8; 16];
    let mut i: usize = 0;
    while i < 16
        invariant
            i <= 16,
        decreases 16 - i,
    {
        boot[i] = drawn[i];
        i = i + 1;
    }
    boot
}

impl StoredRegistry {
    /// Takes over what an earlier process has left, as a process with a given identity: whatever
    /// was in flight is kept as an unknown that blocks, and the time is taken note of.
    pub fn restart_with(&mut self, wall: u64, boot: [u8; 16]) -> (result: Result<(), ShareError>)
        ensures
            match result {
                Ok(()) => restarts(*old(self)) && is_restarted(*old(self), *final(self), wall, boot),
                Err(error) => error == ShareError::StateUnavailable && !restarts(*old(self))
                    && *final(self) == *old(self),
            },
    {
        if !in_order(&self.grants) || !in_order(&self.applies) || !in_order(&self.intents) {
            return Err(ShareError::StateUnavailable);
        }
        let clock = match &self.clock {
            None => ClockAnchor {
                version: CLOCK_VERSION,
                last_wall: wall,
                boot,
                quarantined: false,
            },
            Some(previous) => {
                if previous.version != CLOCK_VERSION {
                    return Err(ShareError::StateUnavailable);
                }
                let mut clock = *previous;
                if wall.saturating_add(MAX_CLOCK_SKEW_SECONDS) < clock.last_wall {
                    clock.quarantined = true;
                } else if wall > clock.last_wall {
                    clock.last_wall = wall;
                }
                clock.boot = boot;
                clock
            },
        };
        self.clock = Some(clock);
        change_all(&mut self.grants, &RestartGrants);
        change_all(&mut self.applies, &RestartApplies);
        change_all(&mut self.intents, &RestartIntents { wall, boot });
        proof {
            assert(table(self.grants@) =~= table(old(self).grants@).map_values(
                |row: GrantRow| restarted_grant(row),
            ));
            assert(table(self.applies@) =~= table(old(self).applies@).map_values(
                |row: ApplyRow| restarted_apply(row),
            ));
            assert(table(self.intents@) =~= table(old(self).intents@).map_values(
                |row: ClientIntentRow| restarted_intent(row, wall, boot),
            ));
        }
        Ok(())
    }

    /// Takes over what an earlier process has left, as a process with a fresh random identity, and
    /// gives that. What is changed holds even where the registry is then not opened.
    pub fn restart(&mut self, wall: u64) -> (boot: Result<[u8; 16], ShareError>)
        ensures
            match boot {
                Ok(boot) => restarts(*old(self)) && is_restarted(
                    *old(self),
                    *final(self),
                    wall,
                    boot,
                ),
                Err(error) => error == ShareError::StateUnavailable && !restarts(*old(self))
                    && *final(self) == *old(self),
            },
    {
        let boot = random_boot();
        match self.restart_with(wall, boot) {
            Ok(()) => Ok(boot),
            Err(error) => Err(error),
        }
    }
}

impl Registry {
    /// Opens a stored registry at a time, as a process with a given identity. Whatever was in
    /// flight when the last process ended is kept as an unknown that blocks.
    pub fn open_with(
        stored: StoredRegistry,
        owner: EndpointId,
        wall: u64,
        boot: [u8; 16],
    ) -> (registry: Result<Self, ShareError>)
        ensures
            match registry {
                Ok(registry) => opens(stored, owner) && registry.wf() && registry@ == opened(
                    stored,
                    wall,
                    boot,
                ),
                Err(error) => !opens(stored, owner) && error == ShareError::StateUnavailable,
            },
    {
        let ghost image = stored;
        let mut stored = stored;
        match stored.restart_with(wall, boot) {
            Ok(()) => {},
            Err(error) => {
                return Err(error);
            },
        }
        if !stored.is_valid() || stored.catalog.version != CATALOG_VERSION
            || stored.catalog.owner != owner {
            return Err(ShareError::StateUnavailable);
        }
        let clock = match stored.clock {
            Some(clock) => clock,
            None => {
                return Err(ShareError::StateUnavailable);
            },
        };
        proof {
            lemma_table_empty::<DeadlineRow>();
        }
        let registry = Registry {
            catalog: stored.catalog,
            rosters: stored.rosters,
            challenges: stored.challenges,
            snapshots: stored.snapshots,
            grants: stored.grants,
            drains: stored.drains,
            applies: stored.applies,
            intents: stored.intents,
            clock,
            deadlines: Vec::new(),
            boot_id: boot,
        };
        proof {
            law_restart_is_taken_once(image, stored, owner, wall, boot);
            assert(registry@.grants =~= opened(image, wall, boot).grants);
            assert(registry@.applies =~= opened(image, wall, boot).applies);
            assert(registry@.intents =~= opened(image, wall, boot).intents);
        }
        Ok(registry)
    }

    /// Opens a stored registry at a time, as a process with a fresh random identity.
    pub fn open(stored: StoredRegistry, owner: EndpointId, wall: u64) -> (registry: Result<
        Self,
        ShareError,
    >)
        ensures
            match registry {
                Ok(registry) => opens(stored, owner) && registry.wf() && registry@ == opened(
                    stored,
                    wall,
                    registry.boot_id,
                ),
                Err(error) => !opens(stored, owner) && error == ShareError::StateUnavailable,
            },
    {
        let boot = random_boot();
        Registry::open_with(stored, owner, wall, boot)
    }

    /// What is kept over a restart.
    pub fn close(self) -> (stored: StoredRegistry)
        requires
            self.ordered(),
        ensures
            stored.wf() == self.wf(),
            stored.catalog@ == self@.catalog,
            stored.catalog.version == self.catalog.version,
            stored.catalog.owner == self.catalog.owner,
            view_table(stored.rosters@) == self@.rosters,
            view_table(stored.challenges@) == self@.challenges,
            table(stored.snapshots@) == self@.snapshots,
            table(stored.grants@) == self@.grants,
            table(stored.drains@) == self@.drains,
            table(stored.applies@) == self@.applies,
            table(stored.intents@) == self@.intents,
            stored.clock == Some(self@.clock),
    {
        StoredRegistry {
            catalog: self.catalog,
            rosters: self.rosters,
            challenges: self.challenges,
            snapshots: self.snapshots,
            grants: self.grants,
            drains: self.drains,
            applies: self.applies,
            intents: self.intents,
            clock: Some(self.clock),
        }
    }

    /// Takes note of a time. Once a time has gone back, nothing is granted any more; the catalog
    /// stays readable.
    pub fn observe_authority_clock(&mut self, wall: u64) -> (result: Result<(), ShareError>)
        ensures
            final(self)@ == clocked(old(self)@, wall),
            old(self).wf() ==> final(self).wf(),
            match result {
                Ok(()) => clock_fault(old(self)@.clock, wall) is None,
                Err(error) => clock_fault(old(self)@.clock, wall) == Some(error),
            },
    {
        if self.clock.version != CLOCK_VERSION {
            return Err(ShareError::StateUnavailable);
        }
        if self.clock.quarantined || wall.saturating_add(MAX_CLOCK_SKEW_SECONDS)
            < self.clock.last_wall {
            self.clock.quarantined = true;
            return Err(ShareError::ClockRollback);
        }
        if wall > self.clock.last_wall {
            self.clock.last_wall = wall;
        }
        Ok(())
    }
}

/// A grant that could still be activated expires with its lifetime.
pub open spec fn expired_grant(row: GrantRow, wall: u64) -> GrantRow {
    if row.state == GrantState::Issued && row.grant.expires_at <= wall {
        GrantRow { state: GrantState::Expired, ..row }
    } else {
        row
    }
}

/// An apply that could still be started expires with its lifetime.
pub open spec fn expired_apply(row: ApplyRow, wall: u64) -> ApplyRow {
    if row.state == ApplyState::Prepared && row.permit.expires_at <= wall {
        ApplyRow { state: ApplyState::Expired, ..row }
    } else {
        row
    }
}

/// Nothing can come of the grant any more.
pub open spec fn grant_over(state: GrantState) -> bool {
    state == GrantState::Drained || state == GrantState::Denied || state == GrantState::Expired
}

/// Nothing can come of the apply any more.
pub open spec fn apply_over(state: ApplyState) -> bool {
    state == ApplyState::Drained || state == ApplyState::Denied || state == ApplyState::Expired
}

/// The grant is over and has been kept for long enough.
pub open spec fn grant_gone(row: GrantRow, wall: u64) -> bool {
    grant_over(row.state) && saturated(row.grant.expires_at, AUTHORITY_RETENTION_SECONDS) <= wall
}

/// The apply is over and has been kept for long enough.
pub open spec fn apply_gone(row: ApplyRow, wall: u64) -> bool {
    apply_over(row.state) && saturated(row.permit.expires_at, AUTHORITY_RETENTION_SECONDS) <= wall
}

/// Some grant or apply in the journals is for the snapshot.
pub open spec fn referenced(s: RegistryView, snapshot: SnapshotId) -> bool {
    ||| exists|k: Seq<u8>|
        s.grants.contains_key(k) && (#[trigger] s.grants[k]).grant.snapshot == snapshot
    ||| exists|k: Seq<u8>|
        s.applies.contains_key(k) && (#[trigger] s.applies[k]).permit.snapshot == snapshot
}

/// The snapshot has been kept for long enough, and nothing refers to it.
pub open spec fn snapshot_gone(
    s: RegistryView,
    snapshot: AuthoritativeSnapshot,
    wall: u64,
) -> bool {
    saturated(snapshot.token.expires_at, AUTHORITY_RETENTION_SECONDS) <= wall && !referenced(
        s,
        snapshot.token.snapshot,
    )
}

/// The registry once what is over for long enough has been removed. What may still have a writer
/// stays, however old.
pub open spec fn swept(s: RegistryView, wall: u64) -> RegistryView {
    RegistryView {
        snapshots: filtered(
            s.snapshots,
            |row: AuthoritativeSnapshot| !snapshot_gone(s, row, wall),
        ),
        grants: filtered(
            s.grants.map_values(|row: GrantRow| expired_grant(row, wall)),
            |row: GrantRow| !grant_gone(row, wall),
        ),
        drains: filtered(
            s.drains,
            |row: DrainRow|
                !(s.grants.contains_key(row.nonce@) && grant_gone(
                    expired_grant(s.grants[row.nonce@], wall),
                    wall,
                )),
        ),
        applies: filtered(
            s.applies.map_values(|row: ApplyRow| expired_apply(row, wall)),
            |row: ApplyRow| !apply_gone(row, wall),
        ),
        ..s
    }
}

struct ExpireGrants {
    wall: u64,
}

impl Change<GrantRow> for ExpireGrants {
    closed spec fn changed(&self, item: GrantRow) -> GrantRow {
        expired_grant(item, self.wall)
    }

    fn change(&self, item: &GrantRow) -> (r: GrantRow) {
        let mut row = *item;
        if row.state == GrantState::Issued && row.grant.expires_at <= self.wall {
            row.state = GrantState::Expired;
        }
        row
    }
}

struct ExpireApplies {
    wall: u64,
}

impl Change<ApplyRow> for ExpireApplies {
    closed spec fn changed(&self, item: ApplyRow) -> ApplyRow {
        expired_apply(item, self.wall)
    }

    fn change(&self, item: &ApplyRow) -> (r: ApplyRow) {
        let mut row = *item;
        if row.state == ApplyState::Prepared && row.permit.expires_at <= self.wall {
            row.state = ApplyState::Expired;
        }
        row
    }
}

/// Whether a grant is over and has been kept for long enough.
fn is_grant_gone(row: &GrantRow, wall: u64) -> (gone: bool)
    ensures
        gone == grant_gone(*row, wall),
{
    (row.state == GrantState::Drained || row.state == GrantState::Denied || row.state
        == GrantState::Expired) && row.grant.expires_at.saturating_add(AUTHORITY_RETENTION_SECONDS)
        <= wall
}

struct LivingGrants {
    wall: u64,
}

impl Choice<GrantRow> for LivingGrants {
    closed spec fn keeps(&self, item: GrantRow) -> bool {
        !grant_gone(item, self.wall)
    }

    fn keep(&self, item: &GrantRow) -> (r: bool) {
        !is_grant_gone(item, self.wall)
    }
}

struct LivingApplies {
    wall: u64,
}

impl Choice<ApplyRow> for LivingApplies {
    closed spec fn keeps(&self, item: ApplyRow) -> bool {
        !apply_gone(item, self.wall)
    }

    fn keep(&self, item: &ApplyRow) -> (r: bool) {
        !((item.state == ApplyState::Drained || item.state == ApplyState::Denied || item.state
            == ApplyState::Expired) && item.permit.expires_at.saturating_add(
            AUTHORITY_RETENTION_SECONDS,
        ) <= self.wall)
    }
}

/// Whether some grant or apply is for the snapshot.
fn refers_to(grants: &Vec<GrantRow>, applies: &Vec<ApplyRow>, snapshot: &SnapshotId) -> (r: bool)
    requires
        ascending(grants@),
        ascending(applies@),
    ensures
        r == ((exists|k: Seq<u8>|
            table(grants@).contains_key(k) && (#[trigger] table(grants@)[k]).grant.snapshot
                == *snapshot) || (exists|k: Seq<u8>|
            table(applies@).contains_key(k) && (#[trigger] table(applies@)[k]).permit.snapshot
                == *snapshot)),
{
    let mut i: usize = 0;
    while i < grants.len()
        invariant
            i <= grants@.len(),
            ascending(grants@),
            forall|k: int| 0 <= k < i ==> (#[trigger] grants@[k]).grant.snapshot != *snapshot,
        decreases grants@.len() - i,
    {
        if same_array(&grants[i].grant.snapshot, snapshot) {
            proof {
                lemma_rank_unique(grants@, i as int);
                assert(table(grants@)[grants@[i as int].key()].grant.snapshot == *snapshot);
            }
            return true;
        }
        i = i + 1;
    }
    let mut j: usize = 0;
    while j < applies.len()
        invariant
            j <= applies@.len(),
            ascending(applies@),
            forall|k: int| 0 <= k < j ==> (#[trigger] applies@[k]).permit.snapshot != *snapshot,
        decreases applies@.len() - j,
    {
        if same_array(&applies[j].permit.snapshot, snapshot) {
            proof {
                lemma_rank_unique(applies@, j as int);
                assert(table(applies@)[applies@[j as int].key()].permit.snapshot == *snapshot);
            }
            return true;
        }
        j = j + 1;
    }
    false
}

/// Some row is for the snapshot.
spec fn rows_refer(
    grants: Map<Seq<u8>, GrantRow>,
    applies: Map<Seq<u8>, ApplyRow>,
    snapshot: SnapshotId,
) -> bool {
    ||| exists|k: Seq<u8>|
        grants.contains_key(k) && (#[trigger] grants[k]).grant.snapshot == snapshot
    ||| exists|k: Seq<u8>|
        applies.contains_key(k) && (#[trigger] applies[k]).permit.snapshot == snapshot
}

/// Whether a snapshot is kept, given the rows that may refer to it.
fn keeps_snapshot(
    grants: &Vec<GrantRow>,
    applies: &Vec<ApplyRow>,
    wall: u64,
    row: &AuthoritativeSnapshot,
) -> (keep: bool)
    requires
        ascending(grants@),
        ascending(applies@),
    ensures
        keep == !(saturated(row.token.expires_at, AUTHORITY_RETENTION_SECONDS) <= wall
            && !rows_refer(table(grants@), table(applies@), row.token.snapshot)),
{
    !(row.token.expires_at.saturating_add(AUTHORITY_RETENTION_SECONDS) <= wall && !refers_to(
        grants,
        applies,
        &row.token.snapshot,
    ))
}

/// The rows of a journal that say whether a sweep removes a grant's drain row.
fn keeps_drain(grants: &Vec<GrantRow>, wall: u64, row: &DrainRow) -> (keep: bool)
    requires
        ascending(grants@),
    ensures
        keep == !(table(grants@).contains_key(row.nonce@) && grant_gone(
            table(grants@)[row.nonce@],
            wall,
        )),
{
    match find(grants, row.nonce.as_slice()) {
        Some(grant) => !is_grant_gone(grant, wall),
        None => true,
    }
}

/// Expiring rows changes nothing of what refers to a snapshot.
proof fn lemma_expiry_keeps_references(s: RegistryView, wall: u64, snapshot: SnapshotId)
    ensures
        rows_refer(
            s.grants.map_values(|row: GrantRow| expired_grant(row, wall)),
            s.applies.map_values(|row: ApplyRow| expired_apply(row, wall)),
            snapshot,
        ) == referenced(s, snapshot),
{
    let grants = s.grants.map_values(|row: GrantRow| expired_grant(row, wall));
    let applies = s.applies.map_values(|row: ApplyRow| expired_apply(row, wall));
    if referenced(s, snapshot) {
        if exists|k: Seq<u8>|
            s.grants.contains_key(k) && (#[trigger] s.grants[k]).grant.snapshot == snapshot {
            let k = choose|k: Seq<u8>|
                s.grants.contains_key(k) && (#[trigger] s.grants[k]).grant.snapshot == snapshot;
            assert(grants.contains_key(k) && grants[k].grant.snapshot == snapshot);
        } else {
            let k = choose|k: Seq<u8>|
                s.applies.contains_key(k) && (#[trigger] s.applies[k]).permit.snapshot == snapshot;
            assert(applies.contains_key(k) && applies[k].permit.snapshot == snapshot);
        }
    }
    if rows_refer(grants, applies, snapshot) {
        if exists|k: Seq<u8>|
            grants.contains_key(k) && (#[trigger] grants[k]).grant.snapshot == snapshot {
            let k = choose|k: Seq<u8>|
                grants.contains_key(k) && (#[trigger] grants[k]).grant.snapshot == snapshot;
            assert(s.grants.contains_key(k) && s.grants[k].grant.snapshot == snapshot);
        } else {
            let k = choose|k: Seq<u8>|
                applies.contains_key(k) && (#[trigger] applies[k]).permit.snapshot == snapshot;
            assert(s.applies.contains_key(k) && s.applies[k].permit.snapshot == snapshot);
        }
    }
}

impl Registry {
    /// Which snapshots a sweep keeps.
    fn mark_snapshots(&self, wall: u64) -> (keep: Vec<bool>)
        requires
            self.wf(),
        ensures
            keep@.len() == self.snapshots@.len(),
            forall|i: int|
                0 <= i < keep@.len() ==> #[trigger] keep@[i] == !(saturated(
                    self.snapshots@[i].token.expires_at,
                    AUTHORITY_RETENTION_SECONDS,
                ) <= wall && !rows_refer(
                    self@.grants,
                    self@.applies,
                    self.snapshots@[i].token.snapshot,
                )),
    {
        let mut keep: Vec<bool> = Vec::new();
        let mut i: usize = 0;
        while i < self.snapshots.len()
            invariant
                i <= self.snapshots@.len(),
                self.wf(),
                keep@.len() == i,
                forall|k: int|
                    0 <= k < keep@.len() ==> #[trigger] keep@[k] == !(saturated(
                        self.snapshots@[k].token.expires_at,
                        AUTHORITY_RETENTION_SECONDS,
                    ) <= wall && !rows_refer(
                        self@.grants,
                        self@.applies,
                        self.snapshots@[k].token.snapshot,
                    )),
            decreases self.snapshots@.len() - i,
        {
            keep.push(keeps_snapshot(&self.grants, &self.applies, wall, &self.snapshots[i]));
            i = i + 1;
        }
        keep
    }

    /// Which drain rows a sweep keeps.
    fn mark_drains(&self, wall: u64) -> (keep: Vec<bool>)
        requires
            self.wf(),
        ensures
            keep@.len() == self.drains@.len(),
            forall|i: int|
                0 <= i < keep@.len() ==> #[trigger] keep@[i] == !(self@.grants.contains_key(
                    self.drains@[i].nonce@,
                ) && grant_gone(self@.grants[self.drains@[i].nonce@], wall)),
    {
        let mut keep: Vec<bool> = Vec::new();
        let mut i: usize = 0;
        while i < self.drains.len()
            invariant
                i <= self.drains@.len(),
                self.wf(),
                keep@.len() == i,
                forall|k: int|
                    0 <= k < keep@.len() ==> #[trigger] keep@[k] == !(self@.grants.contains_key(
                        self.drains@[k].nonce@,
                    ) && grant_gone(self@.grants[self.drains@[k].nonce@], wall)),
            decreases self.drains@.len() - i,
        {
            keep.push(keeps_drain(&self.grants, wall, &self.drains[i]));
            i = i + 1;
        }
        keep
    }

    /// Expires what was not used in time, and removes what is over for long enough. What is in
    /// flight, or was when a process ended, is never removed: that would make an unknown writer
    /// into a finished one.
    pub fn gc_authority(&mut self, wall: u64)
        requires
            old(self).wf(),
        ensures
            final(self).wf(),
            final(self)@ == swept(old(self)@, wall),
    {
        let ghost s = self@;
        change_all(&mut self.grants, &ExpireGrants { wall });
        change_all(&mut self.applies, &ExpireApplies { wall });
        proof {
            assert(self@.grants =~= s.grants.map_values(
                |row: GrantRow| expired_grant(row, wall),
            ));
            assert(self@.applies =~= s.applies.map_values(
                |row: ApplyRow| expired_apply(row, wall),
            ));
            assert forall|snapshot: SnapshotId| #[trigger] rows_refer(
                self@.grants,
                self@.applies,
                snapshot,
            ) == referenced(s, snapshot) by {
                lemma_expiry_keeps_references(s, wall, snapshot);
            }
        }
        let snapshots = self.mark_snapshots(wall);
        let drains = self.mark_drains(wall);
        let ghost living = |row: AuthoritativeSnapshot| !snapshot_gone(s, row, wall);
        let ghost left = |row: DrainRow|
            !(s.grants.contains_key(row.nonce@) && grant_gone(
                expired_grant(s.grants[row.nonce@], wall),
                wall,
            ));
        keep_marked(&mut self.snapshots, &snapshots, Ghost(living));
        keep_marked(&mut self.drains, &drains, Ghost(left));
        keep_by(&mut self.grants, &LivingGrants { wall });
        keep_by(&mut self.applies, &LivingApplies { wall });
        proof {
            let goal = swept(s, wall);
            assert(self@.snapshots =~= goal.snapshots);
            assert(self@.drains =~= goal.drains);
            assert(self@.grants =~= goal.grants);
            assert(self@.applies =~= goal.applies);
        }
    }
}

/// There is no room in the journals for one more row of a size.
pub open spec fn crowded(s: RegistryView, size: nat) -> bool {
    ||| s.snapshots.dom().len() + s.grants.dom().len() + s.applies.dom().len() + 1
        > MAX_AUTHORITY_ROWS
    ||| total(listing(s.snapshots)) + total(listing(s.grants)) + total(listing(s.applies)) + size
        > MAX_AUTHORITY_BYTES
}

impl Registry {
    /// Checks that there is room in the journals for one more row of a size.
    pub fn ensure_authority_capacity(&self, size: usize) -> (result: Result<(), ShareError>)
        requires
            self.wf(),
        ensures
            match result {
                Ok(()) => !crowded(self@, size as nat),
                Err(error) => crowded(self@, size as nat) && error == ShareError::Busy,
            },
    {
        proof {
            lemma_table_size(self.snapshots@);
            lemma_table_size(self.grants@);
            lemma_table_size(self.applies@);
            lemma_listing(self.snapshots@);
            lemma_listing(self.grants@);
            lemma_listing(self.applies@);
        }
        let rows = self.snapshots.len().saturating_add(self.grants.len()).saturating_add(
            self.applies.len(),
        );
        if rows >= MAX_AUTHORITY_ROWS {
            return Err(ShareError::Busy);
        }
        let bytes = total_size(&self.snapshots).saturating_add(
            total_size(&self.grants),
        ).saturating_add(total_size(&self.applies)).saturating_add(size);
        if bytes > MAX_AUTHORITY_BYTES {
            return Err(ShareError::Busy);
        }
        Ok(())
    }

    /// A grant in the journal.
    pub fn read_grant(&self, nonce: &GrantNonce) -> (row: Option<GrantRow>)
        requires
            self.wf(),
        ensures
            row == (if self@.grants.contains_key(nonce@) {
                Some(self@.grants[nonce@])
            } else {
                None
            }),
    {
        match find(&self.grants, nonce.as_slice()) {
            Some(row) => Some(*row),
            None => None,
        }
    }

    /// Which sides of a grant have stopped. A grant without a row has neither stopped.
    pub fn read_grant_drain(&self, nonce: &GrantNonce) -> (state: GrantDrainState)
        requires
            self.wf(),
        ensures
            state == drain_of(self@, *nonce),
    {
        match find(&self.drains, nonce.as_slice()) {
            Some(row) => row.state,
            None => GrantDrainState::default(),
        }
    }

    /// Writes a grant down, and which of its sides have stopped.
    pub fn write_grant_and_drain(&mut self, row: GrantRow, state: GrantDrainState)
        requires
            old(self).wf(),
        ensures
            final(self).wf(),
            final(self)@ == with_grant(old(self)@, row, state),
    {
        put(&mut self.grants, row);
        put(&mut self.drains, DrainRow { nonce: row.grant.nonce, state });
    }

    /// Writes a grant down, and leaves which of its sides have stopped as it is.
    pub fn write_grant(&mut self, row: GrantRow)
        requires
            old(self).wf(),
        ensures
            final(self).wf(),
            final(self)@ == with_grant(
                old(self)@,
                row,
                drain_of(old(self)@, row.grant.nonce),
            ),
    {
        let state = self.read_grant_drain(&row.grant.nonce);
        self.write_grant_and_drain(row, state);
    }

    /// An apply in the journal.
    pub fn read_apply(&self, nonce: &GrantNonce) -> (row: Option<ApplyRow>)
        requires
            self.wf(),
        ensures
            row == (if self@.applies.contains_key(nonce@) {
                Some(self@.applies[nonce@])
            } else {
                None
            }),
    {
        match find(&self.applies, nonce.as_slice()) {
            Some(row) => Some(*row),
            None => None,
        }
    }

    /// Writes an apply down.
    pub fn write_apply(&mut self, row: ApplyRow)
        requires
            old(self).wf(),
        ensures
            final(self).wf(),
            final(self)@ == with_apply(old(self)@, row),
    {
        put(&mut self.applies, row);
    }

    /// A snapshot in the journal.
    pub fn snapshot(&self, snapshot: &SnapshotId) -> (held: Option<&AuthoritativeSnapshot>)
        requires
            self.wf(),
        ensures
            held == (if self@.snapshots.contains_key(snapshot@) {
                Some(&self@.snapshots[snapshot@])
            } else {
                None
            }),
    {
        find(&self.snapshots, snapshot.as_slice())
    }
}

/// Which sides of a grant have stopped.
pub open spec fn drain_of(s: RegistryView, nonce: GrantNonce) -> GrantDrainState {
    if s.drains.contains_key(nonce@) {
        s.drains[nonce@].state
    } else {
        undrained()
    }
}

/// The registry with one grant written down.
pub open spec fn with_grant(s: RegistryView, row: GrantRow, state: GrantDrainState) -> RegistryView {
    RegistryView {
        grants: s.grants.insert(row.grant.nonce@, row),
        drains: s.drains.insert(
            row.grant.nonce@,
            DrainRow { nonce: row.grant.nonce, state },
        ),
        ..s
    }
}

/// The registry with one apply written down.
pub open spec fn with_apply(s: RegistryView, row: ApplyRow) -> RegistryView {
    RegistryView { applies: s.applies.insert(row.permit.nonce@, row), ..s }
}

/// The registry with another catalog.
pub open spec fn with_catalog(s: RegistryView, catalog: CatalogView) -> RegistryView {
    RegistryView { catalog, ..s }
}

/// Something may still come of a grant or an apply of the share.
pub open spec fn share_in_use(s: RegistryView, share: ShareId) -> bool {
    ||| exists|k: Seq<u8>|
        s.grants.contains_key(k) && (#[trigger] s.grants[k]).grant.share == share && !grant_over(
            s.grants[k].state,
        )
    ||| exists|k: Seq<u8>|
        s.applies.contains_key(k) && (#[trigger] s.applies[k]).permit.share == share
            && !apply_over(s.applies[k].state)
}

/// Why a share is not removed.
pub open spec fn removing_fault(s: RegistryView, share: ShareId) -> Option<ShareError> {
    if share_in_use(s, share) {
        Some(ShareError::RevocationPending)
    } else if !s.catalog.shares.contains_key(share@) {
        Some(ShareError::UnknownShare)
    } else {
        None
    }
}

/// The nonce is the one of a grant of the share.
pub open spec fn granted_in(s: RegistryView, share: ShareId, nonce: GrantNonce) -> bool {
    s.grants.contains_key(nonce@) && s.grants[nonce@].grant.share == share
}

/// The registry without a share and everything that is about it.
pub open spec fn without_share(s: RegistryView, share: ShareId) -> RegistryView {
    RegistryView {
        catalog: CatalogView {
            shares: s.catalog.shares.remove(share@),
            relationships: s.catalog.relationships.remove(pair_key(s.catalog.owner, share)),
            ..s.catalog
        },
        rosters: s.rosters.remove(share@),
        challenges: filtered(s.challenges, |row: HeartbeatChallenge| row.share != share),
        snapshots: filtered(s.snapshots, |row: AuthoritativeSnapshot| row.token.share != share),
        grants: filtered(s.grants, |row: GrantRow| row.grant.share != share),
        drains: filtered(s.drains, |row: DrainRow| !granted_in(s, share, row.nonce)),
        applies: filtered(s.applies, |row: ApplyRow| row.permit.share != share),
        deadlines: filtered(s.deadlines, |row: DeadlineRow| !granted_in(s, share, row.nonce)),
        ..s
    }
}

struct OtherShares {
    share: ShareId,
}

impl Choice<GrantRow> for OtherShares {
    closed spec fn keeps(&self, item: GrantRow) -> bool {
        item.grant.share != self.share
    }

    fn keep(&self, item: &GrantRow) -> (r: bool) {
        item.grant.share != self.share
    }
}

impl Choice<ApplyRow> for OtherShares {
    closed spec fn keeps(&self, item: ApplyRow) -> bool {
        item.permit.share != self.share
    }

    fn keep(&self, item: &ApplyRow) -> (r: bool) {
        item.permit.share != self.share
    }
}

impl Choice<AuthoritativeSnapshot> for OtherShares {
    closed spec fn keeps(&self, item: AuthoritativeSnapshot) -> bool {
        item.token.share != self.share
    }

    fn keep(&self, item: &AuthoritativeSnapshot) -> (r: bool) {
        item.token.share != self.share
    }
}

impl Choice<ChallengeRow> for OtherShares {
    closed spec fn keeps(&self, item: ChallengeRow) -> bool {
        item.challenge.share != self.share
    }

    fn keep(&self, item: &ChallengeRow) -> (r: bool) {
        item.challenge.share != self.share
    }
}

/// Whether a nonce is the one of a grant of the share.
fn is_granted_in(grants: &Vec<GrantRow>, share: &ShareId, nonce: &GrantNonce) -> (r: bool)
    requires
        ascending(grants@),
    ensures
        r == (table(grants@).contains_key(nonce@) && table(grants@)[nonce@].grant.share == *share),
{
    match find(grants, nonce.as_slice()) {
        Some(row) => row.grant.share == *share,
        None => false,
    }
}

impl Registry {
    /// Whether something may still come of a grant or an apply of the share.
    fn is_in_use(&self, share: &ShareId) -> (r: bool)
        requires
            self.wf(),
        ensures
            r == share_in_use(self@, *share),
    {
        let mut i: usize = 0;
        while i < self.grants.len()
            invariant
                i <= self.grants@.len(),
                self.wf(),
                forall|k: int|
                    0 <= k < i ==> (#[trigger] self.grants@[k]).grant.share != *share || grant_over(
                        self.grants@[k].state,
                    ),
            decreases self.grants@.len() - i,
        {
            let row = &self.grants[i];
            if row.grant.share == *share && (row.state == GrantState::Issued || row.state
                == GrantState::Active || row.state == GrantState::Restarted) {
                proof {
                    lemma_rank_unique(self.grants@, i as int);
                    assert(self@.grants[row.key()].grant.share == *share);
                }
                return true;
            }
            i = i + 1;
        }
        let mut j: usize = 0;
        while j < self.applies.len()
            invariant
                j <= self.applies@.len(),
                self.wf(),
                forall|k: int|
                    0 <= k < j ==> (#[trigger] self.applies@[k]).permit.share != *share
                        || apply_over(self.applies@[k].state),
            decreases self.applies@.len() - j,
        {
            let row = &self.applies[j];
            if row.permit.share == *share && (row.state == ApplyState::Prepared || row.state
                == ApplyState::Started || row.state == ApplyState::Restarted) {
                proof {
                    lemma_rank_unique(self.applies@, j as int);
                    assert(self@.applies[row.key()].permit.share == *share);
                }
                return true;
            }
            j = j + 1;
        }
        false
    }

    fn mark_other_drains(&self, share: &ShareId) -> (keep: Vec<bool>)
        requires
            self.wf(),
        ensures
            keep@.len() == self.drains@.len(),
            forall|i: int|
                0 <= i < keep@.len() ==> #[trigger] keep@[i] == !granted_in(
                    self@,
                    *share,
                    self.drains@[i].nonce,
                ),
    {
        let mut keep: Vec<bool> = Vec::new();
        let mut i: usize = 0;
        while i < self.drains.len()
            invariant
                i <= self.drains@.len(),
                self.wf(),
                keep@.len() == i,
                forall|k: int|
                    0 <= k < keep@.len() ==> #[trigger] keep@[k] == !granted_in(
                        self@,
                        *share,
                        self.drains@[k].nonce,
                    ),
            decreases self.drains@.len() - i,
        {
            keep.push(!is_granted_in(&self.grants, share, &self.drains[i].nonce));
            i = i + 1;
        }
        keep
    }

    fn mark_other_deadlines(&self, share: &ShareId) -> (keep: Vec<bool>)
        requires
            self.wf(),
        ensures
            keep@.len() == self.deadlines@.len(),
            forall|i: int|
                0 <= i < keep@.len() ==> #[trigger] keep@[i] == !granted_in(
                    self@,
                    *share,
                    self.deadlines@[i].nonce,
                ),
    {
        let mut keep: Vec<bool> = Vec::new();
        let mut i: usize = 0;
        while i < self.deadlines.len()
            invariant
                i <= self.deadlines@.len(),
                self.wf(),
                keep@.len() == i,
                forall|k: int|
                    0 <= k < keep@.len() ==> #[trigger] keep@[k] == !granted_in(
                        self@,
                        *share,
                        self.deadlines@[k].nonce,
                    ),
            decreases self.deadlines@.len() - i,
        {
            keep.push(!is_granted_in(&self.grants, share, &self.deadlines[i].nonce));
            i = i + 1;
        }
        keep
    }

    /// Removes a share and everything that is about it. A share of which something may still have
    /// a writer stays: forgetting it would make an unknown writer into a finished one.
    pub fn remove_share(&mut self, share: ShareId) -> (result: Result<(), ShareError>)
        requires
            old(self).wf(),
        ensures
            final(self).wf(),
            replicas_known(old(self)@.catalog) ==> replicas_known(final(self)@.catalog),
            match result {
                Ok(()) => removing_fault(old(self)@, share) is None && final(self)@
                    == without_share(old(self)@, share),
                Err(error) => removing_fault(old(self)@, share) == Some(error) && final(self)@
                    == old(self)@,
            },
    {
        if self.is_in_use(&share) {
            return Err(ShareError::RevocationPending);
        }
        let ghost s = self@;
        match self.catalog.remove_share(share) {
            Ok(()) => {},
            Err(error) => {
                return Err(error);
            },
        }
        let drains = self.mark_other_drains(&share);
        let deadlines = self.mark_other_deadlines(&share);
        let ghost other = |row: DrainRow| !granted_in(s, share, row.nonce);
        let ghost later = |row: DeadlineRow| !granted_in(s, share, row.nonce);
        keep_marked(&mut self.drains, &drains, Ghost(other));
        keep_marked(&mut self.deadlines, &deadlines, Ghost(later));
        let rule = OtherShares { share };
        let ghost rosters = self.rosters@;
        take(&mut self.rosters, share.0.as_slice());
        let ghost challenges = self.challenges@;
        keep_by(&mut self.challenges, &rule);
        keep_by(&mut self.snapshots, &rule);
        keep_by(&mut self.grants, &rule);
        keep_by(&mut self.applies, &rule);
        proof {
            lemma_view_take(rosters, share@, self.rosters@);
            lemma_view_filtered(
                challenges,
                |item: ChallengeRow| rule.keeps(item),
                self.challenges@,
                |row: HeartbeatChallenge| row.share != share,
            );
            let goal = without_share(s, share);
            assert(self@.snapshots =~= goal.snapshots);
            assert(self@.drains =~= goal.drains);
            assert(self@.deadlines =~= goal.deadlines);
            assert(self@.grants =~= goal.grants);
            assert(self@.applies =~= goal.applies);
            assert(self@.challenges =~= goal.challenges);
        }
        Ok(())
    }

    /// Issues a share key, as `issue_with_revocation` does with nothing to revoke.
    pub fn issue(&mut self, ticket: &ShareTicket, now: u64) -> (result: Result<(), ShareError>)
        requires
            old(self).wf(),
        ensures
            final(self).wf(),
            replicas_known(old(self)@.catalog) ==> replicas_known(final(self)@.catalog),
            issues_key(old(self)@, final(self)@, result, ticket@, None, now),
    {
        self.issue_with_revocation(ticket, None, now)
    }

    /// Issues a share key and, when it takes the place of another, revokes that one. Nothing is
    /// issued once the clock has gone back.
    pub fn issue_with_revocation(
        &mut self,
        ticket: &ShareTicket,
        revoke: Option<InvitationId>,
        now: u64,
    ) -> (result: Result<(), ShareError>)
        requires
            old(self).wf(),
        ensures
            final(self).wf(),
            replicas_known(old(self)@.catalog) ==> replicas_known(final(self)@.catalog),
            issues_key(old(self)@, final(self)@, result, ticket@, revoke, now),
    {
        match ticket.verify_at(now) {
            Ok(()) => {},
            Err(error) => {
                return Err(error);
            },
        }
        match self.observe_authority_clock(now) {
            Ok(()) => {},
            Err(error) => {
                return Err(error);
            },
        }
        self.catalog.issue_with_revocation(ticket, revoke, now)
    }

    /// Enrols a device that shows a share key.
    pub fn enroll(
        &mut self,
        ticket: &ShareTicket,
        peer: EndpointId,
        claim: Option<&LegacyProof>,
        now: u64,
    ) -> (result: Result<Membership, ShareError>)
        requires
            old(self).wf(),
        ensures
            final(self).wf(),
            replicas_known(old(self)@.catalog) ==> replicas_known(final(self)@.catalog),
            final(self)@ == with_catalog(old(self)@, final(self)@.catalog),
            exists|fresh: ReplicaId|
                !replica_known(old(self)@.catalog, ticket@.body.share_id, fresh)
                    && #[trigger] enrols(
                    old(self)@.catalog,
                    final(self)@.catalog,
                    result,
                    ticket@,
                    peer,
                    claimed(claim),
                    fresh,
                    now,
                ),
            replicas_known(old(self)@.catalog) && !is_member(
                old(self)@.catalog,
                ticket@.body.share_id,
                peer,
            ) && result is Ok ==> is_its_own(
                old(self)@.catalog.shares[ticket@.body.share_id@],
                result->Ok_0.replica,
            ),
    {
        let fresh = self.catalog.draw_replica(&ticket.body.share_id);
        let result = self.catalog.enroll_with(ticket, peer, claim, fresh, now);
        assert(enrols(
            old(self)@.catalog,
            self@.catalog,
            result,
            ticket@,
            peer,
            claimed(claim),
            fresh,
            now,
        ));
        proof {
            if replicas_known(old(self)@.catalog) && result is Ok {
                law_new_member_has_its_own_replica(
                    old(self)@.catalog,
                    self@.catalog,
                    result->Ok_0,
                    ticket@,
                    peer,
                    claimed(claim),
                    fresh,
                    now,
                );
            }
        }
        result
    }

    /// Checks that a device may use a share, and gives its membership.
    pub fn authorize(&self, share: ShareId, peer: EndpointId, write: bool) -> (member: Result<
        Membership,
        ShareError,
    >)
        requires
            self.wf(),
        ensures
            match member {
                Ok(member) => access_fault(self@.catalog, share, peer, write) is None && member
                    == member_of(self@.catalog, share, peer),
                Err(error) => access_fault(self@.catalog, share, peer, write) == Some(error),
            },
    {
        self.catalog.authorize(share, peer, write)
    }
}

/// Why a share key is not issued, and an older one not revoked with it.
pub open spec fn key_fault(
    s: RegistryView,
    ticket: SignedTicket,
    revoke: Option<InvitationId>,
    now: u64,
) -> Option<ShareError> {
    if ticket_fault(ticket, now) is Some {
        ticket_fault(ticket, now)
    } else if clock_fault(s.clock, now) is Some {
        clock_fault(s.clock, now)
    } else {
        issuing_fault(s.catalog, ticket, revoke, now)
    }
}

/// What issuing a share key comes to.
pub open spec fn issues_key(
    before: RegistryView,
    after: RegistryView,
    result: Result<(), ShareError>,
    ticket: SignedTicket,
    revoke: Option<InvitationId>,
    now: u64,
) -> bool {
    match result {
        Err(error) => key_fault(before, ticket, revoke, now) == Some(error) && after
            == (if ticket_fault(ticket, now) is Some {
            before
        } else {
            clocked(before, now)
        }),
        Ok(()) => key_fault(before, ticket, revoke, now) is None && after == with_catalog(
            clocked(before, now),
            issued_catalog(before.catalog, ticket, revoke, now),
        ) && invitation_of(ticket).digest@ == blake3_digest(ticket_message(ticket.body)),
    }
}

} // verus!
