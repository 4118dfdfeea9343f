//! What an owner does with its own share.
use vstd::prelude::*;

use crate::hash::{Hash32, ReplicaId};
use crate::merkle::views;
use crate::record::{RecordView, SyncRecord};
use crate::share::catalog::{
    fresh_share, inserting_fault, knowing, member_of, remembering_fault, replica_set,
    replicas_known,     revocation_fault, revoked_member, unissued_catalog, unissuing_fault, with_member, with_share,
    ConfigView, Invitation, Membership, OwnedShareConfig,
};
use crate::share::causal::{
    check_authorization, continuing_fault, entries_of, refresh_fails, refreshed_ceilings,
    state_bytes, state_fits, taken_in, version_allowed, CausalState, CausalView, MutationProvenance,
    MAX_STATE_BYTES,
};
use crate::share::error::ShareError;
use crate::share::identity::{
    random_bytes, EndpointAddr, EndpointId, InvitationId, Permission, SecretKey, ShareId,
};
use crate::share::registry::{issues_key, with_catalog, Registry, RegistryView};
use crate::share::ticket::{check_name, issued_body, issues, name_allowed, ShareTicket, TicketView};
use crate::table::{ascending, find, table};
use crate::version::{counters, VersionEntry};

verus! {

/// The replica of a share that is set up: the one that the folder was indexed under, or else the
/// one that is asked for, or else a fresh one.
pub open spec fn chosen_replica(
    requested: Option<ReplicaId>,
    retained: Option<ReplicaId>,
    fresh: ReplicaId,
) -> ReplicaId {
    match (retained, requested) {
        (Some(retained), _) => retained,
        (None, Some(requested)) => requested,
        (None, None) => fresh,
    }
}

/// Why a share is not set up.
pub open spec fn creating_fault(
    s: RegistryView,
    config: ConfigView,
    requested: Option<ReplicaId>,
    retained: Option<ReplicaId>,
) -> Option<ShareError> {
    if !name_allowed(config.name) {
        Some(ShareError::InvalidTicket)
    } else if requested is Some && retained is Some && requested != retained {
        Some(ShareError::ReplicaClaimRejected)
    } else {
        inserting_fault(s.catalog, config, Seq::<ReplicaId>::empty())
    }
}

/// What setting a share up comes to.
pub open spec fn creates(
    before: RegistryView,
    after: RegistryView,
    result: Result<ConfigView, ShareError>,
    config: ConfigView,
    requested: Option<ReplicaId>,
    retained: Option<ReplicaId>,
) -> bool {
    match creating_fault(before, config, requested, retained) {
        Some(error) => result == Err::<ConfigView, ShareError>(error) && after == before,
        None => result == Ok::<ConfigView, ShareError>(config) && after == with_catalog(
            before,
            with_share(
                before.catalog,
                config.share_id,
                fresh_share(config, Seq::<ReplicaId>::empty()),
            ),
        ),
    }
}

/// The configuration of a share that is set up.
pub open spec fn new_config(
    owner: EndpointId,
    name: Seq<char>,
    root: Seq<char>,
    state_root: Seq<char>,
    requested: Option<ReplicaId>,
    retained: Option<ReplicaId>,
    min_free_space_bytes: u64,
    share_id: ShareId,
    fresh: ReplicaId,
) -> ConfigView {
    ConfigView {
        share_id,
        owner,
        name,
        root,
        state_root,
        replica: chosen_replica(requested, retained, fresh),
        min_free_space_bytes,
    }
}

/// What was set up, as it is said.
pub open spec fn said(result: Result<OwnedShareConfig, ShareError>) -> Result<
    ConfigView,
    ShareError,
> {
    match result {
        Ok(config) => Ok(config@),
        Err(error) => Err(error),
    }
}

/// Sets a share up under given identities. A folder that was indexed before keeps its replica.
pub fn create_owned_share_with(
    registry: &mut Registry,
    owner: EndpointId,
    name: String,
    root: String,
    state_root: String,
    requested: Option<ReplicaId>,
    retained: Option<ReplicaId>,
    min_free_space_bytes: u64,
    share_id: ShareId,
    fresh: ReplicaId,
) -> (config: Result<OwnedShareConfig, ShareError>)
    requires
        old(registry).wf(),
    ensures
        final(registry).wf(),
        replicas_known(old(registry)@.catalog) ==> replicas_known(final(registry)@.catalog),
        creates(
            old(registry)@,
            final(registry)@,
            said(config),
            new_config(
                owner,
                name@,
                root@,
                state_root@,
                requested,
                retained,
                min_free_space_bytes,
                share_id,
                fresh,
            ),
            requested,
            retained,
        ),
{
    if !check_name(name.as_str()) {
        return Err(ShareError::InvalidTicket);
    }
    let replica = match retained {
        Some(retained) => {
            match requested {
                Some(requested) => {
                    if requested != retained {
                        return Err(ShareError::ReplicaClaimRejected);
                    }
                },
                None => {},
            }
            retained
        },
        None => match requested {
            Some(requested) => requested,
            None => fresh,
        },
    };
    let config = OwnedShareConfig {
        share_id,
        owner,
        name,
        root,
        state_root,
        replica,
        min_free_space_bytes,
    };
    let kept = config.clone();
    match registry.catalog.insert_share(kept, Vec::new()) {
        Ok(()) => Ok(config),
        Err(error) => Err(error),
    }
}

/// Sets a share up.
pub fn create_owned_share(
    registry: &mut Registry,
    owner: EndpointId,
    name: String,
    root: String,
    state_root: String,
    requested: Option<ReplicaId>,
    retained: Option<ReplicaId>,
    min_free_space_bytes: u64,
) -> (config: Result<OwnedShareConfig, ShareError>)
    requires
        old(registry).wf(),
    ensures
        final(registry).wf(),
        replicas_known(old(registry)@.catalog) ==> replicas_known(final(registry)@.catalog),
        exists|share_id: ShareId, fresh: ReplicaId|
            creates(
                old(registry)@,
                final(registry)@,
                said(config),
                #[trigger] new_config(
                    owner,
                    name@,
                    root@,
                    state_root@,
                    requested,
                    retained,
                    min_free_space_bytes,
                    share_id,
                    fresh,
                ),
                requested,
                retained,
            ),
{
    let share_id = ShareId(random_bytes());
    let fresh = ReplicaId(Hash32 { bytes: random_bytes() });
    create_owned_share_with(
        registry,
        owner,
        name,
        root,
        state_root,
        requested,
        retained,
        min_free_space_bytes,
        share_id,
        fresh,
    )
}

/// What is found where a share keeps its files, when it is loaded.
#[derive(Clone, Copy, Debug, PartialEq, Eq, Structural)]
pub struct LoadedFiles {
    /// Whether the index and the metadata of the store are there before anything is opened.
    pub databases: bool,
    /// Whether the folder and the private place are where the configuration has them.
    pub in_place: bool,
    /// Whether the index holds the causal state of the share.
    pub causal_state: bool,
}

/// Checks that a share can be loaded. A share that was loaded before is never set up anew in place
/// of what is missing.
pub fn check_loading(ready: bool, files: LoadedFiles) -> (result: Result<(), ShareError>)
    ensures
        match result {
            Ok(()) => files.in_place && (ready ==> files.databases && files.causal_state),
            Err(error) => error == ShareError::StateUnavailable && !(files.in_place && (ready
                ==> files.databases && files.causal_state)),
        },
{
    if !files.in_place || (ready && !(files.databases && files.causal_state)) {
        return Err(ShareError::StateUnavailable);
    }
    Ok(())
}

/// An owner's hold on one of its shares.
pub struct OwnerShare {
    pub config: OwnedShareConfig,
    pub key: SecretKey,
    /// Whether the share takes requests.
    pub enabled: bool,
}

/// What issuing a key comes to, with the registry as it is and what is drawn.
pub open spec fn hands_out(
    before: RegistryView,
    after: RegistryView,
    result: Result<ShareTicket, ShareError>,
    secret: Seq<u8>,
    body: TicketView,
    now: u64,
) -> bool {
    exists|made: Result<ShareTicket, ShareError>, kept: Result<(), ShareError>| #[trigger]
        handed(before, after, result, made, kept, secret, body, now)
}

/// What issuing a key comes to, by its two steps: the key is made, and written down.
pub open spec fn handed(
    before: RegistryView,
    after: RegistryView,
    result: Result<ShareTicket, ShareError>,
    made: Result<ShareTicket, ShareError>,
    kept: Result<(), ShareError>,
    secret: Seq<u8>,
    body: TicketView,
    now: u64,
) -> bool {
    &&& issues(made, secret, body)
    &&& match made {
        Err(error) => result == Err::<ShareTicket, ShareError>(error) && after == before,
        Ok(ticket) => issues_key(before, after, kept, ticket@, None, now) && match kept {
            Ok(()) => result == Ok::<ShareTicket, ShareError>(ticket),
            Err(error) => result == Err::<ShareTicket, ShareError>(error),
        },
    }
}

/// The registry once a key is revoked.
pub open spec fn without_key(
    s: RegistryView,
    share: ShareId,
    id: InvitationId,
    now: u64,
) -> RegistryView {
    with_catalog(s, unissued_catalog(s.catalog, share, id, now))
}

impl OwnerShare {
    /// The body of a key that the owner issues.
    pub open spec fn body(
        &self,
        permission: Permission,
        expires_at: Option<u64>,
        address: EndpointAddr,
        now: u64,
        id: InvitationId,
        bearer: [u8; 32],
    ) -> TicketView {
        issued_body(
            self.key@,
            self.config.share_id,
            self.config.name@,
            permission,
            expires_at,
            address@,
            now,
            id,
            bearer,
        )
    }

    /// What the share was set up as.
    pub fn config(&self) -> (config: &OwnedShareConfig)
        ensures
            *config == self.config,
    {
        &self.config
    }

    /// Issues a share key. It is shown once: only its digest is kept.
    pub fn issue_key(
        &self,
        registry: &mut Registry,
        permission: Permission,
        expires_at: Option<u64>,
        address: EndpointAddr,
        now: u64,
    ) -> (ticket: Result<ShareTicket, ShareError>)
        requires
            old(registry).wf(),
        ensures
            final(registry).wf(),
            replicas_known(old(registry)@.catalog) ==> replicas_known(final(registry)@.catalog),
            if !self.enabled {
                ticket == Err::<ShareTicket, ShareError>(ShareError::Busy) && final(registry)@
                    == old(registry)@
            } else {
                exists|id: InvitationId, bearer: [u8; 32]|
                    hands_out(
                        old(registry)@,
                        final(registry)@,
                        ticket,
                        self.key@,
                        #[trigger] self.body(permission, expires_at, address, now, id, bearer),
                        now,
                    )
            },
    {
        if !self.enabled {
            return Err(ShareError::Busy);
        }
        let id = InvitationId(random_bytes());
        let bearer = random_bytes();
        let ghost body = self.body(permission, expires_at, address, now, id, bearer);
        let made = ShareTicket::issue_with(
            &self.key,
            self.config.share_id,
            self.config.name.clone(),
            permission,
            expires_at,
            address,
            now,
            id,
            bearer,
        );
        let ghost drawn = made;
        match made {
            Ok(ticket) => {
                let kept = registry.issue(&ticket, now);
                let result = match kept {
                    Ok(()) => Ok(ticket),
                    Err(error) => Err(error),
                };
                assert(handed(
                    old(registry)@,
                    registry@,
                    result,
                    drawn,
                    kept,
                    self.key@,
                    body,
                    now,
                ));
                result
            },
            Err(error) => {
                let result = Err(error);
                assert(handed(
                    old(registry)@,
                    registry@,
                    result,
                    drawn,
                    Ok(()),
                    self.key@,
                    body,
                    now,
                ));
                result
            },
        }
    }

    /// The keys that were issued, in the order of their identities.
    pub fn keys(&self, registry: &Registry) -> (keys: Result<Vec<Invitation>, ShareError>)
        requires
            registry.wf(),
        ensures
            match keys {
                Ok(keys) => registry@.catalog.shares.contains_key(self.config.share_id@)
                    && ascending(keys@) && table(keys@)
                    == registry@.catalog.shares[self.config.share_id@].invitations,
                Err(error) => error == ShareError::UnknownShare
                    && !registry@.catalog.shares.contains_key(self.config.share_id@),
            },
    {
        registry.catalog.invitations(self.config.share_id)
    }

    /// Revokes a key, unless it was before.
    pub fn revoke_key(&self, registry: &mut Registry, id: InvitationId, now: u64) -> (result:
        Result<(), ShareError>)
        requires
            old(registry).wf(),
        ensures
            final(registry).wf(),
            replicas_known(old(registry)@.catalog) ==> replicas_known(final(registry)@.catalog),
            ({
                let fault = unissuing_fault(
                    old(registry)@.catalog,
                    self.config.share_id,
                    id,
                    now,
                );
                match result {
                    Ok(()) => fault is None && final(registry)@ == without_key(
                        old(registry)@,
                        self.config.share_id,
                        id,
                        now,
                    ),
                    Err(error) => fault == Some(error) && final(registry)@ == old(registry)@,
                }
            }),
    {
        registry.catalog.revoke_key(self.config.share_id, id, now)
    }

    /// Revokes a key and issues another with the same permission. The old one stays revoked
    /// whatever comes of the new one.
    pub fn rotate_key(
        &self,
        registry: &mut Registry,
        id: InvitationId,
        expires_at: Option<u64>,
        address: EndpointAddr,
        now: u64,
    ) -> (ticket: Result<ShareTicket, ShareError>)
        requires
            old(registry).wf(),
        ensures
            final(registry).wf(),
            replicas_known(old(registry)@.catalog) ==> replicas_known(final(registry)@.catalog),
            ({
                let share = self.config.share_id;
                let permission = old(registry)@.catalog.shares[share@].invitations[id@].permission;
                let middle = without_key(old(registry)@, share, id, now);
                match unissuing_fault(old(registry)@.catalog, share, id, now) {
                    Some(error) => ticket == Err::<ShareTicket, ShareError>(error) && final(
                        registry)@ == old(registry)@,
                    None => if !self.enabled {
                        ticket == Err::<ShareTicket, ShareError>(ShareError::Busy) && final(
                            registry)@ == middle
                    } else {
                        exists|drawn: InvitationId, bearer: [u8; 32]|
                            hands_out(
                                middle,
                                final(registry)@,
                                ticket,
                                self.key@,
                                #[trigger] self.body(
                                    permission,
                                    expires_at,
                                    address,
                                    now,
                                    drawn,
                                    bearer,
                                ),
                                now,
                            )
                    },
                }
            }),
    {
        let keys = match self.keys(registry) {
            Ok(keys) => keys,
            Err(error) => {
                return Err(error);
            },
        };
        let permission = match find(&keys, id.0.as_slice()) {
            Some(old_key) => old_key.permission,
            None => {
                return Err(ShareError::InvalidTicket);
            },
        };
        match self.revoke_key(registry, id, now) {
            Ok(()) => {},
            Err(error) => {
                return Err(error);
            },
        }
        self.issue_key(registry, permission, expires_at, address, now)
    }

    /// The members, revoked ones too, in the order of their identities.
    pub fn members(&self, registry: &Registry) -> (members: Result<Vec<Membership>, ShareError>)
        requires
            registry.wf(),
        ensures
            match members {
                Ok(members) => registry@.catalog.shares.contains_key(self.config.share_id@)
                    && ascending(members@) && table(members@)
                    == registry@.catalog.shares[self.config.share_id@].members,
                Err(error) => error == ShareError::UnknownShare
                    && !registry@.catalog.shares.contains_key(self.config.share_id@),
            },
    {
        registry.catalog.members(self.config.share_id)
    }

    /// Writes down that a member is revoked. Its connections are closed after that.
    pub fn revoke_member(&self, registry: &mut Registry, peer: EndpointId, now: u64) -> (result:
        Result<(), ShareError>)
        requires
            old(registry).wf(),
        ensures
            final(registry).wf(),
            replicas_known(old(registry)@.catalog) ==> replicas_known(final(registry)@.catalog),
            ({
                let catalog = old(registry)@.catalog;
                let share = self.config.share_id;
                match result {
                    Ok(()) => revocation_fault(catalog, share, peer, now) is None && final(registry)@
                        == with_catalog(
                        old(registry)@,
                        with_member(
                            catalog,
                            share,
                            peer,
                            revoked_member(member_of(catalog, share, peer), now),
                        ),
                    ),
                    Err(error) => revocation_fault(catalog, share, peer, now) == Some(error) && final(
                        registry)@ == old(registry)@,
                }
            }),
    {
        match registry.catalog.revoke_member(self.config.share_id, peer, now) {
            Ok(_) => Ok(()),
            Err(error) => Err(error),
        }
    }

    /// Stops to take requests.
    pub fn pause(&mut self)
        ensures
            *final(self) == (OwnerShare { enabled: false, ..*old(self) }),
    {
        self.enabled = false;
    }

    /// Takes requests again.
    pub fn resume(&mut self)
        ensures
            *final(self) == (OwnerShare { enabled: true, ..*old(self) }),
    {
        self.enabled = true;
    }

    /// Who brought the latest changes.
    pub fn provenance<'a>(&self, state: &'a CausalState) -> (audit: Result<
        &'a Vec<MutationProvenance>,
        ShareError,
    >)
        ensures
            match audit {
                Ok(audit) => state_holds(*state, self.config) && *audit == state.audit,
                Err(error) => error == ShareError::StateUnavailable && !state_holds(
                    *state,
                    self.config,
                ),
            },
    {
        match state.check(&self.config) {
            Ok(()) => Ok(&state.audit),
            Err(error) => Err(error),
        }
    }
}

/// A state that was read is one of the share, in order and within its bounds.
pub open spec fn state_holds(state: CausalState, config: OwnedShareConfig) -> bool {
    state.wf() && state_fits(state@, config.share_id, config.replica)
}

/// The replicas that a share knows once records are seen.
pub open spec fn known_after(s: RegistryView, state: CausalView, records: Seq<RecordView>) -> Set<
    Seq<u8>,
> {
    s.catalog.shares[state.share@].known.union(refreshed_ceilings(state, records).dom())
}

/// Why the causal state is not brought up to date.
pub open spec fn refreshing_fault(
    s: RegistryView,
    config: OwnedShareConfig,
    state: CausalState,
    records: Seq<RecordView>,
) -> Option<ShareError> {
    if !state_holds(state, config) {
        Some(ShareError::StateUnavailable)
    } else if refresh_fails(state@, records) {
        Some(ShareError::InvalidRecord)
    } else {
        remembering_fault(s.catalog, config.share_id, known_after(s, state@, records))
    }
}

/// The causal state once records are seen.
pub open spec fn refreshed_state(state: CausalView, records: Seq<RecordView>) -> CausalView {
    CausalView { ceilings: refreshed_ceilings(state, records), ..state }
}

/// The registry once records are seen.
pub open spec fn with_known(s: RegistryView, state: CausalView, records: Seq<RecordView>) -> RegistryView {
    with_catalog(s, knowing(s.catalog, state.share, known_after(s, state, records)))
}

fn ceiling_replicas(entries: &Vec<VersionEntry>) -> (replicas: Vec<ReplicaId>)
    ensures
        replica_set(replicas@) == counters(entries@).dom(),
{
    let mut replicas: Vec<ReplicaId> = Vec::new();
    let mut i: usize = 0;
    while i < entries.len()
        invariant
            i <= entries@.len(),
            replicas@.len() == i,
            forall|k: int| 0 <= k < i ==> replicas@[k] == (#[trigger] entries@[k]).replica,
        decreases entries@.len() - i,
    {
        replicas.push(entries[i].replica);
        i = i + 1;
    }
    proof {
        assert forall|key: Seq<u8>| replica_set(replicas@).contains(key) == counters(
            entries@,
        ).dom().contains(key) by {
            if replica_set(replicas@).contains(key) {
                let k = choose|k: int| 0 <= k < replicas@.len() && #[trigger] replicas@[k]@ == key;
                assert(crate::table::Keyed::key(&entries@[k]) == key);
            }
            if counters(entries@).dom().contains(key) {
                let k = choose|k: int|
                    0 <= k < entries@.len() && #[trigger] crate::table::Keyed::key(&entries@[k])
                        == key;
                assert(replicas@[k]@ == key);
            }
        }
        assert(replica_set(replicas@) =~= counters(entries@).dom());
    }
    replicas
}

/// Takes note of the records of a share: how far every replica has come, and which there are.
pub fn refresh_causal_state(
    registry: &mut Registry,
    config: &OwnedShareConfig,
    state: &mut CausalState,
    records: &Vec<SyncRecord>,
) -> (result: Result<(), ShareError>)
    requires
        old(registry).wf(),
    ensures
        final(registry).wf(),
        replicas_known(old(registry)@.catalog) ==> replicas_known(final(registry)@.catalog),
        match refreshing_fault(old(registry)@, *config, *old(state), views(records@)) {
            Some(error) => result == Err::<(), ShareError>(error) && final(registry)@ == old(
                registry,
            )@ && *final(state) == *old(state),
            None => result is Ok && final(state).wf() && final(state)@ == refreshed_state(
                old(state)@,
                views(records@),
            ) && final(registry)@ == with_known(old(registry)@, old(state)@, views(records@)),
        },
{
    match state.check(config) {
        Ok(()) => {},
        Err(error) => {
            return Err(error);
        },
    }
    let refreshed = match state.clone().refresh(records) {
        Ok(refreshed) => refreshed,
        Err(error) => {
            return Err(error);
        },
    };
    let replicas = ceiling_replicas(&refreshed.ceilings);
    match registry.catalog.remember_replicas(config.share_id, replicas) {
        Ok(()) => {},
        Err(error) => {
            return Err(error);
        },
    }
    *state = refreshed;
    Ok(())
}

/// Why a record is not taken in, once the records of the share are seen.
pub open spec fn taking_fault(
    s: RegistryView,
    state: CausalView,
    member: Membership,
    record: RecordView,
    now: u64,
) -> Option<ShareError> {
    let next = taken_in(state, member, record, now);
    if version_allowed(state, member, s.catalog.shares[state.share@].known, record.version)
        && state_bytes(next, entries_of(next.ceilings)).len() <= MAX_STATE_BYTES {
        None
    } else {
        Some(ShareError::InvalidRecord)
    }
}

/// What bringing a record comes to.
pub open spec fn brings(
    before: RegistryView,
    after: RegistryView,
    result: Result<CausalView, ShareError>,
    config: OwnedShareConfig,
    held: CausalState,
    left: CausalState,
    enabled: bool,
    peer: EndpointId,
    epoch: u64,
    records: Seq<RecordView>,
    record: RecordView,
    now: u64,
) -> bool {
    let share = config.share_id;
    let member = member_of(before.catalog, share, peer);
    let state = refreshed_state(held@, records);
    let s = with_known(before, held@, records);
    let early = if continuing_fault(before.catalog, enabled, share, peer, epoch, true) is Some {
        continuing_fault(before.catalog, enabled, share, peer, epoch, true)
    } else {
        refreshing_fault(before, config, held, records)
    };
    match early {
        Some(error) => result == Err::<CausalView, ShareError>(error) && after == before && left
            == held,
        None => after == s && left.wf() && left@ == state && match taking_fault(
            s,
            state,
            member,
            record,
            now,
        ) {
            Some(error) => result == Err::<CausalView, ShareError>(error),
            None => result == Ok::<CausalView, ShareError>(taken_in(state, member, record, now)),
        },
    }
}

/// What a result says.
pub open spec fn state_said(result: Result<CausalState, ShareError>) -> Result<
    CausalView,
    ShareError,
> {
    match result {
        Ok(state) => Ok(state@),
        Err(error) => Err(error),
    }
}

/// Checks a record that a member brings against all that the share has seen, and gives the causal
/// state that goes with it. What was seen of the share's own records is kept in any case.
pub fn candidate_metadata(
    registry: &mut Registry,
    config: &OwnedShareConfig,
    state: &mut CausalState,
    enabled: bool,
    peer: EndpointId,
    epoch: u64,
    records: &Vec<SyncRecord>,
    record: &SyncRecord,
    now: u64,
) -> (next: Result<CausalState, ShareError>)
    requires
        old(registry).wf(),
    ensures
        final(registry).wf(),
        next is Ok ==> next->Ok_0.wf(),
        brings(
            old(registry)@,
            final(registry)@,
            state_said(next),
            *config,
            *old(state),
            *final(state),
            enabled,
            peer,
            epoch,
            views(records@),
            record@,
            now,
        ),
{
    let member = match check_authorization(
        registry,
        enabled,
        config.share_id,
        peer,
        epoch,
        true,
    ) {
        Ok(member) => member,
        Err(error) => {
            return Err(error);
        },
    };
    match refresh_causal_state(registry, config, state, records) {
        Ok(()) => {},
        Err(error) => {
            return Err(error);
        },
    }
    let known = match registry.catalog.known(config.share_id) {
        Ok(known) => known,
        Err(error) => {
            return Err(error);
        },
    };
    state.clone().take_in(&member, &known, record, now)
}

} // verus!
