//! What becomes of a grant: activation, cancellation, draining, and revocation of its members.
use vstd::prelude::*;

use crate::hash::lemma_array_view_injective;
use crate::share::authority::{
    activation_of, binding_of, grant_fault, is_id, signed_reply, ActivateGrantReply,
    ActivateGrantRequest, ActivationBinding, ActivationCancel, ActivationReceipt,
    ActivationStateView, ActivationStatusQuery, RevocationReceipt, ShareGrant,
    MAX_ACTIVATE_TTL_SECONDS,
};
use crate::share::catalog::{
    member_of, replicas_known, revoked_member, revoking_fault, with_member, Membership,
};
use crate::share::catalog_size::catalog_fits;
use crate::share::error::ShareError;
use crate::share::grants::{entry_of, roster_member};
use crate::share::identity::{public_id, EndpointId, GrantNonce, SecretKey, ShareId};
use crate::share::registry::{
    clock_fault, clocked, drain_of, grant_over, with_grant, Registry, RegistryView,
};
use crate::share::roster::{random_nonce, roster_fault_for, saturated};
use crate::share::rows::{ApplyRow, ApplyState, DeadlineRow, GrantDrainState, GrantRow, GrantState};
use crate::table::{
    change_all, find, lemma_listing, lemma_table_key, lemma_view_of, listing, put, take, Change,
};

verus! {

/// How long an activation holds, in nanoseconds.
pub const ACTIVATION_NANOS: u64 = 15_000_000_000;

/// Why an activation's two ends are not in order.
pub open spec fn activation_ends_fault(
    s: RegistryView,
    owner: EndpointId,
    request: ActivateGrantRequest,
    now: u64,
) -> Option<ShareError> {
    let share = request.share;
    let members = s.catalog.shares[share@].members;
    if s.catalog.owner != owner {
        Some(ShareError::OwnerMismatch)
    } else if !s.catalog.shares.contains_key(share@) {
        Some(ShareError::UnknownShare)
    } else if !members.contains_key(request.consumer@) {
        Some(ShareError::NotMember)
    } else if members[request.consumer@].revoked_at is Some {
        Some(ShareError::MemberRevoked)
    } else if members[request.consumer@].epoch != request.epoch {
        Some(ShareError::EpochMismatch)
    } else if request.provider == s.catalog.owner {
        if request.provider_epoch != 0 {
            Some(ShareError::EpochMismatch)
        } else {
            None
        }
    } else if !members.contains_key(request.provider@) {
        Some(ShareError::NotMember)
    } else if members[request.provider@].revoked_at is Some {
        Some(ShareError::MemberRevoked)
    } else if members[request.provider@].epoch != request.provider_epoch {
        Some(ShareError::EpochMismatch)
    } else if !s.rosters.contains_key(share@) {
        Some(ShareError::RosterStale)
    } else if roster_fault_for(s.rosters[share@], s.catalog.owner, share, now) is Some {
        roster_fault_for(s.rosters[share@], s.catalog.owner, share, now)
    } else {
        match entry_of(s.rosters[share@].entries, request.provider, 0) {
            None => Some(ShareError::RosterStale),
            Some(entry) => if entry.heartbeat_expires_at <= now || entry.member_epoch
                != members[request.provider@].epoch || entry.address.id != request.provider {
                Some(ShareError::RosterStale)
            } else {
                None
            },
        }
    }
}

/// Why a grant is not activated, the clock being in order.
pub open spec fn activating_fault(
    s: RegistryView,
    owner: EndpointId,
    request: ActivateGrantRequest,
    remote_peer: EndpointId,
    now: u64,
) -> Option<ShareError> {
    let row = s.grants[request.nonce@];
    if request.provider != remote_peer {
        Some(ShareError::EndpointMismatch)
    } else if !s.grants.contains_key(request.nonce@) || activation_of(row.grant) != request {
        Some(ShareError::GrantReplay)
    } else if row.revoked {
        Some(ShareError::MemberRevoked)
    } else {
        match row.state {
            GrantState::Issued => if grant_fault(row.grant, owner, request.share, now) is Some {
                grant_fault(row.grant, owner, request.share, now)
            } else {
                activation_ends_fault(s, owner, request, now)
            },
            GrantState::Active => Some(ShareError::GrantReplay),
            GrantState::Drained => Some(ShareError::GrantReplay),
            GrantState::Restarted => Some(ShareError::GrantReplay),
            GrantState::Denied => Some(ShareError::MemberRevoked),
            GrantState::Expired => Some(ShareError::GrantExpired),
        }
    }
}

/// A grant that was just activated.
pub open spec fn activated(row: GrantRow, activation_id: [u8; 16], now: u64) -> GrantRow {
    GrantRow {
        state: GrantState::Active,
        activation_id: Some(activation_id),
        activation_deadline: Some(saturated(now, MAX_ACTIVATE_TTL_SECONDS as u64)),
        ..row
    }
}

/// The request came longer ago than an activation holds.
pub open spec fn too_late(started: u64, moment: u64) -> bool {
    moment - started > ACTIVATION_NANOS
}

/// What asking for an activation comes to.
pub open spec fn activates(
    before: RegistryView,
    after: RegistryView,
    result: Result<ActivateGrantReply, ShareError>,
    secret: Seq<u8>,
    request: ActivateGrantRequest,
    remote_peer: EndpointId,
    started: u64,
    moment: u64,
    activation_id: [u8; 16],
    now: u64,
) -> bool {
    let s = clocked(before, now);
    let fault = activating_fault(s, public_id(secret), request, remote_peer, now);
    match result {
        Err(error) => if too_late(started, moment) {
            error == ShareError::GrantExpired && after == before
        } else if clock_fault(before.clock, now) is Some {
            clock_fault(before.clock, now) == Some(error) && after == s
        } else {
            fault == Some(error) && after == s
        },
        Ok(reply) => {
            &&& !too_late(started, moment)
            &&& clock_fault(before.clock, now) is None
            &&& fault is None
            &&& reply == signed_reply(
                secret,
                request.share,
                request.provider,
                request.nonce,
                activation_id,
                true,
                MAX_ACTIVATE_TTL_SECONDS,
            )
            &&& after == (RegistryView {
                deadlines: s.deadlines.insert(
                    request.nonce@,
                    DeadlineRow { nonce: request.nonce, at: saturated(started, ACTIVATION_NANOS) },
                ),
                ..with_grant(
                    s,
                    activated(s.grants[request.nonce@], activation_id, now),
                    drain_of(s, request.nonce),
                )
            })
        },
    }
}

impl Registry {
    fn check_activation_ends(
        &self,
        owner: &EndpointId,
        request: &ActivateGrantRequest,
        now: u64,
    ) -> (result: Result<(), ShareError>)
        requires
            self.wf(),
        ensures
            match result {
                Ok(()) => activation_ends_fault(self@, *owner, *request, now) is None,
                Err(error) => activation_ends_fault(self@, *owner, *request, now) == Some(error),
            },
    {
        if self.catalog.owner != *owner {
            return Err(ShareError::OwnerMismatch);
        }
        let consumer = match self.catalog.member(request.share, request.consumer) {
            Ok(member) => member,
            Err(error) => {
                return Err(error);
            },
        };
        if consumer.revoked_at.is_some() {
            return Err(ShareError::MemberRevoked);
        }
        if consumer.epoch != request.epoch {
            return Err(ShareError::EpochMismatch);
        }
        if request.provider == self.catalog.owner {
            if request.provider_epoch != 0 {
                return Err(ShareError::EpochMismatch);
            }
            return Ok(());
        }
        let provider = match self.catalog.member(request.share, request.provider) {
            Ok(member) => member,
            Err(error) => {
                return Err(error);
            },
        };
        if provider.revoked_at.is_some() {
            return Err(ShareError::MemberRevoked);
        }
        if provider.epoch != request.provider_epoch {
            return Err(ShareError::EpochMismatch);
        }
        proof {
            lemma_view_of(self.rosters@);
        }
        let roster = match find(&self.rosters, request.share.0.as_slice()) {
            Some(roster) => roster,
            None => {
                return Err(ShareError::RosterStale);
            },
        };
        assert(self@.rosters[request.share@] == roster@);
        match roster.verify_for(self.catalog.owner, request.share, now) {
            Ok(()) => {},
            Err(error) => {
                return Err(error);
            },
        }
        match roster_member(roster, &request.provider) {
            None => Err(ShareError::RosterStale),
            Some(entry) => if entry.heartbeat_expires_at <= now || entry.member_epoch
                != provider.epoch || entry.address.id != request.provider {
                Err(ShareError::RosterStale)
            } else {
                Ok(())
            },
        }
    }

    /// Activates a grant under a given identifier, for a request that came at a moment. A grant is
    /// activated at most once, and a request that has waited too long not at all.
    pub fn activate_grant_with(
        &mut self,
        owner_key: &SecretKey,
        request: &ActivateGrantRequest,
        remote_peer: EndpointId,
        started: u64,
        moment: u64,
        activation_id: [u8; 16],
        now: u64,
    ) -> (result: Result<ActivateGrantReply, ShareError>)
        requires
            old(self).wf(),
        ensures
            final(self).wf(),
            activates(
                old(self)@,
                final(self)@,
                result,
                owner_key@,
                *request,
                remote_peer,
                started,
                moment,
                activation_id,
                now,
            ),
    {
        if moment > started && moment - started > ACTIVATION_NANOS {
            return Err(ShareError::GrantExpired);
        }
        match self.observe_authority_clock(now) {
            Ok(()) => {},
            Err(error) => {
                return Err(error);
            },
        }
        if request.provider != remote_peer {
            return Err(ShareError::EndpointMismatch);
        }
        let mut row = match self.read_grant(&request.nonce) {
            Some(row) => row,
            None => {
                return Err(ShareError::GrantReplay);
            },
        };
        if !request.matches(&row.grant) {
            return Err(ShareError::GrantReplay);
        }
        if row.revoked {
            return Err(ShareError::MemberRevoked);
        }
        let owner = owner_key.public();
        match row.state {
            GrantState::Issued => match row.grant.verify_for(owner, request.share, now) {
                Ok(()) => {},
                Err(error) => {
                    return Err(error);
                },
            },
            GrantState::Active | GrantState::Drained | GrantState::Restarted => {
                return Err(ShareError::GrantReplay);
            },
            GrantState::Denied => {
                return Err(ShareError::MemberRevoked);
            },
            GrantState::Expired => {
                return Err(ShareError::GrantExpired);
            },
        }
        match self.check_activation_ends(&owner, request, now) {
            Ok(()) => {},
            Err(error) => {
                return Err(error);
            },
        }
        let reply = match ActivateGrantReply::sign(
            owner_key,
            request.share,
            request.provider,
            request.nonce,
            activation_id,
            true,
            MAX_ACTIVATE_TTL_SECONDS,
        ) {
            Ok(reply) => reply,
            Err(error) => {
                return Err(error);
            },
        };
        row.state = GrantState::Active;
        row.activation_id = Some(activation_id);
        row.activation_deadline = Some(now.saturating_add(MAX_ACTIVATE_TTL_SECONDS as u64));
        let drain = self.read_grant_drain(&request.nonce);
        assert(row.grant.nonce == request.nonce);
        put(
            &mut self.deadlines,
            DeadlineRow {
                nonce: request.nonce,
                at: started.saturating_add(ACTIVATION_NANOS),
            },
        );
        self.write_grant_and_drain(row, drain);
        Ok(reply)
    }

    /// Activates a grant under a fresh random identifier, for a request that came at a moment.
    pub fn activate_grant_at(
        &mut self,
        owner_key: &SecretKey,
        request: &ActivateGrantRequest,
        remote_peer: EndpointId,
        started: u64,
        moment: u64,
        now: u64,
    ) -> (result: Result<ActivateGrantReply, ShareError>)
        requires
            old(self).wf(),
        ensures
            final(self).wf(),
            exists|activation_id: [u8; 16]| #[trigger]
                activates(
                    old(self)@,
                    final(self)@,
                    result,
                    owner_key@,
                    *request,
                    remote_peer,
                    started,
                    moment,
                    activation_id,
                    now,
                ),
    {
        let drawn = random_nonce();
        let mut activation_id = [0u8; 16];
        let mut i: usize = 0;
        while i < 16
            invariant
                i <= 16,
                *self == *old(self),
                self.wf(),
            decreases 16 - i,
        {
            activation_id[i] = drawn[i];
            i = i + 1;
        }
        let result = self.activate_grant_with(
            owner_key,
            request,
            remote_peer,
            started,
            moment,
            activation_id,
            now,
        );
        assert(activates(
            old(self)@,
            self@,
            result,
            owner_key@,
            *request,
            remote_peer,
            started,
            moment,
            activation_id,
            now,
        ));
        result
    }
}

/// Why the provider's side of an activated grant is not in order.
pub open spec fn provider_side_fault(
    s: RegistryView,
    grant: ShareGrant,
    local_provider: EndpointId,
    remote_consumer: EndpointId,
    now: u64,
    moment: u64,
) -> Option<ShareError> {
    let row = s.grants[grant.nonce@];
    let drain = drain_of(s, grant.nonce);
    if grant.provider != local_provider || grant.consumer != remote_consumer {
        Some(ShareError::EndpointMismatch)
    } else if !s.grants.contains_key(grant.nonce@) || row.grant != grant {
        Some(ShareError::GrantReplay)
    } else if row.revoked {
        Some(ShareError::MemberRevoked)
    } else if row.state != GrantState::Active || drain.provider_drained || drain.consumer_drained
        || !s.deadlines.contains_key(grant.nonce@) {
        Some(ShareError::GrantReplay)
    } else if moment >= s.deadlines[grant.nonce@].at {
        Some(ShareError::GrantExpired)
    } else {
        grant_fault(grant, grant.owner, grant.share, now)
    }
}

/// How far a grant has come, as a peer is told.
pub open spec fn state_view(state: GrantState) -> ActivationStateView {
    match state {
        GrantState::Issued => ActivationStateView::Issued,
        GrantState::Active => ActivationStateView::Active,
        GrantState::Restarted => ActivationStateView::Restarted,
        GrantState::Drained => ActivationStateView::Drained,
        GrantState::Denied => ActivationStateView::Denied,
        GrantState::Expired => ActivationStateView::Expired,
    }
}

/// The answer about a grant.
pub open spec fn receipt_of(row: GrantRow, drain: GrantDrainState) -> ActivationReceipt {
    ActivationReceipt {
        binding: binding_of(row.grant),
        state: state_view(row.state),
        activation_id: row.activation_id,
        activation_deadline: row.activation_deadline,
        revoked: row.revoked,
        provider_drained: drain.provider_drained,
        consumer_drained: drain.consumer_drained,
        admission_open: true,
    }
}

fn activation_receipt_from_row(row: &GrantRow, drain: GrantDrainState) -> (receipt:
    ActivationReceipt)
    ensures
        receipt == receipt_of(*row, drain),
{
    let state = match row.state {
        GrantState::Issued => ActivationStateView::Issued,
        GrantState::Active => ActivationStateView::Active,
        GrantState::Restarted => ActivationStateView::Restarted,
        GrantState::Drained => ActivationStateView::Drained,
        GrantState::Denied => ActivationStateView::Denied,
        GrantState::Expired => ActivationStateView::Expired,
    };
    ActivationReceipt {
        binding: ActivationBinding::from_grant(&row.grant),
        state,
        activation_id: row.activation_id,
        activation_deadline: row.activation_deadline,
        revoked: row.revoked,
        provider_drained: drain.provider_drained,
        consumer_drained: drain.consumer_drained,
        admission_open: true,
    }
}

/// Why a question about a grant is not answered.
pub open spec fn query_fault(
    s: RegistryView,
    binding: ActivationBinding,
    activation_id: Option<[u8; 16]>,
    peer: EndpointId,
) -> Option<ShareError> {
    let row = s.grants[binding.nonce@];
    if binding.owner != s.catalog.owner {
        Some(ShareError::OwnerMismatch)
    } else if !s.grants.contains_key(binding.nonce@) || binding_of(row.grant) != binding {
        Some(ShareError::GrantReplay)
    } else if row.grant.consumer != peer && row.grant.provider != peer {
        Some(ShareError::EndpointMismatch)
    } else if activation_id is Some && row.activation_id != activation_id {
        Some(ShareError::GrantReplay)
    } else {
        None
    }
}

/// Why a question how far a grant has come is not answered. The grant itself has to be one of this
/// owner's.
pub open spec fn status_fault(
    s: RegistryView,
    binding: ActivationBinding,
    activation_id: Option<[u8; 16]>,
    peer: EndpointId,
) -> Option<ShareError> {
    if s.grants.contains_key(binding.nonce@) && s.grants[binding.nonce@].grant.owner
        != s.catalog.owner {
        Some(ShareError::OwnerMismatch)
    } else {
        query_fault(s, binding, activation_id, peer)
    }
}

/// A grant that is cancelled at a time, if it was not activated before.
pub open spec fn cancelled(row: GrantRow, now: u64) -> GrantRow {
    if row.state == GrantState::Issued {
        GrantRow {
            state: if row.grant.expires_at <= now {
                GrantState::Expired
            } else {
                GrantState::Denied
            },
            activation_deadline: None,
            ..row
        }
    } else {
        row
    }
}

/// The registry once a grant is cancelled.
pub open spec fn with_cancelled(s: RegistryView, nonce: GrantNonce, now: u64) -> RegistryView {
    if s.grants[nonce@].state == GrantState::Issued {
        RegistryView {
            deadlines: s.deadlines.remove(nonce@),
            ..with_grant(s, cancelled(s.grants[nonce@], now), drain_of(s, nonce))
        }
    } else {
        s
    }
}

/// Why an acknowledgement that one side has stopped is not taken.
pub open spec fn draining_fault(
    s: RegistryView,
    share: ShareId,
    nonce: GrantNonce,
    activation_id: [u8; 16],
    peer: EndpointId,
) -> Option<ShareError> {
    let row = s.grants[nonce@];
    if !s.grants.contains_key(nonce@) {
        Some(ShareError::GrantReplay)
    } else if row.grant.share != share {
        Some(ShareError::OwnerMismatch)
    } else if row.grant.consumer != peer && row.grant.provider != peer {
        Some(ShareError::EndpointMismatch)
    } else if row.activation_id != Some(activation_id) {
        Some(ShareError::GrantReplay)
    } else if row.state == GrantState::Issued || row.state == GrantState::Denied || row.state
        == GrantState::Expired {
        Some(ShareError::GrantReplay)
    } else {
        None
    }
}

/// Which sides have stopped once a peer has acknowledged.
pub open spec fn acknowledged(
    drain: GrantDrainState,
    grant: ShareGrant,
    peer: EndpointId,
) -> GrantDrainState {
    GrantDrainState {
        provider_drained: drain.provider_drained || grant.provider == peer,
        consumer_drained: drain.consumer_drained || grant.consumer == peer,
    }
}

/// The registry once one side of a grant has stopped. The grant is drained only when both have.
pub open spec fn with_drained(s: RegistryView, nonce: GrantNonce, peer: EndpointId) -> RegistryView {
    let row = s.grants[nonce@];
    let drain = acknowledged(drain_of(s, nonce), row.grant, peer);
    if row.state == GrantState::Drained {
        s
    } else if drain.provider_drained && drain.consumer_drained {
        RegistryView {
            deadlines: s.deadlines.remove(nonce@),
            ..with_grant(s, GrantRow { state: GrantState::Drained, ..row }, drain)
        }
    } else {
        with_grant(s, row, drain)
    }
}

impl Registry {
    /// Checks the provider's side of an activated grant, and gives the moment at which it ends.
    pub fn validate_provider_grant(
        &self,
        grant: &ShareGrant,
        local_provider: EndpointId,
        remote_consumer: EndpointId,
        now: u64,
        moment: u64,
    ) -> (deadline: Result<u64, ShareError>)
        requires
            self.wf(),
        ensures
            ({
                let fault = provider_side_fault(
                    self@,
                    *grant,
                    local_provider,
                    remote_consumer,
                    now,
                    moment,
                );
                match deadline {
                    Ok(deadline) => fault is None && deadline
                        == self@.deadlines[grant.nonce@].at,
                    Err(error) => fault == Some(error),
                }
            }),
    {
        if grant.provider != local_provider || grant.consumer != remote_consumer {
            return Err(ShareError::EndpointMismatch);
        }
        let row = match self.read_grant(&grant.nonce) {
            Some(row) => row,
            None => {
                return Err(ShareError::GrantReplay);
            },
        };
        if row.grant != *grant {
            return Err(ShareError::GrantReplay);
        }
        if row.revoked {
            return Err(ShareError::MemberRevoked);
        }
        if row.state != GrantState::Active {
            return Err(ShareError::GrantReplay);
        }
        let drain = self.read_grant_drain(&grant.nonce);
        if drain.provider_drained || drain.consumer_drained {
            return Err(ShareError::GrantReplay);
        }
        let deadline = match find(&self.deadlines, grant.nonce.as_slice()) {
            Some(row) => row.at,
            None => {
                return Err(ShareError::GrantReplay);
            },
        };
        if moment >= deadline {
            return Err(ShareError::GrantExpired);
        }
        match grant.verify_for(grant.owner, grant.share, now) {
            Ok(()) => Ok(deadline),
            Err(error) => Err(error),
        }
    }

    fn check_query(
        &self,
        binding: &ActivationBinding,
        activation_id: &Option<[u8; 16]>,
        peer: &EndpointId,
    ) -> (row: Result<GrantRow, ShareError>)
        requires
            self.wf(),
        ensures
            match row {
                Ok(row) => query_fault(self@, *binding, *activation_id, *peer) is None && row
                    == self@.grants[binding.nonce@],
                Err(error) => query_fault(self@, *binding, *activation_id, *peer) == Some(error),
            },
    {
        if binding.owner != self.catalog.owner {
            return Err(ShareError::OwnerMismatch);
        }
        let row = match self.read_grant(&binding.nonce) {
            Some(row) => row,
            None => {
                return Err(ShareError::GrantReplay);
            },
        };
        if ActivationBinding::from_grant(&row.grant) != *binding {
            return Err(ShareError::GrantReplay);
        }
        if row.grant.consumer != *peer && row.grant.provider != *peer {
            return Err(ShareError::EndpointMismatch);
        }
        match activation_id {
            Some(id) => if !is_id(&row.activation_id, id) {
                return Err(ShareError::GrantReplay);
            },
            None => {},
        }
        Ok(row)
    }

    /// Answers how far a grant has come. Nothing changes, and a lifetime that has passed is not
    /// taken for an end.
    pub fn activation_receipt(&self, query: &ActivationStatusQuery, peer: EndpointId) -> (receipt:
        Result<ActivationReceipt, ShareError>)
        requires
            self.wf(),
        ensures
            match receipt {
                Ok(receipt) => status_fault(self@, query.binding, query.activation_id, peer) is None
                    && receipt == receipt_of(
                    self@.grants[query.binding.nonce@],
                    drain_of(self@, query.binding.nonce),
                ),
                Err(error) => status_fault(self@, query.binding, query.activation_id, peer) == Some(
                    error,
                ),
            },
    {
        match self.read_grant(&query.binding.nonce) {
            Some(row) => if row.grant.owner != self.catalog.owner {
                return Err(ShareError::OwnerMismatch);
            },
            None => {},
        }
        match self.check_query(&query.binding, &query.activation_id, &peer) {
            Ok(row) => Ok(
                activation_receipt_from_row(&row, self.read_grant_drain(&query.binding.nonce)),
            ),
            Err(error) => Err(error),
        }
    }

    /// Cancels a grant that was not activated yet. One that was stays as it is, so cancelling
    /// twice, or too late, only reads.
    pub fn cancel_activation(&mut self, cancel: &ActivationCancel, peer: EndpointId, now: u64) -> (
    receipt: Result<ActivationReceipt, ShareError>)
        requires
            old(self).wf(),
        ensures
            final(self).wf(),
            ({
                let s = clocked(old(self)@, now);
                let nonce = cancel.binding.nonce;
                let fault = query_fault(s, cancel.binding, cancel.activation_id, peer);
                match receipt {
                    Ok(receipt) => clock_fault(old(self)@.clock, now) is None && fault is None
                        && final(self)@ == with_cancelled(s, nonce, now) && receipt == receipt_of(
                        cancelled(s.grants[nonce@], now),
                        drain_of(s, nonce),
                    ),
                    Err(error) => final(self)@ == s && if clock_fault(
                        old(self)@.clock,
                        now,
                    ) is Some {
                        clock_fault(old(self)@.clock, now) == Some(error)
                    } else {
                        fault == Some(error)
                    },
                }
            }),
    {
        match self.observe_authority_clock(now) {
            Ok(()) => {},
            Err(error) => {
                return Err(error);
            },
        }
        let mut row = match self.check_query(&cancel.binding, &cancel.activation_id, &peer) {
            Ok(row) => row,
            Err(error) => {
                return Err(error);
            },
        };
        let drain = self.read_grant_drain(&cancel.binding.nonce);
        assert(row.grant.nonce == cancel.binding.nonce);
        if row.state == GrantState::Issued {
            row.state =
            if row.grant.expires_at <= now {
                GrantState::Expired
            } else {
                GrantState::Denied
            };
            row.activation_deadline = None;
            self.write_grant_and_drain(row, drain);
            take(&mut self.deadlines, cancel.binding.nonce.as_slice());
        }
        Ok(activation_receipt_from_row(&row, drain))
    }

    /// Takes the acknowledgement of one side of a grant that it has stopped. A lifetime that has
    /// passed is no acknowledgement, and one side cannot speak for the other.
    pub fn drain_grant(
        &mut self,
        share: ShareId,
        nonce: GrantNonce,
        activation_id: [u8; 16],
        peer: EndpointId,
    ) -> (result: Result<(), ShareError>)
        requires
            old(self).wf(),
        ensures
            final(self).wf(),
            match result {
                Ok(()) => draining_fault(old(self)@, share, nonce, activation_id, peer) is None
                    && final(self)@ == with_drained(old(self)@, nonce, peer),
                Err(error) => draining_fault(old(self)@, share, nonce, activation_id, peer) == Some(
                    error,
                ) && final(self)@ == old(self)@,
            },
    {
        let mut row = match self.read_grant(&nonce) {
            Some(row) => row,
            None => {
                return Err(ShareError::GrantReplay);
            },
        };
        proof {
            lemma_table_key(self.grants@, nonce@);
            lemma_array_view_injective(row.grant.nonce, nonce);
        }
        if row.grant.share != share {
            return Err(ShareError::OwnerMismatch);
        }
        let is_consumer = row.grant.consumer == peer;
        let is_provider = row.grant.provider == peer;
        if !is_consumer && !is_provider {
            return Err(ShareError::EndpointMismatch);
        }
        if !is_id(&row.activation_id, &activation_id) {
            return Err(ShareError::GrantReplay);
        }
        match row.state {
            GrantState::Active | GrantState::Restarted => {
                let mut drain = self.read_grant_drain(&nonce);
                if is_consumer {
                    drain.consumer_drained = true;
                }
                if is_provider {
                    drain.provider_drained = true;
                }
                if drain.consumer_drained && drain.provider_drained {
                    row.state = GrantState::Drained;
                    take(&mut self.deadlines, nonce.as_slice());
                }
                self.write_grant_and_drain(row, drain);
                Ok(())
            },
            GrantState::Drained => Ok(()),
            GrantState::Issued | GrantState::Denied | GrantState::Expired => Err(
                ShareError::GrantReplay,
            ),
        }
    }
}

/// The grant is for a member of the share and something may still come of it.
pub open spec fn touches(row: GrantRow, share: ShareId, peer: EndpointId) -> bool {
    &&& row.grant.share == share
    &&& row.grant.consumer == peer || row.grant.provider == peer
    &&& !grant_over(row.state)
}

/// A grant once a member of it is revoked. One that is active stays so: it still has to drain.
pub open spec fn revoked_grant(row: GrantRow, share: ShareId, peer: EndpointId) -> GrantRow {
    if touches(row, share, peer) {
        GrantRow {
            revoked: true,
            state: if row.state == GrantState::Issued {
                GrantState::Denied
            } else {
                row.state
            },
            ..row
        }
    } else {
        row
    }
}

/// An apply once its member is revoked. One that was started stays so: it still has to drain.
pub open spec fn revoked_apply(row: ApplyRow, share: ShareId, peer: EndpointId) -> ApplyRow {
    if row.permit.share == share && row.permit.consumer == peer {
        ApplyRow {
            revoked: true,
            state: if row.state == ApplyState::Prepared {
                ApplyState::Denied
            } else {
                row.state
            },
            ..row
        }
    } else {
        row
    }
}

/// The registry once a member is revoked.
pub open spec fn with_revoked(
    s: RegistryView,
    share: ShareId,
    peer: EndpointId,
    now: u64,
) -> RegistryView {
    RegistryView {
        catalog: with_member(
            s.catalog,
            share,
            peer,
            revoked_member(member_of(s.catalog, share, peer), now),
        ),
        grants: s.grants.map_values(|row: GrantRow| revoked_grant(row, share, peer)),
        applies: s.applies.map_values(|row: ApplyRow| revoked_apply(row, share, peer)),
        ..s
    }
}

struct Revocation {
    share: ShareId,
    peer: EndpointId,
}

impl Change<GrantRow> for Revocation {
    closed spec fn changed(&self, item: GrantRow) -> GrantRow {
        revoked_grant(item, self.share, self.peer)
    }

    fn change(&self, item: &GrantRow) -> (r: GrantRow) {
        let mut row = *item;
        if row.grant.share == self.share && (row.grant.consumer == self.peer || row.grant.provider
            == self.peer) && (row.state == GrantState::Issued || row.state == GrantState::Active
            || row.state == GrantState::Restarted) {
            row.revoked = true;
            if row.state == GrantState::Issued {
                row.state = GrantState::Denied;
            }
        }
        row
    }
}

impl Change<ApplyRow> for Revocation {
    closed spec fn changed(&self, item: ApplyRow) -> ApplyRow {
        revoked_apply(item, self.share, self.peer)
    }

    fn change(&self, item: &ApplyRow) -> (r: ApplyRow) {
        let mut row = *item;
        if row.permit.share == self.share && row.permit.consumer == self.peer {
            row.revoked = true;
            if row.state == ApplyState::Prepared {
                row.state = ApplyState::Denied;
            }
        }
        row
    }
}

impl Registry {
    /// Revokes a member and denies what was granted to it, in one step. What is in flight stays
    /// visible until it has drained. It is written down whatever room the catalog then takes: one
    /// that is not within its size any more serves no request.
    pub fn revoke_member_durable(&mut self, share: ShareId, peer: EndpointId, now: u64) -> (member:
        Result<Membership, ShareError>)
        requires
            old(self).wf(),
        ensures
            final(self).ordered(),
            replicas_known(old(self)@.catalog) ==> replicas_known(final(self)@.catalog),
            final(self).wf() == catalog_fits(final(self)@.catalog),
            match member {
                Ok(member) => revoking_fault(old(self)@.catalog, share, peer) is None && member
                    == revoked_member(member_of(old(self)@.catalog, share, peer), now)
                    && final(self)@ == with_revoked(old(self)@, share, peer, now),
                Err(error) => revoking_fault(old(self)@.catalog, share, peer) == Some(error)
                    && final(self)@ == old(self)@,
            },
    {
        let ghost s = self@;
        let member = match self.catalog.force_revocation(share, peer, now) {
            Ok(member) => member,
            Err(error) => {
                return Err(error);
            },
        };
        let rule = Revocation { share, peer };
        change_all(&mut self.grants, &rule);
        change_all(&mut self.applies, &rule);
        proof {
            let goal = with_revoked(s, share, peer, now);
            assert(self@.grants =~= goal.grants);
            assert(self@.applies =~= goal.applies);
        }
        Ok(member)
    }
}

/// The grant is in flight, or was when a process ended, and keeps a revocation of the member
/// pending.
pub open spec fn grant_blocks(row: GrantRow, share: ShareId, peer: EndpointId) -> bool {
    &&& row.grant.share == share
    &&& row.grant.consumer == peer || row.grant.provider == peer
    &&& row.state == GrantState::Active || row.state == GrantState::Restarted
}

/// The apply is in flight, or was when a process ended, and keeps a revocation of the member
/// pending.
pub open spec fn apply_blocks(row: ApplyRow, share: ShareId, peer: EndpointId) -> bool {
    &&& row.permit.share == share
    &&& row.permit.consumer == peer
    &&& row.state == ApplyState::Started || row.state == ApplyState::Restarted
}

/// How many grants block.
pub open spec fn blocking_grants(rows: Seq<GrantRow>, share: ShareId, peer: EndpointId) -> nat
    decreases rows.len(),
{
    if rows.len() == 0 {
        0
    } else {
        blocking_grants(rows.drop_last(), share, peer) + (if grant_blocks(
            rows.last(),
            share,
            peer,
        ) {
            1nat
        } else {
            0
        })
    }
}

/// How many applies block.
pub open spec fn blocking_applies(rows: Seq<ApplyRow>, share: ShareId, peer: EndpointId) -> nat
    decreases rows.len(),
{
    if rows.len() == 0 {
        0
    } else {
        blocking_applies(rows.drop_last(), share, peer) + (if apply_blocks(
            rows.last(),
            share,
            peer,
        ) {
            1nat
        } else {
            0
        })
    }
}

/// When the last blocking grant should have ended, or now.
pub open spec fn grants_deadline(
    rows: Seq<GrantRow>,
    share: ShareId,
    peer: EndpointId,
    now: u64,
) -> u64
    decreases rows.len(),
{
    if rows.len() == 0 {
        now
    } else {
        let before = grants_deadline(rows.drop_last(), share, peer, now);
        let row = rows.last();
        let end = match row.activation_deadline {
            Some(at) => at,
            None => saturated(now, MAX_ACTIVATE_TTL_SECONDS as u64),
        };
        if grant_blocks(row, share, peer) && end > before {
            end
        } else {
            before
        }
    }
}

/// When the last blocking apply should have ended, or a given time.
pub open spec fn applies_deadline(
    rows: Seq<ApplyRow>,
    share: ShareId,
    peer: EndpointId,
    from: u64,
) -> u64
    decreases rows.len(),
{
    if rows.len() == 0 {
        from
    } else {
        let before = applies_deadline(rows.drop_last(), share, peer, from);
        let row = rows.last();
        if apply_blocks(row, share, peer) && row.permit.expires_at > before {
            row.permit.expires_at
        } else {
            before
        }
    }
}

/// A number that stops at the largest 32-bit number.
pub open spec fn capped(count: nat) -> u32 {
    if count > u32::MAX {
        u32::MAX
    } else {
        count as u32
    }
}

/// How far the revocation of a member has come.
pub open spec fn revocation_of(
    s: RegistryView,
    share: ShareId,
    peer: EndpointId,
    now: u64,
) -> RevocationReceipt {
    let grants = listing(s.grants);
    let applies = listing(s.applies);
    let blockers = capped(
        blocking_grants(grants, share, peer) + blocking_applies(applies, share, peer),
    );
    let epoch = member_of(s.catalog, share, peer).epoch;
    if blockers == 0 {
        RevocationReceipt::Complete { member_epoch: epoch, completed_at: now }
    } else {
        RevocationReceipt::Pending {
            member_epoch: epoch,
            deadline: applies_deadline(
                applies,
                share,
                peer,
                grants_deadline(grants, share, peer, now),
            ),
            blockers,
        }
    }
}

/// Counts the blocking grants, and finds when the last should have ended.
fn weigh_grants(rows: &Vec<GrantRow>, share: &ShareId, peer: &EndpointId, now: u64) -> (weighed: (
    u32,
    u64,
))
    ensures
        weighed.0 == capped(blocking_grants(rows@, *share, *peer)),
        weighed.1 == grants_deadline(rows@, *share, *peer, now),
{
    let mut blockers: u32 = 0;
    let mut deadline: u64 = now;
    let mut i: usize = 0;
    while i < rows.len()
        invariant
            i <= rows@.len(),
            blockers == capped(blocking_grants(rows@.take(i as int), *share, *peer)),
            deadline == grants_deadline(rows@.take(i as int), *share, *peer, now),
        decreases rows@.len() - i,
    {
        let row = &rows[i];
        if row.grant.share == *share && (row.grant.consumer == *peer || row.grant.provider == *peer)
            && (row.state == GrantState::Active || row.state == GrantState::Restarted) {
            blockers = blockers.saturating_add(1);
            let end = match row.activation_deadline {
                Some(at) => at,
                None => now.saturating_add(MAX_ACTIVATE_TTL_SECONDS as u64),
            };
            if end > deadline {
                deadline = end;
            }
        }
        i = i + 1;
        proof {
            let more = rows@.take(i as int);
            assert(more.drop_last() =~= rows@.take(i - 1));
            assert(more.last() == rows@[i - 1]);
        }
    }
    assert(rows@.take(i as int) =~= rows@);
    (blockers, deadline)
}

/// Counts the blocking applies, and finds when the last should have ended.
fn weigh_applies(rows: &Vec<ApplyRow>, share: &ShareId, peer: &EndpointId, from: u64) -> (weighed: (
    u32,
    u64,
))
    ensures
        weighed.0 == capped(blocking_applies(rows@, *share, *peer)),
        weighed.1 == applies_deadline(rows@, *share, *peer, from),
{
    let mut blockers: u32 = 0;
    let mut deadline: u64 = from;
    let mut i: usize = 0;
    while i < rows.len()
        invariant
            i <= rows@.len(),
            blockers == capped(blocking_applies(rows@.take(i as int), *share, *peer)),
            deadline == applies_deadline(rows@.take(i as int), *share, *peer, from),
        decreases rows@.len() - i,
    {
        let row = &rows[i];
        if row.permit.share == *share && row.permit.consumer == *peer && (row.state
            == ApplyState::Started || row.state == ApplyState::Restarted) {
            blockers = blockers.saturating_add(1);
            if row.permit.expires_at > deadline {
                deadline = row.permit.expires_at;
            }
        }
        i = i + 1;
        proof {
            let more = rows@.take(i as int);
            assert(more.drop_last() =~= rows@.take(i - 1));
            assert(more.last() == rows@[i - 1]);
        }
    }
    assert(rows@.take(i as int) =~= rows@);
    (blockers, deadline)
}

impl Registry {
    /// How many grants keep a revocation of a member pending.
    pub fn active_grant_blockers(&self, share: ShareId, peer: EndpointId) -> (blockers: u32)
        requires
            self.wf(),
        ensures
            blockers == capped(blocking_grants(listing(self@.grants), share, peer)),
    {
        proof {
            lemma_listing(self.grants@);
        }
        weigh_grants(&self.grants, &share, &peer, 0).0
    }

    /// How many applies keep a revocation of a member pending.
    pub fn active_apply_blockers(&self, share: ShareId, peer: EndpointId) -> (blockers: u32)
        requires
            self.wf(),
        ensures
            blockers == capped(blocking_applies(listing(self@.applies), share, peer)),
    {
        proof {
            lemma_listing(self.applies@);
        }
        weigh_applies(&self.applies, &share, &peer, 0).0
    }

    /// How far the revocation of a member has come. A closed connection is no acknowledgement:
    /// what was in flight blocks until both sides have said that they stopped.
    pub fn revocation_receipt(&self, share: ShareId, peer: EndpointId, now: u64) -> (receipt: Result<
        RevocationReceipt,
        ShareError,
    >)
        requires
            self.wf(),
        ensures
            ({
                let members = self@.catalog.shares[share@].members;
                match receipt {
                    Ok(receipt) => self@.catalog.shares.contains_key(share@)
                        && members.contains_key(peer@) && members[peer@].revoked_at is Some
                        && receipt == revocation_of(self@, share, peer, now),
                    Err(error) => if self@.catalog.shares.contains_key(share@) {
                        error == ShareError::NotMember && !(members.contains_key(peer@)
                            && members[peer@].revoked_at is Some)
                    } else {
                        error == ShareError::UnknownShare
                    },
                }
            }),
    {
        let member = match self.catalog.member(share, peer) {
            Ok(member) => member,
            Err(error) => {
                return Err(error);
            },
        };
        if member.revoked_at.is_none() {
            return Err(ShareError::NotMember);
        }
        proof {
            lemma_listing(self.grants@);
            lemma_listing(self.applies@);
        }
        let first = weigh_grants(&self.grants, &share, &peer, now);
        let second = weigh_applies(&self.applies, &share, &peer, first.1);
        let blockers = first.0.saturating_add(second.0);
        if blockers == 0 {
            Ok(RevocationReceipt::Complete { member_epoch: member.epoch, completed_at: now })
        } else {
            Ok(
                RevocationReceipt::Pending {
                    member_epoch: member.epoch,
                    deadline: second.1,
                    blockers,
                },
            )
        }
    }
}

} // verus!
