//! Apply permits: how an owner lets a member write a snapshot, and follows the writer.
use vstd::prelude::*;

use crate::hash::{same_array, Hash32};
use crate::share::authority::{
    is_id, permit_fault, permit_shape_fault, permit_signature_fault, signed_permit, token_fault,
    ApplyCancel, ApplyDrained, ApplyPermit, ApplyReceipt, ApplyStart, ApplyStateView,
    ApplyStatusQuery, SnapshotToken,
};
use crate::share::catalog::{access_fault, member_of};
use crate::share::error::ShareError;
use crate::share::identity::{public_id, EndpointId, GrantNonce, SecretKey, ShareId};
use crate::share::registry::{
    clock_fault, clocked, crowded, swept, with_apply, Registry, RegistryView,
};
use crate::share::roster::random_nonce;
use crate::share::rows::{apply_row_bytes, ApplyRow, ApplyState};

verus! {

/// The permit that a request leads to.
pub open spec fn permitted(
    s: RegistryView,
    secret: Seq<u8>,
    consumer: EndpointId,
    token: SnapshotToken,
    root: Hash32,
    nonce: GrantNonce,
    now: u64,
) -> ApplyPermit {
    signed_permit(
        secret,
        token.share,
        consumer,
        member_of(s.catalog, token.share, consumer).epoch,
        token.snapshot,
        root,
        now,
        nonce,
    )
}

/// An apply that was just permitted.
pub open spec fn prepared_row(permit: ApplyPermit) -> ApplyRow {
    ApplyRow {
        permit,
        state: ApplyState::Prepared,
        operation_id: None,
        committed: false,
        revoked: false,
    }
}

/// Why an apply is not permitted, once the journals are swept.
pub open spec fn permitting_fault(
    s: RegistryView,
    secret: Seq<u8>,
    consumer: EndpointId,
    token: SnapshotToken,
    root: Hash32,
    nonce: GrantNonce,
    now: u64,
) -> Option<ShareError> {
    let permit = permitted(s, secret, consumer, token, root, nonce, now);
    if token_fault(token, public_id(secret), token.share, now) is Some {
        token_fault(token, public_id(secret), token.share, now)
    } else if token.root_hash != root || !s.snapshots.contains_key(token.snapshot@)
        || s.snapshots[token.snapshot@].token != token {
        Some(ShareError::ManifestMismatch)
    } else if access_fault(s.catalog, token.share, consumer, false) is Some {
        access_fault(s.catalog, token.share, consumer, false)
    } else if member_of(s.catalog, token.share, consumer).epoch != token.epoch {
        Some(ShareError::EpochMismatch)
    } else if permit_shape_fault(permit) is Some {
        permit_shape_fault(permit)
    } else if crowded(s, apply_row_bytes(prepared_row(permit)).len()) {
        Some(ShareError::Busy)
    } else if s.applies.contains_key(nonce@) {
        Some(ShareError::GrantReplay)
    } else {
        None
    }
}

/// What asking for a permit comes to.
pub open spec fn permits(
    before: RegistryView,
    after: RegistryView,
    result: Result<ApplyPermit, ShareError>,
    secret: Seq<u8>,
    consumer: EndpointId,
    token: SnapshotToken,
    root: Hash32,
    nonce: GrantNonce,
    now: u64,
) -> bool {
    let s = swept(clocked(before, now), now);
    let fault = permitting_fault(s, secret, consumer, token, root, nonce, now);
    match result {
        Err(error) => if clock_fault(before.clock, now) is Some {
            clock_fault(before.clock, now) == Some(error) && after == clocked(before, now)
        } else {
            fault == Some(error) && after == s
        },
        Ok(permit) => {
            &&& clock_fault(before.clock, now) is None
            &&& fault is None
            &&& permit == permitted(s, secret, consumer, token, root, nonce, now)
            &&& after == with_apply(s, prepared_row(permit))
        },
    }
}

/// Why an apply is not started, the clock being in order.
pub open spec fn starting_fault(
    s: RegistryView,
    owner: EndpointId,
    share: ShareId,
    peer: EndpointId,
    root: Hash32,
    start: ApplyStart,
    now: u64,
) -> Option<ShareError> {
    let row = s.applies[start.permit_nonce@];
    let same = row.operation_id == Some(start.operation_id);
    if !s.applies.contains_key(start.permit_nonce@) {
        Some(ShareError::GrantReplay)
    } else if row.permit.owner != owner || row.permit.share != share || row.permit.consumer
        != peer {
        Some(ShareError::EndpointMismatch)
    } else if row.revoked {
        Some(ShareError::MemberRevoked)
    } else if access_fault(s.catalog, share, peer, false) is Some {
        access_fault(s.catalog, share, peer, false)
    } else if member_of(s.catalog, share, peer).epoch != row.permit.epoch {
        Some(ShareError::EpochMismatch)
    } else if row.permit.root_hash != root {
        Some(ShareError::ManifestMismatch)
    } else if permit_fault(row.permit, owner, share, peer, now) is Some {
        permit_fault(row.permit, owner, share, peer, now)
    } else {
        match row.state {
            ApplyState::Prepared => None,
            ApplyState::Started => if same {
                None
            } else {
                Some(ShareError::GrantReplay)
            },
            ApplyState::Drained => if same {
                None
            } else {
                Some(ShareError::GrantReplay)
            },
            ApplyState::Denied => Some(ShareError::MemberRevoked),
            ApplyState::Restarted => Some(ShareError::GrantReplay),
            ApplyState::Expired => Some(ShareError::GrantExpired),
        }
    }
}

/// The registry once an apply is started. Starting it again changes nothing.
pub open spec fn with_started(s: RegistryView, start: ApplyStart) -> RegistryView {
    let row = s.applies[start.permit_nonce@];
    if row.state == ApplyState::Prepared {
        with_apply(
            s,
            ApplyRow {
                state: ApplyState::Started,
                operation_id: Some(start.operation_id),
                ..row
            },
        )
    } else {
        s
    }
}

/// Why an acknowledgement that a writer has stopped is not taken.
pub open spec fn stopping_fault(
    s: RegistryView,
    owner: EndpointId,
    share: ShareId,
    peer: EndpointId,
    drained: ApplyDrained,
) -> Option<ShareError> {
    let row = s.applies[drained.permit_nonce@];
    if !s.applies.contains_key(drained.permit_nonce@) {
        Some(ShareError::GrantReplay)
    } else if row.permit.owner != owner || row.permit.share != share || row.permit.consumer
        != peer {
        Some(ShareError::EndpointMismatch)
    } else if row.operation_id != Some(drained.operation_id) {
        Some(ShareError::GrantReplay)
    } else {
        match row.state {
            ApplyState::Started => None,
            ApplyState::Restarted => None,
            ApplyState::Drained => if row.committed == drained.committed {
                None
            } else {
                Some(ShareError::GrantReplay)
            },
            ApplyState::Denied => Some(ShareError::MemberRevoked),
            ApplyState::Prepared => Some(ShareError::GrantReplay),
            ApplyState::Expired => Some(ShareError::GrantReplay),
        }
    }
}

/// The registry once a writer has stopped.
pub open spec fn with_stopped(s: RegistryView, drained: ApplyDrained) -> RegistryView {
    let row = s.applies[drained.permit_nonce@];
    if row.state == ApplyState::Drained {
        s
    } else {
        with_apply(
            s,
            ApplyRow { state: ApplyState::Drained, committed: drained.committed, ..row },
        )
    }
}

/// How far an apply has come, as a peer is told.
pub open spec fn apply_state_view(state: ApplyState) -> ApplyStateView {
    match state {
        ApplyState::Prepared => ApplyStateView::Prepared,
        ApplyState::Started => ApplyStateView::Started,
        ApplyState::Restarted => ApplyStateView::Restarted,
        ApplyState::Drained => ApplyStateView::Drained,
        ApplyState::Denied => ApplyStateView::Denied,
        ApplyState::Expired => ApplyStateView::Expired,
    }
}

/// The answer about an apply.
pub open spec fn apply_receipt_of(row: ApplyRow) -> ApplyReceipt {
    ApplyReceipt {
        owner: row.permit.owner,
        share: row.permit.share,
        consumer: row.permit.consumer,
        permit_nonce: row.permit.nonce,
        operation_id: row.operation_id,
        state: apply_state_view(row.state),
        committed: row.committed,
        revoked: row.revoked,
        admission_open: true,
    }
}

fn apply_receipt_from_row(row: &ApplyRow) -> (receipt: ApplyReceipt)
    ensures
        receipt == apply_receipt_of(*row),
{
    let state = match row.state {
        ApplyState::Prepared => ApplyStateView::Prepared,
        ApplyState::Started => ApplyStateView::Started,
        ApplyState::Restarted => ApplyStateView::Restarted,
        ApplyState::Drained => ApplyStateView::Drained,
        ApplyState::Denied => ApplyStateView::Denied,
        ApplyState::Expired => ApplyStateView::Expired,
    };
    ApplyReceipt {
        owner: row.permit.owner,
        share: row.permit.share,
        consumer: row.permit.consumer,
        permit_nonce: row.permit.nonce,
        operation_id: row.operation_id,
        state,
        committed: row.committed,
        revoked: row.revoked,
        admission_open: true,
    }
}

/// Why a question about an apply is not answered.
pub open spec fn apply_query_fault(
    s: RegistryView,
    query: ApplyStatusQuery,
    peer: EndpointId,
) -> Option<ShareError> {
    let row = s.applies[query.permit_nonce@];
    if query.owner != s.catalog.owner {
        Some(ShareError::OwnerMismatch)
    } else if !s.applies.contains_key(query.permit_nonce@) {
        Some(ShareError::GrantReplay)
    } else if query.owner != row.permit.owner || query.share != row.permit.share {
        Some(ShareError::OwnerMismatch)
    } else if query.consumer != row.permit.consumer {
        Some(ShareError::EndpointMismatch)
    } else if query.permit_nonce != row.permit.nonce {
        Some(ShareError::GrantReplay)
    } else if peer != query.consumer {
        Some(ShareError::EndpointMismatch)
    } else if row.operation_id is Some && query.operation_id != row.operation_id {
        Some(ShareError::GrantReplay)
    } else if row.operation_id is None && query.operation_id is Some && row.state
        != ApplyState::Prepared {
        Some(ShareError::GrantReplay)
    } else {
        permit_signature_fault(row.permit, query.owner, query.share, query.consumer)
    }
}

/// Why an apply is not cancelled.
pub open spec fn apply_cancel_fault(
    s: RegistryView,
    cancel: ApplyCancel,
    peer: EndpointId,
) -> Option<ShareError> {
    let row = s.applies[cancel.permit_nonce@];
    if cancel.owner != s.catalog.owner {
        Some(ShareError::OwnerMismatch)
    } else if !s.applies.contains_key(cancel.permit_nonce@) {
        Some(ShareError::GrantReplay)
    } else if row.permit.owner != cancel.owner || row.permit.share != cancel.share
        || row.permit.consumer != cancel.consumer || row.permit.nonce != cancel.permit_nonce || peer
        != cancel.consumer {
        Some(ShareError::EndpointMismatch)
    } else if permit_signature_fault(
        row.permit,
        cancel.owner,
        cancel.share,
        cancel.consumer,
    ) is Some {
        permit_signature_fault(row.permit, cancel.owner, cancel.share, cancel.consumer)
    } else if row.operation_id is Some && row.operation_id != Some(cancel.operation_id) {
        Some(ShareError::GrantReplay)
    } else {
        None
    }
}

/// An apply that is cancelled, if it was not started before.
pub open spec fn cancelled_apply(row: ApplyRow, operation_id: [u8; 16]) -> ApplyRow {
    if row.state == ApplyState::Prepared {
        ApplyRow { state: ApplyState::Denied, operation_id: Some(operation_id), ..row }
    } else {
        row
    }
}

impl Registry {
    /// Permits an apply under a given nonce, if the share still holds what the snapshot says.
    pub fn issue_apply_permit_with(
        &mut self,
        owner_key: &SecretKey,
        consumer: EndpointId,
        snapshot: &SnapshotToken,
        current_root: Hash32,
        nonce: GrantNonce,
        now: u64,
    ) -> (result: Result<ApplyPermit, ShareError>)
        requires
            old(self).wf(),
        ensures
            final(self).wf(),
            permits(
                old(self)@,
                final(self)@,
                result,
                owner_key@,
                consumer,
                *snapshot,
                current_root,
                nonce,
                now,
            ),
    {
        match self.observe_authority_clock(now) {
            Ok(()) => {},
            Err(error) => {
                return Err(error);
            },
        }
        self.gc_authority(now);
        match snapshot.verify_for(owner_key.public(), snapshot.share, now) {
            Ok(()) => {},
            Err(error) => {
                return Err(error);
            },
        }
        if snapshot.root_hash != current_root {
            return Err(ShareError::ManifestMismatch);
        }
        match self.snapshot(&snapshot.snapshot) {
            Some(held) => if held.token != *snapshot {
                return Err(ShareError::ManifestMismatch);
            },
            None => {
                return Err(ShareError::ManifestMismatch);
            },
        }
        let member = match self.authorize(snapshot.share, consumer, false) {
            Ok(member) => member,
            Err(error) => {
                return Err(error);
            },
        };
        if member.epoch != snapshot.epoch {
            return Err(ShareError::EpochMismatch);
        }
        let permit = match ApplyPermit::sign(
            owner_key,
            snapshot.share,
            consumer,
            member.epoch,
            snapshot.snapshot,
            current_root,
            now,
            nonce,
        ) {
            Ok(permit) => permit,
            Err(error) => {
                return Err(error);
            },
        };
        let row = ApplyRow {
            permit,
            state: ApplyState::Prepared,
            operation_id: None,
            committed: false,
            revoked: false,
        };
        match self.ensure_authority_capacity(row.size()) {
            Ok(()) => {},
            Err(error) => {
                return Err(error);
            },
        }
        if self.read_apply(&nonce).is_some() {
            return Err(ShareError::GrantReplay);
        }
        self.write_apply(row);
        Ok(permit)
    }

    /// Permits an apply under a fresh random nonce.
    pub fn issue_apply_permit(
        &mut self,
        owner_key: &SecretKey,
        consumer: EndpointId,
        snapshot: &SnapshotToken,
        current_root: Hash32,
        now: u64,
    ) -> (result: Result<ApplyPermit, ShareError>)
        requires
            old(self).wf(),
        ensures
            final(self).wf(),
            exists|nonce: GrantNonce| #[trigger]
                permits(
                    old(self)@,
                    final(self)@,
                    result,
                    owner_key@,
                    consumer,
                    *snapshot,
                    current_root,
                    nonce,
                    now,
                ),
    {
        let nonce = random_nonce();
        let result = self.issue_apply_permit_with(
            owner_key,
            consumer,
            snapshot,
            current_root,
            nonce,
            now,
        );
        assert(permits(
            old(self)@,
            self@,
            result,
            owner_key@,
            consumer,
            *snapshot,
            current_root,
            nonce,
            now,
        ));
        result
    }

    /// Starts an apply. The same operation may say so again.
    pub fn apply_start(
        &mut self,
        owner: EndpointId,
        share: ShareId,
        peer: EndpointId,
        current_root: Hash32,
        start: &ApplyStart,
        now: u64,
    ) -> (result: Result<(), ShareError>)
        requires
            old(self).wf(),
        ensures
            final(self).wf(),
            ({
                let s = clocked(old(self)@, now);
                let fault = starting_fault(s, owner, share, peer, current_root, *start, now);
                match result {
                    Ok(()) => clock_fault(old(self)@.clock, now) is None && fault is None
                        && final(self)@ == with_started(s, *start),
                    Err(error) => final(self)@ == s && if clock_fault(
                        old(self)@.clock,
                        now,
                    ) is Some {
                        clock_fault(old(self)@.clock, now) == Some(error)
                    } else {
                        fault == Some(error)
                    },
                }
            }),
    {
        match self.observe_authority_clock(now) {
            Ok(()) => {},
            Err(error) => {
                return Err(error);
            },
        }
        let mut row = match self.read_apply(&start.permit_nonce) {
            Some(row) => row,
            None => {
                return Err(ShareError::GrantReplay);
            },
        };
        if row.permit.owner != owner || row.permit.share != share || row.permit.consumer != peer {
            return Err(ShareError::EndpointMismatch);
        }
        if row.revoked {
            return Err(ShareError::MemberRevoked);
        }
        let member = match self.authorize(share, peer, false) {
            Ok(member) => member,
            Err(error) => {
                return Err(error);
            },
        };
        if member.epoch != row.permit.epoch {
            return Err(ShareError::EpochMismatch);
        }
        if row.permit.root_hash != current_root {
            return Err(ShareError::ManifestMismatch);
        }
        match row.permit.verify_for(owner, share, peer, now) {
            Ok(()) => {},
            Err(error) => {
                return Err(error);
            },
        }
        match row.state {
            ApplyState::Prepared => {
                row.state = ApplyState::Started;
                row.operation_id = Some(start.operation_id);
                self.write_apply(row);
                Ok(())
            },
            ApplyState::Started | ApplyState::Drained => if is_id(
                &row.operation_id,
                &start.operation_id,
            ) {
                Ok(())
            } else {
                Err(ShareError::GrantReplay)
            },
            ApplyState::Denied => Err(ShareError::MemberRevoked),
            ApplyState::Restarted => Err(ShareError::GrantReplay),
            ApplyState::Expired => Err(ShareError::GrantExpired),
        }
    }

    /// Takes the acknowledgement of a member that its writer has stopped.
    pub fn apply_drained(
        &mut self,
        owner: EndpointId,
        share: ShareId,
        peer: EndpointId,
        drained: &ApplyDrained,
    ) -> (result: Result<(), ShareError>)
        requires
            old(self).wf(),
        ensures
            final(self).wf(),
            match result {
                Ok(()) => stopping_fault(old(self)@, owner, share, peer, *drained) is None
                    && final(self)@ == with_stopped(old(self)@, *drained),
                Err(error) => stopping_fault(old(self)@, owner, share, peer, *drained) == Some(
                    error,
                ) && final(self)@ == old(self)@,
            },
    {
        let mut row = match self.read_apply(&drained.permit_nonce) {
            Some(row) => row,
            None => {
                return Err(ShareError::GrantReplay);
            },
        };
        if row.permit.owner != owner || row.permit.share != share || row.permit.consumer != peer {
            return Err(ShareError::EndpointMismatch);
        }
        if !is_id(&row.operation_id, &drained.operation_id) {
            return Err(ShareError::GrantReplay);
        }
        match row.state {
            ApplyState::Started | ApplyState::Restarted => {
                row.state = ApplyState::Drained;
                row.committed = drained.committed;
                self.write_apply(row);
                Ok(())
            },
            ApplyState::Drained => if row.committed == drained.committed {
                Ok(())
            } else {
                Err(ShareError::GrantReplay)
            },
            ApplyState::Denied => Err(ShareError::MemberRevoked),
            ApplyState::Prepared | ApplyState::Expired => Err(ShareError::GrantReplay),
        }
    }

    /// Answers how far an apply has come. Nothing changes.
    pub fn apply_status(&self, query: &ApplyStatusQuery, peer: EndpointId) -> (receipt: Result<
        ApplyReceipt,
        ShareError,
    >)
        requires
            self.wf(),
        ensures
            match receipt {
                Ok(receipt) => apply_query_fault(self@, *query, peer) is None && receipt
                    == apply_receipt_of(self@.applies[query.permit_nonce@]),
                Err(error) => apply_query_fault(self@, *query, peer) == Some(error),
            },
    {
        if query.owner != self.catalog.owner {
            return Err(ShareError::OwnerMismatch);
        }
        let row = match self.read_apply(&query.permit_nonce) {
            Some(row) => row,
            None => {
                return Err(ShareError::GrantReplay);
            },
        };
        if query.owner != row.permit.owner || query.share != row.permit.share {
            return Err(ShareError::OwnerMismatch);
        }
        if query.consumer != row.permit.consumer {
            return Err(ShareError::EndpointMismatch);
        }
        if !same_array(&query.permit_nonce, &row.permit.nonce) {
            return Err(ShareError::GrantReplay);
        }
        if peer != query.consumer {
            return Err(ShareError::EndpointMismatch);
        }
        match &row.operation_id {
            Some(held) => if !is_id(&query.operation_id, held) {
                return Err(ShareError::GrantReplay);
            },
            None => if query.operation_id.is_some() && row.state != ApplyState::Prepared {
                return Err(ShareError::GrantReplay);
            },
        }
        match row.permit.verify_signature_for(query.owner, query.share, query.consumer) {
            Ok(()) => Ok(apply_receipt_from_row(&row)),
            Err(error) => Err(error),
        }
    }

    /// Cancels an apply that was not started yet. One that was keeps its writer and blocks: a late
    /// cancellation cannot make it into a finished one.
    pub fn cancel_apply(&mut self, cancel: &ApplyCancel, peer: EndpointId) -> (receipt: Result<
        ApplyReceipt,
        ShareError,
    >)
        requires
            old(self).wf(),
        ensures
            final(self).wf(),
            ({
                let row = old(self)@.applies[cancel.permit_nonce@];
                let left = cancelled_apply(row, cancel.operation_id);
                match receipt {
                    Ok(receipt) => apply_cancel_fault(old(self)@, *cancel, peer) is None && receipt
                        == apply_receipt_of(left) && final(self)@ == (if row.state
                        == ApplyState::Prepared {
                        with_apply(old(self)@, left)
                    } else {
                        old(self)@
                    }),
                    Err(error) => apply_cancel_fault(old(self)@, *cancel, peer) == Some(error)
                        && final(self)@ == old(self)@,
                }
            }),
    {
        if cancel.owner != self.catalog.owner {
            return Err(ShareError::OwnerMismatch);
        }
        let mut row = match self.read_apply(&cancel.permit_nonce) {
            Some(row) => row,
            None => {
                return Err(ShareError::GrantReplay);
            },
        };
        if row.permit.owner != cancel.owner || row.permit.share != cancel.share
            || row.permit.consumer != cancel.consumer || !same_array(
            &row.permit.nonce,
            &cancel.permit_nonce,
        ) || peer != cancel.consumer {
            return Err(ShareError::EndpointMismatch);
        }
        match row.permit.verify_signature_for(cancel.owner, cancel.share, cancel.consumer) {
            Ok(()) => {},
            Err(error) => {
                return Err(error);
            },
        }
        if row.operation_id.is_some() && !is_id(&row.operation_id, &cancel.operation_id) {
            return Err(ShareError::GrantReplay);
        }
        if row.state == ApplyState::Prepared {
            row.operation_id = Some(cancel.operation_id);
            row.state = ApplyState::Denied;
            self.write_apply(row);
        }
        Ok(apply_receipt_from_row(&row))
    }
}

} // verus!
