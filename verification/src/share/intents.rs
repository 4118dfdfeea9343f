//! What a device writes down of its own side of a grant, so that a restart cannot forget it.
use vstd::prelude::*;

use crate::hash::same_array;
use crate::share::authority::{
    binding_of, grant_fault, grant_signature_fault, ActivationBinding, ClientIntentPhase,
    ClientIntentRow, ClientSide, ShareGrant,
};
use crate::share::error::ShareError;
use crate::share::registry::{
    intent_over, Registry, RegistryView, MAX_AUTHORITY_BYTES, MAX_AUTHORITY_ROWS,
};
use crate::share::roster::saturated;
use crate::share::rows::intent_bytes;
use crate::table::{
    filtered, find, keep_by, lemma_listing, lemma_table_size, listing, put, total, total_size,
    Choice,
};

verus! {

/// How long an intent that is over stays written down.
pub const CLIENT_INTENT_RETENTION_SECONDS: u64 = 3600;

/// When an intent came to its end, or else when it began.
pub open spec fn intent_time(row: ClientIntentRow) -> u64 {
    match row.terminal_at_wall {
        Some(at) => at,
        None => row.started_at_wall,
    }
}

/// The intent is over and has been kept for long enough.
pub open spec fn intent_gone(row: ClientIntentRow, wall: u64) -> bool {
    intent_over(row.phase) && saturated(intent_time(row), CLIENT_INTENT_RETENTION_SECONDS) <= wall
}

/// The registry without the intents that are over for long enough.
pub open spec fn intents_swept(s: RegistryView, wall: u64) -> RegistryView {
    RegistryView {
        intents: filtered(s.intents, |row: ClientIntentRow| !intent_gone(row, wall)),
        ..s
    }
}

/// The row is for exactly this grant, on this side.
pub open spec fn intent_matches(row: ClientIntentRow, grant: ShareGrant, side: ClientSide) -> bool {
    row.grant == grant && row.binding == binding_of(grant) && row.side == side
}

/// A fresh intent.
pub open spec fn prepared_intent(
    s: RegistryView,
    grant: ShareGrant,
    side: ClientSide,
    operation_id: [u8; 16],
    wall: u64,
) -> ClientIntentRow {
    ClientIntentRow {
        grant,
        binding: binding_of(grant),
        side,
        activation_id: None,
        operation_id,
        phase: ClientIntentPhase::Prepared,
        boot_id: s.boot_id,
        started_at_wall: wall,
        terminal_at_wall: None,
    }
}

/// Why an intent is not written down, once the old ones are removed.
pub open spec fn preparing_fault(
    s: RegistryView,
    grant: ShareGrant,
    side: ClientSide,
    operation_id: [u8; 16],
    wall: u64,
) -> Option<ShareError> {
    if s.intents.contains_key(grant.nonce@) {
        let held = s.intents[grant.nonce@];
        if !intent_matches(held, grant, side) {
            Some(ShareError::GrantReplay)
        } else if held.operation_id != operation_id {
            Some(ShareError::Busy)
        } else {
            None
        }
    } else if s.intents.dom().len() >= MAX_AUTHORITY_ROWS || total(listing(s.intents))
        + intent_bytes(prepared_intent(s, grant, side, operation_id, wall)).len()
        > MAX_AUTHORITY_BYTES {
        Some(ShareError::Busy)
    } else {
        None
    }
}

/// What writing an intent down comes to.
pub open spec fn prepares(
    before: RegistryView,
    after: RegistryView,
    result: Result<ClientIntentRow, ShareError>,
    grant: ShareGrant,
    side: ClientSide,
    operation_id: [u8; 16],
    wall: u64,
) -> bool {
    let s = intents_swept(before, wall);
    let refused = grant_fault(grant, grant.owner, grant.share, wall);
    let fault = preparing_fault(s, grant, side, operation_id, wall);
    match result {
        Err(error) => if refused is Some {
            refused == Some(error) && after == before
        } else {
            fault == Some(error) && after == s
        },
        Ok(row) => {
            &&& refused is None
            &&& fault is None
            &&& if s.intents.contains_key(grant.nonce@) {
                row == s.intents[grant.nonce@] && after == s
            } else {
                row == prepared_intent(s, grant, side, operation_id, wall) && after == (
                RegistryView { intents: s.intents.insert(grant.nonce@, row), ..s })
            }
        },
    }
}

/// The steps that an intent can take. What is over stays over, and what is unknown can only be
/// brought to an end.
pub open spec fn advances(from: ClientIntentPhase, to: ClientIntentPhase) -> bool {
    from == to || match from {
        ClientIntentPhase::Prepared => to == ClientIntentPhase::AwaitingActivation || to
            == ClientIntentPhase::Unknown || to == ClientIntentPhase::Cancelled,
        ClientIntentPhase::AwaitingActivation => to == ClientIntentPhase::Active || to
            == ClientIntentPhase::Unknown || to == ClientIntentPhase::Draining || to
            == ClientIntentPhase::Cancelled,
        ClientIntentPhase::Active => to == ClientIntentPhase::Draining || to
            == ClientIntentPhase::Unknown || to == ClientIntentPhase::Drained,
        ClientIntentPhase::Draining => to == ClientIntentPhase::Drained || to
            == ClientIntentPhase::Unknown,
        ClientIntentPhase::Unknown => to == ClientIntentPhase::Draining || to
            == ClientIntentPhase::Drained || to == ClientIntentPhase::Cancelled,
        ClientIntentPhase::Drained => false,
        ClientIntentPhase::Cancelled => false,
    }
}

/// Whether an intent can take a step.
pub fn can_advance(from: ClientIntentPhase, to: ClientIntentPhase) -> (r: bool)
    ensures
        r == advances(from, to),
{
    if from == to {
        return true;
    }
    match from {
        ClientIntentPhase::Prepared => match to {
            ClientIntentPhase::AwaitingActivation
            | ClientIntentPhase::Unknown
            | ClientIntentPhase::Cancelled => true,
            _ => false,
        },
        ClientIntentPhase::AwaitingActivation => match to {
            ClientIntentPhase::Active
            | ClientIntentPhase::Unknown
            | ClientIntentPhase::Draining
            | ClientIntentPhase::Cancelled => true,
            _ => false,
        },
        ClientIntentPhase::Active => match to {
            ClientIntentPhase::Draining
            | ClientIntentPhase::Unknown
            | ClientIntentPhase::Drained => true,
            _ => false,
        },
        ClientIntentPhase::Draining => match to {
            ClientIntentPhase::Drained | ClientIntentPhase::Unknown => true,
            _ => false,
        },
        ClientIntentPhase::Unknown => match to {
            ClientIntentPhase::Draining
            | ClientIntentPhase::Drained
            | ClientIntentPhase::Cancelled => true,
            _ => false,
        },
        ClientIntentPhase::Drained => false,
        ClientIntentPhase::Cancelled => false,
    }
}

/// The intent for exactly this grant, side and operation can take a step.
pub open spec fn may_transition(
    s: RegistryView,
    grant: ShareGrant,
    side: ClientSide,
    operation_id: [u8; 16],
    phase: ClientIntentPhase,
    activation_id: Option<[u8; 16]>,
) -> bool {
    let row = s.intents[grant.nonce@];
    &&& s.intents.contains_key(grant.nonce@)
    &&& intent_matches(row, grant, side)
    &&& row.operation_id == operation_id
    &&& activation_id is Some && row.activation_id is Some ==> activation_id == row.activation_id
    &&& advances(row.phase, phase)
}

/// The intent once it has taken a step.
pub open spec fn transitioned(
    row: ClientIntentRow,
    phase: ClientIntentPhase,
    activation_id: Option<[u8; 16]>,
    now: u64,
) -> ClientIntentRow {
    ClientIntentRow {
        phase,
        activation_id: if row.activation_id is Some {
            row.activation_id
        } else {
            activation_id
        },
        terminal_at_wall: if intent_over(phase) && row.terminal_at_wall is None {
            Some(now)
        } else {
            row.terminal_at_wall
        },
        ..row
    }
}

struct LivingIntents {
    wall: u64,
}

impl Choice<ClientIntentRow> for LivingIntents {
    closed spec fn keeps(&self, item: ClientIntentRow) -> bool {
        !intent_gone(item, self.wall)
    }

    fn keep(&self, item: &ClientIntentRow) -> (r: bool) {
        let over = item.phase == ClientIntentPhase::Drained || item.phase
            == ClientIntentPhase::Cancelled;
        let at = match item.terminal_at_wall {
            Some(at) => at,
            None => item.started_at_wall,
        };
        !(over && at.saturating_add(CLIENT_INTENT_RETENTION_SECONDS) <= self.wall)
    }
}

fn is_match(row: &ClientIntentRow, grant: &ShareGrant, side: ClientSide) -> (r: bool)
    ensures
        r == intent_matches(*row, *grant, side),
{
    row.grant == *grant && row.binding == ActivationBinding::from_grant(grant) && row.side == side
}

impl Registry {
    /// Removes the intents that are over for long enough.
    pub fn gc_client_intents(&mut self, wall: u64)
        requires
            old(self).wf(),
        ensures
            final(self).wf(),
            final(self)@ == intents_swept(old(self)@, wall),
    {
        keep_by(&mut self.intents, &LivingIntents { wall });
        assert(self@.intents =~= intents_swept(old(self)@, wall).intents);
    }

    /// Writes down that this device is about to use its side of a grant. The same operation may
    /// say so again; another one cannot claim the grant.
    pub fn prepare_client_intent(
        &mut self,
        grant: &ShareGrant,
        side: ClientSide,
        operation_id: [u8; 16],
        wall: u64,
    ) -> (result: Result<ClientIntentRow, ShareError>)
        requires
            old(self).wf(),
        ensures
            final(self).wf(),
            prepares(old(self)@, final(self)@, result, *grant, side, operation_id, wall),
    {
        match grant.verify_for(grant.owner, grant.share, wall) {
            Ok(()) => {},
            Err(error) => {
                return Err(error);
            },
        }
        self.gc_client_intents(wall);
        match find(&self.intents, grant.nonce.as_slice()) {
            Some(held) => {
                if !is_match(held, grant, side) {
                    return Err(ShareError::GrantReplay);
                }
                if same_array(&held.operation_id, &operation_id) {
                    return Ok(*held);
                }
                return Err(ShareError::Busy);
            },
            None => {},
        }
        let row = ClientIntentRow {
            grant: *grant,
            binding: ActivationBinding::from_grant(grant),
            side,
            activation_id: None,
            operation_id,
            phase: ClientIntentPhase::Prepared,
            boot_id: self.boot_id,
            started_at_wall: wall,
            terminal_at_wall: None,
        };
        proof {
            lemma_table_size(self.intents@);
            lemma_listing(self.intents@);
        }
        let bytes = total_size(&self.intents).saturating_add(row.size());
        if self.intents.len() >= MAX_AUTHORITY_ROWS || bytes > MAX_AUTHORITY_BYTES {
            return Err(ShareError::Busy);
        }
        put(&mut self.intents, row);
        Ok(row)
    }

    /// Moves an intent on. The same step may be taken again; what is over is not reopened.
    pub fn transition_client_intent(
        &mut self,
        grant: &ShareGrant,
        side: ClientSide,
        operation_id: [u8; 16],
        phase: ClientIntentPhase,
        activation_id: Option<[u8; 16]>,
        now: u64,
    ) -> (result: Result<ClientIntentRow, ShareError>)
        requires
            old(self).wf(),
        ensures
            final(self).wf(),
            match result {
                Ok(row) => {
                    &&& may_transition(
                        old(self)@,
                        *grant,
                        side,
                        operation_id,
                        phase,
                        activation_id,
                    )
                    &&& row == transitioned(
                        old(self)@.intents[grant.nonce@],
                        phase,
                        activation_id,
                        now,
                    )
                    &&& final(self)@ == (RegistryView {
                        intents: old(self)@.intents.insert(grant.nonce@, row),
                        ..old(self)@
                    })
                },
                Err(error) => !may_transition(
                    old(self)@,
                    *grant,
                    side,
                    operation_id,
                    phase,
                    activation_id,
                ) && error == ShareError::GrantReplay && final(self)@ == old(self)@,
            },
    {
        let mut row = match find(&self.intents, grant.nonce.as_slice()) {
            Some(row) => *row,
            None => {
                return Err(ShareError::GrantReplay);
            },
        };
        if !is_match(&row, grant, side) || !same_array(&row.operation_id, &operation_id) {
            return Err(ShareError::GrantReplay);
        }
        match &activation_id {
            Some(id) => match &row.activation_id {
                Some(held) => if !same_array(held, id) {
                    return Err(ShareError::GrantReplay);
                },
                None => {
                    row.activation_id = activation_id;
                },
            },
            None => {},
        }
        if !can_advance(row.phase, phase) {
            return Err(ShareError::GrantReplay);
        }
        row.phase = phase;
        if (phase == ClientIntentPhase::Drained || phase == ClientIntentPhase::Cancelled)
            && row.terminal_at_wall.is_none() {
            row.terminal_at_wall = Some(now);
        }
        put(&mut self.intents, row);
        Ok(row)
    }

    /// What is written down of this device's side of a grant.
    pub fn client_intent(&self, grant: &ShareGrant) -> (row: Option<ClientIntentRow>)
        requires
            self.wf(),
        ensures
            row == (if self@.intents.contains_key(grant.nonce@) {
                Some(self@.intents[grant.nonce@])
            } else {
                None
            }),
    {
        match find(&self.intents, grant.nonce.as_slice()) {
            Some(row) => Some(*row),
            None => None,
        }
    }

    /// Everything that is written down, for recovery after a restart.
    pub fn client_intents(&self) -> (rows: Vec<ClientIntentRow>)
        requires
            self.wf(),
        ensures
            rows@ == listing(self@.intents),
    {
        let mut rows: Vec<ClientIntentRow> = Vec::new();
        let mut i: usize = 0;
        while i < self.intents.len()
            invariant
                i <= self.intents@.len(),
                rows@ == self.intents@.take(i as int),
            decreases self.intents@.len() - i,
        {
            rows.push(self.intents[i]);
            i = i + 1;
            assert(rows@ =~= self.intents@.take(i as int));
        }
        proof {
            assert(rows@ =~= self.intents@);
            lemma_listing(self.intents@);
        }
        rows
    }

    /// What is written down for exactly this grant, side and operation. The grant may have
    /// expired: this starts nothing.
    pub fn client_intent_exact(
        &self,
        grant: &ShareGrant,
        side: ClientSide,
        operation_id: [u8; 16],
    ) -> (row: Result<Option<ClientIntentRow>, ShareError>)
        requires
            self.wf(),
        ensures
            ({
                let refused = grant_signature_fault(*grant, grant.owner, grant.share);
                let held = self@.intents[grant.nonce@];
                match row {
                    Ok(row) => refused is None && if self@.intents.contains_key(grant.nonce@) {
                        row == Some(held) && intent_matches(held, *grant, side)
                            && held.operation_id == operation_id
                    } else {
                        row is None
                    },
                    Err(error) => if refused is Some {
                        refused == Some(error)
                    } else {
                        error == ShareError::GrantReplay && self@.intents.contains_key(
                            grant.nonce@,
                        ) && !(intent_matches(held, *grant, side) && held.operation_id
                            == operation_id)
                    },
                }
            }),
    {
        match grant.verify_signature_for(grant.owner, grant.share) {
            Ok(()) => {},
            Err(error) => {
                return Err(error);
            },
        }
        match self.client_intent(grant) {
            None => Ok(None),
            Some(row) => {
                if !is_match(&row, grant, side) || !same_array(&row.operation_id, &operation_id) {
                    return Err(ShareError::GrantReplay);
                }
                Ok(Some(row))
            },
        }
    }
}

/// Once an intent has come to its end, no step leads out of it.
pub proof fn law_ended_intents_stay_ended(from: ClientIntentPhase, to: ClientIntentPhase)
    requires
        intent_over(from),
        advances(from, to),
    ensures
        to == from,
{
}

/// No step leads from an unknown intent to one that sends or receives.
pub proof fn law_unknown_intents_only_end(from: ClientIntentPhase, to: ClientIntentPhase)
    requires
        from == ClientIntentPhase::Unknown,
        advances(from, to),
    ensures
        to != ClientIntentPhase::Prepared,
        to != ClientIntentPhase::AwaitingActivation,
        to != ClientIntentPhase::Active,
{
}

} // verus!
