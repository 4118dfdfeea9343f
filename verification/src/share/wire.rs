//! What is said between a member and an owner.
use vstd::prelude::*;

use crate::hash::Hash32;
use crate::record::SyncRecord;
use crate::share::authority::{
    ActivateGrantReply, ActivateGrantRequest, ApplyDrained, ApplyPermit, ApplyStart,
    AuthoritativeSnapshot, ManifestAttestation, ShareGrant, SnapshotToken,
};
use crate::share::catalog::Membership;
use crate::share::error::ShareError;
use crate::share::identity::{EndpointId, GrantNonce, ShareId};
use crate::share::roster::{RosterHeartbeat, SignedRoster};
use crate::share::ticket::{LegacyProof, ShareTicket, TicketPreview};

verus! {

/// The version of what is said.
pub const WIRE_VERSION: u8 = 3;

/// The largest byte form of an opening message.
pub const MAX_HELLO_BYTES: u32 = 16384;

/// What a member asks for.
pub enum Operation {
    Validate(ShareTicket),
    Enroll { ticket: ShareTicket, proof_of_identity: Option<LegacyProof> },
    Session,
    /// Asks for a membership that is already there.
    Resume,
    /// Asks for a roster and a challenge for the next heartbeat.
    Roster,
    /// Answers a challenge.
    Heartbeat(RosterHeartbeat),
    /// Asks for a complete snapshot.
    Snapshot,
    /// Asks for the manifest of a record of a snapshot.
    Manifest { snapshot: SnapshotToken, record: SyncRecord },
    /// Asks for leave to fetch some chunks from a provider.
    SwarmGrant {
        provider: EndpointId,
        snapshot: SnapshotToken,
        manifest: ManifestAttestation,
        hashes: Vec<Hash32>,
    },
    /// Asks for leave to apply a snapshot.
    Revalidate { snapshot: SnapshotToken },
    /// Starts to apply.
    ApplyStart(ApplyStart),
    /// Has stopped to apply.
    ApplyDrained(ApplyDrained),
    /// Asks, as a provider, to activate a grant.
    Activate(ActivateGrantRequest),
    /// Has stopped its side of a grant.
    GrantDrained { nonce: GrantNonce, activation_id: [u8; 16] },
}

/// The opening message of a member.
pub struct Hello {
    pub version: u8,
    pub share_id: ShareId,
    pub operation: Operation,
}

/// What an owner answers.
pub enum Reply {
    Validated(TicketPreview),
    Enrolled(Membership),
    Accepted,
    Error(ShareError),
    Resumed(Membership),
    Roster { roster: SignedRoster, challenge: GrantNonce },
    Heartbeat(SignedRoster),
    Snapshot(AuthoritativeSnapshot),
    Manifest(ManifestAttestation),
    Grant(ShareGrant),
    ApplyPermit(ApplyPermit),
    Activate(ActivateGrantReply),
    ApplyAccepted,
    GrantDrained,
}

/// Checks the length of an opening message before it is read.
pub fn check_hello_length(length: u32) -> (result: Result<usize, ShareError>)
    ensures
        match result {
            Ok(size) => length <= MAX_HELLO_BYTES && size == length,
            Err(error) => length > MAX_HELLO_BYTES && error == ShareError::Protocol,
        },
{
    if length > MAX_HELLO_BYTES {
        return Err(ShareError::Protocol);
    }
    Ok(length as usize)
}

/// Checks an opening message that was read: its version, and that its bytes are the ones that it
/// would be written as.
pub fn check_hello(version: u8, canonical: bool) -> (result: Result<(), ShareError>)
    ensures
        match result {
            Ok(()) => version == WIRE_VERSION && canonical,
            Err(error) => error == (if version != WIRE_VERSION {
                ShareError::UnsupportedVersion
            } else {
                ShareError::Protocol
            }) && !(version == WIRE_VERSION && canonical),
        },
{
    if version != WIRE_VERSION {
        return Err(ShareError::UnsupportedVersion);
    }
    if !canonical {
        return Err(ShareError::Protocol);
    }
    Ok(())
}

/// Takes an answer, a refusal as an error.
pub fn answered(reply: Reply) -> (result: Result<Reply, ShareError>)
    ensures
        result == (match reply {
            Reply::Error(error) => Err::<Reply, ShareError>(error),
            other => Ok(other),
        }),
{
    match reply {
        Reply::Error(error) => Err(error),
        other => Ok(other),
    }
}

/// Checks the answer to the opening of a session.
pub fn session_opened(reply: &Reply) -> (result: Result<(), ShareError>)
    ensures
        result == (match *reply {
            Reply::Accepted => Ok::<(), ShareError>(()),
            Reply::Error(error) => Err(error),
            _ => Err(ShareError::Protocol),
        }),
{
    match reply {
        Reply::Accepted => Ok(()),
        Reply::Error(error) => Err(*error),
        _ => Err(ShareError::Protocol),
    }
}

} // verus!
