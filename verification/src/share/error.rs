//! What can go wrong with a share, and what of it a peer is told.
use vstd::prelude::*;

use crate::manifest::ManifestError;
use crate::reconcile::ReconcileError;
use crate::record::SyncRecordError;

verus! {

/// Why a share operation is refused.
#[derive(Clone, Copy, Debug, PartialEq, Eq, Structural)]
pub enum ShareError {
    InvalidTicket,
    UnsupportedVersion,
    Expired,
    InvitationRevoked,
    MemberRevoked,
    PermissionDenied,
    UnknownShare,
    NotMember,
    ReplicaClaimRejected,
    InvalidRecord,
    Busy,
    Offline,
    StateUnavailable,
    Protocol,
    OwnerMismatch,
    TransferFailed,
    HeartbeatExpired,
    HeartbeatReplay,
    EpochMismatch,
    EndpointMismatch,
    ClockRollback,
    RosterStale,
    GrantExpired,
    GrantReplay,
    ManifestMismatch,
    CasUnavailable,
    RevocationPending,
}

/// Any failure of a share operation. Only the first kind is told to a peer as it is.
#[derive(Clone, Copy, Debug, PartialEq, Eq, Structural)]
pub enum ShareFault {
    /// A refusal.
    Share(ShareError),
    /// A record breaks its schema.
    Record(SyncRecordError),
    /// A snapshot cannot be loaded.
    Reconcile(ReconcileError),
    /// A manifest breaks its schema.
    Manifest(ManifestError),
}

/// The text that a refusal is shown as.
pub open spec fn error_text(error: ShareError) -> Seq<char> {
    match error {
        ShareError::InvalidTicket => "invalid share key"@,
        ShareError::UnsupportedVersion => "unsupported share key version"@,
        ShareError::Expired => "share key expired"@,
        ShareError::InvitationRevoked => "share key revoked"@,
        ShareError::MemberRevoked => "membership revoked"@,
        ShareError::PermissionDenied => "share permission denied"@,
        ShareError::UnknownShare => "share unavailable"@,
        ShareError::NotMember => "share enrollment required"@,
        ShareError::ReplicaClaimRejected => "legacy identity proof rejected"@,
        ShareError::InvalidRecord => "invalid causal record"@,
        ShareError::Busy => "share busy; retry"@,
        ShareError::Offline => "share owner unavailable"@,
        ShareError::StateUnavailable => "private share state unavailable"@,
        ShareError::Protocol => "invalid share protocol"@,
        ShareError::OwnerMismatch => "share owner mismatch"@,
        ShareError::TransferFailed => "share transfer failed"@,
        ShareError::HeartbeatExpired => "share heartbeat expired"@,
        ShareError::HeartbeatReplay => "share heartbeat replayed"@,
        ShareError::EpochMismatch => "share permission epoch mismatch"@,
        ShareError::EndpointMismatch => "share endpoint mismatch"@,
        ShareError::ClockRollback => "share clock rollback"@,
        ShareError::RosterStale => "share roster is stale"@,
        ShareError::GrantExpired => "share grant expired"@,
        ShareError::GrantReplay => "share grant replayed"@,
        ShareError::ManifestMismatch => "share manifest mismatch"@,
        ShareError::CasUnavailable => "share content unavailable"@,
        ShareError::RevocationPending => "share revocation is pending"@,
    }
}

/// What a peer is told of a failure: a refusal as it is, anything else only as a failed transfer.
pub open spec fn classified(fault: ShareFault) -> ShareError {
    match fault {
        ShareFault::Share(error) => error,
        _ => ShareError::TransferFailed,
    }
}

impl ShareError {
    /// What a peer is told of a failure. No internal cause crosses this boundary.
    pub fn classify(fault: &ShareFault) -> (error: Self)
        ensures
            error == classified(*fault),
    {
        match fault {
            ShareFault::Share(error) => *error,
            _ => ShareError::TransferFailed,
        }
    }

    /// The text that the refusal is shown as.
    pub fn message(&self) -> (text: &'static str)
        ensures
            text@ == error_text(*self),
    {
        match self {
            ShareError::InvalidTicket => "invalid share key",
            ShareError::UnsupportedVersion => "unsupported share key version",
            ShareError::Expired => "share key expired",
            ShareError::InvitationRevoked => "share key revoked",
            ShareError::MemberRevoked => "membership revoked",
            ShareError::PermissionDenied => "share permission denied",
            ShareError::UnknownShare => "share unavailable",
            ShareError::NotMember => "share enrollment required",
            ShareError::ReplicaClaimRejected => "legacy identity proof rejected",
            ShareError::InvalidRecord => "invalid causal record",
            ShareError::Busy => "share busy; retry",
            ShareError::Offline => "share owner unavailable",
            ShareError::StateUnavailable => "private share state unavailable",
            ShareError::Protocol => "invalid share protocol",
            ShareError::OwnerMismatch => "share owner mismatch",
            ShareError::TransferFailed => "share transfer failed",
            ShareError::HeartbeatExpired => "share heartbeat expired",
            ShareError::HeartbeatReplay => "share heartbeat replayed",
            ShareError::EpochMismatch => "share permission epoch mismatch",
            ShareError::EndpointMismatch => "share endpoint mismatch",
            ShareError::ClockRollback => "share clock rollback",
            ShareError::RosterStale => "share roster is stale",
            ShareError::GrantExpired => "share grant expired",
            ShareError::GrantReplay => "share grant replayed",
            ShareError::ManifestMismatch => "share manifest mismatch",
            ShareError::CasUnavailable => "share content unavailable",
            ShareError::RevocationPending => "share revocation is pending",
        }
    }
}

} // verus!
