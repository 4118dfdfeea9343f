//! What a member's request is answered, told by the request and by what the registry holds.
use vstd::prelude::*;

use crate::hash::hash_with;
use crate::manifest::ManifestView;
use crate::merkle::{gathered, root_digest};
use crate::record::{logical_digest, RecordView, SyncEntryKind};
use crate::share::activation::{draining_fault, with_drained};
use crate::share::applies::{stopping_fault, with_stopped};
use crate::share::authority::{AttestationView, SnapshotToken};
use crate::share::catalog::honouring_fault;
use crate::share::error::{classified, ShareError, ShareFault};
use crate::share::grants::record_with;
use crate::share::handler::{
    grant_request_fault, manifest_fault_for, runs, sends_manifest, sends_snapshot, snapshot_made,
    Served, Step,
};
use crate::share::identity::{public_id, EndpointId, ShareId, SnapshotId};
use crate::share::registry::RegistryView;
use crate::share::roster_laws::after_seconds;
use crate::share::trust_laws::law_token_is_taken_for_what_it_says;
use crate::share::wire::{Operation, Reply};

verus! {

/// The device is a member of the share, and not revoked.
pub open spec fn may_use(s: RegistryView, share: ShareId, peer: EndpointId) -> bool {
    &&& s.catalog.shares.contains_key(share@)
    &&& s.catalog.shares[share@].members.contains_key(peer@)
    &&& s.catalog.shares[share@].members[peer@].revoked_at is None
}

/// The request is answered with a refusal.
pub open spec fn is_refusal(step: Step) -> bool {
    match step {
        Step::Answer(Reply::Error(_)) => true,
        _ => false,
    }
}

/// A share that is not served is unknown to whoever asks. One that is paused answers nothing but
/// that something has stopped: all else is turned away as busy. Either way nothing changes.
pub proof fn law_paused_share_takes_only_acknowledgements(
    before: RegistryView,
    after: RegistryView,
    step: Step,
    secret: Seq<u8>,
    served: Option<Served>,
    share: ShareId,
    peer: EndpointId,
    operation: Operation,
    started: u64,
    moment: u64,
    now: u64,
)
    requires
        runs(before, after, step, secret, served, share, peer, operation, started, moment, now),
    ensures
        served is None ==> step == Step::Answer(Reply::Error(ShareError::UnknownShare)) && after
            == before,
        served is Some && !served->0.enabled ==> match operation {
            Operation::ApplyDrained(_) => true,
            Operation::GrantDrained { .. } => true,
            _ => step == Step::Answer(Reply::Error(ShareError::Busy)) && after == before,
        },
{
}

/// A request on snapshots, grants or applies that reaches the server of another share is turned
/// away, and nothing changes.
pub proof fn law_share_is_served_by_its_own_server(
    before: RegistryView,
    after: RegistryView,
    step: Step,
    secret: Seq<u8>,
    served: Served,
    share: ShareId,
    peer: EndpointId,
    operation: Operation,
    started: u64,
    moment: u64,
    now: u64,
)
    requires
        runs(
            before,
            after,
            step,
            secret,
            Some(served),
            share,
            peer,
            operation,
            started,
            moment,
            now,
        ),
        served.share != share,
        operation is Snapshot || operation is Manifest || operation is SwarmGrant || operation
            is Revalidate || operation is ApplyStart || operation is ApplyDrained || operation
            is Activate || operation is GrantDrained,
    ensures
        is_refusal(step),
        after == before,
        served.enabled ==> step == Step::Answer(Reply::Error(ShareError::UnknownShare)),
{
}

/// A member that is not revoked is let in to a session, is given its membership, and gets what it
/// asks for done: a snapshot for its own epoch, leave to apply the snapshot that it names, the
/// start of the apply that it names. Whoever is no such member is refused. None of these requests
/// changes anything before it is carried out.
pub proof fn law_members_are_served(
    before: RegistryView,
    after: RegistryView,
    step: Step,
    secret: Seq<u8>,
    served: Served,
    share: ShareId,
    peer: EndpointId,
    operation: Operation,
    started: u64,
    moment: u64,
    now: u64,
)
    requires
        runs(
            before,
            after,
            step,
            secret,
            Some(served),
            share,
            peer,
            operation,
            started,
            moment,
            now,
        ),
        served.enabled,
        served.share == share,
    ensures
        match operation {
            Operation::Session => after == before && if may_use(before, share, peer) {
                step == Step::Answer(Reply::Accepted)
            } else {
                is_refusal(step)
            },
            Operation::Resume => after == before && if may_use(before, share, peer) {
                step == Step::Answer(
                    Reply::Resumed(before.catalog.shares[share@].members[peer@]),
                )
            } else {
                is_refusal(step)
            },
            Operation::Snapshot => after == before && if may_use(before, share, peer) {
                step == Step::TakeSnapshot {
                    epoch: before.catalog.shares[share@].members[peer@].epoch,
                }
            } else {
                is_refusal(step)
            },
            Operation::Revalidate { snapshot } => after == before && if may_use(
                before,
                share,
                peer,
            ) {
                step == Step::PermitApply { snapshot }
            } else {
                is_refusal(step)
            },
            Operation::ApplyStart(start) => after == before && if may_use(before, share, peer) {
                step == Step::StartApply(start)
            } else {
                is_refusal(step)
            },
            Operation::Manifest { snapshot, record } => after == before && (step
                == Step::AttestManifest { snapshot, record } || is_refusal(step)) && (!may_use(
                before,
                share,
                peer,
            ) ==> is_refusal(step)),
            _ => true,
        },
{
}

/// A key that is shown for another share than the one it is for is refused, whether it is shown to
/// be looked at or to become a member, and nothing changes. To look at a key changes nothing, and
/// shows what the key says exactly if its share honours it.
pub proof fn law_key_is_shown_to_its_own_share(
    before: RegistryView,
    after: RegistryView,
    step: Step,
    secret: Seq<u8>,
    served: Served,
    share: ShareId,
    peer: EndpointId,
    operation: Operation,
    started: u64,
    moment: u64,
    now: u64,
)
    requires
        runs(
            before,
            after,
            step,
            secret,
            Some(served),
            share,
            peer,
            operation,
            started,
            moment,
            now,
        ),
        served.enabled,
    ensures
        match operation {
            Operation::Validate(ticket) => {
                &&& after == before
                &&& ticket.body.share_id != share ==> step == Step::Answer(
                    Reply::Error(ShareError::InvalidTicket),
                )
                &&& match step {
                    Step::Answer(Reply::Validated(shown)) => {
                        &&& ticket.body.share_id == share
                        &&& before.catalog.shares.contains_key(share@)
                        &&& honouring_fault(before.catalog.shares[share@], ticket@, now) is None
                        &&& shown.share_id == share
                        &&& shown.owner == ticket.body.owner
                        &&& shown.name@ == ticket.body.name@
                        &&& shown.permission == ticket.body.permission
                        &&& shown.invitation_id == ticket.body.invitation_id
                        &&& shown.expires_at == ticket.body.expires_at
                    },
                    Step::Answer(Reply::Error(_)) => !(ticket.body.share_id == share
                        && before.catalog.shares.contains_key(share@) && honouring_fault(
                        before.catalog.shares[share@],
                        ticket@,
                        now,
                    ) is None),
                    _ => false,
                }
            },
            Operation::Enroll { ticket, .. } => {
                &&& ticket.body.share_id != share ==> step == Step::Answer(
                    Reply::Error(ShareError::InvalidTicket),
                ) && after == before
                &&& match step {
                    Step::Answer(Reply::Enrolled(member)) => {
                        &&& ticket.body.share_id == share
                        &&& peer != before.catalog.owner
                        &&& after.catalog.shares[share@].members[peer@] == member
                        &&& honouring_fault(before.catalog.shares[share@], ticket@, now) is None
                    },
                    Step::Answer(Reply::Error(_)) => after.catalog == before.catalog,
                    _ => false,
                }
            },
            _ => true,
        },
{
}

proof fn lemma_record_found(records: Seq<RecordView>, digest: Seq<u8>, i: int)
    requires
        0 <= i,
    ensures
        match record_with(records, digest, i) {
            Some(record) => logical_digest(record) == digest && exists|k: int|
                i <= k < records.len() && #[trigger] records[k] == record,
            None => forall|k: int|
                i <= k < records.len() ==> logical_digest(#[trigger] records[k]) != digest,
        },
    decreases records.len() - i,
{
    if i < records.len() {
        lemma_record_found(records, digest, i + 1);
    }
}

/// A manifest is attested only for a member that is not revoked, under a token that the owner has
/// given out for the share and that still holds, for a record of the very snapshot that is kept
/// under that token, and only for a file that is there. Where the digests of the records of the
/// snapshot tell them apart, every such request is met.
pub proof fn law_manifest_is_of_a_kept_snapshot(
    s: RegistryView,
    owner: EndpointId,
    share: ShareId,
    peer: EndpointId,
    snapshot: SnapshotToken,
    record: RecordView,
    now: u64,
)
    ensures
        manifest_fault_for(s, owner, share, peer, snapshot, record, now) is None ==> {
            &&& may_use(s, share, peer)
            &&& snapshot.owner == owner
            &&& snapshot.share == share
            &&& snapshot.issued_at <= after_seconds(now, 5)
            &&& now < snapshot.expires_at
            &&& s.snapshots.contains_key(snapshot.snapshot@)
            &&& s.snapshots[snapshot.snapshot@].token == snapshot
            &&& exists|k: int|
                0 <= k < s.snapshots[snapshot.snapshot@]@.records.len()
                    && #[trigger] s.snapshots[snapshot.snapshot@]@.records[k] == record
            &&& !record.tombstone
            &&& record.kind == SyncEntryKind::File
        },
        ({
            &&& may_use(s, share, peer)
            &&& crate::share::authority::token_fault(snapshot, owner, share, now) is None
            &&& s.snapshots.contains_key(snapshot.snapshot@)
            &&& s.snapshots[snapshot.snapshot@].token == snapshot
            &&& exists|k: int|
                0 <= k < s.snapshots[snapshot.snapshot@]@.records.len()
                    && #[trigger] s.snapshots[snapshot.snapshot@]@.records[k] == record
            &&& forall|k: int|
                0 <= k < s.snapshots[snapshot.snapshot@]@.records.len() && logical_digest(
                    #[trigger] s.snapshots[snapshot.snapshot@]@.records[k],
                ) == logical_digest(record) ==> s.snapshots[snapshot.snapshot@]@.records[k]
                    == record
            &&& !record.tombstone
            &&& record.kind == SyncEntryKind::File
        }) ==> manifest_fault_for(s, owner, share, peer, snapshot, record, now) is None,
{
    lemma_record_found(
        s.snapshots[snapshot.snapshot@]@.records,
        logical_digest(record),
        0,
    );
    law_token_is_taken_for_what_it_says(snapshot, owner, share, now);
}

/// A grant is asked for of the share that both the snapshot and the manifest are of, under one
/// epoch, and from another device than the one that asks.
pub proof fn law_grant_is_asked_for_one_share(
    share: ShareId,
    peer: EndpointId,
    provider: EndpointId,
    snapshot: SnapshotToken,
    manifest: AttestationView,
)
    ensures
        grant_request_fault(share, peer, provider, snapshot, manifest) is None <==> snapshot.share
            == share && manifest.share == share && manifest.epoch == snapshot.epoch && provider
            != peer,
        provider == peer && snapshot.share == share && manifest.share == share && manifest.epoch
            == snapshot.epoch ==> grant_request_fault(share, peer, provider, snapshot, manifest)
            == Some(ShareError::EndpointMismatch),
{
}

/// A snapshot holds the records of the share as they are, and its token says whose it is, for which
/// share and epoch, what its records come to and how many they are, and that it holds for ninety
/// seconds from now on.
pub proof fn law_snapshot_says_what_it_holds(
    secret: Seq<u8>,
    share: ShareId,
    epoch: u64,
    records: Seq<RecordView>,
    id: SnapshotId,
    now: u64,
)
    requires
        records.len() <= u32::MAX,
    ensures
        ({
            let made = snapshot_made(secret, share, epoch, records, id, now);
            &&& made.records == records
            &&& made.token.version == 1
            &&& made.token.owner == public_id(secret)
            &&& made.token.share == share
            &&& made.token.epoch == epoch
            &&& made.token.snapshot == id
            &&& made.token.root_hash == hash_with(root_digest(gathered(records)))
            &&& made.token.record_count == records.len()
            &&& made.token.issued_at == now
            &&& made.token.expires_at == after_seconds(now, 90)
        }),
{
}

/// The snapshot that is sent is the one that is kept: under its identity there is one that says the
/// same.
pub proof fn law_sent_snapshot_is_kept(
    before: RegistryView,
    after: RegistryView,
    result: Result<Reply, ShareFault>,
    secret: Seq<u8>,
    share: ShareId,
    epoch: u64,
    records: Seq<RecordView>,
    id: SnapshotId,
    now: u64,
)
    requires
        sends_snapshot(before, after, result, secret, share, epoch, records, id, now),
        result is Ok,
    ensures
        match result {
            Ok(Reply::Snapshot(sent)) => {
                &&& sent@.records == records
                &&& sent.token.share == share
                &&& sent.token.epoch == epoch
                &&& sent.token.snapshot == id
                &&& after.snapshots.contains_key(id@)
                &&& after.snapshots[id@]@ == sent@
            },
            _ => false,
        },
{
}

/// A manifest that is attested is the one that was read of the file, for the record and the
/// snapshot that were asked for, and it holds for ninety seconds from now on.
pub proof fn law_attested_manifest_is_the_one_of_the_file(
    result: Result<Reply, ShareFault>,
    secret: Seq<u8>,
    share: ShareId,
    snapshot: SnapshotToken,
    record: RecordView,
    manifest: ManifestView,
    now: u64,
)
    requires
        sends_manifest(result, secret, share, snapshot, record, manifest, now),
        result is Ok,
    ensures
        match result {
            Ok(Reply::Manifest(sent)) => {
                &&& sent@.owner == public_id(secret)
                &&& sent@.share == share
                &&& sent@.share == snapshot.share
                &&& sent@.epoch == snapshot.epoch
                &&& sent@.snapshot == snapshot.snapshot
                &&& sent@.record_hash@ == logical_digest(record)
                &&& sent@.manifest == manifest
                &&& sent@.issued_at == now
                &&& sent@.expires_at == after_seconds(now, 90)
                &&& record.kind == SyncEntryKind::File
                &&& !record.tombstone
                &&& record.content_hash == Some(manifest.file_hash)
                &&& record.size == manifest.size
            },
            _ => false,
        },
{
}

/// A request that speaks of another share than the one it was sent for is refused, and nothing
/// changes but the clock. That something has stopped is taken from a device whatever its standing,
/// and changes what the acknowledgement changes.
pub proof fn law_request_is_for_the_share_it_was_sent_for(
    before: RegistryView,
    after: RegistryView,
    step: Step,
    secret: Seq<u8>,
    served: Served,
    share: ShareId,
    peer: EndpointId,
    operation: Operation,
    started: u64,
    moment: u64,
    now: u64,
)
    requires
        runs(
            before,
            after,
            step,
            secret,
            Some(served),
            share,
            peer,
            operation,
            started,
            moment,
            now,
        ),
        served.share == share,
    ensures
        match operation {
            Operation::Heartbeat(heartbeat) => heartbeat@.share != share || heartbeat@.member
                != peer ==> is_refusal(step) && after.rosters == before.rosters && after.challenges
                == before.challenges,
            Operation::Activate(request) => request.share != share || request.provider != peer
                ==> is_refusal(step) && after.grants == before.grants,
            Operation::SwarmGrant { provider, snapshot, manifest, .. } => snapshot.share != share
                || manifest@.share != share || manifest@.epoch != snapshot.epoch || provider == peer
                ==> is_refusal(step) && after == before,
            Operation::ApplyDrained(drained) => if stopping_fault(
                before,
                public_id(secret),
                share,
                peer,
                drained,
            ) is None {
                step == Step::Answer(Reply::ApplyAccepted) && after == with_stopped(before, drained)
            } else {
                is_refusal(step) && after == before
            },
            Operation::GrantDrained { nonce, activation_id } => if draining_fault(
                before,
                share,
                nonce,
                activation_id,
                peer,
            ) is None {
                step == Step::Answer(Reply::GrantDrained) && after == with_drained(
                    before,
                    nonce,
                    peer,
                )
            } else {
                is_refusal(step) && after == before
            },
            _ => true,
        },
{
}

/// A peer is told a refusal as it is, and of everything else only that the transfer has failed.
pub proof fn law_no_cause_is_told(fault: ShareFault)
    ensures
        match fault {
            ShareFault::Share(error) => classified(fault) == error,
            _ => classified(fault) == ShareError::TransferFailed,
        },
{
}

} // verus!
