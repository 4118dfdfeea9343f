//! Which chunks are fetched from whom.
use std::collections::BTreeSet;

use deltaweave::hash::Hash32;
use deltaweave::swarm::{
    build_overlay, schedule_chunks, ChunkSet, PeerAvailability, SchedulerLimits,
};

fn peer(label: &str, available: &[Hash32], rtt_ms: u32) -> PeerAvailability {
    PeerAvailability {
        id: Hash32::digest(label.as_bytes()),
        available: ChunkSet::from_hashes(available),
        rtt_ms,
        queued_bytes: 0,
        goodput_bytes_per_second: 10 * 1024 * 1024,
        failure_penalty: 0,
    }
}

#[test]
fn scheduler_assigns_rarest_chunks_first() {
    let common = Hash32::digest(b"common");
    let rare = Hash32::digest(b"rare");
    let peers = vec![
        peer("a", &[common, rare], 20),
        peer("b", &[common], 5),
        peer("c", &[common], 10),
    ];

    let assignments = schedule_chunks(&[common, rare], &peers, SchedulerLimits::default());

    assert_eq!(assignments.len(), 2);
    assert_eq!(assignments[0].hash, rare);
    assert_eq!(assignments[0].peer, Hash32::digest(b"a"));
}

#[test]
fn overlay_stays_bounded_for_one_to_one_thousand_peers() {
    for (count, expected_active) in [(1, 1), (10, 6), (100, 8), (1000, 12)] {
        let overlay = build_overlay(Hash32::digest(b"self"), count);
        assert_eq!(overlay.active.len(), expected_active);
        assert!(overlay.active.len() <= 12);
        assert!(overlay.passive.len() <= 64);
        assert!(overlay.active.len() + overlay.passive.len() <= 76);
    }
}

#[test]
fn thousand_peer_simulation_completes_without_full_mesh() {
    let chunks: Vec<_> = (0_u64..512)
        .map(|index| Hash32::digest(&index.to_le_bytes()))
        .collect();
    let overlay = build_overlay(Hash32::digest(b"self"), 1000);
    let peers: Vec<_> = overlay
        .active
        .iter()
        .enumerate()
        .map(|(index, id)| PeerAvailability {
            id: *id,
            available: ChunkSet::from_hashes(&chunks),
            rtt_ms: 5 + index as u32,
            queued_bytes: 0,
            goodput_bytes_per_second: 10 * 1024 * 1024,
            failure_penalty: 0,
        })
        .collect();
    let mut pending = chunks.clone();
    let mut passes = 0;

    while !pending.is_empty() {
        let assignments = schedule_chunks(&pending, &peers, SchedulerLimits::default());
        assert!(!assignments.is_empty());
        let completed: BTreeSet<_> = assignments
            .iter()
            .map(|assignment| assignment.hash)
            .collect();
        pending.retain(|hash| !completed.contains(hash));
        passes += 1;
    }

    assert_eq!(passes, 8);
    assert_eq!(overlay.active.len(), 12);
    assert_eq!(overlay.passive.len(), 64);
    assert!(overlay.active.len() + overlay.passive.len() <= 76);
}

#[test]
fn scheduler_balances_a_complete_plan_across_equivalent_providers() {
    let chunks: Vec<_> = (0_u64..100)
        .map(|index| Hash32::digest(&index.to_le_bytes()))
        .collect();
    let peers = vec![peer("a", &chunks, 10), peer("b", &chunks, 10)];

    let assignments = schedule_chunks(
        &chunks,
        &peers,
        SchedulerLimits {
            max_sources: 2,
            max_chunks_per_peer: chunks.len(),
            max_assignments: chunks.len(),
        },
    );

    let first = assignments
        .iter()
        .filter(|assignment| assignment.peer == peers[0].id)
        .count();
    let second = assignments.len() - first;
    assert_eq!(assignments.len(), chunks.len());
    assert!(first.abs_diff(second) <= 1);
}

#[test]
fn scheduler_respects_global_and_per_peer_limits() {
    let chunks: Vec<_> = (0_u64..200)
        .map(|index| Hash32::digest(&index.to_le_bytes()))
        .collect();
    let peers: Vec<_> = (0..100)
        .map(|index| peer(&format!("peer-{index}"), &chunks, 10 + index))
        .collect();
    let limits = SchedulerLimits {
        max_sources: 8,
        max_chunks_per_peer: 8,
        max_assignments: 64,
    };

    let assignments = schedule_chunks(&chunks, &peers, limits);

    assert_eq!(assignments.len(), 64);
    let used: BTreeSet<_> = assignments
        .iter()
        .map(|assignment| assignment.peer)
        .collect();
    assert!(used.len() <= 8);
    for peer in used {
        assert!(
            assignments
                .iter()
                .filter(|assignment| assignment.peer == peer)
                .count()
                <= 8
        );
    }
}

#[test]
fn chunks_that_nobody_has_are_left_out() {
    let held = Hash32::digest(b"held");
    let missing = Hash32::digest(b"missing");
    let peers = vec![peer("a", &[held], 5)];
    let assignments = schedule_chunks(&[held, missing], &peers, SchedulerLimits::default());
    assert_eq!(assignments.len(), 1);
    assert_eq!(assignments[0].hash, held);
    assert_eq!(assignments[0].peer, peers[0].id);
    assert!(schedule_chunks(&[held], &vec![], SchedulerLimits::default()).is_empty());
}
