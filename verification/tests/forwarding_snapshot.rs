//! Snapshots of forwarding.
use oxidesfu_media::forwarding_snapshot::{
    join_lines, DownstreamFeedbackSnapshot, ForwardingResultSnapshot, ForwardingSnapshot,
    ForwardingSnapshotStore, ForwardingTargetSnapshot, RtpWindowSnapshot, SelectorPliSnapshot,
    SpatialSelectionSnapshot, TemporalSelectionSnapshot, MAX_TARGETS_PER_SNAPSHOT,
};

fn target(number: usize) -> ForwardingTargetSnapshot {
    ForwardingTargetSnapshot {
        subscriber_identity: format!("subscriber-{number}"),
        spatial: SpatialSelectionSnapshot {
            source_kind: "simulcast",
            maximum: "high",
            desired: "high",
            current: None,
            selected_ssrc: None,
            selected_rid: None,
            acquisition_state: "waiting",
            waiting_for: "high",
            acquisition_ticks: 0,
            remaining_pli_requests: 0,
            transitions: 0,
        },
        temporal: TemporalSelectionSnapshot { maximum: None, desired: None, current: None },
        rtp_window: RtpWindowSnapshot {
            packets: 0,
            wire_bytes: 0,
            packets_per_second: 0,
            wire_bytes_per_second: 0,
        },
        selector_pli: SelectorPliSnapshot {
            sent: 0,
            suppressed_stable: 0,
            suppressed_fallback_locked: 0,
            suppressed_budget_exhausted: 0,
            suppressed_retry_or_no_target: 0,
        },
        downstream_feedback: DownstreamFeedbackSnapshot {
            pli_received: 0,
            pli_sent: 0,
            pli_suppressed: 0,
            fir_received: 0,
            fir_sent: 0,
            fir_suppressed: 0,
        },
        forwarding: ForwardingResultSnapshot {
            rewrite_drops: 0,
            write_errors: 0,
            drop_waiting_for_keyframe: 0,
            drop_non_selected_ssrc: 0,
            drop_above_maximum: 0,
            drop_unknown_layer: 0,
            drop_temporal_above_maximum: 0,
            drop_temporal_above_desired: 0,
            drop_temporal_timestamp_cap: 0,
        },
    }
}

fn snapshot(sequence: u64, targets: usize) -> ForwardingSnapshot {
    ForwardingSnapshot {
        schema_version: 1,
        sequence,
        window_duration_ms: 1_000,
        room: "room".to_string(),
        publisher_identity: "publisher".to_string(),
        track_sid: "TR_a".to_string(),
        targets: (0..targets).map(target).collect(),
    }
}

#[test]
fn the_newest_snapshots_are_kept() {
    let mut store = ForwardingSnapshotStore::new(2);
    for sequence in 1..=3 {
        store.push(snapshot(sequence, 1));
    }
    let kept: Vec<u64> = store.snapshots.iter().map(|snapshot| snapshot.sequence).collect();
    assert_eq!(kept, vec![2, 3]);
}

#[test]
fn at_least_one_snapshot_is_kept() {
    let mut store = ForwardingSnapshotStore::new(0);
    store.push(snapshot(1, 0));
    store.push(snapshot(2, 0));
    assert_eq!(store.capacity, 1);
    assert_eq!(store.snapshots.len(), 1);
    assert_eq!(store.snapshots[0].sequence, 2);
}

#[test]
fn snapshots_are_bounded() {
    let bounded = snapshot(1, MAX_TARGETS_PER_SNAPSHOT + 3).bounded();
    assert_eq!(bounded.targets.len(), MAX_TARGETS_PER_SNAPSHOT);
    assert_eq!(bounded.targets[0].subscriber_identity, "subscriber-0");
    assert_eq!(snapshot(1, 3).bounded().targets.len(), 3);
}

#[test]
fn lines_are_joined() {
    assert_eq!(join_lines(&vec![]), "");
    assert_eq!(join_lines(&vec![None, Some("a".to_string()), None, Some("b".to_string())]), "a\nb");
    assert_eq!(join_lines(&vec![Some(String::new()), Some("b".to_string())]), "\nb");
}
