//! Packets of a stream as they come in.
use std::collections::BTreeMap;

use oxidesfu_media::buffer::nack_tracker::NackTrackerLite;
use oxidesfu_media::buffer::{
    CodecChangeDetectorLite, DataStatsLite, FractionLostProxyLite, RtpStatsLite,
};

#[test]
fn data_stats_matches_upstream_contract() {
    let mut stats = DataStatsLite::new(1_000_000_000, 1_000_000_000);

    let aggregate = stats.to_proto_aggregate_only();
    assert_eq!(aggregate.start_time_ns, 1_000_000_000);
    assert!(aggregate.end_time_ns >= aggregate.start_time_ns);
    assert!(aggregate.duration_ns > 0);
    assert_eq!(aggregate.bytes, 0);

    stats.update(100, 1_010_000_000);
    let active = stats.to_proto_active(1_020_000_000);
    assert_eq!(active.bytes, 100);
    assert!(active.bitrate_bps > 0);

    let inactive = stats.to_proto_active(2_200_000_000);
    assert_eq!(inactive, RtpStatsLite::default());

    stats.stop(2_200_000_000);
    let aggregate = stats.to_proto_aggregate_only();
    assert_eq!(aggregate.bytes, 100);
    assert!(aggregate.bitrate_bps > 0);
}

#[test]
fn buffer_fraction_lost_report_matches_upstream_contract() {
    let mut proxy = FractionLostProxyLite::default();

    proxy.set_audio_loss_proxying(true);
    proxy.set_last_fraction_lost_report(55);
    assert_eq!(proxy.rewrite_fraction_lost(10), 55);

    proxy.set_audio_loss_proxying(false);
    assert_eq!(proxy.rewrite_fraction_lost(10), 10);
}

#[test]
fn buffer_codec_change_matches_upstream_contract() {
    let mut detector = CodecChangeDetectorLite::default();

    // packet before bind should be queued, no callback yet
    assert_eq!(detector.write_packet(1, 116), None);

    // bind with expected VP8, queued H265 triggers first codec change
    let changes = detector.bind(96, &[96, 116]);
    assert_eq!(changes, vec![116]);

    // in-order VP8 packet triggers another codec change
    assert_eq!(detector.write_packet(3, 96), Some(96));

    // out-of-order cannot trigger change
    assert_eq!(detector.write_packet(2, 116), None);

    // unknown codec ignored even when in-order
    assert_eq!(detector.write_packet(4, 117), None);

    // in-order H265 triggers change again
    assert_eq!(detector.write_packet(5, 116), Some(116));
}

#[test]
fn buffer_nack_matches_upstream_contract() {
    let mut normal = NackTrackerLite::new(5);
    for seq in 0u16..15u16 {
        if seq == 1 {
            continue;
        }
        normal.on_packet(seq);
    }

    let mut seen = 0usize;
    for _ in 0..6 {
        for nacked in normal.tick() {
            if nacked == 1 {
                seen += 1;
            }
        }
    }
    assert_eq!(
        seen, 5,
        "normal missing packet should be retried exactly 5 times"
    );

    let mut wrapped = NackTrackerLite::new(5);
    wrapped.on_packet(65533);
    wrapped.on_packet(2);

    let mut wrapped_counts: BTreeMap<u16, usize> = BTreeMap::new();
    for _ in 0..5 {
        for nacked in wrapped.tick() {
            *wrapped_counts.entry(nacked).or_insert(0) += 1;
        }
    }

    assert_eq!(wrapped_counts.get(&65534).copied().unwrap_or(0), 5);
    assert_eq!(wrapped_counts.get(&65535).copied().unwrap_or(0), 5);
    assert_eq!(wrapped_counts.get(&0).copied().unwrap_or(0), 5);
    assert_eq!(wrapped_counts.get(&1).copied().unwrap_or(0), 5);
}

#[test]
fn bitrates_are_exact() {
    let mut stats = DataStatsLite::new(1_000_000_000, 0);
    stats.update(125, 500_000_000);
    assert_eq!(stats.to_proto_active(1_000_000_000).bitrate_bps, 1_000);
    stats.update(125, 2_000_000_000);
    assert_eq!(stats.to_proto_active(2_000_000_000).bytes, 125);
    let aggregate = stats.to_proto_aggregate_only();
    assert_eq!(aggregate.duration_ns, 2_000_000_000);
    assert_eq!(aggregate.bitrate_bps, 1_000);
    stats.stop(4_000_000_000);
    stats.update(1, 5_000_000_000);
    assert_eq!(stats.to_proto_aggregate_only().bytes, 250);
    assert_eq!(stats.to_proto_aggregate_only().bitrate_bps, 500);
}

#[test]
fn missing_packets_are_asked_for_in_order() {
    let mut tracker = NackTrackerLite::new(2);
    tracker.on_packet(10);
    tracker.on_packet(14);
    tracker.on_packet(12);
    assert_eq!(tracker.tick(), vec![11, 13]);
    tracker.on_packet(13);
    assert_eq!(tracker.tick(), vec![11]);
    assert!(tracker.tick().is_empty());
}
