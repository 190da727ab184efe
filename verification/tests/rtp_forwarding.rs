//! Rewriting of packets for subscribers.
use oxidesfu_media::rtp_forwarding::feedback::{KeyFrameRequestKind, RecommendedVideoQuality};
use oxidesfu_media::rtp_forwarding::packet::{RtpExtension, RtpHeader, RtpPacket};
use oxidesfu_media::rtp_forwarding::{
    extend_sequence_number_from_reference, ForwardTrackKey, RtpForwardingStore,
    RTP_RETRANSMISSION_CACHE_SIZE,
};

fn forwarding_key(subscriber: &str) -> ForwardTrackKey {
    (
        "room-a".to_string(),
        "publisher-a".to_string(),
        "track-a".to_string(),
        subscriber.to_string(),
    )
}

fn packet_with_seq(sequence_number: u16) -> RtpPacket {
    RtpPacket {
        header: RtpHeader {
            sequence_number,
            ..Default::default()
        },
        ..Default::default()
    }
}

fn packet_with_seq_ssrc_timestamp(
    sequence_number: u16,
    ssrc: u32,
    timestamp: u32,
) -> RtpPacket {
    RtpPacket {
        header: RtpHeader {
            sequence_number,
            ssrc,
            timestamp,
            ..Default::default()
        },
        ..Default::default()
    }
}

#[test]
fn extend_sequence_number_from_reference_tracks_small_increments_without_collapse() {
    let reference = 0_u64;
    assert_eq!(extend_sequence_number_from_reference(1, reference), 1);
    assert_eq!(extend_sequence_number_from_reference(2, 1), 2);
    assert_eq!(extend_sequence_number_from_reference(300, 299), 300);
}

#[test]
fn rewrite_packet_tracks_highest_extended_sequence_across_wrap_and_out_of_order_packets() {
    let mut store = RtpForwardingStore::default();
    let key = forwarding_key("subscriber-a");

    let packets = [65533_u16, 65534_u16, 2_u16, 65535_u16];
    for sequence_number in packets {
        let _ = store.rewrite_packet_for_subscriber(
            &key,
            packet_with_seq_ssrc_timestamp(sequence_number, 123, sequence_number as u32),
        );
    }

    let highest = {
        let state = store
            .states
            .get(&key)
            .expect("subscriber forwarding state should exist");
        state
            .highest_incoming_ext_seq_by_ssrc
            .get(&123)
            .copied()
            .expect("ssrc sequence state should exist")
    };

    assert_eq!(highest as u16, 2);
    assert_eq!(highest, 65_536 + 2);
}

#[test]
fn rewrite_packet_drops_duplicate_incoming_sequence_number() {
    let mut store = RtpForwardingStore::default();
    let key = forwarding_key("subscriber-a");

    let first = store
        .rewrite_packet_for_subscriber(&key, packet_with_seq_ssrc_timestamp(23333, 123, 1_000))
        .expect("first packet should forward");
    assert_eq!(first.header.sequence_number, 23333);

    let duplicate = store
        .rewrite_packet_for_subscriber(&key, packet_with_seq_ssrc_timestamp(23333, 123, 1_000));
    assert!(duplicate.is_none(), "duplicate packet should be dropped");

    let next = store
        .rewrite_packet_for_subscriber(&key, packet_with_seq_ssrc_timestamp(23334, 123, 1_960))
        .expect("next unique packet should forward");
    assert_eq!(next.header.sequence_number, 23334);
}

#[test]
fn target_rewrites_borrow_the_source_packet_and_cache_each_target_representation() {
    let mut store = RtpForwardingStore::default();
    let source = RtpPacket {
        header: RtpHeader {
            sequence_number: 1234,
            timestamp: 56_789,
            ssrc: 0x1111_0001,
            payload_type: 96,
            ..Default::default()
        },
        ..Default::default()
    };
    let source_header = source.header.clone();

    let first_key = forwarding_key("subscriber-a");
    let first = store
        .forwarder_for(&first_key)
        .rewrite_packet_with_target_ssrc_and_payload_type(&source, Some(0x2222_0002), Some(111))
        .expect("first target should rewrite");
    let second_key = forwarding_key("subscriber-b");
    let second = store
        .forwarder_for(&second_key)
        .rewrite_packet_with_target_ssrc_and_payload_type(&source, Some(0x3333_0003), Some(112))
        .expect("second target should rewrite");

    assert_eq!(
        source.header, source_header,
        "source packet must remain reusable"
    );
    assert_eq!(first.header.ssrc, 0x2222_0002);
    assert_eq!(first.header.payload_type, 111);
    assert_eq!(second.header.ssrc, 0x3333_0003);
    assert_eq!(second.header.payload_type, 112);
    assert_eq!(
        store
            .get_retransmission_packet(&first_key, first.header.sequence_number)
            .expect("first target rewrite should be cached"),
        first
    );
    assert_eq!(
        store
            .get_retransmission_packet(&second_key, second.header.sequence_number)
            .expect("second target rewrite should be cached"),
        second
    );
}

#[test]
fn rewrite_packet_with_target_ssrc_rewrites_ssrc_before_caching() {
    let mut store = RtpForwardingStore::default();
    let key = forwarding_key("subscriber-a");

    let rewritten = store
        .rewrite_packet_for_subscriber_with_target_ssrc(
            &key,
            packet_with_seq(1234),
            Some(0x1234_5678),
        )
        .expect("packet should rewrite");

    assert_eq!(rewritten.header.ssrc, 0x1234_5678);

    let cached = store
        .get_retransmission_packet(&key, rewritten.header.sequence_number)
        .expect("rewritten packet should be cached");
    assert_eq!(cached.header.ssrc, 0x1234_5678);
}

#[test]
fn retransmission_cache_evicts_oldest_packet_beyond_capacity() {
    let mut store = RtpForwardingStore::default();
    let key = forwarding_key("subscriber-a");

    for sequence_number in 0..(RTP_RETRANSMISSION_CACHE_SIZE as u16 + 10) {
        let _ = store.rewrite_packet_for_subscriber(&key, packet_with_seq(sequence_number));
    }

    let (cache_len, first_retained, last_retained) = {
        let state = store
            .states
            .get(&key)
            .expect("subscriber forwarding state should exist");
        (
            state.retransmission.map.len(),
            state
                .retransmission
                .order
                .front()
                .copied()
                .unwrap_or_default(),
            state
                .retransmission
                .order
                .back()
                .copied()
                .unwrap_or_default(),
        )
    };

    assert_eq!(cache_len, RTP_RETRANSMISSION_CACHE_SIZE);
    assert_eq!(first_retained, 10);
    assert_eq!(last_retained, RTP_RETRANSMISSION_CACHE_SIZE as u16 + 9);

    assert!(
        store.get_retransmission_packet(&key, 0).is_none(),
        "oldest packet should be evicted from retransmission cache"
    );
    let newest = RTP_RETRANSMISSION_CACHE_SIZE as u16 + 9;
    assert!(
        store.get_retransmission_packet(&key, newest).is_some(),
        "newest packet should remain in retransmission cache"
    );
}

#[test]
fn retransmission_cache_is_isolated_per_subscriber() {
    let mut store = RtpForwardingStore::default();
    let key_a = forwarding_key("subscriber-a");
    let key_b = forwarding_key("subscriber-b");

    let _ = store.rewrite_packet_for_subscriber(&key_a, packet_with_seq(100));

    assert!(store.get_retransmission_packet(&key_a, 100).is_some());
    assert!(
        store.get_retransmission_packet(&key_b, 100).is_none(),
        "retransmission packet should not leak across subscriber states"
    );
}

#[test]
fn rewrite_packet_preserves_outgoing_timestamp_continuity_across_incoming_ssrc_switches() {
    let mut store = RtpForwardingStore::default();
    let key = forwarding_key("subscriber-a");

    let first = store
        .rewrite_packet_for_subscriber_with_target_ssrc(
            &key,
            packet_with_seq_ssrc_timestamp(1, 0x1111_0001, 1_000),
            Some(0x9999_0001),
        )
        .expect("first packet should rewrite");
    let second = store
        .rewrite_packet_for_subscriber_with_target_ssrc(
            &key,
            packet_with_seq_ssrc_timestamp(2, 0x1111_0001, 1_960),
            Some(0x9999_0001),
        )
        .expect("second packet should rewrite");
    let switched = store
        .rewrite_packet_for_subscriber_with_target_ssrc(
            &key,
            packet_with_seq_ssrc_timestamp(3, 0x2222_0002, 120),
            Some(0x9999_0001),
        )
        .expect("switched-ssrc packet should rewrite");

    assert_eq!(first.header.timestamp, 1_000);
    assert_eq!(second.header.timestamp, 1_960);
    assert!(
        switched.header.timestamp > second.header.timestamp,
        "outgoing timestamp should continue increasing across incoming SSRC switch"
    );

    let switched_next = store
        .rewrite_packet_for_subscriber_with_target_ssrc(
            &key,
            packet_with_seq_ssrc_timestamp(4, 0x2222_0002, 1_080),
            Some(0x9999_0001),
        )
        .expect("next switched-ssrc packet should rewrite");
    assert_eq!(
        switched_next
            .header
            .timestamp
            .wrapping_sub(switched.header.timestamp),
        960,
        "timestamp delta should remain stable for packets on the new incoming SSRC"
    );
}

#[test]
fn sender_report_mapping_preserves_monotonic_timestamp_delta_for_same_target_ssrc() {
    let mut store = RtpForwardingStore::default();
    let key = forwarding_key("subscriber-a");

    let first = store.map_sender_report(&key, 1234, 10_000);
    let second = store.map_sender_report(&key, 1234, 10_480);

    assert_eq!(first.ssrc, 1234);
    assert_eq!(second.ssrc, 1234);
    assert_eq!(second.rtp_timestamp.wrapping_sub(first.rtp_timestamp), 480);
}

#[test]
fn media_feedback_summary_marks_degraded_after_sustained_receiver_report_loss() {
    let mut store = RtpForwardingStore::default();
    let key = forwarding_key("subscriber-a");

    store.observe_receiver_report(&key, 1_000, 0x11, 80, 1);
    let first = store.media_feedback_summary(&key, 1_100);
    assert_eq!(first.rr_report_count, 1);
    assert_eq!(first.rr_max_fraction_lost, 80);
    assert!(
        !first.is_degraded,
        "single high-loss RR should not immediately mark sustained degradation"
    );

    store.observe_receiver_report(&key, 1_300, 0x11, 90, 1);
    let second = store.media_feedback_summary(&key, 1_350);
    assert_eq!(second.rr_report_count, 2);
    assert_eq!(second.rr_max_fraction_lost, 90);
    assert!(second.is_degraded);
}

#[test]
fn media_feedback_summary_resets_after_feedback_window_expires() {
    let mut store = RtpForwardingStore::default();
    let key = forwarding_key("subscriber-a");

    store.observe_receiver_report(&key, 2_000, 0x22, 75, 2);
    let before_expiry = store.media_feedback_summary(&key, 2_300);
    assert_eq!(before_expiry.rr_report_count, 2);
    assert!(before_expiry.is_degraded);

    let after_expiry = store.media_feedback_summary(&key, 7_100);
    assert_eq!(after_expiry.rr_report_count, 0);
    assert_eq!(after_expiry.rr_max_fraction_lost, 0);
    assert!(!after_expiry.is_degraded);
}

#[test]
fn media_feedback_summary_tracks_twcc_packet_status_counts_with_windowing() {
    let mut store = RtpForwardingStore::default();
    let key = forwarding_key("subscriber-a");

    store.observe_transport_wide_cc(&key, 10_000, 0x44, 10);
    store.observe_transport_wide_cc(&key, 10_200, 0x44, 7);

    let in_window = store.media_feedback_summary(&key, 10_300);
    assert_eq!(in_window.last_twcc_media_ssrc, Some(0x44));
    assert_eq!(in_window.twcc_packet_status_count, 17);

    let after_expiry = store.media_feedback_summary(&key, 15_500);
    assert_eq!(after_expiry.twcc_packet_status_count, 0);
    assert_eq!(after_expiry.last_twcc_media_ssrc, None);
}

#[test]
fn recommend_video_quality_transitions_low_on_degraded_then_high_on_recovery() {
    let mut store = RtpForwardingStore::default();
    let key = forwarding_key("subscriber-a");

    store.observe_receiver_report(&key, 1_000, 0x55, 80, 1);
    store.observe_receiver_report(&key, 1_200, 0x55, 85, 1);

    let degraded = store.recommend_video_quality(&key, 1_300);
    assert_eq!(degraded, Some(RecommendedVideoQuality::Low));

    let duplicate = store.recommend_video_quality(&key, 1_400);
    assert_eq!(duplicate, None);

    store.observe_receiver_report(&key, 8_000, 0x55, 10, 1);
    store.observe_receiver_report(&key, 8_300, 0x55, 12, 1);

    let recovered = store.recommend_video_quality(&key, 8_500);
    assert_eq!(recovered, Some(RecommendedVideoQuality::High));
}

#[test]
fn recommend_video_quality_requires_recovery_window_reset_after_degraded() {
    let mut store = RtpForwardingStore::default();
    let key = forwarding_key("subscriber-a");

    store.observe_receiver_report(&key, 1_000, 0x66, 90, 1);
    store.observe_receiver_report(&key, 1_200, 0x66, 91, 1);
    assert_eq!(
        store.recommend_video_quality(&key, 1_300),
        Some(RecommendedVideoQuality::Low)
    );

    store.observe_receiver_report(&key, 2_000, 0x66, 10, 1);
    store.observe_receiver_report(&key, 2_200, 0x66, 11, 1);
    assert_eq!(
        store.recommend_video_quality(&key, 2_300),
        None,
        "same feedback window should preserve degraded signal"
    );

    store.observe_receiver_report(&key, 7_000, 0x66, 8, 1);
    store.observe_receiver_report(&key, 7_200, 0x66, 9, 1);
    assert_eq!(
        store.recommend_video_quality(&key, 7_300),
        Some(RecommendedVideoQuality::High)
    );
}

#[test]
fn recommend_video_quality_emits_medium_for_moderate_loss() {
    let mut store = RtpForwardingStore::default();
    let key = forwarding_key("subscriber-a");

    store.observe_receiver_report(&key, 1_000, 0x69, 26, 1);
    store.observe_receiver_report(&key, 1_200, 0x69, 28, 1);

    assert_eq!(
        store.recommend_video_quality(&key, 1_300),
        Some(RecommendedVideoQuality::Medium)
    );
}

#[test]
fn recommend_video_quality_transitions_low_to_medium_to_high() {
    let mut store = RtpForwardingStore::default();
    let key = forwarding_key("subscriber-a");

    // Degraded -> Low
    store.observe_receiver_report(&key, 1_000, 0x70, 80, 1);
    store.observe_receiver_report(&key, 1_100, 0x70, 82, 1);
    assert_eq!(
        store.recommend_video_quality(&key, 1_200),
        Some(RecommendedVideoQuality::Low)
    );

    // Moderate recovery -> Medium (after old degraded window expires + min-gap)
    store.observe_receiver_report(&key, 7_000, 0x70, 30, 1);
    store.observe_receiver_report(&key, 7_200, 0x70, 32, 1);
    assert_eq!(
        store.recommend_video_quality(&key, 7_300),
        Some(RecommendedVideoQuality::Medium)
    );

    // Strong recovery -> High (after moderate-loss window expires + min-gap)
    store.observe_receiver_report(&key, 13_000, 0x70, 5, 1);
    store.observe_receiver_report(&key, 13_200, 0x70, 6, 1);
    assert_eq!(
        store.recommend_video_quality(&key, 13_300),
        Some(RecommendedVideoQuality::High)
    );
}

#[test]
fn recommend_video_quality_isolated_per_subscriber_key() {
    let mut store = RtpForwardingStore::default();
    let key_a = forwarding_key("subscriber-a");
    let key_b = forwarding_key("subscriber-b");

    store.observe_receiver_report(&key_a, 1_000, 0x77, 80, 1);
    store.observe_receiver_report(&key_a, 1_100, 0x77, 82, 1);
    assert_eq!(
        store.recommend_video_quality(&key_a, 1_200),
        Some(RecommendedVideoQuality::Low)
    );

    store.observe_receiver_report(&key_b, 1_000, 0x88, 5, 1);
    store.observe_receiver_report(&key_b, 1_100, 0x88, 7, 1);
    assert_eq!(
        store.recommend_video_quality(&key_b, 1_200),
        Some(RecommendedVideoQuality::High)
    );
}

#[test]
fn recommend_video_quality_rate_limits_flip_flops_within_min_gap() {
    let mut store = RtpForwardingStore::default();
    let key = forwarding_key("subscriber-a");

    store.observe_receiver_report(&key, 100, 0x90, 2, 1);
    store.observe_receiver_report(&key, 200, 0x90, 3, 1);
    assert_eq!(
        store.recommend_video_quality(&key, 300),
        Some(RecommendedVideoQuality::High)
    );

    store.observe_receiver_report(&key, 350, 0x90, 90, 1);
    store.observe_receiver_report(&key, 450, 0x90, 91, 1);
    assert_eq!(
        store.recommend_video_quality(&key, 500),
        None,
        "degraded recommendation should be rate-limited immediately after high recommendation"
    );

    assert_eq!(
        store.recommend_video_quality(&key, 2_600),
        Some(RecommendedVideoQuality::Low),
        "degraded recommendation should emit again once min-gap window expires"
    );
}

#[test]
fn recommend_video_quality_handles_interleaved_multi_subscriber_feedback_under_pressure() {
    let mut store = RtpForwardingStore::default();
    let key_a = forwarding_key("subscriber-a");
    let key_b = forwarding_key("subscriber-b");

    for idx in 0..8_u64 {
        let now = 1_000 + idx * 100;
        store.observe_receiver_report(&key_a, now, 0xA1, 80 + (idx as u8 % 5), 1);
        store.observe_transport_wide_cc(&key_a, now + 10, 0xA1, 4);

        store.observe_receiver_report(&key_b, now, 0xB1, 4 + (idx as u8 % 3), 1);
        store.observe_transport_wide_cc(&key_b, now + 10, 0xB1, 6);
    }

    let a_summary = store.media_feedback_summary(&key_a, 1_900);
    let b_summary = store.media_feedback_summary(&key_b, 1_900);
    assert!(a_summary.is_degraded);
    assert!(!b_summary.is_degraded);
    assert!(a_summary.twcc_packet_status_count > 0);
    assert!(b_summary.twcc_packet_status_count > 0);

    assert_eq!(
        store.recommend_video_quality(&key_a, 1_950),
        Some(RecommendedVideoQuality::Low)
    );
    assert_eq!(
        store.recommend_video_quality(&key_b, 1_950),
        Some(RecommendedVideoQuality::High)
    );
}

#[test]
fn recommend_video_quality_ignores_twcc_only_feedback_without_rr_reports() {
    let mut store = RtpForwardingStore::default();
    let key = forwarding_key("subscriber-a");

    for idx in 0..12_u64 {
        store.observe_transport_wide_cc(&key, 5_000 + idx * 50, 0x44, 10);
    }

    let summary = store.media_feedback_summary(&key, 5_700);
    assert_eq!(summary.rr_report_count, 0);
    assert_eq!(summary.twcc_packet_status_count, 120);
    assert_eq!(store.recommend_video_quality(&key, 5_800), None);
}

#[test]
fn extended_numbers_are_nearest_to_their_reference() {
    assert_eq!(extend_sequence_number_from_reference(65_535, 65_536), 65_535);
    assert_eq!(extend_sequence_number_from_reference(0, 65_535), 65_536);
    assert_eq!(extend_sequence_number_from_reference(32_768, 65_536), 32_768);
    assert_eq!(extend_sequence_number_from_reference(32_767, 65_536), 98_303);
    assert_eq!(extend_sequence_number_from_reference(65_535, 0), 65_535);
    assert_eq!(extend_sequence_number_from_reference(7 + 65_536, 70_000), 65_543);
    assert_eq!(extend_sequence_number_from_reference(0, u64::MAX), u64::MAX - 65_535);
}

#[test]
fn packets_of_two_sources_are_numbered_one_after_the_other() {
    let mut store = RtpForwardingStore::default();
    let key = forwarding_key("subscriber-a");
    let mut numbers = Vec::new();
    for (number, ssrc) in [(65_534, 1), (9_000, 2), (65_535, 1), (9_100, 2)] {
        let packet = packet_with_seq_ssrc_timestamp(number, ssrc, 0);
        let rewritten = store.rewrite_packet_for_subscriber(&key, packet).expect("packet is new");
        numbers.push(rewritten.header.sequence_number);
    }
    assert_eq!(numbers, vec![65_534, 65_535, 0, 1]);
}

#[test]
fn rewritten_packets_keep_everything_else() {
    let mut store = RtpForwardingStore::default();
    let key = forwarding_key("subscriber-a");
    let packet = RtpPacket {
        header: RtpHeader {
            version: 2,
            padding: true,
            extension: true,
            marker: true,
            payload_type: 96,
            sequence_number: 5,
            timestamp: 6,
            ssrc: 7,
            csrc: vec![8, 9],
            extension_profile: 0xbede,
            extensions: vec![RtpExtension { id: 1, payload: vec![2, 3] }],
            extensions_padding: 1,
        },
        payload: vec![4, 5, 6],
    };
    let rewritten = store
        .rewrite_packet_for_subscriber_with_target_ssrc_and_payload_type(
            &key,
            packet.duplicate(),
            Some(70),
            Some(100),
        )
        .expect("packet is new");
    let mut expected = packet.duplicate();
    expected.header.ssrc = 70;
    expected.header.payload_type = 100;
    assert_eq!(rewritten, expected);
}

#[test]
fn requests_are_gated_and_numbered_for_each_target() {
    let mut store = RtpForwardingStore::default();
    let key = forwarding_key("subscriber-a");
    let other = forwarding_key("subscriber-b");
    assert!(store.should_forward_keyframe_request(&key, KeyFrameRequestKind::Pli, 1_000, 300));
    assert!(!store.should_forward_keyframe_request(&key, KeyFrameRequestKind::Pli, 1_299, 300));
    assert!(store.should_forward_keyframe_request(&key, KeyFrameRequestKind::Fir, 1_299, 300));
    assert!(store.should_forward_keyframe_request(&other, KeyFrameRequestKind::Pli, 1_001, 300));
    assert!(store.should_forward_keyframe_request(&key, KeyFrameRequestKind::Pli, 1_300, 300));
    for number in 0..=255 {
        assert_eq!(store.next_fir_sequence_number(&key, 5), number);
    }
    assert_eq!(store.next_fir_sequence_number(&key, 5), 0);
    assert_eq!(store.next_fir_sequence_number(&key, 6), 0);
    assert_eq!(store.next_fir_sequence_number(&other, 5), 0);
}

#[test]
fn removed_targets_start_anew() {
    let mut store = RtpForwardingStore::default();
    let key = forwarding_key("subscriber-a");
    let other = forwarding_key("subscriber-b");
    for target in [&key, &other] {
        let _ = store.rewrite_packet_for_subscriber(target, packet_with_seq(100));
    }
    store.remove("room-a", "publisher-a", "track-a", "subscriber-a");
    assert!(store.get_retransmission_packet(&key, 100).is_none());
    assert!(store.get_retransmission_packet(&other, 100).is_some());

    store.remove_participant("room-b", "subscriber-b");
    assert!(store.get_retransmission_packet(&other, 100).is_some());
    store.remove_participant("room-a", "subscriber-b");
    assert!(store.get_retransmission_packet(&other, 100).is_none());

    let _ = store.rewrite_packet_for_subscriber(&key, packet_with_seq(100));
    store.remove_track("room-a", "publisher-a", "track-b");
    assert!(store.get_retransmission_packet(&key, 100).is_some());
    store.remove_track("room-a", "publisher-a", "track-a");
    assert!(store.get_retransmission_packet(&key, 100).is_none());
}
