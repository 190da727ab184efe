//! Selection of a layer for a subscriber.
use oxidesfu_media::protocol::VideoQuality;
use oxidesfu_media::video_ingress::{
    KeyframeRequest, LayerPacketMetadata, LayerPolicy, SpatialLayer, SubscriberVideoLayerSelector,
    VideoIngressDecision, ACQUISITION_GRACE_TICKS, MAX_KEYFRAME_REQUESTS_PER_ACQUISITION,
    SOURCE_STALE_TICKS,
};

fn packet(ssrc: u32, spatial: SpatialLayer, keyframe: bool) -> LayerPacketMetadata {
    LayerPacketMetadata {
        ssrc,
        spatial: Some(spatial),
        is_decodable_switch_point: keyframe,
    }
}

#[test]
fn high_target_does_not_latch_low_when_high_keyframe_arrives_during_grace() {
    let mut selector =
        SubscriberVideoLayerSelector::new(LayerPolicy::fixed(SpatialLayer::High));
    assert_eq!(
        selector.observe_packet(packet(10, SpatialLayer::Low, true)),
        VideoIngressDecision::DropNonSelectedSsrc
    );
    assert_eq!(
        selector.observe_packet(packet(30, SpatialLayer::High, true)),
        VideoIngressDecision::Forward {
            selected_ssrc_changed: true
        }
    );
    assert_eq!(selector.selected_ssrc(), Some(30));
}

#[test]
fn target_switch_waits_for_a_decodable_boundary() {
    let mut selector = SubscriberVideoLayerSelector::new(LayerPolicy::fixed(SpatialLayer::Low));
    assert_eq!(
        selector.observe_packet(packet(10, SpatialLayer::Low, true)),
        VideoIngressDecision::Forward {
            selected_ssrc_changed: true
        }
    );
    selector.set_policy(LayerPolicy::fixed(SpatialLayer::High));
    assert_eq!(
        selector.observe_packet(packet(30, SpatialLayer::High, false)),
        VideoIngressDecision::DropWaitingForKeyframe
    );
    assert_eq!(selector.selected_ssrc(), Some(10));
    assert_eq!(
        selector.observe_packet(packet(30, SpatialLayer::High, true)),
        VideoIngressDecision::Forward {
            selected_ssrc_changed: true
        }
    );
}

#[test]
fn acquisition_falls_back_once_to_best_seen_allowed_layer_and_retries_are_bounded() {
    let mut selector =
        SubscriberVideoLayerSelector::new(LayerPolicy::fixed(SpatialLayer::High));
    assert_eq!(
        selector.observe_packet(packet(10, SpatialLayer::Low, false)),
        VideoIngressDecision::DropNonSelectedSsrc
    );
    assert_eq!(selector.on_timer(), None);
    assert_eq!(selector.on_timer(), None);
    assert_eq!(selector.on_timer(), None);
    assert_eq!(
        selector.on_timer(),
        Some(KeyframeRequest { media_ssrc: 10 })
    );
    assert_eq!(
        selector.observe_packet(packet(10, SpatialLayer::Low, true)),
        VideoIngressDecision::Forward {
            selected_ssrc_changed: true
        }
    );
    assert_eq!(selector.on_timer(), None);
    assert_eq!(selector.on_timer(), None);
    assert_eq!(selector.current_spatial(), Some(SpatialLayer::Low));
}

#[test]
fn high_low_high_transitions_are_keyframe_gated() {
    let mut selector =
        SubscriberVideoLayerSelector::new(LayerPolicy::fixed(SpatialLayer::High));
    assert_eq!(
        selector.observe_packet(packet(30, SpatialLayer::High, true)),
        VideoIngressDecision::Forward {
            selected_ssrc_changed: true
        }
    );
    selector.set_policy(LayerPolicy::fixed(SpatialLayer::Low));
    assert_eq!(
        selector.observe_packet(packet(10, SpatialLayer::Low, false)),
        VideoIngressDecision::DropWaitingForKeyframe
    );
    assert_eq!(
        selector.observe_packet(packet(10, SpatialLayer::Low, true)),
        VideoIngressDecision::Forward {
            selected_ssrc_changed: true
        }
    );
    selector.set_policy(LayerPolicy::fixed(SpatialLayer::High));
    assert_eq!(
        selector.observe_packet(packet(30, SpatialLayer::High, true)),
        VideoIngressDecision::Forward {
            selected_ssrc_changed: true
        }
    );
}

#[test]
fn selected_source_stays_live_when_later_metadata_disagrees() {
    let mut selector =
        SubscriberVideoLayerSelector::new(LayerPolicy::fixed(SpatialLayer::High));
    assert_eq!(
        selector.observe_packet(packet(30, SpatialLayer::High, true)),
        VideoIngressDecision::Forward {
            selected_ssrc_changed: true
        }
    );

    for _ in 0..(SOURCE_STALE_TICKS + 1) {
        assert_eq!(
            selector.observe_packet(packet(30, SpatialLayer::Low, false)),
            VideoIngressDecision::Forward {
                selected_ssrc_changed: false
            }
        );
        assert_eq!(selector.on_timer(), None);
    }
    assert_eq!(selector.selected_ssrc(), Some(30));
    assert_eq!(selector.current_spatial(), Some(SpatialLayer::High));
}

#[test]
fn stale_current_source_reacquires_a_live_fallback_without_oscillation() {
    let mut selector =
        SubscriberVideoLayerSelector::new(LayerPolicy::fixed(SpatialLayer::High));
    assert_eq!(
        selector.observe_packet(packet(30, SpatialLayer::High, true)),
        VideoIngressDecision::Forward {
            selected_ssrc_changed: true
        }
    );
    // Keep the lower source live while the selected high source disappears.
    assert_eq!(
        selector.observe_packet(packet(10, SpatialLayer::Low, false)),
        VideoIngressDecision::DropNonSelectedSsrc
    );

    for _ in 0..(SOURCE_STALE_TICKS - 1) {
        let _ = selector.observe_packet(packet(10, SpatialLayer::Low, false));
        assert_eq!(selector.on_timer(), None);
        assert_eq!(selector.current_spatial(), Some(SpatialLayer::High));
    }

    // Expiry clears the unavailable current source, waits through acquisition grace, then
    // asks for a decodable low fallback once. It does not promote low on a delta packet.
    let _ = selector.observe_packet(packet(10, SpatialLayer::Low, false));
    assert_eq!(selector.on_timer(), None);
    for _ in 0..(ACQUISITION_GRACE_TICKS - 2) {
        let _ = selector.observe_packet(packet(10, SpatialLayer::Low, false));
        assert_eq!(selector.on_timer(), None);
    }
    let _ = selector.observe_packet(packet(10, SpatialLayer::Low, false));
    assert_eq!(
        selector.on_timer(),
        Some(KeyframeRequest { media_ssrc: 10 })
    );
    assert_eq!(
        selector.observe_packet(packet(10, SpatialLayer::Low, true)),
        VideoIngressDecision::Forward {
            selected_ssrc_changed: true
        }
    );
    assert_eq!(selector.current_spatial(), Some(SpatialLayer::Low));

    for _ in 0..8 {
        let _ = selector.observe_packet(packet(10, SpatialLayer::Low, false));
        assert_eq!(selector.on_timer(), None);
        assert_eq!(selector.current_spatial(), Some(SpatialLayer::Low));
    }

    // A decodable desired-layer packet is concrete renewed availability. It may upgrade the
    // target even though the timer remains quiet while the fallback is stable.
    assert_eq!(
        selector.observe_packet(packet(30, SpatialLayer::High, true)),
        VideoIngressDecision::Forward {
            selected_ssrc_changed: true
        }
    );
    assert_eq!(selector.current_spatial(), Some(SpatialLayer::High));
}

#[test]
fn unavailable_target_has_a_bounded_keyframe_request_budget() {
    let mut selector =
        SubscriberVideoLayerSelector::new(LayerPolicy::fixed(SpatialLayer::High));
    assert_eq!(
        selector.observe_packet(packet(30, SpatialLayer::High, false)),
        VideoIngressDecision::DropWaitingForKeyframe
    );

    let mut requests = 0;
    for _ in 0..20 {
        requests += usize::from(selector.on_timer().is_some());
    }
    assert!(
        (1..=12).contains(&requests),
        "a target acquisition must be bounded without suppressing all retries (requests={requests})"
    );
}

#[test]
fn targets_are_isolated_for_identical_interleaved_packets() {
    let mut high = SubscriberVideoLayerSelector::new(LayerPolicy::fixed(SpatialLayer::High));
    let mut low = SubscriberVideoLayerSelector::new(LayerPolicy::fixed(SpatialLayer::Low));
    for target in [&mut high, &mut low] {
        let _ = target.observe_packet(packet(10, SpatialLayer::Low, true));
        let _ = target.observe_packet(packet(30, SpatialLayer::High, true));
    }
    assert_eq!(high.current_spatial(), Some(SpatialLayer::High));
    assert_eq!(low.current_spatial(), Some(SpatialLayer::Low));
}

#[test]
fn layers_above_the_maximum_and_unknown_layers_are_dropped() {
    let mut selector = SubscriberVideoLayerSelector::new(LayerPolicy::fixed(SpatialLayer::Low));
    assert_eq!(
        selector.observe_packet(packet(30, SpatialLayer::High, true)),
        VideoIngressDecision::DropAboveMaximum
    );
    assert_eq!(
        selector.observe_packet(LayerPacketMetadata {
            ssrc: 40,
            spatial: None,
            is_decodable_switch_point: true,
        }),
        VideoIngressDecision::DropUnknownLayer
    );
    assert_eq!(selector.selected_ssrc(), None);
}

#[test]
fn requests_use_up_the_budget() {
    let mut selector = SubscriberVideoLayerSelector::new(LayerPolicy::fixed(SpatialLayer::High));
    let mut requests: u8 = 0;
    for _ in 0..200 {
        let _ = selector.observe_packet(packet(30, SpatialLayer::High, false));
        if selector.on_timer().is_some() {
            requests += 1;
        }
    }
    assert_eq!(requests, MAX_KEYFRAME_REQUESTS_PER_ACQUISITION);
}

#[test]
fn qualities_have_layers() {
    assert_eq!(SpatialLayer::from_quality(VideoQuality::Low), SpatialLayer::Low);
    assert_eq!(SpatialLayer::from_quality(VideoQuality::Medium), SpatialLayer::Medium);
    assert_eq!(SpatialLayer::from_quality(VideoQuality::High), SpatialLayer::High);
    assert_eq!(SpatialLayer::from_quality(VideoQuality::Off), SpatialLayer::High);
}
