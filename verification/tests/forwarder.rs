//! What subscribers get.
use oxidesfu_media::forwarder::allocation::{
    VideoAllocationLite, VideoPauseReasonLite, VideoTransitionLite,
};
use oxidesfu_media::forwarder::translation::{
    AudioPacketLite, SequenceOrderingLite, SnTsLite, TranslationParamsLite, TranslationRtpLite,
    VideoPacketLite, Vp8InfoLite, Vp8PaddingLite,
};
use oxidesfu_media::forwarder::{
    default_max_layer, CodecKindLite, ForwarderLite, DEFAULT_MAX_SPATIAL, DEFAULT_MAX_TEMPORAL,
    INVALID_SPATIAL,
};
use oxidesfu_media::video_layer_selector::VideoLayerLite;

#[test]
fn forwarder_mute_matches_upstream_contract() {
    let mut f = ForwarderLite::new(CodecKindLite::Audio);
    assert!(!f.is_muted());
    assert!(!f.mute(false, true));
    assert!(!f.mute(true, false));
    assert!(f.mute(true, true));
    assert!(f.is_muted());
    assert!(f.mute(false, true));
    assert!(!f.is_muted());
}

#[test]
fn forwarder_layers_audio_matches_upstream_contract() {
    let mut f = ForwarderLite::new(CodecKindLite::Audio);
    assert_eq!(f.max_layer(), VideoLayerLite::invalid());
    assert_eq!(f.current_layer(), VideoLayerLite::invalid());
    assert_eq!(f.target_layer(), VideoLayerLite::invalid());
    assert_eq!(f.set_max_spatial_layer(1), (false, VideoLayerLite::invalid()));
    assert_eq!(
        f.set_max_temporal_layer(1),
        (false, VideoLayerLite::invalid())
    );
}

#[test]
fn forwarder_layers_video_matches_upstream_contract() {
    let mut f = ForwarderLite::new(CodecKindLite::Video);
    assert_eq!(
        f.max_layer(),
        VideoLayerLite {
            spatial: INVALID_SPATIAL,
            temporal: DEFAULT_MAX_TEMPORAL,
        }
    );
    assert!(f.set_max_spatial_layer(DEFAULT_MAX_SPATIAL).0);
    assert!(f.set_max_spatial_layer(DEFAULT_MAX_SPATIAL - 1).0);
    assert!(!f.set_max_spatial_layer(DEFAULT_MAX_SPATIAL - 1).0);
    assert!(!f.set_max_temporal_layer(DEFAULT_MAX_TEMPORAL).0);
    assert!(f.set_max_temporal_layer(DEFAULT_MAX_TEMPORAL - 1).0);
}

#[test]
fn forwarder_pause_mute_matches_upstream_contract() {
    let mut f = ForwarderLite::new(CodecKindLite::Video);
    let _ = f.set_max_spatial_layer(DEFAULT_MAX_SPATIAL);
    let _ = f.set_max_temporal_layer(DEFAULT_MAX_TEMPORAL);
    f.set_max_published_layer(DEFAULT_MAX_SPATIAL);

    let bitrates = vec![vec![1, 2, 3, 4], vec![5, 6, 7, 8], vec![9, 10, 11, 12]];
    f.provisional_allocate_prepare(&bitrates);
    let _ = f.provisional_allocate(
        bitrates[2][3],
        VideoLayerLite {
            spatial: 0,
            temporal: 0,
        },
    );
    let _ = f.provisional_allocate_commit(bitrates.clone());

    f.mute(true, true);
    let result = f.pause(bitrates.clone());
    assert_eq!(result.pause_reason, VideoPauseReasonLite::Muted);
    assert_eq!(result.bandwidth_delta, -bitrates[0][0]);
    assert_eq!(result.target_layer, VideoLayerLite::invalid());
}

#[test]
fn forwarder_get_translation_params_muted_matches_upstream_contract() {
    let mut f = ForwarderLite::new(CodecKindLite::Video);
    f.mute(true, true);
    assert_eq!(
        f.get_translation_params_muted(),
        TranslationParamsLite {
            should_drop: true,
            ..Default::default()
        }
    );
}

#[test]
fn forwarder_pause_matches_upstream_contract() {
    let mut f = ForwarderLite::new(CodecKindLite::Video);
    let _ = f.set_max_spatial_layer(DEFAULT_MAX_SPATIAL);
    let _ = f.set_max_temporal_layer(DEFAULT_MAX_TEMPORAL);
    f.set_max_published_layer(DEFAULT_MAX_SPATIAL);

    let bitrates = vec![vec![1, 2, 3, 4], vec![5, 6, 7, 8], vec![9, 10, 11, 12]];
    f.provisional_allocate_prepare(&bitrates);
    let _ = f.provisional_allocate(
        bitrates[2][3],
        VideoLayerLite {
            spatial: 0,
            temporal: 0,
        },
    );
    let _ = f.provisional_allocate_commit(bitrates.clone());

    let result = f.pause(bitrates.clone());
    assert_eq!(result.pause_reason, VideoPauseReasonLite::Bandwidth);
    assert!(result.is_deficient);
    assert_eq!(result.bandwidth_delta, -bitrates[0][0]);
    assert_eq!(result.bandwidth_needed, 12);
    assert_eq!(f64::from(result.quarters_to_desired) / 4.0, 3.75);
    assert_eq!(result.target_layer, VideoLayerLite::invalid());
}

#[test]
fn forwarder_provisional_allocate_mute_matches_upstream_contract() {
    let mut f = ForwarderLite::new(CodecKindLite::Video);
    let _ = f.set_max_spatial_layer(DEFAULT_MAX_SPATIAL);
    let _ = f.set_max_temporal_layer(DEFAULT_MAX_TEMPORAL);
    f.mute(true, true);

    let bitrates = vec![vec![1, 2, 3, 4], vec![5, 6, 7, 8], vec![9, 10, 11, 12]];
    f.provisional_allocate_prepare(&bitrates);

    let (is_candidate, used) = f.provisional_allocate(
        bitrates[2][3],
        VideoLayerLite {
            spatial: 0,
            temporal: 0,
        },
    );
    assert!(!is_candidate);
    assert_eq!(used, 0);

    let committed = f.provisional_allocate_commit(bitrates);
    assert_eq!(committed.pause_reason, VideoPauseReasonLite::Muted);
    assert_eq!(committed.target_layer, VideoLayerLite::invalid());
    assert_eq!(f.target_layer(), VideoLayerLite::invalid());
}

#[test]
fn forwarder_provisional_allocate_matches_upstream_core_contract() {
    let mut f = ForwarderLite::new(CodecKindLite::Video);
    let _ = f.set_max_spatial_layer(DEFAULT_MAX_SPATIAL);
    let _ = f.set_max_temporal_layer(DEFAULT_MAX_TEMPORAL);
    f.set_max_published_layer(DEFAULT_MAX_SPATIAL);
    f.set_max_temporal_layer_seen(DEFAULT_MAX_TEMPORAL);

    let bitrates = vec![vec![1, 2, 3, 4], vec![5, 6, 7, 8], vec![9, 10, 11, 12]];
    f.provisional_allocate_prepare_advanced(&[0, 1, 2], &bitrates);

    let (ok, used) = f.provisional_allocate_advanced(
        bitrates[2][3],
        VideoLayerLite {
            spatial: 0,
            temporal: 0,
        },
        true,
        false,
    );
    assert!(ok);
    assert_eq!(used, bitrates[0][0]);

    let (ok, used) = f.provisional_allocate_advanced(
        bitrates[2][3],
        VideoLayerLite {
            spatial: 1,
            temporal: 2,
        },
        true,
        false,
    );
    assert!(ok);
    assert_eq!(used, bitrates[1][2] - bitrates[0][0]);

    let committed = f.provisional_allocate_commit_advanced();
    assert_eq!(
        committed.target_layer,
        VideoLayerLite {
            spatial: 1,
            temporal: 2
        }
    );
    assert_eq!(committed.bandwidth_requested, bitrates[1][2]);
    assert!(committed.is_deficient);
}

#[test]
fn forwarder_provisional_allocate_get_cooperative_transition_matches_upstream_core_contract() {
    let mut f = ForwarderLite::new(CodecKindLite::Video);
    let _ = f.set_max_spatial_layer(DEFAULT_MAX_SPATIAL);
    let _ = f.set_max_temporal_layer(DEFAULT_MAX_TEMPORAL);
    f.set_max_published_layer(DEFAULT_MAX_SPATIAL);
    f.set_max_temporal_layer_seen(DEFAULT_MAX_TEMPORAL);

    let bitrates = vec![vec![1, 2, 3, 4], vec![5, 6, 7, 8], vec![9, 10, 0, 0]];
    let available = vec![0, 1, 2];
    f.provisional_allocate_prepare_advanced(&available, &bitrates);

    let (transition, returned_available, returned_bitrates) =
        f.provisional_allocate_get_cooperative_transition_advanced(false);
    assert_eq!(returned_available, available);
    assert_eq!(returned_bitrates, bitrates);
    assert_eq!(
        transition,
        VideoTransitionLite {
            from: VideoLayerLite::invalid(),
            to: VideoLayerLite {
                spatial: 0,
                temporal: 0,
            },
            bandwidth_delta: 1,
        }
    );

    let committed = f.provisional_allocate_commit_advanced();
    assert_eq!(
        committed.target_layer,
        VideoLayerLite {
            spatial: 0,
            temporal: 0
        }
    );

    f.mute(true, true);
    f.provisional_allocate_prepare_advanced(&available, &bitrates);
    let (muted_transition, _, _) =
        f.provisional_allocate_get_cooperative_transition_advanced(false);
    assert_eq!(muted_transition.to, VideoLayerLite::invalid());
    assert!(muted_transition.bandwidth_delta <= 0);
}

#[test]
fn forwarder_allocate_next_higher_matches_upstream_core_contract() {
    let mut f_audio = ForwarderLite::new(CodecKindLite::Audio);
    f_audio.last_allocation = Some(VideoAllocationLite {
        pause_reason: VideoPauseReasonLite::Bandwidth,
        is_deficient: false,
        bandwidth_requested: 0,
        bandwidth_delta: 0,
        bandwidth_needed: 0,
        bitrates: vec![],
        target_layer: VideoLayerLite::invalid(),
        request_layer_spatial: INVALID_SPATIAL,
        max_layer: VideoLayerLite::invalid(),
        quarters_to_desired: 0,
    });
    let (result, boosted) =
        f_audio.allocate_next_higher_advanced(100_000_000, &[], &vec![], false);
    assert!(!boosted);
    assert_eq!(result.target_layer, VideoLayerLite::invalid());

    let mut f = ForwarderLite::new(CodecKindLite::Video);
    let _ = f.set_max_spatial_layer(DEFAULT_MAX_SPATIAL);
    let _ = f.set_max_temporal_layer(DEFAULT_MAX_TEMPORAL);
    f.set_max_published_layer(DEFAULT_MAX_SPATIAL);
    f.set_max_temporal_layer_seen(DEFAULT_MAX_TEMPORAL);
    f.layers.target_layer = VideoLayerLite {
        spatial: 0,
        temporal: 0,
    };
    f.last_allocation = Some(VideoAllocationLite {
        pause_reason: VideoPauseReasonLite::Bandwidth,
        is_deficient: true,
        bandwidth_requested: 2,
        bandwidth_delta: 0,
        bandwidth_needed: 7,
        bitrates: vec![],
        target_layer: VideoLayerLite {
            spatial: 0,
            temporal: 0,
        },
        request_layer_spatial: 0,
        max_layer: default_max_layer(),
        quarters_to_desired: 0,
    });
    let bitrates = vec![vec![2, 3, 0, 0], vec![4, 0, 0, 5], vec![0, 7, 0, 0]];

    let (result, boosted) =
        f.allocate_next_higher_advanced(100_000_000, &[0, 1, 2], &bitrates, false);
    assert!(boosted);
    assert_eq!(
        result.target_layer,
        VideoLayerLite {
            spatial: 0,
            temporal: 1
        }
    );
    assert_eq!(result.bandwidth_requested, 3);
    assert_eq!(result.bandwidth_delta, 1);
}

#[test]
fn forwarder_allocate_optimal_matches_upstream_core_contract() {
    let mut f = ForwarderLite::new(CodecKindLite::Video);
    let bitrates = vec![vec![2, 3, 0, 0], vec![4, 0, 0, 5], vec![0, 7, 0, 0]];

    // invalid max layer -> invalid target
    let _ = f.set_max_spatial_layer(INVALID_SPATIAL);
    let alloc = f.allocate_optimal_advanced(&[], &bitrates, false, false);
    assert_eq!(alloc.target_layer, VideoLayerLite::invalid());

    let _ = f.set_max_spatial_layer(DEFAULT_MAX_SPATIAL);
    let _ = f.set_max_temporal_layer(DEFAULT_MAX_TEMPORAL);
    f.set_max_published_layer(DEFAULT_MAX_SPATIAL);
    f.set_max_temporal_layer_seen(DEFAULT_MAX_TEMPORAL);

    let alloc = f.allocate_optimal_advanced(&[0, 1], &bitrates, false, false);
    assert_eq!(
        alloc.target_layer,
        VideoLayerLite {
            spatial: 1,
            temporal: 3
        }
    );
    assert_eq!(alloc.bandwidth_requested, 5);

    let hold_alloc = f.allocate_optimal_advanced(&[0, 1], &bitrates, false, true);
    assert_eq!(
        hold_alloc.target_layer,
        VideoLayerLite {
            spatial: 0,
            temporal: 0
        }
    );
    assert_eq!(hold_alloc.bandwidth_requested, 2);

    f.mute(true, true);
    let muted_alloc = f.allocate_optimal_advanced(&[0, 1], &bitrates, false, false);
    assert_eq!(muted_alloc.pause_reason, VideoPauseReasonLite::Muted);
    assert_eq!(muted_alloc.target_layer, VideoLayerLite::invalid());
}

#[test]
fn forwarder_initial_acquisition_grace_matches_upstream_contract() {
    let mut f = ForwarderLite::new(CodecKindLite::Video);
    let _ = f.set_max_spatial_layer(DEFAULT_MAX_SPATIAL);
    let _ = f.set_max_temporal_layer(DEFAULT_MAX_TEMPORAL);
    f.set_max_temporal_layer_seen(DEFAULT_MAX_TEMPORAL);

    let bitrates = vec![vec![2, 3, 0, 0], vec![4, 0, 0, 5], vec![0, 7, 0, 0]];

    f.set_max_published_layer(1);
    assert!(f.within_acquire_grace());

    let alloc = f.allocate_optimal_advanced(&[0, 1], &bitrates, false, false);
    assert_eq!(alloc.target_layer.spatial, 2);
    assert_eq!(alloc.request_layer_spatial, 2);

    assert!(f.maybe_expire_acquire_grace());
    assert!(!f.maybe_expire_acquire_grace());

    let alloc = f.allocate_optimal_advanced(&[0, 1], &bitrates, false, false);
    assert_eq!(alloc.target_layer.spatial, 1);
    assert_eq!(alloc.request_layer_spatial, 1);
}

#[test]
fn forwarder_get_translation_params_audio_matches_upstream_contract() {
    let mut f = ForwarderLite::new(CodecKindLite::Audio);

    let out_of_order = AudioPacketLite {
        sequence_number: 23332,
        timestamp: 0xabcdef,
        ssrc: 0x12345678,
        payload_size: 20,
        is_out_of_order: true,
    };
    assert!(f.get_translation_params_audio(out_of_order).should_drop);
    assert!(!f.stream.started);

    let first = AudioPacketLite {
        sequence_number: 23333,
        timestamp: 0xabcdef,
        ssrc: 0x12345678,
        payload_size: 20,
        is_out_of_order: false,
    };
    let tp = f.get_translation_params_audio(first);
    assert!(tp.is_starting);
    assert_eq!(
        tp.rtp,
        Some(TranslationRtpLite {
            sn_ordering: SequenceOrderingLite::Contiguous,
            ext_sequence_number: 23333,
            ext_timestamp: 0xabcdef,
        })
    );

    assert!(f.get_translation_params_audio(first).should_drop);

    f.stream.exclude_range(23334, 23335);
    let seq_23336 = AudioPacketLite {
        sequence_number: 23336,
        timestamp: 0xabcdef,
        ssrc: 0x12345678,
        payload_size: 20,
        is_out_of_order: false,
    };
    let _ = f.get_translation_params_audio(seq_23336);

    let seq_23335 = AudioPacketLite {
        sequence_number: 23335,
        timestamp: 0xabcdef,
        ssrc: 0x12345678,
        payload_size: 20,
        is_out_of_order: false,
    };
    let tp = f.get_translation_params_audio(seq_23335);
    assert_eq!(
        tp.rtp,
        Some(TranslationRtpLite {
            sn_ordering: SequenceOrderingLite::OutOfOrder,
            ext_sequence_number: 23334,
            ext_timestamp: 0xabcdef,
        })
    );

    let padding_23337 = AudioPacketLite {
        sequence_number: 23337,
        timestamp: 0xabcdef,
        ssrc: 0x12345678,
        payload_size: 0,
        is_out_of_order: false,
    };
    assert!(f.get_translation_params_audio(padding_23337).should_drop);

    let seq_23338 = AudioPacketLite {
        sequence_number: 23338,
        timestamp: 0xabcdef,
        ssrc: 0x12345678,
        payload_size: 20,
        is_out_of_order: false,
    };
    let tp = f.get_translation_params_audio(seq_23338);
    assert_eq!(
        tp.rtp,
        Some(TranslationRtpLite {
            sn_ordering: SequenceOrderingLite::Contiguous,
            ext_sequence_number: 23336,
            ext_timestamp: 0xabcdef,
        })
    );

    let padding_23340 = AudioPacketLite {
        sequence_number: 23340,
        timestamp: 0xabcdef,
        ssrc: 0x12345678,
        payload_size: 0,
        is_out_of_order: false,
    };
    let tp = f.get_translation_params_audio(padding_23340);
    assert_eq!(
        tp.rtp,
        Some(TranslationRtpLite {
            sn_ordering: SequenceOrderingLite::Gap,
            ext_sequence_number: 23338,
            ext_timestamp: 0xabcdef,
        })
    );

    let old_23336 = AudioPacketLite {
        sequence_number: 23336,
        timestamp: 0xabcdef,
        ssrc: 0x12345678,
        payload_size: 20,
        is_out_of_order: false,
    };
    let tp = f.get_translation_params_audio(old_23336);
    assert_eq!(
        tp.rtp,
        Some(TranslationRtpLite {
            sn_ordering: SequenceOrderingLite::OutOfOrder,
            ext_sequence_number: 23335,
            ext_timestamp: 0xabcdef,
        })
    );

    let switched_ssrc = AudioPacketLite {
        sequence_number: 123,
        timestamp: 0xfedcba,
        ssrc: 0x87654321,
        payload_size: 20,
        is_out_of_order: false,
    };
    let tp = f.get_translation_params_audio(switched_ssrc);
    assert_eq!(
        tp.rtp,
        Some(TranslationRtpLite {
            sn_ordering: SequenceOrderingLite::Contiguous,
            ext_sequence_number: 23339,
            ext_timestamp: 0xabcdf0,
        })
    );
}

#[test]
fn forwarder_get_translation_params_video_matches_upstream_contract() {
    let mut f = ForwarderLite::new(CodecKindLite::Video);

    // out-of-order start should drop
    let oo = f.get_translation_params_video(
        VideoPacketLite {
            sequence_number: 23332,
            timestamp: 0xabcdef,
            ssrc: 0x12345678,
            payload_size: 20,
            is_out_of_order: true,
            marker: true,
            layer: 0,
        },
        Vp8InfoLite {
            picture_id: 13467,
            tl0_pic_idx: 233,
            tid: 0,
            key_idx: 23,
            header_size: 6,
            m_bit: true,
            is_key_frame: false,
        },
    );
    assert!(oo.should_drop);
    assert!(!f.stream.started);

    // no target should drop
    let no_target = f.get_translation_params_video(
        VideoPacketLite {
            sequence_number: 23333,
            timestamp: 0xabcdef,
            ssrc: 0x12345678,
            payload_size: 20,
            is_out_of_order: false,
            marker: true,
            layer: 0,
        },
        Vp8InfoLite {
            picture_id: 13467,
            tl0_pic_idx: 233,
            tid: 0,
            key_idx: 23,
            header_size: 6,
            m_bit: true,
            is_key_frame: false,
        },
    );
    assert!(no_target.should_drop);

    f.layers.target_layer = VideoLayerLite {
        spatial: 0,
        temporal: 1,
    };

    // non-keyframe should still drop on start
    let non_kf = f.get_translation_params_video(
        VideoPacketLite {
            sequence_number: 23333,
            timestamp: 0xabcdef,
            ssrc: 0x12345678,
            payload_size: 20,
            is_out_of_order: false,
            marker: true,
            layer: 0,
        },
        Vp8InfoLite {
            picture_id: 13467,
            tl0_pic_idx: 233,
            tid: 0,
            key_idx: 23,
            header_size: 6,
            m_bit: true,
            is_key_frame: false,
        },
    );
    assert!(non_kf.should_drop);

    // keyframe should start/forward
    let started = f.get_translation_params_video(
        VideoPacketLite {
            sequence_number: 23333,
            timestamp: 0xabcdef,
            ssrc: 0x12345678,
            payload_size: 20,
            is_out_of_order: false,
            marker: true,
            layer: 0,
        },
        Vp8InfoLite {
            picture_id: 13467,
            tl0_pic_idx: 233,
            tid: 0,
            key_idx: 23,
            header_size: 6,
            m_bit: true,
            is_key_frame: true,
        },
    );
    assert!(started.is_starting);
    assert!(started.is_switching);
    assert!(started.is_resuming);
    assert_eq!(started.rtp.unwrap().ext_sequence_number, 23333);
    assert_eq!(started.codec.unwrap().picture_id, 13467);

    // duplicate should drop
    let dup = f.get_translation_params_video(
        VideoPacketLite {
            sequence_number: 23333,
            timestamp: 0xabcdef,
            ssrc: 0x12345678,
            payload_size: 20,
            is_out_of_order: false,
            marker: true,
            layer: 0,
        },
        Vp8InfoLite {
            picture_id: 13467,
            tl0_pic_idx: 233,
            tid: 0,
            key_idx: 23,
            header_size: 6,
            m_bit: true,
            is_key_frame: true,
        },
    );
    assert!(dup.should_drop);

    // padding in-order contiguous should drop
    let padding = f.get_translation_params_video(
        VideoPacketLite {
            sequence_number: 23334,
            timestamp: 0xabcdef,
            ssrc: 0x12345678,
            payload_size: 0,
            is_out_of_order: false,
            marker: false,
            layer: 0,
        },
        Vp8InfoLite {
            picture_id: 13467,
            tl0_pic_idx: 233,
            tid: 0,
            key_idx: 23,
            header_size: 6,
            m_bit: true,
            is_key_frame: true,
        },
    );
    assert!(padding.should_drop);

    // in-order media forwards
    let seq_23335 = f.get_translation_params_video(
        VideoPacketLite {
            sequence_number: 23335,
            timestamp: 0xabcdef,
            ssrc: 0x12345678,
            payload_size: 20,
            is_out_of_order: false,
            marker: false,
            layer: 0,
        },
        Vp8InfoLite {
            picture_id: 13467,
            tl0_pic_idx: 233,
            tid: 0,
            key_idx: 23,
            header_size: 6,
            m_bit: true,
            is_key_frame: true,
        },
    );
    assert!(!seq_23335.should_drop);
    assert_eq!(seq_23335.rtp.unwrap().ext_sequence_number, 23334);

    // temporal match forwards
    let tid1 = f.get_translation_params_video(
        VideoPacketLite {
            sequence_number: 23336,
            timestamp: 0xabcdef,
            ssrc: 0x12345678,
            payload_size: 20,
            is_out_of_order: false,
            marker: false,
            layer: 0,
        },
        Vp8InfoLite {
            picture_id: 13468,
            tl0_pic_idx: 233,
            tid: 1,
            key_idx: 23,
            header_size: 6,
            m_bit: true,
            is_key_frame: true,
        },
    );
    assert!(!tid1.should_drop);
    assert_eq!(tid1.rtp.unwrap().ext_sequence_number, 23335);

    // temporal above target drops but maintains rtp continuity mapping
    let tid2_drop = f.get_translation_params_video(
        VideoPacketLite {
            sequence_number: 23337,
            timestamp: 0xabcdef,
            ssrc: 0x12345678,
            payload_size: 20,
            is_out_of_order: false,
            marker: false,
            layer: 0,
        },
        Vp8InfoLite {
            picture_id: 13468,
            tl0_pic_idx: 233,
            tid: 2,
            key_idx: 23,
            header_size: 6,
            m_bit: true,
            is_key_frame: true,
        },
    );
    assert!(tid2_drop.should_drop);
    assert_eq!(tid2_drop.rtp.unwrap().ext_sequence_number, 23336);

    // next packet should keep sequence contiguous after drop
    let after_drop = f.get_translation_params_video(
        VideoPacketLite {
            sequence_number: 23338,
            timestamp: 0xabcdef,
            ssrc: 0x12345678,
            payload_size: 20,
            is_out_of_order: false,
            marker: false,
            layer: 0,
        },
        Vp8InfoLite {
            picture_id: 13469,
            tl0_pic_idx: 234,
            tid: 0,
            key_idx: 23,
            header_size: 6,
            m_bit: true,
            is_key_frame: false,
        },
    );
    assert!(!after_drop.should_drop);
    assert_eq!(after_drop.rtp.unwrap().ext_sequence_number, 23336);
    assert_eq!(after_drop.codec.unwrap().picture_id, 13469);

    // gap padding should be forwarded
    let gap_padding = f.get_translation_params_video(
        VideoPacketLite {
            sequence_number: 23340,
            timestamp: 0xabcdef,
            ssrc: 0x12345678,
            payload_size: 0,
            is_out_of_order: false,
            marker: false,
            layer: 0,
        },
        Vp8InfoLite {
            picture_id: 13469,
            tl0_pic_idx: 234,
            tid: 0,
            key_idx: 23,
            header_size: 6,
            m_bit: true,
            is_key_frame: false,
        },
    );
    assert!(!gap_padding.should_drop);
    assert_eq!(
        gap_padding.rtp.unwrap().sn_ordering,
        SequenceOrderingLite::Gap
    );

    // out-of-order from cache should forward
    let ooo_cached = f.get_translation_params_video(
        VideoPacketLite {
            sequence_number: 23339,
            timestamp: 0xabcdef,
            ssrc: 0x12345678,
            payload_size: 0,
            is_out_of_order: false,
            marker: false,
            layer: 0,
        },
        Vp8InfoLite {
            picture_id: 13469,
            tl0_pic_idx: 234,
            tid: 0,
            key_idx: 23,
            header_size: 6,
            m_bit: true,
            is_key_frame: false,
        },
    );
    assert!(!ooo_cached.should_drop);
    assert_eq!(
        ooo_cached.rtp.unwrap().sn_ordering,
        SequenceOrderingLite::OutOfOrder
    );

    // ssrc switch should keep seq/timestamp contiguous and bump rewritten vp8 ids
    f.layers.target_layer = VideoLayerLite {
        spatial: 1,
        temporal: 1,
    };
    let switched = f.get_translation_params_video(
        VideoPacketLite {
            sequence_number: 123,
            timestamp: 0xfedcba,
            ssrc: 0x87654321,
            payload_size: 20,
            is_out_of_order: false,
            marker: false,
            layer: 1,
        },
        Vp8InfoLite {
            picture_id: 45,
            tl0_pic_idx: 12,
            tid: 0,
            key_idx: 30,
            header_size: 5,
            m_bit: false,
            is_key_frame: true,
        },
    );
    assert!(!switched.should_drop);
    assert!(switched.is_switching);
    let rtp = switched.rtp.unwrap();
    assert_eq!(rtp.sn_ordering, SequenceOrderingLite::Contiguous);
    assert_eq!(rtp.ext_sequence_number, 23339);
    assert_eq!(rtp.ext_timestamp, 0xabcdf0);
    let codec = switched.codec.unwrap();
    assert_eq!(codec.picture_id, 13470);
    assert_eq!(codec.tl0_pic_idx, 235);
    assert_eq!(codec.key_idx, 24);
    assert_eq!(switched.incoming_header_size, 5);
}

#[test]
fn forwarder_get_sn_ts_for_padding_matches_upstream_contract() {
    let mut f = ForwarderLite::new(CodecKindLite::Video);
    f.stream.lock_vp8_stream(23333, 0xabcdef, 13467, 233, 23);

    let snts = f.stream.get_sn_ts_for_padding(5, 0, 5);
    let expected: Vec<SnTsLite> = (0..5)
        .map(|i| SnTsLite {
            ext_sequence_number: 23333 + i as u64 + 1,
            ext_timestamp: 0xabcdef,
        })
        .collect();
    assert_eq!(snts, expected);

    let snts = f.stream.get_sn_ts_for_padding(5, 0, 5);
    let expected: Vec<SnTsLite> = (0..5)
        .map(|i| SnTsLite {
            ext_sequence_number: 23338 + i as u64 + 1,
            ext_timestamp: 0xabcdef,
        })
        .collect();
    assert_eq!(snts, expected);
}

#[test]
fn forwarder_get_sn_ts_for_blank_frames_matches_upstream_contract() {
    let mut f = ForwarderLite::new(CodecKindLite::Video);
    f.stream.lock_vp8_stream(23333, 0xabcdef, 13467, 233, 23);

    let num_blank_frames = 6usize;
    let (snts, frame_end_needed) = f.stream.get_sn_ts_for_blank_frames(30, num_blank_frames);
    assert!(frame_end_needed);
    assert_eq!(snts.len(), num_blank_frames + 1);
    assert_eq!(snts[0].ext_sequence_number, 23334);
    assert_eq!(snts[0].ext_timestamp, 0xabcdef);

    let (snts2, frame_end_needed2) = f.stream.get_sn_ts_for_blank_frames(30, num_blank_frames);
    assert!(!frame_end_needed2);
    assert_eq!(snts2.len(), num_blank_frames);
    assert!(
        snts2[0].ext_sequence_number > snts.last().expect("must have last").ext_sequence_number
    );
    assert!(snts2[0].ext_timestamp > snts.last().expect("must have last").ext_timestamp);
}

#[test]
fn forwarder_get_padding_vp8_matches_upstream_contract() {
    let mut f = ForwarderLite::new(CodecKindLite::Video);
    f.stream.lock_vp8_stream(23333, 0xabcdef, 13467, 233, 23);

    let first = f.stream.get_padding_vp8(true);
    assert_eq!(
        first,
        Vp8PaddingLite {
            picture_id: 13467,
            tl0_pic_idx: 233,
            key_idx: 23,
            tid: 0,
            first_byte: 16,
        }
    );

    let second = f.stream.get_padding_vp8(false);
    assert_eq!(
        second,
        Vp8PaddingLite {
            picture_id: 13468,
            tl0_pic_idx: 234,
            key_idx: 24,
            tid: 0,
            first_byte: 16,
        }
    );
}

fn video_forwarder() -> ForwarderLite {
    let mut forwarder = ForwarderLite::new(CodecKindLite::Video);
    let _ = forwarder.set_max_spatial_layer(DEFAULT_MAX_SPATIAL);
    forwarder.set_max_published_layer(DEFAULT_MAX_SPATIAL);
    let _ = forwarder.maybe_expire_acquire_grace();
    forwarder
}

#[test]
fn next_higher_layer_needs_bandwidth() {
    let mut forwarder = video_forwarder();
    let bitrates = vec![vec![2, 3, 0, 0], vec![4, 0, 0, 5], vec![0, 7, 0, 0]];
    let first = forwarder.allocate_optimal_advanced(&[0, 1], &bitrates, false, true);
    assert!(first.is_deficient);
    assert_eq!(first.bandwidth_needed, 7);
    let (kept, boosted) = forwarder.allocate_next_higher_advanced(0, &[0, 1, 2], &bitrates, false);
    assert!(!boosted);
    assert_eq!(kept, first);
    let (next, boosted) = forwarder.allocate_next_higher_advanced(2, &[1, 2], &bitrates, false);
    assert!(boosted);
    assert_eq!(next.target_layer, VideoLayerLite { spatial: 1, temporal: 0 });
    assert_eq!(next.bandwidth_delta, 2);
}

#[test]
fn pausing_is_the_last_resort() {
    let mut forwarder = video_forwarder();
    let bitrates = vec![vec![10, 20], vec![30, 40]];
    forwarder.provisional_allocate_prepare_advanced(&[0, 1], &bitrates);
    let lowest = VideoLayerLite { spatial: 0, temporal: 0 };
    assert_eq!(forwarder.provisional_allocate_advanced(5, lowest, true, false), (false, 0));
    assert_eq!(forwarder.provisional_allocate_advanced(5, lowest, false, false), (true, 10));
    let higher = VideoLayerLite { spatial: 1, temporal: 1 };
    assert_eq!(forwarder.provisional_allocate_advanced(29, higher, false, false), (false, 0));
    assert_eq!(forwarder.provisional_allocate_advanced(30, higher, false, false), (true, 30));
}

#[test]
fn blank_frames_are_spaced() {
    let mut forwarder = ForwarderLite::new(CodecKindLite::Video);
    forwarder.stream.lock_vp8_stream(10, 1_000, 1, 2, 3);
    let (numbers, frame_end) = forwarder.stream.get_sn_ts_for_blank_frames(30, 1);
    assert!(frame_end);
    assert_eq!(
        numbers,
        vec![
            SnTsLite { ext_sequence_number: 11, ext_timestamp: 1_000 },
            SnTsLite { ext_sequence_number: 12, ext_timestamp: 4_001 },
        ]
    );
    assert_eq!(
        forwarder.stream.get_sn_ts_for_padding(1, 90_000, 30),
        vec![SnTsLite { ext_sequence_number: 13, ext_timestamp: 7_001 }]
    );
}
