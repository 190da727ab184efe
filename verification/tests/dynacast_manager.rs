//! Which qualities and codecs are wanted.
use oxidesfu_media::dynacast_manager::audio::{DynacastManagerAudioLite, SubscribedAudioCodecLite};
use oxidesfu_media::dynacast_manager::video::{
    DynacastManagerVideoLite, SubscribedCodecLite, SubscribedQualityLite, VideoQualityLite,
};
use oxidesfu_media::dynacast_manager::MimeTypeLite;

fn subscribed_codecs_as_string(mut codecs: Vec<SubscribedCodecLite>) -> String {
    codecs.sort_by(|a, b| a.codec.cmp(&b.codec));
    format!("{codecs:?}")
}

fn subscribed_audio_codecs_as_string(mut codecs: Vec<SubscribedAudioCodecLite>) -> String {
    codecs.sort_by(|a, b| a.codec.cmp(&b.codec));
    format!("{codecs:?}")
}

#[test]
fn dynacast_subscribed_max_quality_matches_upstream_contract() {
    // scenario 1: subscribers muted
    let mut dm = DynacastManagerVideoLite::new();

    dm.notify_subscriber_max_quality("s1", MimeTypeLite::Vp8, VideoQualityLite::High);
    dm.notify_subscriber_max_quality("s2", MimeTypeLite::Av1, VideoQualityLite::High);
    dm.notify_subscriber_max_quality("s1", MimeTypeLite::Vp8, VideoQualityLite::Off);

    let expected = vec![
        SubscribedCodecLite {
            codec: MimeTypeLite::Vp8.as_str().to_string(),
            qualities: vec![
                SubscribedQualityLite {
                    quality: VideoQualityLite::Low,
                    enabled: false,
                },
                SubscribedQualityLite {
                    quality: VideoQualityLite::Medium,
                    enabled: false,
                },
                SubscribedQualityLite {
                    quality: VideoQualityLite::High,
                    enabled: false,
                },
            ],
        },
        SubscribedCodecLite {
            codec: MimeTypeLite::Av1.as_str().to_string(),
            qualities: vec![
                SubscribedQualityLite {
                    quality: VideoQualityLite::Low,
                    enabled: true,
                },
                SubscribedQualityLite {
                    quality: VideoQualityLite::Medium,
                    enabled: true,
                },
                SubscribedQualityLite {
                    quality: VideoQualityLite::High,
                    enabled: true,
                },
            ],
        },
    ];
    assert_eq!(
        subscribed_codecs_as_string(expected),
        subscribed_codecs_as_string(dm.emit())
    );

    // scenario 2: subscribers max quality + node bumping
    let mut dm = DynacastManagerVideoLite::new();

    dm.notify_subscriber_max_quality("s1", MimeTypeLite::Vp8, VideoQualityLite::High);
    dm.notify_subscriber_max_quality("s2", MimeTypeLite::Vp8, VideoQualityLite::Medium);
    dm.notify_subscriber_max_quality("s3", MimeTypeLite::Av1, VideoQualityLite::Medium);

    dm.notify_subscriber_max_quality("s1", MimeTypeLite::Vp8, VideoQualityLite::Low);
    dm.notify_subscriber_max_quality("s2", MimeTypeLite::Vp8, VideoQualityLite::Low);
    dm.notify_subscriber_max_quality("s3", MimeTypeLite::Av1, VideoQualityLite::Low);
    dm.notify_subscriber_max_quality("s2", MimeTypeLite::Vp8, VideoQualityLite::Off);
    dm.notify_subscriber_max_quality("s1", MimeTypeLite::Vp8, VideoQualityLite::Off);
    dm.notify_subscriber_max_quality("s3", MimeTypeLite::Av1, VideoQualityLite::Off);

    let all_off = vec![
        SubscribedCodecLite {
            codec: MimeTypeLite::Vp8.as_str().to_string(),
            qualities: vec![
                SubscribedQualityLite {
                    quality: VideoQualityLite::Low,
                    enabled: false,
                },
                SubscribedQualityLite {
                    quality: VideoQualityLite::Medium,
                    enabled: false,
                },
                SubscribedQualityLite {
                    quality: VideoQualityLite::High,
                    enabled: false,
                },
            ],
        },
        SubscribedCodecLite {
            codec: MimeTypeLite::Av1.as_str().to_string(),
            qualities: vec![
                SubscribedQualityLite {
                    quality: VideoQualityLite::Low,
                    enabled: false,
                },
                SubscribedQualityLite {
                    quality: VideoQualityLite::Medium,
                    enabled: false,
                },
                SubscribedQualityLite {
                    quality: VideoQualityLite::High,
                    enabled: false,
                },
            ],
        },
    ];
    assert_eq!(
        subscribed_codecs_as_string(all_off),
        subscribed_codecs_as_string(dm.emit())
    );

    dm.notify_subscriber_max_quality("s1", MimeTypeLite::Vp8, VideoQualityLite::Low);
    dm.notify_subscriber_node_max_quality(
        "n1",
        &[
            (MimeTypeLite::Vp8, VideoQualityLite::High),
            (MimeTypeLite::Av1, VideoQualityLite::Medium),
        ],
    );

    let node_raise = vec![
        SubscribedCodecLite {
            codec: MimeTypeLite::Vp8.as_str().to_string(),
            qualities: vec![
                SubscribedQualityLite {
                    quality: VideoQualityLite::Low,
                    enabled: true,
                },
                SubscribedQualityLite {
                    quality: VideoQualityLite::Medium,
                    enabled: true,
                },
                SubscribedQualityLite {
                    quality: VideoQualityLite::High,
                    enabled: true,
                },
            ],
        },
        SubscribedCodecLite {
            codec: MimeTypeLite::Av1.as_str().to_string(),
            qualities: vec![
                SubscribedQualityLite {
                    quality: VideoQualityLite::Low,
                    enabled: true,
                },
                SubscribedQualityLite {
                    quality: VideoQualityLite::Medium,
                    enabled: true,
                },
                SubscribedQualityLite {
                    quality: VideoQualityLite::High,
                    enabled: false,
                },
            ],
        },
    ];
    assert_eq!(
        subscribed_codecs_as_string(node_raise),
        subscribed_codecs_as_string(dm.emit())
    );
}

#[test]
fn dynacast_codec_regression_matches_upstream_contract() {
    // video regression
    let mut video_dm = DynacastManagerVideoLite::new();

    video_dm.notify_subscriber_max_quality("s1", MimeTypeLite::Av1, VideoQualityLite::High);
    video_dm.handle_codec_regression(MimeTypeLite::Av1, MimeTypeLite::Vp8);

    let expected_after_regression = vec![
        SubscribedCodecLite {
            codec: MimeTypeLite::Av1.as_str().to_string(),
            qualities: vec![
                SubscribedQualityLite {
                    quality: VideoQualityLite::Low,
                    enabled: false,
                },
                SubscribedQualityLite {
                    quality: VideoQualityLite::Medium,
                    enabled: false,
                },
                SubscribedQualityLite {
                    quality: VideoQualityLite::High,
                    enabled: false,
                },
            ],
        },
        SubscribedCodecLite {
            codec: MimeTypeLite::Vp8.as_str().to_string(),
            qualities: vec![
                SubscribedQualityLite {
                    quality: VideoQualityLite::Low,
                    enabled: true,
                },
                SubscribedQualityLite {
                    quality: VideoQualityLite::Medium,
                    enabled: true,
                },
                SubscribedQualityLite {
                    quality: VideoQualityLite::High,
                    enabled: true,
                },
            ],
        },
    ];
    assert_eq!(
        subscribed_codecs_as_string(expected_after_regression),
        subscribed_codecs_as_string(video_dm.emit())
    );

    // AV1 updates should forward to VP8, AV1 node updates should be ignored
    video_dm.notify_subscriber_max_quality("s1", MimeTypeLite::Av1, VideoQualityLite::Medium);
    video_dm.notify_subscriber_node_max_quality(
        "n1",
        &[(MimeTypeLite::Av1, VideoQualityLite::High)],
    );

    let expected_forwarded = vec![
        SubscribedCodecLite {
            codec: MimeTypeLite::Av1.as_str().to_string(),
            qualities: vec![
                SubscribedQualityLite {
                    quality: VideoQualityLite::Low,
                    enabled: false,
                },
                SubscribedQualityLite {
                    quality: VideoQualityLite::Medium,
                    enabled: false,
                },
                SubscribedQualityLite {
                    quality: VideoQualityLite::High,
                    enabled: false,
                },
            ],
        },
        SubscribedCodecLite {
            codec: MimeTypeLite::Vp8.as_str().to_string(),
            qualities: vec![
                SubscribedQualityLite {
                    quality: VideoQualityLite::Low,
                    enabled: true,
                },
                SubscribedQualityLite {
                    quality: VideoQualityLite::Medium,
                    enabled: true,
                },
                SubscribedQualityLite {
                    quality: VideoQualityLite::High,
                    enabled: false,
                },
            ],
        },
    ];
    assert_eq!(
        subscribed_codecs_as_string(expected_forwarded),
        subscribed_codecs_as_string(video_dm.emit())
    );

    // audio regression
    let mut audio_dm = DynacastManagerAudioLite::new();

    audio_dm.notify_subscription("s1", MimeTypeLite::Red, true);
    audio_dm.handle_codec_regression(MimeTypeLite::Red, MimeTypeLite::Opus);

    let expected_audio_after_regression = vec![
        SubscribedAudioCodecLite {
            codec: MimeTypeLite::Red.as_str().to_string(),
            enabled: false,
        },
        SubscribedAudioCodecLite {
            codec: MimeTypeLite::Opus.as_str().to_string(),
            enabled: true,
        },
    ];
    assert_eq!(
        subscribed_audio_codecs_as_string(expected_audio_after_regression.clone()),
        subscribed_audio_codecs_as_string(audio_dm.emit())
    );

    audio_dm.notify_subscription("s1", MimeTypeLite::Red, false);
    audio_dm.notify_subscription_node("n1", &[(MimeTypeLite::Red, false)]);
    assert_eq!(
        subscribed_audio_codecs_as_string(expected_audio_after_regression.clone()),
        subscribed_audio_codecs_as_string(audio_dm.emit())
    );

    audio_dm.notify_subscription("s1", MimeTypeLite::Opus, false);
    let expected_opus_off = vec![
        SubscribedAudioCodecLite {
            codec: MimeTypeLite::Red.as_str().to_string(),
            enabled: false,
        },
        SubscribedAudioCodecLite {
            codec: MimeTypeLite::Opus.as_str().to_string(),
            enabled: false,
        },
    ];
    assert_eq!(
        subscribed_audio_codecs_as_string(expected_opus_off),
        subscribed_audio_codecs_as_string(audio_dm.emit())
    );

    audio_dm.notify_subscription_node("n1", &[(MimeTypeLite::Opus, true)]);
    let expected_opus_on = vec![
        SubscribedAudioCodecLite {
            codec: MimeTypeLite::Red.as_str().to_string(),
            enabled: false,
        },
        SubscribedAudioCodecLite {
            codec: MimeTypeLite::Opus.as_str().to_string(),
            enabled: true,
        },
    ];
    assert_eq!(
        subscribed_audio_codecs_as_string(expected_opus_on),
        subscribed_audio_codecs_as_string(audio_dm.emit())
    );
}

#[test]
fn updates_list_known_codecs_in_order() {
    let mut manager = DynacastManagerVideoLite::new();
    manager.notify_subscriber_max_quality("s1", MimeTypeLite::Av1, VideoQualityLite::Low);
    let update =
        manager.notify_subscriber_max_quality("s2", MimeTypeLite::Vp8, VideoQualityLite::Medium);
    assert_eq!(update, manager.emit());
    assert_eq!(update.len(), 2);
    assert_eq!(update[0].codec, "video/vp8");
    assert_eq!(update[1].codec, "video/av1");
    assert_eq!(
        manager.aggregate_quality_for_codec(MimeTypeLite::Vp8),
        VideoQualityLite::Medium
    );
    assert_eq!(manager.aggregate_quality_for_codec(MimeTypeLite::Red), VideoQualityLite::Off);
}

#[test]
fn stand_ins_give_way_to_members() {
    let mut manager = DynacastManagerVideoLite::new();
    manager.handle_codec_regression(MimeTypeLite::Av1, MimeTypeLite::Vp8);
    assert_eq!(
        manager.aggregate_quality_for_codec(MimeTypeLite::Vp8),
        VideoQualityLite::High
    );
    manager.notify_subscriber_max_quality("s1", MimeTypeLite::Vp8, VideoQualityLite::Low);
    assert_eq!(
        manager.aggregate_quality_for_codec(MimeTypeLite::Vp8),
        VideoQualityLite::Low
    );
    let mut audio = DynacastManagerAudioLite::new();
    audio.handle_codec_regression(MimeTypeLite::Red, MimeTypeLite::Opus);
    assert!(audio.aggregate_enabled_for_codec(MimeTypeLite::Opus));
    audio.notify_subscription("s1", MimeTypeLite::Opus, false);
    assert!(!audio.aggregate_enabled_for_codec(MimeTypeLite::Opus));
}
