//! Settings of subscribers.
use oxidesfu_media::protocol::{
    SimulcastCodecInfo, TrackInfo, UpdateTrackSettings, VideoQuality,
};
use oxidesfu_media::track_settings::quality_updates::{
    aggregate_max_quality_from_track_settings, codec_mime_types_for_track,
    subscribed_quality_update_for_track, subscribed_quality_update_for_track_with_codecs,
    subscribed_quality_updates_from_track_settings,
};
use oxidesfu_media::track_settings::TrackSettingsStore;

#[test]
fn subscribed_quality_update_for_track_low_enables_only_low_quality() {
    let update = subscribed_quality_update_for_track("TR_test", Some(VideoQuality::Low));

    assert_eq!(update.subscribed_qualities.len(), 3);
    assert_eq!(
        update.subscribed_qualities[0].quality,
        VideoQuality::Low.to_wire()
    );
    assert!(update.subscribed_qualities[0].enabled);
    assert!(!update.subscribed_qualities[1].enabled);
    assert!(!update.subscribed_qualities[2].enabled);
}

#[test]
fn subscribed_quality_update_for_track_none_disables_all_qualities() {
    let update = subscribed_quality_update_for_track("TR_test", None);
    assert!(
        update
            .subscribed_qualities
            .iter()
            .all(|quality| !quality.enabled)
    );
}

#[test]
fn subscribed_quality_update_for_track_medium_enables_low_and_medium() {
    let update =
        subscribed_quality_update_for_track("TR_test", Some(VideoQuality::Medium));

    assert_eq!(update.subscribed_qualities.len(), 3);
    assert!(update.subscribed_qualities[0].enabled);
    assert!(update.subscribed_qualities[1].enabled);
    assert!(!update.subscribed_qualities[2].enabled);
}

#[test]
fn subscribed_quality_update_for_track_high_enables_all_qualities() {
    let update =
        subscribed_quality_update_for_track("TR_test", Some(VideoQuality::High));

    assert_eq!(update.subscribed_qualities.len(), 3);
    assert!(
        update
            .subscribed_qualities
            .iter()
            .all(|quality| quality.enabled)
    );
}

#[test]
fn aggregate_max_quality_from_track_settings_uses_highest_enabled_quality() {
    let aggregate = aggregate_max_quality_from_track_settings(&vec![
        UpdateTrackSettings {
            disabled: false,
            quality: VideoQuality::Low.to_wire(),
            ..Default::default()
        },
        UpdateTrackSettings {
            disabled: true,
            quality: VideoQuality::High.to_wire(),
            ..Default::default()
        },
        UpdateTrackSettings {
            disabled: false,
            quality: VideoQuality::Medium.to_wire(),
            ..Default::default()
        },
    ]);

    assert_eq!(aggregate, Some(VideoQuality::Medium));
}

#[test]
fn aggregate_max_quality_from_track_settings_returns_none_when_all_disabled() {
    let aggregate = aggregate_max_quality_from_track_settings(&vec![
        UpdateTrackSettings {
            disabled: true,
            quality: VideoQuality::Low.to_wire(),
            ..Default::default()
        },
        UpdateTrackSettings {
            disabled: true,
            quality: VideoQuality::High.to_wire(),
            ..Default::default()
        },
    ]);

    assert_eq!(aggregate, None);
}

#[test]
fn track_settings_store_lists_settings_for_track_across_subscribers() {
    let mut store = TrackSettingsStore::default();
    store.upsert_from_request(
        "room",
        "alice",
        &UpdateTrackSettings {
            track_sids: vec!["TR_a".to_string()],
            quality: VideoQuality::Low.to_wire(),
            ..Default::default()
        },
    );
    store.upsert_from_request(
        "room",
        "bob",
        &UpdateTrackSettings {
            track_sids: vec!["TR_a".to_string(), "TR_b".to_string()],
            quality: VideoQuality::High.to_wire(),
            ..Default::default()
        },
    );

    let mut identities = store
        .settings_for_track("room", "TR_a")
        .into_iter()
        .map(|(identity, _)| identity)
        .collect::<Vec<_>>();
    identities.sort();

    assert_eq!(identities, vec!["alice", "bob"]);
    assert_eq!(store.settings_for_track("room", "TR_b").len(), 1);
}

#[test]
fn track_settings_store_remove_for_track_removes_only_that_track() {
    let mut store = TrackSettingsStore::default();
    store.upsert_from_request(
        "room",
        "alice",
        &UpdateTrackSettings {
            track_sids: vec!["TR_a".to_string(), "TR_b".to_string()],
            quality: VideoQuality::High.to_wire(),
            ..Default::default()
        },
    );

    store.remove_for_track("room", "alice", "TR_a");

    assert!(store.get_for_track("room", "alice", "TR_a").is_none());
    assert!(store.get_for_track("room", "alice", "TR_b").is_some());
}

#[test]
fn track_settings_store_track_sids_for_participant_lists_unique_tracks() {
    let mut store = TrackSettingsStore::default();
    store.upsert_from_request(
        "room",
        "alice",
        &UpdateTrackSettings {
            track_sids: vec!["TR_a".to_string()],
            quality: VideoQuality::Low.to_wire(),
            ..Default::default()
        },
    );
    store.upsert_from_request(
        "room",
        "alice",
        &UpdateTrackSettings {
            track_sids: vec!["TR_b".to_string()],
            quality: VideoQuality::Medium.to_wire(),
            ..Default::default()
        },
    );

    let mut track_sids = store.track_sids_for_participant("room", "alice");
    track_sids.sort();
    assert_eq!(track_sids, vec!["TR_a", "TR_b"]);
}

#[test]
fn subscribed_quality_update_for_track_with_codecs_applies_same_quality_vector_per_codec() {
    let update = subscribed_quality_update_for_track_with_codecs(
        "TR_test",
        &["video/vp8".to_string(), "video/h264".to_string()],
        Some(VideoQuality::Low),
    );

    assert_eq!(update.subscribed_codecs.len(), 2);
    assert_eq!(update.subscribed_codecs[0].qualities.len(), 3);
    assert!(update.subscribed_codecs[0].qualities[0].enabled);
    assert!(!update.subscribed_codecs[0].qualities[1].enabled);
    assert!(!update.subscribed_codecs[0].qualities[2].enabled);
    assert_eq!(update.subscribed_codecs[1].qualities.len(), 3);
    assert!(update.subscribed_codecs[1].qualities[0].enabled);
    assert!(!update.subscribed_codecs[1].qualities[1].enabled);
    assert!(!update.subscribed_codecs[1].qualities[2].enabled);
}

#[test]
fn track_settings_store_debounces_rapid_dimension_updates_to_the_latest_value() {
    let mut store = TrackSettingsStore::default();
    let first = UpdateTrackSettings {
        track_sids: vec!["TR_video".to_string()],
        quality: VideoQuality::High.to_wire(),
        width: 468,
        height: 940,
        ..Default::default()
    };
    let second = UpdateTrackSettings {
        height: 121,
        ..first.clone()
    };

    let (_, first_deferred) = store.schedule_from_request("room", "subscriber", &first);
    let (_, second_deferred) = store.schedule_from_request("room", "subscriber", &second);
    let first_generation = first_deferred[0].1;
    let second_generation = second_deferred[0].1;

    assert!(
        !store.apply_pending_for_track("room", "subscriber", "TR_video", first_generation),
        "a superseded dimension update must not become effective"
    );
    assert!(store.apply_pending_for_track("room", "subscriber", "TR_video", second_generation));
    let effective = store
        .get_for_track("room", "subscriber", "TR_video")
        .expect("latest debounced setting should become effective");
    assert_eq!((effective.width, effective.height), (468, 121));
}

#[test]
fn track_settings_store_revisions_advance_only_for_semantic_target_changes() {
    let mut store = TrackSettingsStore::default();
    let initial = store.revision();
    let initial_a = store.revision_for_track("room", "alice", "TR_a");
    let initial_b = store.revision_for_track("room", "bob", "TR_b");
    let setting = UpdateTrackSettings {
        track_sids: vec!["TR_a".to_string()],
        quality: VideoQuality::Low.to_wire(),
        ..Default::default()
    };

    store.upsert_from_request("room", "alice", &setting);
    let after_upsert = store.revision();
    let after_upsert_a = store.revision_for_track("room", "alice", "TR_a");
    assert!(after_upsert > initial);
    assert!(after_upsert_a > initial_a);
    assert_eq!(store.revision_for_track("room", "bob", "TR_b"), initial_b);

    store.upsert_from_request("room", "alice", &setting);
    assert_eq!(store.revision(), after_upsert);
    assert_eq!(
        store.revision_for_track("room", "alice", "TR_a"),
        after_upsert_a,
        "an identical setting must not restart this target's layer selection"
    );

    store.upsert_from_request(
        "room",
        "bob",
        &UpdateTrackSettings {
            track_sids: vec!["TR_b".to_string()],
            quality: VideoQuality::High.to_wire(),
            ..Default::default()
        },
    );
    assert_eq!(
        store.revision_for_track("room", "alice", "TR_a"),
        after_upsert_a,
        "an unrelated subscriber/track must not restart this target's layer selection"
    );

    store.remove_for_track("room", "alice", "TR_a");
    assert!(store.revision() > after_upsert);
    assert!(store.revision_for_track("room", "alice", "TR_a") > after_upsert_a);
}

#[test]
fn effective_track_setting_changes_notify_only_semantic_mutations_and_removals() {
    let mut store = TrackSettingsStore::default();
    let setting = UpdateTrackSettings {
        track_sids: vec!["TR_video".to_string()],
        quality: VideoQuality::Low.to_wire(),
        width: 320,
        height: 180,
        fps: 15,
        ..Default::default()
    };

    store.upsert_from_request("room", "subscriber", &setting);
    let changes = store.take_effective_changes();
    assert_eq!(changes.len(), 1, "effective setting should notify reader");
    let applied = changes[0].clone();
    assert_eq!(applied.room, "room");
    assert_eq!(applied.subscriber_identity, "subscriber");
    assert_eq!(applied.track_sid, "TR_video");
    assert_eq!(
        applied.revision,
        store.revision_for_track("room", "subscriber", "TR_video")
    );

    store.upsert_from_request("room", "subscriber", &setting);
    assert!(store.take_effective_changes().is_empty());

    let deferred = UpdateTrackSettings {
        height: 360,
        fps: 10,
        ..setting.clone()
    };
    let (_, pending) = store.schedule_from_request("room", "subscriber", &deferred);
    assert!(store.apply_pending_for_track("room", "subscriber", "TR_video", pending[0].1));
    let changes = store.take_effective_changes();
    assert_eq!(changes.len(), 1, "effective debounced setting should notify reader");
    let debounced = changes[0].clone();
    assert!(debounced.revision > applied.revision);
    assert_eq!(
        store
            .get_for_track("room", "subscriber", "TR_video")
            .expect("debounced setting should be effective")
            .fps,
        10
    );

    let pending_removal = UpdateTrackSettings {
        disabled: true,
        ..deferred
    };
    let (_, pending) = store.schedule_from_request("room", "subscriber", &pending_removal);
    store.remove_for_track("room", "subscriber", "TR_video");
    let changes = store.take_effective_changes();
    assert_eq!(changes.len(), 1, "effective removal should notify reader");
    let removed = changes[0].clone();
    assert_eq!(removed.room, "room");
    assert_eq!(removed.subscriber_identity, "subscriber");
    assert_eq!(removed.track_sid, "TR_video");
    assert!(removed.revision > debounced.revision);
    assert!(
        !store.apply_pending_for_track("room", "subscriber", "TR_video", pending[0].1),
        "removal must cancel a pending debounce so it cannot resurrect a subscription"
    );
    assert!(store.take_effective_changes().is_empty());
}

#[test]
fn codec_mime_types_for_track_prefers_codecs_and_deduplicates() {
    let track = TrackInfo {
        mime_type: "video/vp8".to_string(),
        codecs: vec![
            SimulcastCodecInfo {
                mime_type: "video/h264".to_string(),
            },
            SimulcastCodecInfo {
                mime_type: "video/H264".to_string(),
            },
            SimulcastCodecInfo {
                mime_type: "video/av1".to_string(),
            },
        ],
    };

    let codecs = codec_mime_types_for_track(&track);
    assert_eq!(codecs, vec!["video/av1", "video/h264"]);
}

#[test]
fn enabling_a_disabled_track_is_immediate() {
    let mut store = TrackSettingsStore::default();
    let disabled = UpdateTrackSettings {
        track_sids: vec!["TR_a".to_string()],
        disabled: true,
        ..Default::default()
    };
    let enabled = UpdateTrackSettings { disabled: false, ..disabled.clone() };
    store.upsert_from_request("room", "alice", &disabled);
    let (immediate, deferred) = store.schedule_from_request("room", "alice", &enabled);
    assert_eq!(immediate, vec!["TR_a"]);
    assert!(deferred.is_empty());
    assert_eq!(store.get_for_track("room", "alice", "TR_a"), Some(enabled.clone()));

    let (immediate, deferred) = store.schedule_from_request("room", "alice", &enabled);
    assert!(immediate.is_empty());
    assert!(deferred.is_empty());
}

#[test]
fn settings_of_a_participant_are_removed_together() {
    let mut store = TrackSettingsStore::default();
    let settings = UpdateTrackSettings {
        track_sids: vec!["TR_a".to_string(), "TR_b".to_string()],
        ..Default::default()
    };
    store.upsert_from_request("room", "alice", &settings);
    store.upsert_from_request("room", "bob", &settings);
    let _ = store.take_effective_changes();
    let before = store.revision();
    store.remove_participant("room", "alice");
    let changes = store.take_effective_changes();
    assert_eq!(changes.len(), 2);
    assert_eq!(changes[0].revision, before + 1);
    assert_eq!(changes[1].revision, before + 2);
    assert!(store.track_sids_for_participant("room", "alice").is_empty());
    assert_eq!(store.track_sids_for_participant("room", "bob").len(), 2);
}

#[test]
fn unknown_qualities_stand_for_the_highest() {
    let settings = UpdateTrackSettings { quality: 17, ..Default::default() };
    assert_eq!(
        aggregate_max_quality_from_track_settings(&vec![settings]),
        Some(VideoQuality::High)
    );
    let off = UpdateTrackSettings { quality: 3, ..Default::default() };
    let high = UpdateTrackSettings { quality: 2, ..Default::default() };
    assert_eq!(
        aggregate_max_quality_from_track_settings(&vec![off, high]),
        Some(VideoQuality::Off)
    );
    assert_eq!(aggregate_max_quality_from_track_settings(&vec![]), None);
}

#[test]
fn settings_become_updates_for_each_track() {
    let request = UpdateTrackSettings {
        track_sids: vec!["TR_a".to_string(), "TR_b".to_string()],
        quality: 1,
        ..Default::default()
    };
    let updates = subscribed_quality_updates_from_track_settings(&request);
    assert_eq!(updates.len(), 2);
    assert_eq!(
        updates[1],
        subscribed_quality_update_for_track("TR_b", Some(VideoQuality::Medium))
    );
    let disabled = UpdateTrackSettings { disabled: true, ..request };
    let updates = subscribed_quality_updates_from_track_settings(&disabled);
    assert_eq!(updates[0], subscribed_quality_update_for_track("TR_a", None));
}

#[test]
fn updates_without_codecs_are_for_vp8() {
    let update =
        subscribed_quality_update_for_track_with_codecs("TR_a", &[], Some(VideoQuality::Low));
    assert_eq!(update.subscribed_codecs.len(), 1);
    assert_eq!(update.subscribed_codecs[0].codec, "video/vp8");
}

#[test]
fn tracks_without_codecs_have_their_own_mime_type() {
    let mut track = TrackInfo {
        mime_type: " Video/AV1\t".to_string(),
        codecs: vec![SimulcastCodecInfo { mime_type: "  ".to_string() }],
    };
    assert_eq!(codec_mime_types_for_track(&track), vec!["video/av1"]);
    track.mime_type.clear();
    assert_eq!(codec_mime_types_for_track(&track), vec!["video/vp8"]);
}
