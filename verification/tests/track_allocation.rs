//! What the allocator wants.
use oxidesfu_media::protocol::VideoQuality;
use oxidesfu_media::track_allocation::TrackAllocationStore;

#[test]
fn effective_changes_notify_on_semantic_allocation_changes_only() {
    let mut store = TrackAllocationStore::default();

    store.set_desired_quality_for_track(
        "room",
        "sub",
        "TR_video",
        Some(VideoQuality::Low),
    );
    let changes = store.take_effective_changes();
    assert_eq!(changes.len(), 1, "first change should publish");
    let first = changes[0].clone();
    assert_eq!(first.room, "room");
    assert_eq!(first.subscriber_identity, "sub");
    assert_eq!(first.track_sid, "TR_video");

    store.set_desired_quality_for_track(
        "room",
        "sub",
        "TR_video",
        Some(VideoQuality::Low),
    );
    assert!(store.take_effective_changes().is_empty(), "semantic no-op must not emit a change");

    store.set_desired_quality_for_track(
        "room",
        "sub",
        "TR_video",
        Some(VideoQuality::High),
    );
    let changes = store.take_effective_changes();
    assert_eq!(changes.len(), 1, "changed quality should publish");
    let second = changes[0].clone();
    assert!(second.revision > first.revision);

    store.remove_for_track("room", "sub", "TR_video");
    let changes = store.take_effective_changes();
    assert_eq!(changes.len(), 1, "removal should publish");
    let third = changes[0].clone();
    assert!(third.revision > second.revision);
}

#[test]
fn desired_temporal_layer_is_target_scoped_and_validated() {
    let mut store = TrackAllocationStore::default();
    store.set_desired_temporal_layer_for_track("room", "sub-a", "TR_video", Some(1));
    store.set_desired_temporal_layer_for_track("room", "sub-b", "TR_video", Some(2));
    store.set_desired_temporal_layer_for_track("room", "sub-a", "TR_invalid", Some(3));

    assert_eq!(
        store.get_desired_temporal_layer_for_track("room", "sub-a", "TR_video"),
        Some(1)
    );
    assert_eq!(
        store.get_desired_temporal_layer_for_track("room", "sub-b", "TR_video"),
        Some(2)
    );
    assert_eq!(
        store.get_desired_temporal_layer_for_track("room", "sub-a", "TR_invalid"),
        None
    );
}

#[test]
fn desired_quality_is_stored_per_target_and_revision_advances() {
    let mut store = TrackAllocationStore::default();
    let initial = store.revision();
    assert_eq!(
        store.get_desired_quality_for_track("room", "sub", "TR_video"),
        None
    );

    store.set_desired_quality_for_track(
        "room",
        "sub",
        "TR_video",
        Some(VideoQuality::Medium),
    );

    assert_eq!(
        store.get_desired_quality_for_track("room", "sub", "TR_video"),
        Some(VideoQuality::Medium)
    );
    assert!(store.revision() > initial);
    assert!(store.revision_for_track("room", "sub", "TR_video") > 0);
}

#[test]
fn layers_above_the_highest_are_ignored() {
    let mut store = TrackAllocationStore::default();
    store.set_desired_temporal_layer_for_track("room", "sub", "TR_video", Some(1));
    let revision = store.revision();
    let _ = store.take_effective_changes();
    store.set_desired_temporal_layer_for_track("room", "sub", "TR_video", Some(3));
    assert_eq!(store.get_desired_temporal_layer_for_track("room", "sub", "TR_video"), Some(1));
    assert_eq!(store.revision(), revision);
    assert_eq!(store.revision_for_track("room", "sub", "TR_video"), revision);
    assert!(store.take_effective_changes().is_empty());
    store.set_desired_temporal_layer_for_track("room", "sub", "TR_video", None);
    assert_eq!(store.get_desired_temporal_layer_for_track("room", "sub", "TR_video"), None);
    assert_eq!(store.revision(), revision + 1);
}

#[test]
fn qualities_of_a_participant_are_cleared_together() {
    let mut store = TrackAllocationStore::default();
    for track in ["TR_a", "TR_b"] {
        store.set_desired_quality_for_track("room", "sub", track, Some(VideoQuality::Low));
        store.set_desired_quality_for_track("room", "other", track, Some(VideoQuality::High));
    }
    store.set_desired_temporal_layer_for_track("room", "sub", "TR_a", Some(1));
    let _ = store.take_effective_changes();
    store.remove_for_participant("room", "sub");
    assert_eq!(store.take_effective_changes().len(), 2);
    assert_eq!(store.get_desired_quality_for_track("room", "sub", "TR_a"), None);
    assert_eq!(store.get_desired_quality_for_track("room", "sub", "TR_b"), None);
    assert_eq!(store.get_desired_temporal_layer_for_track("room", "sub", "TR_a"), Some(1));
    assert_eq!(
        store.get_desired_quality_for_track("room", "other", "TR_a"),
        Some(VideoQuality::High)
    );
}
