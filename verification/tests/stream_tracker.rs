//! Status of streams and layers.
use oxidesfu_media::stream_tracker::{
    DecodeTargetIndication, DependencyDescriptorDecodeTarget, ExtDependencyDescriptorLite,
    StreamStatus, StreamTracker, StreamTrackerDependencyDescriptor, StreamTrackerPacket,
    StreamTrackerPacketConfig,
};

fn take_note(statuses: &mut [StreamStatus], told: Vec<(i32, StreamStatus)>) {
    for (layer, status) in told {
        statuses[layer as usize] = status;
    }
}

fn new_stream_tracker_packet(samples_required: u32, cycles_required: u32) -> StreamTracker {
    StreamTracker::new(StreamTrackerPacket::new(StreamTrackerPacketConfig {
        samples_required,
        cycles_required,
    }))
}

#[test]
fn stream_tracker_packet_matches_upstream_contract() {
    // flips to active on first observe
    let mut callback_count: usize = 0;
    let mut tracker = new_stream_tracker_packet(5, 60);
    tracker.on_status_changed();
    assert_eq!(tracker.status(), StreamStatus::Stopped);

    callback_count += usize::from(tracker.observe(10).is_some());
    assert_eq!(tracker.status(), StreamStatus::Active);
    assert_eq!(callback_count, 1);

    // flips to inactive immediately when status check runs without enough samples
    callback_count += usize::from(tracker.update_status().is_some());
    assert_eq!(tracker.status(), StreamStatus::Stopped);
    assert_eq!(callback_count, 2);

    // flips back to active only after required number of active cycles
    let mut tracker = new_stream_tracker_packet(1, 2);
    tracker.observe(10);
    assert_eq!(tracker.status(), StreamStatus::Active);

    tracker.status = StreamStatus::Stopped;
    tracker.last_notified_status = StreamStatus::Stopped;

    tracker.observe(10);
    tracker.update_status();
    assert_eq!(tracker.status(), StreamStatus::Stopped);

    tracker.observe(10);
    tracker.update_status();
    assert_eq!(tracker.status(), StreamStatus::Active);

    // changes to inactive when paused
    tracker.set_paused(true);
    tracker.update_status();
    assert_eq!(tracker.status(), StreamStatus::Stopped);

    // first packet after reset should re-activate
    let mut callback_count: usize = 0;
    let mut tracker = new_stream_tracker_packet(5, 60);
    tracker.on_status_changed();
    callback_count += usize::from(tracker.observe(10).is_some());
    assert_eq!(callback_count, 1);

    callback_count += usize::from(tracker.observe(10).is_some());
    callback_count += usize::from(tracker.observe(10).is_some());
    callback_count += usize::from(tracker.observe(10).is_some());
    callback_count += usize::from(tracker.observe(10).is_some());
    callback_count += usize::from(tracker.update_status().is_some());
    assert_eq!(callback_count, 1);

    callback_count += usize::from(tracker.reset().is_some());
    assert_eq!(tracker.status(), StreamStatus::Stopped);
    assert_eq!(callback_count, 2);

    callback_count += usize::from(tracker.observe(10).is_some());
    assert_eq!(tracker.status(), StreamStatus::Active);
    assert_eq!(callback_count, 3);
}

fn create_descriptor_dependency_for_targets(
    max_spatial: usize,
    max_temporal: usize,
) -> ExtDependencyDescriptorLite {
    let mut decode_targets = Vec::new();
    let mut mask: u32 = 0;
    for spatial in 0..=max_spatial {
        for temporal in 0..=max_temporal {
            let target = decode_targets.len();
            decode_targets.push(DependencyDescriptorDecodeTarget {
                target,
                spatial: spatial as i32,
                temporal: temporal as i32,
            });
            mask |= 1 << target;
        }
    }

    let mut dtis = vec![DecodeTargetIndication::NotPresent; decode_targets.len()];
    for target in &decode_targets {
        dtis[target.target] = DecodeTargetIndication::Required;
    }

    ExtDependencyDescriptorLite {
        active_decode_targets_bitmask: Some(mask),
        decode_targets,
        decode_target_indications: dtis,
        active_decode_targets_updated: true,
    }
}

#[test]
fn stream_tracker_dd_matches_upstream_contract() {
    let mut dd_tracker = StreamTrackerDependencyDescriptor::new();
    let mut statuses = vec![StreamStatus::Stopped; 3];

    for layer in 0..=2 {
        let mut layered = dd_tracker.layered_tracker(layer);
        layered.on_status_changed();
        assert_eq!(layered.status(), StreamStatus::Stopped);
    }

    // no active layers
    take_note(&mut statuses, dd_tracker.observe(1000, 1000, None));
    assert_eq!(
        statuses.as_slice(),
        &[
            StreamStatus::Stopped,
            StreamStatus::Stopped,
            StreamStatus::Stopped
        ]
    );

    // layers seen [0, 1]
    take_note(
        &mut statuses,
        dd_tracker.observe(1000, 1000, Some(create_descriptor_dependency_for_targets(1, 1))),
    );
    assert_eq!(statuses[0], StreamStatus::Active);
    assert_eq!(statuses[1], StreamStatus::Active);
    assert_eq!(statuses[2], StreamStatus::Stopped);

    // layers seen [0, 1, 2]
    take_note(
        &mut statuses,
        dd_tracker.observe(1000, 1000, Some(create_descriptor_dependency_for_targets(2, 1))),
    );
    assert_eq!(statuses[0], StreamStatus::Active);
    assert_eq!(statuses[1], StreamStatus::Active);
    assert_eq!(statuses[2], StreamStatus::Active);

    // layer 2 gone, layers seen [0, 1]
    take_note(
        &mut statuses,
        dd_tracker.observe(1000, 1000, Some(create_descriptor_dependency_for_targets(1, 1))),
    );
    assert_eq!(statuses[0], StreamStatus::Active);
    assert_eq!(statuses[1], StreamStatus::Active);
    assert_eq!(statuses[2], StreamStatus::Stopped);
}

#[test]
fn only_watched_layers_that_change_are_told() {
    let mut tracker = StreamTrackerDependencyDescriptor::new();
    tracker.on_status_changed(1);
    tracker.on_status_changed(2);
    tracker.on_status_changed(3);
    tracker.on_status_changed(-1);
    assert_eq!(
        tracker.observe(1, 1, Some(create_descriptor_dependency_for_targets(1, 0))),
        vec![(1, StreamStatus::Active)]
    );
    assert_eq!(tracker.observe(1, 0, Some(create_descriptor_dependency_for_targets(2, 0))), vec![]);
    assert_eq!(
        tracker.observe(1, 1, Some(create_descriptor_dependency_for_targets(2, 0))),
        vec![(2, StreamStatus::Active)]
    );
    assert_eq!(tracker.set_paused(true), vec![]);
    assert_eq!(tracker.status(2), StreamStatus::Active);
    assert_eq!(
        tracker.set_paused(false),
        vec![(1, StreamStatus::Stopped), (2, StreamStatus::Stopped)]
    );
    assert_eq!(tracker.status(0), StreamStatus::Stopped);
}

#[test]
fn paused_streams_do_not_count_packets() {
    let mut tracker = new_stream_tracker_packet(1, 1);
    tracker.on_status_changed();
    assert_eq!(tracker.set_paused(true), None);
    assert_eq!(tracker.observe(10), None);
    assert_eq!(tracker.status(), StreamStatus::Stopped);
    assert_eq!(tracker.set_paused(false), None);
    assert_eq!(tracker.observe(10), Some(StreamStatus::Active));
    assert_eq!(tracker.observe(10), None);
}
