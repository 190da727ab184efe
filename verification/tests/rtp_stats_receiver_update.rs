//! Statistics of received packets.
use oxidesfu_media::rtp_stats_receiver_update::{RtpFlowUnhandledReason, RtpStatsReceiverLite};

#[test]
fn rtp_stats_receiver_update_matches_upstream_contract() {
    let mut receiver = RtpStatsReceiverLite::new();

    let sequence_number_start = 1000u16;
    let timestamp_start = 500_000u32;

    let mut flow_state = receiver.update(sequence_number_start, timestamp_start, 1000);
    assert!(receiver.initialized());
    assert_eq!(receiver.highest_sequence_number(), sequence_number_start);
    assert_eq!(
        receiver.highest_extended_sequence_number(),
        u64::from(sequence_number_start)
    );
    assert_eq!(receiver.highest_timestamp(), timestamp_start);
    assert_eq!(
        receiver.highest_extended_timestamp(),
        u64::from(timestamp_start)
    );
    assert_eq!(flow_state.unhandled_reason, RtpFlowUnhandledReason::Handled);

    let mut sequence_number = sequence_number_start + 1;
    let mut timestamp = timestamp_start + 3000;
    flow_state = receiver.update(sequence_number, timestamp, 1000);
    assert_eq!(receiver.highest_sequence_number(), sequence_number);
    assert_eq!(
        receiver.highest_extended_sequence_number(),
        u64::from(sequence_number)
    );
    assert_eq!(receiver.highest_timestamp(), timestamp);
    assert_eq!(receiver.highest_extended_timestamp(), u64::from(timestamp));
    assert_eq!(flow_state.unhandled_reason, RtpFlowUnhandledReason::Handled);

    flow_state = receiver.update(
        sequence_number.wrapping_sub(10),
        timestamp.wrapping_sub(30_000),
        1000,
    );
    assert_eq!(
        flow_state.unhandled_reason,
        RtpFlowUnhandledReason::PreStartTimestamp
    );
    assert_eq!(receiver.highest_sequence_number(), sequence_number);
    assert_eq!(receiver.highest_timestamp(), timestamp);
    assert_eq!(receiver.packets_out_of_order(), 0);
    assert_eq!(receiver.packets_duplicate(), 0);

    flow_state = receiver.update(
        sequence_number.wrapping_sub(10),
        timestamp.wrapping_sub(30_000),
        1000,
    );
    assert_eq!(
        flow_state.unhandled_reason,
        RtpFlowUnhandledReason::PreStartTimestamp
    );
    assert_eq!(receiver.highest_sequence_number(), sequence_number);
    assert_eq!(receiver.highest_timestamp(), timestamp);
    assert_eq!(receiver.packets_out_of_order(), 0);
    assert_eq!(receiver.packets_duplicate(), 0);

    sequence_number = sequence_number.wrapping_add(10);
    timestamp = timestamp.wrapping_add(30_000);
    flow_state = receiver.update(sequence_number, timestamp, 1000);
    assert_eq!(
        flow_state.loss_start_inclusive,
        u64::from(sequence_number - 9)
    );
    assert_eq!(flow_state.loss_end_exclusive, u64::from(sequence_number));
    assert_eq!(receiver.packets_lost(), 9);

    flow_state = receiver.update(
        sequence_number.wrapping_sub(6),
        timestamp.wrapping_sub(18_000),
        1000,
    );
    assert_eq!(receiver.highest_sequence_number(), sequence_number);
    assert_eq!(receiver.highest_timestamp(), timestamp);
    assert_eq!(receiver.packets_out_of_order(), 1);
    assert_eq!(receiver.packets_duplicate(), 0);
    assert_eq!(receiver.packets_lost(), 8);
    assert!(flow_state.is_out_of_order);

    sequence_number = sequence_number.wrapping_add(2);
    timestamp = timestamp.wrapping_add(6000);
    flow_state = receiver.update(sequence_number, timestamp, 1000);
    assert_eq!(
        flow_state.loss_start_inclusive,
        u64::from(sequence_number - 1)
    );
    assert_eq!(flow_state.loss_end_exclusive, u64::from(sequence_number));
    assert_eq!(receiver.packets_lost(), 9);
    assert!(!receiver.history_is_set(u64::from(sequence_number - 1)));

    sequence_number = sequence_number.wrapping_sub(1);
    timestamp = timestamp.wrapping_sub(3000);
    flow_state = receiver.update(sequence_number, timestamp, 999);
    assert_eq!(receiver.packets_lost(), 8);
    assert_eq!(receiver.packets_out_of_order(), 2);
    assert!(receiver.history_is_set(u64::from(sequence_number)));
    assert!(flow_state.is_out_of_order);

    sequence_number = sequence_number.wrapping_add(2);
    timestamp = timestamp.wrapping_add(3000);
    flow_state = receiver.update(sequence_number, timestamp, 0);
    assert_eq!(receiver.packets_lost(), 8);
    assert_eq!(receiver.packets_out_of_order(), 2);
    assert!(receiver.history_is_set(u64::from(sequence_number)));
    assert!(receiver.history_is_set(u64::from(sequence_number - 1)));
    assert!(receiver.history_is_set(u64::from(sequence_number - 2)));
    assert_eq!(flow_state.unhandled_reason, RtpFlowUnhandledReason::Handled);

    flow_state = receiver.update(
        sequence_number.wrapping_add(400),
        timestamp.wrapping_sub(6000),
        300,
    );
    assert_eq!(
        flow_state.unhandled_reason,
        RtpFlowUnhandledReason::OldSequenceNumber
    );
    assert_eq!(receiver.highest_sequence_number(), sequence_number);
    assert_eq!(receiver.highest_timestamp(), timestamp);
}

#[test]
fn repeated_packets_are_duplicates_and_late_packets_make_up_for_losses() {
    let mut receiver = RtpStatsReceiverLite::new();
    receiver.update(100, 1_000, 10);
    receiver.update(101, 2_000, 10);
    receiver.update(104, 5_000, 10);
    assert_eq!(receiver.packets_lost(), 2);

    let late = receiver.update(102, 3_000, 10);
    assert!(late.is_out_of_order);
    assert_eq!(receiver.packets_lost(), 1);

    let repeated = receiver.update(102, 3_000, 10);
    assert!(repeated.is_duplicate);
    assert_eq!(receiver.packets_duplicate(), 1);
    assert_eq!(receiver.packets_lost(), 1);
}
