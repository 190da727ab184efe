//! Restarts of a stream.
use oxidesfu_media::rtp_stats_receiver_restart::{
    RtpStatsReceiverRestartDetector, RESTART_THRESHOLD,
};

#[test]
fn rtp_stats_receiver_restart_detector_matches_upstream_contract() {
    let mut detector = RtpStatsReceiverRestartDetector::new();

    assert!(!detector.maybe_restart(10, 20, 1000));
    assert!(!detector.maybe_restart(11, 20, 1000));
    assert!(!detector.maybe_restart(13, 20, 1000));
    assert!(!detector.maybe_restart(14, 20, 1000));
    assert!(
        !detector.maybe_restart(15, 20, 1000),
        "should still fail due to sequence gap between 11 and 13"
    );
    assert!(!detector.maybe_restart(16, 19, 1000));
    assert!(!detector.maybe_restart(17, 21, 1000));
    assert!(!detector.maybe_restart(18, 21, 1000));
    assert!(!detector.maybe_restart(19, 21, 1000));
    assert!(
        detector.maybe_restart(20, 21, 1000),
        "should restart once threshold contiguous/equal-or-increasing timestamp packets are present"
    );
    assert_eq!(detector.restart_packets_n(), RESTART_THRESHOLD);

    detector.reset_restart();
    assert_eq!(detector.restart_packets_n(), 0);
}

#[test]
fn rtp_stats_receiver_restart_detector_ignores_padding_only_samples() {
    let mut detector = RtpStatsReceiverRestartDetector::new();
    assert!(!detector.maybe_restart(100, 1000, 0));
    assert_eq!(detector.restart_packets_n(), 0);
}

#[test]
fn five_consecutive_packets_are_a_restart() {
    let mut detector = RtpStatsReceiverRestartDetector::new();
    for i in 0..4u16 {
        assert!(!detector.maybe_restart(65_534u16.wrapping_add(i), 7, 100));
    }
    assert!(detector.maybe_restart(2, 7, 100));
}
