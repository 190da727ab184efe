//! Statistics of sent packets.
use oxidesfu_media::rtp_stats_sender::RtpStatsSenderLite;

#[test]
fn rtp_stats_sender_interval_stats_packets_not_found_metadata_matches_upstream_contract() {
    let sender = RtpStatsSenderLite::new(1024);
    let stats = sender.get_interval_stats(0, 10_000, 10_000);
    assert_eq!(stats.packets_not_found_metadata, 8_977);
}

#[test]
fn rtp_stats_sender_interval_stats_classifies_packet_types() {
    let mut sender = RtpStatsSenderLite::new(16);
    sender.set_sn_info(100, 1200, 12, false, false, false);
    sender.set_sn_info(101, 800, 12, true, false, true);
    sender.set_sn_info(102, 60, 8, false, true, false);
    // 103 intentionally left missing (pkt_size=0)

    let stats = sender.get_interval_stats(100, 104, 103);
    assert_eq!(stats.packets, 2);
    assert_eq!(stats.bytes, 2000);
    assert_eq!(stats.header_bytes, 24);
    assert_eq!(stats.packets_out_of_order_feed, 1);
    assert_eq!(stats.frames, 1);

    assert_eq!(stats.packets_padding, 1);
    assert_eq!(stats.bytes_padding, 60);
    assert_eq!(stats.header_bytes_padding, 8);

    assert_eq!(stats.packets_lost_feed, 1);
    assert_eq!(stats.packets_not_found_metadata, 0);
}

#[test]
fn every_packet_of_an_interval_is_accounted_for() {
    let mut sender = RtpStatsSenderLite::new(8);
    sender.set_sn_info(10, 100, 12, true, false, false);
    sender.set_sn_info(11, 50, 12, false, true, false);
    let stats = sender.get_interval_stats(10, 14, 13);
    assert_eq!(
        stats.packets + stats.packets_padding + stats.packets_lost_feed
            + stats.packets_not_found_metadata,
        4
    );
    assert_eq!(stats.frames, 1);
}

#[test]
fn full_ring_is_known_from_its_first_number() {
    let mut sender = RtpStatsSenderLite::new(8);
    sender.set_sn_info(0, 100, 12, true, false, false);
    sender.set_sn_info(7, 50, 12, false, false, false);
    let stats = sender.get_interval_stats(0, 8, 7);
    assert_eq!(stats.packets, 2);
    assert_eq!(stats.bytes, 150);
    assert_eq!(stats.packets_lost_feed, 6);
    assert_eq!(stats.packets_not_found_metadata, 0);
    assert_eq!(sender.get_interval_stats(0, 9, 8).packets_not_found_metadata, 1);
}
