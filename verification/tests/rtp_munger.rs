//! Rewriting of numbers and timestamps.
use oxidesfu_media::rtp_munger::range_map::RangeMapError;
use oxidesfu_media::rtp_munger::{
    RtpMunger, RtpMungerError, RtpMungerInputPacket, SequenceNumberOrdering, SnTs,
    TranslationParamsRtp,
};

fn packet(
    sequence_number: u16,
    sn_cycles: u64,
    timestamp: u64,
    payload_size: usize,
    is_key_frame: bool,
) -> RtpMungerInputPacket {
    RtpMungerInputPacket {
        ext_sequence_number: sn_cycles * 65_536 + sequence_number as u64,
        ext_timestamp: timestamp,
        payload_size,
        is_key_frame,
    }
}

#[test]
fn rtp_munger_set_last_sn_ts_matches_upstream_contract() {
    let mut munger = RtpMunger::new();

    let ext_packet = packet(23333, 0, 0xabcdef, 10, false);
    munger.set_last_sn_ts(&ext_packet);

    assert_eq!(munger.ext_highest_incoming_sn, 23332);
    assert_eq!(munger.ext_last_sn, 23333);
    assert_eq!(munger.ext_last_ts, 0xabcdef);
    assert!(
        munger
            .sn_range_map
            .get_value(munger.ext_highest_incoming_sn)
            .is_err()
    );
    assert_eq!(munger.sn_range_map.get_value(munger.ext_last_sn), Ok(0));
    assert_eq!(munger.sn_offset, 0);
    assert_eq!(munger.ts_offset, 0);
}

#[test]
fn rtp_munger_update_sn_ts_offsets_matches_upstream_contract() {
    let mut munger = RtpMunger::new();

    let ext_packet = packet(23333, 0, 0xabcdef, 10, false);
    munger.set_last_sn_ts(&ext_packet);

    let switched = packet(33333, 0, 0xabcdef, 10, false);
    munger.update_sn_ts_offsets(&switched, 1, 1);

    assert_eq!(munger.ext_highest_incoming_sn, 33332);
    assert_eq!(munger.ext_last_sn, 23333);
    assert_eq!(munger.ext_last_ts, 0xabcdef);
    assert!(
        munger
            .sn_range_map
            .get_value(munger.ext_highest_incoming_sn)
            .is_err()
    );
    assert_eq!(
        munger.sn_range_map.get_value(munger.ext_last_sn),
        Err(RangeMapError::KeyTooOld)
    );
    assert_eq!(munger.sn_offset, 9999);
    assert_eq!(munger.ts_offset, u64::MAX);
}

#[test]
fn rtp_munger_packet_dropped_matches_upstream_contract() {
    let mut munger = RtpMunger::new();

    let first = packet(23333, 0, 0xabcdef, 10, false);
    munger.set_last_sn_ts(&first);
    assert_eq!(
        munger
            .update_and_get_sn_ts(&first, false)
            .unwrap()
            .sn_ordering,
        SequenceNumberOrdering::Contiguous
    );

    let non_head_drop = packet(33333, 0, 0xabcdef, 10, false);
    munger.packet_dropped(&non_head_drop);
    assert_eq!(munger.ext_highest_incoming_sn, 23333);
    assert_eq!(munger.ext_last_sn, 23333);
    assert_eq!(
        munger
            .sn_range_map
            .get_value(munger.ext_highest_incoming_sn),
        Ok(0)
    );

    let head = packet(44444, 0, 0xabcdef, 20, false);
    let _ = munger.update_and_get_sn_ts(&head, false).unwrap();
    assert_eq!(munger.ext_last_sn, 44444);

    munger.packet_dropped(&head);
    assert_eq!(munger.ext_last_sn, 23333);
    assert_eq!(
        munger
            .sn_range_map
            .get_value(munger.ext_highest_incoming_sn),
        Err(RangeMapError::KeyExcluded)
    );
    assert_eq!(
        munger
            .sn_range_map
            .get_value(munger.ext_highest_incoming_sn + 1)
            .unwrap(),
        1
    );

    let after = packet(44445, 0, 0xabcdef, 20, false);
    let _ = munger.update_and_get_sn_ts(&after, false).unwrap();
    assert_eq!(munger.ext_last_sn, 44444);
    assert_eq!(
        munger
            .sn_range_map
            .get_value(munger.ext_highest_incoming_sn),
        Ok(1)
    );
}

#[test]
fn rtp_munger_out_of_order_sequence_number_matches_upstream_contract() {
    let mut munger = RtpMunger::new();

    let start = packet(23333, 0, 0xabcdef, 10, false);
    munger.set_last_sn_ts(&start);
    let _ = munger.update_and_get_sn_ts(&start, false).unwrap();

    assert_eq!(
        munger.sn_range_map.exclude_range(23332, 23333),
        Err(RangeMapError::ReversedOrder)
    );

    let before_start = packet(23331, 0, 0xabcdef, 10, false);
    assert_eq!(
        munger.update_and_get_sn_ts(&before_start, false),
        Err(RtpMungerError::OutOfOrderSequenceNumberCacheMiss)
    );

    munger
        .sn_range_map
        .exclude_range(23334, 23335)
        .expect("manual exclusion should succeed");

    let next = packet(23336, 0, 0xabcdef, 10, false);
    let _ = munger.update_and_get_sn_ts(&next, false).unwrap();

    let out_of_order = packet(23335, 0, 0xabcdef, 10, false);
    let expected = TranslationParamsRtp {
        sn_ordering: SequenceNumberOrdering::OutOfOrder,
        ext_sequence_number: 23334,
        ext_timestamp: 0xabcdef,
    };
    assert_eq!(
        munger.update_and_get_sn_ts(&out_of_order, false),
        Ok(expected)
    );

    let miss = packet(23332, 0, 0xabcdef, 10, false);
    assert_eq!(
        munger.update_and_get_sn_ts(&miss, false),
        Err(RtpMungerError::OutOfOrderSequenceNumberCacheMiss)
    );
}

#[test]
fn rtp_munger_padding_only_packet_matches_upstream_contract() {
    let mut munger = RtpMunger::new();

    let start = packet(23333, 0, 0xabcdef, 0, false);
    munger.set_last_sn_ts(&start);

    assert_eq!(
        munger.update_and_get_sn_ts(&start, false),
        Err(RtpMungerError::PaddingOnlyPacket)
    );
    assert_eq!(munger.ext_highest_incoming_sn, 23333);
    assert_eq!(munger.ext_last_sn, 23333);
    assert!(
        munger
            .sn_range_map
            .get_value(munger.ext_highest_incoming_sn)
            .is_err()
    );

    let with_gap = packet(23335, 0, 0xabcdef, 0, false);
    let expected = TranslationParamsRtp {
        sn_ordering: SequenceNumberOrdering::Gap,
        ext_sequence_number: 23334,
        ext_timestamp: 0xabcdef,
    };
    assert_eq!(munger.update_and_get_sn_ts(&with_gap, false), Ok(expected));
    assert_eq!(munger.ext_highest_incoming_sn, 23335);
    assert_eq!(munger.ext_last_sn, 23334);
    assert_eq!(
        munger
            .sn_range_map
            .get_value(munger.ext_highest_incoming_sn),
        Ok(1)
    );
}

#[test]
fn rtp_munger_gap_in_sequence_number_matches_upstream_contract() {
    let mut munger = RtpMunger::new();

    let start = packet(65533, 0, 0xabcdef, 33, false);
    munger.set_last_sn_ts(&start);
    assert!(munger.update_and_get_sn_ts(&start, false).is_ok());

    let gap = packet(1, 1, 0xabcdef, 33, false);
    let expected_gap = TranslationParamsRtp {
        sn_ordering: SequenceNumberOrdering::Gap,
        ext_sequence_number: 65_537,
        ext_timestamp: 0xabcdef,
    };
    assert_eq!(munger.update_and_get_sn_ts(&gap, false), Ok(expected_gap));
    assert_eq!(munger.ext_highest_incoming_sn, 65_537);
    assert_eq!(munger.ext_last_sn, 65_537);
    assert_eq!(
        munger
            .sn_range_map
            .get_value(munger.ext_highest_incoming_sn),
        Ok(0)
    );
    for i in 65_534..65_537 {
        assert_eq!(munger.sn_range_map.get_value(i), Ok(0));
    }

    let padding2 = packet(2, 1, 0xabcdef, 0, false);
    assert_eq!(
        munger.update_and_get_sn_ts(&padding2, false),
        Err(RtpMungerError::PaddingOnlyPacket)
    );
    assert_eq!(munger.ext_highest_incoming_sn, 65_538);
    assert_eq!(munger.ext_last_sn, 65_537);

    let after_gap = packet(4, 1, 0xabcdef, 22, false);
    let expected_after_gap = TranslationParamsRtp {
        sn_ordering: SequenceNumberOrdering::Gap,
        ext_sequence_number: 65_539,
        ext_timestamp: 0xabcdef,
    };
    assert_eq!(
        munger.update_and_get_sn_ts(&after_gap, false),
        Ok(expected_after_gap)
    );
    assert_eq!(munger.ext_highest_incoming_sn, 65_540);
    assert_eq!(munger.ext_last_sn, 65_539);
    assert_eq!(
        munger
            .sn_range_map
            .get_value(munger.ext_highest_incoming_sn),
        Ok(1)
    );
    assert_eq!(munger.sn_range_map.get_value(65_539), Ok(1));

    let padding5 = packet(5, 1, 0xabcdef, 0, false);
    assert_eq!(
        munger.update_and_get_sn_ts(&padding5, false),
        Err(RtpMungerError::PaddingOnlyPacket)
    );
    assert_eq!(munger.ext_highest_incoming_sn, 65_541);
    assert_eq!(munger.ext_last_sn, 65_539);

    let after_gap2 = packet(7, 1, 0xabcdef, 22, false);
    let expected_after_gap2 = TranslationParamsRtp {
        sn_ordering: SequenceNumberOrdering::Gap,
        ext_sequence_number: 65_541,
        ext_timestamp: 0xabcdef,
    };
    assert_eq!(
        munger.update_and_get_sn_ts(&after_gap2, false),
        Ok(expected_after_gap2)
    );
    assert_eq!(munger.ext_highest_incoming_sn, 65_543);
    assert_eq!(munger.ext_last_sn, 65_541);
    assert_eq!(
        munger
            .sn_range_map
            .get_value(munger.ext_highest_incoming_sn),
        Ok(2)
    );
    assert_eq!(munger.sn_range_map.get_value(65_539), Ok(1));
    assert_eq!(munger.sn_range_map.get_value(65_542), Ok(2));

    let miss6 = packet(6, 1, 0xabcdef, 0, false);
    let expected_oo6 = TranslationParamsRtp {
        sn_ordering: SequenceNumberOrdering::OutOfOrder,
        ext_sequence_number: 65_540,
        ext_timestamp: 0xabcdef,
    };
    assert_eq!(munger.update_and_get_sn_ts(&miss6, false), Ok(expected_oo6));

    let miss3 = packet(3, 1, 0xabcdef, 0, false);
    let expected_oo3 = TranslationParamsRtp {
        sn_ordering: SequenceNumberOrdering::OutOfOrder,
        ext_sequence_number: 65_538,
        ext_timestamp: 0xabcdef,
    };
    assert_eq!(munger.update_and_get_sn_ts(&miss3, false), Ok(expected_oo3));
}

#[test]
fn rtp_munger_update_and_get_padding_sn_ts_matches_upstream_contract() {
    let mut munger = RtpMunger::new();

    let start = packet(23333, 0, 0xabcdef, 20, false);
    munger.set_last_sn_ts(&start);

    assert_eq!(
        munger.update_and_get_padding_sn_ts(10, 10, 5, false, 0),
        Err(RtpMungerError::PaddingNotOnFrameBoundary)
    );

    let num_padding = 10usize;
    let clock_rate = 10u32;
    let frame_rate = 5u32;

    let mut expected = Vec::with_capacity(num_padding);
    for i in 0..num_padding {
        expected.push(SnTs {
            ext_sequence_number: start.ext_sequence_number + i as u64 + 1,
            ext_timestamp: start.ext_timestamp + (((i as u64) * 10 + 5 - 1) / 5),
        });
    }

    let first = munger
        .update_and_get_padding_sn_ts(
            num_padding,
            clock_rate,
            frame_rate,
            true,
            start.ext_timestamp,
        )
        .expect("forced marker should allow padding synthesis");
    assert_eq!(first, expected);

    let mut expected_second = Vec::with_capacity(num_padding);
    for i in 0..num_padding {
        expected_second.push(SnTs {
            ext_sequence_number: start.ext_sequence_number + first.len() as u64 + i as u64 + 1,
            ext_timestamp: first[first.len() - 1].ext_timestamp
                + (((i as u64 + 1) * 10 + 5 - 1) / 5),
        });
    }

    let second = munger
        .update_and_get_padding_sn_ts(
            num_padding,
            clock_rate,
            frame_rate,
            false,
            first[first.len() - 1].ext_timestamp,
        )
        .expect("padding on frame boundary should succeed");
    assert_eq!(second, expected_second);
}

#[test]
fn rtp_munger_is_on_frame_boundary_matches_upstream_contract() {
    let mut munger = RtpMunger::new();

    let first = packet(23333, 0, 0xabcdef, 20, false);
    munger.set_last_sn_ts(&first);

    let _ = munger
        .update_and_get_sn_ts(&first, false)
        .expect("first packet should rewrite");
    assert!(!munger.is_on_frame_boundary());

    let marker = packet(23334, 0, 0xabcdef, 20, false);
    let _ = munger
        .update_and_get_sn_ts(&marker, true)
        .expect("marker packet should rewrite");
    assert!(munger.is_on_frame_boundary());
}

#[test]
fn switched_source_continues_without_a_hole() {
    let mut munger = RtpMunger::new();
    let first = packet(100, 0, 1_000, 10, true);
    munger.set_last_sn_ts(&first);
    assert_eq!(munger.update_and_get_sn_ts(&first, false).unwrap().ext_sequence_number, 100);

    let other = packet(5_000, 0, 9_000, 10, true);
    munger.update_sn_ts_offsets(&other, 1, 7);
    let switched = munger.update_and_get_sn_ts(&other, false).unwrap();
    assert_eq!(switched.ext_sequence_number, 101);
    assert_eq!(switched.ext_timestamp, 1_007);
    assert_eq!(switched.sn_ordering, SequenceNumberOrdering::Contiguous);
}

#[test]
fn repeated_packets_are_duplicates() {
    let mut munger = RtpMunger::new();
    let first = packet(100, 0, 1_000, 10, true);
    munger.set_last_sn_ts(&first);
    munger.update_and_get_sn_ts(&first, false).unwrap();
    assert_eq!(
        munger.update_and_get_sn_ts(&first, false),
        Err(RtpMungerError::DuplicatePacket)
    );
}

#[test]
fn requests_from_before_the_gate_are_filtered() {
    let mut munger = RtpMunger::new();
    let key = packet(100, 0, 1_000, 10, true);
    munger.set_last_sn_ts(&key);
    munger.update_and_get_sn_ts(&key, true).unwrap();
    let filtered = munger.filter_rtx(&[99, 100, 101]);
    assert!(filtered.contains(&101));
    assert!(!filtered.contains(&99));
}
