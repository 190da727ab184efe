//! What was sent, to send it again.
use oxidesfu_media::sequencer::{Sequencer, IGNORE_RETRANSMISSION_MS};

fn now_from_ms(ms: u32) -> i64 {
    i64::from(ms) * 1_000_000
}

#[test]
fn sequencer_matches_upstream_contract() {
    let mut seq = Sequencer::new(500, false)
        .expect("sequencer should construct")
        .with_start_time_ns(0);
    let off = 15u64;

    for i in 1u64..518 {
        seq.push(now_from_ms(1), i, i + off, 123, true, 2, &[], 0, &[], &[]);
    }
    seq.push(
        now_from_ms(1),
        519,
        519 + off,
        123,
        false,
        2,
        &[],
        0,
        &[],
        &[],
    );
    seq.push(
        now_from_ms(1),
        518,
        518 + off,
        123,
        true,
        2,
        &[],
        0,
        &[],
        &[],
    );

    let req = vec![57, 58, 62, 63, 513, 514, 515, 516, 517];
    let res_early = seq.get_ext_packet_metas(&req, now_from_ms(10));
    assert!(res_early.is_empty());

    let res = seq.get_ext_packet_metas(&req, now_from_ms(IGNORE_RETRANSMISSION_MS + 20));
    assert_eq!(res.len(), req.len());
    for (i, val) in res.iter().enumerate() {
        assert_eq!(val.target_seq_no, req[i]);
        assert_eq!(val.source_seq_no, u64::from(req[i]) - off);
        assert_eq!(val.layer, 2);
        assert_eq!(val.ext_sequence_number, u64::from(req[i]));
        assert_eq!(val.ext_timestamp, 123);
    }

    let second_without_delay =
        seq.get_ext_packet_metas(&req, now_from_ms(IGNORE_RETRANSMISSION_MS + 25));
    assert!(second_without_delay.is_empty());

    let second = seq.get_ext_packet_metas(&req, now_from_ms(2 * IGNORE_RETRANSMISSION_MS + 40));
    assert_eq!(second.len(), req.len());

    seq.push(
        now_from_ms(2 * IGNORE_RETRANSMISSION_MS + 40),
        521,
        521 + off,
        123,
        true,
        1,
        &[],
        0,
        &[],
        &[],
    );
    assert!(
        seq.get_ext_packet_metas(
            &[(521 + off) as u16],
            now_from_ms(2 * IGNORE_RETRANSMISSION_MS + 45)
        )
        .is_empty()
    );
    assert_eq!(
        seq.get_ext_packet_metas(
            &[(521 + off) as u16],
            now_from_ms(3 * IGNORE_RETRANSMISSION_MS + 60)
        )
        .len(),
        1
    );

    seq.push(
        now_from_ms(3 * IGNORE_RETRANSMISSION_MS + 60),
        505,
        505 + off,
        123,
        false,
        1,
        &[],
        0,
        &[],
        &[],
    );
    assert!(
        seq.get_ext_packet_metas(
            &[(505 + off) as u16],
            now_from_ms(3 * IGNORE_RETRANSMISSION_MS + 65)
        )
        .is_empty()
    );
    assert_eq!(
        seq.get_ext_packet_metas(
            &[(505 + off) as u16],
            now_from_ms(4 * IGNORE_RETRANSMISSION_MS + 80)
        )
        .len(),
        1
    );
}

#[test]
fn sequencer_get_nack_seq_no_no_exclusion_matches_upstream_contract() {
    let mut sequencer = Sequencer::new(5, false)
        .expect("sequencer should construct")
        .with_start_time_ns(0);

    let offset = 5u64;
    let marker_odd = true;
    let marker_even = false;
    let codec_odd = vec![1, 2, 3, 4];
    let codec_even = vec![5, 6, 7];
    let dd_odd = vec![8, 9, 10];
    let dd_even = vec![11, 12];
    let act_odd = vec![8, 9, 10];
    let act_even = vec![11, 12];

    let inputs = vec![2u64, 3, 4, 7, 8, 11, 12, 13];
    for input in inputs {
        if input % 2 == 0 {
            sequencer.push(
                now_from_ms(1),
                input,
                input + offset,
                123,
                marker_even,
                3,
                &codec_even,
                4,
                &dd_even,
                &act_even,
            );
        } else {
            sequencer.push(
                now_from_ms(1),
                input,
                input + offset,
                123,
                marker_odd,
                3,
                &codec_odd,
                3,
                &dd_odd,
                &act_odd,
            );
        }
    }

    let requested = vec![9, 10, 13, 14, 15, 16, 17];
    let result =
        sequencer.get_ext_packet_metas(&requested, now_from_ms(IGNORE_RETRANSMISSION_MS + 20));

    let got_sources: Vec<u16> = result.iter().map(|m| m.source_seq_no as u16).collect();
    assert_eq!(got_sources, vec![11, 12]);

    for meta in result {
        if meta.source_seq_no % 2 == 0 {
            assert_eq!(meta.marker, marker_even);
            assert_eq!(meta.codec_bytes(), codec_even);
            assert_eq!(meta.num_codec_bytes_in, 4);
            assert_eq!(meta.dd_bytes(), dd_even);
            assert_eq!(meta.act_bytes, act_even);
        } else {
            assert_eq!(meta.marker, marker_odd);
            assert_eq!(meta.codec_bytes(), codec_odd);
            assert_eq!(meta.num_codec_bytes_in, 3);
            assert_eq!(meta.dd_bytes(), dd_odd);
            assert_eq!(meta.act_bytes, act_odd);
        }
    }
}

#[test]
fn sequencer_get_nack_seq_no_exclusion_matches_upstream_contract() {
    let mut sequencer = Sequencer::new(5, true)
        .expect("sequencer should construct")
        .with_start_time_ns(0);

    let offset = 5u64;
    let marker_odd = true;
    let marker_even = false;
    let codec_odd = vec![1, 2, 3, 4];
    let codec_even = vec![5, 6, 7];
    let codec_oversized = vec![1, 2, 3, 4, 5, 6, 7, 8, 9];
    let dd_odd = vec![8, 9, 10];
    let dd_even = vec![11, 12];
    let dd_oversized = vec![11, 12, 13, 14, 15, 16, 17, 18, 19];
    let act_odd = vec![0, 1, 2, 3, 4, 5, 6, 7];
    let act_even = vec![0, 1, 2, 3, 4, 5, 6, 7, 8, 9, 10, 11, 12, 13, 14, 15];

    let inputs = vec![
        (65526u64, false),
        (65524, false),
        (65525, false),
        (65529, false),
        (65530, false),
        (65531, true),
        (65533, false),
        (65532, true),
        (65534, false),
    ];

    for (seq_no, is_padding) in inputs {
        if is_padding {
            sequencer.push_padding(seq_no + offset, seq_no + offset);
            continue;
        }

        if seq_no % 5 == 0 {
            sequencer.push(
                now_from_ms(1),
                seq_no,
                seq_no + offset,
                123,
                marker_odd,
                3,
                &codec_oversized,
                codec_oversized.len(),
                &dd_oversized,
                &act_odd,
            );
        } else if seq_no % 2 == 0 {
            sequencer.push(
                now_from_ms(1),
                seq_no,
                seq_no + offset,
                123,
                marker_even,
                3,
                &codec_even,
                4,
                &dd_even,
                &act_even,
            );
        } else {
            sequencer.push(
                now_from_ms(1),
                seq_no,
                seq_no + offset,
                123,
                marker_odd,
                3,
                &codec_odd,
                3,
                &dd_odd,
                &act_odd,
            );
        }
    }

    let requested = vec![65531, 65532, 65535, 0, 1, 2, 3];
    let result =
        sequencer.get_ext_packet_metas(&requested, now_from_ms(IGNORE_RETRANSMISSION_MS + 20));

    let got_sources: Vec<u16> = result.iter().map(|m| m.source_seq_no as u16).collect();
    assert_eq!(got_sources, vec![65530, 65533, 65534]);

    for meta in result {
        if meta.source_seq_no % 5 == 0 {
            assert_eq!(meta.marker, marker_odd);
            assert_eq!(meta.codec_bytes(), codec_oversized);
            assert_eq!(meta.num_codec_bytes_in, codec_oversized.len() as u8);
            assert_eq!(meta.dd_bytes(), dd_oversized);
            assert_eq!(meta.dd_bytes_size, dd_oversized.len() as u8);
            assert_eq!(meta.act_bytes, act_odd);
        } else if meta.source_seq_no % 2 == 0 {
            assert_eq!(meta.marker, marker_even);
            assert_eq!(meta.codec_bytes(), codec_even);
            assert_eq!(meta.num_codec_bytes_in, 4);
            assert_eq!(meta.dd_bytes(), dd_even);
            assert_eq!(meta.dd_bytes_size, dd_even.len() as u8);
            assert_eq!(meta.act_bytes, act_even);
        } else {
            assert_eq!(meta.marker, marker_odd);
            assert_eq!(meta.codec_bytes(), codec_odd);
            assert_eq!(meta.num_codec_bytes_in, 3);
            assert_eq!(meta.dd_bytes(), dd_odd);
            assert_eq!(meta.dd_bytes_size, dd_odd.len() as u8);
            assert_eq!(meta.act_bytes, act_odd);
        }
    }
}

#[test]
fn sequencers_hold_at_least_one_packet() {
    assert!(Sequencer::new(0, false).is_none());
    assert!(Sequencer::new(1, false).is_some());
}

#[test]
fn padding_is_not_sent_again() {
    let mut sequencer = Sequencer::new(8, false).expect("size is not zero").with_start_time_ns(0);
    sequencer.push(now_from_ms(1), 10, 10, 5, true, 0, &[], 0, &[], &[]);
    sequencer.push_padding(11, 12);
    sequencer.push(now_from_ms(1), 13, 13, 5, true, 0, &[1, 2], 1, &[3], &[3]);
    let metas =
        sequencer.get_ext_packet_metas(&[10, 11, 12, 13], now_from_ms(IGNORE_RETRANSMISSION_MS + 9));
    assert_eq!(metas.len(), 2);
    assert_eq!(metas[0].ext_sequence_number, 10);
    assert_eq!(metas[1].ext_sequence_number, 13);
    assert_eq!(metas[1].codec_bytes(), vec![1, 2]);
    assert_eq!(metas[1].dd_bytes(), vec![3]);
}

#[test]
fn packets_are_sent_again_three_times_at_most() {
    let mut sequencer = Sequencer::new(8, false).expect("size is not zero").with_start_time_ns(0);
    sequencer.push(now_from_ms(5), 10, 10, 5, true, 0, &[], 0, &[], &[]);
    sequencer.push(now_from_ms(5), 11, 11, 5, true, 0, &[], 0, &[], &[]);
    let mut times = Vec::new();
    for ms in 0..1_000u32 {
        let metas = sequencer.get_ext_packet_metas(&[11, 10, 11, 10], now_from_ms(ms));
        let numbers: Vec<u16> = metas.iter().map(|meta| meta.target_seq_no).collect();
        if !numbers.is_empty() {
            assert_eq!(numbers, vec![11, 10]);
            times.push(ms);
        }
    }
    assert_eq!(times, vec![106, 207, 308]);
}
