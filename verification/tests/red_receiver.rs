//! Redundant audio.
use oxidesfu_media::red_receiver::{
    encode_red_for_primary_blocks, extract_pkts_from_red, extract_primary_encoding_for_red,
    RedError, RedPrimaryReceiverLite, RedReceiverLite, RtpPacketLite, MAX_RED_COUNT, OPUS_PT,
};

const MTU_SIZE: usize = 1500;
const MAX_RED_PAYLOAD: usize = 1 << 10;
const OPUS_RED_PT: u8 = 63;
const TS_STEP: u32 = 480;

fn generate_pkts(
    mut sequence_number: u16,
    mut timestamp: u32,
    count: usize,
    ts_step: u32,
) -> Vec<RtpPacketLite> {
    let mut pkts = Vec::with_capacity(count);
    for _ in 0..count {
        let mut payload = Vec::with_capacity(6);
        payload.extend_from_slice(&sequence_number.to_be_bytes());
        payload.extend_from_slice(&timestamp.to_be_bytes());
        pkts.push(RtpPacketLite::with_payload(
            sequence_number,
            timestamp,
            OPUS_PT,
            payload,
        ));
        sequence_number = sequence_number.wrapping_add(1);
        timestamp = timestamp.wrapping_add(ts_step);
    }
    pkts
}

fn generate_red_pkts(pkts: &[RtpPacketLite], red_count: usize) -> Vec<RtpPacketLite> {
    let mut red_pkts = Vec::with_capacity(pkts.len());
    for i in 0..pkts.len() {
        let start = i.saturating_sub(red_count);
        let prior = &pkts[start..i];
        let mut buf = vec![0u8; MTU_SIZE];
        let encoded = encode_red_for_primary_blocks(prior, &pkts[i], &mut buf)
            .expect("red encoding should succeed");
        red_pkts.push(RtpPacketLite::with_payload(
            pkts[i].sequence_number,
            pkts[i].timestamp,
            OPUS_RED_PT,
            buf[..encoded].to_vec(),
        ));
    }
    red_pkts
}

fn verify_encoding_equal(actual: &RtpPacketLite, expected: &RtpPacketLite) {
    assert_eq!(actual.timestamp, expected.timestamp);
    assert_eq!(actual.payload_type, expected.payload_type);
    assert_eq!(actual.payload, expected.payload);
}

fn verify_pkts_equal(actual: &[RtpPacketLite], expected: &[RtpPacketLite]) {
    assert_eq!(actual.len(), expected.len());
    for (actual, expected) in actual.iter().zip(expected.iter()) {
        verify_encoding_equal(actual, expected);
    }
}

#[test]
fn red_receiver_matches_upstream_contract() {
    let mut receiver = RedReceiverLite::new();
    let header_seq = 65534u16;
    let header_ts = (1u32 << 31) - 2 * TS_STEP;

    // normal
    let mut expected = Vec::<RtpPacketLite>::new();
    for pkt in generate_pkts(header_seq, header_ts, 10, TS_STEP) {
        expected.push(pkt.clone());
        if expected.len() > MAX_RED_COUNT + 1 {
            expected.remove(0);
        }
        let mut red_payload = vec![0u8; MTU_SIZE];
        let encoded = receiver
            .encode_red_for_primary(&pkt, &mut red_payload)
            .expect("red encode should succeed");
        let red_pkt = RtpPacketLite::with_payload(
            pkt.sequence_number,
            pkt.timestamp,
            OPUS_RED_PT,
            red_payload[..encoded].to_vec(),
        );
        let decoded = extract_pkts_from_red(&red_pkt, 0xFF).expect("decode should succeed");
        verify_pkts_equal(
            &decoded,
            &expected
                .iter()
                .cloned()
                .filter(|p| !p.payload.is_empty())
                .collect::<Vec<_>>(),
        );
    }

    // packet lost and jump
    let mut receiver = RedReceiverLite::new();
    let mut sequence_number = header_seq;
    let mut timestamp = header_ts;
    let mut expected = Vec::<Option<RtpPacketLite>>::new();
    for i in 0..10usize {
        if i % 2 == 0 {
            sequence_number = sequence_number.wrapping_add(1);
            timestamp = timestamp.wrapping_add(TS_STEP);
            expected.push(None);
            continue;
        }

        let pkt = RtpPacketLite::with_payload(
            sequence_number,
            timestamp,
            OPUS_PT,
            vec![0xAB, 0xCD, (sequence_number & 0xFF) as u8],
        );
        expected.push(Some(pkt.clone()));
        if expected.len() > MAX_RED_COUNT + 1 {
            expected = expected[expected.len() - (MAX_RED_COUNT + 1)..].to_vec();
        }

        let mut red_payload = vec![0u8; MTU_SIZE];
        let encoded = receiver
            .encode_red_for_primary(&pkt, &mut red_payload)
            .expect("red encode should succeed");
        let red_pkt = RtpPacketLite::with_payload(
            pkt.sequence_number,
            pkt.timestamp,
            OPUS_RED_PT,
            red_payload[..encoded].to_vec(),
        );
        let decoded = extract_pkts_from_red(&red_pkt, 0xFF).expect("decode should succeed");
        let expected_solid = expected.iter().flatten().cloned().collect::<Vec<_>>();
        verify_pkts_equal(&decoded, &expected_solid);

        sequence_number = sequence_number.wrapping_add(1);
        timestamp = timestamp.wrapping_add(TS_STEP);
    }

    // jump clears recoverable history
    sequence_number = sequence_number.wrapping_add(10);
    timestamp = timestamp.wrapping_add(10 * TS_STEP);
    let mut expected_jump = Vec::<RtpPacketLite>::new();
    for pkt in generate_pkts(sequence_number, timestamp, 3, TS_STEP) {
        expected_jump.push(pkt.clone());
        if expected_jump.len() > MAX_RED_COUNT + 1 {
            expected_jump.remove(0);
        }
        let mut red_payload = vec![0u8; MTU_SIZE];
        let encoded = receiver
            .encode_red_for_primary(&pkt, &mut red_payload)
            .expect("red encode should succeed");
        let red_pkt = RtpPacketLite::with_payload(
            pkt.sequence_number,
            pkt.timestamp,
            OPUS_RED_PT,
            red_payload[..encoded].to_vec(),
        );
        let decoded = extract_pkts_from_red(&red_pkt, 0xFF).expect("decode should succeed");
        verify_pkts_equal(&decoded, &expected_jump);
    }

    // out-of-order and repeat
    let mut receiver = RedReceiverLite::new();
    let prev_pkts = generate_pkts(header_seq, header_ts, 10, TS_STEP);
    for pkt in &prev_pkts {
        let mut red_payload = vec![0u8; MTU_SIZE];
        let _ = receiver
            .encode_red_for_primary(pkt, &mut red_payload)
            .expect("seed history should succeed");
    }

    let old_unordered = prev_pkts[7].clone();
    let mut red_payload = vec![0u8; MTU_SIZE];
    let encoded = receiver
        .encode_red_for_primary(&old_unordered, &mut red_payload)
        .expect("encode should succeed");
    let red_pkt = RtpPacketLite::with_payload(
        old_unordered.sequence_number,
        old_unordered.timestamp,
        OPUS_RED_PT,
        red_payload[..encoded].to_vec(),
    );
    let decoded = extract_pkts_from_red(&red_pkt, 0xFF).expect("decode should succeed");
    verify_pkts_equal(&decoded, &[prev_pkts[7].clone()]);

    let repeated = prev_pkts[9].clone();
    let mut red_payload = vec![0u8; MTU_SIZE];
    let encoded = receiver
        .encode_red_for_primary(&repeated, &mut red_payload)
        .expect("encode should succeed");
    let red_pkt = RtpPacketLite::with_payload(
        repeated.sequence_number,
        repeated.timestamp,
        OPUS_RED_PT,
        red_payload[..encoded].to_vec(),
    );
    let decoded = extract_pkts_from_red(&red_pkt, 0xFF).expect("decode should succeed");
    verify_pkts_equal(&decoded, &[prev_pkts[8].clone(), prev_pkts[9].clone()]);

    // encoding exceed space falls back to primary only
    let mut receiver = RedReceiverLite::new();
    for mut pkt in generate_pkts(header_seq, header_ts, 10, TS_STEP) {
        pkt.payload = vec![0u8; 1000];
        let mut red_payload = vec![0u8; MTU_SIZE];
        let encoded = receiver
            .encode_red_for_primary(&pkt, &mut red_payload)
            .expect("encode should succeed");
        let red_pkt = RtpPacketLite::with_payload(
            pkt.sequence_number,
            pkt.timestamp,
            OPUS_RED_PT,
            red_payload[..encoded].to_vec(),
        );
        let decoded = extract_pkts_from_red(&red_pkt, 0xFF).expect("decode should succeed");
        verify_pkts_equal(&decoded, &[pkt]);
    }

    // large timestamp gap yields primary only
    let mut receiver = RedReceiverLite::new();
    let mut expected = Vec::<RtpPacketLite>::new();
    for pkt in generate_pkts(header_seq, header_ts, 4, TS_STEP) {
        expected.push(pkt.clone());
        if expected.len() > MAX_RED_COUNT + 1 {
            expected.remove(0);
        }
        let mut red_payload = vec![0u8; MTU_SIZE];
        let encoded = receiver
            .encode_red_for_primary(&pkt, &mut red_payload)
            .expect("encode should succeed");
        let red_pkt = RtpPacketLite::with_payload(
            pkt.sequence_number,
            pkt.timestamp,
            OPUS_RED_PT,
            red_payload[..encoded].to_vec(),
        );
        let decoded = extract_pkts_from_red(&red_pkt, 0xFF).expect("decode should succeed");
        verify_pkts_equal(&decoded, &expected);
    }
    for pkt in generate_pkts(header_seq, header_ts, 4, 40 * TS_STEP) {
        let mut red_payload = vec![0u8; MTU_SIZE];
        let encoded = receiver
            .encode_red_for_primary(&pkt, &mut red_payload)
            .expect("encode should succeed");
        let red_pkt = RtpPacketLite::with_payload(
            pkt.sequence_number,
            pkt.timestamp,
            OPUS_RED_PT,
            red_payload[..encoded].to_vec(),
        );
        let decoded = extract_pkts_from_red(&red_pkt, 0xFF).expect("decode should succeed");
        verify_pkts_equal(&decoded, &[pkt]);
    }
}

fn test_red_primary_receiver(
    max_pkt_count: usize,
    red_count: usize,
    send_pkt_idx: &[usize],
    expect_pkt_idx: &[usize],
) {
    let primary_pkts = generate_pkts(65530, (1u32 << 31) - 2 * TS_STEP, max_pkt_count, TS_STEP);
    let red_pkts = generate_red_pkts(&primary_pkts, red_count);

    let mut receiver = RedPrimaryReceiverLite::new(OPUS_RED_PT);
    let mut received = Vec::<RtpPacketLite>::new();
    for idx in send_pkt_idx {
        let forwarded = receiver
            .forward_rtp(&red_pkts[*idx])
            .expect("red-primary forward should decode");
        received.extend(forwarded);
    }

    let expected = expect_pkt_idx
        .iter()
        .map(|idx| primary_pkts[*idx].clone())
        .collect::<Vec<_>>();
    verify_pkts_equal(&received, &expected);
}

#[test]
fn red_primary_receiver_matches_upstream_contract() {
    // packet should send only once
    let send = (0..19usize).collect::<Vec<_>>();
    test_red_primary_receiver(19, MAX_RED_COUNT, &send, &send);

    // packet duplicate and unorder
    let mut send = Vec::<usize>::new();
    for i in 0..19usize {
        send.push(i);
        if i > 0 {
            send.push(i - 1);
        }
        send.push(i);
    }
    test_red_primary_receiver(19, MAX_RED_COUNT, &send, &send);

    // full recover
    let mut send = Vec::<usize>::new();
    let mut recv = Vec::<usize>::new();
    for i in 0..19usize {
        recv.push(i);
        if i % (MAX_RED_COUNT + 1) == 0 {
            send.push(i);
        }
    }
    test_red_primary_receiver(19, MAX_RED_COUNT, &send, &recv);

    // lost 2 but red recover 1
    test_red_primary_receiver(19, 1, &[0, 3, 6, 9, 12], &[0, 2, 3, 5, 6, 8, 9, 11, 12]);

    // part recover and long jump
    test_red_primary_receiver(
        50,
        MAX_RED_COUNT,
        &[0, 5, 12, 21, 24, 27],
        &[0, 3, 4, 5, 10, 11, 12, 19, 20, 21, 22, 23, 24, 25, 26, 27],
    );

    // unorder
    test_red_primary_receiver(
        50,
        MAX_RED_COUNT,
        &[20, 10, 25, 23, 34],
        &[20, 10, 23, 24, 25, 21, 22, 23, 32, 33, 34],
    );

    // mixed primary codec should forward directly
    let mut receiver = RedPrimaryReceiverLite::new(OPUS_RED_PT);
    let primary_pkt = RtpPacketLite::with_payload(
        65530,
        (1u32 << 31) - 2 * TS_STEP,
        OPUS_PT,
        vec![1, 3, 5, 7, 9],
    );
    let forwarded = receiver
        .forward_rtp(&primary_pkt)
        .expect("non-red packet should forward");
    verify_pkts_equal(&forwarded, &[primary_pkt]);
}

#[test]
fn extract_primary_encoding_for_red_matches_upstream_contract() {
    let pkts = generate_pkts(65530, (1u32 << 31) - 2 * TS_STEP, 10, TS_STEP);
    let red_pkts = generate_red_pkts(&pkts, MAX_RED_COUNT);

    let mut primary_pkts = Vec::<RtpPacketLite>::with_capacity(red_pkts.len());
    for red_pkt in &red_pkts {
        let payload = extract_primary_encoding_for_red(&red_pkt.payload)
            .expect("primary extraction should succeed");
        primary_pkts.push(RtpPacketLite::with_payload(
            red_pkt.sequence_number,
            red_pkt.timestamp,
            OPUS_PT,
            payload,
        ));
    }

    verify_pkts_equal(&primary_pkts, &pkts);
}

#[test]
fn red_receiver_falls_back_to_primary_when_payload_exceeds_redundant_length_contract() {
    let mut receiver = RedReceiverLite::new();
    let pkt = RtpPacketLite::with_payload(400, 9000, OPUS_PT, vec![0u8; MAX_RED_PAYLOAD]);

    let mut red_payload = vec![0u8; MTU_SIZE];
    let encoded = receiver
        .encode_red_for_primary(&pkt, &mut red_payload)
        .expect("encode should succeed");
    let red_pkt = RtpPacketLite::with_payload(
        pkt.sequence_number,
        pkt.timestamp,
        OPUS_RED_PT,
        red_payload[..encoded].to_vec(),
    );
    let decoded = extract_pkts_from_red(&red_pkt, 0xFF).expect("decode should succeed");

    verify_pkts_equal(&decoded, &[pkt]);
}

#[test]
fn redundant_payload_is_written_byte_by_byte() {
    let previous = RtpPacketLite::with_payload(7, 1_000, OPUS_PT, vec![1, 2, 3]);
    let primary = RtpPacketLite::with_payload(8, 1_480, OPUS_PT, vec![4, 5]);
    let mut room = vec![9u8; 12];
    assert_eq!(encode_red_for_primary_blocks(&[previous], &primary, &mut room), Ok(10));
    // The offset 480 and the length 3, after the payload type 111 with the bit that says more.
    assert_eq!(room, vec![0xef, 7, 0x80, 3, 111, 1, 2, 3, 4, 5, 9, 9]);
}

#[test]
fn payload_without_room_is_refused() {
    let primary = RtpPacketLite::with_payload(8, 1_480, OPUS_PT, vec![4, 5]);
    let mut room = vec![9u8; 2];
    assert_eq!(
        encode_red_for_primary_blocks(&[], &primary, &mut room),
        Err(RedError::IncompleteBlock)
    );
    assert_eq!(room, vec![OPUS_PT, 9]);
    assert_eq!(
        encode_red_for_primary_blocks(&[], &primary, &mut []),
        Err(RedError::IncompleteBlock)
    );
}

#[test]
fn incomplete_payloads_are_refused() {
    let header = RtpPacketLite::with_payload(8, 1_480, OPUS_RED_PT, vec![0xef, 7, 0x80]);
    assert_eq!(extract_pkts_from_red(&header, 0xff), Err(RedError::IncompleteHeader));
    assert_eq!(extract_primary_encoding_for_red(&[]), Err(RedError::IncompleteHeader));
    let block = RtpPacketLite::with_payload(8, 1_480, OPUS_RED_PT, vec![0xef, 7, 0x80, 3, 111, 1]);
    assert_eq!(extract_pkts_from_red(&block, 0xff), Err(RedError::IncompleteBlock));
    assert_eq!(
        extract_primary_encoding_for_red(&block.payload),
        Err(RedError::IncompleteBlock)
    );
}

#[test]
fn jump_over_the_whole_history_keeps_the_last_packet_known() {
    let primary_pkts = generate_pkts(100, 1_000, 12, TS_STEP);
    let red_pkts = generate_red_pkts(&primary_pkts, MAX_RED_COUNT);
    let mut receiver = RedPrimaryReceiverLite::new(OPUS_RED_PT);
    let first = receiver.forward_rtp(&red_pkts[1]).expect("payload is complete");
    verify_pkts_equal(&first, &primary_pkts[1..2]);
    let jumped = receiver.forward_rtp(&red_pkts[9]).expect("payload is complete");
    verify_pkts_equal(&jumped, &primary_pkts[7..10]);
    assert_eq!(receiver.pkt_history, 0x80);
    assert_eq!(receiver.last_seq, primary_pkts[9].sequence_number);
    let late = receiver.forward_rtp(&red_pkts[3]).expect("payload is complete");
    verify_pkts_equal(&late, &primary_pkts[2..4]);
}
