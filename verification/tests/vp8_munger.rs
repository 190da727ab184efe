//! Rewriting of picture numbers.
use oxidesfu_media::vp8_munger::{
    ExtPacketVp8, Vp8Header, Vp8Munger, Vp8MungerError, Vp8PictureIdWrapHandler,
};

fn packet(sequence_number: u16, timestamp: u32, temporal: i32, vp8: Vp8Header) -> ExtPacketVp8 {
    ExtPacketVp8 {
        sequence_number,
        timestamp,
        temporal,
        payload: Some(vp8),
    }
}

fn base_vp8(picture_id: u16, tid: u8) -> Vp8Header {
    Vp8Header {
        first_byte: 25,
        i: true,
        m: true,
        picture_id,
        l: true,
        tl0_pic_idx: 233,
        t: true,
        tid,
        y: true,
        k: true,
        key_idx: 23,
        header_size: 6,
        is_key_frame: true,
    }
}

#[test]
fn vp8_munger_set_last_matches_upstream_contract() {
    let mut v = Vp8Munger::new();
    let ext_pkt = packet(23333, 0xabcdef, 1, base_vp8(13467, 1));

    v.set_last(&ext_pkt);

    let state = v.state_view();
    assert_eq!(state.0, 13466);
    assert_eq!(state.1, 13467);
    assert_eq!(state.2, 233);
    assert!(state.6);
    assert!(state.7);
    assert!(state.8);
    assert!(state.9);
}

#[test]
fn vp8_munger_update_offsets_matches_upstream_contract() {
    let mut v = Vp8Munger::new();
    let first = packet(23333, 0xabcdef, 1, base_vp8(13467, 1));
    v.set_last(&first);

    let switched = packet(
        56789,
        0xabcdef,
        1,
        Vp8Header {
            picture_id: 345,
            tl0_pic_idx: 12,
            key_idx: 4,
            ..base_vp8(345, 1)
        },
    );

    v.update_offsets(&switched);
    let state = v.state_view();
    assert_eq!(state.0, 344);
    assert_eq!(state.1, 13467);
    assert_eq!(v.picture_id_offset, 345 - 13467 - 1);
    assert_eq!(state.3, 12u8.wrapping_sub(233).wrapping_sub(1));
    assert_eq!(state.5, (4u8.wrapping_sub(23).wrapping_sub(1)) & 0x1f);
}

#[test]
fn vp8_munger_out_of_order_picture_id_matches_upstream_contract() {
    let mut v = Vp8Munger::new();
    let ext_pkt = packet(23333, 0xabcdef, 1, base_vp8(13467, 1));
    v.set_last(&ext_pkt);
    v.update_and_get(&ext_pkt, false, false, 2)
        .expect("initial translation should succeed");

    let old = packet(23333, 0xabcdef, 1, base_vp8(13466, 1));
    let err = v
        .update_and_get(&old, true, false, 2)
        .expect_err("out-of-order without cache entry should fail");
    assert_eq!(err, Vp8MungerError::OutOfOrderVp8PictureIdCacheMiss);

    let gapped = packet(23333, 0xabcdef, 1, base_vp8(13469, 1));
    let (n_in, out) = v
        .update_and_get(&gapped, false, true, 2)
        .expect("gapped in-order packet should forward");
    assert_eq!(n_in, 6);
    assert_eq!(out.picture_id, 13469);

    assert_eq!(v.picture_id_offset(13467), Some(0));
    assert_eq!(v.picture_id_offset(13468), Some(0));
    assert_eq!(v.picture_id_offset(13469), Some(0));

    let missing_now_present = packet(23333, 0xabcdef, 1, base_vp8(13468, 1));
    let (n_in, out) = v
        .update_and_get(&missing_now_present, true, false, 2)
        .expect("cached out-of-order picture should translate");
    assert_eq!(n_in, 6);
    assert_eq!(out.picture_id, 13468);
}

#[test]
fn vp8_munger_temporal_layer_filtering_matches_upstream_contract() {
    let mut v = Vp8Munger::new();
    let mut ext_pkt = packet(23333, 0xabcdef, 1, base_vp8(13467, 1));
    v.set_last(&ext_pkt);

    let err = v
        .update_and_get(&ext_pkt, false, false, 0)
        .expect_err("packet above max temporal layer should be filtered");
    assert_eq!(err, Vp8MungerError::FilteredVp8TemporalLayer);
    assert_eq!(v.picture_id_offset, 1);

    ext_pkt.sequence_number = 23334;
    let err = v
        .update_and_get(&ext_pkt, false, false, 0)
        .expect_err("same picture repeat should still be filtered");
    assert_eq!(err, Vp8MungerError::FilteredVp8TemporalLayer);
    assert_eq!(v.picture_id_offset, 1);

    ext_pkt.sequence_number = 23337;
    let err = v
        .update_and_get(&ext_pkt, false, false, 0)
        .expect_err("gap with same picture should still not double-count offset");
    assert_eq!(err, Vp8MungerError::FilteredVp8TemporalLayer);
    assert_eq!(v.picture_id_offset, 1);
}

#[test]
fn vp8_munger_gap_in_sequence_number_same_picture_matches_upstream_contract() {
    let mut v = Vp8Munger::new();
    let ext_pkt = packet(65533, 0xabcdef, 1, base_vp8(13467, 1));
    v.set_last(&ext_pkt);

    let (_n_in, out) = v
        .update_and_get(&ext_pkt, false, false, 2)
        .expect("first translate should succeed");
    assert_eq!(out.picture_id, 13467);

    let (_n_in, out) = v
        .update_and_get(&ext_pkt, false, true, 2)
        .expect("gapped translate should succeed");
    assert_eq!(out.picture_id, 13467);

    assert_eq!(v.picture_id_offset(13467), Some(0));
}

#[test]
fn vp8_munger_update_and_get_padding_matches_upstream_contract() {
    let mut v = Vp8Munger::new();
    let ext_pkt = packet(23333, 0xabcdef, 1, base_vp8(13467, 13));
    v.set_last(&ext_pkt);

    let repeated = v
        .update_and_get_padding(false)
        .expect("repeat padding should succeed");
    assert_eq!(repeated.first_byte, 0x10);
    assert_eq!(repeated.picture_id, 13467);
    assert_eq!(repeated.tl0_pic_idx, 233);
    assert_eq!(repeated.tid, 0);
    assert_eq!(repeated.key_idx, 23);

    let new_picture = v
        .update_and_get_padding(true)
        .expect("new picture padding should succeed");
    assert_eq!(new_picture.picture_id, 13468);
    assert_eq!(new_picture.tl0_pic_idx, 234);
    assert_eq!(new_picture.key_idx, 24);
}

#[test]
fn vp8_picture_id_wrap_handler_matches_upstream_contract() {
    let mut v = Vp8PictureIdWrapHandler::new();

    v.init(109, false);
    assert_eq!(v.max_picture_id(), 109);
    assert!(!v.max_m_bit);

    v.update_max_picture_id(109350, true);
    assert_eq!(v.max_picture_id(), 109350);
    assert!(v.max_m_bit);

    v.init(32766, true);
    let ext_picture_id = v.unwrap_and_update(32750, true);
    assert_eq!(ext_picture_id, 32750);
    assert_eq!(v.total_wrap, 0);
    assert_eq!(v.last_wrap, 0);

    let ext_picture_id = v.unwrap_and_update(5, false);
    assert_eq!(ext_picture_id, 32773);
    assert_eq!(v.total_wrap, 32768);
    assert_eq!(v.last_wrap, 32768);

    v.update_max_picture_id(32893, false);
    let ext_picture_id = v.unwrap_and_update(5, true);
    assert_eq!(ext_picture_id, 32901);
    assert_eq!(v.total_wrap, 32896);
    assert_eq!(v.last_wrap, 128);

    v.update_max_picture_id(32901, false);
    let ext_picture_id = v.unwrap_and_update(73, false);
    assert_eq!(ext_picture_id, 32841);

    v.update_max_picture_id(32901, true);
    v.last_wrap = 32768;
    let ext_picture_id = v.unwrap_and_update(73, false);
    assert_eq!(ext_picture_id, 32969);
}

#[test]
fn packets_without_a_header_are_refused() {
    let mut munger = Vp8Munger::new();
    let bare = ExtPacketVp8 { sequence_number: 1, timestamp: 1, temporal: 0, payload: None };
    munger.set_last(&bare);
    assert_eq!(
        munger.update_and_get(&bare, false, false, 2).expect_err("there is no header"),
        Vp8MungerError::NotVp8
    );
}

#[test]
fn reading_an_id_agrees_with_counting_it() {
    let mut handler = Vp8PictureIdWrapHandler::new();
    handler.init(32_760, true);
    for step in 0..200u16 {
        let id = 32_700u16.wrapping_add(step.wrapping_mul(37));
        for wide in [false, true] {
            let mut counting = handler;
            let before = handler;
            let read = handler.unwrap(id, wide);
            assert_eq!(handler, before);
            assert_eq!(counting.unwrap_and_update(id, wide), read);
            handler = counting;
        }
    }
}
