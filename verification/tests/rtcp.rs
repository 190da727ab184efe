//! Control packets of subscribers.
use oxidesfu_media::rtcp::{
    build_keyframe_feedback_packet, build_rtcp_execution_plan, build_rtcp_outbound_effects,
    derive_rtcp_forward_actions, rewrite_sender_report_packet, FirEntry, KeyframeFeedbackPacket,
    KeyframeFeedbackRequest, NackPair, ReceptionReport, RtcpForwardAction, RtcpPacket, SenderReport,
};
use oxidesfu_media::rtp_forwarding::feedback::{
    KeyFrameRequestKind, MappedSenderReport, RecommendedVideoQuality,
};
use oxidesfu_media::rtp_forwarding::packet::RtpPacket;
use oxidesfu_media::rtp_forwarding::{ForwardTrackKey, RtpForwardingStore};

fn key() -> ForwardTrackKey {
    (
        "room-a".to_string(),
        "publisher-a".to_string(),
        "track-a".to_string(),
        "subscriber-a".to_string(),
    )
}

#[test]
fn derive_rtcp_forward_actions_includes_receiver_report_and_twcc_observation() {
    let rr = RtcpPacket::ReceiverReport {
        ssrc: 77,
        reports: vec![ReceptionReport {
            fraction_lost: 69,
            ..Default::default()
        }],
    };
    let twcc = RtcpPacket::TransportWideCc {
        media_ssrc: 99,
        packet_status_count: 4,
    };

    let actions = derive_rtcp_forward_actions(&[rr, twcc]);
    assert!(actions.iter().any(|action| matches!(
        action,
        RtcpForwardAction::ReceiverReportObserved {
            ssrc: 77,
            max_fraction_lost: 69,
            report_count: 1,
        }
    )));
    assert!(actions.iter().any(|action| matches!(
        action,
        RtcpForwardAction::TransportWideCcObserved {
            media_ssrc: 99,
            packet_status_count: 4
        }
    )));
}

#[test]
fn build_rtcp_execution_plan_rewrites_sender_report_ssrc_and_timestamp() {
    let mut store = RtpForwardingStore::default();
    let key = key();
    let original = SenderReport {
        ssrc: 111,
        rtp_time: 90_000,
        ..Default::default()
    };
    let actions = vec![RtcpForwardAction::SenderReport {
        report: original.clone(),
    }];

    let plan = build_rtcp_execution_plan(&key, &actions, &mut store, 1);
    assert_eq!(plan.rewritten_sender_reports.len(), 1);
    assert_eq!(plan.rewritten_sender_reports[0].ssrc, 111);
    assert_eq!(plan.rewritten_sender_reports[0].rtp_time, 90_000);
}

#[test]
fn build_rtcp_execution_plan_throttles_keyframe_requests_within_min_gap() {
    let mut store = RtpForwardingStore::default();
    let key = key();
    let actions = vec![RtcpForwardAction::KeyFrameRequest {
        kind: KeyFrameRequestKind::Pli,
        media_ssrc: 333,
    }];

    let first = build_rtcp_execution_plan(&key, &actions, &mut store, 1_000);
    let second = build_rtcp_execution_plan(&key, &actions, &mut store, 1_100);
    let third = build_rtcp_execution_plan(&key, &actions, &mut store, 1_350);

    assert_eq!(first.keyframe_requests.len(), 1);
    assert!(second.keyframe_requests.is_empty());
    assert_eq!(third.keyframe_requests.len(), 1);
}

#[test]
fn build_rtcp_execution_plan_populates_media_feedback_summary_from_rr_and_twcc() {
    let mut store = RtpForwardingStore::default();
    let key = key();
    let actions = vec![
        RtcpForwardAction::ReceiverReportObserved {
            ssrc: 55,
            max_fraction_lost: 80,
            report_count: 1,
        },
        RtcpForwardAction::ReceiverReportObserved {
            ssrc: 55,
            max_fraction_lost: 90,
            report_count: 1,
        },
        RtcpForwardAction::TransportWideCcObserved {
            media_ssrc: 66,
            packet_status_count: 9,
        },
    ];

    let plan = build_rtcp_execution_plan(&key, &actions, &mut store, 33_000);
    assert_eq!(plan.media_feedback.last_rr_ssrc, Some(55));
    assert_eq!(plan.media_feedback.rr_report_count, 2);
    assert_eq!(plan.media_feedback.rr_max_fraction_lost, 90);
    assert_eq!(plan.media_feedback.last_twcc_media_ssrc, Some(66));
    assert_eq!(plan.media_feedback.twcc_packet_status_count, 9);
    assert!(plan.media_feedback.is_degraded);
    assert_eq!(
        plan.recommended_video_quality,
        Some(RecommendedVideoQuality::Low)
    );
}

#[test]
fn lost_packets_are_asked_for_in_order() {
    let nack = RtcpPacket::Nack {
        nacks: vec![
            NackPair { packet_id: 65_534, lost_packets: 0b1000_0000_0000_0011 },
            NackPair { packet_id: 7, lost_packets: 0 },
        ],
    };
    let expected: Vec<RtcpForwardAction> = [65_534, 65_535, 0, 14, 7]
        .into_iter()
        .map(RtcpForwardAction::RetransmitSequence)
        .collect();
    assert_eq!(derive_rtcp_forward_actions(&[nack]), expected);
}

#[test]
fn packets_become_actions_one_after_the_other() {
    let report = SenderReport { ssrc: 5, rtp_time: 6, ..Default::default() };
    let packets = [
        RtcpPacket::Pli { media_ssrc: 1 },
        RtcpPacket::Other,
        RtcpPacket::Fir { media_ssrc: 2 },
        RtcpPacket::SenderReport { report: report.clone() },
        RtcpPacket::ReceiverReport { ssrc: 3, reports: vec![] },
    ];
    let expected = vec![
        RtcpForwardAction::KeyFrameRequest { kind: KeyFrameRequestKind::Pli, media_ssrc: 1 },
        RtcpForwardAction::KeyFrameRequest { kind: KeyFrameRequestKind::Fir, media_ssrc: 2 },
        RtcpForwardAction::SenderReport { report },
        RtcpForwardAction::ReceiverReportObserved {
            ssrc: 3,
            max_fraction_lost: 0,
            report_count: 0,
        },
    ];
    assert_eq!(derive_rtcp_forward_actions(&packets), expected);
    let mut joined = derive_rtcp_forward_actions(&packets[..2]);
    joined.extend(derive_rtcp_forward_actions(&packets[2..]));
    assert_eq!(joined, expected);
}

#[test]
fn lost_packets_go_out_again_as_they_went_out() {
    let mut store = RtpForwardingStore::default();
    let key = key();
    let mut packet = RtpPacket::default();
    packet.header.sequence_number = 500;
    packet.payload = vec![1, 2, 3];
    let sent = store
        .rewrite_packet_for_subscriber_with_target_ssrc(&key, packet, Some(9))
        .expect("packet is new");
    let actions = derive_rtcp_forward_actions(&[RtcpPacket::Nack {
        nacks: vec![NackPair { packet_id: 500, lost_packets: 1 }],
    }]);
    let effects = build_rtcp_outbound_effects(&key, &actions, &mut store, -5);
    assert_eq!(effects.retransmit_packets, vec![sent]);
    assert!(effects.feedback_packets.is_empty());
}

#[test]
fn full_intra_requests_are_numbered() {
    let mut store = RtpForwardingStore::default();
    let key = key();
    let actions = [RtcpForwardAction::KeyFrameRequest {
        kind: KeyFrameRequestKind::Fir,
        media_ssrc: 44,
    }];
    for (number, now) in [(0, 0), (1, 300), (2, 700)] {
        let effects = build_rtcp_outbound_effects(&key, &actions, &mut store, now);
        assert_eq!(
            effects.feedback_packets,
            vec![KeyframeFeedbackPacket::FullIntraRequest {
                sender_ssrc: 0,
                media_ssrc: 44,
                fir: FirEntry { ssrc: 44, sequence_number: number },
            }]
        );
    }
    assert_eq!(
        build_keyframe_feedback_packet(&KeyframeFeedbackRequest {
            kind: KeyFrameRequestKind::Pli,
            media_ssrc: 3,
            fir_sequence_number: None,
        }),
        KeyframeFeedbackPacket::PictureLossIndication { sender_ssrc: 0, media_ssrc: 3 }
    );
}

#[test]
fn rewritten_reports_keep_everything_else() {
    let report = SenderReport {
        ssrc: 1,
        ntp_time: 2,
        rtp_time: 3,
        packet_count: 4,
        octet_count: 5,
        reports: vec![ReceptionReport { ssrc: 6, jitter: 7, ..Default::default() }],
        profile_extensions: vec![8, 9],
    };
    let rewritten =
        rewrite_sender_report_packet(&report, MappedSenderReport { ssrc: 10, rtp_timestamp: 11 });
    assert_eq!(rewritten, SenderReport { ssrc: 10, rtp_time: 11, ..report });
}
