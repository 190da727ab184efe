//! Session descriptions.
use oxidesfu_media::offer::{
    accepted_media_mids_from_answer_sdp, active_publisher_mids_from_offer,
    mid_to_track_id_from_answer_sdp, mid_to_track_id_from_offer_sdp, offer_media_sections_from_sdp,
    receive_section_counts_from_offer, receive_sections_from_offer,
    receive_supported_video_mime_types_from_offer, section_line_has_msid, track_id_from_msid_value,
    track_id_from_sdp_line, ReceiveSectionKind,
};

#[test]
fn parses_mid_to_track_id_from_ssrc_msid_lines() {
    let offer = "v=0\r\n\
m=audio 9 UDP/TLS/RTP/SAVPF 111\r\n\
a=mid:1\r\n\
a=sendrecv\r\n\
a=ssrc:1234 msid:streamA trackA\r\n";

    let mapping = mid_to_track_id_from_offer_sdp(offer);
    assert_eq!(mapping.get("1").map(String::as_str), Some("trackA"));
}

#[test]
fn marks_publish_mid_active_from_ssrc_msid_lines() {
    let offer = "v=0\r\n\
m=audio 9 UDP/TLS/RTP/SAVPF 111\r\n\
a=mid:1\r\n\
a=sendrecv\r\n\
a=ssrc:1234 msid:streamA trackA\r\n";

    let mids = active_publisher_mids_from_offer(offer);
    assert!(mids.contains("1"));
}

#[test]
fn parses_receive_supported_video_codecs_from_recvonly_section() {
    let offer = "v=0\r\n\
m=video 9 UDP/TLS/RTP/SAVPF 96 102\r\n\
a=mid:2\r\n\
a=recvonly\r\n\
a=rtpmap:96 VP8/90000\r\n\
a=rtpmap:102 H264/90000\r\n";

    let codecs = receive_supported_video_mime_types_from_offer(offer);
    assert!(codecs.contains("video/vp8"));
    assert!(codecs.contains("video/h264"));
}

#[test]
fn ignores_publish_video_section_when_deriving_receive_supported_codecs() {
    let offer = "v=0\r\n\
m=video 9 UDP/TLS/RTP/SAVPF 96 102\r\n\
a=mid:3\r\n\
a=sendrecv\r\n\
a=msid:stream track\r\n\
a=rtpmap:96 VP8/90000\r\n\
a=rtpmap:102 H264/90000\r\n";

    let codecs = receive_supported_video_mime_types_from_offer(offer);
    assert_eq!(codecs.len(), 0);
}

const TWO_SECTIONS: &str = "v=0\r\n\
m=audio 9 UDP/TLS/RTP/SAVPF 111\r\n\
a=mid:0\r\n\
a=recvonly\r\n\
m=video 0 UDP/TLS/RTP/SAVPF 96\r\n\
a=mid:1\r\n\
a=inactive\r\n\
a=rtpmap:96 VP8/90000\r\n";

#[test]
fn sections_are_read_in_order() {
    let sections = offer_media_sections_from_sdp(TWO_SECTIONS);
    assert_eq!(sections.len(), 2);
    assert_eq!(sections[0].mid, "0");
    assert_eq!(sections[0].kind, Some(ReceiveSectionKind::Audio));
    assert_eq!(sections[0].direction, "recvonly");
    assert!(!sections[0].has_msid);
    assert!(!sections[0].is_rejected);
    assert_eq!(sections[1].mid, "1");
    assert_eq!(sections[1].kind, Some(ReceiveSectionKind::Video));
    assert_eq!(sections[1].direction, "inactive");
    assert!(sections[1].is_rejected);
}

#[test]
fn receiving_sections_are_counted() {
    let receiving = receive_sections_from_offer(TWO_SECTIONS);
    let counts = receive_section_counts_from_offer(TWO_SECTIONS);
    assert_eq!(receiving.len(), counts.audio + counts.video);
    assert_eq!(counts.audio, 1);
    assert_eq!(counts.video, 0);
    assert_eq!(receiving[0].mid, "0");
    assert_eq!(receiving[0].kind, ReceiveSectionKind::Audio);
}

#[test]
fn stream_lines_name_tracks() {
    assert_eq!(track_id_from_msid_value("stream track").as_deref(), Some("track"));
    assert_eq!(track_id_from_msid_value("stream"), None);
    assert_eq!(track_id_from_sdp_line("a=msid:stream track").as_deref(), Some("track"));
    assert_eq!(track_id_from_sdp_line("a=mid:1"), None);
    assert!(section_line_has_msid("a=msid:stream track"));
    assert!(!section_line_has_msid("a=mid:1"));
}

#[test]
fn answers_accept_sections_with_a_port() {
    let answer = "v=0\r\n\
m=audio 9 UDP/TLS/RTP/SAVPF 111\r\n\
a=mid:0\r\n\
a=recvonly\r\n\
m=video 0 UDP/TLS/RTP/SAVPF 96\r\n\
a=mid:1\r\n\
a=inactive\r\n";
    let accepted = accepted_media_mids_from_answer_sdp(answer);
    assert!(accepted.contains("0"));
    assert!(!accepted.contains("1"));
    assert!(!active_publisher_mids_from_offer(TWO_SECTIONS).contains("0"));
}

#[test]
fn answers_map_sections_to_tracks() {
    let answer = "v=0\r\n\
m=audio 9 UDP/TLS/RTP/SAVPF 111\r\n\
a=mid:0\r\n\
a=sendonly\r\n\
a=msid:stream track\r\n";
    let mapping = mid_to_track_id_from_answer_sdp(answer);
    assert_eq!(mapping.get("0").map(String::as_str), Some("track"));
    assert!(mid_to_track_id_from_offer_sdp(TWO_SECTIONS).get("0").is_none());
}
