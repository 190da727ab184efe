//! Codecs that may be used.
use oxidesfu_media::codecs::{is_codec_enabled, mime_type_equal};
use oxidesfu_media::protocol::Codec;

#[test]
fn is_codec_enabled_empty_fmtp_requirement_matches_any_matching_mime() {
    let enabled_codecs = vec![Codec {
        mime: "video/h264".to_string(),
        fmtp_line: String::new(),
    }];

    assert!(is_codec_enabled(&enabled_codecs, "video/H264", "special"));
    assert!(is_codec_enabled(&enabled_codecs, "video/h264", ""));
    assert!(!is_codec_enabled(&enabled_codecs, "video/vp8", "special"));
}

#[test]
fn is_codec_enabled_fmtp_requirement_must_match_when_provided() {
    let enabled_codecs = vec![Codec {
        mime: "video/h264".to_string(),
        fmtp_line: "special".to_string(),
    }];

    assert!(is_codec_enabled(&enabled_codecs, "video/h264", "special"));
    assert!(!is_codec_enabled(&enabled_codecs, "video/h264", ""));
    assert!(!is_codec_enabled(&enabled_codecs, "video/vp8", "special"));
}

#[test]
fn white_space_around_mime_types_does_not_matter() {
    assert!(mime_type_equal(" video/VP8 ", "Video/vp8"));
    assert!(!mime_type_equal("video/vp8", "video/vp9"));
    let codecs =
        vec![Codec { mime: "video/vp8".to_string(), fmtp_line: " Special ".to_string() }];
    assert!(!is_codec_enabled(&codecs, "video/vp8", "special"));
    assert!(is_codec_enabled(&codecs, "video/vp8", " SPECIAL "));
}
