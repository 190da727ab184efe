//! The playout delay extension.
use oxidesfu_media::playout_delay::{
    PlayOutDelay, PlayOutDelayError, MAX_PLAYOUT_DELAY_DEFAULT_MS, PLAYOUT_DELAY_EXTENSION_SIZE,
    PLAYOUT_DELAY_MAX_VALUE_MS, PLAYOUT_DELAY_URI,
};

#[test]
fn playout_delay_marshal_unmarshal_matches_upstream_contract() {
    assert_eq!(
        PLAYOUT_DELAY_URI,
        "http://www.webrtc.org/experiments/rtp-hdrext/playout-delay"
    );
    assert_eq!(MAX_PLAYOUT_DELAY_DEFAULT_MS, 10_000);

    let expected = PlayOutDelay {
        min_ms: 100,
        max_ms: 200,
    };
    let encoded = expected
        .marshal()
        .expect("valid playout delay should marshal");
    assert_eq!(encoded.len(), PLAYOUT_DELAY_EXTENSION_SIZE);

    let decoded =
        PlayOutDelay::unmarshal(&encoded).expect("marshaled playout delay should unmarshal");
    assert_eq!(decoded, expected);
}

#[test]
fn playout_delay_marshal_rejects_overflow() {
    let overflow = PlayOutDelay {
        min_ms: 100,
        max_ms: (1 << 12) * 10,
    };

    let result = overflow.marshal();
    assert_eq!(result, Err(PlayOutDelayError::Overflow));
}

#[test]
fn playout_delay_unmarshal_rejects_too_small_buffer() {
    let result = PlayOutDelay::unmarshal(&[0x00, 0x00]);
    assert_eq!(result, Err(PlayOutDelayError::BufferTooSmall));
}

#[test]
fn playout_delay_from_value_clamps_to_max_representable() {
    let clamped = PlayOutDelay::from_value((1 << 12) * 10, (1 << 12) * 10 + 10);

    assert_eq!(clamped.min_ms, PLAYOUT_DELAY_MAX_VALUE_MS);
    assert_eq!(clamped.max_ms, PLAYOUT_DELAY_MAX_VALUE_MS);
    clamped
        .marshal()
        .expect("clamped playout delay should still marshal");
}

#[test]
fn playout_delay_roundtrips_at_max_representable_value() {
    let expected = PlayOutDelay {
        min_ms: 100,
        max_ms: PLAYOUT_DELAY_MAX_VALUE_MS,
    };

    let encoded = expected.marshal().expect("max value should marshal");
    let decoded = PlayOutDelay::unmarshal(&encoded).expect("max value should unmarshal");

    assert_eq!(decoded, expected);
}

#[test]
fn delays_are_written_most_significant_first() {
    let delay = PlayOutDelay { min_ms: 100, max_ms: 40_955 };
    assert_eq!(delay.marshal(), Ok([0x00, 0xaf, 0xff]));
    assert_eq!(
        PlayOutDelay::unmarshal(&[0x00, 0xaf, 0xff, 0x77]),
        Ok(PlayOutDelay { min_ms: 100, max_ms: 40_950 })
    );
}
