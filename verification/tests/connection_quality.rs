//! What windows of packet counts say.
use oxidesfu_media::connection_quality::{ConnectionWindows, StreamDeltaLite, WindowAssessment};
use std::time::Duration;

const WINDOW: u64 = 5_000_000_000;

fn stream(packets: u32, packets_lost: u32, rtt_max_ms: u32) -> StreamDeltaLite {
    StreamDeltaLite { packets, packets_lost, rtt_max_ms }
}

#[test]
fn streams_are_summed_up() {
    let mut windows = ConnectionWindows::new(0);
    assert_eq!(
        windows.update_score_at(WINDOW, WINDOW, &[stream(120, 30, 7), stream(130, 1, 5)], None),
        WindowAssessment::Measured { packets: 250, packets_lost: 31, rtt_max_ms: 7 }
    );
    assert_eq!(windows.last_window_nanos, WINDOW);
}

#[test]
fn windows_without_packets_are_quiet_or_silent() {
    let mut windows = ConnectionWindows::new(0);
    let streams = [stream(0, 0, 0)];
    assert_eq!(
        windows.update_score_at(2 * WINDOW, WINDOW, &streams, None),
        WindowAssessment::Quiet
    );
    assert_eq!(
        windows.update_score_at(2 * WINDOW, WINDOW, &streams, Some(WINDOW)),
        WindowAssessment::Quiet
    );
    assert_eq!(
        windows.update_score_at(2 * WINDOW, WINDOW, &streams, Some(WINDOW - 1)),
        WindowAssessment::Silent
    );
}

#[test]
fn muted_windows_do_not_count() {
    let mut windows = ConnectionWindows::new(0);
    let streams = [stream(1, 0, 0)];
    assert!(windows.update_mute_at(true, 7, false));
    assert!(!windows.update_mute_at(true, 8, true));
    assert_eq!(
        windows.update_score_at(9 * WINDOW, WINDOW, &streams, None),
        WindowAssessment::Skipped
    );
    assert!(!windows.update_mute_at(false, 9 * WINDOW, false));
    assert_eq!(
        windows.update_score_at(9 * WINDOW + WINDOW / 2 - 1, WINDOW, &streams, None),
        WindowAssessment::Skipped
    );
    assert_eq!(
        windows.update_score_at(9 * WINDOW + WINDOW / 2, WINDOW, &streams, None),
        WindowAssessment::Measured { packets: 1, packets_lost: 0, rtt_max_ms: 0 }
    );
    assert_eq!(
        windows.update_score_at(99 * WINDOW, WINDOW, &[], None),
        WindowAssessment::Skipped
    );
}

#[derive(Debug, Clone, Copy, PartialEq, Eq)]
enum ConnectionQualityLite {
    Excellent,
    Good,
    Poor,
    Lost,
}

#[derive(Debug, Clone, Copy)]
struct StreamWindow {
    packets: u32,
    packets_lost: u32,
    rtt_max_ms: u32,
    jitter_max: f64,
}

/// A score that follows what windows say.
struct ConnectionStats {
    score: f64,
    windows: ConnectionWindows,
}

fn nanos(time: Duration) -> u64 {
    u64::try_from(time.as_nanos()).expect("time should fit")
}

impl ConnectionStats {
    fn new(now: Duration) -> Self {
        Self { score: 100.0, windows: ConnectionWindows::new(nanos(now)) }
    }

    fn update_mute_at(&mut self, is_muted: bool, at: Duration) {
        let is_lost = self.quality() == ConnectionQualityLite::Lost;
        if self.windows.update_mute_at(is_muted, nanos(at), is_lost) {
            self.score = 100.0;
        }
    }

    fn update_score_at(
        &mut self,
        at: Duration,
        window: Duration,
        streams: &[StreamWindow],
        last_sender_report: Option<Duration>,
    ) {
        let deltas: Vec<_> = streams
            .iter()
            .map(|s| stream(s.packets, s.packets_lost, s.rtt_max_ms))
            .collect();
        let jitter_max = streams.iter().map(|s| s.jitter_max).fold(0.0f64, f64::max);
        let assessment = self.windows.update_score_at(
            nanos(at),
            nanos(window),
            &deltas,
            last_sender_report.map(nanos),
        );
        let target = match assessment {
            WindowAssessment::Skipped => return,
            WindowAssessment::Silent => 0.0,
            WindowAssessment::Quiet => 20.0,
            WindowAssessment::Measured { packets, packets_lost, rtt_max_ms } => {
                let packets = f64::from(packets);
                let weight = if packets >= 100.0 { 1.0 } else { (packets / 100.0).powi(3) };
                let loss_penalty = f64::from(packets_lost) / packets * 100.0 * 8.0 * weight;
                let delay_penalty = f64::from(rtt_max_ms) / 80.0 + jitter_max / 5000.0;
                (100.0 - loss_penalty - delay_penalty).clamp(0.0, 100.0)
            }
        };
        let factor = if target < self.score { 0.8 } else { 0.4 };
        self.score = (self.score + (target - self.score) * factor).clamp(0.0, 100.0);
    }

    fn quality(&self) -> ConnectionQualityLite {
        if self.score <= 20.0 {
            ConnectionQualityLite::Lost
        } else if self.score <= 40.0 {
            ConnectionQualityLite::Poor
        } else if self.score <= 82.0 {
            ConnectionQualityLite::Good
        } else {
            ConnectionQualityLite::Excellent
        }
    }

    fn get_score_and_quality(&self) -> (f32, ConnectionQualityLite) {
        ((1.0 + (self.score / 100.0) * 3.5) as f32, self.quality())
    }
}

#[test]
fn connection_quality_matches_upstream_contract() {
    let window = Duration::from_secs(5);
    let mut now = Duration::from_secs(1_000);

    let mut cs = ConnectionStats::new(now - window);
    cs.update_mute_at(false, now - Duration::from_secs(1));

    // no data + not enough unmute history should hold EXCELLENT
    cs.update_score_at(now, window, &[], None);
    assert_eq!(
        cs.get_score_and_quality().1,
        ConnectionQualityLite::Excellent
    );

    // best conditions keep EXCELLENT
    cs.update_score_at(
        now + window,
        window,
        &[StreamWindow {
            packets: 250,
            packets_lost: 0,
            rtt_max_ms: 0,
            jitter_max: 0.0,
        }],
        None,
    );
    assert_eq!(
        cs.get_score_and_quality().1,
        ConnectionQualityLite::Excellent
    );

    // 12% loss for Opus should drop to POOR
    now += window;
    cs.update_score_at(
        now + window,
        window,
        &[
            StreamWindow {
                packets: 120,
                packets_lost: 30,
                rtt_max_ms: 0,
                jitter_max: 0.0,
            },
            StreamWindow {
                packets: 130,
                packets_lost: 0,
                rtt_max_ms: 0,
                jitter_max: 0.0,
            },
        ],
        None,
    );
    assert_eq!(cs.get_score_and_quality().1, ConnectionQualityLite::Poor);

    // recovery path: GOOD in one window
    now += window;
    cs.update_score_at(
        now + window,
        window,
        &[StreamWindow {
            packets: 250,
            packets_lost: 0,
            rtt_max_ms: 0,
            jitter_max: 0.0,
        }],
        None,
    );
    assert_eq!(cs.get_score_and_quality().1, ConnectionQualityLite::Good);

    // still GOOD
    now += window;
    cs.update_score_at(
        now + window,
        window,
        &[StreamWindow {
            packets: 250,
            packets_lost: 0,
            rtt_max_ms: 0,
            jitter_max: 0.0,
        }],
        None,
    );
    assert_eq!(cs.get_score_and_quality().1, ConnectionQualityLite::Good);

    // then EXCELLENT
    now += window;
    cs.update_score_at(
        now + window,
        window,
        &[StreamWindow {
            packets: 250,
            packets_lost: 0,
            rtt_max_ms: 0,
            jitter_max: 0.0,
        }],
        None,
    );
    assert_eq!(
        cs.get_score_and_quality().1,
        ConnectionQualityLite::Excellent
    );

    // 5% loss -> GOOD
    now += window;
    cs.update_score_at(
        now + window,
        window,
        &[StreamWindow {
            packets: 250,
            packets_lost: 13,
            rtt_max_ms: 0,
            jitter_max: 0.0,
        }],
        None,
    );
    assert_eq!(cs.get_score_and_quality().1, ConnectionQualityLite::Good);

    // one more good window -> still GOOD
    now += window;
    cs.update_score_at(
        now + window,
        window,
        &[StreamWindow {
            packets: 250,
            packets_lost: 0,
            rtt_max_ms: 0,
            jitter_max: 0.0,
        }],
        None,
    );
    assert_eq!(cs.get_score_and_quality().1, ConnectionQualityLite::Good);

    // one more -> EXCELLENT
    now += window;
    cs.update_score_at(
        now + window,
        window,
        &[StreamWindow {
            packets: 250,
            packets_lost: 0,
            rtt_max_ms: 0,
            jitter_max: 0.0,
        }],
        None,
    );
    assert_eq!(
        cs.get_score_and_quality().1,
        ConnectionQualityLite::Excellent
    );

    // drop to POOR, then mute should bump back to EXCELLENT
    now += window;
    cs.update_score_at(
        now + window,
        window,
        &[StreamWindow {
            packets: 250,
            packets_lost: 30,
            rtt_max_ms: 0,
            jitter_max: 0.0,
        }],
        None,
    );
    assert_eq!(cs.get_score_and_quality().1, ConnectionQualityLite::Poor);
    cs.update_mute_at(true, now + Duration::from_secs(1));
    assert_eq!(
        cs.get_score_and_quality().1,
        ConnectionQualityLite::Excellent
    );

    // unmute not old enough + no packets => hold EXCELLENT
    cs.update_mute_at(false, now + Duration::from_secs(3));
    cs.update_score_at(
        now + window,
        window,
        &[StreamWindow {
            packets: 0,
            packets_lost: 0,
            rtt_max_ms: 0,
            jitter_max: 0.0,
        }],
        None,
    );
    assert_eq!(
        cs.get_score_and_quality().1,
        ConnectionQualityLite::Excellent
    );

    // dry spell without sender report => POOR
    now += window;
    cs.update_score_at(
        now + window,
        window,
        &[StreamWindow {
            packets: 0,
            packets_lost: 0,
            rtt_max_ms: 0,
            jitter_max: 0.0,
        }],
        None,
    );
    assert_eq!(cs.get_score_and_quality().1, ConnectionQualityLite::Poor);

    // dry spell with fresh sender report => still POOR
    now += window;
    cs.update_score_at(
        now + window,
        window,
        &[StreamWindow {
            packets: 0,
            packets_lost: 0,
            rtt_max_ms: 0,
            jitter_max: 0.0,
        }],
        Some(now + Duration::from_secs(1)),
    );
    assert_eq!(cs.get_score_and_quality().1, ConnectionQualityLite::Poor);

    // sender report stale => LOST
    now += window;
    cs.update_score_at(
        now + window,
        window,
        &[StreamWindow {
            packets: 0,
            packets_lost: 0,
            rtt_max_ms: 0,
            jitter_max: 0.0,
        }],
        Some(now - window - Duration::from_millis(1)),
    );
    assert_eq!(cs.get_score_and_quality().1, ConnectionQualityLite::Lost);

    // mute when LOST should stay LOST
    cs.update_mute_at(true, now + Duration::from_secs(1));
    assert_eq!(cs.get_score_and_quality().1, ConnectionQualityLite::Lost);

    // unmute + sustained good conditions recovers to EXCELLENT
    cs.update_mute_at(false, now + Duration::from_secs(2));
    for _ in 0..4 {
        now += window;
        cs.update_score_at(
            now + window,
            window,
            &[StreamWindow {
                packets: 250,
                packets_lost: 0,
                rtt_max_ms: 0,
                jitter_max: 0.0,
            }],
            None,
        );
    }
    assert_eq!(
        cs.get_score_and_quality().1,
        ConnectionQualityLite::Excellent
    );

    // low packet count with 10% loss should not knock down quality (DTX-ish weighting)
    cs.update_score_at(
        now + window,
        window,
        &[StreamWindow {
            packets: 50,
            packets_lost: 5,
            rtt_max_ms: 0,
            jitter_max: 0.0,
        }],
        None,
    );
    assert_eq!(
        cs.get_score_and_quality().1,
        ConnectionQualityLite::Excellent
    );

    // RTT + jitter can drop EXCELLENT to GOOD even with moderate loss
    cs.update_mute_at(true, now + Duration::from_secs(1));
    cs.update_mute_at(false, now + Duration::from_secs(2));
    now += window;
    cs.update_score_at(
        now + window,
        window,
        &[StreamWindow {
            packets: 250,
            packets_lost: 5,
            rtt_max_ms: 400,
            jitter_max: 30_000.0,
        }],
        None,
    );
    assert_eq!(cs.get_score_and_quality().1, ConnectionQualityLite::Good);
}
