//! Levels of audio.
use oxidesfu_media::audio_level::{AudioLevelLite, AudioSample};

const SAMPLES_PER_BATCH: usize = 25;
const DEFAULT_ACTIVE_LEVEL: u8 = 30;
const DEFAULT_PERCENTILE: u8 = 10;
const DEFAULT_OBSERVE_DURATION_MS: u32 = 500;

fn level_of(a: &mut AudioLevelLite, now_ns: i64) -> (f64, bool) {
    match a.get_level(now_ns) {
        None => (0.0, false),
        Some(samples) => {
            let mut sum = 0.0;
            let mut noisy_ms = 0;
            for sample in samples {
                sum += convert_audio_level(f64::from(sample.level)) * f64::from(sample.duration_ms);
                noisy_ms += sample.duration_ms;
            }
            (sum / f64::from(noisy_ms), true)
        }
    }
}

fn convert_audio_level(level: f64) -> f64 {
    if level >= 127.0 {
        0.0
    } else {
        10.0_f64.powf((127.0 - level) / 20.0)
    }
}

fn observe_samples(a: &mut AudioLevelLite, level: u8, count: usize, base_time_ns: i64) {
    for i in 0..count {
        let at = base_time_ns + (i as i64) * 20_000_000;
        a.observe(level, 20, at);
    }
}

fn observe_samples_with_rtp_timestamp(
    a: &mut AudioLevelLite,
    level: u8,
    count: usize,
    base_time_ns: i64,
) {
    let mut sample_ts = 10_000_u32;
    for i in 0..count {
        let at = base_time_ns + (i as i64) * 20_000_000;
        if i % 5 == 0 {
            a.observe_with_rtp_timestamp(level, sample_ts.saturating_sub(1920), at);
        }
        a.observe_with_rtp_timestamp(level, sample_ts, at);
        sample_ts = sample_ts.wrapping_add(960);
    }
}

#[test]
fn audio_level_matches_upstream_contract() {
    let mut clock_ns = 1_000_000_000_i64;
    let mut a = AudioLevelLite::new(
        DEFAULT_ACTIVE_LEVEL,
        DEFAULT_PERCENTILE,
        DEFAULT_OBSERVE_DURATION_MS,
    );
    let (_, noisy) = level_of(&mut a, clock_ns);
    assert!(!noisy);

    observe_samples(&mut a, 28, 5, clock_ns);
    clock_ns += 5 * 20_000_000;
    let (_, noisy) = level_of(&mut a, clock_ns);
    assert!(!noisy);

    let mut a = AudioLevelLite::new(
        DEFAULT_ACTIVE_LEVEL,
        DEFAULT_PERCENTILE,
        DEFAULT_OBSERVE_DURATION_MS,
    );
    clock_ns = 2_000_000_000;
    observe_samples(&mut a, 35, 100, clock_ns);
    clock_ns += 100 * 20_000_000;
    let (_, noisy) = level_of(&mut a, clock_ns);
    assert!(!noisy);

    let mut a = AudioLevelLite::new(
        DEFAULT_ACTIVE_LEVEL,
        DEFAULT_PERCENTILE,
        DEFAULT_OBSERVE_DURATION_MS,
    );
    clock_ns = 3_000_000_000;
    observe_samples(&mut a, 35, SAMPLES_PER_BATCH - 2, clock_ns);
    clock_ns += (SAMPLES_PER_BATCH as i64 - 2) * 20_000_000;
    observe_samples(&mut a, 25, 1, clock_ns);
    clock_ns += 20_000_000;
    observe_samples(&mut a, 35, 1, clock_ns);
    clock_ns += 20_000_000;
    let (_, noisy) = level_of(&mut a, clock_ns);
    assert!(!noisy);

    let mut a = AudioLevelLite::new(
        DEFAULT_ACTIVE_LEVEL,
        DEFAULT_PERCENTILE,
        DEFAULT_OBSERVE_DURATION_MS,
    );
    clock_ns = 4_000_000_000;
    observe_samples(&mut a, 35, SAMPLES_PER_BATCH - 16, clock_ns);
    clock_ns += (SAMPLES_PER_BATCH as i64 - 16) * 20_000_000;
    observe_samples(&mut a, 25, 8, clock_ns);
    clock_ns += 8 * 20_000_000;
    observe_samples(&mut a, 29, 8, clock_ns);
    clock_ns += 8 * 20_000_000;
    let (level, noisy) = level_of(&mut a, clock_ns);
    assert!(noisy);
    assert!(level > convert_audio_level(f64::from(DEFAULT_ACTIVE_LEVEL)));
    assert!(level < convert_audio_level(25.0));

    let mut a = AudioLevelLite::new(
        DEFAULT_ACTIVE_LEVEL,
        DEFAULT_PERCENTILE,
        DEFAULT_OBSERVE_DURATION_MS,
    );
    clock_ns = 5_000_000_000;
    observe_samples(&mut a, 25, 100, clock_ns);
    clock_ns += 100 * 20_000_000;
    let (level, noisy) = level_of(&mut a, clock_ns);
    assert!(noisy);
    assert!(level > convert_audio_level(f64::from(DEFAULT_ACTIVE_LEVEL)));
    assert!(level < convert_audio_level(20.0));
    clock_ns += 1_500_000_000;
    let (level, noisy) = level_of(&mut a, clock_ns);
    assert_eq!(level, 0.0);
    assert!(!noisy);

    let mut a = AudioLevelLite::new(
        DEFAULT_ACTIVE_LEVEL,
        DEFAULT_PERCENTILE,
        DEFAULT_OBSERVE_DURATION_MS,
    );
    clock_ns = 6_000_000_000;
    observe_samples_with_rtp_timestamp(&mut a, 25, 100, clock_ns);
    clock_ns += 100 * 20_000_000;
    let (level, noisy) = level_of(&mut a, clock_ns);
    assert!(noisy);
    assert!(level > convert_audio_level(f64::from(DEFAULT_ACTIVE_LEVEL)));
    assert!(level < convert_audio_level(20.0));
    clock_ns += 1_500_000_000;
    let (level, noisy) = level_of(&mut a, clock_ns);
    assert_eq!(level, 0.0);
    assert!(!noisy);
}

#[test]
fn only_loud_and_recent_samples_count() {
    let mut a = AudioLevelLite::new(30, 50, 100);
    a.observe(10, 60, 0);
    a.observe(30, 50, 200_000_000);
    a.observe(31, 50, 210_000_000);
    let loud = AudioSample { level: 30, duration_ms: 50, at_ns: 200_000_000 };
    assert_eq!(a.get_level(300_000_000), Some(vec![loud]));
    assert_eq!(a.get_level(300_000_001), None);
    assert_eq!(a.samples.len(), 1);
    assert_eq!(a.get_level(511_000_000), None);
    assert!(a.samples.is_empty());
}
