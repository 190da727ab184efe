//! Frame rates.
use oxidesfu_media::frame_rate::dependency_descriptor::{
    DDFrameSample, FrameRateCalculatorDDLite,
};
use oxidesfu_media::frame_rate::h26x::{FrameRateCalculatorH26xLite, H26xSample};
use oxidesfu_media::frame_rate::vp8::{FrameRateCalculatorVP8Lite, VpxSample};
use oxidesfu_media::frame_rate::{FrameRate, CLOCK_RATE};

fn rates_in_hz(rates: &[Option<FrameRate>]) -> Vec<f32> {
    rates
        .iter()
        .map(|rate| {
            rate.map_or(0.0, |rate| CLOCK_RATE as f32 / rate.ticks as f32 * rate.frames as f32)
        })
        .collect()
}

#[derive(Debug, Clone)]
struct TestFrameInfo {
    timestamp: u32,
    sequence_number: u16,
    frame_number: u16,
    spatial: usize,
    temporal: usize,
    frame_diffs: Vec<u16>,
}

fn create_frames(
    start_frame_number: u16,
    start_ts: u32,
    start_seq: u16,
    total_frames_per_spatial: usize,
    fps: &[Vec<f32>],
    spatial_dependency: bool,
) -> Vec<Vec<TestFrameInfo>> {
    let spatials = fps.len();
    let temporals = fps[0].len();
    let mut frames: Vec<Vec<TestFrameInfo>> = (0..spatials)
        .map(|_| Vec::with_capacity(total_frames_per_spatial))
        .collect();

    let mut frame_number = start_frame_number;
    let mut next_ts = vec![vec![start_ts; temporals]; spatials];
    let mut ts_step = vec![vec![0u32; temporals]; spatials];
    for s in 0..spatials {
        for t in 0..temporals {
            ts_step[s][t] = (CLOCK_RATE as f32 / fps[s][t]) as u32;
        }
    }

    let mut current_ts = vec![start_ts; spatials];
    let mut current_seq = start_seq;

    for _ in 0..total_frames_per_spatial {
        for s in 0..spatials {
            let mut frame = TestFrameInfo {
                timestamp: current_ts[s],
                sequence_number: current_seq,
                frame_number,
                spatial: s,
                temporal: 0,
                frame_diffs: Vec::new(),
            };

            for t in 0..temporals {
                if current_ts[s] >= next_ts[s][t] {
                    frame.temporal = t;
                    for nt in t..temporals {
                        next_ts[s][nt] = next_ts[s][nt].wrapping_add(ts_step[s][nt]);
                    }
                    break;
                }
            }

            current_ts[s] = current_ts[s].wrapping_add(ts_step[s][temporals - 1]);

            for idx in (0..frames[s].len()).rev() {
                let prev = &frames[s][idx];
                if prev.timestamp.wrapping_sub(frame.timestamp) > 0x8000_0000 {
                    frame
                        .frame_diffs
                        .push(frame.frame_number.wrapping_sub(prev.frame_number));
                    break;
                }
            }

            if spatial_dependency && frame.spatial > 0 {
                for idx in (0..frames[frame.spatial - 1].len()).rev() {
                    let prev = &frames[frame.spatial - 1][idx];
                    if prev.timestamp == frame.timestamp {
                        frame
                            .frame_diffs
                            .push(frame.frame_number.wrapping_sub(prev.frame_number));
                        break;
                    }
                }
            }

            frames[s].push(frame);
            frame_number = frame_number.wrapping_add(1);
            current_seq = current_seq.wrapping_add(1);
        }
    }

    frames
}

fn verify_fps(expected: &[f32], got: &[f32]) {
    assert_eq!(expected.len(), got.len());
    for i in 0..expected.len() {
        let low = expected[i] * 0.85;
        let high = expected[i] * 1.15;
        assert!(
            got[i] >= low && got[i] <= high,
            "fps mismatch at index {i}: expected ~{}, got {}",
            expected[i],
            got[i]
        );
    }
}

#[test]
fn fps_vp8_matches_upstream_contract() {
    let cases: &[(&str, u32, u16, Vec<Vec<f32>>)] = &[
        (
            "normal",
            12_345_678,
            100,
            vec![
                vec![5.0, 10.0, 15.0],
                vec![5.0, 10.0, 15.0],
                vec![7.5, 15.0, 30.0],
            ],
        ),
        (
            "frame-number-and-ts-wrap",
            (1u32 << 31) - 10,
            (1u16 << 15) - 10,
            vec![
                vec![5.0, 10.0, 15.0],
                vec![5.0, 10.0, 15.0],
                vec![7.5, 15.0, 30.0],
            ],
        ),
        (
            "two-temporal-layers",
            12_345_678,
            100,
            vec![vec![7.5, 15.0], vec![7.5, 15.0], vec![15.0, 30.0]],
        ),
    ];

    for (_name, start_ts, start_fn, fps_expected) in cases {
        let mut calculators: Vec<FrameRateCalculatorVP8Lite> = (0..fps_expected.len())
            .map(|_| FrameRateCalculatorVP8Lite::new())
            .collect();
        let frames: Vec<Vec<TestFrameInfo>> = (0..fps_expected.len())
            .map(|i| {
                create_frames(
                    *start_fn,
                    *start_ts,
                    10,
                    300,
                    &[fps_expected[i].clone()],
                    false,
                )
                .remove(0)
            })
            .collect();

        let mut got_all = false;
        for (s, spatial_frames) in frames.iter().enumerate() {
            for frame in spatial_frames {
                if calculators[s].recv_packet(VpxSample {
                    timestamp: frame.timestamp,
                    frame_number: frame.frame_number,
                    temporal: frame.temporal as i32,
                }) {
                    got_all = calculators
                        .iter()
                        .all(FrameRateCalculatorVP8Lite::completed);
                }
            }
        }

        assert!(got_all, "expected all VP8 calculators to complete");
        for (i, calc) in calculators.iter().enumerate() {
            verify_fps(
                &fps_expected[i],
                &rates_in_hz(calc.frame_rates())[..fps_expected[i].len()],
            );
        }
    }
}

#[test]
fn fps_dd_matches_upstream_contract() {
    let cases: &[(&str, u32, u16, Vec<Vec<f32>>, bool)] = &[
        (
            "normal",
            12_345_678,
            100,
            vec![
                vec![5.1, 10.1, 16.0],
                vec![5.1, 10.1, 16.0],
                vec![8.0, 15.0, 30.1],
            ],
            true,
        ),
        (
            "frame-number-and-ts-wrap",
            (1u32 << 31) - 10,
            (1u16 << 15) - 10,
            vec![
                vec![7.5, 15.0, 30.0],
                vec![7.5, 15.0, 30.0],
                vec![7.5, 15.0, 30.0],
            ],
            true,
        ),
        (
            "vp8-like",
            12_345_678,
            100,
            vec![vec![7.5, 15.0], vec![7.5, 15.0], vec![15.0, 30.0]],
            false,
        ),
    ];

    for (_name, start_ts, start_fn, fps_expected, spatial_dependency) in cases {
        let frames = create_frames(
            *start_fn,
            *start_ts,
            10,
            2000,
            fps_expected,
            *spatial_dependency,
        );
        let mut calculator =
            FrameRateCalculatorDDLite::new(fps_expected.len() - 1, fps_expected[0].len() - 1);

        let mut got = false;
        for spatial_frames in &frames {
            for frame in spatial_frames {
                if calculator.recv_packet(DDFrameSample {
                    timestamp: frame.timestamp,
                    frame_number: frame.frame_number,
                    spatial: frame.spatial as i32,
                    temporal: frame.temporal as i32,
                    frame_diffs: &frame.frame_diffs,
                }) {
                    got = calculator.completed();
                }
            }
        }

        assert!(got, "expected DD calculator to complete");
        for (s, expected) in fps_expected.iter().enumerate() {
            verify_fps(
                expected,
                &rates_in_hz(&calculator.frame_rates_for_spatial(s))[..expected.len()],
            );
        }
    }
}

#[test]
fn fps_h26x_matches_upstream_contract() {
    let cases: &[(&str, u32, u16, u16, Vec<Vec<f32>>)] = &[
        (
            "normal",
            12_345_678,
            100,
            100,
            vec![
                vec![5.0, 10.0, 15.0],
                vec![5.0, 10.0, 15.0],
                vec![7.5, 15.0, 30.0],
            ],
        ),
        (
            "frame-number-and-ts-wrap",
            (1u32 << 31) - 10,
            (1u16 << 15) - 10,
            (1u16 << 15) - 10,
            vec![
                vec![5.0, 10.0, 15.0],
                vec![5.0, 10.0, 15.0],
                vec![7.5, 15.0, 30.0],
            ],
        ),
        (
            "two-temporal-layers",
            12_345_678,
            100,
            100,
            vec![vec![7.5, 15.0], vec![7.5, 15.0], vec![15.0, 30.0]],
        ),
    ];

    for (_name, start_ts, start_seq, start_fn, fps_expected) in cases {
        let mut calculators: Vec<FrameRateCalculatorH26xLite> = (0..fps_expected.len())
            .map(|_| FrameRateCalculatorH26xLite::new())
            .collect();
        let frames: Vec<Vec<TestFrameInfo>> = (0..fps_expected.len())
            .map(|i| {
                create_frames(
                    *start_fn,
                    *start_ts,
                    *start_seq,
                    300,
                    &[fps_expected[i].clone()],
                    false,
                )
                .remove(0)
            })
            .collect();

        let mut got_all = false;
        for (s, spatial_frames) in frames.iter().enumerate() {
            for frame in spatial_frames {
                if calculators[s].recv_packet(H26xSample {
                    timestamp: frame.timestamp,
                    sequence_number: frame.sequence_number,
                    temporal: frame.temporal as i32,
                }) {
                    got_all = calculators
                        .iter()
                        .all(FrameRateCalculatorH26xLite::completed);
                }
            }
        }

        assert!(got_all, "expected all H26x calculators to complete");
        for (i, calc) in calculators.iter().enumerate() {
            verify_fps(
                &fps_expected[i],
                &rates_in_hz(calc.frame_rates())[..fps_expected[i].len()],
            );
        }
    }
}

#[test]
fn rates_are_exact_quotients() {
    let mut calculator = FrameRateCalculatorVP8Lite::new();
    for number in 0..10u16 {
        let sample = VpxSample {
            timestamp: 1_000 + u32::from(number) * 3_000,
            frame_number: number,
            temporal: 0,
        };
        let complete = calculator.recv_packet(sample);
        assert_eq!(complete, number >= 8);
    }
    assert_eq!(
        calculator.frame_rates(),
        &vec![Some(FrameRate { frames: 8, ticks: 24_000 }), None, None, None]
    );
}

#[test]
fn far_frames_begin_anew() {
    let mut calculator = FrameRateCalculatorVP8Lite::new();
    for number in [5u16, 6, 80] {
        let sample = VpxSample { timestamp: 7, frame_number: number, temporal: 0 };
        assert!(!calculator.recv_packet(sample));
    }
    assert!(calculator.base_frame.is_none());
    assert!(!calculator.completed());
}

#[test]
fn gaps_end_runs_of_frames() {
    let mut calculator = FrameRateCalculatorH26xLite::new();
    let mut complete = false;
    for number in 0..120u16 {
        let gap = if number >= 60 { 1 } else { 0 };
        complete = calculator.recv_packet(H26xSample {
            timestamp: u32::from(number) * 3_000,
            sequence_number: number + gap,
            temporal: 0,
        });
        assert!(!complete, "frame {number}");
    }
    complete |= calculator.recv_packet(H26xSample {
        timestamp: 120 * 3_000,
        sequence_number: 121,
        temporal: 0,
    });
    assert!(complete);
    assert_eq!(
        calculator.frame_rates()[0],
        Some(FrameRate { frames: 60, ticks: 180_000 })
    );
}
