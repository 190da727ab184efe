//! The playout delay that receivers are told.
use oxidesfu_media::playout_delay::PlayOutDelay;
use oxidesfu_media::playout_delay_controller::PlayoutDelayController;

const NANOS_PER_MILLI: u64 = 1_000_000;

fn playout_delay_equal(data: &[u8], min: u16, max: u16) {
    let decoded = PlayOutDelay::unmarshal(data).expect("delay extension should unmarshal");
    assert_eq!(decoded.min_ms, min);
    assert_eq!(decoded.max_ms, max);
}

#[test]
fn playout_delay_controller_matches_upstream_contract() {
    let mut now: u64 = 0;
    let mut controller = PlayoutDelayController::new(100, 120, 0);

    let ext = controller
        .get_delay_extension(100, now)
        .expect("initial extension should be present");
    playout_delay_equal(&ext, 100, 120);

    let ext = controller
        .get_delay_extension(105, now)
        .expect("should still send extension while waiting for ack");
    playout_delay_equal(&ext, 100, 120);

    controller.on_seq_acked(65534);
    let ext = controller
        .get_delay_extension(105, now)
        .expect("ack before sending sequence should not stop extension emission");
    playout_delay_equal(&ext, 100, 120);

    controller.on_seq_acked(90);
    let ext = controller
        .get_delay_extension(105, now)
        .expect("older ack should not stop extension emission");
    playout_delay_equal(&ext, 100, 120);

    controller.on_seq_acked(103);
    assert!(
        controller.get_delay_extension(106, now).is_none(),
        "acked sending sequence should stop extension emission"
    );

    controller.set_jitter(0, now);
    assert!(
        controller.get_delay_extension(107, now).is_none(),
        "no delay change should not emit a new extension"
    );

    now += 200 * NANOS_PER_MILLI;
    controller.set_jitter(50, now);
    let ext = controller
        .get_delay_extension(108, now)
        .expect("delay increase should emit a new extension");
    let decoded = PlayOutDelay::unmarshal(&ext).expect("updated extension should unmarshal");
    assert!(decoded.min_ms > 100);

    now += 200 * NANOS_PER_MILLI;
    controller.set_jitter(10_000, now);
    let ext = controller
        .get_delay_extension(109, now)
        .expect("delay update should emit extension capped by max delay");
    playout_delay_equal(&ext, 120, 120);
}

#[test]
fn playout_delay_controller_max_delay_defaults_and_clamps() {
    let now: u64 = 0;
    let mut defaulted = PlayoutDelayController::new(100, 0, 0);
    let ext = defaulted
        .get_delay_extension(1, now)
        .expect("defaulted max-delay controller should emit extension");
    playout_delay_equal(&ext, 100, 10_000);

    let mut clamped = PlayoutDelayController::new(100, 100_000, 0);
    let ext = clamped
        .get_delay_extension(1, now)
        .expect("clamped max-delay controller should emit extension");
    let decoded = PlayOutDelay::unmarshal(&ext).expect("clamped extension should unmarshal");
    assert_eq!(decoded.max_ms, 40_950);
}

#[test]
fn playout_delay_controller_zero_max_with_zero_min_stays_zero() {
    let mut now: u64 = 0;
    let mut controller = PlayoutDelayController::new(0, 0, 0);
    let ext = controller
        .get_delay_extension(1, now)
        .expect("zero-delay controller should emit extension");
    playout_delay_equal(&ext, 0, 0);

    now += 120 * NANOS_PER_MILLI;
    controller.set_jitter(10, now);
    let updated = controller
        .get_delay_extension(2, now)
        .expect("jitter update should emit extension");
    let decoded =
        PlayOutDelay::unmarshal(&updated).expect("updated extension should unmarshal");
    assert_eq!(decoded.max_ms, 0);
    assert_eq!(decoded.min_ms, 0);
}

#[test]
fn delays_change_by_as_much_as_the_time_allows() {
    let mut controller = PlayoutDelayController::new(0, 1_000, 0);
    let _ = controller.get_delay_extension(1, 0);
    controller.set_jitter(50, 100 * NANOS_PER_MILLI);
    assert_eq!(controller.current_delay_ms, 8);
    controller.set_jitter(50, 5_000 * NANOS_PER_MILLI);
    assert_eq!(controller.current_delay_ms, 88);
    controller.set_jitter(0, 12 * NANOS_PER_MILLI);
    assert_eq!(controller.current_delay_ms, 88);
    controller.set_jitter(0, 13 * NANOS_PER_MILLI);
    assert_eq!(controller.current_delay_ms, 87);
}
