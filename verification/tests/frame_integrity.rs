//! Frames with all of their packets.
use oxidesfu_media::frame_integrity::{
    DependencyDescriptorLite, FrameIntegrityCheckerLite, PacketHistory,
};

fn shuffle_with_seed(values: &mut [u64], mut seed: u64) {
    if values.len() <= 1 {
        return;
    }
    for i in (1..values.len()).rev() {
        seed = seed.wrapping_mul(6364136223846793005).wrapping_add(1);
        let j = (seed as usize) % (i + 1);
        values.swap(i, j);
    }
}

#[test]
fn frame_integrity_checker_matches_upstream_contract() {
    let mut checker = FrameIntegrityCheckerLite::new(100, 1000);

    checker.add_packet(10, 10, DependencyDescriptorLite::default());
    assert!(!checker.frame_integrity(10));
    checker.add_packet(
        9,
        10,
        DependencyDescriptorLite {
            first_packet_in_frame: true,
            last_packet_in_frame: false,
        },
    );
    assert!(!checker.frame_integrity(10));
    checker.add_packet(
        11,
        10,
        DependencyDescriptorLite {
            first_packet_in_frame: false,
            last_packet_in_frame: true,
        },
    );
    assert!(checker.frame_integrity(10));

    checker.add_packet(
        100,
        100,
        DependencyDescriptorLite {
            first_packet_in_frame: true,
            last_packet_in_frame: true,
        },
    );
    assert!(checker.frame_integrity(100));
    assert!(!checker.frame_integrity(101));
    assert!(!checker.frame_integrity(99));

    checker.add_packet(
        99,
        99,
        DependencyDescriptorLite {
            first_packet_in_frame: true,
            last_packet_in_frame: true,
        },
    );

    checker.add_packet(2001, 2001, DependencyDescriptorLite::default());
    assert!(!checker.frame_integrity(2001));
    assert!(!checker.frame_integrity(1999));
    assert!(!checker.frame_integrity(100));
    assert!(!checker.frame_integrity(1900));

    checker.add_packet(
        2000,
        2001,
        DependencyDescriptorLite {
            first_packet_in_frame: true,
            last_packet_in_frame: false,
        },
    );
    assert!(!checker.frame_integrity(2001));
    checker.add_packet(
        2002,
        2001,
        DependencyDescriptorLite {
            first_packet_in_frame: false,
            last_packet_in_frame: true,
        },
    );
    assert!(checker.frame_integrity(2001));

    checker.add_packet(2001, 2001, DependencyDescriptorLite::default());
    assert!(checker.frame_integrity(2001));

    checker.add_packet(
        900,
        1900,
        DependencyDescriptorLite {
            first_packet_in_frame: true,
            last_packet_in_frame: true,
        },
    );
    assert!(!checker.frame_integrity(1900));

    for frame in 2002u64..2102u64 {
        let first = 3000 + (frame - 2002) * 1000;
        let last = 3999 + (frame - 2002) * 1000;
        let mut seqs: Vec<u64> = (first..=last).collect();
        assert!(!checker.frame_integrity(frame));

        shuffle_with_seed(&mut seqs, frame);
        for (index, seq) in seqs.iter().enumerate() {
            checker.add_packet(
                *seq,
                frame,
                DependencyDescriptorLite {
                    first_packet_in_frame: *seq == first,
                    last_packet_in_frame: *seq == last,
                },
            );
            assert_eq!(index == seqs.len() - 1, checker.frame_integrity(frame));
        }
        assert!(checker.frame_integrity(frame));
    }
}

#[test]
fn skipped_packets_are_missing() {
    let mut history = PacketHistory::new(100);
    assert_eq!(history.packet_count, 128);
    for seq in 1_000..1_100 {
        history.add_packet(seq);
    }
    assert!(history.packets_consecutive(1_000, 1_099));
    assert!(history.packets_consecutive(1_060, 1_060));
    history.add_packet(1_101);
    assert!(!history.packets_consecutive(1_000, 1_101));
    assert!(history.packets_consecutive(1_101, 1_101));
    history.add_packet(1_100);
    assert!(history.packets_consecutive(1_000, 1_101));
    assert!(!history.packets_consecutive(1_001, 1_000));
    assert!(!history.packets_consecutive(974, 1_102));
}

#[test]
fn complete_frames_stay_complete_until_they_are_old() {
    let mut checker = FrameIntegrityCheckerLite::new(2, 64);
    let whole = DependencyDescriptorLite { first_packet_in_frame: true, last_packet_in_frame: true };
    checker.add_packet(500, 5, whole);
    checker.add_packet(501, 6, DependencyDescriptorLite::default());
    assert!(checker.frame_integrity(5));
    assert!(!checker.frame_integrity(6));
    checker.add_packet(502, 7, whole);
    assert!(!checker.frame_integrity(5));
    assert!(checker.frame_integrity(7));
}
