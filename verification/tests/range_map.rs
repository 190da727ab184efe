//! Values of ranges of keys.
use oxidesfu_media::range_map::{RangeMapError, RangeMapU32, RangeVal};

#[test]
fn range_map_u32_matches_upstream_contract() {
    let mut range_map = RangeMapU32::new(2);

    let mut value = range_map
        .get_value(33333)
        .expect("default open range value should be readable");
    assert_eq!(value, 0);

    let mut expected_ranges = vec![RangeVal {
        start: 0,
        end: 0,
        value: 0,
    }];
    assert_eq!(range_map.ranges, expected_ranges);

    range_map
        .exclude_range(10, 11)
        .expect("first exclusion should succeed");

    expected_ranges = vec![
        RangeVal {
            start: 0,
            end: 9,
            value: 0,
        },
        RangeVal {
            start: 11,
            end: 0,
            value: 1,
        },
    ];
    assert_eq!(range_map.ranges, expected_ranges);

    value = range_map
        .get_value(6)
        .expect("old closed range value should be readable");
    assert_eq!(value, 0);

    value = range_map
        .get_value(11)
        .expect("new open range value should be readable");
    assert_eq!(value, 1);

    assert_eq!(range_map.get_value(10), Err(RangeMapError::KeyExcluded));
    assert_eq!(
        range_map.exclude_range(9, 10),
        Err(RangeMapError::ReversedOrder)
    );
    assert_eq!(
        range_map.exclude_range(12, 11),
        Err(RangeMapError::ReversedOrder)
    );
    assert_eq!(
        range_map.exclude_range(11, 11),
        Err(RangeMapError::ReversedOrder)
    );

    range_map
        .exclude_range(11, 12)
        .expect("adjacent exclusion should extend open range");
    expected_ranges = vec![
        RangeVal {
            start: 0,
            end: 9,
            value: 0,
        },
        RangeVal {
            start: 12,
            end: 0,
            value: 2,
        },
    ];
    assert_eq!(range_map.ranges, expected_ranges);

    assert_eq!(range_map.get_value(11), Err(RangeMapError::KeyExcluded));
    assert!(range_map.get_value(6).is_ok());

    value = range_map
        .get_value(12)
        .expect("extended open range value should be readable");
    assert_eq!(value, 2);

    range_map
        .exclude_range(12, 22)
        .expect("length-10 adjacent exclusion should succeed");
    expected_ranges = vec![
        RangeVal {
            start: 0,
            end: 9,
            value: 0,
        },
        RangeVal {
            start: 22,
            end: 0,
            value: 12,
        },
    ];
    assert_eq!(range_map.ranges, expected_ranges);

    assert_eq!(range_map.get_value(15), Err(RangeMapError::KeyExcluded));
    value = range_map
        .get_value(25)
        .expect("open range should reflect cumulative exclusions");
    assert_eq!(value, 12);

    range_map
        .exclude_range(26, 30)
        .expect("disjoint exclusion should close current open range and open a new one");
    expected_ranges = vec![
        RangeVal {
            start: 0,
            end: 9,
            value: 0,
        },
        RangeVal {
            start: 22,
            end: 25,
            value: 12,
        },
        RangeVal {
            start: 30,
            end: 0,
            value: 16,
        },
    ];
    assert_eq!(range_map.ranges, expected_ranges);

    value = range_map
        .get_value(23)
        .expect("newly closed range should return expected value");
    assert_eq!(value, 12);

    range_map
        .exclude_range(50, 51)
        .expect("further disjoint exclusion should trigger pruning");
    expected_ranges = vec![
        RangeVal {
            start: 22,
            end: 25,
            value: 12,
        },
        RangeVal {
            start: 30,
            end: 49,
            value: 16,
        },
        RangeVal {
            start: 51,
            end: 0,
            value: 17,
        },
    ];
    assert_eq!(range_map.ranges, expected_ranges);

    assert_eq!(range_map.get_value(50), Err(RangeMapError::KeyExcluded));
    assert_eq!(range_map.get_value(28), Err(RangeMapError::KeyExcluded));
    assert_eq!(range_map.get_value(17), Err(RangeMapError::KeyTooOld));
    assert_eq!(range_map.get_value(5), Err(RangeMapError::KeyTooOld));

    assert_eq!(range_map.get_value(24), Ok(12));
    assert_eq!(range_map.get_value(34), Ok(16));
    assert_eq!(range_map.get_value(49), Ok(16));
    assert_eq!(range_map.get_value(55_555_555), Ok(17));

    range_map.clear_and_reset_value(24, 23);
    expected_ranges = vec![RangeVal {
        start: 24,
        end: 0,
        value: 23,
    }];
    assert_eq!(range_map.ranges, expected_ranges);
    assert_eq!(range_map.get_value(55_555_555), Ok(23));

    range_map.dec_value(34, 12);
    expected_ranges = vec![
        RangeVal {
            start: 24,
            end: 34,
            value: 23,
        },
        RangeVal {
            start: 35,
            end: 0,
            value: 11,
        },
    ];
    assert_eq!(range_map.ranges, expected_ranges);
    assert_eq!(range_map.get_value(55_555_555), Ok(11));

    range_map
        .exclude_range(40, 45)
        .expect("exclusion should split current open range");
    expected_ranges = vec![
        RangeVal {
            start: 24,
            end: 34,
            value: 23,
        },
        RangeVal {
            start: 35,
            end: 39,
            value: 11,
        },
        RangeVal {
            start: 45,
            end: 0,
            value: 16,
        },
    ];
    assert_eq!(range_map.ranges, expected_ranges);

    assert_eq!(range_map.get_value(5), Err(RangeMapError::KeyTooOld));
    assert_eq!(range_map.get_value(25), Ok(23));
    assert_eq!(range_map.get_value(35), Ok(11));
    assert_eq!(range_map.get_value(55_555_555), Ok(16));

    range_map.dec_value(66, 6);
    expected_ranges = vec![
        RangeVal {
            start: 35,
            end: 39,
            value: 11,
        },
        RangeVal {
            start: 45,
            end: 66,
            value: 16,
        },
        RangeVal {
            start: 67,
            end: 0,
            value: 10,
        },
    ];
    assert_eq!(range_map.ranges, expected_ranges);

    assert_eq!(range_map.get_value(25), Err(RangeMapError::KeyTooOld));
    assert_eq!(range_map.get_value(66), Ok(16));
    assert_eq!(range_map.get_value(67), Ok(10));

    range_map.dec_value(66, 6);
    expected_ranges = vec![
        RangeVal {
            start: 35,
            end: 39,
            value: 11,
        },
        RangeVal {
            start: 45,
            end: 66,
            value: 16,
        },
        RangeVal {
            start: 67,
            end: 0,
            value: 4,
        },
    ];
    assert_eq!(range_map.ranges, expected_ranges);
    assert_eq!(range_map.get_value(67), Ok(4));
}

#[test]
fn excluded_keys_have_no_value_and_later_keys_count_them() {
    let mut map = RangeMapU32::new(4);
    map.exclude_range(100, 103).expect("ranges ahead can be excluded");
    assert_eq!(map.get_value(99), Ok(0));
    assert_eq!(map.get_value(100), Err(RangeMapError::KeyExcluded));
    assert_eq!(map.get_value(102), Err(RangeMapError::KeyExcluded));
    assert_eq!(map.get_value(103), Ok(3));
}

#[test]
fn exclusions_leave_older_keys_alone() {
    let mut map = RangeMapU32::new(1);
    map.exclude_range(10, 12).expect("ranges ahead can be excluded");
    map.exclude_range(12, 15).expect("ranges ahead can be excluded");
    assert_eq!(map.get_value(9), Ok(0));
    assert_eq!(map.get_value(11), Err(RangeMapError::KeyExcluded));
    assert_eq!(map.exclude_range(30, 30), Err(RangeMapError::ReversedOrder));
    assert_eq!(map.exclude_range(30, 20), Err(RangeMapError::ReversedOrder));
    assert_eq!(map.get_value(u32::MAX), Ok(5));
    map.exclude_range(20, 22).expect("ranges ahead can be excluded");
    assert_eq!(map.get_value(11), Err(RangeMapError::KeyTooOld));
    assert_eq!(map.get_value(9), Err(RangeMapError::KeyTooOld));
    assert_eq!(map.get_value(19), Ok(5));
    assert_eq!(map.get_value(21), Err(RangeMapError::KeyExcluded));
    assert_eq!(map.get_value(22), Ok(7));
}
