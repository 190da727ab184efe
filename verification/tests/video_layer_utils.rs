//! Names and order of video layers.
use oxidesfu_media::video_layer_utils::dimensions::{quality_for_dimension, tolerated_size};
use oxidesfu_media::video_layer_utils::{
    default_video_layers_rid, get_spatial_layer_for_rid, get_spatial_layer_for_video_quality,
    get_video_quality_for_spatial_layer, normalize_video_layers_rid, rid_to_spatial_layer,
    spatial_layer_to_rid, spatial_layer_to_video_quality, video_quality_to_rid,
    video_quality_to_spatial_layer, TrackInfoLite, VideoLayerLite, VideoLayersRid, VideoQualityLite,
    INVALID_LAYER_SPATIAL,
};

use std::collections::HashMap;


fn track(layers: &[(VideoQualityLite, i32, &str)]) -> TrackInfoLite {
    TrackInfoLite {
        layers: layers
            .iter()
            .map(|(quality, spatial_layer, rid)| VideoLayerLite {
                quality: *quality,
                spatial_layer: *spatial_layer,
                rid: (*rid).to_string(),
            })
            .collect(),
    }
}

#[test]
fn video_layer_utils_rid_conversion_matches_upstream_contract() {
    let tests: Vec<(Option<TrackInfoLite>, HashMap<&str, (&str, i32)>)> = vec![
        (
            None,
            HashMap::from([
                ("", ("q", 0)),
                ("q", ("q", 0)),
                ("h", ("h", 1)),
                ("f", ("f", 2)),
            ]),
        ),
        (
            Some(track(&[])),
            HashMap::from([
                ("", ("q", 0)),
                ("q", ("q", 0)),
                ("h", ("h", 1)),
                ("f", ("f", 2)),
            ]),
        ),
        (
            Some(track(&[(VideoQualityLite::Low, 0, "q")])),
            HashMap::from([
                ("", ("q", 0)),
                ("q", ("q", 0)),
                ("h", ("q", 0)),
                ("f", ("q", 0)),
            ]),
        ),
        (
            Some(track(&[
                (VideoQualityLite::Low, 0, "q"),
                (VideoQualityLite::Medium, 1, "h"),
            ])),
            HashMap::from([
                ("", ("q", 0)),
                ("q", ("q", 0)),
                ("h", ("h", 1)),
                ("f", ("h", 1)),
            ]),
        ),
        (
            Some(track(&[
                (VideoQualityLite::Low, 0, "q"),
                (VideoQualityLite::Medium, 1, "h"),
                (VideoQualityLite::High, 2, "f"),
            ])),
            HashMap::from([
                ("", ("q", 0)),
                ("q", ("q", 0)),
                ("h", ("h", 1)),
                ("f", ("f", 2)),
            ]),
        ),
    ];

    let rid_space = default_video_layers_rid();
    for (track_info, rid_cases) in tests {
        for (rid, (expected_rid, expected_layer)) in rid_cases {
            let actual_layer = rid_to_spatial_layer(rid, track_info.as_ref(), &rid_space);
            assert_eq!(actual_layer, expected_layer);
            let actual_rid =
                spatial_layer_to_rid(actual_layer, track_info.as_ref(), &rid_space);
            assert_eq!(actual_rid, expected_rid.to_string());
        }
    }
}

#[test]
fn video_layer_utils_quality_conversion_matches_upstream_contract() {
    let tests: Vec<(
        Option<TrackInfoLite>,
        HashMap<VideoQualityLite, (VideoQualityLite, i32)>,
    )> = vec![
        (
            None,
            HashMap::from([
                (VideoQualityLite::Low, (VideoQualityLite::Low, 0)),
                (VideoQualityLite::Medium, (VideoQualityLite::Medium, 1)),
                (VideoQualityLite::High, (VideoQualityLite::High, 2)),
            ]),
        ),
        (
            Some(track(&[(VideoQualityLite::Low, 0, "q")])),
            HashMap::from([
                (VideoQualityLite::Low, (VideoQualityLite::Low, 0)),
                (VideoQualityLite::Medium, (VideoQualityLite::Low, 0)),
                (VideoQualityLite::High, (VideoQualityLite::Low, 0)),
            ]),
        ),
        (
            Some(track(&[(VideoQualityLite::Medium, 0, "q")])),
            HashMap::from([
                (VideoQualityLite::Low, (VideoQualityLite::Medium, 0)),
                (VideoQualityLite::Medium, (VideoQualityLite::Medium, 0)),
                (VideoQualityLite::High, (VideoQualityLite::Medium, 0)),
            ]),
        ),
        (
            Some(track(&[
                (VideoQualityLite::Low, 0, "q"),
                (VideoQualityLite::High, 1, "h"),
            ])),
            HashMap::from([
                (VideoQualityLite::Low, (VideoQualityLite::Low, 0)),
                (VideoQualityLite::Medium, (VideoQualityLite::High, 1)),
                (VideoQualityLite::High, (VideoQualityLite::High, 1)),
            ]),
        ),
        (
            Some(track(&[
                (VideoQualityLite::Low, 0, "q"),
                (VideoQualityLite::Medium, 1, "h"),
                (VideoQualityLite::High, 2, "f"),
            ])),
            HashMap::from([
                (VideoQualityLite::Low, (VideoQualityLite::Low, 0)),
                (VideoQualityLite::Medium, (VideoQualityLite::Medium, 1)),
                (VideoQualityLite::High, (VideoQualityLite::High, 2)),
            ]),
        ),
    ];

    for (track_info, quality_cases) in tests {
        for (quality, (expected_quality, expected_layer)) in quality_cases {
            let layer = video_quality_to_spatial_layer(quality, track_info.as_ref());
            assert_eq!(layer, expected_layer);
            let mapped_quality = spatial_layer_to_video_quality(layer, track_info.as_ref());
            assert_eq!(mapped_quality, expected_quality);
        }
    }
}

#[test]
fn video_layer_utils_video_quality_to_rid_matches_upstream_contract() {
    let rid_space = default_video_layers_rid();
    let test_track = track(&[
        (VideoQualityLite::Low, 0, "q"),
        (VideoQualityLite::Medium, 1, "h"),
        (VideoQualityLite::High, 2, "f"),
    ]);

    assert_eq!(
        video_quality_to_rid(VideoQualityLite::Low, Some(&test_track), &rid_space),
        "q"
    );
    assert_eq!(
        video_quality_to_rid(VideoQualityLite::Medium, Some(&test_track), &rid_space),
        "h"
    );
    assert_eq!(
        video_quality_to_rid(VideoQualityLite::High, Some(&test_track), &rid_space),
        "f"
    );
}

#[test]
fn video_layer_utils_get_spatial_layer_for_rid_matches_upstream_contract() {
    let no_track: Option<TrackInfoLite> = None;
    assert_eq!(
        get_spatial_layer_for_rid("q", no_track.as_ref()),
        INVALID_LAYER_SPATIAL
    );

    let no_rid_layers = track(&[
        (VideoQualityLite::Low, 0, ""),
        (VideoQualityLite::Medium, 1, ""),
    ]);
    assert_eq!(get_spatial_layer_for_rid("q", Some(&no_rid_layers)), 0);

    let with_rids = track(&[
        (VideoQualityLite::Low, 0, "q"),
        (VideoQualityLite::Medium, 1, "h"),
    ]);
    assert_eq!(get_spatial_layer_for_rid("q", Some(&with_rids)), 0);
    assert_eq!(get_spatial_layer_for_rid("h", Some(&with_rids)), 1);
    assert_eq!(get_spatial_layer_for_rid("f", Some(&with_rids)), 0);
}

#[test]
fn video_layer_utils_get_spatial_layer_for_video_quality_matches_upstream_contract() {
    let no_track: Option<TrackInfoLite> = None;
    assert_eq!(
        get_spatial_layer_for_video_quality(VideoQualityLite::Low, no_track.as_ref()),
        INVALID_LAYER_SPATIAL
    );

    let layers = track(&[
        (VideoQualityLite::Low, 0, "q"),
        (VideoQualityLite::Medium, 1, "h"),
    ]);
    assert_eq!(
        get_spatial_layer_for_video_quality(VideoQualityLite::Low, Some(&layers)),
        0
    );
    assert_eq!(
        get_spatial_layer_for_video_quality(VideoQualityLite::Medium, Some(&layers)),
        1
    );
    assert_eq!(
        get_spatial_layer_for_video_quality(VideoQualityLite::High, Some(&layers)),
        1
    );
    assert_eq!(
        get_spatial_layer_for_video_quality(VideoQualityLite::Off, Some(&layers)),
        INVALID_LAYER_SPATIAL
    );
}

#[test]
fn video_layer_utils_get_video_quality_for_spatial_layer_matches_upstream_contract() {
    let no_track: Option<TrackInfoLite> = None;
    assert_eq!(
        get_video_quality_for_spatial_layer(0, no_track.as_ref()),
        VideoQualityLite::Off
    );

    let layers = track(&[
        (VideoQualityLite::Low, 0, "q"),
        (VideoQualityLite::Medium, 1, "h"),
    ]);
    assert_eq!(
        get_video_quality_for_spatial_layer(INVALID_LAYER_SPATIAL, Some(&layers)),
        VideoQualityLite::Off
    );
    assert_eq!(
        get_video_quality_for_spatial_layer(0, Some(&layers)),
        VideoQualityLite::Low
    );
    assert_eq!(
        get_video_quality_for_spatial_layer(1, Some(&layers)),
        VideoQualityLite::Medium
    );
    assert_eq!(
        get_video_quality_for_spatial_layer(2, Some(&layers)),
        VideoQualityLite::Off
    );
}

#[test]
fn quality_for_dimension_matches_upstream_contract() {
    // landscape source
    assert_eq!(
        quality_for_dimension(1080, 720, 120, 120, vec![]),
        VideoQualityLite::Low
    );
    assert_eq!(
        quality_for_dimension(1080, 720, 300, 200, vec![]),
        VideoQualityLite::Low
    );
    assert_eq!(
        quality_for_dimension(1080, 720, 200, 250, vec![]),
        VideoQualityLite::Medium
    );
    assert_eq!(
        quality_for_dimension(1080, 720, 700, 480, vec![]),
        VideoQualityLite::High
    );
    assert_eq!(
        quality_for_dimension(1080, 720, 500, 1000, vec![]),
        VideoQualityLite::High
    );

    // portrait source
    assert_eq!(
        quality_for_dimension(540, 960, 200, 400, vec![]),
        VideoQualityLite::Low
    );
    assert_eq!(
        quality_for_dimension(540, 960, 400, 400, vec![]),
        VideoQualityLite::Medium
    );
    assert_eq!(
        quality_for_dimension(540, 960, 400, 700, vec![]),
        VideoQualityLite::Medium
    );
    assert_eq!(
        quality_for_dimension(540, 960, 600, 900, vec![]),
        VideoQualityLite::High
    );

    // explicit layer sizes (sorted heights: 270, 540, 720)
    let provided = vec![270, 540, 720];
    assert_eq!(
        quality_for_dimension(1080, 720, 120, 120, provided.clone()),
        VideoQualityLite::Low
    );
    assert_eq!(
        quality_for_dimension(1080, 720, 300, 300, provided.clone()),
        VideoQualityLite::Low
    );
    assert_eq!(
        quality_for_dimension(1080, 720, 800, 500, provided.clone()),
        VideoQualityLite::Medium
    );
    assert_eq!(
        quality_for_dimension(1080, 720, 1000, 700, provided.clone()),
        VideoQualityLite::High
    );

    // highest layer with smallest dimensions (duplicate lower/medium)
    let duplicate_low_medium = vec![270, 270, 720];
    assert_eq!(
        quality_for_dimension(1080, 720, 120, 120, duplicate_low_medium.clone()),
        VideoQualityLite::Medium
    );
    assert_eq!(
        quality_for_dimension(1080, 720, 300, 300, duplicate_low_medium.clone()),
        VideoQualityLite::Medium
    );
    assert_eq!(
        quality_for_dimension(1080, 720, 800, 500, duplicate_low_medium.clone()),
        VideoQualityLite::High
    );
}

#[test]
fn video_layer_utils_normalize_video_layers_rid_matches_upstream_contract() {
    let qhf: VideoLayersRid = [String::from("q"), String::from("h"), String::from("f")];
    let two_one_zero: VideoLayersRid =
        [String::from("2"), String::from("1"), String::from("0")];

    assert_eq!(
        normalize_video_layers_rid(&[String::new(), String::new(), String::new()]),
        [String::new(), String::new(), String::new()]
    );
    assert_eq!(
        normalize_video_layers_rid(&[String::from("3"), String::from("2"), String::from("1"),]),
        [String::from("3"), String::from("2"), String::from("1"),]
    );
    assert_eq!(normalize_video_layers_rid(&qhf), qhf);
    assert_eq!(
        normalize_video_layers_rid(&[String::from("f"), String::from("h"), String::from("q"),]),
        [String::from("q"), String::from("h"), String::from("f"),]
    );
    assert_eq!(
        normalize_video_layers_rid(&[String::from("h"), String::from("q"), String::new(),]),
        [String::from("q"), String::from("h"), String::new()]
    );

    assert_eq!(normalize_video_layers_rid(&two_one_zero), two_one_zero);
    assert_eq!(
        normalize_video_layers_rid(&[String::from("2"), String::from("0"), String::from("1"),]),
        [String::from("2"), String::from("1"), String::from("0"),]
    );
    assert_eq!(
        normalize_video_layers_rid(&[String::from("1"), String::from("2"), String::new(),]),
        [String::from("2"), String::from("1"), String::new()]
    );
}

#[test]
fn tolerance_is_nine_tenths_in_single_precision() {
    assert_eq!(tolerated_size(0), 0);
    assert_eq!(tolerated_size(10), 9);
    assert_eq!(tolerated_size(200), 180);
    assert_eq!(tolerated_size(400), 360);
    let mut size: u32 = 1;
    for step in 0..400_000u32 {
        assert_eq!(tolerated_size(size), (size as f32 * 0.9) as u32, "size {size}");
        size = size.wrapping_mul(1_664_525).wrapping_add(1_013_904_223 + step);
    }
    for size in 0..70_000u32 {
        assert_eq!(tolerated_size(size), (size as f32 * 0.9) as u32, "size {size}");
    }
    for size in [u32::MAX, u32::MAX - 1, 16_777_215, 16_777_216, 16_777_217, 33_554_433] {
        assert_eq!(tolerated_size(size), (size as f32 * 0.9) as u32, "size {size}");
    }
}

#[test]
fn larger_requests_get_no_lower_quality() {
    let rank = |quality: VideoQualityLite| match quality {
        VideoQualityLite::Off => 0,
        VideoQualityLite::Low => 1,
        VideoQualityLite::Medium => 2,
        VideoQualityLite::High => 3,
    };
    let mut last = 0;
    for height in 0..2_000 {
        let quality = rank(quality_for_dimension(1_280, 720, height, height, vec![]));
        assert!(quality >= last);
        last = quality;
    }
    assert_eq!(last, 3);
    let mut last = 0;
    for width in 0..2_000 {
        let quality = rank(quality_for_dimension(540, 960, width, 960, vec![]));
        assert!(quality >= last);
        last = quality;
    }
    assert_eq!(last, 3);
}

#[test]
fn sizes_that_are_not_known_are_made_up_for() {
    assert_eq!(quality_for_dimension(0, 0, 100, 100, vec![]), VideoQualityLite::High);
    assert_eq!(quality_for_dimension(0, 0, 100, 100, vec![0, 720]), VideoQualityLite::Low);
    assert_eq!(quality_for_dimension(0, 0, 300, 300, vec![720, 180, 360]), VideoQualityLite::Medium);
}

#[test]
fn normalized_names_stay() {
    for rids in [["f", "q", ""], ["0", "2", "1"], ["a", "q", ""], ["", "", ""]] {
        let rids: VideoLayersRid = [rids[0].to_string(), rids[1].to_string(), rids[2].to_string()];
        let once = normalize_video_layers_rid(&rids);
        assert_eq!(normalize_video_layers_rid(&once), once);
    }
}
