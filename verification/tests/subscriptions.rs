//! Requests to receive tracks.
use oxidesfu_media::protocol::{ParticipantTracks, UpdateSubscription};
use oxidesfu_media::subscriptions::{
    find_media_track_publisher, requested_media_track_sids, PublishingParticipant, TrackPlace,
};

fn texts(list: &[&str]) -> Vec<String> {
    list.iter().map(|text| text.to_string()).collect()
}

#[test]
fn requested_tracks_are_in_order_and_unique() {
    let request = UpdateSubscription {
        track_sids: texts(&["TR_c", "TR_a", "TR_c"]),
        subscribe: true,
        participant_tracks: vec![
            ParticipantTracks {
                participant_sid: "PA_1".to_string(),
                track_sids: texts(&["TR_b", "TR_a"]),
            },
            ParticipantTracks { participant_sid: "PA_2".to_string(), track_sids: texts(&["TR"]) },
        ],
    };
    assert_eq!(
        requested_media_track_sids(&request),
        texts(&["TR", "TR_a", "TR_b", "TR_c"])
    );
}

#[test]
fn order_is_that_of_strings() {
    let mut sids = texts(&["b", "", "a", "ab", "aa", "\u{e9}", "z", "\u{1f600}", "\u{ffff}"]);
    let request =
        UpdateSubscription { track_sids: sids.clone(), subscribe: true, participant_tracks: vec![] };
    sids.sort();
    assert_eq!(requested_media_track_sids(&request), sids);
}

#[test]
fn the_first_publisher_of_a_track_is_found() {
    let participants = vec![
        PublishingParticipant { identity: "alice".to_string(), track_sids: texts(&["TR_a"]) },
        PublishingParticipant {
            identity: "bob".to_string(),
            track_sids: texts(&["TR_b", "TR_c", "TR_c"]),
        },
        PublishingParticipant { identity: "carol".to_string(), track_sids: texts(&["TR_c"]) },
    ];
    assert_eq!(
        find_media_track_publisher(Some(&participants), "TR_c"),
        Some(("bob".to_string(), TrackPlace { participant: 1, track: 1 }))
    );
    assert_eq!(find_media_track_publisher(Some(&participants), "TR_d"), None);
    assert_eq!(find_media_track_publisher(None, "TR_a"), None);
}
