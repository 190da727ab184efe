//! Requests to receive tracks.
use crate::protocol::UpdateSubscription;
use crate::text_order::insert_text;
use vstd::prelude::*;

verus! {

/// The tracks that a request names, by themselves or with a participant.
pub open spec fn requested(request: UpdateSubscription) -> Set<Seq<char>> {
    crate::text_order::string_views(request.track_sids@).to_set().union(
        requested_of_participants(request, request.participant_tracks@.len()),
    )
}

/// The tracks that a request names with one of the first `n` participants.
pub open spec fn requested_of_participants(request: UpdateSubscription, n: nat) -> Set<Seq<char>> {
    Set::new(
        |track_sid: Seq<char>|
            exists|i: int|
                0 <= i < n && crate::text_order::string_views(
                    (#[trigger] request.participant_tracks@[i]).track_sids@,
                ).contains(track_sid),
    )
}

fn insert_texts(list: &mut Vec<String>, texts: &Vec<String>)
    requires
        crate::text_order::ascending(crate::text_order::string_views(old(list)@)),
    ensures
        crate::text_order::ascending(crate::text_order::string_views(final(list)@)),
        crate::text_order::string_views(final(list)@).to_set() == crate::text_order::string_views(
            old(list)@,
        ).to_set().union(crate::text_order::string_views(texts@).to_set()),
{
    let ghost before = crate::text_order::string_views(list@).to_set();
    let ghost views = crate::text_order::string_views(texts@);
    let mut i: usize = 0;
    assert(before =~= before.union(views.take(0).to_set()));
    while i < texts.len()
        invariant
            i <= texts@.len(),
            views == crate::text_order::string_views(texts@),
            crate::text_order::ascending(crate::text_order::string_views(list@)),
            crate::text_order::string_views(list@).to_set() == before.union(
                views.take(i as int).to_set(),
            ),
        decreases texts.len() - i,
    {
        insert_text(list, texts[i].clone());
        i += 1;
        proof {
            let shorter = views.take(i - 1);
            let longer = views.take(i as int);
            assert(longer =~= shorter.push(views[i - 1]));
            assert forall|text: Seq<char>|
                longer.contains(text) <==> shorter.contains(text) || text == views[i - 1] by {
                if shorter.contains(text) {
                    let j = choose|j: int| 0 <= j < shorter.len() && shorter[j] == text;
                    assert(longer[j] == text);
                }
                if text == views[i - 1] {
                    assert(longer[i - 1] == text);
                }
            }
            assert(crate::text_order::string_views(list@).to_set() =~= before.union(
                longer.to_set(),
            ));
        }
    }
    assert(views.take(i as int) =~= views);
}

/// The tracks that a request names, in order and each once.
pub fn requested_media_track_sids(request: &UpdateSubscription) -> (track_sids: Vec<String>)
    ensures
        crate::text_order::ascending(crate::text_order::string_views(track_sids@)),
        crate::text_order::string_views(track_sids@).to_set() == requested(*request),
{
    let mut track_sids: Vec<String> = Vec::new();
    insert_texts(&mut track_sids, &request.track_sids);
    let ghost own = crate::text_order::string_views(request.track_sids@).to_set();
    let mut i: usize = 0;
    assert(crate::text_order::string_views(track_sids@).to_set() =~= own.union(
        requested_of_participants(*request, 0),
    ));
    while i < request.participant_tracks.len()
        invariant
            i <= request.participant_tracks@.len(),
            crate::text_order::ascending(crate::text_order::string_views(track_sids@)),
            crate::text_order::string_views(track_sids@).to_set() == own.union(
                requested_of_participants(*request, i as nat),
            ),
        decreases request.participant_tracks.len() - i,
    {
        insert_texts(&mut track_sids, &request.participant_tracks[i].track_sids);
        i += 1;
        proof {
            let shorter = requested_of_participants(*request, (i - 1) as nat);
            let longer = requested_of_participants(*request, i as nat);
            let added = crate::text_order::string_views(
                request.participant_tracks@[i - 1].track_sids@,
            ).to_set();
            assert forall|sid: Seq<char>|
                longer.contains(sid) <==> shorter.contains(sid) || added.contains(sid) by {
                if shorter.contains(sid) {
                    let j = choose|j: int|
                        0 <= j < i - 1 && crate::text_order::string_views(
                            (#[trigger] request.participant_tracks@[j]).track_sids@,
                        ).contains(sid);
                    assert(crate::text_order::string_views(
                        request.participant_tracks@[j].track_sids@,
                    ).contains(sid));
                }
                if added.contains(sid) {
                    assert(crate::text_order::string_views(
                        request.participant_tracks@[i - 1].track_sids@,
                    ).contains(sid));
                }
            }
            assert(crate::text_order::string_views(track_sids@).to_set() =~= own.union(longer));
        }
    }
    track_sids
}

/// A participant of a room, and the tracks that it publishes.
#[derive(Debug, Clone, PartialEq, Eq)]
pub struct PublishingParticipant {
    pub identity: String,
    pub track_sids: Vec<String>,
}

/// Where a track is: the participant, and the place among its tracks.
#[derive(Debug, Clone, Copy, PartialEq, Eq, Structural)]
pub struct TrackPlace {
    pub participant: usize,
    pub track: usize,
}

/// The track stands at the place.
pub open spec fn stands_at(
    participants: Seq<PublishingParticipant>,
    track_sid: Seq<char>,
    participant: int,
    track: int,
) -> bool {
    0 <= participant < participants.len() && 0 <= track < participants[participant].track_sids@.len()
        && participants[participant].track_sids@[track]@ == track_sid
}

/// The first place of a track among the participants of a room, with the identity of the
/// participant that publishes it. There is none if the room is not known.
pub fn find_media_track_publisher(
    participants: Option<&Vec<PublishingParticipant>>,
    track_sid: &str,
) -> (found: Option<(String, TrackPlace)>)
    ensures
        match found {
            Some((identity, place)) => {
                &&& participants is Some
                &&& stands_at(
                    participants->0@,
                    track_sid@,
                    place.participant as int,
                    place.track as int,
                )
                &&& identity@ == participants->0@[place.participant as int].identity@
                &&& forall|i: int, j: int|
                    #![trigger stands_at(participants->0@, track_sid@, i, j)]
                    i < place.participant || (i == place.participant && j < place.track)
                        ==> !stands_at(participants->0@, track_sid@, i, j)
            },
            None => participants is None || forall|i: int, j: int|
                !stands_at(participants->0@, track_sid@, i, j),
        },
{
    let list: &Vec<PublishingParticipant> = match participants {
        Some(list) => list,
        None => {
            return None;
        },
    };
    let wanted: String = track_sid.to_owned();
    let mut i: usize = 0;
    while i < list.len()
        invariant
            i <= list@.len(),
            wanted@ == track_sid@,
            participants is Some,
            participants->0@ == list@,
            forall|a: int, b: int|
                #![trigger stands_at(list@, track_sid@, a, b)]
                a < i ==> !stands_at(list@, track_sid@, a, b),
        decreases list.len() - i,
    {
        let mut j: usize = 0;
        while j < list[i as usize].track_sids.len()
            invariant
                i < list@.len(),
                j <= list@[i as int].track_sids@.len(),
                wanted@ == track_sid@,
                participants is Some,
                participants->0@ == list@,
                forall|a: int, b: int|
                    #![trigger stands_at(list@, track_sid@, a, b)]
                    a < i || (a == i && b < j) ==> !stands_at(list@, track_sid@, a, b),
            decreases list@[i as int].track_sids@.len() - j,
        {
            if list[i].track_sids[j] == wanted {
                assert(stands_at(list@, track_sid@, i as int, j as int));
                return Some((list[i].identity.clone(), TrackPlace { participant: i, track: j }));
            }
            j += 1;
        }
        i += 1;
    }
    None
}

/// A track is requested exactly where the request names it by itself or with one of the
/// participants.
pub proof fn law_tracks_are_requested_either_way(
    request: UpdateSubscription,
    track_sid: Seq<char>,
    i: int,
    j: int,
)
    ensures
        0 <= i < request.track_sids@.len() && request.track_sids@[i]@ == track_sid ==> requested(
            request,
        ).contains(track_sid),
        0 <= i < request.participant_tracks@.len() && 0 <= j
            < request.participant_tracks@[i].track_sids@.len()
            && request.participant_tracks@[i].track_sids@[j]@ == track_sid ==> requested(
            request,
        ).contains(track_sid),
        requested(request).contains(track_sid) ==> crate::text_order::string_views(
            request.track_sids@,
        ).contains(track_sid) || exists|p: int|
            0 <= p < request.participant_tracks@.len() && crate::text_order::string_views(
                (#[trigger] request.participant_tracks@[p]).track_sids@,
            ).contains(track_sid),
{
    if 0 <= i < request.track_sids@.len() && request.track_sids@[i]@ == track_sid {
        assert(crate::text_order::string_views(request.track_sids@)[i] == track_sid);
    }
    if 0 <= i < request.participant_tracks@.len() && 0 <= j
        < request.participant_tracks@[i].track_sids@.len()
        && request.participant_tracks@[i].track_sids@[j]@ == track_sid {
        assert(crate::text_order::string_views(
            request.participant_tracks@[i].track_sids@,
        )[j] == track_sid);
    }
}

} // verus!
