//! Revisions of what subscribers want of tracks.
use crate::keyed_map::{KeyedMap, StoreKey};
use vstd::prelude::*;

verus! {

/// The room, the subscriber and the track of a forwarding target.
pub type TargetKey = (String, String, String);

/// The latest revision, and the revision of each target that changed.
#[derive(Debug)]
pub struct TargetRevisions {
    pub by_target: KeyedMap<TargetKey, u64>,
    pub latest: u64,
}

/// The contents of [`TargetRevisions`].
#[verifier::ext_equal]
pub struct RevisionsView {
    pub by_target: Map<Seq<Seq<char>>, u64>,
    pub latest: u64,
}

impl View for TargetRevisions {
    type V = RevisionsView;

    open spec fn view(&self) -> RevisionsView {
        RevisionsView { by_target: self.by_target@, latest: self.latest }
    }
}

impl RevisionsView {
    /// Nothing changed yet.
    pub open spec fn fresh() -> Self {
        RevisionsView { by_target: Map::empty(), latest: 0 }
    }

    /// No target is ahead of the latest revision.
    pub open spec fn wf(self) -> bool {
        forall|key: Seq<Seq<char>>|
            #[trigger] self.by_target.contains_key(key) ==> self.by_target[key] <= self.latest
    }

    /// The revision of a target, zero if it never changed.
    pub open spec fn of_target(self, key: Seq<Seq<char>>) -> u64 {
        if self.by_target.contains_key(key) {
            self.by_target[key]
        } else {
            0
        }
    }

    /// The revisions after a target changed.
    pub open spec fn marked(self, key: Seq<Seq<char>>) -> Self {
        RevisionsView {
            by_target: self.by_target.insert(key, (self.latest + 1) as u64),
            latest: (self.latest + 1) as u64,
        }
    }
}

impl Default for TargetRevisions {
    fn default() -> (revisions: Self)
        ensures
            revisions.wf(),
            revisions@ == RevisionsView::fresh(),
    {
        TargetRevisions { by_target: KeyedMap::new(), latest: 0 }
    }
}

impl TargetRevisions {
    /// The map is well formed, and no target is ahead.
    pub open spec fn wf(self) -> bool {
        self.by_target.wf() && self@.wf()
    }

    /// The next revision.
    pub fn bump_revision(&mut self) -> (revision: u64)
        requires
            old(self).wf(),
            old(self)@.latest < u64::MAX,
        ensures
            final(self).wf(),
            revision == old(self)@.latest + 1,
            final(self)@ == (RevisionsView { latest: revision, ..old(self)@ }),
    {
        self.latest = self.latest + 1;
        self.latest
    }

    /// Gives a target the next revision.
    pub fn mark_changed(&mut self, key: &TargetKey) -> (revision: u64)
        requires
            old(self).wf(),
            old(self)@.latest < u64::MAX,
        ensures
            final(self).wf(),
            revision == old(self)@.latest + 1,
            final(self)@ == old(self)@.marked(key.parts()),
    {
        let revision: u64 = self.bump_revision();
        self.by_target.insert(key.duplicate(), revision);
        assert(self@ =~= old(self)@.marked(key.parts()));
        revision
    }

    /// The revision of a target, zero if it never changed.
    pub fn revision_for_track(&self, room: &str, identity: &str, track_sid: &str) -> (revision: u64)
        requires
            self.wf(),
        ensures
            revision == self@.of_target(seq![room@, identity@, track_sid@]),
    {
        let key: TargetKey = target(room, identity, track_sid);
        match self.by_target.get(&key) {
            Some(revision) => *revision,
            None => 0,
        }
    }
}

/// The key of a target.
pub fn target(room: &str, identity: &str, track_sid: &str) -> (key: TargetKey)
    ensures
        key.parts() == seq![room@, identity@, track_sid@],
{
    (room.to_owned(), identity.to_owned(), track_sid.to_owned())
}

/// What changed for a target, and its revision.
#[verifier::ext_equal]
pub struct ChangeView {
    pub room: Seq<char>,
    pub subscriber_identity: Seq<char>,
    pub track_sid: Seq<char>,
    pub revision: u64,
}

/// The change of a target.
pub open spec fn change_of(key: Seq<Seq<char>>, revision: u64) -> ChangeView {
    ChangeView { room: key[0], subscriber_identity: key[1], track_sid: key[2], revision }
}

/// A target that changes gets a greater revision than it had, and no other target is affected.
pub proof fn law_change_advances_one_target(
    revisions: RevisionsView,
    key: Seq<Seq<char>>,
    other: Seq<Seq<char>>,
)
    requires
        revisions.wf(),
        revisions.latest < u64::MAX,
        other != key,
    ensures
        revisions.marked(key).wf(),
        revisions.marked(key).of_target(key) > revisions.of_target(key),
        revisions.marked(key).of_target(other) == revisions.of_target(other),
{
}

/// The keys are the targets of a subscriber in a map, each once.
pub open spec fn lists_targets<V>(
    keys: Seq<Seq<Seq<char>>>,
    map: Map<Seq<Seq<char>>, V>,
    room: Seq<char>,
    identity: Seq<char>,
) -> bool {
    &&& keys.no_duplicates()
    &&& forall|key: Seq<Seq<char>>| #[trigger]
        keys.contains(key) <==> map.contains_key(key) && key[0] == room && key[1] == identity
}

/// The targets of a subscriber in a map, each once, in no particular order.
pub fn targets_of<V: View>(map: &KeyedMap<TargetKey, V>, room: &str, identity: &str) -> (keys: Vec<
    TargetKey,
>)
    requires
        map.wf(),
    ensures
        lists_targets(
            keys@.map_values(|key: TargetKey| key.parts()),
            map@,
            room@,
            identity@,
        ),
        keys@.len() <= map.entries@.len(),
{
    let room: String = room.to_owned();
    let identity: String = identity.to_owned();
    let mut keys: Vec<TargetKey> = Vec::new();
    let ghost entries = map.entries@;
    let ghost mut places = Seq::<int>::empty();
    let mut i: usize = 0;
    while i < map.entries.len()
        invariant
            map.wf(),
            entries == map.entries@,
            i <= entries.len(),
            places.len() == keys@.len() <= i,
            forall|j: int|
                0 <= j < places.len() ==> 0 <= #[trigger] places[j] < i
                    && entries[places[j]].0.parts() == keys@[j].parts()
                    && keys@[j].parts()[0] == room@ && keys@[j].parts()[1] == identity@,
            forall|j: int, k: int|
                0 <= j < k < places.len() ==> #[trigger] places[j] < #[trigger] places[k],
            forall|k: int|
                0 <= k < i && (#[trigger] entries[k]).0.parts()[0] == room@
                    && entries[k].0.parts()[1] == identity@ ==> places.contains(k),
        decreases map.entries.len() - i,
    {
        let key: &TargetKey = &map.entries[i].0;
        let ghost old_places = places;
        if key.0 == room && key.1 == identity {
            let copy: TargetKey = key.duplicate();
            assert(copy.parts() == entries[i as int].0.parts());
            assert(copy.parts()[0] == room@ && copy.parts()[1] == identity@) by {
                assert(key.parts()[0] == key.0@ && key.parts()[1] == key.1@);
            }
            keys.push(copy);
            proof {
                places = places.push(i as int);
                assert(places[places.len() - 1] == i as int);
                assert forall|k: int| old_places.contains(k) implies places.contains(k) by {
                    let j = choose|j: int| 0 <= j < old_places.len() && old_places[j] == k;
                    assert(places[j] == k);
                }
            }
        }
        i += 1;
    }
    proof {
        let parts = keys@.map_values(|key: TargetKey| key.parts());
        assert forall|j: int, k: int|
            0 <= j < parts.len() && 0 <= k < parts.len() && j != k implies parts[j]
            != parts[k] by {
            if j < k {
                assert(places[j] < places[k]);
                assert(entries[places[j]].0.parts() != entries[places[k]].0.parts());
            } else {
                assert(places[k] < places[j]);
                assert(entries[places[k]].0.parts() != entries[places[j]].0.parts());
            }
        }
        assert forall|key: Seq<Seq<char>>| #[trigger]
            parts.contains(key) <==> map@.contains_key(key) && key[0] == room@
                && key[1] == identity@ by {
            if parts.contains(key) {
                let j = choose|j: int| 0 <= j < parts.len() && parts[j] == key;
                crate::keyed_map::lemma_place(entries, places[j]);
            }
            if map@.contains_key(key) && key[0] == room@ && key[1] == identity@ {
                let k = choose|k: int| crate::keyed_map::keyed_at(entries, key, k);
                assert(entries[k].0.parts() == key);
                assert(places.contains(k));
                let j = choose|j: int| 0 <= j < places.len() && places[j] == k;
                assert(parts[j] == key);
            }
        }
    }
    keys
}

/// A target that changes gets the next revision, and one that never changed has revision zero.
pub proof fn law_change_gets_the_next_revision(revisions: RevisionsView, key: Seq<Seq<char>>)
    requires
        revisions.latest < u64::MAX,
    ensures
        revisions.marked(key).latest == revisions.latest + 1,
        revisions.marked(key).of_target(key) == revisions.latest + 1,
        RevisionsView::fresh().of_target(key) == 0,
        RevisionsView::fresh().latest == 0,
        change_of(key, revisions.latest).revision == revisions.latest,
        change_of(key, revisions.latest).room == key[0],
        change_of(key, revisions.latest).subscriber_identity == key[1],
        change_of(key, revisions.latest).track_sid == key[2],
{
}

} // verus!
