//! What the allocator wants subscribers to receive of tracks.
use crate::keyed_map::{KeyedMap, StoreKey};
use crate::protocol::VideoQuality;
use crate::revisions::{target, targets_of, ChangeView, RevisionsView, TargetKey, TargetRevisions};
use vstd::prelude::*;

verus! {

/// The highest temporal layer.
pub const MAX_TEMPORAL_LAYER: u8 = 2;

/// A change of what the allocator wants for a target.
#[derive(Debug, Clone, PartialEq, Eq)]
pub struct EffectiveTrackAllocationChange {
    pub room: String,
    pub subscriber_identity: String,
    pub track_sid: String,
    pub revision: u64,
}

impl View for EffectiveTrackAllocationChange {
    type V = ChangeView;

    open spec fn view(&self) -> ChangeView {
        ChangeView {
            room: self.room@,
            subscriber_identity: self.subscriber_identity@,
            track_sid: self.track_sid@,
            revision: self.revision,
        }
    }
}

/// The contents of the changes.
pub open spec fn change_views(changes: Seq<EffectiveTrackAllocationChange>) -> Seq<ChangeView> {
    changes.map_values(|change: EffectiveTrackAllocationChange| change@)
}

/// The wanted qualities and temporal layers, and the changes that nobody was told yet.
#[derive(Debug)]
pub struct TrackAllocationStore {
    pub desired_quality: KeyedMap<TargetKey, VideoQuality>,
    pub desired_temporal_layer: KeyedMap<TargetKey, u8>,
    pub revisions: TargetRevisions,
    pub effective_changes: Vec<EffectiveTrackAllocationChange>,
}

/// The contents of a [`TrackAllocationStore`].
#[verifier::ext_equal]
pub struct AllocationView {
    pub quality: Map<Seq<Seq<char>>, VideoQuality>,
    pub temporal_layer: Map<Seq<Seq<char>>, u8>,
    pub revisions: RevisionsView,
    pub changes: Seq<ChangeView>,
}

impl View for TrackAllocationStore {
    type V = AllocationView;

    open spec fn view(&self) -> AllocationView {
        AllocationView {
            quality: self.desired_quality@,
            temporal_layer: self.desired_temporal_layer@,
            revisions: self.revisions@,
            changes: change_views(self.effective_changes@),
        }
    }
}

/// The value of a key.
pub open spec fn value_of<V>(map: Map<Seq<Seq<char>>, V>, key: Seq<Seq<char>>) -> Option<V> {
    if map.contains_key(key) {
        Some(map[key])
    } else {
        None
    }
}

/// The map with a value for a key, or without the key.
pub open spec fn with_value<V>(
    map: Map<Seq<Seq<char>>, V>,
    key: Seq<Seq<char>>,
    value: Option<V>,
) -> Map<Seq<Seq<char>>, V> {
    match value {
        Some(value) => map.insert(key, value),
        None => map.remove(key),
    }
}

impl AllocationView {
    /// Nothing is wanted.
    pub open spec fn fresh() -> Self {
        AllocationView {
            quality: Map::empty(),
            temporal_layer: Map::empty(),
            revisions: RevisionsView::fresh(),
            changes: Seq::empty(),
        }
    }

    /// The store after a target changed.
    pub open spec fn marked(self, key: Seq<Seq<char>>) -> Self {
        AllocationView {
            revisions: self.revisions.marked(key),
            changes: self.changes.push(
                crate::revisions::change_of(key, (self.revisions.latest + 1) as u64),
            ),
            ..self
        }
    }

    /// The store with a wanted quality, or without one. What is so already changes nothing.
    pub open spec fn with_quality(
        self,
        key: Seq<Seq<char>>,
        quality: Option<VideoQuality>,
    ) -> Self {
        if value_of(self.quality, key) == quality {
            self
        } else {
            AllocationView {
                quality: with_value(self.quality, key, quality),
                ..self.marked(key)
            }
        }
    }

    /// The temporal layer is another one than is wanted already, and not above the highest.
    pub open spec fn changes_temporal_layer(self, key: Seq<Seq<char>>, layer: Option<u8>) -> bool {
        !(layer is Some && layer->0 > MAX_TEMPORAL_LAYER) && value_of(self.temporal_layer, key)
            != layer
    }

    /// The store with a wanted temporal layer, or without one. A layer above the highest is
    /// ignored, and what is so already changes nothing.
    pub open spec fn with_temporal_layer(self, key: Seq<Seq<char>>, layer: Option<u8>) -> Self {
        if self.changes_temporal_layer(key, layer) {
            AllocationView {
                temporal_layer: with_value(self.temporal_layer, key, layer),
                ..self.marked(key)
            }
        } else {
            self
        }
    }

    /// How many things are wanted of a target.
    pub open spec fn wanted_of(self, key: Seq<Seq<char>>) -> int {
        (if self.quality.contains_key(key) {
            1int
        } else {
            0
        }) + (if self.temporal_layer.contains_key(key) {
            1int
        } else {
            0
        })
    }

    /// The store without the qualities of targets, one after the other.
    pub open spec fn without_qualities(self, keys: Seq<Seq<Seq<char>>>) -> Self
        decreases keys.len(),
    {
        if keys.len() == 0 {
            self
        } else {
            self.without_qualities(keys.drop_last()).with_quality(keys.last(), None)
        }
    }
}

impl Default for TrackAllocationStore {
    fn default() -> (store: Self)
        ensures
            store.wf(),
            store@ == AllocationView::fresh(),
    {
        let store = TrackAllocationStore {
            desired_quality: KeyedMap::new(),
            desired_temporal_layer: KeyedMap::new(),
            revisions: TargetRevisions::default(),
            effective_changes: Vec::new(),
        };
        assert(store@ =~= AllocationView::fresh());
        store
    }
}

impl TrackAllocationStore {
    /// The parts are well formed.
    pub open spec fn wf(self) -> bool {
        self.desired_quality.wf() && self.desired_temporal_layer.wf() && self.revisions.wf()
    }

    fn notify_effective_change(&mut self, key: &TargetKey, revision: u64)
        requires
            old(self).wf(),
        ensures
            final(self).wf(),
            final(self)@ == (AllocationView {
                changes: old(self)@.changes.push(
                    crate::revisions::change_of(key.parts(), revision),
                ),
                ..old(self)@
            }),
    {
        self.effective_changes.push(
            EffectiveTrackAllocationChange {
                room: key.0.clone(),
                subscriber_identity: key.1.clone(),
                track_sid: key.2.clone(),
                revision,
            },
        );
        assert(change_views(self.effective_changes@) =~= old(self)@.changes.push(
            crate::revisions::change_of(key.parts(), revision),
        ));
    }

    fn mark_changed(&mut self, key: &TargetKey)
        requires
            old(self).wf(),
            old(self)@.revisions.latest < u64::MAX,
        ensures
            final(self).wf(),
            final(self)@ == old(self)@.marked(key.parts()),
    {
        let revision: u64 = self.revisions.mark_changed(key);
        self.notify_effective_change(key, revision);
    }

    /// Hands out the changes that nobody was told yet.
    pub fn take_effective_changes(&mut self) -> (changes: Vec<EffectiveTrackAllocationChange>)
        requires
            old(self).wf(),
        ensures
            final(self).wf(),
            change_views(changes@) == old(self)@.changes,
            final(self)@ == (AllocationView { changes: Seq::empty(), ..old(self)@ }),
    {
        let mut changes: Vec<EffectiveTrackAllocationChange> = Vec::new();
        std::mem::swap(&mut changes, &mut self.effective_changes);
        assert(change_views(self.effective_changes@) =~= Seq::empty());
        changes
    }

    /// The latest revision.
    pub fn revision(&self) -> (revision: u64)
        ensures
            revision == self@.revisions.latest,
    {
        self.revisions.latest
    }

    /// The revision of one target.
    pub fn revision_for_track(&self, room: &str, identity: &str, track_sid: &str) -> (revision: u64)
        requires
            self.wf(),
        ensures
            revision == self@.revisions.of_target(seq![room@, identity@, track_sid@]),
    {
        self.revisions.revision_for_track(room, identity, track_sid)
    }

    /// The wanted quality of one target.
    pub fn get_desired_quality_for_track(
        &self,
        room: &str,
        identity: &str,
        track_sid: &str,
    ) -> (quality: Option<VideoQuality>)
        requires
            self.wf(),
        ensures
            quality == value_of(self@.quality, seq![room@, identity@, track_sid@]),
    {
        let key: TargetKey = target(room, identity, track_sid);
        match self.desired_quality.get(&key) {
            Some(quality) => Some(*quality),
            None => None,
        }
    }

    /// The wanted temporal layer of one target, from the base layer 0 to the highest layer 2.
    pub fn get_desired_temporal_layer_for_track(
        &self,
        room: &str,
        identity: &str,
        track_sid: &str,
    ) -> (layer: Option<u8>)
        requires
            self.wf(),
        ensures
            layer == value_of(self@.temporal_layer, seq![room@, identity@, track_sid@]),
    {
        let key: TargetKey = target(room, identity, track_sid);
        match self.desired_temporal_layer.get(&key) {
            Some(layer) => Some(*layer),
            None => None,
        }
    }

    /// Sets or clears the wanted quality of one target.
    pub fn set_desired_quality_for_track(
        &mut self,
        room: &str,
        identity: &str,
        track_sid: &str,
        desired_quality: Option<VideoQuality>,
    )
        requires
            old(self).wf(),
            value_of(old(self)@.quality, seq![room@, identity@, track_sid@]) != desired_quality
                ==> old(self)@.revisions.latest < u64::MAX,
        ensures
            final(self).wf(),
            final(self)@ == old(self)@.with_quality(
                seq![room@, identity@, track_sid@],
                desired_quality,
            ),
    {
        let key: TargetKey = target(room, identity, track_sid);
        let changed: bool = match desired_quality {
            Some(desired_quality) => {
                let current: Option<VideoQuality> = self.get_desired_quality_for_track(
                    room,
                    identity,
                    track_sid,
                );
                let same: bool = match current {
                    Some(current) => current == desired_quality,
                    None => false,
                };
                if !same {
                    self.desired_quality.insert(key.duplicate(), desired_quality);
                }
                !same
            },
            None => self.desired_quality.remove(&key),
        };
        if changed {
            self.mark_changed(&key);
        }
        assert(self@ =~= old(self)@.with_quality(key.parts(), desired_quality));
    }

    /// Sets or clears the wanted temporal layer of one target. A layer above the highest is
    /// ignored: what was wanted before stays.
    pub fn set_desired_temporal_layer_for_track(
        &mut self,
        room: &str,
        identity: &str,
        track_sid: &str,
        desired_temporal_layer: Option<u8>,
    )
        requires
            old(self).wf(),
            old(self)@.changes_temporal_layer(
                seq![room@, identity@, track_sid@],
                desired_temporal_layer,
            ) ==> old(self)@.revisions.latest < u64::MAX,
        ensures
            final(self).wf(),
            final(self)@ == old(self)@.with_temporal_layer(
                seq![room@, identity@, track_sid@],
                desired_temporal_layer,
            ),
    {
        if let Some(layer) = desired_temporal_layer {
            if layer > MAX_TEMPORAL_LAYER {
                return ;
            }
        }
        let key: TargetKey = target(room, identity, track_sid);
        let changed: bool = match desired_temporal_layer {
            Some(layer) => {
                let same: bool = match self.get_desired_temporal_layer_for_track(
                    room,
                    identity,
                    track_sid,
                ) {
                    Some(current) => current == layer,
                    None => false,
                };
                if !same {
                    self.desired_temporal_layer.insert(key.duplicate(), layer);
                }
                !same
            },
            None => self.desired_temporal_layer.remove(&key),
        };
        if changed {
            self.mark_changed(&key);
        }
        assert(self@ =~= old(self)@.with_temporal_layer(key.parts(), desired_temporal_layer));
    }

    /// Clears what is wanted of one target.
    pub fn remove_for_track(&mut self, room: &str, identity: &str, track_sid: &str)
        requires
            old(self).wf(),
            old(self)@.revisions.latest + old(self)@.wanted_of(
                seq![room@, identity@, track_sid@],
            ) <= u64::MAX,
        ensures
            final(self).wf(),
            final(self)@ == old(self)@.with_quality(
                seq![room@, identity@, track_sid@],
                None,
            ).with_temporal_layer(seq![room@, identity@, track_sid@], None),
    {
        self.set_desired_quality_for_track(room, identity, track_sid, None);
        self.set_desired_temporal_layer_for_track(room, identity, track_sid, None);
    }

    /// Clears the wanted qualities of a subscriber, in no particular order.
    pub fn remove_for_participant(&mut self, room: &str, identity: &str)
        requires
            old(self).wf(),
            old(self)@.revisions.latest + old(self).desired_quality.entries@.len() <= u64::MAX,
        ensures
            final(self).wf(),
            exists|keys: Seq<Seq<Seq<char>>>| #[trigger]
                crate::revisions::lists_targets(keys, old(self)@.quality, room@, identity@)
                    && final(self)@ == old(self)@.without_qualities(keys),
    {
        let ghost before = self@;
        let keys: Vec<TargetKey> = targets_of(&self.desired_quality, room, identity);
        let ghost parts = keys@.map_values(|key: TargetKey| key.parts());
        let mut i: usize = 0;
        assert(parts.take(0) =~= Seq::empty());
        while i < keys.len()
            invariant
                self.wf(),
                i <= keys@.len(),
                parts == keys@.map_values(|key: TargetKey| key.parts()),
                crate::revisions::lists_targets(parts, before.quality, room@, identity@),
                self@ == before.without_qualities(parts.take(i as int)),
                self@.revisions.latest <= before.revisions.latest + i,
                before.revisions.latest + keys@.len() <= u64::MAX,
            decreases keys.len() - i,
        {
            assert(keys@[i as int].parts() =~= seq![room@, identity@, keys@[i as int].2@]) by {
                assert(parts.contains(parts[i as int]));
            }
            self.set_desired_quality_for_track(room, identity, keys[i].2.as_str(), None);
            i += 1;
            proof {
                assert(parts.take(i as int).drop_last() =~= parts.take(i - 1));
            }
        }
        assert(parts.take(i as int) =~= parts);
    }
}

/// What was set for a target is read back, and other targets keep what they had. A layer above the
/// highest leaves everything as it was.
pub proof fn law_wanted_values_are_read_back(
    store: AllocationView,
    key: Seq<Seq<char>>,
    other: Seq<Seq<char>>,
    quality: Option<VideoQuality>,
    layer: Option<u8>,
)
    requires
        other != key,
    ensures
        value_of(store.with_quality(key, quality).quality, key) == quality,
        value_of(store.with_quality(key, quality).quality, other) == value_of(store.quality, other),
        layer is None || layer->0 <= MAX_TEMPORAL_LAYER ==> value_of(
            store.with_temporal_layer(key, layer).temporal_layer,
            key,
        ) == layer,
        layer is Some && layer->0 > MAX_TEMPORAL_LAYER ==> store.with_temporal_layer(key, layer)
            == store,
        value_of(store.with_temporal_layer(key, layer).temporal_layer, other) == value_of(
            store.temporal_layer,
            other,
        ),
{
}

/// A value that is set again changes nothing, and one that differs is told with a greater
/// revision.
pub proof fn law_only_changes_are_told(
    store: AllocationView,
    key: Seq<Seq<char>>,
    quality: Option<VideoQuality>,
)
    requires
        store.revisions.wf(),
        store.revisions.latest < u64::MAX,
    ensures
        store.with_quality(key, quality).with_quality(key, quality) == store.with_quality(
            key,
            quality,
        ),
        value_of(store.quality, key) != quality ==> {
            let after = store.with_quality(key, quality);
            &&& after.changes.len() == store.changes.len() + 1
            &&& after.changes.last().revision > store.revisions.of_target(key)
            &&& after.changes.last().revision == after.revisions.of_target(key)
        },
{
}

/// A quality that differs replaces the one of its target, and is told with the next revision of the
/// target; the temporal layers stay.
pub proof fn law_quality_change_is_told(
    store: AllocationView,
    key: Seq<Seq<char>>,
    quality: Option<VideoQuality>,
)
    requires
        store.revisions.latest < u64::MAX,
        key.len() == 3,
    ensures
        ({
            let after = store.with_quality(key, quality);
            let had = if store.quality.contains_key(key) {
                Some(store.quality[key])
            } else {
                None
            };
            &&& after.temporal_layer == store.temporal_layer
            &&& had == quality ==> after == store
            &&& had != quality ==> {
                &&& after.revisions.latest == store.revisions.latest + 1
                &&& after.changes.drop_last() == store.changes
                &&& after.changes.last().room == key[0]
                &&& after.changes.last().subscriber_identity == key[1]
                &&& after.changes.last().track_sid == key[2]
                &&& after.changes.last().revision == store.revisions.latest + 1
            }
            &&& quality is None ==> !after.quality.contains_key(key)
            &&& quality matches Some(wanted) ==> after.quality.contains_key(key)
                && after.quality[key] == wanted
        }),
{
    assert(store.marked(key).changes.drop_last() =~= store.changes);
}

/// A temporal layer that differs, and is not above the second, replaces the one of its target and
/// is told; the qualities stay.
pub proof fn law_temporal_layer_change_is_told(
    store: AllocationView,
    key: Seq<Seq<char>>,
    layer: Option<u8>,
)
    requires
        store.revisions.latest < u64::MAX,
    ensures
        ({
            let after = store.with_temporal_layer(key, layer);
            let had = if store.temporal_layer.contains_key(key) {
                Some(store.temporal_layer[key])
            } else {
                None
            };
            let refused = layer matches Some(wanted) && wanted > 2;
            &&& after.quality == store.quality
            &&& had == layer || refused ==> after == store
            &&& had != layer && !refused ==> after.revisions.latest == store.revisions.latest + 1
                && after.changes.len() == store.changes.len() + 1
                && after.changes.last().revision == store.revisions.latest + 1
            &&& layer is None ==> !after.temporal_layer.contains_key(key)
            &&& layer matches Some(wanted) ==> (wanted <= 2 ==> after.temporal_layer.contains_key(
                key,
            ) && after.temporal_layer[key] == wanted)
        }),
{
}

/// Taking the qualities of targets away leaves those of all others, and the temporal layers.
pub proof fn law_only_named_qualities_are_taken(
    store: AllocationView,
    keys: Seq<Seq<Seq<char>>>,
    key: Seq<Seq<char>>,
)
    ensures
        keys.contains(key) ==> !store.without_qualities(keys).quality.contains_key(key),
        !keys.contains(key) ==> store.without_qualities(keys).quality.contains_key(key)
            == store.quality.contains_key(key),
        !keys.contains(key) && store.quality.contains_key(key) ==> store.without_qualities(
            keys,
        ).quality[key] == store.quality[key],
        store.without_qualities(keys).temporal_layer == store.temporal_layer,
    decreases keys.len(),
{
    if keys.len() > 0 {
        let front = keys.drop_last();
        law_only_named_qualities_are_taken(store, front, key);
        if keys.contains(key) && key != keys.last() {
            let i = choose|i: int| 0 <= i < keys.len() && keys[i] == key;
            assert(front[i] == key);
        }
        if front.contains(key) {
            let i = choose|i: int| 0 <= i < front.len() && front[i] == key;
            assert(keys[i] == key);
        }
        assert(keys[keys.len() - 1] == keys.last());
    }
}

} // verus!
