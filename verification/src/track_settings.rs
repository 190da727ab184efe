//! What subscribers want of the tracks that they receive.
use crate::keyed_map::{KeyedMap, StoreKey};
use crate::protocol::{SettingView, UpdateTrackSettings};
use crate::revisions::{target, targets_of, ChangeView, RevisionsView, TargetKey, TargetRevisions};
use vstd::prelude::*;

pub mod quality_updates;

verus! {

/// A change of the settings that are in effect for a target.
#[derive(Debug, Clone, PartialEq, Eq)]
pub struct EffectiveTrackSettingsChange {
    pub room: String,
    pub subscriber_identity: String,
    pub track_sid: String,
    pub revision: u64,
}

impl View for EffectiveTrackSettingsChange {
    type V = ChangeView;

    open spec fn view(&self) -> ChangeView {
        ChangeView {
            room: self.room@,
            subscriber_identity: self.subscriber_identity@,
            track_sid: self.track_sid@,
            revision: self.revision,
        }
    }
}

/// The contents of the changes.
pub open spec fn change_views(changes: Seq<EffectiveTrackSettingsChange>) -> Seq<ChangeView> {
    changes.map_values(|change: EffectiveTrackSettingsChange| change@)
}

/// Settings that wait, and the generation to apply them by.
#[derive(Debug)]
pub struct PendingSettings {
    pub generation: u64,
    pub setting: UpdateTrackSettings,
}

/// The contents of [`PendingSettings`].
#[verifier::ext_equal]
pub struct PendingView {
    pub generation: u64,
    pub setting: SettingView,
}

impl View for PendingSettings {
    type V = PendingView;

    open spec fn view(&self) -> PendingView {
        PendingView { generation: self.generation, setting: self.setting@ }
    }
}

/// The settings in effect, the settings that wait, and the changes that nobody was told yet.
#[derive(Debug)]
pub struct TrackSettingsStore {
    pub settings: KeyedMap<TargetKey, UpdateTrackSettings>,
    pub revisions: TargetRevisions,
    pub pending: KeyedMap<TargetKey, PendingSettings>,
    pub next_pending_generation: u64,
    pub effective_changes: Vec<EffectiveTrackSettingsChange>,
}

/// The contents of a [`TrackSettingsStore`].
#[verifier::ext_equal]
pub struct StoreView {
    pub settings: Map<Seq<Seq<char>>, SettingView>,
    pub revisions: RevisionsView,
    pub pending: Map<Seq<Seq<char>>, PendingView>,
    pub generation: u64,
    pub changes: Seq<ChangeView>,
}

impl View for TrackSettingsStore {
    type V = StoreView;

    open spec fn view(&self) -> StoreView {
        StoreView {
            settings: self.settings@,
            revisions: self.revisions@,
            pending: self.pending@,
            generation: self.next_pending_generation,
            changes: change_views(self.effective_changes@),
        }
    }
}

/// The settings for one track of a request.
pub open spec fn for_track(request: SettingView, track_sid: Seq<char>) -> SettingView {
    SettingView { track_sids: seq![track_sid], ..request }
}

/// The setting is for the track of the target alone.
pub open spec fn is_for_target(setting: SettingView, key: Seq<Seq<char>>) -> bool {
    key.len() == 3 && setting.track_sids == seq![key[2]]
}

/// Settings are for the tracks of their targets.
pub open spec fn are_for_targets(settings: Map<Seq<Seq<char>>, SettingView>) -> bool {
    forall|key: Seq<Seq<char>>| #[trigger]
        settings.contains_key(key) ==> is_for_target(settings[key], key)
}

/// Settings that wait are for the tracks of their targets.
pub open spec fn wait_for_targets(pending: Map<Seq<Seq<char>>, PendingView>) -> bool {
    forall|key: Seq<Seq<char>>| #[trigger]
        pending.contains_key(key) ==> is_for_target(pending[key].setting, key)
}

/// What a request brings: the tracks whose settings are in effect at once, and those whose
/// settings wait, with the generation to apply them by.
#[verifier::ext_equal]
pub struct Schedule {
    pub store: StoreView,
    pub immediate: Seq<Seq<char>>,
    pub deferred: Seq<(Seq<char>, u64)>,
}

impl StoreView {
    /// No settings.
    pub open spec fn fresh() -> Self {
        StoreView {
            settings: Map::empty(),
            revisions: RevisionsView::fresh(),
            pending: Map::empty(),
            generation: 0,
            changes: Seq::empty(),
        }
    }

    /// The settings of a target, in effect or waiting, are for its track alone.
    pub open spec fn wf(self) -> bool {
        &&& self.revisions.wf()
        &&& are_for_targets(self.settings)
        &&& wait_for_targets(self.pending)
    }

    /// The store after a target changed.
    pub open spec fn marked(self, key: Seq<Seq<char>>) -> Self {
        StoreView {
            revisions: self.revisions.marked(key),
            changes: self.changes.push(
                crate::revisions::change_of(key, (self.revisions.latest + 1) as u64),
            ),
            ..self
        }
    }

    /// The store after targets changed, one after the other.
    pub open spec fn marked_all(self, keys: Seq<Seq<Seq<char>>>) -> Self
        decreases keys.len(),
    {
        if keys.len() == 0 {
            self
        } else {
            self.marked_all(keys.drop_last()).marked(keys.last())
        }
    }

    /// The setting is in effect.
    pub open spec fn has_setting(self, key: Seq<Seq<char>>, setting: SettingView) -> bool {
        self.settings.contains_key(key) && self.settings[key] == setting
    }

    /// The store with a setting in effect. A setting that is in effect changes nothing.
    pub open spec fn with_setting(self, key: Seq<Seq<char>>, setting: SettingView) -> Self {
        if self.has_setting(key, setting) {
            self
        } else {
            StoreView {
                settings: self.settings.insert(key, setting),
                ..self.marked(key)
            }
        }
    }

    /// The store with the settings of a request in effect for the tracks.
    pub open spec fn upserted(
        self,
        room: Seq<char>,
        identity: Seq<char>,
        request: SettingView,
        track_sids: Seq<Seq<char>>,
    ) -> Self
        decreases track_sids.len(),
    {
        if track_sids.len() == 0 {
            self
        } else {
            self.upserted(room, identity, request, track_sids.drop_last()).with_setting(
                seq![room, identity, track_sids.last()],
                for_track(request, track_sids.last()),
            )
        }
    }

    /// Nothing waits for the target.
    pub open spec fn without_pending(self, key: Seq<Seq<char>>) -> Self {
        StoreView { pending: self.pending.remove(key), ..self }
    }

    /// The settings of the target that wait are those of the generation.
    pub open spec fn waits(self, key: Seq<Seq<char>>, generation: u64) -> bool {
        self.pending.contains_key(key) && self.pending[key].generation == generation
    }

    /// The store after the settings of a generation were applied, if they still wait.
    pub open spec fn applied(self, key: Seq<Seq<char>>, generation: u64) -> Self {
        if self.waits(key, generation) {
            self.without_pending(key).with_setting(key, self.pending[key].setting)
        } else {
            self
        }
    }

    /// The store without the settings of a target.
    pub open spec fn removed(self, key: Seq<Seq<char>>) -> Self {
        if self.settings.contains_key(key) {
            StoreView {
                settings: self.settings.remove(key),
                ..self.without_pending(key).marked(key)
            }
        } else {
            self.without_pending(key)
        }
    }

    /// The store without the settings of a subscriber. No target is marked yet.
    pub open spec fn without_participant(self, room: Seq<char>, identity: Seq<char>) -> Self {
        let keep = |key: Seq<Seq<char>>| key[0] != room || key[1] != identity;
        StoreView {
            settings: crate::keyed_map::kept(self.settings, keep),
            pending: crate::keyed_map::kept(self.pending, keep),
            ..self
        }
    }
}

impl Schedule {
    /// The schedule after one more track of the request: settings that are in effect need nothing,
    /// a disabled track that is enabled is enabled at once, and all else waits.
    pub open spec fn with_track(
        self,
        room: Seq<char>,
        identity: Seq<char>,
        request: SettingView,
        track_sid: Seq<char>,
    ) -> Self {
        let key = seq![room, identity, track_sid];
        let setting = for_track(request, track_sid);
        if self.store.has_setting(key, setting) {
            Schedule { store: self.store.without_pending(key), ..self }
        } else if self.store.settings.contains_key(key) && self.store.settings[key].disabled
            && !setting.disabled {
            Schedule {
                store: self.store.with_setting(key, setting).without_pending(key),
                immediate: self.immediate.push(track_sid),
                ..self
            }
        } else {
            let generation = (self.store.generation + 1) as u64;
            Schedule {
                store: StoreView {
                    pending: self.store.pending.insert(
                        key,
                        PendingView { generation, setting },
                    ),
                    generation,
                    ..self.store
                },
                deferred: self.deferred.push((track_sid, generation)),
                ..self
            }
        }
    }
}

/// The schedule of the tracks of a request.
pub open spec fn scheduled(
    store: StoreView,
    room: Seq<char>,
    identity: Seq<char>,
    request: SettingView,
    track_sids: Seq<Seq<char>>,
) -> Schedule
    decreases track_sids.len(),
{
    if track_sids.len() == 0 {
        Schedule { store, immediate: Seq::empty(), deferred: Seq::empty() }
    } else {
        scheduled(store, room, identity, request, track_sids.drop_last()).with_track(
            room,
            identity,
            request,
            track_sids.last(),
        )
    }
}

/// The settings of each subscriber of a track.
pub open spec fn settings_of_track(
    settings: Map<Seq<Seq<char>>, SettingView>,
    room: Seq<char>,
    track_sid: Seq<char>,
) -> Map<Seq<char>, SettingView> {
    Map::new(
        |identity: Seq<char>| settings.contains_key(seq![room, identity, track_sid]),
        |identity: Seq<char>| settings[seq![room, identity, track_sid]],
    )
}

/// The contents of a list of settings of subscribers.
pub open spec fn subscriber_settings(list: Seq<(String, UpdateTrackSettings)>) -> Seq<
    (Seq<char>, SettingView),
> {
    list.map_values(|entry: (String, UpdateTrackSettings)| (entry.0@, entry.1@))
}

/// The list holds every entry of the map once, in some order.
pub open spec fn lists_entries(
    list: Seq<(Seq<char>, SettingView)>,
    map: Map<Seq<char>, SettingView>,
) -> bool {
    &&& forall|i: int, j: int| 0 <= i < j < list.len() ==> (#[trigger] list[i]).0 != (
        #[trigger] list[j]).0
    &&& forall|i: int|
        0 <= i < list.len() ==> map.contains_key((#[trigger] list[i]).0) && map[list[i].0]
            == list[i].1
    &&& forall|key: Seq<char>| #[trigger]
        map.contains_key(key) ==> exists|i: int| 0 <= i < list.len() && (#[trigger] list[i]).0 == key
}

impl Default for TrackSettingsStore {
    fn default() -> (store: Self)
        ensures
            store.wf(),
            store@ == StoreView::fresh(),
    {
        let store = TrackSettingsStore {
            settings: KeyedMap::new(),
            revisions: TargetRevisions::default(),
            pending: KeyedMap::new(),
            next_pending_generation: 0,
            effective_changes: Vec::new(),
        };
        assert(store@ =~= StoreView::fresh());
        store
    }
}

impl TrackSettingsStore {
    /// The parts are well formed.
    pub open spec fn wf(self) -> bool {
        self.settings.wf() && self.pending.wf() && self.revisions.wf() && self@.wf()
    }

    fn notify_effective_change(&mut self, key: &TargetKey, revision: u64)
        requires
            old(self).wf(),
        ensures
            final(self).wf(),
            final(self)@ == (StoreView {
                changes: old(self)@.changes.push(
                    crate::revisions::change_of(key.parts(), revision),
                ),
                ..old(self)@
            }),
    {
        self.effective_changes.push(
            EffectiveTrackSettingsChange {
                room: key.0.clone(),
                subscriber_identity: key.1.clone(),
                track_sid: key.2.clone(),
                revision,
            },
        );
        assert(change_views(self.effective_changes@) =~= old(self)@.changes.push(
            crate::revisions::change_of(key.parts(), revision),
        ));
    }

    fn mark_changed(&mut self, key: &TargetKey)
        requires
            old(self).wf(),
            old(self)@.revisions.latest < u64::MAX,
        ensures
            final(self).wf(),
            final(self)@ == old(self)@.marked(key.parts()),
    {
        let revision: u64 = self.revisions.mark_changed(key);
        self.notify_effective_change(key, revision);
    }

    /// Hands out the changes that nobody was told yet.
    pub fn take_effective_changes(&mut self) -> (changes: Vec<EffectiveTrackSettingsChange>)
        requires
            old(self).wf(),
        ensures
            final(self).wf(),
            change_views(changes@) == old(self)@.changes,
            final(self)@ == (StoreView { changes: Seq::empty(), ..old(self)@ }),
    {
        let mut changes: Vec<EffectiveTrackSettingsChange> = Vec::new();
        std::mem::swap(&mut changes, &mut self.effective_changes);
        assert(change_views(self.effective_changes@) =~= Seq::empty());
        changes
    }

    /// The latest revision.
    pub fn revision(&self) -> (revision: u64)
        ensures
            revision == self@.revisions.latest,
    {
        self.revisions.latest
    }

    /// The revision of the settings of one subscriber for one track.
    pub fn revision_for_track(&self, room: &str, identity: &str, track_sid: &str) -> (revision: u64)
        requires
            self.wf(),
        ensures
            revision == self@.revisions.of_target(seq![room@, identity@, track_sid@]),
    {
        self.revisions.revision_for_track(room, identity, track_sid)
    }

    fn upsert_one(&mut self, key: &TargetKey, setting: UpdateTrackSettings)
        requires
            old(self).wf(),
            !old(self)@.has_setting(key.parts(), setting@) ==> old(self)@.revisions.latest
                < u64::MAX,
            is_for_target(setting@, key.parts()),
        ensures
            final(self).wf(),
            final(self)@ == old(self)@.with_setting(key.parts(), setting@),
    {
        if let Some(current) = self.settings.get(key) {
            if current.same(&setting) {
                return;
            }
        }
        self.settings.insert(key.duplicate(), setting);
        self.mark_changed(key);
        assert(self@ =~= old(self)@.with_setting(key.parts(), setting@));
    }

    fn setting_for_track(request: &UpdateTrackSettings, track_sid: &String) -> (setting:
        UpdateTrackSettings)
        ensures
            setting@ == for_track(request@, track_sid@),
    {
        let mut setting: UpdateTrackSettings = request.duplicate();
        let mut track_sids: Vec<String> = Vec::new();
        track_sids.push(track_sid.clone());
        setting.track_sids = track_sids;
        assert(setting@.track_sids =~= seq![track_sid@]);
        setting
    }

    /// Queues settings, but enables a disabled track at once. Says which tracks are settled, and
    /// which wait, with the generation to apply them by.
    pub fn schedule_from_request(
        &mut self,
        room: &str,
        identity: &str,
        request: &UpdateTrackSettings,
    ) -> (lists: (Vec<String>, Vec<(String, u64)>))
        requires
            old(self).wf(),
            old(self)@.revisions.latest + request.track_sids@.len() <= u64::MAX,
            old(self)@.generation + request.track_sids@.len() <= u64::MAX,
        ensures
            final(self).wf(),
            ({
                let schedule = scheduled(
                    old(self)@,
                    room@,
                    identity@,
                    request@,
                    request@.track_sids,
                );
                &&& final(self)@ == schedule.store
                &&& crate::text_order::string_views(lists.0@) == schedule.immediate
                &&& lists.1@.map_values(|entry: (String, u64)| (entry.0@, entry.1))
                    == schedule.deferred
            }),
    {
        let ghost before = self@;
        let ghost sids = request@.track_sids;
        let ghost named = |entry: (String, u64)| (entry.0@, entry.1);
        let mut immediate: Vec<String> = Vec::new();
        let mut deferred: Vec<(String, u64)> = Vec::new();
        let mut i: usize = 0;
        assert(crate::text_order::string_views(immediate@) =~= Seq::empty());
        assert(deferred@.map_values(named) =~= Seq::empty());
        assert(sids.take(0) =~= Seq::empty());
        while i < request.track_sids.len()
            invariant
                self.wf(),
                i <= request.track_sids@.len(),
                sids == request@.track_sids,
                named == (|entry: (String, u64)| (entry.0@, entry.1)),
                self@ == scheduled(before, room@, identity@, request@, sids.take(i as int)).store,
                crate::text_order::string_views(immediate@) == scheduled(
                    before,
                    room@,
                    identity@,
                    request@,
                    sids.take(i as int),
                ).immediate,
                deferred@.map_values(named) == scheduled(
                    before,
                    room@,
                    identity@,
                    request@,
                    sids.take(i as int),
                ).deferred,
                self@.revisions.latest <= before.revisions.latest + i,
                self@.generation <= before.generation + i,
                before.revisions.latest + request.track_sids@.len() <= u64::MAX,
                before.generation + request.track_sids@.len() <= u64::MAX,
            decreases request.track_sids.len() - i,
        {
            let ghost so_far = scheduled(before, room@, identity@, request@, sids.take(i as int));
            let ghost track = sids[i as int];
            let track_sid: &String = &request.track_sids[i];
            assert(track == track_sid@);
            let key: TargetKey = target(room, identity, track_sid.as_str());
            let setting: UpdateTrackSettings = Self::setting_for_track(request, track_sid);
            let ghost expected = so_far.with_track(room@, identity@, request@, track);
            let current: Option<&UpdateTrackSettings> = self.settings.get(&key);
            let (is_current, enables): (bool, bool) = match current {
                Some(current) => (current.same(&setting), current.disabled && !setting.disabled),
                None => (false, false),
            };
            if is_current {
                self.pending.remove(&key);
                assert(self@ =~= expected.store);
            } else if enables {
                self.upsert_one(&key, setting);
                self.pending.remove(&key);
                immediate.push(track_sid.clone());
                assert(self@ =~= expected.store);
            } else {
                let generation: u64 = self.next_pending_generation + 1;
                self.next_pending_generation = generation;
                deferred.push((track_sid.clone(), generation));
                self.pending.insert(key, PendingSettings { generation, setting });
                assert(self@ =~= expected.store);
            }
            i += 1;
            proof {
                assert(sids.take(i as int).drop_last() =~= sids.take(i - 1));
                assert(sids.take(i as int).last() == track);
                assert(crate::text_order::string_views(immediate@) =~= expected.immediate);
                assert(deferred@.map_values(named) =~= expected.deferred);
            }
        }
        assert(sids.take(i as int) =~= sids);
        (immediate, deferred)
    }

    /// Applies settings that wait, if they are still those of the generation. Tells whether they
    /// changed anything.
    pub fn apply_pending_for_track(
        &mut self,
        room: &str,
        identity: &str,
        track_sid: &str,
        generation: u64,
    ) -> (changed: bool)
        requires
            old(self).wf(),
            ({
                let key = seq![room@, identity@, track_sid@];
                old(self)@.waits(key, generation) && !old(self)@.has_setting(
                    key,
                    old(self)@.pending[key].setting,
                ) ==> old(self)@.revisions.latest < u64::MAX
            }),
        ensures
            final(self).wf(),
            ({
                let key = seq![room@, identity@, track_sid@];
                &&& final(self)@ == old(self)@.applied(key, generation)
                &&& changed == (old(self)@.waits(key, generation) && !old(self)@.has_setting(
                    key,
                    old(self)@.pending[key].setting,
                ))
            }),
    {
        let key: TargetKey = target(room, identity, track_sid);
        let setting: UpdateTrackSettings = match self.pending.get(&key) {
            Some(candidate) => {
                if candidate.generation != generation {
                    return false;
                }
                candidate.setting.duplicate()
            },
            None => {
                return false;
            },
        };
        self.pending.remove(&key);
        let before: u64 = self.revision_for_track(room, identity, track_sid);
        self.upsert_one(&key, setting);
        self.revision_for_track(room, identity, track_sid) != before
    }

    /// Puts the settings of a request into effect for its tracks.
    pub fn upsert_from_request(
        &mut self,
        room: &str,
        identity: &str,
        request: &UpdateTrackSettings,
    )
        requires
            old(self).wf(),
            old(self)@.revisions.latest + request.track_sids@.len() <= u64::MAX,
        ensures
            final(self).wf(),
            final(self)@ == old(self)@.upserted(
                room@,
                identity@,
                request@,
                request@.track_sids,
            ),
    {
        let ghost before = self@;
        let ghost sids = request@.track_sids;
        let mut i: usize = 0;
        assert(sids.take(0) =~= Seq::empty());
        while i < request.track_sids.len()
            invariant
                self.wf(),
                i <= request.track_sids@.len(),
                sids == request@.track_sids,
                self@ == before.upserted(room@, identity@, request@, sids.take(i as int)),
                self@.revisions.latest <= before.revisions.latest + i,
                before.revisions.latest + request.track_sids@.len() <= u64::MAX,
            decreases request.track_sids.len() - i,
        {
            let track_sid: &String = &request.track_sids[i];
            let key: TargetKey = target(room, identity, track_sid.as_str());
            let setting: UpdateTrackSettings = Self::setting_for_track(request, track_sid);
            self.upsert_one(&key, setting);
            i += 1;
            proof {
                assert(sids.take(i as int).drop_last() =~= sids.take(i - 1));
                assert(sids.take(i as int).last() == track_sid@);
            }
        }
        assert(sids.take(i as int) =~= sids);
    }

    /// Drops the settings of a subscriber for a track, in effect or waiting.
    pub fn remove_for_track(&mut self, room: &str, identity: &str, track_sid: &str)
        requires
            old(self).wf(),
            old(self)@.settings.contains_key(seq![room@, identity@, track_sid@]) ==> old(
                self,
            )@.revisions.latest < u64::MAX,
        ensures
            final(self).wf(),
            final(self)@ == old(self)@.removed(seq![room@, identity@, track_sid@]),
    {
        let key: TargetKey = target(room, identity, track_sid);
        self.pending.remove(&key);
        if self.settings.remove(&key) {
            self.mark_changed(&key);
        }
        assert(self@ =~= old(self)@.removed(key.parts()));
    }

    /// The tracks that a subscriber has settings for, each once, in no particular order.
    pub fn track_sids_for_participant(&self, room: &str, identity: &str) -> (track_sids: Vec<
        String,
    >)
        requires
            self.wf(),
        ensures
            crate::text_order::string_views(track_sids@).no_duplicates(),
            forall|track_sid: Seq<char>| #[trigger]
                crate::text_order::string_views(track_sids@).contains(track_sid)
                    <==> self@.settings.contains_key(seq![room@, identity@, track_sid]),
    {
        let keys: Vec<TargetKey> = targets_of(&self.settings, room, identity);
        let ghost parts = keys@.map_values(|key: TargetKey| key.parts());
        let mut track_sids: Vec<String> = Vec::new();
        let mut i: usize = 0;
        while i < keys.len()
            invariant
                i <= keys@.len(),
                track_sids@.len() == i,
                forall|j: int| 0 <= j < i ==> (#[trigger] track_sids@[j])@ == keys@[j].2@,
            decreases keys.len() - i,
        {
            track_sids.push(keys[i].2.clone());
            i += 1;
        }
        proof {
            let views = crate::text_order::string_views(track_sids@);
            assert forall|j: int| 0 <= j < views.len() implies #[trigger] parts[j] == seq![
                room@,
                identity@,
                views[j],
            ] by {
                assert(parts.contains(parts[j]));
                assert(parts[j] =~= seq![room@, identity@, views[j]]);
            }
            assert forall|j: int, k: int|
                0 <= j < views.len() && 0 <= k < views.len() && j != k implies views[j]
                != views[k] by {
                assert(parts[j] != parts[k]);
            }
            assert forall|track_sid: Seq<char>| #[trigger]
                views.contains(track_sid) <==> self@.settings.contains_key(
                    seq![room@, identity@, track_sid],
                ) by {
                let key = seq![room@, identity@, track_sid];
                if views.contains(track_sid) {
                    let j = choose|j: int| 0 <= j < views.len() && views[j] == track_sid;
                    assert(parts[j] == key);
                    assert(parts.contains(key));
                }
                if self@.settings.contains_key(key) {
                    assert(parts.contains(key));
                    let j = choose|j: int| 0 <= j < parts.len() && parts[j] == key;
                    assert(parts[j][2] == views[j]);
                    assert(views[j] == track_sid);
                }
            }
        }
        track_sids
    }

    /// The settings of a subscriber for a track that are in effect.
    pub fn get_for_track(&self, room: &str, identity: &str, track_sid: &str) -> (setting: Option<
        UpdateTrackSettings,
    >)
        requires
            self.wf(),
        ensures
            match setting {
                Some(setting) => self@.has_setting(seq![room@, identity@, track_sid@], setting@),
                None => !self@.settings.contains_key(seq![room@, identity@, track_sid@]),
            },
    {
        let key: TargetKey = target(room, identity, track_sid);
        match self.settings.get(&key) {
            Some(setting) => Some(setting.duplicate()),
            None => None,
        }
    }

    /// Drops the settings of a subscriber. Targets are marked in no particular order.
    pub fn remove_participant(&mut self, room: &str, identity: &str)
        requires
            old(self).wf(),
            old(self)@.revisions.latest + old(self).settings.entries@.len() <= u64::MAX,
        ensures
            final(self).wf(),
            exists|keys: Seq<Seq<Seq<char>>>| #[trigger]
                crate::revisions::lists_targets(keys, old(self)@.settings, room@, identity@)
                    && final(self)@ == old(self)@.without_participant(room@, identity@).marked_all(keys),
    {
        let ghost before = self@;
        let ghost keep = |key: Seq<Seq<char>>| key[0] != room@ || key[1] != identity@;
        let keys: Vec<TargetKey> = targets_of(&self.settings, room, identity);
        let ghost parts = keys@.map_values(|key: TargetKey| key.parts());
        let room_name: String = room.to_owned();
        let identity_name: String = identity.to_owned();
        let choice = |key: &TargetKey| -> (chosen: bool)
            ensures
                chosen == keep(key.parts()),
            { key.0 != room_name || key.1 != identity_name };
        self.pending.retain(choice, Ghost(keep));
        self.settings.retain(choice, Ghost(keep));
        let ghost cleared = before.without_participant(room@, identity@);
        assert(self@ =~= cleared);
        let mut i: usize = 0;
        assert(parts.take(0) =~= Seq::empty());
        while i < keys.len()
            invariant
                self.wf(),
                i <= keys@.len(),
                parts == keys@.map_values(|key: TargetKey| key.parts()),
                self@ == cleared.marked_all(parts.take(i as int)),
                self@.revisions.latest == before.revisions.latest + i,
                before.revisions.latest + keys@.len() <= u64::MAX,
            decreases keys.len() - i,
        {
            self.mark_changed(&keys[i]);
            i += 1;
            proof {
                assert(parts.take(i as int).drop_last() =~= parts.take(i - 1));
            }
        }
        assert(parts.take(i as int) =~= parts);
        assert(crate::revisions::lists_targets(parts, before.settings, room@, identity@));
    }

    /// The settings of the subscribers of a track, in no particular order.
    pub fn settings_for_track(&self, room: &str, track_sid: &str) -> (list: Vec<
        (String, UpdateTrackSettings),
    >)
        requires
            self.wf(),
        ensures
            lists_entries(
                subscriber_settings(list@),
                settings_of_track(self@.settings, room@, track_sid@),
            ),
    {
        let room: String = room.to_owned();
        let track_sid: String = track_sid.to_owned();
        let mut list: Vec<(String, UpdateTrackSettings)> = Vec::new();
        let ghost entries = self.settings.entries@;
        let ghost mut places = Seq::<int>::empty();
        let mut i: usize = 0;
        while i < self.settings.entries.len()
            invariant
                self.wf(),
                entries == self.settings.entries@,
                i <= entries.len(),
                places.len() == list@.len(),
                forall|j: int|
                    0 <= j < places.len() ==> 0 <= #[trigger] places[j] < i
                        && entries[places[j]].0.parts() == seq![room@, list@[j].0@, track_sid@]
                        && entries[places[j]].1@ == list@[j].1@,
                forall|j: int, k: int|
                    0 <= j < k < places.len() ==> #[trigger] places[j] < #[trigger] places[k],
                forall|k: int|
                    0 <= k < i && (#[trigger] entries[k]).0.parts()[0] == room@
                        && entries[k].0.parts()[2] == track_sid@ ==> places.contains(k),
            decreases self.settings.entries.len() - i,
        {
            let key: &TargetKey = &self.settings.entries[i].0;
            let ghost old_places = places;
            if key.0 == room && key.2 == track_sid {
                list.push((key.1.clone(), self.settings.entries[i].1.duplicate()));
                proof {
                    places = places.push(i as int);
                    assert(places[places.len() - 1] == i as int);
                    assert forall|k: int| old_places.contains(k) implies places.contains(k) by {
                        let j = choose|j: int| 0 <= j < old_places.len() && old_places[j] == k;
                        assert(places[j] == k);
                    }
                }
            }
            i += 1;
        }
        proof {
            let views = subscriber_settings(list@);
            let map = settings_of_track(self@.settings, room@, track_sid@);
            assert forall|j: int, k: int| 0 <= j < k < views.len() implies (#[trigger] views[j]).0
                != (#[trigger] views[k]).0 by {
                assert(places[j] < places[k]);
                assert(entries[places[j]].0.parts() != entries[places[k]].0.parts());
            }
            assert forall|j: int| 0 <= j < views.len() implies map.contains_key(
                (#[trigger] views[j]).0,
            ) && map[views[j].0] == views[j].1 by {
                crate::keyed_map::lemma_place(entries, places[j]);
            }
            assert forall|identity: Seq<char>| #[trigger] map.contains_key(identity) implies exists|
                j: int,
            | 0 <= j < views.len() && (#[trigger] views[j]).0 == identity by {
                let key = seq![room@, identity, track_sid@];
                let k = choose|k: int| crate::keyed_map::keyed_at(entries, key, k);
                assert(entries[k].0.parts() == key);
                assert(places.contains(k));
                let j = choose|j: int| 0 <= j < places.len() && places[j] == k;
                assert(seq![room@, views[j].0, track_sid@][1] == key[1]);
                assert(views[j].0 == identity);
            }
        }
        list
    }
}

/// The setting of a request is in effect for a track.
pub open spec fn is_settled(
    store: StoreView,
    room: Seq<char>,
    identity: Seq<char>,
    request: SettingView,
    track_sid: Seq<char>,
) -> bool {
    store.has_setting(seq![room, identity, track_sid], for_track(request, track_sid))
}

/// A request that is repeated changes nothing the second time.
pub proof fn law_repeated_settings_change_nothing(
    store: StoreView,
    room: Seq<char>,
    identity: Seq<char>,
    request: SettingView,
    track_sids: Seq<Seq<char>>,
)
    ensures
        store.upserted(room, identity, request, track_sids).upserted(
            room,
            identity,
            request,
            track_sids,
        ) == store.upserted(room, identity, request, track_sids),
{
    lemma_settled(store, room, identity, request, track_sids);
    lemma_nothing_to_do(
        store.upserted(room, identity, request, track_sids),
        room,
        identity,
        request,
        track_sids,
    );
}

proof fn lemma_settled(
    store: StoreView,
    room: Seq<char>,
    identity: Seq<char>,
    request: SettingView,
    track_sids: Seq<Seq<char>>,
)
    ensures
        forall|i: int|
            0 <= i < track_sids.len() ==> is_settled(
                store.upserted(room, identity, request, track_sids),
                room,
                identity,
                request,
                #[trigger] track_sids[i],
            ),
    decreases track_sids.len(),
{
    if track_sids.len() > 0 {
        let fewer = track_sids.drop_last();
        lemma_settled(store, room, identity, request, fewer);
        let after = store.upserted(room, identity, request, track_sids);
        assert forall|i: int| 0 <= i < track_sids.len() implies is_settled(
            after,
            room,
            identity,
            request,
            #[trigger] track_sids[i],
        ) by {
            let key = seq![room, identity, track_sids[i]];
            if i < fewer.len() {
                assert(fewer[i] == track_sids[i]);
                if seq![room, identity, track_sids.last()] == key {
                    assert(seq![room, identity, track_sids.last()][2] == key[2]);
                }
            }
        }
    }
}

proof fn lemma_nothing_to_do(
    store: StoreView,
    room: Seq<char>,
    identity: Seq<char>,
    request: SettingView,
    track_sids: Seq<Seq<char>>,
)
    requires
        forall|i: int|
            0 <= i < track_sids.len() ==> is_settled(
                store,
                room,
                identity,
                request,
                #[trigger] track_sids[i],
            ),
    ensures
        store.upserted(room, identity, request, track_sids) == store,
    decreases track_sids.len(),
{
    if track_sids.len() > 0 {
        let fewer = track_sids.drop_last();
        assert forall|i: int| 0 <= i < fewer.len() implies is_settled(
            store,
            room,
            identity,
            request,
            #[trigger] fewer[i],
        ) by {
            assert(fewer[i] == track_sids[i]);
        }
        lemma_nothing_to_do(store, room, identity, request, fewer);
        assert(is_settled(store, room, identity, request, track_sids[track_sids.len() - 1]));
    }
}

/// Settings that wait and are superseded by settings that wait never come into effect: applying
/// the earlier generation changes nothing, and the later settings still wait.
pub proof fn law_superseded_settings_are_not_applied(
    schedule: Schedule,
    room: Seq<char>,
    identity: Seq<char>,
    track_sid: Seq<char>,
    earlier: SettingView,
    later: SettingView,
)
    requires
        schedule.store.generation + 2 <= u64::MAX,
        schedule.with_track(room, identity, earlier, track_sid).deferred.len()
            > schedule.deferred.len(),
        schedule.with_track(room, identity, earlier, track_sid).with_track(
            room,
            identity,
            later,
            track_sid,
        ).deferred.len() > schedule.with_track(
            room,
            identity,
            earlier,
            track_sid,
        ).deferred.len(),
    ensures
        ({
            let key = seq![room, identity, track_sid];
            let one = schedule.with_track(room, identity, earlier, track_sid);
            let two = one.with_track(room, identity, later, track_sid);
            let superseded = one.deferred.last().1;
            let latest = two.deferred.last().1;
            &&& !two.store.waits(key, superseded)
            &&& two.store.applied(key, superseded) == two.store
            &&& two.store.waits(key, latest)
            &&& two.store.applied(key, latest).has_setting(key, for_track(later, track_sid))
        }),
{
}

/// A removal cancels settings that wait: they cannot bring the target back.
pub proof fn law_removal_cancels_waiting_settings(
    store: StoreView,
    key: Seq<Seq<char>>,
    generation: u64,
)
    ensures
        !store.removed(key).waits(key, generation),
        store.removed(key).applied(key, generation) == store.removed(key),
        !store.removed(key).settings.contains_key(key),
{
}

/// Enabling a track that is disabled takes effect at once, and nothing is left waiting.
pub proof fn law_enabling_is_immediate(
    schedule: Schedule,
    room: Seq<char>,
    identity: Seq<char>,
    request: SettingView,
    track_sid: Seq<char>,
)
    requires
        schedule.store.settings.contains_key(seq![room, identity, track_sid]),
        schedule.store.settings[seq![room, identity, track_sid]].disabled,
        !request.disabled,
    ensures
        ({
            let key = seq![room, identity, track_sid];
            let after = schedule.with_track(room, identity, request, track_sid);
            &&& after.store.has_setting(key, for_track(request, track_sid))
            &&& !after.store.pending.contains_key(key)
            &&& after.immediate == schedule.immediate.push(track_sid)
            &&& after.deferred == schedule.deferred
        }),
{
}

/// A setting that comes into effect is in effect for its target alone, is told with the next
/// revision of that target, and leaves what waits.
pub proof fn law_setting_is_in_effect_for_its_target(
    store: StoreView,
    key: Seq<Seq<char>>,
    setting: SettingView,
    other: Seq<Seq<char>>,
)
    requires
        store.revisions.latest < u64::MAX,
    ensures
        ({
            let after = store.with_setting(key, setting);
            let told = !(store.settings.contains_key(key) && store.settings[key] == setting);
            &&& after.settings.contains_key(key) && after.settings[key] == setting
            &&& other != key ==> after.settings.contains_key(other) == store.settings.contains_key(
                other,
            )
            &&& other != key && store.settings.contains_key(other) ==> after.settings[other]
                == store.settings[other]
            &&& after.pending == store.pending
            &&& after.generation == store.generation
            &&& !told ==> after == store
            &&& told ==> {
                &&& after.revisions.latest == store.revisions.latest + 1
                &&& after.revisions.of_target(key) == store.revisions.latest + 1
                &&& after.changes.drop_last() == store.changes
                &&& after.changes.last().revision == store.revisions.latest + 1
                &&& key.len() == 3 ==> after.changes.last().room == key[0]
                    && after.changes.last().subscriber_identity == key[1]
                    && after.changes.last().track_sid == key[2]
            }
        }),
{
    assert(store.marked(key).changes.drop_last() =~= store.changes);
}

/// The settings of a request for a track are those of the request, for that track alone.
pub proof fn law_request_is_split_by_track(request: SettingView, track_sid: Seq<char>)
    ensures
        for_track(request, track_sid).track_sids == seq![track_sid],
        for_track(request, track_sid).disabled == request.disabled,
        for_track(request, track_sid).quality == request.quality,
        for_track(request, track_sid).width == request.width,
        for_track(request, track_sid).height == request.height,
        for_track(request, track_sid).fps == request.fps,
        for_track(request, track_sid).priority == request.priority,
{
}

/// Every track of a request gets its settings, and no other target is touched.
pub proof fn law_every_track_gets_its_settings(
    store: StoreView,
    room: Seq<char>,
    identity: Seq<char>,
    request: SettingView,
    track_sids: Seq<Seq<char>>,
    track_sid: Seq<char>,
    other: Seq<Seq<char>>,
)
    ensures
        track_sids.contains(track_sid) ==> store.upserted(
            room,
            identity,
            request,
            track_sids,
        ).has_setting(seq![room, identity, track_sid], for_track(request, track_sid)),
        (forall|i: int|
            0 <= i < track_sids.len() ==> other != seq![room, identity, #[trigger] track_sids[i]])
            ==> store.upserted(room, identity, request, track_sids).settings.contains_key(other)
            == store.settings.contains_key(other) && (store.settings.contains_key(other)
            ==> store.upserted(room, identity, request, track_sids).settings[other]
            == store.settings[other]),
    decreases track_sids.len(),
{
    if track_sids.len() > 0 {
        let front = track_sids.drop_last();
        law_every_track_gets_its_settings(
            store,
            room,
            identity,
            request,
            front,
            track_sid,
            other,
        );
        let key = seq![room, identity, track_sid];
        let last = seq![room, identity, track_sids.last()];
        if track_sids.contains(track_sid) {
            let i = choose|i: int| 0 <= i < track_sids.len() && track_sids[i] == track_sid;
            if track_sid != track_sids.last() {
                assert(front[i] == track_sid);
                assert(key[2] != last[2]);
            }
        }
        if forall|i: int|
            0 <= i < track_sids.len() ==> other != seq![room, identity, #[trigger] track_sids[i]] {
            assert forall|i: int| 0 <= i < front.len() implies other != seq![
                room,
                identity,
                #[trigger] front[i],
            ] by {
                assert(front[i] == track_sids[i]);
            }
            assert(other != seq![room, identity, track_sids[track_sids.len() - 1]]);
        }
    }
}

/// What waits for a track is applied exactly where it is of the generation that is named; it then
/// no longer waits.
pub proof fn law_waiting_settings_are_applied_once(
    store: StoreView,
    key: Seq<Seq<char>>,
    generation: u64,
)
    ensures
        store.pending.contains_key(key) && store.pending[key].generation == generation ==> {
            let after = store.applied(key, generation);
            &&& after.settings.contains_key(key) && after.settings[key]
                == store.pending[key].setting
            &&& !after.pending.contains_key(key)
            &&& after.applied(key, generation) == after
        },
        !store.pending.contains_key(key) || store.pending[key].generation != generation
            ==> store.applied(key, generation) == store,
{
}

/// A track whose settings differ, and which is not enabled by them, is not changed at once: they
/// wait, with a generation that nothing had before, and the track is told as one that waits.
pub proof fn law_other_settings_wait(
    schedule: Schedule,
    room: Seq<char>,
    identity: Seq<char>,
    request: SettingView,
    track_sid: Seq<char>,
)
    requires
        schedule.store.generation < u64::MAX,
        ({
            let key = seq![room, identity, track_sid];
            &&& !schedule.store.settings.contains_key(key) || schedule.store.settings[key]
                != for_track(request, track_sid)
            &&& !schedule.store.settings.contains_key(key) || !schedule.store.settings[key].disabled
                || request.disabled
        }),
    ensures
        ({
            let key = seq![room, identity, track_sid];
            let after = schedule.with_track(room, identity, request, track_sid);
            &&& after.store.settings == schedule.store.settings
            &&& after.store.changes == schedule.store.changes
            &&& after.store.generation == schedule.store.generation + 1
            &&& after.store.pending.contains_key(key)
            &&& after.store.pending[key].generation == after.store.generation
            &&& after.store.pending[key].setting == for_track(request, track_sid)
            &&& after.deferred == schedule.deferred.push((track_sid, after.store.generation))
            &&& after.immediate == schedule.immediate
        }),
{
}

/// A request for settings that are in effect changes nothing, and cancels what waits.
pub proof fn law_settings_in_effect_cancel_what_waits(
    schedule: Schedule,
    room: Seq<char>,
    identity: Seq<char>,
    request: SettingView,
    track_sid: Seq<char>,
)
    requires
        schedule.store.settings.contains_key(seq![room, identity, track_sid]),
        schedule.store.settings[seq![room, identity, track_sid]] == for_track(request, track_sid),
    ensures
        ({
            let after = schedule.with_track(room, identity, request, track_sid);
            &&& after.store.settings == schedule.store.settings
            &&& after.store.changes == schedule.store.changes
            &&& !after.store.pending.contains_key(seq![room, identity, track_sid])
            &&& after.immediate == schedule.immediate
            &&& after.deferred == schedule.deferred
        }),
{
}

/// The tracks of a request are scheduled one after the other.
pub proof fn law_tracks_are_scheduled_in_order(
    store: StoreView,
    room: Seq<char>,
    identity: Seq<char>,
    request: SettingView,
    track_sids: Seq<Seq<char>>,
    track_sid: Seq<char>,
)
    ensures
        scheduled(store, room, identity, request, Seq::empty()).store == store,
        scheduled(store, room, identity, request, Seq::empty()).immediate.len() == 0,
        scheduled(store, room, identity, request, Seq::empty()).deferred.len() == 0,
        scheduled(store, room, identity, request, track_sids.push(track_sid)) == scheduled(
            store,
            room,
            identity,
            request,
            track_sids,
        ).with_track(room, identity, request, track_sid),
{
    assert(track_sids.push(track_sid).drop_last() =~= track_sids);
}

/// A removal takes the settings of one target away and tells it, if there were any; other targets
/// keep theirs.
pub proof fn law_removal_takes_one_target(
    store: StoreView,
    key: Seq<Seq<char>>,
    other: Seq<Seq<char>>,
)
    requires
        store.revisions.latest < u64::MAX,
        other != key,
    ensures
        ({
            let after = store.removed(key);
            &&& !after.settings.contains_key(key)
            &&& !after.pending.contains_key(key)
            &&& after.settings.contains_key(other) == store.settings.contains_key(other)
            &&& store.settings.contains_key(other) ==> after.settings[other]
                == store.settings[other]
            &&& after.pending.contains_key(other) == store.pending.contains_key(other)
            &&& store.settings.contains_key(key) ==> after.changes.len() == store.changes.len() + 1
                && after.revisions.of_target(key) == store.revisions.latest + 1
            &&& !store.settings.contains_key(key) ==> after.changes == store.changes
                && after.revisions == store.revisions
        }),
{
}

/// Only what a participant has in the room is taken away with it.
pub proof fn law_participant_takes_its_own_settings(
    store: StoreView,
    room: Seq<char>,
    identity: Seq<char>,
    key: Seq<Seq<char>>,
)
    ensures
        ({
            let after = store.without_participant(room, identity);
            let own = key[0] == room && key[1] == identity;
            &&& own ==> !after.settings.contains_key(key) && !after.pending.contains_key(key)
            &&& !own ==> after.settings.contains_key(key) == store.settings.contains_key(key)
            &&& !own && store.settings.contains_key(key) ==> after.settings[key]
                == store.settings[key]
            &&& !own ==> after.pending.contains_key(key) == store.pending.contains_key(key)
        }),
{
}

/// The settings of a track are those that each of its subscribers has.
pub proof fn law_settings_of_a_track(
    settings: Map<Seq<Seq<char>>, SettingView>,
    room: Seq<char>,
    track_sid: Seq<char>,
    identity: Seq<char>,
)
    ensures
        settings_of_track(settings, room, track_sid).contains_key(identity)
            <==> settings.contains_key(seq![room, identity, track_sid]),
        settings.contains_key(seq![room, identity, track_sid]) ==> settings_of_track(
            settings,
            room,
            track_sid,
        )[identity] == settings[seq![room, identity, track_sid]],
{
}

/// Targets that change one after the other are told one after the other, with one revision each.
pub proof fn law_marked_targets_are_told_in_order(
    store: StoreView,
    keys: Seq<Seq<Seq<char>>>,
    i: int,
)
    requires
        store.revisions.latest + keys.len() <= u64::MAX,
    ensures
        ({
            let after = store.marked_all(keys);
            &&& after.revisions.latest == store.revisions.latest + keys.len()
            &&& after.changes.len() == store.changes.len() + keys.len()
            &&& 0 <= i < store.changes.len() ==> after.changes[i] == store.changes[i]
            &&& 0 <= i < keys.len() ==> {
                let told = after.changes[store.changes.len() + i];
                &&& told.room == keys[i][0]
                &&& told.subscriber_identity == keys[i][1]
                &&& told.track_sid == keys[i][2]
                &&& told.revision == store.revisions.latest + i + 1
            }
            &&& after.settings == store.settings
            &&& after.pending == store.pending
        }),
    decreases keys.len(),
{
    if keys.len() > 0 {
        law_marked_targets_are_told_in_order(store, keys.drop_last(), i);
    }
}

} // verus!
