//! Which codecs of an audio track anybody wants.
use crate::dynacast_manager::{
    any_codec, member, seed_member, KnownCodecs, MemberKey, MimeTypeLite, RegressedCodecs,
};
use crate::keyed_map::KeyedMap;
use vstd::prelude::*;

verus! {

/// Whether a codec is wanted.
#[derive(Debug, Clone, PartialEq, Eq)]
pub struct SubscribedAudioCodecLite {
    pub codec: String,
    pub enabled: bool,
}

/// The contents of a [`SubscribedAudioCodecLite`].
#[verifier::ext_equal]
pub struct SubscribedAudioCodecView {
    pub codec: Seq<char>,
    pub enabled: bool,
}

impl View for SubscribedAudioCodecLite {
    type V = SubscribedAudioCodecView;

    open spec fn view(&self) -> SubscribedAudioCodecView {
        SubscribedAudioCodecView { codec: self.codec@, enabled: self.enabled }
    }
}

/// The contents of the codecs.
pub open spec fn codec_views(codecs: Seq<SubscribedAudioCodecLite>) -> Seq<
    SubscribedAudioCodecView,
> {
    codecs.map_values(|codec: SubscribedAudioCodecLite| codec@)
}

/// The codecs that subscribers and other nodes want.
#[derive(Debug)]
pub struct DynacastManagerAudioLite {
    pub subscriber_enabled: KeyedMap<MemberKey, bool>,
    pub node_enabled: KeyedMap<MemberKey, bool>,
    pub known_codecs: KnownCodecs,
    pub regressed_codec: RegressedCodecs,
}

/// The contents of a [`DynacastManagerAudioLite`].
#[verifier::ext_equal]
pub struct AudioView {
    pub subscribers: Map<Seq<Seq<char>>, bool>,
    pub nodes: Map<Seq<Seq<char>>, bool>,
    pub known: Set<MimeTypeLite>,
    pub regressed: Map<MimeTypeLite, MimeTypeLite>,
}

impl View for DynacastManagerAudioLite {
    type V = AudioView;

    open spec fn view(&self) -> AudioView {
        AudioView {
            subscribers: self.subscriber_enabled@,
            nodes: self.node_enabled@,
            known: self.known_codecs@,
            regressed: self.regressed_codec@,
        }
    }
}

impl AudioView {
    /// A subscriber or a node wants the codec.
    pub open spec fn aggregate(self, mime: MimeTypeLite) -> bool {
        crate::dynacast_manager::has_value(self.subscribers, mime, true)
            || crate::dynacast_manager::has_value(self.nodes, mime, true)
    }

    /// The codec is to be sent. A codec that was given up is not.
    pub open spec fn is_enabled(self, mime: MimeTypeLite) -> bool {
        !self.regressed.contains_key(mime) && self.aggregate(mime)
    }

    /// Whether a codec is wanted.
    pub open spec fn wanted_of(self, mime: MimeTypeLite) -> SubscribedAudioCodecView {
        SubscribedAudioCodecView { codec: mime.name(), enabled: self.is_enabled(mime) }
    }

    /// Which of the known codecs are wanted, in order.
    pub open spec fn emitted(self) -> Seq<SubscribedAudioCodecView> {
        crate::dynacast_manager::in_order(self.known).map_values(
            |mime: MimeTypeLite| self.wanted_of(mime),
        )
    }

    /// The state after a codec was given up for another. Until somebody says something of the
    /// other, it is taken to be wanted.
    pub open spec fn after_regression(self, from: MimeTypeLite, to: MimeTypeLite) -> Self {
        AudioView {
            known: self.known.insert(from).insert(to),
            regressed: self.regressed.insert(from, to),
            subscribers: if crate::dynacast_manager::has_codec(self.subscribers, to)
                || crate::dynacast_manager::has_codec(self.nodes, to) {
                self.subscribers
            } else {
                self.subscribers.insert(
                    crate::dynacast_manager::member_key(crate::dynacast_manager::seed(), to),
                    true,
                )
            },
            ..self
        }
    }

    /// The state after a subscriber said whether it wants a codec. A codec that was given up is
    /// passed over.
    pub open spec fn after_subscriber(
        self,
        subscriber: Seq<char>,
        mime: MimeTypeLite,
        enabled: bool,
    ) -> Self {
        let known = self.known.insert(mime);
        if self.regressed.contains_key(mime) {
            AudioView { known, ..self }
        } else {
            AudioView {
                known,
                subscribers: self.subscribers.remove(
                    crate::dynacast_manager::member_key(crate::dynacast_manager::seed(), mime),
                ).insert(crate::dynacast_manager::member_key(subscriber, mime), enabled),
                ..self
            }
        }
    }

    /// The state after a node said whether it wants a codec. A codec that was given up is passed
    /// over.
    pub open spec fn after_node_codec(
        self,
        node: Seq<char>,
        mime: MimeTypeLite,
        enabled: bool,
    ) -> Self {
        let known = self.known.insert(mime);
        if self.regressed.contains_key(mime) {
            AudioView { known, ..self }
        } else {
            AudioView {
                known,
                subscribers: self.subscribers.remove(
                    crate::dynacast_manager::member_key(crate::dynacast_manager::seed(), mime),
                ),
                nodes: self.nodes.insert(crate::dynacast_manager::member_key(node, mime), enabled),
                ..self
            }
        }
    }

    /// The state after a node said which codecs it wants.
    pub open spec fn after_node(self, node: Seq<char>, codecs: Seq<(MimeTypeLite, bool)>) -> Self
        decreases codecs.len(),
    {
        if codecs.len() == 0 {
            self
        } else {
            self.after_node(node, codecs.drop_last()).after_node_codec(
                node,
                codecs.last().0,
                codecs.last().1,
            )
        }
    }
}

fn any_enabled(values: &KeyedMap<MemberKey, bool>, mime: MimeTypeLite) -> (found: bool)
    requires
        values.wf(),
    ensures
        found == crate::dynacast_manager::has_value(values@, mime, true),
{
    let mut i: usize = 0;
    while i < values.entries.len()
        invariant
            values.wf(),
            i <= values.entries@.len(),
            forall|j: int|
                0 <= j < i ==> (#[trigger] values.entries@[j]).0.1 != mime
                    || !values.entries@[j].1,
        decreases values.entries.len() - i,
    {
        if values.entries[i].0.1 == mime && values.entries[i].1 {
            proof {
                crate::keyed_map::lemma_place(values.entries@, i as int);
                let key = crate::dynacast_manager::member_key(
                    values.entries@[i as int].0.0@,
                    mime,
                );
                assert(values@.contains_key(key));
            }
            return true;
        }
        i += 1;
    }
    proof {
        if crate::dynacast_manager::has_value(values@, mime, true) {
            let id = choose|id: Seq<char>|
                values@.contains_key(#[trigger] crate::dynacast_manager::member_key(id, mime))
                    && values@[crate::dynacast_manager::member_key(id, mime)] == true;
            let key = crate::dynacast_manager::member_key(id, mime);
            let j = choose|j: int| crate::keyed_map::keyed_at(values.entries@, key, j);
            crate::keyed_map::lemma_place(values.entries@, j);
            let entry = values.entries@[j];
            assert(key[1] == mime.name());
            crate::dynacast_manager::lemma_names_differ(entry.0.1, mime);
        }
    }
    false
}

impl DynacastManagerAudioLite {
    /// The maps are well formed.
    pub open spec fn wf(self) -> bool {
        self.subscriber_enabled.wf() && self.node_enabled.wf()
    }

    /// Nobody wants anything.
    pub fn new() -> (manager: Self)
        ensures
            manager.wf(),
            manager@ == (AudioView {
                subscribers: Map::empty(),
                nodes: Map::empty(),
                known: Set::empty(),
                regressed: Map::empty(),
            }),
    {
        DynacastManagerAudioLite {
            subscriber_enabled: KeyedMap::new(),
            node_enabled: KeyedMap::new(),
            known_codecs: KnownCodecs::new(),
            regressed_codec: RegressedCodecs::new(),
        }
    }

    /// Gives up a codec for another, and says what is wanted now.
    pub fn handle_codec_regression(&mut self, from_mime: MimeTypeLite, to_mime: MimeTypeLite) -> (
    update: Vec<SubscribedAudioCodecLite>)
        requires
            old(self).wf(),
        ensures
            final(self).wf(),
            final(self)@ == old(self)@.after_regression(from_mime, to_mime),
            codec_views(update@) == final(self)@.emitted(),
    {
        self.known_codecs.insert(from_mime);
        self.known_codecs.insert(to_mime);
        self.regressed_codec.insert(from_mime, to_mime);
        if !any_codec(&self.subscriber_enabled, to_mime) && !any_codec(
            &self.node_enabled,
            to_mime,
        ) {
            self.subscriber_enabled.insert(seed_member(to_mime), true);
        }
        self.emit()
    }

    /// Takes note of whether a subscriber wants a codec, and says what is wanted now.
    pub fn notify_subscription(
        &mut self,
        subscriber_id: &str,
        mime: MimeTypeLite,
        enabled: bool,
    ) -> (update: Vec<SubscribedAudioCodecLite>)
        requires
            old(self).wf(),
        ensures
            final(self).wf(),
            final(self)@ == old(self)@.after_subscriber(subscriber_id@, mime, enabled),
            codec_views(update@) == final(self)@.emitted(),
    {
        self.known_codecs.insert(mime);
        if self.regressed_codec.get(mime).is_some() {
            return self.emit();
        }
        self.subscriber_enabled.remove(&seed_member(mime));
        self.subscriber_enabled.insert(member(subscriber_id, mime), enabled);
        self.emit()
    }

    /// Takes note of which codecs a node wants, and says what is wanted now.
    pub fn notify_subscription_node(&mut self, node_id: &str, codecs: &[(MimeTypeLite, bool)]) -> (
    update: Vec<SubscribedAudioCodecLite>)
        requires
            old(self).wf(),
        ensures
            final(self).wf(),
            final(self)@ == old(self)@.after_node(node_id@, codecs@),
            codec_views(update@) == final(self)@.emitted(),
    {
        let ghost before = self@;
        let mut i: usize = 0;
        assert(codecs@.take(0) =~= Seq::empty());
        while i < codecs.len()
            invariant
                self.wf(),
                i <= codecs@.len(),
                self@ == before.after_node(node_id@, codecs@.take(i as int)),
            decreases codecs.len() - i,
        {
            let mime: MimeTypeLite = codecs[i].0;
            let enabled: bool = codecs[i].1;
            let ghost so_far = self@;
            self.known_codecs.insert(mime);
            if self.regressed_codec.get(mime).is_none() {
                self.subscriber_enabled.remove(&seed_member(mime));
                self.node_enabled.insert(member(node_id, mime), enabled);
            }
            i += 1;
            proof {
                assert(self@ =~= so_far.after_node_codec(node_id@, mime, enabled));
                assert(codecs@.take(i as int).drop_last() =~= codecs@.take(i - 1));
            }
        }
        assert(codecs@.take(i as int) =~= codecs@);
        self.emit()
    }

    /// Which of the known codecs are wanted, in order.
    pub fn emit(&self) -> (update: Vec<SubscribedAudioCodecLite>)
        requires
            self.wf(),
        ensures
            codec_views(update@) == self@.emitted(),
    {
        let codecs: Vec<MimeTypeLite> = self.known_codecs.list();
        let mut aggregated: Vec<SubscribedAudioCodecLite> = Vec::new();
        let mut i: usize = 0;
        while i < codecs.len()
            invariant
                self.wf(),
                i <= codecs@.len(),
                codecs@ == crate::dynacast_manager::in_order(self@.known),
                aggregated@.len() == i,
                forall|j: int|
                    0 <= j < i ==> (#[trigger] aggregated@[j])@ == self@.wanted_of(codecs@[j]),
            decreases codecs.len() - i,
        {
            let mime: MimeTypeLite = codecs[i];
            let enabled: bool = self.regressed_codec.get(mime).is_none()
                && self.aggregate_enabled_for_codec(mime);
            aggregated.push(SubscribedAudioCodecLite { codec: mime.as_str().to_owned(), enabled });
            i += 1;
        }
        assert(codec_views(aggregated@) =~= self@.emitted());
        aggregated
    }

    /// Tells whether anybody wants the codec.
    pub fn aggregate_enabled_for_codec(&self, mime: MimeTypeLite) -> (enabled: bool)
        requires
            self.wf(),
        ensures
            enabled == self@.aggregate(mime),
    {
        any_enabled(&self.subscriber_enabled, mime) || any_enabled(&self.node_enabled, mime)
    }
}

/// A codec that was given up is not wanted, and what subscribers and nodes say of it changes
/// nothing for any codec.
pub proof fn law_regressed_codec_is_passed_over(
    state: AudioView,
    from: MimeTypeLite,
    member: Seq<char>,
    enabled: bool,
    mime: MimeTypeLite,
)
    requires
        state.regressed.contains_key(from),
    ensures
        !state.is_enabled(from),
        state.after_subscriber(member, from, enabled).is_enabled(mime) == state.is_enabled(mime),
        state.after_node_codec(member, from, enabled).is_enabled(mime) == state.is_enabled(mime),
{
}

/// A codec is wanted as long as one member wants it.
pub proof fn law_one_member_is_enough(state: AudioView, member: Seq<char>, mime: MimeTypeLite)
    requires
        !state.regressed.contains_key(mime),
    ensures
        state.after_subscriber(member, mime, true).is_enabled(mime),
        state.after_node_codec(member, mime, true).is_enabled(mime),
{
    let key = crate::dynacast_manager::member_key(member, mime);
    assert(state.after_subscriber(member, mime, true).subscribers.contains_key(key));
    assert(state.after_node_codec(member, mime, true).nodes.contains_key(key));
}

/// The codec that took the place of another is wanted until somebody says otherwise.
pub proof fn law_stand_in_gives_way(
    state: AudioView,
    from: MimeTypeLite,
    to: MimeTypeLite,
    subscriber: Seq<char>,
    enabled: bool,
)
    requires
        from != to,
        !state.regressed.contains_key(to),
        !crate::dynacast_manager::has_codec(state.subscribers, to),
        !crate::dynacast_manager::has_codec(state.nodes, to),
    ensures
        state.after_regression(from, to).is_enabled(to),
        state.after_regression(from, to).after_subscriber(subscriber, to, enabled).is_enabled(to)
            == enabled,
{
    let regressed = state.after_regression(from, to);
    let seed = crate::dynacast_manager::member_key(crate::dynacast_manager::seed(), to);
    assert(regressed.subscribers.contains_key(seed) && regressed.subscribers[seed]);
    let after = regressed.after_subscriber(subscriber, to, enabled);
    let own = crate::dynacast_manager::member_key(subscriber, to);
    assert(after.subscribers.contains_key(own) && after.subscribers[own] == enabled);
    assert forall|id: Seq<char>|
        after.subscribers.contains_key(
            #[trigger] crate::dynacast_manager::member_key(id, to),
        ) implies after.subscribers[crate::dynacast_manager::member_key(id, to)] == enabled by {
        let key = crate::dynacast_manager::member_key(id, to);
        if key != own {
            assert(state.subscribers.contains_key(key));
        }
    }
    assert(!crate::dynacast_manager::has_codec(after.nodes, to));
}

/// Every member counts, subscriber or node: a codec that was not given up is enabled exactly where
/// one of them wants it.
pub proof fn law_every_member_counts(state: AudioView, mime: MimeTypeLite, id: Seq<char>)
    requires
        !state.regressed.contains_key(mime),
    ensures
        state.subscribers.contains_key(seq![id, mime.name()]) && state.subscribers[seq![
            id,
            mime.name(),
        ]] ==> state.is_enabled(mime),
        state.nodes.contains_key(seq![id, mime.name()]) && state.nodes[seq![id, mime.name()]]
            ==> state.is_enabled(mime),
        state.is_enabled(mime) ==> exists|member: Seq<char>|
            {
                let key = #[trigger] crate::dynacast_manager::member_key(member, mime);
                ||| state.subscribers.contains_key(key) && state.subscribers[key]
                ||| state.nodes.contains_key(key) && state.nodes[key]
            },
{
    let key = crate::dynacast_manager::member_key(id, mime);
    assert(key == seq![id, mime.name()]);
}

/// Each known codec is told once, in order, with its name and whether it is enabled.
pub proof fn law_known_codecs_are_told(state: AudioView, i: int)
    ensures
        state.emitted().len() == crate::dynacast_manager::in_order(state.known).len(),
        0 <= i < state.emitted().len() ==> {
            let mime = crate::dynacast_manager::in_order(state.known)[i];
            &&& state.emitted()[i].codec == mime.name()
            &&& state.emitted()[i].enabled == state.is_enabled(mime)
        },
{
}

/// What a subscriber wants replaces what it wanted of the codec before, and nothing that another
/// member or another codec has, but for the stand-in, which gives way.
pub proof fn law_subscriber_speaks_for_itself(
    state: AudioView,
    subscriber: Seq<char>,
    mime: MimeTypeLite,
    enabled: bool,
    key: Seq<Seq<char>>,
)
    ensures
        ({
            let after = state.after_subscriber(subscriber, mime, enabled);
            let own = seq![subscriber, mime.name()];
            let stand_in = seq![crate::dynacast_manager::seed(), mime.name()];
            &&& after.known == state.known.insert(mime)
            &&& after.nodes == state.nodes
            &&& after.regressed == state.regressed
            &&& state.regressed.contains_key(mime) ==> after.subscribers == state.subscribers
            &&& !state.regressed.contains_key(mime) ==> {
                &&& after.subscribers.contains_key(own) && after.subscribers[own] == enabled
                &&& stand_in != own ==> !after.subscribers.contains_key(stand_in)
                &&& key != own && key != stand_in ==> after.subscribers.contains_key(key)
                    == state.subscribers.contains_key(key)
                &&& key != own && key != stand_in && state.subscribers.contains_key(key)
                    ==> after.subscribers[key] == state.subscribers[key]
            }
        }),
{
}

/// What a node wants of a codec replaces what it wanted of it before, and nothing else, but for the
/// stand-in, which gives way; of a codec that was given up it changes nothing.
pub proof fn law_node_speaks_for_itself(
    state: AudioView,
    node: Seq<char>,
    mime: MimeTypeLite,
    enabled: bool,
    key: Seq<Seq<char>>,
)
    ensures
        ({
            let after = state.after_node_codec(node, mime, enabled);
            let own = seq![node, mime.name()];
            let stand_in = seq![crate::dynacast_manager::seed(), mime.name()];
            &&& after.known == state.known.insert(mime)
            &&& after.regressed == state.regressed
            &&& state.regressed.contains_key(mime) ==> after.nodes == state.nodes
                && after.subscribers == state.subscribers
            &&& !state.regressed.contains_key(mime) ==> {
                &&& after.nodes.contains_key(own) && after.nodes[own] == enabled
                &&& key != own ==> after.nodes.contains_key(key) == state.nodes.contains_key(key)
                &&& key != own && state.nodes.contains_key(key) ==> after.nodes[key]
                    == state.nodes[key]
                &&& !after.subscribers.contains_key(stand_in)
                &&& key != stand_in && state.subscribers.contains_key(key)
                    ==> after.subscribers.contains_key(key) && after.subscribers[key]
                    == state.subscribers[key]
            }
        }),
{
}

/// What a node wants of several codecs is taken one after the other.
pub proof fn law_node_codecs_are_taken_in_order(
    state: AudioView,
    node: Seq<char>,
    codecs: Seq<(MimeTypeLite, bool)>,
    mime: MimeTypeLite,
    enabled: bool,
)
    ensures
        state.after_node(node, Seq::empty()) == state,
        state.after_node(node, codecs.push((mime, enabled))) == state.after_node(
            node,
            codecs,
        ).after_node_codec(node, mime, enabled),
{
    assert(codecs.push((mime, enabled)).drop_last() =~= codecs);
}

/// A codec that is given up is known, and so is the one that takes its place; what members want is
/// kept.
pub proof fn law_regression_keeps_the_members(
    state: AudioView,
    from: MimeTypeLite,
    to: MimeTypeLite,
    key: Seq<Seq<char>>,
)
    ensures
        ({
            let after = state.after_regression(from, to);
            &&& after.regressed.contains_key(from) && after.regressed[from] == to
            &&& after.known.contains(from) && after.known.contains(to)
            &&& after.nodes == state.nodes
            &&& key != seq![crate::dynacast_manager::seed(), to.name()]
                ==> after.subscribers.contains_key(key) == state.subscribers.contains_key(key)
            &&& key != seq![crate::dynacast_manager::seed(), to.name()]
                && state.subscribers.contains_key(key) ==> after.subscribers[key]
                == state.subscribers[key]
            &&& crate::dynacast_manager::has_codec(state.subscribers, to) ==> after.subscribers
                == state.subscribers
        }),
{
}

} // verus!
