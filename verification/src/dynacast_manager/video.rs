//! Which qualities of a video track anybody wants.
use crate::dynacast_manager::{
    any_codec, member, seed_member, KnownCodecs, MemberKey, MimeTypeLite, RegressedCodecs,
};
use crate::keyed_map::KeyedMap;
use vstd::prelude::*;

verus! {

/// The greatest quality that somebody wants.
#[derive(Debug, Clone, Copy, PartialEq, Eq, Structural)]
pub enum VideoQualityLite {
    Off,
    Low,
    Medium,
    High,
}

impl View for VideoQualityLite {
    type V = VideoQualityLite;

    open spec fn view(&self) -> VideoQualityLite {
        *self
    }
}

impl VideoQualityLite {
    /// The place of the quality among the qualities.
    pub open spec fn rank(self) -> int {
        match self {
            VideoQualityLite::Off => 0,
            VideoQualityLite::Low => 1,
            VideoQualityLite::Medium => 2,
            VideoQualityLite::High => 3,
        }
    }
}

/// Whether a quality is wanted.
#[derive(Debug, Clone, Copy, PartialEq, Eq, Structural)]
pub struct SubscribedQualityLite {
    pub quality: VideoQualityLite,
    pub enabled: bool,
}

/// The qualities of a codec that are wanted.
#[derive(Debug, Clone, PartialEq, Eq)]
pub struct SubscribedCodecLite {
    pub codec: String,
    pub qualities: Vec<SubscribedQualityLite>,
}

/// The contents of a [`SubscribedCodecLite`].
#[verifier::ext_equal]
pub struct SubscribedCodecLiteView {
    pub codec: Seq<char>,
    pub qualities: Seq<SubscribedQualityLite>,
}

impl View for SubscribedCodecLite {
    type V = SubscribedCodecLiteView;

    open spec fn view(&self) -> SubscribedCodecLiteView {
        SubscribedCodecLiteView { codec: self.codec@, qualities: self.qualities@ }
    }
}

/// The contents of the codecs.
pub open spec fn codec_views(codecs: Seq<SubscribedCodecLite>) -> Seq<SubscribedCodecLiteView> {
    codecs.map_values(|codec: SubscribedCodecLite| codec@)
}

/// The qualities that subscribers and other nodes want, by codec.
#[derive(Debug)]
pub struct DynacastManagerVideoLite {
    pub subscriber_qualities: KeyedMap<MemberKey, VideoQualityLite>,
    pub node_qualities: KeyedMap<MemberKey, VideoQualityLite>,
    pub known_codecs: KnownCodecs,
    pub regressed_codec: RegressedCodecs,
}

/// The contents of a [`DynacastManagerVideoLite`].
#[verifier::ext_equal]
pub struct VideoView {
    pub subscribers: Map<Seq<Seq<char>>, VideoQualityLite>,
    pub nodes: Map<Seq<Seq<char>>, VideoQualityLite>,
    pub known: Set<MimeTypeLite>,
    pub regressed: Map<MimeTypeLite, MimeTypeLite>,
}

impl View for DynacastManagerVideoLite {
    type V = VideoView;

    open spec fn view(&self) -> VideoView {
        VideoView {
            subscribers: self.subscriber_qualities@,
            nodes: self.node_qualities@,
            known: self.known_codecs@,
            regressed: self.regressed_codec@,
        }
    }
}

/// The three qualities, each enabled if it is no greater than `quality`.
pub open spec fn qualities_up_to(quality: VideoQualityLite) -> Seq<SubscribedQualityLite> {
    seq![
        SubscribedQualityLite { quality: VideoQualityLite::Low, enabled: quality.rank() >= 1 },
        SubscribedQualityLite { quality: VideoQualityLite::Medium, enabled: quality.rank() >= 2 },
        SubscribedQualityLite { quality: VideoQualityLite::High, enabled: quality.rank() >= 3 },
    ]
}

impl VideoView {
    /// A subscriber or a node wants exactly this quality of the codec.
    pub open spec fn somebody_wants(self, mime: MimeTypeLite, quality: VideoQualityLite) -> bool {
        crate::dynacast_manager::has_value(self.subscribers, mime, quality)
            || crate::dynacast_manager::has_value(self.nodes, mime, quality)
    }

    /// The greatest quality of the codec that anybody wants.
    pub open spec fn aggregate(self, mime: MimeTypeLite) -> VideoQualityLite {
        if self.somebody_wants(mime, VideoQualityLite::High) {
            VideoQualityLite::High
        } else if self.somebody_wants(mime, VideoQualityLite::Medium) {
            VideoQualityLite::Medium
        } else if self.somebody_wants(mime, VideoQualityLite::Low) {
            VideoQualityLite::Low
        } else {
            VideoQualityLite::Off
        }
    }

    /// The quality of the codec to send. A codec that was given up is off.
    pub open spec fn quality_of(self, mime: MimeTypeLite) -> VideoQualityLite {
        if self.regressed.contains_key(mime) {
            VideoQualityLite::Off
        } else {
            self.aggregate(mime)
        }
    }

    /// What is wanted of a codec.
    pub open spec fn wanted_of(self, mime: MimeTypeLite) -> SubscribedCodecLiteView {
        SubscribedCodecLiteView {
            codec: mime.name(),
            qualities: qualities_up_to(self.quality_of(mime)),
        }
    }

    /// What is wanted of the known codecs, in order.
    pub open spec fn emitted(self) -> Seq<SubscribedCodecLiteView> {
        crate::dynacast_manager::in_order(self.known).map_values(
            |mime: MimeTypeLite| self.wanted_of(mime),
        )
    }

    /// The state after a codec was given up for another. Until somebody wants the other, it is
    /// taken to be wanted in full.
    pub open spec fn after_regression(self, from: MimeTypeLite, to: MimeTypeLite) -> Self {
        VideoView {
            known: self.known.insert(from).insert(to),
            regressed: self.regressed.insert(from, to),
            subscribers: if crate::dynacast_manager::has_codec(self.subscribers, to)
                || crate::dynacast_manager::has_codec(self.nodes, to) {
                self.subscribers
            } else {
                self.subscribers.insert(
                    crate::dynacast_manager::member_key(crate::dynacast_manager::seed(), to),
                    VideoQualityLite::High,
                )
            },
            ..self
        }
    }

    /// The codec that counts for a codec.
    pub open spec fn effective(self, mime: MimeTypeLite) -> MimeTypeLite {
        if self.regressed.contains_key(mime) {
            self.regressed[mime]
        } else {
            mime
        }
    }

    /// The state after a subscriber said what it wants. It counts for the codec that took the
    /// place of the one that it named.
    pub open spec fn after_subscriber(
        self,
        subscriber: Seq<char>,
        mime: MimeTypeLite,
        quality: VideoQualityLite,
    ) -> Self {
        let effective = self.effective(mime);
        VideoView {
            known: self.known.insert(mime).insert(effective),
            subscribers: self.subscribers.remove(
                crate::dynacast_manager::member_key(crate::dynacast_manager::seed(), effective),
            ).insert(crate::dynacast_manager::member_key(subscriber, effective), quality),
            ..self
        }
    }

    /// The state after a node said what it wants of a codec. A codec that was given up is passed
    /// over.
    pub open spec fn after_node_codec(
        self,
        node: Seq<char>,
        mime: MimeTypeLite,
        quality: VideoQualityLite,
    ) -> Self {
        let known = self.known.insert(mime);
        if self.regressed.contains_key(mime) {
            VideoView { known, ..self }
        } else {
            VideoView {
                known,
                subscribers: self.subscribers.remove(
                    crate::dynacast_manager::member_key(crate::dynacast_manager::seed(), mime),
                ),
                nodes: self.nodes.insert(crate::dynacast_manager::member_key(node, mime), quality),
                ..self
            }
        }
    }

    /// The state after a node said what it wants.
    pub open spec fn after_node(
        self,
        node: Seq<char>,
        qualities: Seq<(MimeTypeLite, VideoQualityLite)>,
    ) -> Self
        decreases qualities.len(),
    {
        if qualities.len() == 0 {
            self
        } else {
            self.after_node(node, qualities.drop_last()).after_node_codec(
                node,
                qualities.last().0,
                qualities.last().1,
            )
        }
    }
}

fn any_value(
    values: &KeyedMap<MemberKey, VideoQualityLite>,
    mime: MimeTypeLite,
    quality: VideoQualityLite,
) -> (found: bool)
    requires
        values.wf(),
    ensures
        found == crate::dynacast_manager::has_value(values@, mime, quality),
{
    let mut i: usize = 0;
    while i < values.entries.len()
        invariant
            values.wf(),
            i <= values.entries@.len(),
            forall|j: int|
                0 <= j < i ==> (#[trigger] values.entries@[j]).0.1 != mime || values.entries@[j].1
                    != quality,
        decreases values.entries.len() - i,
    {
        if values.entries[i].0.1 == mime && values.entries[i].1 == quality {
            proof {
                crate::keyed_map::lemma_place(values.entries@, i as int);
                let key = crate::dynacast_manager::member_key(
                    values.entries@[i as int].0.0@,
                    mime,
                );
                assert(values@.contains_key(key));
            }
            return true;
        }
        i += 1;
    }
    proof {
        if crate::dynacast_manager::has_value(values@, mime, quality) {
            let id = choose|id: Seq<char>|
                values@.contains_key(#[trigger] crate::dynacast_manager::member_key(id, mime))
                    && values@[crate::dynacast_manager::member_key(id, mime)] == quality;
            let key = crate::dynacast_manager::member_key(id, mime);
            let j = choose|j: int| crate::keyed_map::keyed_at(values.entries@, key, j);
            crate::keyed_map::lemma_place(values.entries@, j);
            let entry = values.entries@[j];
            assert(key[1] == mime.name());
            crate::dynacast_manager::lemma_names_differ(entry.0.1, mime);
        }
    }
    false
}

impl DynacastManagerVideoLite {
    /// The maps are well formed.
    pub open spec fn wf(self) -> bool {
        self.subscriber_qualities.wf() && self.node_qualities.wf()
    }

    /// Nobody wants anything.
    pub fn new() -> (manager: Self)
        ensures
            manager.wf(),
            manager@ == (VideoView {
                subscribers: Map::empty(),
                nodes: Map::empty(),
                known: Set::empty(),
                regressed: Map::empty(),
            }),
    {
        DynacastManagerVideoLite {
            subscriber_qualities: KeyedMap::new(),
            node_qualities: KeyedMap::new(),
            known_codecs: KnownCodecs::new(),
            regressed_codec: RegressedCodecs::new(),
        }
    }

    /// Gives up a codec for another, and says what is wanted now.
    pub fn handle_codec_regression(&mut self, from_mime: MimeTypeLite, to_mime: MimeTypeLite) -> (
    update: Vec<SubscribedCodecLite>)
        requires
            old(self).wf(),
        ensures
            final(self).wf(),
            final(self)@ == old(self)@.after_regression(from_mime, to_mime),
            codec_views(update@) == final(self)@.emitted(),
    {
        self.known_codecs.insert(from_mime);
        self.known_codecs.insert(to_mime);
        self.regressed_codec.insert(from_mime, to_mime);
        if !any_codec(&self.subscriber_qualities, to_mime) && !any_codec(
            &self.node_qualities,
            to_mime,
        ) {
            self.subscriber_qualities.insert(seed_member(to_mime), VideoQualityLite::High);
        }
        self.emit()
    }

    /// Takes note of what a subscriber wants, and says what is wanted now.
    pub fn notify_subscriber_max_quality(
        &mut self,
        subscriber_id: &str,
        mime: MimeTypeLite,
        quality: VideoQualityLite,
    ) -> (update: Vec<SubscribedCodecLite>)
        requires
            old(self).wf(),
        ensures
            final(self).wf(),
            final(self)@ == old(self)@.after_subscriber(subscriber_id@, mime, quality),
            codec_views(update@) == final(self)@.emitted(),
    {
        let effective_mime: MimeTypeLite = match self.regressed_codec.get(mime) {
            Some(to) => to,
            None => mime,
        };
        self.known_codecs.insert(mime);
        self.known_codecs.insert(effective_mime);
        self.subscriber_qualities.remove(&seed_member(effective_mime));
        self.subscriber_qualities.insert(member(subscriber_id, effective_mime), quality);
        self.emit()
    }

    /// Takes note of what a node wants, and says what is wanted now.
    pub fn notify_subscriber_node_max_quality(
        &mut self,
        node_id: &str,
        qualities: &[(MimeTypeLite, VideoQualityLite)],
    ) -> (update: Vec<SubscribedCodecLite>)
        requires
            old(self).wf(),
        ensures
            final(self).wf(),
            final(self)@ == old(self)@.after_node(node_id@, qualities@),
            codec_views(update@) == final(self)@.emitted(),
    {
        let ghost before = self@;
        let mut i: usize = 0;
        assert(qualities@.take(0) =~= Seq::empty());
        while i < qualities.len()
            invariant
                self.wf(),
                i <= qualities@.len(),
                self@ == before.after_node(node_id@, qualities@.take(i as int)),
            decreases qualities.len() - i,
        {
            let mime: MimeTypeLite = qualities[i].0;
            let quality: VideoQualityLite = qualities[i].1;
            let ghost so_far = self@;
            self.known_codecs.insert(mime);
            if self.regressed_codec.get(mime).is_none() {
                self.subscriber_qualities.remove(&seed_member(mime));
                self.node_qualities.insert(member(node_id, mime), quality);
            }
            i += 1;
            proof {
                assert(self@ =~= so_far.after_node_codec(node_id@, mime, quality));
                assert(qualities@.take(i as int).drop_last() =~= qualities@.take(i - 1));
            }
        }
        assert(qualities@.take(i as int) =~= qualities@);
        self.emit()
    }

    /// What is wanted of the known codecs, in order.
    pub fn emit(&self) -> (update: Vec<SubscribedCodecLite>)
        requires
            self.wf(),
        ensures
            codec_views(update@) == self@.emitted(),
    {
        let codecs: Vec<MimeTypeLite> = self.known_codecs.list();
        let mut aggregated: Vec<SubscribedCodecLite> = Vec::new();
        let mut i: usize = 0;
        while i < codecs.len()
            invariant
                self.wf(),
                i <= codecs@.len(),
                codecs@ == crate::dynacast_manager::in_order(self@.known),
                aggregated@.len() == i,
                forall|j: int|
                    0 <= j < i ==> (#[trigger] aggregated@[j])@ == self@.wanted_of(codecs@[j]),
            decreases codecs.len() - i,
        {
            let mime: MimeTypeLite = codecs[i];
            let quality: VideoQualityLite = if self.regressed_codec.get(mime).is_some() {
                VideoQualityLite::Off
            } else {
                self.aggregate_quality_for_codec(mime)
            };
            let (low, medium, high): (bool, bool, bool) = match quality {
                VideoQualityLite::Off => (false, false, false),
                VideoQualityLite::Low => (true, false, false),
                VideoQualityLite::Medium => (true, true, false),
                VideoQualityLite::High => (true, true, true),
            };
            let mut qualities: Vec<SubscribedQualityLite> = Vec::new();
            qualities.push(
                SubscribedQualityLite { quality: VideoQualityLite::Low, enabled: low },
            );
            qualities.push(
                SubscribedQualityLite { quality: VideoQualityLite::Medium, enabled: medium },
            );
            qualities.push(
                SubscribedQualityLite { quality: VideoQualityLite::High, enabled: high },
            );
            assert(qualities@ =~= qualities_up_to(self@.quality_of(mime)));
            aggregated.push(SubscribedCodecLite { codec: mime.as_str().to_owned(), qualities });
            i += 1;
        }
        assert(codec_views(aggregated@) =~= self@.emitted());
        aggregated
    }

    /// The greatest quality of the codec that anybody wants.
    pub fn aggregate_quality_for_codec(&self, mime: MimeTypeLite) -> (quality: VideoQualityLite)
        requires
            self.wf(),
        ensures
            quality == self@.aggregate(mime),
    {
        if self.anybody_wants(mime, VideoQualityLite::High) {
            VideoQualityLite::High
        } else if self.anybody_wants(mime, VideoQualityLite::Medium) {
            VideoQualityLite::Medium
        } else if self.anybody_wants(mime, VideoQualityLite::Low) {
            VideoQualityLite::Low
        } else {
            VideoQualityLite::Off
        }
    }

    fn anybody_wants(&self, mime: MimeTypeLite, quality: VideoQualityLite) -> (wants: bool)
        requires
            self.wf(),
        ensures
            wants == self@.somebody_wants(mime, quality),
    {
        any_value(&self.subscriber_qualities, mime, quality) || any_value(
            &self.node_qualities,
            mime,
            quality,
        )
    }
}

/// The aggregate is as great as any quality that a member wants, and a member wants it unless it
/// is off.
pub proof fn law_aggregate_is_greatest(state: VideoView, mime: MimeTypeLite)
    ensures
        forall|quality: VideoQualityLite| #[trigger]
            state.somebody_wants(mime, quality) ==> quality.rank() <= state.aggregate(mime).rank(),
        state.aggregate(mime) != VideoQualityLite::Off ==> state.somebody_wants(
            mime,
            state.aggregate(mime),
        ),
{
}

/// A codec that was given up is off, and stays off whatever subscribers and nodes want.
pub proof fn law_regressed_codec_stays_off(
    state: VideoView,
    from: MimeTypeLite,
    member: Seq<char>,
    mime: MimeTypeLite,
    quality: VideoQualityLite,
)
    requires
        state.regressed.contains_key(from),
    ensures
        state.quality_of(from) == VideoQualityLite::Off,
        state.after_subscriber(member, mime, quality).quality_of(from) == VideoQualityLite::Off,
        state.after_node_codec(member, mime, quality).quality_of(from) == VideoQualityLite::Off,
{
}

/// What a subscriber wants of a codec that was given up counts for the codec that took its place.
pub proof fn law_regressed_subscriber_counts(
    state: VideoView,
    subscriber: Seq<char>,
    mime: MimeTypeLite,
    quality: VideoQualityLite,
)
    requires
        state.regressed.contains_key(mime),
        !state.regressed.contains_key(state.regressed[mime]),
    ensures
        quality.rank() <= state.after_subscriber(subscriber, mime, quality).quality_of(
            state.regressed[mime],
        ).rank(),
{
    let to = state.regressed[mime];
    let after = state.after_subscriber(subscriber, mime, quality);
    let key = crate::dynacast_manager::member_key(subscriber, to);
    assert(after.subscribers.contains_key(key) && after.subscribers[key] == quality);
    assert(after.somebody_wants(to, quality));
}

/// The codec that took the place of another is wanted in full until somebody says otherwise, and
/// from then on only as far as somebody does.
pub proof fn law_stand_in_gives_way(
    state: VideoView,
    from: MimeTypeLite,
    to: MimeTypeLite,
    subscriber: Seq<char>,
    quality: VideoQualityLite,
)
    requires
        from != to,
        !state.regressed.contains_key(to),
        !crate::dynacast_manager::has_codec(state.subscribers, to),
        !crate::dynacast_manager::has_codec(state.nodes, to),
    ensures
        state.after_regression(from, to).quality_of(to) == VideoQualityLite::High,
        state.after_regression(from, to).after_subscriber(subscriber, to, quality).quality_of(to)
            == quality,
{
    let regressed = state.after_regression(from, to);
    let seed = crate::dynacast_manager::member_key(crate::dynacast_manager::seed(), to);
    assert(regressed.subscribers.contains_key(seed) && regressed.subscribers[seed]
        == VideoQualityLite::High);
    assert(regressed.somebody_wants(to, VideoQualityLite::High));
    let after = regressed.after_subscriber(subscriber, to, quality);
    let own = crate::dynacast_manager::member_key(subscriber, to);
    assert(after.subscribers.contains_key(own) && after.subscribers[own] == quality);
    assert forall|id: Seq<char>|
        after.subscribers.contains_key(
            #[trigger] crate::dynacast_manager::member_key(id, to),
        ) implies after.subscribers[crate::dynacast_manager::member_key(id, to)] == quality by {
        let key = crate::dynacast_manager::member_key(id, to);
        if key != own {
            assert(state.subscribers.contains_key(key));
        }
    }
    assert(!crate::dynacast_manager::has_codec(after.nodes, to));
    assert forall|other: VideoQualityLite| #[trigger] after.somebody_wants(to, other) implies other
        == quality by {}
    assert(after.somebody_wants(to, quality));
}

/// Every member counts, subscriber or node: the quality of a codec that was not given up is at
/// least what any of them wants, and no more than one of them wants.
pub proof fn law_every_member_counts(state: VideoView, mime: MimeTypeLite, id: Seq<char>)
    requires
        !state.regressed.contains_key(mime),
    ensures
        state.subscribers.contains_key(seq![id, mime.name()]) ==> state.quality_of(mime).rank()
            >= state.subscribers[seq![id, mime.name()]].rank(),
        state.nodes.contains_key(seq![id, mime.name()]) ==> state.quality_of(mime).rank()
            >= state.nodes[seq![id, mime.name()]].rank(),
        state.quality_of(mime) != VideoQualityLite::Off ==> exists|member: Seq<char>|
            {
                let key = #[trigger] crate::dynacast_manager::member_key(member, mime);
                ||| state.subscribers.contains_key(key) && state.subscribers[key]
                    == state.quality_of(mime)
                ||| state.nodes.contains_key(key) && state.nodes[key] == state.quality_of(mime)
            },
{
    let key = crate::dynacast_manager::member_key(id, mime);
    assert(key == seq![id, mime.name()]);
    if state.subscribers.contains_key(key) {
        assert(state.somebody_wants(mime, state.subscribers[key]));
    }
    if state.nodes.contains_key(key) {
        assert(state.somebody_wants(mime, state.nodes[key]));
    }
    law_aggregate_is_greatest(state, mime);
}

/// A quality is enabled exactly where it is no greater than the one that is wanted; off enables
/// none, and high all.
pub proof fn law_lower_qualities_are_enabled(state: VideoView, mime: MimeTypeLite)
    ensures
        ({
            let wanted = state.wanted_of(mime);
            &&& wanted.codec == mime.name()
            &&& wanted.qualities.len() == 3
            &&& wanted.qualities[0].quality == VideoQualityLite::Low
            &&& wanted.qualities[1].quality == VideoQualityLite::Medium
            &&& wanted.qualities[2].quality == VideoQualityLite::High
            &&& wanted.qualities[0].enabled <==> state.quality_of(mime) != VideoQualityLite::Off
            &&& wanted.qualities[1].enabled <==> state.quality_of(mime) == VideoQualityLite::Medium
                || state.quality_of(mime) == VideoQualityLite::High
            &&& wanted.qualities[2].enabled <==> state.quality_of(mime) == VideoQualityLite::High
        }),
{
}

/// The qualities are in order, and no two are the same.
pub proof fn law_qualities_are_ordered(one: VideoQualityLite, other: VideoQualityLite)
    ensures
        VideoQualityLite::Off.rank() < VideoQualityLite::Low.rank()
            < VideoQualityLite::Medium.rank() < VideoQualityLite::High.rank(),
        one.rank() == other.rank() ==> one == other,
{
}

/// Each known codec is told once, in order, with what is wanted of it.
pub proof fn law_known_codecs_are_told(state: VideoView, i: int)
    ensures
        state.emitted().len() == crate::dynacast_manager::in_order(state.known).len(),
        0 <= i < state.emitted().len() ==> state.emitted()[i] == state.wanted_of(
            crate::dynacast_manager::in_order(state.known)[i],
        ),
{
}

/// What a subscriber wants replaces what it wanted of the codec before, and nothing that another
/// member or another codec has, but for the stand-in, which gives way.
pub proof fn law_subscriber_speaks_for_itself(
    state: VideoView,
    subscriber: Seq<char>,
    mime: MimeTypeLite,
    quality: VideoQualityLite,
    key: Seq<Seq<char>>,
)
    requires
        !state.regressed.contains_key(mime),
    ensures
        ({
            let after = state.after_subscriber(subscriber, mime, quality);
            let own = seq![subscriber, mime.name()];
            let stand_in = seq![crate::dynacast_manager::seed(), mime.name()];
            &&& after.subscribers.contains_key(own) && after.subscribers[own] == quality
            &&& stand_in != own ==> !after.subscribers.contains_key(stand_in)
            &&& key != own && key != stand_in ==> after.subscribers.contains_key(key)
                == state.subscribers.contains_key(key)
            &&& key != own && key != stand_in && state.subscribers.contains_key(key)
                ==> after.subscribers[key] == state.subscribers[key]
            &&& after.nodes == state.nodes
            &&& after.regressed == state.regressed
            &&& after.known == state.known.insert(mime)
        }),
{
    assert(state.after_subscriber(subscriber, mime, quality).known =~= state.known.insert(mime));
}

/// What a node wants of a codec replaces what it wanted of it before, and nothing else, but for the
/// stand-in, which gives way; of a codec that was given up it changes nothing.
pub proof fn law_node_speaks_for_itself(
    state: VideoView,
    node: Seq<char>,
    mime: MimeTypeLite,
    quality: VideoQualityLite,
    key: Seq<Seq<char>>,
)
    ensures
        ({
            let after = state.after_node_codec(node, mime, quality);
            let own = seq![node, mime.name()];
            let stand_in = seq![crate::dynacast_manager::seed(), mime.name()];
            &&& after.known == state.known.insert(mime)
            &&& after.regressed == state.regressed
            &&& state.regressed.contains_key(mime) ==> after.nodes == state.nodes
                && after.subscribers == state.subscribers
            &&& !state.regressed.contains_key(mime) ==> {
                &&& after.nodes.contains_key(own) && after.nodes[own] == quality
                &&& key != own ==> after.nodes.contains_key(key) == state.nodes.contains_key(key)
                &&& key != own && state.nodes.contains_key(key) ==> after.nodes[key]
                    == state.nodes[key]
                &&& !after.subscribers.contains_key(stand_in)
                &&& key != stand_in ==> after.subscribers.contains_key(key)
                    == state.subscribers.contains_key(key)
                &&& key != stand_in && state.subscribers.contains_key(key)
                    ==> after.subscribers[key] == state.subscribers[key]
            }
        }),
{
}

/// What a node wants of several codecs is taken one after the other.
pub proof fn law_node_codecs_are_taken_in_order(
    state: VideoView,
    node: Seq<char>,
    qualities: Seq<(MimeTypeLite, VideoQualityLite)>,
    mime: MimeTypeLite,
    quality: VideoQualityLite,
)
    ensures
        state.after_node(node, Seq::empty()) == state,
        state.after_node(node, qualities.push((mime, quality))) == state.after_node(
            node,
            qualities,
        ).after_node_codec(node, mime, quality),
{
    assert(qualities.push((mime, quality)).drop_last() =~= qualities);
}

/// A codec that is given up is known, and so is the one that takes its place; what members want is
/// kept, and what they want of other codecs counts as before.
pub proof fn law_regression_keeps_the_members(
    state: VideoView,
    from: MimeTypeLite,
    to: MimeTypeLite,
    key: Seq<Seq<char>>,
)
    ensures
        ({
            let after = state.after_regression(from, to);
            &&& after.regressed.contains_key(from) && after.regressed[from] == to
            &&& after.known.contains(from) && after.known.contains(to)
            &&& after.nodes == state.nodes
            &&& state.subscribers.contains_key(key) ==> after.subscribers.contains_key(key)
            &&& key != seq![crate::dynacast_manager::seed(), to.name()]
                ==> after.subscribers.contains_key(key) == state.subscribers.contains_key(key)
            &&& key != seq![crate::dynacast_manager::seed(), to.name()]
                && state.subscribers.contains_key(key) ==> after.subscribers[key]
                == state.subscribers[key]
            &&& forall|mime: MimeTypeLite|
                mime != from ==> after.regressed.contains_key(mime)
                    == #[trigger] state.regressed.contains_key(mime)
        }),
{
}

} // verus!
