//! Whether the streams of a track are flowing.
use vstd::prelude::*;

verus! {

/// The highest spatial layer.
pub const DEFAULT_MAX_SPATIAL_LAYER: i32 = 2;

/// Whether a stream is flowing.
#[derive(Debug, Clone, Copy, PartialEq, Eq, Structural)]
pub enum StreamStatus {
    Stopped,
    Active,
}

impl Default for StreamStatus {
    fn default() -> (status: Self)
        ensures
            status == StreamStatus::Stopped,
    {
        StreamStatus::Stopped
    }
}

/// What a check says of a stream.
#[derive(Debug, Clone, Copy, PartialEq, Eq, Structural)]
pub enum StreamStatusChange {
    Unchanged,
    Stopped,
    Active,
}

/// How many packets a cycle must bring, and how many such cycles make a stream active.
#[derive(Debug, Clone, Copy, PartialEq, Eq, Structural)]
pub struct StreamTrackerPacketConfig {
    pub samples_required: u32,
    pub cycles_required: u32,
}

/// Counts the packets of a stream, cycle by cycle.
#[derive(Debug, Clone, Copy, PartialEq, Eq, Structural)]
pub struct StreamTrackerPacket {
    pub config: StreamTrackerPacketConfig,
    pub count_since_last: u32,
    pub initialized: bool,
    pub cycle_count: u32,
}

impl StreamTrackerPacket {
    /// A counter that has seen nothing.
    pub open spec fn fresh(config: StreamTrackerPacketConfig) -> Self {
        StreamTrackerPacket { config, count_since_last: 0, initialized: false, cycle_count: 0 }
    }

    /// The counter after a packet.
    pub open spec fn after_packet(self) -> Self {
        if self.initialized {
            StreamTrackerPacket {
                count_since_last: self.count_since_last.saturating_add(1),
                ..self
            }
        } else {
            StreamTrackerPacket { count_since_last: 1, initialized: true, ..self }
        }
    }

    /// How many cycles in a row brought enough, with the one that ends now.
    pub open spec fn cycles(self) -> u32 {
        if self.count_since_last >= self.config.samples_required {
            self.cycle_count.saturating_add(1)
        } else {
            0
        }
    }

    /// The counter after a cycle.
    pub open spec fn after_cycle(self) -> Self {
        if self.initialized {
            StreamTrackerPacket { cycle_count: self.cycles(), count_since_last: 0, ..self }
        } else {
            self
        }
    }

    /// What the end of a cycle says: stopped if it brought too little, active after enough cycles
    /// in a row.
    pub open spec fn cycle_status(self) -> StreamStatusChange {
        if !self.initialized {
            StreamStatusChange::Unchanged
        } else if self.cycles() == 0 {
            StreamStatusChange::Stopped
        } else if self.cycles() >= self.config.cycles_required {
            StreamStatusChange::Active
        } else {
            StreamStatusChange::Unchanged
        }
    }

    /// A counter that has seen nothing.
    pub fn new(config: StreamTrackerPacketConfig) -> (tracker: Self)
        ensures
            tracker == Self::fresh(config),
    {
        StreamTrackerPacket { config, count_since_last: 0, initialized: false, cycle_count: 0 }
    }

    /// Forgets what was seen.
    pub fn reset(&mut self)
        ensures
            *final(self) == Self::fresh(old(self).config),
    {
        self.count_since_last = 0;
        self.initialized = false;
        self.cycle_count = 0;
    }

    /// Counts a packet. The first one makes the stream active.
    pub fn observe(&mut self) -> (change: StreamStatusChange)
        ensures
            *final(self) == old(self).after_packet(),
            change == (if old(self).initialized {
                StreamStatusChange::Unchanged
            } else {
                StreamStatusChange::Active
            }),
    {
        if !self.initialized {
            self.initialized = true;
            self.count_since_last = 1;
            return StreamStatusChange::Active;
        }
        self.count_since_last = self.count_since_last.saturating_add(1);
        StreamStatusChange::Unchanged
    }

    /// Ends a cycle.
    pub fn check_status(&mut self) -> (change: StreamStatusChange)
        ensures
            *final(self) == old(self).after_cycle(),
            change == old(self).cycle_status(),
    {
        if !self.initialized {
            return StreamStatusChange::Unchanged;
        }
        if self.count_since_last >= self.config.samples_required {
            self.cycle_count = self.cycle_count.saturating_add(1);
        } else {
            self.cycle_count = 0;
        }
        let status: StreamStatusChange = if self.cycle_count == 0 {
            StreamStatusChange::Stopped
        } else if self.cycle_count >= self.config.cycles_required {
            StreamStatusChange::Active
        } else {
            StreamStatusChange::Unchanged
        };
        self.count_since_last = 0;
        status
    }
}

/// Follows the status of a stream, and tells its changes to whoever watches.
#[derive(Debug, Clone, Copy, PartialEq, Eq, Structural)]
pub struct StreamTracker {
    pub packet: StreamTrackerPacket,
    pub paused: bool,
    pub status: StreamStatus,
    pub last_notified_status: StreamStatus,
    pub watched: bool,
}

impl StreamTracker {
    /// What is told: the status, if it differs from the one that was told last and somebody
    /// watches.
    pub open spec fn told(self) -> Option<StreamStatus> {
        if self.watched && self.status != self.last_notified_status {
            Some(self.status)
        } else {
            None
        }
    }

    /// The tracker after the status was told.
    pub open spec fn settled(self) -> Self {
        StreamTracker { last_notified_status: self.status, ..self }
    }

    /// The tracker of a stream that stopped and was forgotten.
    pub open spec fn forgotten(self) -> Self {
        StreamTracker {
            packet: StreamTrackerPacket::fresh(self.packet.config),
            status: StreamStatus::Stopped,
            ..self
        }
    }

    /// The tracker of a paused stream, or of one that goes on.
    pub open spec fn with_paused(self, paused: bool) -> Self {
        if paused {
            StreamTracker { paused, status: StreamStatus::Stopped, ..self }
        } else {
            StreamTracker { paused, ..self.forgotten() }
        }
    }

    /// The tracker after a packet. Packets of a paused stream and empty packets do not count.
    pub open spec fn with_packet(self, payload_size: usize) -> Self {
        if self.paused || payload_size == 0 {
            self
        } else {
            StreamTracker {
                packet: self.packet.after_packet(),
                status: if self.packet.initialized {
                    self.status
                } else {
                    StreamStatus::Active
                },
                ..self
            }
        }
    }

    /// The tracker after a cycle.
    pub open spec fn with_cycle(self) -> Self {
        StreamTracker {
            packet: self.packet.after_cycle(),
            status: match self.packet.cycle_status() {
                StreamStatusChange::Stopped => StreamStatus::Stopped,
                StreamStatusChange::Active => StreamStatus::Active,
                StreamStatusChange::Unchanged => self.status,
            },
            ..self
        }
    }

    /// What was told is what is so.
    pub open spec fn wf(self) -> bool {
        self.last_notified_status == self.status
    }

    /// A stream that is not flowing. Nobody watches.
    pub fn new(packet: StreamTrackerPacket) -> (tracker: Self)
        ensures
            tracker.wf(),
            tracker == (StreamTracker {
                packet,
                paused: false,
                status: StreamStatus::Stopped,
                last_notified_status: StreamStatus::Stopped,
                watched: false,
            }),
    {
        StreamTracker {
            packet,
            paused: false,
            status: StreamStatus::Stopped,
            last_notified_status: StreamStatus::Stopped,
            watched: false,
        }
    }

    /// From now on somebody watches.
    pub fn on_status_changed(&mut self)
        ensures
            *final(self) == (StreamTracker { watched: true, ..*old(self) }),
    {
        self.watched = true;
    }

    /// The status of the stream.
    pub fn status(&self) -> (status: StreamStatus)
        ensures
            status == self.status,
    {
        self.status
    }

    /// Forgets what was seen.
    pub fn reset(&mut self) -> (told: Option<StreamStatus>)
        requires
            old(self).wf(),
        ensures
            final(self).wf(),
            told == old(self).forgotten().told(),
            *final(self) == old(self).forgotten().settled(),
    {
        self.packet.reset();
        self.status = StreamStatus::Stopped;
        self.maybe_notify_status()
    }

    /// Pauses the stream, or lets it go on from nothing.
    pub fn set_paused(&mut self, paused: bool) -> (told: Option<StreamStatus>)
        requires
            old(self).wf(),
        ensures
            final(self).wf(),
            told == old(self).with_paused(paused).told(),
            *final(self) == old(self).with_paused(paused).settled(),
    {
        self.paused = paused;
        if paused {
            self.status = StreamStatus::Stopped;
        } else {
            self.packet.reset();
            self.status = StreamStatus::Stopped;
        }
        self.maybe_notify_status()
    }

    /// Counts a packet.
    pub fn observe(&mut self, payload_size: usize) -> (told: Option<StreamStatus>)
        requires
            old(self).wf(),
        ensures
            final(self).wf(),
            told == old(self).with_packet(payload_size).told(),
            *final(self) == old(self).with_packet(payload_size).settled(),
    {
        if self.paused || payload_size == 0 {
            return None;
        }
        let status_change: StreamStatusChange = self.packet.observe();
        if status_change == StreamStatusChange::Active {
            self.status = StreamStatus::Active;
            return self.maybe_notify_status();
        }
        None
    }

    /// Ends a cycle.
    pub fn update_status(&mut self) -> (told: Option<StreamStatus>)
        requires
            old(self).wf(),
        ensures
            final(self).wf(),
            told == old(self).with_cycle().told(),
            *final(self) == old(self).with_cycle().settled(),
    {
        match self.packet.check_status() {
            StreamStatusChange::Stopped => {
                self.status = StreamStatus::Stopped;
            },
            StreamStatusChange::Active => {
                self.status = StreamStatus::Active;
            },
            StreamStatusChange::Unchanged => {},
        }
        self.maybe_notify_status()
    }

    /// Tells the status, if it differs from the one that was told last and somebody watches.
    pub fn maybe_notify_status(&mut self) -> (told: Option<StreamStatus>)
        ensures
            told == old(self).told(),
            *final(self) == old(self).settled(),
    {
        if self.status == self.last_notified_status {
            return None;
        }
        self.last_notified_status = self.status;
        if self.watched {
            Some(self.status)
        } else {
            None
        }
    }
}

/// Whether a frame is there for a decode target.
#[derive(Debug, Clone, Copy, PartialEq, Eq, Structural)]
pub enum DecodeTargetIndication {
    NotPresent,
    Required,
}

/// A decode target, and its layers.
#[derive(Debug, Clone, Copy, PartialEq, Eq, Structural)]
pub struct DependencyDescriptorDecodeTarget {
    pub target: usize,
    pub spatial: i32,
    pub temporal: i32,
}

/// The parts of a dependency descriptor that tell which layers flow.
#[derive(Debug, Clone)]
pub struct ExtDependencyDescriptorLite {
    pub active_decode_targets_bitmask: Option<u32>,
    pub decode_targets: Vec<DependencyDescriptorDecodeTarget>,
    pub decode_target_indications: Vec<DecodeTargetIndication>,
    pub active_decode_targets_updated: bool,
}

impl ExtDependencyDescriptorLite {
    /// A frame is there for the decode target.
    pub open spec fn is_present(self, target: DependencyDescriptorDecodeTarget) -> bool {
        target.target < self.decode_target_indications@.len()
            && self.decode_target_indications@[target.target as int]
            != DecodeTargetIndication::NotPresent
    }

    /// The mask has a bit for every decode target with a frame.
    pub open spec fn fits_mask(self) -> bool {
        forall|i: int|
            0 <= i < self.decode_targets@.len() && self.is_present(
                #[trigger] self.decode_targets@[i],
            ) ==> self.decode_targets@[i].target < 32
    }

    /// A frame is there for the decode target, and the mask has its bit.
    pub open spec fn is_active(self, target: DependencyDescriptorDecodeTarget, mask: u32) -> bool {
        self.is_present(target) && mask & (1u32 << (target.target as u32)) != 0
    }

    /// The highest spatial and temporal layers of the active ones among the first `n` decode
    /// targets, -1 if there are none.
    pub open spec fn highest_layers(self, mask: u32, n: nat) -> (i32, i32)
        decreases n,
    {
        if n == 0 {
            ((-1) as i32, (-1) as i32)
        } else {
            let before = self.highest_layers(mask, (n - 1) as nat);
            let target = self.decode_targets@[n - 1];
            if self.is_active(target, mask) {
                (
                    greater(before.0, lesser(target.spatial, DEFAULT_MAX_SPATIAL_LAYER)),
                    greater(before.1, target.temporal),
                )
            } else {
                before
            }
        }
    }
}

/// The greater of two numbers.
pub open spec fn greater(a: i32, b: i32) -> i32 {
    if a >= b {
        a
    } else {
        b
    }
}

/// The lesser of two numbers.
pub open spec fn lesser(a: i32, b: i32) -> i32 {
    if a <= b {
        a
    } else {
        b
    }
}

/// Follows which spatial layers flow, and tells changes of the layers that somebody watches.
#[derive(Debug, Clone, Copy, PartialEq, Eq, Structural)]
pub struct StreamTrackerDependencyDescriptor {
    pub paused: bool,
    pub max_spatial_layer: i32,
    pub max_temporal_layer: i32,
    pub watched_low: bool,
    pub watched_medium: bool,
    pub watched_high: bool,
}

impl StreamTrackerDependencyDescriptor {
    /// The highest layer is one that there is, or -1.
    pub open spec fn wf(self) -> bool {
        -1 <= self.max_spatial_layer && self.max_spatial_layer <= DEFAULT_MAX_SPATIAL_LAYER
    }

    /// Somebody watches the layer.
    pub open spec fn is_watched(self, layer: i32) -> bool {
        ||| layer == 0 && self.watched_low
        ||| layer == 1 && self.watched_medium
        ||| layer == 2 && self.watched_high
    }

    /// The status of a layer: those up to the highest flow.
    pub open spec fn status_of(self, layer: i32) -> StreamStatus {
        if layer > self.max_spatial_layer {
            StreamStatus::Stopped
        } else {
            StreamStatus::Active
        }
    }

    /// The status of the layers that are watched, from `from` to `to`, in order.
    pub open spec fn told_layers(self, from: int, to: int, status: StreamStatus) -> Seq<
        (i32, StreamStatus),
    >
        decreases to - from,
    {
        if to <= from {
            Seq::empty()
        } else {
            let before = self.told_layers(from, to - 1, status);
            if self.is_watched((to - 1) as i32) {
                before.push(((to - 1) as i32, status))
            } else {
                before
            }
        }
    }

    /// The tracker with the layers that a descriptor shows to flow.
    pub open spec fn with_layers(self, layers: (i32, i32)) -> Self {
        StreamTrackerDependencyDescriptor {
            max_spatial_layer: layers.0,
            max_temporal_layer: layers.1,
            ..self
        }
    }

    /// The packet counts: the stream is not paused, the packet is not empty, and its descriptor
    /// updates the active decode targets.
    pub open spec fn counts(
        self,
        pkt_size: usize,
        payload_size: usize,
        dd: Option<ExtDependencyDescriptorLite>,
    ) -> bool {
        !self.paused && payload_size != 0 && pkt_size != 0 && dd is Some
            && dd->0.active_decode_targets_updated && dd->0.active_decode_targets_bitmask is Some
    }

    /// The tracker after a packet.
    pub open spec fn after_packet(
        self,
        pkt_size: usize,
        payload_size: usize,
        dd: Option<ExtDependencyDescriptorLite>,
    ) -> Self {
        if self.counts(pkt_size, payload_size, dd) {
            self.with_layers(
                dd->0.highest_layers(
                    dd->0.active_decode_targets_bitmask->0,
                    dd->0.decode_targets@.len(),
                ),
            )
        } else {
            self
        }
    }

    /// What is told where the highest layer changes: the layers between are active now, or
    /// stopped.
    pub open spec fn told_between(self, after: Self) -> Seq<(i32, StreamStatus)> {
        if self.max_spatial_layer < after.max_spatial_layer {
            self.told_layers(
                self.max_spatial_layer + 1,
                after.max_spatial_layer + 1,
                StreamStatus::Active,
            )
        } else {
            self.told_layers(
                after.max_spatial_layer + 1,
                self.max_spatial_layer + 1,
                StreamStatus::Stopped,
            )
        }
    }

    /// No layer flows, and nobody watches.
    pub fn new() -> (tracker: Self)
        ensures
            tracker.wf(),
            tracker == (StreamTrackerDependencyDescriptor {
                paused: false,
                max_spatial_layer: (-1) as i32,
                max_temporal_layer: (-1) as i32,
                watched_low: false,
                watched_medium: false,
                watched_high: false,
            }),
    {
        StreamTrackerDependencyDescriptor {
            paused: false,
            max_spatial_layer: -1,
            max_temporal_layer: -1,
            watched_low: false,
            watched_medium: false,
            watched_high: false,
        }
    }

    /// The status of a layer.
    pub fn status(&self, layer: i32) -> (status: StreamStatus)
        ensures
            status == self.status_of(layer),
    {
        if layer > self.max_spatial_layer {
            StreamStatus::Stopped
        } else {
            StreamStatus::Active
        }
    }

    /// From now on somebody watches the layer, if there is such a layer.
    pub fn on_status_changed(&mut self, layer: i32)
        ensures
            *final(self) == (StreamTrackerDependencyDescriptor {
                watched_low: old(self).watched_low || layer == 0,
                watched_medium: old(self).watched_medium || layer == 1,
                watched_high: old(self).watched_high || layer == 2,
                ..*old(self)
            }),
    {
        if layer < 0 || layer > DEFAULT_MAX_SPATIAL_LAYER {
            return;
        }
        if layer == 0 {
            self.watched_low = true;
        } else if layer == 1 {
            self.watched_medium = true;
        } else {
            self.watched_high = true;
        }
    }

    fn tell_layers(&self, from: i32, to: i32, status: StreamStatus) -> (told: Vec<
        (i32, StreamStatus),
    >)
        requires
            from <= to,
        ensures
            told@ == self.told_layers(from as int, to as int, status),
    {
        let mut told: Vec<(i32, StreamStatus)> = Vec::new();
        let mut layer: i32 = from;
        while layer < to
            invariant
                from <= layer,
                layer <= to,
                told@ == self.told_layers(from as int, layer as int, status),
            decreases to - layer,
        {
            let watched: bool = (layer == 0 && self.watched_low) || (layer == 1
                && self.watched_medium) || (layer == 2 && self.watched_high);
            if watched {
                told.push((layer, status));
            }
            layer += 1;
        }
        told
    }

    /// Pauses the stream, or lets it go on with no layer flowing.
    pub fn set_paused(&mut self, paused: bool) -> (told: Vec<(i32, StreamStatus)>)
        requires
            old(self).wf(),
        ensures
            final(self).wf(),
            old(self).paused == paused || paused ==> {
                &&& *final(self) == (StreamTrackerDependencyDescriptor { paused, ..*old(self) })
                &&& told@.len() == 0
            },
            old(self).paused && !paused ==> {
                &&& *final(self) == (StreamTrackerDependencyDescriptor {
                    paused,
                    ..old(self).with_layers(((-1) as i32, (-1) as i32))
                })
                &&& told@ == old(self).told_layers(0, 3, StreamStatus::Stopped)
            },
    {
        if self.paused == paused {
            return Vec::new();
        }
        self.paused = paused;
        if paused {
            return Vec::new();
        }
        self.max_spatial_layer = -1;
        self.max_temporal_layer = -1;
        let told: Vec<(i32, StreamStatus)> = self.tell_layers(0, 3, StreamStatus::Stopped);
        proof {
            lemma_told_by_watched(*old(self), *self, 0, 3, StreamStatus::Stopped);
        }
        told
    }

    /// Takes note of the layers that a packet shows to flow.
    pub fn observe(
        &mut self,
        pkt_size: usize,
        payload_size: usize,
        dd: Option<ExtDependencyDescriptorLite>,
    ) -> (told: Vec<(i32, StreamStatus)>)
        requires
            old(self).wf(),
            old(self).counts(pkt_size, payload_size, dd) ==> dd->0.fits_mask(),
        ensures
            final(self).wf(),
            *final(self) == old(self).after_packet(pkt_size, payload_size, dd),
            told@ == old(self).told_between(*final(self)),
    {
        if self.paused || payload_size == 0 || pkt_size == 0 {
            return Vec::new();
        }
        let dd: ExtDependencyDescriptorLite = match dd {
            Some(dd) => dd,
            None => {
                return Vec::new();
            },
        };
        if !dd.active_decode_targets_updated {
            return Vec::new();
        }
        let mask: u32 = match dd.active_decode_targets_bitmask {
            Some(mask) => mask,
            None => {
                return Vec::new();
            },
        };
        let mut max_spatial: i32 = -1;
        let mut max_temporal: i32 = -1;
        let mut i: usize = 0;
        while i < dd.decode_targets.len()
            invariant
                i <= dd.decode_targets@.len(),
                dd.fits_mask(),
                (max_spatial, max_temporal) == dd.highest_layers(mask, i as nat),
                -1 <= max_spatial,
                max_spatial <= DEFAULT_MAX_SPATIAL_LAYER,
            decreases dd.decode_targets.len() - i,
        {
            let target: DependencyDescriptorDecodeTarget = dd.decode_targets[i];
            i += 1;
            let present: bool = target.target < dd.decode_target_indications.len()
                && dd.decode_target_indications[target.target]
                != DecodeTargetIndication::NotPresent;
            if !present {
                continue;
            }
            assert(target.target < 32) by {
                assert(dd.is_present(dd.decode_targets@[i - 1]));
            }
            if mask & (1u32 << (target.target as u32)) == 0 {
                continue;
            }
            let spatial: i32 = if target.spatial <= DEFAULT_MAX_SPATIAL_LAYER {
                target.spatial
            } else {
                DEFAULT_MAX_SPATIAL_LAYER
            };
            if max_spatial < spatial {
                max_spatial = spatial;
            }
            if max_temporal < target.temporal {
                max_temporal = target.temporal;
            }
        }
        let old_max_spatial: i32 = self.max_spatial_layer;
        self.max_spatial_layer = max_spatial;
        self.max_temporal_layer = max_temporal;
        if old_max_spatial < max_spatial {
            proof {
                lemma_told_by_watched(
                    *old(self),
                    *self,
                    old_max_spatial + 1,
                    max_spatial + 1,
                    StreamStatus::Active,
                );
            }
            self.tell_layers(old_max_spatial + 1, max_spatial + 1, StreamStatus::Active)
        } else {
            proof {
                lemma_told_by_watched(
                    *old(self),
                    *self,
                    max_spatial + 1,
                    old_max_spatial + 1,
                    StreamStatus::Stopped,
                );
            }
            self.tell_layers(max_spatial + 1, old_max_spatial + 1, StreamStatus::Stopped)
        }
    }
}

proof fn lemma_told_by_watched(
    a: StreamTrackerDependencyDescriptor,
    b: StreamTrackerDependencyDescriptor,
    from: int,
    to: int,
    status: StreamStatus,
)
    requires
        a.watched_low == b.watched_low,
        a.watched_medium == b.watched_medium,
        a.watched_high == b.watched_high,
    ensures
        a.told_layers(from, to, status) == b.told_layers(from, to, status),
    decreases to - from,
{
    if to > from {
        lemma_told_by_watched(a, b, from, to - 1, status);
    }
}

/// One layer of a tracker.
pub struct StreamTrackerDependencyDescriptorLayered<'a> {
    pub parent: &'a mut StreamTrackerDependencyDescriptor,
    pub layer: i32,
}

impl StreamTrackerDependencyDescriptor {
    /// One layer of the tracker.
    pub fn layered_tracker(&mut self, layer: i32) -> (tracker:
        StreamTrackerDependencyDescriptorLayered<'_>)
        ensures
            *tracker.parent == *old(self),
            tracker.layer == layer,
            *final(self) == *final(tracker.parent),
    {
        StreamTrackerDependencyDescriptorLayered { parent: self, layer }
    }
}

impl StreamTrackerDependencyDescriptorLayered<'_> {
    /// From now on somebody watches the layer.
    pub fn on_status_changed(&mut self)
        ensures
            final(self).layer == old(self).layer,
            *final(self).parent == (StreamTrackerDependencyDescriptor {
                watched_low: old(self).parent.watched_low || old(self).layer == 0,
                watched_medium: old(self).parent.watched_medium || old(self).layer == 1,
                watched_high: old(self).parent.watched_high || old(self).layer == 2,
                ..*old(self).parent
            }),
            *final(final(self).parent) == *final(old(self).parent),
    {
        self.parent.on_status_changed(self.layer);
    }

    /// The status of the layer.
    pub fn status(&self) -> (status: StreamStatus)
        ensures
            status == old(self.parent).status_of(self.layer),
    {
        self.parent.status(self.layer)
    }
}

/// The first packet makes a stream active, and the first cycle that then brings too little makes
/// it stopped.
pub proof fn law_stream_follows_its_packets(tracker: StreamTracker, payload_size: usize)
    requires
        tracker.wf(),
        !tracker.paused,
        !tracker.packet.initialized,
        payload_size > 0,
    ensures
        tracker.with_packet(payload_size).status == StreamStatus::Active,
        tracker.with_packet(payload_size).packet.config.samples_required > 1 ==> tracker.with_packet(
            payload_size,
        ).settled().with_cycle().status == StreamStatus::Stopped,
        tracker.with_packet(payload_size).packet.config.samples_required <= 1
            ==> tracker.with_packet(payload_size).settled().with_cycle().status
            == StreamStatus::Active,
{
}

/// A status is told once: after it was told, nothing is told until it changes.
pub proof fn law_status_is_told_once(tracker: StreamTracker)
    ensures
        tracker.settled().told() is None,
        tracker.settled().wf(),
{
}

/// A paused stream is stopped, and its packets change nothing.
pub proof fn law_paused_stream_is_stopped(tracker: StreamTracker, payload_size: usize)
    ensures
        tracker.with_paused(true).status == StreamStatus::Stopped,
        tracker.with_paused(true).settled().with_packet(payload_size) == tracker.with_paused(
            true,
        ).settled(),
{
}

/// Where the highest layer changes, the layers that are watched and whose status differs are told
/// their new status, each once and in order, and no others are.
pub proof fn law_changed_layers_are_told(
    before: StreamTrackerDependencyDescriptor,
    layers: (i32, i32),
    layer: i32,
    status: StreamStatus,
)
    requires
        before.wf(),
        -1 <= layers.0 <= DEFAULT_MAX_SPATIAL_LAYER,
        0 <= layer <= DEFAULT_MAX_SPATIAL_LAYER,
    ensures
        before.told_between(before.with_layers(layers)).contains((layer, status))
            <==> before.is_watched(layer) && before.status_of(layer) != before.with_layers(
            layers,
        ).status_of(layer) && status == before.with_layers(layers).status_of(layer),
        forall|i: int, j: int|
            0 <= i < j < before.told_between(before.with_layers(layers)).len() ==> (
            #[trigger] before.told_between(before.with_layers(layers))[i]).0 < (
            #[trigger] before.told_between(before.with_layers(layers))[j]).0,
{
    lemma_told(before, before.max_spatial_layer + 1, layers.0 + 1, StreamStatus::Active);
    lemma_told(before, layers.0 + 1, before.max_spatial_layer + 1, StreamStatus::Stopped);
}

proof fn lemma_told(
    tracker: StreamTrackerDependencyDescriptor,
    from: int,
    to: int,
    status: StreamStatus,
)
    requires
        0 <= from <= 3,
        0 <= to <= 3,
    ensures
        forall|layer: i32, other: StreamStatus| #[trigger]
            tracker.told_layers(from, to, status).contains((layer, other)) <==> from <= layer && layer
                < to && tracker.is_watched(layer) && other == status,
        forall|i: int, j: int|
            0 <= i < j < tracker.told_layers(from, to, status).len() ==> (
            #[trigger] tracker.told_layers(from, to, status)[i]).0 < (
            #[trigger] tracker.told_layers(from, to, status)[j]).0,
    decreases to - from,
{
    let list = tracker.told_layers(from, to, status);
    if to > from {
        lemma_told(tracker, from, to - 1, status);
        let before = tracker.told_layers(from, to - 1, status);
        assert forall|i: int| 0 <= i < before.len() implies from <= (#[trigger] before[i]).0 && before[i].0
            < to - 1 && before[i].1 == status by {
            assert(before.contains((before[i].0, before[i].1)));
        }
        assert forall|layer: i32, other: StreamStatus| #[trigger]
            list.contains((layer, other)) <==> from <= layer && layer < to && tracker.is_watched(layer)
                && other == status by {
            if list.contains((layer, other)) {
                let i = choose|i: int| 0 <= i < list.len() && list[i] == (layer, other);
                if i < before.len() {
                    assert(before[i] == (layer, other));
                    assert(before.contains((layer, other)));
                }
            }
            if from <= layer && layer < to && tracker.is_watched(layer) && other == status {
                if layer == to - 1 {
                    assert(list[before.len() as int] == (layer, other));
                } else {
                    assert(before.contains((layer, other)));
                    let i = choose|i: int| 0 <= i < before.len() && before[i] == (layer, other);
                    assert(list[i] == (layer, other));
                }
            }
        }
    }
}

/// Packets are counted from the first one on, and a cycle begins with none.
pub proof fn law_packets_are_counted(counter: StreamTrackerPacket)
    ensures
        counter.after_packet().initialized,
        !counter.initialized ==> counter.after_packet().count_since_last == 1,
        counter.initialized && counter.count_since_last < u32::MAX
            ==> counter.after_packet().count_since_last == counter.count_since_last + 1,
        counter.after_packet().cycle_count == counter.cycle_count,
        counter.after_packet().config == counter.config,
        counter.initialized ==> counter.after_cycle().count_since_last == 0,
        !counter.initialized ==> counter.after_cycle() == counter,
        counter.after_cycle().config == counter.config,
{
}

/// A cycle with fewer packets than are required stops the stream and its run of cycles; one with
/// enough lengthens the run, and makes the stream active once the run is long enough. Before the
/// first packet a cycle says nothing.
pub proof fn law_cycle_decides_on_the_status(counter: StreamTrackerPacket)
    requires
        counter.cycle_count < u32::MAX,
    ensures
        ({
            let enough = counter.count_since_last >= counter.config.samples_required;
            let long = counter.cycle_count + 1 >= counter.config.cycles_required;
            &&& counter.cycle_status() == StreamStatusChange::Stopped <==> counter.initialized
                && !enough
            &&& counter.cycle_status() == StreamStatusChange::Active <==> counter.initialized
                && enough && long
            &&& counter.initialized && enough ==> counter.after_cycle().cycle_count
                == counter.cycle_count + 1
            &&& counter.initialized && !enough ==> counter.after_cycle().cycle_count == 0
        }),
{
}

/// The status of a stream follows its cycles, and a cycle that says nothing leaves it.
pub proof fn law_status_follows_the_cycles(tracker: StreamTracker)
    ensures
        tracker.packet.cycle_status() == StreamStatusChange::Stopped ==> tracker.with_cycle().status
            == StreamStatus::Stopped,
        tracker.packet.cycle_status() == StreamStatusChange::Active ==> tracker.with_cycle().status
            == StreamStatus::Active,
        tracker.packet.cycle_status() == StreamStatusChange::Unchanged
            ==> tracker.with_cycle().status == tracker.status,
        tracker.with_cycle().paused == tracker.paused,
        tracker.with_cycle().watched == tracker.watched,
        tracker.with_cycle().last_notified_status == tracker.last_notified_status,
{
}

/// A status is told exactly where somebody watches and it is not the one that was told last.
pub proof fn law_changed_status_is_told(tracker: StreamTracker)
    ensures
        tracker.told() is Some <==> tracker.watched && tracker.status
            != tracker.last_notified_status,
        tracker.told() matches Some(status) ==> status == tracker.status,
        tracker.settled().status == tracker.status,
        tracker.settled().packet == tracker.packet,
        tracker.settled().paused == tracker.paused,
        tracker.settled().watched == tracker.watched,
{
}

/// A stream that goes on after a pause is stopped until a packet comes, which counts as its first.
pub proof fn law_resumed_stream_begins_anew(tracker: StreamTracker, payload_size: usize)
    requires
        payload_size > 0,
    ensures
        ({
            let resumed = tracker.with_paused(false);
            &&& !resumed.paused
            &&& resumed.status == StreamStatus::Stopped
            &&& !resumed.packet.initialized
            &&& resumed.packet.count_since_last == 0
            &&& resumed.packet.cycle_count == 0
            &&& resumed.packet.config == tracker.packet.config
            &&& resumed.with_packet(payload_size).status == StreamStatus::Active
            &&& resumed.with_packet(payload_size).packet.count_since_last == 1
        }),
        tracker.with_paused(true).paused,
        tracker.with_paused(true).packet == tracker.packet,
        tracker.forgotten().status == StreamStatus::Stopped,
        !tracker.forgotten().packet.initialized,
        tracker.forgotten().paused == tracker.paused,
{
}

/// A packet of a running stream that is not empty is counted; only the first one changes the
/// status. An empty packet changes nothing.
pub proof fn law_later_packets_leave_the_status(tracker: StreamTracker, payload_size: usize)
    ensures
        payload_size == 0 || tracker.paused ==> tracker.with_packet(payload_size) == tracker,
        payload_size > 0 && !tracker.paused ==> tracker.with_packet(payload_size).packet
            == tracker.packet.after_packet(),
        payload_size > 0 && !tracker.paused && tracker.packet.initialized ==> tracker.with_packet(
            payload_size,
        ).status == tracker.status,
        payload_size > 0 && !tracker.paused && !tracker.packet.initialized ==> tracker.with_packet(
            payload_size,
        ).status == StreamStatus::Active,
{
}

/// The highest layers are at least those of every active decode target, the spatial one no higher
/// than there are, and each of them is one of an active decode target unless there is none.
pub proof fn law_highest_layers_are_those_of_active_targets(
    dd: ExtDependencyDescriptorLite,
    mask: u32,
    n: nat,
    i: int,
)
    requires
        n <= dd.decode_targets@.len(),
    ensures
        0 <= i < n && dd.is_active(dd.decode_targets@[i], mask) ==> {
            &&& dd.highest_layers(mask, n).1 >= dd.decode_targets@[i].temporal
            &&& dd.highest_layers(mask, n).0 >= dd.decode_targets@[i].spatial || dd.highest_layers(
                mask,
                n,
            ).0 == 2
        },
        dd.highest_layers(mask, n).0 <= 2,
        dd.highest_layers(mask, n).0 >= -1,
        dd.highest_layers(mask, n).1 >= -1,
        dd.highest_layers(mask, n).0 != -1 ==> exists|j: int|
            0 <= j < n && dd.is_active(#[trigger] dd.decode_targets@[j], mask) && (
            dd.decode_targets@[j].spatial == dd.highest_layers(mask, n).0
                || dd.decode_targets@[j].spatial > 2 && dd.highest_layers(mask, n).0 == 2),
        dd.highest_layers(mask, n).1 != -1 ==> exists|j: int|
            0 <= j < n && dd.is_active(#[trigger] dd.decode_targets@[j], mask)
                && dd.decode_targets@[j].temporal == dd.highest_layers(mask, n).1,
    decreases n,
{
    if n > 0 {
        let m = (n - 1) as nat;
        law_highest_layers_are_those_of_active_targets(dd, mask, m, i);
        let before = dd.highest_layers(mask, m);
        let after = dd.highest_layers(mask, n);
        let last: int = n - 1;
        if after.0 != -1 {
            if after.0 == before.0 {
                let j = choose|j: int|
                    0 <= j < m && dd.is_active(#[trigger] dd.decode_targets@[j], mask) && (
                    dd.decode_targets@[j].spatial == before.0 || dd.decode_targets@[j].spatial > 2
                        && before.0 == 2);
                assert(dd.is_active(dd.decode_targets@[j], mask));
            } else {
                assert(dd.is_active(dd.decode_targets@[last], mask));
            }
        }
        if after.1 != -1 {
            if after.1 == before.1 {
                let j = choose|j: int|
                    0 <= j < m && dd.is_active(#[trigger] dd.decode_targets@[j], mask)
                        && dd.decode_targets@[j].temporal == before.1;
                assert(dd.is_active(dd.decode_targets@[j], mask));
            } else {
                assert(dd.is_active(dd.decode_targets@[last], mask));
            }
        }
    }
}

/// A decode target is active exactly where the frame is there for it and the mask has its bit.
pub proof fn law_active_targets_have_a_frame(
    dd: ExtDependencyDescriptorLite,
    target: DependencyDescriptorDecodeTarget,
    mask: u32,
)
    ensures
        target.target >= dd.decode_target_indications@.len() ==> !dd.is_active(target, mask),
        target.target < dd.decode_target_indications@.len() ==> (dd.is_active(target, mask)
            <==> dd.decode_target_indications@[target.target as int]
            == DecodeTargetIndication::Required && mask & (1u32 << (target.target as u32)) != 0),
{
}

/// Only a packet that is not empty, of a stream that is not paused, and whose descriptor updates
/// the active decode targets, changes the layers; it changes nothing else.
pub proof fn law_only_updates_change_the_layers(
    tracker: StreamTrackerDependencyDescriptor,
    pkt_size: usize,
    payload_size: usize,
    dd: Option<ExtDependencyDescriptorLite>,
)
    ensures
        ({
            let after = tracker.after_packet(pkt_size, payload_size, dd);
            let counts = !tracker.paused && pkt_size > 0 && payload_size > 0 && (dd matches Some(
                descriptor,
            ) && descriptor.active_decode_targets_updated
                && descriptor.active_decode_targets_bitmask is Some);
            &&& !counts ==> after == tracker
            &&& counts ==> (after.max_spatial_layer, after.max_temporal_layer)
                == dd->Some_0.highest_layers(
                dd->Some_0.active_decode_targets_bitmask->Some_0,
                dd->Some_0.decode_targets@.len(),
            )
            &&& after.paused == tracker.paused
            &&& after.watched_low == tracker.watched_low
            &&& after.watched_medium == tracker.watched_medium
            &&& after.watched_high == tracker.watched_high
        }),
{
}

/// A layer flows exactly where it is not above the highest one, and is watched by its own watcher.
pub proof fn law_layers_up_to_the_highest_flow(
    tracker: StreamTrackerDependencyDescriptor,
    layer: i32,
)
    ensures
        tracker.status_of(layer) == StreamStatus::Active <==> layer <= tracker.max_spatial_layer,
        tracker.is_watched(0) == tracker.watched_low,
        tracker.is_watched(1) == tracker.watched_medium,
        tracker.is_watched(2) == tracker.watched_high,
        layer < 0 || layer > 2 ==> !tracker.is_watched(layer),
{
}

} // verus!
