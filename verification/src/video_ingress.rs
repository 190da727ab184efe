//! Selection of the simulcast source that a subscriber gets.
use crate::protocol::VideoQuality;
use vstd::prelude::*;

verus! {

/// A spatial simulcast layer, ordered from low to high.
#[derive(Debug, Clone, Copy, PartialEq, Eq, PartialOrd, Ord, Structural)]
pub enum SpatialLayer {
    Low,
    Medium,
    High,
}

impl SpatialLayer {
    /// The place of the layer in the order.
    pub open spec fn rank(self) -> int {
        match self {
            SpatialLayer::Low => 0,
            SpatialLayer::Medium => 1,
            SpatialLayer::High => 2,
        }
    }

    /// The place of the layer in the order.
    pub fn index(self) -> (index: usize)
        ensures
            index == self.rank(),
    {
        match self {
            SpatialLayer::Low => 0,
            SpatialLayer::Medium => 1,
            SpatialLayer::High => 2,
        }
    }

    /// The layer that a quality stands for. A track that is off keeps its highest layer.
    pub fn from_quality(quality: VideoQuality) -> (layer: Self)
        ensures
            layer == match quality {
                VideoQuality::Low => SpatialLayer::Low,
                VideoQuality::Medium => SpatialLayer::Medium,
                VideoQuality::High => SpatialLayer::High,
                VideoQuality::Off => SpatialLayer::High,
            },
    {
        match quality {
            VideoQuality::Low => SpatialLayer::Low,
            VideoQuality::Medium => SpatialLayer::Medium,
            VideoQuality::High | VideoQuality::Off => SpatialLayer::High,
        }
    }
}

/// Subscriber policy derived from settings and allocation. `max` is an admission bound while
/// `desired` is the layer the target should acquire.
#[derive(Debug, Clone, Copy, PartialEq, Eq, Structural)]
pub struct LayerPolicy {
    pub max: SpatialLayer,
    pub desired: SpatialLayer,
}

impl LayerPolicy {
    /// A policy that wants one layer and none above it.
    pub fn fixed(layer: SpatialLayer) -> (policy: Self)
        ensures
            policy == (LayerPolicy { max: layer, desired: layer }),
    {
        LayerPolicy { max: layer, desired: layer }
    }
}

/// Metadata resolved by the forwarding reader before a target-local decision.
#[derive(Debug, Clone, Copy, PartialEq, Eq, Structural)]
pub struct LayerPacketMetadata {
    pub ssrc: u32,
    pub spatial: Option<SpatialLayer>,
    pub is_decodable_switch_point: bool,
}

/// Result of evaluating one incoming video packet for a subscriber.
#[derive(Debug, Clone, Copy, PartialEq, Eq, Structural)]
pub enum VideoIngressDecision {
    Forward { selected_ssrc_changed: bool },
    DropWaitingForKeyframe,
    DropNonSelectedSsrc,
    DropAboveMaximum,
    DropUnknownLayer,
}

/// Result of a timer-driven target-layer acquisition retry.
#[derive(Debug, Clone, Copy, PartialEq, Eq, Structural)]
pub struct KeyframeRequest {
    pub media_ssrc: u32,
}

/// How many timer ticks a target waits for its desired layer: one second of ticks of 250 ms.
pub const ACQUISITION_GRACE_TICKS: u8 = 4;

/// A key frame is requested no more often than once in this many ticks.
pub const KEYFRAME_RETRY_TICKS: u8 = 2;

/// How many key frames are requested in one attempt to acquire a layer. A policy update starts a
/// fresh attempt.
pub const MAX_KEYFRAME_REQUESTS_PER_ACQUISITION: u8 = 12;

/// A source that was silent for this many ticks is no longer a candidate.
pub const SOURCE_STALE_TICKS: u8 = 8;

/// Reader-local selector for one subscriber target.
///
/// Packet decisions do not read the clock or perform I/O. The owning reader invokes
/// [`Self::on_timer`] from its existing timer path, which bounds retries and fallback.
#[derive(Debug, Clone, Copy)]
pub struct SubscriberVideoLayerSelector {
    pub policy: LayerPolicy,
    pub current: Option<(u32, SpatialLayer)>,
    pub seen_ssrc: [Option<u32>; 3],
    pub seen_age_ticks: [u8; 3],
    pub waiting_for: SpatialLayer,
    pub acquisition_ticks: u8,
    pub fallback_started: bool,
    pub fallback_locked: bool,
    pub pli_ticks: u8,
    pub remaining_pli_requests: u8,
}

/// The contents of a [`SubscriberVideoLayerSelector`]. What was seen is listed by the rank of the
/// layer.
#[verifier::ext_equal]
pub struct SelectorView {
    pub policy: LayerPolicy,
    pub current: Option<(u32, SpatialLayer)>,
    pub seen_ssrc: Seq<Option<u32>>,
    pub seen_age_ticks: Seq<u8>,
    pub waiting_for: SpatialLayer,
    pub acquisition_ticks: u8,
    pub fallback_started: bool,
    pub fallback_locked: bool,
    pub pli_ticks: u8,
    pub remaining_pli_requests: u8,
}

impl View for SubscriberVideoLayerSelector {
    type V = SelectorView;

    open spec fn view(&self) -> SelectorView {
        SelectorView {
            policy: self.policy,
            current: self.current,
            seen_ssrc: self.seen_ssrc@,
            seen_age_ticks: self.seen_age_ticks@,
            waiting_for: self.waiting_for,
            acquisition_ticks: self.acquisition_ticks,
            fallback_started: self.fallback_started,
            fallback_locked: self.fallback_locked,
            pli_ticks: self.pli_ticks,
            remaining_pli_requests: self.remaining_pli_requests,
        }
    }
}

impl SelectorView {
    /// The selector in which the acquisition of the desired layer begins anew.
    pub open spec fn reacquiring(self) -> Self {
        SelectorView {
            waiting_for: self.policy.desired,
            acquisition_ticks: 0,
            fallback_started: false,
            fallback_locked: false,
            pli_ticks: 0,
            remaining_pli_requests: MAX_KEYFRAME_REQUESTS_PER_ACQUISITION,
            ..self
        }
    }

    /// The selector after a policy was set.
    pub open spec fn with_policy(self, policy: LayerPolicy) -> Self {
        if self.policy == policy {
            self
        } else {
            SelectorView { policy, ..self }.reacquiring()
        }
    }

    /// The selector after a source was heard on a layer.
    pub open spec fn heard(self, ssrc: u32, layer: SpatialLayer) -> Self {
        SelectorView {
            seen_ssrc: self.seen_ssrc.update(layer.rank(), Some(ssrc)),
            seen_age_ticks: self.seen_age_ticks.update(layer.rank(), 0),
            ..self
        }
    }

    /// The source is the one that is forwarded.
    pub open spec fn selects(self, ssrc: u32) -> bool {
        self.current matches Some((selected, _)) && selected == ssrc
    }

    /// The layer that is forwarded, the desired one where there is none.
    pub open spec fn selected_layer(self) -> SpatialLayer {
        match self.current {
            Some((_, layer)) => layer,
            None => self.policy.desired,
        }
    }

    /// The desired layer is forwarded.
    pub open spec fn satisfied(self) -> bool {
        self.current matches Some((_, layer)) && layer == self.policy.desired
    }

    /// The layer that a packet may switch to: the desired one where the packet has it and can be
    /// switched to while another layer is forwarded, else the one that is waited for.
    pub open spec fn switch_target(self, packet: LayerPacketMetadata, layer: SpatialLayer) ->
        SpatialLayer {
        if packet.is_decodable_switch_point && layer == self.policy.desired && self.current is Some
            && !self.satisfied() {
            self.policy.desired
        } else {
            self.waiting_for
        }
    }

    /// The selector after it switched to a source.
    pub open spec fn switched(self, ssrc: u32, layer: SpatialLayer) -> Self {
        SelectorView {
            current: Some((ssrc, layer)),
            acquisition_ticks: 0,
            pli_ticks: 0,
            fallback_locked: self.fallback_started && layer != self.policy.desired,
            fallback_started: false,
            remaining_pli_requests: MAX_KEYFRAME_REQUESTS_PER_ACQUISITION,
            waiting_for: self.policy.desired,
            ..self
        }
    }

    /// What becomes of a packet.
    pub open spec fn decision(self, packet: LayerPacketMetadata) -> VideoIngressDecision {
        match packet.spatial {
            None => if self.selects(packet.ssrc) {
                VideoIngressDecision::Forward { selected_ssrc_changed: false }
            } else {
                VideoIngressDecision::DropUnknownLayer
            },
            Some(layer) => if layer.rank() > self.policy.max.rank() {
                VideoIngressDecision::DropAboveMaximum
            } else if self.selects(packet.ssrc) {
                VideoIngressDecision::Forward { selected_ssrc_changed: false }
            } else if layer != self.switch_target(packet, layer) {
                VideoIngressDecision::DropNonSelectedSsrc
            } else if !packet.is_decodable_switch_point {
                VideoIngressDecision::DropWaitingForKeyframe
            } else {
                VideoIngressDecision::Forward { selected_ssrc_changed: true }
            },
        }
    }

    /// The selector after a packet.
    pub open spec fn after_packet(self, packet: LayerPacketMetadata) -> Self {
        match packet.spatial {
            None => self,
            Some(layer) => if layer.rank() > self.policy.max.rank() {
                self
            } else if self.selects(packet.ssrc) {
                self.heard(packet.ssrc, layer).heard(packet.ssrc, self.selected_layer())
            } else if self.decision(packet) is Forward {
                self.heard(packet.ssrc, layer).switched(packet.ssrc, layer)
            } else {
                self.heard(packet.ssrc, layer)
            },
        }
    }

    /// The sources after one more tick: silent ones are forgotten.
    pub open spec fn aged(self) -> Self {
        let ages = Seq::new(
            3,
            |i: int|
                if self.seen_age_ticks[i] == u8::MAX {
                    u8::MAX
                } else {
                    (self.seen_age_ticks[i] + 1) as u8
                },
        );
        SelectorView {
            seen_age_ticks: ages,
            seen_ssrc: Seq::new(
                3,
                |i: int|
                    if ages[i] >= SOURCE_STALE_TICKS {
                        None
                    } else {
                        self.seen_ssrc[i]
                    },
            ),
            ..self
        }
    }

    /// The source that is forwarded was forgotten.
    pub open spec fn lost_source(self) -> bool {
        self.current matches Some((ssrc, layer)) && self.seen_ssrc[layer.rank()] != Some(ssrc)
    }

    /// The selector after silent sources were forgotten.
    pub open spec fn expired(self) -> Self {
        let aged = self.aged();
        if aged.lost_source() {
            SelectorView { current: None, ..aged }.reacquiring()
        } else {
            aged
        }
    }

    /// The highest layer within the maximum that a source is heard on.
    pub open spec fn best_seen(self) -> Option<SpatialLayer> {
        if self.policy.max.rank() >= 2 && self.seen_ssrc[2] is Some {
            Some(SpatialLayer::High)
        } else if self.policy.max.rank() >= 1 && self.seen_ssrc[1] is Some {
            Some(SpatialLayer::Medium)
        } else if self.seen_ssrc[0] is Some {
            Some(SpatialLayer::Low)
        } else {
            None
        }
    }

    /// The layer to fall back to.
    pub open spec fn fallback(self) -> SpatialLayer {
        match self.best_seen() {
            Some(layer) => layer,
            None => self.policy.desired,
        }
    }

    /// No acquisition is going on.
    pub open spec fn rests(self) -> bool {
        self.fallback_locked || self.satisfied()
    }

    /// One more tick of an acquisition has passed.
    pub open spec fn ticked(self) -> Self {
        let ticks: u8 = if self.acquisition_ticks == u8::MAX {
            u8::MAX
        } else {
            (self.acquisition_ticks + 1) as u8
        };
        if !self.fallback_started && ticks >= ACQUISITION_GRACE_TICKS {
            if self.fallback() != self.waiting_for {
                SelectorView {
                    fallback_started: true,
                    waiting_for: self.fallback(),
                    pli_ticks: 0,
                    remaining_pli_requests: MAX_KEYFRAME_REQUESTS_PER_ACQUISITION,
                    acquisition_ticks: 0,
                    ..self
                }
            } else {
                SelectorView { fallback_started: true, acquisition_ticks: 0, ..self }
            }
        } else {
            SelectorView { acquisition_ticks: ticks, ..self }
        }
    }

    /// The key frame request that is due.
    pub open spec fn due(self) -> Option<KeyframeRequest> {
        if self.pli_ticks > 0 || self.remaining_pli_requests == 0 {
            None
        } else {
            match self.seen_ssrc[self.waiting_for.rank()] {
                Some(ssrc) => Some(KeyframeRequest { media_ssrc: ssrc }),
                None => None,
            }
        }
    }

    /// The selector after the request that was due, if any, went out.
    pub open spec fn requested(self) -> Self {
        if self.pli_ticks > 0 {
            SelectorView { pli_ticks: (self.pli_ticks - 1) as u8, ..self }
        } else if self.due() is Some {
            SelectorView {
                pli_ticks: (KEYFRAME_RETRY_TICKS - 1) as u8,
                remaining_pli_requests: (self.remaining_pli_requests - 1) as u8,
                ..self
            }
        } else {
            self
        }
    }

    /// The key frame request that a tick brings.
    pub open spec fn timer_request(self) -> Option<KeyframeRequest> {
        if self.expired().rests() {
            None
        } else {
            self.expired().ticked().due()
        }
    }

    /// The selector after a tick.
    pub open spec fn after_timer(self) -> Self {
        if self.expired().rests() {
            self.expired()
        } else {
            self.expired().ticked().requested()
        }
    }
}

/// A selector that has seen nothing.
pub open spec fn fresh_selector(policy: LayerPolicy) -> SelectorView {
    SelectorView {
        policy,
        current: None,
        seen_ssrc: Seq::new(3, |i: int| None),
        seen_age_ticks: Seq::new(3, |i: int| u8::MAX),
        waiting_for: policy.desired,
        acquisition_ticks: 0,
        fallback_started: false,
        fallback_locked: false,
        pli_ticks: 0,
        remaining_pli_requests: MAX_KEYFRAME_REQUESTS_PER_ACQUISITION,
    }
}

impl Default for SubscriberVideoLayerSelector {
    fn default() -> (selector: Self)
        ensures
            selector@ == fresh_selector(
                LayerPolicy { max: SpatialLayer::High, desired: SpatialLayer::High },
            ),
    {
        Self::new(LayerPolicy::fixed(SpatialLayer::High))
    }
}

impl SubscriberVideoLayerSelector {
    /// A selector that has seen nothing.
    pub fn new(policy: LayerPolicy) -> (selector: Self)
        ensures
            selector@ == fresh_selector(policy),
    {
        let selector = SubscriberVideoLayerSelector {
            policy,
            current: None,
            seen_ssrc: [None, None, None],
            seen_age_ticks: [u8::MAX, u8::MAX, u8::MAX],
            waiting_for: policy.desired,
            acquisition_ticks: 0,
            fallback_started: false,
            fallback_locked: false,
            pli_ticks: 0,
            remaining_pli_requests: MAX_KEYFRAME_REQUESTS_PER_ACQUISITION,
        };
        assert(selector@ =~= fresh_selector(policy));
        selector
    }

    /// The source that is forwarded.
    pub fn selected_ssrc(&self) -> (ssrc: Option<u32>)
        ensures
            ssrc == match self.current {
                Some((ssrc, _)) => Some(ssrc),
                None => None,
            },
    {
        match self.current {
            Some((ssrc, _)) => Some(ssrc),
            None => None,
        }
    }

    /// The layer that is forwarded.
    pub fn current_spatial(&self) -> (layer: Option<SpatialLayer>)
        ensures
            layer == match self.current {
                Some((_, layer)) => Some(layer),
                None => None,
            },
    {
        match self.current {
            Some((_, layer)) => Some(layer),
            None => None,
        }
    }

    /// The policy that holds.
    pub fn policy(&self) -> (policy: LayerPolicy)
        ensures
            policy == self.policy,
    {
        self.policy
    }

    /// Applies a policy update without disrupting the current decodable layer. A later switch is
    /// committed only at a decodable boundary.
    pub fn set_policy(&mut self, policy: LayerPolicy)
        ensures
            final(self)@ == old(self)@.with_policy(policy),
    {
        if self.policy == policy {
            return ;
        }
        self.policy = policy;
        self.reset_acquisition();
    }

    fn reset_acquisition(&mut self)
        ensures
            final(self)@ == old(self)@.reacquiring(),
    {
        self.waiting_for = self.policy.desired;
        self.acquisition_ticks = 0;
        self.fallback_started = false;
        self.fallback_locked = false;
        self.pli_ticks = 0;
        self.remaining_pli_requests = MAX_KEYFRAME_REQUESTS_PER_ACQUISITION;
    }

    /// Evaluates a packet. Unknown layer metadata is never silently promoted to the desired
    /// layer; it remains observable as a distinct drop reason.
    pub fn observe_packet(&mut self, packet: LayerPacketMetadata) -> (decision:
        VideoIngressDecision)
        ensures
            decision == old(self)@.decision(packet),
            final(self)@ == old(self)@.after_packet(packet),
    {
        let is_selected: bool = match self.current {
            Some((ssrc, _)) => ssrc == packet.ssrc,
            None => false,
        };
        let spatial: SpatialLayer = match packet.spatial {
            Some(spatial) => spatial,
            None => {
                return if is_selected {
                    VideoIngressDecision::Forward { selected_ssrc_changed: false }
                } else {
                    VideoIngressDecision::DropUnknownLayer
                };
            },
        };
        if spatial.index() > self.policy.max.index() {
            return VideoIngressDecision::DropAboveMaximum;
        }
        self.seen_ssrc[spatial.index()] = Some(packet.ssrc);
        self.seen_age_ticks[spatial.index()] = 0;
        if let Some((selected_ssrc, selected_spatial)) = self.current {
            if selected_ssrc == packet.ssrc {
                // Layer metadata may arrive late or be inconsistent. A selected source that still
                // sends is live; its known layer stays until a switch changes it.
                self.seen_ssrc[selected_spatial.index()] = Some(packet.ssrc);
                self.seen_age_ticks[selected_spatial.index()] = 0;
                return VideoIngressDecision::Forward { selected_ssrc_changed: false };
            }
        }
        // A fallback suppresses timer-driven requests, but a decodable packet of the desired layer
        // shows that the layer is there, and may be switched to at once.
        let should_switch_to_desired: bool = packet.is_decodable_switch_point && spatial
            == self.policy.desired && match self.current {
            Some((_, current)) => current != self.policy.desired,
            None => false,
        };
        let target: SpatialLayer = if should_switch_to_desired {
            self.policy.desired
        } else {
            self.waiting_for
        };
        if spatial != target || !packet.is_decodable_switch_point {
            return if spatial == target {
                VideoIngressDecision::DropWaitingForKeyframe
            } else {
                VideoIngressDecision::DropNonSelectedSsrc
            };
        }
        self.current = Some((packet.ssrc, spatial));
        self.acquisition_ticks = 0;
        self.pli_ticks = 0;
        self.fallback_locked = self.fallback_started && spatial != self.policy.desired;
        self.fallback_started = false;
        self.remaining_pli_requests = MAX_KEYFRAME_REQUESTS_PER_ACQUISITION;
        self.waiting_for = self.policy.desired;
        VideoIngressDecision::Forward { selected_ssrc_changed: true }
    }

    /// Advances bounded acquisition and returns a target-aware PLI request when one is due.
    /// The caller owns RTCP I/O and must keep this separate from downstream PLI/FIR relay.
    pub fn on_timer(&mut self) -> (request: Option<KeyframeRequest>)
        ensures
            request == old(self)@.timer_request(),
            final(self)@ == old(self)@.after_timer(),
    {
        self.expire_stale_sources();
        if self.fallback_locked {
            return None;
        }
        if let Some((_, spatial)) = self.current {
            if spatial == self.policy.desired {
                return None;
            }
        }
        let ghost expired = self@;
        self.acquisition_ticks = self.acquisition_ticks.saturating_add(1);
        if !self.fallback_started && self.acquisition_ticks >= ACQUISITION_GRACE_TICKS {
            self.fallback_started = true;
            let fallback: SpatialLayer = match self.best_seen_allowed() {
                Some(layer) => layer,
                None => self.policy.desired,
            };
            if fallback != self.waiting_for {
                self.waiting_for = fallback;
                self.pli_ticks = 0;
                self.remaining_pli_requests = MAX_KEYFRAME_REQUESTS_PER_ACQUISITION;
            }
            self.acquisition_ticks = 0;
        }
        assert(self@ == expired.ticked());
        if self.pli_ticks > 0 {
            self.pli_ticks = self.pli_ticks - 1;
            return None;
        }
        if self.remaining_pli_requests == 0 {
            return None;
        }
        match self.seen_ssrc[self.waiting_for.index()] {
            Some(ssrc) => {
                self.pli_ticks = KEYFRAME_RETRY_TICKS.saturating_sub(1);
                self.remaining_pli_requests = self.remaining_pli_requests - 1;
                Some(KeyframeRequest { media_ssrc: ssrc })
            },
            None => None,
        }
    }

    /// Forgets sources that were silent for too long, and the forwarded one with them.
    pub fn expire_stale_sources(&mut self)
        ensures
            final(self)@ == old(self)@.expired(),
    {
        let ghost before = self@;
        let mut i: usize = 0;
        while i < 3
            invariant
                i <= 3,
                before.seen_ssrc.len() == 3,
                before.seen_age_ticks.len() == 3,
                self@ == (SelectorView {
                    seen_ssrc: self@.seen_ssrc,
                    seen_age_ticks: self@.seen_age_ticks,
                    ..before
                }),
                forall|j: int|
                    0 <= j < i ==> self@.seen_ssrc[j] == before.aged().seen_ssrc[j]
                        && self@.seen_age_ticks[j] == before.aged().seen_age_ticks[j],
                forall|j: int|
                    i <= j < 3 ==> self@.seen_ssrc[j] == before.seen_ssrc[j]
                        && self@.seen_age_ticks[j] == before.seen_age_ticks[j],
            decreases 3 - i,
        {
            let age: u8 = self.seen_age_ticks[i].saturating_add(1);
            self.seen_age_ticks[i] = age;
            if age >= SOURCE_STALE_TICKS {
                self.seen_ssrc[i] = None;
            }
            i += 1;
        }
        assert(self@.seen_ssrc =~= before.aged().seen_ssrc);
        assert(self@.seen_age_ticks =~= before.aged().seen_age_ticks);
        if let Some((ssrc, spatial)) = self.current {
            let live: bool = match self.seen_ssrc[spatial.index()] {
                Some(seen) => seen == ssrc,
                None => false,
            };
            if !live {
                self.current = None;
                self.reset_acquisition();
            }
        }
    }

    /// The highest layer within the maximum that a source is heard on.
    pub fn best_seen_allowed(&self) -> (layer: Option<SpatialLayer>)
        ensures
            layer == self@.best_seen(),
    {
        if self.policy.max.index() >= 2 && self.seen_ssrc[2].is_some() {
            Some(SpatialLayer::High)
        } else if self.policy.max.index() >= 1 && self.seen_ssrc[1].is_some() {
            Some(SpatialLayer::Medium)
        } else if self.seen_ssrc[0].is_some() {
            Some(SpatialLayer::Low)
        } else {
            None
        }
    }
}

/// The forwarded source changes only at a packet that can be switched to.
pub proof fn law_switches_are_keyframe_gated(state: SelectorView, packet: LayerPacketMetadata)
    requires
        state.after_packet(packet).current != state.current,
    ensures
        packet.is_decodable_switch_point,
        packet.spatial matches Some(layer) && state.after_packet(packet).current == Some(
            (packet.ssrc, layer),
        ),
        state.decision(packet) == (VideoIngressDecision::Forward { selected_ssrc_changed: true }),
{
}

/// Exactly the packets of the source that is then selected are forwarded.
pub proof fn law_only_the_selected_source_is_forwarded(
    state: SelectorView,
    packet: LayerPacketMetadata,
)
    ensures
        state.decision(packet) is Forward ==> state.after_packet(packet).selects(packet.ssrc),
        state.decision(packet) == (VideoIngressDecision::Forward { selected_ssrc_changed: false })
            <==> state.selects(packet.ssrc) && (packet.spatial matches Some(layer) ==> layer.rank()
            <= state.policy.max.rank()),
{
}

/// A packet above the maximum is dropped and changes nothing.
pub proof fn law_maximum_is_a_bound(state: SelectorView, packet: LayerPacketMetadata)
    requires
        packet.spatial matches Some(layer) && layer.rank() > state.policy.max.rank(),
    ensures
        state.decision(packet) == VideoIngressDecision::DropAboveMaximum,
        state.after_packet(packet) == state,
{
}

/// A key frame of the desired layer is switched to at once while another layer is forwarded, or
/// while the desired one is waited for.
pub proof fn law_desired_key_frame_is_taken(state: SelectorView, packet: LayerPacketMetadata)
    requires
        packet.is_decodable_switch_point,
        packet.spatial == Some(state.policy.desired),
        state.policy.desired.rank() <= state.policy.max.rank(),
        !state.satisfied(),
        state.current is Some || state.waiting_for == state.policy.desired,
    ensures
        state.decision(packet) is Forward,
        state.selects(packet.ssrc) || state.after_packet(packet).current == Some(
            (packet.ssrc, state.policy.desired),
        ),
{
}

/// A policy update keeps what is forwarded.
pub proof fn law_policy_update_keeps_source(state: SelectorView, policy: LayerPolicy)
    ensures
        state.with_policy(policy).current == state.current,
        state.with_policy(policy).policy == policy,
{
}

/// How many key frames can still be requested before a packet or a policy update comes: what is
/// left of this attempt, and one more attempt for the fallback.
pub open spec fn request_budget(state: SelectorView) -> int {
    state.remaining_pli_requests + if state.fallback_started {
        0int
    } else {
        MAX_KEYFRAME_REQUESTS_PER_ACQUISITION as int
    }
}

/// Every request uses up the budget, which no tick renews, unless the forwarded source went
/// silent. So the requests for one target are bounded.
pub proof fn law_requests_use_up_the_budget(state: SelectorView)
    requires
        state.remaining_pli_requests <= MAX_KEYFRAME_REQUESTS_PER_ACQUISITION,
        !state.aged().lost_source(),
    ensures
        state.after_timer().remaining_pli_requests <= MAX_KEYFRAME_REQUESTS_PER_ACQUISITION,
        state.timer_request() is Some ==> request_budget(state.after_timer()) < request_budget(
            state,
        ),
        request_budget(state.after_timer()) <= request_budget(state),
        request_budget(state) == 0 ==> state.timer_request() is None,
{
}

/// After a request the next tick brings none, unless the target falls back on it.
pub proof fn law_requests_are_spaced(state: SelectorView)
    requires
        state.timer_request() is Some,
        ({
            let next = state.after_timer().expired();
            next.ticked().waiting_for == next.waiting_for && !state.after_timer().aged().lost_source()
        }),
    ensures
        state.after_timer().timer_request() is None,
{
}

/// A stable fallback asks for nothing.
pub proof fn law_locked_fallback_is_quiet(state: SelectorView)
    requires
        state.fallback_locked,
        !state.aged().lost_source(),
    ensures
        state.timer_request() is None,
        state.after_timer().fallback_locked,
{
}

/// The layers are in order, and no two are the same.
pub proof fn law_layers_are_ordered(one: SpatialLayer, other: SpatialLayer)
    ensures
        SpatialLayer::Low.rank() < SpatialLayer::Medium.rank() < SpatialLayer::High.rank(),
        one.rank() == other.rank() ==> one == other,
        0 <= one.rank() < 3,
{
}

/// A packet of the source that is forwarded is forwarded, whatever it is, unless it is above the
/// maximum; one of another source without a layer is dropped. Neither kind changes what is
/// forwarded.
pub proof fn law_forwarded_source_goes_on(
    state: SelectorView,
    packet: LayerPacketMetadata,
    layer: SpatialLayer,
)
    requires
        state.current == Some((packet.ssrc, layer)),
    ensures
        packet.spatial is None ==> state.decision(packet) == (VideoIngressDecision::Forward {
            selected_ssrc_changed: false,
        }) && state.after_packet(packet) == state,
        packet.spatial matches Some(heard) && heard.rank() <= state.policy.max.rank()
            ==> state.decision(packet) == (VideoIngressDecision::Forward {
            selected_ssrc_changed: false,
        }),
        state.after_packet(packet).current == state.current,
        state.after_packet(packet).waiting_for == state.waiting_for,
{
}

/// A packet without a layer, of a source that is not forwarded, is dropped and changes nothing.
pub proof fn law_unknown_layers_are_dropped(state: SelectorView, packet: LayerPacketMetadata)
    requires
        packet.spatial is None,
        state.current matches Some((ssrc, _)) ==> ssrc != packet.ssrc,
    ensures
        state.decision(packet) == VideoIngressDecision::DropUnknownLayer,
        state.after_packet(packet) == state,
{
}

/// What becomes of a packet of another source, within the maximum: one that can be switched to is
/// switched to where its layer is waited for, or is the desired one while another layer is
/// forwarded. One of the layer that is waited for that cannot be switched to is dropped until a key
/// frame comes, and any other because its source is not selected.
pub proof fn law_other_sources_are_switched_to(
    state: SelectorView,
    packet: LayerPacketMetadata,
    layer: SpatialLayer,
)
    requires
        packet.spatial == Some(layer),
        layer.rank() <= state.policy.max.rank(),
        state.current matches Some((ssrc, _)) ==> ssrc != packet.ssrc,
    ensures
        ({
            let improves = layer == state.policy.desired && (state.current matches Some((_, now))
                && now != state.policy.desired);
            let decision = state.decision(packet);
            let after = state.after_packet(packet);
            &&& packet.is_decodable_switch_point && (layer == state.waiting_for || improves)
                ==> decision == (VideoIngressDecision::Forward { selected_ssrc_changed: true })
                && after.current == Some((packet.ssrc, layer))
            &&& !packet.is_decodable_switch_point && layer == state.waiting_for ==> decision
                == VideoIngressDecision::DropWaitingForKeyframe && after.current == state.current
            &&& layer != state.waiting_for && !(packet.is_decodable_switch_point && improves)
                ==> decision == VideoIngressDecision::DropNonSelectedSsrc && after.current
                == state.current
        }),
{
}

/// A packet within the maximum is remembered as the source that is heard on its layer, and what is
/// heard on other layers stays, but for the layer of the forwarded source, which is heard too.
pub proof fn law_heard_sources_are_remembered(
    state: SelectorView,
    packet: LayerPacketMetadata,
    layer: SpatialLayer,
    other: SpatialLayer,
)
    requires
        state.seen_ssrc.len() == 3,
        state.seen_age_ticks.len() == 3,
        packet.spatial == Some(layer),
        layer.rank() <= state.policy.max.rank(),
    ensures
        ({
            let after = state.after_packet(packet);
            let at = other.rank();
            &&& after.seen_ssrc[layer.rank()] == Some(packet.ssrc)
            &&& after.seen_age_ticks[layer.rank()] == 0
            &&& other != layer && !(state.current == Some((packet.ssrc, other)))
                ==> after.seen_ssrc[at] == state.seen_ssrc[at] && after.seen_age_ticks[at]
                == state.seen_age_ticks[at]
            &&& state.current == Some((packet.ssrc, other)) ==> after.seen_ssrc[at] == Some(
                packet.ssrc,
            ) && after.seen_age_ticks[at] == 0
        }),
{
}

/// After a switch nothing is waited for but the desired layer, with all requests left; the layer is
/// locked exactly where it was fallen back to and is not the desired one.
pub proof fn law_switch_ends_the_acquisition(
    state: SelectorView,
    packet: LayerPacketMetadata,
    layer: SpatialLayer,
)
    requires
        packet.spatial == Some(layer),
        state.decision(packet) == (VideoIngressDecision::Forward { selected_ssrc_changed: true }),
    ensures
        ({
            let after = state.after_packet(packet);
            &&& after.waiting_for == state.policy.desired
            &&& after.acquisition_ticks == 0
            &&& after.pli_ticks == 0
            &&& after.remaining_pli_requests == 12
            &&& !after.fallback_started
            &&& after.fallback_locked <==> state.fallback_started && layer != state.policy.desired
            &&& after.policy == state.policy
        }),
{
}

/// A policy that differs starts the acquisition of its desired layer anew; the same policy changes
/// nothing.
pub proof fn law_new_policy_starts_anew(state: SelectorView, policy: LayerPolicy)
    ensures
        policy == state.policy ==> state.with_policy(policy) == state,
        policy != state.policy ==> {
            let after = state.with_policy(policy);
            &&& after.policy == policy
            &&& after.waiting_for == policy.desired
            &&& after.acquisition_ticks == 0
            &&& !after.fallback_started
            &&& !after.fallback_locked
            &&& after.pli_ticks == 0
            &&& after.remaining_pli_requests == 12
            &&& after.seen_ssrc == state.seen_ssrc
            &&& after.seen_age_ticks == state.seen_age_ticks
        },
{
}

/// A source that is silent is forgotten with the eighth tick, and not before.
pub proof fn law_silent_sources_are_forgotten(state: SelectorView, layer: SpatialLayer)
    requires
        state.seen_ssrc.len() == 3,
        state.seen_age_ticks.len() == 3,
    ensures
        ({
            let i = layer.rank();
            let after = state.after_timer();
            &&& state.seen_age_ticks[i] >= 7 ==> after.seen_ssrc[i] is None
            &&& state.seen_age_ticks[i] < 7 ==> after.seen_ssrc[i] == state.seen_ssrc[i]
            &&& state.seen_age_ticks[i] < u8::MAX ==> after.seen_age_ticks[i]
                == state.seen_age_ticks[i] + 1
            &&& state.seen_age_ticks[i] == u8::MAX ==> after.seen_age_ticks[i] == u8::MAX
        }),
{
}

/// The forwarded source is given up exactly with the tick that forgets it, or where its layer is
/// heard of another one.
pub proof fn law_forwarded_source_is_given_up_when_silent(
    state: SelectorView,
    ssrc: u32,
    layer: SpatialLayer,
)
    requires
        state.seen_ssrc.len() == 3,
        state.seen_age_ticks.len() == 3,
        state.current == Some((ssrc, layer)),
    ensures
        state.after_timer().current is None <==> state.seen_age_ticks[layer.rank()] >= 7
            || state.seen_ssrc[layer.rank()] != Some(ssrc),
        state.after_timer().current is Some ==> state.after_timer().current == state.current,
{
}

/// The layer that is fallen back to is the highest one within the maximum that is heard.
pub proof fn law_fallback_is_the_highest_heard(state: SelectorView, layer: SpatialLayer)
    ensures
        state.best_seen() == Some(layer) ==> state.seen_ssrc[layer.rank()] is Some && layer.rank()
            <= state.policy.max.rank(),
        state.seen_ssrc[layer.rank()] is Some && layer.rank() <= state.policy.max.rank() ==> (
        state.best_seen() matches Some(best) && best.rank() >= layer.rank()),
        state.best_seen() matches Some(best) ==> state.fallback() == best,
        state.best_seen() is None ==> state.fallback() == state.policy.desired,
{
}

/// After four ticks without its layer a target falls back; before that it waits on, and once it
/// fell back it does not again.
pub proof fn law_fallback_comes_after_the_grace(state: SelectorView)
    requires
        state.acquisition_ticks < u8::MAX,
    ensures
        ({
            let after = state.ticked();
            let falls = !state.fallback_started && state.acquisition_ticks >= 3;
            &&& falls ==> after.fallback_started && after.acquisition_ticks == 0
                && after.waiting_for == state.fallback()
            &&& falls && state.fallback() != state.waiting_for ==> after.pli_ticks == 0
                && after.remaining_pli_requests == 12
            &&& falls && state.fallback() == state.waiting_for ==> after.pli_ticks
                == state.pli_ticks && after.remaining_pli_requests == state.remaining_pli_requests
            &&& !falls ==> after == (SelectorView {
                acquisition_ticks: (state.acquisition_ticks + 1) as u8,
                ..state
            })
        }),
{
}

/// A key frame is asked of the source that is heard on the layer waited for, exactly where the last
/// request is two ticks ago and requests are left.
pub proof fn law_key_frame_is_asked_of_the_awaited_source(state: SelectorView)
    ensures
        state.due() matches Some(request) ==> state.seen_ssrc[state.waiting_for.rank()] == Some(
            request.media_ssrc,
        ),
        state.due() is Some <==> state.pli_ticks == 0 && state.remaining_pli_requests > 0
            && state.seen_ssrc[state.waiting_for.rank()] is Some,
        state.due() is Some ==> state.requested().pli_ticks == 1
            && state.requested().remaining_pli_requests == state.remaining_pli_requests - 1,
        state.pli_ticks > 0 ==> state.requested().pli_ticks == state.pli_ticks - 1
            && state.requested().remaining_pli_requests == state.remaining_pli_requests,
        state.pli_ticks == 0 && state.due() is None ==> state.requested() == state,
{
}

/// Once the desired layer is forwarded, and its source heard, no key frame is asked for.
pub proof fn law_satisfied_target_is_quiet(state: SelectorView, ssrc: u32)
    requires
        state.seen_ssrc.len() == 3,
        state.seen_age_ticks.len() == 3,
        state.current == Some((ssrc, state.policy.desired)),
        state.seen_ssrc[state.policy.desired.rank()] == Some(ssrc),
        state.seen_age_ticks[state.policy.desired.rank()] < 7,
    ensures
        state.timer_request() is None,
        state.after_timer().current == state.current,
        state.after_timer().acquisition_ticks == state.acquisition_ticks,
{
}

/// While the desired layer is not forwarded and nothing is locked, every tick counts towards the
/// fallback or is the fallback, and a request that is due goes out.
pub proof fn law_unsatisfied_target_is_acquired(state: SelectorView)
    requires
        state.seen_ssrc.len() == 3,
        state.seen_age_ticks.len() == 3,
        state.current is None,
        !state.fallback_locked,
        state.acquisition_ticks < u8::MAX,
    ensures
        ({
            let after = state.after_timer();
            &&& after.acquisition_ticks == state.acquisition_ticks + 1 || after.acquisition_ticks
                == 0 && after.fallback_started && !state.fallback_started
            &&& state.acquisition_ticks < 3 && state.pli_ticks == 0 && state.remaining_pli_requests
                > 0 && state.seen_age_ticks[state.waiting_for.rank()] < 7 ==> (
            state.timer_request() matches Some(request) ==> state.seen_ssrc[state.waiting_for.rank()]
                == Some(request.media_ssrc))
            &&& state.acquisition_ticks < 3 && state.pli_ticks == 0 && state.remaining_pli_requests
                > 0 && state.seen_age_ticks[state.waiting_for.rank()] < 7
                && state.seen_ssrc[state.waiting_for.rank()] is Some ==> state.timer_request() is Some
        }),
{
}

/// A selector that has seen nothing forwards nothing, waits for the desired layer with all requests
/// left, and asks for nothing.
pub proof fn law_fresh_selector_waits(policy: LayerPolicy, layer: SpatialLayer)
    ensures
        ({
            let state = fresh_selector(policy);
            &&& state.policy == policy
            &&& state.current is None
            &&& state.waiting_for == policy.desired
            &&& state.seen_ssrc[layer.rank()] is None
            &&& state.remaining_pli_requests == 12
            &&& !state.fallback_started
            &&& !state.fallback_locked
            &&& state.timer_request() is None
        }),
{
}

} // verus!
