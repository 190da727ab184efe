//! Selection of the layers of a scalable or simulcast stream that a subscriber gets.
use crate::video_layer_selector::decision_cache::{
    DecisionsView, Expectation, Notice, SelectorDecision, SelectorDecisionCache,
};
use crate::text::{push_decimal, push_text, string_of};
use vstd::prelude::*;

pub mod decision_cache;

verus! {

/// What a frame is to a decode target.
#[derive(Debug, Clone, Copy, PartialEq, Eq, Structural)]
pub enum DecodeTargetIndicationLite {
    NotPresent,
    Required,
    Switch,
}

/// What a frame says of the decode targets and of the chains it belongs to.
#[derive(Debug, Clone)]
pub struct FrameDependencyTemplateLite {
    pub decode_target_indications: Vec<DecodeTargetIndicationLite>,
    pub chain_diffs: Vec<i32>,
}

/// A chain of frames, each of which needs the one before it.
#[derive(Debug, Clone)]
pub struct FrameChain {
    pub chain_idx: usize,
    pub broken: bool,
    pub active: bool,
    pub updating_active: bool,
    pub expect_frames: Vec<u64>,
}

/// The contents of a [`FrameChain`].
#[verifier::ext_equal]
pub struct FrameChainView {
    pub chain_idx: usize,
    pub broken: bool,
    pub active: bool,
    pub updating_active: bool,
    pub expect_frames: Seq<u64>,
}

impl View for FrameChain {
    type V = FrameChainView;

    open spec fn view(&self) -> FrameChainView {
        FrameChainView {
            chain_idx: self.chain_idx,
            broken: self.broken,
            active: self.active,
            updating_active: self.updating_active,
            expect_frames: self.expect_frames@,
        }
    }
}

/// The frame that `diff` counts back to from `frame`, and 0 if there is none. A negative distance
/// counts as the unsigned number with the same 64 bits.
pub open spec fn frame_before(frame: u64, diff: i32) -> u64 {
    let distance: int = if diff >= 0 {
        diff as int
    } else {
        diff + u64::MAX + 1
    };
    if frame >= distance {
        (frame - distance) as u64
    } else {
        0
    }
}

/// The first place of `x`, if it has one.
pub open spec fn first_place(s: Seq<u64>, x: u64) -> Option<int>
    decreases s.len(),
{
    if s.len() == 0 {
        None
    } else if first_place(s.drop_last(), x) is Some {
        first_place(s.drop_last(), x)
    } else if s.last() == x {
        Some(s.len() - 1)
    } else {
        None
    }
}

/// The sequence without the element in place `i`, which the last one moves to.
pub open spec fn swap_removed(s: Seq<u64>, i: int) -> Seq<u64> {
    s.update(i, s.last()).drop_last()
}

impl FrameChainView {
    /// The frame that the chain's previous frame is waited for.
    pub open spec fn previous(self, ext_frame_num: u64, diffs: Seq<i32>) -> u64 {
        frame_before(ext_frame_num, diffs[self.chain_idx as int])
    }

    /// What became of the chain's previous frame. One that is forgotten counts as missing.
    pub open spec fn previous_decision(
        self,
        decisions: DecisionsView,
        ext_frame_num: u64,
        diffs: Seq<i32>,
    ) -> SelectorDecision {
        match decisions.decision(self.previous(ext_frame_num, diffs)) {
            Ok(decision) => decision,
            Err(_) => SelectorDecision::Missing,
        }
    }

    /// A frame whose chain goes on is looked at: the chain is active and intact, and the frame
    /// names a previous one.
    pub open spec fn continues(self, diffs: Seq<i32>) -> bool {
        &&& self.active
        &&& !self.broken
        &&& self.chain_idx < diffs.len()
        &&& diffs[self.chain_idx as int] != 0
    }

    /// The frame begins the chain anew.
    pub open spec fn begins(self, diffs: Seq<i32>) -> bool {
        &&& self.active
        &&& self.chain_idx < diffs.len()
        &&& diffs[self.chain_idx as int] == 0
    }

    /// The previous frame is not decided, and can be waited for.
    pub open spec fn waits(
        self,
        decisions: DecisionsView,
        ext_frame_num: u64,
        diffs: Seq<i32>,
    ) -> bool {
        &&& self.previous_decision(decisions, ext_frame_num, diffs) == SelectorDecision::Unknown
        &&& decisions.can_expect(self.previous(ext_frame_num, diffs))
    }

    /// The chain is intact at the frame.
    pub open spec fn intact_at(
        self,
        decisions: DecisionsView,
        ext_frame_num: u64,
        diffs: Seq<i32>,
    ) -> bool {
        if !self.active {
            false
        } else if diffs.len() <= self.chain_idx {
            self.broken
        } else if self.begins(diffs) {
            true
        } else {
            &&& !self.broken
            &&& self.previous_decision(decisions, ext_frame_num, diffs)
                == SelectorDecision::Forwarded || self.waits(decisions, ext_frame_num, diffs)
        }
    }

    /// The chain after the frame.
    pub open spec fn after_frame(
        self,
        decisions: DecisionsView,
        ext_frame_num: u64,
        diffs: Seq<i32>,
    ) -> Self {
        if self.begins(diffs) {
            FrameChainView { broken: false, expect_frames: Seq::empty(), ..self }
        } else if !self.continues(diffs) {
            self
        } else if self.waits(decisions, ext_frame_num, diffs) {
            FrameChainView {
                expect_frames: self.expect_frames.push(self.previous(ext_frame_num, diffs)),
                ..self
            }
        } else {
            FrameChainView { broken: !self.intact_at(decisions, ext_frame_num, diffs), ..self }
        }
    }

    /// The decisions after the frame: its chain may wait for the previous frame.
    pub open spec fn decisions_after_frame(
        self,
        decisions: DecisionsView,
        ext_frame_num: u64,
        diffs: Seq<i32>,
    ) -> DecisionsView {
        if self.continues(diffs) && self.waits(decisions, ext_frame_num, diffs) {
            DecisionsView {
                expectations: decisions.expectations.push(
                    Expectation {
                        entity: self.previous(ext_frame_num, diffs),
                        waiter: self.chain_idx,
                    },
                ),
                ..decisions
            }
        } else {
            decisions
        }
    }

    /// The chain when it begins to be collected whether anybody needs it.
    pub open spec fn collecting(self) -> Self {
        FrameChainView { updating_active: false, ..self }
    }

    /// The chain after one more was asked whether it needs it.
    pub open spec fn collected(self, active: bool) -> Self {
        FrameChainView { updating_active: self.updating_active || active, ..self }
    }

    /// The chain once what was collected counts. One that becomes active is broken.
    pub open spec fn decided(self) -> Self {
        FrameChainView {
            updating_active: false,
            active: self.updating_active,
            broken: self.broken || (self.updating_active && !self.active),
            ..self
        }
    }

    /// The chain after it was told the decision on a frame.
    pub open spec fn after_decision(self, frame_num: u64, decision: SelectorDecision) -> Self {
        match first_place(self.expect_frames, frame_num) {
            Some(place) => if self.broken {
                self
            } else {
                FrameChainView {
                    broken: decision != SelectorDecision::Forwarded,
                    expect_frames: swap_removed(self.expect_frames, place),
                    ..self
                }
            },
            None => self,
        }
    }
}

impl FrameChain {
    /// A chain that is broken until a frame begins it.
    pub fn new(chain_idx: usize) -> (chain: Self)
        ensures
            chain@ == (FrameChainView {
                chain_idx,
                broken: true,
                active: false,
                updating_active: false,
                expect_frames: Seq::empty(),
            }),
    {
        FrameChain {
            chain_idx,
            broken: true,
            active: false,
            updating_active: false,
            expect_frames: Vec::new(),
        }
    }

    /// Looks at a frame. The chain goes on where the frame's previous one was forwarded, or is not
    /// decided yet and is waited for.
    pub fn on_frame(
        &mut self,
        decisions: &mut SelectorDecisionCache,
        ext_frame_num: u64,
        fd: &FrameDependencyTemplateLite,
    ) -> (intact: bool)
        requires
            old(decisions).wf(),
        ensures
            final(decisions).wf(),
            final(decisions).num_entries == old(decisions).num_entries,
            intact == old(self)@.intact_at(old(decisions)@, ext_frame_num, fd.chain_diffs@),
            final(self)@ == old(self)@.after_frame(
                old(decisions)@,
                ext_frame_num,
                fd.chain_diffs@,
            ),
            final(decisions)@ == old(self)@.decisions_after_frame(
                old(decisions)@,
                ext_frame_num,
                fd.chain_diffs@,
            ),
    {
        if !self.active {
            return false;
        }
        if fd.chain_diffs.len() <= self.chain_idx {
            return self.broken;
        }
        let diff: i32 = fd.chain_diffs[self.chain_idx];
        if diff == 0 {
            self.broken = false;
            self.expect_frames.clear();
            return true;
        }
        if self.broken {
            return false;
        }
        let distance: u64 = if diff >= 0 {
            diff as u64
        } else {
            u64::MAX - ((-(diff as i64)) as u64 - 1)
        };
        let prev_frame_in_chain: u64 = ext_frame_num.saturating_sub(distance);
        let decision: SelectorDecision = match decisions.get_decision(prev_frame_in_chain) {
            Ok(decision) => decision,
            Err(_) => SelectorDecision::Missing,
        };
        let mut intact: bool = false;
        match decision {
            SelectorDecision::Forwarded => {
                intact = true;
            },
            SelectorDecision::Unknown => {
                if decisions.expect_decision(prev_frame_in_chain, self.chain_idx) {
                    intact = true;
                    self.expect_frames.push(prev_frame_in_chain);
                }
            },
            SelectorDecision::Dropped | SelectorDecision::Missing => {},
        }
        if !intact {
            self.broken = true;
        }
        intact
    }

    /// Takes note of the decision on a frame that the chain may have waited for.
    pub fn on_decision(&mut self, frame_num: u64, decision: SelectorDecision)
        ensures
            final(self)@ == old(self)@.after_decision(frame_num, decision),
    {
        if self.broken {
            return ;
        }
        let ghost frames = self.expect_frames@;
        let mut pos: usize = 0;
        assert(frames.take(0) =~= Seq::empty());
        while pos < self.expect_frames.len()
            invariant
                pos <= frames.len(),
                *self == *old(self),
                frames == self.expect_frames@,
                !self.broken,
                first_place(frames.take(pos as int), frame_num) is None,
            decreases self.expect_frames.len() - pos,
        {
            assert(frames.take(pos + 1).drop_last() =~= frames.take(pos as int));
            if self.expect_frames[pos] == frame_num {
                proof {
                    lemma_first_place_of_prefix(frames, frame_num, pos + 1);
                    lemma_swap_remove(frames, pos as int);
                }
                if decision != SelectorDecision::Forwarded {
                    self.broken = true;
                }
                self.expect_frames.swap_remove(pos);
                return ;
            }
            pos += 1;
        }
        assert(frames.take(pos as int) =~= frames);
    }

    /// The chain is broken.
    pub fn broken(&self) -> (broken: bool)
        ensures
            broken == self.broken,
    {
        self.broken
    }

    /// Begins to collect whether any decode target needs the chain.
    pub fn begin_update_active(&mut self)
        ensures
            final(self)@ == old(self)@.collecting(),
    {
        self.updating_active = false;
    }

    /// A decode target needs the chain, if `active` is set.
    pub fn update_active(&mut self, active: bool)
        ensures
            final(self)@ == old(self)@.collected(active),
    {
        self.updating_active = self.updating_active || active;
    }

    /// Takes what was collected. A chain that becomes active is broken.
    pub fn end_update_active(&mut self)
        ensures
            final(self)@ == old(self)@.decided(),
    {
        let active: bool = self.updating_active;
        self.updating_active = false;
        if active == self.active {
            return ;
        }
        if !self.active {
            self.broken = true;
        }
        self.active = active;
    }
}

proof fn lemma_first_place_of_prefix(s: Seq<u64>, x: u64, n: int)
    requires
        0 <= n <= s.len(),
        first_place(s.take(n), x) is Some,
    ensures
        first_place(s, x) == first_place(s.take(n), x),
    decreases s.len() - n,
{
    if n < s.len() {
        assert(s.take(n + 1).drop_last() =~= s.take(n));
        lemma_first_place_of_prefix(s, x, n + 1);
    } else {
        assert(s.take(n) =~= s);
    }
}

proof fn lemma_swap_remove(s: Seq<u64>, i: int)
    requires
        0 <= i < s.len(),
    ensures
        swap_removed(s, i) == if i == s.len() - 1 {
            s.drop_last()
        } else {
            s.drop_last().update(i, s.last())
        },
{
    assert(swap_removed(s, i) =~= if i == s.len() - 1 {
        s.drop_last()
    } else {
        s.drop_last().update(i, s.last())
    });
}

/// The chain at place `i` after it was told the decisions that are meant for it.
pub open spec fn told_chain(chain: FrameChainView, told: Seq<Notice>, i: int) -> FrameChainView
    decreases told.len(),
{
    if told.len() == 0 {
        chain
    } else {
        let before = told_chain(chain, told.drop_last(), i);
        if told.last().waiter == i {
            before.after_decision(told.last().entity, told.last().decision)
        } else {
            before
        }
    }
}

/// Tells chains the decisions that they waited for. A waiter is the place of a chain; one without
/// a chain is passed over.
pub fn deliver_decisions(told: &Vec<Notice>, chains: &mut Vec<FrameChain>)
    ensures
        final(chains)@.len() == old(chains)@.len(),
        forall|i: int|
            0 <= i < old(chains)@.len() ==> (#[trigger] final(chains)@[i])@ == told_chain(
                old(chains)@[i]@,
                told@,
                i,
            ),
{
    let ghost before = chains@;
    let mut n: usize = 0;
    assert(told@.take(0) =~= Seq::empty());
    while n < told.len()
        invariant
            n <= told@.len(),
            chains@.len() == before.len(),
            forall|i: int|
                0 <= i < before.len() ==> (#[trigger] chains@[i])@ == told_chain(
                    before[i]@,
                    told@.take(n as int),
                    i,
                ),
        decreases told.len() - n,
    {
        let notice: Notice = told[n];
        let ghost so_far = chains@;
        if notice.waiter < chains.len() {
            let chain = &mut chains[notice.waiter];
            chain.on_decision(notice.entity, notice.decision);
        }
        n += 1;
        proof {
            assert(told@.take(n as int).drop_last() =~= told@.take(n - 1));
            assert(told@.take(n as int).last() == notice);
            assert forall|i: int| 0 <= i < before.len() implies (#[trigger] chains@[i])@
                == told_chain(before[i]@, told@.take(n as int), i) by {
                assert(so_far[i]@ == told_chain(before[i]@, told@.take(n - 1), i));
            }
        }
    }
    assert(told@.take(n as int) =~= told@);
}

/// The place and the layers of a decode target.
#[derive(Debug, Clone, Copy, PartialEq, Eq, Structural)]
pub struct DependencyDescriptorDecodeTargetLite {
    pub target: usize,
    pub spatial: i32,
    pub temporal: i32,
}

/// A decode target, with the chain that protects it.
#[derive(Debug, Clone, Copy)]
pub struct DecodeTarget {
    pub target: DependencyDescriptorDecodeTargetLite,
    pub chain: Option<usize>,
    pub active: bool,
}

/// What a frame is to a decode target, and whether the target can be decoded.
#[derive(Debug, Clone, Copy, PartialEq, Eq, Structural)]
pub struct FrameDetectionResult {
    pub target_valid: bool,
    pub dti: DecodeTargetIndicationLite,
}

/// A frame does not speak of the decode target.
#[derive(Debug, Clone, Copy, PartialEq, Eq, Structural)]
pub struct TargetMismatch {
    pub target: usize,
    pub indications: usize,
}

impl TargetMismatch {
    /// What is said of the frame.
    pub open spec fn text(self) -> Seq<char> {
        "mismatch target "@ + crate::text::decimal(self.target as nat)
            + " and len(DecodeTargetIndications) "@ + crate::text::decimal(self.indications as nat)
    }

    /// What is said of the frame.
    pub fn to_text(&self) -> (text: String)
        ensures
            text@ == self.text(),
    {
        let mut chars: Vec<char> = Vec::new();
        push_text(&mut chars, "mismatch target ");
        push_decimal(&mut chars, self.target as u64);
        push_text(&mut chars, " and len(DecodeTargetIndications) ");
        push_decimal(&mut chars, self.indications as u64);
        assert(chars@ =~= self.text());
        string_of(chars.as_slice())
    }
}

impl DecodeTarget {
    /// The chain that protects the target is one of `chains`.
    pub open spec fn chain_in(self, chains: Seq<FrameChain>) -> bool {
        self.chain matches Some(chain) ==> chain < chains.len()
    }

    /// The chain that protects the target, if there is one, is intact.
    pub open spec fn is_valid(self, chains: Seq<FrameChain>) -> bool {
        self.chain matches Some(chain) ==> !chains[chain as int].broken
    }

    /// The mask has the bit of the target.
    pub open spec fn is_needed(self, active_bitmask: u32) -> bool {
        active_bitmask & (1u32 << self.target.target) != 0
    }

    /// A target that nobody needs.
    pub fn new(target: DependencyDescriptorDecodeTargetLite, chain: Option<usize>) -> (result: Self)
        ensures
            result == (DecodeTarget { target, chain, active: false }),
    {
        DecodeTarget { target, chain, active: false }
    }

    /// The target can be decoded.
    pub fn valid(&self, chains: &[FrameChain]) -> (valid: bool)
        requires
            self.chain_in(chains@),
        ensures
            valid == self.is_valid(chains@),
    {
        match self.chain {
            Some(chain) => !chains[chain].broken(),
            None => true,
        }
    }

    /// The target is needed.
    pub fn active(&self) -> (active: bool)
        ensures
            active == self.active,
    {
        self.active
    }

    /// Takes from a mask whether the target is needed, and passes it on to the chain.
    pub fn update_active(&mut self, active_bitmask: u32, chains: &mut Vec<FrameChain>)
        requires
            old(self).target.target < 32,
            old(self).chain_in(old(chains)@),
        ensures
            *final(self) == (DecodeTarget {
                active: old(self).is_needed(active_bitmask),
                ..*old(self)
            }),
            final(chains)@.len() == old(chains)@.len(),
            forall|i: int|
                0 <= i < old(chains)@.len() ==> (#[trigger] final(chains)@[i])@ == if old(
                    self,
                ).chain is Some && old(self).chain->0 == i {
                    old(chains)@[i]@.collected(final(self).active)
                } else {
                    old(chains)@[i]@
                },
    {
        self.active = (active_bitmask & (1u32 << self.target.target)) != 0;
        if let Some(chain) = self.chain {
            chains[chain].update_active(self.active);
        }
    }

    /// What a frame is to the target, and whether the target can be decoded.
    pub fn on_frame(&self, chains: &[FrameChain], fd: &FrameDependencyTemplateLite) -> (result:
        Result<FrameDetectionResult, String>)
        requires
            self.chain_in(chains@),
        ensures
            fd.decode_target_indications@.len() <= self.target.target ==> {
                let error = (TargetMismatch {
                    target: self.target.target,
                    indications: fd.decode_target_indications@.len() as usize,
                });
                result matches Err(text) && text@ == error.text()
            },
            fd.decode_target_indications@.len() > self.target.target ==> result == Ok::<
                FrameDetectionResult,
                String,
            >(
                (FrameDetectionResult {
                    target_valid: self.is_valid(chains@),
                    dti: fd.decode_target_indications@[self.target.target as int],
                }),
            ),
    {
        if fd.decode_target_indications.len() <= self.target.target {
            let error: TargetMismatch = TargetMismatch {
                target: self.target.target,
                indications: fd.decode_target_indications.len(),
            };
            return Err(error.to_text());
        }
        Ok(
            FrameDetectionResult {
                target_valid: self.valid(chains),
                dti: fd.decode_target_indications[self.target.target],
            },
        )
    }
}

/// A spatial and a temporal layer. Negative ones stand for none.
#[derive(Debug, Clone, Copy, PartialEq, Eq, Structural)]
pub struct VideoLayerLite {
    pub spatial: i32,
    pub temporal: i32,
}

impl VideoLayerLite {
    /// Both layers are there.
    pub open spec fn valid(self) -> bool {
        self.spatial >= 0 && self.temporal >= 0
    }

    /// No layer.
    pub open spec fn none() -> Self {
        VideoLayerLite { spatial: (-1) as i32, temporal: (-1) as i32 }
    }

    /// No layer.
    pub fn invalid() -> (layer: Self)
        ensures
            layer == Self::none(),
    {
        VideoLayerLite { spatial: -1, temporal: -1 }
    }

    /// Both layers are there.
    pub fn is_valid(self) -> (valid: bool)
        ensures
            valid == self.valid(),
    {
        self.spatial >= 0 && self.temporal >= 0
    }
}

/// What the selector reads of a frame.
#[derive(Debug, Clone, Copy, PartialEq, Eq, Structural)]
pub struct SimulcastFrameLite {
    pub is_key_frame: bool,
    pub video_layer: VideoLayerLite,
}

/// What becomes of a frame.
#[derive(Debug, Clone, Copy, PartialEq, Eq, Structural)]
pub struct VideoLayerSelectorResultLite {
    pub is_selected: bool,
    pub is_relevant: bool,
    pub is_switching: bool,
    pub is_resuming: bool,
}

impl Default for VideoLayerSelectorResultLite {
    fn default() -> (result: Self)
        ensures
            result == (VideoLayerSelectorResultLite {
                is_selected: false,
                is_relevant: false,
                is_switching: false,
                is_resuming: false,
            }),
    {
        VideoLayerSelectorResultLite {
            is_selected: false,
            is_relevant: false,
            is_switching: false,
            is_resuming: false,
        }
    }
}

/// Selects one of several simulcast streams.
#[derive(Debug, Clone, Copy, PartialEq, Eq, Structural)]
pub struct SimulcastSelectorLite {
    pub current_layer: VideoLayerLite,
    pub target_layer: VideoLayerLite,
    pub max_layer: VideoLayerLite,
    pub max_seen_layer: VideoLayerLite,
    pub request_spatial: i32,
    pub enable_start_at_desired_quality: bool,
}

impl SimulcastSelectorLite {
    /// A key frame of `layer` is switched to: it brings the selector from the current layer nearer
    /// to the target or to it. A selector that starts at the desired quality waits for the target.
    pub open spec fn switches(self, frame: SimulcastFrameLite, layer: i32) -> bool {
        &&& self.current_layer.spatial != self.target_layer.spatial
        &&& frame.is_key_frame
        &&& if self.enable_start_at_desired_quality && !self.current_layer.valid() {
            layer == self.target_layer.spatial
        } else {
            ||| self.current_layer.spatial < layer <= self.target_layer.spatial
            ||| self.target_layer.spatial <= layer < self.current_layer.spatial
        }
    }

    /// The selector after a frame.
    pub open spec fn after_frame(self, frame: SimulcastFrameLite, layer: i32) -> Self {
        if self.switches(frame, layer) {
            SimulcastSelectorLite {
                current_layer: VideoLayerLite {
                    spatial: layer,
                    temporal: frame.video_layer.temporal,
                },
                target_layer: VideoLayerLite {
                    spatial: if layer >= self.max_layer.spatial || layer
                        == self.max_seen_layer.spatial {
                        layer
                    } else {
                        self.target_layer.spatial
                    },
                    ..self.target_layer
                },
                ..self
            }
        } else {
            self
        }
    }

    /// What becomes of a frame.
    pub open spec fn selection(self, frame: SimulcastFrameLite, layer: i32) ->
        VideoLayerSelectorResultLite {
        VideoLayerSelectorResultLite {
            is_selected: layer == self.after_frame(frame, layer).current_layer.spatial,
            is_relevant: false,
            is_switching: self.switches(frame, layer),
            is_resuming: self.switches(frame, layer) && !self.current_layer.valid(),
        }
    }

    /// A selector without any layer.
    pub fn new() -> (selector: Self)
        ensures
            selector == (SimulcastSelectorLite {
                current_layer: VideoLayerLite::none(),
                target_layer: VideoLayerLite::none(),
                max_layer: VideoLayerLite::none(),
                max_seen_layer: VideoLayerLite::none(),
                request_spatial: (-1) as i32,
                enable_start_at_desired_quality: false,
            }),
    {
        SimulcastSelectorLite {
            current_layer: VideoLayerLite::invalid(),
            target_layer: VideoLayerLite::invalid(),
            max_layer: VideoLayerLite::invalid(),
            max_seen_layer: VideoLayerLite::invalid(),
            request_spatial: -1,
            enable_start_at_desired_quality: false,
        }
    }

    /// Whether to wait for the target layer at the start.
    pub fn set_enable_start_at_desired_quality(&mut self, enabled: bool)
        ensures
            *final(self) == (SimulcastSelectorLite {
                enable_start_at_desired_quality: enabled,
                ..*old(self)
            }),
    {
        self.enable_start_at_desired_quality = enabled;
    }

    /// Sets the highest layer that is wanted.
    pub fn set_max(&mut self, layer: VideoLayerLite)
        ensures
            *final(self) == (SimulcastSelectorLite { max_layer: layer, ..*old(self) }),
    {
        self.max_layer = layer;
    }

    /// Sets the highest layer that was seen.
    pub fn set_max_seen(&mut self, layer: VideoLayerLite)
        ensures
            *final(self) == (SimulcastSelectorLite { max_seen_layer: layer, ..*old(self) }),
    {
        self.max_seen_layer = layer;
    }

    /// Sets the layer to go to.
    pub fn set_target(&mut self, layer: VideoLayerLite)
        ensures
            *final(self) == (SimulcastSelectorLite { target_layer: layer, ..*old(self) }),
    {
        self.target_layer = layer;
    }

    /// Sets the spatial layer that is asked for.
    pub fn set_request_spatial(&mut self, spatial: i32)
        ensures
            *final(self) == (SimulcastSelectorLite { request_spatial: spatial, ..*old(self) }),
    {
        self.request_spatial = spatial;
    }

    /// Sets the layer that is forwarded.
    pub fn set_current(&mut self, layer: VideoLayerLite)
        ensures
            *final(self) == (SimulcastSelectorLite { current_layer: layer, ..*old(self) }),
    {
        self.current_layer = layer;
    }

    /// The layer that is forwarded.
    pub fn get_current(&self) -> (layer: VideoLayerLite)
        ensures
            layer == self.current_layer,
    {
        self.current_layer
    }

    /// Looks at a frame of `layer`, and switches to that layer where it is wanted.
    pub fn select(&mut self, frame: SimulcastFrameLite, layer: i32) -> (result:
        VideoLayerSelectorResultLite)
        ensures
            result == old(self).selection(frame, layer),
            *final(self) == old(self).after_frame(frame, layer),
    {
        let mut result: VideoLayerSelectorResultLite = VideoLayerSelectorResultLite::default();
        if self.current_layer.spatial != self.target_layer.spatial {
            let is_active: bool = self.current_layer.is_valid();
            let mut found: bool = false;
            if frame.is_key_frame {
                if self.enable_start_at_desired_quality && !is_active {
                    if layer == self.target_layer.spatial {
                        found = true;
                    }
                } else {
                    if layer > self.current_layer.spatial && layer <= self.target_layer.spatial {
                        found = true;
                    }
                    if layer < self.current_layer.spatial && layer >= self.target_layer.spatial {
                        found = true;
                    }
                }
            }
            if found {
                self.current_layer = VideoLayerLite {
                    spatial: layer,
                    temporal: frame.video_layer.temporal,
                };
                if self.current_layer.spatial >= self.max_layer.spatial
                    || self.current_layer.spatial == self.max_seen_layer.spatial {
                    self.target_layer.spatial = self.current_layer.spatial;
                }
                result.is_switching = true;
                result.is_resuming = !is_active;
            }
        }
        result.is_selected = layer == self.current_layer.spatial;
        result.is_relevant = false;
        result
    }
}

/// Widens 16 bit numbers.
#[derive(Debug, Clone, Copy, PartialEq, Eq, Structural)]
pub struct WrapAroundU16ToU64 {
    pub initialized: bool,
    pub last: u16,
    pub cycles: u64,
}

impl Default for WrapAroundU16ToU64 {
    fn default() -> (wrap: Self)
        ensures
            wrap == (WrapAroundU16ToU64 { initialized: false, last: 0, cycles: 0 }),
    {
        WrapAroundU16ToU64 { initialized: false, last: 0, cycles: 0 }
    }
}

impl WrapAroundU16ToU64 {
    /// The widened part once `value` came: one turn more if it wrapped forward.
    pub open spec fn cycles_after(self, value: u16) -> u64 {
        if self.initialized && value < self.last && value.wrapping_sub(self.last) < 0x8000 {
            self.cycles.saturating_add(0x1_0000)
        } else {
            self.cycles
        }
    }

    /// The number that `value` widens to.
    pub open spec fn widened(self, value: u16) -> int {
        if self.initialized {
            self.cycles_after(value) + value
        } else {
            value as int
        }
    }

    /// What is kept once `value` came.
    pub open spec fn after(self, value: u16) -> Self {
        WrapAroundU16ToU64 { initialized: true, last: value, cycles: self.cycles_after(value) }
    }

    /// The number that `value` widens to.
    pub fn update(&mut self, value: u16) -> (widened: u64)
        requires
            old(self).initialized ==> old(self).cycles_after(value) + value <= u64::MAX,
        ensures
            *final(self) == old(self).after(value),
            widened == old(self).widened(value),
    {
        if !self.initialized {
            self.initialized = true;
            self.last = value;
            return value as u64;
        }
        let diff: u16 = value.wrapping_sub(self.last);
        if value < self.last && diff < 0x8000 {
            self.cycles = self.cycles.saturating_add(0x1_0000);
        }
        self.last = value;
        self.cycles + value as u64
    }
}

/// Keeps the low 16 bits of frame numbers in order across key frames.
#[derive(Debug, Clone, Copy, PartialEq, Eq, Structural)]
pub struct FrameNumberWrapperLite {
    pub offset: u64,
    pub last: u64,
    pub inited: bool,
}

impl Default for FrameNumberWrapperLite {
    fn default() -> (wrapper: Self)
        ensures
            wrapper == (FrameNumberWrapperLite { offset: 0, last: 0, inited: false }),
    {
        FrameNumberWrapperLite { offset: 0, last: 0, inited: false }
    }
}

impl FrameNumberWrapperLite {
    /// How far the low bits of `new` are ahead of those of the last number.
    pub open spec fn low_bits_ahead(self, new: u64) -> u16 {
        (((new + self.offset) % 0x1_0000) as u16).wrapping_sub(
            ((self.last + self.offset) % 0x1_0000) as u16,
        )
    }

    /// The low bits of `new` look older than those of the last number.
    pub open spec fn looks_older(self, new: u64) -> bool {
        ||| self.low_bits_ahead(new) > 0x8000
        ||| self.low_bits_ahead(new) == 0x8000 && (new + self.offset) % 0x1_0000 < (self.last
            + self.offset) % 0x1_0000
    }

    /// The offset once `new` came. It grows where a newer number would look older.
    pub open spec fn offset_after(self, new: u64, update_offset: bool) -> u64 {
        if self.inited && new > self.last && update_offset && self.looks_older(new) {
            self.offset.saturating_add((65535 - self.low_bits_ahead(new) + 6000) as u64)
        } else {
            self.offset
        }
    }

    /// The number that goes out for `new`.
    pub open spec fn sent_number(self, new: u64, update_offset: bool) -> int {
        if self.inited {
            new + self.offset_after(new, update_offset)
        } else {
            new as int
        }
    }

    /// What is kept once `new` came.
    pub open spec fn after(self, new: u64, update_offset: bool) -> Self {
        FrameNumberWrapperLite {
            offset: self.offset_after(new, update_offset),
            last: if self.inited && new <= self.last {
                self.last
            } else {
                new
            },
            inited: true,
        }
    }

    /// The number that goes out for `new`.
    pub fn update_and_get(&mut self, new: u64, update_offset: bool) -> (out: u64)
        requires
            old(self).inited ==> new + old(self).offset <= u64::MAX && new + old(
                self,
            ).offset_after(new, update_offset) <= u64::MAX,
        ensures
            *final(self) == old(self).after(new, update_offset),
            out == old(self).sent_number(new, update_offset),
    {
        if !self.inited {
            self.last = new;
            self.inited = true;
            return new;
        }
        if new <= self.last {
            return new + self.offset;
        }
        if update_offset {
            let new16: u16 = ((new + self.offset) % 0x1_0000) as u16;
            let last16: u16 = ((self.last + self.offset) % 0x1_0000) as u16;
            let diff: u16 = new16.wrapping_sub(last16);
            if diff > 0x8000 || (diff == 0x8000 && new16 < last16) {
                self.offset = self.offset.saturating_add((65535 - diff as u64) + 6000);
            }
        }
        self.last = new;
        new + self.offset
    }
}

/// A broken chain stays broken until a frame begins it anew, whatever it is told.
pub proof fn law_broken_chain_needs_a_new_beginning(
    chain: FrameChainView,
    decisions: DecisionsView,
    ext_frame_num: u64,
    diffs: Seq<i32>,
    frame_num: u64,
    decision: SelectorDecision,
)
    requires
        chain.broken,
    ensures
        !chain.begins(diffs) ==> chain.after_frame(decisions, ext_frame_num, diffs).broken,
        chain.begins(diffs) ==> !chain.after_frame(decisions, ext_frame_num, diffs).broken,
        chain.after_decision(frame_num, decision) == chain,
{
}

/// A chain that waits for a frame breaks when that frame was not forwarded, and goes on when it
/// was.
pub proof fn law_awaited_frame_decides_on_the_chain(
    chain: FrameChainView,
    decisions: DecisionsView,
    ext_frame_num: u64,
    diffs: Seq<i32>,
    decision: SelectorDecision,
)
    requires
        chain.continues(diffs),
        chain.waits(decisions, ext_frame_num, diffs),
    ensures
        chain.after_frame(decisions, ext_frame_num, diffs).after_decision(
            chain.previous(ext_frame_num, diffs),
            decision,
        ).broken <==> decision != SelectorDecision::Forwarded,
{
    let after = chain.after_frame(decisions, ext_frame_num, diffs);
    assert(after.expect_frames.drop_last() =~= chain.expect_frames);
}

/// Without a key frame the forwarded layer stays what it was.
pub proof fn law_only_key_frames_switch(
    selector: SimulcastSelectorLite,
    frame: SimulcastFrameLite,
    layer: i32,
)
    requires
        !frame.is_key_frame,
    ensures
        selector.after_frame(frame, layer) == selector,
        selector.selection(frame, layer).is_selected <==> layer == selector.current_layer.spatial,
{
}

/// A switch never goes past the target, and never away from it.
pub proof fn law_switch_goes_towards_target(
    selector: SimulcastSelectorLite,
    frame: SimulcastFrameLite,
    layer: i32,
)
    requires
        selector.switches(frame, layer),
    ensures
        ({
            let from = selector.current_layer.spatial;
            let to = selector.after_frame(frame, layer).current_layer.spatial;
            let target = selector.target_layer.spatial;
            ||| from < to <= target
            ||| target <= to < from
        }),
{
}

/// A newer key frame number never looks older than the last one that went out, unless the offset
/// is at its limit.
pub proof fn law_wrapped_key_frame_looks_newer(wrapper: FrameNumberWrapperLite, new: u64)
    requires
        wrapper.inited,
        new > wrapper.last,
        wrapper.looks_older(new),
        wrapper.offset <= u64::MAX - 0x1_0000 - 6000,
    ensures
        ({
            let last_out = wrapper.last + wrapper.offset;
            let new_out = new + wrapper.offset_after(new, true);
            (new_out - last_out) % 0x1_0000 == 5999
        }),
{
}

/// From a layer other than the target, a key frame of the target, or of any layer between the two,
/// is selected and made current, whether the target lies above or below.
pub proof fn law_key_frame_towards_target_is_selected(
    selector: SimulcastSelectorLite,
    frame: SimulcastFrameLite,
    layer: i32,
)
    requires
        frame.is_key_frame,
        selector.current_layer.spatial >= 0,
        selector.current_layer.temporal >= 0,
        selector.current_layer.spatial < layer <= selector.target_layer.spatial
            || selector.target_layer.spatial <= layer < selector.current_layer.spatial,
    ensures
        selector.selection(frame, layer).is_selected,
        selector.selection(frame, layer).is_switching,
        !selector.selection(frame, layer).is_resuming,
        selector.after_frame(frame, layer).current_layer.spatial == layer,
        selector.after_frame(frame, layer).current_layer.temporal == frame.video_layer.temporal,
{
}

/// A key frame of the target layer is selected from any other layer and from none, and with it the
/// selector is where it should be.
pub proof fn law_target_is_reached(
    selector: SimulcastSelectorLite,
    frame: SimulcastFrameLite,
)
    requires
        frame.is_key_frame,
    ensures
        ({
            let layer = selector.target_layer.spatial;
            let after = selector.after_frame(frame, layer);
            &&& selector.selection(frame, layer).is_selected
            &&& selector.selection(frame, layer).is_switching <==> selector.current_layer.spatial
                != layer
            &&& after.current_layer.spatial == layer
            &&& after.target_layer.spatial == layer
        }),
{
}

/// A frame that is no key frame, or whose layer does not lie between the current layer and the
/// target, changes nothing, and is selected exactly if it is of the current layer.
pub proof fn law_other_frames_do_not_switch(
    selector: SimulcastSelectorLite,
    frame: SimulcastFrameLite,
    layer: i32,
)
    requires
        !frame.is_key_frame || !(selector.current_layer.spatial < layer
            <= selector.target_layer.spatial || selector.target_layer.spatial <= layer
            < selector.current_layer.spatial),
    ensures
        selector.after_frame(frame, layer) == selector,
        !selector.selection(frame, layer).is_switching,
        !selector.selection(frame, layer).is_resuming,
        selector.selection(frame, layer).is_selected <==> layer == selector.current_layer.spatial,
{
}

/// A selector without a current layer resumes with a key frame of the target; one of a layer on the
/// way does too, unless the selector is to start at the desired quality.
pub proof fn law_selector_resumes(
    selector: SimulcastSelectorLite,
    frame: SimulcastFrameLite,
    layer: i32,
)
    requires
        frame.is_key_frame,
        selector.current_layer.spatial < 0 || selector.current_layer.temporal < 0,
        selector.current_layer.spatial < layer <= selector.target_layer.spatial
            || selector.target_layer.spatial <= layer < selector.current_layer.spatial,
    ensures
        ({
            let resumes = layer == selector.target_layer.spatial
                || !selector.enable_start_at_desired_quality;
            &&& selector.selection(frame, layer).is_resuming == resumes
            &&& selector.selection(frame, layer).is_switching == resumes
            &&& selector.selection(frame, layer).is_selected == resumes
            &&& !resumes ==> selector.after_frame(frame, layer) == selector
            &&& resumes ==> selector.after_frame(frame, layer).current_layer
                == (VideoLayerLite { spatial: layer, temporal: frame.video_layer.temporal })
        }),
{
}

/// Once the selector switched to the highest layer wanted or seen, it wants no other layer; before
/// that a switch leaves the target alone. Everything else stays in any case.
pub proof fn law_target_settles_at_the_highest_layer(
    selector: SimulcastSelectorLite,
    frame: SimulcastFrameLite,
    layer: i32,
)
    requires
        selector.selection(frame, layer).is_switching,
    ensures
        ({
            let after = selector.after_frame(frame, layer);
            &&& layer >= selector.max_layer.spatial || layer == selector.max_seen_layer.spatial
                ==> after.target_layer.spatial == layer
            &&& layer < selector.max_layer.spatial && layer != selector.max_seen_layer.spatial
                ==> after.target_layer.spatial == selector.target_layer.spatial
            &&& after.target_layer.temporal == selector.target_layer.temporal
            &&& after.max_layer == selector.max_layer
            &&& after.max_seen_layer == selector.max_seen_layer
            &&& after.request_spatial == selector.request_spatial
            &&& after.enable_start_at_desired_quality == selector.enable_start_at_desired_quality
        }),
{
}

/// A frame is never said to be relevant by the simulcast selector.
pub proof fn law_simulcast_frames_are_not_relevant(
    selector: SimulcastSelectorLite,
    frame: SimulcastFrameLite,
    layer: i32,
)
    ensures
        !selector.selection(frame, layer).is_relevant,
{
}

/// A chain goes on with a frame exactly where the frame that it names as its previous one was
/// forwarded, or is undecided and can be waited for, in which case the chain waits for it. Else the
/// chain breaks.
pub proof fn law_chain_goes_on_from_its_previous_frame(
    chain: FrameChainView,
    decisions: DecisionsView,
    ext_frame_num: u64,
    diffs: Seq<i32>,
    previous: u64,
)
    requires
        chain.active,
        !chain.broken,
        chain.chain_idx < diffs.len(),
        diffs[chain.chain_idx as int] > 0,
        ext_frame_num == previous + diffs[chain.chain_idx as int],
    ensures
        ({
            let intact = chain.intact_at(decisions, ext_frame_num, diffs);
            let after = chain.after_frame(decisions, ext_frame_num, diffs);
            let decisions_after = chain.decisions_after_frame(decisions, ext_frame_num, diffs);
            &&& after.chain_idx == chain.chain_idx
            &&& after.active
            &&& after.updating_active == chain.updating_active
            &&& after.broken == !intact
            &&& match decisions.decision(previous) {
                Ok(SelectorDecision::Forwarded) => intact && after.expect_frames
                    == chain.expect_frames && decisions_after == decisions,
                Ok(SelectorDecision::Unknown) => {
                    &&& intact == decisions.can_expect(previous)
                    &&& intact ==> after.expect_frames == chain.expect_frames.push(previous)
                    &&& intact ==> decisions_after.expectations == decisions.expectations.push(
                        Expectation { entity: previous, waiter: chain.chain_idx },
                    )
                    &&& decisions_after.entries == decisions.entries
                    &&& !intact ==> decisions_after == decisions
                },
                _ => !intact && decisions_after == decisions,
            }
        }),
{
}

/// A frame that names itself begins the chain anew, and the chain waits for nothing then.
pub proof fn law_chain_begins_anew(
    chain: FrameChainView,
    decisions: DecisionsView,
    ext_frame_num: u64,
    diffs: Seq<i32>,
)
    requires
        chain.active,
        chain.chain_idx < diffs.len(),
        diffs[chain.chain_idx as int] == 0,
    ensures
        chain.intact_at(decisions, ext_frame_num, diffs),
        !chain.after_frame(decisions, ext_frame_num, diffs).broken,
        chain.after_frame(decisions, ext_frame_num, diffs).active,
        chain.after_frame(decisions, ext_frame_num, diffs).expect_frames.len() == 0,
        chain.decisions_after_frame(decisions, ext_frame_num, diffs) == decisions,
{
}

/// A chain that nobody needs is not intact; a frame that does not speak of the chain leaves it
/// alone. Neither changes anything.
pub proof fn law_chain_passes_frames_over(
    chain: FrameChainView,
    decisions: DecisionsView,
    ext_frame_num: u64,
    diffs: Seq<i32>,
)
    requires
        !chain.active || chain.chain_idx >= diffs.len(),
    ensures
        chain.intact_at(decisions, ext_frame_num, diffs) == (chain.active && chain.broken),
        chain.after_frame(decisions, ext_frame_num, diffs) == chain,
        chain.decisions_after_frame(decisions, ext_frame_num, diffs) == decisions,
{
}

/// A frame that names one before the first frame names frame 0.
pub proof fn law_no_frame_lies_before_the_first(frame: u64, diff: i32)
    requires
        diff > frame || diff < 0 && frame < u64::MAX - 0x8000_0000,
    ensures
        frame_before(frame, diff) == 0,
{
}

proof fn lemma_first_place(s: Seq<u64>, x: u64, place: int)
    requires
        0 <= place < s.len(),
        s[place] == x,
        forall|j: int| 0 <= j < place ==> s[j] != x,
    ensures
        first_place(s, x) == Some(place),
    decreases s.len(),
{
    let front = s.drop_last();
    if place < front.len() {
        assert(front[place] == x);
        assert forall|j: int| 0 <= j < place implies front[j] != x by {
            assert(front[j] == s[j]);
        }
        lemma_first_place(front, x, place);
    } else {
        assert forall|j: int| 0 <= j < front.len() implies front[j] != x by {
            assert(front[j] == s[j]);
        }
        lemma_no_place(front, x);
    }
}

proof fn lemma_no_place(s: Seq<u64>, x: u64)
    requires
        forall|j: int| 0 <= j < s.len() ==> s[j] != x,
    ensures
        first_place(s, x) is None,
    decreases s.len(),
{
    if s.len() > 0 {
        let front = s.drop_last();
        assert forall|j: int| 0 <= j < front.len() implies front[j] != x by {
            assert(front[j] == s[j]);
        }
        lemma_no_place(front, x);
    }
}

/// An intact chain that is told the decision on a frame it waits for waits for it once less, and
/// breaks exactly where the frame was not forwarded. What it still waits for is what it waited for
/// before.
pub proof fn law_told_chain_waits_no_longer(
    chain: FrameChainView,
    frame_num: u64,
    decision: SelectorDecision,
    place: int,
)
    requires
        !chain.broken,
        0 <= place < chain.expect_frames.len(),
        chain.expect_frames[place] == frame_num,
        forall|j: int| 0 <= j < place ==> chain.expect_frames[j] != frame_num,
    ensures
        ({
            let after = chain.after_decision(frame_num, decision);
            &&& after.broken <==> decision != SelectorDecision::Forwarded
            &&& after.expect_frames.len() + 1 == chain.expect_frames.len()
            &&& forall|j: int|
                0 <= j < after.expect_frames.len() && j != place ==> #[trigger] after.expect_frames[j]
                    == chain.expect_frames[j]
            &&& place < after.expect_frames.len() ==> after.expect_frames[place]
                == chain.expect_frames.last()
            &&& after.active == chain.active
            &&& after.updating_active == chain.updating_active
            &&& after.chain_idx == chain.chain_idx
        }),
{
    lemma_first_place(chain.expect_frames, frame_num, place);
}

/// A chain does not care for the decision on a frame that it does not wait for.
pub proof fn law_other_decisions_leave_the_chain_alone(
    chain: FrameChainView,
    frame_num: u64,
    decision: SelectorDecision,
)
    requires
        forall|j: int| 0 <= j < chain.expect_frames.len() ==> chain.expect_frames[j] != frame_num,
    ensures
        chain.after_decision(frame_num, decision) == chain,
{
    lemma_no_place(chain.expect_frames, frame_num);
}

/// A chain is told the decisions that are meant for it, one after the other, and no others.
pub proof fn law_decisions_are_told_in_order(
    chain: FrameChainView,
    told: Seq<Notice>,
    notice: Notice,
    i: int,
)
    ensures
        told_chain(chain, Seq::empty(), i) == chain,
        notice.waiter == i ==> told_chain(chain, told.push(notice), i) == told_chain(
            chain,
            told,
            i,
        ).after_decision(notice.entity, notice.decision),
        notice.waiter != i ==> told_chain(chain, told.push(notice), i) == told_chain(
            chain,
            told,
            i,
        ),
{
    assert(told.push(notice).drop_last() =~= told);
}

/// A decode target can be decoded exactly where no chain protects it or that chain is intact.
pub proof fn law_target_is_as_valid_as_its_chain(target: DecodeTarget, chains: Seq<FrameChain>)
    ensures
        target.chain is None ==> target.chain_in(chains) && target.is_valid(chains),
        target.chain matches Some(chain) ==> (target.chain_in(chains) <==> chain < chains.len())
            && (target.is_valid(chains) <==> !chains[chain as int].broken),
{
}

/// A layer is valid exactly where both parts are, and no layer is not.
pub proof fn law_layer_validity(layer: VideoLayerLite)
    ensures
        layer.valid() <==> layer.spatial >= 0 && layer.temporal >= 0,
        !VideoLayerLite::none().valid(),
        VideoLayerLite::none().spatial == -1,
        VideoLayerLite::none().temporal == -1,
{
}

/// Numbers that wrap go on upwards when they are widened: one that is less than half a turn ahead
/// of the last widens to that much more.
pub proof fn law_widened_numbers_go_on(wrap: WrapAroundU16ToU64, ahead: u16)
    requires
        wrap.initialized,
        ahead < 0x8000,
        wrap.cycles + 0x1_0000 <= u64::MAX,
    ensures
        ({
            let value = wrap.last.wrapping_add(ahead);
            wrap.cycles_after(value) + value == wrap.cycles + wrap.last + ahead
        }),
{
}

/// A number that is not ahead of the last widens within the same turn.
pub proof fn law_older_numbers_do_not_turn(wrap: WrapAroundU16ToU64, value: u16)
    requires
        !wrap.initialized || value >= wrap.last || value.wrapping_sub(wrap.last) >= 0x8000,
    ensures
        wrap.cycles_after(value) == wrap.cycles,
{
}

/// The offset of frame numbers changes only for a newer number whose low bits are more than half a
/// turn ahead of the last one's, or half a turn and lower, and only where that is allowed.
pub proof fn law_frame_number_offset_changes_only_when_needed(
    wrapper: FrameNumberWrapperLite,
    new: u64,
    update_offset: bool,
)
    requires
        !wrapper.inited || new <= wrapper.last || !update_offset || (new - wrapper.last) % 0x1_0000
            < 0x8000 || (new - wrapper.last) % 0x1_0000 == 0x8000 && (new + wrapper.offset)
            % 0x1_0000 > (wrapper.last + wrapper.offset) % 0x1_0000,
    ensures
        wrapper.offset_after(new, update_offset) == wrapper.offset,
{
}

/// A newer key frame whose low bits would look older goes out just ahead of the last number, in its
/// low bits.
pub proof fn law_frame_number_jump_is_made_up_for(wrapper: FrameNumberWrapperLite, new: u64)
    requires
        wrapper.inited,
        new > wrapper.last,
        wrapper.offset <= u64::MAX - 0x1_0000 - 6000,
        (new - wrapper.last) % 0x1_0000 > 0x8000,
    ensures
        (new + wrapper.offset_after(new, true) - (wrapper.last + wrapper.offset)) % 0x1_0000
            == 5999,
        wrapper.offset_after(new, true) > wrapper.offset,
{
}

/// A chain is active exactly where one of those who were asked since the last time needs it; one
/// that becomes active needs a new beginning, and what it waits for is kept.
pub proof fn law_chain_is_active_where_one_needs_it(
    chain: FrameChainView,
    one: bool,
    other: bool,
)
    ensures
        ({
            let after = chain.collecting().collected(one).collected(other).decided();
            &&& after.active == (one || other)
            &&& after.broken == (chain.broken || !chain.active && (one || other))
            &&& !after.updating_active
            &&& after.chain_idx == chain.chain_idx
            &&& after.expect_frames == chain.expect_frames
        }),
        !chain.collecting().decided().active,
        chain.collecting().active == chain.active,
        chain.collected(one).active == chain.active,
        chain.collected(one).broken == chain.broken,
{
}

/// A mask with one bit makes the target of that bit needed, and no other; a blank mask none.
pub proof fn law_targets_are_needed_by_their_bit(target: DecodeTarget, bit: u32)
    requires
        target.target.target < 32,
        bit < 32,
    ensures
        target.is_needed(1u32 << bit) <==> target.target.target == bit,
        !target.is_needed(0),
        target.is_needed(u32::MAX),
{
    let own = target.target.target as u32;
    assert((1u32 << bit) & (1u32 << own) != 0 <==> own == bit) by (bit_vector)
        requires
            own < 32,
            bit < 32,
    ;
    assert(0u32 & (1u32 << own) == 0) by (bit_vector);
    assert(0xffff_ffffu32 & (1u32 << own) != 0) by (bit_vector)
        requires
            own < 32,
    ;
}

/// The first number widens to itself, and each that is less than half a turn ahead of the last to
/// that much more than it did.
pub proof fn law_numbers_are_widened(wrap: WrapAroundU16ToU64, first: u16, ahead: u16)
    requires
        ahead < 0x8000,
        wrap.cycles + 0x1_0000 <= u64::MAX - 0x1_0000,
    ensures
        !wrap.initialized ==> wrap.widened(first) == first,
        wrap.initialized ==> wrap.widened(wrap.last.wrapping_add(ahead)) == wrap.cycles + wrap.last
            + ahead,
        wrap.initialized ==> ({
            let value = wrap.last.wrapping_add(ahead);
            let after = wrap.after(value);
            after.initialized && after.last == value && after.cycles + after.last == wrap.widened(
                value,
            )
        }),
        !wrap.initialized ==> wrap.after(first).last == first && wrap.after(first).cycles
            == wrap.cycles,
{
}

/// The first frame number goes out as it is. After it each goes out with the offset, so that two
/// numbers between which the offset stays keep their distance; the greatest number is the last.
pub proof fn law_frame_numbers_keep_their_distance(
    wrapper: FrameNumberWrapperLite,
    first: u64,
    second: u64,
    update_offset: bool,
)
    ensures
        !wrapper.inited ==> wrapper.sent_number(first, update_offset) == first,
        !wrapper.inited ==> wrapper.after(first, update_offset).last == first,
        wrapper.inited ==> wrapper.after(first, false).sent_number(second, false)
            - wrapper.sent_number(first, false) == second - first,
        wrapper.inited && first > wrapper.last ==> wrapper.after(first, update_offset).last
            == first,
        wrapper.inited && first <= wrapper.last ==> wrapper.after(first, update_offset).last
            == wrapper.last && wrapper.sent_number(first, update_offset) == first
            + wrapper.offset,
        wrapper.inited ==> wrapper.sent_number(first, update_offset) == first + wrapper.after(
            first,
            update_offset,
        ).offset,
        wrapper.after(first, update_offset).inited,
{
}

} // verus!
