//! Which layer a subscriber is to get for the bandwidth that there is.
use vstd::prelude::*;

use crate::forwarder::bitrates::{
    copy_bitrates, highest_bitrate, layer_bitrate, lowest_layer_with_bitrate, BitratesLite,
};
use crate::forwarder::{
    default_max_layer, CodecKindLite, ForwarderLayers, ForwarderLite, DEFAULT_MAX_SPATIAL,
    DEFAULT_MAX_TEMPORAL, INVALID_SPATIAL,
};
use crate::video_layer_selector::VideoLayerLite;

verus! {

/// The bandwidth that a track which is paused for want of it is said to need.
pub const PAUSED_BANDWIDTH_NEEDED: i64 = 12;

/// How far a paused track is from what is desired, in quarters of a layer.
pub const PAUSED_QUARTERS_TO_DESIRED: i32 = 15;

/// Why nothing is sent, or not all of it.
#[derive(Debug, Clone, Copy, PartialEq, Eq, Structural)]
pub enum VideoPauseReasonLite {
    Muted,
    PubMuted,
    Bandwidth,
}

/// The layer that is to be sent, and what it takes.
#[derive(Debug, Clone, PartialEq, Eq)]
pub struct VideoAllocationLite {
    pub pause_reason: VideoPauseReasonLite,
    pub is_deficient: bool,
    pub bandwidth_requested: i64,
    pub bandwidth_delta: i64,
    pub bandwidth_needed: i64,
    pub bitrates: BitratesLite,
    pub target_layer: VideoLayerLite,
    pub request_layer_spatial: i32,
    pub max_layer: VideoLayerLite,
    /// How far the layer is from the desired one, in quarters.
    pub quarters_to_desired: i32,
}

/// The contents of a [`VideoAllocationLite`].
#[verifier::ext_equal]
pub struct AllocationView {
    pub pause_reason: VideoPauseReasonLite,
    pub is_deficient: bool,
    pub bandwidth_requested: i64,
    pub bandwidth_delta: i64,
    pub bandwidth_needed: i64,
    pub bitrates: Seq<Seq<i64>>,
    pub target_layer: VideoLayerLite,
    pub request_layer_spatial: i32,
    pub max_layer: VideoLayerLite,
    pub quarters_to_desired: i32,
}

impl AllocationView {
    /// Nothing is sent.
    pub open spec fn nothing(
        reason: VideoPauseReasonLite,
        needed: i64,
        bitrates: Seq<Seq<i64>>,
        max: VideoLayerLite,
    ) -> Self {
        AllocationView {
            pause_reason: reason,
            is_deficient: false,
            bandwidth_requested: 0,
            bandwidth_delta: 0,
            bandwidth_needed: needed,
            bitrates,
            target_layer: VideoLayerLite::none(),
            request_layer_spatial: INVALID_SPATIAL,
            max_layer: max,
            quarters_to_desired: 0,
        }
    }
}

impl View for VideoAllocationLite {
    type V = AllocationView;

    open spec fn view(&self) -> AllocationView {
        AllocationView {
            pause_reason: self.pause_reason,
            is_deficient: self.is_deficient,
            bandwidth_requested: self.bandwidth_requested,
            bandwidth_delta: self.bandwidth_delta,
            bandwidth_needed: self.bandwidth_needed,
            bitrates: crate::forwarder::bitrates::rows(self.bitrates@),
            target_layer: self.target_layer,
            request_layer_spatial: self.request_layer_spatial,
            max_layer: self.max_layer,
            quarters_to_desired: self.quarters_to_desired,
        }
    }
}

impl VideoAllocationLite {
    /// The same allocation.
    pub fn duplicate(&self) -> (copy: Self)
        ensures
            copy@ == self@,
    {
        VideoAllocationLite {
            pause_reason: self.pause_reason,
            is_deficient: self.is_deficient,
            bandwidth_requested: self.bandwidth_requested,
            bandwidth_delta: self.bandwidth_delta,
            bandwidth_needed: self.bandwidth_needed,
            bitrates: copy_bitrates(&self.bitrates),
            target_layer: self.target_layer,
            request_layer_spatial: self.request_layer_spatial,
            max_layer: self.max_layer,
            quarters_to_desired: self.quarters_to_desired,
        }
    }

    fn send_nothing(
        reason: VideoPauseReasonLite,
        needed: i64,
        bitrates: BitratesLite,
        max: VideoLayerLite,
    ) -> (allocation: Self)
        ensures
            allocation@ == AllocationView::nothing(
                reason,
                needed,
                crate::forwarder::bitrates::rows(bitrates@),
                max,
            ),
    {
        VideoAllocationLite {
            pause_reason: reason,
            is_deficient: false,
            bandwidth_requested: 0,
            bandwidth_delta: 0,
            bandwidth_needed: needed,
            bitrates,
            target_layer: VideoLayerLite::invalid(),
            request_layer_spatial: INVALID_SPATIAL,
            max_layer: max,
            quarters_to_desired: 0,
        }
    }
}

/// A change of the layer that is sent.
#[derive(Debug, Clone, Copy, PartialEq, Eq, Structural)]
pub struct VideoTransitionLite {
    pub from: VideoLayerLite,
    pub to: VideoLayerLite,
    pub bandwidth_delta: i64,
}

/// An allocation that is being tried out.
pub struct ProvisionalAllocation {
    pub target: VideoLayerLite,
    pub available_layers: Vec<i32>,
    pub bitrates: BitratesLite,
    pub allocated_layer: VideoLayerLite,
}

/// The contents of a [`ProvisionalAllocation`].
#[verifier::ext_equal]
pub struct ProvisionalView {
    pub target: VideoLayerLite,
    pub available: Seq<i32>,
    pub bitrates: Seq<Seq<i64>>,
    pub allocated: VideoLayerLite,
}

impl ProvisionalView {
    /// Nothing is tried out.
    pub open spec fn fresh() -> Self {
        ProvisionalView::prepared(Seq::empty(), Seq::empty())
    }

    /// The layers and bitrates are there, and nothing is tried out yet.
    pub open spec fn prepared(available: Seq<i32>, bitrates: Seq<Seq<i64>>) -> Self {
        ProvisionalView {
            target: VideoLayerLite::none(),
            available,
            bitrates,
            allocated: VideoLayerLite::none(),
        }
    }

    /// The bitrate of the layer.
    pub open spec fn rate(self, layer: VideoLayerLite) -> i64 {
        crate::forwarder::bitrates::layer_rate(self.bitrates, layer)
    }
}

impl View for ProvisionalAllocation {
    type V = ProvisionalView;

    open spec fn view(&self) -> ProvisionalView {
        ProvisionalView {
            target: self.target,
            available: self.available_layers@,
            bitrates: crate::forwarder::bitrates::rows(self.bitrates@),
            allocated: self.allocated_layer,
        }
    }
}

fn copy_layers(layers: &[i32]) -> (copy: Vec<i32>)
    ensures
        copy@ == layers@,
{
    let mut copy: Vec<i32> = Vec::new();
    let mut i: usize = 0;
    while i < layers.len()
        invariant
            i <= layers@.len(),
            copy@ == layers@.take(i as int),
        decreases layers.len() - i,
    {
        copy.push(layers[i]);
        i += 1;
        assert(layers@.take(i as int) =~= layers@.take(i - 1).push(layers@[i - 1]));
    }
    assert(layers@.take(i as int) =~= layers@);
    copy
}

impl ProvisionalAllocation {
    /// Nothing is tried out.
    pub fn new() -> (provisional: Self)
        ensures
            provisional@ == ProvisionalView::fresh(),
    {
        let provisional: ProvisionalAllocation = ProvisionalAllocation {
            target: VideoLayerLite::invalid(),
            available_layers: Vec::new(),
            bitrates: Vec::new(),
            allocated_layer: VideoLayerLite::invalid(),
        };
        assert(provisional@.bitrates =~= Seq::empty());
        provisional
    }
}

/// The least of the layers.
pub open spec fn least(layers: Seq<i32>) -> i32
    decreases layers.len(),
{
    if layers.len() <= 1 {
        layers[0]
    } else {
        let before = least(layers.drop_last());
        if layers.last() < before {
            layers.last()
        } else {
            before
        }
    }
}

/// The greatest of the layers.
pub open spec fn greatest(layers: Seq<i32>) -> i32
    decreases layers.len(),
{
    if layers.len() <= 1 {
        layers[0]
    } else {
        let before = greatest(layers.drop_last());
        if layers.last() > before {
            layers.last()
        } else {
            before
        }
    }
}

/// The greatest of the layers up to `max` that are layers at all.
pub open spec fn greatest_up_to(layers: Seq<i32>, max: i32) -> i32
    decreases layers.len(),
{
    if layers.len() == 0 {
        INVALID_SPATIAL
    } else {
        let before = greatest_up_to(layers.drop_last(), max);
        if before < layers.last() <= max {
            layers.last()
        } else {
            before
        }
    }
}

fn least_layer(layers: &[i32]) -> (layer: i32)
    requires
        layers@.len() > 0,
    ensures
        layer == least(layers@),
{
    let mut layer: i32 = layers[0];
    let mut i: usize = 1;
    assert(least(layers@.take(1)) == layer);
    while i < layers.len()
        invariant
            1 <= i <= layers@.len(),
            layer == least(layers@.take(i as int)),
        decreases layers.len() - i,
    {
        if layers[i] < layer {
            layer = layers[i];
        }
        i += 1;
        assert(layers@.take(i as int).drop_last() =~= layers@.take(i - 1));
    }
    assert(layers@.take(i as int) =~= layers@);
    layer
}

fn greatest_layer(layers: &[i32]) -> (layer: i32)
    requires
        layers@.len() > 0,
    ensures
        layer == greatest(layers@),
{
    let mut layer: i32 = layers[0];
    let mut i: usize = 1;
    assert(greatest(layers@.take(1)) == layer);
    while i < layers.len()
        invariant
            1 <= i <= layers@.len(),
            layer == greatest(layers@.take(i as int)),
        decreases layers.len() - i,
    {
        if layers[i] > layer {
            layer = layers[i];
        }
        i += 1;
        assert(layers@.take(i as int).drop_last() =~= layers@.take(i - 1));
    }
    assert(layers@.take(i as int) =~= layers@);
    layer
}

fn greatest_layer_up_to(layers: &[i32], max: i32) -> (layer: i32)
    ensures
        layer == greatest_up_to(layers@, max),
{
    let mut layer: i32 = INVALID_SPATIAL;
    let mut i: usize = 0;
    while i < layers.len()
        invariant
            i <= layers@.len(),
            layer == greatest_up_to(layers@.take(i as int), max),
        decreases layers.len() - i,
    {
        if layers[i] <= max && layers[i] > layer {
            layer = layers[i];
        }
        i += 1;
        assert(layers@.take(i as int).drop_last() =~= layers@.take(i - 1));
    }
    assert(layers@.take(i as int) =~= layers@);
    layer
}

impl ForwarderLayers {
    /// The bandwidth that the best layer up to `max` takes.
    pub open spec fn needed(self, bitrates: Seq<Seq<i64>>, max: VideoLayerLite) -> i64 {
        if self.is_idle(max) {
            0
        } else {
            crate::forwarder::bitrates::highest_rate(
                bitrates,
                max.spatial as int,
                max.temporal as int,
                max.temporal as int,
            )
        }
    }

    /// The spatial layer that is best: the lowest one to hold on to, one that is waited for, the
    /// greatest available one that is wanted, the greatest available one, or the one that is
    /// wanted.
    pub open spec fn best_spatial(self, available: Seq<i32>, hold: bool) -> i32 {
        let max = self.effective_max();
        let fitting = greatest_up_to(available, max.spatial);
        if hold {
            if available.len() == 0 {
                0
            } else {
                least(available)
            }
        } else if self.acquire_grace_active && !self.current_layer.valid()
            && self.max_published_spatial < max.spatial {
            max.spatial
        } else if fitting != INVALID_SPATIAL {
            fitting
        } else if available.len() > 0 && greatest(available) != INVALID_SPATIAL {
            greatest(available)
        } else {
            max.spatial
        }
    }

    /// The layer that is best.
    pub open spec fn best_layer(self, available: Seq<i32>, hold: bool) -> VideoLayerLite {
        VideoLayerLite {
            spatial: self.best_spatial(available, hold),
            temporal: if hold {
                0
            } else {
                self.effective_max().temporal
            },
        }
    }

    /// The best allocation, and the layers after it.
    pub open spec fn optimal(self, available: Seq<i32>, bitrates: Seq<Seq<i64>>, hold: bool) ->
        AllocationView {
        let max = self.effective_max();
        let needed = self.needed(bitrates, max);
        if self.muted {
            AllocationView::nothing(VideoPauseReasonLite::Muted, needed, bitrates, max)
        } else if self.pub_muted {
            AllocationView::nothing(VideoPauseReasonLite::PubMuted, needed, bitrates, max)
        } else if self.is_idle(max) {
            AllocationView::nothing(VideoPauseReasonLite::Bandwidth, needed, bitrates, max)
        } else {
            self.allocation_of(self.best_layer(available, hold), bitrates)
        }
    }

    /// The allocation of the layer.
    pub open spec fn allocation_of(self, layer: VideoLayerLite, bitrates: Seq<Seq<i64>>) ->
        AllocationView {
        let max = self.effective_max();
        let needed = self.needed(bitrates, max);
        let requested = crate::forwarder::bitrates::layer_rate(bitrates, layer);
        AllocationView {
            pause_reason: VideoPauseReasonLite::Bandwidth,
            is_deficient: needed > 0 && requested < needed,
            bandwidth_requested: requested,
            bandwidth_delta: (requested - crate::forwarder::bitrates::layer_rate(
                bitrates,
                self.target_layer,
            )) as i64,
            bandwidth_needed: needed,
            bitrates,
            target_layer: layer,
            request_layer_spatial: layer.spatial,
            max_layer: max,
            quarters_to_desired: 0,
        }
    }

    /// The difference that the layer makes can be told.
    pub open spec fn can_tell(self, layer: VideoLayerLite, bitrates: Seq<Seq<i64>>) -> bool {
        crate::forwarder::bitrates::is_i64(
            crate::forwarder::bitrates::layer_rate(bitrates, layer)
                - crate::forwarder::bitrates::layer_rate(bitrates, self.target_layer),
        )
    }

    /// The layer is not above the highest one.
    pub open spec fn fits(self, layer: VideoLayerLite) -> bool {
        let max = self.effective_max();
        layer.spatial <= max.spatial && layer.temporal <= max.temporal
    }

    /// The layer can be tried out.
    pub open spec fn can_try(self, layer: VideoLayerLite, allow_overshoot: bool) -> bool {
        !self.is_idle(self.effective_max()) && (allow_overshoot || self.fits(layer))
    }

    /// The layer that is tried out is taken.
    pub open spec fn takes(
        self,
        provisional: ProvisionalView,
        available_channel_capacity: i64,
        layer: VideoLayerLite,
        allow_pause: bool,
        allow_overshoot: bool,
    ) -> bool {
        let required = provisional.rate(layer);
        let allocated = provisional.allocated;
        &&& self.can_try(layer, allow_overshoot)
        &&& required != 0
        &&& {
            ||| self.fits(layer) && required <= available_channel_capacity + provisional.rate(
                allocated,
            )
            ||| !allow_pause && (!allocated.valid() || layer.spatial < allocated.spatial || (
            layer.spatial == allocated.spatial && layer.temporal <= allocated.temporal))
        }
    }

    /// The layer to go to where no bandwidth may be taken from others: the present one, or else
    /// the lowest one, or else the one that is sent.
    pub open spec fn cooperative_layer(
        self,
        bitrates: Seq<Seq<i64>>,
        allow_overshoot: bool,
    ) -> VideoLayerLite {
        let max = self.effective_max();
        let wanted = VideoLayerLite {
            spatial: if max.spatial < 0 {
                0
            } else {
                max.spatial
            },
            temporal: if max.temporal < 0 {
                0
            } else {
                max.temporal
            },
        };
        let above = if max.spatial < 0 {
            0
        } else {
            max.spatial + 1
        };
        if self.target_layer.valid() && crate::forwarder::bitrates::layer_rate(
            bitrates,
            self.target_layer,
        ) > 0 {
            self.target_layer
        } else {
            match crate::forwarder::bitrates::lowest_layer(bitrates, 0, 0, wanted) {
                Some(layer) => layer,
                None => match crate::forwarder::bitrates::lowest_layer(
                    bitrates,
                    above,
                    0,
                    crate::forwarder::highest_layer(),
                ) {
                    Some(layer) if allow_overshoot => layer,
                    _ => self.current_layer,
                },
            }
        }
    }

    /// The change to the layer to go to where no bandwidth may be taken from others.
    pub open spec fn cooperative(
        self,
        bitrates: Seq<Seq<i64>>,
        allow_overshoot: bool,
    ) -> VideoTransitionLite {
        let from = self.target_layer;
        let to = if self.muted || self.pub_muted {
            VideoLayerLite::none()
        } else {
            self.cooperative_layer(bitrates, allow_overshoot)
        };
        VideoTransitionLite {
            from,
            to,
            bandwidth_delta: (crate::forwarder::bitrates::layer_rate(bitrates, to)
                - crate::forwarder::bitrates::layer_rate(bitrates, from)) as i64,
        }
    }
}

/// The layers of a spatial layer with temporal layers from `first` to `last`.
pub open spec fn temporal_run(spatial: i32, first: int, last: int) -> Seq<VideoLayerLite>
    decreases last + 1 - first,
{
    if last < first {
        Seq::empty()
    } else {
        temporal_run(spatial, first, last - 1).push(
            VideoLayerLite { spatial, temporal: last as i32 },
        )
    }
}

/// The layers with spatial layers from `first` to `last`, and all temporal layers up to `top`.
pub open spec fn spatial_run(first: int, last: int, top: int) -> Seq<VideoLayerLite>
    decreases last + 1 - first,
{
    if last < first {
        Seq::empty()
    } else {
        spatial_run(first, last - 1, top) + temporal_run(last as i32, 0, top)
    }
}

/// The number, or 0 where it is negative.
pub open spec fn at_least_zero(number: int) -> int {
    if number < 0 {
        0
    } else {
        number
    }
}

/// The layers above `current`, from the lowest to the highest, and those above `max` where it
/// may be overshot.
pub open spec fn higher_layers(
    current: VideoLayerLite,
    max: VideoLayerLite,
    allow_overshoot: bool,
) -> Seq<VideoLayerLite> {
    let top = at_least_zero(max.temporal as int);
    (if current.valid() {
        temporal_run(current.spatial, current.temporal + 1, top)
    } else {
        Seq::empty()
    }) + spatial_run(
        at_least_zero(current.spatial + 1),
        at_least_zero(max.spatial as int),
        top,
    ) + (if allow_overshoot {
        spatial_run(
            at_least_zero(max.spatial + 1),
            DEFAULT_MAX_SPATIAL as int,
            DEFAULT_MAX_TEMPORAL as int,
        )
    } else {
        Seq::empty()
    })
}

/// The layer is available and has a bitrate.
pub open spec fn is_usable(
    layer: VideoLayerLite,
    available: Seq<i32>,
    bitrates: Seq<Seq<i64>>,
) -> bool {
    (available.len() == 0 || available.contains(layer.spatial))
        && crate::forwarder::bitrates::layer_rate(bitrates, layer) != 0
}

/// The first of the layers that is available and has a bitrate.
pub open spec fn first_usable(
    layers: Seq<VideoLayerLite>,
    available: Seq<i32>,
    bitrates: Seq<Seq<i64>>,
) -> Option<VideoLayerLite>
    decreases layers.len(),
{
    if layers.len() == 0 {
        None
    } else {
        match first_usable(layers.drop_last(), available, bitrates) {
            Some(layer) => Some(layer),
            None => if is_usable(layers.last(), available, bitrates) {
                Some(layers.last())
            } else {
                None
            },
        }
    }
}

fn contains_layer(layers: &[i32], layer: i32) -> (contains: bool)
    ensures
        contains == layers@.contains(layer),
{
    let mut i: usize = 0;
    while i < layers.len()
        invariant
            i <= layers@.len(),
            forall|j: int| 0 <= j < i ==> layers@[j] != layer,
        decreases layers.len() - i,
    {
        if layers[i] == layer {
            return true;
        }
        i += 1;
    }
    false
}

fn push_temporal_run(layers: &mut Vec<VideoLayerLite>, spatial: i32, first: i64, last: i64)
    requires
        0 <= first <= i32::MAX + 1,
        last <= i32::MAX,
    ensures
        final(layers)@ == old(layers)@ + temporal_run(spatial, first as int, last as int),
{
    let ghost before = layers@;
    let mut temporal: i64 = first;
    assert(before + temporal_run(spatial, first as int, first - 1) =~= before);
    while temporal <= last
        invariant
            0 <= first <= temporal,
            temporal <= last + 1 || temporal == first,
            last <= i32::MAX,
            layers@ == before + temporal_run(spatial, first as int, temporal - 1),
        decreases last + 1 - temporal,
    {
        layers.push(VideoLayerLite { spatial, temporal: temporal as i32 });
        temporal += 1;
        assert(layers@ =~= before + temporal_run(spatial, first as int, temporal - 1));
    }
    assert(temporal_run(spatial, first as int, temporal - 1) =~= temporal_run(
        spatial,
        first as int,
        last as int,
    ));
}

fn push_spatial_run(layers: &mut Vec<VideoLayerLite>, first: i64, last: i64, top: i64)
    requires
        0 <= first <= i32::MAX + 1,
        last <= i32::MAX,
        top <= i32::MAX,
    ensures
        final(layers)@ == old(layers)@ + spatial_run(first as int, last as int, top as int),
{
    let ghost before = layers@;
    let mut spatial: i64 = first;
    assert(before + spatial_run(first as int, first - 1, top as int) =~= before);
    while spatial <= last
        invariant
            0 <= first <= spatial,
            spatial <= last + 1 || spatial == first,
            last <= i32::MAX,
            top <= i32::MAX,
            layers@ == before + spatial_run(first as int, spatial - 1, top as int),
        decreases last + 1 - spatial,
    {
        push_temporal_run(layers, spatial as i32, 0, top);
        spatial += 1;
        assert(layers@ =~= before + spatial_run(first as int, spatial - 1, top as int));
    }
    assert(spatial_run(first as int, spatial - 1, top as int) =~= spatial_run(
        first as int,
        last as int,
        top as int,
    ));
}

/// The layers above `current`.
fn layers_above(current: VideoLayerLite, max: VideoLayerLite, allow_overshoot: bool) -> (layers:
    Vec<VideoLayerLite>)
    ensures
        layers@ == higher_layers(current, max, allow_overshoot),
{
    let top: i64 = if max.temporal < 0 {
        0
    } else {
        max.temporal as i64
    };
    let last: i64 = if max.spatial < 0 {
        0
    } else {
        max.spatial as i64
    };
    let above_current: i64 = if current.spatial < 0 {
        0
    } else {
        current.spatial as i64 + 1
    };
    let above_max: i64 = if max.spatial < 0 {
        0
    } else {
        max.spatial as i64 + 1
    };
    let mut layers: Vec<VideoLayerLite> = Vec::new();
    if current.is_valid() {
        push_temporal_run(&mut layers, current.spatial, current.temporal as i64 + 1, top);
    }
    push_spatial_run(&mut layers, above_current, last, top);
    if allow_overshoot {
        push_spatial_run(
            &mut layers,
            above_max,
            DEFAULT_MAX_SPATIAL as i64,
            DEFAULT_MAX_TEMPORAL as i64,
        );
    }
    assert(layers@ =~= higher_layers(current, max, allow_overshoot));
    layers
}

fn first_usable_layer(
    layers: &Vec<VideoLayerLite>,
    available: &[i32],
    bitrates: &BitratesLite,
) -> (layer: Option<VideoLayerLite>)
    ensures
        layer == first_usable(
            layers@,
            available@,
            crate::forwarder::bitrates::rows(bitrates@),
        ),
{
    let ghost rows = crate::forwarder::bitrates::rows(bitrates@);
    let mut i: usize = 0;
    while i < layers.len()
        invariant
            i <= layers@.len(),
            rows == crate::forwarder::bitrates::rows(bitrates@),
            first_usable(layers@.take(i as int), available@, rows) is None,
        decreases layers.len() - i,
    {
        let layer: VideoLayerLite = layers[i];
        proof {
            assert(layers@.take(i + 1).drop_last() =~= layers@.take(i as int));
        }
        if (available.len() == 0 || contains_layer(available, layer.spatial)) && layer_bitrate(
            bitrates,
            layer,
        ) != 0 {
            proof {
                lemma_first_usable_stays(layers@, i + 1, available@, rows);
            }
            return Some(layer);
        }
        i += 1;
    }
    assert(layers@.take(i as int) =~= layers@);
    None
}

proof fn lemma_first_usable_stays(
    layers: Seq<VideoLayerLite>,
    n: int,
    available: Seq<i32>,
    bitrates: Seq<Seq<i64>>,
)
    requires
        0 <= n <= layers.len(),
        first_usable(layers.take(n), available, bitrates) is Some,
    ensures
        first_usable(layers, available, bitrates) == first_usable(
            layers.take(n),
            available,
            bitrates,
        ),
    decreases layers.len(),
{
    if n < layers.len() {
        assert(layers.drop_last().take(n) =~= layers.take(n));
        lemma_first_usable_stays(layers.drop_last(), n, available, bitrates);
    } else {
        assert(layers.take(n) =~= layers);
    }
}

impl crate::forwarder::ForwarderView {
    /// The forwarder after an allocation.
    pub open spec fn allocated(self, allocation: AllocationView) -> Self {
        crate::forwarder::ForwarderView {
            layers: ForwarderLayers { target_layer: allocation.target_layer, ..self.layers },
            last_allocation: Some(allocation),
            ..self
        }
    }

    /// The forwarder with another allocation to try out.
    pub open spec fn trying(self, provisional: ProvisionalView) -> Self {
        crate::forwarder::ForwarderView { provisional, ..self }
    }

    /// The last allocation was not enough, and it was one of video.
    pub open spec fn wants_more(self) -> bool {
        self.last_allocation matches Some(last) && self.layers.kind == CodecKindLite::Video
            && last.is_deficient
    }

    /// The next higher layer that can be sent.
    pub open spec fn next_higher(
        self,
        available: Seq<i32>,
        bitrates: Seq<Seq<i64>>,
        allow_overshoot: bool,
    ) -> Option<VideoLayerLite> {
        first_usable(
            higher_layers(self.layers.target_layer, self.layers.effective_max(), allow_overshoot),
            available,
            bitrates,
        )
    }

    /// The allocation of the next higher layer.
    pub open spec fn boosted(self, layer: VideoLayerLite, bitrates: Seq<Seq<i64>>) ->
        AllocationView {
        let allocation = self.layers.allocation_of(layer, bitrates);
        AllocationView {
            is_deficient: layer.spatial <= self.layers.effective_max().spatial
                && allocation.bandwidth_requested < allocation.bandwidth_needed,
            ..allocation
        }
    }

    /// The bandwidth that the layer takes in addition.
    pub open spec fn extra(self, layer: VideoLayerLite, bitrates: Seq<Seq<i64>>) -> int {
        crate::forwarder::bitrates::layer_rate(bitrates, layer)
            - crate::forwarder::bitrates::layer_rate(bitrates, self.layers.target_layer)
    }

    /// What is committed of the allocation that was tried out.
    pub open spec fn committed(self) -> AllocationView {
        let allocation = self.layers.allocation_of(
            self.provisional.allocated,
            self.provisional.bitrates,
        );
        if self.layers.muted {
            AllocationView::nothing(
                VideoPauseReasonLite::Muted,
                0,
                self.provisional.bitrates,
                self.layers.effective_max(),
            )
        } else {
            allocation
        }
    }

    /// What is committed of the layer that was tried out.
    pub open spec fn simply_committed(self, bitrates: Seq<Seq<i64>>) -> AllocationView {
        let nothing = AllocationView::nothing(
            VideoPauseReasonLite::Muted,
            0,
            bitrates,
            crate::forwarder::highest_layer(),
        );
        if self.layers.muted {
            nothing
        } else {
            AllocationView {
                pause_reason: VideoPauseReasonLite::Bandwidth,
                target_layer: self.provisional.target,
                request_layer_spatial: self.provisional.target.spatial,
                ..nothing
            }
        }
    }

    /// What is left when the track is paused.
    pub open spec fn paused(self, bitrates: Seq<Seq<i64>>) -> AllocationView {
        let delta = -crate::forwarder::bitrates::layer_rate(bitrates, self.layers.target_layer);
        let nothing = AllocationView::nothing(
            VideoPauseReasonLite::Muted,
            0,
            bitrates,
            crate::forwarder::highest_layer(),
        );
        if self.layers.muted {
            AllocationView { bandwidth_delta: delta as i64, ..nothing }
        } else {
            AllocationView {
                pause_reason: VideoPauseReasonLite::Bandwidth,
                is_deficient: true,
                bandwidth_delta: delta as i64,
                bandwidth_needed: PAUSED_BANDWIDTH_NEEDED,
                quarters_to_desired: PAUSED_QUARTERS_TO_DESIRED,
                ..nothing
            }
        }
    }
}

impl ForwarderLite {
    /// The bandwidth that the best layer up to `max_layer` takes.
    pub fn get_optimal_bandwidth_needed(
        &self,
        bitrates: &BitratesLite,
        max_layer: VideoLayerLite,
    ) -> (needed: i64)
        ensures
            needed == self@.layers.needed(crate::forwarder::bitrates::rows(bitrates@), max_layer),
    {
        if self.layers.muted || self.layers.pub_muted || self.layers.max_published_spatial
            == INVALID_SPATIAL || !max_layer.is_valid() {
            return 0;
        }
        highest_bitrate(bitrates, max_layer)
    }

    fn keep_allocation(&mut self, allocation: VideoAllocationLite) -> (kept: VideoAllocationLite)
        ensures
            kept@ == allocation@,
            final(self)@ == old(self)@.allocated(allocation@),
    {
        self.layers.target_layer = allocation.target_layer;
        self.last_allocation = Some(allocation.duplicate());
        allocation
    }

    fn allocate_layer(&self, layer: VideoLayerLite, bitrates: &BitratesLite) -> (allocation:
        VideoAllocationLite)
        requires
            self@.layers.can_tell(layer, crate::forwarder::bitrates::rows(bitrates@)),
        ensures
            allocation@ == self@.layers.allocation_of(
                layer,
                crate::forwarder::bitrates::rows(bitrates@),
            ),
    {
        let max_layer: VideoLayerLite = self.layers.effective_max_layer();
        let needed: i64 = self.get_optimal_bandwidth_needed(bitrates, max_layer);
        let requested: i64 = layer_bitrate(bitrates, layer);
        let previous: i64 = layer_bitrate(bitrates, self.layers.target_layer);
        VideoAllocationLite {
            pause_reason: VideoPauseReasonLite::Bandwidth,
            is_deficient: needed > 0 && requested < needed,
            bandwidth_requested: requested,
            bandwidth_delta: requested - previous,
            bandwidth_needed: needed,
            bitrates: copy_bitrates(bitrates),
            target_layer: layer,
            request_layer_spatial: layer.spatial,
            max_layer,
            quarters_to_desired: 0,
        }
    }

    /// Begins to try out an allocation.
    pub fn provisional_allocate_prepare(&mut self, bitrates: &BitratesLite)
        ensures
            final(self)@ == old(self)@.trying(
                ProvisionalView::prepared(
                    Seq::empty(),
                    crate::forwarder::bitrates::rows(bitrates@),
                ),
            ),
    {
        self.provisional = ProvisionalAllocation {
            target: VideoLayerLite::invalid(),
            available_layers: Vec::new(),
            bitrates: copy_bitrates(bitrates),
            allocated_layer: VideoLayerLite::invalid(),
        };
        assert(self.provisional@.available =~= Seq::empty());
    }

    /// Begins to try out an allocation among layers that are available.
    pub fn provisional_allocate_prepare_advanced(
        &mut self,
        available_layers: &[i32],
        bitrates: &BitratesLite,
    )
        ensures
            final(self)@ == old(self)@.trying(
                ProvisionalView::prepared(
                    available_layers@,
                    crate::forwarder::bitrates::rows(bitrates@),
                ),
            ),
    {
        self.provisional = ProvisionalAllocation {
            target: VideoLayerLite::invalid(),
            available_layers: copy_layers(available_layers),
            bitrates: copy_bitrates(bitrates),
            allocated_layer: VideoLayerLite::invalid(),
        };
    }

    /// Tries out a layer, whatever it takes. Tells whether it can be taken.
    pub fn provisional_allocate(
        &mut self,
        available_channel_capacity: i64,
        layer: VideoLayerLite,
    ) -> (told: (bool, i64))
        ensures
            told == (!old(self)@.layers.muted, 0i64),
            final(self)@ == if old(self)@.layers.muted {
                old(self)@
            } else {
                old(self)@.trying(ProvisionalView { target: layer, ..old(self)@.provisional })
            },
    {
        if self.layers.muted {
            return (false, 0);
        }
        self.provisional.target = layer;
        (true, 0)
    }

    /// Commits the layer that was tried out.
    pub fn provisional_allocate_commit(&mut self, bitrates: BitratesLite) -> (allocation:
        VideoAllocationLite)
        ensures
            allocation@ == old(self)@.simply_committed(
                crate::forwarder::bitrates::rows(bitrates@),
            ),
            final(self)@ == old(self)@.allocated(allocation@),
    {
        let mut allocation: VideoAllocationLite = VideoAllocationLite::send_nothing(
            VideoPauseReasonLite::Muted,
            0,
            bitrates,
            default_max_layer(),
        );
        if !self.layers.muted {
            allocation.pause_reason = VideoPauseReasonLite::Bandwidth;
            allocation.target_layer = self.provisional.target;
            allocation.request_layer_spatial = self.provisional.target.spatial;
        }
        self.keep_allocation(allocation)
    }

    /// Tries out a layer. Tells whether it is taken, and how much more it takes than the one
    /// before.
    pub fn provisional_allocate_advanced(
        &mut self,
        available_channel_capacity: i64,
        layer: VideoLayerLite,
        allow_pause: bool,
        allow_overshoot: bool,
    ) -> (told: (bool, i64))
        requires
            old(self)@.layers.can_try(layer, allow_overshoot) && old(self)@.provisional.rate(layer)
                != 0 ==> {
                let provisional = old(self)@.provisional;
                let allocated = provisional.rate(provisional.allocated);
                &&& old(self)@.layers.fits(layer) ==> crate::forwarder::bitrates::is_i64(
                    available_channel_capacity + allocated,
                )
                &&& old(self)@.layers.takes(
                    provisional,
                    available_channel_capacity,
                    layer,
                    allow_pause,
                    allow_overshoot,
                ) ==> crate::forwarder::bitrates::is_i64(provisional.rate(layer) - allocated)
            },
        ensures
            ({
                let provisional = old(self)@.provisional;
                if old(self)@.layers.takes(
                    provisional,
                    available_channel_capacity,
                    layer,
                    allow_pause,
                    allow_overshoot,
                ) {
                    told == (
                        true,
                        (provisional.rate(layer) - provisional.rate(provisional.allocated)) as i64,
                    ) && final(self)@ == old(self)@.trying(
                        ProvisionalView { allocated: layer, ..provisional },
                    )
                } else {
                    told == (false, 0i64) && final(self)@ == old(self)@
                }
            }),
    {
        let max_layer: VideoLayerLite = self.layers.effective_max_layer();
        let fits: bool = layer.spatial <= max_layer.spatial && layer.temporal
            <= max_layer.temporal;
        if self.layers.muted || self.layers.pub_muted || self.layers.max_published_spatial
            == INVALID_SPATIAL || !max_layer.is_valid() || (!allow_overshoot && !fits) {
            return (false, 0);
        }
        let required: i64 = layer_bitrate(&self.provisional.bitrates, layer);
        if required == 0 {
            return (false, 0);
        }
        let allocated_layer: VideoLayerLite = self.provisional.allocated_layer;
        let already_allocated: i64 = layer_bitrate(&self.provisional.bitrates, allocated_layer);
        let affordable: bool = fits && required <= available_channel_capacity + already_allocated;
        let unpausable: bool = !allow_pause && (!allocated_layer.is_valid() || layer.spatial
            < allocated_layer.spatial || (layer.spatial == allocated_layer.spatial
            && layer.temporal <= allocated_layer.temporal));
        if affordable || unpausable {
            self.provisional.allocated_layer = layer;
            return (true, required - already_allocated);
        }
        (false, 0)
    }

    /// Tries out the layer to go to where no bandwidth may be taken from others. Tells the
    /// change, and the layers and bitrates that it was found among.
    pub fn provisional_allocate_get_cooperative_transition_advanced(
        &mut self,
        allow_overshoot: bool,
    ) -> (told: (VideoTransitionLite, Vec<i32>, BitratesLite))
        requires
            ({
                let rows = old(self)@.provisional.bitrates;
                let layers = old(self)@.layers;
                let to = if layers.muted || layers.pub_muted {
                    VideoLayerLite::none()
                } else {
                    layers.cooperative_layer(rows, allow_overshoot)
                };
                layers.can_tell(to, rows)
            }),
        ensures
            ({
                let provisional = old(self)@.provisional;
                let transition = old(self)@.layers.cooperative(
                    provisional.bitrates,
                    allow_overshoot,
                );
                &&& told.0 == transition
                &&& told.1@ == provisional.available
                &&& crate::forwarder::bitrates::rows(told.2@) == provisional.bitrates
                &&& final(self)@ == old(self)@.trying(
                    ProvisionalView { allocated: transition.to, ..provisional },
                )
            }),
    {
        let from: VideoLayerLite = self.layers.target_layer;
        let to: VideoLayerLite = if self.layers.muted || self.layers.pub_muted {
            VideoLayerLite::invalid()
        } else {
            self.find_cooperative_layer(allow_overshoot)
        };
        let required: i64 = layer_bitrate(&self.provisional.bitrates, to);
        let previous: i64 = layer_bitrate(&self.provisional.bitrates, from);
        self.provisional.allocated_layer = to;
        (
            VideoTransitionLite { from, to, bandwidth_delta: required - previous },
            copy_layers(&self.provisional.available_layers),
            copy_bitrates(&self.provisional.bitrates),
        )
    }

    fn find_cooperative_layer(&self, allow_overshoot: bool) -> (layer: VideoLayerLite)
        ensures
            layer == self@.layers.cooperative_layer(self@.provisional.bitrates, allow_overshoot),
    {
        let from: VideoLayerLite = self.layers.target_layer;
        if from.is_valid() && layer_bitrate(&self.provisional.bitrates, from) > 0 {
            return from;
        }
        let max_layer: VideoLayerLite = self.layers.effective_max_layer();
        let wanted: VideoLayerLite = VideoLayerLite {
            spatial: if max_layer.spatial < 0 {
                0
            } else {
                max_layer.spatial
            },
            temporal: if max_layer.temporal < 0 {
                0
            } else {
                max_layer.temporal
            },
        };
        if let Some(layer) = lowest_layer_with_bitrate(&self.provisional.bitrates, 0, wanted) {
            return layer;
        }
        if allow_overshoot && max_layer.spatial < DEFAULT_MAX_SPATIAL {
            let above: i32 = if max_layer.spatial < 0 {
                0
            } else {
                max_layer.spatial + 1
            };
            if let Some(layer) = lowest_layer_with_bitrate(
                &self.provisional.bitrates,
                above,
                default_max_layer(),
            ) {
                return layer;
            }
        }
        self.layers.current_layer
    }

    /// Commits the allocation that was tried out.
    pub fn provisional_allocate_commit_advanced(&mut self) -> (allocation: VideoAllocationLite)
        requires
            old(self)@.layers.can_tell(
                old(self)@.provisional.allocated,
                old(self)@.provisional.bitrates,
            ),
        ensures
            allocation@ == old(self)@.committed(),
            final(self)@ == old(self)@.allocated(allocation@),
    {
        let allocation: VideoAllocationLite = if self.layers.muted {
            VideoAllocationLite::send_nothing(
                VideoPauseReasonLite::Muted,
                0,
                copy_bitrates(&self.provisional.bitrates),
                self.layers.effective_max_layer(),
            )
        } else {
            self.allocate_layer(self.provisional.allocated_layer, &self.provisional.bitrates)
        };
        self.keep_allocation(allocation)
    }

    fn choose_spatial_layer(&self, available_layers: &[i32], hold: bool) -> (spatial: i32)
        ensures
            spatial == self@.layers.best_spatial(available_layers@, hold),
    {
        let max_layer: VideoLayerLite = self.layers.effective_max_layer();
        if hold {
            return if available_layers.len() == 0 {
                0
            } else {
                least_layer(available_layers)
            };
        }
        if self.within_acquire_grace() && !self.layers.current_layer.is_valid()
            && self.layers.max_published_spatial < max_layer.spatial {
            return max_layer.spatial;
        }
        let fitting: i32 = greatest_layer_up_to(available_layers, max_layer.spatial);
        if fitting != INVALID_SPATIAL {
            return fitting;
        }
        if available_layers.len() > 0 {
            let highest: i32 = greatest_layer(available_layers);
            if highest != INVALID_SPATIAL {
                return highest;
            }
        }
        max_layer.spatial
    }

    /// Allocates the best layer. An audio track keeps what was allocated last.
    pub fn allocate_optimal_advanced(
        &mut self,
        available_layers: &[i32],
        bitrates: &BitratesLite,
        allow_overshoot: bool,
        hold: bool,
    ) -> (allocation: VideoAllocationLite)
        requires
            old(self)@.layers.kind == CodecKindLite::Video && !old(self)@.layers.is_idle(
                old(self)@.layers.effective_max(),
            ) ==> old(self)@.layers.can_tell(
                old(self)@.layers.best_layer(available_layers@, hold),
                crate::forwarder::bitrates::rows(bitrates@),
            ),
        ensures
            ({
                let before = old(self)@;
                let rows = crate::forwarder::bitrates::rows(bitrates@);
                let max = before.layers.effective_max();
                if before.layers.kind == CodecKindLite::Audio {
                    final(self)@ == before && allocation@ == match before.last_allocation {
                        Some(last) => last,
                        None => AllocationView::nothing(
                            VideoPauseReasonLite::Bandwidth,
                            before.layers.needed(rows, max),
                            rows,
                            max,
                        ),
                    }
                } else {
                    allocation@ == before.layers.optimal(available_layers@, rows, hold)
                        && final(self)@ == before.allocated(allocation@)
                }
            }),
    {
        let max_layer: VideoLayerLite = self.layers.effective_max_layer();
        let needed: i64 = self.get_optimal_bandwidth_needed(bitrates, max_layer);
        let idle: bool = !max_layer.is_valid() || self.layers.max_published_spatial
            == INVALID_SPATIAL;
        if self.layers.kind == CodecKindLite::Audio {
            return match &self.last_allocation {
                Some(last) => last.duplicate(),
                None => VideoAllocationLite::send_nothing(
                    VideoPauseReasonLite::Bandwidth,
                    needed,
                    copy_bitrates(bitrates),
                    max_layer,
                ),
            };
        }
        if self.layers.muted || self.layers.pub_muted || idle {
            let reason: VideoPauseReasonLite = if self.layers.muted {
                VideoPauseReasonLite::Muted
            } else if self.layers.pub_muted {
                VideoPauseReasonLite::PubMuted
            } else {
                VideoPauseReasonLite::Bandwidth
            };
            let allocation: VideoAllocationLite = VideoAllocationLite::send_nothing(
                reason,
                needed,
                copy_bitrates(bitrates),
                max_layer,
            );
            return self.keep_allocation(allocation);
        }
        let layer: VideoLayerLite = VideoLayerLite {
            spatial: self.choose_spatial_layer(available_layers, hold),
            temporal: if hold {
                0
            } else {
                max_layer.temporal
            },
        };
        let allocation: VideoAllocationLite = self.allocate_layer(layer, bitrates);
        self.keep_allocation(allocation)
    }

    /// Allocates the next higher layer where the last allocation was not enough and the bandwidth
    /// is there. Tells whether it did.
    pub fn allocate_next_higher_advanced(
        &mut self,
        available_channel_capacity: i64,
        available_layers: &[i32],
        bitrates: &BitratesLite,
        allow_overshoot: bool,
    ) -> (told: (VideoAllocationLite, bool))
        requires
            old(self)@.wants_more() ==> (old(self)@.next_higher(
                available_layers@,
                crate::forwarder::bitrates::rows(bitrates@),
                allow_overshoot,
            ) matches Some(layer) ==> old(self)@.layers.can_tell(
                layer,
                crate::forwarder::bitrates::rows(bitrates@),
            )),
        ensures
            ({
                let before = old(self)@;
                let rows = crate::forwarder::bitrates::rows(bitrates@);
                let next = before.next_higher(available_layers@, rows, allow_overshoot);
                match before.last_allocation {
                    None => told.0@ == (AllocationView {
                        target_layer: before.layers.target_layer,
                        request_layer_spatial: before.layers.request_layer_spatial,
                        ..AllocationView::nothing(
                            VideoPauseReasonLite::Bandwidth,
                            0,
                            rows,
                            before.layers.effective_max(),
                        )
                    }) && !told.1 && final(self)@ == before,
                    Some(last) => if before.wants_more() && next is Some && (allow_overshoot
                        || before.extra(next->0, rows) <= available_channel_capacity) {
                        told.0@ == before.boosted(next->0, rows) && told.1 && final(self)@
                            == before.allocated(told.0@)
                    } else {
                        told.0@ == last && !told.1 && final(self)@ == before
                    },
                }
            }),
    {
        let max_layer: VideoLayerLite = self.layers.effective_max_layer();
        let last: VideoAllocationLite = match &self.last_allocation {
            Some(last) => last.duplicate(),
            None => {
                let mut allocation: VideoAllocationLite = VideoAllocationLite::send_nothing(
                    VideoPauseReasonLite::Bandwidth,
                    0,
                    copy_bitrates(bitrates),
                    max_layer,
                );
                allocation.target_layer = self.layers.target_layer;
                allocation.request_layer_spatial = self.layers.request_layer_spatial;
                return (allocation, false);
            },
        };
        if self.layers.kind == CodecKindLite::Audio || !last.is_deficient {
            return (last, false);
        }
        let candidates: Vec<VideoLayerLite> = layers_above(
            self.layers.target_layer,
            max_layer,
            allow_overshoot,
        );
        let candidate: VideoLayerLite = match first_usable_layer(
            &candidates,
            available_layers,
            bitrates,
        ) {
            Some(candidate) => candidate,
            None => {
                return (last, false);
            },
        };
        let mut allocation: VideoAllocationLite = self.allocate_layer(candidate, bitrates);
        if !allow_overshoot && allocation.bandwidth_delta > available_channel_capacity {
            return (last, false);
        }
        allocation.is_deficient = candidate.spatial <= max_layer.spatial
            && allocation.bandwidth_requested < allocation.bandwidth_needed;
        (self.keep_allocation(allocation), true)
    }

    /// Pauses the track.
    pub fn pause(&mut self, bitrates: BitratesLite) -> (allocation: VideoAllocationLite)
        requires
            crate::forwarder::bitrates::layer_rate(
                crate::forwarder::bitrates::rows(bitrates@),
                old(self)@.layers.target_layer,
            ) > i64::MIN,
        ensures
            allocation@ == old(self)@.paused(crate::forwarder::bitrates::rows(bitrates@)),
            final(self)@ == old(self)@.allocated(allocation@),
    {
        let previous: i64 = layer_bitrate(&bitrates, self.layers.target_layer);
        let mut allocation: VideoAllocationLite = VideoAllocationLite::send_nothing(
            VideoPauseReasonLite::Muted,
            0,
            bitrates,
            default_max_layer(),
        );
        allocation.bandwidth_delta = 0 - previous;
        if !self.layers.muted {
            allocation.pause_reason = VideoPauseReasonLite::Bandwidth;
            allocation.is_deficient = true;
            allocation.bandwidth_needed = PAUSED_BANDWIDTH_NEEDED;
            allocation.quarters_to_desired = PAUSED_QUARTERS_TO_DESIRED;
        }
        self.keep_allocation(allocation)
    }
}

proof fn lemma_greatest_up_to(layers: Seq<i32>, max: i32, layer: i32)
    requires
        layers.contains(layer),
        0 <= layer <= max,
    ensures
        layers.contains(greatest_up_to(layers, max)),
        layer <= greatest_up_to(layers, max) <= max,
    decreases layers.len(),
{
    let i = choose|i: int| 0 <= i < layers.len() && layers[i] == layer;
    let before = layers.drop_last();
    if i < layers.len() - 1 {
        assert(before[i] == layer);
        lemma_greatest_up_to(before, max, layer);
        let found = greatest_up_to(before, max);
        let j = choose|j: int| 0 <= j < before.len() && before[j] == found;
        assert(layers[j] == found);
    } else {
        lemma_greatest_up_to_is_there(before, max);
        let found = greatest_up_to(before, max);
        if found >= layer {
            let j = choose|j: int| 0 <= j < before.len() && before[j] == found;
            assert(layers[j] == found);
        }
    }
}

proof fn lemma_greatest_up_to_is_there(layers: Seq<i32>, max: i32)
    ensures
        greatest_up_to(layers, max) == INVALID_SPATIAL || (layers.contains(
            greatest_up_to(layers, max),
        ) && 0 <= greatest_up_to(layers, max) <= max),
    decreases layers.len(),
{
    if layers.len() > 0 {
        let before = layers.drop_last();
        lemma_greatest_up_to_is_there(before, max);
        let found = greatest_up_to(before, max);
        if found != INVALID_SPATIAL {
            let j = choose|j: int| 0 <= j < before.len() && before[j] == found;
            assert(layers[j] == found);
        }
        assert(layers[layers.len() - 1] == layers.last());
    }
}

/// The best spatial layer is the greatest one that is available and wanted, where there is one
/// and nothing higher is waited for.
pub proof fn law_best_layer_is_available(layers: ForwarderLayers, available: Seq<i32>, layer: i32)
    requires
        !layers.acquire_grace_active,
        available.contains(layer),
        0 <= layer <= layers.effective_max().spatial,
    ensures
        available.contains(layers.best_spatial(available, false)),
        layer <= layers.best_spatial(available, false) <= layers.effective_max().spatial,
{
    lemma_greatest_up_to(available, layers.effective_max().spatial, layer);
}

/// A track that the subscriber or the publisher has muted gets nothing.
pub proof fn law_muted_track_gets_nothing(
    layers: ForwarderLayers,
    available: Seq<i32>,
    bitrates: Seq<Seq<i64>>,
    hold: bool,
)
    requires
        layers.muted || layers.pub_muted,
    ensures
        layers.optimal(available, bitrates, hold).target_layer == VideoLayerLite::none(),
        layers.optimal(available, bitrates, hold).bandwidth_needed == 0,
{
}

/// A layer that is taken where pausing is allowed is one that can be afforded.
pub proof fn law_taken_layer_can_be_afforded(
    layers: ForwarderLayers,
    provisional: ProvisionalView,
    available_channel_capacity: i64,
    layer: VideoLayerLite,
    allow_overshoot: bool,
)
    requires
        layers.takes(provisional, available_channel_capacity, layer, true, allow_overshoot),
    ensures
        provisional.rate(layer) - provisional.rate(provisional.allocated)
            <= available_channel_capacity,
        layer.spatial <= layers.effective_max().spatial,
        layer.temporal <= layers.effective_max().temporal,
{
}

/// The layer is above the other.
pub open spec fn is_above(layer: VideoLayerLite, other: VideoLayerLite) -> bool {
    layer.spatial > other.spatial || (layer.spatial == other.spatial && layer.temporal
        > other.temporal)
}

proof fn lemma_temporal_run(spatial: i32, first: int, last: int, i: int)
    requires
        0 <= first,
        last <= i32::MAX,
        0 <= i < temporal_run(spatial, first, last).len(),
    ensures
        temporal_run(spatial, first, last)[i].spatial == spatial,
        first <= temporal_run(spatial, first, last)[i].temporal <= last,
    decreases last + 1 - first,
{
    if first <= last && i < temporal_run(spatial, first, last - 1).len() {
        lemma_temporal_run(spatial, first, last - 1, i);
    }
}

proof fn lemma_spatial_run(first: int, last: int, top: int, i: int)
    requires
        0 <= first,
        last <= i32::MAX,
        top <= i32::MAX,
        0 <= i < spatial_run(first, last, top).len(),
    ensures
        first <= spatial_run(first, last, top)[i].spatial <= last,
    decreases last + 1 - first,
{
    if first <= last {
        let before = spatial_run(first, last - 1, top);
        if i < before.len() {
            lemma_spatial_run(first, last - 1, top, i);
        } else {
            lemma_temporal_run(last as i32, 0, top, i - before.len());
        }
    }
}

proof fn lemma_first_usable_is_there(
    layers: Seq<VideoLayerLite>,
    available: Seq<i32>,
    bitrates: Seq<Seq<i64>>,
)
    ensures
        first_usable(layers, available, bitrates) matches Some(layer) ==> layers.contains(layer)
            && is_usable(layer, available, bitrates),
    decreases layers.len(),
{
    if layers.len() > 0 {
        let before = layers.drop_last();
        lemma_first_usable_is_there(before, available, bitrates);
        if let Some(layer) = first_usable(before, available, bitrates) {
            let j = choose|j: int| 0 <= j < before.len() && before[j] == layer;
            assert(layers[j] == layer);
        }
        assert(layers[layers.len() - 1] == layers.last());
    }
}

/// The next higher layer is above the present one, and available with a bitrate.
pub proof fn law_next_layer_is_higher(
    forwarder: crate::forwarder::ForwarderView,
    available: Seq<i32>,
    bitrates: Seq<Seq<i64>>,
)
    requires
        forwarder.layers.target_layer.valid(),
    ensures
        forwarder.next_higher(available, bitrates, false) matches Some(layer) ==> is_above(
            layer,
            forwarder.layers.target_layer,
        ) && is_usable(layer, available, bitrates),
{
    let current = forwarder.layers.target_layer;
    let max = forwarder.layers.effective_max();
    let layers = higher_layers(current, max, false);
    lemma_first_usable_is_there(layers, available, bitrates);
    if let Some(layer) = forwarder.next_higher(available, bitrates, false) {
        let i = choose|i: int| 0 <= i < layers.len() && layers[i] == layer;
        let top = at_least_zero(max.temporal as int);
        let run = temporal_run(current.spatial, current.temporal + 1, top);
        if i < run.len() {
            lemma_temporal_run(current.spatial, current.temporal + 1, top, i);
        } else {
            lemma_spatial_run(
                current.spatial + 1,
                at_least_zero(max.spatial as int),
                top,
                i - run.len(),
            );
        }
    }
}

/// The highest layer that can be sent has the wanted spatial layer, and the lower one of the wanted
/// temporal layer and the one that has been seen, if one has.
pub proof fn law_highest_layer_is_wanted_and_seen(layers: ForwarderLayers)
    ensures
        layers.effective_max().spatial == layers.max_layer.spatial,
        layers.effective_max().temporal <= layers.max_layer.temporal,
        layers.max_temporal_seen >= 0 ==> layers.effective_max().temporal
            <= layers.max_temporal_seen,
        layers.max_temporal_seen < 0 ==> layers.effective_max() == layers.max_layer,
        layers.effective_max().temporal == layers.max_layer.temporal
            || layers.effective_max().temporal == layers.max_temporal_seen,
{
}

/// The layer is one that can be sent, and has a bitrate.
pub open spec fn can_be_sent(
    layers: ForwarderLayers,
    layer: VideoLayerLite,
    bitrates: Seq<Seq<i64>>,
) -> bool {
    &&& 0 <= layer.spatial <= layers.max_layer.spatial
    &&& 0 <= layer.temporal <= layers.max_layer.temporal
    &&& layers.max_temporal_seen >= 0 ==> layer.temporal <= layers.max_temporal_seen
    &&& crate::forwarder::bitrates::layer_rate(bitrates, layer) > 0
}

/// Where no bandwidth may be taken from others, a layer that is to be sent already and has a
/// bitrate is kept, at no cost. Otherwise the lowest layer is taken that can be sent and has a
/// bitrate. A track that is muted on either side goes to no layer.
pub proof fn law_cooperation_keeps_or_takes_the_lowest(
    layers: ForwarderLayers,
    bitrates: Seq<Seq<i64>>,
    allow_overshoot: bool,
    layer: VideoLayerLite,
)
    requires
        layers.can_tell(layers.cooperative(bitrates, allow_overshoot).to, bitrates),
    ensures
        ({
            let change = layers.cooperative(bitrates, allow_overshoot);
            let present = crate::forwarder::bitrates::layer_rate(bitrates, layers.target_layer);
            let kept = layers.target_layer.spatial >= 0 && layers.target_layer.temporal >= 0
                && present > 0;
            &&& change.from == layers.target_layer
            &&& change.bandwidth_delta == crate::forwarder::bitrates::layer_rate(
                bitrates,
                change.to,
            ) - present
            &&& layers.muted || layers.pub_muted ==> change.to.spatial < 0 && change.to.temporal < 0
                && change.bandwidth_delta == -present
            &&& !layers.muted && !layers.pub_muted && kept ==> change.to == layers.target_layer
                && change.bandwidth_delta == 0
            &&& !layers.muted && !layers.pub_muted && !kept && can_be_sent(layers, layer, bitrates)
                ==> can_be_sent(layers, change.to, bitrates) && (change.to.spatial < layer.spatial
                || (change.to.spatial == layer.spatial && change.to.temporal <= layer.temporal))
        }),
{
    let max = layers.effective_max();
    let wanted = VideoLayerLite {
        spatial: if max.spatial < 0 {
            0
        } else {
            max.spatial
        },
        temporal: if max.temporal < 0 {
            0
        } else {
            max.temporal
        },
    };
    crate::forwarder::bitrates::law_lowest_layer_is_found(
        bitrates,
        0,
        wanted,
        layer.spatial as int,
        layer.temporal as int,
    );
    crate::forwarder::bitrates::law_bitrate_is_looked_up(bitrates, VideoLayerLite::none());
}

/// The layer lies above the highest one that is wanted, and has a bitrate.
pub open spec fn overshoots(
    layers: ForwarderLayers,
    layer: VideoLayerLite,
    bitrates: Seq<Seq<i64>>,
) -> bool {
    &&& layers.max_layer.spatial < layer.spatial <= DEFAULT_MAX_SPATIAL
    &&& 0 <= layer.temporal <= DEFAULT_MAX_TEMPORAL
    &&& crate::forwarder::bitrates::layer_rate(bitrates, layer) > 0
}

/// A layer above the highest one is only gone to where it may be overshot and no layer can be sent
/// otherwise, and then to the lowest one. Where there is nothing to go to at all, the layer that is
/// sent is kept.
pub proof fn law_cooperation_overshoots_last(
    layers: ForwarderLayers,
    bitrates: Seq<Seq<i64>>,
    allow_overshoot: bool,
    layer: VideoLayerLite,
)
    requires
        !layers.muted,
        !layers.pub_muted,
        layers.max_layer.spatial >= 0,
        layers.max_layer.temporal >= 0,
        crate::forwarder::bitrates::layer_rate(bitrates, layers.target_layer) <= 0,
        forall|other: VideoLayerLite| !#[trigger] can_be_sent(layers, other, bitrates),
    ensures
        ({
            let change = layers.cooperative(bitrates, allow_overshoot);
            &&& !allow_overshoot ==> change.to == layers.current_layer
            &&& allow_overshoot ==> change.to == layers.current_layer || overshoots(
                layers,
                change.to,
                bitrates,
            )
            &&& allow_overshoot && overshoots(layers, layer, bitrates) ==> overshoots(
                layers,
                change.to,
                bitrates,
            ) && !is_above(change.to, layer)
        }),
{
    let max = layers.effective_max();
    crate::forwarder::bitrates::law_lowest_layer_is_found(bitrates, 0, max, 0, 0);
    if let Some(found) = crate::forwarder::bitrates::lowest_layer(bitrates, 0, 0, max) {
        assert(can_be_sent(layers, found, bitrates));
    }
    crate::forwarder::bitrates::law_lowest_layer_is_found(
        bitrates,
        max.spatial + 1,
        crate::forwarder::highest_layer(),
        layer.spatial as int,
        layer.temporal as int,
    );
}

/// Nothing is needed by a track that is muted on either side, that nothing is published of, or of
/// which no layer is wanted. Otherwise what is needed is the bitrate of the highest layer that can
/// be sent and has one.
pub proof fn law_needed_bandwidth_is_that_of_the_highest_layer(
    layers: ForwarderLayers,
    bitrates: Seq<Seq<i64>>,
    layer: VideoLayerLite,
)
    ensures
        ({
            let needed = layers.needed(bitrates, layers.effective_max());
            let idle = layers.muted || layers.pub_muted || layers.max_published_spatial == -1
                || layers.max_layer.spatial < 0 || layers.max_layer.temporal < 0;
            &&& idle ==> needed == 0
            &&& !idle && can_be_sent(layers, layer, bitrates) ==> exists|found: VideoLayerLite|
                #[trigger] can_be_sent(layers, found, bitrates) && needed
                    == crate::forwarder::bitrates::layer_rate(bitrates, found) && !is_above(
                    layer,
                    found,
                )
        }),
{
    let max = layers.effective_max();
    let idle = layers.is_idle(max);
    if !idle && can_be_sent(layers, layer, bitrates) {
        crate::forwarder::bitrates::law_highest_layer_is_needed(
            bitrates,
            max,
            layer.spatial as int,
            layer.temporal as int,
        );
        let needed = layers.needed(bitrates, max);
        let (i, j) = choose|i: int, j: int|
            0 <= i <= max.spatial && 0 <= j <= max.temporal && (i > layer.spatial || (i
                == layer.spatial && j >= layer.temporal))
                && #[trigger] crate::forwarder::bitrates::rate(bitrates, i, j) > 0 && needed
                == crate::forwarder::bitrates::rate(bitrates, i, j);
        let found = VideoLayerLite { spatial: i as i32, temporal: j as i32 };
        assert(can_be_sent(layers, found, bitrates));
    }
}

proof fn lemma_least(available: Seq<i32>, layer: i32)
    requires
        available.len() > 0,
    ensures
        available.contains(least(available)),
        available.contains(layer) ==> least(available) <= layer,
        available.contains(greatest(available)),
        available.contains(layer) ==> layer <= greatest(available),
    decreases available.len(),
{
    if available.len() == 1 {
        assert(available[0] == least(available));
    } else {
        let before = available.drop_last();
        lemma_least(before, layer);
        let low = choose|i: int| 0 <= i < before.len() && before[i] == least(before);
        assert(available[low] == least(before));
        let high = choose|i: int| 0 <= i < before.len() && before[i] == greatest(before);
        assert(available[high] == greatest(before));
        assert(available[available.len() - 1] == available.last());
        if available.contains(layer) {
            let k = choose|k: int| 0 <= k < available.len() && available[k] == layer;
            if k < before.len() {
                assert(before[k] == layer);
            }
        }
    }
}

/// To hold on, the lowest available layer is allocated, with its lowest temporal layer. Otherwise
/// the highest temporal layer goes with the spatial layer, which is the greatest available one
/// that is wanted, or else the greatest available one, or else the wanted one. While a higher one
/// is waited for and nothing is sent, it is the wanted one.
pub proof fn law_best_layer_is_chosen(
    layers: ForwarderLayers,
    available: Seq<i32>,
    hold: bool,
    layer: i32,
)
    ensures
        ({
            let best = layers.best_layer(available, hold);
            let max = layers.effective_max();
            let waits = layers.acquire_grace_active && (layers.current_layer.spatial < 0
                || layers.current_layer.temporal < 0) && layers.max_published_spatial
                < layers.max_layer.spatial;
            &&& hold ==> best.temporal == 0
            &&& hold && available.len() == 0 ==> best.spatial == 0
            &&& hold && available.contains(layer) ==> available.contains(best.spatial)
                && best.spatial <= layer
            &&& !hold ==> best.temporal == max.temporal
            &&& !hold && waits ==> best.spatial == layers.max_layer.spatial
            &&& !hold && !waits && available.contains(layer) && 0 <= layer
                <= layers.max_layer.spatial ==> available.contains(best.spatial) && layer
                <= best.spatial <= layers.max_layer.spatial
            &&& !hold && !waits && available.len() == 0 ==> best.spatial
                == layers.max_layer.spatial
            &&& !hold && !waits && available.contains(layer) && layer > layers.max_layer.spatial
                && layer >= 0 ==> available.contains(best.spatial) && best.spatial >= 0 && (
            best.spatial <= layers.max_layer.spatial || best.spatial >= layer)
        }),
{
    let max = layers.effective_max();
    if available.len() > 0 {
        lemma_least(available, layer);
    }
    lemma_greatest_up_to_is_there(available, max.spatial);
    if available.contains(layer) && 0 <= layer <= max.spatial {
        lemma_greatest_up_to(available, max.spatial, layer);
    }
}

/// The best allocation of a track that is muted says which side muted it, and sends nothing. One
/// that nothing is published of sends nothing for want of bandwidth. Otherwise it is the best
/// layer, with the bitrate that it has, what that adds to the present one, and whether it falls
/// short of what is needed.
pub proof fn law_best_allocation_is_accounted_for(
    layers: ForwarderLayers,
    available: Seq<i32>,
    bitrates: Seq<Seq<i64>>,
    hold: bool,
)
    requires
        layers.can_tell(layers.best_layer(available, hold), bitrates),
    ensures
        ({
            let best = layers.optimal(available, bitrates, hold);
            let max = layers.effective_max();
            let idle = layers.max_published_spatial == -1 || layers.max_layer.spatial < 0
                || max.temporal < 0;
            &&& best.bitrates == bitrates && best.max_layer == max && best.quarters_to_desired == 0
            &&& best.bandwidth_needed == layers.needed(bitrates, max)
            &&& layers.muted ==> best.pause_reason is Muted
            &&& !layers.muted && layers.pub_muted ==> best.pause_reason is PubMuted
            &&& !layers.muted && !layers.pub_muted ==> best.pause_reason is Bandwidth
            &&& layers.muted || layers.pub_muted || idle ==> {
                &&& best.target_layer.spatial == -1 && best.target_layer.temporal == -1
                &&& best.request_layer_spatial == -1
                &&& !best.is_deficient && best.bandwidth_requested == 0 && best.bandwidth_delta == 0
            }
            &&& !(layers.muted || layers.pub_muted || idle) ==> {
                &&& best.target_layer == layers.best_layer(available, hold)
                &&& best.request_layer_spatial == best.target_layer.spatial
                &&& best.bandwidth_requested == crate::forwarder::bitrates::layer_rate(
                    bitrates,
                    best.target_layer,
                )
                &&& best.bandwidth_delta + crate::forwarder::bitrates::layer_rate(
                    bitrates,
                    layers.target_layer,
                ) == best.bandwidth_requested
                &&& best.is_deficient <==> best.bandwidth_needed > 0 && best.bandwidth_requested
                    < best.bandwidth_needed
            }
        }),
{
}

/// A layer with a bitrate is taken where it can be sent and its bitrate is covered by what there
/// is and what is allocated already. Where pausing is not allowed, it is also taken where nothing
/// is allocated yet, or where it is no step up.
pub proof fn law_layer_is_taken_where_it_can_be(
    layers: ForwarderLayers,
    provisional: ProvisionalView,
    available_channel_capacity: i64,
    layer: VideoLayerLite,
    allow_pause: bool,
    allow_overshoot: bool,
)
    ensures
        ({
            let takes = layers.takes(
                provisional,
                available_channel_capacity,
                layer,
                allow_pause,
                allow_overshoot,
            );
            let max = layers.effective_max();
            let idle = layers.muted || layers.pub_muted || layers.max_published_spatial == -1
                || layers.max_layer.spatial < 0 || max.temporal < 0;
            let rate = crate::forwarder::bitrates::layer_rate(provisional.bitrates, layer);
            let allocated = crate::forwarder::bitrates::layer_rate(
                provisional.bitrates,
                provisional.allocated,
            );
            let fits = layer.spatial <= layers.max_layer.spatial && layer.temporal <= max.temporal;
            let affordable = fits && rate <= available_channel_capacity + allocated;
            let nothing = provisional.allocated.spatial < 0 || provisional.allocated.temporal < 0;
            &&& idle || rate == 0 ==> !takes
            &&& !fits && !allow_overshoot ==> !takes
            &&& !idle && rate != 0 && affordable ==> takes
            &&& !idle && rate != 0 && (fits || allow_overshoot) && !allow_pause && nothing ==> takes
            &&& !idle && rate != 0 && (fits || allow_overshoot) && !allow_pause && !is_above(
                layer,
                provisional.allocated,
            ) ==> takes
            &&& takes && allow_pause ==> affordable
            &&& takes && !nothing && is_above(layer, provisional.allocated) ==> affordable
        }),
{
}

proof fn lemma_temporal_run_is_whole(spatial: i32, first: int, last: int)
    requires
        0 <= first,
        last <= i32::MAX,
    ensures
        temporal_run(spatial, first, last).len() == at_least_zero(last + 1 - first),
        forall|i: int|
            0 <= i < temporal_run(spatial, first, last).len() ==> #[trigger] temporal_run(
                spatial,
                first,
                last,
            )[i] == (VideoLayerLite { spatial, temporal: (first + i) as i32 }),
    decreases last + 1 - first,
{
    if first <= last {
        lemma_temporal_run_is_whole(spatial, first, last - 1);
    }
}

proof fn lemma_spatial_run_is_whole(first: int, last: int, top: int, layer: VideoLayerLite)
    requires
        0 <= first <= layer.spatial <= last <= i32::MAX,
        0 <= layer.temporal <= top <= i32::MAX,
    ensures
        spatial_run(first, last, top).contains(layer),
    decreases last + 1 - first,
{
    let before = spatial_run(first, last - 1, top);
    let run = temporal_run(last as i32, 0, top);
    let whole = spatial_run(first, last, top);
    if layer.spatial < last {
        lemma_spatial_run_is_whole(first, last - 1, top, layer);
        let i = choose|i: int| 0 <= i < before.len() && before[i] == layer;
        assert(whole[i] == layer);
    } else {
        lemma_temporal_run_is_whole(last as i32, 0, top);
        assert(run[layer.temporal as int] == layer);
        assert(whole[before.len() + layer.temporal] == layer);
    }
}

/// Each of the layers is above those before it.
spec fn ascends(layers: Seq<VideoLayerLite>) -> bool {
    forall|i: int, j: int|
        0 <= i < j < layers.len() ==> is_above(#[trigger] layers[j], #[trigger] layers[i])
}

proof fn lemma_spatial_run_ascends(first: int, last: int, top: int)
    requires
        0 <= first,
        last <= i32::MAX,
        top <= i32::MAX,
    ensures
        ascends(spatial_run(first, last, top)),
    decreases last + 1 - first,
{
    if first <= last {
        lemma_spatial_run_ascends(first, last - 1, top);
        let before = spatial_run(first, last - 1, top);
        let run = temporal_run(last as i32, 0, top);
        let whole = spatial_run(first, last, top);
        lemma_temporal_run_is_whole(last as i32, 0, top);
        assert forall|i: int, j: int| 0 <= i < j < whole.len() implies is_above(
            #[trigger] whole[j],
            #[trigger] whole[i],
        ) by {
            if j < before.len() {
                assert(is_above(before[j], before[i]));
            } else {
                assert(whole[j] == run[j - before.len()]);
                if i < before.len() {
                    lemma_spatial_run(first, last - 1, top, i);
                } else {
                    assert(whole[i] == run[i - before.len()]);
                }
            }
        }
    }
}

proof fn lemma_first_usable_is_first(
    layers: Seq<VideoLayerLite>,
    available: Seq<i32>,
    bitrates: Seq<Seq<i64>>,
    k: int,
)
    requires
        0 <= k < layers.len(),
        is_usable(layers[k], available, bitrates),
    ensures
        first_usable(layers, available, bitrates) matches Some(found) && exists|i: int|
            0 <= i <= k && #[trigger] layers[i] == found,
    decreases layers.len(),
{
    let before = layers.drop_last();
    lemma_first_usable_is_there(before, available, bitrates);
    if k < before.len() {
        lemma_first_usable_is_first(before, available, bitrates, k);
        let found = first_usable(before, available, bitrates)->0;
        let i = choose|i: int| 0 <= i <= k && #[trigger] before[i] == found;
        assert(layers[i] == found);
    } else if let Some(found) = first_usable(before, available, bitrates) {
        let i = choose|i: int| 0 <= i < before.len() && before[i] == found;
        assert(layers[i] == found);
    } else {
        assert(layers[k] == layers.last());
    }
}

/// Where a layer above the present one is available, can be sent and has a bitrate, the next
/// higher layer is one, and no higher than that layer: it is the lowest such one.
pub proof fn law_next_layer_is_the_lowest_above(
    forwarder: crate::forwarder::ForwarderView,
    available: Seq<i32>,
    bitrates: Seq<Seq<i64>>,
    layer: VideoLayerLite,
)
    requires
        forwarder.layers.target_layer.valid(),
        can_be_sent(forwarder.layers, layer, bitrates),
        is_above(layer, forwarder.layers.target_layer),
        available.len() == 0 || available.contains(layer.spatial),
    ensures
        forwarder.next_higher(available, bitrates, false) matches Some(next) && !is_above(
            next,
            layer,
        ) && is_above(next, forwarder.layers.target_layer) && (available.len() == 0
            || available.contains(next.spatial)) && crate::forwarder::bitrates::layer_rate(
            bitrates,
            next,
        ) != 0 && next.spatial <= at_least_zero(forwarder.layers.max_layer.spatial as int)
            && next.temporal <= at_least_zero(forwarder.layers.effective_max().temporal as int),
{
    let current = forwarder.layers.target_layer;
    let max = forwarder.layers.effective_max();
    let top = at_least_zero(max.temporal as int);
    let last = at_least_zero(max.spatial as int);
    let run = temporal_run(current.spatial, current.temporal + 1, top);
    let rest = spatial_run(current.spatial + 1, last, top);
    let layers = higher_layers(current, max, false);
    assert(layers =~= run + rest);
    lemma_temporal_run_is_whole(current.spatial, current.temporal + 1, top);
    lemma_spatial_run_ascends(current.spatial + 1, last, top);
    let k = if layer.spatial == current.spatial {
        layer.temporal - current.temporal - 1
    } else {
        lemma_spatial_run_is_whole(current.spatial + 1, last, top, layer);
        run.len() + choose|k: int| 0 <= k < rest.len() && rest[k] == layer
    };
    assert(layers[k] == layer);
    lemma_first_usable_is_first(layers, available, bitrates, k);
    lemma_first_usable_is_there(layers, available, bitrates);
    let next = forwarder.next_higher(available, bitrates, false)->0;
    let i = choose|i: int| 0 <= i <= k && #[trigger] layers[i] == next;
    if i < run.len() {
        assert(layers[i] == run[i]);
    } else {
        lemma_spatial_run(current.spatial + 1, last, top, i - run.len());
        assert(layers[i] == rest[i - run.len()]);
        lemma_spatial_temporal(current.spatial + 1, last, top, i - run.len());
        if i < k {
            assert(layers[k] == rest[k - run.len()]);
            assert(is_above(rest[k - run.len()], rest[i - run.len()]));
        }
    }
}

proof fn lemma_spatial_temporal(first: int, last: int, top: int, i: int)
    requires
        0 <= first,
        last <= i32::MAX,
        top <= i32::MAX,
        0 <= i < spatial_run(first, last, top).len(),
    ensures
        0 <= spatial_run(first, last, top)[i].temporal <= top,
    decreases last + 1 - first,
{
    if first <= last {
        let before = spatial_run(first, last - 1, top);
        if i < before.len() {
            lemma_spatial_temporal(first, last - 1, top, i);
        } else {
            lemma_temporal_run(last as i32, 0, top, i - before.len());
        }
    }
}

/// A layer above the highest one is the next only where it may be overshot, and where no layer
/// that can be sent is next.
pub proof fn law_next_layer_overshoots_last(
    forwarder: crate::forwarder::ForwarderView,
    available: Seq<i32>,
    bitrates: Seq<Seq<i64>>,
)
    ensures
        forwarder.next_higher(available, bitrates, false) is Some ==> forwarder.next_higher(
            available,
            bitrates,
            true,
        ) == forwarder.next_higher(available, bitrates, false),
        forwarder.next_higher(available, bitrates, false) is None ==> (forwarder.next_higher(
            available,
            bitrates,
            true,
        ) matches Some(layer) ==> at_least_zero(forwarder.layers.max_layer.spatial + 1)
            <= layer.spatial <= DEFAULT_MAX_SPATIAL && is_usable(layer, available, bitrates)),
{
    let current = forwarder.layers.target_layer;
    let max = forwarder.layers.effective_max();
    let within = higher_layers(current, max, false);
    let whole = higher_layers(current, max, true);
    let above = spatial_run(
        at_least_zero(max.spatial + 1),
        DEFAULT_MAX_SPATIAL as int,
        DEFAULT_MAX_TEMPORAL as int,
    );
    assert(whole =~= within + above);
    assert(whole.take(within.len() as int) =~= within);
    lemma_first_usable_is_there(whole, available, bitrates);
    if forwarder.next_higher(available, bitrates, false) is Some {
        lemma_first_usable_stays(whole, within.len() as int, available, bitrates);
    } else if let Some(layer) = forwarder.next_higher(available, bitrates, true) {
        let i = choose|i: int| 0 <= i < whole.len() && whole[i] == layer;
        if i < within.len() {
            assert(within[i] == layer);
            lemma_first_usable_is_first(within, available, bitrates, i);
        } else {
            assert(above[i - within.len()] == layer);
            lemma_spatial_run(
                at_least_zero(max.spatial + 1),
                DEFAULT_MAX_SPATIAL as int,
                DEFAULT_MAX_TEMPORAL as int,
                i - within.len(),
            );
        }
    }
}

/// The allocation of the next higher layer says what the layer takes, what that adds to the
/// present one, and whether it still falls short. A layer above the highest one never does.
pub proof fn law_boost_is_accounted_for(
    forwarder: crate::forwarder::ForwarderView,
    layer: VideoLayerLite,
    bitrates: Seq<Seq<i64>>,
)
    requires
        forwarder.layers.can_tell(layer, bitrates),
    ensures
        ({
            let boosted = forwarder.boosted(layer, bitrates);
            let rate = crate::forwarder::bitrates::layer_rate(bitrates, layer);
            let present = crate::forwarder::bitrates::layer_rate(
                bitrates,
                forwarder.layers.target_layer,
            );
            &&& boosted.target_layer == layer && boosted.request_layer_spatial == layer.spatial
            &&& boosted.pause_reason is Bandwidth && boosted.bitrates == bitrates
            &&& boosted.bandwidth_requested == rate && boosted.bandwidth_delta == rate - present
            &&& forwarder.extra(layer, bitrates) == rate - present
            &&& boosted.max_layer == forwarder.layers.effective_max()
            &&& boosted.is_deficient <==> layer.spatial <= forwarder.layers.max_layer.spatial
                && rate < boosted.bandwidth_needed
            &&& boosted.bandwidth_needed == forwarder.layers.needed(bitrates, boosted.max_layer)
        }),
{
}

/// Only a video track whose last allocation fell short is given more.
pub proof fn law_only_deficient_video_wants_more(forwarder: crate::forwarder::ForwarderView)
    ensures
        forwarder.wants_more() <==> forwarder.layers.kind is Video && (
        forwarder.last_allocation matches Some(last) && last.is_deficient),
{
}

/// What is committed is the layer that was tried out, with what it takes and adds, or nothing where
/// the track is muted.
pub proof fn law_tried_layer_is_committed(
    forwarder: crate::forwarder::ForwarderView,
    bitrates: Seq<Seq<i64>>,
)
    requires
        forwarder.layers.can_tell(
            forwarder.provisional.allocated,
            forwarder.provisional.bitrates,
        ),
    ensures
        ({
            let committed = forwarder.committed();
            let tried = forwarder.provisional;
            let rate = crate::forwarder::bitrates::layer_rate(tried.bitrates, tried.allocated);
            &&& committed.bitrates == tried.bitrates
            &&& committed.max_layer == forwarder.layers.effective_max()
            &&& forwarder.layers.muted ==> committed.pause_reason is Muted
                && committed.target_layer.spatial == -1 && committed.target_layer.temporal == -1
                && committed.request_layer_spatial == -1 && committed.bandwidth_requested == 0
                && committed.bandwidth_needed == 0 && committed.bandwidth_delta == 0
                && !committed.is_deficient
            &&& !forwarder.layers.muted ==> committed.pause_reason is Bandwidth
                && committed.target_layer == tried.allocated && committed.request_layer_spatial
                == tried.allocated.spatial && committed.bandwidth_requested == rate
                && committed.bandwidth_delta == rate - crate::forwarder::bitrates::layer_rate(
                tried.bitrates,
                forwarder.layers.target_layer,
            ) && committed.bandwidth_needed == forwarder.layers.needed(
                tried.bitrates,
                forwarder.layers.effective_max(),
            ) && (committed.is_deficient <==> committed.bandwidth_needed > 0 && rate
                < committed.bandwidth_needed)
        }),
        ({
            let simply = forwarder.simply_committed(bitrates);
            &&& simply.bitrates == bitrates && !simply.is_deficient
            &&& simply.bandwidth_requested == 0 && simply.bandwidth_needed == 0
                && simply.bandwidth_delta == 0
            &&& forwarder.layers.muted ==> simply.pause_reason is Muted
                && simply.target_layer.spatial == -1 && simply.target_layer.temporal == -1
                && simply.request_layer_spatial == -1
            &&& !forwarder.layers.muted ==> simply.pause_reason is Bandwidth
                && simply.target_layer == forwarder.provisional.target
                && simply.request_layer_spatial == forwarder.provisional.target.spatial
        }),
{
}

/// Pausing gives back what the present layer takes, and asks for more unless the track is muted.
pub proof fn law_pause_gives_back(
    forwarder: crate::forwarder::ForwarderView,
    bitrates: Seq<Seq<i64>>,
)
    requires
        crate::forwarder::bitrates::layer_rate(bitrates, forwarder.layers.target_layer) > i64::MIN,
    ensures
        ({
            let paused = forwarder.paused(bitrates);
            &&& paused.target_layer.spatial == -1 && paused.target_layer.temporal == -1
            &&& paused.request_layer_spatial == -1 && paused.bandwidth_requested == 0
            &&& paused.bandwidth_delta + crate::forwarder::bitrates::layer_rate(
                bitrates,
                forwarder.layers.target_layer,
            ) == 0
            &&& paused.bitrates == bitrates
            &&& paused.is_deficient == !forwarder.layers.muted
            &&& forwarder.layers.muted ==> paused.pause_reason is Muted && paused.bandwidth_needed
                == 0 && paused.quarters_to_desired == 0
            &&& !forwarder.layers.muted ==> paused.pause_reason is Bandwidth
                && paused.bandwidth_needed == 12 && paused.quarters_to_desired == 15
        }),
{
}

/// An allocation makes its layer the target, is remembered as the last one, and changes nothing
/// else. Trying one out changes neither the target nor the last one.
pub proof fn law_allocations_are_kept(
    forwarder: crate::forwarder::ForwarderView,
    allocation: AllocationView,
    provisional: ProvisionalView,
)
    ensures
        ({
            let after = forwarder.allocated(allocation);
            &&& after.last_allocation == Some(allocation)
            &&& after.layers == (ForwarderLayers {
                target_layer: allocation.target_layer,
                ..forwarder.layers
            })
            &&& after.provisional == forwarder.provisional && after.stream == forwarder.stream
        }),
        ({
            let trying = forwarder.trying(provisional);
            &&& trying.provisional == provisional && trying.layers == forwarder.layers
            &&& trying.last_allocation == forwarder.last_allocation
            &&& trying.stream == forwarder.stream
        }),
{
}

/// While nothing is sent, a higher published layer begins the time in which a layer that is not
/// published yet is waited for.
pub proof fn law_higher_published_layer_is_waited_for(layers: ForwarderLayers, spatial: i32)
    ensures
        ({
            let after = layers.published(spatial);
            let higher = spatial > layers.max_published_spatial;
            let sends = layers.current_layer.spatial >= 0 && layers.current_layer.temporal >= 0;
            &&& after.max_published_spatial == spatial
            &&& higher && !sends ==> after.acquire_grace_active && !after.acquire_grace_fired
            &&& !higher || sends ==> after.acquire_grace_active == layers.acquire_grace_active
                && after.acquire_grace_fired == layers.acquire_grace_fired
            &&& after.current_layer == layers.current_layer && after.target_layer
                == layers.target_layer && after.max_layer == layers.max_layer
            &&& after.muted == layers.muted && after.pub_muted == layers.pub_muted && after.kind
                == layers.kind
            &&& after.max_temporal_seen == layers.max_temporal_seen
        }),
{
}

} // verus!
