//! What a subscriber of a track is to get, and how its packets are numbered.
use vstd::prelude::*;

use crate::forwarder::allocation::{ProvisionalAllocation, VideoAllocationLite};
use crate::forwarder::translation::ForwardedStream;
use crate::video_layer_selector::VideoLayerLite;

pub mod allocation;
pub mod bitrates;
pub mod translation;

verus! {

/// The number that stands for no spatial layer.
pub const INVALID_SPATIAL: i32 = -1;

/// The highest spatial layer.
pub const DEFAULT_MAX_SPATIAL: i32 = 2;

/// The highest temporal layer.
pub const DEFAULT_MAX_TEMPORAL: i32 = 3;

/// The highest layer.
pub open spec fn highest_layer() -> VideoLayerLite {
    VideoLayerLite { spatial: DEFAULT_MAX_SPATIAL, temporal: DEFAULT_MAX_TEMPORAL }
}

/// The highest layer.
pub fn default_max_layer() -> (layer: VideoLayerLite)
    ensures
        layer == highest_layer(),
{
    VideoLayerLite { spatial: DEFAULT_MAX_SPATIAL, temporal: DEFAULT_MAX_TEMPORAL }
}

/// What a track holds.
#[derive(Debug, Clone, Copy, PartialEq, Eq, Structural)]
pub enum CodecKindLite {
    Audio,
    Video,
}

/// The layers that are published, wanted and sent, and what keeps them from being sent.
#[derive(Debug, Clone, Copy, PartialEq, Eq, Structural)]
pub struct ForwarderLayers {
    pub kind: CodecKindLite,
    pub muted: bool,
    pub pub_muted: bool,
    pub max_layer: VideoLayerLite,
    pub current_layer: VideoLayerLite,
    pub target_layer: VideoLayerLite,
    pub max_published_spatial: i32,
    pub max_temporal_seen: i32,
    pub request_layer_spatial: i32,
    pub acquire_grace_active: bool,
    pub acquire_grace_fired: bool,
}

impl ForwarderLayers {
    /// The layers of a forwarder that nothing was told yet.
    pub open spec fn fresh(kind: CodecKindLite) -> Self {
        ForwarderLayers {
            kind,
            muted: false,
            pub_muted: false,
            max_layer: VideoLayerLite {
                spatial: INVALID_SPATIAL,
                temporal: if kind == CodecKindLite::Video {
                    DEFAULT_MAX_TEMPORAL
                } else {
                    INVALID_SPATIAL
                },
            },
            current_layer: VideoLayerLite::none(),
            target_layer: VideoLayerLite::none(),
            max_published_spatial: INVALID_SPATIAL,
            max_temporal_seen: INVALID_SPATIAL,
            request_layer_spatial: INVALID_SPATIAL,
            acquire_grace_active: false,
            acquire_grace_fired: false,
        }
    }

    /// The highest layer that can be sent: no higher temporal layer than has been seen.
    pub open spec fn effective_max(self) -> VideoLayerLite {
        VideoLayerLite {
            spatial: self.max_layer.spatial,
            temporal: if 0 <= self.max_temporal_seen < self.max_layer.temporal {
                self.max_temporal_seen
            } else {
                self.max_layer.temporal
            },
        }
    }

    /// Nothing is to be sent.
    pub open spec fn is_idle(self, max: VideoLayerLite) -> bool {
        self.muted || self.pub_muted || self.max_published_spatial == INVALID_SPATIAL
            || !max.valid()
    }

    /// The layers after the highest published one changed: a higher one is waited for while
    /// nothing is sent.
    pub open spec fn published(self, spatial: i32) -> Self {
        if spatial > self.max_published_spatial && !self.current_layer.valid() {
            ForwarderLayers {
                max_published_spatial: spatial,
                acquire_grace_active: true,
                acquire_grace_fired: false,
                ..self
            }
        } else {
            ForwarderLayers { max_published_spatial: spatial, ..self }
        }
    }

    /// A forwarder that nothing was told yet.
    pub fn new(kind: CodecKindLite) -> (layers: Self)
        ensures
            layers == ForwarderLayers::fresh(kind),
    {
        let temporal: i32 = match kind {
            CodecKindLite::Audio => INVALID_SPATIAL,
            CodecKindLite::Video => DEFAULT_MAX_TEMPORAL,
        };
        ForwarderLayers {
            kind,
            muted: false,
            pub_muted: false,
            max_layer: VideoLayerLite { spatial: INVALID_SPATIAL, temporal },
            current_layer: VideoLayerLite::invalid(),
            target_layer: VideoLayerLite::invalid(),
            max_published_spatial: INVALID_SPATIAL,
            max_temporal_seen: INVALID_SPATIAL,
            request_layer_spatial: INVALID_SPATIAL,
            acquire_grace_active: false,
            acquire_grace_fired: false,
        }
    }

    /// The highest layer that can be sent.
    pub fn effective_max_layer(&self) -> (layer: VideoLayerLite)
        ensures
            layer == self.effective_max(),
    {
        VideoLayerLite {
            spatial: self.max_layer.spatial,
            temporal: if self.max_temporal_seen >= 0 && self.max_temporal_seen
                < self.max_layer.temporal {
                self.max_temporal_seen
            } else {
                self.max_layer.temporal
            },
        }
    }
}

/// What a subscriber of a track is to get, and how its packets are numbered.
pub struct ForwarderLite {
    pub layers: ForwarderLayers,
    pub provisional: ProvisionalAllocation,
    pub last_allocation: Option<VideoAllocationLite>,
    pub stream: ForwardedStream,
}

/// The contents of a [`ForwarderLite`].
#[verifier::ext_equal]
pub struct ForwarderView {
    pub layers: ForwarderLayers,
    pub provisional: crate::forwarder::allocation::ProvisionalView,
    pub last_allocation: Option<crate::forwarder::allocation::AllocationView>,
    pub stream: crate::forwarder::translation::StreamView,
}

impl ForwarderView {
    /// The forwarder with other layers.
    pub open spec fn with_layers(self, layers: ForwarderLayers) -> Self {
        ForwarderView { layers, ..self }
    }
}

impl View for ForwarderLite {
    type V = ForwarderView;

    open spec fn view(&self) -> ForwarderView {
        ForwarderView {
            layers: self.layers,
            provisional: self.provisional@,
            last_allocation: match self.last_allocation {
                Some(allocation) => Some(allocation@),
                None => None,
            },
            stream: self.stream@,
        }
    }
}

impl ForwarderLite {
    /// A forwarder that nothing was told yet.
    pub fn new(kind: CodecKindLite) -> (forwarder: Self)
        ensures
            forwarder@ == (ForwarderView {
                layers: ForwarderLayers::fresh(kind),
                provisional: crate::forwarder::allocation::ProvisionalView::fresh(),
                last_allocation: None,
                stream: crate::forwarder::translation::StreamView::fresh(),
            }),
    {
        ForwarderLite {
            layers: ForwarderLayers::new(kind),
            provisional: ProvisionalAllocation::new(),
            last_allocation: None,
            stream: ForwardedStream::new(),
        }
    }

    /// Whether the subscriber has muted the track.
    pub fn is_muted(&self) -> (muted: bool)
        ensures
            muted == self.layers.muted,
    {
        self.layers.muted
    }

    /// Mutes or unmutes the track, if that is forced. Tells whether it changed.
    pub fn mute(&mut self, muted: bool, force: bool) -> (changed: bool)
        ensures
            changed == (force && old(self)@.layers.muted != muted),
            final(self)@ == old(self)@.with_layers(
                ForwarderLayers {
                    muted: if force {
                        muted
                    } else {
                        old(self)@.layers.muted
                    },
                    ..old(self)@.layers
                },
            ),
    {
        if !force || self.layers.muted == muted {
            return false;
        }
        self.layers.muted = muted;
        true
    }

    /// The highest layer that is wanted.
    pub fn max_layer(&self) -> (layer: VideoLayerLite)
        ensures
            layer == self.layers.max_layer,
    {
        self.layers.max_layer
    }

    /// The layer that is sent.
    pub fn current_layer(&self) -> (layer: VideoLayerLite)
        ensures
            layer == self.layers.current_layer,
    {
        self.layers.current_layer
    }

    /// The layer that is to be sent.
    pub fn target_layer(&self) -> (layer: VideoLayerLite)
        ensures
            layer == self.layers.target_layer,
    {
        self.layers.target_layer
    }

    /// Sets the highest spatial layer that is wanted of a video track. Tells whether it changed,
    /// and the highest layer.
    pub fn set_max_spatial_layer(&mut self, layer: i32) -> (told: (bool, VideoLayerLite))
        ensures
            old(self)@.layers.kind == CodecKindLite::Audio ==> told == (
                false,
                VideoLayerLite::none(),
            ) && final(self)@ == old(self)@,
            old(self)@.layers.kind == CodecKindLite::Video ==> told == (
                old(self)@.layers.max_layer.spatial != layer,
                VideoLayerLite { spatial: layer, ..old(self)@.layers.max_layer },
            ) && final(self)@ == old(self)@.with_layers(
                ForwarderLayers { max_layer: told.1, ..old(self)@.layers },
            ),
    {
        if self.layers.kind == CodecKindLite::Audio {
            return (false, VideoLayerLite::invalid());
        }
        if self.layers.max_layer.spatial == layer {
            return (false, self.layers.max_layer);
        }
        self.layers.max_layer.spatial = layer;
        (true, self.layers.max_layer)
    }

    /// Sets the highest temporal layer that is wanted of a video track. Tells whether it changed,
    /// and the highest layer.
    pub fn set_max_temporal_layer(&mut self, layer: i32) -> (told: (bool, VideoLayerLite))
        ensures
            old(self)@.layers.kind == CodecKindLite::Audio ==> told == (
                false,
                VideoLayerLite::none(),
            ) && final(self)@ == old(self)@,
            old(self)@.layers.kind == CodecKindLite::Video ==> told == (
                old(self)@.layers.max_layer.temporal != layer,
                VideoLayerLite { temporal: layer, ..old(self)@.layers.max_layer },
            ) && final(self)@ == old(self)@.with_layers(
                ForwarderLayers { max_layer: told.1, ..old(self)@.layers },
            ),
    {
        if self.layers.kind == CodecKindLite::Audio {
            return (false, VideoLayerLite::invalid());
        }
        if self.layers.max_layer.temporal == layer {
            return (false, self.layers.max_layer);
        }
        self.layers.max_layer.temporal = layer;
        (true, self.layers.max_layer)
    }

    /// Sets the highest spatial layer that is published.
    pub fn set_max_published_layer(&mut self, spatial: i32)
        ensures
            final(self)@ == old(self)@.with_layers(old(self)@.layers.published(spatial)),
    {
        let previous: i32 = self.layers.max_published_spatial;
        self.layers.max_published_spatial = spatial;
        if spatial > previous && !self.layers.current_layer.is_valid() {
            self.layers.acquire_grace_active = true;
            self.layers.acquire_grace_fired = false;
        }
    }

    /// Sets the highest temporal layer that has been seen.
    pub fn set_max_temporal_layer_seen(&mut self, temporal: i32)
        ensures
            final(self)@ == old(self)@.with_layers(
                ForwarderLayers { max_temporal_seen: temporal, ..old(self)@.layers },
            ),
    {
        self.layers.max_temporal_seen = temporal;
    }

    /// The publisher has muted or unmuted the track.
    pub fn pub_mute(&mut self, muted: bool)
        ensures
            final(self)@ == old(self)@.with_layers(
                ForwarderLayers { pub_muted: muted, ..old(self)@.layers },
            ),
    {
        self.layers.pub_muted = muted;
    }

    /// Whether a higher layer is still waited for.
    pub fn within_acquire_grace(&self) -> (within: bool)
        ensures
            within == self.layers.acquire_grace_active,
    {
        self.layers.acquire_grace_active
    }

    /// Waits no longer for a higher layer. Tells whether it was waited for in vain.
    pub fn maybe_expire_acquire_grace(&mut self) -> (expired: bool)
        ensures
            ({
                let expires = old(self)@.layers.acquire_grace_active
                    && !old(self)@.layers.acquire_grace_fired;
                &&& expired == (expires && !old(self)@.layers.current_layer.valid())
                &&& final(self)@ == if expires {
                    old(self)@.with_layers(
                        ForwarderLayers {
                            acquire_grace_active: false,
                            acquire_grace_fired: true,
                            ..old(self)@.layers
                        },
                    )
                } else {
                    old(self)@
                }
            }),
    {
        if !self.layers.acquire_grace_active || self.layers.acquire_grace_fired {
            return false;
        }
        self.layers.acquire_grace_active = false;
        self.layers.acquire_grace_fired = true;
        !self.layers.current_layer.is_valid()
    }
}

/// The highest layer that can be sent has the spatial layer that is wanted, and the temporal layer
/// that is wanted, but none above the highest one seen, once one was.
pub proof fn law_unseen_temporal_layers_are_not_sent(layers: ForwarderLayers)
    ensures
        layers.effective_max().spatial == layers.max_layer.spatial,
        layers.effective_max().temporal <= layers.max_layer.temporal,
        layers.max_temporal_seen >= 0 ==> layers.effective_max().temporal
            <= layers.max_temporal_seen,
        layers.max_temporal_seen < 0 || layers.max_temporal_seen >= layers.max_layer.temporal
            ==> layers.effective_max().temporal == layers.max_layer.temporal,
        0 <= layers.max_temporal_seen < layers.max_layer.temporal
            ==> layers.effective_max().temporal == layers.max_temporal_seen,
{
}

/// Nothing is sent exactly where the subscriber or the publisher is muted, nothing is published, or
/// no layer is wanted.
pub proof fn law_idle_forwarders_send_nothing(layers: ForwarderLayers, max: VideoLayerLite)
    ensures
        layers.muted || layers.pub_muted ==> layers.is_idle(max),
        layers.max_published_spatial == -1 ==> layers.is_idle(max),
        max.spatial < 0 || max.temporal < 0 ==> layers.is_idle(max),
        !layers.muted && !layers.pub_muted && layers.max_published_spatial != -1 && max.spatial
            >= 0 && max.temporal >= 0 ==> !layers.is_idle(max),
{
}

/// The highest published layer is remembered. A higher one than before is waited for exactly where
/// nothing is sent yet; else no wait begins or ends.
pub proof fn law_published_layer_is_remembered(layers: ForwarderLayers, spatial: i32)
    ensures
        ({
            let after = layers.published(spatial);
            let waits = spatial > layers.max_published_spatial && (layers.current_layer.spatial < 0
                || layers.current_layer.temporal < 0);
            &&& after.max_published_spatial == spatial
            &&& waits ==> after.acquire_grace_active && !after.acquire_grace_fired
            &&& !waits ==> after.acquire_grace_active == layers.acquire_grace_active
                && after.acquire_grace_fired == layers.acquire_grace_fired
            &&& after.current_layer == layers.current_layer
            &&& after.target_layer == layers.target_layer
            &&& after.max_layer == layers.max_layer
            &&& after.muted == layers.muted
            &&& after.pub_muted == layers.pub_muted
            &&& after.max_temporal_seen == layers.max_temporal_seen
            &&& after.request_layer_spatial == layers.request_layer_spatial
        }),
{
}

/// A forwarder that nothing was told yet sends nothing; for video it would send any temporal layer.
pub proof fn law_fresh_forwarders_are_idle(kind: CodecKindLite)
    ensures
        ({
            let layers = ForwarderLayers::fresh(kind);
            &&& layers.is_idle(layers.effective_max())
            &&& !layers.current_layer.valid()
            &&& !layers.target_layer.valid()
            &&& !layers.muted && !layers.pub_muted
            &&& layers.max_layer.spatial == -1
            &&& kind == CodecKindLite::Video ==> layers.max_layer.temporal == 3
            &&& kind == CodecKindLite::Audio ==> layers.max_layer.temporal == -1
            &&& layers.max_published_spatial == -1
            &&& layers.max_temporal_seen == -1
            &&& layers.request_layer_spatial == -1
            &&& !layers.acquire_grace_active
        }),
        highest_layer().spatial == 2,
        highest_layer().temporal == 3,
{
}

} // verus!
