//! Media forwarding logic of a selective forwarding unit.
use vstd::prelude::*;

pub mod audio_level;
pub mod buffer;
pub mod bytes;
pub mod codecs;
pub mod connection_quality;
pub mod dynacast_manager;
pub mod forwarder;
pub mod forwarding_snapshot;
pub mod frame_integrity;
pub mod frame_rate;
pub mod keyed_map;
pub mod offer;
pub mod packet_trailer;
pub mod playout_delay;
pub mod playout_delay_controller;
pub mod protocol;
pub mod range_map;
pub mod red_receiver;
pub mod revisions;
pub mod rtcp;
pub mod rtp_forwarding;
pub mod rtp_munger;
pub mod rtp_stats_receiver_restart;
pub mod rtp_stats_receiver_update;
pub mod rtp_stats_sender;
pub mod sequencer;
pub mod stream_tracker;
pub mod subscriptions;
pub mod text;
pub mod text_order;
pub mod track_allocation;
pub mod track_settings;
pub mod trickle;
pub mod video_ingress;
pub mod video_layer_selector;
pub mod video_layer_utils;
pub mod vp8_munger;
pub mod wrapping;

verus! {

} // verus!
