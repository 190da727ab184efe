//! The parts of the signalling protocol that media forwarding reads.
use vstd::prelude::*;

verus! {

/// The quality of a video track. A track that is off is not sent.
#[derive(Debug, Clone, Copy, PartialEq, Eq, Structural)]
pub enum VideoQuality {
    Low,
    Medium,
    High,
    Off,
}

/// The quality that a number on the wire stands for.
pub open spec fn quality_on_wire(value: i32) -> Option<VideoQuality> {
    if value == 0 {
        Some(VideoQuality::Low)
    } else if value == 1 {
        Some(VideoQuality::Medium)
    } else if value == 2 {
        Some(VideoQuality::High)
    } else if value == 3 {
        Some(VideoQuality::Off)
    } else {
        None
    }
}

/// Calls `livekit_protocol::VideoQuality::try_from`, which takes the numbers 0 to 3 for low,
/// medium, high and off, and refuses every other number.
#[verifier::external_body]
pub(crate) fn decode_quality(value: i32) -> (quality: Option<VideoQuality>)
    ensures
        quality == quality_on_wire(value),
{
    match livekit_protocol::VideoQuality::try_from(value) {
        Ok(livekit_protocol::VideoQuality::Low) => Some(VideoQuality::Low),
        Ok(livekit_protocol::VideoQuality::Medium) => Some(VideoQuality::Medium),
        Ok(livekit_protocol::VideoQuality::High) => Some(VideoQuality::High),
        Ok(livekit_protocol::VideoQuality::Off) => Some(VideoQuality::Off),
        Err(_) => None,
    }
}

impl VideoQuality {
    /// The number that stands for the quality on the wire.
    pub open spec fn wire_value(self) -> i32 {
        match self {
            VideoQuality::Low => 0,
            VideoQuality::Medium => 1,
            VideoQuality::High => 2,
            VideoQuality::Off => 3,
        }
    }

    /// The number that stands for the quality on the wire.
    pub fn to_wire(self) -> (value: i32)
        ensures
            value == self.wire_value(),
    {
        match self {
            VideoQuality::Low => 0,
            VideoQuality::Medium => 1,
            VideoQuality::High => 2,
            VideoQuality::Off => 3,
        }
    }
}

impl View for VideoQuality {
    type V = VideoQuality;

    open spec fn view(&self) -> VideoQuality {
        *self
    }
}

/// The settings of a subscriber for some tracks.
#[derive(Debug, Clone, PartialEq, Eq)]
pub struct UpdateTrackSettings {
    pub track_sids: Vec<String>,
    pub disabled: bool,
    pub quality: i32,
    pub width: u32,
    pub height: u32,
    pub fps: u32,
    pub priority: u32,
}

/// The contents of [`UpdateTrackSettings`].
#[verifier::ext_equal]
pub struct SettingView {
    pub track_sids: Seq<Seq<char>>,
    pub disabled: bool,
    pub quality: i32,
    pub width: u32,
    pub height: u32,
    pub fps: u32,
    pub priority: u32,
}

impl View for UpdateTrackSettings {
    type V = SettingView;

    open spec fn view(&self) -> SettingView {
        SettingView {
            track_sids: crate::text_order::string_views(self.track_sids@),
            disabled: self.disabled,
            quality: self.quality,
            width: self.width,
            height: self.height,
            fps: self.fps,
            priority: self.priority,
        }
    }
}

impl Default for UpdateTrackSettings {
    fn default() -> (settings: Self)
        ensures
            settings@ == (SettingView {
                track_sids: Seq::empty(),
                disabled: false,
                quality: 0,
                width: 0,
                height: 0,
                fps: 0,
                priority: 0,
            }),
    {
        let settings = UpdateTrackSettings {
            track_sids: Vec::new(),
            disabled: false,
            quality: 0,
            width: 0,
            height: 0,
            fps: 0,
            priority: 0,
        };
        assert(settings@.track_sids =~= Seq::empty());
        settings
    }
}

/// Copies of the strings.
pub fn copy_strings(strings: &Vec<String>) -> (copies: Vec<String>)
    ensures
        crate::text_order::string_views(copies@) == crate::text_order::string_views(strings@),
{
    let mut copies: Vec<String> = Vec::new();
    let mut i: usize = 0;
    while i < strings.len()
        invariant
            i <= strings@.len(),
            copies@.len() == i,
            forall|j: int| 0 <= j < i ==> (#[trigger] copies@[j])@ == strings@[j]@,
        decreases strings.len() - i,
    {
        copies.push(strings[i].clone());
        i += 1;
    }
    assert(crate::text_order::string_views(copies@) =~= crate::text_order::string_views(strings@));
    copies
}

fn same_strings(a: &Vec<String>, b: &Vec<String>) -> (same: bool)
    ensures
        same == (crate::text_order::string_views(a@) == crate::text_order::string_views(b@)),
{
    let ghost a_views = crate::text_order::string_views(a@);
    let ghost b_views = crate::text_order::string_views(b@);
    if a.len() != b.len() {
        assert(a_views.len() != b_views.len());
        return false;
    }
    let mut i: usize = 0;
    while i < a.len()
        invariant
            i <= a@.len() == b@.len(),
            a_views == crate::text_order::string_views(a@),
            b_views == crate::text_order::string_views(b@),
            forall|j: int| 0 <= j < i ==> a_views[j] == b_views[j],
        decreases a.len() - i,
    {
        if a[i] != b[i] {
            assert(a_views[i as int] != b_views[i as int]);
            return false;
        }
        i += 1;
    }
    assert(a_views =~= b_views);
    true
}

impl UpdateTrackSettings {
    /// Settings with the same contents.
    pub fn duplicate(&self) -> (copy: Self)
        ensures
            copy@ == self@,
    {
        UpdateTrackSettings {
            track_sids: copy_strings(&self.track_sids),
            disabled: self.disabled,
            quality: self.quality,
            width: self.width,
            height: self.height,
            fps: self.fps,
            priority: self.priority,
        }
    }

    /// The settings have the same contents.
    pub fn same(&self, other: &Self) -> (same: bool)
        ensures
            same == (self@ == other@),
    {
        same_strings(&self.track_sids, &other.track_sids) && self.disabled == other.disabled
            && self.quality == other.quality && self.width == other.width && self.height
            == other.height && self.fps == other.fps && self.priority == other.priority
    }
}

/// Whether a quality of a track is wanted.
#[derive(Debug, Clone, Copy, PartialEq, Eq, Structural)]
pub struct SubscribedQuality {
    pub quality: i32,
    pub enabled: bool,
}

/// The qualities of a codec that are wanted.
#[derive(Debug, Clone, PartialEq, Eq)]
pub struct SubscribedCodec {
    pub codec: String,
    pub qualities: Vec<SubscribedQuality>,
}

/// The contents of a [`SubscribedCodec`].
#[verifier::ext_equal]
pub struct SubscribedCodecView {
    pub codec: Seq<char>,
    pub qualities: Seq<SubscribedQuality>,
}

impl View for SubscribedCodec {
    type V = SubscribedCodecView;

    open spec fn view(&self) -> SubscribedCodecView {
        SubscribedCodecView { codec: self.codec@, qualities: self.qualities@ }
    }
}

/// The qualities of a track that are wanted.
#[derive(Debug, Clone, PartialEq, Eq)]
pub struct SubscribedQualityUpdate {
    pub track_sid: String,
    pub subscribed_qualities: Vec<SubscribedQuality>,
    pub subscribed_codecs: Vec<SubscribedCodec>,
}

/// The contents of a [`SubscribedQualityUpdate`].
#[verifier::ext_equal]
pub struct SubscribedQualityUpdateView {
    pub track_sid: Seq<char>,
    pub subscribed_qualities: Seq<SubscribedQuality>,
    pub subscribed_codecs: Seq<SubscribedCodecView>,
}

impl View for SubscribedQualityUpdate {
    type V = SubscribedQualityUpdateView;

    open spec fn view(&self) -> SubscribedQualityUpdateView {
        SubscribedQualityUpdateView {
            track_sid: self.track_sid@,
            subscribed_qualities: self.subscribed_qualities@,
            subscribed_codecs: self.subscribed_codecs@.map_values(
                |codec: SubscribedCodec| codec@,
            ),
        }
    }
}

/// A codec that a track is published with.
#[derive(Debug, Clone, PartialEq, Eq)]
pub struct SimulcastCodecInfo {
    pub mime_type: String,
}

/// A published track, as far as its codecs go.
#[derive(Debug, Clone, PartialEq, Eq)]
pub struct TrackInfo {
    pub mime_type: String,
    pub codecs: Vec<SimulcastCodecInfo>,
}

/// A codec that may be used, and the format parameters that it must have.
#[derive(Debug, Clone, PartialEq, Eq)]
pub struct Codec {
    pub mime: String,
    pub fmtp_line: String,
}

/// Tracks of one participant.
#[derive(Debug, Clone, PartialEq, Eq)]
pub struct ParticipantTracks {
    pub participant_sid: String,
    pub track_sids: Vec<String>,
}

/// A request to receive tracks, or to receive them no more.
#[derive(Debug, Clone, PartialEq, Eq)]
pub struct UpdateSubscription {
    pub track_sids: Vec<String>,
    pub subscribe: bool,
    pub participant_tracks: Vec<ParticipantTracks>,
}

} // verus!
