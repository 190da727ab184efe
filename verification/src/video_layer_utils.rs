//! How the layers of a video track are named and ordered.
use vstd::prelude::*;

pub mod dimensions;

verus! {

/// The quality of a video layer.
#[derive(Debug, Clone, Copy, PartialEq, Eq, Hash, Structural)]
pub enum VideoQualityLite {
    Off,
    Low,
    Medium,
    High,
}

impl VideoQualityLite {
    /// The place of the quality in their order, off first.
    pub open spec fn rank(self) -> int {
        match self {
            VideoQualityLite::Off => 0,
            VideoQualityLite::Low => 1,
            VideoQualityLite::Medium => 2,
            VideoQualityLite::High => 3,
        }
    }
}

/// A layer of a video track.
#[derive(Debug, Clone, PartialEq, Eq)]
pub struct VideoLayerLite {
    pub quality: VideoQualityLite,
    pub spatial_layer: i32,
    pub rid: String,
}

/// A video track, as far as its layers go.
#[derive(Debug, Clone, PartialEq, Eq)]
pub struct TrackInfoLite {
    pub layers: Vec<VideoLayerLite>,
}

impl Default for TrackInfoLite {
    fn default() -> (track: Self)
        ensures
            track.layers@.len() == 0,
    {
        TrackInfoLite { layers: Vec::new() }
    }
}

/// The names of the three layers, lowest first.
pub type VideoLayersRid = [String; 3];

/// The number of no layer.
pub const INVALID_LAYER_SPATIAL: i32 = -1;

/// The contents of the names.
pub open spec fn rid_views(rids: VideoLayersRid) -> Seq<Seq<char>> {
    seq![rids@[0]@, rids@[1]@, rids@[2]@]
}

/// The names by size: quarter, half and full.
pub open spec fn qhf() -> Seq<Seq<char>> {
    seq!["q"@, "h"@, "f"@]
}

/// The names by number, from the lowest layer.
pub open spec fn two_one_zero() -> Seq<Seq<char>> {
    seq!["2"@, "1"@, "0"@]
}

fn qhf_rids() -> (rids: VideoLayersRid)
    ensures
        rid_views(rids) == qhf(),
{
    ["q".to_owned(), "h".to_owned(), "f".to_owned()]
}

fn two_one_zero_rids() -> (rids: VideoLayersRid)
    ensures
        rid_views(rids) == two_one_zero(),
{
    ["2".to_owned(), "1".to_owned(), "0".to_owned()]
}

/// Which qualities a track has layers of.
#[derive(Debug, Clone, Copy, PartialEq, Eq, Structural)]
pub struct LayerPresence {
    pub low: bool,
    pub medium: bool,
    pub high: bool,
}

impl LayerPresence {
    /// How many qualities there are.
    pub open spec fn count(self) -> int {
        (if self.low {
            1int
        } else {
            0
        }) + (if self.medium {
            1int
        } else {
            0
        }) + (if self.high {
            1int
        } else {
            0
        })
    }

    /// There are layers of the quality.
    pub open spec fn has(self, quality: VideoQualityLite) -> bool {
        match quality {
            VideoQualityLite::Low => self.low,
            VideoQualityLite::Medium => self.medium,
            VideoQualityLite::High => self.high,
            VideoQualityLite::Off => false,
        }
    }

    fn all(self) -> (all: bool)
        ensures
            all == (self.count() == 3),
    {
        self.low && self.medium && self.high
    }

    fn two(self) -> (two: bool)
        ensures
            two == (self.count() == 2),
    {
        (self.low && self.medium && !self.high) || (self.low && !self.medium && self.high) || (
        !self.low && self.medium && self.high)
    }
}

/// Tells whether there are layers of the quality.
pub fn has_quality(layer_presence: &LayerPresence, quality: VideoQualityLite) -> (has: bool)
    ensures
        has == layer_presence.has(quality),
{
    match quality {
        VideoQualityLite::Low => layer_presence.low,
        VideoQualityLite::Medium => layer_presence.medium,
        VideoQualityLite::High => layer_presence.high,
        VideoQualityLite::Off => false,
    }
}

/// One of the layers has the quality.
pub open spec fn has_layer(layers: Seq<VideoLayerLite>, quality: VideoQualityLite) -> bool {
    exists|i: int| 0 <= i < layers.len() && (#[trigger] layers[i]).quality == quality
}

/// The layers of a track, none if there is no track.
pub open spec fn layers_of(track_info: Option<&TrackInfoLite>) -> Seq<VideoLayerLite> {
    match track_info {
        Some(track_info) => track_info.layers@,
        None => Seq::empty(),
    }
}

/// Which qualities there are, if there are layers.
pub open spec fn presence(layers: Seq<VideoLayerLite>) -> Option<LayerPresence> {
    if layers.len() == 0 {
        None
    } else {
        Some(
            LayerPresence {
                low: has_layer(layers, VideoQualityLite::Low),
                medium: has_layer(layers, VideoQualityLite::Medium),
                high: has_layer(layers, VideoQualityLite::High),
            },
        )
    }
}

fn any_layer(layers: &Vec<VideoLayerLite>, quality: VideoQualityLite) -> (found: bool)
    ensures
        found == has_layer(layers@, quality),
{
    let mut i: usize = 0;
    while i < layers.len()
        invariant
            i <= layers@.len(),
            forall|j: int| 0 <= j < i ==> (#[trigger] layers@[j]).quality != quality,
        decreases layers.len() - i,
    {
        if layers[i].quality == quality {
            return true;
        }
        i += 1;
    }
    false
}

/// Which qualities a track has layers of, if it has layers.
pub fn layer_presence(track_info: Option<&TrackInfoLite>) -> (result: Option<LayerPresence>)
    ensures
        result == presence(layers_of(track_info)),
{
    let track: &TrackInfoLite = match track_info {
        Some(track) => track,
        None => {
            return None;
        },
    };
    if track.layers.len() == 0 {
        return None;
    }
    Some(
        LayerPresence {
            low: any_layer(&track.layers, VideoQualityLite::Low),
            medium: any_layer(&track.layers, VideoQualityLite::Medium),
            high: any_layer(&track.layers, VideoQualityLite::High),
        },
    )
}

/// The usual names of layers.
pub fn default_video_layers_rid() -> (rids: VideoLayersRid)
    ensures
        rid_views(rids) == qhf(),
{
    qhf_rids()
}

/// The layer that a name stands for. A track without layers goes by the usual names; else a
/// higher name stands for the highest layer that there is below it.
pub open spec fn layer_of_rid(
    rid: Seq<char>,
    present: Option<LayerPresence>,
    rid_space: Seq<Seq<char>>,
) -> i32 {
    match present {
        None => {
            if rid == "h"@ {
                1
            } else if rid == "f"@ {
                2
            } else {
                0
            }
        },
        Some(present) => {
            if rid == rid_space[0] {
                0
            } else if rid == rid_space[1] {
                if present.medium || present.high {
                    1
                } else {
                    0
                }
            } else if rid == rid_space[2] {
                if present.count() == 3 {
                    2
                } else if present.count() == 2 {
                    1
                } else {
                    0
                }
            } else {
                0
            }
        },
    }
}

proof fn lemma_usual_names_differ()
    ensures
        "q"@ != "h"@,
        "q"@ != "f"@,
        "h"@ != "f"@,
{
    reveal_strlit("q");
    reveal_strlit("h");
    reveal_strlit("f");
    assert("q"@[0] == 'q' && "h"@[0] == 'h' && "f"@[0] == 'f');
}

/// The spatial layer that a name stands for.
pub fn rid_to_spatial_layer(
    rid: &str,
    track_info: Option<&TrackInfoLite>,
    rid_space: &VideoLayersRid,
) -> (layer: i32)
    ensures
        layer == layer_of_rid(rid@, presence(layers_of(track_info)), rid_views(*rid_space)),
{
    let name: String = rid.to_owned();
    match layer_presence(track_info) {
        None => {
            proof {
                lemma_usual_names_differ();
            }
            if name == "q".to_owned() {
                0
            } else if name == "h".to_owned() {
                1
            } else if name == "f".to_owned() {
                2
            } else {
                0
            }
        },
        Some(present) => {
            if name == rid_space[0] {
                0
            } else if name == rid_space[1] {
                if present.medium || present.high {
                    1
                } else {
                    0
                }
            } else if name == rid_space[2] {
                if present.all() {
                    2
                } else if present.two() {
                    1
                } else {
                    0
                }
            } else {
                0
            }
        },
    }
}

/// The name of a layer. A layer that there is not has the name of the highest below it.
pub open spec fn rid_of_layer(
    layer: i32,
    present: Option<LayerPresence>,
    rid_space: Seq<Seq<char>>,
) -> Seq<char> {
    match present {
        None => {
            if layer == 1 {
                "h"@
            } else if layer == 2 {
                "f"@
            } else {
                "q"@
            }
        },
        Some(present) => {
            if layer == 2 && present.count() == 3 {
                rid_space[2]
            } else if (layer == 1 || layer == 2) && present.count() >= 2 {
                rid_space[1]
            } else {
                rid_space[0]
            }
        },
    }
}

/// The name of a spatial layer.
pub fn spatial_layer_to_rid(
    layer: i32,
    track_info: Option<&TrackInfoLite>,
    rid_space: &VideoLayersRid,
) -> (rid: String)
    ensures
        rid@ == rid_of_layer(layer, presence(layers_of(track_info)), rid_views(*rid_space)),
{
    match layer_presence(track_info) {
        None => {
            if layer == 1 {
                "h".to_owned()
            } else if layer == 2 {
                "f".to_owned()
            } else {
                "q".to_owned()
            }
        },
        Some(present) => {
            if layer == 2 && present.all() {
                rid_space[2].clone()
            } else if (layer == 1 || layer == 2) && (present.all() || present.two()) {
                rid_space[1].clone()
            } else {
                rid_space[0].clone()
            }
        },
    }
}

/// The layer of a quality. A quality that there is not has the layer of one that is near.
pub open spec fn layer_of_quality(
    quality: VideoQualityLite,
    present: Option<LayerPresence>,
) -> i32 {
    match (present, quality) {
        (_, VideoQualityLite::Off) => INVALID_LAYER_SPATIAL,
        (_, VideoQualityLite::Low) => 0,
        (None, VideoQualityLite::Medium) => 1,
        (None, VideoQualityLite::High) => 2,
        (Some(present), VideoQualityLite::Medium) => {
            if present.low && (present.medium || present.high) {
                1
            } else {
                0
            }
        },
        (Some(present), VideoQualityLite::High) => {
            if present.count() == 3 {
                2
            } else if present.count() == 2 {
                1
            } else {
                0
            }
        },
    }
}

/// The spatial layer of a quality.
pub fn video_quality_to_spatial_layer(
    quality: VideoQualityLite,
    track_info: Option<&TrackInfoLite>,
) -> (layer: i32)
    ensures
        layer == layer_of_quality(quality, presence(layers_of(track_info))),
{
    match layer_presence(track_info) {
        None => match quality {
            VideoQualityLite::Low => 0,
            VideoQualityLite::Medium => 1,
            VideoQualityLite::High => 2,
            VideoQualityLite::Off => INVALID_LAYER_SPATIAL,
        },
        Some(present) => match quality {
            VideoQualityLite::Low => 0,
            VideoQualityLite::Medium => {
                if present.low && (present.medium || present.high) {
                    1
                } else {
                    0
                }
            },
            VideoQualityLite::High => {
                if present.all() {
                    2
                } else if present.two() {
                    1
                } else {
                    0
                }
            },
            VideoQualityLite::Off => INVALID_LAYER_SPATIAL,
        },
    }
}

/// The quality of a layer.
pub open spec fn quality_of_layer(layer: i32, present: Option<LayerPresence>) -> VideoQualityLite {
    match present {
        None => {
            if layer == 0 {
                VideoQualityLite::Low
            } else if layer == 1 {
                VideoQualityLite::Medium
            } else if layer == 2 {
                VideoQualityLite::High
            } else {
                VideoQualityLite::Off
            }
        },
        Some(present) => {
            if layer == 0 {
                if present.low {
                    VideoQualityLite::Low
                } else if present.medium {
                    VideoQualityLite::Medium
                } else {
                    VideoQualityLite::High
                }
            } else if layer == 1 {
                if present.low && present.medium {
                    VideoQualityLite::Medium
                } else {
                    VideoQualityLite::High
                }
            } else if layer == 2 {
                VideoQualityLite::High
            } else {
                VideoQualityLite::Off
            }
        },
    }
}

/// The quality of a spatial layer.
pub fn spatial_layer_to_video_quality(layer: i32, track_info: Option<&TrackInfoLite>) -> (quality:
    VideoQualityLite)
    ensures
        quality == quality_of_layer(layer, presence(layers_of(track_info))),
{
    match layer_presence(track_info) {
        None => {
            if layer == 0 {
                VideoQualityLite::Low
            } else if layer == 1 {
                VideoQualityLite::Medium
            } else if layer == 2 {
                VideoQualityLite::High
            } else {
                VideoQualityLite::Off
            }
        },
        Some(present) => {
            if layer == 0 {
                if has_quality(&present, VideoQualityLite::Low) {
                    VideoQualityLite::Low
                } else if has_quality(&present, VideoQualityLite::Medium) {
                    VideoQualityLite::Medium
                } else {
                    VideoQualityLite::High
                }
            } else if layer == 1 {
                if present.low && present.medium {
                    VideoQualityLite::Medium
                } else {
                    VideoQualityLite::High
                }
            } else if layer == 2 {
                VideoQualityLite::High
            } else {
                VideoQualityLite::Off
            }
        },
    }
}

/// The name of the layer of a quality.
pub fn video_quality_to_rid(
    quality: VideoQualityLite,
    track_info: Option<&TrackInfoLite>,
    rid_space: &VideoLayersRid,
) -> (rid: String)
    ensures
        rid@ == rid_of_layer(
            layer_of_quality(quality, presence(layers_of(track_info))),
            presence(layers_of(track_info)),
            rid_views(*rid_space),
        ),
{
    spatial_layer_to_rid(
        video_quality_to_spatial_layer(quality, track_info),
        track_info,
        rid_space,
    )
}

/// The place of the first layer with the name, the number of layers if there is none.
pub open spec fn place_of_rid(layers: Seq<VideoLayerLite>, rid: Seq<char>, from: int) -> int
    decreases layers.len() - from,
{
    if from >= layers.len() || layers[from].rid@ == rid {
        from
    } else {
        place_of_rid(layers, rid, from + 1)
    }
}

/// The spatial layer that a track gives a name, the lowest if it gives it none.
pub fn get_spatial_layer_for_rid(rid: &str, track_info: Option<&TrackInfoLite>) -> (layer: i32)
    ensures
        layer == match track_info {
            None => INVALID_LAYER_SPATIAL,
            Some(track) => {
                let place = place_of_rid(track.layers@, rid@, 0);
                if rid@.len() > 0 && place < track.layers@.len() {
                    track.layers@[place].spatial_layer
                } else {
                    0
                }
            },
        },
{
    let track: &TrackInfoLite = match track_info {
        Some(track) => track,
        None => {
            return INVALID_LAYER_SPATIAL;
        },
    };
    let name: String = rid.to_owned();
    if name == "".to_owned() {
        proof {
            reveal_strlit("");
        }
        return 0;
    }
    proof {
        reveal_strlit("");
        if rid@.len() == 0 {
            assert(rid@ =~= ""@);
        }
    }
    let mut i: usize = 0;
    while i < track.layers.len()
        invariant
            i <= track.layers@.len(),
            name@ == rid@,
            rid@.len() > 0,
            *track == *track_info->0,
            track_info is Some,
            place_of_rid(track.layers@, rid@, 0) == place_of_rid(track.layers@, rid@, i as int),
        decreases track.layers.len() - i,
    {
        if track.layers[i].rid == name {
            return track.layers[i].spatial_layer;
        }
        i += 1;
    }
    0
}

/// The place of the first layer with the quality, the number of layers if there is none.
pub open spec fn place_of_quality(
    layers: Seq<VideoLayerLite>,
    quality: VideoQualityLite,
    from: int,
) -> int
    decreases layers.len() - from,
{
    if from >= layers.len() || layers[from].quality == quality {
        from
    } else {
        place_of_quality(layers, quality, from + 1)
    }
}

/// The spatial layer that a track gives a quality, or else one that is near.
pub fn get_spatial_layer_for_video_quality(
    quality: VideoQualityLite,
    track_info: Option<&TrackInfoLite>,
) -> (layer: i32)
    ensures
        layer == match track_info {
            None => INVALID_LAYER_SPATIAL,
            Some(track) => {
                let place = place_of_quality(track.layers@, quality, 0);
                if quality == VideoQualityLite::Off {
                    INVALID_LAYER_SPATIAL
                } else if place < track.layers@.len() {
                    track.layers@[place].spatial_layer
                } else if track.layers@.len() == 0 {
                    0
                } else {
                    layer_of_quality(quality, presence(track.layers@))
                }
            },
        },
{
    let track: &TrackInfoLite = match track_info {
        Some(track) => track,
        None => {
            return INVALID_LAYER_SPATIAL;
        },
    };
    if quality == VideoQualityLite::Off {
        return INVALID_LAYER_SPATIAL;
    }
    let mut i: usize = 0;
    while i < track.layers.len()
        invariant
            i <= track.layers@.len(),
            *track == *track_info->0,
            track_info is Some,
            quality != VideoQualityLite::Off,
            place_of_quality(track.layers@, quality, 0) == place_of_quality(
                track.layers@,
                quality,
                i as int,
            ),
        decreases track.layers.len() - i,
    {
        if track.layers[i].quality == quality {
            return track.layers[i].spatial_layer;
        }
        i += 1;
    }
    if track.layers.len() == 0 {
        return 0;
    }
    video_quality_to_spatial_layer(quality, Some(track))
}

/// The place of the first layer with the number, the number of layers if there is none.
pub open spec fn place_of_layer(layers: Seq<VideoLayerLite>, spatial_layer: i32, from: int) -> int
    decreases layers.len() - from,
{
    if from >= layers.len() || layers[from].spatial_layer == spatial_layer {
        from
    } else {
        place_of_layer(layers, spatial_layer, from + 1)
    }
}

/// The quality that a track gives a spatial layer.
pub fn get_video_quality_for_spatial_layer(
    spatial_layer: i32,
    track_info: Option<&TrackInfoLite>,
) -> (quality: VideoQualityLite)
    ensures
        quality == match track_info {
            None => VideoQualityLite::Off,
            Some(track) => {
                let place = place_of_layer(track.layers@, spatial_layer, 0);
                if spatial_layer != INVALID_LAYER_SPATIAL && place < track.layers@.len() {
                    track.layers@[place].quality
                } else {
                    VideoQualityLite::Off
                }
            },
        },
{
    let track: &TrackInfoLite = match track_info {
        Some(track) => track,
        None => {
            return VideoQualityLite::Off;
        },
    };
    if spatial_layer == INVALID_LAYER_SPATIAL {
        return VideoQualityLite::Off;
    }
    let mut i: usize = 0;
    while i < track.layers.len()
        invariant
            i <= track.layers@.len(),
            *track == *track_info->0,
            track_info is Some,
            spatial_layer != INVALID_LAYER_SPATIAL,
            place_of_layer(track.layers@, spatial_layer, 0) == place_of_layer(
                track.layers@,
                spatial_layer,
                i as int,
            ),
        decreases track.layers.len() - i,
    {
        if track.layers[i].spatial_layer == spatial_layer {
            return track.layers[i].quality;
        }
        i += 1;
    }
    VideoQualityLite::Off
}

/// Every name that is not blank is one of the known ones.
pub open spec fn all_known(rids: Seq<Seq<char>>, known: Seq<Seq<char>>) -> bool {
    forall|i: int| 0 <= i < 3 && (#[trigger] rids[i]).len() > 0 ==> known.contains(rids[i])
}

/// The name, if it is among the names.
pub open spec fn if_named(rids: Seq<Seq<char>>, name: Seq<char>) -> Seq<Seq<char>> {
    if rids.contains(name) {
        seq![name]
    } else {
        Seq::empty()
    }
}

/// The known names that are among the names, in their order.
pub open spec fn named(rids: Seq<Seq<char>>, known: Seq<Seq<char>>) -> Seq<Seq<char>> {
    if_named(rids, known[0]) + if_named(rids, known[1]) + if_named(rids, known[2])
}

/// The known names that are among the names, in their order, and then blanks.
pub open spec fn packed(rids: Seq<Seq<char>>, known: Seq<Seq<char>>) -> Seq<Seq<char>> {
    let names = named(rids, known);
    Seq::new(
        3,
        |i: int|
            if i < names.len() {
                names[i]
            } else {
                Seq::empty()
            },
    )
}

/// The names in the order of the layers, if they are names that are known.
pub open spec fn normalized(rids: Seq<Seq<char>>) -> Seq<Seq<char>> {
    if all_known(rids, two_one_zero()) {
        packed(rids, two_one_zero())
    } else if all_known(rids, qhf()) {
        packed(rids, qhf())
    } else {
        rids
    }
}

fn has_name(rids: &VideoLayersRid, name: &String) -> (has: bool)
    ensures
        has == rid_views(*rids).contains(name@),
{
    proof {
        let views = rid_views(*rids);
        assert(views[0] == rids@[0]@ && views[1] == rids@[1]@ && views[2] == rids@[2]@);
    }
    rids[0] == *name || rids[1] == *name || rids[2] == *name
}

/// Tells whether every name that is not blank is one of the known ones.
pub fn is_known_rids(rids: &VideoLayersRid, known: &VideoLayersRid) -> (is_known: bool)
    ensures
        is_known == all_known(rid_views(*rids), rid_views(*known)),
{
    let ghost views = rid_views(*rids);
    let blank: String = String::new();
    proof {
        assert(views[0] == rids@[0]@ && views[1] == rids@[1]@ && views[2] == rids@[2]@);
        if views[0].len() == 0 {
            assert(views[0] =~= blank@);
        }
        if views[1].len() == 0 {
            assert(views[1] =~= blank@);
        }
        if views[2].len() == 0 {
            assert(views[2] =~= blank@);
        }
    }
    (rids[0] == blank || has_name(known, &rids[0])) && (rids[1] == blank || has_name(
        known,
        &rids[1],
    )) && (rids[2] == blank || has_name(known, &rids[2]))
}

fn pack(rids: &VideoLayersRid, known: &VideoLayersRid) -> (result: VideoLayersRid)
    ensures
        rid_views(result) == packed(rid_views(*rids), rid_views(*known)),
{
    let mut names: Vec<String> = Vec::new();
    let ghost views = rid_views(*rids);
    let ghost known_views = rid_views(*known);
    if has_name(rids, &known[0]) {
        names.push(known[0].clone());
    }
    if has_name(rids, &known[1]) {
        names.push(known[1].clone());
    }
    if has_name(rids, &known[2]) {
        names.push(known[2].clone());
    }
    assert(crate::text_order::string_views(names@) =~= named(views, known_views));
    let first: String = if names.len() > 0 {
        names[0].clone()
    } else {
        String::new()
    };
    let second: String = if names.len() > 1 {
        names[1].clone()
    } else {
        String::new()
    };
    let third: String = if names.len() > 2 {
        names[2].clone()
    } else {
        String::new()
    };
    let result: VideoLayersRid = [first, second, third];
    assert(rid_views(result) =~= packed(views, known_views));
    result
}

/// The names in the order of the layers, if they are names that are known.
pub fn normalize_video_layers_rid(rids: &VideoLayersRid) -> (result: VideoLayersRid)
    ensures
        rid_views(result) == normalized(rid_views(*rids)),
{
    let by_number: VideoLayersRid = two_one_zero_rids();
    if is_known_rids(rids, &by_number) {
        return pack(rids, &by_number);
    }
    let by_size: VideoLayersRid = qhf_rids();
    if is_known_rids(rids, &by_size) {
        return pack(rids, &by_size);
    }
    [rids[0].clone(), rids[1].clone(), rids[2].clone()]
}

/// A layer that there is has a name that stands for it.
pub proof fn law_names_of_layers_are_read_back(
    layer: i32,
    present: LayerPresence,
    rid_space: Seq<Seq<char>>,
)
    requires
        rid_space.len() == 3,
        rid_space[0] != rid_space[1],
        rid_space[0] != rid_space[2],
        rid_space[1] != rid_space[2],
        layer == 0 || (0 < layer && layer < present.count()),
    ensures
        layer_of_rid(
            rid_of_layer(layer, Some(present), rid_space),
            Some(present),
            rid_space,
        ) == layer,
{
}

/// A quality that there is has a layer of that quality.
pub proof fn law_layers_of_qualities_are_read_back(
    quality: VideoQualityLite,
    present: LayerPresence,
)
    requires
        present.has(quality),
    ensures
        quality_of_layer(layer_of_quality(quality, Some(present)), Some(present)) == quality,
        0 <= layer_of_quality(quality, Some(present)) < present.count(),
{
}

/// Names that are in order stay as they are.
pub proof fn law_normalized_names_stay(rids: Seq<Seq<char>>)
    requires
        rids.len() == 3,
    ensures
        normalized(normalized(rids)) == normalized(rids),
{
    let by_number = two_one_zero();
    let by_size = qhf();
    reveal_strlit("2");
    reveal_strlit("1");
    reveal_strlit("0");
    reveal_strlit("q");
    reveal_strlit("h");
    reveal_strlit("f");
    assert("2"@[0] == '2' && "1"@[0] == '1' && "0"@[0] == '0');
    assert("q"@[0] == 'q' && "h"@[0] == 'h' && "f"@[0] == 'f');
    if all_known(rids, by_number) {
        lemma_packed_again(rids, by_number);
    } else if all_known(rids, by_size) {
        lemma_packed_again(rids, by_size);
        let once = packed(rids, by_size);
        if all_known(once, by_number) {
            assert forall|i: int| 0 <= i < 3 implies (#[trigger] once[i]).len() == 0 by {
                if once[i].len() > 0 {
                    assert(by_number.contains(once[i]));
                    assert(by_size.contains(once[i]));
                    let j = choose|j: int| 0 <= j < 3 && by_number[j] == once[i];
                    let k = choose|k: int| 0 <= k < 3 && by_size[k] == once[i];
                    assert(by_number[j][0] == by_size[k][0]);
                }
            }
            lemma_blanks_are_packed(once, by_number);
        }
    }
}

proof fn lemma_blanks_are_packed(rids: Seq<Seq<char>>, known: Seq<Seq<char>>)
    requires
        rids.len() == 3,
        known.len() == 3,
        forall|i: int| 0 <= i < 3 ==> (#[trigger] rids[i]).len() == 0,
        forall|i: int| 0 <= i < 3 ==> (#[trigger] known[i]).len() > 0,
    ensures
        packed(rids, known) == rids,
{
    assert forall|i: int| 0 <= i < 3 implies !rids.contains(#[trigger] known[i]) by {}
    assert(named(rids, known) =~= Seq::empty());
    assert forall|i: int| 0 <= i < 3 implies packed(rids, known)[i] == rids[i] by {
        assert(rids[i] =~= Seq::empty());
    }
    assert(packed(rids, known) =~= rids);
}

proof fn lemma_packed_again(rids: Seq<Seq<char>>, known: Seq<Seq<char>>)
    requires
        known.len() == 3,
        known[0] != known[1],
        known[0] != known[2],
        known[1] != known[2],
        forall|i: int| 0 <= i < 3 ==> (#[trigger] known[i]).len() > 0,
    ensures
        packed(packed(rids, known), known) == packed(rids, known),
        all_known(packed(rids, known), known),
{
    let once = packed(rids, known);
    let names = named(rids, known);
    assert forall|i: int| 0 <= i < 3 && (#[trigger] once[i]).len() > 0 implies known.contains(
        once[i],
    ) by {
        assert(once[i] == names[i]);
        assert(names[i] == known[0] || names[i] == known[1] || names[i] == known[2]);
    }
    assert forall|k: int| 0 <= k < 3 implies (once.contains(#[trigger] known[k])
        <==> rids.contains(known[k])) by {
        if rids.contains(known[k]) {
            let before = if k == 0 {
                Seq::empty()
            } else if k == 1 {
                if_named(rids, known[0])
            } else {
                if_named(rids, known[0]) + if_named(rids, known[1])
            };
            assert(names[before.len() as int] == known[k]);
            assert(once[before.len() as int] == known[k]);
        }
        if once.contains(known[k]) {
            let i = choose|i: int| 0 <= i < 3 && once[i] == known[k];
            assert(once[i].len() > 0);
            assert(once[i] == names[i]);
        }
    }
    assert(named(once, known) =~= names);
}

/// The layer of a quality is the number of lesser qualities that there are, but no more than the
/// highest layer that there is; off has none.
pub proof fn law_layer_counts_the_lesser_qualities(
    quality: VideoQualityLite,
    present: LayerPresence,
)
    requires
        present.low || present.medium || present.high,
    ensures
        ({
            let lesser = (if present.low && quality.rank() > 1 {
                1int
            } else {
                0
            }) + (if present.medium && quality.rank() > 2 {
                1int
            } else {
                0
            });
            let highest = (if present.low {
                1int
            } else {
                0
            }) + (if present.medium {
                1int
            } else {
                0
            }) + (if present.high {
                1int
            } else {
                0
            }) - 1;
            &&& quality == VideoQualityLite::Off ==> layer_of_quality(quality, Some(present)) == -1
            &&& quality != VideoQualityLite::Off && lesser <= highest ==> layer_of_quality(
                quality,
                Some(present),
            ) == lesser
            &&& quality != VideoQualityLite::Off && lesser > highest ==> layer_of_quality(
                quality,
                Some(present),
            ) == highest
        }),
{
}

/// A layer that there is has the quality below which there are as many as its number; a higher one
/// has the highest quality, and a number that is no layer has none.
pub proof fn law_layer_has_its_quality(layer: i32, present: LayerPresence)
    ensures
        ({
            let quality = quality_of_layer(layer, Some(present));
            let below = (if present.low && quality.rank() > 1 {
                1int
            } else {
                0
            }) + (if present.medium && quality.rank() > 2 {
                1int
            } else {
                0
            });
            &&& layer < 0 || layer > 2 ==> quality == VideoQualityLite::Off
            &&& 0 <= layer < present.count() ==> present.has(quality) && below == layer
            &&& present.count() <= layer <= 2 ==> quality == VideoQualityLite::High
        }),
{
}

/// A track without layers goes by the usual order: low, medium and high are layers 0, 1 and 2, and
/// so are the names q, h and f.
pub proof fn law_tracks_without_layers_go_by_the_usual_order(
    layer: i32,
    quality: VideoQualityLite,
    rid: Seq<char>,
    rid_space: Seq<Seq<char>>,
)
    ensures
        layer_of_quality(VideoQualityLite::Low, None) == 0,
        layer_of_quality(VideoQualityLite::Medium, None) == 1,
        layer_of_quality(VideoQualityLite::High, None) == 2,
        layer_of_quality(VideoQualityLite::Off, None) == -1,
        quality_of_layer(layer_of_quality(quality, None), None) == quality,
        layer < 0 || layer > 2 ==> quality_of_layer(layer, None) == VideoQualityLite::Off,
        rid_of_layer(0, None, rid_space) == "q"@,
        rid_of_layer(1, None, rid_space) == "h"@,
        rid_of_layer(2, None, rid_space) == "f"@,
        0 <= layer <= 2 ==> layer_of_rid(rid_of_layer(layer, None, rid_space), None, rid_space)
            == layer,
        rid != "h"@ && rid != "f"@ ==> layer_of_rid(rid, None, rid_space) == 0,
{
    reveal_strlit("q");
    reveal_strlit("h");
    reveal_strlit("f");
    assert("q"@[0] == 'q' && "h"@[0] == 'h' && "f"@[0] == 'f');
}

/// The first name stands for the lowest layer, the second for the next one where there is a quality
/// above low, the third for the highest, and any other for the lowest.
pub proof fn law_names_stand_for_layers(
    rid: Seq<char>,
    present: LayerPresence,
    rid_space: Seq<Seq<char>>,
)
    requires
        rid_space.len() == 3,
        rid_space[0] != rid_space[1],
        rid_space[0] != rid_space[2],
        rid_space[1] != rid_space[2],
        present.low || present.medium || present.high,
    ensures
        layer_of_rid(rid_space[0], Some(present), rid_space) == 0,
        present.medium || present.high ==> layer_of_rid(rid_space[1], Some(present), rid_space)
            == 1,
        !present.medium && !present.high ==> layer_of_rid(rid_space[1], Some(present), rid_space)
            == 0,
        layer_of_rid(rid_space[2], Some(present), rid_space) + 1 == (if present.low {
            1int
        } else {
            0
        }) + (if present.medium {
            1int
        } else {
            0
        }) + (if present.high {
            1int
        } else {
            0
        }),
        rid != rid_space[0] && rid != rid_space[1] && rid != rid_space[2] ==> layer_of_rid(
            rid,
            Some(present),
            rid_space,
        ) == 0,
{
}

/// A layer that there is not has the name of the highest one below it.
pub proof fn law_missing_layers_have_the_name_below(
    layer: i32,
    present: LayerPresence,
    rid_space: Seq<Seq<char>>,
)
    ensures
        0 <= layer < present.count() ==> rid_of_layer(layer, Some(present), rid_space)
            == rid_space[layer as int],
        0 < present.count() <= layer <= 2 ==> rid_of_layer(layer, Some(present), rid_space)
            == rid_space[present.count() - 1],
        layer < 0 || layer > 2 ==> rid_of_layer(layer, Some(present), rid_space) == rid_space[0],
{
}

/// A quality is there exactly where a layer has it, and nothing is known of a track without layers.
pub proof fn law_presence_is_that_of_the_layers(layers: Seq<VideoLayerLite>, i: int)
    ensures
        layers.len() == 0 ==> presence(layers) is None,
        0 <= i < layers.len() && layers[i].quality == VideoQualityLite::Low ==> (presence(
            layers,
        ) matches Some(present) && present.low),
        0 <= i < layers.len() && layers[i].quality == VideoQualityLite::Medium ==> (presence(
            layers,
        ) matches Some(present) && present.medium),
        0 <= i < layers.len() && layers[i].quality == VideoQualityLite::High ==> (presence(
            layers,
        ) matches Some(present) && present.high),
        presence(layers) matches Some(present) ==> (present.low ==> exists|j: int|
            0 <= j < layers.len() && (#[trigger] layers[j]).quality == VideoQualityLite::Low) && (
        present.medium ==> exists|j: int|
            0 <= j < layers.len() && (#[trigger] layers[j]).quality == VideoQualityLite::Medium)
            && (present.high ==> exists|j: int|
            0 <= j < layers.len() && (#[trigger] layers[j]).quality == VideoQualityLite::High),
{
}

/// The first layer with a name, a quality or a number is found, and the number of layers where
/// there is none.
pub proof fn law_first_layer_is_found(
    layers: Seq<VideoLayerLite>,
    rid: Seq<char>,
    quality: VideoQualityLite,
    spatial_layer: i32,
    from: int,
)
    requires
        0 <= from <= layers.len(),
    ensures
        ({
            let place = place_of_rid(layers, rid, from);
            &&& from <= place <= layers.len()
            &&& place < layers.len() ==> layers[place].rid@ == rid
            &&& forall|i: int| from <= i < place ==> (#[trigger] layers[i]).rid@ != rid
        }),
        ({
            let place = place_of_quality(layers, quality, from);
            &&& from <= place <= layers.len()
            &&& place < layers.len() ==> layers[place].quality == quality
            &&& forall|i: int| from <= i < place ==> (#[trigger] layers[i]).quality != quality
        }),
        ({
            let place = place_of_layer(layers, spatial_layer, from);
            &&& from <= place <= layers.len()
            &&& place < layers.len() ==> layers[place].spatial_layer == spatial_layer
            &&& forall|i: int|
                from <= i < place ==> (#[trigger] layers[i]).spatial_layer != spatial_layer
        }),
    decreases layers.len() - from,
{
    if from < layers.len() {
        law_first_layer_is_found(layers, rid, quality, spatial_layer, from + 1);
    }
}

/// Names that are not all known ones are left as they are.
pub proof fn law_unknown_names_are_left(rids: Seq<Seq<char>>, i: int, j: int)
    requires
        rids.len() == 3,
        0 <= i < 3,
        0 <= j < 3,
        rids[i].len() > 0,
        rids[j].len() > 0,
        !qhf().contains(rids[i]),
        !two_one_zero().contains(rids[j]),
    ensures
        normalized(rids) == rids,
{
}

/// Known names come in the order of the layers, whatever order they are given in, and blanks come
/// last.
pub proof fn law_known_names_are_put_in_order(rids: Seq<Seq<char>>)
    requires
        rids.len() == 3,
    ensures
        rids.to_set() == qhf().to_set() ==> normalized(rids) == qhf(),
        rids.to_set() == two_one_zero().to_set() ==> normalized(rids) == two_one_zero(),
{
    reveal_strlit("q");
    reveal_strlit("h");
    reveal_strlit("f");
    reveal_strlit("2");
    reveal_strlit("1");
    reveal_strlit("0");
    assert("q"@[0] == 'q' && "h"@[0] == 'h' && "f"@[0] == 'f');
    assert("2"@[0] == '2' && "1"@[0] == '1' && "0"@[0] == '0');
    if rids.to_set() == qhf().to_set() {
        lemma_same_names(rids, qhf());
        let i = choose|i: int| 0 <= i < rids.len() && rids[i] == qhf()[0];
        assert(!two_one_zero().contains(rids[i]));
        assert(!all_known(rids, two_one_zero()));
        assert(packed(rids, qhf()) =~= qhf());
    }
    if rids.to_set() == two_one_zero().to_set() {
        lemma_same_names(rids, two_one_zero());
        assert(packed(rids, two_one_zero()) =~= two_one_zero());
    }
}

proof fn lemma_same_names(rids: Seq<Seq<char>>, known: Seq<Seq<char>>)
    requires
        rids.len() == 3,
        known.len() == 3,
        rids.to_set() == known.to_set(),
    ensures
        all_known(rids, known),
        rids.contains(known[0]),
        rids.contains(known[1]),
        rids.contains(known[2]),
{
    assert forall|i: int| 0 <= i < 3 && (#[trigger] rids[i]).len() > 0 implies known.contains(
        rids[i],
    ) by {
        assert(rids.to_set().contains(rids[i]));
    }
    assert(known.to_set().contains(known[0]));
    assert(known.to_set().contains(known[1]));
    assert(known.to_set().contains(known[2]));
}

} // verus!
