//! The bitrates of layers, and the layers that have one.
use vstd::prelude::*;

use crate::video_layer_selector::VideoLayerLite;

verus! {

/// The bitrate of each temporal layer, for each spatial layer.
pub type BitratesLite = Vec<Vec<i64>>;

/// The contents of bitrates.
pub open spec fn rows(bitrates: Seq<Vec<i64>>) -> Seq<Seq<i64>> {
    bitrates.map_values(|row: Vec<i64>| row@)
}

/// The bitrate of the layers: 0 where none is known.
pub open spec fn rate(rows: Seq<Seq<i64>>, spatial: int, temporal: int) -> i64 {
    if 0 <= spatial < rows.len() && 0 <= temporal < rows[spatial].len() {
        rows[spatial][temporal]
    } else {
        0
    }
}

/// The bitrate of the layer.
pub open spec fn layer_rate(rows: Seq<Seq<i64>>, layer: VideoLayerLite) -> i64 {
    rate(rows, layer.spatial as int, layer.temporal as int)
}

/// The number fits 64 bits.
pub open spec fn is_i64(number: int) -> bool {
    i64::MIN <= number <= i64::MAX
}

/// The bitrate of the layers.
pub fn rate_at(bitrates: &BitratesLite, spatial: usize, temporal: usize) -> (bitrate: i64)
    ensures
        bitrate == rate(rows(bitrates@), spatial as int, temporal as int),
{
    if spatial < bitrates.len() && temporal < bitrates[spatial].len() {
        bitrates[spatial][temporal]
    } else {
        0
    }
}

/// The bitrate of the layer.
pub fn layer_bitrate(bitrates: &BitratesLite, layer: VideoLayerLite) -> (bitrate: i64)
    ensures
        bitrate == layer_rate(rows(bitrates@), layer),
{
    if layer.spatial < 0 || layer.temporal < 0 {
        return 0;
    }
    rate_at(bitrates, layer.spatial as usize, layer.temporal as usize)
}

fn copy_row(row: &Vec<i64>) -> (copy: Vec<i64>)
    ensures
        copy@ == row@,
{
    let mut copy: Vec<i64> = Vec::new();
    let mut i: usize = 0;
    while i < row.len()
        invariant
            i <= row@.len(),
            copy@ == row@.take(i as int),
        decreases row.len() - i,
    {
        copy.push(row[i]);
        i += 1;
        assert(row@.take(i as int) =~= row@.take(i - 1).push(row@[i - 1]));
    }
    assert(row@.take(i as int) =~= row@);
    copy
}

/// The same bitrates.
pub fn copy_bitrates(bitrates: &BitratesLite) -> (copy: BitratesLite)
    ensures
        rows(copy@) == rows(bitrates@),
{
    let mut copy: BitratesLite = Vec::new();
    let mut i: usize = 0;
    while i < bitrates.len()
        invariant
            i <= bitrates@.len(),
            rows(copy@) == rows(bitrates@).take(i as int),
        decreases bitrates.len() - i,
    {
        let row: Vec<i64> = copy_row(&bitrates[i]);
        proof {
            assert(rows(copy@.push(row)) =~= rows(copy@).push(row@));
            assert(rows(bitrates@).take(i + 1) =~= rows(bitrates@).take(i as int).push(row@));
        }
        copy.push(row);
        i += 1;
    }
    assert(rows(bitrates@).take(i as int) =~= rows(bitrates@));
    copy
}

/// The bitrate of the highest layer that has one, among those from the one with the spatial and
/// temporal layers down: spatial layers count before temporal ones, of which `top` is the
/// highest.
pub open spec fn highest_rate(rows: Seq<Seq<i64>>, spatial: int, temporal: int, top: int) -> i64
    decreases spatial + 1, temporal + 1,
{
    if spatial < 0 {
        0
    } else if temporal < 0 {
        highest_rate(rows, spatial - 1, top, top)
    } else if rate(rows, spatial, temporal) > 0 {
        rate(rows, spatial, temporal)
    } else {
        highest_rate(rows, spatial, temporal - 1, top)
    }
}

/// The bitrate of the highest layer up to `max` that has one.
pub fn highest_bitrate(bitrates: &BitratesLite, max: VideoLayerLite) -> (bitrate: i64)
    requires
        max.valid(),
    ensures
        bitrate == highest_rate(
            rows(bitrates@),
            max.spatial as int,
            max.temporal as int,
            max.temporal as int,
        ),
{
    let ghost all = rows(bitrates@);
    let ghost goal = highest_rate(
        all,
        max.spatial as int,
        max.temporal as int,
        max.temporal as int,
    );
    let mut spatial: i32 = max.spatial;
    while spatial >= 0
        invariant
            -1 <= spatial <= max.spatial,
            0 <= max.temporal,
            all == rows(bitrates@),
            goal == highest_rate(
                all,
                max.spatial as int,
                max.temporal as int,
                max.temporal as int,
            ),
            highest_rate(all, spatial as int, max.temporal as int, max.temporal as int) == goal,
        decreases spatial + 1,
    {
        let mut temporal: i32 = max.temporal;
        while temporal >= 0
            invariant
                0 <= spatial <= max.spatial,
                -1 <= temporal <= max.temporal,
                all == rows(bitrates@),
                goal == highest_rate(
                    all,
                    max.spatial as int,
                    max.temporal as int,
                    max.temporal as int,
                ),
                highest_rate(all, spatial as int, temporal as int, max.temporal as int) == goal,
            decreases temporal + 1,
        {
            let bitrate: i64 = rate_at(bitrates, spatial as usize, temporal as usize);
            if bitrate > 0 {
                return bitrate;
            }
            temporal -= 1;
        }
        spatial -= 1;
    }
    0
}

/// The lowest layer that has a bitrate, among those from the one with the spatial and temporal
/// layers up to `last`: spatial layers count before temporal ones.
pub open spec fn lowest_layer(
    rows: Seq<Seq<i64>>,
    spatial: int,
    temporal: int,
    last: VideoLayerLite,
) -> Option<VideoLayerLite>
    decreases last.spatial + 1 - spatial, last.temporal + 1 - temporal,
{
    if spatial > last.spatial {
        None
    } else if temporal > last.temporal {
        if last.temporal >= 0 {
            lowest_layer(rows, spatial + 1, 0, last)
        } else {
            None
        }
    } else if rate(rows, spatial, temporal) > 0 {
        Some(VideoLayerLite { spatial: spatial as i32, temporal: temporal as i32 })
    } else {
        lowest_layer(rows, spatial, temporal + 1, last)
    }
}

/// The lowest layer that has a bitrate, with a spatial layer from `first` on, up to `last`.
pub fn lowest_layer_with_bitrate(
    bitrates: &BitratesLite,
    first: i32,
    last: VideoLayerLite,
) -> (layer: Option<VideoLayerLite>)
    requires
        0 <= first,
        last.temporal >= 0,
    ensures
        layer == lowest_layer(rows(bitrates@), first as int, 0, last),
        layer matches Some(layer) ==> layer.valid() && layer_rate(rows(bitrates@), layer) > 0,
{
    let ghost all = rows(bitrates@);
    let ghost goal = lowest_layer(all, first as int, 0, last);
    let mut spatial: i64 = first as i64;
    while spatial <= last.spatial as i64
        invariant
            0 <= first <= spatial,
            spatial <= last.spatial + 1 || spatial == first,
            0 <= last.temporal,
            all == rows(bitrates@),
            goal == lowest_layer(all, first as int, 0, last),
            lowest_layer(all, spatial as int, 0, last) == goal,
        decreases last.spatial + 1 - spatial,
    {
        let mut temporal: i64 = 0;
        while temporal <= last.temporal as i64
            invariant
                0 <= spatial <= last.spatial,
                0 <= temporal <= last.temporal + 1,
                all == rows(bitrates@),
                goal == lowest_layer(all, first as int, 0, last),
                lowest_layer(all, spatial as int, temporal as int, last) == goal,
            decreases last.temporal + 1 - temporal,
        {
            if rate_at(bitrates, spatial as usize, temporal as usize) > 0 {
                return Some(
                    VideoLayerLite { spatial: spatial as i32, temporal: temporal as i32 },
                );
            }
            temporal += 1;
        }
        spatial += 1;
    }
    None
}

/// The bitrate of a layer stands in the row of its spatial layer, at the place of its temporal
/// layer. A layer that is not there has none.
pub proof fn law_bitrate_is_looked_up(rows: Seq<Seq<i64>>, layer: VideoLayerLite)
    ensures
        0 <= layer.spatial < rows.len() && 0 <= layer.temporal < rows[layer.spatial as int].len()
            ==> layer_rate(rows, layer) == rows[layer.spatial as int][layer.temporal as int],
        layer.spatial < 0 || layer.temporal < 0 || layer.spatial >= rows.len() ==> layer_rate(
            rows,
            layer,
        ) == 0,
        0 <= layer.spatial < rows.len() && layer.temporal >= rows[layer.spatial as int].len()
            ==> layer_rate(rows, layer) == 0,
{
}

proof fn lemma_highest_rate(
    rows: Seq<Seq<i64>>,
    spatial: int,
    temporal: int,
    top: int,
    s: int,
    t: int,
)
    requires
        0 <= s,
        0 <= t <= top,
        temporal <= top,
        s < spatial || (s == spatial && t <= temporal),
        rate(rows, s, t) > 0,
    ensures
        exists|i: int, j: int|
            0 <= j <= top && (s < i < spatial || (i == spatial && j <= temporal && i >= s) || (i
                == s && i < spatial)) && (i == s ==> j >= t) && #[trigger] rate(rows, i, j) > 0
                && highest_rate(rows, spatial, temporal, top) == rate(rows, i, j) && (forall|
                a: int,
                b: int,
            |
                0 <= b <= top && (i < a < spatial || (a == i && b > j && (i < spatial || b
                    <= temporal)) || (i < a && a == spatial && b <= temporal)) ==> #[trigger] rate(
                    rows,
                    a,
                    b,
                ) <= 0),
    decreases spatial + 1, temporal + 1,
{
    if temporal < 0 {
        lemma_highest_rate(rows, spatial - 1, top, top, s, t);
    } else if rate(rows, spatial, temporal) > 0 {
        assert(highest_rate(rows, spatial, temporal, top) == rate(rows, spatial, temporal));
    } else {
        lemma_highest_rate(rows, spatial, temporal - 1, top, s, t);
    }
}

/// Where a layer up to the highest one has a bitrate, the bandwidth that is needed is the bitrate
/// of such a layer, and no layer above that one has any.
pub proof fn law_highest_layer_is_needed(rows: Seq<Seq<i64>>, max: VideoLayerLite, s: int, t: int)
    requires
        0 <= s <= max.spatial,
        0 <= t <= max.temporal,
        rate(rows, s, t) > 0,
    ensures
        ({
            let needed = highest_rate(
                rows,
                max.spatial as int,
                max.temporal as int,
                max.temporal as int,
            );
            exists|i: int, j: int|
                0 <= i <= max.spatial && 0 <= j <= max.temporal && (i > s || (i == s && j >= t))
                    && #[trigger] rate(rows, i, j) > 0 && needed == rate(rows, i, j) && (forall|
                    a: int,
                    b: int,
                |
                    0 <= a <= max.spatial && 0 <= b <= max.temporal && (a > i || (a == i && b > j))
                        ==> #[trigger] rate(rows, a, b) <= 0)
        }),
{
    lemma_highest_rate(
        rows,
        max.spatial as int,
        max.temporal as int,
        max.temporal as int,
        s,
        t,
    );
}

proof fn lemma_no_highest_rate(rows: Seq<Seq<i64>>, spatial: int, temporal: int, top: int)
    requires
        temporal <= top,
        forall|a: int, b: int|
            0 <= a <= spatial && 0 <= b <= top ==> #[trigger] rate(rows, a, b) <= 0,
    ensures
        highest_rate(rows, spatial, temporal, top) == 0,
    decreases spatial + 1, temporal + 1,
{
    if spatial >= 0 {
        if temporal < 0 {
            lemma_no_highest_rate(rows, spatial - 1, top, top);
        } else {
            lemma_no_highest_rate(rows, spatial, temporal - 1, top);
        }
    }
}

/// Where no layer up to the highest one has a bitrate, no bandwidth is needed.
pub proof fn law_nothing_is_needed_without_bitrates(rows: Seq<Seq<i64>>, max: VideoLayerLite)
    requires
        forall|a: int, b: int|
            0 <= a <= max.spatial && 0 <= b <= max.temporal ==> #[trigger] rate(rows, a, b) <= 0,
    ensures
        highest_rate(rows, max.spatial as int, max.temporal as int, max.temporal as int) == 0,
{
    lemma_no_highest_rate(rows, max.spatial as int, max.temporal as int, max.temporal as int);
}

proof fn lemma_lowest_layer(
    rows: Seq<Seq<i64>>,
    spatial: int,
    temporal: int,
    last: VideoLayerLite,
    s: int,
    t: int,
)
    requires
        0 <= spatial,
        0 <= temporal,
        spatial <= s <= last.spatial,
        0 <= t <= last.temporal,
        s == spatial ==> t >= temporal,
        rate(rows, s, t) > 0,
    ensures
        lowest_layer(rows, spatial, temporal, last) matches Some(layer) && {
            &&& spatial <= layer.spatial <= s
            &&& 0 <= layer.temporal <= last.temporal
            &&& layer.spatial == s ==> layer.temporal <= t
            &&& layer_rate(rows, layer) > 0
        },
    decreases last.spatial + 1 - spatial, last.temporal + 1 - temporal,
{
    if temporal > last.temporal {
        lemma_lowest_layer(rows, spatial + 1, 0, last, s, t);
    } else if rate(rows, spatial, temporal) <= 0 {
        lemma_lowest_layer(rows, spatial, temporal + 1, last, s, t);
    }
}

proof fn lemma_found_lowest_layer(
    rows: Seq<Seq<i64>>,
    spatial: int,
    temporal: int,
    last: VideoLayerLite,
)
    requires
        0 <= spatial,
        0 <= temporal,
    ensures
        lowest_layer(rows, spatial, temporal, last) matches Some(layer) ==> {
            &&& spatial <= layer.spatial <= last.spatial
            &&& 0 <= layer.temporal <= last.temporal
            &&& layer_rate(rows, layer) > 0
        },
    decreases last.spatial + 1 - spatial, last.temporal + 1 - temporal,
{
    if spatial <= last.spatial {
        if temporal > last.temporal {
            if last.temporal >= 0 {
                lemma_found_lowest_layer(rows, spatial + 1, 0, last);
            }
        } else if rate(rows, spatial, temporal) <= 0 {
            lemma_found_lowest_layer(rows, spatial, temporal + 1, last);
        }
    }
}

/// The lowest layer of a range that has a bitrate is one of the range with a bitrate, and no other
/// one of the range with a bitrate is below it. There is one if any layer of the range has a
/// bitrate.
pub proof fn law_lowest_layer_is_found(
    rows: Seq<Seq<i64>>,
    first: int,
    last: VideoLayerLite,
    s: int,
    t: int,
)
    requires
        0 <= first,
    ensures
        first <= s <= last.spatial && 0 <= t <= last.temporal && rate(rows, s, t) > 0 ==> (
        lowest_layer(rows, first, 0, last) matches Some(layer) && (layer.spatial < s || (
        layer.spatial == s && layer.temporal <= t))),
        lowest_layer(rows, first, 0, last) matches Some(layer) ==> first <= layer.spatial
            <= last.spatial && 0 <= layer.temporal <= last.temporal && layer_rate(rows, layer) > 0,
{
    lemma_found_lowest_layer(rows, first, 0, last);
    if first <= s <= last.spatial && 0 <= t <= last.temporal && rate(rows, s, t) > 0 {
        lemma_lowest_layer(rows, first, 0, last, s, t);
    }
}

} // verus!
