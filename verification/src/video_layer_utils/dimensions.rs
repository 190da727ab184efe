//! The quality of a track that fits the size at which it is shown.
use crate::video_layer_utils::VideoQualityLite;
use vstd::prelude::*;

verus! {

/// The size that a number of 24 binary digits has at most.
pub const DIGITS_LIMIT: u64 = 0x100_0000;

/// A layer may be smaller than what was asked for by a tenth. The factor nine tenths is rounded to
/// 24 binary digits, and stands for this many parts of [`DIGITS_LIMIT`].
pub const LAYER_SELECTION_TOLERANCE: u64 = 15_099_494;

/// The least power of two by which `x` can be divided to be less than the limit.
pub open spec fn unit_of(x: nat) -> nat
    decreases x,
{
    if x < DIGITS_LIMIT {
        1
    } else {
        2 * unit_of(x / 2)
    }
}

/// The multiple of `unit` that is nearest to `x`, the even one where two are as near.
pub open spec fn nearest_multiple(x: nat, unit: nat) -> nat {
    let rest = 2 * (x % unit);
    if rest > unit || (rest == unit && (x / unit) % 2 == 1) {
        (x / unit + 1) * unit
    } else {
        x / unit * unit
    }
}

/// `x` rounded to 24 binary digits.
pub open spec fn rounded(x: nat) -> nat {
    nearest_multiple(x, unit_of(x))
}

/// Nine tenths of a size in single precision: the size and the product are each rounded to 24
/// binary digits, and what is behind the point is cut off.
pub open spec fn tolerated(size: u32) -> nat {
    rounded(rounded(size as nat) * LAYER_SELECTION_TOLERANCE as nat) / DIGITS_LIMIT as nat
}

proof fn lemma_unit_step(x: nat, unit: nat)
    requires
        unit > 0,
        x / unit >= DIGITS_LIMIT,
    ensures
        unit_of(x / unit) == 2 * unit_of(x / (2 * unit)),
{
    vstd::arithmetic::div_mod::lemma_div_denominator(x as int, unit as int, 2);
    assert(unit * 2 == 2 * unit);
    assert((x / unit) / 2 == x / (2 * unit));
}

proof fn lemma_unit_is_bounded(x: nat)
    ensures
        unit_of(x) > 0,
        x < DIGITS_LIMIT ==> unit_of(x) == 1,
        x >= DIGITS_LIMIT ==> unit_of(x) * DIGITS_LIMIT <= 2 * x,
    decreases x,
{
    if x >= DIGITS_LIMIT {
        lemma_unit_is_bounded(x / 2);
    }
}

proof fn lemma_rounded_is_close(x: nat)
    ensures
        rounded(x) <= x + unit_of(x),
{
    lemma_unit_is_bounded(x);
    let unit = unit_of(x);
    vstd::arithmetic::div_mod::lemma_fundamental_div_mod(x as int, unit as int);
    assert(unit * (x / unit) == x / unit * unit) by (nonlinear_arith);
    assert((x / unit + 1) * unit == x / unit * unit + unit) by (nonlinear_arith);
}

fn round_digits(x: u64) -> (result: u64)
    requires
        x < 0x100_0000_0000_0000,
    ensures
        result == rounded(x as nat),
        result <= x + unit_of(x as nat),
{
    proof {
        lemma_unit_is_bounded(x as nat);
        lemma_rounded_is_close(x as nat);
    }
    let mut unit: u64 = 1;
    while x / unit >= DIGITS_LIMIT
        invariant
            x < 0x100_0000_0000_0000,
            0 < unit,
            unit_of(x as nat) == unit * unit_of(x as nat / unit as nat),
            x >= DIGITS_LIMIT ==> unit_of(x as nat) * DIGITS_LIMIT <= 2 * x,
            x < DIGITS_LIMIT ==> unit_of(x as nat) == 1,
        decreases x / unit,
    {
        proof {
            let q = x as nat / unit as nat;
            lemma_unit_step(x as nat, unit as nat);
            lemma_unit_is_bounded(x as nat / (2 * unit as nat));
            let next = unit_of(x as nat / (2 * unit as nat));
            assert(unit * (2 * next) == (2 * unit) * next) by (nonlinear_arith);
            assert(2 * unit <= (2 * unit) * next) by (nonlinear_arith)
                requires
                    next > 0,
            ;
            assert(q <= x) by {
                vstd::arithmetic::div_mod::lemma_div_is_ordered_by_denominator(
                    x as int,
                    1,
                    unit as int,
                );
            }
            assert(2 * unit <= unit_of(x as nat));
            assert(2 * unit <= u64::MAX);
            vstd::arithmetic::div_mod::lemma_div_denominator(x as int, unit as int, 2);
            assert(unit * 2 == 2 * unit);
        }
        unit = 2 * unit;
    }
    let quotient: u64 = x / unit;
    let rest: u64 = x % unit;
    proof {
        let last = unit_of(x as nat / unit as nat);
        assert(unit * last == unit) by (nonlinear_arith)
            requires
                last == 1,
        ;
        assert(unit == unit_of(x as nat));
        vstd::arithmetic::div_mod::lemma_fundamental_div_mod(x as int, unit as int);
        assert(unit as int * quotient as int == quotient * unit) by (nonlinear_arith);
        assert((quotient + 1) * unit == quotient * unit + unit) by (nonlinear_arith);
        assert(rest < unit);
    }
    if 2 * rest > unit || (2 * rest == unit && quotient % 2 == 1) {
        (quotient + 1) * unit
    } else {
        quotient * unit
    }
}

/// Nine tenths of a size in single precision.
pub fn tolerated_size(size: u32) -> (result: u32)
    ensures
        result == tolerated(size),
{
    proof {
        lemma_unit_is_bounded(size as nat);
    }
    let size_digits: u64 = round_digits(size as u64);
    assert(size_digits <= 0x1_0000_0200);
    assert(size_digits * LAYER_SELECTION_TOLERANCE <= 0x1_0000_0200 * LAYER_SELECTION_TOLERANCE)
        by (nonlinear_arith)
        requires
            size_digits <= 0x1_0000_0200,
    ;
    let product: u64 = size_digits * LAYER_SELECTION_TOLERANCE;
    proof {
        lemma_unit_is_bounded(product as nat);
    }
    (round_digits(product) / DIGITS_LIMIT) as u32
}

/// The sizes in ascending order.
pub open spec fn in_order(sizes: Seq<u32>) -> Seq<u32> {
    sizes.sort_by(|a: u32, b: u32| a <= b)
}

/// Puts sizes in ascending order.
pub fn sort_sizes(sizes: &mut Vec<u32>)
    ensures
        final(sizes)@ == in_order(old(sizes)@),
{
    let ghost before = sizes@;
    let ghost leq = |a: u32, b: u32| a <= b;
    let mut i: usize = 0;
    while i < sizes.len()
        invariant
            i <= sizes@.len() == before.len(),
            sizes@.to_multiset() == before.to_multiset(),
            forall|j: int, k: int| 0 <= j <= k < i ==> sizes@[j] <= sizes@[k],
        decreases sizes.len() - i,
    {
        let mut j: usize = i;
        while j > 0 && sizes[j - 1] > sizes[j]
            invariant
                j <= i < sizes@.len() == before.len(),
                sizes@.to_multiset() == before.to_multiset(),
                forall|a: int, b: int|
                    0 <= a <= b <= i && a != j && b != j ==> sizes@[a] <= sizes@[b],
                forall|b: int| j < b <= i ==> sizes@[j as int] <= sizes@[b],
            decreases j,
        {
            let ghost unswapped = sizes@;
            let left: u32 = sizes[j - 1];
            let right: u32 = sizes[j];
            sizes.set(j - 1, right);
            sizes.set(j, left);
            proof {
                lemma_swap(unswapped, j - 1, j as int);
                assert(sizes@ =~= unswapped.update(j - 1, right).update(j as int, left));
            }
            j -= 1;
        }
        i += 1;
    }
    proof {
        before.lemma_sort_by_ensures(leq);
        assert(vstd::relations::sorted_by(sizes@, leq));
        vstd::seq_lib::lemma_sorted_unique(sizes@, in_order(before), leq);
    }
}

proof fn lemma_swap(sizes: Seq<u32>, i: int, j: int)
    requires
        0 <= i < j < sizes.len(),
    ensures
        sizes.update(i, sizes[j]).update(j, sizes[i]).to_multiset() == sizes.to_multiset(),
{
    let one = sizes.update(i, sizes[j]);
    let two = one.update(j, sizes[i]);
    vstd::seq_lib::to_multiset_update(sizes, i, sizes[j]);
    vstd::seq_lib::to_multiset_update(one, j, sizes[i]);
    vstd::seq_lib::to_multiset_contains(sizes, sizes[i]);
    assert(two.to_multiset() =~= sizes.to_multiset());
}

/// The last size that is not zero, if there is one.
pub open spec fn last_known_size(sizes: Seq<u32>) -> Option<u32>
    decreases sizes.len(),
{
    if sizes.len() == 0 {
        None
    } else if sizes.last() > 0 {
        Some(sizes.last())
    } else {
        last_known_size(sizes.drop_last())
    }
}

/// The place of the first size, from `from` on, that is large enough and is not that of the next,
/// or else the last place.
pub open spec fn fitting_place(sizes: Seq<u32>, requested: nat, from: int) -> int
    decreases sizes.len() - from,
{
    if from >= sizes.len() - 1 {
        from
    } else if sizes[from] >= requested && sizes[from] != sizes[from + 1] {
        from
    } else {
        fitting_place(sizes, requested, from + 1)
    }
}

/// The quality of a place among the sizes.
pub open spec fn quality_at(place: int) -> VideoQualityLite {
    if place == 0 {
        VideoQualityLite::Low
    } else if place == 1 {
        VideoQualityLite::Medium
    } else {
        VideoQualityLite::High
    }
}

/// The size of a track without known layers: its shorter side, or the last known size of a layer.
pub open spec fn track_size(
    track_width: u32,
    track_height: u32,
    layer_heights: Seq<u32>,
) -> u32 {
    let shorter = if track_width < track_height {
        track_width
    } else {
        track_height
    };
    if shorter == 0 && last_known_size(layer_heights) is Some {
        last_known_size(layer_heights)->0
    } else {
        shorter
    }
}

/// The quality that fits a requested size. Where the heights of the layers are known, the height
/// decides; else it is the side that is the shorter one of the track, against the sizes that
/// layers usually have.
pub open spec fn fitting_quality(
    track_width: u32,
    track_height: u32,
    requested_width: u32,
    requested_height: u32,
    layer_heights: Seq<u32>,
) -> VideoQualityLite {
    if track_height == 0 && layer_heights.len() == 0 {
        VideoQualityLite::High
    } else if layer_heights.len() > 0 && layer_heights[0] > 0 {
        quality_at(fitting_place(in_order(layer_heights), tolerated(requested_height), 0))
    } else {
        let requested = if track_width < track_height {
            requested_width
        } else {
            requested_height
        };
        let usual = seq![180u32, 360u32, track_size(track_width, track_height, layer_heights)];
        quality_at(fitting_place(usual, tolerated(requested), 0))
    }
}

fn last_size(sizes: &Vec<u32>) -> (size: Option<u32>)
    ensures
        size == last_known_size(sizes@),
{
    let mut i: usize = sizes.len();
    assert(sizes@.take(i as int) =~= sizes@);
    while i > 0
        invariant
            i <= sizes@.len(),
            last_known_size(sizes@) == last_known_size(sizes@.take(i as int)),
        decreases i,
    {
        assert(sizes@.take(i as int).drop_last() =~= sizes@.take(i - 1));
        if sizes[i - 1] > 0 {
            return Some(sizes[i - 1]);
        }
        i -= 1;
    }
    None
}

/// The quality that fits a requested size.
pub fn quality_for_dimension(
    track_width: u32,
    track_height: u32,
    requested_width: u32,
    requested_height: u32,
    layer_heights: Vec<u32>,
) -> (quality: VideoQualityLite)
    ensures
        quality == fitting_quality(
            track_width,
            track_height,
            requested_width,
            requested_height,
            layer_heights@,
        ),
{
    if track_height == 0 && layer_heights.len() == 0 {
        return VideoQualityLite::High;
    }
    let mut orig_size: u32 = track_height;
    let mut requested_size: u32 = requested_height;
    if track_width < track_height {
        orig_size = track_width;
        requested_size = requested_width;
    }
    if orig_size == 0 {
        if let Some(last_non_zero) = last_size(&layer_heights) {
            orig_size = last_non_zero;
        }
    }
    let mut layer_sizes: Vec<u32> = Vec::new();
    layer_sizes.push(180);
    layer_sizes.push(360);
    layer_sizes.push(orig_size);
    assert(layer_sizes@ =~= seq![180u32, 360u32, orig_size]);
    if layer_heights.len() > 0 && layer_heights[0] > 0 {
        layer_sizes = layer_heights;
        requested_size = requested_height;
        sort_sizes(&mut layer_sizes);
        proof {
            layer_heights@.lemma_sort_by_ensures(|a: u32, b: u32| a <= b);
            broadcast use vstd::seq_lib::group_to_multiset_ensures;

            assert(layer_sizes@.to_multiset().len() == layer_sizes@.len());
        }
    }
    let requested: u32 = tolerated_size(requested_size);
    let mut index: usize = 0;
    while index + 1 < layer_sizes.len() && !(layer_sizes[index] >= requested && layer_sizes[index]
        != layer_sizes[index + 1])
        invariant
            index < layer_sizes@.len(),
            fitting_place(layer_sizes@, requested as nat, 0) == fitting_place(
                layer_sizes@,
                requested as nat,
                index as int,
            ),
        decreases layer_sizes.len() - index,
    {
        index += 1;
    }
    if index == 0 {
        VideoQualityLite::Low
    } else if index == 1 {
        VideoQualityLite::Medium
    } else {
        VideoQualityLite::High
    }
}

proof fn lemma_unit_grows(smaller: nat, larger: nat)
    requires
        smaller <= larger,
    ensures
        0 < unit_of(smaller) <= unit_of(larger),
        unit_of(smaller) < unit_of(larger) ==> 2 * unit_of(smaller) <= unit_of(larger),
        smaller < unit_of(smaller) * DIGITS_LIMIT,
    decreases larger,
{
    lemma_unit_is_bounded(smaller);
    lemma_unit_is_bounded(larger);
    if larger >= DIGITS_LIMIT {
        lemma_unit_is_bounded(larger / 2);
        if smaller >= DIGITS_LIMIT {
            lemma_unit_grows(smaller / 2, larger / 2);
        }
    }
}

proof fn lemma_multiple_grows(smaller: nat, larger: nat, unit: nat)
    requires
        smaller <= larger,
        unit > 0,
    ensures
        nearest_multiple(smaller, unit) <= nearest_multiple(larger, unit),
        larger / unit * unit <= nearest_multiple(larger, unit),
        nearest_multiple(smaller, unit) <= (smaller / unit + 1) * unit,
{
    let low = smaller / unit;
    let high = larger / unit;
    vstd::arithmetic::div_mod::lemma_fundamental_div_mod(smaller as int, unit as int);
    vstd::arithmetic::div_mod::lemma_fundamental_div_mod(larger as int, unit as int);
    vstd::arithmetic::div_mod::lemma_div_is_ordered(smaller as int, larger as int, unit as int);
    assert(unit * low == low * unit && unit * high == high * unit) by (nonlinear_arith);
    assert((low + 1) * unit == low * unit + unit) by (nonlinear_arith);
    assert((high + 1) * unit == high * unit + unit) by (nonlinear_arith);
    if low < high {
        assert((low + 1) * unit <= high * unit) by (nonlinear_arith)
            requires
                low + 1 <= high,
        ;
    }
}

proof fn lemma_rounding_keeps_order(smaller: nat, larger: nat)
    requires
        smaller <= larger,
    ensures
        rounded(smaller) <= rounded(larger),
{
    let low = unit_of(smaller);
    let high = unit_of(larger);
    lemma_unit_grows(smaller, larger);
    lemma_multiple_grows(smaller, larger, low);
    lemma_multiple_grows(smaller, larger, high);
    lemma_multiple_grows(larger, larger, high);
    if low < high {
        lemma_unit_is_bounded(larger);
        let half: nat = DIGITS_LIMIT as nat / 2;
        assert(smaller / low < DIGITS_LIMIT) by (nonlinear_arith)
            requires
                smaller < low * DIGITS_LIMIT,
                low > 0,
        ;
        assert((smaller / low + 1) * low <= DIGITS_LIMIT * low) by (nonlinear_arith)
            requires
                smaller / low + 1 <= DIGITS_LIMIT,
        ;
        assert(larger / high >= half) by (nonlinear_arith)
            requires
                larger >= half * high,
                high > 0,
        ;
        assert(larger / high * high >= half * high) by (nonlinear_arith)
            requires
                larger / high >= half,
        ;
        assert(half * high >= half * (2 * low)) by (nonlinear_arith)
            requires
                high >= 2 * low,
        ;
    }
}

/// The tolerated size grows with the requested one.
pub proof fn law_larger_requests_tolerate_no_less(smaller: u32, larger: u32)
    requires
        smaller <= larger,
    ensures
        tolerated(smaller) <= tolerated(larger),
{
    lemma_rounding_keeps_order(smaller as nat, larger as nat);
    let low = rounded(smaller as nat);
    let high = rounded(larger as nat);
    let factor = LAYER_SELECTION_TOLERANCE as nat;
    assert(low * factor <= high * factor) by (nonlinear_arith)
        requires
            low <= high,
    ;
    lemma_rounding_keeps_order(low * factor, high * factor);
}

/// Asking for a larger size never lowers the quality, and the quality is never off.
pub proof fn law_larger_requests_get_no_lower_quality(
    track_width: u32,
    track_height: u32,
    smaller_width: u32,
    smaller_height: u32,
    larger_width: u32,
    larger_height: u32,
    layer_heights: Seq<u32>,
)
    requires
        smaller_width <= larger_width,
        smaller_height <= larger_height,
    ensures
        ({
            let smaller = fitting_quality(
                track_width,
                track_height,
                smaller_width,
                smaller_height,
                layer_heights,
            );
            let larger = fitting_quality(
                track_width,
                track_height,
                larger_width,
                larger_height,
                layer_heights,
            );
            &&& smaller.rank() <= larger.rank()
            &&& smaller !is Off
            &&& larger !is Off
        }),
{
    let usual = seq![180u32, 360u32, track_size(track_width, track_height, layer_heights)];
    let low = tolerated(smaller_height);
    let high = tolerated(larger_height);
    law_larger_requests_tolerate_no_less(smaller_width, larger_width);
    law_larger_requests_tolerate_no_less(smaller_height, larger_height);
    law_larger_requests_get_no_smaller_layer(in_order(layer_heights), low, high, 0);
    law_larger_requests_get_no_smaller_layer(usual, low, high, 0);
    law_larger_requests_get_no_smaller_layer(
        usual,
        tolerated(smaller_width),
        tolerated(larger_width),
        0,
    );
    lemma_place_is_ahead(in_order(layer_heights), low, 0);
    lemma_place_is_ahead(usual, low, 0);
    lemma_place_is_ahead(usual, tolerated(smaller_width), 0);
}

/// What is asked for in a larger size is never served from a smaller layer.
pub proof fn law_larger_requests_get_no_smaller_layer(
    sizes: Seq<u32>,
    smaller: nat,
    larger: nat,
    from: int,
)
    requires
        smaller <= larger,
    ensures
        fitting_place(sizes, smaller, from) <= fitting_place(sizes, larger, from),
    decreases sizes.len() - from,
{
    if from < sizes.len() - 1 {
        law_larger_requests_get_no_smaller_layer(sizes, smaller, larger, from + 1);
        lemma_place_is_ahead(sizes, larger, from + 1);
    }
}

proof fn lemma_place_is_ahead(sizes: Seq<u32>, requested: nat, from: int)
    ensures
        fitting_place(sizes, requested, from) >= from,
    decreases sizes.len() - from,
{
    if from < sizes.len() - 1 {
        lemma_place_is_ahead(sizes, requested, from + 1);
    }
}

/// A tenth is tolerated: what is large enough is nine tenths of what was asked for, to within the
/// rounding.
pub proof fn law_a_tenth_is_tolerated(size: u32)
    requires
        size < 0x10_0000,
    ensures
        9 * size - 20 <= 10 * tolerated(size) <= 9 * size + 10,
{
    let x = size as nat * LAYER_SELECTION_TOLERANCE as nat;
    lemma_unit_is_bounded(size as nat);
    assert(rounded(size as nat) == size as nat) by {
        assert(nearest_multiple(size as nat, 1) == size as nat);
    }
    lemma_unit_is_bounded(x);
    lemma_rounded_is_close(x);
    lemma_multiple_grows(x, x, unit_of(x));
    let unit = unit_of(x) as int;
    vstd::arithmetic::div_mod::lemma_fundamental_div_mod(x as int, unit);
    vstd::arithmetic::div_mod::lemma_mod_bound(x as int, unit);
    assert(unit * (x as int / unit) == x as int / unit * unit) by (nonlinear_arith);
    assert(rounded(x) > x - unit);
    assert(unit <= 0x20_0000);
}

/// The quality that is chosen is the first one that is large enough, and not of the same size as
/// the next; the highest where none is.
pub proof fn law_first_fitting_size_is_chosen(sizes: Seq<u32>, requested: nat, from: int)
    requires
        0 <= from < sizes.len(),
    ensures
        ({
            let place = fitting_place(sizes, requested, from);
            &&& from <= place < sizes.len()
            &&& place < sizes.len() - 1 ==> sizes[place] >= requested && sizes[place]
                != sizes[place + 1]
            &&& forall|i: int|
                from <= i < place ==> (#[trigger] sizes[i]) < requested || sizes[i] == sizes[i + 1]
        }),
    decreases sizes.len() - from,
{
    if from < sizes.len() - 1 {
        law_first_fitting_size_is_chosen(sizes, requested, from + 1);
    }
}

/// The sizes are put in ascending order, and none is lost or added.
pub proof fn law_sizes_are_put_in_order(sizes: Seq<u32>, i: int, j: int)
    ensures
        in_order(sizes).len() == sizes.len(),
        in_order(sizes).to_multiset() == sizes.to_multiset(),
        0 <= i <= j < sizes.len() ==> in_order(sizes)[i] <= in_order(sizes)[j],
{
    let leq = |a: u32, b: u32| a <= b;
    assert(vstd::relations::total_ordering(leq));
    sizes.lemma_sort_by_ensures(leq);
    vstd::seq_lib::to_multiset_len(sizes);
    vstd::seq_lib::to_multiset_len(in_order(sizes));
    if 0 <= i < j < sizes.len() {
        assert(leq(in_order(sizes)[i], in_order(sizes)[j]));
    }
}

/// Where the heights of the layers are known they decide, by height. Else the usual sizes do: by
/// width for a track that is higher than wide, else by height. A track of which nothing is known
/// gets the highest quality.
pub proof fn law_known_sizes_decide(
    track_width: u32,
    track_height: u32,
    requested_width: u32,
    requested_height: u32,
    layer_heights: Seq<u32>,
)
    ensures
        ({
            let quality = fitting_quality(
                track_width,
                track_height,
                requested_width,
                requested_height,
                layer_heights,
            );
            let requested = if track_width < track_height {
                tolerated(requested_width)
            } else {
                tolerated(requested_height)
            };
            &&& layer_heights.len() == 0 && track_height == 0 ==> quality is High
            &&& layer_heights.len() > 0 && layer_heights[0] > 0 ==> quality == quality_at(
                fitting_place(in_order(layer_heights), tolerated(requested_height), 0),
            )
            &&& layer_heights.len() == 0 && track_height > 0 ==> {
                let shorter = if track_width < track_height {
                    track_width
                } else {
                    track_height
                };
                &&& requested <= 180 ==> quality is Low
                &&& 180 < requested <= 360 && shorter != 360 ==> quality is Medium
                &&& requested > 360 || (requested > 180 && shorter == 360) ==> quality is High
            }
        }),
        quality_at(0) is Low,
        quality_at(1) is Medium,
        quality_at(2) is High,
{
    reveal_with_fuel(fitting_place, 3);
}

/// The last size that is known is the last one that is not zero.
pub proof fn law_last_known_size(sizes: Seq<u32>, size: u32)
    ensures
        last_known_size(Seq::empty()) is None,
        size > 0 ==> last_known_size(sizes.push(size)) == Some(size),
        last_known_size(sizes.push(0)) == last_known_size(sizes),
{
    assert(sizes.push(size).drop_last() =~= sizes);
    assert(sizes.push(0).drop_last() =~= sizes);
}

/// A track's size is its shorter side, and where that is not known the last known size of a layer.
pub proof fn law_track_has_the_size_of_its_shorter_side(
    track_width: u32,
    track_height: u32,
    layer_heights: Seq<u32>,
)
    ensures
        0 < track_width <= track_height ==> track_size(track_width, track_height, layer_heights)
            == track_width,
        0 < track_height <= track_width ==> track_size(track_width, track_height, layer_heights)
            == track_height,
        track_width == 0 || track_height == 0 ==> (last_known_size(layer_heights) matches Some(size)
            ==> track_size(track_width, track_height, layer_heights) == size),
{
}

} // verus!
