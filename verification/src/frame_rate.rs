//! How many frames a second the layers of a video have.
use vstd::prelude::*;

pub mod dependency_descriptor;
pub mod h26x;
pub mod vp8;

verus! {

/// How many timestamp units a second has.
pub const CLOCK_RATE: u32 = 90_000;

/// The highest spatial layer.
pub const MAX_SPATIAL: usize = 2;

/// The highest temporal layer.
pub const MAX_TEMPORAL: usize = 3;

/// How many frames come in how many timestamp units: the frame rate is their quotient.
#[derive(Debug, Clone, Copy, PartialEq, Eq, Structural)]
pub struct FrameRate {
    pub frames: usize,
    pub ticks: u32,
}

/// How many frames it takes to tell the rate of a temporal layer.
pub open spec fn frames_needed(temporal: int) -> nat {
    if temporal == 0 {
        8
    } else if temporal == 1 {
        15
    } else if temporal == 2 {
        40
    } else {
        60
    }
}

/// How many frames it takes to tell the rate of a temporal layer.
pub fn min_frames_for_calculation(temporal: usize) -> (frames: usize)
    ensures
        frames == frames_needed(temporal as int),
{
    if temporal == 0 {
        8
    } else if temporal == 1 {
        15
    } else if temporal == 2 {
        40
    } else {
        60
    }
}

/// `a` comes before `b` on the circle of 16-bit numbers.
pub open spec fn is_before16(a: u16, b: u16) -> bool {
    a.wrapping_sub(b) > 0x8000
}

/// `a` comes before `b` on the circle of 16-bit numbers.
pub fn sn16_lt(a: u16, b: u16) -> (before: bool)
    ensures
        before == is_before16(a, b),
{
    a.wrapping_sub(b) > 0x8000
}

/// `a` is `b`, or comes before it.
pub fn sn16_lt_or_equal(a: u16, b: u16) -> (before: bool)
    ensures
        before == (a == b || is_before16(a, b)),
{
    a == b || sn16_lt(a, b)
}

/// `a` comes before `b` on the circle of 32-bit numbers.
pub open spec fn is_before32(a: u32, b: u32) -> bool {
    a.wrapping_sub(b) > 0x8000_0000
}

/// `a` comes before `b` on the circle of 32-bit numbers.
pub fn sn32_lt(a: u32, b: u32) -> (before: bool)
    ensures
        before == is_before32(a, b),
{
    a.wrapping_sub(b) > 0x8000_0000
}

/// A frame.
#[derive(Debug, Clone, Copy, PartialEq, Eq, Structural)]
pub struct FrameInfo {
    pub timestamp: u32,
    pub frame_number: u16,
    pub temporal: i32,
    pub spatial: i32,
}

/// The number in the range from 0 to `max`.
pub open spec fn clamped(number: i32, max: int) -> int {
    if number < 0 {
        0
    } else if number > max {
        max
    } else {
        number as int
    }
}

/// The number in the range from 0 to `max`.
pub fn clamp_layer(number: i32, max: usize) -> (layer: usize)
    requires
        max <= MAX_TEMPORAL,
    ensures
        layer == clamped(number, max as int),
{
    if number < 0 {
        0
    } else if number as usize > max {
        max
    } else {
        number as usize
    }
}

/// A table without frames.
pub open spec fn blank_frames(size: nat) -> Seq<Option<FrameInfo>> {
    Seq::new(size, |i: int| None)
}

/// A table without frames.
pub fn new_frames(size: usize) -> (frames: Vec<Option<FrameInfo>>)
    ensures
        frames@ == blank_frames(size as nat),
{
    let mut frames: Vec<Option<FrameInfo>> = Vec::new();
    while frames.len() < size
        invariant
            frames@.len() <= size,
            frames@ == blank_frames(frames@.len()),
        decreases size - frames.len(),
    {
        frames.push(None);
        assert(frames@ =~= blank_frames(frames@.len()));
    }
    frames
}

/// A table without rates.
pub open spec fn blank_rates(size: nat) -> Seq<Option<FrameRate>> {
    Seq::new(size, |i: int| None)
}

/// A table without rates.
pub fn new_rates(size: usize) -> (rates: Vec<Option<FrameRate>>)
    ensures
        rates@ == blank_rates(size as nat),
{
    let mut rates: Vec<Option<FrameRate>> = Vec::new();
    while rates.len() < size
        invariant
            rates@.len() <= size,
            rates@ == blank_rates(rates@.len()),
        decreases size - rates.len(),
    {
        rates.push(None);
        assert(rates@ =~= blank_rates(rates@.len()));
    }
    rates
}

/// The frame at the place, if there is one.
pub open spec fn frame_at(frames: Seq<Option<FrameInfo>>, place: int) -> Option<FrameInfo> {
    if 0 <= place < frames.len() {
        frames[place]
    } else {
        None
    }
}

/// The rate of a temporal layer takes eight frames, fifteen, forty or sixty.
pub proof fn law_higher_layers_take_more_frames(temporal: int)
    ensures
        frames_needed(0) == 8,
        frames_needed(1) == 15,
        frames_needed(2) == 40,
        temporal >= 3 ==> frames_needed(temporal) == 60,
{
}

/// A number comes before another that is less than half a turn ahead of it, and not before one that
/// is behind it.
pub proof fn law_numbers_come_before_those_ahead(a: u16, b: u16, c: u32, d: u32)
    ensures
        is_before16(a, b) <==> 0 < b.wrapping_sub(a) < 0x8000,
        is_before32(c, d) <==> 0 < d.wrapping_sub(c) < 0x8000_0000,
        is_before16(a, b) ==> !is_before16(b, a),
        is_before32(c, d) ==> !is_before32(d, c),
{
}

/// A number within the range stays, and one outside of it becomes the nearest bound.
pub proof fn law_numbers_are_moved_into_range(number: i32, max: int)
    requires
        max >= 0,
    ensures
        0 <= clamped(number, max) <= max,
        0 <= number <= max ==> clamped(number, max) == number,
        number < 0 ==> clamped(number, max) == 0,
        number > max ==> clamped(number, max) == max,
{
}

/// A place in a table holds what it holds, and one outside of it nothing; a blank table holds
/// nothing anywhere.
pub proof fn law_places_outside_hold_nothing(
    frames: Seq<Option<FrameInfo>>,
    place: int,
    size: nat,
)
    ensures
        0 <= place < frames.len() ==> frame_at(frames, place) == frames[place],
        place < 0 || place >= frames.len() ==> frame_at(frames, place) is None,
        frame_at(blank_frames(size), place) is None,
        0 <= place < size ==> blank_rates(size)[place] is None,
{
}

} // verus!
