//! The frame rates of VP8, whose frames are numbered.
use vstd::prelude::*;

use crate::frame_rate::{
    clamp_layer, min_frames_for_calculation, new_frames, new_rates, sn16_lt, FrameInfo, FrameRate,
    MAX_TEMPORAL,
};

verus! {

/// How many frames are kept.
pub const KEPT_FRAMES: usize = 64;

/// How many temporal layers there are.
pub const LAYERS: usize = 4;

/// What is read of a packet.
#[derive(Debug, Clone, Copy)]
pub struct VpxSample {
    pub timestamp: u32,
    pub frame_number: u16,
    pub temporal: i32,
}

/// Finds the rate of each temporal layer, together with the layers below it.
pub struct FrameRateCalculatorVP8Lite {
    pub frame_rates: Vec<Option<FrameRate>>,
    pub first_frames: Vec<Option<FrameInfo>>,
    pub second_frames: Vec<Option<FrameInfo>>,
    pub fn_received: Vec<Option<FrameInfo>>,
    pub base_frame: Option<FrameInfo>,
    pub completed: bool,
}

/// The contents of a [`FrameRateCalculatorVP8Lite`].
#[verifier::ext_equal]
pub struct Vp8View {
    pub rates: Seq<Option<FrameRate>>,
    pub first: Seq<Option<FrameInfo>>,
    pub second: Seq<Option<FrameInfo>>,
    pub received: Seq<Option<FrameInfo>>,
    pub base: Option<FrameInfo>,
    pub completed: bool,
}

/// The frames of the temporal layer and those below that follow one another without a gap, from
/// the place up to `end`: how many they are, and the timestamp of the last one.
pub open spec fn counted(
    received: Seq<Option<FrameInfo>>,
    place: int,
    end: int,
    temporal: int,
    found: (nat, u32),
) -> (nat, u32)
    decreases end - place,
{
    if place >= end {
        found
    } else {
        match crate::frame_rate::frame_at(received, place) {
            None => found,
            Some(frame) => counted(
                received,
                place + 1,
                end,
                temporal,
                if frame.temporal <= temporal {
                    (found.0 + 1, frame.timestamp)
                } else {
                    found
                },
            ),
        }
    }
}

impl Vp8View {
    /// Nothing is known yet.
    pub open spec fn fresh() -> Self {
        Vp8View {
            rates: crate::frame_rate::blank_rates(LAYERS as nat),
            first: crate::frame_rate::blank_frames(LAYERS as nat),
            second: crate::frame_rate::blank_frames(LAYERS as nat),
            received: crate::frame_rate::blank_frames(KEPT_FRAMES as nat),
            base: None,
            completed: false,
        }
    }

    /// The frames are forgotten.
    pub open spec fn forgotten(self) -> Self {
        Vp8View { rates: self.rates, completed: self.completed, ..Vp8View::fresh() }
    }

    /// The frame of a packet.
    pub open spec fn frame(sample: VpxSample) -> FrameInfo {
        FrameInfo {
            timestamp: sample.timestamp,
            frame_number: sample.frame_number,
            temporal: crate::frame_rate::clamped(sample.temporal, MAX_TEMPORAL as int) as i32,
            spatial: 0,
        }
    }

    /// The frame begins a new count.
    pub open spec fn begun(self, frame: FrameInfo) -> Self {
        Vp8View {
            base: Some(frame),
            received: self.received.update(0, Some(frame)),
            first: self.first.update(frame.temporal as int, Some(frame)),
            ..self
        }
    }

    /// The frame is a later one of its layer than those that are known.
    pub open spec fn is_later(self, frame: FrameInfo) -> bool {
        let ahead = frame.frame_number.wrapping_sub(
            self.first[frame.temporal as int]->0.frame_number,
        );
        (self.second[frame.temporal as int] matches Some(second) ==> crate::frame_rate::is_before16(
            second.frame_number,
            frame.frame_number,
        )) && 0 < ahead < 0x4000
    }

    /// The frame is kept at its place.
    pub open spec fn kept(self, frame: FrameInfo, place: int) -> Self {
        let layer = frame.temporal as int;
        let received = Vp8View { received: self.received.update(place, Some(frame)), ..self };
        if self.first[layer] is None {
            Vp8View { first: self.first.update(layer, Some(frame)), ..received }
        } else if self.is_later(frame) {
            Vp8View { second: self.second.update(layer, Some(frame)), ..received }
        } else {
            received
        }
    }

    /// The frames of the layer that can be counted: how many they are, and in how much time they
    /// came.
    pub open spec fn count_of(self, temporal: int) -> Option<(nat, u32)> {
        match (self.first[temporal], self.second[temporal], self.base) {
            (Some(first), Some(second), Some(base)) => Some(
                counted(
                    self.received,
                    first.frame_number.wrapping_sub(base.frame_number).wrapping_add(1) as int,
                    second.frame_number.wrapping_sub(base.frame_number).wrapping_add(1) as int,
                    temporal,
                    (0, first.timestamp),
                ),
            ),
            _ => None,
        }
    }

    /// The rate of the layer, if it can be told.
    pub open spec fn rate_of(self, temporal: int) -> Option<FrameRate> {
        match self.count_of(temporal) {
            Some((frames, last)) => if frames >= crate::frame_rate::frames_needed(temporal) && last
                > self.first[temporal]->0.timestamp {
                Some(
                    FrameRate {
                        frames: frames as usize,
                        ticks: (last - self.first[temporal]->0.timestamp) as u32,
                    },
                )
            } else {
                None
            },
            None => None,
        }
    }

    /// The rates of the first layers, and how many of the layers are settled: those whose rates
    /// are known, and those above a settled one that have no frames.
    pub open spec fn settled(self, layers: nat) -> (Seq<Option<FrameRate>>, nat)
        decreases layers,
    {
        if layers == 0 {
            (self.rates, 0)
        } else {
            let layer = layers - 1;
            let (rates, count) = self.settled(layer as nat);
            if rates[layer] is Some || (count > 0 && self.first[layer] is None) {
                (rates, count + 1)
            } else if self.rate_of(layer) is Some {
                (rates.update(layer, self.rate_of(layer)), count + 1)
            } else {
                (rates, count)
            }
        }
    }

    /// The rates are told as far as they can be.
    pub open spec fn calculated(self) -> Self {
        let (rates, count) = self.settled(LAYERS as nat);
        if count == LAYERS {
            Vp8View { rates, completed: true, ..self.forgotten() }
        } else {
            Vp8View { rates, ..self }
        }
    }

    /// The calculator after a packet.
    pub open spec fn after(self, sample: VpxSample) -> Self {
        let frame = Self::frame(sample);
        if self.completed {
            self
        } else if self.base is None {
            self.begun(frame)
        } else {
            let place = sample.frame_number.wrapping_sub(self.base->0.frame_number);
            if place == 0 || place > 0x4000 {
                self
            } else if place >= KEPT_FRAMES {
                self.forgotten()
            } else if self.received[place as int] is Some {
                self
            } else {
                self.kept(frame, place as int).calculated()
            }
        }
    }
}

impl View for FrameRateCalculatorVP8Lite {
    type V = Vp8View;

    open spec fn view(&self) -> Vp8View {
        Vp8View {
            rates: self.frame_rates@,
            first: self.first_frames@,
            second: self.second_frames@,
            received: self.fn_received@,
            base: self.base_frame,
            completed: self.completed,
        }
    }
}

impl FrameRateCalculatorVP8Lite {
    /// The tables have their sizes.
    pub open spec fn wf(self) -> bool {
        &&& self.frame_rates@.len() == LAYERS
        &&& self.first_frames@.len() == LAYERS
        &&& self.second_frames@.len() == LAYERS
        &&& self.fn_received@.len() == KEPT_FRAMES
    }

    /// Nothing is known yet.
    pub fn new() -> (calculator: Self)
        ensures
            calculator.wf(),
            calculator@ == Vp8View::fresh(),
    {
        FrameRateCalculatorVP8Lite {
            frame_rates: new_rates(LAYERS),
            first_frames: new_frames(LAYERS),
            second_frames: new_frames(LAYERS),
            fn_received: new_frames(KEPT_FRAMES),
            base_frame: None,
            completed: false,
        }
    }

    /// A packet has come. Tells whether all rates are known.
    pub fn recv_packet(&mut self, sample: VpxSample) -> (complete: bool)
        requires
            old(self).wf(),
        ensures
            final(self).wf(),
            final(self)@ == old(self)@.after(sample),
            complete == final(self)@.completed,
    {
        if self.completed {
            return true;
        }
        let temporal: usize = clamp_layer(sample.temporal, MAX_TEMPORAL);
        let frame: FrameInfo = FrameInfo {
            timestamp: sample.timestamp,
            frame_number: sample.frame_number,
            temporal: temporal as i32,
            spatial: 0,
        };
        let base: FrameInfo = match self.base_frame {
            Some(base) => base,
            None => {
                self.base_frame = Some(frame);
                self.fn_received[0] = Some(frame);
                self.first_frames[temporal] = Some(frame);
                return false;
            },
        };
        let place: u16 = sample.frame_number.wrapping_sub(base.frame_number);
        if place == 0 || place > 0x4000 {
            return false;
        }
        if place as usize >= KEPT_FRAMES {
            self.reset();
            return false;
        }
        if self.fn_received[place as usize].is_some() {
            return false;
        }
        self.fn_received[place as usize] = Some(frame);
        match self.first_frames[temporal] {
            None => {
                self.first_frames[temporal] = Some(frame);
            },
            Some(first) => {
                let later: bool = match self.second_frames[temporal] {
                    Some(second) => sn16_lt(second.frame_number, sample.frame_number),
                    None => true,
                };
                let ahead: u16 = sample.frame_number.wrapping_sub(first.frame_number);
                if later && ahead != 0 && ahead < 0x4000 {
                    self.second_frames[temporal] = Some(frame);
                }
            },
        }
        assert(self@ == old(self)@.kept(frame, place as int));
        self.calc()
    }

    /// Tells the rates as far as that can be done. Tells whether all of them are known.
    pub fn calc(&mut self) -> (complete: bool)
        requires
            old(self).wf(),
            !old(self).completed,
        ensures
            final(self).wf(),
            final(self)@ == old(self)@.calculated(),
            complete == final(self)@.completed,
    {
        let ghost before = self@;
        let mut count: usize = 0;
        let mut layer: usize = 0;
        while layer < LAYERS
            invariant
                self.wf(),
                layer <= LAYERS,
                count <= layer,
                self@ == (Vp8View { rates: before.settled(layer as nat).0, ..before }),
                count == before.settled(layer as nat).1,
            decreases LAYERS - layer,
        {
            let known: bool = self.frame_rates[layer].is_some();
            if known || (count > 0 && self.first_frames[layer].is_none()) {
                count += 1;
            } else if let Some(rate) = self.find_rate(layer) {
                self.frame_rates[layer] = Some(rate);
                count += 1;
            }
            layer += 1;
        }
        if count == LAYERS {
            self.completed = true;
            self.reset();
            return true;
        }
        false
    }

    fn find_rate(&self, layer: usize) -> (rate: Option<FrameRate>)
        requires
            self.wf(),
            layer < LAYERS,
        ensures
            rate == self@.rate_of(layer as int),
    {
        let base: FrameInfo = match self.base_frame {
            Some(base) => base,
            None => {
                return None;
            },
        };
        let first: FrameInfo = match self.first_frames[layer] {
            Some(first) => first,
            None => {
                return None;
            },
        };
        let second: FrameInfo = match self.second_frames[layer] {
            Some(second) => second,
            None => {
                return None;
            },
        };
        let start: u16 = first.frame_number.wrapping_sub(base.frame_number).wrapping_add(1);
        let end: u16 = second.frame_number.wrapping_sub(base.frame_number).wrapping_add(1);
        let (frames, last): (usize, u32) = self.count_frames(start, end, layer, first.timestamp);
        if frames >= min_frames_for_calculation(layer) && last > first.timestamp {
            Some(FrameRate { frames, ticks: last - first.timestamp })
        } else {
            None
        }
    }

    fn count_frames(&self, start: u16, end: u16, layer: usize, first: u32) -> (found: (usize, u32))
        requires
            self.wf(),
            layer < LAYERS,
        ensures
            (found.0 as nat, found.1) == counted(
                self@.received,
                start as int,
                end as int,
                layer as int,
                (0, first),
            ),
    {
        let ghost goal = counted(
            self@.received,
            start as int,
            end as int,
            layer as int,
            (0, first),
        );
        let mut frames: usize = 0;
        let mut last: u32 = first;
        let mut place: u16 = start;
        while place < end
            invariant
                self.wf(),
                layer < LAYERS,
                start <= place,
                frames <= place - start,
                goal == counted(
                    self@.received,
                    start as int,
                    end as int,
                    layer as int,
                    (0, first),
                ),
                counted(
                    self@.received,
                    place as int,
                    end as int,
                    layer as int,
                    (frames as nat, last),
                ) == goal,
            decreases end - place,
        {
            let frame: Option<FrameInfo> = if (place as usize) < self.fn_received.len() {
                self.fn_received[place as usize]
            } else {
                None
            };
            match frame {
                None => {
                    return (frames, last);
                },
                Some(frame) => {
                    if frame.temporal <= layer as i32 {
                        frames += 1;
                        last = frame.timestamp;
                    }
                },
            }
            place += 1;
        }
        (frames, last)
    }

    /// The rates that are known.
    pub fn frame_rates(&self) -> (rates: &Vec<Option<FrameRate>>)
        ensures
            rates@ == self@.rates,
    {
        &self.frame_rates
    }

    /// Whether all rates are known.
    pub fn completed(&self) -> (completed: bool)
        ensures
            completed == self@.completed,
    {
        self.completed
    }

    /// Forgets the frames.
    pub fn reset(&mut self)
        requires
            old(self).wf(),
        ensures
            final(self).wf(),
            final(self)@ == old(self)@.forgotten(),
    {
        self.first_frames = new_frames(LAYERS);
        self.second_frames = new_frames(LAYERS);
        self.fn_received = new_frames(KEPT_FRAMES);
        self.base_frame = None;
    }
}

/// A rate is told only of enough frames, that took some time.
pub proof fn law_rate_takes_enough_frames(calculator: Vp8View, temporal: int)
    requires
        calculator.rate_of(temporal) is Some,
    ensures
        calculator.rate_of(temporal)->0.frames >= crate::frame_rate::frames_needed(temporal),
        calculator.rate_of(temporal)->0.ticks > 0,
{
    let first = calculator.first[temporal]->0;
    let second = calculator.second[temporal]->0;
    let base = calculator.base->0;
    lemma_count_is_bounded(
        calculator.received,
        first.frame_number.wrapping_sub(base.frame_number).wrapping_add(1) as int,
        second.frame_number.wrapping_sub(base.frame_number).wrapping_add(1) as int,
        temporal,
        (0, first.timestamp),
    );
}

proof fn lemma_count_is_bounded(
    received: Seq<Option<FrameInfo>>,
    place: int,
    end: int,
    temporal: int,
    found: (nat, u32),
)
    ensures
        counted(received, place, end, temporal, found).0 <= found.0 + if place < end {
            end - place
        } else {
            0
        },
    decreases end - place,
{
    if place < end {
        if let Some(frame) = crate::frame_rate::frame_at(received, place) {
            lemma_count_is_bounded(
                received,
                place + 1,
                end,
                temporal,
                if frame.temporal <= temporal {
                    (found.0 + 1, frame.timestamp)
                } else {
                    found
                },
            );
        }
    }
}

/// Once all rates are known they stay.
pub proof fn law_complete_rates_stay(calculator: Vp8View, sample: VpxSample)
    requires
        calculator.completed,
    ensures
        calculator.after(sample) == calculator,
{
}

/// Frames that follow one another without a gap are all counted where they are of the layer or
/// below, and the last of them gives the time.
pub proof fn law_frames_of_the_layer_are_counted(
    received: Seq<Option<FrameInfo>>,
    place: int,
    end: int,
    temporal: int,
    found: (nat, u32),
)
    requires
        0 <= place < end <= received.len(),
        forall|i: int|
            place <= i < end ==> (#[trigger] received[i]) is Some && received[i]->Some_0.temporal
                <= temporal,
    ensures
        counted(received, place, end, temporal, found).0 == found.0 + (end - place),
        counted(received, place, end, temporal, found).1 == received[end - 1]->Some_0.timestamp,
    decreases end - place,
{
    reveal_with_fuel(counted, 2);
    assert(received[place] is Some);
    if place + 1 < end {
        law_frames_of_the_layer_are_counted(
            received,
            place + 1,
            end,
            temporal,
            (found.0 + 1, received[place]->Some_0.timestamp),
        );
    }
}

/// A frame that is missing ends the count, and one of a higher layer is passed over.
pub proof fn law_gap_ends_the_count(
    received: Seq<Option<FrameInfo>>,
    place: int,
    end: int,
    temporal: int,
    found: (nat, u32),
)
    requires
        0 <= place < end <= received.len(),
    ensures
        received[place] is None ==> counted(received, place, end, temporal, found) == found,
        received[place] matches Some(frame) ==> (frame.temporal > temporal ==> counted(
            received,
            place,
            end,
            temporal,
            found,
        ) == counted(received, place + 1, end, temporal, found)),
{
}

/// The first packet begins the count. After it one that is not ahead, or too far ahead to be told
/// from one behind, or whose frame is known, changes nothing; one that is ahead of all that is kept
/// makes the frames be forgotten, but not the rates.
pub proof fn law_frames_are_kept_by_their_number(calculator: Vp8View, sample: VpxSample)
    requires
        !calculator.completed,
        calculator.received.len() == 64,
        calculator.first.len() == 4,
    ensures
        ({
            let after = calculator.after(sample);
            let frame = Vp8View::frame(sample);
            &&& calculator.base is None ==> after.base == Some(frame) && after.received[0] == Some(
                frame,
            ) && after.first[frame.temporal as int] == Some(frame) && after.rates
                == calculator.rates
            &&& calculator.base matches Some(base) ==> {
                let ahead = sample.frame_number.wrapping_sub(base.frame_number);
                &&& ahead == 0 || ahead > 0x4000 ==> after == calculator
                &&& 64 <= ahead <= 0x4000 ==> after.base is None && after.rates == calculator.rates
                    && !after.completed
                &&& 0 < ahead < 64 && calculator.received[ahead as int] is Some ==> after
                    == calculator
            }
        }),
{
}

/// A frame has the number and the time of its packet, and its layer as far as there are layers.
pub proof fn law_frame_is_that_of_its_packet(sample: VpxSample)
    ensures
        Vp8View::frame(sample).timestamp == sample.timestamp,
        Vp8View::frame(sample).frame_number == sample.frame_number,
        0 <= sample.temporal <= 3 ==> Vp8View::frame(sample).temporal == sample.temporal,
        sample.temporal < 0 ==> Vp8View::frame(sample).temporal == 0,
        sample.temporal > 3 ==> Vp8View::frame(sample).temporal == 3,
{
}

/// A frame that is kept is at its place; the first one of its layer is its first, and one that is
/// ahead of the first and of every other its second.
pub proof fn law_kept_frames_bound_their_layer(
    calculator: Vp8View,
    frame: FrameInfo,
    place: int,
)
    requires
        calculator.received.len() == 64,
        calculator.first.len() == 4,
        calculator.second.len() == 4,
        0 < place < 64,
        0 <= frame.temporal < 4,
    ensures
        ({
            let after = calculator.kept(frame, place);
            let layer = frame.temporal as int;
            &&& after.received[place] == Some(frame)
            &&& calculator.first[layer] is None ==> after.first[layer] == Some(frame)
                && after.second == calculator.second
            &&& calculator.first[layer] is Some ==> after.first == calculator.first
            &&& calculator.first[layer] is Some && calculator.second[layer] is None && 0
                < frame.frame_number.wrapping_sub(
                calculator.first[layer]->Some_0.frame_number,
            ) < 0x4000 ==> after.second[layer] == Some(frame)
            &&& calculator.second[layer] matches Some(second) ==> (frame.frame_number.wrapping_sub(
                second.frame_number,
            ) == 0 || frame.frame_number.wrapping_sub(second.frame_number) >= 0x8000
                ==> after.second == calculator.second)
            &&& after.rates == calculator.rates
            &&& after.base == calculator.base
        }),
{
}

/// The rate of a layer is told exactly where its frames were counted, are enough, and took some
/// time; it is their number, over that time.
pub proof fn law_rate_is_frames_over_time(calculator: Vp8View, temporal: int)
    requires
        calculator.count_of(temporal) matches Some((frames, _)) ==> frames <= usize::MAX,
    ensures
        calculator.count_of(temporal) is None ==> calculator.rate_of(temporal) is None,
        calculator.count_of(temporal) matches Some((frames, last)) ==> {
            let first = calculator.first[temporal]->Some_0.timestamp;
            &&& frames >= crate::frame_rate::frames_needed(temporal) && last > first ==> (
            calculator.rate_of(temporal) matches Some(rate) && rate.frames == frames && rate.ticks
                == last - first)
            &&& frames < crate::frame_rate::frames_needed(temporal) || last <= first
                ==> calculator.rate_of(temporal) is None
        },
        calculator.first[temporal] is None || calculator.second[temporal] is None
            || calculator.base is None ==> calculator.count_of(temporal) is None,
{
}

/// A rate that is known stays, and one that can be told is told.
pub proof fn law_rates_are_settled(calculator: Vp8View, layers: nat, layer: int)
    requires
        calculator.rates.len() == 4,
        layers <= 4,
        0 <= layer < 4,
    ensures
        calculator.settled(layers).0.len() == 4,
        calculator.settled(layers).1 <= layers,
        calculator.rates[layer] is Some ==> calculator.settled(layers).0[layer]
            == calculator.rates[layer],
        layer >= layers ==> calculator.settled(layers).0[layer] == calculator.rates[layer],
        layer < layers && calculator.rates[layer] is None && calculator.first[layer] is Some
            && calculator.rate_of(layer) is Some ==> calculator.settled(layers).0[layer]
            == calculator.rate_of(layer),
        calculator.settled(layers).0[layer] is Some ==> calculator.rates[layer] is Some
            || calculator.settled(layers).0[layer] == calculator.rate_of(layer),
    decreases layers,
{
    if layers > 0 {
        law_rates_are_settled(calculator, (layers - 1) as nat, layer);
        law_rates_are_settled(calculator, (layers - 1) as nat, layers - 1);
    }
}

/// The count is over exactly where every layer is settled; the frames are forgotten then.
pub proof fn law_settled_layers_complete_the_count(calculator: Vp8View)
    requires
        !calculator.completed,
    ensures
        calculator.calculated().rates == calculator.settled(4).0,
        calculator.settled(4).1 == 4 ==> calculator.calculated().completed
            && calculator.calculated().base is None,
        calculator.settled(4).1 != 4 ==> !calculator.calculated().completed
            && calculator.calculated().base == calculator.base
            && calculator.calculated().received == calculator.received,
{
}

} // verus!
