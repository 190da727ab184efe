//! The frame rates of layers that dependency descriptors tell apart.
use vstd::prelude::*;

use crate::frame_rate::{
    clamp_layer, min_frames_for_calculation, new_frames, new_rates, sn16_lt, FrameInfo, FrameRate,
    MAX_SPATIAL, MAX_TEMPORAL,
};

verus! {

/// How many frames are kept.
pub const KEPT_FRAMES: usize = 256;

/// How many temporal layers a spatial layer has.
pub const TEMPORAL_LAYERS: usize = 4;

/// How many pairs of layers there are.
pub const LAYERS: usize = 12;

/// What is read of a frame.
#[derive(Debug, Clone, Copy)]
pub struct DDFrameSample<'a> {
    pub timestamp: u32,
    pub frame_number: u16,
    pub spatial: i32,
    pub temporal: i32,
    pub frame_diffs: &'a [u16],
}

/// Finds the rate of each temporal layer of each spatial layer, together with the temporal
/// layers below it. The tables hold a row of temporal layers for each spatial layer.
pub struct FrameRateCalculatorDDLite {
    pub frame_rates: Vec<Option<FrameRate>>,
    pub first_frames: Vec<Option<FrameInfo>>,
    pub second_frames: Vec<Option<FrameInfo>>,
    pub fn_received: Vec<Option<FrameInfo>>,
    pub base_frame: Option<FrameInfo>,
    pub completed: bool,
    pub max_spatial: usize,
    pub max_temporal: usize,
}

/// The contents of a [`FrameRateCalculatorDDLite`].
#[verifier::ext_equal]
pub struct DDView {
    pub rates: Seq<Option<FrameRate>>,
    pub first: Seq<Option<FrameInfo>>,
    pub second: Seq<Option<FrameInfo>>,
    pub received: Seq<Option<FrameInfo>>,
    pub base: Option<FrameInfo>,
    pub completed: bool,
    pub max_spatial: nat,
    pub max_temporal: nat,
}

/// The place of the layers in the tables.
pub open spec fn slot(spatial: int, temporal: int) -> int {
    spatial * TEMPORAL_LAYERS + temporal
}

/// The frame is of the spatial layer, and of the temporal layer or one below.
pub open spec fn is_of(frame: Option<FrameInfo>, spatial: int, temporal: int) -> bool {
    frame matches Some(frame) && frame.spatial == spatial && frame.temporal <= temporal
}

/// The frames of the layers from the place up to and including `end`: how many they are, and the
/// timestamp of the last one.
pub open spec fn counted(
    received: Seq<Option<FrameInfo>>,
    place: int,
    end: int,
    spatial: int,
    temporal: int,
    found: (nat, u32),
) -> (nat, u32)
    decreases end + 1 - place,
{
    if place > end {
        found
    } else {
        let frame = crate::frame_rate::frame_at(received, place);
        counted(
            received,
            place + 1,
            end,
            spatial,
            temporal,
            if is_of(frame, spatial, temporal) {
                (found.0 + 1, frame->0.timestamp)
            } else {
                found
            },
        )
    }
}

/// How far the rates are told: the rates, how many layers are settled, and how many of them are
/// of the spatial layer at hand.
#[verifier::ext_equal]
pub struct Settled {
    pub rates: Seq<Option<FrameRate>>,
    pub count: nat,
    pub of_spatial: nat,
}

impl DDView {
    /// Nothing is known yet.
    pub open spec fn fresh(max_spatial: nat, max_temporal: nat) -> Self {
        DDView {
            rates: crate::frame_rate::blank_rates(LAYERS as nat),
            first: crate::frame_rate::blank_frames(LAYERS as nat),
            second: crate::frame_rate::blank_frames(LAYERS as nat),
            received: crate::frame_rate::blank_frames(KEPT_FRAMES as nat),
            base: None,
            completed: false,
            max_spatial,
            max_temporal,
        }
    }

    /// The frames are forgotten.
    pub open spec fn forgotten(self) -> Self {
        DDView {
            rates: self.rates,
            completed: self.completed,
            ..DDView::fresh(self.max_spatial, self.max_temporal)
        }
    }

    /// The frame of a sample.
    pub open spec fn frame(sample: DDFrameSample) -> FrameInfo {
        FrameInfo {
            timestamp: sample.timestamp,
            frame_number: sample.frame_number,
            temporal: crate::frame_rate::clamped(sample.temporal, MAX_TEMPORAL as int) as i32,
            spatial: crate::frame_rate::clamped(sample.spatial, MAX_SPATIAL as int) as i32,
        }
    }

    /// The frame begins a new count.
    pub open spec fn begun(self, frame: FrameInfo) -> Self {
        DDView {
            base: Some(frame),
            received: self.received.update(0, Some(frame)),
            first: self.first.update(
                slot(frame.spatial as int, frame.temporal as int),
                Some(frame),
            ),
            ..self
        }
    }

    /// The frame is kept at its place.
    pub open spec fn kept(self, frame: FrameInfo, place: int) -> Self {
        let layer = slot(frame.spatial as int, frame.temporal as int);
        DDView {
            received: self.received.update(place, Some(frame)),
            first: if self.first[layer] is None {
                self.first.update(layer, Some(frame))
            } else {
                self.first
            },
            second: if self.second[layer] matches Some(second)
                ==> crate::frame_rate::is_before16(second.frame_number, frame.frame_number) {
                self.second.update(layer, Some(frame))
            } else {
                self.second
            },
            ..self
        }
    }

    /// The frames of the layers that can be counted: how many they are, and the timestamp of the
    /// last one.
    pub open spec fn count_of(self, spatial: int, temporal: int) -> Option<(nat, u32)> {
        let layer = slot(spatial, temporal);
        match (self.first[layer], self.second[layer], self.base) {
            (Some(first), Some(second), Some(base)) => if crate::frame_rate::is_before16(
                first.frame_number,
                second.frame_number,
            ) {
                Some(
                    counted(
                        self.received,
                        first.frame_number.wrapping_sub(base.frame_number) as int,
                        second.frame_number.wrapping_sub(base.frame_number) as int,
                        spatial,
                        temporal,
                        (0, first.timestamp),
                    ),
                )
            } else {
                None
            },
            _ => None,
        }
    }

    /// The rate of the layers, if it can be told.
    pub open spec fn rate_of(self, spatial: int, temporal: int) -> Option<FrameRate> {
        let first = self.first[slot(spatial, temporal)];
        match self.count_of(spatial, temporal) {
            Some((frames, last)) => if frames >= crate::frame_rate::frames_needed(temporal) && last
                > first->0.timestamp {
                Some(
                    FrameRate {
                        frames: frames as usize,
                        ticks: (last - first->0.timestamp) as u32,
                    },
                )
            } else {
                None
            },
            None => None,
        }
    }

    /// One temporal layer more is settled, if it can be: where its rate is known, or it is above
    /// a settled one and has no frames.
    pub open spec fn with_layer(self, done: Settled, spatial: int, temporal: int) -> Settled {
        let layer = slot(spatial, temporal);
        if done.rates[layer] is Some || (done.of_spatial > 0 && self.first[layer] is None) {
            Settled { count: done.count + 1, of_spatial: done.of_spatial + 1, ..done }
        } else if self.rate_of(spatial, temporal) is Some {
            Settled {
                rates: done.rates.update(layer, self.rate_of(spatial, temporal)),
                count: done.count + 1,
                ..done
            }
        } else {
            done
        }
    }

    /// The first temporal layers of a spatial layer are settled, as far as they can be.
    pub open spec fn with_row(self, done: Settled, spatial: int, layers: nat) -> Settled
        decreases layers,
    {
        if layers == 0 {
            Settled { of_spatial: 0, ..done }
        } else {
            self.with_layer(
                self.with_row(done, spatial, (layers - 1) as nat),
                spatial,
                layers - 1,
            )
        }
    }

    /// The first spatial layers are settled, as far as they can be.
    pub open spec fn settled(self, rows: nat) -> Settled
        decreases rows,
    {
        if rows == 0 {
            Settled { rates: self.rates, count: 0, of_spatial: 0 }
        } else {
            self.with_row(self.settled((rows - 1) as nat), rows - 1, self.max_temporal + 1)
        }
    }

    /// The rates are told as far as they can be.
    pub open spec fn calculated(self) -> Self {
        let done = self.settled(self.max_spatial + 1);
        if done.count == (self.max_spatial + 1) * (self.max_temporal + 1) {
            DDView { rates: done.rates, completed: true, ..self.forgotten() }
        } else {
            DDView { rates: done.rates, ..self }
        }
    }

    /// The calculator after a frame.
    pub open spec fn after(self, sample: DDFrameSample) -> Self {
        let frame = Self::frame(sample);
        if self.completed {
            self
        } else if self.base is None {
            self.begun(frame)
        } else {
            let place = sample.frame_number.wrapping_sub(self.base->0.frame_number);
            if place == 0 || place > 0x8000 {
                self
            } else if place >= KEPT_FRAMES {
                self.forgotten()
            } else if self.received[place as int] is Some {
                self
            } else {
                self.kept(frame, place as int).calculated()
            }
        }
    }
}

impl View for FrameRateCalculatorDDLite {
    type V = DDView;

    open spec fn view(&self) -> DDView {
        DDView {
            rates: self.frame_rates@,
            first: self.first_frames@,
            second: self.second_frames@,
            received: self.fn_received@,
            base: self.base_frame,
            completed: self.completed,
            max_spatial: self.max_spatial as nat,
            max_temporal: self.max_temporal as nat,
        }
    }
}

impl FrameRateCalculatorDDLite {
    /// The tables have their sizes, and hold the layers.
    pub open spec fn wf(self) -> bool {
        &&& self.frame_rates@.len() == LAYERS
        &&& self.first_frames@.len() == LAYERS
        &&& self.second_frames@.len() == LAYERS
        &&& self.fn_received@.len() == KEPT_FRAMES
        &&& self.max_spatial <= MAX_SPATIAL
        &&& self.max_temporal <= MAX_TEMPORAL
    }

    /// Finds the rates of the layers up to the highest ones.
    pub fn new(max_spatial: usize, max_temporal: usize) -> (calculator: Self)
        requires
            max_spatial <= MAX_SPATIAL,
            max_temporal <= MAX_TEMPORAL,
        ensures
            calculator.wf(),
            calculator@ == DDView::fresh(max_spatial as nat, max_temporal as nat),
    {
        FrameRateCalculatorDDLite {
            frame_rates: new_rates(LAYERS),
            first_frames: new_frames(LAYERS),
            second_frames: new_frames(LAYERS),
            fn_received: new_frames(KEPT_FRAMES),
            base_frame: None,
            completed: false,
            max_spatial,
            max_temporal,
        }
    }

    /// A frame has come. Tells whether all rates are known.
    pub fn recv_packet(&mut self, sample: DDFrameSample<'_>) -> (complete: bool)
        requires
            old(self).wf(),
        ensures
            final(self).wf(),
            final(self)@ == old(self)@.after(sample),
            complete == final(self)@.completed,
    {
        if self.completed {
            return true;
        }
        let spatial: usize = clamp_layer(sample.spatial, MAX_SPATIAL);
        let temporal: usize = clamp_layer(sample.temporal, MAX_TEMPORAL);
        let layer: usize = spatial * TEMPORAL_LAYERS + temporal;
        let frame: FrameInfo = FrameInfo {
            timestamp: sample.timestamp,
            frame_number: sample.frame_number,
            temporal: temporal as i32,
            spatial: spatial as i32,
        };
        let base: FrameInfo = match self.base_frame {
            Some(base) => base,
            None => {
                self.base_frame = Some(frame);
                self.fn_received[0] = Some(frame);
                self.first_frames[layer] = Some(frame);
                return false;
            },
        };
        let place: u16 = sample.frame_number.wrapping_sub(base.frame_number);
        if place == 0 || place > 0x8000 {
            return false;
        }
        if place as usize >= KEPT_FRAMES {
            self.reset_state();
            return false;
        }
        if self.fn_received[place as usize].is_some() {
            return false;
        }
        self.fn_received[place as usize] = Some(frame);
        if self.first_frames[layer].is_none() {
            self.first_frames[layer] = Some(frame);
        }
        let later: bool = match self.second_frames[layer] {
            Some(second) => sn16_lt(second.frame_number, frame.frame_number),
            None => true,
        };
        if later {
            self.second_frames[layer] = Some(frame);
        }
        assert(self@ =~= old(self)@.kept(frame, place as int));
        self.calc()
    }

    /// Tells the rates as far as that can be done. Tells whether all of them are known.
    pub fn calc(&mut self) -> (complete: bool)
        requires
            old(self).wf(),
            !old(self).completed,
        ensures
            final(self).wf(),
            final(self)@ == old(self)@.calculated(),
            complete == final(self)@.completed,
    {
        let ghost before = self@;
        let rows: usize = self.max_spatial + 1;
        let columns: usize = self.max_temporal + 1;
        let mut count: usize = 0;
        let mut spatial: usize = 0;
        while spatial < rows
            invariant
                self.wf(),
                rows == self.max_spatial + 1,
                columns == self.max_temporal + 1,
                spatial <= rows,
                count <= 4 * spatial,
                self@ == (DDView { rates: before.settled(spatial as nat).rates, ..before }),
                count == before.settled(spatial as nat).count,
            decreases rows - spatial,
        {
            let ghost done = before.settled(spatial as nat);
            let mut of_spatial: usize = 0;
            let mut temporal: usize = 0;
            while temporal < columns
                invariant
                    self.wf(),
                    rows == self.max_spatial + 1,
                    columns == self.max_temporal + 1,
                    spatial < rows,
                    temporal <= columns,
                    count <= 4 * spatial + temporal,
                    of_spatial <= temporal,
                    self@ == (DDView {
                        rates: before.with_row(done, spatial as int, temporal as nat).rates,
                        ..before
                    }),
                    count == before.with_row(done, spatial as int, temporal as nat).count,
                    of_spatial == before.with_row(
                        done,
                        spatial as int,
                        temporal as nat,
                    ).of_spatial,
                decreases columns - temporal,
            {
                let layer: usize = spatial * TEMPORAL_LAYERS + temporal;
                let known: bool = self.frame_rates[layer].is_some();
                if known || (of_spatial > 0 && self.first_frames[layer].is_none()) {
                    count += 1;
                    of_spatial += 1;
                } else if let Some(rate) = self.find_rate(spatial, temporal) {
                    self.frame_rates[layer] = Some(rate);
                    count += 1;
                }
                temporal += 1;
            }
            spatial += 1;
        }
        assert(rows * columns <= 12) by (nonlinear_arith)
            requires
                rows <= 3,
                columns <= 4,
        ;
        if count == rows * columns {
            self.completed = true;
            self.close();
            return true;
        }
        false
    }

    fn find_rate(&self, spatial: usize, temporal: usize) -> (rate: Option<FrameRate>)
        requires
            self.wf(),
            spatial <= MAX_SPATIAL,
            temporal <= MAX_TEMPORAL,
        ensures
            rate == self@.rate_of(spatial as int, temporal as int),
    {
        let layer: usize = spatial * TEMPORAL_LAYERS + temporal;
        let base: FrameInfo = match self.base_frame {
            Some(base) => base,
            None => {
                return None;
            },
        };
        let first: FrameInfo = match self.first_frames[layer] {
            Some(first) => first,
            None => {
                return None;
            },
        };
        let second: FrameInfo = match self.second_frames[layer] {
            Some(second) => second,
            None => {
                return None;
            },
        };
        if !sn16_lt(first.frame_number, second.frame_number) {
            return None;
        }
        let start: u16 = first.frame_number.wrapping_sub(base.frame_number);
        let end: u16 = second.frame_number.wrapping_sub(base.frame_number);
        let ghost goal = self@.count_of(spatial as int, temporal as int)->0;
        let mut frames: usize = 0;
        let mut last: u32 = first.timestamp;
        let mut place: usize = start as usize;
        while place <= end as usize
            invariant
                self.wf(),
                spatial <= MAX_SPATIAL,
                temporal <= MAX_TEMPORAL,
                start <= place,
                frames <= place - start,
                counted(
                    self@.received,
                    place as int,
                    end as int,
                    spatial as int,
                    temporal as int,
                    (frames as nat, last),
                ) == goal,
            decreases end + 1 - place,
        {
            let frame: Option<FrameInfo> = if place < self.fn_received.len() {
                self.fn_received[place]
            } else {
                None
            };
            if let Some(frame) = frame {
                if frame.spatial == spatial as i32 && frame.temporal <= temporal as i32 {
                    frames += 1;
                    last = frame.timestamp;
                }
            }
            place += 1;
        }
        if frames >= min_frames_for_calculation(temporal) && last > first.timestamp {
            Some(FrameRate { frames, ticks: last - first.timestamp })
        } else {
            None
        }
    }

    /// The rates of the temporal layers of a spatial layer.
    pub fn frame_rates_for_spatial(&self, spatial: usize) -> (rates: Vec<Option<FrameRate>>)
        requires
            self.wf(),
            spatial <= MAX_SPATIAL,
        ensures
            rates@ == self@.rates.subrange(
                slot(spatial as int, 0),
                slot(spatial as int, TEMPORAL_LAYERS as int),
            ),
    {
        let start: usize = spatial * TEMPORAL_LAYERS;
        let mut rates: Vec<Option<FrameRate>> = Vec::new();
        let mut temporal: usize = 0;
        while temporal < TEMPORAL_LAYERS
            invariant
                self.wf(),
                spatial <= MAX_SPATIAL,
                start == spatial * TEMPORAL_LAYERS,
                temporal <= TEMPORAL_LAYERS,
                rates@ == self@.rates.subrange(start as int, start + temporal),
            decreases TEMPORAL_LAYERS - temporal,
        {
            rates.push(self.frame_rates[start + temporal]);
            temporal += 1;
            assert(rates@ =~= self@.rates.subrange(start as int, start + temporal));
        }
        rates
    }

    /// Whether all rates are known.
    pub fn completed(&self) -> (completed: bool)
        ensures
            completed == self@.completed,
    {
        self.completed
    }

    /// Forgets the frames once all rates are known.
    pub fn close(&mut self)
        requires
            old(self).wf(),
        ensures
            final(self).wf(),
            final(self)@ == old(self)@.forgotten(),
    {
        self.reset_state();
    }

    /// Forgets the frames.
    pub fn reset_state(&mut self)
        requires
            old(self).wf(),
        ensures
            final(self).wf(),
            final(self)@ == old(self)@.forgotten(),
    {
        self.base_frame = None;
        self.first_frames = new_frames(LAYERS);
        self.second_frames = new_frames(LAYERS);
        self.fn_received = new_frames(KEPT_FRAMES);
    }
}

proof fn lemma_count_is_bounded(
    received: Seq<Option<FrameInfo>>,
    place: int,
    end: int,
    spatial: int,
    temporal: int,
    found: (nat, u32),
)
    ensures
        counted(received, place, end, spatial, temporal, found).0 <= found.0 + if place <= end {
            end + 1 - place
        } else {
            0
        },
    decreases end + 1 - place,
{
    if place <= end {
        let frame = crate::frame_rate::frame_at(received, place);
        lemma_count_is_bounded(
            received,
            place + 1,
            end,
            spatial,
            temporal,
            if is_of(frame, spatial, temporal) {
                (found.0 + 1, frame->0.timestamp)
            } else {
                found
            },
        );
    }
}

/// A rate is told only of enough frames, that took some time.
pub proof fn law_rate_takes_enough_frames(calculator: DDView, spatial: int, temporal: int)
    requires
        calculator.rate_of(spatial, temporal) is Some,
    ensures
        calculator.rate_of(spatial, temporal)->0.frames >= crate::frame_rate::frames_needed(
            temporal,
        ),
        calculator.rate_of(spatial, temporal)->0.ticks > 0,
{
    let layer = slot(spatial, temporal);
    let first = calculator.first[layer]->0;
    let second = calculator.second[layer]->0;
    let base = calculator.base->0;
    lemma_count_is_bounded(
        calculator.received,
        first.frame_number.wrapping_sub(base.frame_number) as int,
        second.frame_number.wrapping_sub(base.frame_number) as int,
        spatial,
        temporal,
        (0, first.timestamp),
    );
}

/// Once all rates are known they stay.
pub proof fn law_complete_rates_stay(calculator: DDView, sample: DDFrameSample)
    requires
        calculator.completed,
    ensures
        calculator.after(sample) == calculator,
{
}

/// The frames of the layers are counted up to and with the last place, and the last of them gives
/// the time; frames of other layers, and missing ones, are passed over.
pub proof fn law_frames_of_the_layers_are_counted(
    received: Seq<Option<FrameInfo>>,
    place: int,
    end: int,
    spatial: int,
    temporal: int,
    found: (nat, u32),
)
    requires
        0 <= place <= end < received.len(),
    ensures
        ({
            let before = counted(received, place, end - 1, spatial, temporal, found);
            let after = counted(received, place, end, spatial, temporal, found);
            &&& received[end] is None ==> after == before
            &&& received[end] matches Some(frame) ==> {
                &&& frame.spatial == spatial && frame.temporal <= temporal ==> after.0 == before.0
                    + 1 && after.1 == frame.timestamp
                &&& frame.spatial != spatial || frame.temporal > temporal ==> after == before
            }
        }),
    decreases end - place,
{
    reveal_with_fuel(counted, 2);
    if place < end {
        let frame = received[place];
        let next = if is_of(frame, spatial, temporal) {
            (found.0 + 1, frame->Some_0.timestamp)
        } else {
            found
        };
        law_frames_of_the_layers_are_counted(received, place + 1, end, spatial, temporal, next);
    }
}

/// Every pair of layers has a place of its own in the tables.
pub proof fn law_layers_have_their_own_places(
    spatial: int,
    temporal: int,
    other_spatial: int,
    other_temporal: int,
)
    requires
        0 <= spatial <= 2,
        0 <= temporal <= 3,
        0 <= other_spatial <= 2,
        0 <= other_temporal <= 3,
    ensures
        0 <= slot(spatial, temporal) < 12,
        slot(spatial, temporal) == slot(other_spatial, other_temporal) ==> spatial == other_spatial
            && temporal == other_temporal,
{
}

/// The first frame begins the count. After it one that is not ahead, or whose place is taken,
/// changes nothing; one that is ahead of all that is kept makes the frames be forgotten, but not
/// the rates.
pub proof fn law_frames_are_kept_by_their_number(calculator: DDView, sample: DDFrameSample)
    requires
        !calculator.completed,
        calculator.received.len() == 256,
        calculator.first.len() == 12,
    ensures
        ({
            let after = calculator.after(sample);
            let frame = DDView::frame(sample);
            &&& calculator.base is None ==> after.base == Some(frame) && after.received[0] == Some(
                frame,
            ) && after.first[frame.spatial * 4 + frame.temporal] == Some(frame) && after.rates
                == calculator.rates
            &&& calculator.base matches Some(base) ==> {
                let ahead = sample.frame_number.wrapping_sub(base.frame_number);
                &&& ahead == 0 || ahead > 0x8000 ==> after == calculator
                &&& 256 <= ahead <= 0x8000 ==> after.base is None && after.rates
                    == calculator.rates && !after.completed
                &&& 0 < ahead < 256 && calculator.received[ahead as int] is Some ==> after
                    == calculator
            }
        }),
{
}

/// A frame has the number and the time of its sample, and its layers as far as there are layers.
pub proof fn law_frame_is_that_of_its_sample(sample: DDFrameSample)
    ensures
        DDView::frame(sample).timestamp == sample.timestamp,
        DDView::frame(sample).frame_number == sample.frame_number,
        0 <= sample.temporal <= 3 ==> DDView::frame(sample).temporal == sample.temporal,
        sample.temporal < 0 ==> DDView::frame(sample).temporal == 0,
        sample.temporal > 3 ==> DDView::frame(sample).temporal == 3,
        0 <= sample.spatial <= 2 ==> DDView::frame(sample).spatial == sample.spatial,
        sample.spatial < 0 ==> DDView::frame(sample).spatial == 0,
        sample.spatial > 2 ==> DDView::frame(sample).spatial == 2,
{
}

/// A frame that is kept is at its place; it is the first of its layers where there was none, and
/// the second one where there was none or an older one.
pub proof fn law_kept_frames_bound_their_layers(
    calculator: DDView,
    frame: FrameInfo,
    place: int,
)
    requires
        calculator.received.len() == 256,
        calculator.first.len() == 12,
        calculator.second.len() == 12,
        0 < place < 256,
        0 <= frame.temporal < 4,
        0 <= frame.spatial < 3,
    ensures
        ({
            let after = calculator.kept(frame, place);
            let layer = frame.spatial * 4 + frame.temporal;
            &&& after.received[place] == Some(frame)
            &&& calculator.first[layer] is None ==> after.first[layer] == Some(frame)
            &&& calculator.first[layer] is Some ==> after.first == calculator.first
            &&& calculator.second[layer] is None ==> after.second[layer] == Some(frame)
            &&& calculator.second[layer] matches Some(second) ==> {
                let ahead = frame.frame_number.wrapping_sub(second.frame_number);
                &&& 0 < ahead < 0x8000 ==> after.second[layer] == Some(frame)
                &&& ahead == 0 || ahead >= 0x8000 ==> after.second == calculator.second
            }
            &&& after.rates == calculator.rates
            &&& after.base == calculator.base
        }),
{
}

/// The rate of the layers is told exactly where their frames were counted, are enough, and took
/// some time; it is their number, over that time.
pub proof fn law_rate_is_frames_over_time(calculator: DDView, spatial: int, temporal: int)
    requires
        calculator.count_of(spatial, temporal) matches Some((frames, _)) ==> frames <= usize::MAX,
    ensures
        calculator.count_of(spatial, temporal) is None ==> calculator.rate_of(spatial, temporal)
            is None,
        calculator.count_of(spatial, temporal) matches Some((frames, last)) ==> {
            let first = calculator.first[spatial * 4 + temporal]->Some_0.timestamp;
            &&& frames >= crate::frame_rate::frames_needed(temporal) && last > first ==> (
            calculator.rate_of(spatial, temporal) matches Some(rate) && rate.frames == frames
                && rate.ticks == last - first)
            &&& frames < crate::frame_rate::frames_needed(temporal) || last <= first
                ==> calculator.rate_of(spatial, temporal) is None
        },
{
}

/// A layer that is settled already, or has no frames above one that is, counts as settled; one
/// whose rate can be told is told; any other is left.
pub proof fn law_layers_are_settled(
    calculator: DDView,
    done: Settled,
    spatial: int,
    temporal: int,
)
    requires
        done.rates.len() == 12,
        0 <= spatial <= 2,
        0 <= temporal <= 3,
    ensures
        ({
            let layer = spatial * 4 + temporal;
            let after = calculator.with_layer(done, spatial, temporal);
            &&& done.rates[layer] is Some ==> after.rates == done.rates && after.count == done.count
                + 1 && after.of_spatial == done.of_spatial + 1
            &&& done.rates[layer] is None && done.of_spatial > 0 && calculator.first[layer] is None
                ==> after.rates == done.rates && after.count == done.count + 1
            &&& done.rates[layer] is None && calculator.first[layer] is Some
                && calculator.rate_of(spatial, temporal) is Some ==> after.rates[layer]
                == calculator.rate_of(spatial, temporal) && after.count == done.count + 1
                && after.of_spatial == done.of_spatial
            &&& done.rates[layer] is None && calculator.first[layer] is Some
                && calculator.rate_of(spatial, temporal) is None ==> after == done
            &&& forall|other: int|
                0 <= other < 12 && other != layer ==> #[trigger] after.rates[other]
                    == done.rates[other]
        }),
{
}

/// The count is over exactly where every layer is settled; the frames are forgotten then.
pub proof fn law_settled_layers_complete_the_count(calculator: DDView)
    requires
        !calculator.completed,
    ensures
        ({
            let done = calculator.settled(calculator.max_spatial + 1);
            let all = (calculator.max_spatial + 1) * (calculator.max_temporal + 1);
            &&& calculator.calculated().rates == done.rates
            &&& done.count == all ==> calculator.calculated().completed
                && calculator.calculated().base is None
            &&& done.count != all ==> !calculator.calculated().completed
                && calculator.calculated().received == calculator.received
        }),
{
}

} // verus!
