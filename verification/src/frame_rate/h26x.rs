//! The frame rates of H.264 and H.265, whose frames are told apart by their timestamps.
use vstd::prelude::*;

use crate::frame_rate::{
    clamp_layer, min_frames_for_calculation, new_rates, sn16_lt, sn16_lt_or_equal, sn32_lt,
    FrameRate, MAX_TEMPORAL,
};

verus! {

/// How many temporal layers there are.
pub const LAYERS: usize = 4;

/// What is read of a packet.
#[derive(Debug, Clone, Copy)]
pub struct H26xSample {
    pub timestamp: u32,
    pub sequence_number: u16,
    pub temporal: i32,
}

/// A frame, with its first and last packets.
#[derive(Debug, Clone, Copy, PartialEq, Eq, Structural)]
pub struct H26xFrameInfo {
    pub start_seq: u16,
    pub end_seq: u16,
    pub timestamp: u32,
    pub temporal: i32,
}

/// Finds the rate of each temporal layer, together with the layers below it.
pub struct FrameRateCalculatorH26xLite {
    pub frame_rates: Vec<Option<FrameRate>>,
    pub fn_received: Vec<H26xFrameInfo>,
    pub base_frame: Option<H26xFrameInfo>,
    pub completed: bool,
}

/// The contents of a [`FrameRateCalculatorH26xLite`].
#[verifier::ext_equal]
pub struct H26xView {
    pub rates: Seq<Option<FrameRate>>,
    pub frames: Seq<H26xFrameInfo>,
    pub base: Option<H26xFrameInfo>,
    pub completed: bool,
}

/// The frame that a packet begins.
pub open spec fn frame_of(sample: H26xSample) -> H26xFrameInfo {
    H26xFrameInfo {
        start_seq: sample.sequence_number,
        end_seq: sample.sequence_number,
        timestamp: sample.timestamp,
        temporal: crate::frame_rate::clamped(sample.temporal, MAX_TEMPORAL as int) as i32,
    }
}

/// The frame with one packet more.
pub open spec fn widened(frame: H26xFrameInfo, sequence_number: u16) -> H26xFrameInfo {
    H26xFrameInfo {
        end_seq: if crate::frame_rate::is_before16(frame.end_seq, sequence_number) {
            sequence_number
        } else {
            frame.end_seq
        },
        start_seq: if crate::frame_rate::is_before16(sequence_number, frame.start_seq) {
            sequence_number
        } else {
            frame.start_seq
        },
        ..frame
    }
}

/// The frames with one packet more: in its frame, or in a new one behind the last of the first
/// `n` frames that is older.
pub open spec fn with_packet(frames: Seq<H26xFrameInfo>, n: nat, sample: H26xSample) -> Seq<
    H26xFrameInfo,
>
    decreases n,
{
    if n == 0 {
        frames.insert(0, frame_of(sample))
    } else {
        let frame = frames[n - 1];
        if frame.timestamp == sample.timestamp {
            frames.update(n - 1, widened(frame, sample.sequence_number))
        } else if crate::frame_rate::is_before32(frame.timestamp, sample.timestamp) {
            frames.insert(n as int, frame_of(sample))
        } else {
            with_packet(frames, (n - 1) as nat, sample)
        }
    }
}

/// A run of frames without a gap: how many there are up to each temporal layer, how many in all,
/// and how long they took.
#[verifier::ext_equal]
pub struct Run {
    pub counts: Seq<nat>,
    pub total: nat,
    pub ticks: u32,
}

impl Run {
    /// No frames.
    pub open spec fn blank() -> Self {
        Run { counts: seq![0nat, 0, 0, 0], total: 0, ticks: 0 }
    }

    /// The run with the frame after it, which follows `frame`: a gap ends the run.
    pub open spec fn with(self, frame: H26xFrameInfo, next: H26xFrameInfo) -> Self {
        if next.start_seq.wrapping_sub(frame.end_seq) == 1 {
            Run {
                counts: Seq::new(
                    self.counts.len(),
                    |i: int|
                        if i >= next.temporal {
                            self.counts[i] + 1
                        } else {
                            self.counts[i]
                        },
                ),
                total: self.total + 1,
                ticks: self.ticks.wrapping_add(next.timestamp.wrapping_sub(frame.timestamp)),
            }
        } else {
            Run::blank()
        }
    }

    /// The rates can be told.
    pub open spec fn is_enough(self) -> bool {
        self.total >= crate::frame_rate::frames_needed(MAX_TEMPORAL as int) && self.ticks > 0
    }

    /// The rates of the layers. A layer without frames of its own has none.
    pub open spec fn rates(self) -> Seq<Option<FrameRate>> {
        Seq::new(
            LAYERS as nat,
            |i: int|
                if i > 0 && self.counts[i] == self.counts[i - 1] {
                    None
                } else {
                    Some(FrameRate { frames: self.counts[i] as usize, ticks: self.ticks })
                },
        )
    }
}

/// The first run that is enough, among those that begin with `run` and go on with the frames
/// from `place` on.
pub open spec fn enough(frames: Seq<H26xFrameInfo>, place: int, run: Run) -> Option<Run>
    decreases frames.len() - place,
{
    if place + 1 >= frames.len() {
        None
    } else {
        let next = run.with(frames[place], frames[place + 1]);
        if next.is_enough() {
            Some(next)
        } else {
            enough(frames, place + 1, next)
        }
    }
}

impl H26xView {
    /// Nothing is known yet.
    pub open spec fn fresh() -> Self {
        H26xView {
            rates: crate::frame_rate::blank_rates(LAYERS as nat),
            frames: Seq::empty(),
            base: None,
            completed: false,
        }
    }

    /// The rates are told if they can be.
    pub open spec fn calculated(self) -> Self {
        match enough(self.frames, 0, Run::blank()) {
            Some(run) => H26xView {
                rates: run.rates(),
                frames: Seq::empty(),
                base: None,
                completed: true,
            },
            None => self,
        }
    }

    /// The calculator after a packet.
    pub open spec fn after(self, sample: H26xSample) -> Self {
        let frame = frame_of(sample);
        if self.completed {
            self
        } else if self.base is None {
            H26xView { base: Some(frame), frames: seq![frame], ..self }
        } else if sample.sequence_number == self.base->0.start_seq
            || crate::frame_rate::is_before16(sample.sequence_number, self.base->0.start_seq) {
            self
        } else {
            H26xView {
                frames: with_packet(self.frames, self.frames.len(), sample),
                ..self
            }.calculated()
        }
    }
}

impl View for FrameRateCalculatorH26xLite {
    type V = H26xView;

    open spec fn view(&self) -> H26xView {
        H26xView {
            rates: self.frame_rates@,
            frames: self.fn_received@,
            base: self.base_frame,
            completed: self.completed,
        }
    }
}

impl FrameRateCalculatorH26xLite {
    /// Nothing is known yet.
    pub fn new() -> (calculator: Self)
        ensures
            calculator@ == H26xView::fresh(),
    {
        FrameRateCalculatorH26xLite {
            frame_rates: new_rates(LAYERS),
            fn_received: Vec::new(),
            base_frame: None,
            completed: false,
        }
    }

    /// A packet has come. Tells whether the rates are known.
    pub fn recv_packet(&mut self, sample: H26xSample) -> (complete: bool)
        ensures
            final(self)@ == old(self)@.after(sample),
            complete == final(self)@.completed,
    {
        if self.completed {
            return true;
        }
        let frame: H26xFrameInfo = H26xFrameInfo {
            start_seq: sample.sequence_number,
            end_seq: sample.sequence_number,
            timestamp: sample.timestamp,
            temporal: clamp_layer(sample.temporal, MAX_TEMPORAL) as i32,
        };
        let base: H26xFrameInfo = match self.base_frame {
            Some(base) => base,
            None => {
                self.base_frame = Some(frame);
                self.fn_received = Vec::new();
                self.fn_received.push(frame);
                assert(self@.frames =~= seq![frame]);
                return false;
            },
        };
        if sn16_lt_or_equal(sample.sequence_number, base.start_seq) {
            return false;
        }
        self.insert_packet(sample, frame);
        self.calc()
    }

    fn insert_packet(&mut self, sample: H26xSample, frame: H26xFrameInfo)
        requires
            frame == frame_of(sample),
        ensures
            final(self)@ == (H26xView {
                frames: with_packet(old(self)@.frames, old(self)@.frames.len(), sample),
                ..old(self)@
            }),
    {
        let ghost goal = with_packet(self@.frames, self@.frames.len(), sample);
        let mut n: usize = self.fn_received.len();
        while n > 0
            invariant
                n <= self.fn_received@.len(),
                frame == frame_of(sample),
                self@ == old(self)@,
                goal == with_packet(old(self)@.frames, old(self)@.frames.len(), sample),
                with_packet(self@.frames, n as nat, sample) == goal,
            decreases n,
        {
            let mut known: H26xFrameInfo = self.fn_received[n - 1];
            if known.timestamp == sample.timestamp {
                let ends_later: bool = sn16_lt(known.end_seq, sample.sequence_number);
                let starts_earlier: bool = sn16_lt(sample.sequence_number, known.start_seq);
                if ends_later {
                    known.end_seq = sample.sequence_number;
                }
                if starts_earlier {
                    known.start_seq = sample.sequence_number;
                }
                self.fn_received[n - 1] = known;
                return;
            }
            if sn32_lt(known.timestamp, sample.timestamp) {
                self.fn_received.insert(n, frame);
                return;
            }
            n -= 1;
        }
        self.fn_received.insert(0, frame);
    }

    /// Tells the rates if that can be done. Tells whether they are known.
    pub fn calc(&mut self) -> (complete: bool)
        requires
            !old(self).completed,
        ensures
            final(self)@ == old(self)@.calculated(),
            complete == final(self)@.completed,
    {
        let ghost goal = enough(self@.frames, 0, Run::blank());
        let ghost mut run = Run::blank();
        let mut counts: Vec<usize> = blank_counts();
        let mut total: usize = 0;
        let mut ticks: u32 = 0;
        if self.fn_received.len() < 2 {
            return false;
        }
        let mut place: usize = 0;
        while place < self.fn_received.len() - 1
            invariant
                self@ == old(self)@,
                place < self.fn_received@.len(),
                goal == enough(self@.frames, 0, Run::blank()),
                enough(self@.frames, place as int, run) == goal,
                is_run(run, counts@, total, ticks),
                total <= place,
                forall|i: int| 0 <= i < counts@.len() ==> counts@[i] <= place,
            decreases self.fn_received.len() - place,
        {
            let frame: H26xFrameInfo = self.fn_received[place];
            let next: H26xFrameInfo = self.fn_received[place + 1];
            let ghost following = run.with(frame, next);
            if next.start_seq.wrapping_sub(frame.end_seq) == 1 {
                total += 1;
                ticks = ticks.wrapping_add(next.timestamp.wrapping_sub(frame.timestamp));
                count_frame(&mut counts, next.temporal);
            } else {
                total = 0;
                counts = blank_counts();
                ticks = 0;
            }
            proof {
                run = following;
            }
            assert(is_run(run, counts@, total, ticks));
            if total >= min_frames_for_calculation(MAX_TEMPORAL) && ticks > 0 {
                self.frame_rates = rates_of(&counts, ticks);
                assert(self.frame_rates@ =~= run.rates());
                self.completed = true;
                self.fn_received = Vec::new();
                self.base_frame = None;
                return true;
            }
            place += 1;
        }
        false
    }

    /// The rates that are known.
    pub fn frame_rates(&self) -> (rates: &Vec<Option<FrameRate>>)
        ensures
            rates@ == self@.rates,
    {
        &self.frame_rates
    }

    /// Whether the rates are known.
    pub fn completed(&self) -> (completed: bool)
        ensures
            completed == self@.completed,
    {
        self.completed
    }
}

/// The counts are those of the run.
spec fn is_run(run: Run, counts: Seq<usize>, total: usize, ticks: u32) -> bool {
    &&& counts.len() == LAYERS
    &&& run.counts =~= counts.map_values(|count: usize| count as nat)
    &&& run.total == total
    &&& run.ticks == ticks
}

fn blank_counts() -> (counts: Vec<usize>)
    ensures
        counts@ == seq![0usize, 0, 0, 0],
{
    let mut counts: Vec<usize> = Vec::new();
    counts.push(0);
    counts.push(0);
    counts.push(0);
    counts.push(0);
    assert(counts@ =~= seq![0usize, 0, 0, 0]);
    counts
}

fn count_frame(counts: &mut Vec<usize>, temporal: i32)
    requires
        old(counts)@.len() == LAYERS,
        forall|i: int| 0 <= i < LAYERS ==> old(counts)@[i] < usize::MAX,
    ensures
        final(counts)@.len() == LAYERS,
        forall|i: int|
            0 <= i < LAYERS ==> #[trigger] final(counts)@[i] == if i >= temporal {
                old(counts)@[i] + 1
            } else {
                old(counts)@[i] as int
            },
{
    let ghost before = counts@;
    let mut i: usize = 0;
    while i < LAYERS
        invariant
            i <= LAYERS,
            counts@.len() == LAYERS,
            before.len() == LAYERS,
            forall|j: int| 0 <= j < LAYERS ==> before[j] < usize::MAX,
            forall|j: int|
                0 <= j < LAYERS ==> #[trigger] counts@[j] == if j < i && j >= temporal {
                    before[j] + 1
                } else {
                    before[j] as int
                },
        decreases LAYERS - i,
    {
        if i as i32 >= temporal {
            let count: usize = counts[i];
            counts[i] = count + 1;
        }
        i += 1;
    }
}

fn rates_of(counts: &Vec<usize>, ticks: u32) -> (rates: Vec<Option<FrameRate>>)
    requires
        counts@.len() == LAYERS,
    ensures
        rates@.len() == LAYERS,
        forall|i: int|
            0 <= i < LAYERS ==> #[trigger] rates@[i] == if i > 0 && counts@[i] == counts@[i - 1] {
                None::<FrameRate>
            } else {
                Some(FrameRate { frames: counts@[i], ticks })
            },
{
    let mut rates: Vec<Option<FrameRate>> = Vec::new();
    let mut i: usize = 0;
    while i < LAYERS
        invariant
            i <= LAYERS,
            counts@.len() == LAYERS,
            rates@.len() == i,
            forall|j: int|
                0 <= j < i ==> #[trigger] rates@[j] == if j > 0 && counts@[j] == counts@[j - 1] {
                    None::<FrameRate>
                } else {
                    Some(FrameRate { frames: counts@[j], ticks })
                },
        decreases LAYERS - i,
    {
        if i > 0 && counts[i] == counts[i - 1] {
            rates.push(None);
        } else {
            rates.push(Some(FrameRate { frames: counts[i], ticks }));
        }
        i += 1;
    }
    rates
}

/// Once the rates are known they stay.
pub proof fn law_complete_rates_stay(calculator: H26xView, sample: H26xSample)
    requires
        calculator.completed,
    ensures
        calculator.after(sample) == calculator,
{
}

/// A gap ends a run: nothing that came before it counts.
pub proof fn law_gap_ends_run(run: Run, frame: H26xFrameInfo, next: H26xFrameInfo)
    requires
        next.start_seq.wrapping_sub(frame.end_seq) != 1,
    ensures
        run.with(frame, next) == Run::blank(),
        !run.with(frame, next).is_enough(),
{
}

/// A packet widens its frame to its own number, and changes nothing where the frame has it.
pub proof fn law_frame_takes_its_packets_in(frame: H26xFrameInfo, sequence_number: u16)
    ensures
        ({
            let after = widened(frame, sequence_number);
            &&& 0 < sequence_number.wrapping_sub(frame.end_seq) < 0x8000 ==> after.end_seq
                == sequence_number
            &&& 0 < frame.start_seq.wrapping_sub(sequence_number) < 0x8000 ==> after.start_seq
                == sequence_number
            &&& sequence_number == frame.start_seq ==> after.start_seq == frame.start_seq
            &&& sequence_number == frame.end_seq ==> after.end_seq == frame.end_seq
            &&& after.timestamp == frame.timestamp
            &&& after.temporal == frame.temporal
        }),
{
}

/// A packet of the newest frame goes into it, and one that is newer begins a frame behind it. The
/// frame that a packet begins has its number and time, and its layer as far as there are layers.
pub proof fn law_packets_go_into_their_frames(frames: Seq<H26xFrameInfo>, sample: H26xSample)
    requires
        frames.len() > 0,
    ensures
        ({
            let after = with_packet(frames, frames.len(), sample);
            let ahead = sample.timestamp.wrapping_sub(frames.last().timestamp);
            &&& ahead == 0 ==> after.drop_last() == frames.drop_last() && after.last() == widened(
                frames.last(),
                sample.sequence_number,
            )
            &&& 0 < ahead < 0x8000_0000 ==> after == frames.push(frame_of(sample))
        }),
        frame_of(sample).start_seq == sample.sequence_number,
        frame_of(sample).end_seq == sample.sequence_number,
        frame_of(sample).timestamp == sample.timestamp,
        0 <= sample.temporal <= 3 ==> frame_of(sample).temporal == sample.temporal,
{
    let n = frames.len() as int;
    assert(frames.update(n - 1, widened(frames[n - 1], sample.sequence_number)).drop_last()
        =~= frames.drop_last());
    assert(frames.insert(n, frame_of(sample)) =~= frames.push(frame_of(sample)));
}

/// A packet of an older frame goes into that frame, or begins one behind the newest of the frames
/// that are older than it, without touching any other frame.
pub proof fn law_older_frames_are_found(
    frames: Seq<H26xFrameInfo>,
    n: nat,
    sample: H26xSample,
    place: int,
)
    requires
        0 <= place < n <= frames.len(),
        forall|i: int|
            place < i < n ==> (#[trigger] frames[i]).timestamp != sample.timestamp
                && sample.timestamp.wrapping_sub(frames[i].timestamp) >= 0x8000_0000,
    ensures
        frames[place].timestamp == sample.timestamp ==> with_packet(frames, n, sample)
            == frames.update(place, widened(frames[place], sample.sequence_number)),
        0 < sample.timestamp.wrapping_sub(frames[place].timestamp) < 0x8000_0000 ==> with_packet(
            frames,
            n,
            sample,
        ) == frames.insert(place + 1, frame_of(sample)),
    decreases n,
{
    if place < n - 1 {
        law_older_frames_are_found(frames, (n - 1) as nat, sample, place);
    }
}

/// A frame that follows on the one before without a gap lengthens the run: by one, for its own layer
/// and every higher one, and by the time between the two.
pub proof fn law_following_frame_lengthens_the_run(
    run: Run,
    frame: H26xFrameInfo,
    next: H26xFrameInfo,
    i: int,
)
    requires
        next.start_seq == frame.end_seq.wrapping_add(1),
        0 <= i < run.counts.len(),
    ensures
        ({
            let after = run.with(frame, next);
            &&& after.total == run.total + 1
            &&& after.ticks.wrapping_sub(run.ticks) == next.timestamp.wrapping_sub(frame.timestamp)
            &&& after.counts.len() == run.counts.len()
            &&& i >= next.temporal ==> after.counts[i] == run.counts[i] + 1
            &&& i < next.temporal ==> after.counts[i] == run.counts[i]
        }),
{
}

/// Sixty frames that took some time are enough. The rate of a layer is then the frames up to it
/// over the time of the run, unless the layer has no frames of its own.
pub proof fn law_rates_are_those_of_the_run(run: Run, layer: int)
    requires
        run.counts.len() == 4,
        0 <= layer < 4,
        run.counts[layer] <= usize::MAX,
    ensures
        run.is_enough() <==> run.total >= 60 && run.ticks > 0,
        layer == 0 || run.counts[layer] != run.counts[layer - 1] ==> (run.rates()[layer] matches Some(
            rate,
        ) && rate.frames == run.counts[layer] && rate.ticks == run.ticks),
        layer > 0 && run.counts[layer] == run.counts[layer - 1] ==> run.rates()[layer] is None,
        Run::blank().total == 0,
        Run::blank().ticks == 0,
        Run::blank().counts[layer] == 0,
{
}

/// The first run that is enough ends the count, with its rates; until then nothing is told.
pub proof fn law_first_enough_run_is_taken(frames: Seq<H26xFrameInfo>, place: int, run: Run)
    requires
        0 <= place < frames.len() - 1,
    ensures
        ({
            let next = run.with(frames[place], frames[place + 1]);
            &&& next.is_enough() ==> enough(frames, place, run) == Some(next)
            &&& !next.is_enough() ==> enough(frames, place, run) == enough(
                frames,
                place + 1,
                next,
            )
        }),
        enough(frames, frames.len() - 1, run) is None,
{
}

/// The first packet begins the count; one that is not ahead of it changes nothing. One that is goes
/// into its frame, and where the frames then hold a run that is enough, its rates are told and the
/// count is over.
pub proof fn law_packets_are_counted(calculator: H26xView, sample: H26xSample)
    requires
        !calculator.completed,
    ensures
        ({
            let after = calculator.after(sample);
            &&& calculator.base is None ==> after.base == Some(frame_of(sample)) && after.frames
                == seq![frame_of(sample)] && after.rates == calculator.rates
            &&& calculator.base matches Some(base) ==> {
                let ahead = sample.sequence_number.wrapping_sub(base.start_seq);
                let frames = with_packet(calculator.frames, calculator.frames.len(), sample);
                &&& ahead == 0 || ahead > 0x8000 ==> after == calculator
                &&& 0 < ahead < 0x8000 && enough(frames, 0, Run::blank()) is None ==> after.frames
                    == frames && after.rates == calculator.rates && !after.completed
                &&& 0 < ahead < 0x8000 ==> (enough(frames, 0, Run::blank()) matches Some(run)
                    ==> after.completed && after.rates == run.rates())
            }
        }),
{
}

} // verus!
