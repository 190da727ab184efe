//! Whether somebody speaks, by the levels of the audio that came of late.
use std::collections::VecDeque;
use vstd::prelude::*;

verus! {

/// The duration of a sample that comes with an RTP timestamp.
pub const RTP_SAMPLE_DURATION_MS: u32 = 20;

/// How loud the audio was at a time: the lower the level the louder.
#[derive(Debug, Clone, Copy, PartialEq, Eq, Structural)]
pub struct AudioSample {
    pub level: u8,
    pub duration_ms: u32,
    pub at_ns: i64,
}

/// The samples that came of late.
#[derive(Debug)]
pub struct AudioLevelLite {
    pub active_level: u8,
    pub min_percentile: u8,
    pub observe_duration_ms: u32,
    pub samples: VecDeque<AudioSample>,
    pub last_observed_at_ns: Option<i64>,
}

/// The contents of an [`AudioLevelLite`].
#[verifier::ext_equal]
pub struct LevelView {
    pub active_level: u8,
    pub min_percentile: u8,
    pub observe_duration_ms: u32,
    pub samples: Seq<AudioSample>,
    pub last_observed_at_ns: Option<i64>,
}

/// How long the samples are together.
pub open spec fn total_ms(samples: Seq<AudioSample>) -> nat
    decreases samples.len(),
{
    if samples.len() == 0 {
        0
    } else {
        total_ms(samples.drop_last()) + samples.last().duration_ms as nat
    }
}

/// The samples that are loud enough.
pub open spec fn loud(samples: Seq<AudioSample>, active_level: u8) -> Seq<AudioSample> {
    samples.filter(|sample: AudioSample| sample.level <= active_level)
}

/// The samples from the first one on that is not older than `oldest`.
pub open spec fn recent(samples: Seq<AudioSample>, oldest: int) -> Seq<AudioSample>
    decreases samples.len(),
{
    if samples.len() > 0 && samples[0].at_ns < oldest {
        recent(samples.skip(1), oldest)
    } else {
        samples
    }
}

/// The sample that comes with a packet.
pub open spec fn sample_of_packet(level: u8, at_ns: i64) -> AudioSample {
    AudioSample { level, duration_ms: RTP_SAMPLE_DURATION_MS, at_ns }
}

impl LevelView {
    /// What is known after a sample has come.
    pub open spec fn observed(self, sample: AudioSample) -> Self {
        LevelView {
            samples: self.samples.push(sample),
            last_observed_at_ns: Some(sample.at_ns),
            ..self
        }
    }

    /// Nothing has come for three times as long as is looked at.
    pub open spec fn is_stale(self, now_ns: i64) -> bool {
        self.last_observed_at_ns matches Some(last) && now_ns - last >= (3
            * self.observe_duration_ms + 1) * 1_000_000
    }

    /// The samples that count now.
    pub open spec fn counting(self, now_ns: i64) -> Seq<AudioSample> {
        if self.is_stale(now_ns) {
            Seq::empty()
        } else {
            recent(self.samples, now_ns - self.observe_duration_ms * 1_000_000)
        }
    }

    /// The loud ones of the samples are enough: the samples are as long as is looked at, and a
    /// large enough part of them is loud.
    pub open spec fn is_noisy(self, samples: Seq<AudioSample>) -> bool {
        let total = total_ms(samples);
        let noisy = total_ms(loud(samples, self.active_level));
        noisy > 0 && total >= self.observe_duration_ms && noisy * 100 >= total
            * self.min_percentile
    }

    /// The times can be compared, and the durations summed up and weighed, as far as they are.
    pub open spec fn can_look(self, now_ns: i64) -> bool {
        let total = total_ms(self.counting(now_ns));
        let noisy = total_ms(loud(self.counting(now_ns), self.active_level));
        &&& self.last_observed_at_ns matches Some(last) ==> i64::MIN <= now_ns - last <= i64::MAX
        &&& !self.is_stale(now_ns) ==> i64::MIN <= now_ns - self.observe_duration_ms * 1_000_000
        &&& total <= u64::MAX
        &&& noisy > 0 && total >= self.observe_duration_ms ==> noisy * 100 <= u64::MAX && total
            * self.min_percentile <= u64::MAX
    }
}

impl View for AudioLevelLite {
    type V = LevelView;

    open spec fn view(&self) -> LevelView {
        LevelView {
            active_level: self.active_level,
            min_percentile: self.min_percentile,
            observe_duration_ms: self.observe_duration_ms,
            samples: self.samples@,
            last_observed_at_ns: self.last_observed_at_ns,
        }
    }
}

proof fn lemma_total_grows(samples: Seq<AudioSample>, n: int)
    requires
        0 <= n <= samples.len(),
    ensures
        total_ms(samples.take(n)) <= total_ms(samples),
    decreases samples.len(),
{
    if n < samples.len() {
        lemma_total_grows(samples.drop_last(), n);
        assert(samples.drop_last().take(n) =~= samples.take(n));
    } else {
        assert(samples.take(n) =~= samples);
    }
}

proof fn lemma_loud_is_no_longer(samples: Seq<AudioSample>, active_level: u8)
    ensures
        total_ms(loud(samples, active_level)) <= total_ms(samples),
    decreases samples.len(),
{
    reveal(Seq::filter);
    if samples.len() > 0 {
        lemma_loud_is_no_longer(samples.drop_last(), active_level);
        let before = loud(samples.drop_last(), active_level);
        if samples.last().level <= active_level {
            assert(loud(samples, active_level).drop_last() =~= before);
        }
    }
}

impl AudioLevelLite {
    /// Looks at the audio of the duration. It is loud where its level is at most the active one,
    /// and noisy where at least the percentage of it is loud.
    pub fn new(active_level: u8, min_percentile: u8, observe_duration_ms: u32) -> (level: Self)
        ensures
            level@ == (LevelView {
                active_level,
                min_percentile,
                observe_duration_ms,
                samples: Seq::empty(),
                last_observed_at_ns: None,
            }),
    {
        AudioLevelLite {
            active_level,
            min_percentile,
            observe_duration_ms,
            samples: VecDeque::new(),
            last_observed_at_ns: None,
        }
    }

    /// A sample has come.
    pub fn observe(&mut self, level: u8, duration_ms: u32, at_ns: i64)
        ensures
            final(self)@ == old(self)@.observed(AudioSample { level, duration_ms, at_ns }),
    {
        self.last_observed_at_ns = Some(at_ns);
        self.samples.push_back(AudioSample { level, duration_ms, at_ns });
    }

    /// A sample has come with a packet.
    pub fn observe_with_rtp_timestamp(&mut self, level: u8, rtp_ts: u32, at_ns: i64)
        ensures
            final(self)@ == old(self)@.observed(sample_of_packet(level, at_ns)),
    {
        self.observe(level, RTP_SAMPLE_DURATION_MS, at_ns);
    }

    /// The loud samples that make up the level, if the audio is noisy. Samples that no longer
    /// count are forgotten.
    pub fn get_level(&mut self, now_ns: i64) -> (noisy: Option<Vec<AudioSample>>)
        requires
            old(self)@.can_look(now_ns),
        ensures
            ({
                let counting = old(self)@.counting(now_ns);
                &&& final(self)@ == (LevelView { samples: counting, ..old(self)@ })
                &&& match noisy {
                    Some(samples) => old(self)@.is_noisy(counting) && samples@ == loud(
                        counting,
                        old(self)@.active_level,
                    ),
                    None => !old(self)@.is_noisy(counting),
                }
            }),
    {
        let observe_ms: i64 = self.observe_duration_ms as i64;
        if let Some(last) = self.last_observed_at_ns {
            if now_ns - last >= (3 * observe_ms + 1) * 1_000_000 {
                self.samples.clear();
                return None;
            }
        }
        let oldest: i64 = now_ns - observe_ms * 1_000_000;
        let ghost goal = recent(self.samples@, oldest as int);
        while self.samples.len() > 0 && self.samples[0].at_ns < oldest
            invariant
                recent(self.samples@, oldest as int) == goal,
                self@ == (LevelView { samples: self.samples@, ..old(self)@ }),
            decreases self.samples@.len(),
        {
            let ghost before = self.samples@;
            self.samples.pop_front();
            assert(self.samples@ =~= before.skip(1));
        }
        let ghost counting = self.samples@;
        let mut total: u64 = 0;
        let mut noisy: u64 = 0;
        let mut found: Vec<AudioSample> = Vec::new();
        let mut i: usize = 0;
        proof {
            reveal(Seq::filter);
            lemma_loud_is_no_longer(counting, self.active_level);
        }
        while i < self.samples.len()
            invariant
                i <= counting.len(),
                counting == self.samples@,
                total_ms(counting) <= u64::MAX,
                total == total_ms(counting.take(i as int)),
                found@ == loud(counting.take(i as int), self.active_level),
                noisy == total_ms(found@),
                noisy <= total,
            decreases self.samples.len() - i,
        {
            let sample: AudioSample = self.samples[i];
            proof {
                reveal(Seq::filter);
                assert(counting.take(i + 1).drop_last() =~= counting.take(i as int));
                lemma_total_grows(counting, i + 1);
            }
            total = total + sample.duration_ms as u64;
            if sample.level <= self.active_level {
                noisy = noisy + sample.duration_ms as u64;
                proof {
                    assert(found@.push(sample).drop_last() =~= found@);
                }
                found.push(sample);
            }
            i += 1;
        }
        assert(counting.take(i as int) =~= counting);
        if noisy == 0 || total < self.observe_duration_ms as u64 {
            return None;
        }
        if noisy * 100 < total * self.min_percentile as u64 {
            return None;
        }
        Some(found)
    }
}

/// Audio is not noisy before it has been listened to for long enough.
pub proof fn law_short_audio_is_not_noisy(level: LevelView, samples: Seq<AudioSample>)
    requires
        total_ms(samples) < level.observe_duration_ms,
    ensures
        !level.is_noisy(samples),
{
}

/// Quiet audio is not noisy: no sample is loud.
pub proof fn law_quiet_audio_is_not_noisy(level: LevelView, samples: Seq<AudioSample>)
    requires
        forall|i: int| 0 <= i < samples.len() ==> (#[trigger] samples[i]).level
            > level.active_level,
    ensures
        !level.is_noisy(samples),
    decreases samples.len(),
{
    reveal(Seq::filter);
    if samples.len() > 0 {
        law_quiet_audio_is_not_noisy(level, samples.drop_last());
        lemma_no_loud(samples, level.active_level);
    }
}

proof fn lemma_no_loud(samples: Seq<AudioSample>, active_level: u8)
    requires
        forall|i: int| 0 <= i < samples.len() ==> (#[trigger] samples[i]).level > active_level,
    ensures
        loud(samples, active_level) == Seq::<AudioSample>::empty(),
    decreases samples.len(),
{
    reveal(Seq::filter);
    if samples.len() > 0 {
        lemma_no_loud(samples.drop_last(), active_level);
    }
}

/// The samples that count are the newest ones, from the first one on that is not too old: nothing
/// is left out between them, and what was left out before them is too old.
pub proof fn law_newest_samples_count(samples: Seq<AudioSample>, oldest: int)
    ensures
        recent(samples, oldest).len() <= samples.len(),
        recent(samples, oldest) == samples.skip(samples.len() - recent(samples, oldest).len()),
        forall|i: int|
            0 <= i < samples.len() - recent(samples, oldest).len() ==> (
            #[trigger] samples[i]).at_ns < oldest,
        recent(samples, oldest).len() > 0 ==> recent(samples, oldest)[0].at_ns >= oldest,
    decreases samples.len(),
{
    if samples.len() > 0 && samples[0].at_ns < oldest {
        let rest = samples.skip(1);
        law_newest_samples_count(rest, oldest);
        assert(recent(samples, oldest) =~= samples.skip(
            samples.len() - recent(samples, oldest).len(),
        ));
        assert forall|i: int|
            0 <= i < samples.len() - recent(samples, oldest).len() implies (
        #[trigger] samples[i]).at_ns < oldest by {
            if i > 0 {
                assert(rest[i - 1] == samples[i]);
            }
        }
    } else {
        assert(samples.skip(0) =~= samples);
    }
}

/// After a silence of more than three times as long as is looked at nothing counts; before that the
/// samples of that long do.
pub proof fn law_samples_count_as_long_as_is_looked_at(level: LevelView, now_ns: i64)
    ensures
        level.last_observed_at_ns matches Some(last) ==> (now_ns - last >= (3
            * level.observe_duration_ms + 1) * 1_000_000 ==> level.counting(now_ns).len() == 0),
        level.last_observed_at_ns matches Some(last) ==> (now_ns - last < (3
            * level.observe_duration_ms + 1) * 1_000_000 ==> level.counting(now_ns) == recent(
            level.samples,
            now_ns - level.observe_duration_ms * 1_000_000,
        )),
        level.last_observed_at_ns is None ==> level.counting(now_ns) == recent(
            level.samples,
            now_ns - level.observe_duration_ms * 1_000_000,
        ),
{
}

/// Each sample lengthens the whole by its duration, and the loud part too where it is loud enough:
/// a lower level is a louder one.
pub proof fn law_samples_add_up(
    samples: Seq<AudioSample>,
    sample: AudioSample,
    active_level: u8,
)
    ensures
        total_ms(Seq::empty()) == 0,
        total_ms(samples.push(sample)) == total_ms(samples) + sample.duration_ms,
        sample.level <= active_level ==> total_ms(loud(samples.push(sample), active_level))
            == total_ms(loud(samples, active_level)) + sample.duration_ms,
        sample.level > active_level ==> total_ms(loud(samples.push(sample), active_level))
            == total_ms(loud(samples, active_level)),
{
    reveal(Seq::filter);
    let is_loud = |sample: AudioSample| sample.level <= active_level;
    assert(samples.push(sample).drop_last() =~= samples);
    assert(loud(samples.push(sample), active_level) == if is_loud(sample) {
        loud(samples, active_level).push(sample)
    } else {
        loud(samples, active_level)
    });
    assert(loud(samples, active_level).push(sample).drop_last() =~= loud(samples, active_level));
}

/// Audio that was listened to for long enough is noisy exactly where some of it is loud, and the
/// loud part, in hundredths of the whole, is no less than is asked for.
pub proof fn law_enough_loud_audio_is_noisy(level: LevelView, samples: Seq<AudioSample>)
    requires
        total_ms(samples) >= level.observe_duration_ms,
    ensures
        ({
            let whole = total_ms(samples);
            let part = total_ms(loud(samples, level.active_level));
            &&& part > 0 && 100 * part >= level.min_percentile * whole ==> level.is_noisy(samples)
            &&& part == 0 || 100 * part < level.min_percentile * whole ==> !level.is_noisy(samples)
        }),
{
    let whole = total_ms(samples) as int;
    let percentile = level.min_percentile as int;
    assert(whole * percentile == percentile * whole) by (nonlinear_arith);
}

/// A sample that has come is the newest, and those before it are kept; one that comes with a packet
/// lasts twenty milliseconds.
pub proof fn law_observed_samples_are_kept(level: LevelView, sample: AudioSample, i: int)
    ensures
        level.observed(sample).samples.last() == sample,
        level.observed(sample).samples.len() == level.samples.len() + 1,
        0 <= i < level.samples.len() ==> level.observed(sample).samples[i] == level.samples[i],
        level.observed(sample).last_observed_at_ns == Some(sample.at_ns),
        level.observed(sample).active_level == level.active_level,
        level.observed(sample).min_percentile == level.min_percentile,
        level.observed(sample).observe_duration_ms == level.observe_duration_ms,
        sample_of_packet(sample.level, sample.at_ns).duration_ms == 20,
        sample_of_packet(sample.level, sample.at_ns).level == sample.level,
        sample_of_packet(sample.level, sample.at_ns).at_ns == sample.at_ns,
{
}

} // verus!
