//! What is told of the packets of a stream as they come in: how many bytes, how many lost, and
//! when the codec changes.
use vstd::prelude::*;

pub mod nack_tracker;

verus! {

/// The bytes of a stretch of time.
#[derive(Debug, Clone, PartialEq, Eq, Structural)]
pub struct RtpStatsLite {
    pub start_time_ns: i64,
    pub end_time_ns: i64,
    pub duration_ns: i64,
    pub bytes: u64,
    pub bitrate_bps: u64,
}

impl RtpStatsLite {
    /// Nothing to tell.
    pub open spec fn blank() -> Self {
        RtpStatsLite {
            start_time_ns: 0,
            end_time_ns: 0,
            duration_ns: 0,
            bytes: 0,
            bitrate_bps: 0,
        }
    }
}

impl Default for RtpStatsLite {
    fn default() -> (stats: Self)
        ensures
            stats == RtpStatsLite::blank(),
    {
        RtpStatsLite {
            start_time_ns: 0,
            end_time_ns: 0,
            duration_ns: 0,
            bytes: 0,
            bitrate_bps: 0,
        }
    }
}

/// The duration from `start` to `end`, at least a nanosecond.
pub open spec fn duration(start: i64, end: i64) -> int {
    if end - start < 1 {
        1
    } else {
        end - start
    }
}

/// The bits of `bytes` per second over the duration, as far as 64 bits hold them.
pub open spec fn bitrate(bytes: u64, duration_ns: int) -> int {
    bytes * 8_000_000_000 / duration_ns % 0x1_0000_0000_0000_0000
}

/// The difference of the times can be held.
pub open spec fn is_measurable(start: i64, end: i64) -> bool {
    i64::MIN <= end - start <= i64::MAX
}

fn bits_per_second(bytes: u64, duration_ns: i64) -> (rate: u64)
    requires
        duration_ns > 0,
    ensures
        rate == bitrate(bytes, duration_ns as int),
{
    let bits: u128 = bytes as u128 * 8_000_000_000;
    (bits / (duration_ns as u128) % 0x1_0000_0000_0000_0000) as u64
}

/// Counts bytes, in all and in a window of time.
pub struct DataStatsLite {
    pub window_duration_ns: i64,
    pub start_time_ns: i64,
    pub end_time_ns: i64,
    pub total_bytes: u64,
    pub active_window_start_ns: i64,
    pub active_window_bytes: u64,
    pub stopped: bool,
}

impl DataStatsLite {
    /// The window is over.
    pub open spec fn is_over(self, now_ns: i64) -> bool {
        now_ns - self.active_window_start_ns > self.window_duration_ns
    }

    /// The counts after bytes came: in a new window where the old one is over.
    pub open spec fn after(self, bytes: u64, at_ns: i64) -> Self {
        if self.stopped {
            self
        } else {
            DataStatsLite {
                end_time_ns: at_ns,
                total_bytes: self.total_bytes.saturating_add(bytes),
                active_window_start_ns: if self.is_over(at_ns) {
                    at_ns
                } else {
                    self.active_window_start_ns
                },
                active_window_bytes: if self.is_over(at_ns) {
                    bytes
                } else {
                    self.active_window_bytes.saturating_add(bytes)
                },
                ..self
            }
        }
    }

    /// What is told of the window.
    pub open spec fn active(self, now_ns: i64) -> RtpStatsLite {
        if self.is_over(now_ns) || self.active_window_bytes == 0 {
            RtpStatsLite::blank()
        } else {
            RtpStatsLite {
                bytes: self.active_window_bytes,
                bitrate_bps: bitrate(
                    self.active_window_bytes,
                    duration(self.active_window_start_ns, now_ns),
                ) as u64,
                ..RtpStatsLite::blank()
            }
        }
    }

    /// What is told of the whole time.
    pub open spec fn aggregate(self) -> RtpStatsLite {
        let duration_ns = duration(self.start_time_ns, self.end_time_ns);
        RtpStatsLite {
            start_time_ns: self.start_time_ns,
            end_time_ns: self.end_time_ns,
            duration_ns: duration_ns as i64,
            bytes: self.total_bytes,
            bitrate_bps: bitrate(self.total_bytes, duration_ns) as u64,
        }
    }

    /// Counts that begin at a time.
    pub fn new(window_duration_ns: i64, start_time_ns: i64) -> (stats: Self)
        ensures
            stats == (DataStatsLite {
                window_duration_ns,
                start_time_ns,
                end_time_ns: start_time_ns,
                total_bytes: 0,
                active_window_start_ns: start_time_ns,
                active_window_bytes: 0,
                stopped: false,
            }),
    {
        DataStatsLite {
            window_duration_ns,
            start_time_ns,
            end_time_ns: start_time_ns,
            total_bytes: 0,
            active_window_start_ns: start_time_ns,
            active_window_bytes: 0,
            stopped: false,
        }
    }

    /// Bytes have come.
    pub fn update(&mut self, bytes: u64, at_ns: i64)
        requires
            !old(self).stopped ==> is_measurable(old(self).active_window_start_ns, at_ns),
        ensures
            *final(self) == old(self).after(bytes, at_ns),
    {
        if self.stopped {
            return;
        }
        self.end_time_ns = at_ns;
        self.total_bytes = self.total_bytes.saturating_add(bytes);
        if at_ns - self.active_window_start_ns > self.window_duration_ns {
            self.active_window_start_ns = at_ns;
            self.active_window_bytes = 0;
        }
        self.active_window_bytes = self.active_window_bytes.saturating_add(bytes);
    }

    /// Counting is over.
    pub fn stop(&mut self, at_ns: i64)
        ensures
            *final(self) == (DataStatsLite { stopped: true, end_time_ns: at_ns, ..*old(self) }),
    {
        self.stopped = true;
        self.end_time_ns = at_ns;
    }

    /// Tells what came in the window, if it is not over.
    pub fn to_proto_active(&self, now_ns: i64) -> (stats: RtpStatsLite)
        requires
            is_measurable(self.active_window_start_ns, now_ns),
        ensures
            stats == self.active(now_ns),
    {
        let elapsed: i64 = now_ns - self.active_window_start_ns;
        if elapsed > self.window_duration_ns || self.active_window_bytes == 0 {
            return RtpStatsLite::default();
        }
        let duration_ns: i64 = if elapsed < 1 {
            1
        } else {
            elapsed
        };
        RtpStatsLite {
            start_time_ns: 0,
            end_time_ns: 0,
            duration_ns: 0,
            bytes: self.active_window_bytes,
            bitrate_bps: bits_per_second(self.active_window_bytes, duration_ns),
        }
    }

    /// Tells what came in all.
    pub fn to_proto_aggregate_only(&self) -> (stats: RtpStatsLite)
        requires
            is_measurable(self.start_time_ns, self.end_time_ns),
        ensures
            stats == self.aggregate(),
    {
        let elapsed: i64 = self.end_time_ns - self.start_time_ns;
        let duration_ns: i64 = if elapsed < 1 {
            1
        } else {
            elapsed
        };
        RtpStatsLite {
            start_time_ns: self.start_time_ns,
            end_time_ns: self.end_time_ns,
            duration_ns,
            bytes: self.total_bytes,
            bitrate_bps: bits_per_second(self.total_bytes, duration_ns),
        }
    }
}

/// Once counting is over nothing counts any more.
pub proof fn law_stopped_counts_stay(stats: DataStatsLite, stop_ns: i64, bytes: u64, at_ns: i64)
    ensures
        ({
            let stopped = DataStatsLite { stopped: true, end_time_ns: stop_ns, ..stats };
            stopped.after(bytes, at_ns) == stopped && stopped.aggregate().bytes
                == stats.total_bytes
        }),
{
}

/// Replaces the loss that is reported where another report is to be passed on.
pub struct FractionLostProxyLite {
    pub audio_loss_proxying: bool,
    pub last_fraction_lost_report: u8,
}

impl Default for FractionLostProxyLite {
    fn default() -> (proxy: Self)
        ensures
            proxy == (FractionLostProxyLite {
                audio_loss_proxying: false,
                last_fraction_lost_report: 0,
            }),
    {
        FractionLostProxyLite { audio_loss_proxying: false, last_fraction_lost_report: 0 }
    }
}

impl FractionLostProxyLite {
    /// Turns proxying on or off.
    pub fn set_audio_loss_proxying(&mut self, enabled: bool)
        ensures
            *final(self) == (FractionLostProxyLite { audio_loss_proxying: enabled, ..*old(self) }),
    {
        self.audio_loss_proxying = enabled;
    }

    /// Keeps the loss that is to be passed on.
    pub fn set_last_fraction_lost_report(&mut self, fraction_lost: u8)
        ensures
            *final(self) == (FractionLostProxyLite {
                last_fraction_lost_report: fraction_lost,
                ..*old(self)
            }),
    {
        self.last_fraction_lost_report = fraction_lost;
    }

    /// The loss to report.
    pub open spec fn reported(self, incoming_fraction_lost: u8) -> u8 {
        if self.audio_loss_proxying {
            self.last_fraction_lost_report
        } else {
            incoming_fraction_lost
        }
    }

    /// The loss to report.
    pub fn rewrite_fraction_lost(&self, incoming_fraction_lost: u8) -> (fraction_lost: u8)
        ensures
            fraction_lost == self.reported(incoming_fraction_lost),
    {
        if self.audio_loss_proxying {
            self.last_fraction_lost_report
        } else {
            incoming_fraction_lost
        }
    }
}

/// Tells when packets of another codec come. Packets that come before the codecs are known wait.
pub struct CodecChangeDetectorLite {
    pub expected_payload_type: Option<u8>,
    pub current_payload_type: Option<u8>,
    pub known_codecs: Vec<u8>,
    pub pre_bind_queue: Vec<(u16, u8)>,
    pub last_sequence_number: Option<u16>,
}

/// The contents of a [`CodecChangeDetectorLite`].
#[verifier::ext_equal]
pub struct DetectorView {
    pub expected: Option<u8>,
    pub current: Option<u8>,
    pub known: Set<u8>,
    pub waiting: Seq<(u16, u8)>,
    pub last: Option<u16>,
}

impl DetectorView {
    /// The packet is of a codec that is known, and newer than the last one.
    pub open spec fn counts(self, sequence_number: u16, payload_type: u8) -> bool {
        &&& self.expected is Some
        &&& self.known.contains(payload_type)
        &&& self.last matches Some(last) ==> sequence_number > last
    }

    /// The codec that is told to have come with the packet.
    pub open spec fn told(self, sequence_number: u16, payload_type: u8) -> Option<u8> {
        if self.counts(sequence_number, payload_type) && self.current != Some(payload_type) {
            Some(payload_type)
        } else {
            None
        }
    }

    /// The detector after a packet.
    pub open spec fn after(self, sequence_number: u16, payload_type: u8) -> Self {
        if self.expected is None {
            DetectorView { waiting: self.waiting.push((sequence_number, payload_type)), ..self }
        } else if !self.known.contains(payload_type) {
            DetectorView { last: Some(sequence_number), ..self }
        } else if self.counts(sequence_number, payload_type) {
            DetectorView {
                last: Some(sequence_number),
                current: Some(payload_type),
                ..self
            }
        } else {
            self
        }
    }

    /// The detector after packets.
    pub open spec fn after_all(self, packets: Seq<(u16, u8)>) -> Self
        decreases packets.len(),
    {
        if packets.len() == 0 {
            self
        } else {
            self.after_all(packets.drop_last()).after(packets.last().0, packets.last().1)
        }
    }

    /// The codecs that are told to have come with packets.
    pub open spec fn told_of_all(self, packets: Seq<(u16, u8)>) -> Seq<u8>
        decreases packets.len(),
    {
        if packets.len() == 0 {
            Seq::empty()
        } else {
            let before = self.told_of_all(packets.drop_last());
            match self.after_all(packets.drop_last()).told(packets.last().0, packets.last().1) {
                Some(codec) => before.push(codec),
                None => before,
            }
        }
    }

    /// The detector once it knows the codecs, before it takes the packets that have waited.
    pub open spec fn bound(self, expected: u8, known: Set<u8>) -> Self {
        DetectorView { expected: Some(expected), known, waiting: Seq::empty(), ..self }
    }
}

impl View for CodecChangeDetectorLite {
    type V = DetectorView;

    open spec fn view(&self) -> DetectorView {
        DetectorView {
            expected: self.expected_payload_type,
            current: self.current_payload_type,
            known: self.known_codecs@.to_set(),
            waiting: self.pre_bind_queue@,
            last: self.last_sequence_number,
        }
    }
}

impl Default for CodecChangeDetectorLite {
    fn default() -> (detector: Self)
        ensures
            detector@ == (DetectorView {
                expected: None,
                current: None,
                known: Set::empty(),
                waiting: Seq::empty(),
                last: None,
            }),
    {
        let detector: CodecChangeDetectorLite = CodecChangeDetectorLite {
            expected_payload_type: None,
            current_payload_type: None,
            known_codecs: Vec::new(),
            pre_bind_queue: Vec::new(),
            last_sequence_number: None,
        };
        assert(detector@.known =~= Set::empty());
        detector
    }
}

impl CodecChangeDetectorLite {
    /// Whether the codec is known.
    fn knows(&self, payload_type: u8) -> (known: bool)
        ensures
            known == self@.known.contains(payload_type),
    {
        let mut i: usize = 0;
        while i < self.known_codecs.len()
            invariant
                i <= self.known_codecs@.len(),
                forall|j: int| 0 <= j < i ==> self.known_codecs@[j] != payload_type,
            decreases self.known_codecs.len() - i,
        {
            if self.known_codecs[i] == payload_type {
                assert(self.known_codecs@.contains(payload_type));
                return true;
            }
            i += 1;
        }
        assert(!self.known_codecs@.contains(payload_type));
        false
    }

    /// The codecs are known now: tells the changes that the packets that have waited bring.
    pub fn bind(&mut self, expected_payload_type: u8, known_codecs: &[u8]) -> (changes: Vec<u8>)
        ensures
            ({
                let bound = old(self)@.bound(expected_payload_type, known_codecs@.to_set());
                &&& final(self)@ == bound.after_all(old(self)@.waiting)
                &&& changes@ == bound.told_of_all(old(self)@.waiting)
            }),
    {
        self.expected_payload_type = Some(expected_payload_type);
        self.known_codecs = crate::bytes::copy_bytes(known_codecs);
        let mut queued: Vec<(u16, u8)> = Vec::new();
        std::mem::swap(&mut self.pre_bind_queue, &mut queued);
        let ghost bound = self@;
        assert(bound == old(self)@.bound(expected_payload_type, known_codecs@.to_set()));
        let mut changes: Vec<u8> = Vec::new();
        let mut i: usize = 0;
        while i < queued.len()
            invariant
                i <= queued@.len(),
                self@ == bound.after_all(queued@.take(i as int)),
                changes@ == bound.told_of_all(queued@.take(i as int)),
            decreases queued.len() - i,
        {
            let (sequence_number, payload_type): (u16, u8) = queued[i];
            proof {
                assert(queued@.take(i + 1).drop_last() =~= queued@.take(i as int));
            }
            if let Some(changed) = self.write_packet(sequence_number, payload_type) {
                changes.push(changed);
            }
            i += 1;
        }
        assert(queued@.take(i as int) =~= queued@);
        changes
    }

    /// Tells the codec of a packet where it is another one than before.
    pub fn write_packet(&mut self, sequence_number: u16, payload_type: u8) -> (changed: Option<u8>)
        ensures
            changed == old(self)@.told(sequence_number, payload_type),
            final(self)@ == old(self)@.after(sequence_number, payload_type),
    {
        if self.expected_payload_type.is_none() {
            self.pre_bind_queue.push((sequence_number, payload_type));
            return None;
        }
        if !self.knows(payload_type) {
            self.last_sequence_number = Some(sequence_number);
            return None;
        }
        if let Some(last) = self.last_sequence_number {
            if sequence_number <= last {
                return None;
            }
        }
        self.last_sequence_number = Some(sequence_number);
        let same: bool = match self.current_payload_type {
            Some(current) => current == payload_type,
            None => false,
        };
        if !same {
            self.current_payload_type = Some(payload_type);
            return Some(payload_type);
        }
        None
    }
}

/// A change of codec is told once: the next packet of the codec that was told brings none.
pub proof fn law_change_is_told_once(
    detector: DetectorView,
    sequence_number: u16,
    next: u16,
    payload_type: u8,
)
    requires
        detector.told(sequence_number, payload_type) is Some,
    ensures
        detector.after(sequence_number, payload_type).told(next, payload_type) is None,
{
}

/// A late packet and one of an unknown codec bring no change.
pub proof fn law_late_and_unknown_packets_are_not_told(
    detector: DetectorView,
    sequence_number: u16,
    payload_type: u8,
)
    requires
        !detector.known.contains(payload_type) || (detector.last matches Some(last)
            && sequence_number <= last),
    ensures
        detector.told(sequence_number, payload_type) is None,
        detector.after(sequence_number, payload_type).current == detector.current,
{
}

/// Bytes that come count towards the whole, and towards the window that is open, or a new one that
/// begins with them where it is over; what came last ends the time.
pub proof fn law_bytes_are_counted(stats: DataStatsLite, bytes: u64, at_ns: i64)
    requires
        !stats.stopped,
        stats.total_bytes + bytes <= u64::MAX,
        stats.active_window_bytes + bytes <= u64::MAX,
    ensures
        ({
            let after = stats.after(bytes, at_ns);
            let over = at_ns - stats.active_window_start_ns > stats.window_duration_ns;
            &&& after.total_bytes == stats.total_bytes + bytes
            &&& after.end_time_ns == at_ns
            &&& after.start_time_ns == stats.start_time_ns
            &&& over ==> after.active_window_start_ns == at_ns && after.active_window_bytes
                == bytes
            &&& !over ==> after.active_window_start_ns == stats.active_window_start_ns
                && after.active_window_bytes == stats.active_window_bytes + bytes
            &&& !after.stopped
            &&& after.window_duration_ns == stats.window_duration_ns
        }),
{
}

/// The bitrate is the bits of a second: as many as make up the bytes in the duration, rounded down.
pub proof fn law_bitrate_makes_up_the_bytes(bytes: u64, duration_ns: int)
    requires
        duration_ns >= 1,
        bytes * 8_000_000_000 < duration_ns * 0x1_0000_0000_0000_0000,
    ensures
        bitrate(bytes, duration_ns) * duration_ns <= bytes * 8_000_000_000,
        bytes * 8_000_000_000 < (bitrate(bytes, duration_ns) + 1) * duration_ns,
{
    let bits = bytes * 8_000_000_000;
    let rate = bits / duration_ns;
    assert(0 <= rate < 0x1_0000_0000_0000_0000 && rate * duration_ns <= bits && bits < (rate + 1)
        * duration_ns) by (nonlinear_arith)
        requires
            rate == bits / duration_ns,
            duration_ns >= 1,
            0 <= bits < duration_ns * 0x1_0000_0000_0000_0000,
    ;
}

/// The whole time is told with all bytes, from the first to the last; the window with its own, as
/// long as it is open and something came in it.
pub proof fn law_counts_are_told(stats: DataStatsLite, now_ns: i64)
    requires
        i64::MIN <= stats.end_time_ns - stats.start_time_ns <= i64::MAX,
    ensures
        stats.aggregate().bytes == stats.total_bytes,
        stats.aggregate().start_time_ns == stats.start_time_ns,
        stats.aggregate().end_time_ns == stats.end_time_ns,
        stats.end_time_ns > stats.start_time_ns ==> stats.aggregate().duration_ns
            == stats.end_time_ns - stats.start_time_ns,
        stats.end_time_ns <= stats.start_time_ns ==> stats.aggregate().duration_ns == 1,
        stats.aggregate().bitrate_bps == bitrate(
            stats.total_bytes,
            stats.aggregate().duration_ns as int,
        ),
        now_ns - stats.active_window_start_ns > stats.window_duration_ns ==> stats.active(
            now_ns,
        ).bytes == 0 && stats.active(now_ns).bitrate_bps == 0,
        now_ns - stats.active_window_start_ns <= stats.window_duration_ns ==> stats.active(
            now_ns,
        ).bytes == stats.active_window_bytes,
        now_ns - stats.active_window_start_ns <= stats.window_duration_ns && now_ns
            > stats.active_window_start_ns && stats.active_window_bytes > 0 ==> stats.active(
            now_ns,
        ).bitrate_bps == bitrate(
            stats.active_window_bytes,
            now_ns - stats.active_window_start_ns,
        ),
{
}

/// A packet of a known codec that is newer than the last one tells its codec exactly where another
/// one, or none, was the current one; it then is the current one.
pub proof fn law_new_codec_is_told(
    detector: DetectorView,
    sequence_number: u16,
    payload_type: u8,
)
    requires
        detector.expected is Some,
        detector.known.contains(payload_type),
        detector.last matches Some(last) ==> sequence_number > last,
    ensures
        detector.current != Some(payload_type) ==> detector.told(sequence_number, payload_type)
            == Some(payload_type),
        detector.current == Some(payload_type) ==> detector.told(sequence_number, payload_type)
            is None,
        detector.after(sequence_number, payload_type).current == Some(payload_type),
        detector.after(sequence_number, payload_type).last == Some(sequence_number),
        detector.after(sequence_number, payload_type).known == detector.known,
        detector.after(sequence_number, payload_type).waiting == detector.waiting,
{
}

/// Before the codecs are known packets wait, in order, and nothing is told; of one of an unknown
/// codec only the number is kept, and a late one of a known codec changes nothing.
pub proof fn law_early_packets_wait(
    detector: DetectorView,
    sequence_number: u16,
    payload_type: u8,
)
    ensures
        detector.expected is None ==> {
            &&& detector.told(sequence_number, payload_type) is None
            &&& detector.after(sequence_number, payload_type).waiting == detector.waiting.push(
                (sequence_number, payload_type),
            )
            &&& detector.after(sequence_number, payload_type).current == detector.current
            &&& detector.after(sequence_number, payload_type).last == detector.last
        },
        detector.expected is Some && !detector.known.contains(payload_type) ==> detector.after(
            sequence_number,
            payload_type,
        ).last == Some(sequence_number) && detector.after(sequence_number, payload_type).current
            == detector.current,
        detector.expected is Some && detector.known.contains(payload_type) && (
        detector.last matches Some(last) && sequence_number <= last) ==> detector.after(
            sequence_number,
            payload_type,
        ) == detector,
{
}

/// The packets that have waited are taken one after the other, once the codecs are known, and
/// nothing waits then.
pub proof fn law_waiting_packets_are_taken_in_order(
    detector: DetectorView,
    expected: u8,
    known: Set<u8>,
    packets: Seq<(u16, u8)>,
    packet: (u16, u8),
)
    ensures
        detector.bound(expected, known).expected == Some(expected),
        detector.bound(expected, known).known == known,
        detector.bound(expected, known).waiting.len() == 0,
        detector.bound(expected, known).current == detector.current,
        detector.bound(expected, known).last == detector.last,
        detector.after_all(Seq::empty()) == detector,
        detector.after_all(packets.push(packet)) == detector.after_all(packets).after(
            packet.0,
            packet.1,
        ),
        detector.told_of_all(Seq::empty()).len() == 0,
        detector.told_of_all(packets.push(packet)) == match detector.after_all(packets).told(
            packet.0,
            packet.1,
        ) {
            Some(told) => detector.told_of_all(packets).push(told),
            None => detector.told_of_all(packets),
        },
{
    assert(packets.push(packet).drop_last() =~= packets);
}

/// Only while another report is to be passed on is the loss replaced, by the one that was kept.
pub proof fn law_loss_is_replaced_while_proxied(proxy: FractionLostProxyLite, incoming: u8)
    ensures
        !proxy.audio_loss_proxying ==> proxy.reported(incoming) == incoming,
        proxy.audio_loss_proxying ==> proxy.reported(incoming) == proxy.last_fraction_lost_report,
{
}

} // verus!
