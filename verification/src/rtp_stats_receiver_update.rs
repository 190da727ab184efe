//! Loss, reordering and duplication of a received RTP stream.
use crate::rtp_stats_receiver_restart::{Packet, RtpStatsReceiverRestartDetector};
use std::collections::HashSet;
use vstd::prelude::*;

verus! {

/// Whether a packet was left out of the statistics, and why.
#[derive(Debug, Clone, Copy, PartialEq, Eq, Structural)]
pub enum RtpFlowUnhandledReason {
    Handled,
    PreStartTimestamp,
    OldSequenceNumber,
}

/// What a packet meant for the stream.
#[derive(Debug, Clone, Copy, PartialEq, Eq, Structural)]
pub struct RtpFlowState {
    pub unhandled_reason: RtpFlowUnhandledReason,
    pub loss_start_inclusive: u64,
    pub loss_end_exclusive: u64,
    pub is_duplicate: bool,
    pub is_out_of_order: bool,
    pub ext_sequence_number: u64,
    pub ext_timestamp: u64,
}

/// The flow state that says nothing.
pub open spec fn default_flow_state() -> RtpFlowState {
    RtpFlowState {
        unhandled_reason: RtpFlowUnhandledReason::Handled,
        loss_start_inclusive: 0,
        loss_end_exclusive: 0,
        is_duplicate: false,
        is_out_of_order: false,
        ext_sequence_number: 0,
        ext_timestamp: 0,
    }
}

impl Default for RtpFlowState {
    fn default() -> (state: Self)
        ensures
            state == default_flow_state(),
    {
        RtpFlowState {
            unhandled_reason: RtpFlowUnhandledReason::Handled,
            loss_start_inclusive: 0,
            loss_end_exclusive: 0,
            is_duplicate: false,
            is_out_of_order: false,
            ext_sequence_number: 0,
            ext_timestamp: 0,
        }
    }
}

/// The sequence numbers that were received.
#[derive(Debug)]
pub struct SequenceHistory {
    pub seen: HashSet<u64>,
}

impl View for SequenceHistory {
    type V = Set<u64>;

    open spec fn view(&self) -> Set<u64> {
        self.seen@
    }
}

impl Default for SequenceHistory {
    fn default() -> (history: Self)
        ensures
            history@ == Set::<u64>::empty(),
    {
        SequenceHistory { seen: HashSet::new() }
    }
}

impl SequenceHistory {
    /// The number was received.
    pub fn is_set(&self, sequence_number: u64) -> (set: bool)
        ensures
            set == self@.contains(sequence_number),
    {
        broadcast use vstd::std_specs::hash::group_hash_axioms;

        self.seen.contains(&sequence_number)
    }

    /// Takes the number as received.
    pub fn set(&mut self, sequence_number: u64)
        ensures
            final(self)@ == old(self)@.insert(sequence_number),
    {
        broadcast use vstd::std_specs::hash::group_hash_axioms;

        self.seen.insert(sequence_number);
    }

    /// Takes the numbers from `start_inclusive` to `end_inclusive` as not received.
    pub fn clear_range(&mut self, start_inclusive: u64, end_inclusive: u64)
        ensures
            final(self)@ == old(self)@.filter(
                |n: u64| !(start_inclusive <= n <= end_inclusive),
            ),
    {
        broadcast use vstd::std_specs::hash::group_hash_axioms;

        let ghost before = self@;
        if start_inclusive > end_inclusive {
            assert(before.filter(|n: u64| !(start_inclusive <= n <= end_inclusive)) =~= before);
            return ;
        }
        let mut sequence_number: u64 = start_inclusive;
        while sequence_number < end_inclusive
            invariant
                start_inclusive <= sequence_number <= end_inclusive,
                self@ == before.filter(|n: u64| !(start_inclusive <= n < sequence_number)),
            decreases end_inclusive - sequence_number,
        {
            self.seen.remove(&sequence_number);
            sequence_number += 1;
            assert(self@ =~= before.filter(|n: u64| !(start_inclusive <= n < sequence_number)));
        }
        self.seen.remove(&sequence_number);
        assert(self@ =~= before.filter(|n: u64| !(start_inclusive <= n <= end_inclusive)));
    }
}

/// How far `new` is ahead of `old` on the circle of 16 bit numbers.
pub open spec fn ahead_16(new: u16, old: u16) -> int {
    let raw = new.wrapping_sub(old);
    if raw > 0x7fff {
        raw - 0x1_0000
    } else {
        raw as int
    }
}

/// How far `new` is ahead of `old` on the circle of 32 bit numbers.
pub open spec fn ahead_32(new: u32, old: u32) -> int {
    let raw = new.wrapping_sub(old);
    if raw > 0x7fff_ffff {
        raw - 0x1_0000_0000
    } else {
        raw as int
    }
}

/// The statistics of one received stream.
#[derive(Debug)]
pub struct RtpStatsReceiverLite {
    pub initialized: bool,
    pub start_sequence_number: u16,
    pub start_timestamp: u32,
    pub highest_sequence_number: u16,
    pub highest_timestamp: u32,
    pub packets_lost: u64,
    pub packets_out_of_order: u64,
    pub packets_duplicate: u64,
    pub history: SequenceHistory,
    pub restart_detector: RtpStatsReceiverRestartDetector,
}

/// The contents of an [`RtpStatsReceiverLite`].
#[verifier::ext_equal]
pub struct ReceiverView {
    pub initialized: bool,
    pub start_sequence_number: u16,
    pub start_timestamp: u32,
    pub highest_sequence_number: u16,
    pub highest_timestamp: u32,
    pub packets_lost: u64,
    pub packets_out_of_order: u64,
    pub packets_duplicate: u64,
    pub seen: Set<u64>,
    pub misfits: Seq<Packet>,
}

impl View for RtpStatsReceiverLite {
    type V = ReceiverView;

    open spec fn view(&self) -> ReceiverView {
        ReceiverView {
            initialized: self.initialized,
            start_sequence_number: self.start_sequence_number,
            start_timestamp: self.start_timestamp,
            highest_sequence_number: self.highest_sequence_number,
            highest_timestamp: self.highest_timestamp,
            packets_lost: self.packets_lost,
            packets_out_of_order: self.packets_out_of_order,
            packets_duplicate: self.packets_duplicate,
            seen: self.history@,
            misfits: self.restart_detector@,
        }
    }
}

/// What a packet is to the stream.
pub enum Arrival {
    /// Nothing was received before, nor now.
    Idle,
    /// The first packet.
    First,
    /// The packet is from before the stream began.
    PreStart,
    /// The packet has a newer number and an older timestamp.
    Misfit,
    /// The packet is the newest one or older.
    Late,
    /// The packet is newer than every one before it.
    Newest,
}

impl ReceiverView {
    /// What the packet is to the stream.
    pub open spec fn arrival(self, sn: u16, ts: u32, payload_size: usize) -> Arrival {
        if !self.initialized {
            if payload_size == 0 {
                Arrival::Idle
            } else {
                Arrival::First
            }
        } else if ahead_32(ts, self.start_timestamp) < 0 {
            Arrival::PreStart
        } else if ahead_16(sn, self.highest_sequence_number) > 0 {
            if ahead_32(ts, self.highest_timestamp) < 0 {
                Arrival::Misfit
            } else {
                Arrival::Newest
            }
        } else {
            Arrival::Late
        }
    }

    /// The state after a packet that does not fit the stream. A restart is noted and forgotten.
    pub open spec fn after_misfit(self, sn: u16, ts: u32, payload_size: usize) -> Self {
        let misfits = if payload_size > 0 {
            crate::rtp_stats_receiver_restart::with_recent(
                self.misfits,
                Packet { sequence_number: sn, timestamp: ts },
            )
        } else {
            self.misfits
        };
        ReceiverView {
            misfits: if crate::rtp_stats_receiver_restart::shows_restart(misfits) {
                Seq::empty()
            } else {
                misfits
            },
            ..self
        }
    }

    /// The state after a late packet.
    pub open spec fn after_late(self, sn: u16) -> Self {
        let duplicate = self.seen.contains(sn as u64);
        ReceiverView {
            packets_out_of_order: if sn == self.highest_sequence_number {
                self.packets_out_of_order
            } else {
                (self.packets_out_of_order + 1) as u64
            },
            packets_duplicate: if duplicate {
                (self.packets_duplicate + 1) as u64
            } else {
                self.packets_duplicate
            },
            packets_lost: if !duplicate && self.packets_lost > 0 {
                (self.packets_lost - 1) as u64
            } else {
                self.packets_lost
            },
            seen: self.seen.insert(sn as u64),
            ..self
        }
    }

    /// The state after a packet that is newer than every one before it. The numbers between are
    /// lost.
    pub open spec fn after_newest(self, sn: u16, ts: u32) -> Self {
        ReceiverView {
            highest_sequence_number: sn,
            highest_timestamp: ts,
            packets_lost: (self.packets_lost + ahead_16(sn, self.highest_sequence_number)
                - 1) as u64,
            seen: self.seen.filter(
                |n: u64| !(self.highest_sequence_number < n < sn),
            ).insert(sn as u64),
            misfits: Seq::empty(),
            ..self
        }
    }

    /// The state after a packet.
    pub open spec fn after_packet(self, sn: u16, ts: u32, payload_size: usize) -> Self {
        match self.arrival(sn, ts, payload_size) {
            Arrival::Idle => self,
            Arrival::First => ReceiverView {
                initialized: true,
                start_sequence_number: sn,
                start_timestamp: ts,
                highest_sequence_number: sn,
                highest_timestamp: ts,
                seen: self.seen.insert(sn as u64),
                ..self
            },
            Arrival::PreStart => self.after_misfit(sn, ts, payload_size),
            Arrival::Misfit => self.after_misfit(sn, ts, payload_size),
            Arrival::Late => self.after_late(sn),
            Arrival::Newest => self.after_newest(sn, ts),
        }
    }

    /// What is told of a packet.
    pub open spec fn flow_state(self, sn: u16, ts: u32, payload_size: usize) -> RtpFlowState {
        let placed = RtpFlowState {
            ext_sequence_number: sn as u64,
            ext_timestamp: ts as u64,
            ..default_flow_state()
        };
        let unhandled = RtpFlowState {
            ext_sequence_number: self.highest_sequence_number as u64,
            ext_timestamp: self.highest_timestamp as u64,
            ..default_flow_state()
        };
        match self.arrival(sn, ts, payload_size) {
            Arrival::Idle => default_flow_state(),
            Arrival::First => placed,
            Arrival::PreStart => RtpFlowState {
                unhandled_reason: RtpFlowUnhandledReason::PreStartTimestamp,
                ..unhandled
            },
            Arrival::Misfit => RtpFlowState {
                unhandled_reason: RtpFlowUnhandledReason::OldSequenceNumber,
                ..unhandled
            },
            Arrival::Late => RtpFlowState {
                is_duplicate: self.seen.contains(sn as u64),
                is_out_of_order: true,
                ..placed
            },
            Arrival::Newest => RtpFlowState {
                loss_start_inclusive: (self.highest_sequence_number + 1) as u64,
                loss_end_exclusive: sn as u64,
                ..placed
            },
        }
    }

    /// The counters hold one more packet. A loss that ends right before number 0 is not counted.
    pub open spec fn can_count(self, sn: u16, ts: u32, payload_size: usize) -> bool {
        match self.arrival(sn, ts, payload_size) {
            Arrival::Late => {
                &&& sn != self.highest_sequence_number ==> self.packets_out_of_order < u64::MAX
                &&& self.seen.contains(sn as u64) ==> self.packets_duplicate < u64::MAX
            },
            Arrival::Newest => {
                let gap = ahead_16(sn, self.highest_sequence_number);
                &&& self.packets_lost + gap - 1 <= u64::MAX
                &&& gap > 1 ==> sn > 0
            },
            _ => true,
        }
    }
}

impl RtpStatsReceiverLite {
    /// The restart detector is well formed.
    pub open spec fn wf(self) -> bool {
        self.restart_detector.wf()
    }

    /// Statistics of a stream of which nothing was received.
    pub fn new() -> (receiver: Self)
        ensures
            receiver.wf(),
            receiver@ == (ReceiverView {
                initialized: false,
                start_sequence_number: 0,
                start_timestamp: 0,
                highest_sequence_number: 0,
                highest_timestamp: 0,
                packets_lost: 0,
                packets_out_of_order: 0,
                packets_duplicate: 0,
                seen: Set::empty(),
                misfits: Seq::empty(),
            }),
    {
        RtpStatsReceiverLite {
            initialized: false,
            start_sequence_number: 0,
            start_timestamp: 0,
            highest_sequence_number: 0,
            highest_timestamp: 0,
            packets_lost: 0,
            packets_out_of_order: 0,
            packets_duplicate: 0,
            history: SequenceHistory::default(),
            restart_detector: RtpStatsReceiverRestartDetector::new(),
        }
    }

    /// Counts a packet.
    pub fn update(&mut self, sequence_number: u16, timestamp: u32, payload_size: usize) -> (
    flow_state: RtpFlowState)
        requires
            old(self).wf(),
            old(self)@.can_count(sequence_number, timestamp, payload_size),
        ensures
            final(self).wf(),
            flow_state == old(self)@.flow_state(sequence_number, timestamp, payload_size),
            final(self)@ == old(self)@.after_packet(sequence_number, timestamp, payload_size),
    {
        let mut flow_state: RtpFlowState = RtpFlowState::default();
        if !self.initialized {
            if payload_size == 0 {
                return flow_state;
            }
            self.initialized = true;
            self.start_sequence_number = sequence_number;
            self.start_timestamp = timestamp;
            self.highest_sequence_number = sequence_number;
            self.highest_timestamp = timestamp;
            self.history.set(sequence_number as u64);
            flow_state.ext_sequence_number = sequence_number as u64;
            flow_state.ext_timestamp = timestamp as u64;
            return flow_state;
        }
        if is_wrapped_less_than_u32(timestamp, self.start_timestamp) {
            if self.restart_detector.maybe_restart(sequence_number, timestamp, payload_size) {
                self.restart_detector.reset_restart();
            }
            flow_state.unhandled_reason = RtpFlowUnhandledReason::PreStartTimestamp;
            flow_state.ext_sequence_number = self.highest_sequence_number as u64;
            flow_state.ext_timestamp = self.highest_timestamp as u64;
            return flow_state;
        }
        let gap_sn: i32 = wrapping_diff_u16(sequence_number, self.highest_sequence_number);
        let gap_ts: i64 = wrapping_diff_u32(timestamp, self.highest_timestamp);
        if gap_sn > 0 && gap_ts < 0 {
            if self.restart_detector.maybe_restart(sequence_number, timestamp, payload_size) {
                self.restart_detector.reset_restart();
            }
            flow_state.unhandled_reason = RtpFlowUnhandledReason::OldSequenceNumber;
            flow_state.ext_sequence_number = self.highest_sequence_number as u64;
            flow_state.ext_timestamp = self.highest_timestamp as u64;
            return flow_state;
        }
        if gap_sn <= 0 {
            if gap_sn != 0 {
                self.packets_out_of_order = self.packets_out_of_order + 1;
            }
            let ext_sn: u64 = sequence_number as u64;
            let ghost seen = self.history@;
            if self.history.is_set(ext_sn) {
                self.packets_duplicate = self.packets_duplicate + 1;
                flow_state.is_duplicate = true;
                assert(seen.insert(ext_sn) =~= seen);
            } else {
                self.history.set(ext_sn);
                if self.packets_lost > 0 {
                    self.packets_lost = self.packets_lost - 1;
                }
            }
            flow_state.is_out_of_order = true;
            flow_state.ext_sequence_number = ext_sn;
            flow_state.ext_timestamp = timestamp as u64;
            return flow_state;
        }
        let ghost before = self@;
        let prev_highest: u16 = self.highest_sequence_number;
        self.highest_sequence_number = sequence_number;
        self.highest_timestamp = timestamp;
        let missing_count: u64 = (gap_sn - 1) as u64;
        self.packets_lost = self.packets_lost + missing_count;
        let loss_start: u64 = prev_highest as u64 + 1;
        let loss_end: u64 = sequence_number as u64;
        flow_state.loss_start_inclusive = loss_start;
        flow_state.loss_end_exclusive = loss_end;
        if gap_sn > 1 {
            self.history.clear_range(loss_start, loss_end - 1);
        }
        assert(self.history@ =~= before.seen.filter(
            |n: u64| !(before.highest_sequence_number < n < sequence_number),
        ));
        self.history.set(sequence_number as u64);
        flow_state.ext_sequence_number = sequence_number as u64;
        flow_state.ext_timestamp = timestamp as u64;
        self.restart_detector.reset_restart();
        flow_state
    }

    /// A packet was received.
    pub fn initialized(&self) -> (initialized: bool)
        ensures
            initialized == self.initialized,
    {
        self.initialized
    }

    /// The newest sequence number.
    pub fn highest_sequence_number(&self) -> (sn: u16)
        ensures
            sn == self.highest_sequence_number,
    {
        self.highest_sequence_number
    }

    /// The newest sequence number, widened.
    pub fn highest_extended_sequence_number(&self) -> (sn: u64)
        ensures
            sn == self.highest_sequence_number,
    {
        self.highest_sequence_number as u64
    }

    /// The newest timestamp.
    pub fn highest_timestamp(&self) -> (ts: u32)
        ensures
            ts == self.highest_timestamp,
    {
        self.highest_timestamp
    }

    /// The newest timestamp, widened.
    pub fn highest_extended_timestamp(&self) -> (ts: u64)
        ensures
            ts == self.highest_timestamp,
    {
        self.highest_timestamp as u64
    }

    /// How many packets are missing.
    pub fn packets_lost(&self) -> (lost: u64)
        ensures
            lost == self.packets_lost,
    {
        self.packets_lost
    }

    /// How many packets came late.
    pub fn packets_out_of_order(&self) -> (out_of_order: u64)
        ensures
            out_of_order == self.packets_out_of_order,
    {
        self.packets_out_of_order
    }

    /// How many packets came again.
    pub fn packets_duplicate(&self) -> (duplicate: u64)
        ensures
            duplicate == self.packets_duplicate,
    {
        self.packets_duplicate
    }

    /// The number was received.
    pub fn history_is_set(&self, sequence_number: u64) -> (set: bool)
        ensures
            set == self@.seen.contains(sequence_number),
    {
        self.history.is_set(sequence_number)
    }
}

/// How far `new` is ahead of `old` on the circle of 16 bit numbers.
pub fn wrapping_diff_u16(new: u16, old: u16) -> (diff: i32)
    ensures
        diff == ahead_16(new, old),
{
    let raw: i32 = new.wrapping_sub(old) as i32;
    if raw > 0x7fff {
        raw - 0x1_0000
    } else {
        raw
    }
}

/// How far `new` is ahead of `old` on the circle of 32 bit numbers.
pub fn wrapping_diff_u32(new: u32, old: u32) -> (diff: i64)
    ensures
        diff == ahead_32(new, old),
{
    let raw: i64 = new.wrapping_sub(old) as i64;
    if raw > 0x7fff_ffff {
        raw - 0x1_0000_0000
    } else {
        raw
    }
}

/// `value` is behind `reference` on the circle of 32 bit numbers.
pub fn is_wrapped_less_than_u32(value: u32, reference: u32) -> (less: bool)
    ensures
        less <==> ahead_32(value, reference) < 0,
{
    wrapping_diff_u32(value, reference) < 0
}

/// A packet that was counted and comes again is a duplicate, and changes no other count but that
/// of late packets.
pub proof fn law_repeated_packet_is_duplicate(
    state: ReceiverView,
    sn: u16,
    ts: u32,
    payload_size: usize,
)
    requires
        state.arrival(sn, ts, payload_size) is First || state.arrival(sn, ts, payload_size) is Late
            || state.arrival(sn, ts, payload_size) is Newest,
    ensures
        ({
            let once = state.after_packet(sn, ts, payload_size);
            let twice = once.after_packet(sn, ts, payload_size);
            &&& once.flow_state(sn, ts, payload_size).is_duplicate
            &&& twice.packets_lost == once.packets_lost
            &&& twice.seen == once.seen
            &&& twice.highest_sequence_number == once.highest_sequence_number
            &&& once.packets_duplicate < u64::MAX ==> twice.packets_duplicate
                == once.packets_duplicate + 1
        }),
{
    let once = state.after_packet(sn, ts, payload_size);
    assert(once.seen.contains(sn as u64));
    assert(once.arrival(sn, ts, payload_size) is Late);
    assert(once.seen.insert(sn as u64) =~= once.seen);
}

/// Numbers that a newer packet skips are lost, and each one that comes late is no longer lost, as
/// long as the numbers between do not wrap.
pub proof fn law_late_packet_makes_up_for_its_loss(
    state: ReceiverView,
    sn: u16,
    ts: u32,
    payload_size: usize,
    late: u16,
    late_ts: u32,
)
    requires
        state.arrival(sn, ts, payload_size) is Newest,
        state.can_count(sn, ts, payload_size),
        state.highest_sequence_number < late < sn,
        ahead_32(late_ts, state.start_timestamp) >= 0,
    ensures
        ({
            let gapped = state.after_packet(sn, ts, payload_size);
            let recovered = gapped.after_packet(late, late_ts, payload_size);
            &&& gapped.packets_lost == state.packets_lost + (sn - state.highest_sequence_number - 1)
            &&& !gapped.seen.contains(late as u64)
            &&& recovered.packets_lost == gapped.packets_lost - 1
            &&& recovered.seen.contains(late as u64)
        }),
{
}

/// A packet that does not fit the stream changes neither counts nor history.
pub proof fn law_misfits_are_not_counted(
    state: ReceiverView,
    sn: u16,
    ts: u32,
    payload_size: usize,
)
    requires
        state.flow_state(sn, ts, payload_size).unhandled_reason != RtpFlowUnhandledReason::Handled,
    ensures
        state.after_packet(sn, ts, payload_size) == (ReceiverView {
            misfits: state.after_packet(sn, ts, payload_size).misfits,
            ..state
        }),
{
}

/// How a packet is taken is decided by where its number and timestamp lie: from before the start of
/// the stream, or with a newer number but an older timestamp, it is not handled; with the newest
/// number or an older one it is out of order; with a newer one the numbers between are lost.
pub proof fn law_packets_are_taken_by_their_place(
    state: ReceiverView,
    sn: u16,
    ts: u32,
    payload_size: usize,
)
    requires
        state.initialized,
    ensures
        ({
            let told = state.flow_state(sn, ts, payload_size);
            let before_start = ts.wrapping_sub(state.start_timestamp) >= 0x8000_0000;
            let newer = 0 < sn.wrapping_sub(state.highest_sequence_number) < 0x8000;
            let older_ts = ts.wrapping_sub(state.highest_timestamp) >= 0x8000_0000;
            &&& told.unhandled_reason == RtpFlowUnhandledReason::PreStartTimestamp <==> before_start
            &&& told.unhandled_reason == RtpFlowUnhandledReason::OldSequenceNumber
                <==> !before_start && newer && older_ts
            &&& told.is_out_of_order <==> !before_start && !newer
            &&& told.is_duplicate <==> !before_start && !newer && state.seen.contains(sn as u64)
            &&& !before_start && newer && !older_ts ==> told.loss_start_inclusive
                == state.highest_sequence_number + 1 && told.loss_end_exclusive == sn
            &&& before_start || !newer || older_ts ==> told.loss_start_inclusive == 0
                && told.loss_end_exclusive == 0
            &&& told.unhandled_reason == RtpFlowUnhandledReason::Handled
                ==> told.ext_sequence_number == sn && told.ext_timestamp == ts
            &&& told.unhandled_reason != RtpFlowUnhandledReason::Handled
                ==> told.ext_sequence_number == state.highest_sequence_number
                && told.ext_timestamp == state.highest_timestamp
        }),
{
}

/// What is counted of a packet: one that is newer becomes the newest, and what it skips is lost;
/// one that is late is counted as such unless it is the newest again, as a duplicate where it came
/// before, and else makes up for a loss.
pub proof fn law_packets_are_counted_by_their_place(
    state: ReceiverView,
    sn: u16,
    ts: u32,
    payload_size: usize,
)
    requires
        state.initialized,
        state.can_count(sn, ts, payload_size),
        ts.wrapping_sub(state.start_timestamp) < 0x8000_0000,
        ts.wrapping_sub(state.highest_timestamp) < 0x8000_0000,
    ensures
        ({
            let after = state.after_packet(sn, ts, payload_size);
            let ahead = sn.wrapping_sub(state.highest_sequence_number);
            let newer = 0 < ahead < 0x8000;
            let repeated = state.seen.contains(sn as u64);
            &&& after.seen.contains(sn as u64)
            &&& newer ==> {
                &&& after.highest_sequence_number == sn
                &&& after.highest_timestamp == ts
                &&& after.packets_lost == state.packets_lost + ahead - 1
                &&& after.packets_out_of_order == state.packets_out_of_order
                &&& after.packets_duplicate == state.packets_duplicate
                &&& after.misfits.len() == 0
            }
            &&& !newer ==> {
                &&& after.highest_sequence_number == state.highest_sequence_number
                &&& after.highest_timestamp == state.highest_timestamp
                &&& ahead == 0 ==> after.packets_out_of_order == state.packets_out_of_order
                &&& ahead != 0 ==> after.packets_out_of_order == state.packets_out_of_order + 1
                &&& repeated ==> after.packets_duplicate == state.packets_duplicate + 1
                    && after.packets_lost == state.packets_lost
                &&& !repeated ==> after.packets_duplicate == state.packets_duplicate
                &&& !repeated && state.packets_lost > 0 ==> after.packets_lost
                    == state.packets_lost - 1
                &&& !repeated && state.packets_lost == 0 ==> after.packets_lost == 0
            }
            &&& after.start_sequence_number == state.start_sequence_number
            &&& after.start_timestamp == state.start_timestamp
        }),
{
}

/// The first packet with a payload starts the stream, and one without changes nothing before that.
pub proof fn law_first_payload_starts_the_stream(
    state: ReceiverView,
    sn: u16,
    ts: u32,
    payload_size: usize,
)
    requires
        !state.initialized,
    ensures
        payload_size == 0 ==> state.after_packet(sn, ts, payload_size) == state,
        payload_size > 0 ==> {
            let after = state.after_packet(sn, ts, payload_size);
            &&& after.initialized
            &&& after.start_sequence_number == sn
            &&& after.start_timestamp == ts
            &&& after.highest_sequence_number == sn
            &&& after.highest_timestamp == ts
            &&& after.seen.contains(sn as u64)
            &&& after.packets_lost == state.packets_lost
            &&& !state.flow_state(sn, ts, payload_size).is_out_of_order
        },
{
}

/// A packet with a payload that does not fit the stream is kept among the misfits, until they show
/// a restart; one without is not.
pub proof fn law_misfits_are_kept(state: ReceiverView, sn: u16, ts: u32, payload_size: usize)
    requires
        state.flow_state(sn, ts, payload_size).unhandled_reason != RtpFlowUnhandledReason::Handled,
        !crate::rtp_stats_receiver_restart::shows_restart(state.misfits),
    ensures
        payload_size == 0 ==> state.after_packet(sn, ts, payload_size) == state,
        payload_size > 0 && state.misfits.len() < 4 ==> state.after_packet(
            sn,
            ts,
            payload_size,
        ).misfits == state.misfits.push(Packet { sequence_number: sn, timestamp: ts }),
{
}

} // verus!
