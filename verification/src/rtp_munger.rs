//! Rewriting of sequence numbers and timestamps of a forwarded RTP stream.
use crate::rtp_munger::range_map::{RangeMapU64, RangeVal};
use crate::wrapping::signed_diff;
use vstd::prelude::*;

pub mod range_map;

verus! {

/// How many closed sequence number ranges a munger remembers.
pub const RTP_MUNGER_RANGE_MAP_SIZE: usize = 100;

/// How many packets after a key frame retransmissions from before it stay blocked.
pub const RTX_GATE_WINDOW: u64 = 2_000;

/// Where a packet stands in relation to those seen before it.
#[derive(Debug, Clone, Copy, PartialEq, Eq, Structural)]
pub enum SequenceNumberOrdering {
    Contiguous,
    OutOfOrder,
    Gap,
    Duplicate,
}

/// The numbers that a forwarded packet carries.
#[derive(Debug, Clone, Copy, PartialEq, Eq, Structural)]
pub struct TranslationParamsRtp {
    pub sn_ordering: SequenceNumberOrdering,
    pub ext_sequence_number: u64,
    pub ext_timestamp: u64,
}

/// A sequence number and a timestamp.
#[derive(Debug, Clone, Copy, PartialEq, Eq, Structural)]
pub struct SnTs {
    pub ext_sequence_number: u64,
    pub ext_timestamp: u64,
}

/// Why a packet is not forwarded.
#[derive(Debug, Clone, Copy, PartialEq, Eq, Structural)]
pub enum RtpMungerError {
    OutOfOrderSequenceNumberCacheMiss,
    DuplicatePacket,
    PaddingOnlyPacket,
    PaddingNotOnFrameBoundary,
}

/// What the munger reads of an incoming packet.
#[derive(Debug, Clone, Copy, PartialEq, Eq, Structural)]
pub struct RtpMungerInputPacket {
    pub ext_sequence_number: u64,
    pub ext_timestamp: u64,
    pub payload_size: usize,
    pub is_key_frame: bool,
}

/// The translation state of one forwarded stream.
#[derive(Debug, Clone)]
pub struct RtpMunger {
    pub ext_highest_incoming_sn: u64,
    pub sn_range_map: RangeMapU64,
    pub ext_last_sn: u64,
    pub ext_second_last_sn: u64,
    pub sn_offset: u64,
    pub ext_last_ts: u64,
    pub ext_second_last_ts: u64,
    pub ts_offset: u64,
    pub last_marker: bool,
    pub second_last_marker: bool,
    pub ext_rtx_gate_sn: u64,
    pub is_in_rtx_gate_region: bool,
}

/// The contents of an [`RtpMunger`].
#[verifier::ext_equal]
pub struct RtpMungerView {
    pub ext_highest_incoming_sn: u64,
    pub ranges: Seq<RangeVal>,
    pub ext_last_sn: u64,
    pub ext_second_last_sn: u64,
    pub sn_offset: u64,
    pub ext_last_ts: u64,
    pub ext_second_last_ts: u64,
    pub ts_offset: u64,
    pub last_marker: bool,
    pub second_last_marker: bool,
    pub ext_rtx_gate_sn: u64,
    pub is_in_rtx_gate_region: bool,
}

impl View for RtpMunger {
    type V = RtpMungerView;

    open spec fn view(&self) -> RtpMungerView {
        RtpMungerView {
            ext_highest_incoming_sn: self.ext_highest_incoming_sn,
            ranges: self.sn_range_map.ranges@,
            ext_last_sn: self.ext_last_sn,
            ext_second_last_sn: self.ext_second_last_sn,
            sn_offset: self.sn_offset,
            ext_last_ts: self.ext_last_ts,
            ext_second_last_ts: self.ext_second_last_ts,
            ts_offset: self.ts_offset,
            last_marker: self.last_marker,
            second_last_marker: self.second_last_marker,
            ext_rtx_gate_sn: self.ext_rtx_gate_sn,
            is_in_rtx_gate_region: self.is_in_rtx_gate_region,
        }
    }
}

/// The offset that the packet after `highest` will be shifted by, 0 where the map has none.
pub open spec fn next_offset(ranges: Seq<RangeVal>, highest: u64) -> u64 {
    match range_map::lookup(ranges, highest.wrapping_add(1)) {
        Ok(offset) => offset,
        Err(_) => 0,
    }
}

/// The ranges after the packet `sn` is taken out of the outgoing sequence, where it can be.
pub open spec fn without_packet(ranges: Seq<RangeVal>, sn: u64) -> Seq<RangeVal> {
    if range_map::can_exclude(ranges, sn, (sn + 1) as u64) {
        range_map::after_exclusion(
            ranges,
            RTP_MUNGER_RANGE_MAP_SIZE as nat,
            sn,
            (sn + 1) as u64,
        )
    } else {
        ranges
    }
}

impl RtpMungerView {
    /// How far the packet is ahead of the newest one seen.
    pub open spec fn ahead(self, packet: RtpMungerInputPacket) -> int {
        crate::wrapping::signed_distance(packet.ext_sequence_number, self.ext_highest_incoming_sn)
    }

    /// The packet moves the stream forward and is sent on.
    pub open spec fn advances(self, packet: RtpMungerInputPacket) -> bool {
        self.ahead(packet) > 1 || (self.ahead(packet) == 1 && packet.payload_size != 0)
    }

    /// The packet is the next one, and carries only padding.
    pub open spec fn only_pads(self, packet: RtpMungerInputPacket) -> bool {
        self.ahead(packet) == 1 && packet.payload_size == 0
    }

    /// The state in which `packet` is to start the outgoing stream, unshifted.
    pub open spec fn started(self, packet: RtpMungerInputPacket) -> Self {
        RtpMungerView {
            ext_highest_incoming_sn: packet.ext_sequence_number.wrapping_sub(1),
            ranges: seq![RangeVal { start: packet.ext_sequence_number, end: 0, value: 0 }],
            ext_last_sn: packet.ext_sequence_number,
            ext_second_last_sn: packet.ext_sequence_number.wrapping_sub(1),
            sn_offset: 0,
            ext_last_ts: packet.ext_timestamp,
            ext_second_last_ts: packet.ext_timestamp,
            ts_offset: 0,
            ..self
        }
    }

    /// The state in which `packet`, of another source, is to continue the outgoing stream at the
    /// given distances from the last packet sent.
    pub open spec fn switched(
        self,
        packet: RtpMungerInputPacket,
        sn_adjust: u64,
        ts_adjust: u64,
    ) -> Self {
        let offset = packet.ext_sequence_number.wrapping_sub(self.ext_last_sn).wrapping_sub(
            sn_adjust,
        );
        RtpMungerView {
            ext_highest_incoming_sn: packet.ext_sequence_number.wrapping_sub(1),
            ranges: seq![RangeVal { start: packet.ext_sequence_number, end: 0, value: offset }],
            sn_offset: offset,
            ts_offset: packet.ext_timestamp.wrapping_sub(self.ext_last_ts).wrapping_sub(ts_adjust),
            ..self
        }
    }

    /// The state after a packet that [advances](Self::advances) the stream was sent on.
    pub open spec fn advanced(self, packet: RtpMungerInputPacket, marker: bool) -> Self {
        let sn = packet.ext_sequence_number.wrapping_sub(self.sn_offset);
        let gate = if packet.is_key_frame {
            sn
        } else {
            self.ext_rtx_gate_sn
        };
        RtpMungerView {
            ext_highest_incoming_sn: packet.ext_sequence_number,
            ext_second_last_sn: self.ext_last_sn,
            ext_last_sn: sn,
            ext_second_last_ts: self.ext_last_ts,
            ext_last_ts: packet.ext_timestamp.wrapping_sub(self.ts_offset),
            second_last_marker: self.last_marker,
            last_marker: marker,
            ext_rtx_gate_sn: gate,
            is_in_rtx_gate_region: (packet.is_key_frame || self.is_in_rtx_gate_region)
                && sn.wrapping_sub(gate) <= RTX_GATE_WINDOW,
            ..self
        }
    }

    /// The state after the next packet turned out to be padding only.
    pub open spec fn skipped(self, packet: RtpMungerInputPacket) -> Self {
        let ranges = without_packet(self.ranges, packet.ext_sequence_number);
        RtpMungerView {
            ext_highest_incoming_sn: packet.ext_sequence_number,
            ranges,
            sn_offset: next_offset(ranges, packet.ext_sequence_number),
            ..self
        }
    }

    /// The state after the newest packet was taken back.
    pub open spec fn dropped(self) -> Self {
        let ranges = without_packet(self.ranges, self.ext_highest_incoming_sn);
        RtpMungerView {
            ranges,
            ext_last_sn: self.ext_second_last_sn,
            sn_offset: next_offset(ranges, self.ext_highest_incoming_sn),
            ext_last_ts: self.ext_second_last_ts,
            last_marker: self.second_last_marker,
            ..self
        }
    }

    /// What becomes of a late packet: its shifted numbers, where they are known and lie before the
    /// newest ones sent.
    pub open spec fn late(self, packet: RtpMungerInputPacket) -> Result<
        TranslationParamsRtp,
        RtpMungerError,
    > {
        match range_map::lookup(self.ranges, packet.ext_sequence_number) {
            Ok(offset) => {
                let sn = packet.ext_sequence_number.wrapping_sub(offset);
                if sn < self.ext_last_sn {
                    Ok(
                        TranslationParamsRtp {
                            sn_ordering: SequenceNumberOrdering::OutOfOrder,
                            ext_sequence_number: sn,
                            ext_timestamp: packet.ext_timestamp.wrapping_sub(self.ts_offset),
                        },
                    )
                } else {
                    Err(RtpMungerError::OutOfOrderSequenceNumberCacheMiss)
                }
            },
            Err(_) => Err(RtpMungerError::OutOfOrderSequenceNumberCacheMiss),
        }
    }

    /// What becomes of a packet.
    pub open spec fn translation(self, packet: RtpMungerInputPacket) -> Result<
        TranslationParamsRtp,
        RtpMungerError,
    > {
        if self.advances(packet) {
            Ok(
                TranslationParamsRtp {
                    sn_ordering: if self.ahead(packet) == 1 {
                        SequenceNumberOrdering::Contiguous
                    } else {
                        SequenceNumberOrdering::Gap
                    },
                    ext_sequence_number: packet.ext_sequence_number.wrapping_sub(self.sn_offset),
                    ext_timestamp: packet.ext_timestamp.wrapping_sub(self.ts_offset),
                },
            )
        } else if self.ahead(packet) < 0 {
            self.late(packet)
        } else if self.ahead(packet) == 1 {
            Err(RtpMungerError::PaddingOnlyPacket)
        } else {
            Err(RtpMungerError::DuplicatePacket)
        }
    }

    /// The state after a packet was looked at.
    pub open spec fn after_packet(self, packet: RtpMungerInputPacket, marker: bool) -> Self {
        if self.advances(packet) {
            self.advanced(packet, marker)
        } else if self.only_pads(packet) {
            self.skipped(packet)
        } else {
            self
        }
    }

    /// The retransmission of `sn` may go out: it is not older than the last key frame.
    pub open spec fn passes_rtx_gate(self, sn: u16) -> bool {
        !self.is_in_rtx_gate_region || sn.wrapping_sub((self.ext_rtx_gate_sn % 0x1_0000) as u16)
            < 0x8000
    }
}

/// What is asked of a run of padding packets.
pub struct PaddingRequest {
    pub clock_rate: u32,
    pub frame_rate: u32,
    pub continues_frame: bool,
    pub ext_rtp_timestamp: u64,
    pub ext_last_ts: u64,
}

impl PaddingRequest {
    /// How many frame intervals after the given timestamp padding packet `i` stands.
    pub open spec fn frames_ahead(self, i: int) -> int {
        if self.continues_frame {
            i
        } else {
            i + 1
        }
    }

    /// The time of padding packet `i` by the frame rate, rounded up to a clock tick.
    pub open spec fn paced_timestamp(self, i: int) -> u64 {
        let clock = self.frames_ahead(i) * self.clock_rate;
        self.ext_rtp_timestamp.wrapping_add(
            ((clock + self.frame_rate - 1) / self.frame_rate as int) as u64,
        )
    }

    /// The newest timestamp once the first `i` padding packets are placed.
    pub open spec fn newest_timestamp(self, i: int) -> u64
        decreases i,
    {
        if i <= 0 || self.frame_rate == 0 {
            self.ext_last_ts
        } else if self.continues_frame && i == 1 {
            self.ext_last_ts
        } else {
            let before = self.newest_timestamp(i - 1);
            if self.paced_timestamp(i - 1) <= before {
                before.wrapping_add(1)
            } else {
                self.paced_timestamp(i - 1)
            }
        }
    }

    /// The clock arithmetic of `num` padding packets stays within `u32`.
    pub open spec fn fits(self, num: int) -> bool {
        self.frame_rate != 0 ==> self.frames_ahead(num - 1) * self.clock_rate <= u32::MAX
    }
}

impl RtpMungerView {
    /// The request that padding starts from in this state.
    pub open spec fn padding_request(
        self,
        clock_rate: u32,
        frame_rate: u32,
        ext_rtp_timestamp: u64,
    ) -> PaddingRequest {
        PaddingRequest {
            clock_rate,
            frame_rate,
            continues_frame: !self.last_marker,
            ext_rtp_timestamp,
            ext_last_ts: self.ext_last_ts,
        }
    }

    /// The state after `num` padding packets were sent.
    pub open spec fn padded(
        self,
        num: int,
        request: PaddingRequest,
        force_marker: bool,
    ) -> Self {
        let newest = request.newest_timestamp(num);
        let ranges = range_map::after_decrement(
            self.ranges,
            RTP_MUNGER_RANGE_MAP_SIZE as nat,
            self.ext_highest_incoming_sn,
            num as u64,
        );
        RtpMungerView {
            ranges,
            ext_last_sn: self.ext_last_sn.wrapping_add(num as u64),
            ext_second_last_sn: self.ext_last_sn.wrapping_add(num as u64).wrapping_sub(1),
            sn_offset: next_offset(ranges, self.ext_highest_incoming_sn),
            ext_second_last_ts: request.newest_timestamp(num - 1),
            ext_last_ts: newest,
            ts_offset: self.ts_offset.wrapping_sub(newest.wrapping_sub(self.ext_last_ts)),
            second_last_marker: self.last_marker,
            last_marker: self.last_marker || force_marker,
            ..self
        }
    }
}

impl RtpMunger {
    /// The range map is a munger's.
    pub open spec fn wf(self) -> bool {
        &&& self.sn_range_map.wf()
        &&& self.sn_range_map.size == RTP_MUNGER_RANGE_MAP_SIZE
    }

    /// A munger that has seen nothing.
    pub fn new() -> (munger: Self)
        ensures
            munger.wf(),
            munger@ == (RtpMungerView {
                ext_highest_incoming_sn: 0,
                ranges: seq![RangeVal { start: 0, end: 0, value: 0 }],
                ext_last_sn: 0,
                ext_second_last_sn: 0,
                sn_offset: 0,
                ext_last_ts: 0,
                ext_second_last_ts: 0,
                ts_offset: 0,
                last_marker: false,
                second_last_marker: false,
                ext_rtx_gate_sn: 0,
                is_in_rtx_gate_region: false,
            }),
    {
        RtpMunger {
            ext_highest_incoming_sn: 0,
            sn_range_map: RangeMapU64::new(RTP_MUNGER_RANGE_MAP_SIZE),
            ext_last_sn: 0,
            ext_second_last_sn: 0,
            sn_offset: 0,
            ext_last_ts: 0,
            ext_second_last_ts: 0,
            ts_offset: 0,
            last_marker: false,
            second_last_marker: false,
            ext_rtx_gate_sn: 0,
            is_in_rtx_gate_region: false,
        }
    }

    /// Starts the outgoing stream at `packet`, which is to pass unshifted.
    pub fn set_last_sn_ts(&mut self, packet: &RtpMungerInputPacket)
        requires
            old(self).wf(),
        ensures
            final(self).wf(),
            final(self)@ == old(self)@.started(*packet),
    {
        self.ext_highest_incoming_sn = packet.ext_sequence_number.wrapping_sub(1);
        self.ext_last_sn = packet.ext_sequence_number;
        self.ext_second_last_sn = self.ext_last_sn.wrapping_sub(1);
        self.sn_range_map.clear_and_reset_value(packet.ext_sequence_number, 0);
        self.update_sn_offset();
        self.ext_last_ts = packet.ext_timestamp;
        self.ext_second_last_ts = packet.ext_timestamp;
        self.ts_offset = 0;
    }

    /// Continues the outgoing stream from another source, whose next packet is `packet`.
    pub fn update_sn_ts_offsets(
        &mut self,
        packet: &RtpMungerInputPacket,
        sn_adjust: u64,
        ts_adjust: u64,
    )
        requires
            old(self).wf(),
        ensures
            final(self).wf(),
            final(self)@ == old(self)@.switched(*packet, sn_adjust, ts_adjust),
    {
        self.ext_highest_incoming_sn = packet.ext_sequence_number.wrapping_sub(1);
        self.sn_range_map.clear_and_reset_value(
            packet.ext_sequence_number,
            packet.ext_sequence_number.wrapping_sub(self.ext_last_sn).wrapping_sub(sn_adjust),
        );
        self.update_sn_offset();
        self.ts_offset = packet.ext_timestamp.wrapping_sub(self.ext_last_ts).wrapping_sub(
            ts_adjust,
        );
    }

    /// Takes `packet` back, if it is the newest one seen.
    pub fn packet_dropped(&mut self, packet: &RtpMungerInputPacket)
        requires
            old(self).wf(),
            old(self).ext_highest_incoming_sn == packet.ext_sequence_number
                ==> packet.ext_sequence_number < u64::MAX,
        ensures
            final(self).wf(),
            final(self)@ == if old(self).ext_highest_incoming_sn == packet.ext_sequence_number {
                old(self)@.dropped()
            } else {
                old(self)@
            },
    {
        if self.ext_highest_incoming_sn != packet.ext_sequence_number {
            return ;
        }
        let _ = self.sn_range_map.exclude_range(
            self.ext_highest_incoming_sn,
            self.ext_highest_incoming_sn + 1,
        );
        self.ext_last_sn = self.ext_second_last_sn;
        self.update_sn_offset();
        self.ext_last_ts = self.ext_second_last_ts;
        self.last_marker = self.second_last_marker;
    }

    /// The outgoing numbers of `packet`, or why it is not sent on.
    pub fn update_and_get_sn_ts(&mut self, packet: &RtpMungerInputPacket, marker: bool) -> (result:
        Result<TranslationParamsRtp, RtpMungerError>)
        requires
            old(self).wf(),
            old(self)@.only_pads(*packet) ==> packet.ext_sequence_number < u64::MAX,
        ensures
            final(self).wf(),
            result == old(self)@.translation(*packet),
            final(self)@ == old(self)@.after_packet(*packet, marker),
    {
        let diff: i64 = signed_diff(packet.ext_sequence_number, self.ext_highest_incoming_sn);
        if (diff == 1 && packet.payload_size != 0) || diff > 1 {
            self.ext_highest_incoming_sn = packet.ext_sequence_number;
            let ordering = if diff > 1 {
                SequenceNumberOrdering::Gap
            } else {
                SequenceNumberOrdering::Contiguous
            };
            let ext_munged_sn: u64 = packet.ext_sequence_number.wrapping_sub(self.sn_offset);
            let ext_munged_ts: u64 = packet.ext_timestamp.wrapping_sub(self.ts_offset);
            self.ext_second_last_sn = self.ext_last_sn;
            self.ext_last_sn = ext_munged_sn;
            self.ext_second_last_ts = self.ext_last_ts;
            self.ext_last_ts = ext_munged_ts;
            self.second_last_marker = self.last_marker;
            self.last_marker = marker;
            if packet.is_key_frame {
                self.ext_rtx_gate_sn = ext_munged_sn;
                self.is_in_rtx_gate_region = true;
            }
            if self.is_in_rtx_gate_region && ext_munged_sn.wrapping_sub(self.ext_rtx_gate_sn)
                > RTX_GATE_WINDOW {
                self.is_in_rtx_gate_region = false;
            }
            return Ok(
                TranslationParamsRtp {
                    sn_ordering: ordering,
                    ext_sequence_number: ext_munged_sn,
                    ext_timestamp: ext_munged_ts,
                },
            );
        }
        if diff < 0 {
            return match self.sn_range_map.get_value(packet.ext_sequence_number) {
                Ok(sn_offset) => {
                    let ext_sequence_number: u64 = packet.ext_sequence_number.wrapping_sub(
                        sn_offset,
                    );
                    if ext_sequence_number >= self.ext_last_sn {
                        Err(RtpMungerError::OutOfOrderSequenceNumberCacheMiss)
                    } else {
                        Ok(
                            TranslationParamsRtp {
                                sn_ordering: SequenceNumberOrdering::OutOfOrder,
                                ext_sequence_number,
                                ext_timestamp: packet.ext_timestamp.wrapping_sub(self.ts_offset),
                            },
                        )
                    }
                },
                Err(_) => Err(RtpMungerError::OutOfOrderSequenceNumberCacheMiss),
            };
        }
        if diff == 1 {
            self.ext_highest_incoming_sn = packet.ext_sequence_number;
            let _ = self.sn_range_map.exclude_range(
                self.ext_highest_incoming_sn,
                self.ext_highest_incoming_sn + 1,
            );
            self.update_sn_offset();
            return Err(RtpMungerError::PaddingOnlyPacket);
        }
        Err(RtpMungerError::DuplicatePacket)
    }

    /// The retransmission requests that are answered: behind a key frame, only those for packets
    /// from the key frame on.
    pub fn filter_rtx(&self, nacks: &[u16]) -> (filtered: Vec<u16>)
        ensures
            filtered@ == nacks@.filter(|sn: u16| self@.passes_rtx_gate(sn)),
    {
        let ghost passes = |sn: u16| self@.passes_rtx_gate(sn);
        let gate: u16 = (self.ext_rtx_gate_sn % 0x1_0000) as u16;
        let mut filtered: Vec<u16> = Vec::new();
        let mut i: usize = 0;
        while i < nacks.len()
            invariant
                i <= nacks@.len(),
                gate == (self.ext_rtx_gate_sn % 0x1_0000) as u16,
                passes == (|sn: u16| self@.passes_rtx_gate(sn)),
                filtered@ == nacks@.take(i as int).filter(passes),
            decreases nacks.len() - i,
        {
            let sn: u16 = nacks[i];
            proof {
                reveal(Seq::filter);
                assert(nacks@.take(i + 1).drop_last() =~= nacks@.take(i as int));
            }
            if !self.is_in_rtx_gate_region || sn.wrapping_sub(gate) < 0x8000 {
                filtered.push(sn);
            }
            i += 1;
        }
        assert(nacks@.take(i as int) =~= nacks@);
        filtered
    }

    /// The numbers of `num` padding packets that continue the outgoing stream. They start on a
    /// frame boundary, or finish the current frame first when `force_marker` is set.
    pub fn update_and_get_padding_sn_ts(
        &mut self,
        num: usize,
        clock_rate: u32,
        frame_rate: u32,
        force_marker: bool,
        ext_rtp_timestamp: u64,
    ) -> (result: Result<Vec<SnTs>, RtpMungerError>)
        requires
            old(self).wf(),
            num > 0 && (old(self).last_marker || force_marker) ==> old(self)@.padding_request(
                clock_rate,
                frame_rate,
                ext_rtp_timestamp,
            ).fits(num as int),
        ensures
            final(self).wf(),
            num > 0 && !old(self).last_marker && !force_marker ==> result == Err::<
                Vec<SnTs>,
                RtpMungerError,
            >(RtpMungerError::PaddingNotOnFrameBoundary) && final(self)@ == old(self)@,
            num == 0 ==> result is Ok && result->Ok_0@ == Seq::<SnTs>::empty() && final(self)@
                == old(self)@,
            num > 0 && (old(self).last_marker || force_marker) ==> ({
                let request = old(self)@.padding_request(
                    clock_rate,
                    frame_rate,
                    ext_rtp_timestamp,
                );
                &&& result is Ok
                &&& result->Ok_0@ == Seq::new(
                    num as nat,
                    |i: int|
                        SnTs {
                            ext_sequence_number: old(self).ext_last_sn.wrapping_add(
                                (i + 1) as u64,
                            ),
                            ext_timestamp: request.newest_timestamp(i + 1),
                        },
                )
                &&& final(self)@ == old(self)@.padded(num as int, request, force_marker)
            }),
    {
        if num == 0 {
            return Ok(Vec::new());
        }
        let continues_frame: bool = !self.last_marker;
        if continues_frame && !force_marker {
            return Err(RtpMungerError::PaddingNotOnFrameBoundary);
        }
        let ghost request = self@.padding_request(clock_rate, frame_rate, ext_rtp_timestamp);
        let start_sn: u64 = self.ext_last_sn;
        let mut ext_last_sn: u64 = start_sn;
        let mut ext_last_ts: u64 = self.ext_last_ts;
        let mut second_last_ts: u64 = self.ext_last_ts;
        let mut vals: Vec<SnTs> = Vec::new();
        let mut i: usize = 0;
        while i < num
            invariant
                i <= num,
                num > 0,
                request.fits(num as int),
                request.clock_rate == clock_rate,
                request.frame_rate == frame_rate,
                request.continues_frame == continues_frame,
                request.ext_rtp_timestamp == ext_rtp_timestamp,
                request.ext_last_ts == self.ext_last_ts,
                ext_last_sn == start_sn.wrapping_add(i as u64),
                ext_last_ts == request.newest_timestamp(i as int),
                second_last_ts == request.newest_timestamp(i - 1),
                vals@ == Seq::new(
                    i as nat,
                    |j: int|
                        SnTs {
                            ext_sequence_number: start_sn.wrapping_add((j + 1) as u64),
                            ext_timestamp: request.newest_timestamp(j + 1),
                        },
                ),
            decreases num - i,
        {
            ext_last_sn = ext_last_sn.wrapping_add(1);
            second_last_ts = ext_last_ts;
            if frame_rate != 0 && !(continues_frame && i == 0) {
                let ghost frames = request.frames_ahead(i as int);
                proof {
                    lemma_frames_fit(request, i as int, num as int);
                }
                let clock: u32 = if clock_rate == 0 {
                    0
                } else {
                    proof {
                        lemma_frame_count_fits(frames, clock_rate as int);
                    }
                    let i_term: u32 = if continues_frame {
                        i as u32
                    } else {
                        i as u32 + 1
                    };
                    i_term * clock_rate
                };
                assert(clock == frames * clock_rate) by {
                    if clock_rate == 0 {
                        assert(frames * clock_rate == 0) by (nonlinear_arith)
                            requires
                                clock_rate == 0,
                        ;
                    }
                }
                let ticks: u64 = (clock as u64 + frame_rate as u64 - 1) / frame_rate as u64;
                assert(ticks == (frames * clock_rate + frame_rate - 1) / frame_rate as int);
                let mut ets: u64 = ext_rtp_timestamp.wrapping_add(ticks);
                assert(ets == request.paced_timestamp(i as int));
                if ets <= ext_last_ts {
                    ets = ext_last_ts.wrapping_add(1);
                }
                ext_last_ts = ets;
            }
            vals.push(SnTs { ext_sequence_number: ext_last_sn, ext_timestamp: ext_last_ts });
            i += 1;
        }
        self.ext_second_last_sn = ext_last_sn.wrapping_sub(1);
        self.ext_last_sn = ext_last_sn;
        self.sn_range_map.dec_value(self.ext_highest_incoming_sn, num as u64);
        self.update_sn_offset();
        self.ext_second_last_ts = second_last_ts;
        self.ts_offset = self.ts_offset.wrapping_sub(ext_last_ts.wrapping_sub(self.ext_last_ts));
        self.ext_last_ts = ext_last_ts;
        self.second_last_marker = self.last_marker;
        if force_marker {
            self.last_marker = true;
        }
        Ok(vals)
    }

    /// The last packet sent ended a frame.
    pub fn is_on_frame_boundary(&self) -> (on_boundary: bool)
        ensures
            on_boundary == self.last_marker,
    {
        self.last_marker
    }

    /// Looks the offset of the next packet up.
    pub fn update_sn_offset(&mut self)
        ensures
            final(self).sn_range_map == old(self).sn_range_map,
            final(self)@ == (RtpMungerView {
                sn_offset: next_offset(old(self)@.ranges, old(self).ext_highest_incoming_sn),
                ..old(self)@
            }),
    {
        self.sn_offset = match self.sn_range_map.get_value(
            self.ext_highest_incoming_sn.wrapping_add(1),
        ) {
            Ok(offset) => offset,
            Err(_) => 0,
        };
    }
}

impl RtpMungerView {
    /// The offset in use is that of the open range, which begins no later than the next packet.
    pub open spec fn in_step(self) -> bool {
        &&& self.ranges.len() > 0
        &&& self.ranges.last().start <= self.ext_highest_incoming_sn + 1
        &&& self.sn_offset == self.ranges.last().value
    }

    /// The last packet sent is the newest one seen.
    pub open spec fn aligned(self) -> bool {
        self.ext_last_sn == self.ext_highest_incoming_sn.wrapping_sub(self.sn_offset)
    }
}

/// The first packet after a start passes unshifted.
pub proof fn law_start_passes_unshifted(state: RtpMungerView, packet: RtpMungerInputPacket)
    requires
        packet.payload_size != 0,
    ensures
        state.started(packet).in_step(),
        state.started(packet).translation(packet) == Ok::<TranslationParamsRtp, RtpMungerError>(
            TranslationParamsRtp {
                sn_ordering: SequenceNumberOrdering::Contiguous,
                ext_sequence_number: packet.ext_sequence_number,
                ext_timestamp: packet.ext_timestamp,
            },
        ),
{
}

/// The first packet after a switch of sources stands at the given distances from the last packet
/// that was sent before it.
pub proof fn law_switch_continues_stream(
    state: RtpMungerView,
    packet: RtpMungerInputPacket,
    sn_adjust: u64,
    ts_adjust: u64,
)
    requires
        packet.payload_size != 0,
    ensures
        state.switched(packet, sn_adjust, ts_adjust).translation(packet) == Ok::<
            TranslationParamsRtp,
            RtpMungerError,
        >(
            TranslationParamsRtp {
                sn_ordering: SequenceNumberOrdering::Contiguous,
                ext_sequence_number: state.ext_last_sn.wrapping_add(sn_adjust),
                ext_timestamp: state.ext_last_ts.wrapping_add(ts_adjust),
            },
        ),
{
}

/// Every packet that does not wrap the incoming counter keeps the offset in step, and a packet
/// that was sent on is the newest one seen.
pub proof fn law_packets_keep_step(
    state: RtpMungerView,
    packet: RtpMungerInputPacket,
    marker: bool,
)
    requires
        state.in_step(),
        state.ahead(packet) > 0 ==> state.ext_highest_incoming_sn < packet.ext_sequence_number
            < u64::MAX,
    ensures
        state.after_packet(packet, marker).in_step(),
        state.advances(packet) ==> state.after_packet(packet, marker).aligned(),
{
}

/// A packet that follows on the newest one seen, once that one was sent on, gets the next number.
pub proof fn law_contiguous_stays_contiguous(
    state: RtpMungerView,
    packet: RtpMungerInputPacket,
)
    requires
        state.aligned(),
        state.ahead(packet) == 1,
        packet.payload_size != 0,
    ensures
        state.translation(packet) matches Ok(sent) && sent.ext_sequence_number
            == state.ext_last_sn.wrapping_add(1),
{
}

/// A padding-only packet leaves no hole: the packet after it gets the number that the padding
/// would have had.
pub proof fn law_padding_only_leaves_no_hole(
    state: RtpMungerView,
    packet: RtpMungerInputPacket,
    next: RtpMungerInputPacket,
)
    requires
        state.in_step(),
        state.only_pads(packet),
        packet.ext_sequence_number == state.ext_highest_incoming_sn + 1,
        state.sn_offset < u64::MAX,
        next.ext_sequence_number == packet.ext_sequence_number + 1,
        next.payload_size != 0,
    ensures
        state.skipped(packet).translation(next) matches Ok(sent) && sent.ext_sequence_number
            == packet.ext_sequence_number.wrapping_sub(state.sn_offset),
{
    let sn = packet.ext_sequence_number;
    assert(range_map::can_exclude(state.ranges, sn, (sn + 1) as u64));
    assert(state.skipped(packet).ranges.last().start == sn + 1);
}

/// A packet that was sent on and then taken back leaves no hole: the packet after it gets the
/// number that it had, and the stream is back at the packet before it.
pub proof fn law_dropped_packet_leaves_no_hole(
    state: RtpMungerView,
    packet: RtpMungerInputPacket,
    marker: bool,
    next: RtpMungerInputPacket,
)
    requires
        state.in_step(),
        state.advances(packet),
        state.ext_highest_incoming_sn < packet.ext_sequence_number,
        state.sn_offset < u64::MAX,
        next.ext_sequence_number == packet.ext_sequence_number + 1,
        next.payload_size != 0,
    ensures
        ({
            let after = state.after_packet(packet, marker).dropped();
            &&& after.in_step()
            &&& after.ext_last_sn == state.ext_last_sn
            &&& after.ext_last_ts == state.ext_last_ts
            &&& after.last_marker == state.last_marker
            &&& state.translation(packet) matches Ok(taken_back) && after.translation(
                next,
            ) matches Ok(sent) && sent.ext_sequence_number == taken_back.ext_sequence_number
        }),
{
    let sn = packet.ext_sequence_number;
    let sent = state.after_packet(packet, marker);
    assert(range_map::can_exclude(sent.ranges, sn, (sn + 1) as u64));
    assert(sent.dropped().ranges.last().start == sn + 1);
}

/// Padding that makes use of numbers freed before it is followed without a hole: the next packet
/// gets the number behind the last padding packet.
pub proof fn law_padding_is_followed_contiguously(
    state: RtpMungerView,
    num: int,
    request: PaddingRequest,
    force_marker: bool,
    next: RtpMungerInputPacket,
)
    requires
        state.in_step(),
        state.aligned(),
        0 < num <= state.sn_offset,
        next.ext_sequence_number == state.ext_highest_incoming_sn + 1,
        next.payload_size != 0,
    ensures
        state.padded(num, request, force_marker).in_step(),
        state.padded(num, request, force_marker).aligned(),
        state.padded(num, request, force_marker).translation(next) matches Ok(sent)
            && sent.ext_sequence_number == state.ext_last_sn.wrapping_add(num as u64).wrapping_add(
            1,
        ),
{
    let after = state.padded(num, request, force_marker);
    assert(after.ranges.last().start == state.ext_highest_incoming_sn + 1);
    assert(after.sn_offset == state.sn_offset - num);
}

/// Padding packets never go back in time, as long as the timestamps do not wrap.
pub proof fn law_padding_time_moves_forward(request: PaddingRequest, i: int)
    requires
        0 <= i,
        request.newest_timestamp(i) < u64::MAX,
    ensures
        request.newest_timestamp(i) <= request.newest_timestamp(i + 1),
        request.frame_rate != 0 && !(request.continues_frame && i == 0) ==> request.newest_timestamp(
            i,
        ) < request.newest_timestamp(i + 1),
{
}

proof fn lemma_frames_fit(request: PaddingRequest, i: int, num: int)
    requires
        0 <= i < num,
        request.frame_rate != 0,
        request.fits(num),
    ensures
        0 <= request.frames_ahead(i) * request.clock_rate <= u32::MAX,
{
    let a = request.frames_ahead(i);
    let b = request.frames_ahead(num - 1);
    let c = request.clock_rate as int;
    assert(0 <= a * c <= b * c) by (nonlinear_arith)
        requires
            0 <= a <= b,
            0 <= c,
    ;
}

proof fn lemma_frame_count_fits(frames: int, clock_rate: int)
    requires
        0 <= frames * clock_rate <= u32::MAX,
        clock_rate > 0,
    ensures
        frames <= u32::MAX,
{
    assert(frames <= frames * clock_rate || frames < 0) by (nonlinear_arith)
        requires
            clock_rate > 0,
    ;
}

/// Every packet that is sent on, whether it is the next one, comes after a gap or is late, goes out
/// with its own timestamp less the offset of the stream. A packet that moves the stream forward
/// likewise goes out with its own number less the offset.
pub proof fn law_sent_packets_are_shifted(state: RtpMungerView, packet: RtpMungerInputPacket)
    requires
        state.translation(packet) is Ok,
    ensures
        state.translation(packet)->Ok_0.ext_timestamp.wrapping_add(state.ts_offset)
            == packet.ext_timestamp,
        0 < packet.ext_sequence_number.wrapping_sub(state.ext_highest_incoming_sn)
            < 0x8000_0000_0000_0000 ==> state.translation(
            packet,
        )->Ok_0.ext_sequence_number.wrapping_add(state.sn_offset) == packet.ext_sequence_number,
{
}

/// Two packets of one source, sent one after the other, keep the distance of their timestamps,
/// whatever their order; what was only looked at or dropped in between does not change it.
pub proof fn law_timestamps_keep_their_distance(
    state: RtpMungerView,
    first: RtpMungerInputPacket,
    marker: bool,
    second: RtpMungerInputPacket,
)
    requires
        state.translation(first) is Ok,
    ensures
        state.after_packet(first, marker).translation(second) matches Ok(sent)
            ==> sent.ext_timestamp.wrapping_sub(state.translation(first)->Ok_0.ext_timestamp)
            == second.ext_timestamp.wrapping_sub(first.ext_timestamp),
        state.after_packet(first, marker).dropped().translation(second) matches Ok(sent)
            ==> sent.ext_timestamp.wrapping_sub(state.translation(first)->Ok_0.ext_timestamp)
            == second.ext_timestamp.wrapping_sub(first.ext_timestamp),
{
}

/// No packet of a source changes the offset of the timestamps, nor does taking one back.
pub proof fn law_timestamp_offset_stays(
    state: RtpMungerView,
    packet: RtpMungerInputPacket,
    marker: bool,
)
    ensures
        state.after_packet(packet, marker).ts_offset == state.ts_offset,
        state.dropped().ts_offset == state.ts_offset,
{
}

/// Two packets that move the stream forward one after the other keep the distance of their
/// numbers, so that what was lost between them is seen as lost by the receiver too.
pub proof fn law_numbers_keep_their_distance(
    state: RtpMungerView,
    first: RtpMungerInputPacket,
    marker: bool,
    second: RtpMungerInputPacket,
)
    requires
        first.payload_size != 0,
        second.payload_size != 0,
        0 < first.ext_sequence_number.wrapping_sub(state.ext_highest_incoming_sn)
            < 0x8000_0000_0000_0000,
        0 < second.ext_sequence_number.wrapping_sub(first.ext_sequence_number)
            < 0x8000_0000_0000_0000,
    ensures
        state.translation(first) is Ok,
        state.after_packet(first, marker).translation(second) is Ok,
        state.after_packet(first, marker).translation(
            second,
        )->Ok_0.ext_sequence_number.wrapping_sub(
            state.translation(first)->Ok_0.ext_sequence_number,
        ) == second.ext_sequence_number.wrapping_sub(first.ext_sequence_number),
{
}

/// What becomes of a packet is decided by how far it is ahead of the newest one: the newest one
/// itself is a duplicate, the one after it is contiguous unless it holds only padding, one further
/// on leaves a gap, and one that is behind is late and sent on only before the last one sent.
pub proof fn law_order_of_packets(state: RtpMungerView, packet: RtpMungerInputPacket)
    ensures
        ({
            let ahead = packet.ext_sequence_number.wrapping_sub(state.ext_highest_incoming_sn);
            let outcome = state.translation(packet);
            &&& outcome == Err::<TranslationParamsRtp, RtpMungerError>(
                RtpMungerError::DuplicatePacket,
            ) <==> ahead == 0
            &&& outcome == Err::<TranslationParamsRtp, RtpMungerError>(
                RtpMungerError::PaddingOnlyPacket,
            ) <==> ahead == 1 && packet.payload_size == 0
            &&& outcome == Err::<TranslationParamsRtp, RtpMungerError>(
                RtpMungerError::OutOfOrderSequenceNumberCacheMiss,
            ) ==> ahead >= 0x8000_0000_0000_0000
            &&& outcome != Err::<TranslationParamsRtp, RtpMungerError>(
                RtpMungerError::PaddingNotOnFrameBoundary,
            )
            &&& ahead == 1 && packet.payload_size != 0 ==> outcome is Ok
                && outcome->Ok_0.sn_ordering is Contiguous
            &&& 1 < ahead < 0x8000_0000_0000_0000 ==> outcome is Ok
                && outcome->Ok_0.sn_ordering is Gap
            &&& ahead >= 0x8000_0000_0000_0000 && outcome is Ok
                ==> outcome->Ok_0.sn_ordering is OutOfOrder
                && outcome->Ok_0.ext_sequence_number < state.ext_last_sn
        }),
{
}

/// A packet that moves the stream forward becomes the newest one, the numbers, timestamp and marker
/// that it is sent with become the last ones, and those that were the last are kept behind them.
pub proof fn law_sent_packet_is_remembered(
    state: RtpMungerView,
    packet: RtpMungerInputPacket,
    marker: bool,
)
    requires
        0 < packet.ext_sequence_number.wrapping_sub(state.ext_highest_incoming_sn)
            < 0x8000_0000_0000_0000,
        state.translation(packet) is Ok,
    ensures
        ({
            let after = state.after_packet(packet, marker);
            &&& after.ext_highest_incoming_sn == packet.ext_sequence_number
            &&& after.ext_last_sn == state.translation(packet)->Ok_0.ext_sequence_number
            &&& after.ext_last_ts == state.translation(packet)->Ok_0.ext_timestamp
            &&& after.last_marker == marker
            &&& after.ext_second_last_sn == state.ext_last_sn
            &&& after.ext_second_last_ts == state.ext_last_ts
            &&& after.second_last_marker == state.last_marker
            &&& after.ranges == state.ranges
            &&& after.sn_offset == state.sn_offset
        }),
{
}

/// A late packet and a duplicate change nothing.
pub proof fn law_late_packets_change_nothing(
    state: RtpMungerView,
    packet: RtpMungerInputPacket,
    marker: bool,
)
    requires
        packet.ext_sequence_number.wrapping_sub(state.ext_highest_incoming_sn) == 0
            || packet.ext_sequence_number.wrapping_sub(state.ext_highest_incoming_sn)
            >= 0x8000_0000_0000_0000,
    ensures
        state.after_packet(packet, marker) == state,
{
}

/// A packet with only padding is passed over: it becomes the newest one, and nothing that was sent
/// is forgotten.
pub proof fn law_padding_only_is_passed_over(
    state: RtpMungerView,
    packet: RtpMungerInputPacket,
    marker: bool,
)
    requires
        packet.payload_size == 0,
        packet.ext_sequence_number.wrapping_sub(state.ext_highest_incoming_sn) == 1,
    ensures
        ({
            let after = state.after_packet(packet, marker);
            &&& after.ext_highest_incoming_sn == packet.ext_sequence_number
            &&& after.ext_last_sn == state.ext_last_sn
            &&& after.ext_last_ts == state.ext_last_ts
            &&& after.last_marker == state.last_marker
            &&& after.ext_second_last_sn == state.ext_second_last_sn
            &&& after.ext_second_last_ts == state.ext_second_last_ts
            &&& after.second_last_marker == state.second_last_marker
            &&& after.ext_rtx_gate_sn == state.ext_rtx_gate_sn
            &&& after.is_in_rtx_gate_region == state.is_in_rtx_gate_region
        }),
{
}

/// A packet sent and taken back leaves the last number, timestamp and marker as they were before
/// it, and stays the newest one seen.
pub proof fn law_dropped_packet_is_taken_back(
    state: RtpMungerView,
    packet: RtpMungerInputPacket,
    marker: bool,
)
    requires
        0 < packet.ext_sequence_number.wrapping_sub(state.ext_highest_incoming_sn)
            < 0x8000_0000_0000_0000,
        state.translation(packet) is Ok,
    ensures
        ({
            let after = state.after_packet(packet, marker).dropped();
            &&& after.ext_highest_incoming_sn == packet.ext_sequence_number
            &&& after.ext_last_sn == state.ext_last_sn
            &&& after.ext_last_ts == state.ext_last_ts
            &&& after.last_marker == state.last_marker
        }),
{
}

/// A packet that was passed over because of a gap, and arrives late, fills the place that was left
/// for it: it is as far behind the packet after the gap as it was when it was sent.
pub proof fn law_late_packet_fills_its_place(
    state: RtpMungerView,
    newer: RtpMungerInputPacket,
    marker: bool,
    late: RtpMungerInputPacket,
)
    requires
        state.ranges.len() > 0,
        state.ranges.last().value == state.sn_offset,
        state.ranges.last().start <= late.ext_sequence_number,
        state.sn_offset <= late.ext_sequence_number,
        state.ext_highest_incoming_sn < late.ext_sequence_number < newer.ext_sequence_number,
        newer.ext_sequence_number - state.ext_highest_incoming_sn < 0x8000_0000_0000_0000,
    ensures
        state.translation(newer) is Ok,
        state.after_packet(newer, marker).translation(late) is Ok,
        state.translation(newer)->Ok_0.ext_sequence_number - state.after_packet(
            newer,
            marker,
        ).translation(late)->Ok_0.ext_sequence_number == newer.ext_sequence_number
            - late.ext_sequence_number,
{
}

/// A late packet is sent on with its number less what the map of ranges holds for it, exactly where
/// the map holds something and the number so reached lies before the last one sent.
pub proof fn law_late_packet_is_looked_up(state: RtpMungerView, packet: RtpMungerInputPacket)
    requires
        packet.ext_sequence_number.wrapping_sub(state.ext_highest_incoming_sn)
            >= 0x8000_0000_0000_0000,
    ensures
        match range_map::lookup(state.ranges, packet.ext_sequence_number) {
            Ok(offset) => {
                let sn = packet.ext_sequence_number.wrapping_sub(offset);
                if sn < state.ext_last_sn {
                    state.translation(packet) is Ok && state.translation(
                        packet,
                    )->Ok_0.ext_sequence_number == sn
                } else {
                    state.translation(packet) is Err
                }
            },
            Err(_) => state.translation(packet) is Err,
        },
{
}

/// A packet with only padding that comes again once the stream went on is not sent.
pub proof fn law_skipped_packet_is_never_sent(
    state: RtpMungerView,
    packet: RtpMungerInputPacket,
    marker: bool,
    next: RtpMungerInputPacket,
    next_marker: bool,
    again: RtpMungerInputPacket,
)
    requires
        range_map::ordered(state.ranges),
        state.ranges.len() > 0,
        state.ranges.last().start <= packet.ext_sequence_number,
        range_map::can_exclude(
            state.ranges,
            packet.ext_sequence_number,
            (packet.ext_sequence_number + 1) as u64,
        ),
        packet.payload_size == 0,
        packet.ext_sequence_number == state.ext_highest_incoming_sn + 1,
        next.payload_size != 0,
        next.ext_sequence_number == packet.ext_sequence_number + 1,
        again.ext_sequence_number == packet.ext_sequence_number,
    ensures
        state.after_packet(packet, marker).translation(again) is Err,
        state.after_packet(packet, marker).after_packet(next, next_marker).translation(
            again,
        ) is Err,
{
    range_map::law_exclusion_is_seen(
        state.ranges,
        RTP_MUNGER_RANGE_MAP_SIZE as nat,
        packet.ext_sequence_number,
        (packet.ext_sequence_number + 1) as u64,
        packet.ext_sequence_number,
    );
}

/// The packet that starts a stream goes out as it came.
pub proof fn law_started_stream_is_unshifted(
    state: RtpMungerView,
    packet: RtpMungerInputPacket,
    marker: bool,
)
    requires
        packet.payload_size != 0,
    ensures
        state.started(packet).translation(packet) == Ok::<TranslationParamsRtp, RtpMungerError>(
            (TranslationParamsRtp {
                sn_ordering: SequenceNumberOrdering::Contiguous,
                ext_sequence_number: packet.ext_sequence_number,
                ext_timestamp: packet.ext_timestamp,
            }),
        ),
        state.started(packet).ext_last_sn == packet.ext_sequence_number,
        state.started(packet).ext_last_ts == packet.ext_timestamp,
        state.started(packet).last_marker == state.last_marker,
        state.started(packet).second_last_marker == state.second_last_marker,
        state.started(packet).ext_rtx_gate_sn == state.ext_rtx_gate_sn,
        state.started(packet).is_in_rtx_gate_region == state.is_in_rtx_gate_region,
{
}

/// The first packet of another source goes out at the given distances from the last packet sent of
/// the source before, and nothing that was sent is forgotten by the switch.
pub proof fn law_switched_stream_goes_on(
    state: RtpMungerView,
    packet: RtpMungerInputPacket,
    sn_adjust: u64,
    ts_adjust: u64,
)
    requires
        packet.payload_size != 0,
    ensures
        state.switched(packet, sn_adjust, ts_adjust).translation(packet) == Ok::<
            TranslationParamsRtp,
            RtpMungerError,
        >(
            (TranslationParamsRtp {
                sn_ordering: SequenceNumberOrdering::Contiguous,
                ext_sequence_number: state.ext_last_sn.wrapping_add(sn_adjust),
                ext_timestamp: state.ext_last_ts.wrapping_add(ts_adjust),
            }),
        ),
        state.switched(packet, sn_adjust, ts_adjust).ext_last_sn == state.ext_last_sn,
        state.switched(packet, sn_adjust, ts_adjust).ext_last_ts == state.ext_last_ts,
        state.switched(packet, sn_adjust, ts_adjust).ext_second_last_sn
            == state.ext_second_last_sn,
        state.switched(packet, sn_adjust, ts_adjust).ext_second_last_ts
            == state.ext_second_last_ts,
        state.switched(packet, sn_adjust, ts_adjust).last_marker == state.last_marker,
        state.switched(packet, sn_adjust, ts_adjust).second_last_marker
            == state.second_last_marker,
        state.switched(packet, sn_adjust, ts_adjust).ext_rtx_gate_sn == state.ext_rtx_gate_sn,
        state.switched(packet, sn_adjust, ts_adjust).is_in_rtx_gate_region
            == state.is_in_rtx_gate_region,
{
}

/// No packet of the source before can be sent after a switch with the numbers that it had: one
/// that is older than the packet switched to is unknown.
pub proof fn law_switch_forgets_older_packets(
    state: RtpMungerView,
    packet: RtpMungerInputPacket,
    sn_adjust: u64,
    ts_adjust: u64,
    older: RtpMungerInputPacket,
)
    requires
        0 < older.ext_sequence_number + 1 < packet.ext_sequence_number,
        packet.ext_sequence_number - older.ext_sequence_number < 0x8000_0000_0000_0000,
    ensures
        state.switched(packet, sn_adjust, ts_adjust).translation(older) == Err::<
            TranslationParamsRtp,
            RtpMungerError,
        >(RtpMungerError::OutOfOrderSequenceNumberCacheMiss),
        state.started(packet).translation(older) == Err::<TranslationParamsRtp, RtpMungerError>(
            RtpMungerError::OutOfOrderSequenceNumberCacheMiss,
        ),
{
}

/// After a key frame is sent, the retransmission of its packet and of those after it may go out,
/// and that of those before it may not.
pub proof fn law_key_frame_closes_the_gate(
    state: RtpMungerView,
    packet: RtpMungerInputPacket,
    marker: bool,
    sn: u16,
)
    requires
        packet.is_key_frame,
        0 < packet.ext_sequence_number.wrapping_sub(state.ext_highest_incoming_sn)
            < 0x8000_0000_0000_0000,
        state.translation(packet) is Ok,
    ensures
        ({
            let gate = (state.translation(packet)->Ok_0.ext_sequence_number % 0x1_0000) as u16;
            state.after_packet(packet, marker).passes_rtx_gate(sn) <==> sn.wrapping_sub(gate)
                < 0x8000
        }),
{
}

/// Retransmissions from before the last key frame stay barred until more than the window of packets
/// were sent after it; from then on every one may go out, until the next key frame.
pub proof fn law_gate_opens_after_the_window(
    state: RtpMungerView,
    packet: RtpMungerInputPacket,
    marker: bool,
)
    requires
        !packet.is_key_frame,
        0 < packet.ext_sequence_number.wrapping_sub(state.ext_highest_incoming_sn)
            < 0x8000_0000_0000_0000,
        state.translation(packet) is Ok,
    ensures
        ({
            let after = state.after_packet(packet, marker);
            let sent = state.translation(packet)->Ok_0.ext_sequence_number;
            &&& after.ext_rtx_gate_sn == state.ext_rtx_gate_sn
            &&& sent.wrapping_sub(state.ext_rtx_gate_sn) <= 2000 ==> after.is_in_rtx_gate_region
                == state.is_in_rtx_gate_region
            &&& sent.wrapping_sub(state.ext_rtx_gate_sn) > 2000 || !state.is_in_rtx_gate_region
                ==> (forall|sn: u16| #[trigger] after.passes_rtx_gate(sn))
        }),
{
}

/// The padding packets are in time order, none of them before the time that the frame rate gives
/// for it and none later than needed: each stands at that time, rounded up to a tick, or one tick
/// after the one before. The packet that finishes a frame has the timestamp of the frame, and with
/// no frame rate all have the last timestamp.
pub proof fn law_padding_is_paced(request: PaddingRequest, i: int, ticks: u64)
    requires
        i >= 0,
        request.frame_rate != 0 ==> {
            let frames = if request.continues_frame {
                i
            } else {
                i + 1
            };
            &&& (ticks - 1) * request.frame_rate < frames * request.clock_rate
            &&& frames * request.clock_rate <= ticks * request.frame_rate
        },
    ensures
        ({
            let before = if i == 0 {
                request.ext_last_ts
            } else {
                request.newest_timestamp(i)
            };
            let due = request.ext_rtp_timestamp.wrapping_add(ticks);
            let placed = request.newest_timestamp(i + 1);
            &&& request.frame_rate == 0 ==> placed == request.ext_last_ts
            &&& request.continues_frame && i == 0 ==> placed == request.ext_last_ts
            &&& request.frame_rate != 0 && !(request.continues_frame && i == 0) ==> {
                &&& due > before ==> placed == due
                &&& due <= before ==> placed == before.wrapping_add(1)
            }
        }),
{
    reveal_with_fuel(PaddingRequest::newest_timestamp, 2);
    if request.frame_rate != 0 {
        let frames = request.frames_ahead(i);
        let clock = frames * request.clock_rate;
        let rate = request.frame_rate as int;
        assert((clock + rate - 1) / rate == ticks) by (nonlinear_arith)
            requires
                rate > 0,
                (ticks - 1) * rate < clock,
                clock <= ticks * rate,
        ;
    }
}

/// After padding the last number is that of the last padding packet and the last timestamp its
/// timestamp, and what comes next of the source is as far behind the last timestamp as it would
/// have been without padding.
pub proof fn law_padding_moves_the_stream(
    state: RtpMungerView,
    num: int,
    request: PaddingRequest,
    force_marker: bool,
    next: RtpMungerInputPacket,
)
    requires
        0 < num <= u64::MAX,
        request.ext_last_ts == state.ext_last_ts,
    ensures
        ({
            let after = state.padded(num, request, force_marker);
            &&& after.ext_last_sn == state.ext_last_sn.wrapping_add(num as u64)
            &&& after.ext_second_last_sn == state.ext_last_sn.wrapping_add((num - 1) as u64)
            &&& after.ext_last_ts == request.newest_timestamp(num)
            &&& after.ext_second_last_ts == request.newest_timestamp(num - 1)
            &&& after.last_marker == (state.last_marker || force_marker)
            &&& after.second_last_marker == state.last_marker
            &&& after.ext_highest_incoming_sn == state.ext_highest_incoming_sn
            &&& after.ext_rtx_gate_sn == state.ext_rtx_gate_sn
            &&& after.is_in_rtx_gate_region == state.is_in_rtx_gate_region
            &&& next.ext_timestamp.wrapping_sub(after.ts_offset).wrapping_sub(after.ext_last_ts)
                == next.ext_timestamp.wrapping_sub(state.ts_offset).wrapping_sub(
                state.ext_last_ts,
            )
        }),
{
}

/// Padding starts from the state: a frame is continued exactly where the last packet did not end
/// one, and the timestamps go on from the last one sent.
pub proof fn law_padding_starts_from_the_state(
    state: RtpMungerView,
    clock_rate: u32,
    frame_rate: u32,
    ext_rtp_timestamp: u64,
)
    ensures
        ({
            let request = state.padding_request(clock_rate, frame_rate, ext_rtp_timestamp);
            &&& request.clock_rate == clock_rate
            &&& request.frame_rate == frame_rate
            &&& request.ext_rtp_timestamp == ext_rtp_timestamp
            &&& request.continues_frame <==> !state.last_marker
            &&& request.newest_timestamp(0) == state.ext_last_ts
        }),
{
}

} // verus!
