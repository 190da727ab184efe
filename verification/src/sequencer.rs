//! The packets that a subscriber may ask to have sent again.
//!
//! A ring holds what is needed to rebuild the newest outgoing packets. Numbers of padding packets
//! take no place in it.
use crate::bytes::copy_bytes;
use crate::sequencer::range_map::{RangeMapU64, RangeValU64};
use vstd::prelude::*;

pub mod range_map;

verus! {

/// The round trip time that is taken for granted, in milliseconds.
pub const DEFAULT_RTT_MS: u32 = 70;

/// A packet is not sent again within this time, in milliseconds.
pub const IGNORE_RETRANSMISSION_MS: u32 = 100;

/// A packet is sent again no more often than this.
pub const MAX_ACKS: u8 = 3;

/// Up to this many bytes are kept without an allocation.
pub const INLINE_BYTES: usize = 8;

/// What is remembered of an outgoing packet.
#[derive(Debug, Clone)]
pub struct PacketMeta {
    pub source_seq_no: u64,
    pub target_seq_no: u16,
    pub timestamp: u32,
    pub marker: bool,
    pub last_nack_ms: u32,
    pub nacked: u8,
    pub layer: i8,
    pub num_codec_bytes_in: u8,
    pub num_codec_bytes_out: u8,
    pub codec_bytes_inline: [u8; 8],
    pub codec_bytes_slice: Vec<u8>,
    pub dd_bytes_size: u8,
    pub dd_bytes_inline: [u8; 8],
    pub dd_bytes_slice: Vec<u8>,
    pub act_bytes: Vec<u8>,
    pub valid: bool,
}

/// The contents of a [`PacketMeta`].
#[verifier::ext_equal]
pub struct PacketMetaView {
    pub source_seq_no: u64,
    pub target_seq_no: u16,
    pub timestamp: u32,
    pub marker: bool,
    pub last_nack_ms: u32,
    pub nacked: u8,
    pub layer: i8,
    pub num_codec_bytes_in: u8,
    pub num_codec_bytes_out: u8,
    pub codec_bytes_inline: Seq<u8>,
    pub codec_bytes_slice: Seq<u8>,
    pub dd_bytes_size: u8,
    pub dd_bytes_inline: Seq<u8>,
    pub dd_bytes_slice: Seq<u8>,
    pub act_bytes: Seq<u8>,
    pub valid: bool,
}

impl View for PacketMeta {
    type V = PacketMetaView;

    open spec fn view(&self) -> PacketMetaView {
        PacketMetaView {
            source_seq_no: self.source_seq_no,
            target_seq_no: self.target_seq_no,
            timestamp: self.timestamp,
            marker: self.marker,
            last_nack_ms: self.last_nack_ms,
            nacked: self.nacked,
            layer: self.layer,
            num_codec_bytes_in: self.num_codec_bytes_in,
            num_codec_bytes_out: self.num_codec_bytes_out,
            codec_bytes_inline: self.codec_bytes_inline@,
            codec_bytes_slice: self.codec_bytes_slice@,
            dd_bytes_size: self.dd_bytes_size,
            dd_bytes_inline: self.dd_bytes_inline@,
            dd_bytes_slice: self.dd_bytes_slice@,
            act_bytes: self.act_bytes@,
            valid: self.valid,
        }
    }
}

/// The bytes that are kept inline: all of a short sequence, filled up with zeros.
pub open spec fn inline_part(bytes: Seq<u8>) -> Seq<u8> {
    Seq::new(
        8,
        |i: int|
            if bytes.len() <= INLINE_BYTES && i < bytes.len() {
                bytes[i]
            } else {
                0
            },
    )
}

/// The bytes that are kept apart: all of a long sequence.
pub open spec fn slice_part(bytes: Seq<u8>) -> Seq<u8> {
    if bytes.len() > INLINE_BYTES {
        bytes
    } else {
        Seq::empty()
    }
}

/// The sequence that was split into an inline part, a part kept apart, and its length.
pub open spec fn joined_bytes(inline: Seq<u8>, slice: Seq<u8>, len: u8) -> Seq<u8> {
    if slice.len() == 0 {
        inline.take(len as int)
    } else {
        slice
    }
}

/// Splitting a byte sequence and joining its parts gives it back.
pub proof fn law_joined_bytes_are_the_split_bytes(bytes: Seq<u8>)
    ensures
        joined_bytes(inline_part(bytes), slice_part(bytes), (bytes.len() % 0x100) as u8) == bytes,
{
    if bytes.len() <= INLINE_BYTES {
        assert(inline_part(bytes).take(bytes.len() as int) =~= bytes);
    }
}

fn inline_bytes(bytes: &[u8]) -> (inline: [u8; 8])
    ensures
        inline@ == inline_part(bytes@),
{
    let mut inline: [u8; 8] = [0u8; 8];
    if bytes.len() <= INLINE_BYTES {
        let mut i: usize = 0;
        while i < bytes.len()
            invariant
                i <= bytes@.len() <= 8,
                forall|j: int| 0 <= j < i ==> inline@[j] == bytes@[j],
                forall|j: int| i <= j < 8 ==> inline@[j] == 0,
            decreases bytes.len() - i,
        {
            inline[i] = bytes[i];
            i += 1;
        }
    }
    assert(inline@ =~= inline_part(bytes@));
    inline
}

fn slice_bytes(bytes: &[u8]) -> (slice: Vec<u8>)
    ensures
        slice@ == slice_part(bytes@),
{
    if bytes.len() > INLINE_BYTES {
        copy_bytes(bytes)
    } else {
        Vec::new()
    }
}

fn join_bytes(inline: &[u8; 8], slice: &Vec<u8>, len: u8) -> (bytes: Vec<u8>)
    requires
        slice@.len() == 0 ==> len <= 8,
    ensures
        bytes@ == joined_bytes(inline@, slice@, len),
{
    if slice.len() == 0 {
        let mut bytes: Vec<u8> = Vec::new();
        let mut i: usize = 0;
        while i < len as usize
            invariant
                i <= len <= 8,
                bytes@ == inline@.take(i as int),
            decreases len - i,
        {
            bytes.push(inline[i]);
            i += 1;
            assert(inline@.take(i as int) =~= inline@.take(i - 1).push(inline@[i - 1]));
        }
        bytes
    } else {
        copy_bytes(slice.as_slice())
    }
}

/// An empty place of the ring.
pub open spec fn invalid_meta() -> PacketMetaView {
    PacketMetaView {
        source_seq_no: 0,
        target_seq_no: 0,
        timestamp: 0,
        marker: false,
        last_nack_ms: 0,
        nacked: 0,
        layer: 0,
        num_codec_bytes_in: 0,
        num_codec_bytes_out: 0,
        codec_bytes_inline: Seq::new(8, |i: int| 0u8),
        codec_bytes_slice: Seq::empty(),
        dd_bytes_size: 0,
        dd_bytes_inline: Seq::new(8, |i: int| 0u8),
        dd_bytes_slice: Seq::empty(),
        act_bytes: Seq::empty(),
        valid: false,
    }
}

impl PacketMetaView {
    /// Bytes that are not kept apart fit inline.
    pub open spec fn bytes_fit(self) -> bool {
        &&& self.codec_bytes_slice.len() == 0 ==> self.num_codec_bytes_out <= 8
        &&& self.dd_bytes_slice.len() == 0 ==> self.dd_bytes_size <= 8
    }

    /// The codec bytes of the outgoing packet.
    pub open spec fn codec(self) -> Seq<u8> {
        joined_bytes(self.codec_bytes_inline, self.codec_bytes_slice, self.num_codec_bytes_out)
    }

    /// The dependency descriptor of the outgoing packet.
    pub open spec fn dd(self) -> Seq<u8> {
        joined_bytes(self.dd_bytes_inline, self.dd_bytes_slice, self.dd_bytes_size)
    }
}

impl PacketMeta {
    /// An empty place.
    pub fn invalid() -> (meta: Self)
        ensures
            meta@ == invalid_meta(),
    {
        let meta = PacketMeta {
            source_seq_no: 0,
            target_seq_no: 0,
            timestamp: 0,
            marker: false,
            last_nack_ms: 0,
            nacked: 0,
            layer: 0,
            num_codec_bytes_in: 0,
            num_codec_bytes_out: 0,
            codec_bytes_inline: [0u8; 8],
            codec_bytes_slice: Vec::new(),
            dd_bytes_size: 0,
            dd_bytes_inline: [0u8; 8],
            dd_bytes_slice: Vec::new(),
            act_bytes: Vec::new(),
            valid: false,
        };
        assert(meta@ =~= invalid_meta());
        meta
    }

    /// The codec bytes of the outgoing packet.
    pub fn codec_bytes(&self) -> (bytes: Vec<u8>)
        requires
            self@.bytes_fit(),
        ensures
            bytes@ == self@.codec(),
    {
        join_bytes(&self.codec_bytes_inline, &self.codec_bytes_slice, self.num_codec_bytes_out)
    }

    /// The dependency descriptor of the outgoing packet.
    pub fn dd_bytes(&self) -> (bytes: Vec<u8>)
        requires
            self@.bytes_fit(),
        ensures
            bytes@ == self@.dd(),
    {
        join_bytes(&self.dd_bytes_inline, &self.dd_bytes_slice, self.dd_bytes_size)
    }
}

/// What is needed to send a packet again.
#[derive(Debug, Clone)]
pub struct ExtPacketMeta {
    pub source_seq_no: u64,
    pub target_seq_no: u16,
    pub ext_sequence_number: u64,
    pub ext_timestamp: u64,
    pub marker: bool,
    pub layer: i8,
    pub num_codec_bytes_in: u8,
    pub num_codec_bytes_out: u8,
    pub codec_bytes_inline: [u8; 8],
    pub codec_bytes_slice: Vec<u8>,
    pub dd_bytes_size: u8,
    pub dd_bytes_inline: [u8; 8],
    pub dd_bytes_slice: Vec<u8>,
    pub act_bytes: Vec<u8>,
}

/// The contents of an [`ExtPacketMeta`].
#[verifier::ext_equal]
pub struct ExtPacketMetaView {
    pub source_seq_no: u64,
    pub target_seq_no: u16,
    pub ext_sequence_number: u64,
    pub ext_timestamp: u64,
    pub marker: bool,
    pub layer: i8,
    pub num_codec_bytes_in: u8,
    pub num_codec_bytes_out: u8,
    pub codec_bytes_inline: Seq<u8>,
    pub codec_bytes_slice: Seq<u8>,
    pub dd_bytes_size: u8,
    pub dd_bytes_inline: Seq<u8>,
    pub dd_bytes_slice: Seq<u8>,
    pub act_bytes: Seq<u8>,
}

impl View for ExtPacketMeta {
    type V = ExtPacketMetaView;

    open spec fn view(&self) -> ExtPacketMetaView {
        ExtPacketMetaView {
            source_seq_no: self.source_seq_no,
            target_seq_no: self.target_seq_no,
            ext_sequence_number: self.ext_sequence_number,
            ext_timestamp: self.ext_timestamp,
            marker: self.marker,
            layer: self.layer,
            num_codec_bytes_in: self.num_codec_bytes_in,
            num_codec_bytes_out: self.num_codec_bytes_out,
            codec_bytes_inline: self.codec_bytes_inline@,
            codec_bytes_slice: self.codec_bytes_slice@,
            dd_bytes_size: self.dd_bytes_size,
            dd_bytes_inline: self.dd_bytes_inline@,
            dd_bytes_slice: self.dd_bytes_slice@,
            act_bytes: self.act_bytes@,
        }
    }
}

impl ExtPacketMetaView {
    /// Bytes that are not kept apart fit inline.
    pub open spec fn bytes_fit(self) -> bool {
        &&& self.codec_bytes_slice.len() == 0 ==> self.num_codec_bytes_out <= 8
        &&& self.dd_bytes_slice.len() == 0 ==> self.dd_bytes_size <= 8
    }

    /// The codec bytes of the outgoing packet.
    pub open spec fn codec(self) -> Seq<u8> {
        joined_bytes(self.codec_bytes_inline, self.codec_bytes_slice, self.num_codec_bytes_out)
    }

    /// The dependency descriptor of the outgoing packet.
    pub open spec fn dd(self) -> Seq<u8> {
        joined_bytes(self.dd_bytes_inline, self.dd_bytes_slice, self.dd_bytes_size)
    }
}

impl ExtPacketMeta {
    /// The codec bytes of the outgoing packet.
    pub fn codec_bytes(&self) -> (bytes: Vec<u8>)
        requires
            self@.bytes_fit(),
        ensures
            bytes@ == self@.codec(),
    {
        join_bytes(&self.codec_bytes_inline, &self.codec_bytes_slice, self.num_codec_bytes_out)
    }

    /// The dependency descriptor of the outgoing packet.
    pub fn dd_bytes(&self) -> (bytes: Vec<u8>)
        requires
            self@.bytes_fit(),
        ensures
            bytes@ == self@.dd(),
    {
        join_bytes(&self.dd_bytes_inline, &self.dd_bytes_slice, self.dd_bytes_size)
    }
}

/// The ring of one outgoing stream.
#[derive(Debug, Clone)]
pub struct Sequencer {
    pub size: usize,
    pub start_time_ns: i64,
    pub initialized: bool,
    pub ext_start_sn: u64,
    pub ext_highest_sn: u64,
    pub sn_offset: u64,
    pub ext_highest_ts: u64,
    pub meta: Vec<PacketMeta>,
    pub sn_range_map: Option<RangeMapU64>,
    pub rtt_ms: u32,
}

/// The contents of a [`Sequencer`]. `ranges` is there if numbers may be padding.
#[verifier::ext_equal]
pub struct SequencerView {
    pub size: int,
    pub start_time_ns: i64,
    pub initialized: bool,
    pub ext_start_sn: u64,
    pub ext_highest_sn: u64,
    pub sn_offset: u64,
    pub ext_highest_ts: u64,
    pub meta: Seq<PacketMetaView>,
    pub ranges: Option<Seq<RangeValU64>>,
    pub rtt_ms: u32,
}

/// A packet on its way out.
pub struct OutgoingPacket {
    pub packet_time_ns: i64,
    pub ext_incoming_sn: u64,
    pub ext_modified_sn: u64,
    pub ext_modified_ts: u64,
    pub marker: bool,
    pub layer: i8,
    pub codec_bytes: Seq<u8>,
    pub num_codec_bytes_in: usize,
    pub dd_bytes: Seq<u8>,
    pub act_bytes: Seq<u8>,
}

/// The places whose turn comes between the counts `low`, inclusive, and `high`, exclusive, are
/// empty, and the others are as before.
pub open spec fn cleared(meta: Seq<PacketMetaView>, low: int, high: int) -> Seq<PacketMetaView> {
    Seq::new(
        meta.len(),
        |slot: int|
            if exists|n: int| low <= n < high && #[trigger] (n % meta.len() as int) == slot {
                invalid_meta()
            } else {
                meta[slot]
            },
    )
}

/// Whole milliseconds from `start` to `at`, and 0 if there are none.
pub open spec fn whole_ms(start: i64, at: i64) -> int {
    if at <= start {
        0
    } else {
        (at - start) / 1_000_000
    }
}

/// Whole milliseconds from `start` to `at`, modulo `u32`.
pub open spec fn ref_time_ms(start: i64, at: i64) -> u32 {
    (whole_ms(start, at) % 0x1_0000_0000) as u32
}

/// The number near `highest` whose low 16 bits are `sn`: the newest one that is not ahead of it.
pub open spec fn extended_sn(highest: u64, sn: u16) -> u64 {
    let base = highest - highest % 0x1_0000 + sn;
    if sn > highest % 0x1_0000 {
        ((base) as u64).saturating_sub(0x1_0000)
    } else {
        base as u64
    }
}

/// The timestamp near `highest` whose low 32 bits are `ts`: the newest one that is not ahead of
/// it.
pub open spec fn extended_ts(highest: u64, ts: u32) -> u64 {
    let base = highest - highest % 0x1_0000_0000 + ts;
    if ts > highest % 0x1_0000_0000 {
        (base as u64).saturating_sub(0x1_0000_0000)
    } else {
        base as u64
    }
}

impl SequencerView {
    /// Offsets and ranges belong together, every place fits its bytes, and no packet was sent again
    /// too often.
    pub open spec fn wf(self) -> bool {
        &&& self.size >= 1
        &&& self.meta.len() == self.size
        &&& forall|i: int|
            0 <= i < self.size ==> (#[trigger] self.meta[i]).bytes_fit() && self.meta[i].nacked
                <= MAX_ACKS
        &&& self.rtt_ms <= u32::MAX / 2
        &&& match self.ranges {
            Some(ranges) => {
                &&& ranges.len() >= 1
                &&& range_map::ordered(ranges)
                &&& ranges.last().start <= self.ext_highest_sn + 1
                &&& ranges.last().value == self.sn_offset
                &&& !self.initialized ==> ranges == seq![RangeValU64 { start: 0, end: 0, value: 0 }]
            },
            None => self.sn_offset == 0,
        }
    }

    /// The state in which the first packet is put into the ring.
    pub open spec fn started(self, packet: OutgoingPacket) -> Self {
        if self.initialized {
            self
        } else {
            SequencerView {
                initialized: true,
                start_time_ns: if self.start_time_ns == 0 {
                    packet.packet_time_ns
                } else {
                    self.start_time_ns
                },
                ext_start_sn: packet.ext_modified_sn,
                ext_highest_sn: packet.ext_modified_sn,
                ext_highest_ts: packet.ext_modified_ts,
                ..self
            }
        }
    }

    /// The count of the newest number, padding left out.
    pub open spec fn highest_count(self) -> u64 {
        self.ext_highest_sn.saturating_sub(self.sn_offset)
    }

    /// The count of an outgoing number, padding left out. A number that was padding, or is
    /// forgotten, has none.
    pub open spec fn count_of(self, sn: u64) -> Option<u64> {
        if sn >= self.ext_highest_sn {
            Some(sn.saturating_sub(self.sn_offset))
        } else {
            self.looked_up_count(sn)
        }
    }

    /// The count of a number by the ranges alone.
    pub open spec fn looked_up_count(self, sn: u64) -> Option<u64> {
        match self.ranges {
            Some(ranges) => match range_map::lookup(ranges, sn) {
                Ok(offset) => Some(sn.saturating_sub(offset)),
                Err(_) => None,
            },
            None => Some(sn),
        }
    }

    /// A packet with this number is put into the ring.
    pub open spec fn accepts(self, sn: u64) -> bool {
        &&& sn >= self.ext_start_sn
        &&& self.count_of(sn) matches Some(count) && self.highest_count() - count < self.size
    }

    /// What is remembered of the packet.
    pub open spec fn meta_of(self, packet: OutgoingPacket) -> PacketMetaView {
        PacketMetaView {
            source_seq_no: packet.ext_incoming_sn,
            target_seq_no: (packet.ext_modified_sn % 0x1_0000) as u16,
            timestamp: (packet.ext_modified_ts % 0x1_0000_0000) as u32,
            marker: packet.marker,
            last_nack_ms: ref_time_ms(self.start_time_ns, packet.packet_time_ns),
            nacked: 0,
            layer: packet.layer,
            num_codec_bytes_in: (packet.num_codec_bytes_in % 0x100) as u8,
            num_codec_bytes_out: (packet.codec_bytes.len() % 0x100) as u8,
            codec_bytes_inline: inline_part(packet.codec_bytes),
            codec_bytes_slice: slice_part(packet.codec_bytes),
            dd_bytes_size: (packet.dd_bytes.len() % 0x100) as u8,
            dd_bytes_inline: inline_part(packet.dd_bytes),
            dd_bytes_slice: slice_part(packet.dd_bytes),
            act_bytes: packet.act_bytes,
            valid: true,
        }
    }

    /// The state after an accepted packet was put into the ring. Places that it skips are empty.
    pub open spec fn stored(self, packet: OutgoingPacket) -> Self {
        let count = self.count_of(packet.ext_modified_sn)->0;
        SequencerView {
            meta: cleared(self.meta, self.highest_count() + 1, count as int).update(
                count as int % self.size,
                self.meta_of(packet),
            ),
            ext_highest_sn: if packet.ext_modified_sn > self.ext_highest_sn {
                packet.ext_modified_sn
            } else {
                self.ext_highest_sn
            },
            ext_highest_ts: if packet.ext_modified_ts > self.ext_highest_ts {
                packet.ext_modified_ts
            } else {
                self.ext_highest_ts
            },
            ..self
        }
    }

    /// The state after a packet went out.
    pub open spec fn pushed(self, packet: OutgoingPacket) -> Self {
        let started = self.started(packet);
        if started.accepts(packet.ext_modified_sn) {
            started.stored(packet)
        } else {
            started
        }
    }

    /// A late padding number `sn` empties `slot`.
    pub open spec fn padding_empties(self, sn: int, slot: int) -> bool {
        let count = match self.looked_up_count(sn as u64) {
            Some(count) => count,
            None => sn as u64,
        };
        &&& self.ext_highest_sn - self.size <= sn < self.ext_highest_sn
        &&& count as int % self.size == slot
    }

    /// The state after the numbers `start` to `end`, both inclusive, went out as padding.
    pub open spec fn padded(self, start: u64, end: u64) -> Self {
        if self.ranges is None || !self.initialized {
            self
        } else if start <= self.ext_highest_sn {
            SequencerView {
                meta: Seq::new(
                    self.meta.len(),
                    |slot: int|
                        if exists|sn: int| start <= sn <= end && self.padding_empties(sn, slot) {
                            invalid_meta()
                        } else {
                            self.meta[slot]
                        },
                ),
                ..self
            }
        } else if range_map::can_exclude(self.ranges->0, start, (end + 1) as u64) {
            let ranges = range_map::after_exclusion(
                self.ranges->0,
                (self.size + 1) as nat / 2,
                start,
                (end + 1) as u64,
            );
            SequencerView {
                ranges: Some(ranges),
                ext_highest_sn: end,
                sn_offset: ranges.last().value,
                ..self
            }
        } else {
            self
        }
    }

    /// Where the packet with the low bits `sn` lies, with its whole number, if the ring has it.
    pub open spec fn found(self, sn: u16) -> Option<(u64, int)> {
        let ext_sn = extended_sn(self.ext_highest_sn, sn);
        match self.looked_up_count(ext_sn) {
            Some(count) => {
                let slot = count as int % self.size;
                if ((self.ext_highest_sn % 0x1_0000) as u16).wrapping_sub(sn) <= 0x8000
                    && self.highest_count() - count < self.size && self.meta[slot].valid
                    && self.meta[slot].target_seq_no == sn {
                    Some((ext_sn, slot))
                } else {
                    None
                }
            },
            None => None,
        }
    }

    /// The time that passes before a packet is sent again.
    pub open spec fn nack_interval_ms(self) -> int {
        if 2 * self.rtt_ms < IGNORE_RETRANSMISSION_MS {
            2 * self.rtt_ms
        } else {
            IGNORE_RETRANSMISSION_MS as int
        }
    }

    /// The packet in `slot` was not sent again too often, nor too recently.
    pub open spec fn may_resend(self, slot: int, ref_time: u32) -> bool {
        &&& self.meta[slot].nacked < MAX_ACKS
        &&& ref_time - self.meta[slot].last_nack_ms > self.nack_interval_ms()
    }

    /// The packet that a request for `sn` is answered with.
    pub open spec fn reply(self, sn: u16, ref_time: u32) -> Option<ExtPacketMetaView> {
        match self.found(sn) {
            Some((ext_sn, slot)) => if self.may_resend(slot, ref_time) {
                let meta = self.meta[slot];
                Some(
                    ExtPacketMetaView {
                        source_seq_no: meta.source_seq_no,
                        target_seq_no: meta.target_seq_no,
                        ext_sequence_number: ext_sn,
                        ext_timestamp: extended_ts(self.ext_highest_ts, meta.timestamp),
                        marker: meta.marker,
                        layer: meta.layer,
                        num_codec_bytes_in: meta.num_codec_bytes_in,
                        num_codec_bytes_out: meta.num_codec_bytes_out,
                        codec_bytes_inline: meta.codec_bytes_inline,
                        codec_bytes_slice: meta.codec_bytes_slice,
                        dd_bytes_size: meta.dd_bytes_size,
                        dd_bytes_inline: meta.dd_bytes_inline,
                        dd_bytes_slice: meta.dd_bytes_slice,
                        act_bytes: meta.act_bytes,
                    },
                )
            } else {
                None
            },
            None => None,
        }
    }

    /// The state after a request for `sn`.
    pub open spec fn after_request(self, sn: u16, ref_time: u32) -> Self {
        match self.found(sn) {
            Some((_, slot)) => if self.may_resend(slot, ref_time) {
                SequencerView {
                    meta: self.meta.update(
                        slot,
                        PacketMetaView {
                            nacked: (self.meta[slot].nacked + 1) as u8,
                            last_nack_ms: ref_time,
                            ..self.meta[slot]
                        },
                    ),
                    ..self
                }
            } else {
                self
            },
            None => self,
        }
    }

    /// The state after the requests for `sns`, in order.
    pub open spec fn after_requests(self, sns: Seq<u16>, ref_time: u32) -> Self
        decreases sns.len(),
    {
        if sns.len() == 0 {
            self
        } else {
            self.after_requests(sns.drop_last(), ref_time).after_request(sns.last(), ref_time)
        }
    }

    /// The answers to the requests for `sns`, in order.
    pub open spec fn replies(self, sns: Seq<u16>, ref_time: u32) -> Seq<ExtPacketMetaView>
        decreases sns.len(),
    {
        if sns.len() == 0 {
            Seq::empty()
        } else {
            let before = self.replies(sns.drop_last(), ref_time);
            match self.after_requests(sns.drop_last(), ref_time).reply(sns.last(), ref_time) {
                Some(reply) => before.push(reply),
                None => before,
            }
        }
    }
}

/// One call for packets that are to be sent again: what it asks for, and when.
pub struct ResendCall {
    pub sns: Seq<u16>,
    pub now_ns: i64,
}

/// No call comes before the one ahead of it.
pub open spec fn times_ascend(calls: Seq<ResendCall>) -> bool {
    forall|i: int, j: int|
        0 <= i <= j < calls.len() ==> (#[trigger] calls[i]).now_ns <= (
        #[trigger] calls[j]).now_ns
}

/// The time of a call, once for each of its answers that has the number.
pub open spec fn answer_times(answers: Seq<ExtPacketMetaView>, sn: u16, now_ns: i64) -> Seq<i64>
    decreases answers.len(),
{
    if answers.len() == 0 {
        Seq::empty()
    } else {
        let before = answer_times(answers.drop_last(), sn, now_ns);
        if answers.last().target_seq_no == sn {
            before.push(now_ns)
        } else {
            before
        }
    }
}

/// The numbers of the answers are those that were asked for at the places, in order.
pub open spec fn answered_at(
    answers: Seq<ExtPacketMetaView>,
    sns: Seq<u16>,
    places: Seq<int>,
) -> bool {
    &&& places.len() == answers.len()
    &&& forall|i: int|
        0 <= i < places.len() ==> 0 <= #[trigger] places[i] < sns.len() && sns[places[i]]
            == answers[i].target_seq_no
    &&& forall|i: int, j: int|
        0 <= i < j < places.len() ==> #[trigger] places[i] < #[trigger] places[j]
}

impl SequencerView {
    /// The state after calls, one after the other.
    pub open spec fn after_calls(self, calls: Seq<ResendCall>) -> Self
        decreases calls.len(),
    {
        if calls.len() == 0 {
            self
        } else {
            self.after_calls(calls.drop_last()).after_requests(
                calls.last().sns,
                ref_time_ms(self.start_time_ns, calls.last().now_ns),
            )
        }
    }

    /// The answers to the last of some calls.
    pub open spec fn last_answers(self, calls: Seq<ResendCall>) -> Seq<ExtPacketMetaView> {
        self.after_calls(calls.drop_last()).replies(
            calls.last().sns,
            ref_time_ms(self.start_time_ns, calls.last().now_ns),
        )
    }

    /// The times at which calls were answered with the number.
    pub open spec fn resend_times(self, calls: Seq<ResendCall>, sn: u16) -> Seq<i64>
        decreases calls.len(),
    {
        if calls.len() == 0 {
            Seq::empty()
        } else {
            self.resend_times(calls.drop_last(), sn) + answer_times(
                self.last_answers(calls),
                sn,
                calls.last().now_ns,
            )
        }
    }
}

/// The views of packets that are sent again.
pub open spec fn views(metas: Seq<ExtPacketMeta>) -> Seq<ExtPacketMetaView> {
    Seq::new(metas.len(), |i: int| metas[i]@)
}

impl View for Sequencer {
    type V = SequencerView;

    open spec fn view(&self) -> SequencerView {
        SequencerView {
            size: self.size as int,
            start_time_ns: self.start_time_ns,
            initialized: self.initialized,
            ext_start_sn: self.ext_start_sn,
            ext_highest_sn: self.ext_highest_sn,
            sn_offset: self.sn_offset,
            ext_highest_ts: self.ext_highest_ts,
            meta: Seq::new(self.meta@.len(), |i: int| self.meta@[i]@),
            ranges: match self.sn_range_map {
                Some(map) => Some(map.ranges@),
                None => None,
            },
            rtt_ms: self.rtt_ms,
        }
    }
}

impl Sequencer {
    /// The state is well formed, and the range map is that of a ring of this size.
    pub open spec fn wf(self) -> bool {
        &&& self@.wf()
        &&& self.sn_range_map matches Some(map) ==> map.wf() && map.size == (self.size + 1) / 2
    }

    /// An empty ring of `size` places, none for `size` 0.
    pub fn new(size: usize, maybe_sparse: bool) -> (sequencer: Option<Self>)
        requires
            maybe_sparse ==> size < usize::MAX,
        ensures
            sequencer is Some <==> size > 0,
            sequencer matches Some(sequencer) ==> {
                &&& sequencer.wf()
                &&& sequencer@ == (SequencerView {
                    size: size as int,
                    start_time_ns: 0,
                    initialized: false,
                    ext_start_sn: 0,
                    ext_highest_sn: 0,
                    sn_offset: 0,
                    ext_highest_ts: 0,
                    meta: Seq::new(size as nat, |i: int| invalid_meta()),
                    ranges: if maybe_sparse {
                        Some(seq![RangeValU64 { start: 0, end: 0, value: 0 }])
                    } else {
                        None
                    },
                    rtt_ms: DEFAULT_RTT_MS,
                })
            },
    {
        if size == 0 {
            return None;
        }
        let mut meta: Vec<PacketMeta> = Vec::new();
        let mut i: usize = 0;
        while i < size
            invariant
                i <= size,
                meta@.len() == i,
                forall|j: int| 0 <= j < i ==> (#[trigger] meta@[j])@ == invalid_meta(),
            decreases size - i,
        {
            meta.push(PacketMeta::invalid());
            i += 1;
        }
        let sequencer = Sequencer {
            size,
            start_time_ns: 0,
            initialized: false,
            ext_start_sn: 0,
            ext_highest_sn: 0,
            sn_offset: 0,
            ext_highest_ts: 0,
            meta,
            sn_range_map: if maybe_sparse {
                Some(RangeMapU64::new((size + 1) / 2))
            } else {
                None
            },
            rtt_ms: DEFAULT_RTT_MS,
        };
        assert(sequencer@.meta =~= Seq::new(size as nat, |i: int| invalid_meta()));
        Some(sequencer)
    }

    /// Sets the time from which the ring counts.
    pub fn with_start_time_ns(self, start_time_ns: i64) -> (sequencer: Self)
        requires
            self.wf(),
        ensures
            sequencer.wf(),
            sequencer@ == (SequencerView { start_time_ns, ..self@ }),
    {
        let mut sequencer = self;
        sequencer.start_time_ns = start_time_ns;
        sequencer
    }

    /// Remembers a packet that goes out, unless it is too old.
    pub fn push(
        &mut self,
        packet_time_ns: i64,
        ext_incoming_sn: u64,
        ext_modified_sn: u64,
        ext_modified_ts: u64,
        marker: bool,
        layer: i8,
        codec_bytes: &[u8],
        num_codec_bytes_in: usize,
        dd_bytes: &[u8],
        act_bytes: &[u8],
    )
        requires
            old(self).wf(),
            !old(self).initialized && old(self).sn_range_map is Some ==> ext_modified_sn < u64::MAX,
            ({
                let started = old(self)@.started(
                    (OutgoingPacket {
                        packet_time_ns,
                        ext_incoming_sn,
                        ext_modified_sn,
                        ext_modified_ts,
                        marker,
                        layer,
                        codec_bytes: codec_bytes@,
                        num_codec_bytes_in,
                        dd_bytes: dd_bytes@,
                        act_bytes: act_bytes@,
                    }),
                );
                started.accepts(ext_modified_sn) ==> packet_time_ns - started.start_time_ns
                    <= i64::MAX
            }),
        ensures
            final(self).wf(),
            final(self)@ == old(self)@.pushed(
                (OutgoingPacket {
                    packet_time_ns,
                    ext_incoming_sn,
                    ext_modified_sn,
                    ext_modified_ts,
                    marker,
                    layer,
                    codec_bytes: codec_bytes@,
                    num_codec_bytes_in,
                    dd_bytes: dd_bytes@,
                    act_bytes: act_bytes@,
                }),
            ),
    {
        let ghost packet = OutgoingPacket {
            packet_time_ns,
            ext_incoming_sn,
            ext_modified_sn,
            ext_modified_ts,
            marker,
            layer,
            codec_bytes: codec_bytes@,
            num_codec_bytes_in,
            dd_bytes: dd_bytes@,
            act_bytes: act_bytes@,
        };
        if !self.initialized {
            self.initialized = true;
            if self.start_time_ns == 0 {
                self.start_time_ns = packet_time_ns;
            }
            self.ext_start_sn = ext_modified_sn;
            self.ext_highest_sn = ext_modified_sn;
            self.ext_highest_ts = ext_modified_ts;
            self.update_sn_offset();
        }
        let ghost started = old(self)@.started(packet);
        assert(self@ =~= started);
        if ext_modified_sn < self.ext_start_sn {
            return ;
        }
        let ext_highest_adjusted: u64 = self.ext_highest_sn.saturating_sub(self.sn_offset);
        let mut ext_modified_adjusted: u64 = ext_modified_sn.saturating_sub(self.sn_offset);
        if ext_modified_sn < self.ext_highest_sn {
            if let Some(map) = &self.sn_range_map {
                match map.get_value(ext_modified_sn) {
                    Ok(offset) => {
                        ext_modified_adjusted = ext_modified_sn.saturating_sub(offset);
                    },
                    Err(_) => {
                        return ;
                    },
                }
            }
        }
        assert(started.count_of(ext_modified_sn) == Some(ext_modified_adjusted));
        if ext_highest_adjusted >= ext_modified_adjusted && ext_highest_adjusted
            - ext_modified_adjusted >= self.size as u64 {
            return ;
        }
        assert(started.accepts(ext_modified_sn));
        self.clear_between(ext_highest_adjusted, ext_modified_adjusted);
        let slot: usize = (ext_modified_adjusted % self.size as u64) as usize;
        let packet_meta = PacketMeta {
            source_seq_no: ext_incoming_sn,
            target_seq_no: (ext_modified_sn % 0x1_0000) as u16,
            timestamp: (ext_modified_ts % 0x1_0000_0000) as u32,
            marker,
            last_nack_ms: self.get_ref_time_ms(packet_time_ns),
            nacked: 0,
            layer,
            num_codec_bytes_in: (num_codec_bytes_in % 0x100) as u8,
            num_codec_bytes_out: (codec_bytes.len() % 0x100) as u8,
            codec_bytes_inline: inline_bytes(codec_bytes),
            codec_bytes_slice: slice_bytes(codec_bytes),
            dd_bytes_size: (dd_bytes.len() % 0x100) as u8,
            dd_bytes_inline: inline_bytes(dd_bytes),
            dd_bytes_slice: slice_bytes(dd_bytes),
            act_bytes: copy_bytes(act_bytes),
            valid: true,
        };
        assert(packet_meta@ == started.meta_of(packet));
        let ghost before = self@;
        self.meta.set(slot, packet_meta);
        assert(self@.meta =~= before.meta.update(slot as int, packet_meta@));
        if ext_modified_sn > self.ext_highest_sn {
            self.ext_highest_sn = ext_modified_sn;
        }
        if ext_modified_ts > self.ext_highest_ts {
            self.ext_highest_ts = ext_modified_ts;
        }
        assert(self@ =~= started.stored(packet));
    }

    /// Empties the places whose turn comes after `low` and before `high`.
    fn clear_between(&mut self, low: u64, high: u64)
        requires
            old(self).wf(),
        ensures
            final(self).wf(),
            final(self)@ == (SequencerView {
                meta: cleared(old(self)@.meta, low + 1, high as int),
                ..old(self)@
            }),
    {
        let ghost meta = self@.meta;
        let ghost size = self.size as int;
        if high > low {
            let mut invalidated: usize = 0;
            let mut esn: u64 = low + 1;
            while esn < high && invalidated < self.size
                invariant
                    self.wf(),
                    self.size == size,
                    meta.len() == size,
                    low < esn <= high,
                    invalidated == esn - low - 1,
                    invalidated <= size,
                    self@ == (SequencerView {
                        meta: cleared(meta, low + 1, esn as int),
                        ..old(self)@
                    }),
                decreases high - esn,
            {
                let slot: usize = (esn % self.size as u64) as usize;
                self.invalidate_slot(slot);
                proof {
                    lemma_clear_one_more(meta, low + 1, esn as int);
                }
                esn += 1;
                invalidated += 1;
            }
            proof {
                lemma_a_turn_is_enough(meta, low + 1, esn as int, high as int);
            }
        }
        assert(high <= low ==> cleared(meta, low + 1, high as int) =~= meta);
        assert(self@ =~= (SequencerView {
            meta: cleared(meta, low + 1, high as int),
            ..old(self)@
        }));
    }

    /// Takes the numbers of padding packets out: those ahead of the newest number get no place,
    /// and the places of late ones are emptied.
    pub fn push_padding(&mut self, ext_start_sn_inclusive: u64, ext_end_sn_inclusive: u64)
        requires
            old(self).wf(),
            old(self).initialized && old(self).sn_range_map is Some && ext_start_sn_inclusive
                > old(self).ext_highest_sn ==> ext_end_sn_inclusive < u64::MAX,
        ensures
            final(self).wf(),
            final(self)@ == old(self)@.padded(ext_start_sn_inclusive, ext_end_sn_inclusive),
    {
        if self.sn_range_map.is_none() || !self.initialized {
            return ;
        }
        if ext_start_sn_inclusive <= self.ext_highest_sn {
            self.clear_late_padding(ext_start_sn_inclusive, ext_end_sn_inclusive);
            return ;
        }
        let ghost before = self@;
        let mut excluded: bool = false;
        if let Some(map) = &mut self.sn_range_map {
            match map.exclude_range(ext_start_sn_inclusive, ext_end_sn_inclusive + 1) {
                Ok(_) => {
                    excluded = true;
                },
                Err(_) => {},
            }
        }
        if !excluded {
            assert(self@ =~= before);
            return ;
        }
        self.ext_highest_sn = ext_end_sn_inclusive;
        self.update_sn_offset();
        assert(self@ =~= before.padded(ext_start_sn_inclusive, ext_end_sn_inclusive));
    }

    /// Empties the places of late padding numbers.
    fn clear_late_padding(&mut self, start: u64, end: u64)
        requires
            old(self).wf(),
            old(self).initialized,
            old(self).sn_range_map is Some,
            start <= old(self).ext_highest_sn,
        ensures
            final(self).wf(),
            final(self)@ == old(self)@.padded(start, end),
    {
        let ghost before = self@;
        let highest: u64 = self.ext_highest_sn;
        let oldest: u64 = highest.saturating_sub(self.size as u64);
        let mut esn: u64 = if start < oldest {
            oldest
        } else {
            start
        };
        while esn <= end && esn < highest
            invariant
                before.wf(),
                self.wf(),
                before.ranges is Some,
                self.ext_highest_sn == highest,
                highest == before.ext_highest_sn,
                before.size == self.size,
                oldest == highest.saturating_sub(self.size as u64),
                esn >= oldest,
                esn >= start,
                start <= highest,
                esn <= highest,
                esn == start || esn == oldest || esn <= end + 1,
                self@ == (SequencerView {
                    meta: Seq::new(
                        before.meta.len(),
                        |slot: int|
                            if exists|sn: int|
                                start <= sn <= end && sn < esn && #[trigger] before.padding_empties(
                                    sn,
                                    slot,
                                ) {
                                invalid_meta()
                            } else {
                                before.meta[slot]
                            },
                    ),
                    ..before
                }),
            decreases highest - esn,
        {
            let mut sn_offset: u64 = 0;
            if let Some(map) = &self.sn_range_map {
                if let Ok(offset) = map.get_value(esn) {
                    sn_offset = offset;
                }
            }
            let slot: usize = (esn.saturating_sub(sn_offset) % self.size as u64) as usize;
            assert(forall|s: int| before.padding_empties(esn as int, s) <==> s == slot);
            self.invalidate_slot(slot);
            let ghost wanted = Seq::new(
                before.meta.len(),
                |slot: int|
                    if exists|sn: int|
                        start <= sn <= end && sn < esn + 1 && #[trigger] before.padding_empties(
                            sn,
                            slot,
                        ) {
                        invalid_meta()
                    } else {
                        before.meta[slot]
                    },
            );
            proof {
                assert forall|s: int| 0 <= s < before.meta.len() implies #[trigger] self@.meta[s]
                    == wanted[s] by {
                    assert(before.padding_empties(esn as int, s) <==> s == slot);
                }
                assert(self@.meta =~= wanted);
            }
            esn += 1;
        }
        let ghost wanted = before.padded(start, end);
        proof {
            assert forall|s: int| 0 <= s < before.meta.len() implies #[trigger] self@.meta[s]
                == wanted.meta[s] by {
                if exists|sn: int| start <= sn <= end && before.padding_empties(sn, s) {
                    let sn = choose|sn: int| start <= sn <= end && before.padding_empties(sn, s);
                    assert(sn < esn);
                }
            }
            assert(self@.meta =~= wanted.meta);
        }
        assert(self@ =~= wanted);
    }

    /// The packets to send again, of those that are asked for by `seq_nos`.
    pub fn get_ext_packet_metas(&mut self, seq_nos: &[u16], now_ns: i64) -> (metas: Vec<
        ExtPacketMeta,
    >)
        requires
            old(self).wf(),
            old(self).initialized ==> now_ns - old(self).start_time_ns <= i64::MAX,
        ensures
            final(self).wf(),
            old(self).initialized ==> {
                let ref_time = ref_time_ms(old(self).start_time_ns, now_ns);
                &&& views(metas@) == old(self)@.replies(seq_nos@, ref_time)
                &&& final(self)@ == old(self)@.after_requests(seq_nos@, ref_time)
            },
            !old(self).initialized ==> metas@.len() == 0 && final(self)@ == old(self)@,
    {
        let mut metas: Vec<ExtPacketMeta> = Vec::new();
        if !self.initialized {
            return metas;
        }
        let ref_time: u32 = self.get_ref_time_ms(now_ns);
        let ghost before = self@;
        let mut i: usize = 0;
        assert(seq_nos@.take(0) =~= Seq::empty());
        assert(views(metas@) =~= Seq::empty());
        while i < seq_nos.len()
            invariant
                self.wf(),
                i <= seq_nos@.len(),
                self@ == before.after_requests(seq_nos@.take(i as int), ref_time),
                views(metas@) == before.replies(seq_nos@.take(i as int), ref_time),
            decreases seq_nos.len() - i,
        {
            let sn: u16 = seq_nos[i];
            assert(seq_nos@.take(i + 1).drop_last() =~= seq_nos@.take(i as int));
            let ghost sent = views(metas@);
            match self.answer(sn, ref_time) {
                Some(meta) => {
                    metas.push(meta);
                    assert(views(metas@) =~= sent.push(meta@));
                },
                None => {},
            }
            i += 1;
        }
        assert(seq_nos@.take(i as int) =~= seq_nos@);
        metas
    }

    /// The packet that a request for `sn` is answered with.
    fn answer(&mut self, sn: u16, ref_time: u32) -> (reply: Option<ExtPacketMeta>)
        requires
            old(self).wf(),
        ensures
            final(self).wf(),
            final(self)@ == old(self)@.after_request(sn, ref_time),
            match reply {
                Some(reply) => old(self)@.reply(sn, ref_time) == Some(reply@),
                None => old(self)@.reply(sn, ref_time) is None,
            },
    {
        let highest_sn: u16 = (self.ext_highest_sn % 0x1_0000) as u16;
        let highest_ts: u32 = (self.ext_highest_ts % 0x1_0000_0000) as u32;
        if highest_sn.wrapping_sub(sn) > 0x8000 {
            return None;
        }
        let mut ext_sn: u64 = self.ext_highest_sn - self.ext_highest_sn % 0x1_0000 + sn as u64;
        if sn > highest_sn {
            ext_sn = ext_sn.saturating_sub(0x1_0000);
        }
        let mut sn_offset: u64 = 0;
        if let Some(map) = &self.sn_range_map {
            match map.get_value(ext_sn) {
                Ok(offset) => {
                    sn_offset = offset;
                },
                Err(_) => {
                    return None;
                },
            }
        }
        let ext_sn_adjusted: u64 = ext_sn.saturating_sub(sn_offset);
        let ext_highest_adjusted: u64 = self.ext_highest_sn.saturating_sub(self.sn_offset);
        assert(self@.looked_up_count(ext_sn) == Some(ext_sn_adjusted));
        if ext_highest_adjusted.saturating_sub(ext_sn_adjusted) >= self.size as u64 {
            return None;
        }
        let slot: usize = (ext_sn_adjusted % self.size as u64) as usize;
        assert(self@.meta[slot as int] == self.meta@[slot as int]@);
        if self.is_invalid_slot(slot) {
            return None;
        }
        if self.meta[slot].target_seq_no != sn {
            return None;
        }
        assert(self@.found(sn) == Some((ext_sn, slot as int)));
        let nack_interval_ms: u32 = if 2 * self.rtt_ms < IGNORE_RETRANSMISSION_MS {
            2 * self.rtt_ms
        } else {
            IGNORE_RETRANSMISSION_MS
        };
        if self.meta[slot].nacked >= MAX_ACKS || ref_time.saturating_sub(
            self.meta[slot].last_nack_ms,
        ) <= nack_interval_ms {
            return None;
        }
        let ghost before = self@;
        let packet_meta = &mut self.meta[slot];
        packet_meta.nacked = packet_meta.nacked + 1;
        packet_meta.last_nack_ms = ref_time;
        assert(self@.meta =~= before.after_request(sn, ref_time).meta);
        let meta = &self.meta[slot];
        let mut ext_ts: u64 = self.ext_highest_ts - self.ext_highest_ts % 0x1_0000_0000
            + meta.timestamp as u64;
        if meta.timestamp > highest_ts {
            ext_ts = ext_ts.saturating_sub(0x1_0000_0000);
        }
        let reply = ExtPacketMeta {
            source_seq_no: meta.source_seq_no,
            target_seq_no: meta.target_seq_no,
            ext_sequence_number: ext_sn,
            ext_timestamp: ext_ts,
            marker: meta.marker,
            layer: meta.layer,
            num_codec_bytes_in: meta.num_codec_bytes_in,
            num_codec_bytes_out: meta.num_codec_bytes_out,
            codec_bytes_inline: meta.codec_bytes_inline,
            codec_bytes_slice: copy_bytes(meta.codec_bytes_slice.as_slice()),
            dd_bytes_size: meta.dd_bytes_size,
            dd_bytes_inline: meta.dd_bytes_inline,
            dd_bytes_slice: copy_bytes(meta.dd_bytes_slice.as_slice()),
            act_bytes: copy_bytes(meta.act_bytes.as_slice()),
        };
        Some(reply)
    }

    /// Milliseconds since the ring started, modulo `u32`.
    pub fn get_ref_time_ms(&self, at_ns: i64) -> (ms: u32)
        requires
            at_ns - self.start_time_ns <= i64::MAX,
        ensures
            ms == ref_time_ms(self.start_time_ns, at_ns),
    {
        if at_ns <= self.start_time_ns {
            return 0;
        }
        ((at_ns - self.start_time_ns) as u64 / 1_000_000 % 0x1_0000_0000) as u32
    }

    /// Looks the offset of the next number up.
    pub fn update_sn_offset(&mut self)
        requires
            old(self).sn_range_map matches Some(map) ==> {
                &&& range_map::ordered(map.ranges@)
                &&& old(self).ext_highest_sn < u64::MAX
            },
        ensures
            final(self).sn_range_map == old(self).sn_range_map,
            final(self).size == old(self).size,
            final(self)@ == (SequencerView {
                sn_offset: match old(self)@.ranges {
                    Some(ranges) => match range_map::lookup(ranges, (old(self).ext_highest_sn + 1) as u64) {
                        Ok(offset) => offset,
                        Err(_) => old(self).sn_offset,
                    },
                    None => old(self).sn_offset,
                },
                ..old(self)@
            }),
            old(self).sn_range_map matches Some(map) ==> (map.ranges@.len() > 0
                && map.ranges@.last().start <= old(self).ext_highest_sn + 1
                ==> final(self).sn_offset == map.ranges@.last().value),
    {
        let mut found: Option<u64> = None;
        if let Some(map) = &self.sn_range_map {
            match map.get_value(self.ext_highest_sn + 1) {
                Ok(sn_offset) => {
                    found = Some(sn_offset);
                },
                Err(_) => {},
            }
            proof {
                let ranges = map.ranges@;
                if ranges.len() > 0 && ranges.last().start <= self.ext_highest_sn + 1 {
                    range_map::lemma_holder_is_unique(
                        ranges,
                        ranges.len() - 1,
                        (self.ext_highest_sn + 1) as u64,
                    );
                }
            }
        }
        if let Some(sn_offset) = found {
            self.sn_offset = sn_offset;
        }
    }

    /// Empties a place, if there is one.
    pub fn invalidate_slot(&mut self, slot: usize)
        ensures
            final(self).sn_range_map == old(self).sn_range_map,
            final(self)@ == if slot < old(self).meta@.len() {
                SequencerView {
                    meta: old(self)@.meta.update(slot as int, invalid_meta()),
                    ..old(self)@
                }
            } else {
                old(self)@
            },
    {
        if slot >= self.meta.len() {
            return ;
        }
        let ghost before = self@;
        self.meta.set(slot, PacketMeta::invalid());
        assert(self@.meta =~= before.meta.update(slot as int, invalid_meta()));
    }

    /// There is no packet in the place.
    pub fn is_invalid_slot(&self, slot: usize) -> (invalid: bool)
        ensures
            invalid <==> slot >= self.meta@.len() || !self.meta@[slot as int].valid,
    {
        slot >= self.meta.len() || !self.meta[slot].valid
    }
}

/// The low bits of a number that is not too far behind the newest one give it back.
pub proof fn law_low_bits_identify_recent_numbers(highest: u64, sn: u64)
    requires
        sn <= highest <= sn + 0x8000,
    ensures
        extended_sn(highest, (sn % 0x1_0000) as u16) == sn,
        ((highest % 0x1_0000) as u16).wrapping_sub((sn % 0x1_0000) as u16) <= 0x8000,
{
}

/// A packet that was put into the ring is sent again when it is asked for in time, with all that
/// went out with it. A number that was padding and newest is no longer found, though.
pub proof fn law_pushed_packet_is_sent_again(
    state: SequencerView,
    packet: OutgoingPacket,
    ref_time: u32,
)
    requires
        state.wf(),
        state.started(packet).accepts(packet.ext_modified_sn),
        !state.initialized && state.ranges is Some ==> packet.ext_modified_sn < u64::MAX,
        state.pushed(packet).ext_highest_sn - packet.ext_modified_sn <= 0x8000,
        state.initialized && packet.ext_modified_sn == state.ext_highest_sn ==> (
        state.ranges matches Some(ranges) ==> ranges.last().start <= packet.ext_modified_sn),
        ref_time - state.started(packet).meta_of(packet).last_nack_ms > state.nack_interval_ms(),
    ensures
        state.pushed(packet).reply((packet.ext_modified_sn % 0x1_0000) as u16, ref_time) matches Some(
            reply,
        ) && {
            &&& reply.source_seq_no == packet.ext_incoming_sn
            &&& reply.ext_sequence_number == packet.ext_modified_sn
            &&& reply.marker == packet.marker
            &&& reply.layer == packet.layer
            &&& reply.codec() == packet.codec_bytes
            &&& reply.dd() == packet.dd_bytes
            &&& reply.act_bytes == packet.act_bytes
            &&& reply.target_seq_no == packet.ext_modified_sn % 0x1_0000
            &&& reply.num_codec_bytes_in == packet.num_codec_bytes_in % 0x100
            &&& reply.num_codec_bytes_out == packet.codec_bytes.len() % 0x100
            &&& state.pushed(packet).ext_highest_ts - packet.ext_modified_ts < 0x1_0000_0000
                ==> reply.ext_timestamp == packet.ext_modified_ts
        },
{
    let started = state.started(packet);
    let after = state.pushed(packet);
    let sn = packet.ext_modified_sn;
    let count = started.count_of(sn)->0;
    law_low_bits_identify_recent_numbers(after.ext_highest_sn, sn);
    law_joined_bytes_are_the_split_bytes(packet.codec_bytes);
    law_joined_bytes_are_the_split_bytes(packet.dd_bytes);
    if let Some(ranges) = started.ranges {
        if sn >= started.ext_highest_sn {
            range_map::lemma_holder_is_unique(ranges, ranges.len() - 1, sn);
        }
    }
    assert(after.looked_up_count(sn) == Some(count));
    vstd::arithmetic::div_mod::lemma_mod_bound(count as int, started.size);
    assert(after.meta[count as int % after.size] == started.meta_of(packet));
    assert(after.found((sn % 0x1_0000) as u16) == Some((sn, count as int % after.size)));
    assert(after.nack_interval_ms() == state.nack_interval_ms());
}

/// A packet that was just sent again is counted, and is not sent again before the interval is
/// over.
pub proof fn law_resends_are_counted_and_spaced(
    state: SequencerView,
    sn: u16,
    ref_time: u32,
    later: u32,
)
    requires
        state.wf(),
        state.reply(sn, ref_time) is Some,
    ensures
        state.found(sn) matches Some((_, slot)) && state.after_request(sn, ref_time).meta[slot].nacked
            == state.meta[slot].nacked + 1 <= MAX_ACKS,
        later - ref_time <= state.nack_interval_ms() ==> state.after_request(sn, ref_time).reply(
            sn,
            later,
        ) is None,
{
    let (ext_sn, slot) = state.found(sn)->0;
    vstd::arithmetic::div_mod::lemma_mod_bound(state.looked_up_count(ext_sn)->0 as int, state.size);
    let after = state.after_request(sn, ref_time);
    assert(after.looked_up_count(ext_sn) == state.looked_up_count(ext_sn));
    assert(after.found(sn) == Some((ext_sn, slot)));
}

/// Both states have the same packets at the same places, and the same clock.
spec fn same_ring(a: SequencerView, b: SequencerView) -> bool {
    &&& b.wf()
    &&& b.size == a.size
    &&& b.start_time_ns == a.start_time_ns
    &&& b.nack_interval_ms() == a.nack_interval_ms()
    &&& forall|sn: u16| #[trigger] b.found(sn) == a.found(sn)
}

proof fn lemma_found_place(state: SequencerView, sn: u16)
    requires
        state.wf(),
        state.found(sn) is Some,
    ensures
        state.found(sn) matches Some((_, slot)) && 0 <= slot < state.size
            && state.meta[slot].target_seq_no == sn,
{
    let ext_sn = extended_sn(state.ext_highest_sn, sn);
    let count = state.looked_up_count(ext_sn)->0;
    vstd::arithmetic::div_mod::lemma_mod_bound(count as int, state.size);
}

proof fn lemma_request_keeps_ring(state: SequencerView, sn: u16, ref_time: u32)
    requires
        state.wf(),
    ensures
        same_ring(state, state.after_request(sn, ref_time)),
{
    let after = state.after_request(sn, ref_time);
    if state.found(sn) is Some {
        lemma_found_place(state, sn);
    }
    assert forall|other: u16| #[trigger] after.found(other) == state.found(other) by {
        let ext_sn = extended_sn(state.ext_highest_sn, other);
        assert(after.looked_up_count(ext_sn) == state.looked_up_count(ext_sn));
        if let Some(count) = state.looked_up_count(ext_sn) {
            vstd::arithmetic::div_mod::lemma_mod_bound(count as int, state.size);
        }
    }
}

/// What one call does to the packet with the number `sn`.
spec fn call_counts(
    before: SequencerView,
    after: SequencerView,
    times: Seq<i64>,
    sn: u16,
    ref_time: u32,
    now_ns: i64,
) -> bool {
    &&& times.len() == 0 || times == seq![now_ns]
    &&& match before.found(sn) {
        Some((_, slot)) => {
            &&& after.meta[slot].nacked == before.meta[slot].nacked + times.len()
            &&& times.len() == 0 ==> after.meta[slot].last_nack_ms
                == before.meta[slot].last_nack_ms
            &&& times.len() == 1 ==> after.meta[slot].last_nack_ms == ref_time && ref_time
                - before.meta[slot].last_nack_ms > before.nack_interval_ms()
        },
        None => times.len() == 0,
    }
}

proof fn lemma_call(state: SequencerView, sns: Seq<u16>, ref_time: u32, now_ns: i64, sn: u16)
    requires
        state.wf(),
    ensures
        same_ring(state, state.after_requests(sns, ref_time)),
        call_counts(
            state,
            state.after_requests(sns, ref_time),
            answer_times(state.replies(sns, ref_time), sn, now_ns),
            sn,
            ref_time,
            now_ns,
        ),
    decreases sns.len(),
{
    if sns.len() > 0 {
        lemma_call(state, sns.drop_last(), ref_time, now_ns, sn);
        let middle = state.after_requests(sns.drop_last(), ref_time);
        let asked = sns.last();
        lemma_request_keeps_ring(middle, asked, ref_time);
        assert(middle.found(asked) == state.found(asked));
        assert(middle.found(sn) == state.found(sn));
        if middle.found(asked) is Some {
            lemma_found_place(middle, asked);
        }
        if middle.found(sn) is Some {
            lemma_found_place(middle, sn);
        }
        let earlier = state.replies(sns.drop_last(), ref_time);
        if let Some(reply) = middle.reply(asked, ref_time) {
            assert(earlier.push(reply).drop_last() =~= earlier);
            if asked == sn && answer_times(earlier, sn, now_ns).len() == 0 {
                assert(answer_times(earlier.push(reply), sn, now_ns) =~= seq![now_ns]);
            }
        }
    }
}

proof fn lemma_times_ascend_before(calls: Seq<ResendCall>)
    requires
        calls.len() > 0,
        times_ascend(calls),
    ensures
        times_ascend(calls.drop_last()),
{
    let earlier = calls.drop_last();
    assert forall|i: int, j: int| 0 <= i <= j < earlier.len() implies (
    #[trigger] earlier[i]).now_ns <= (#[trigger] earlier[j]).now_ns by {
        assert(calls[i].now_ns <= calls[j].now_ns);
    }
}

proof fn lemma_later_by_more(start: i64, earlier: i64, later: i64, gap: int)
    requires
        earlier <= later,
        ref_time_ms(start, later) - ref_time_ms(start, earlier) > gap,
    ensures
        whole_ms(start, later) - whole_ms(start, earlier) > gap,
{
}

/// What some calls do to the packet with the number `sn`.
spec fn run_counts(state: SequencerView, calls: Seq<ResendCall>, sn: u16) -> bool {
    let after = state.after_calls(calls);
    let times = state.resend_times(calls, sn);
    let start = state.start_time_ns;
    &&& forall|i: int| 0 <= i < times.len() ==> #[trigger] times[i] <= calls.last().now_ns
    &&& forall|i: int, j: int|
        0 <= i < j < times.len() ==> whole_ms(start, #[trigger] times[j]) - whole_ms(
            start,
            #[trigger] times[i],
        ) > state.nack_interval_ms()
    &&& match state.found(sn) {
        Some((_, slot)) => {
            &&& after.meta[slot].nacked == state.meta[slot].nacked + times.len()
            &&& times.len() == 0 ==> after.meta[slot].last_nack_ms == state.meta[slot].last_nack_ms
            &&& times.len() > 0 ==> {
                &&& after.meta[slot].last_nack_ms == ref_time_ms(start, times.last())
                &&& ref_time_ms(start, times[0]) - state.meta[slot].last_nack_ms
                    > state.nack_interval_ms()
            }
        },
        None => times.len() == 0,
    }
}

proof fn lemma_run(state: SequencerView, calls: Seq<ResendCall>, sn: u16)
    requires
        state.wf(),
        times_ascend(calls),
    ensures
        same_ring(state, state.after_calls(calls)),
        run_counts(state, calls, sn),
    decreases calls.len(),
{
    if calls.len() > 0 {
        let earlier = calls.drop_last();
        let now_ns = calls.last().now_ns;
        let ref_time = ref_time_ms(state.start_time_ns, now_ns);
        lemma_times_ascend_before(calls);
        lemma_run(state, earlier, sn);
        let middle = state.after_calls(earlier);
        lemma_call(middle, calls.last().sns, ref_time, now_ns, sn);
        assert(middle.found(sn) == state.found(sn));
        let old_times = state.resend_times(earlier, sn);
        let new_times = answer_times(state.last_answers(calls), sn, now_ns);
        let times = state.resend_times(calls, sn);
        assert(times == old_times + new_times);
        assert forall|i: int| 0 <= i < times.len() implies #[trigger] times[i] <= now_ns by {
            if i < old_times.len() {
                assert(times[i] == old_times[i]);
                if earlier.len() > 0 {
                    assert(calls[earlier.len() - 1].now_ns <= calls[calls.len() - 1].now_ns);
                }
            }
        }
        if old_times.len() > 0 && new_times.len() > 0 {
            let last = old_times[old_times.len() - 1];
            assert(times[old_times.len() - 1] == last);
            lemma_later_by_more(state.start_time_ns, last, now_ns, state.nack_interval_ms());
        }
        assert forall|i: int, j: int| 0 <= i < j < times.len() implies whole_ms(
            state.start_time_ns,
            #[trigger] times[j],
        ) - whole_ms(state.start_time_ns, #[trigger] times[i]) > state.nack_interval_ms() by {
            if j < old_times.len() {
                assert(times[j] == old_times[j] && times[i] == old_times[i]);
            } else {
                let last = old_times.len() - 1;
                assert(times[i] == old_times[i]);
                if i < last {
                    assert(whole_ms(state.start_time_ns, old_times[last]) - whole_ms(
                        state.start_time_ns,
                        old_times[i],
                    ) > state.nack_interval_ms());
                }
            }
        }
        assert forall|other: u16| #[trigger]
            state.after_calls(calls).found(other) == state.found(other) by {
            assert(middle.found(other) == state.found(other));
        }
    }
}

/// However often a number is asked for, it is answered three times at most in all, with more than
/// the interval between any two answers, in whole milliseconds since the start. A call answers no
/// number twice, and answers in the order in which it asks. With the default round trip time the
/// interval is a hundred milliseconds.
pub proof fn law_resends_of_a_run_are_few_and_spaced(
    state: SequencerView,
    calls: Seq<ResendCall>,
    sn: u16,
)
    requires
        state.wf(),
        state.initialized,
        times_ascend(calls),
    ensures
        state.resend_times(calls, sn).len() <= MAX_ACKS,
        forall|i: int, j: int|
            #![trigger state.resend_times(calls, sn)[i], state.resend_times(calls, sn)[j]]
            0 <= i < j < state.resend_times(calls, sn).len() ==> whole_ms(
                state.start_time_ns,
                state.resend_times(calls, sn)[j],
            ) - whole_ms(state.start_time_ns, state.resend_times(calls, sn)[i])
                > state.nack_interval_ms(),
        state.rtt_ms == DEFAULT_RTT_MS ==> state.nack_interval_ms() == IGNORE_RETRANSMISSION_MS,
        calls.len() > 0 ==> {
            let answers = state.last_answers(calls);
            &&& answer_times(answers, sn, calls.last().now_ns).len() <= 1
            &&& exists|places: Seq<int>| answered_at(answers, calls.last().sns, places)
        },
{
    lemma_run(state, calls, sn);
    if state.found(sn) is Some {
        lemma_found_place(state, sn);
    }
    if calls.len() > 0 {
        let earlier = calls.drop_last();
        lemma_times_ascend_before(calls);
        lemma_run(state, earlier, sn);
        let ref_time = ref_time_ms(state.start_time_ns, calls.last().now_ns);
        lemma_call(
            state.after_calls(earlier),
            calls.last().sns,
            ref_time,
            calls.last().now_ns,
            sn,
        );
        let places = lemma_answer_places(
            state.after_calls(earlier),
            calls.last().sns,
            ref_time,
        );
        assert(answered_at(state.last_answers(calls), calls.last().sns, places));
    }
}

proof fn lemma_answer_places(state: SequencerView, sns: Seq<u16>, ref_time: u32) -> (places: Seq<
    int,
>)
    requires
        state.wf(),
    ensures
        answered_at(state.replies(sns, ref_time), sns, places),
    decreases sns.len(),
{
    if sns.len() == 0 {
        Seq::empty()
    } else {
        let before = lemma_answer_places(state, sns.drop_last(), ref_time);
        let middle = state.after_requests(sns.drop_last(), ref_time);
        lemma_call(state, sns.drop_last(), ref_time, 0, 0);
        match middle.reply(sns.last(), ref_time) {
            Some(reply) => {
                lemma_found_place(middle, sns.last());
                assert(reply.target_seq_no == sns.last());
                before.push(sns.len() - 1)
            },
            None => before,
        }
    }
}

/// A packet that was put into the ring, and is not too far behind the newest one for its low bits
/// to tell it, is sent again for the first time more than the interval after it went out, in whole
/// milliseconds since the start, and at most three times in all.
pub proof fn law_first_resend_comes_after_the_interval(
    state: SequencerView,
    packet: OutgoingPacket,
    calls: Seq<ResendCall>,
)
    requires
        state.wf(),
        state.started(packet).accepts(packet.ext_modified_sn),
        !state.initialized && state.ranges is Some ==> packet.ext_modified_sn < u64::MAX,
        state.pushed(packet).ext_highest_sn - packet.ext_modified_sn <= 0x8000,
        times_ascend(calls),
        calls.len() > 0 ==> packet.packet_time_ns <= calls[0].now_ns,
    ensures
        ({
            let after = state.pushed(packet);
            let times = after.resend_times(calls, (packet.ext_modified_sn % 0x1_0000) as u16);
            &&& times.len() <= MAX_ACKS
            &&& times.len() > 0 ==> whole_ms(after.start_time_ns, times[0]) - whole_ms(
                after.start_time_ns,
                packet.packet_time_ns,
            ) > after.nack_interval_ms()
        }),
{
    let started = state.started(packet);
    let after = state.pushed(packet);
    let ext_sn = packet.ext_modified_sn;
    let sn = (ext_sn % 0x1_0000) as u16;
    let count = started.count_of(ext_sn)->0;
    let times = after.resend_times(calls, sn);
    law_low_bits_identify_recent_numbers(after.ext_highest_sn, ext_sn);
    lemma_run(after, calls, sn);
    vstd::arithmetic::div_mod::lemma_mod_bound(count as int, started.size);
    assert(after.meta[count as int % after.size] == started.meta_of(packet));
    if after.found(sn) is Some {
        lemma_found_place(after, sn);
        if let Some(ranges) = started.ranges {
            if ext_sn >= started.ext_highest_sn {
                let last = ranges.len() - 1;
                if ranges.last().start <= ext_sn {
                    range_map::lemma_holder_is_unique(ranges, last, ext_sn);
                } else {
                    assert forall|i: int| !range_map::holds(ranges, i, ext_sn) by {
                        if 0 <= i < last {
                            assert(ranges[i].end + 1 < ranges[last].start);
                        }
                    }
                    assert(after.looked_up_count(ext_sn) is None);
                }
            }
        }
        assert(after.found(sn) == Some((ext_sn, count as int % after.size)));
        if times.len() > 0 {
            lemma_time_of_resend(after, calls, sn);
            lemma_later_by_more(
                after.start_time_ns,
                packet.packet_time_ns,
                times[0],
                after.nack_interval_ms(),
            );
        }
    }
}

proof fn lemma_time_of_resend(state: SequencerView, calls: Seq<ResendCall>, sn: u16)
    requires
        state.wf(),
        times_ascend(calls),
    ensures
        forall|i: int|
            0 <= i < state.resend_times(calls, sn).len() ==> calls[0].now_ns <= (
            #[trigger] state.resend_times(calls, sn)[i]),
    decreases calls.len(),
{
    if calls.len() > 0 {
        let earlier = calls.drop_last();
        lemma_times_ascend_before(calls);
        lemma_time_of_resend(state, earlier, sn);
        lemma_run(state, earlier, sn);
        lemma_call(
            state.after_calls(earlier),
            calls.last().sns,
            ref_time_ms(state.start_time_ns, calls.last().now_ns),
            calls.last().now_ns,
            sn,
        );
        let old_times = state.resend_times(earlier, sn);
        assert(calls[0].now_ns <= calls[calls.len() - 1].now_ns);
        assert forall|i: int| 0 <= i < state.resend_times(calls, sn).len() implies calls[0].now_ns
            <= #[trigger] state.resend_times(calls, sn)[i] by {
            if i < old_times.len() {
                assert(state.resend_times(calls, sn)[i] == old_times[i]);
            }
        }
    }
}

/// A number that went out as padding ahead of the newest one is never sent again.
pub proof fn law_padding_is_not_sent_again(
    state: SequencerView,
    start: u64,
    end: u64,
    sn: u64,
    ref_time: u32,
)
    requires
        state.wf(),
        state.initialized,
        state.ranges is Some,
        state.ext_highest_sn < start <= sn <= end < u64::MAX,
        end - sn <= 0x8000,
    ensures
        state.padded(start, end).reply((sn % 0x1_0000) as u16, ref_time) is None,
{
    let ranges = state.ranges->0;
    let after = state.padded(start, end);
    assert(range_map::can_exclude(ranges, start, (end + 1) as u64));
    law_low_bits_identify_recent_numbers(end, sn);
    range_map::law_exclusion_is_seen(
        ranges,
        (state.size + 1) as nat / 2,
        start,
        (end + 1) as u64,
        sn,
    );
    assert(after.looked_up_count(sn) is None);
}

/// Padding directly behind the newest number leaves the packets in the ring alone: one that was
/// there is still found, as long as its range is remembered.
pub proof fn law_padding_keeps_packets(
    state: SequencerView,
    end: u64,
    sn: u64,
    range: int,
)
    requires
        state.wf(),
        state.initialized,
        state.ranges is Some,
        state.ext_highest_sn < end < u64::MAX,
        sn <= state.ext_highest_sn,
        end - sn <= 0x8000,
        range_map::holds(state.ranges->0, range, sn),
        state.ranges->0.last().start == state.ext_highest_sn + 1 || range >= state.ranges->0.len()
            - (state.size + 1) as nat / 2,
        state.sn_offset <= state.ext_highest_sn,
    ensures
        state.padded((state.ext_highest_sn + 1) as u64, end).found((sn % 0x1_0000) as u16)
            == state.found((sn % 0x1_0000) as u16),
{
    let start = (state.ext_highest_sn + 1) as u64;
    let ranges = state.ranges->0;
    let after = state.padded(start, end);
    assert(range_map::can_exclude(ranges, start, (end + 1) as u64));
    law_low_bits_identify_recent_numbers(end, sn);
    law_low_bits_identify_recent_numbers(state.ext_highest_sn, sn);
    range_map::law_exclusion_keeps_older_offsets(
        ranges,
        (state.size + 1) as nat / 2,
        start,
        (end + 1) as u64,
        sn,
        range,
    );
    assert(after.looked_up_count(sn) == state.looked_up_count(sn));
    assert(after.highest_count() == state.highest_count());
}

proof fn lemma_clear_one_more(meta: Seq<PacketMetaView>, low: int, n: int)
    requires
        low <= n,
        meta.len() > 0,
    ensures
        cleared(meta, low, n).update(n % meta.len() as int, invalid_meta()) == cleared(
            meta,
            low,
            n + 1,
        ),
{
    let a = cleared(meta, low, n).update(n % meta.len() as int, invalid_meta());
    let b = cleared(meta, low, n + 1);
    vstd::arithmetic::div_mod::lemma_mod_bound(n, meta.len() as int);
    assert forall|s: int| 0 <= s < meta.len() implies #[trigger] a[s] == b[s] by {
        if exists|k: int| low <= k < n + 1 && #[trigger] (k % meta.len() as int) == s {
            let k = choose|k: int| low <= k < n + 1 && #[trigger] (k % meta.len() as int) == s;
            if k != n {
                assert(low <= k < n && k % meta.len() as int == s);
            }
        }
        if exists|k: int| low <= k < n && #[trigger] (k % meta.len() as int) == s {
            let k = choose|k: int| low <= k < n && #[trigger] (k % meta.len() as int) == s;
            assert(low <= k < n + 1 && k % meta.len() as int == s);
        }
    }
    assert(a =~= b);
}

proof fn lemma_a_turn_is_enough(meta: Seq<PacketMetaView>, low: int, mid: int, high: int)
    requires
        meta.len() > 0,
        low <= mid <= high,
        mid == high || mid - low == meta.len(),
    ensures
        cleared(meta, low, mid) == cleared(meta, low, high),
{
    let a = cleared(meta, low, mid);
    let b = cleared(meta, low, high);
    let size = meta.len() as int;
    assert forall|s: int| 0 <= s < meta.len() implies #[trigger] a[s] == b[s] by {
        if exists|k: int| low <= k < high && #[trigger] (k % size) == s {
            let k = choose|k: int| low <= k < high && #[trigger] (k % size) == s;
            if k >= mid {
                let q = (k - low) / size;
                let near = low + (k - low) % size;
                vstd::arithmetic::div_mod::lemma_mod_bound(k - low, size);
                vstd::arithmetic::div_mod::lemma_fundamental_div_mod(k - low, size);
                assert(k == size * q + near);
                vstd::arithmetic::div_mod::lemma_mod_multiples_vanish(q, near, size);
                assert(low <= near < mid && near % size == s);
            }
        }
        if exists|k: int| low <= k < mid && #[trigger] (k % size) == s {
            let k = choose|k: int| low <= k < mid && #[trigger] (k % size) == s;
            assert(low <= k < high && k % size == s);
        }
    }
    assert(a =~= b);
}

proof fn lemma_near_counts_differ(a: int, b: int, size: int)
    requires
        size > 0,
        a != b,
        -size < a - b < size,
    ensures
        a % size != b % size,
{
    if a % size == b % size {
        vstd::arithmetic::div_mod::lemma_fundamental_div_mod(a, size);
        vstd::arithmetic::div_mod::lemma_fundamental_div_mod(b, size);
        let k = a / size - b / size;
        assert(size * (a / size) - size * (b / size) == size * k) by (nonlinear_arith)
            requires
                k == a / size - b / size,
        ;
        assert(k == 0) by (nonlinear_arith)
            requires
                -size < size * k < size,
                size > 0,
        ;
        assert(size * k == 0) by (nonlinear_arith)
            requires
                k == 0,
        ;
    }
}

/// A ring takes every packet from its first number on that is newer than all it has, or less than
/// its size behind the newest one, and no other.
pub proof fn law_ring_takes_recent_packets(state: SequencerView, sn: u64)
    requires
        state.wf(),
    ensures
        sn >= state.ext_start_sn && sn >= state.ext_highest_sn ==> state.accepts(sn),
        sn < state.ext_start_sn ==> !state.accepts(sn),
        state.ranges is None ==> (state.accepts(sn) <==> sn >= state.ext_start_sn
            && state.ext_highest_sn < sn + state.size),
{
}

/// The time before a packet is sent again is twice the round trip, and at most a hundred
/// milliseconds.
pub proof fn law_interval_is_bounded(state: SequencerView)
    ensures
        state.nack_interval_ms() <= 100,
        state.nack_interval_ms() <= 2 * state.rtt_ms,
        state.nack_interval_ms() == 100 || state.nack_interval_ms() == 2 * state.rtt_ms,
{
}

/// The low bits of a timestamp that is less than a turn behind the newest one give it back.
pub proof fn law_low_bits_identify_recent_timestamps(highest: u64, ts: u64)
    requires
        ts <= highest < ts + 0x1_0000_0000,
    ensures
        extended_ts(highest, (ts % 0x1_0000_0000) as u32) == ts,
{
}

/// Times are counted in whole milliseconds from the start: none before it, and one more for each
/// million nanoseconds that passed.
pub proof fn law_whole_milliseconds_pass(start: i64, at: i64)
    ensures
        at <= start ==> whole_ms(start, at) == 0,
        at > start ==> whole_ms(start, at) * 1_000_000 <= at - start < (whole_ms(start, at) + 1)
            * 1_000_000,
        whole_ms(start, at) <= u32::MAX ==> ref_time_ms(start, at) == whole_ms(start, at),
{
}

/// A request is answered exactly where the packet is found, was sent again fewer than three times,
/// and longer ago than the interval; and it changes something exactly where it is answered.
pub proof fn law_requests_are_answered_when_due(state: SequencerView, sn: u16, ref_time: u32)
    requires
        state.wf(),
    ensures
        state.reply(sn, ref_time) is Some <==> (state.found(sn) matches Some((_, slot))
            && state.meta[slot].nacked < 3 && ref_time - state.meta[slot].last_nack_ms
            > state.nack_interval_ms()),
        state.reply(sn, ref_time) is None ==> state.after_request(sn, ref_time) == state,
{
}

/// An answer is what was remembered of the packet, and remembers when it was given.
pub proof fn law_answer_is_what_was_remembered(state: SequencerView, sn: u16, ref_time: u32)
    requires
        state.wf(),
        state.reply(sn, ref_time) is Some,
    ensures
        ({
            let reply = state.reply(sn, ref_time)->Some_0;
            let (ext_sn, slot) = state.found(sn)->Some_0;
            let meta = state.meta[slot];
            let after = state.after_request(sn, ref_time);
            &&& reply.target_seq_no == sn
            &&& reply.ext_sequence_number == ext_sn
            &&& state.ext_highest_sn >= 0x1_0000 ==> ext_sn % 0x1_0000 == sn
            &&& state.ext_highest_ts >= 0x1_0000_0000 ==> reply.ext_timestamp % 0x1_0000_0000
                == meta.timestamp
            &&& reply.source_seq_no == meta.source_seq_no
            &&& reply.marker == meta.marker
            &&& reply.layer == meta.layer
            &&& reply.num_codec_bytes_in == meta.num_codec_bytes_in
            &&& reply.num_codec_bytes_out == meta.num_codec_bytes_out
            &&& reply.codec() == meta.codec()
            &&& reply.dd() == meta.dd()
            &&& reply.act_bytes == meta.act_bytes
            &&& after.meta[slot] == (PacketMetaView {
                nacked: (meta.nacked + 1) as u8,
                last_nack_ms: ref_time,
                ..meta
            })
            &&& forall|other: int|
                0 <= other < state.meta.len() && other != slot ==> #[trigger] after.meta[other]
                    == state.meta[other]
        }),
{
}

/// Without padding the packet with a number is found at the place of that number, exactly where
/// the ring still has it there.
pub proof fn law_packet_is_found_at_its_place(state: SequencerView, sn: u64)
    requires
        state.wf(),
        state.ranges is None,
        sn <= state.ext_highest_sn <= sn + 0x8000,
    ensures
        state.found((sn % 0x1_0000) as u16) == if state.ext_highest_sn - sn < state.size
            && state.meta[sn as int % state.size].valid && state.meta[sn as int
            % state.size].target_seq_no == sn % 0x1_0000 {
            Some((sn, sn as int % state.size))
        } else {
            None
        },
{
    law_low_bits_identify_recent_numbers(state.ext_highest_sn, sn);
}

/// A newer packet leaves those that are less than the size of the ring behind it as they were, and
/// those that it passes over are not there.
pub proof fn law_newer_packet_keeps_recent_ones(
    state: SequencerView,
    packet: OutgoingPacket,
    sn: u64,
)
    requires
        state.wf(),
        state.initialized,
        state.ranges is None,
        packet.ext_modified_sn > state.ext_highest_sn >= state.ext_start_sn,
        sn < packet.ext_modified_sn < sn + state.size,
        packet.ext_modified_sn <= sn + 0x8000,
    ensures
        sn <= state.ext_highest_sn ==> state.pushed(packet).found((sn % 0x1_0000) as u16)
            == state.found((sn % 0x1_0000) as u16),
        sn > state.ext_highest_sn ==> state.pushed(packet).found((sn % 0x1_0000) as u16) is None,
{
    let after = state.pushed(packet);
    let newest = packet.ext_modified_sn as int;
    let slot = sn as int % state.size;
    vstd::arithmetic::div_mod::lemma_mod_bound(sn as int, state.size);
    vstd::arithmetic::div_mod::lemma_mod_bound(newest, state.size);
    lemma_near_counts_differ(sn as int, newest, state.size);
    law_low_bits_identify_recent_numbers(after.ext_highest_sn, sn);
    if sn <= state.ext_highest_sn {
        law_low_bits_identify_recent_numbers(state.ext_highest_sn, sn);
        assert forall|n: int| state.ext_highest_sn < n < newest implies #[trigger] (n
            % state.size) != slot by {
            lemma_near_counts_differ(n, sn as int, state.size);
        }
        assert(after.meta[slot] == state.meta[slot]);
    } else {
        assert((sn as int) % state.meta.len() as int == slot);
        assert(after.meta[slot] == invalid_meta());
    }
}

/// A late packet leaves every other place of the ring as it was.
pub proof fn law_late_packet_keeps_other_places(
    state: SequencerView,
    packet: OutgoingPacket,
    slot: int,
)
    requires
        state.wf(),
        state.initialized,
        state.ranges is None,
        state.ext_start_sn <= packet.ext_modified_sn <= state.ext_highest_sn,
        state.ext_highest_sn - packet.ext_modified_sn < state.size,
        0 <= slot < state.size,
        slot != packet.ext_modified_sn as int % state.size,
    ensures
        state.pushed(packet).meta[slot] == state.meta[slot],
        state.pushed(packet).ext_highest_sn == state.ext_highest_sn,
        state.pushed(packet).meta[packet.ext_modified_sn as int % state.size].valid,
{
    vstd::arithmetic::div_mod::lemma_mod_bound(packet.ext_modified_sn as int, state.size);
}

/// A packet that the ring does not take changes nothing, once the ring has started; the first one
/// starts it at its own number, timestamp and time.
pub proof fn law_first_packet_starts_the_ring(state: SequencerView, packet: OutgoingPacket)
    requires
        state.wf(),
    ensures
        state.initialized && packet.ext_modified_sn < state.ext_start_sn ==> state.pushed(packet)
            == state,
        state.initialized ==> state.pushed(packet).start_time_ns == state.start_time_ns
            && state.pushed(packet).ext_start_sn == state.ext_start_sn,
        !state.initialized ==> {
            let after = state.pushed(packet);
            &&& after.initialized
            &&& after.ext_start_sn == packet.ext_modified_sn
            &&& after.ext_highest_sn == packet.ext_modified_sn
            &&& after.ext_highest_ts == packet.ext_modified_ts
            &&& state.start_time_ns == 0 ==> after.start_time_ns == packet.packet_time_ns
            &&& state.start_time_ns != 0 ==> after.start_time_ns == state.start_time_ns
        },
        state.pushed(packet).ext_highest_sn >= state.ext_highest_sn || !state.initialized,
        state.pushed(packet).ext_highest_ts >= state.ext_highest_ts || !state.initialized,
        state.pushed(packet).rtt_ms == state.rtt_ms,
        state.pushed(packet).sn_offset == state.sn_offset,
{
}

/// A late padding number whose place the ring still has is not sent again.
pub proof fn law_late_padding_is_not_sent_again(
    state: SequencerView,
    start: u64,
    end: u64,
    sn: u64,
    ref_time: u32,
)
    requires
        state.wf(),
        state.initialized,
        state.ranges is Some,
        start <= sn <= end,
        start <= state.ext_highest_sn,
        sn < state.ext_highest_sn <= sn + 0x8000,
        state.ext_highest_sn <= sn + state.size,
    ensures
        state.padded(start, end).reply((sn % 0x1_0000) as u16, ref_time) is None,
        state.padded(start, end).ext_highest_sn == state.ext_highest_sn,
        state.padded(start, end).ranges == state.ranges,
{
    let after = state.padded(start, end);
    law_low_bits_identify_recent_numbers(state.ext_highest_sn, sn);
    if after.looked_up_count(sn) is Some {
        let count = after.looked_up_count(sn)->Some_0;
        let slot = count as int % state.size;
        vstd::arithmetic::div_mod::lemma_mod_bound(count as int, state.size);
        assert(state.padding_empties(sn as int, slot));
        assert(after.meta[slot] == invalid_meta());
    }
}

/// Padding ahead of the newest number makes its last number the newest, and moves the counts of
/// what follows back by as many numbers; without ranges, or before the first packet, padding is
/// passed over.
pub proof fn law_padding_ahead_is_left_out(state: SequencerView, start: u64, end: u64)
    requires
        state.wf(),
    ensures
        state.ranges is None || !state.initialized ==> state.padded(start, end) == state,
        state.ranges is Some && state.initialized && state.ext_highest_sn < start <= end < u64::MAX
            && state.sn_offset + (end - start) + 1 <= u64::MAX ==> {
            let after = state.padded(start, end);
            &&& after.ext_highest_sn == end
            &&& after.sn_offset == state.sn_offset + (end - start) + 1
            &&& after.meta == state.meta
            &&& after.ext_highest_ts == state.ext_highest_ts
        },
{
}

/// The requests of a call are answered one after the other, each in the state that the ones before
/// it left.
pub proof fn law_requests_are_answered_in_order(
    state: SequencerView,
    sns: Seq<u16>,
    sn: u16,
    ref_time: u32,
)
    ensures
        state.after_requests(Seq::empty(), ref_time) == state,
        state.replies(Seq::empty(), ref_time).len() == 0,
        state.after_requests(sns.push(sn), ref_time) == state.after_requests(
            sns,
            ref_time,
        ).after_request(sn, ref_time),
        state.after_requests(sns, ref_time).reply(sn, ref_time) matches Some(reply)
            ==> state.replies(sns.push(sn), ref_time) == state.replies(sns, ref_time).push(reply),
        state.after_requests(sns, ref_time).reply(sn, ref_time) is None ==> state.replies(
            sns.push(sn),
            ref_time,
        ) == state.replies(sns, ref_time),
{
    assert(sns.push(sn).drop_last() =~= sns);
}

} // verus!
