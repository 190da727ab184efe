//! How the packets of a track are numbered for a subscriber.
use std::collections::HashMap;
use vstd::prelude::*;

use crate::forwarder::ForwarderLite;
use crate::video_layer_selector::VideoLayerLite;

verus! {

/// How many timestamp units a second of video has.
pub const VP8_CLOCK_RATE: u32 = 90_000;

/// How a packet follows the one before it.
#[derive(Debug, Clone, Copy, PartialEq, Eq, Structural)]
pub enum SequenceOrderingLite {
    Contiguous,
    Gap,
    OutOfOrder,
}

/// The numbers that a packet is sent with.
#[derive(Debug, Clone, Copy, PartialEq, Eq, Structural)]
pub struct TranslationRtpLite {
    pub sn_ordering: SequenceOrderingLite,
    pub ext_sequence_number: u64,
    pub ext_timestamp: u64,
}

/// The parts of a VP8 descriptor that are rewritten, and those that decide about it.
#[derive(Debug, Clone, Copy, PartialEq, Eq, Structural)]
pub struct Vp8InfoLite {
    pub picture_id: u16,
    pub tl0_pic_idx: u8,
    pub tid: u8,
    pub key_idx: u8,
    pub header_size: u8,
    pub m_bit: bool,
    pub is_key_frame: bool,
}

/// A video packet.
#[derive(Debug, Clone, Copy)]
pub struct VideoPacketLite {
    pub sequence_number: u16,
    pub timestamp: u32,
    pub ssrc: u32,
    pub payload_size: usize,
    pub is_out_of_order: bool,
    pub marker: bool,
    pub layer: i32,
}

/// An audio packet.
#[derive(Debug, Clone, Copy)]
pub struct AudioPacketLite {
    pub sequence_number: u16,
    pub timestamp: u32,
    pub ssrc: u32,
    pub payload_size: usize,
    pub is_out_of_order: bool,
}

/// What becomes of a packet.
#[derive(Debug, Clone, Copy, PartialEq, Eq, Structural)]
pub struct TranslationParamsLite {
    pub should_drop: bool,
    pub is_starting: bool,
    pub is_resuming: bool,
    pub is_switching: bool,
    pub marker: bool,
    pub incoming_header_size: usize,
    pub codec: Option<Vp8InfoLite>,
    pub rtp: Option<TranslationRtpLite>,
}

impl TranslationParamsLite {
    /// Nothing is said of the packet.
    pub open spec fn blank() -> Self {
        TranslationParamsLite {
            should_drop: false,
            is_starting: false,
            is_resuming: false,
            is_switching: false,
            marker: false,
            incoming_header_size: 0,
            codec: None,
            rtp: None,
        }
    }

    /// The packet is not sent.
    pub open spec fn dropped(marker: bool) -> Self {
        TranslationParamsLite { should_drop: true, marker, ..TranslationParamsLite::blank() }
    }

    /// The packet is sent with the numbers.
    pub open spec fn sent(rtp: TranslationRtpLite) -> Self {
        TranslationParamsLite { rtp: Some(rtp), ..TranslationParamsLite::blank() }
    }

    fn drop_packet(marker: bool) -> (params: Self)
        ensures
            params == TranslationParamsLite::dropped(marker),
    {
        TranslationParamsLite {
            should_drop: true,
            is_starting: false,
            is_resuming: false,
            is_switching: false,
            marker,
            incoming_header_size: 0,
            codec: None,
            rtp: None,
        }
    }

    fn send_packet(rtp: TranslationRtpLite) -> (params: Self)
        ensures
            params == TranslationParamsLite::sent(rtp),
    {
        TranslationParamsLite {
            should_drop: false,
            is_starting: false,
            is_resuming: false,
            is_switching: false,
            marker: false,
            incoming_header_size: 0,
            codec: None,
            rtp: Some(rtp),
        }
    }
}

impl Default for TranslationParamsLite {
    fn default() -> (params: Self)
        ensures
            params == TranslationParamsLite::blank(),
    {
        TranslationParamsLite {
            should_drop: false,
            is_starting: false,
            is_resuming: false,
            is_switching: false,
            marker: false,
            incoming_header_size: 0,
            codec: None,
            rtp: None,
        }
    }
}

/// The numbers of a padding packet.
#[derive(Debug, Clone, Copy, PartialEq, Eq, Structural)]
pub struct SnTsLite {
    pub ext_sequence_number: u64,
    pub ext_timestamp: u64,
}

/// The VP8 descriptor of a padding packet.
#[derive(Debug, Clone, Copy, PartialEq, Eq, Structural)]
pub struct Vp8PaddingLite {
    pub picture_id: u16,
    pub tl0_pic_idx: u8,
    pub key_idx: u8,
    pub tid: u8,
    pub first_byte: u8,
}

/// What was sent last, and what was left out.
pub struct ForwardedStream {
    pub started: bool,
    pub last_ssrc: u32,
    pub last_in_seq: u16,
    pub last_out_seq: u64,
    pub last_out_ts: u64,
    pub excluded_ranges: Vec<(u16, u16)>,
    pub dropped_padding_in_order: Vec<u16>,
    pub frame_end_needed: bool,
    pub vp8_padding: Option<Vp8PaddingLite>,
    pub first_in_seq_video: Option<u16>,
    pub vp8_pic_map: HashMap<u16, u16>,
    pub last_out_pic_id: Option<u16>,
    pub last_out_tl0: Option<u8>,
    pub last_out_key: Option<u8>,
}

/// The contents of a [`ForwardedStream`].
#[verifier::ext_equal]
pub struct StreamView {
    pub started: bool,
    pub last_ssrc: u32,
    pub last_in_seq: u16,
    pub last_out_seq: u64,
    pub last_out_ts: u64,
    pub excluded: Seq<(u16, u16)>,
    pub dropped: Seq<u16>,
    pub frame_end_needed: bool,
    pub vp8_padding: Option<Vp8PaddingLite>,
    pub first_in_seq: Option<u16>,
    pub pictures: Map<u16, u16>,
    pub last_out_pic_id: Option<u16>,
    pub last_out_tl0: Option<u8>,
    pub last_out_key: Option<u8>,
}

/// How many numbers of a range lie before `seq`.
pub open spec fn excluded_by(range: (u16, u16), seq: u16) -> nat {
    if seq <= range.0 || range.1 <= range.0 {
        0
    } else if seq >= range.1 {
        (range.1 - range.0) as nat
    } else {
        (seq - range.0) as nat
    }
}

/// How many numbers of the ranges lie before `seq`.
pub open spec fn excluded_by_all(ranges: Seq<(u16, u16)>, seq: u16) -> nat
    decreases ranges.len(),
{
    if ranges.len() == 0 {
        0
    } else {
        excluded_by_all(ranges.drop_last(), seq) + excluded_by(ranges.last(), seq)
    }
}

/// How many of the packets have a number up to `seq`.
pub open spec fn count_up_to(packets: Seq<u16>, seq: u16) -> nat
    decreases packets.len(),
{
    if packets.len() == 0 {
        0
    } else {
        count_up_to(packets.drop_last(), seq) + if packets.last() <= seq {
            1nat
        } else {
            0nat
        }
    }
}

/// How the packet with the number follows `last`.
pub open spec fn ordering_after(last: u16, seq: u16) -> SequenceOrderingLite {
    if seq < last {
        SequenceOrderingLite::OutOfOrder
    } else if seq == last + 1 {
        SequenceOrderingLite::Contiguous
    } else {
        SequenceOrderingLite::Gap
    }
}

impl StreamView {
    /// A stream that nothing was sent of yet.
    pub open spec fn fresh() -> Self {
        StreamView {
            started: false,
            last_ssrc: 0,
            last_in_seq: 0,
            last_out_seq: 0,
            last_out_ts: 0,
            excluded: Seq::empty(),
            dropped: Seq::empty(),
            frame_end_needed: false,
            vp8_padding: None,
            first_in_seq: None,
            pictures: Map::empty(),
            last_out_pic_id: None,
            last_out_tl0: None,
            last_out_key: None,
        }
    }

    /// The number that a packet is sent with: numbers that were left out make no hole.
    pub open spec fn mapped(self, seq: u16) -> int {
        seq - excluded_by_all(self.excluded, seq) - count_up_to(self.dropped, seq)
    }

    /// The stream after a packet came in and went out with the numbers.
    pub open spec fn moved(self, seq: u16, out_seq: int, out_ts: int) -> Self {
        StreamView {
            last_in_seq: seq,
            last_out_seq: out_seq as u64,
            last_out_ts: out_ts as u64,
            ..self
        }
    }

    /// The stream after the packet was left out.
    pub open spec fn left_out(self, seq: u16, timestamp: u32) -> Self {
        let moved = self.moved(seq, self.mapped(seq), timestamp as int);
        StreamView { dropped: self.dropped.push(seq), ..moved }
    }

    /// The stream after its first packet.
    pub open spec fn begun(self, ssrc: u32, seq: u16, timestamp: u32) -> Self {
        let moved = self.moved(seq, seq as int, timestamp as int);
        StreamView { started: true, last_ssrc: ssrc, ..moved }
    }

    /// What becomes of an audio packet, and the stream after it.
    pub open spec fn audio(self, packet: AudioPacketLite) -> (Self, TranslationParamsLite) {
        let seq = packet.sequence_number;
        let ordering = ordering_after(self.last_in_seq, seq);
        if !self.started {
            if packet.is_out_of_order || packet.payload_size == 0 {
                (self, TranslationParamsLite::dropped(false))
            } else {
                (
                    self.begun(packet.ssrc, seq, packet.timestamp),
                    TranslationParamsLite {
                        is_starting: true,
                        ..TranslationParamsLite::sent(
                            TranslationRtpLite {
                                sn_ordering: SequenceOrderingLite::Contiguous,
                                ext_sequence_number: seq as u64,
                                ext_timestamp: packet.timestamp as u64,
                            },
                        )
                    },
                )
            }
        } else if packet.ssrc != self.last_ssrc {
            let moved = self.moved(seq, self.last_out_seq + 1, self.last_out_ts + 1);
            (
                StreamView { last_ssrc: packet.ssrc, ..moved },
                TranslationParamsLite::sent(
                    TranslationRtpLite {
                        sn_ordering: SequenceOrderingLite::Contiguous,
                        ext_sequence_number: (self.last_out_seq + 1) as u64,
                        ext_timestamp: (self.last_out_ts + 1) as u64,
                    },
                ),
            )
        } else if seq == self.last_in_seq {
            (self, TranslationParamsLite::dropped(false))
        } else if packet.payload_size == 0 && ordering == SequenceOrderingLite::Contiguous {
            (self.left_out(seq, packet.timestamp), TranslationParamsLite::dropped(false))
        } else {
            (
                if seq > self.last_in_seq {
                    self.moved(seq, self.mapped(seq), packet.timestamp as int)
                } else {
                    self
                },
                TranslationParamsLite::sent(
                    TranslationRtpLite {
                        sn_ordering: ordering,
                        ext_sequence_number: self.mapped(seq) as u64,
                        ext_timestamp: packet.timestamp as u64,
                    },
                ),
            )
        }
    }

    /// The numbers that an audio packet may be given fit.
    pub open spec fn can_take_audio(self, packet: AudioPacketLite) -> bool {
        self.started ==> if packet.ssrc != self.last_ssrc {
            self.last_out_seq < u64::MAX && self.last_out_ts < u64::MAX
        } else {
            packet.sequence_number != self.last_in_seq ==> self.mapped(packet.sequence_number) >= 0
        }
    }

    /// The picture number that a picture is sent with, if it can be sent.
    pub open spec fn picture_out(self, picture_id: u16, ordering: SequenceOrderingLite) -> Option<
        u16,
    > {
        if self.pictures.contains_key(picture_id) {
            Some(self.pictures[picture_id])
        } else if ordering == SequenceOrderingLite::OutOfOrder {
            None
        } else {
            match self.last_out_pic_id {
                Some(last) => if picture_id == last {
                    Some(last)
                } else {
                    Some(last.wrapping_add(1))
                },
                None => Some(picture_id),
            }
        }
    }

    /// The descriptor that a picture is sent with under the number.
    pub open spec fn descriptor_out(self, vp8: Vp8InfoLite, picture_id: u16, switched: bool) ->
        Vp8InfoLite {
        Vp8InfoLite {
            picture_id,
            tl0_pic_idx: match self.last_out_tl0 {
                None => vp8.tl0_pic_idx,
                Some(last) => if self.last_out_pic_id != Some(picture_id) && vp8.tid == 0 {
                    last.wrapping_add(1)
                } else {
                    last
                },
            },
            tid: vp8.tid,
            key_idx: match self.last_out_key {
                None => vp8.key_idx,
                Some(last) => if switched {
                    last.wrapping_add(1)
                } else {
                    last
                },
            },
            header_size: 6,
            m_bit: true,
            is_key_frame: vp8.is_key_frame,
        }
    }

    /// The stream after a picture was sent with the descriptor.
    pub open spec fn after_picture(self, vp8: Vp8InfoLite, out: Vp8InfoLite) -> Self {
        StreamView {
            pictures: if self.pictures.contains_key(vp8.picture_id) {
                self.pictures
            } else {
                self.pictures.insert(vp8.picture_id, out.picture_id)
            },
            last_out_pic_id: Some(out.picture_id),
            last_out_tl0: Some(out.tl0_pic_idx),
            last_out_key: Some(out.key_idx),
            ..self
        }
    }

    /// The packet is of a layer above the target.
    pub open spec fn is_above(target: VideoLayerLite, packet: VideoPacketLite, vp8: Vp8InfoLite) ->
        bool {
        packet.layer > target.spatial || vp8.tid > target.temporal
    }

    /// What becomes of a packet of a layer above the target, and the stream after it.
    pub open spec fn video_above(self, packet: VideoPacketLite) -> (Self, TranslationParamsLite) {
        let seq = packet.sequence_number;
        let ordering = ordering_after(self.last_in_seq, seq);
        (
            if ordering == SequenceOrderingLite::Contiguous {
                self.left_out(seq, packet.timestamp)
            } else {
                self
            },
            TranslationParamsLite {
                rtp: Some(
                    TranslationRtpLite {
                        sn_ordering: ordering,
                        ext_sequence_number: self.mapped(seq) as u64,
                        ext_timestamp: packet.timestamp as u64,
                    },
                ),
                ..TranslationParamsLite::dropped(packet.marker)
            },
        )
    }

    /// What becomes of the first packet, and the stream after it: it has to be one of a key
    /// frame.
    pub open spec fn video_begin(self, packet: VideoPacketLite, vp8: Vp8InfoLite) -> (
        Self,
        TranslationParamsLite,
    ) {
        let seq = packet.sequence_number;
        if packet.is_out_of_order || !vp8.is_key_frame {
            (self, TranslationParamsLite::dropped(packet.marker))
        } else {
            let begun = self.begun(packet.ssrc, seq, packet.timestamp);
            (
                StreamView {
                    first_in_seq: Some(seq),
                    pictures: self.pictures.insert(vp8.picture_id, vp8.picture_id),
                    last_out_pic_id: Some(vp8.picture_id),
                    last_out_tl0: Some(vp8.tl0_pic_idx),
                    last_out_key: Some(vp8.key_idx),
                    ..begun
                },
                TranslationParamsLite {
                    is_starting: true,
                    is_switching: true,
                    is_resuming: true,
                    marker: packet.marker,
                    incoming_header_size: vp8.header_size as usize,
                    codec: Some(Vp8InfoLite { m_bit: true, header_size: 6, ..vp8 }),
                    ..TranslationParamsLite::sent(
                        TranslationRtpLite {
                            sn_ordering: SequenceOrderingLite::Contiguous,
                            ext_sequence_number: seq as u64,
                            ext_timestamp: packet.timestamp as u64,
                        },
                    )
                },
            )
        }
    }

    /// The packet is late, and older than the first one that was sent.
    pub open spec fn precedes_first(self, seq: u16) -> bool {
        seq < self.last_in_seq && (self.first_in_seq matches Some(first) && seq < first)
    }

    /// What becomes of a later packet, and the stream after it.
    pub open spec fn video_next(self, packet: VideoPacketLite, vp8: Vp8InfoLite) -> (
        Self,
        TranslationParamsLite,
    ) {
        let seq = packet.sequence_number;
        let dropped = TranslationParamsLite::dropped(packet.marker);
        let switched = packet.ssrc != self.last_ssrc;
        let ordering = if switched {
            SequenceOrderingLite::Contiguous
        } else {
            ordering_after(self.last_in_seq, seq)
        };
        let stream = StreamView { last_ssrc: packet.ssrc, ..self };
        let out_seq = if switched {
            self.last_out_seq + 1
        } else {
            self.mapped(seq)
        };
        let out_ts = if switched {
            self.last_out_ts + 1
        } else {
            packet.timestamp as int
        };
        if seq == self.last_in_seq {
            (self, dropped)
        } else if !switched && self.precedes_first(seq) {
            (self, dropped)
        } else if packet.payload_size == 0 && ordering == SequenceOrderingLite::Contiguous {
            let moved = stream.moved(seq, out_seq, packet.timestamp as int);
            (StreamView { dropped: self.dropped.push(seq), ..moved }, dropped)
        } else {
            match self.picture_out(vp8.picture_id, ordering) {
                None => (stream, dropped),
                Some(picture_id) => {
                    let out = self.descriptor_out(vp8, picture_id, switched);
                    let sent = stream.after_picture(vp8, out);
                    (
                        if ordering == SequenceOrderingLite::OutOfOrder {
                            sent
                        } else {
                            sent.moved(seq, out_seq, out_ts)
                        },
                        TranslationParamsLite {
                            is_switching: switched,
                            marker: packet.marker,
                            incoming_header_size: vp8.header_size as usize,
                            codec: Some(out),
                            ..TranslationParamsLite::sent(
                                TranslationRtpLite {
                                    sn_ordering: ordering,
                                    ext_sequence_number: out_seq as u64,
                                    ext_timestamp: out_ts as u64,
                                },
                            )
                        },
                    )
                },
            }
        }
    }

    /// What becomes of a video packet, and the stream after it.
    pub open spec fn video(
        self,
        target: VideoLayerLite,
        packet: VideoPacketLite,
        vp8: Vp8InfoLite,
    ) -> (Self, TranslationParamsLite) {
        if Self::is_above(target, packet, vp8) {
            self.video_above(packet)
        } else if !self.started {
            self.video_begin(packet, vp8)
        } else {
            self.video_next(packet, vp8)
        }
    }

    /// The numbers that a video packet may be given fit.
    pub open spec fn can_take_video(
        self,
        target: VideoLayerLite,
        packet: VideoPacketLite,
        vp8: Vp8InfoLite,
    ) -> bool {
        if Self::is_above(target, packet, vp8) {
            self.mapped(packet.sequence_number) >= 0
        } else {
            self.started && packet.sequence_number != self.last_in_seq ==> if packet.ssrc
                != self.last_ssrc {
                &&& self.last_out_seq < u64::MAX
                &&& packet.payload_size > 0 ==> self.last_out_ts < u64::MAX
            } else {
                self.precedes_first(packet.sequence_number) || self.mapped(packet.sequence_number)
                    >= 0
            }
        }
    }
}

impl View for ForwardedStream {
    type V = StreamView;

    open spec fn view(&self) -> StreamView {
        StreamView {
            started: self.started,
            last_ssrc: self.last_ssrc,
            last_in_seq: self.last_in_seq,
            last_out_seq: self.last_out_seq,
            last_out_ts: self.last_out_ts,
            excluded: self.excluded_ranges@,
            dropped: self.dropped_padding_in_order@,
            frame_end_needed: self.frame_end_needed,
            vp8_padding: self.vp8_padding,
            first_in_seq: self.first_in_seq_video,
            pictures: self.vp8_pic_map@,
            last_out_pic_id: self.last_out_pic_id,
            last_out_tl0: self.last_out_tl0,
            last_out_key: self.last_out_key,
        }
    }
}

fn order_after(last: u16, seq: u16) -> (ordering: SequenceOrderingLite)
    ensures
        ordering == ordering_after(last, seq),
{
    if seq < last {
        SequenceOrderingLite::OutOfOrder
    } else if seq - last == 1 {
        SequenceOrderingLite::Contiguous
    } else {
        SequenceOrderingLite::Gap
    }
}

proof fn lemma_excluded_grows(ranges: Seq<(u16, u16)>, n: int, seq: u16)
    requires
        0 <= n <= ranges.len(),
    ensures
        excluded_by_all(ranges.take(n), seq) <= excluded_by_all(ranges, seq),
    decreases ranges.len(),
{
    if n < ranges.len() {
        lemma_excluded_grows(ranges.drop_last(), n, seq);
        assert(ranges.drop_last().take(n) =~= ranges.take(n));
    } else {
        assert(ranges.take(n) =~= ranges);
    }
}

proof fn lemma_count_is_bounded(packets: Seq<u16>, seq: u16)
    ensures
        count_up_to(packets, seq) <= packets.len(),
    decreases packets.len(),
{
    if packets.len() > 0 {
        lemma_count_is_bounded(packets.drop_last(), seq);
    }
}

impl ForwardedStream {
    /// A stream that nothing was sent of yet.
    pub fn new() -> (stream: Self)
        ensures
            stream@ == StreamView::fresh(),
    {
        broadcast use vstd::std_specs::hash::group_hash_axioms;

        let stream: ForwardedStream = ForwardedStream {
            started: false,
            last_ssrc: 0,
            last_in_seq: 0,
            last_out_seq: 0,
            last_out_ts: 0,
            excluded_ranges: Vec::new(),
            dropped_padding_in_order: Vec::new(),
            frame_end_needed: false,
            vp8_padding: None,
            first_in_seq_video: None,
            vp8_pic_map: HashMap::new(),
            last_out_pic_id: None,
            last_out_tl0: None,
            last_out_key: None,
        };
        assert(stream@ =~= StreamView::fresh());
        stream
    }

    /// How many numbers that are left out lie before `seq`.
    pub fn excluded_before(&self, seq: u16) -> (count: u64)
        requires
            excluded_by_all(self@.excluded, seq) <= u64::MAX,
        ensures
            count == excluded_by_all(self@.excluded, seq),
    {
        let ghost ranges = self.excluded_ranges@;
        let mut count: u64 = 0;
        let mut i: usize = 0;
        while i < self.excluded_ranges.len()
            invariant
                i <= ranges.len(),
                ranges == self.excluded_ranges@,
                count == excluded_by_all(ranges.take(i as int), seq),
                excluded_by_all(ranges, seq) <= u64::MAX,
            decreases self.excluded_ranges.len() - i,
        {
            let (start, end): (u16, u16) = self.excluded_ranges[i];
            proof {
                lemma_excluded_grows(ranges, i + 1, seq);
                assert(ranges.take(i + 1).drop_last() =~= ranges.take(i as int));
            }
            if start < seq && start < end {
                if seq >= end {
                    count = count + (end - start) as u64;
                } else {
                    count = count + (seq - start) as u64;
                }
            }
            i += 1;
        }
        assert(ranges.take(i as int) =~= ranges);
        count
    }

    /// How many packets up to `seq` were left out.
    pub fn dropped_padding_before_or_equal(&self, seq: u16) -> (count: u64)
        ensures
            count == count_up_to(self@.dropped, seq),
    {
        let ghost packets = self.dropped_padding_in_order@;
        let mut count: u64 = 0;
        let mut i: usize = 0;
        while i < self.dropped_padding_in_order.len()
            invariant
                i <= packets.len(),
                packets == self.dropped_padding_in_order@,
                count == count_up_to(packets.take(i as int), seq),
                count <= i,
            decreases self.dropped_padding_in_order.len() - i,
        {
            proof {
                assert(packets.take(i + 1).drop_last() =~= packets.take(i as int));
            }
            if self.dropped_padding_in_order[i] <= seq {
                count = count + 1;
            }
            i += 1;
        }
        assert(packets.take(i as int) =~= packets);
        count
    }

    /// The number that a packet is sent with.
    pub fn mapped_out_seq(&self, seq: u16) -> (out: u64)
        requires
            self@.mapped(seq) >= 0,
        ensures
            out == self@.mapped(seq),
    {
        seq as u64 - self.excluded_before(seq) - self.dropped_padding_before_or_equal(seq)
    }

    fn leave_out(&mut self, seq: u16, mapped: u64, timestamp: u32)
        ensures
            final(self)@ == (StreamView {
                dropped: old(self)@.dropped.push(seq),
                ..old(self)@.moved(seq, mapped as int, timestamp as int)
            }),
    {
        self.last_in_seq = seq;
        self.last_out_seq = mapped;
        self.last_out_ts = timestamp as u64;
        self.dropped_padding_in_order.push(seq);
    }

    /// What becomes of an audio packet.
    pub fn translate_audio(&mut self, pkt: AudioPacketLite) -> (params: TranslationParamsLite)
        requires
            old(self)@.can_take_audio(pkt),
        ensures
            (final(self)@, params) == old(self)@.audio(pkt),
    {
        if !self.started {
            if pkt.is_out_of_order || pkt.payload_size == 0 {
                return TranslationParamsLite::drop_packet(false);
            }
            self.started = true;
            self.last_ssrc = pkt.ssrc;
            self.last_in_seq = pkt.sequence_number;
            self.last_out_seq = pkt.sequence_number as u64;
            self.last_out_ts = pkt.timestamp as u64;
            let mut params: TranslationParamsLite = TranslationParamsLite::send_packet(
                TranslationRtpLite {
                    sn_ordering: SequenceOrderingLite::Contiguous,
                    ext_sequence_number: self.last_out_seq,
                    ext_timestamp: self.last_out_ts,
                },
            );
            params.is_starting = true;
            return params;
        }
        if pkt.ssrc != self.last_ssrc {
            self.last_ssrc = pkt.ssrc;
            self.last_in_seq = pkt.sequence_number;
            self.last_out_seq = self.last_out_seq + 1;
            self.last_out_ts = self.last_out_ts + 1;
            return TranslationParamsLite::send_packet(
                TranslationRtpLite {
                    sn_ordering: SequenceOrderingLite::Contiguous,
                    ext_sequence_number: self.last_out_seq,
                    ext_timestamp: self.last_out_ts,
                },
            );
        }
        if pkt.sequence_number == self.last_in_seq {
            return TranslationParamsLite::drop_packet(false);
        }
        let ordering: SequenceOrderingLite = order_after(self.last_in_seq, pkt.sequence_number);
        let mapped: u64 = self.mapped_out_seq(pkt.sequence_number);
        if pkt.payload_size == 0 && ordering == SequenceOrderingLite::Contiguous {
            self.leave_out(pkt.sequence_number, mapped, pkt.timestamp);
            return TranslationParamsLite::drop_packet(false);
        }
        if pkt.sequence_number >= self.last_in_seq {
            self.last_in_seq = pkt.sequence_number;
            self.last_out_seq = mapped;
            self.last_out_ts = pkt.timestamp as u64;
        }
        TranslationParamsLite::send_packet(
            TranslationRtpLite {
                sn_ordering: ordering,
                ext_sequence_number: mapped,
                ext_timestamp: pkt.timestamp as u64,
            },
        )
    }

    /// The descriptor that a picture is sent with, if it can be sent.
    pub fn rewrite_vp8_for_forward(
        &mut self,
        incoming: &Vp8InfoLite,
        ssrc_switched: bool,
        ordering: SequenceOrderingLite,
    ) -> (out: Option<Vp8InfoLite>)
        ensures
            match old(self)@.picture_out(incoming.picture_id, ordering) {
                None => out is None && final(self)@ == old(self)@,
                Some(picture_id) => {
                    let descriptor = old(self)@.descriptor_out(
                        *incoming,
                        picture_id,
                        ssrc_switched,
                    );
                    out == Some(descriptor) && final(self)@ == old(self)@.after_picture(
                        *incoming,
                        descriptor,
                    )
                },
            },
    {
        broadcast use vstd::std_specs::hash::group_hash_axioms;

        let mut known: Option<u16> = None;
        if let Some(mapped) = self.vp8_pic_map.get(&incoming.picture_id) {
            known = Some(*mapped);
        }
        let out_pic_id: u16 = match known {
            Some(mapped) => mapped,
            None => {
                if ordering == SequenceOrderingLite::OutOfOrder {
                    return None;
                }
                let next: u16 = match self.last_out_pic_id {
                    Some(last) => if incoming.picture_id == last {
                        last
                    } else {
                        last.wrapping_add(1)
                    },
                    None => incoming.picture_id,
                };
                self.vp8_pic_map.insert(incoming.picture_id, next);
                next
            },
        };
        let same_picture: bool = match self.last_out_pic_id {
            Some(last) => last == out_pic_id,
            None => false,
        };
        let out_tl0: u8 = match self.last_out_tl0 {
            None => incoming.tl0_pic_idx,
            Some(last) => if !same_picture && incoming.tid == 0 {
                last.wrapping_add(1)
            } else {
                last
            },
        };
        let out_key: u8 = match self.last_out_key {
            None => incoming.key_idx,
            Some(last) => if ssrc_switched {
                last.wrapping_add(1)
            } else {
                last
            },
        };
        self.last_out_pic_id = Some(out_pic_id);
        self.last_out_tl0 = Some(out_tl0);
        self.last_out_key = Some(out_key);
        Some(
            Vp8InfoLite {
                picture_id: out_pic_id,
                tl0_pic_idx: out_tl0,
                tid: incoming.tid,
                key_idx: out_key,
                header_size: 6,
                m_bit: true,
                is_key_frame: incoming.is_key_frame,
            },
        )
    }

    /// What becomes of a video packet.
    pub fn translate_video(
        &mut self,
        target: VideoLayerLite,
        pkt: VideoPacketLite,
        vp8: Vp8InfoLite,
    ) -> (params: TranslationParamsLite)
        requires
            old(self)@.can_take_video(target, pkt, vp8),
        ensures
            (final(self)@, params) == old(self)@.video(target, pkt, vp8),
    {
        broadcast use vstd::std_specs::hash::group_hash_axioms;

        if pkt.layer > target.spatial || vp8.tid as i32 > target.temporal {
            let ordering: SequenceOrderingLite = order_after(self.last_in_seq, pkt.sequence_number);
            let mapped: u64 = self.mapped_out_seq(pkt.sequence_number);
            if ordering == SequenceOrderingLite::Contiguous {
                self.leave_out(pkt.sequence_number, mapped, pkt.timestamp);
            }
            let mut params: TranslationParamsLite = TranslationParamsLite::drop_packet(pkt.marker);
            params.rtp = Some(
                TranslationRtpLite {
                    sn_ordering: ordering,
                    ext_sequence_number: mapped,
                    ext_timestamp: pkt.timestamp as u64,
                },
            );
            return params;
        }
        if !self.started {
            if pkt.is_out_of_order || !vp8.is_key_frame {
                return TranslationParamsLite::drop_packet(pkt.marker);
            }
            self.started = true;
            self.last_ssrc = pkt.ssrc;
            self.last_in_seq = pkt.sequence_number;
            self.last_out_seq = pkt.sequence_number as u64;
            self.last_out_ts = pkt.timestamp as u64;
            self.first_in_seq_video = Some(pkt.sequence_number);
            self.vp8_pic_map.insert(vp8.picture_id, vp8.picture_id);
            self.last_out_pic_id = Some(vp8.picture_id);
            self.last_out_tl0 = Some(vp8.tl0_pic_idx);
            self.last_out_key = Some(vp8.key_idx);
            let mut codec: Vp8InfoLite = vp8;
            codec.m_bit = true;
            codec.header_size = 6;
            return TranslationParamsLite {
                should_drop: false,
                is_starting: true,
                is_resuming: true,
                is_switching: true,
                marker: pkt.marker,
                incoming_header_size: vp8.header_size as usize,
                codec: Some(codec),
                rtp: Some(
                    TranslationRtpLite {
                        sn_ordering: SequenceOrderingLite::Contiguous,
                        ext_sequence_number: self.last_out_seq,
                        ext_timestamp: self.last_out_ts,
                    },
                ),
            };
        }
        if pkt.sequence_number == self.last_in_seq {
            return TranslationParamsLite::drop_packet(pkt.marker);
        }
        let ssrc_switched: bool = pkt.ssrc != self.last_ssrc;
        let ordering: SequenceOrderingLite = if ssrc_switched {
            SequenceOrderingLite::Contiguous
        } else {
            order_after(self.last_in_seq, pkt.sequence_number)
        };
        if ordering == SequenceOrderingLite::OutOfOrder {
            if let Some(first) = self.first_in_seq_video {
                if pkt.sequence_number < first {
                    return TranslationParamsLite::drop_packet(pkt.marker);
                }
            }
        }
        let mapped: u64 = if ssrc_switched {
            self.last_out_seq + 1
        } else {
            self.mapped_out_seq(pkt.sequence_number)
        };
        self.last_ssrc = pkt.ssrc;
        if pkt.payload_size == 0 && ordering == SequenceOrderingLite::Contiguous {
            self.leave_out(pkt.sequence_number, mapped, pkt.timestamp);
            return TranslationParamsLite::drop_packet(pkt.marker);
        }
        let codec: Vp8InfoLite = match self.rewrite_vp8_for_forward(
            &vp8,
            ssrc_switched,
            ordering,
        ) {
            Some(codec) => codec,
            None => {
                return TranslationParamsLite::drop_packet(pkt.marker);
            },
        };
        let out_ts: u64 = if ssrc_switched {
            self.last_out_ts + 1
        } else {
            pkt.timestamp as u64
        };
        if ordering != SequenceOrderingLite::OutOfOrder {
            self.last_in_seq = pkt.sequence_number;
            self.last_out_seq = mapped;
            self.last_out_ts = out_ts;
        }
        TranslationParamsLite {
            should_drop: false,
            is_starting: false,
            is_resuming: false,
            is_switching: ssrc_switched,
            marker: pkt.marker,
            incoming_header_size: vp8.header_size as usize,
            codec: Some(codec),
            rtp: Some(
                TranslationRtpLite {
                    sn_ordering: ordering,
                    ext_sequence_number: mapped,
                    ext_timestamp: out_ts,
                },
            ),
        }
    }
}

impl StreamView {
    /// How many frames the padding packet `i` is ahead of what was sent last: the first one may
    /// end the frame that was sent last.
    pub open spec fn frames_ahead(self, i: int) -> int {
        if self.frame_end_needed {
            i
        } else {
            i + 1
        }
    }

    /// The timestamp of the padding packet `i`.
    pub open spec fn padding_ts(self, i: int, clock_rate: u32, frame_rate: u32) -> int {
        self.last_out_ts + self.frames_ahead(i) * clock_rate / at_least_one(frame_rate)
    }

    /// The timestamp of the blank frame `i`.
    pub open spec fn blank_ts(self, i: int, frame_rate: u32) -> int {
        if self.frames_ahead(i) == 0 {
            self.last_out_ts as int
        } else {
            self.last_out_ts + 1 + (self.frames_ahead(i) * VP8_CLOCK_RATE + frame_rate - 1)
                / at_least_one(frame_rate)
        }
    }

    /// The numbers of padding packets.
    pub open spec fn padding(self, count: nat, clock_rate: u32, frame_rate: u32) -> Seq<SnTsLite> {
        Seq::new(
            count,
            |i: int|
                SnTsLite {
                    ext_sequence_number: (self.last_out_seq + i + 1) as u64,
                    ext_timestamp: self.padding_ts(i, clock_rate, frame_rate) as u64,
                },
        )
    }

    /// How many packets blank frames take.
    pub open spec fn blank_packets(self, count: nat) -> nat {
        if self.frame_end_needed {
            count + 1
        } else {
            count
        }
    }

    /// The numbers of blank frames.
    pub open spec fn blanks(self, count: nat, frame_rate: u32) -> Seq<SnTsLite> {
        Seq::new(
            self.blank_packets(count),
            |i: int|
                SnTsLite {
                    ext_sequence_number: (self.last_out_seq + i + 1) as u64,
                    ext_timestamp: self.blank_ts(i, frame_rate) as u64,
                },
        )
    }

    /// The stream after packets with the numbers were sent.
    pub open spec fn after_padding(self, numbers: Seq<SnTsLite>) -> Self {
        if numbers.len() == 0 {
            StreamView { frame_end_needed: false, ..self }
        } else {
            StreamView {
                frame_end_needed: false,
                last_out_seq: numbers.last().ext_sequence_number,
                last_out_ts: numbers.last().ext_timestamp,
                ..self
            }
        }
    }

    /// The numbers of padding packets fit 64 bits.
    pub open spec fn has_room_for_padding(
        self,
        count: nat,
        clock_rate: u32,
        frame_rate: u32,
    ) -> bool {
        count > 0 ==> {
            &&& self.last_out_seq + count <= u64::MAX
            &&& self.frames_ahead(count - 1) * clock_rate <= u64::MAX
            &&& self.padding_ts(count - 1, clock_rate, frame_rate) <= u64::MAX
        }
    }

    /// The numbers of blank frames fit 64 bits.
    pub open spec fn has_room_for_blanks(self, count: nat, frame_rate: u32) -> bool {
        let packets = self.blank_packets(count);
        &&& packets <= usize::MAX
        &&& packets > 0 ==> {
            &&& self.last_out_seq + packets <= u64::MAX
            &&& self.frames_ahead(packets - 1) * VP8_CLOCK_RATE + frame_rate <= u64::MAX
            &&& self.blank_ts(packets - 1, frame_rate) <= u64::MAX
        }
    }
}

/// The number, or one where it is 0.
pub open spec fn at_least_one(number: u32) -> int {
    if number == 0 {
        1
    } else {
        number as int
    }
}

proof fn lemma_padding_grows(stream: StreamView, i: int, j: int, clock_rate: u32, frame_rate: u32)
    requires
        0 <= i <= j,
    ensures
        0 <= stream.frames_ahead(i) * clock_rate <= stream.frames_ahead(j) * clock_rate,
        stream.last_out_ts <= stream.padding_ts(i, clock_rate, frame_rate) <= stream.padding_ts(
            j,
            clock_rate,
            frame_rate,
        ),
{
    let a = stream.frames_ahead(i);
    let b = stream.frames_ahead(j);
    assert(0 <= a * clock_rate <= b * clock_rate) by (nonlinear_arith)
        requires
            0 <= a <= b,
            0 <= clock_rate,
    ;
    vstd::arithmetic::div_mod::lemma_div_is_ordered(
        a * clock_rate,
        b * clock_rate,
        at_least_one(frame_rate),
    );
    vstd::arithmetic::div_mod::lemma_div_is_ordered(0, a * clock_rate, at_least_one(frame_rate));
}

proof fn lemma_blanks_grow(stream: StreamView, i: int, j: int, frame_rate: u32)
    requires
        0 <= i <= j,
    ensures
        stream.last_out_ts <= stream.blank_ts(i, frame_rate) <= stream.blank_ts(j, frame_rate),
{
    let a = stream.frames_ahead(i) * VP8_CLOCK_RATE + frame_rate - 1;
    let b = stream.frames_ahead(j) * VP8_CLOCK_RATE + frame_rate - 1;
    if stream.frames_ahead(i) > 0 {
        vstd::arithmetic::div_mod::lemma_div_is_ordered(a, b, at_least_one(frame_rate));
        vstd::arithmetic::div_mod::lemma_div_is_ordered(0, a, at_least_one(frame_rate));
    } else if stream.frames_ahead(j) > 0 {
        vstd::arithmetic::div_mod::lemma_div_is_ordered(0, b, at_least_one(frame_rate));
    }
}

impl ForwardedStream {
    /// Leaves out the numbers from `start` up to, but not including, `end`.
    pub fn exclude_range(&mut self, start: u16, end: u16)
        ensures
            final(self)@ == (StreamView {
                excluded: old(self)@.excluded.push((start, end)),
                ..old(self)@
            }),
    {
        self.excluded_ranges.push((start, end));
    }

    /// The stream has sent a VP8 packet whose frame is not over.
    pub fn lock_vp8_stream(
        &mut self,
        sequence_number: u16,
        timestamp: u32,
        picture_id: u16,
        tl0: u8,
        key_idx: u8,
    )
        ensures
            final(self)@ == (StreamView {
                started: true,
                frame_end_needed: true,
                vp8_padding: Some(
                    Vp8PaddingLite {
                        picture_id,
                        tl0_pic_idx: tl0,
                        key_idx,
                        tid: 0,
                        first_byte: 16,
                    },
                ),
                ..old(self)@.moved(sequence_number, sequence_number as int, timestamp as int)
            }),
    {
        self.started = true;
        self.last_in_seq = sequence_number;
        self.last_out_seq = sequence_number as u64;
        self.last_out_ts = timestamp as u64;
        self.frame_end_needed = true;
        self.vp8_padding = Some(
            Vp8PaddingLite { picture_id, tl0_pic_idx: tl0, key_idx, tid: 0, first_byte: 16 },
        );
    }

    /// The numbers of padding packets, which are sent now.
    pub fn get_sn_ts_for_padding(
        &mut self,
        num_padding: usize,
        clock_rate: u32,
        frame_rate: u32,
    ) -> (numbers: Vec<SnTsLite>)
        requires
            old(self)@.has_room_for_padding(num_padding as nat, clock_rate, frame_rate),
        ensures
            numbers@ == old(self)@.padding(num_padding as nat, clock_rate, frame_rate),
            final(self)@ == old(self)@.after_padding(numbers@),
    {
        let ghost before = self@;
        let rate: u64 = if frame_rate == 0 {
            1
        } else {
            frame_rate as u64
        };
        let mut numbers: Vec<SnTsLite> = Vec::new();
        let mut i: usize = 0;
        while i < num_padding
            invariant
                i <= num_padding,
                self@ == before,
                rate == at_least_one(frame_rate),
                before.has_room_for_padding(num_padding as nat, clock_rate, frame_rate),
                numbers@ == before.padding(i as nat, clock_rate, frame_rate),
            decreases num_padding - i,
        {
            let ahead: u64 = if self.frame_end_needed {
                i as u64
            } else {
                i as u64 + 1
            };
            proof {
                lemma_padding_grows(before, i as int, num_padding - 1, clock_rate, frame_rate);
            }
            numbers.push(
                SnTsLite {
                    ext_sequence_number: self.last_out_seq + i as u64 + 1,
                    ext_timestamp: self.last_out_ts + ahead * clock_rate as u64 / rate,
                },
            );
            i += 1;
            assert(numbers@ =~= before.padding(i as nat, clock_rate, frame_rate));
        }
        self.send_numbers(&numbers);
        numbers
    }

    fn send_numbers(&mut self, numbers: &Vec<SnTsLite>)
        ensures
            final(self)@ == old(self)@.after_padding(numbers@),
    {
        if numbers.len() > 0 {
            let last: SnTsLite = numbers[numbers.len() - 1];
            self.last_out_seq = last.ext_sequence_number;
            self.last_out_ts = last.ext_timestamp;
        }
        self.frame_end_needed = false;
    }

    /// The numbers of blank frames, which are sent now, and whether the first one ends the frame
    /// that was sent last.
    pub fn get_sn_ts_for_blank_frames(&mut self, frame_rate: u32, num_blank_frames: usize) -> (sent:
        (Vec<SnTsLite>, bool))
        requires
            old(self)@.has_room_for_blanks(num_blank_frames as nat, frame_rate),
        ensures
            sent.0@ == old(self)@.blanks(num_blank_frames as nat, frame_rate),
            sent.1 == old(self)@.frame_end_needed,
            final(self)@ == old(self)@.after_padding(sent.0@),
    {
        let ghost before = self@;
        let frame_end_needed: bool = self.frame_end_needed;
        let num_padding: usize = if frame_end_needed {
            num_blank_frames + 1
        } else {
            num_blank_frames
        };
        let rate: u64 = if frame_rate == 0 {
            1
        } else {
            frame_rate as u64
        };
        let mut numbers: Vec<SnTsLite> = Vec::new();
        let mut i: usize = 0;
        while i < num_padding
            invariant
                i <= num_padding,
                num_padding == before.blank_packets(num_blank_frames as nat),
                self@ == before,
                frame_end_needed == before.frame_end_needed,
                rate == at_least_one(frame_rate),
                before.has_room_for_blanks(num_blank_frames as nat, frame_rate),
                numbers@ == Seq::new(
                    i as nat,
                    |i: int|
                        SnTsLite {
                            ext_sequence_number: (before.last_out_seq + i + 1) as u64,
                            ext_timestamp: before.blank_ts(i, frame_rate) as u64,
                        },
                ),
            decreases num_padding - i,
        {
            let ahead: u64 = if frame_end_needed {
                i as u64
            } else {
                i as u64 + 1
            };
            proof {
                lemma_blanks_grow(before, i as int, num_padding - 1, frame_rate);
            }
            let timestamp: u64 = if ahead == 0 {
                self.last_out_ts
            } else {
                let frames: u64 = (ahead * VP8_CLOCK_RATE as u64 + frame_rate as u64 - 1) / rate;
                self.last_out_ts + 1 + frames
            };
            numbers.push(
                SnTsLite {
                    ext_sequence_number: self.last_out_seq + i as u64 + 1,
                    ext_timestamp: timestamp,
                },
            );
            i += 1;
        }
        assert(numbers@ =~= before.blanks(num_blank_frames as nat, frame_rate));
        self.send_numbers(&numbers);
        (numbers, frame_end_needed)
    }

    /// The descriptor of a padding packet: of the frame that was sent last, or of a new one.
    pub fn get_padding_vp8(&mut self, frame_end_needed: bool) -> (vp8: Vp8PaddingLite)
        requires
            old(self)@.vp8_padding is Some,
        ensures
            ({
                let last = old(self)@.vp8_padding->0;
                vp8 == if frame_end_needed {
                    last
                } else {
                    Vp8PaddingLite {
                        picture_id: last.picture_id.wrapping_add(1),
                        tl0_pic_idx: last.tl0_pic_idx.wrapping_add(1),
                        key_idx: last.key_idx.wrapping_add(1),
                        ..last
                    }
                }
            }),
            final(self)@ == (StreamView { vp8_padding: Some(vp8), ..old(self)@ }),
    {
        let mut vp8: Vp8PaddingLite = self.vp8_padding.unwrap();
        if !frame_end_needed {
            vp8.picture_id = vp8.picture_id.wrapping_add(1);
            vp8.tl0_pic_idx = vp8.tl0_pic_idx.wrapping_add(1);
            vp8.key_idx = vp8.key_idx.wrapping_add(1);
            self.vp8_padding = Some(vp8);
        }
        vp8
    }
}

impl ForwarderLite {
    /// What becomes of a packet as far as muting goes.
    pub fn get_translation_params_muted(&self) -> (params: TranslationParamsLite)
        ensures
            params == if self@.layers.muted {
                TranslationParamsLite::dropped(false)
            } else {
                TranslationParamsLite::blank()
            },
    {
        if self.layers.muted {
            TranslationParamsLite::drop_packet(false)
        } else {
            TranslationParamsLite::default()
        }
    }

    /// What becomes of an audio packet.
    pub fn get_translation_params_audio(&mut self, pkt: AudioPacketLite) -> (params:
        TranslationParamsLite)
        requires
            !old(self)@.layers.muted ==> old(self)@.stream.can_take_audio(pkt),
        ensures
            old(self)@.layers.muted ==> params == TranslationParamsLite::dropped(false)
                && final(self)@ == old(self)@,
            !old(self)@.layers.muted ==> {
                let (stream, expected) = old(self)@.stream.audio(pkt);
                params == expected && final(self)@ == (crate::forwarder::ForwarderView {
                    stream,
                    ..old(self)@
                })
            },
    {
        if self.layers.muted {
            return TranslationParamsLite::drop_packet(false);
        }
        self.stream.translate_audio(pkt)
    }

    /// What becomes of a video packet.
    pub fn get_translation_params_video(&mut self, pkt: VideoPacketLite, vp8: Vp8InfoLite) -> (
    params: TranslationParamsLite)
        requires
            !old(self)@.layers.muted && old(self)@.layers.target_layer.valid()
                ==> old(self)@.stream.can_take_video(old(self)@.layers.target_layer, pkt, vp8),
        ensures
            ({
                let sends = !old(self)@.layers.muted && old(self)@.layers.target_layer.valid();
                let (stream, expected) = old(self)@.stream.video(
                    old(self)@.layers.target_layer,
                    pkt,
                    vp8,
                );
                &&& !sends ==> params == TranslationParamsLite::dropped(pkt.marker)
                    && final(self)@ == old(self)@
                &&& sends ==> params == expected && final(self)@
                    == (crate::forwarder::ForwarderView { stream, ..old(self)@ })
            }),
    {
        if self.layers.muted || !self.layers.target_layer.is_valid() {
            return TranslationParamsLite::drop_packet(pkt.marker);
        }
        self.stream.translate_video(self.layers.target_layer, pkt, vp8)
    }
}

/// A packet that comes again right away is dropped.
pub proof fn law_repeated_audio_packet_is_dropped(stream: StreamView, packet: AudioPacketLite)
    requires
        stream.audio(packet).0.last_in_seq == packet.sequence_number,
        stream.audio(packet).0.last_ssrc == packet.ssrc,
        stream.audio(packet).0.started,
    ensures
        stream.audio(packet).0.audio(packet).1.should_drop,
        stream.audio(packet).0.audio(packet).0 == stream.audio(packet).0,
{
}

/// A new source goes on where the old one ended: with the next number, and the next timestamp.
pub proof fn law_switch_goes_on(stream: StreamView, packet: AudioPacketLite)
    requires
        stream.started,
        packet.ssrc != stream.last_ssrc,
        stream.can_take_audio(packet),
    ensures
        stream.audio(packet).1.rtp matches Some(rtp) && rtp.ext_sequence_number
            == stream.last_out_seq + 1 && rtp.ext_timestamp == stream.last_out_ts + 1
            && rtp.sn_ordering == SequenceOrderingLite::Contiguous,
{
}

/// A packet of a layer above the target is dropped, and where it follows the one before it, the
/// next packet gets the number that it would have had: no hole is left.
pub proof fn law_left_out_packet_leaves_no_hole(stream: StreamView, seq: u16, timestamp: u32)
    requires
        seq < u16::MAX,
        excluded_by_all(stream.excluded, (seq + 1) as u16) == excluded_by_all(
            stream.excluded,
            seq,
        ),
        count_up_to(stream.dropped, (seq + 1) as u16) == count_up_to(stream.dropped, seq),
    ensures
        stream.left_out(seq, timestamp).mapped((seq + 1) as u16) == stream.mapped(seq),
{
    assert(stream.dropped.push(seq).drop_last() =~= stream.dropped);
}

/// Padding packets have consecutive numbers, after those that were sent before, and timestamps
/// that do not go back.
pub proof fn law_padding_follows(
    stream: StreamView,
    count: nat,
    clock_rate: u32,
    frame_rate: u32,
    i: int,
)
    requires
        stream.has_room_for_padding(count, clock_rate, frame_rate),
        0 <= i < count,
    ensures
        ({
            let numbers = stream.padding(count, clock_rate, frame_rate);
            &&& numbers[i].ext_sequence_number == stream.last_out_seq + i + 1
            &&& stream.last_out_ts <= numbers[i].ext_timestamp
            &&& i > 0 ==> numbers[i - 1].ext_timestamp <= numbers[i].ext_timestamp
        }),
{
    lemma_padding_grows(stream, i, count - 1, clock_rate, frame_rate);
    if i > 0 {
        lemma_padding_grows(stream, i - 1, i, clock_rate, frame_rate);
    }
}

/// A packet that is sent on and comes from the source of the last one goes out with its own
/// timestamp, so that two packets of a source keep the distance of their timestamps. One that is
/// ahead is what a later source goes on from.
pub proof fn law_sent_packets_keep_their_timestamps(
    stream: StreamView,
    target: VideoLayerLite,
    video: VideoPacketLite,
    vp8: Vp8InfoLite,
    audio: AudioPacketLite,
)
    requires
        stream.started,
    ensures
        video.ssrc == stream.last_ssrc && !stream.video(target, video, vp8).1.should_drop ==> {
            let (after, params) = stream.video(target, video, vp8);
            &&& params.rtp matches Some(rtp) && rtp.ext_timestamp == video.timestamp
            &&& video.sequence_number > stream.last_in_seq ==> after.last_out_ts == video.timestamp
                && after.last_out_seq == params.rtp->0.ext_sequence_number
            &&& video.sequence_number < stream.last_in_seq ==> after.last_out_ts
                == stream.last_out_ts && after.last_out_seq == stream.last_out_seq
        },
        audio.ssrc == stream.last_ssrc && !stream.audio(audio).1.should_drop ==> {
            let (after, params) = stream.audio(audio);
            &&& params.rtp matches Some(rtp) && rtp.ext_timestamp == audio.timestamp
            &&& audio.sequence_number > stream.last_in_seq ==> after.last_out_ts == audio.timestamp
                && after.last_out_seq == params.rtp->0.ext_sequence_number
            &&& audio.sequence_number < stream.last_in_seq ==> after == stream
        },
{
}

/// A stream begins with a packet that is in order, of a key frame where it is video and with a
/// payload where it is audio, and that packet goes out with its own numbers. Any other packet is
/// dropped, and leaves the stream as it was.
pub proof fn law_streams_begin_unshifted(
    stream: StreamView,
    target: VideoLayerLite,
    video: VideoPacketLite,
    vp8: Vp8InfoLite,
    audio: AudioPacketLite,
)
    requires
        !stream.started,
    ensures
        video.layer <= target.spatial && vp8.tid <= target.temporal ==> {
            let (after, params) = stream.video(target, video, vp8);
            if !video.is_out_of_order && vp8.is_key_frame {
                &&& !params.should_drop && params.is_starting && params.is_switching
                    && params.is_resuming
                &&& params.marker == video.marker
                &&& params.incoming_header_size == vp8.header_size
                &&& params.rtp matches Some(rtp) && rtp.ext_sequence_number
                    == video.sequence_number && rtp.ext_timestamp == video.timestamp
                    && rtp.sn_ordering is Contiguous
                &&& params.codec matches Some(codec) && codec.picture_id == vp8.picture_id
                    && codec.tl0_pic_idx == vp8.tl0_pic_idx && codec.key_idx == vp8.key_idx
                    && codec.tid == vp8.tid && codec.m_bit && codec.header_size == 6
                    && codec.is_key_frame
                &&& after.started && after.last_ssrc == video.ssrc
                &&& after.last_in_seq == video.sequence_number && after.last_out_seq
                    == video.sequence_number && after.last_out_ts == video.timestamp
                &&& after.first_in_seq == Some(video.sequence_number)
                &&& after.last_out_pic_id == Some(vp8.picture_id) && after.last_out_tl0 == Some(
                    vp8.tl0_pic_idx,
                ) && after.last_out_key == Some(vp8.key_idx)
                &&& after.pictures.contains_pair(vp8.picture_id, vp8.picture_id)
                &&& after.excluded == stream.excluded && after.dropped == stream.dropped
                &&& after.frame_end_needed == stream.frame_end_needed && after.vp8_padding
                    == stream.vp8_padding
            } else {
                params.should_drop && params.rtp is None && params.codec is None && after == stream
            }
        },
        ({
            let (after, params) = stream.audio(audio);
            if !audio.is_out_of_order && audio.payload_size > 0 {
                &&& !params.should_drop && params.is_starting && !params.is_switching
                    && !params.is_resuming
                &&& params.rtp matches Some(rtp) && rtp.ext_sequence_number
                    == audio.sequence_number && rtp.ext_timestamp == audio.timestamp
                    && rtp.sn_ordering is Contiguous
                &&& params.codec is None
                &&& after == (StreamView {
                    started: true,
                    last_ssrc: audio.ssrc,
                    last_in_seq: audio.sequence_number,
                    last_out_seq: audio.sequence_number as u64,
                    last_out_ts: audio.timestamp as u64,
                    ..stream
                })
            } else {
                params.should_drop && params.rtp is None && after == stream
            }
        }),
{
}

/// Once a stream has begun, a packet is sent on unless it is of a layer above the target, comes
/// again, is padding that only follows the one before it, or is late without anything to tell
/// where it belongs.
pub proof fn law_wanted_packets_are_sent(
    stream: StreamView,
    target: VideoLayerLite,
    video: VideoPacketLite,
    vp8: Vp8InfoLite,
    audio: AudioPacketLite,
)
    requires
        stream.started,
    ensures
        stream.video(target, video, vp8).1.should_drop <==> {
            ||| video.layer > target.spatial
            ||| vp8.tid > target.temporal
            ||| video.sequence_number == stream.last_in_seq
            ||| video.payload_size == 0 && (video.ssrc != stream.last_ssrc
                || video.sequence_number == stream.last_in_seq + 1)
            ||| video.ssrc == stream.last_ssrc && video.sequence_number < stream.last_in_seq && (
            !stream.pictures.contains_key(vp8.picture_id) || (stream.first_in_seq is Some
                && video.sequence_number < stream.first_in_seq->0))
        },
        stream.audio(audio).1.should_drop <==> audio.ssrc == stream.last_ssrc && (
        audio.sequence_number == stream.last_in_seq || (audio.payload_size == 0
            && audio.sequence_number == stream.last_in_seq + 1)),
        ({
            let params = stream.video(target, video, vp8).1;
            &&& params.marker == video.marker
            &&& !params.is_starting && !params.is_resuming
            &&& !params.should_drop ==> {
                &&& params.is_switching == (video.ssrc != stream.last_ssrc)
                &&& params.incoming_header_size == vp8.header_size
                &&& params.codec is Some
                &&& params.rtp matches Some(rtp) && rtp.sn_ordering == if video.ssrc
                    != stream.last_ssrc || video.sequence_number == stream.last_in_seq + 1 {
                    SequenceOrderingLite::Contiguous
                } else if video.sequence_number > stream.last_in_seq {
                    SequenceOrderingLite::Gap
                } else {
                    SequenceOrderingLite::OutOfOrder
                }
            }
            &&& params.should_drop ==> params.codec is None && params.incoming_header_size == 0
        }),
        ({
            let params = stream.audio(audio).1;
            &&& !params.is_starting && !params.is_resuming && !params.is_switching
            &&& !params.marker && params.codec is None && params.incoming_header_size == 0
            &&& !params.should_drop ==> (params.rtp matches Some(rtp) && rtp.sn_ordering
                == if audio.ssrc != stream.last_ssrc || audio.sequence_number == stream.last_in_seq
                + 1 {
                SequenceOrderingLite::Contiguous
            } else if audio.sequence_number > stream.last_in_seq {
                SequenceOrderingLite::Gap
            } else {
                SequenceOrderingLite::OutOfOrder
            })
        }),
{
}

/// Video of a new source goes on where the old one ended: with the next number, the next timestamp
/// and the next key index.
pub proof fn law_video_switch_goes_on(
    stream: StreamView,
    target: VideoLayerLite,
    packet: VideoPacketLite,
    vp8: Vp8InfoLite,
)
    requires
        stream.started,
        packet.ssrc != stream.last_ssrc,
        stream.can_take_video(target, packet, vp8),
        !stream.video(target, packet, vp8).1.should_drop,
    ensures
        ({
            let (after, params) = stream.video(target, packet, vp8);
            &&& params.rtp matches Some(rtp) && rtp.ext_sequence_number == stream.last_out_seq + 1
                && rtp.ext_timestamp == stream.last_out_ts + 1
            &&& after.last_ssrc == packet.ssrc && after.last_in_seq == packet.sequence_number
            &&& after.last_out_seq == stream.last_out_seq + 1
            &&& after.last_out_ts == stream.last_out_ts + 1
            &&& stream.last_out_key matches Some(last) ==> params.codec->0.key_idx
                == last.wrapping_add(1) && after.last_out_key == Some(last.wrapping_add(1))
        }),
{
}

/// After a source was switched to, the stream stands at the packet that was sent, so that the next
/// source goes on from there.
pub proof fn law_audio_switch_is_remembered(stream: StreamView, packet: AudioPacketLite)
    requires
        stream.started,
        packet.ssrc != stream.last_ssrc,
        stream.can_take_audio(packet),
    ensures
        !stream.audio(packet).1.should_drop,
        stream.audio(packet).0 == (StreamView {
            last_ssrc: packet.ssrc,
            last_in_seq: packet.sequence_number,
            last_out_seq: (stream.last_out_seq + 1) as u64,
            last_out_ts: (stream.last_out_ts + 1) as u64,
            ..stream
        }),
{
}

/// The descriptor of a picture is rewritten so that pictures count on: the layer and the kind of
/// frame stay, a picture that was sent keeps its number, a new one gets the number after the last,
/// and the index of the base layer goes up with each new picture of that layer.
pub proof fn law_pictures_count_on(
    stream: StreamView,
    target: VideoLayerLite,
    packet: VideoPacketLite,
    vp8: Vp8InfoLite,
)
    requires
        stream.started,
        !stream.video(target, packet, vp8).1.should_drop,
    ensures
        ({
            let (after, params) = stream.video(target, packet, vp8);
            let out = params.codec->0;
            &&& out.tid == vp8.tid && out.is_key_frame == vp8.is_key_frame
            &&& out.m_bit && out.header_size == 6
            &&& stream.pictures.contains_key(vp8.picture_id) ==> out.picture_id
                == stream.pictures[vp8.picture_id] && after.pictures == stream.pictures
            &&& !stream.pictures.contains_key(vp8.picture_id) ==> {
                &&& after.pictures == stream.pictures.insert(vp8.picture_id, out.picture_id)
                &&& match stream.last_out_pic_id {
                    None => out.picture_id == vp8.picture_id,
                    Some(last) => vp8.picture_id != last ==> out.picture_id == if last
                        == u16::MAX {
                        0
                    } else {
                        (last + 1) as u16
                    },
                }
            }
            &&& stream.last_out_pic_id == Some(vp8.picture_id) && !stream.pictures.contains_key(
                vp8.picture_id,
            ) ==> out.picture_id == vp8.picture_id
            &&& stream.last_out_tl0 matches Some(last) ==> out.tl0_pic_idx == if vp8.tid == 0
                && stream.last_out_pic_id != Some(out.picture_id) {
                last.wrapping_add(1)
            } else {
                last
            }
            &&& stream.last_out_tl0 is None ==> out.tl0_pic_idx == vp8.tl0_pic_idx
            &&& stream.last_out_key is None ==> out.key_idx == vp8.key_idx
            &&& packet.ssrc == stream.last_ssrc && stream.last_out_key is Some ==> Some(out.key_idx)
                == stream.last_out_key
            &&& after.last_out_pic_id == Some(out.picture_id)
            &&& after.last_out_tl0 == Some(out.tl0_pic_idx)
            &&& after.last_out_key == Some(out.key_idx)
            &&& after.last_ssrc == packet.ssrc
            &&& after.started && after.first_in_seq == stream.first_in_seq
            &&& after.excluded == stream.excluded && after.dropped == stream.dropped
            &&& after.vp8_padding == stream.vp8_padding
            &&& after.frame_end_needed == stream.frame_end_needed
        }),
{
}

/// All packets of a picture are sent with one picture number.
pub proof fn law_picture_keeps_its_number(
    stream: StreamView,
    target: VideoLayerLite,
    first: VideoPacketLite,
    second: VideoPacketLite,
    vp8: Vp8InfoLite,
    again: Vp8InfoLite,
)
    requires
        again.picture_id == vp8.picture_id,
        !stream.video(target, first, vp8).1.should_drop,
        !stream.video(target, first, vp8).0.video(target, second, again).1.should_drop,
    ensures
        ({
            let (middle, sent) = stream.video(target, first, vp8);
            let sent_again = middle.video(target, second, again).1;
            sent_again.codec->0.picture_id == sent.codec->0.picture_id
                && sent_again.codec->0.tl0_pic_idx == sent.codec->0.tl0_pic_idx
        }),
{
}

/// No range leaves out the number.
pub open spec fn no_range_holds(ranges: Seq<(u16, u16)>, seq: u16) -> bool {
    forall|i: int|
        0 <= i < ranges.len() ==> !((#[trigger] ranges[i]).0 <= seq && seq < ranges[i].1)
}

proof fn lemma_next_is_excluded_alike(ranges: Seq<(u16, u16)>, seq: u16)
    requires
        seq < u16::MAX,
        no_range_holds(ranges, seq),
    ensures
        excluded_by_all(ranges, (seq + 1) as u16) == excluded_by_all(ranges, seq),
    decreases ranges.len(),
{
    if ranges.len() > 0 {
        assert(!(ranges[ranges.len() - 1].0 <= seq && seq < ranges[ranges.len() - 1].1));
        assert(no_range_holds(ranges.drop_last(), seq)) by {
            assert forall|i: int| 0 <= i < ranges.drop_last().len() implies !((
            #[trigger] ranges.drop_last()[i]).0 <= seq && seq < ranges.drop_last()[i].1) by {
                assert(!(ranges[i].0 <= seq && seq < ranges[i].1));
            }
        }
        lemma_next_is_excluded_alike(ranges.drop_last(), seq);
    }
}

proof fn lemma_next_counts_alike(packets: Seq<u16>, seq: u16)
    requires
        seq < u16::MAX,
        !packets.contains((seq + 1) as u16),
    ensures
        count_up_to(packets, (seq + 1) as u16) == count_up_to(packets, seq),
    decreases packets.len(),
{
    if packets.len() > 0 {
        assert(packets[packets.len() - 1] != seq + 1);
        assert forall|i: int| 0 <= i < packets.drop_last().len() implies packets.drop_last()[i]
            != seq + 1 by {
            assert(packets[i] != seq + 1);
        }
        lemma_next_counts_alike(packets.drop_last(), seq);
    }
}

proof fn lemma_nothing_counts(packets: Seq<u16>, seq: u16)
    requires
        forall|i: int| 0 <= i < packets.len() ==> packets[i] > seq,
    ensures
        count_up_to(packets, seq) == 0,
    decreases packets.len(),
{
    if packets.len() > 0 {
        lemma_nothing_counts(packets.drop_last(), seq);
    }
}

proof fn lemma_nothing_excluded(ranges: Seq<(u16, u16)>, seq: u16)
    requires
        forall|i: int| 0 <= i < ranges.len() ==> (#[trigger] ranges[i]).0 >= seq,
    ensures
        excluded_by_all(ranges, seq) == 0,
    decreases ranges.len(),
{
    if ranges.len() > 0 {
        assert(ranges[ranges.len() - 1].0 >= seq);
        assert forall|i: int| 0 <= i < ranges.drop_last().len() implies (
        #[trigger] ranges.drop_last()[i]).0 >= seq by {
            assert(ranges[i].0 >= seq);
        }
        lemma_nothing_excluded(ranges.drop_last(), seq);
    }
}

/// A packet of the source goes out with its own number as long as nothing before it was left out.
pub proof fn law_numbers_pass_unshifted(
    stream: StreamView,
    target: VideoLayerLite,
    video: VideoPacketLite,
    vp8: Vp8InfoLite,
    audio: AudioPacketLite,
)
    requires
        stream.started,
        video.sequence_number == audio.sequence_number,
        forall|i: int|
            0 <= i < stream.excluded.len() ==> (#[trigger] stream.excluded[i]).0
                >= audio.sequence_number,
        forall|i: int| 0 <= i < stream.dropped.len() ==> stream.dropped[i] > audio.sequence_number,
    ensures
        video.ssrc == stream.last_ssrc && !stream.video(target, video, vp8).1.should_drop ==> (
        stream.video(target, video, vp8).1.rtp matches Some(rtp) && rtp.ext_sequence_number
            == video.sequence_number),
        audio.ssrc == stream.last_ssrc && !stream.audio(audio).1.should_drop ==> (stream.audio(
            audio,
        ).1.rtp matches Some(rtp) && rtp.ext_sequence_number == audio.sequence_number),
{
    lemma_nothing_counts(stream.dropped, audio.sequence_number);
    lemma_nothing_excluded(stream.excluded, audio.sequence_number);
}

/// Packets that follow each other in the source follow each other in what is sent, if the ranges
/// leave out neither.
pub proof fn law_video_stays_contiguous(
    stream: StreamView,
    target: VideoLayerLite,
    first: VideoPacketLite,
    second: VideoPacketLite,
    first_vp8: Vp8InfoLite,
    second_vp8: Vp8InfoLite,
)
    requires
        stream.started,
        first.ssrc == stream.last_ssrc,
        second.ssrc == stream.last_ssrc,
        second.sequence_number == first.sequence_number + 1,
        no_range_holds(stream.excluded, first.sequence_number),
        !stream.dropped.contains(second.sequence_number),
        stream.can_take_video(target, first, first_vp8),
        !stream.video(target, first, first_vp8).1.should_drop,
        !stream.video(target, first, first_vp8).0.video(target, second, second_vp8).1.should_drop,
    ensures
        ({
            let (middle, sent) = stream.video(target, first, first_vp8);
            let next = middle.video(target, second, second_vp8).1;
            next.rtp->0.ext_sequence_number == sent.rtp->0.ext_sequence_number + 1
        }),
{
    lemma_next_is_excluded_alike(stream.excluded, first.sequence_number);
    lemma_next_counts_alike(stream.dropped, first.sequence_number);
    lemma_mapped_is_small(stream, first.sequence_number);
}

/// Audio packets that follow each other in the source follow each other in what is sent, if the
/// ranges leave out neither.
pub proof fn law_audio_stays_contiguous(
    stream: StreamView,
    first: AudioPacketLite,
    second: AudioPacketLite,
)
    requires
        stream.started,
        first.ssrc == stream.last_ssrc,
        second.ssrc == stream.last_ssrc,
        second.sequence_number == first.sequence_number + 1,
        no_range_holds(stream.excluded, first.sequence_number),
        !stream.dropped.contains(second.sequence_number),
        stream.can_take_audio(first),
        !stream.audio(first).1.should_drop,
        !stream.audio(first).0.audio(second).1.should_drop,
    ensures
        stream.audio(first).0.audio(second).1.rtp->0.ext_sequence_number == stream.audio(
            first,
        ).1.rtp->0.ext_sequence_number + 1,
{
    lemma_next_is_excluded_alike(stream.excluded, first.sequence_number);
    lemma_next_counts_alike(stream.dropped, first.sequence_number);
    lemma_mapped_is_small(stream, first.sequence_number);
}

proof fn lemma_mapped_is_small(stream: StreamView, seq: u16)
    ensures
        stream.mapped(seq) <= seq,
{
}

/// A packet that follows the last one and is left out, for its layer or because it is padding,
/// leaves no hole: the packet after it gets the number that it would have had.
pub proof fn law_next_packet_fills_the_hole(
    stream: StreamView,
    target: VideoLayerLite,
    left: VideoPacketLite,
    next: VideoPacketLite,
    left_vp8: Vp8InfoLite,
    next_vp8: Vp8InfoLite,
)
    requires
        stream.started,
        left.sequence_number == stream.last_in_seq + 1,
        left.ssrc == stream.last_ssrc,
        next.ssrc == stream.last_ssrc,
        next.sequence_number == left.sequence_number + 1,
        no_range_holds(stream.excluded, left.sequence_number),
        !stream.dropped.contains(next.sequence_number),
        stream.can_take_video(target, left, left_vp8),
        stream.video(target, left, left_vp8).1.should_drop,
        !stream.video(target, left, left_vp8).0.video(target, next, next_vp8).1.should_drop,
    ensures
        ({
            let (middle, dropped) = stream.video(target, left, left_vp8);
            let sent = middle.video(target, next, next_vp8).1;
            &&& middle.last_in_seq == left.sequence_number
            &&& middle.dropped == stream.dropped.push(left.sequence_number)
            &&& sent.rtp->0.ext_sequence_number == middle.last_out_seq
            &&& dropped.rtp matches Some(rtp) ==> rtp.ext_sequence_number
                == sent.rtp->0.ext_sequence_number
        }),
{
    let middle = stream.video(target, left, left_vp8).0;
    lemma_next_is_excluded_alike(stream.excluded, left.sequence_number);
    lemma_next_counts_alike(stream.dropped, left.sequence_number);
    assert(middle.dropped.drop_last() =~= stream.dropped);
    lemma_mapped_is_small(stream, left.sequence_number);
}

/// An audio packet without a payload that follows the last one leaves no hole.
pub proof fn law_next_audio_packet_fills_the_hole(
    stream: StreamView,
    left: AudioPacketLite,
    next: AudioPacketLite,
)
    requires
        stream.started,
        left.sequence_number == stream.last_in_seq + 1,
        left.ssrc == stream.last_ssrc,
        left.payload_size == 0,
        next.ssrc == stream.last_ssrc,
        next.payload_size > 0,
        next.sequence_number == left.sequence_number + 1,
        no_range_holds(stream.excluded, left.sequence_number),
        !stream.dropped.contains(next.sequence_number),
        stream.can_take_audio(left),
    ensures
        ({
            let (middle, dropped) = stream.audio(left);
            let sent = middle.audio(next).1;
            &&& dropped.should_drop && dropped.rtp is None
            &&& middle.last_in_seq == left.sequence_number
            &&& middle.dropped == stream.dropped.push(left.sequence_number)
            &&& !sent.should_drop && sent.rtp->0.ext_sequence_number == middle.last_out_seq
        }),
{
    let middle = stream.audio(left).0;
    lemma_next_is_excluded_alike(stream.excluded, left.sequence_number);
    lemma_next_counts_alike(stream.dropped, left.sequence_number);
    assert(middle.dropped.drop_last() =~= stream.dropped);
    lemma_mapped_is_small(stream, left.sequence_number);
}

/// The numbers of a range that lies before a packet are taken off its number.
pub proof fn law_excluded_numbers_are_taken_off(
    stream: StreamView,
    start: u16,
    end: u16,
    packet: AudioPacketLite,
)
    requires
        stream.started,
        packet.ssrc == stream.last_ssrc,
        start <= end <= packet.sequence_number,
        !stream.audio(packet).1.should_drop,
        stream.mapped(packet.sequence_number) >= end - start,
    ensures
        ({
            let excluding = StreamView { excluded: stream.excluded.push((start, end)), ..stream };
            excluding.audio(packet).1.rtp->0.ext_sequence_number == stream.audio(
                packet,
            ).1.rtp->0.ext_sequence_number - (end - start)
        }),
{
    assert(stream.excluded.push((start, end)).drop_last() =~= stream.excluded);
    lemma_mapped_is_small(stream, packet.sequence_number);
}

/// A packet that is dropped leaves what was sent alone, unless it is left out in order; one that
/// comes again or is too late changes nothing but the source that it is known by.
pub proof fn law_dropped_packets_send_nothing(
    stream: StreamView,
    target: VideoLayerLite,
    packet: VideoPacketLite,
    vp8: Vp8InfoLite,
)
    requires
        stream.video(target, packet, vp8).1.should_drop,
    ensures
        ({
            let after = stream.video(target, packet, vp8).0;
            let above = packet.layer > target.spatial || vp8.tid > target.temporal;
            &&& after.pictures == stream.pictures && after.last_out_pic_id == stream.last_out_pic_id
            &&& after.last_out_tl0 == stream.last_out_tl0 && after.last_out_key
                == stream.last_out_key
            &&& after.started == stream.started && after.first_in_seq == stream.first_in_seq
            &&& after.excluded == stream.excluded
            &&& after.vp8_padding == stream.vp8_padding
            &&& after.frame_end_needed == stream.frame_end_needed
            &&& packet.sequence_number < stream.last_in_seq && packet.ssrc == stream.last_ssrc
                ==> after == stream
            &&& packet.sequence_number == stream.last_in_seq ==> after == stream
            &&& above ==> after.last_ssrc == stream.last_ssrc
            &&& above && packet.sequence_number != stream.last_in_seq + 1 ==> after == stream
            &&& after.dropped == stream.dropped || after.dropped == stream.dropped.push(
                packet.sequence_number,
            )
            &&& above && packet.sequence_number == stream.last_in_seq + 1 ==> after.last_in_seq
                == packet.sequence_number && after.last_out_ts == packet.timestamp
                && after.dropped == stream.dropped.push(packet.sequence_number)
        }),
{
}

/// The timestamps of padding are spread by the frame rate: the first packet ends the frame that
/// was sent last, where it is not over, and each later one is a frame ahead.
pub proof fn law_padding_is_spread(
    stream: StreamView,
    count: nat,
    clock_rate: u32,
    frame_rate: u32,
    i: int,
)
    requires
        stream.has_room_for_padding(count, clock_rate, frame_rate),
        0 <= i < count,
        frame_rate > 0,
    ensures
        ({
            let numbers = stream.padding(count, clock_rate, frame_rate);
            let frames = if stream.frame_end_needed {
                i
            } else {
                i + 1
            };
            let ticks = numbers[i].ext_timestamp - stream.last_out_ts;
            &&& numbers.len() == count
            &&& ticks * frame_rate <= frames * clock_rate < (ticks + 1) * frame_rate
        }),
{
    lemma_padding_grows(stream, i, count - 1, clock_rate, frame_rate);
    let total = stream.frames_ahead(i) * clock_rate;
    vstd::arithmetic::div_mod::lemma_fundamental_div_mod(total, frame_rate as int);
    let ticks = total / frame_rate as int;
    assert(ticks * frame_rate == frame_rate * ticks) by (nonlinear_arith);
    assert((ticks + 1) * frame_rate == ticks * frame_rate + frame_rate) by (nonlinear_arith);
}

/// Blank frames have consecutive numbers after those that were sent before. The first one ends the
/// frame that was sent last, where it is not over, and each other one begins later than a frame's
/// time after what was sent last.
pub proof fn law_blank_frames_follow(stream: StreamView, count: nat, frame_rate: u32, i: int)
    requires
        stream.has_room_for_blanks(count, frame_rate),
        0 <= i < stream.blanks(count, frame_rate).len(),
        frame_rate > 0,
    ensures
        ({
            let numbers = stream.blanks(count, frame_rate);
            let frames = if stream.frame_end_needed {
                i
            } else {
                i + 1
            };
            let ticks = numbers[i].ext_timestamp - stream.last_out_ts;
            &&& numbers.len() == count + if stream.frame_end_needed {
                1int
            } else {
                0
            }
            &&& numbers[i].ext_sequence_number == stream.last_out_seq + i + 1
            &&& frames == 0 ==> ticks == 0
            &&& frames > 0 ==> (ticks - 2) * frame_rate < frames * 90_000 <= (ticks - 1)
                * frame_rate
        }),
{
    lemma_blanks_grow(stream, i, stream.blank_packets(count) - 1, frame_rate);
    let total = stream.frames_ahead(i) * VP8_CLOCK_RATE + frame_rate - 1;
    vstd::arithmetic::div_mod::lemma_fundamental_div_mod(total, frame_rate as int);
    let frames = total / frame_rate as int;
    assert(frames * frame_rate == frame_rate * frames) by (nonlinear_arith);
    assert((frames - 1) * frame_rate == frames * frame_rate - frame_rate) by (nonlinear_arith);
    assert(stream.frames_ahead(i) * VP8_CLOCK_RATE == stream.frames_ahead(i) * 90_000);
}

/// What was sent as padding or as blank frames is what a later source goes on from, and the frame
/// that was sent last is over then.
pub proof fn law_padding_is_remembered(stream: StreamView, numbers: Seq<SnTsLite>)
    ensures
        ({
            let after = stream.after_padding(numbers);
            &&& !after.frame_end_needed
            &&& numbers.len() > 0 ==> after.last_out_seq == numbers.last().ext_sequence_number
                && after.last_out_ts == numbers.last().ext_timestamp
            &&& numbers.len() == 0 ==> after.last_out_seq == stream.last_out_seq
                && after.last_out_ts == stream.last_out_ts
            &&& after.last_in_seq == stream.last_in_seq && after.last_ssrc == stream.last_ssrc
            &&& after.started == stream.started && after.dropped == stream.dropped
            &&& after.excluded == stream.excluded && after.pictures == stream.pictures
        }),
{
}

} // verus!
