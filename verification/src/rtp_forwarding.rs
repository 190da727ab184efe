//! Rewriting of RTP packets for each subscriber of a track.
use crate::keyed_map::{KeyedMap, StoreKey};
use crate::rtp_forwarding::duplicate_window::DuplicateWindow;
use crate::rtp_forwarding::feedback::{
    KeyFrameRequestGate, KeyFrameRequestKind, MappedSenderReport, MediaFeedbackAdaptationState,
    MediaFeedbackState, MediaFeedbackSummary, RecommendedVideoQuality, SenderReportMapper,
};
use crate::rtp_forwarding::packet::{RtpPacket, RtpPacketView};
use crate::vp8_munger::ordered_cache::{CacheView, OrderedCache};
use std::collections::HashMap;
use vstd::prelude::*;

pub mod duplicate_window;
pub mod feedback;
pub mod packet;

verus! {

/// How many packets can be sent again.
pub const RTP_RETRANSMISSION_CACHE_SIZE: usize = 256;

/// The room, the publisher, the track and the subscriber of a forwarded track.
pub type ForwardTrackKey = (String, String, String, String);

/// The number nearest to `reference` whose low 16 bits are those of `sequence_number`, the smaller
/// one where two are as near.
pub open spec fn nearest_extension(sequence_number: u64, reference: u64) -> u64 {
    let low = sequence_number % 0x1_0000;
    let same_turn = reference - reference % 0x1_0000 + low;
    let ahead = low - reference % 0x1_0000;
    if ahead >= 0x8000 && same_turn >= 0x1_0000 {
        (same_turn - 0x1_0000) as u64
    } else if ahead < -0x8000 && same_turn + 0x1_0000 <= u64::MAX {
        (same_turn + 0x1_0000) as u64
    } else {
        same_turn as u64
    }
}

/// Widens a sequence number to the one nearest to a reference.
pub fn extend_sequence_number_from_reference(
    incoming_sequence_number: u64,
    reference_ext_seq: u64,
) -> (extended: u64)
    ensures
        extended == nearest_extension(incoming_sequence_number, reference_ext_seq),
{
    let low: u64 = incoming_sequence_number % 0x1_0000;
    let reference_low: u64 = reference_ext_seq % 0x1_0000;
    let same_turn: u64 = reference_ext_seq - reference_low + low;
    if low >= reference_low + 0x8000 && same_turn >= 0x1_0000 {
        same_turn - 0x1_0000
    } else if low + 0x8000 < reference_low && same_turn <= u64::MAX - 0x1_0000 {
        same_turn + 0x1_0000
    } else {
        same_turn
    }
}

/// A widened number keeps its low bits, and is within half a turn of its reference, but for the
/// first and the last half turn, which have no neighbour on one side.
pub proof fn law_extension_is_nearest(sequence_number: u64, reference: u64)
    ensures
        nearest_extension(sequence_number, reference) % 0x1_0000 == sequence_number % 0x1_0000,
        0x8000 <= reference <= u64::MAX - 0x8000 ==> -0x8000 <= nearest_extension(
            sequence_number,
            reference,
        ) - reference <= 0x8000,
        nearest_extension(reference, reference) == reference,
{
    let turn = reference as int / 0x1_0000;
    let low = sequence_number as int % 0x1_0000;
    let extended = nearest_extension(sequence_number, reference) as int;
    assert(reference - reference % 0x1_0000 == turn * 0x1_0000);
    assert(extended == turn * 0x1_0000 + low || extended == (turn - 1) * 0x1_0000 + low || extended
        == (turn + 1) * 0x1_0000 + low);
    assert(extended % 0x1_0000 == low);
}

/// Maps timestamps so that they go on where the source changes.
#[derive(Debug, Clone, Copy, PartialEq, Eq, Structural)]
pub struct TimestampMapper {
    pub incoming_ssrc: Option<u32>,
    pub base_incoming: Option<u32>,
    pub base_outgoing: Option<u32>,
    pub last_outgoing: Option<u32>,
}

impl TimestampMapper {
    /// A mapper that has mapped nothing.
    pub open spec fn fresh() -> Self {
        TimestampMapper {
            incoming_ssrc: None,
            base_incoming: None,
            base_outgoing: None,
            last_outgoing: None,
        }
    }

    /// The mapper has a source.
    pub open spec fn based(self) -> bool {
        self.incoming_ssrc is Some && self.base_incoming is Some && self.base_outgoing is Some
    }

    /// The timestamp that goes out: as far from the base as coming in, for the source that is
    /// mapped; one more than the last one for another source; unchanged for the first.
    pub open spec fn mapped(self, ssrc: u32, timestamp: u32) -> u32 {
        if self.based() && self.incoming_ssrc == Some(ssrc) {
            self.base_outgoing->0.wrapping_add(timestamp.wrapping_sub(self.base_incoming->0))
        } else if self.based() && self.last_outgoing is Some {
            self.last_outgoing->0.wrapping_add(1)
        } else {
            timestamp
        }
    }

    /// The mapper after a timestamp.
    pub open spec fn after(self, ssrc: u32, timestamp: u32) -> Self {
        if self.based() && self.incoming_ssrc == Some(ssrc) {
            TimestampMapper { last_outgoing: Some(self.mapped(ssrc, timestamp)), ..self }
        } else {
            TimestampMapper {
                incoming_ssrc: Some(ssrc),
                base_incoming: Some(timestamp),
                base_outgoing: Some(self.mapped(ssrc, timestamp)),
                last_outgoing: Some(self.mapped(ssrc, timestamp)),
            }
        }
    }
}

/// The forwarding state of one track for one subscriber.
#[derive(Debug)]
pub struct SubscriberRtpState {
    pub highest_incoming_ext_seq_by_ssrc: HashMap<u32, u64>,
    pub incoming_ext_seq: DuplicateWindow,
    pub next_outgoing_ext_seq: Option<u64>,
    pub timestamp_mapper: TimestampMapper,
    pub retransmission: OrderedCache<u16, RtpPacket>,
    pub keyframe_gate: KeyFrameRequestGate,
    pub fir_sequence_numbers: HashMap<u32, u8>,
    pub sender_report_mapper: SenderReportMapper,
    pub media_feedback: MediaFeedbackState,
    pub media_feedback_adaptation: MediaFeedbackAdaptationState,
}

/// The contents of a [`SubscriberRtpState`].
#[verifier::ext_equal]
pub struct SubscriberView {
    pub highest: Map<u32, u64>,
    pub seen: Seq<(u32, u64)>,
    pub next_outgoing: Option<u64>,
    pub timestamps: TimestampMapper,
    pub sent: CacheView<u16, RtpPacketView>,
    pub gate: KeyFrameRequestGate,
    pub fir: Map<u32, u8>,
    pub reports: SenderReportMapper,
    pub feedback: MediaFeedbackState,
    pub adaptation: MediaFeedbackAdaptationState,
}

/// The contents of the packets of a cache.
pub open spec fn sent_views(cache: CacheView<u16, RtpPacket>) -> CacheView<u16, RtpPacketView> {
    CacheView { keys: cache.keys, values: cache.values.map_values(|packet: RtpPacket| packet@) }
}

impl View for SubscriberRtpState {
    type V = SubscriberView;

    open spec fn view(&self) -> SubscriberView {
        SubscriberView {
            highest: self.highest_incoming_ext_seq_by_ssrc@,
            seen: self.incoming_ext_seq@,
            next_outgoing: self.next_outgoing_ext_seq,
            timestamps: self.timestamp_mapper,
            sent: sent_views(self.retransmission@),
            gate: self.keyframe_gate,
            fir: self.fir_sequence_numbers@,
            reports: self.sender_report_mapper,
            feedback: self.media_feedback,
            adaptation: self.media_feedback_adaptation,
        }
    }
}

/// The state of a subscriber that has got nothing.
pub open spec fn fresh_subscriber() -> SubscriberView {
    SubscriberView {
        highest: Map::empty(),
        seen: Seq::empty(),
        next_outgoing: None,
        timestamps: TimestampMapper::fresh(),
        sent: CacheView::empty(),
        gate: KeyFrameRequestGate::fresh(),
        fir: Map::empty(),
        reports: SenderReportMapper::fresh(),
        feedback: MediaFeedbackState::fresh(),
        adaptation: MediaFeedbackAdaptationState::fresh(),
    }
}

impl SubscriberView {
    /// No packet that is remembered is newer than the newest of its source.
    pub open spec fn wf(self) -> bool {
        forall|i: int|
            0 <= i < self.seen.len() ==> self.highest.contains_key((#[trigger] self.seen[i]).0)
                && self.seen[i].1 <= self.highest[self.seen[i].0]
    }

    /// The widened number of a packet.
    pub open spec fn extended(self, ssrc: u32, sequence_number: u16) -> u64 {
        if self.highest.contains_key(ssrc) {
            nearest_extension(sequence_number as u64, self.highest[ssrc])
        } else {
            sequence_number as u64
        }
    }

    /// The packet is the newest of its source.
    pub open spec fn is_newest(self, ssrc: u32, sequence_number: u16) -> bool {
        !self.highest.contains_key(ssrc) || self.extended(ssrc, sequence_number)
            > self.highest[ssrc]
    }

    /// The newest numbers after the packet.
    pub open spec fn highest_after(self, ssrc: u32, sequence_number: u16) -> Map<u32, u64> {
        if self.is_newest(ssrc, sequence_number) {
            self.highest.insert(ssrc, self.extended(ssrc, sequence_number))
        } else {
            self.highest
        }
    }

    /// The packet came before.
    pub open spec fn is_duplicate(self, ssrc: u32, sequence_number: u16) -> bool {
        !self.is_newest(ssrc, sequence_number) && self.seen.contains(
            (ssrc, self.extended(ssrc, sequence_number)),
        )
    }

    /// The widened number that goes out: one more than the last, or that of the first packet.
    pub open spec fn outgoing(self, ssrc: u32, sequence_number: u16) -> u64 {
        match self.next_outgoing {
            Some(next) => next,
            None => self.extended(ssrc, sequence_number),
        }
    }

    /// The packet that goes out.
    pub open spec fn rewritten(
        self,
        packet: RtpPacketView,
        target_ssrc: Option<u32>,
        payload_type: Option<u8>,
    ) -> RtpPacketView {
        RtpPacketView {
            payload_type: match payload_type {
                Some(payload_type) => payload_type,
                None => packet.payload_type,
            },
            sequence_number: (self.outgoing(packet.ssrc, packet.sequence_number)
                % 0x1_0000) as u16,
            timestamp: self.timestamps.mapped(packet.ssrc, packet.timestamp),
            ssrc: match target_ssrc {
                Some(target_ssrc) => target_ssrc,
                None => packet.ssrc,
            },
            ..packet
        }
    }

    /// The packet that goes out, unless it came before.
    pub open spec fn forwarded(
        self,
        packet: RtpPacketView,
        target_ssrc: Option<u32>,
        payload_type: Option<u8>,
    ) -> Option<RtpPacketView> {
        if self.is_duplicate(packet.ssrc, packet.sequence_number) {
            None
        } else {
            Some(self.rewritten(packet, target_ssrc, payload_type))
        }
    }

    /// The state after a packet.
    pub open spec fn after_packet(
        self,
        packet: RtpPacketView,
        target_ssrc: Option<u32>,
        payload_type: Option<u8>,
    ) -> Self {
        if self.is_duplicate(packet.ssrc, packet.sequence_number) {
            self
        } else {
            let rewritten = self.rewritten(packet, target_ssrc, payload_type);
            SubscriberView {
                highest: self.highest_after(packet.ssrc, packet.sequence_number),
                seen: duplicate_window::windowed(
                    self.seen.push(
                        (packet.ssrc, self.extended(packet.ssrc, packet.sequence_number)),
                    ),
                ),
                next_outgoing: Some(
                    self.outgoing(packet.ssrc, packet.sequence_number).saturating_add(1),
                ),
                timestamps: self.timestamps.after(packet.ssrc, packet.timestamp),
                sent: self.sent.with(rewritten.sequence_number, rewritten).trimmed(
                    RTP_RETRANSMISSION_CACHE_SIZE as nat,
                ),
                ..self
            }
        }
    }

    /// The packet that can be sent again under the number.
    pub open spec fn resent(self, sequence_number: u16) -> Option<RtpPacketView> {
        if self.sent.values.contains_key(sequence_number) {
            Some(self.sent.values[sequence_number])
        } else {
            None
        }
    }

    /// The number of the next full intra request for a source.
    pub open spec fn next_fir(self, media_ssrc: u32) -> u8 {
        if self.fir.contains_key(media_ssrc) {
            self.fir[media_ssrc]
        } else {
            0
        }
    }

    /// The state after a full intra request was numbered.
    pub open spec fn after_fir(self, media_ssrc: u32) -> Self {
        SubscriberView {
            fir: self.fir.insert(media_ssrc, self.next_fir(media_ssrc).wrapping_add(1)),
            ..self
        }
    }

    /// The state after a key frame was asked for.
    pub open spec fn after_key_frame_request(
        self,
        request: KeyFrameRequestKind,
        now_millis: u64,
        min_gap_millis: u64,
    ) -> Self {
        SubscriberView { gate: self.gate.after(request, now_millis, min_gap_millis), ..self }
    }

    /// The state after a sender report was mapped.
    pub open spec fn after_sender_report(self, target_ssrc: u32, timestamp: u32) -> Self {
        SubscriberView { reports: self.reports.after(target_ssrc, timestamp), ..self }
    }

    /// The state after a receiver report.
    pub open spec fn after_receiver_report(
        self,
        now_millis: u64,
        ssrc: u32,
        max_fraction_lost: u8,
        report_count: u16,
    ) -> Self {
        SubscriberView {
            feedback: self.feedback.with_receiver_report(
                now_millis,
                ssrc,
                max_fraction_lost,
                report_count,
            ),
            ..self
        }
    }

    /// The state after transport wide feedback.
    pub open spec fn after_transport_wide_cc(
        self,
        now_millis: u64,
        media_ssrc: u32,
        packet_status_count: u16,
    ) -> Self {
        SubscriberView {
            feedback: self.feedback.with_transport_wide_cc(
                now_millis,
                media_ssrc,
                packet_status_count,
            ),
            ..self
        }
    }

    /// The state after the reports were summed up.
    pub open spec fn after_summary(self, now_millis: u64) -> Self {
        SubscriberView { feedback: self.feedback.both_open(now_millis), ..self }
    }

    /// What the reports say.
    pub open spec fn summary(self, now_millis: u64) -> MediaFeedbackSummary {
        self.feedback.both_open(now_millis).summed_up()
    }

    /// The quality that is recommended.
    pub open spec fn recommendation(self, now_millis: u64) -> Option<RecommendedVideoQuality> {
        self.adaptation.recommendation(self.summary(now_millis), now_millis)
    }

    /// The state after a quality was recommended, if one was.
    pub open spec fn after_recommendation(self, now_millis: u64) -> Self {
        SubscriberView {
            feedback: self.feedback.both_open(now_millis),
            adaptation: self.adaptation.after(self.summary(now_millis), now_millis),
            ..self
        }
    }
}

proof fn lemma_sent_views_with(cache: CacheView<u16, RtpPacket>, key: u16, packet: RtpPacket)
    ensures
        sent_views(cache.with(key, packet)) == sent_views(cache).with(key, packet@),
{
    let f = |packet: RtpPacket| packet@;
    assert(cache.values.insert(key, packet).map_values(f) =~= cache.values.map_values(f).insert(
        key,
        packet@,
    ));
}

proof fn lemma_sent_views_trimmed(cache: CacheView<u16, RtpPacket>, limit: nat)
    ensures
        sent_views(cache.trimmed(limit)) == sent_views(cache).trimmed(limit),
    decreases cache.keys.len(),
{
    if cache.keys.len() > limit {
        let f = |packet: RtpPacket| packet@;
        assert(cache.values.remove(cache.keys[0]).map_values(f) =~= cache.values.map_values(
            f,
        ).remove(cache.keys[0]));
        lemma_sent_views_trimmed(cache.without_oldest(), limit);
    }
}

impl SubscriberRtpState {
    /// The parts are well formed, and the cache is within its limit.
    pub open spec fn wf(self) -> bool {
        &&& self@.wf()
        &&& self.incoming_ext_seq.wf()
        &&& self.retransmission.wf()
        &&& self.retransmission@.keys.len() <= RTP_RETRANSMISSION_CACHE_SIZE
    }

    /// The packet that goes out for an incoming one: numbered without holes, with the timestamp
    /// that goes on from the last one, and with the target's source and payload type. A packet
    /// that came before is dropped.
    pub fn rewrite_packet(
        &mut self,
        packet: &RtpPacket,
        target_ssrc: Option<u32>,
        negotiated_payload_type: Option<u8>,
    ) -> (rewritten: Option<RtpPacket>)
        requires
            old(self).wf(),
        ensures
            final(self).wf(),
            match rewritten {
                Some(rewritten) => old(self)@.forwarded(
                    packet@,
                    target_ssrc,
                    negotiated_payload_type,
                ) == Some(rewritten@),
                None => old(self)@.forwarded(packet@, target_ssrc, negotiated_payload_type) is None,
            },
            final(self)@ == old(self)@.after_packet(packet@, target_ssrc, negotiated_payload_type),
    {
        let ghost before = self@;
        let incoming_ssrc: u32 = packet.header.ssrc;
        let incoming_seq: u16 = packet.header.sequence_number;
        let (incoming_ext_seq, is_new_highest) = self.extend_sequence_number(
            incoming_ssrc,
            incoming_seq,
        );
        let incoming_key: (u32, u64) = (incoming_ssrc, incoming_ext_seq);
        if !is_new_highest && self.incoming_ext_seq.contains(incoming_key) {
            return None;
        }
        let outgoing_ext_seq: u64 = match self.next_outgoing_ext_seq {
            Some(next) => next,
            None => incoming_ext_seq,
        };
        self.next_outgoing_ext_seq = Some(outgoing_ext_seq.saturating_add(1));
        proof {
            if is_new_highest && before.seen.contains(incoming_key) {
                let i = choose|i: int| 0 <= i < before.seen.len() && before.seen[i] == incoming_key;
                assert(before.seen[i].1 <= before.highest[before.seen[i].0]);
            }
        }
        self.incoming_ext_seq.push(incoming_key);
        let mut rewritten_packet: RtpPacket = packet.duplicate();
        if let Some(payload_type) = negotiated_payload_type {
            rewritten_packet.header.payload_type = payload_type;
        }
        rewritten_packet.header.sequence_number = (outgoing_ext_seq % 0x1_0000) as u16;
        rewritten_packet.header.timestamp = self.map_packet_timestamp(
            incoming_ssrc,
            packet.header.timestamp,
        );
        if let Some(target_ssrc) = target_ssrc {
            rewritten_packet.header.ssrc = target_ssrc;
        }
        assert(rewritten_packet@ == before.rewritten(
            packet@,
            target_ssrc,
            negotiated_payload_type,
        ));
        self.cache_retransmission_packet(rewritten_packet.duplicate());
        proof {
            let after = before.after_packet(packet@, target_ssrc, negotiated_payload_type);
            assert(self@ =~= after);
            let grown = before.seen.push(incoming_key);
            assert forall|i: int| 0 <= i < after.seen.len() implies after.highest.contains_key(
                (#[trigger] after.seen[i]).0,
            ) && after.seen[i].1 <= after.highest[after.seen[i].0] by {
                let j: int = if grown.len() > duplicate_window::RTP_DUPLICATE_WINDOW {
                    i + grown.len() - duplicate_window::RTP_DUPLICATE_WINDOW
                } else {
                    i
                };
                assert(after.seen[i] == grown[j]);
                if j < before.seen.len() {
                    assert(grown[j] == before.seen[j]);
                }
            }
        }
        Some(rewritten_packet)
    }

    /// The packet that can be sent again under the number.
    pub fn retransmission_packet(&self, outgoing_sequence_number: u16) -> (packet: Option<
        RtpPacket,
    >)
        requires
            self.wf(),
        ensures
            match packet {
                Some(packet) => self@.resent(outgoing_sequence_number) == Some(packet@),
                None => self@.resent(outgoing_sequence_number) is None,
            },
    {
        match self.retransmission.get(&outgoing_sequence_number) {
            Some(packet) => Some(packet.duplicate()),
            None => None,
        }
    }

    /// Lets a key frame request pass, unless one of its kind passed too recently.
    pub fn should_forward_keyframe_request(
        &mut self,
        request: KeyFrameRequestKind,
        now_millis: u64,
        min_gap_millis: u64,
    ) -> (forward: bool)
        requires
            old(self).wf(),
        ensures
            final(self).wf(),
            forward == old(self)@.gate.passes(request, now_millis, min_gap_millis),
            final(self)@ == old(self)@.after_key_frame_request(request, now_millis, min_gap_millis),
    {
        self.keyframe_gate.should_forward(request, now_millis, min_gap_millis)
    }

    /// Maps the timestamp of a sender report.
    pub fn map_sender_report(&mut self, target_ssrc: u32, incoming_rtp_timestamp: u32) -> (mapped:
        MappedSenderReport)
        requires
            old(self).wf(),
        ensures
            final(self).wf(),
            mapped == (MappedSenderReport {
                ssrc: target_ssrc,
                rtp_timestamp: old(self)@.reports.mapped(target_ssrc, incoming_rtp_timestamp),
            }),
            final(self)@ == old(self)@.after_sender_report(target_ssrc, incoming_rtp_timestamp),
    {
        self.sender_report_mapper.map(target_ssrc, incoming_rtp_timestamp)
    }

    /// The number of the next full intra request for a source.
    pub fn next_fir_sequence_number(&mut self, media_ssrc: u32) -> (number: u8)
        requires
            old(self).wf(),
        ensures
            final(self).wf(),
            number == old(self)@.next_fir(media_ssrc),
            final(self)@ == old(self)@.after_fir(media_ssrc),
    {
        broadcast use vstd::std_specs::hash::group_hash_axioms;

        let sequence_number: u8 = match self.fir_sequence_numbers.get(&media_ssrc) {
            Some(number) => *number,
            None => 0,
        };
        self.fir_sequence_numbers.insert(media_ssrc, sequence_number.wrapping_add(1));
        sequence_number
    }

    /// Takes note of a receiver report.
    pub fn observe_receiver_report(
        &mut self,
        now_millis: u64,
        ssrc: u32,
        max_fraction_lost: u8,
        report_count: u16,
    )
        requires
            old(self).wf(),
        ensures
            final(self).wf(),
            final(self)@ == old(self)@.after_receiver_report(
                now_millis,
                ssrc,
                max_fraction_lost,
                report_count,
            ),
    {
        self.media_feedback.observe_receiver_report(
            now_millis,
            ssrc,
            max_fraction_lost,
            report_count,
        );
    }

    /// Takes note of transport wide feedback.
    pub fn observe_transport_wide_cc(
        &mut self,
        now_millis: u64,
        media_ssrc: u32,
        packet_status_count: u16,
    )
        requires
            old(self).wf(),
        ensures
            final(self).wf(),
            final(self)@ == old(self)@.after_transport_wide_cc(
                now_millis,
                media_ssrc,
                packet_status_count,
            ),
    {
        self.media_feedback.observe_transport_wide_cc(now_millis, media_ssrc, packet_status_count);
    }

    /// What the reports of the current window say.
    pub fn media_feedback_summary(&mut self, now_millis: u64) -> (summary: MediaFeedbackSummary)
        requires
            old(self).wf(),
        ensures
            final(self).wf(),
            summary == old(self)@.summary(now_millis),
            final(self)@ == old(self)@.after_summary(now_millis),
    {
        self.media_feedback.summary(now_millis)
    }

    /// Recommends a quality where the reports ask for another one than before.
    pub fn recommend_video_quality(&mut self, now_millis: u64) -> (quality: Option<
        RecommendedVideoQuality,
    >)
        requires
            old(self).wf(),
        ensures
            final(self).wf(),
            quality == old(self)@.recommendation(now_millis),
            final(self)@ == old(self)@.after_recommendation(now_millis),
    {
        let summary: MediaFeedbackSummary = self.media_feedback.summary(now_millis);
        self.media_feedback_adaptation.maybe_recommend(summary, now_millis)
    }

    /// The timestamp that goes out for an incoming one.
    pub fn map_packet_timestamp(&mut self, incoming_ssrc: u32, incoming_timestamp: u32) -> (
    outgoing: u32)
        ensures
            outgoing == old(self).timestamp_mapper.mapped(incoming_ssrc, incoming_timestamp),
            *final(self) == (SubscriberRtpState {
                timestamp_mapper: old(self).timestamp_mapper.after(
                    incoming_ssrc,
                    incoming_timestamp,
                ),
                ..*old(self)
            }),
    {
        let mapper: TimestampMapper = self.timestamp_mapper;
        let mut outgoing_timestamp: u32 = incoming_timestamp;
        let mut continues: bool = false;
        if let (Some(mapped_ssrc), Some(base_incoming), Some(base_outgoing)) = (
            mapper.incoming_ssrc,
            mapper.base_incoming,
            mapper.base_outgoing,
        ) {
            if mapped_ssrc == incoming_ssrc {
                continues = true;
                outgoing_timestamp = base_outgoing.wrapping_add(
                    incoming_timestamp.wrapping_sub(base_incoming),
                );
            } else if let Some(last) = mapper.last_outgoing {
                outgoing_timestamp = last.wrapping_add(1);
            }
        }
        if continues {
            self.timestamp_mapper.last_outgoing = Some(outgoing_timestamp);
        } else {
            self.timestamp_mapper = TimestampMapper {
                incoming_ssrc: Some(incoming_ssrc),
                base_incoming: Some(incoming_timestamp),
                base_outgoing: Some(outgoing_timestamp),
                last_outgoing: Some(outgoing_timestamp),
            };
        }
        outgoing_timestamp
    }

    /// Keeps a packet that went out, to send it again.
    pub fn cache_retransmission_packet(&mut self, packet: RtpPacket)
        requires
            old(self).retransmission.wf(),
        ensures
            final(self).retransmission.wf(),
            final(self).retransmission@.keys.len() <= RTP_RETRANSMISSION_CACHE_SIZE,
            final(self).incoming_ext_seq == old(self).incoming_ext_seq,
            final(self)@ == (SubscriberView {
                sent: old(self)@.sent.with(packet@.sequence_number, packet@).trimmed(
                    RTP_RETRANSMISSION_CACHE_SIZE as nat,
                ),
                ..old(self)@
            }),
    {
        let ghost cache = self.retransmission@;
        let outgoing_sequence_number: u16 = packet.header.sequence_number;
        proof {
            lemma_sent_views_with(cache, outgoing_sequence_number, packet);
            lemma_sent_views_trimmed(
                cache.with(outgoing_sequence_number, packet),
                RTP_RETRANSMISSION_CACHE_SIZE as nat,
            );
        }
        self.retransmission.set(outgoing_sequence_number, packet);
        self.retransmission.trim(RTP_RETRANSMISSION_CACHE_SIZE);
    }

    /// Widens a sequence number, and tells whether it is the newest of its source.
    pub fn extend_sequence_number(
        &mut self,
        incoming_ssrc: u32,
        incoming_sequence_number: u16,
    ) -> (extended: (u64, bool))
        ensures
            extended.0 == old(self)@.extended(incoming_ssrc, incoming_sequence_number),
            extended.1 == old(self)@.is_newest(incoming_ssrc, incoming_sequence_number),
            final(self).incoming_ext_seq == old(self).incoming_ext_seq,
            final(self).retransmission == old(self).retransmission,
            final(self)@ == (SubscriberView {
                highest: old(self)@.highest_after(incoming_ssrc, incoming_sequence_number),
                ..old(self)@
            }),
    {
        broadcast use vstd::std_specs::hash::group_hash_axioms;

        let sequence_number: u64 = incoming_sequence_number as u64;
        let known: Option<u64> = match self.highest_incoming_ext_seq_by_ssrc.get(&incoming_ssrc) {
            Some(highest) => Some(*highest),
            None => None,
        };
        match known {
            Some(highest) => {
                let extended: u64 = extend_sequence_number_from_reference(sequence_number, highest);
                if extended > highest {
                    self.highest_incoming_ext_seq_by_ssrc.insert(incoming_ssrc, extended);
                }
                (extended, extended > highest)
            },
            None => {
                self.highest_incoming_ext_seq_by_ssrc.insert(incoming_ssrc, sequence_number);
                (sequence_number, true)
            },
        }
    }
}

impl Default for SubscriberRtpState {
    fn default() -> (state: Self)
        ensures
            state.wf(),
            state@ == fresh_subscriber(),
    {
        broadcast use vstd::std_specs::hash::group_hash_axioms;

        let state = SubscriberRtpState {
            highest_incoming_ext_seq_by_ssrc: HashMap::new(),
            incoming_ext_seq: DuplicateWindow::new(),
            next_outgoing_ext_seq: None,
            timestamp_mapper: TimestampMapper {
                incoming_ssrc: None,
                base_incoming: None,
                base_outgoing: None,
                last_outgoing: None,
            },
            retransmission: OrderedCache::new(),
            keyframe_gate: KeyFrameRequestGate::default(),
            fir_sequence_numbers: HashMap::new(),
            sender_report_mapper: SenderReportMapper::default(),
            media_feedback: MediaFeedbackState::default(),
            media_feedback_adaptation: MediaFeedbackAdaptationState::default(),
        };
        assert(state@ =~= fresh_subscriber());
        state
    }
}

/// The state of one target, to rewrite packets for it.
#[derive(Debug)]
pub struct SubscriberRtpForwarder<'a> {
    pub state: &'a mut SubscriberRtpState,
}

impl SubscriberRtpForwarder<'_> {
    /// The packet that goes out to the target.
    pub fn rewrite_packet_with_target_ssrc_and_payload_type(
        &mut self,
        packet: &RtpPacket,
        target_ssrc: Option<u32>,
        negotiated_payload_type: Option<u8>,
    ) -> (rewritten: Option<RtpPacket>)
        requires
            old(self).state.wf(),
        ensures
            final(self).state.wf(),
            match rewritten {
                Some(rewritten) => old(self).state@.forwarded(
                    packet@,
                    target_ssrc,
                    negotiated_payload_type,
                ) == Some(rewritten@),
                None => old(self).state@.forwarded(
                    packet@,
                    target_ssrc,
                    negotiated_payload_type,
                ) is None,
            },
            final(self).state@ == old(self).state@.after_packet(
                packet@,
                target_ssrc,
                negotiated_payload_type,
            ),
            *final(final(self).state) == *final(old(self).state),
    {
        self.state.rewrite_packet(packet, target_ssrc, negotiated_payload_type)
    }
}

/// The forwarding states, by room, publisher, track and subscriber.
#[derive(Debug)]
pub struct RtpForwardingStore {
    pub states: KeyedMap<ForwardTrackKey, SubscriberRtpState>,
}

impl View for RtpForwardingStore {
    type V = Map<Seq<Seq<char>>, SubscriberView>;

    open spec fn view(&self) -> Map<Seq<Seq<char>>, SubscriberView> {
        self.states@
    }
}

/// The state of a target. One that was never used is fresh.
pub open spec fn state_of(
    states: Map<Seq<Seq<char>>, SubscriberView>,
    key: Seq<Seq<char>>,
) -> SubscriberView {
    if states.contains_key(key) {
        states[key]
    } else {
        fresh_subscriber()
    }
}

impl Default for RtpForwardingStore {
    fn default() -> (store: Self)
        ensures
            store.wf(),
            store@ == Map::<Seq<Seq<char>>, SubscriberView>::empty(),
    {
        RtpForwardingStore { states: KeyedMap::new() }
    }
}

impl RtpForwardingStore {
    /// Every state is well formed.
    pub open spec fn wf(self) -> bool {
        &&& self.states.wf()
        &&& forall|i: int|
            0 <= i < self.states.entries@.len() ==> (#[trigger] self.states.entries@[i]).1.wf()
    }

    fn get_or_insert_state(&mut self, key: &ForwardTrackKey) -> (place: usize)
        requires
            old(self).wf(),
        ensures
            final(self).wf(),
            place < final(self).states.entries@.len(),
            final(self).states.entries@[place as int].0.parts() == key.parts(),
            final(self).states.entries@[place as int].1@ == state_of(old(self)@, key.parts()),
            final(self)@ == old(self)@.insert(key.parts(), state_of(old(self)@, key.parts())),
    {
        match self.states.find(key) {
            Some(place) => {
                assert(self@ =~= self@.insert(key.parts(), self@[key.parts()]));
                place
            },
            None => {
                let ghost before = self.states.entries@;
                let new_key: ForwardTrackKey = key.duplicate();
                let state: SubscriberRtpState = SubscriberRtpState::default();
                proof {
                    crate::keyed_map::lemma_pushed(before, (new_key, state));
                }
                self.states.entries.push((new_key, state));
                self.states.entries.len() - 1
            },
        }
    }

    /// The state of one target, to rewrite packets for it.
    pub fn forwarder_for(&mut self, key: &ForwardTrackKey) -> (forwarder:
        SubscriberRtpForwarder<'_>)
        requires
            old(self).wf(),
        ensures
            forwarder.state.wf(),
            forwarder.state@ == state_of(old(self)@, key.parts()),
            final(forwarder.state).wf() ==> final(self).wf() && final(self)@ == old(self)@.insert(
                key.parts(),
                final(forwarder.state)@,
            ),
    {
        let place: usize = self.get_or_insert_state(key);
        let ghost entries = self.states.entries@;
        let state = &mut self.states.entries[place].1;
        proof {
            crate::keyed_map::lemma_updated(
                entries,
                entries.update(place as int, (entries[place as int].0, *final(state))),
                place as int,
            );
        }
        SubscriberRtpForwarder { state }
    }

    /// The packet that goes out to a subscriber.
    pub fn rewrite_packet_for_subscriber(&mut self, key: &ForwardTrackKey, packet: RtpPacket) -> (
    rewritten: Option<RtpPacket>)
        requires
            old(self).wf(),
        ensures
            final(self).wf(),
            match rewritten {
                Some(rewritten) => state_of(old(self)@, key.parts()).forwarded(packet@, None, None)
                    == Some(rewritten@),
                None => state_of(old(self)@, key.parts()).forwarded(packet@, None, None) is None,
            },
            final(self)@ == old(self)@.insert(
                key.parts(),
                state_of(old(self)@, key.parts()).after_packet(packet@, None, None),
            ),
    {
        self.rewrite_packet_for_subscriber_with_target_ssrc(key, packet, None)
    }

    /// The packet that goes out to a subscriber, with the source of the target.
    pub fn rewrite_packet_for_subscriber_with_target_ssrc(
        &mut self,
        key: &ForwardTrackKey,
        packet: RtpPacket,
        target_ssrc: Option<u32>,
    ) -> (rewritten: Option<RtpPacket>)
        requires
            old(self).wf(),
        ensures
            final(self).wf(),
            match rewritten {
                Some(rewritten) => state_of(old(self)@, key.parts()).forwarded(
                    packet@,
                    target_ssrc,
                    None,
                ) == Some(rewritten@),
                None => state_of(old(self)@, key.parts()).forwarded(
                    packet@,
                    target_ssrc,
                    None,
                ) is None,
            },
            final(self)@ == old(self)@.insert(
                key.parts(),
                state_of(old(self)@, key.parts()).after_packet(packet@, target_ssrc, None),
            ),
    {
        self.rewrite_packet_for_subscriber_with_target_ssrc_and_payload_type(
            key,
            packet,
            target_ssrc,
            None,
        )
    }

    /// The packet that goes out to a subscriber, with the source and the negotiated payload type
    /// of the target.
    pub fn rewrite_packet_for_subscriber_with_target_ssrc_and_payload_type(
        &mut self,
        key: &ForwardTrackKey,
        packet: RtpPacket,
        target_ssrc: Option<u32>,
        negotiated_payload_type: Option<u8>,
    ) -> (rewritten: Option<RtpPacket>)
        requires
            old(self).wf(),
        ensures
            final(self).wf(),
            match rewritten {
                Some(rewritten) => state_of(old(self)@, key.parts()).forwarded(
                    packet@,
                    target_ssrc,
                    negotiated_payload_type,
                ) == Some(rewritten@),
                None => state_of(old(self)@, key.parts()).forwarded(
                    packet@,
                    target_ssrc,
                    negotiated_payload_type,
                ) is None,
            },
            final(self)@ == old(self)@.insert(
                key.parts(),
                state_of(old(self)@, key.parts()).after_packet(
                    packet@,
                    target_ssrc,
                    negotiated_payload_type,
                ),
            ),
    {
        let mut forwarder: SubscriberRtpForwarder<'_> = self.forwarder_for(key);
        let rewritten: Option<RtpPacket> =
            forwarder.rewrite_packet_with_target_ssrc_and_payload_type(
            &packet,
            target_ssrc,
            negotiated_payload_type,
        );
        rewritten
    }

    /// The packet that can be sent again to a subscriber under the number.
    pub fn get_retransmission_packet(
        &self,
        key: &ForwardTrackKey,
        outgoing_sequence_number: u16,
    ) -> (packet: Option<RtpPacket>)
        requires
            self.wf(),
        ensures
            match packet {
                Some(packet) => state_of(self@, key.parts()).resent(outgoing_sequence_number)
                    == Some(packet@),
                None => state_of(self@, key.parts()).resent(outgoing_sequence_number) is None,
            },
    {
        match self.states.find(key) {
            Some(place) => self.states.entries[place].1.retransmission_packet(
                outgoing_sequence_number,
            ),
            None => None,
        }
    }

    /// Lets a key frame request of a subscriber pass, unless one of its kind passed too recently.
    pub fn should_forward_keyframe_request(
        &mut self,
        key: &ForwardTrackKey,
        request: KeyFrameRequestKind,
        now_millis: u64,
        min_gap_millis: u64,
    ) -> (forward: bool)
        requires
            old(self).wf(),
        ensures
            final(self).wf(),
            forward == state_of(old(self)@, key.parts()).gate.passes(
                request,
                now_millis,
                min_gap_millis,
            ),
            final(self)@ == old(self)@.insert(
                key.parts(),
                state_of(old(self)@, key.parts()).after_key_frame_request(
                    request,
                    now_millis,
                    min_gap_millis,
                ),
            ),
    {
        let place: usize = self.get_or_insert_state(key);
        let ghost entries = self.states.entries@;
        let state = &mut self.states.entries[place].1;
        let forward: bool = state.should_forward_keyframe_request(
            request,
            now_millis,
            min_gap_millis,
        );
        proof {
            crate::keyed_map::lemma_updated(entries, self.states.entries@, place as int);
        }
        forward
    }

    /// The number of the next full intra request of a subscriber for a source.
    pub fn next_fir_sequence_number(&mut self, key: &ForwardTrackKey, media_ssrc: u32) -> (number:
        u8)
        requires
            old(self).wf(),
        ensures
            final(self).wf(),
            number == state_of(old(self)@, key.parts()).next_fir(media_ssrc),
            final(self)@ == old(self)@.insert(
                key.parts(),
                state_of(old(self)@, key.parts()).after_fir(media_ssrc),
            ),
    {
        let place: usize = self.get_or_insert_state(key);
        let ghost entries = self.states.entries@;
        let state = &mut self.states.entries[place].1;
        let number: u8 = state.next_fir_sequence_number(media_ssrc);
        proof {
            crate::keyed_map::lemma_updated(entries, self.states.entries@, place as int);
        }
        number
    }

    /// Maps the timestamp of a sender report for a subscriber.
    pub fn map_sender_report(
        &mut self,
        key: &ForwardTrackKey,
        target_ssrc: u32,
        incoming_rtp_timestamp: u32,
    ) -> (mapped: MappedSenderReport)
        requires
            old(self).wf(),
        ensures
            final(self).wf(),
            mapped == (MappedSenderReport {
                ssrc: target_ssrc,
                rtp_timestamp: state_of(old(self)@, key.parts()).reports.mapped(
                    target_ssrc,
                    incoming_rtp_timestamp,
                ),
            }),
            final(self)@ == old(self)@.insert(
                key.parts(),
                state_of(old(self)@, key.parts()).after_sender_report(
                    target_ssrc,
                    incoming_rtp_timestamp,
                ),
            ),
    {
        let place: usize = self.get_or_insert_state(key);
        let ghost entries = self.states.entries@;
        let state = &mut self.states.entries[place].1;
        let mapped: MappedSenderReport = state.map_sender_report(
            target_ssrc,
            incoming_rtp_timestamp,
        );
        proof {
            crate::keyed_map::lemma_updated(entries, self.states.entries@, place as int);
        }
        mapped
    }

    /// Takes note of a receiver report of a subscriber.
    pub fn observe_receiver_report(
        &mut self,
        key: &ForwardTrackKey,
        now_millis: u64,
        ssrc: u32,
        max_fraction_lost: u8,
        report_count: u16,
    )
        requires
            old(self).wf(),
        ensures
            final(self).wf(),
            final(self)@ == old(self)@.insert(
                key.parts(),
                state_of(old(self)@, key.parts()).after_receiver_report(
                    now_millis,
                    ssrc,
                    max_fraction_lost,
                    report_count,
                ),
            ),
    {
        let place: usize = self.get_or_insert_state(key);
        let ghost entries = self.states.entries@;
        let state = &mut self.states.entries[place].1;
        state.observe_receiver_report(now_millis, ssrc, max_fraction_lost, report_count);
        proof {
            crate::keyed_map::lemma_updated(entries, self.states.entries@, place as int);
        }
    }

    /// Takes note of transport wide feedback of a subscriber.
    pub fn observe_transport_wide_cc(
        &mut self,
        key: &ForwardTrackKey,
        now_millis: u64,
        media_ssrc: u32,
        packet_status_count: u16,
    )
        requires
            old(self).wf(),
        ensures
            final(self).wf(),
            final(self)@ == old(self)@.insert(
                key.parts(),
                state_of(old(self)@, key.parts()).after_transport_wide_cc(
                    now_millis,
                    media_ssrc,
                    packet_status_count,
                ),
            ),
    {
        let place: usize = self.get_or_insert_state(key);
        let ghost entries = self.states.entries@;
        let state = &mut self.states.entries[place].1;
        state.observe_transport_wide_cc(now_millis, media_ssrc, packet_status_count);
        proof {
            crate::keyed_map::lemma_updated(entries, self.states.entries@, place as int);
        }
    }

    /// What the reports of a subscriber say.
    pub fn media_feedback_summary(&mut self, key: &ForwardTrackKey, now_millis: u64) -> (summary:
        MediaFeedbackSummary)
        requires
            old(self).wf(),
        ensures
            final(self).wf(),
            summary == state_of(old(self)@, key.parts()).summary(now_millis),
            final(self)@ == old(self)@.insert(
                key.parts(),
                state_of(old(self)@, key.parts()).after_summary(now_millis),
            ),
    {
        let place: usize = self.get_or_insert_state(key);
        let ghost entries = self.states.entries@;
        let state = &mut self.states.entries[place].1;
        let summary: MediaFeedbackSummary = state.media_feedback_summary(now_millis);
        proof {
            crate::keyed_map::lemma_updated(entries, self.states.entries@, place as int);
        }
        summary
    }

    /// Recommends a quality to a subscriber where its reports ask for another one than before.
    pub fn recommend_video_quality(&mut self, key: &ForwardTrackKey, now_millis: u64) -> (quality:
        Option<RecommendedVideoQuality>)
        requires
            old(self).wf(),
        ensures
            final(self).wf(),
            quality == state_of(old(self)@, key.parts()).recommendation(now_millis),
            final(self)@ == old(self)@.insert(
                key.parts(),
                state_of(old(self)@, key.parts()).after_recommendation(now_millis),
            ),
    {
        let place: usize = self.get_or_insert_state(key);
        let ghost entries = self.states.entries@;
        let state = &mut self.states.entries[place].1;
        let quality: Option<RecommendedVideoQuality> = state.recommend_video_quality(now_millis);
        proof {
            crate::keyed_map::lemma_updated(entries, self.states.entries@, place as int);
        }
        quality
    }

    /// Forgets a target.
    pub fn remove(
        &mut self,
        room: &str,
        publisher_identity: &str,
        track_sid: &str,
        subscriber_identity: &str,
    )
        requires
            old(self).wf(),
        ensures
            final(self).wf(),
            final(self)@ == old(self)@.remove(
                seq![room@, publisher_identity@, track_sid@, subscriber_identity@],
            ),
    {
        let key: ForwardTrackKey = (
            room.to_owned(),
            publisher_identity.to_owned(),
            track_sid.to_owned(),
            subscriber_identity.to_owned(),
        );
        let ghost entries = self.states.entries@;
        self.states.remove(&key);
        assert(key.parts() == seq![room@, publisher_identity@, track_sid@, subscriber_identity@]);
        proof {
            lemma_states_stay_wf(entries, self.states.entries@);
        }
    }

    /// Forgets the targets of a track.
    pub fn remove_track(&mut self, room: &str, publisher_identity: &str, track_sid: &str)
        requires
            old(self).wf(),
        ensures
            final(self).wf(),
            final(self)@ == crate::keyed_map::kept(
                old(self)@,
                |key: Seq<Seq<char>>|
                    key[0] != room@ || key[1] != publisher_identity@ || key[2] != track_sid@,
            ),
    {
        let ghost keep = |key: Seq<Seq<char>>|
            key[0] != room@ || key[1] != publisher_identity@ || key[2] != track_sid@;
        let ghost entries = self.states.entries@;
        let room: String = room.to_owned();
        let publisher_identity: String = publisher_identity.to_owned();
        let track_sid: String = track_sid.to_owned();
        let choice = |key: &ForwardTrackKey| -> (chosen: bool)
            ensures
                chosen == keep(key.parts()),
            { key.0 != room || key.1 != publisher_identity || key.2 != track_sid };
        self.states.retain(choice, Ghost(keep));
        proof {
            lemma_states_stay_wf(entries, self.states.entries@);
        }
    }

    /// Forgets the targets of a participant, who publishes or subscribes.
    pub fn remove_participant(&mut self, room: &str, identity: &str)
        requires
            old(self).wf(),
        ensures
            final(self).wf(),
            final(self)@ == crate::keyed_map::kept(
                old(self)@,
                |key: Seq<Seq<char>>|
                    key[0] != room@ || (key[1] != identity@ && key[3] != identity@),
            ),
    {
        let ghost keep = |key: Seq<Seq<char>>|
            key[0] != room@ || (key[1] != identity@ && key[3] != identity@);
        let ghost entries = self.states.entries@;
        let room: String = room.to_owned();
        let identity: String = identity.to_owned();
        let choice = |key: &ForwardTrackKey| -> (chosen: bool)
            ensures
                chosen == keep(key.parts()),
            { key.0 != room || (key.1 != identity && key.3 != identity) };
        self.states.retain(choice, Ghost(keep));
        proof {
            lemma_states_stay_wf(entries, self.states.entries@);
        }
    }
}

proof fn lemma_states_stay_wf(
    before: Seq<(ForwardTrackKey, SubscriberRtpState)>,
    after: Seq<(ForwardTrackKey, SubscriberRtpState)>,
)
    requires
        forall|i: int| 0 <= i < before.len() ==> (#[trigger] before[i]).1.wf(),
        forall|entry: (ForwardTrackKey, SubscriberRtpState)|
            after.contains(entry) ==> before.contains(entry),
    ensures
        forall|i: int| 0 <= i < after.len() ==> (#[trigger] after[i]).1.wf(),
{
    assert forall|i: int| 0 <= i < after.len() implies (#[trigger] after[i]).1.wf() by {
        assert(after.contains(after[i]));
        let j = choose|j: int| 0 <= j < before.len() && before[j] == after[i];
        assert(before[j].1.wf());
    }
}

proof fn lemma_trimmed_keeps_newest(cache: CacheView<u16, RtpPacketView>, limit: nat, i: int)
    requires
        cache.keys.no_duplicates(),
        0 <= i < cache.keys.len(),
        cache.keys.len() - i <= limit,
        cache.values.contains_key(cache.keys[i]),
    ensures
        cache.trimmed(limit).values.contains_key(cache.keys[i]),
        cache.trimmed(limit).values[cache.keys[i]] == cache.values[cache.keys[i]],
    decreases cache.keys.len(),
{
    if cache.keys.len() > limit {
        let less = cache.without_oldest();
        assert(less.keys[i - 1] == cache.keys[i]);
        assert(cache.keys[0] != cache.keys[i]);
        lemma_trimmed_keeps_newest(less, limit, i - 1);
    }
}

/// Packets that go out to a subscriber are numbered one after the other, whatever packets of
/// whatever sources they stand for.
pub proof fn law_forwarded_packets_are_consecutive(
    state: SubscriberView,
    first: RtpPacketView,
    first_ssrc: Option<u32>,
    first_type: Option<u8>,
    second: RtpPacketView,
    second_ssrc: Option<u32>,
    second_type: Option<u8>,
)
    requires
        state.outgoing(first.ssrc, first.sequence_number) < u64::MAX,
        state.forwarded(first, first_ssrc, first_type) is Some,
        state.after_packet(first, first_ssrc, first_type).forwarded(
            second,
            second_ssrc,
            second_type,
        ) is Some,
    ensures
        state.after_packet(first, first_ssrc, first_type).forwarded(
            second,
            second_ssrc,
            second_type,
        )->0.sequence_number == (state.forwarded(
            first,
            first_ssrc,
            first_type,
        )->0.sequence_number + 1) % 0x1_0000,
{
}

proof fn lemma_extension_stays(
    state: SubscriberView,
    packet: RtpPacketView,
    target_ssrc: Option<u32>,
    payload_type: Option<u8>,
)
    requires
        state.wf(),
    ensures
        state.after_packet(packet, target_ssrc, payload_type).extended(
            packet.ssrc,
            packet.sequence_number,
        ) == state.extended(packet.ssrc, packet.sequence_number),
{
}

proof fn lemma_packet_is_seen(
    state: SubscriberView,
    packet: RtpPacketView,
    target_ssrc: Option<u32>,
    payload_type: Option<u8>,
)
    requires
        state.wf(),
    ensures
        state.after_packet(packet, target_ssrc, payload_type).is_duplicate(
            packet.ssrc,
            packet.sequence_number,
        ),
{
    let after = state.after_packet(packet, target_ssrc, payload_type);
    let key = (packet.ssrc, state.extended(packet.ssrc, packet.sequence_number));
    lemma_extension_stays(state, packet, target_ssrc, payload_type);
    if !state.is_duplicate(packet.ssrc, packet.sequence_number) {
        assert(after.seen[after.seen.len() - 1] == key);
        assert(after.seen.contains(key));
    }
}

/// A packet that comes a second time right after it was forwarded is dropped, and changes nothing.
pub proof fn law_repeated_packet_is_dropped(
    state: SubscriberView,
    packet: RtpPacketView,
    target_ssrc: Option<u32>,
    payload_type: Option<u8>,
)
    requires
        state.wf(),
    ensures
        state.after_packet(packet, target_ssrc, payload_type).forwarded(
            packet,
            target_ssrc,
            payload_type,
        ) is None,
        state.after_packet(packet, target_ssrc, payload_type).after_packet(
            packet,
            target_ssrc,
            payload_type,
        ) == state.after_packet(packet, target_ssrc, payload_type),
{
    lemma_packet_is_seen(state, packet, target_ssrc, payload_type);
}

/// A packet that went out is sent again as it went out, when its number is asked for.
pub proof fn law_forwarded_packet_is_sent_again(
    state: SubscriberView,
    packet: RtpPacketView,
    target_ssrc: Option<u32>,
    payload_type: Option<u8>,
)
    requires
        state.sent.wf(),
        state.sent.keys.len() <= RTP_RETRANSMISSION_CACHE_SIZE,
        state.forwarded(packet, target_ssrc, payload_type) is Some,
    ensures
        state.after_packet(packet, target_ssrc, payload_type).resent(
            state.forwarded(packet, target_ssrc, payload_type)->0.sequence_number,
        ) == state.forwarded(packet, target_ssrc, payload_type),
{
    let rewritten = state.rewritten(packet, target_ssrc, payload_type);
    let number = rewritten.sequence_number;
    let grown = state.sent.with(number, rewritten);
    state.sent.lemma_with(number, rewritten);
    if state.sent.values.contains_key(number) {
        assert(state.sent.keys.to_set().contains(number));
    } else {
        assert(grown.keys[grown.keys.len() - 1] == number);
        lemma_trimmed_keeps_newest(
            grown,
            RTP_RETRANSMISSION_CACHE_SIZE as nat,
            grown.keys.len() - 1,
        );
    }
}

/// A packet that can be sent again still can after another one went out under another number,
/// unless it is the oldest of a full cache.
pub proof fn law_sent_packets_are_kept(
    state: SubscriberView,
    packet: RtpPacketView,
    target_ssrc: Option<u32>,
    payload_type: Option<u8>,
    number: u16,
)
    requires
        state.sent.wf(),
        state.sent.keys.len() <= RTP_RETRANSMISSION_CACHE_SIZE,
        state.resent(number) is Some,
        state.rewritten(packet, target_ssrc, payload_type).sequence_number != number,
        state.sent.keys.len() < RTP_RETRANSMISSION_CACHE_SIZE || state.sent.keys[0] != number,
    ensures
        state.after_packet(packet, target_ssrc, payload_type).resent(number) == state.resent(
            number,
        ),
{
    let rewritten = state.rewritten(packet, target_ssrc, payload_type);
    let grown = state.sent.with(rewritten.sequence_number, rewritten);
    state.sent.lemma_with(rewritten.sequence_number, rewritten);
    assert(state.sent.keys.to_set().contains(number));
    let i = choose|i: int| 0 <= i < state.sent.keys.len() && state.sent.keys[i] == number;
    assert(grown.keys[i] == number);
    lemma_trimmed_keeps_newest(grown, RTP_RETRANSMISSION_CACHE_SIZE as nat, i);
}

/// Two packets of one source keep the distance of their timestamps, and the first packet of
/// another source is one tick after the last packet.
pub proof fn law_timestamps_go_on(
    mapper: TimestampMapper,
    ssrc: u32,
    first: u32,
    other_ssrc: u32,
    second: u32,
)
    ensures
        other_ssrc == ssrc ==> mapper.after(ssrc, first).mapped(other_ssrc, second).wrapping_sub(
            mapper.mapped(ssrc, first),
        ) == second.wrapping_sub(first),
        other_ssrc != ssrc ==> mapper.after(ssrc, first).mapped(other_ssrc, second)
            == mapper.mapped(ssrc, first).wrapping_add(1),
{
}

/// What is done for one target leaves the states of all others as they are.
pub proof fn law_targets_are_independent(
    states: Map<Seq<Seq<char>>, SubscriberView>,
    target: Seq<Seq<char>>,
    state: SubscriberView,
    other: Seq<Seq<char>>,
)
    requires
        other != target,
    ensures
        state_of(states.insert(target, state), other) == state_of(states, other),
        state_of(states.remove(target), other) == state_of(states, other),
        state_of(states.remove(target), target) == fresh_subscriber(),
{
}

/// A number that is less than half a turn from its reference, or half a turn behind it, is given
/// back by its low bits.
pub proof fn law_near_number_is_given_back(number: u64, reference: u64)
    requires
        -0x8000 <= number - reference < 0x8000,
    ensures
        nearest_extension((number % 0x1_0000) as u64, reference) == number,
        nearest_extension(number, reference) == number,
{
    let low = number % 0x1_0000;
    let turns: int = number / 0x1_0000 - reference / 0x1_0000;
    let base: int = reference - reference % 0x1_0000;
    assert(number == base + 0x1_0000 * turns + low);
    assert(turns == -1 || turns == 0 || turns == 1);
    assert(low % 0x1_0000 == low);
}

/// What goes out has the type and the source that are asked for, or its own, and is otherwise what
/// came in, but for its number and timestamp.
pub proof fn law_forwarded_packet_is_the_packet(
    state: SubscriberView,
    packet: RtpPacketView,
    target_ssrc: Option<u32>,
    payload_type: Option<u8>,
)
    requires
        state.forwarded(packet, target_ssrc, payload_type) is Some,
    ensures
        ({
            let sent = state.forwarded(packet, target_ssrc, payload_type)->Some_0;
            &&& payload_type matches Some(wanted) ==> sent.payload_type == wanted
            &&& payload_type is None ==> sent.payload_type == packet.payload_type
            &&& target_ssrc matches Some(wanted) ==> sent.ssrc == wanted
            &&& target_ssrc is None ==> sent.ssrc == packet.ssrc
            &&& sent.payload == packet.payload
            &&& sent.marker == packet.marker
            &&& sent.version == packet.version
            &&& sent.padding == packet.padding
            &&& sent.extension == packet.extension
            &&& sent.csrc == packet.csrc
            &&& sent.extension_profile == packet.extension_profile
            &&& sent.extensions == packet.extensions
            &&& sent.extensions_padding == packet.extensions_padding
        }),
{
}

/// A packet goes out unless it came before: one of a new source does, one that is newer than all of
/// its source does, and an older one does exactly where it is not remembered.
pub proof fn law_only_known_packets_are_held_back(
    state: SubscriberView,
    packet: RtpPacketView,
    number: u64,
    target_ssrc: Option<u32>,
    payload_type: Option<u8>,
)
    requires
        state.highest.contains_key(packet.ssrc) ==> -0x8000 <= number - state.highest[packet.ssrc]
            < 0x8000 && packet.sequence_number == number % 0x1_0000,
    ensures
        !state.highest.contains_key(packet.ssrc) ==> state.forwarded(
            packet,
            target_ssrc,
            payload_type,
        ) is Some,
        state.highest.contains_key(packet.ssrc) && number > state.highest[packet.ssrc]
            ==> state.forwarded(packet, target_ssrc, payload_type) is Some,
        state.highest.contains_key(packet.ssrc) && number <= state.highest[packet.ssrc] ==> (
        state.forwarded(packet, target_ssrc, payload_type) is None <==> state.seen.contains(
            (packet.ssrc, number),
        )),
{
    if state.highest.contains_key(packet.ssrc) {
        law_near_number_is_given_back(number, state.highest[packet.ssrc]);
    }
}

/// The first packet to a subscriber goes out with its own number and timestamp.
pub proof fn law_first_packet_keeps_its_numbers(
    packet: RtpPacketView,
    target_ssrc: Option<u32>,
    payload_type: Option<u8>,
)
    ensures
        fresh_subscriber().forwarded(packet, target_ssrc, payload_type) matches Some(sent)
            && sent.sequence_number == packet.sequence_number && sent.timestamp
            == packet.timestamp,
{
}

/// The newest number of a source is the greatest that came, and that of another source stays; the
/// packet is remembered as the last one that came. A packet that is held back changes nothing.
pub proof fn law_newest_number_is_kept(
    state: SubscriberView,
    packet: RtpPacketView,
    number: u64,
    target_ssrc: Option<u32>,
    payload_type: Option<u8>,
    other: u32,
)
    requires
        state.highest.contains_key(packet.ssrc) ==> -0x8000 <= number - state.highest[packet.ssrc]
            < 0x8000 && packet.sequence_number == number % 0x1_0000,
        !state.highest.contains_key(packet.ssrc) ==> number == packet.sequence_number,
    ensures
        ({
            let after = state.after_packet(packet, target_ssrc, payload_type);
            let sent = state.forwarded(packet, target_ssrc, payload_type);
            &&& sent is None ==> after == state
            &&& sent is Some ==> {
                &&& after.highest.contains_key(packet.ssrc)
                &&& after.highest[packet.ssrc] == if state.highest.contains_key(packet.ssrc)
                    && state.highest[packet.ssrc] >= number {
                    state.highest[packet.ssrc]
                } else {
                    number
                }
                &&& after.seen.last() == (packet.ssrc, number)
                &&& other != packet.ssrc ==> after.highest.contains_key(other)
                    == state.highest.contains_key(other)
                &&& other != packet.ssrc && state.highest.contains_key(other)
                    ==> after.highest[other] == state.highest[other]
            }
            &&& after.gate == state.gate
            &&& after.fir == state.fir
            &&& after.reports == state.reports
            &&& after.feedback == state.feedback
            &&& after.adaptation == state.adaptation
        }),
{
    if state.highest.contains_key(packet.ssrc) {
        law_near_number_is_given_back(number, state.highest[packet.ssrc]);
    }
}

/// A packet is remembered until five hundred and twelve others came after it.
pub proof fn law_recent_packets_are_remembered(order: Seq<(u32, u64)>, i: int)
    requires
        0 <= i < order.len(),
    ensures
        order.len() - i <= 512 ==> duplicate_window::windowed(order).contains(order[i]),
        duplicate_window::windowed(order).len() <= 512,
        order.len() <= 512 ==> duplicate_window::windowed(order) == order,
        forall|j: int|
            0 <= j < duplicate_window::windowed(order).len() ==> order.contains(
                #[trigger] duplicate_window::windowed(order)[j],
            ),
{
    let kept = duplicate_window::windowed(order);
    if order.len() - i <= 512 {
        let place = if order.len() > 512 {
            i - (order.len() - 512)
        } else {
            i
        };
        assert(kept[place] == order[i]);
    }
}

/// Full intra requests are numbered from zero, each source by itself.
pub proof fn law_full_intra_requests_are_numbered(
    state: SubscriberView,
    media_ssrc: u32,
    other: u32,
)
    ensures
        fresh_subscriber().next_fir(media_ssrc) == 0,
        state.after_fir(media_ssrc).next_fir(media_ssrc) == (state.next_fir(media_ssrc) + 1)
            % 0x100,
        other != media_ssrc ==> state.after_fir(media_ssrc).next_fir(other) == state.next_fir(
            other,
        ),
{
}

/// A subscriber's mapper starts with the timestamp of its first packet, and goes on from it.
pub proof fn law_mapper_starts_with_its_first_packet(ssrc: u32, first: u32, second: u32)
    ensures
        TimestampMapper::fresh().mapped(ssrc, first) == first,
        TimestampMapper::fresh().after(ssrc, first).mapped(ssrc, second) == second,
        TimestampMapper::fresh().after(ssrc, first).last_outgoing == Some(first),
{
}

/// The last timestamp that went out is remembered, whatever source it came from.
pub proof fn law_last_timestamp_is_remembered(mapper: TimestampMapper, ssrc: u32, timestamp: u32)
    ensures
        mapper.after(ssrc, timestamp).last_outgoing == Some(mapper.mapped(ssrc, timestamp)),
        mapper.after(ssrc, timestamp).incoming_ssrc == Some(ssrc),
{
}

/// Each report and request changes the part of the state that it is about, and that part alone.
pub proof fn law_reports_change_their_own_part(
    state: SubscriberView,
    now_millis: u64,
    ssrc: u32,
    loss: u8,
    count: u16,
    kind: KeyFrameRequestKind,
    gap: u64,
    timestamp: u32,
)
    ensures
        ({
            let after = state.after_receiver_report(now_millis, ssrc, loss, count);
            &&& after.feedback == state.feedback.with_receiver_report(now_millis, ssrc, loss, count)
            &&& after == (SubscriberView { feedback: after.feedback, ..state })
        }),
        ({
            let after = state.after_transport_wide_cc(now_millis, ssrc, count);
            &&& after.feedback == state.feedback.with_transport_wide_cc(now_millis, ssrc, count)
            &&& after == (SubscriberView { feedback: after.feedback, ..state })
        }),
        ({
            let after = state.after_key_frame_request(kind, now_millis, gap);
            &&& after.gate == state.gate.after(kind, now_millis, gap)
            &&& after == (SubscriberView { gate: after.gate, ..state })
        }),
        ({
            let after = state.after_sender_report(ssrc, timestamp);
            &&& after.reports == state.reports.after(ssrc, timestamp)
            &&& after == (SubscriberView { reports: after.reports, ..state })
        }),
{
}

/// A summary is of the reports that count now, and a recommendation is made by the summary; both
/// leave what was sent and seen alone.
pub proof fn law_recommendations_follow_the_summary(state: SubscriberView, now_millis: u64)
    ensures
        ({
            let reports_go_on = state.feedback.rr_window_start_millis matches Some(start)
                && now_millis <= start + 5_000;
            let summary = state.summary(now_millis);
            &&& reports_go_on ==> summary.rr_report_count == state.feedback.rr_window_report_count
                && summary.rr_max_fraction_lost == state.feedback.rr_window_max_fraction_lost
            &&& !reports_go_on ==> summary.rr_report_count == 0 && summary.rr_max_fraction_lost
                == 0
            &&& state.recommendation(now_millis) == state.adaptation.recommendation(
                summary,
                now_millis,
            )
            &&& state.after_recommendation(now_millis).adaptation == state.adaptation.after(
                summary,
                now_millis,
            )
            &&& state.after_recommendation(now_millis).feedback == state.after_summary(
                now_millis,
            ).feedback
            &&& state.after_recommendation(now_millis).sent == state.sent
            &&& state.after_recommendation(now_millis).highest == state.highest
            &&& state.after_summary(now_millis).adaptation == state.adaptation
            &&& state.after_summary(now_millis).summary(now_millis) == summary
        }),
{
}

} // verus!
