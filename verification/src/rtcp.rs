//! Control packets of a subscriber: what is done about them, and what is sent in return.
use crate::bytes::copy_bytes;
use crate::keyed_map::StoreKey;
use crate::rtp_forwarding::feedback::{
    KeyFrameRequestKind, MappedSenderReport, MediaFeedbackSummary, RecommendedVideoQuality,
};
use crate::rtp_forwarding::packet::{RtpPacket, RtpPacketView};
use crate::rtp_forwarding::{ForwardTrackKey, RtpForwardingStore, SubscriberView};
use vstd::prelude::*;

verus! {

/// The least time between two key frame requests of one kind that are passed on.
pub const KEYFRAME_REQUEST_MIN_GAP_MILLIS: u64 = 300;

/// A lost packet, and a mask of the sixteen packets after it.
#[derive(Debug, Clone, Copy, PartialEq, Eq, Structural)]
pub struct NackPair {
    pub packet_id: u16,
    pub lost_packets: u16,
}

/// The numbers after `packet_id` whose bits are set in the mask, from bit `from` on.
pub open spec fn masked_numbers(packet_id: u16, lost_packets: u16, from: u16) -> Seq<u16>
    decreases 16 - from,
{
    if from >= 16 {
        Seq::empty()
    } else {
        let rest = masked_numbers(packet_id, lost_packets, (from + 1) as u16);
        if lost_packets & (1u16 << from) != 0 {
            seq![packet_id.wrapping_add((from + 1) as u16)] + rest
        } else {
            rest
        }
    }
}

/// The numbers that a pair asks for: its own, then those of its mask.
pub open spec fn nacked_numbers(pair: NackPair) -> Seq<u16> {
    seq![pair.packet_id] + masked_numbers(pair.packet_id, pair.lost_packets, 0)
}

/// Calls `NackPair::packet_list` of the `rtc` crate's transport layer nack: the list begins with
/// the pair's own number, and for each bit that is set, lowest first, holds the number that is as
/// far after it as the bit's place, counted from one. Numbers wrap.
#[verifier::external_body]
fn packet_list(pair: NackPair) -> (numbers: Vec<u16>)
    ensures
        numbers@ == nacked_numbers(pair),
{
    rtc::rtcp::transport_feedbacks::transport_layer_nack::NackPair {
        packet_id: pair.packet_id,
        lost_packets: pair.lost_packets,
    }.packet_list()
}

/// What a receiver says of one source.
#[derive(Debug, Clone, Copy, PartialEq, Eq, Structural)]
pub struct ReceptionReport {
    pub ssrc: u32,
    pub fraction_lost: u8,
    pub total_lost: u32,
    pub last_sequence_number: u32,
    pub jitter: u32,
    pub last_sender_report: u32,
    pub delay: u32,
}

impl Default for ReceptionReport {
    fn default() -> (report: Self)
        ensures
            report == (ReceptionReport {
                ssrc: 0,
                fraction_lost: 0,
                total_lost: 0,
                last_sequence_number: 0,
                jitter: 0,
                last_sender_report: 0,
                delay: 0,
            }),
    {
        ReceptionReport {
            ssrc: 0,
            fraction_lost: 0,
            total_lost: 0,
            last_sequence_number: 0,
            jitter: 0,
            last_sender_report: 0,
            delay: 0,
        }
    }
}

/// What a sender says of its stream.
#[derive(Debug, Clone, PartialEq, Eq)]
pub struct SenderReport {
    pub ssrc: u32,
    pub ntp_time: u64,
    pub rtp_time: u32,
    pub packet_count: u32,
    pub octet_count: u32,
    pub reports: Vec<ReceptionReport>,
    pub profile_extensions: Vec<u8>,
}

/// The contents of a [`SenderReport`].
#[verifier::ext_equal]
pub struct SenderReportView {
    pub ssrc: u32,
    pub ntp_time: u64,
    pub rtp_time: u32,
    pub packet_count: u32,
    pub octet_count: u32,
    pub reports: Seq<ReceptionReport>,
    pub profile_extensions: Seq<u8>,
}

impl View for SenderReport {
    type V = SenderReportView;

    open spec fn view(&self) -> SenderReportView {
        SenderReportView {
            ssrc: self.ssrc,
            ntp_time: self.ntp_time,
            rtp_time: self.rtp_time,
            packet_count: self.packet_count,
            octet_count: self.octet_count,
            reports: self.reports@,
            profile_extensions: self.profile_extensions@,
        }
    }
}

impl Default for SenderReport {
    fn default() -> (report: Self)
        ensures
            report@ == (SenderReportView {
                ssrc: 0,
                ntp_time: 0,
                rtp_time: 0,
                packet_count: 0,
                octet_count: 0,
                reports: Seq::empty(),
                profile_extensions: Seq::empty(),
            }),
    {
        SenderReport {
            ssrc: 0,
            ntp_time: 0,
            rtp_time: 0,
            packet_count: 0,
            octet_count: 0,
            reports: Vec::new(),
            profile_extensions: Vec::new(),
        }
    }
}

impl SenderReport {
    /// A report with the same contents.
    pub fn duplicate(&self) -> (copy: Self)
        ensures
            copy@ == self@,
    {
        let mut reports: Vec<ReceptionReport> = Vec::new();
        let mut i: usize = 0;
        while i < self.reports.len()
            invariant
                i <= self.reports@.len(),
                reports@ == self.reports@.take(i as int),
            decreases self.reports.len() - i,
        {
            reports.push(self.reports[i]);
            i += 1;
            assert(self.reports@.take(i as int) =~= self.reports@.take(i - 1).push(
                self.reports@[i - 1],
            ));
        }
        assert(self.reports@.take(i as int) =~= self.reports@);
        SenderReport {
            ssrc: self.ssrc,
            ntp_time: self.ntp_time,
            rtp_time: self.rtp_time,
            packet_count: self.packet_count,
            octet_count: self.octet_count,
            reports,
            profile_extensions: copy_bytes(self.profile_extensions.as_slice()),
        }
    }
}

/// A control packet, as far as it matters to forwarding.
#[derive(Debug, Clone, PartialEq, Eq)]
pub enum RtcpPacket {
    Nack { nacks: Vec<NackPair> },
    Pli { media_ssrc: u32 },
    Fir { media_ssrc: u32 },
    SenderReport { report: SenderReport },
    ReceiverReport { ssrc: u32, reports: Vec<ReceptionReport> },
    TransportWideCc { media_ssrc: u32, packet_status_count: u16 },
    Other,
}

/// The contents of an [`RtcpPacket`].
#[verifier::ext_equal]
pub enum RtcpPacketView {
    Nack { nacks: Seq<NackPair> },
    Pli { media_ssrc: u32 },
    Fir { media_ssrc: u32 },
    SenderReport { report: SenderReportView },
    ReceiverReport { ssrc: u32, reports: Seq<ReceptionReport> },
    TransportWideCc { media_ssrc: u32, packet_status_count: u16 },
    Other,
}

impl View for RtcpPacket {
    type V = RtcpPacketView;

    open spec fn view(&self) -> RtcpPacketView {
        match *self {
            RtcpPacket::Nack { nacks } => RtcpPacketView::Nack { nacks: nacks@ },
            RtcpPacket::Pli { media_ssrc } => RtcpPacketView::Pli { media_ssrc },
            RtcpPacket::Fir { media_ssrc } => RtcpPacketView::Fir { media_ssrc },
            RtcpPacket::SenderReport { report } => RtcpPacketView::SenderReport { report: report@ },
            RtcpPacket::ReceiverReport { ssrc, reports } => RtcpPacketView::ReceiverReport {
                ssrc,
                reports: reports@,
            },
            RtcpPacket::TransportWideCc {
                media_ssrc,
                packet_status_count,
            } => RtcpPacketView::TransportWideCc { media_ssrc, packet_status_count },
            RtcpPacket::Other => RtcpPacketView::Other,
        }
    }
}

/// What is to be done about a control packet.
#[derive(Debug, Clone, PartialEq, Eq)]
pub enum RtcpForwardAction {
    RetransmitSequence(u16),
    KeyFrameRequest { kind: KeyFrameRequestKind, media_ssrc: u32 },
    SenderReport { report: SenderReport },
    ReceiverReportObserved { ssrc: u32, max_fraction_lost: u8, report_count: u16 },
    TransportWideCcObserved { media_ssrc: u32, packet_status_count: u16 },
}

/// The contents of an [`RtcpForwardAction`].
#[verifier::ext_equal]
pub enum RtcpActionView {
    RetransmitSequence(u16),
    KeyFrameRequest { kind: KeyFrameRequestKind, media_ssrc: u32 },
    SenderReport { report: SenderReportView },
    ReceiverReportObserved { ssrc: u32, max_fraction_lost: u8, report_count: u16 },
    TransportWideCcObserved { media_ssrc: u32, packet_status_count: u16 },
}

impl View for RtcpForwardAction {
    type V = RtcpActionView;

    open spec fn view(&self) -> RtcpActionView {
        match *self {
            RtcpForwardAction::RetransmitSequence(number) => RtcpActionView::RetransmitSequence(
                number,
            ),
            RtcpForwardAction::KeyFrameRequest {
                kind,
                media_ssrc,
            } => RtcpActionView::KeyFrameRequest { kind, media_ssrc },
            RtcpForwardAction::SenderReport { report } => RtcpActionView::SenderReport {
                report: report@,
            },
            RtcpForwardAction::ReceiverReportObserved {
                ssrc,
                max_fraction_lost,
                report_count,
            } => RtcpActionView::ReceiverReportObserved { ssrc, max_fraction_lost, report_count },
            RtcpForwardAction::TransportWideCcObserved {
                media_ssrc,
                packet_status_count,
            } => RtcpActionView::TransportWideCcObserved { media_ssrc, packet_status_count },
        }
    }
}

/// The contents of the packets.
pub open spec fn packet_views(packets: Seq<RtcpPacket>) -> Seq<RtcpPacketView> {
    packets.map_values(|packet: RtcpPacket| packet@)
}

/// The contents of the actions.
pub open spec fn action_views(actions: Seq<RtcpForwardAction>) -> Seq<RtcpActionView> {
    actions.map_values(|action: RtcpForwardAction| action@)
}

/// The contents of the reports.
pub open spec fn report_views(reports: Seq<SenderReport>) -> Seq<SenderReportView> {
    reports.map_values(|report: SenderReport| report@)
}

/// The contents of the media packets.
pub open spec fn rtp_views(packets: Seq<RtpPacket>) -> Seq<RtpPacketView> {
    packets.map_values(|packet: RtpPacket| packet@)
}

/// The greatest loss of the reports, zero if there are none.
pub open spec fn greatest_loss(reports: Seq<ReceptionReport>) -> u8
    decreases reports.len(),
{
    if reports.len() == 0 {
        0
    } else {
        let before = greatest_loss(reports.drop_last());
        if reports.last().fraction_lost > before {
            reports.last().fraction_lost
        } else {
            before
        }
    }
}

/// The retransmissions that the pairs ask for.
pub open spec fn retransmissions(nacks: Seq<NackPair>) -> Seq<RtcpActionView>
    decreases nacks.len(),
{
    if nacks.len() == 0 {
        Seq::empty()
    } else {
        retransmissions(nacks.drop_last()) + nacked_numbers(nacks.last()).map_values(
            |number: u16| RtcpActionView::RetransmitSequence(number),
        )
    }
}

/// The actions for one packet.
pub open spec fn packet_actions(packet: RtcpPacketView) -> Seq<RtcpActionView> {
    match packet {
        RtcpPacketView::Nack { nacks } => retransmissions(nacks),
        RtcpPacketView::Pli { media_ssrc } => seq![
            RtcpActionView::KeyFrameRequest { kind: KeyFrameRequestKind::Pli, media_ssrc },
        ],
        RtcpPacketView::Fir { media_ssrc } => seq![
            RtcpActionView::KeyFrameRequest { kind: KeyFrameRequestKind::Fir, media_ssrc },
        ],
        RtcpPacketView::SenderReport { report } => seq![RtcpActionView::SenderReport { report }],
        RtcpPacketView::ReceiverReport { ssrc, reports } => seq![
            RtcpActionView::ReceiverReportObserved {
                ssrc,
                max_fraction_lost: greatest_loss(reports),
                report_count: (reports.len() % 0x1_0000) as u16,
            },
        ],
        RtcpPacketView::TransportWideCc { media_ssrc, packet_status_count } => seq![
            RtcpActionView::TransportWideCcObserved { media_ssrc, packet_status_count },
        ],
        RtcpPacketView::Other => Seq::empty(),
    }
}

/// The actions for the packets, in their order.
pub open spec fn actions_of(packets: Seq<RtcpPacketView>) -> Seq<RtcpActionView>
    decreases packets.len(),
{
    if packets.len() == 0 {
        Seq::empty()
    } else {
        actions_of(packets.drop_last()) + packet_actions(packets.last())
    }
}

fn max_fraction_lost(reports: &Vec<ReceptionReport>) -> (loss: u8)
    ensures
        loss == greatest_loss(reports@),
{
    let mut loss: u8 = 0;
    let mut i: usize = 0;
    while i < reports.len()
        invariant
            i <= reports@.len(),
            loss == greatest_loss(reports@.take(i as int)),
        decreases reports.len() - i,
    {
        if reports[i].fraction_lost > loss {
            loss = reports[i].fraction_lost;
        }
        i += 1;
        assert(reports@.take(i as int).drop_last() =~= reports@.take(i - 1));
    }
    assert(reports@.take(i as int) =~= reports@);
    loss
}

fn push_retransmissions(actions: &mut Vec<RtcpForwardAction>, nacks: &Vec<NackPair>)
    ensures
        action_views(final(actions)@) == action_views(old(actions)@) + retransmissions(nacks@),
{
    let ghost before = action_views(actions@);
    let mut i: usize = 0;
    assert(action_views(actions@) =~= before + retransmissions(nacks@.take(0)));
    while i < nacks.len()
        invariant
            i <= nacks@.len(),
            action_views(actions@) == before + retransmissions(nacks@.take(i as int)),
        decreases nacks.len() - i,
    {
        let numbers: Vec<u16> = packet_list(nacks[i]);
        let ghost so_far = action_views(actions@);
        let ghost asked = |number: u16| RtcpActionView::RetransmitSequence(number);
        let mut j: usize = 0;
        assert(action_views(actions@) =~= so_far + numbers@.take(0).map_values(asked));
        while j < numbers.len()
            invariant
                j <= numbers@.len(),
                asked == (|number: u16| RtcpActionView::RetransmitSequence(number)),
                action_views(actions@) == so_far + numbers@.take(j as int).map_values(asked),
            decreases numbers.len() - j,
        {
            let ghost earlier = actions@;
            actions.push(RtcpForwardAction::RetransmitSequence(numbers[j]));
            j += 1;
            assert(action_views(actions@) =~= action_views(earlier).push(asked(numbers@[j - 1])));
            assert(numbers@.take(j as int) =~= numbers@.take(j - 1).push(numbers@[j - 1]));
            assert(action_views(actions@) =~= so_far + numbers@.take(j as int).map_values(asked));
        }
        assert(numbers@.take(j as int) =~= numbers@);
        i += 1;
        assert(nacks@.take(i as int).drop_last() =~= nacks@.take(i - 1));
        assert(nacks@.take(i as int).last() == nacks@[i - 1]);
        assert(action_views(actions@) =~= before + retransmissions(nacks@.take(i as int)));
    }
    assert(nacks@.take(i as int) =~= nacks@);
}

/// The actions for control packets of a subscriber: retransmissions, key frame requests, sender
/// reports to rewrite, and feedback to take note of.
pub fn derive_rtcp_forward_actions(packets: &[RtcpPacket]) -> (actions: Vec<RtcpForwardAction>)
    ensures
        action_views(actions@) == actions_of(packet_views(packets@)),
{
    let mut actions: Vec<RtcpForwardAction> = Vec::new();
    let mut i: usize = 0;
    assert(action_views(actions@) =~= actions_of(packet_views(packets@.take(0))));
    while i < packets.len()
        invariant
            i <= packets@.len(),
            action_views(actions@) == actions_of(packet_views(packets@.take(i as int))),
        decreases packets.len() - i,
    {
        let ghost before = action_views(actions@);
        let packet = &packets[i];
        match packet {
            RtcpPacket::Nack { nacks } => {
                push_retransmissions(&mut actions, nacks);
            },
            RtcpPacket::Pli { media_ssrc } => {
                actions.push(
                    RtcpForwardAction::KeyFrameRequest {
                        kind: KeyFrameRequestKind::Pli,
                        media_ssrc: *media_ssrc,
                    },
                );
            },
            RtcpPacket::Fir { media_ssrc } => {
                actions.push(
                    RtcpForwardAction::KeyFrameRequest {
                        kind: KeyFrameRequestKind::Fir,
                        media_ssrc: *media_ssrc,
                    },
                );
            },
            RtcpPacket::SenderReport { report } => {
                actions.push(RtcpForwardAction::SenderReport { report: report.duplicate() });
            },
            RtcpPacket::ReceiverReport { ssrc, reports } => {
                actions.push(
                    RtcpForwardAction::ReceiverReportObserved {
                        ssrc: *ssrc,
                        max_fraction_lost: max_fraction_lost(reports),
                        report_count: (reports.len() % 0x1_0000) as u16,
                    },
                );
            },
            RtcpPacket::TransportWideCc { media_ssrc, packet_status_count } => {
                actions.push(
                    RtcpForwardAction::TransportWideCcObserved {
                        media_ssrc: *media_ssrc,
                        packet_status_count: *packet_status_count,
                    },
                );
            },
            RtcpPacket::Other => {},
        }
        i += 1;
        proof {
            let views = packet_views(packets@.take(i as int));
            assert(views.drop_last() =~= packet_views(packets@.take(i - 1)));
            assert(views.last() == packet@);
            assert(action_views(actions@) =~= before + packet_actions(packet@));
        }
    }
    assert(packets@.take(i as int) =~= packets@);
    actions
}

/// A key frame request that is passed on.
#[derive(Debug, Clone, Copy, PartialEq, Eq, Structural)]
pub struct KeyframeFeedbackRequest {
    pub kind: KeyFrameRequestKind,
    pub media_ssrc: u32,
    pub fir_sequence_number: Option<u8>,
}

/// What is to be done about control packets.
#[derive(Debug)]
pub struct RtcpExecutionPlan {
    pub retransmit_packets: Vec<RtpPacket>,
    pub keyframe_requests: Vec<KeyframeFeedbackRequest>,
    pub rewritten_sender_reports: Vec<SenderReport>,
    pub media_feedback: MediaFeedbackSummary,
    pub recommended_video_quality: Option<RecommendedVideoQuality>,
}

/// The contents of an [`RtcpExecutionPlan`].
#[verifier::ext_equal]
pub struct PlanView {
    pub retransmit_packets: Seq<RtpPacketView>,
    pub keyframe_requests: Seq<KeyframeFeedbackRequest>,
    pub rewritten_sender_reports: Seq<SenderReportView>,
    pub media_feedback: MediaFeedbackSummary,
    pub recommended_video_quality: Option<RecommendedVideoQuality>,
}

impl View for RtcpExecutionPlan {
    type V = PlanView;

    open spec fn view(&self) -> PlanView {
        PlanView {
            retransmit_packets: rtp_views(self.retransmit_packets@),
            keyframe_requests: self.keyframe_requests@,
            rewritten_sender_reports: report_views(self.rewritten_sender_reports@),
            media_feedback: self.media_feedback,
            recommended_video_quality: self.recommended_video_quality,
        }
    }
}

/// The plan so far, and the state of the subscriber.
#[verifier::ext_equal]
pub struct Progress {
    pub state: SubscriberView,
    pub retransmit_packets: Seq<RtpPacketView>,
    pub keyframe_requests: Seq<KeyframeFeedbackRequest>,
    pub rewritten_sender_reports: Seq<SenderReportView>,
}

/// The report with the source and the timestamp that were mapped.
pub open spec fn rewritten_report(
    report: SenderReportView,
    mapped: MappedSenderReport,
) -> SenderReportView {
    SenderReportView { ssrc: mapped.ssrc, rtp_time: mapped.rtp_timestamp, ..report }
}

impl Progress {
    /// Nothing is planned.
    pub open spec fn start(state: SubscriberView) -> Self {
        Progress {
            state,
            retransmit_packets: Seq::empty(),
            keyframe_requests: Seq::empty(),
            rewritten_sender_reports: Seq::empty(),
        }
    }

    /// A retransmission adds the packet, if it can be sent again.
    pub open spec fn with_retransmission(self, number: u16) -> Self {
        match self.state.resent(number) {
            Some(packet) => Progress {
                retransmit_packets: self.retransmit_packets.push(packet),
                ..self
            },
            None => self,
        }
    }

    /// A key frame request is passed on, unless one of its kind was too recently. A full intra
    /// request is numbered.
    pub open spec fn with_key_frame_request(
        self,
        kind: KeyFrameRequestKind,
        media_ssrc: u32,
        now_millis: u64,
    ) -> Self {
        let state = self.state.after_key_frame_request(
            kind,
            now_millis,
            KEYFRAME_REQUEST_MIN_GAP_MILLIS,
        );
        if !self.state.gate.passes(kind, now_millis, KEYFRAME_REQUEST_MIN_GAP_MILLIS) {
            Progress { state, ..self }
        } else if kind == KeyFrameRequestKind::Fir {
            Progress {
                state: state.after_fir(media_ssrc),
                keyframe_requests: self.keyframe_requests.push(
                    KeyframeFeedbackRequest {
                        kind,
                        media_ssrc,
                        fir_sequence_number: Some(state.next_fir(media_ssrc)),
                    },
                ),
                ..self
            }
        } else {
            Progress {
                state,
                keyframe_requests: self.keyframe_requests.push(
                    KeyframeFeedbackRequest { kind, media_ssrc, fir_sequence_number: None },
                ),
                ..self
            }
        }
    }

    /// A sender report is rewritten.
    pub open spec fn with_sender_report(self, report: SenderReportView) -> Self {
        Progress {
            state: self.state.after_sender_report(report.ssrc, report.rtp_time),
            rewritten_sender_reports: self.rewritten_sender_reports.push(
                rewritten_report(
                    report,
                    MappedSenderReport {
                        ssrc: report.ssrc,
                        rtp_timestamp: self.state.reports.mapped(report.ssrc, report.rtp_time),
                    },
                ),
            ),
            ..self
        }
    }

    /// The plan after an action.
    pub open spec fn after(self, action: RtcpActionView, now_millis: u64) -> Self {
        match action {
            RtcpActionView::RetransmitSequence(number) => self.with_retransmission(number),
            RtcpActionView::KeyFrameRequest {
                kind,
                media_ssrc,
            } => self.with_key_frame_request(kind, media_ssrc, now_millis),
            RtcpActionView::SenderReport { report } => self.with_sender_report(report),
            RtcpActionView::ReceiverReportObserved {
                ssrc,
                max_fraction_lost,
                report_count,
            } => Progress {
                state: self.state.after_receiver_report(
                    now_millis,
                    ssrc,
                    max_fraction_lost,
                    report_count,
                ),
                ..self
            },
            RtcpActionView::TransportWideCcObserved {
                media_ssrc,
                packet_status_count,
            } => Progress {
                state: self.state.after_transport_wide_cc(
                    now_millis,
                    media_ssrc,
                    packet_status_count,
                ),
                ..self
            },
        }
    }
}

/// The plan for the actions, one after the other.
pub open spec fn progress(
    state: SubscriberView,
    actions: Seq<RtcpActionView>,
    now_millis: u64,
) -> Progress
    decreases actions.len(),
{
    if actions.len() == 0 {
        Progress::start(state)
    } else {
        progress(state, actions.drop_last(), now_millis).after(actions.last(), now_millis)
    }
}

/// The time in milliseconds, zero where it is negative.
pub open spec fn clamped_time(now_millis: i64) -> u64 {
    if now_millis < 0 {
        0
    } else {
        now_millis as u64
    }
}

/// The whole plan: what the actions ask for, and what the feedback then says.
pub open spec fn planned(
    state: SubscriberView,
    actions: Seq<RtcpActionView>,
    now_millis: i64,
) -> PlanView {
    let now = clamped_time(now_millis);
    let done = progress(state, actions, now);
    PlanView {
        retransmit_packets: done.retransmit_packets,
        keyframe_requests: done.keyframe_requests,
        rewritten_sender_reports: done.rewritten_sender_reports,
        media_feedback: done.state.summary(now),
        recommended_video_quality: done.state.after_summary(now).recommendation(now),
    }
}

/// The state of the subscriber after the plan was made.
pub open spec fn state_after_plan(
    state: SubscriberView,
    actions: Seq<RtcpActionView>,
    now_millis: i64,
) -> SubscriberView {
    let now = clamped_time(now_millis);
    progress(state, actions, now).state.after_summary(now).after_recommendation(now)
}

fn request_key_frame(
    key: &ForwardTrackKey,
    kind: KeyFrameRequestKind,
    media_ssrc: u32,
    rtp_forwarding: &mut RtpForwardingStore,
    now_millis: u64,
) -> (request: Option<KeyframeFeedbackRequest>)
    requires
        old(rtp_forwarding).wf(),
    ensures
        final(rtp_forwarding).wf(),
        forall|before: Progress|
            #![trigger before.with_key_frame_request(kind, media_ssrc, now_millis)]
            before.state == crate::rtp_forwarding::state_of(old(rtp_forwarding)@, key.parts()) ==> {
                let after = before.with_key_frame_request(kind, media_ssrc, now_millis);
                &&& final(rtp_forwarding)@ == old(rtp_forwarding)@.insert(key.parts(), after.state)
                &&& after.keyframe_requests == match request {
                    Some(request) => before.keyframe_requests.push(request),
                    None => before.keyframe_requests,
                }
                &&& after.retransmit_packets == before.retransmit_packets
                &&& after.rewritten_sender_reports == before.rewritten_sender_reports
            },
{
    if !rtp_forwarding.should_forward_keyframe_request(
        key,
        kind,
        now_millis,
        KEYFRAME_REQUEST_MIN_GAP_MILLIS,
    ) {
        return None;
    }
    let fir_sequence_number: Option<u8> = if kind == KeyFrameRequestKind::Fir {
        Some(rtp_forwarding.next_fir_sequence_number(key, media_ssrc))
    } else {
        None
    };
    Some(KeyframeFeedbackRequest { kind, media_ssrc, fir_sequence_number })
}

/// Plans what is done about the actions of a subscriber, and takes note of its feedback.
pub fn build_rtcp_execution_plan(
    key: &ForwardTrackKey,
    actions: &[RtcpForwardAction],
    rtp_forwarding: &mut RtpForwardingStore,
    now_millis: i64,
) -> (plan: RtcpExecutionPlan)
    requires
        old(rtp_forwarding).wf(),
    ensures
        final(rtp_forwarding).wf(),
        plan@ == planned(
            crate::rtp_forwarding::state_of(old(rtp_forwarding)@, key.parts()),
            action_views(actions@),
            now_millis,
        ),
        final(rtp_forwarding)@ == old(rtp_forwarding)@.insert(
            key.parts(),
            state_after_plan(
                crate::rtp_forwarding::state_of(old(rtp_forwarding)@, key.parts()),
                action_views(actions@),
                now_millis,
            ),
        ),
{
    let now: u64 = if now_millis < 0 {
        0
    } else {
        now_millis as u64
    };
    let ghost before = rtp_forwarding@;
    let ghost state = crate::rtp_forwarding::state_of(before, key.parts());
    let mut retransmit_packets: Vec<RtpPacket> = Vec::new();
    let mut keyframe_requests: Vec<KeyframeFeedbackRequest> = Vec::new();
    let mut rewritten_sender_reports: Vec<SenderReport> = Vec::new();
    let ghost mut done = Progress::start(state);
    let mut i: usize = 0;
    assert(rtp_views(retransmit_packets@) =~= done.retransmit_packets);
    assert(report_views(rewritten_sender_reports@) =~= done.rewritten_sender_reports);
    assert(keyframe_requests@ =~= done.keyframe_requests);
    while i < actions.len()
        invariant
            i <= actions@.len(),
            rtp_forwarding.wf(),
            done == progress(state, action_views(actions@.take(i as int)), now),
            done.state == crate::rtp_forwarding::state_of(rtp_forwarding@, key.parts()),
            rtp_forwarding@.remove(key.parts()) == before.remove(key.parts()),
            rtp_views(retransmit_packets@) == done.retransmit_packets,
            keyframe_requests@ == done.keyframe_requests,
            report_views(rewritten_sender_reports@) == done.rewritten_sender_reports,
        decreases actions.len() - i,
    {
        let ghost so_far = done;
        let ghost stored = rtp_forwarding@;
        let action = &actions[i];
        proof {
            done = so_far.after(action@, now);
        }
        match action {
            RtcpForwardAction::RetransmitSequence(outgoing_sequence_number) => {
                if let Some(packet) = rtp_forwarding.get_retransmission_packet(
                    key,
                    *outgoing_sequence_number,
                ) {
                    retransmit_packets.push(packet);
                }
                assert(rtp_views(retransmit_packets@) =~= done.retransmit_packets);
            },
            RtcpForwardAction::KeyFrameRequest { kind, media_ssrc } => {
                assert(done == so_far.with_key_frame_request(*kind, *media_ssrc, now));
                if let Some(request) = request_key_frame(
                    key,
                    *kind,
                    *media_ssrc,
                    rtp_forwarding,
                    now,
                ) {
                    keyframe_requests.push(request);
                }
            },
            RtcpForwardAction::SenderReport { report } => {
                let mapped: MappedSenderReport = rtp_forwarding.map_sender_report(
                    key,
                    report.ssrc,
                    report.rtp_time,
                );
                rewritten_sender_reports.push(rewrite_sender_report_packet(report, mapped));
                assert(report_views(rewritten_sender_reports@)
                    =~= done.rewritten_sender_reports);
            },
            RtcpForwardAction::ReceiverReportObserved {
                ssrc,
                max_fraction_lost,
                report_count,
            } => {
                rtp_forwarding.observe_receiver_report(
                    key,
                    now,
                    *ssrc,
                    *max_fraction_lost,
                    *report_count,
                );
            },
            RtcpForwardAction::TransportWideCcObserved { media_ssrc, packet_status_count } => {
                rtp_forwarding.observe_transport_wide_cc(
                    key,
                    now,
                    *media_ssrc,
                    *packet_status_count,
                );
            },
        }
        i += 1;
        proof {
            let views = action_views(actions@.take(i as int));
            assert(views.drop_last() =~= action_views(actions@.take(i - 1)));
            assert(views.last() == action@);
            assert(rtp_forwarding@.remove(key.parts()) =~= stored.remove(key.parts()));
        }
    }
    assert(actions@.take(i as int) =~= actions@);
    let ghost stored = rtp_forwarding@;
    let media_feedback: MediaFeedbackSummary = rtp_forwarding.media_feedback_summary(key, now);
    let recommended_video_quality: Option<RecommendedVideoQuality> =
        rtp_forwarding.recommend_video_quality(key, now);
    proof {
        let after = state_after_plan(state, action_views(actions@), now_millis);
        assert(stored.insert(key.parts(), after) =~= stored.remove(key.parts()).insert(
            key.parts(),
            after,
        ));
        assert(before.insert(key.parts(), after) =~= before.remove(key.parts()).insert(
            key.parts(),
            after,
        ));
        assert(rtp_forwarding@ =~= stored.insert(key.parts(), after));
    }
    RtcpExecutionPlan {
        retransmit_packets,
        keyframe_requests,
        rewritten_sender_reports,
        media_feedback,
        recommended_video_quality,
    }
}

/// A source, and the number of a full intra request for it.
#[derive(Debug, Clone, Copy, PartialEq, Eq, Structural)]
pub struct FirEntry {
    pub ssrc: u32,
    pub sequence_number: u8,
}

/// A key frame request as it is sent to the publisher.
#[derive(Debug, Clone, Copy, PartialEq, Eq, Structural)]
pub enum KeyframeFeedbackPacket {
    PictureLossIndication { sender_ssrc: u32, media_ssrc: u32 },
    FullIntraRequest { sender_ssrc: u32, media_ssrc: u32, fir: FirEntry },
}

/// The packet of a request. It names no sender.
pub open spec fn feedback_packet(request: KeyframeFeedbackRequest) -> KeyframeFeedbackPacket {
    match request.kind {
        KeyFrameRequestKind::Pli => KeyframeFeedbackPacket::PictureLossIndication {
            sender_ssrc: 0,
            media_ssrc: request.media_ssrc,
        },
        KeyFrameRequestKind::Fir => KeyframeFeedbackPacket::FullIntraRequest {
            sender_ssrc: 0,
            media_ssrc: request.media_ssrc,
            fir: FirEntry {
                ssrc: request.media_ssrc,
                sequence_number: match request.fir_sequence_number {
                    Some(number) => number,
                    None => 0,
                },
            },
        },
    }
}

/// What is sent because of control packets.
#[derive(Debug)]
pub struct RtcpOutboundEffects {
    pub retransmit_packets: Vec<RtpPacket>,
    pub feedback_packets: Vec<KeyframeFeedbackPacket>,
    pub sender_report_packets: Vec<SenderReport>,
    pub recommended_video_quality: Option<RecommendedVideoQuality>,
}

/// The contents of [`RtcpOutboundEffects`].
#[verifier::ext_equal]
pub struct EffectsView {
    pub retransmit_packets: Seq<RtpPacketView>,
    pub feedback_packets: Seq<KeyframeFeedbackPacket>,
    pub sender_report_packets: Seq<SenderReportView>,
    pub recommended_video_quality: Option<RecommendedVideoQuality>,
}

impl View for RtcpOutboundEffects {
    type V = EffectsView;

    open spec fn view(&self) -> EffectsView {
        EffectsView {
            retransmit_packets: rtp_views(self.retransmit_packets@),
            feedback_packets: self.feedback_packets@,
            sender_report_packets: report_views(self.sender_report_packets@),
            recommended_video_quality: self.recommended_video_quality,
        }
    }
}

/// The effects of a plan.
pub open spec fn effects_of(plan: PlanView) -> EffectsView {
    EffectsView {
        retransmit_packets: plan.retransmit_packets,
        feedback_packets: plan.keyframe_requests.map_values(
            |request: KeyframeFeedbackRequest| feedback_packet(request),
        ),
        sender_report_packets: plan.rewritten_sender_reports,
        recommended_video_quality: plan.recommended_video_quality,
    }
}

/// Plans what is done about the actions of a subscriber, and builds the packets for it.
pub fn build_rtcp_outbound_effects(
    key: &ForwardTrackKey,
    actions: &[RtcpForwardAction],
    rtp_forwarding: &mut RtpForwardingStore,
    now_millis: i64,
) -> (effects: RtcpOutboundEffects)
    requires
        old(rtp_forwarding).wf(),
    ensures
        final(rtp_forwarding).wf(),
        effects@ == effects_of(
            planned(
                crate::rtp_forwarding::state_of(old(rtp_forwarding)@, key.parts()),
                action_views(actions@),
                now_millis,
            ),
        ),
        final(rtp_forwarding)@ == old(rtp_forwarding)@.insert(
            key.parts(),
            state_after_plan(
                crate::rtp_forwarding::state_of(old(rtp_forwarding)@, key.parts()),
                action_views(actions@),
                now_millis,
            ),
        ),
{
    let plan: RtcpExecutionPlan = build_rtcp_execution_plan(
        key,
        actions,
        rtp_forwarding,
        now_millis,
    );
    let ghost sent = |request: KeyframeFeedbackRequest| feedback_packet(request);
    let mut feedback_packets: Vec<KeyframeFeedbackPacket> = Vec::new();
    let mut i: usize = 0;
    while i < plan.keyframe_requests.len()
        invariant
            i <= plan.keyframe_requests@.len(),
            sent == (|request: KeyframeFeedbackRequest| feedback_packet(request)),
            feedback_packets@ == plan.keyframe_requests@.take(i as int).map_values(sent),
        decreases plan.keyframe_requests.len() - i,
    {
        feedback_packets.push(build_keyframe_feedback_packet(&plan.keyframe_requests[i]));
        i += 1;
        assert(feedback_packets@ =~= plan.keyframe_requests@.take(i as int).map_values(sent));
    }
    assert(plan.keyframe_requests@.take(i as int) =~= plan.keyframe_requests@);
    RtcpOutboundEffects {
        retransmit_packets: plan.retransmit_packets,
        feedback_packets,
        sender_report_packets: plan.rewritten_sender_reports,
        recommended_video_quality: plan.recommended_video_quality,
    }
}

/// A sender report with the source and the timestamp that were mapped.
pub fn rewrite_sender_report_packet(original: &SenderReport, mapped: MappedSenderReport) -> (
rewritten: SenderReport)
    ensures
        rewritten@ == rewritten_report(original@, mapped),
{
    let mut rewritten: SenderReport = original.duplicate();
    rewritten.ssrc = mapped.ssrc;
    rewritten.rtp_time = mapped.rtp_timestamp;
    rewritten
}

/// The packet of a key frame request.
pub fn build_keyframe_feedback_packet(request: &KeyframeFeedbackRequest) -> (packet:
    KeyframeFeedbackPacket)
    ensures
        packet == feedback_packet(*request),
{
    match request.kind {
        KeyFrameRequestKind::Pli => KeyframeFeedbackPacket::PictureLossIndication {
            sender_ssrc: 0,
            media_ssrc: request.media_ssrc,
        },
        KeyFrameRequestKind::Fir => {
            let sequence_number: u8 = match request.fir_sequence_number {
                Some(number) => number,
                None => 0,
            };
            KeyframeFeedbackPacket::FullIntraRequest {
                sender_ssrc: 0,
                media_ssrc: request.media_ssrc,
                fir: FirEntry { ssrc: request.media_ssrc, sequence_number },
            }
        },
    }
}

/// Packets that come together are acted on as if they came one after the other.
pub proof fn law_batches_can_be_joined(first: Seq<RtcpPacketView>, second: Seq<RtcpPacketView>)
    ensures
        actions_of(first + second) == actions_of(first) + actions_of(second),
    decreases second.len(),
{
    if second.len() == 0 {
        assert(first + second =~= first);
        assert(actions_of(first) + actions_of(second) =~= actions_of(first));
    } else {
        law_batches_can_be_joined(first, second.drop_last());
        assert((first + second).drop_last() =~= first + second.drop_last());
        assert(actions_of(first + second) =~= actions_of(first) + actions_of(second));
    }
}

/// A packet that was forwarded and is then reported lost goes out again as it went out first.
pub proof fn law_lost_packet_goes_out_again(
    state: SubscriberView,
    packet: RtpPacketView,
    target_ssrc: Option<u32>,
    payload_type: Option<u8>,
    now_millis: i64,
)
    requires
        state.sent.wf(),
        state.sent.keys.len() <= crate::rtp_forwarding::RTP_RETRANSMISSION_CACHE_SIZE,
        state.forwarded(packet, target_ssrc, payload_type) is Some,
    ensures
        ({
            let sent = state.forwarded(packet, target_ssrc, payload_type)->0;
            let nack = RtcpPacketView::Nack {
                nacks: seq![NackPair { packet_id: sent.sequence_number, lost_packets: 0 }],
            };
            planned(
                state.after_packet(packet, target_ssrc, payload_type),
                actions_of(seq![nack]),
                now_millis,
            ).retransmit_packets == seq![sent]
        }),
{
    let sent = state.forwarded(packet, target_ssrc, payload_type)->0;
    let after = state.after_packet(packet, target_ssrc, payload_type);
    let number = sent.sequence_number;
    crate::rtp_forwarding::law_forwarded_packet_is_sent_again(
        state,
        packet,
        target_ssrc,
        payload_type,
    );
    let nacks = seq![NackPair { packet_id: number, lost_packets: 0 }];
    let nack = RtcpPacketView::Nack { nacks };
    lemma_empty_mask(number, 0);
    assert(nacked_numbers(nacks[0]) =~= seq![number]);
    let asked = |number: u16| RtcpActionView::RetransmitSequence(number);
    assert(retransmissions(nacks.drop_last()) =~= Seq::empty());
    assert(retransmissions(nacks) =~= seq![number].map_values(asked));
    assert(actions_of(seq![nack].drop_last()) =~= Seq::empty());
    assert(actions_of(seq![nack]) =~= seq![RtcpActionView::RetransmitSequence(number)]);
    let actions = actions_of(seq![nack]);
    let now = clamped_time(now_millis);
    assert(progress(after, actions.drop_last(), now) == Progress::start(after));
    assert(progress(after, actions, now).retransmit_packets =~= seq![sent]);
}

proof fn lemma_empty_mask(packet_id: u16, from: u16)
    ensures
        masked_numbers(packet_id, 0, from) == Seq::<u16>::empty(),
    decreases 16 - from,
{
    if from < 16 {
        assert(0u16 & (1u16 << from) == 0) by (bit_vector);
        lemma_empty_mask(packet_id, (from + 1) as u16);
    }
}

/// Of two key frame requests of one kind that are passed on one after the other, the second is
/// at least the gap later, whatever sources they are for.
pub proof fn law_key_frame_requests_are_throttled(
    done: Progress,
    kind: KeyFrameRequestKind,
    first_ssrc: u32,
    second_ssrc: u32,
    first_millis: u64,
    second_millis: u64,
)
    requires
        done.with_key_frame_request(kind, first_ssrc, first_millis).keyframe_requests
            != done.keyframe_requests,
        first_millis <= second_millis < first_millis + KEYFRAME_REQUEST_MIN_GAP_MILLIS,
    ensures
        done.with_key_frame_request(
            kind,
            first_ssrc,
            first_millis,
        ).with_key_frame_request(kind, second_ssrc, second_millis).keyframe_requests
            == done.with_key_frame_request(kind, first_ssrc, first_millis).keyframe_requests,
{
}

/// Full intra requests for one source that are passed on are numbered one after the other.
pub proof fn law_full_intra_requests_count_up(
    done: Progress,
    media_ssrc: u32,
    first_millis: u64,
    second_millis: u64,
)
    requires
        done.state.gate.passes(
            KeyFrameRequestKind::Fir,
            first_millis,
            KEYFRAME_REQUEST_MIN_GAP_MILLIS,
        ),
        second_millis >= first_millis + KEYFRAME_REQUEST_MIN_GAP_MILLIS,
    ensures
        ({
            let one = done.with_key_frame_request(
                KeyFrameRequestKind::Fir,
                media_ssrc,
                first_millis,
            );
            let two = one.with_key_frame_request(
                KeyFrameRequestKind::Fir,
                media_ssrc,
                second_millis,
            );
            &&& one.keyframe_requests.last().fir_sequence_number == Some(
                done.state.next_fir(media_ssrc),
            )
            &&& two.keyframe_requests.last().fir_sequence_number == Some(
                done.state.next_fir(media_ssrc).wrapping_add(1),
            )
        }),
{
}

/// A pair asks for its own number first, and for a number up to sixteen after it exactly where the
/// bit of that number is set.
pub proof fn law_pair_asks_for_the_set_bits(pair: NackPair, distance: u16)
    requires
        1 <= distance <= 16,
    ensures
        nacked_numbers(pair)[0] == pair.packet_id,
        nacked_numbers(pair).contains(pair.packet_id.wrapping_add(distance))
            <==> pair.lost_packets & (1u16 << (distance - 1) as u16) != 0,
        pair.lost_packets == 0 ==> nacked_numbers(pair).len() == 1,
{
    lemma_masked_numbers(pair.packet_id, pair.lost_packets, 0, distance);
    let rest = masked_numbers(pair.packet_id, pair.lost_packets, 0);
    let number = pair.packet_id.wrapping_add(distance);
    assert(number != pair.packet_id);
    let all = nacked_numbers(pair);
    if rest.contains(number) {
        let i = choose|i: int| 0 <= i < rest.len() && rest[i] == number;
        assert(all[i + 1] == number);
    }
    if all.contains(number) {
        let i = choose|i: int| 0 <= i < all.len() && all[i] == number;
        assert(i > 0);
        assert(rest[i - 1] == number);
    }
    if pair.lost_packets == 0 {
        lemma_empty_mask(pair.packet_id, 0);
    }
}

proof fn lemma_masked_numbers(packet_id: u16, lost_packets: u16, from: u16, distance: u16)
    requires
        from <= 16,
        1 <= distance <= 16,
    ensures
        masked_numbers(packet_id, lost_packets, from).contains(packet_id.wrapping_add(distance))
            <==> from < distance && lost_packets & (1u16 << (distance - 1) as u16) != 0,
    decreases 16 - from,
{
    let number = packet_id.wrapping_add(distance);
    let all = masked_numbers(packet_id, lost_packets, from);
    if from < 16 {
        lemma_masked_numbers(packet_id, lost_packets, (from + 1) as u16, distance);
        let rest = masked_numbers(packet_id, lost_packets, (from + 1) as u16);
        if lost_packets & (1u16 << from) != 0 {
            let first = packet_id.wrapping_add((from + 1) as u16);
            assert(all == seq![first] + rest);
            assert(all[0] == first);
            if rest.contains(number) {
                let i = choose|i: int| 0 <= i < rest.len() && rest[i] == number;
                assert(all[i + 1] == number);
            }
            if all.contains(number) {
                let i = choose|i: int| 0 <= i < all.len() && all[i] == number;
                if i > 0 {
                    assert(rest[i - 1] == number);
                } else {
                    assert(first == number);
                    assert(from + 1 == distance);
                }
            }
        }
    }
}

/// The greatest loss is one of the reports, and none is greater.
pub proof fn law_greatest_loss_is_reported(reports: Seq<ReceptionReport>, i: int)
    ensures
        0 <= i < reports.len() ==> reports[i].fraction_lost <= greatest_loss(reports),
        reports.len() == 0 ==> greatest_loss(reports) == 0,
        reports.len() > 0 ==> exists|j: int|
            0 <= j < reports.len() && (#[trigger] reports[j]).fraction_lost == greatest_loss(
                reports,
            ),
    decreases reports.len(),
{
    if reports.len() > 0 {
        let front = reports.drop_last();
        law_greatest_loss_is_reported(front, i);
        if i == reports.len() - 1 {
            assert(reports[i] == reports.last());
        } else if 0 <= i < front.len() {
            assert(front[i] == reports[i]);
        }
        let last: int = reports.len() - 1;
        if greatest_loss(reports) == reports[last].fraction_lost {
            assert(reports[last].fraction_lost == greatest_loss(reports));
        } else {
            let j = choose|j: int|
                0 <= j < front.len() && (#[trigger] front[j]).fraction_lost == greatest_loss(front);
            assert(reports[j] == front[j]);
        }
    }
}

/// Every number that a pair asks for is to be sent again, in order, and what other pairs ask for
/// before or after it does not matter.
pub proof fn law_every_nacked_number_is_retransmitted(
    first: Seq<NackPair>,
    second: Seq<NackPair>,
    pair: NackPair,
    i: int,
)
    ensures
        retransmissions(first + second) == retransmissions(first) + retransmissions(second),
        retransmissions(seq![pair]).len() == nacked_numbers(pair).len(),
        0 <= i < nacked_numbers(pair).len() ==> retransmissions(seq![pair])[i]
            == RtcpActionView::RetransmitSequence(nacked_numbers(pair)[i]),
    decreases second.len(),
{
    reveal_with_fuel(retransmissions, 2);
    assert(seq![pair].drop_last() =~= Seq::<NackPair>::empty());
    if second.len() == 0 {
        assert(first + second =~= first);
        assert(retransmissions(first) + retransmissions(second) =~= retransmissions(first));
    } else {
        assert((first + second).drop_last() =~= first + second.drop_last());
        law_every_nacked_number_is_retransmitted(first, second.drop_last(), pair, i);
        assert(retransmissions(first + second) =~= retransmissions(first) + retransmissions(
            second,
        ));
    }
}

/// A key frame request is passed on with its kind and its source, a report is passed on or summed
/// up, and an unknown packet is passed over.
pub proof fn law_packets_ask_for_what_they_are(
    media_ssrc: u32,
    report: SenderReportView,
    reports: Seq<ReceptionReport>,
    count: u16,
)
    requires
        reports.len() < 0x1_0000,
    ensures
        packet_actions(RtcpPacketView::Other).len() == 0,
        packet_actions(RtcpPacketView::Pli { media_ssrc }) == seq![
            RtcpActionView::KeyFrameRequest { kind: KeyFrameRequestKind::Pli, media_ssrc },
        ],
        packet_actions(RtcpPacketView::Fir { media_ssrc }) == seq![
            RtcpActionView::KeyFrameRequest { kind: KeyFrameRequestKind::Fir, media_ssrc },
        ],
        packet_actions(RtcpPacketView::SenderReport { report }) == seq![
            RtcpActionView::SenderReport { report },
        ],
        packet_actions(
            RtcpPacketView::TransportWideCc { media_ssrc, packet_status_count: count },
        ) == seq![
            RtcpActionView::TransportWideCcObserved { media_ssrc, packet_status_count: count },
        ],
        packet_actions(RtcpPacketView::ReceiverReport { ssrc: media_ssrc, reports }).len() == 1,
        packet_actions(RtcpPacketView::ReceiverReport { ssrc: media_ssrc, reports })[0] matches
            RtcpActionView::ReceiverReportObserved { ssrc, max_fraction_lost, report_count }
            && ssrc == media_ssrc && report_count == reports.len() && forall|i: int|
            0 <= i < reports.len() ==> (#[trigger] reports[i]).fraction_lost <= max_fraction_lost,
{
    assert forall|i: int| 0 <= i < reports.len() implies (#[trigger] reports[i]).fraction_lost
        <= greatest_loss(reports) by {
        law_greatest_loss_is_reported(reports, i);
    }
}

/// Actions are carried out one after the other, each in the state that the ones before it left.
pub proof fn law_actions_are_carried_out_in_order(
    state: SubscriberView,
    actions: Seq<RtcpActionView>,
    action: RtcpActionView,
    now_millis: u64,
)
    ensures
        progress(state, Seq::empty(), now_millis).state == state,
        progress(state, Seq::empty(), now_millis).retransmit_packets.len() == 0,
        progress(state, Seq::empty(), now_millis).keyframe_requests.len() == 0,
        progress(state, Seq::empty(), now_millis).rewritten_sender_reports.len() == 0,
        progress(state, actions.push(action), now_millis) == progress(
            state,
            actions,
            now_millis,
        ).after(action, now_millis),
{
    assert(actions.push(action).drop_last() =~= actions);
}

/// A packet that is asked for goes out again exactly where it is still known, as it is known, and
/// asking for it changes nothing of the subscriber.
pub proof fn law_known_packets_are_retransmitted(done: Progress, number: u16, now_millis: u64)
    ensures
        ({
            let after = done.after(RtcpActionView::RetransmitSequence(number), now_millis);
            &&& after.state == done.state
            &&& after.keyframe_requests == done.keyframe_requests
            &&& after.rewritten_sender_reports == done.rewritten_sender_reports
            &&& done.state.sent.values.contains_key(number) ==> after.retransmit_packets
                == done.retransmit_packets.push(done.state.sent.values[number])
            &&& !done.state.sent.values.contains_key(number) ==> after.retransmit_packets
                == done.retransmit_packets
        }),
{
}

/// A key frame request is passed on, for its source and with its kind, exactly where three hundred
/// milliseconds have passed since the last of its kind; only a full intra request is numbered.
pub proof fn law_key_frame_request_is_passed_on(
    done: Progress,
    kind: KeyFrameRequestKind,
    media_ssrc: u32,
    now_millis: u64,
)
    ensures
        ({
            let after = done.after(
                RtcpActionView::KeyFrameRequest { kind, media_ssrc },
                now_millis,
            );
            let last = match kind {
                KeyFrameRequestKind::Pli => done.state.gate.last_pli_millis,
                KeyFrameRequestKind::Fir => done.state.gate.last_fir_millis,
            };
            let due = last is None || (last matches Some(at) && at + 300 <= now_millis);
            &&& due ==> {
                &&& after.keyframe_requests.len() == done.keyframe_requests.len() + 1
                &&& after.keyframe_requests.last().kind == kind
                &&& after.keyframe_requests.last().media_ssrc == media_ssrc
                &&& after.keyframe_requests.last().fir_sequence_number is Some <==> kind
                    == KeyFrameRequestKind::Fir
                &&& kind == KeyFrameRequestKind::Pli ==> after.state.fir == done.state.fir
            }
            &&& !due ==> after == done
            &&& after.retransmit_packets == done.retransmit_packets
            &&& after.rewritten_sender_reports == done.rewritten_sender_reports
            &&& after.state.sent == done.state.sent
        }),
{
}

/// A sender report goes out with its source and its own counts and times, but for its timestamp,
/// which is mapped.
pub proof fn law_sender_report_goes_out(
    done: Progress,
    report: SenderReportView,
    now_millis: u64,
)
    ensures
        ({
            let after = done.after(RtcpActionView::SenderReport { report }, now_millis);
            let sent = after.rewritten_sender_reports.last();
            &&& after.rewritten_sender_reports.len() == done.rewritten_sender_reports.len() + 1
            &&& sent.ssrc == report.ssrc
            &&& sent.ntp_time == report.ntp_time
            &&& sent.packet_count == report.packet_count
            &&& sent.octet_count == report.octet_count
            &&& sent.reports == report.reports
            &&& sent.profile_extensions == report.profile_extensions
            &&& sent.rtp_time == done.state.reports.mapped(report.ssrc, report.rtp_time)
            &&& after.state.reports == done.state.reports.after(report.ssrc, report.rtp_time)
            &&& after.retransmit_packets == done.retransmit_packets
            &&& after.keyframe_requests == done.keyframe_requests
        }),
{
}

/// What a plan recommends is what its own feedback asks for, and is not what was recommended before.
pub proof fn law_plan_recommends_by_its_feedback(
    state: SubscriberView,
    actions: Seq<RtcpActionView>,
    now_millis: i64,
)
    requires
        now_millis >= 0,
    ensures
        ({
            let plan = planned(state, actions, now_millis);
            let done = progress(state, actions, now_millis as u64);
            let wanted = crate::rtp_forwarding::feedback::desired_quality(plan.media_feedback);
            &&& plan.retransmit_packets == done.retransmit_packets
            &&& plan.keyframe_requests == done.keyframe_requests
            &&& plan.rewritten_sender_reports == done.rewritten_sender_reports
            &&& plan.recommended_video_quality is Some ==> plan.recommended_video_quality == wanted
                && wanted != done.state.adaptation.last_recommended_quality
            &&& wanted is Some && done.state.adaptation.last_recommended_quality is None
                && done.state.adaptation.last_recommendation_millis is None
                ==> plan.recommended_video_quality == wanted
        }),
{
}

/// A time before the start counts as the start.
pub proof fn law_times_are_not_negative(now_millis: i64)
    ensures
        now_millis >= 0 ==> clamped_time(now_millis) == now_millis,
        now_millis < 0 ==> clamped_time(now_millis) == 0,
{
}

/// A request becomes a packet of its kind for its source; a full intra request names the source
/// once more, with its number.
pub proof fn law_request_becomes_a_packet(request: KeyframeFeedbackRequest)
    ensures
        request.kind == KeyFrameRequestKind::Pli ==> feedback_packet(request)
            == (KeyframeFeedbackPacket::PictureLossIndication {
            sender_ssrc: 0,
            media_ssrc: request.media_ssrc,
        }),
        request.kind == KeyFrameRequestKind::Fir ==> (feedback_packet(request) matches
            KeyframeFeedbackPacket::FullIntraRequest { sender_ssrc, media_ssrc, fir } && sender_ssrc
            == 0 && media_ssrc == request.media_ssrc && fir.ssrc == request.media_ssrc && (
        request.fir_sequence_number matches Some(number) ==> fir.sequence_number == number) && (
        request.fir_sequence_number is None ==> fir.sequence_number == 0)),
{
}

/// The effects of a plan are its packets, one feedback packet for each request, and its
/// recommendation.
pub proof fn law_effects_are_those_of_the_plan(plan: PlanView, i: int)
    ensures
        effects_of(plan).retransmit_packets == plan.retransmit_packets,
        effects_of(plan).sender_report_packets == plan.rewritten_sender_reports,
        effects_of(plan).recommended_video_quality == plan.recommended_video_quality,
        effects_of(plan).feedback_packets.len() == plan.keyframe_requests.len(),
        0 <= i < plan.keyframe_requests.len() ==> effects_of(plan).feedback_packets[i]
            == feedback_packet(plan.keyframe_requests[i]),
{
}

/// Reports that are only observed change the feedback of the subscriber, and plan nothing.
pub proof fn law_observed_reports_plan_nothing(
    done: Progress,
    now_millis: u64,
    source: u32,
    loss: u8,
    count: u16,
)
    ensures
        ({
            let after = done.after(
                RtcpActionView::ReceiverReportObserved {
                    ssrc: source,
                    max_fraction_lost: loss,
                    report_count: count,
                },
                now_millis,
            );
            &&& after.state.feedback == done.state.feedback.with_receiver_report(
                now_millis,
                source,
                loss,
                count,
            )
            &&& after.retransmit_packets == done.retransmit_packets
            &&& after.keyframe_requests == done.keyframe_requests
            &&& after.rewritten_sender_reports == done.rewritten_sender_reports
            &&& after.state.sent == done.state.sent
            &&& after.state.gate == done.state.gate
        }),
        ({
            let after = done.after(
                RtcpActionView::TransportWideCcObserved {
                    media_ssrc: source,
                    packet_status_count: count,
                },
                now_millis,
            );
            &&& after.state.feedback == done.state.feedback.with_transport_wide_cc(
                now_millis,
                source,
                count,
            )
            &&& after.retransmit_packets == done.retransmit_packets
            &&& after.keyframe_requests == done.keyframe_requests
            &&& after.rewritten_sender_reports == done.rewritten_sender_reports
            &&& after.state.sent == done.state.sent
            &&& after.state.gate == done.state.gate
        }),
{
}

/// After a plan the subscriber is as the actions left it, but that what was recommended is
/// remembered: the same plan again recommends nothing.
pub proof fn law_plan_is_remembered(
    state: SubscriberView,
    actions: Seq<RtcpActionView>,
    now_millis: i64,
)
    requires
        now_millis >= 0,
    ensures
        ({
            let after = state_after_plan(state, actions, now_millis);
            let done = progress(state, actions, now_millis as u64);
            &&& after.sent == done.state.sent
            &&& after.gate == done.state.gate
            &&& after.fir == done.state.fir
            &&& after.reports == done.state.reports
            &&& planned(state, actions, now_millis).recommended_video_quality matches Some(quality)
                ==> after.adaptation.last_recommended_quality == Some(quality)
                && after.adaptation.last_recommendation_millis == Some(now_millis as u64)
            &&& planned(state, actions, now_millis).recommended_video_quality is None
                ==> after.adaptation == done.state.adaptation
            &&& planned(after, Seq::empty(), now_millis).recommended_video_quality is None
                || planned(state, actions, now_millis).recommended_video_quality is None
        }),
{
}

} // verus!
