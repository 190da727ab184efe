//! What subscribers report of the streams that they get, and what it leads to.
use vstd::prelude::*;

verus! {

/// How long reports are summed up, in milliseconds.
pub const MEDIA_FEEDBACK_WINDOW_MILLIS: u64 = 5_000;

/// From this loss on, in 256ths, a stream is degraded.
pub const MEDIA_FEEDBACK_DEGRADED_FRACTION_LOST_THRESHOLD: u8 = 64;

/// From this loss on, in 256ths, a stream is not at its best.
pub const MEDIA_FEEDBACK_MODERATE_FRACTION_LOST_THRESHOLD: u8 = 24;

/// How many reports it takes to call a stream degraded.
pub const MEDIA_FEEDBACK_DEGRADED_MIN_REPORTS: u32 = 2;

/// How many reports it takes to recommend a better quality.
pub const MEDIA_FEEDBACK_RECOVERY_MIN_REPORTS: u32 = 2;

/// The time between two recommendations, in milliseconds.
pub const MEDIA_FEEDBACK_QUALITY_RECOMMENDATION_MIN_GAP_MILLIS: u64 = 2_000;

/// How a key frame is asked for.
#[derive(Debug, Clone, Copy, PartialEq, Eq, Structural)]
pub enum KeyFrameRequestKind {
    Pli,
    Fir,
}

/// When key frames were last asked for.
#[derive(Debug, Clone, Copy, PartialEq, Eq, Structural)]
pub struct KeyFrameRequestGate {
    pub last_pli_millis: Option<u64>,
    pub last_fir_millis: Option<u64>,
}

/// The time is at least `gap` after the last one, or there was none.
pub open spec fn gap_is_over(last: Option<u64>, now: u64, gap: u64) -> bool {
    last matches Some(previous) ==> now.saturating_sub(previous) >= gap
}

impl KeyFrameRequestGate {
    /// A gate that nothing has passed.
    pub open spec fn fresh() -> Self {
        KeyFrameRequestGate { last_pli_millis: None, last_fir_millis: None }
    }

    /// When a request of that sort was last let through.
    pub open spec fn last(self, request: KeyFrameRequestKind) -> Option<u64> {
        match request {
            KeyFrameRequestKind::Pli => self.last_pli_millis,
            KeyFrameRequestKind::Fir => self.last_fir_millis,
        }
    }

    /// The request may pass.
    pub open spec fn passes(
        self,
        request: KeyFrameRequestKind,
        now_millis: u64,
        min_gap_millis: u64,
    ) -> bool {
        gap_is_over(self.last(request), now_millis, min_gap_millis)
    }

    /// What is kept after a request.
    pub open spec fn after(
        self,
        request: KeyFrameRequestKind,
        now_millis: u64,
        min_gap_millis: u64,
    ) -> Self {
        if !self.passes(request, now_millis, min_gap_millis) {
            self
        } else {
            match request {
                KeyFrameRequestKind::Pli => KeyFrameRequestGate {
                    last_pli_millis: Some(now_millis),
                    ..self
                },
                KeyFrameRequestKind::Fir => KeyFrameRequestGate {
                    last_fir_millis: Some(now_millis),
                    ..self
                },
            }
        }
    }

    /// Lets a request pass, unless one of its kind passed too recently.
    pub fn should_forward(
        &mut self,
        request: KeyFrameRequestKind,
        now_millis: u64,
        min_gap_millis: u64,
    ) -> (forward: bool)
        ensures
            forward == old(self).passes(request, now_millis, min_gap_millis),
            *final(self) == old(self).after(request, now_millis, min_gap_millis),
    {
        let last: Option<u64> = match request {
            KeyFrameRequestKind::Pli => self.last_pli_millis,
            KeyFrameRequestKind::Fir => self.last_fir_millis,
        };
        if let Some(previous) = last {
            if now_millis.saturating_sub(previous) < min_gap_millis {
                return false;
            }
        }
        match request {
            KeyFrameRequestKind::Pli => {
                self.last_pli_millis = Some(now_millis);
            },
            KeyFrameRequestKind::Fir => {
                self.last_fir_millis = Some(now_millis);
            },
        }
        true
    }
}

impl Default for KeyFrameRequestGate {
    fn default() -> (gate: Self)
        ensures
            gate == Self::fresh(),
    {
        KeyFrameRequestGate { last_pli_millis: None, last_fir_millis: None }
    }
}

/// The source and the timestamp that a sender report goes out with.
#[derive(Debug, Clone, Copy, PartialEq, Eq, Structural)]
pub struct MappedSenderReport {
    pub ssrc: u32,
    pub rtp_timestamp: u32,
}

/// Maps the timestamps of sender reports to those that go out.
#[derive(Debug, Clone, Copy, PartialEq, Eq, Structural)]
pub struct SenderReportMapper {
    pub target_ssrc: Option<u32>,
    pub base_incoming_rtp_timestamp: Option<u32>,
    pub base_outgoing_rtp_timestamp: Option<u32>,
}

impl Default for SenderReportMapper {
    fn default() -> (mapper: Self)
        ensures
            mapper == Self::fresh(),
    {
        SenderReportMapper {
            target_ssrc: None,
            base_incoming_rtp_timestamp: None,
            base_outgoing_rtp_timestamp: None,
        }
    }
}

impl SenderReportMapper {
    /// A mapper that has mapped nothing.
    pub open spec fn fresh() -> Self {
        SenderReportMapper {
            target_ssrc: None,
            base_incoming_rtp_timestamp: None,
            base_outgoing_rtp_timestamp: None,
        }
    }

    /// The mapper goes on from an earlier report of the same target.
    pub open spec fn continues(self, target_ssrc: u32) -> bool {
        &&& self.base_incoming_rtp_timestamp is Some
        &&& self.base_outgoing_rtp_timestamp is Some
        &&& self.target_ssrc == Some(target_ssrc)
    }

    /// The timestamp that goes out.
    pub open spec fn mapped(self, target_ssrc: u32, incoming_rtp_timestamp: u32) -> u32 {
        if self.continues(target_ssrc) {
            self.base_outgoing_rtp_timestamp->0.wrapping_add(
                incoming_rtp_timestamp.wrapping_sub(self.base_incoming_rtp_timestamp->0),
            )
        } else {
            incoming_rtp_timestamp
        }
    }

    /// The mapper after a report. A new target starts it anew.
    pub open spec fn after(self, target_ssrc: u32, incoming_rtp_timestamp: u32) -> Self {
        if self.continues(target_ssrc) {
            self
        } else {
            SenderReportMapper {
                target_ssrc: Some(target_ssrc),
                base_incoming_rtp_timestamp: Some(incoming_rtp_timestamp),
                base_outgoing_rtp_timestamp: Some(incoming_rtp_timestamp),
            }
        }
    }

    /// Maps the timestamp of a report.
    pub fn map(&mut self, target_ssrc: u32, incoming_rtp_timestamp: u32) -> (mapped:
        MappedSenderReport)
        ensures
            mapped == (MappedSenderReport {
                ssrc: target_ssrc,
                rtp_timestamp: old(self).mapped(target_ssrc, incoming_rtp_timestamp),
            }),
            *final(self) == old(self).after(target_ssrc, incoming_rtp_timestamp),
    {
        if let (Some(base_in), Some(base_out), Some(existing_target_ssrc)) = (
            self.base_incoming_rtp_timestamp,
            self.base_outgoing_rtp_timestamp,
            self.target_ssrc,
        ) {
            if existing_target_ssrc == target_ssrc {
                return MappedSenderReport {
                    ssrc: target_ssrc,
                    rtp_timestamp: base_out.wrapping_add(
                        incoming_rtp_timestamp.wrapping_sub(base_in),
                    ),
                };
            }
        }
        self.base_incoming_rtp_timestamp = Some(incoming_rtp_timestamp);
        self.base_outgoing_rtp_timestamp = Some(incoming_rtp_timestamp);
        self.target_ssrc = Some(target_ssrc);
        MappedSenderReport { ssrc: target_ssrc, rtp_timestamp: incoming_rtp_timestamp }
    }
}

/// A quality that is recommended for a track.
#[derive(Debug, Clone, Copy, PartialEq, Eq, Structural)]
pub enum RecommendedVideoQuality {
    Low,
    Medium,
    High,
}

/// What the reports of the current window say.
#[derive(Debug, Clone, Copy, PartialEq, Eq, Structural)]
pub struct MediaFeedbackSummary {
    pub last_rr_ssrc: Option<u32>,
    pub rr_max_fraction_lost: u8,
    pub rr_report_count: u32,
    pub last_twcc_media_ssrc: Option<u32>,
    pub twcc_packet_status_count: u32,
    pub is_degraded: bool,
}

impl Default for MediaFeedbackSummary {
    fn default() -> (summary: Self)
        ensures
            summary == (MediaFeedbackSummary {
                last_rr_ssrc: None,
                rr_max_fraction_lost: 0,
                rr_report_count: 0,
                last_twcc_media_ssrc: None,
                twcc_packet_status_count: 0,
                is_degraded: false,
            }),
    {
        MediaFeedbackSummary {
            last_rr_ssrc: None,
            rr_max_fraction_lost: 0,
            rr_report_count: 0,
            last_twcc_media_ssrc: None,
            twcc_packet_status_count: 0,
            is_degraded: false,
        }
    }
}

/// What was last recommended, and when.
#[derive(Debug, Clone, Copy, PartialEq, Eq, Structural)]
pub struct MediaFeedbackAdaptationState {
    pub last_recommended_quality: Option<RecommendedVideoQuality>,
    pub last_recommendation_millis: Option<u64>,
}

impl Default for MediaFeedbackAdaptationState {
    fn default() -> (state: Self)
        ensures
            state == Self::fresh(),
    {
        MediaFeedbackAdaptationState {
            last_recommended_quality: None,
            last_recommendation_millis: None,
        }
    }
}

/// The quality that a summary asks for: low where the stream is degraded, else one that fits the
/// loss, once there are enough reports.
pub open spec fn desired_quality(summary: MediaFeedbackSummary) -> Option<
    RecommendedVideoQuality,
> {
    if summary.is_degraded {
        Some(RecommendedVideoQuality::Low)
    } else if summary.rr_report_count < MEDIA_FEEDBACK_RECOVERY_MIN_REPORTS {
        None
    } else if summary.rr_max_fraction_lost >= MEDIA_FEEDBACK_MODERATE_FRACTION_LOST_THRESHOLD {
        Some(RecommendedVideoQuality::Medium)
    } else {
        Some(RecommendedVideoQuality::High)
    }
}

impl MediaFeedbackAdaptationState {
    /// Nothing was recommended.
    pub open spec fn fresh() -> Self {
        MediaFeedbackAdaptationState {
            last_recommended_quality: None,
            last_recommendation_millis: None,
        }
    }

    /// The quality to recommend: the desired one, if it is not what was last recommended and
    /// enough time has passed.
    pub open spec fn recommendation(self, summary: MediaFeedbackSummary, now_millis: u64) -> Option<
        RecommendedVideoQuality,
    > {
        if desired_quality(summary) is Some && desired_quality(summary)
            != self.last_recommended_quality && gap_is_over(
            self.last_recommendation_millis,
            now_millis,
            MEDIA_FEEDBACK_QUALITY_RECOMMENDATION_MIN_GAP_MILLIS,
        ) {
            desired_quality(summary)
        } else {
            None
        }
    }

    /// The state after the recommendation, if there was one.
    pub open spec fn after(self, summary: MediaFeedbackSummary, now_millis: u64) -> Self {
        match self.recommendation(summary, now_millis) {
            Some(quality) => MediaFeedbackAdaptationState {
                last_recommended_quality: Some(quality),
                last_recommendation_millis: Some(now_millis),
            },
            None => self,
        }
    }

    /// Recommends a quality where the summary asks for another one than before.
    pub fn maybe_recommend(&mut self, summary: MediaFeedbackSummary, now_millis: u64) -> (quality:
        Option<RecommendedVideoQuality>)
        ensures
            quality == old(self).recommendation(summary, now_millis),
            *final(self) == old(self).after(summary, now_millis),
    {
        let desired: RecommendedVideoQuality = if summary.is_degraded {
            RecommendedVideoQuality::Low
        } else if summary.rr_report_count >= MEDIA_FEEDBACK_RECOVERY_MIN_REPORTS
            && summary.rr_max_fraction_lost >= MEDIA_FEEDBACK_MODERATE_FRACTION_LOST_THRESHOLD {
            RecommendedVideoQuality::Medium
        } else if summary.rr_report_count >= MEDIA_FEEDBACK_RECOVERY_MIN_REPORTS {
            RecommendedVideoQuality::High
        } else {
            return None;
        };
        if let Some(last) = self.last_recommended_quality {
            if last == desired {
                return None;
            }
        }
        if let Some(last_millis) = self.last_recommendation_millis {
            if now_millis.saturating_sub(last_millis)
                < MEDIA_FEEDBACK_QUALITY_RECOMMENDATION_MIN_GAP_MILLIS {
                return None;
            }
        }
        self.last_recommended_quality = Some(desired);
        self.last_recommendation_millis = Some(now_millis);
        Some(desired)
    }
}

/// The reports of the current window.
#[derive(Debug, Clone, Copy, PartialEq, Eq, Structural)]
pub struct MediaFeedbackState {
    pub rr_window_start_millis: Option<u64>,
    pub rr_window_last_ssrc: Option<u32>,
    pub rr_window_max_fraction_lost: u8,
    pub rr_window_report_count: u32,
    pub twcc_window_start_millis: Option<u64>,
    pub twcc_window_last_media_ssrc: Option<u32>,
    pub twcc_window_packet_status_count: u32,
}

impl Default for MediaFeedbackState {
    fn default() -> (state: Self)
        ensures
            state == Self::fresh(),
    {
        MediaFeedbackState {
            rr_window_start_millis: None,
            rr_window_last_ssrc: None,
            rr_window_max_fraction_lost: 0,
            rr_window_report_count: 0,
            twcc_window_start_millis: None,
            twcc_window_last_media_ssrc: None,
            twcc_window_packet_status_count: 0,
        }
    }
}

/// The window is still open.
pub open spec fn window_is_open(start: Option<u64>, now_millis: u64) -> bool {
    start matches Some(start) && now_millis.saturating_sub(start) <= MEDIA_FEEDBACK_WINDOW_MILLIS
}

impl MediaFeedbackState {
    /// No reports came.
    pub open spec fn fresh() -> Self {
        MediaFeedbackState {
            rr_window_start_millis: None,
            rr_window_last_ssrc: None,
            rr_window_max_fraction_lost: 0,
            rr_window_report_count: 0,
            twcc_window_start_millis: None,
            twcc_window_last_media_ssrc: None,
            twcc_window_packet_status_count: 0,
        }
    }

    /// The state with a window for receiver reports that is open.
    pub open spec fn rr_open(self, now_millis: u64) -> Self {
        if window_is_open(self.rr_window_start_millis, now_millis) {
            self
        } else {
            MediaFeedbackState {
                rr_window_start_millis: Some(now_millis),
                rr_window_last_ssrc: None,
                rr_window_max_fraction_lost: 0,
                rr_window_report_count: 0,
                ..self
            }
        }
    }

    /// The state with a window for transport wide feedback that is open.
    pub open spec fn twcc_open(self, now_millis: u64) -> Self {
        if window_is_open(self.twcc_window_start_millis, now_millis) {
            self
        } else {
            MediaFeedbackState {
                twcc_window_start_millis: Some(now_millis),
                twcc_window_last_media_ssrc: None,
                twcc_window_packet_status_count: 0,
                ..self
            }
        }
    }

    /// The state after a receiver report.
    pub open spec fn with_receiver_report(
        self,
        now_millis: u64,
        ssrc: u32,
        max_fraction_lost: u8,
        report_count: u16,
    ) -> Self {
        let open = self.rr_open(now_millis);
        MediaFeedbackState {
            rr_window_last_ssrc: Some(ssrc),
            rr_window_max_fraction_lost: if open.rr_window_max_fraction_lost < max_fraction_lost {
                max_fraction_lost
            } else {
                open.rr_window_max_fraction_lost
            },
            rr_window_report_count: open.rr_window_report_count.saturating_add(
                report_count as u32,
            ),
            ..open
        }
    }

    /// The state after transport wide feedback.
    pub open spec fn with_transport_wide_cc(
        self,
        now_millis: u64,
        media_ssrc: u32,
        packet_status_count: u16,
    ) -> Self {
        let open = self.twcc_open(now_millis);
        MediaFeedbackState {
            twcc_window_last_media_ssrc: Some(media_ssrc),
            twcc_window_packet_status_count: open.twcc_window_packet_status_count.saturating_add(
                packet_status_count as u32,
            ),
            ..open
        }
    }

    /// The state with both windows open.
    pub open spec fn both_open(self, now_millis: u64) -> Self {
        self.rr_open(now_millis).twcc_open(now_millis)
    }

    /// What the reports say, in a state with both windows open.
    pub open spec fn summed_up(self) -> MediaFeedbackSummary {
        MediaFeedbackSummary {
            last_rr_ssrc: self.rr_window_last_ssrc,
            rr_max_fraction_lost: self.rr_window_max_fraction_lost,
            rr_report_count: self.rr_window_report_count,
            last_twcc_media_ssrc: self.twcc_window_last_media_ssrc,
            twcc_packet_status_count: self.twcc_window_packet_status_count,
            is_degraded: self.rr_window_report_count >= MEDIA_FEEDBACK_DEGRADED_MIN_REPORTS
                && self.rr_window_max_fraction_lost
                >= MEDIA_FEEDBACK_DEGRADED_FRACTION_LOST_THRESHOLD,
        }
    }

    /// Takes note of a receiver report.
    pub fn observe_receiver_report(
        &mut self,
        now_millis: u64,
        ssrc: u32,
        max_fraction_lost: u8,
        report_count: u16,
    )
        ensures
            *final(self) == old(self).with_receiver_report(
                now_millis,
                ssrc,
                max_fraction_lost,
                report_count,
            ),
    {
        self.refresh_rr_window(now_millis);
        self.rr_window_last_ssrc = Some(ssrc);
        if self.rr_window_max_fraction_lost < max_fraction_lost {
            self.rr_window_max_fraction_lost = max_fraction_lost;
        }
        self.rr_window_report_count = self.rr_window_report_count.saturating_add(
            report_count as u32,
        );
    }

    /// Takes note of transport wide feedback.
    pub fn observe_transport_wide_cc(
        &mut self,
        now_millis: u64,
        media_ssrc: u32,
        packet_status_count: u16,
    )
        ensures
            *final(self) == old(self).with_transport_wide_cc(
                now_millis,
                media_ssrc,
                packet_status_count,
            ),
    {
        self.refresh_twcc_window(now_millis);
        self.twcc_window_last_media_ssrc = Some(media_ssrc);
        self.twcc_window_packet_status_count = self.twcc_window_packet_status_count.saturating_add(
            packet_status_count as u32,
        );
    }

    /// What the reports of the current window say.
    pub fn summary(&mut self, now_millis: u64) -> (summary: MediaFeedbackSummary)
        ensures
            *final(self) == old(self).both_open(now_millis),
            summary == final(self).summed_up(),
    {
        self.refresh_rr_window(now_millis);
        self.refresh_twcc_window(now_millis);
        let rr_report_count: u32 = self.rr_window_report_count;
        let rr_max_fraction_lost: u8 = self.rr_window_max_fraction_lost;
        let is_degraded: bool = rr_report_count >= MEDIA_FEEDBACK_DEGRADED_MIN_REPORTS
            && rr_max_fraction_lost >= MEDIA_FEEDBACK_DEGRADED_FRACTION_LOST_THRESHOLD;
        MediaFeedbackSummary {
            last_rr_ssrc: self.rr_window_last_ssrc,
            rr_max_fraction_lost,
            rr_report_count,
            last_twcc_media_ssrc: self.twcc_window_last_media_ssrc,
            twcc_packet_status_count: self.twcc_window_packet_status_count,
            is_degraded,
        }
    }

    /// Opens a new window for receiver reports where the last one is over.
    pub fn refresh_rr_window(&mut self, now_millis: u64)
        ensures
            *final(self) == old(self).rr_open(now_millis),
    {
        let open: bool = match self.rr_window_start_millis {
            Some(window_start) => now_millis.saturating_sub(window_start)
                <= MEDIA_FEEDBACK_WINDOW_MILLIS,
            None => false,
        };
        if !open {
            self.rr_window_start_millis = Some(now_millis);
            self.rr_window_last_ssrc = None;
            self.rr_window_max_fraction_lost = 0;
            self.rr_window_report_count = 0;
        }
    }

    /// Opens a new window for transport wide feedback where the last one is over.
    pub fn refresh_twcc_window(&mut self, now_millis: u64)
        ensures
            *final(self) == old(self).twcc_open(now_millis),
    {
        let open: bool = match self.twcc_window_start_millis {
            Some(window_start) => now_millis.saturating_sub(window_start)
                <= MEDIA_FEEDBACK_WINDOW_MILLIS,
            None => false,
        };
        if !open {
            self.twcc_window_start_millis = Some(now_millis);
            self.twcc_window_last_media_ssrc = None;
            self.twcc_window_packet_status_count = 0;
        }
    }
}

/// Once a request has passed, no other of its kind passes before the gap is over, while the other
/// kind is not held up.
pub proof fn law_key_frame_requests_are_spaced(
    gate: KeyFrameRequestGate,
    request: KeyFrameRequestKind,
    now_millis: u64,
    later_millis: u64,
    min_gap_millis: u64,
)
    requires
        gate.passes(request, now_millis, min_gap_millis),
        now_millis <= later_millis,
    ensures
        gate.after(request, now_millis, min_gap_millis).passes(
            request,
            later_millis,
            min_gap_millis,
        ) <==> later_millis - now_millis >= min_gap_millis,
        forall|other: KeyFrameRequestKind|
            other != request ==> #[trigger] gate.after(request, now_millis, min_gap_millis).last(
                other,
            ) == gate.last(other),
{
}

/// Two reports of the same target are as far apart going out as coming in.
pub proof fn law_report_distance_is_kept(
    mapper: SenderReportMapper,
    target_ssrc: u32,
    first: u32,
    second: u32,
)
    ensures
        mapper.after(target_ssrc, first).mapped(target_ssrc, second).wrapping_sub(
            mapper.mapped(target_ssrc, first),
        ) == second.wrapping_sub(first),
{
}

/// The same quality is not recommended twice in a row, and no two recommendations are closer than
/// the gap.
pub proof fn law_recommendations_change_and_are_spaced(
    state: MediaFeedbackAdaptationState,
    summary: MediaFeedbackSummary,
    now_millis: u64,
    later_summary: MediaFeedbackSummary,
    later_millis: u64,
)
    requires
        state.recommendation(summary, now_millis) is Some,
        state.after(summary, now_millis).recommendation(later_summary, later_millis) is Some,
        now_millis <= later_millis,
    ensures
        state.after(summary, now_millis).recommendation(later_summary, later_millis)
            != state.recommendation(summary, now_millis),
        later_millis - now_millis >= MEDIA_FEEDBACK_QUALITY_RECOMMENDATION_MIN_GAP_MILLIS,
{
}

/// Reports of a window that is over do not count.
pub proof fn law_old_reports_do_not_count(state: MediaFeedbackState, now_millis: u64)
    requires
        !window_is_open(state.rr_window_start_millis, now_millis),
    ensures
        state.both_open(now_millis).summed_up().rr_report_count == 0,
        !state.both_open(now_millis).summed_up().is_degraded,
        desired_quality(state.both_open(now_millis).summed_up()) is None,
{
}

/// A stream is degraded only after as many reports as that takes, one of which told of a high
/// loss.
pub proof fn law_one_bad_report_is_not_enough(
    now_millis: u64,
    ssrc: u32,
    max_fraction_lost: u8,
)
    ensures
        !MediaFeedbackState::fresh().with_receiver_report(
            now_millis,
            ssrc,
            max_fraction_lost,
            1,
        ).summed_up().is_degraded,
{
}

/// A gap is over where there was nothing before it, or where it has passed since.
pub proof fn law_gap_is_time_that_passed(previous: u64, now: u64, gap: u64)
    ensures
        gap_is_over(None, now, gap),
        now >= previous ==> (gap_is_over(Some(previous), now, gap) <==> now - previous >= gap),
        now < previous ==> (gap_is_over(Some(previous), now, gap) <==> gap == 0),
{
}

/// A request passes by the last one of its own kind alone. One that passes becomes the last one,
/// and one that does not changes nothing.
pub proof fn law_requests_pass_by_their_kind(
    gate: KeyFrameRequestGate,
    now_millis: u64,
    min_gap_millis: u64,
)
    ensures
        gate.last_pli_millis is None ==> gate.passes(
            KeyFrameRequestKind::Pli,
            now_millis,
            min_gap_millis,
        ),
        gate.last_fir_millis is None ==> gate.passes(
            KeyFrameRequestKind::Fir,
            now_millis,
            min_gap_millis,
        ),
        gate.last_pli_millis matches Some(last) ==> (last <= now_millis ==> (gate.passes(
            KeyFrameRequestKind::Pli,
            now_millis,
            min_gap_millis,
        ) <==> last + min_gap_millis <= now_millis)),
        gate.last_fir_millis matches Some(last) ==> (last <= now_millis ==> (gate.passes(
            KeyFrameRequestKind::Fir,
            now_millis,
            min_gap_millis,
        ) <==> last + min_gap_millis <= now_millis)),
        ({
            let after = gate.after(KeyFrameRequestKind::Pli, now_millis, min_gap_millis);
            &&& after.last_fir_millis == gate.last_fir_millis
            &&& gate.passes(KeyFrameRequestKind::Pli, now_millis, min_gap_millis)
                ==> after.last_pli_millis == Some(now_millis)
            &&& !gate.passes(KeyFrameRequestKind::Pli, now_millis, min_gap_millis) ==> after
                == gate
        }),
        ({
            let after = gate.after(KeyFrameRequestKind::Fir, now_millis, min_gap_millis);
            &&& after.last_pli_millis == gate.last_pli_millis
            &&& gate.passes(KeyFrameRequestKind::Fir, now_millis, min_gap_millis)
                ==> after.last_fir_millis == Some(now_millis)
            &&& !gate.passes(KeyFrameRequestKind::Fir, now_millis, min_gap_millis) ==> after
                == gate
        }),
{
}

/// The first report of a target goes out with its own timestamp, also where another target was
/// mapped before it.
pub proof fn law_first_report_of_a_target_is_unchanged(
    mapper: SenderReportMapper,
    target_ssrc: u32,
    timestamp: u32,
)
    requires
        mapper.target_ssrc != Some(target_ssrc),
    ensures
        mapper.mapped(target_ssrc, timestamp) == timestamp,
        mapper.after(target_ssrc, timestamp).target_ssrc == Some(target_ssrc),
{
}

/// A recommendation follows from the loss of the window: with fewer than two reports there is none;
/// from a quarter on it is low, from 24 of 256 on medium, and below that high.
pub proof fn law_quality_follows_the_loss(state: MediaFeedbackState)
    ensures
        ({
            let wanted = desired_quality(state.summed_up());
            let loss = state.rr_window_max_fraction_lost;
            let reports = state.rr_window_report_count;
            &&& wanted is None <==> reports < 2
            &&& wanted == Some(RecommendedVideoQuality::Low) <==> reports >= 2 && loss >= 64
            &&& wanted == Some(RecommendedVideoQuality::Medium) <==> reports >= 2 && 24 <= loss
                < 64
            &&& wanted == Some(RecommendedVideoQuality::High) <==> reports >= 2 && loss < 24
            &&& state.summed_up().is_degraded <==> reports >= 2 && loss >= 64
        }),
{
}

/// A summary holds what the windows hold.
pub proof fn law_summary_is_of_the_windows(state: MediaFeedbackState)
    ensures
        state.summed_up().last_rr_ssrc == state.rr_window_last_ssrc,
        state.summed_up().rr_max_fraction_lost == state.rr_window_max_fraction_lost,
        state.summed_up().rr_report_count == state.rr_window_report_count,
        state.summed_up().last_twcc_media_ssrc == state.twcc_window_last_media_ssrc,
        state.summed_up().twcc_packet_status_count == state.twcc_window_packet_status_count,
{
}

/// A receiver report within five seconds of the start of its window adds its reports and raises the
/// greatest loss; a later one opens a new window with its own. The other window is left alone.
pub proof fn law_receiver_reports_add_up(
    state: MediaFeedbackState,
    now_millis: u64,
    ssrc: u32,
    max_fraction_lost: u8,
    report_count: u16,
)
    ensures
        ({
            let after = state.with_receiver_report(
                now_millis,
                ssrc,
                max_fraction_lost,
                report_count,
            );
            let goes_on = state.rr_window_start_millis matches Some(start) && now_millis <= start
                + 5_000;
            &&& after.rr_window_last_ssrc == Some(ssrc)
            &&& after.rr_window_max_fraction_lost >= max_fraction_lost
            &&& goes_on ==> {
                &&& after.rr_window_start_millis == state.rr_window_start_millis
                &&& after.rr_window_max_fraction_lost >= state.rr_window_max_fraction_lost
                &&& after.rr_window_max_fraction_lost == max_fraction_lost
                    || after.rr_window_max_fraction_lost == state.rr_window_max_fraction_lost
                &&& state.rr_window_report_count + report_count <= u32::MAX
                    ==> after.rr_window_report_count == state.rr_window_report_count + report_count
                &&& state.rr_window_report_count + report_count > u32::MAX
                    ==> after.rr_window_report_count == u32::MAX
            }
            &&& !goes_on ==> {
                &&& after.rr_window_start_millis == Some(now_millis)
                &&& after.rr_window_max_fraction_lost == max_fraction_lost
                &&& after.rr_window_report_count == report_count
            }
            &&& after.twcc_window_start_millis == state.twcc_window_start_millis
            &&& after.twcc_window_last_media_ssrc == state.twcc_window_last_media_ssrc
            &&& after.twcc_window_packet_status_count == state.twcc_window_packet_status_count
        }),
{
}

/// Transport wide feedback within five seconds of the start of its window adds its packets; later
/// feedback opens a new window with its own. The other window is left alone.
pub proof fn law_transport_wide_feedback_adds_up(
    state: MediaFeedbackState,
    now_millis: u64,
    media_ssrc: u32,
    packet_status_count: u16,
)
    ensures
        ({
            let after = state.with_transport_wide_cc(now_millis, media_ssrc, packet_status_count);
            let goes_on = state.twcc_window_start_millis matches Some(start) && now_millis <= start
                + 5_000;
            &&& after.twcc_window_last_media_ssrc == Some(media_ssrc)
            &&& goes_on ==> after.twcc_window_start_millis == state.twcc_window_start_millis
            &&& goes_on && state.twcc_window_packet_status_count + packet_status_count <= u32::MAX
                ==> after.twcc_window_packet_status_count == state.twcc_window_packet_status_count
                + packet_status_count
            &&& !goes_on ==> after.twcc_window_start_millis == Some(now_millis)
                && after.twcc_window_packet_status_count == packet_status_count
            &&& after.rr_window_start_millis == state.rr_window_start_millis
            &&& after.rr_window_last_ssrc == state.rr_window_last_ssrc
            &&& after.rr_window_max_fraction_lost == state.rr_window_max_fraction_lost
            &&& after.rr_window_report_count == state.rr_window_report_count
        }),
{
}

/// Opening the windows leaves one that is still open as it is, and empties one that is over.
pub proof fn law_open_windows_are_kept(state: MediaFeedbackState, now_millis: u64)
    ensures
        ({
            let after = state.both_open(now_millis);
            let reports_go_on = state.rr_window_start_millis matches Some(start) && now_millis
                <= start + 5_000;
            let packets_go_on = state.twcc_window_start_millis matches Some(start) && now_millis
                <= start + 5_000;
            &&& reports_go_on ==> {
                &&& after.rr_window_start_millis == state.rr_window_start_millis
                &&& after.rr_window_report_count == state.rr_window_report_count
                &&& after.rr_window_max_fraction_lost == state.rr_window_max_fraction_lost
                &&& after.rr_window_last_ssrc == state.rr_window_last_ssrc
            }
            &&& !reports_go_on ==> {
                &&& after.rr_window_start_millis == Some(now_millis)
                &&& after.rr_window_report_count == 0
                &&& after.rr_window_max_fraction_lost == 0
                &&& after.rr_window_last_ssrc is None
            }
            &&& packets_go_on ==> {
                &&& after.twcc_window_start_millis == state.twcc_window_start_millis
                &&& after.twcc_window_packet_status_count == state.twcc_window_packet_status_count
                &&& after.twcc_window_last_media_ssrc == state.twcc_window_last_media_ssrc
            }
            &&& !packets_go_on ==> {
                &&& after.twcc_window_start_millis == Some(now_millis)
                &&& after.twcc_window_packet_status_count == 0
                &&& after.twcc_window_last_media_ssrc is None
            }
        }),
{
}

/// What is recommended is what is desired, as soon as it differs from what was recommended last and
/// two seconds have passed since; it is then remembered, with its time. Else nothing changes.
pub proof fn law_desired_quality_is_recommended(
    state: MediaFeedbackAdaptationState,
    summary: MediaFeedbackSummary,
    now_millis: u64,
)
    ensures
        ({
            let given = state.recommendation(summary, now_millis);
            let wanted = desired_quality(summary);
            let after = state.after(summary, now_millis);
            let due = state.last_recommendation_millis is None || (
            state.last_recommendation_millis matches Some(last) && last + 2_000 <= now_millis);
            &&& wanted is Some && wanted != state.last_recommended_quality && due ==> given == wanted
            &&& wanted is None || wanted == state.last_recommended_quality || !due ==> given is None
            &&& given is Some ==> after.last_recommended_quality == given
                && after.last_recommendation_millis == Some(now_millis)
            &&& given is None ==> after == state
        }),
{
}

} // verus!
