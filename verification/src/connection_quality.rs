//! What a window of packet counts says of a connection.
use vstd::prelude::*;

verus! {

/// What a stream brought within a window.
#[derive(Debug, Clone, Copy, PartialEq, Eq, Structural)]
pub struct StreamDeltaLite {
    pub packets: u32,
    pub packets_lost: u32,
    pub rtt_max_ms: u32,
}

/// What a window says.
#[derive(Debug, Clone, Copy, PartialEq, Eq, Structural)]
pub enum WindowAssessment {
    /// The window does not count.
    Skipped,
    /// No packets came, though the sender may only be quiet.
    Quiet,
    /// No packets came, and the sender has not reported for longer than the window.
    Silent,
    /// Packets came.
    Measured { packets: u32, packets_lost: u32, rtt_max_ms: u32 },
}

/// The packets of the streams.
pub open spec fn total_packets(streams: Seq<StreamDeltaLite>) -> int
    decreases streams.len(),
{
    if streams.len() == 0 {
        0
    } else {
        total_packets(streams.drop_last()) + streams.last().packets
    }
}

/// The lost packets of the streams.
pub open spec fn total_lost(streams: Seq<StreamDeltaLite>) -> int
    decreases streams.len(),
{
    if streams.len() == 0 {
        0
    } else {
        total_lost(streams.drop_last()) + streams.last().packets_lost
    }
}

/// The longest round trip of the streams.
pub open spec fn longest_round_trip(streams: Seq<StreamDeltaLite>) -> u32
    decreases streams.len(),
{
    if streams.len() == 0 {
        0
    } else {
        let before = longest_round_trip(streams.drop_last());
        if streams.last().rtt_max_ms > before {
            streams.last().rtt_max_ms
        } else {
            before
        }
    }
}

/// Whether a connection is muted, and since when it is not.
#[derive(Debug, Clone, Copy, PartialEq, Eq, Structural)]
pub struct ConnectionWindows {
    pub muted: bool,
    pub unmuted_at_nanos: u64,
    pub last_window_nanos: u64,
}

/// The time since, zero where it is ahead.
pub open spec fn time_since(at_nanos: u64, since_nanos: u64) -> int {
    if at_nanos >= since_nanos {
        at_nanos - since_nanos
    } else {
        0
    }
}

impl ConnectionWindows {
    /// The window does not count: the connection is muted, or was for half of the window, or
    /// there are no streams.
    pub open spec fn skips(
        self,
        at_nanos: u64,
        window_nanos: u64,
        streams: Seq<StreamDeltaLite>,
    ) -> bool {
        self.muted || time_since(at_nanos, self.unmuted_at_nanos) < window_nanos / 2
            || streams.len() == 0
    }

    /// What a window says.
    pub open spec fn assessment(
        self,
        at_nanos: u64,
        window_nanos: u64,
        streams: Seq<StreamDeltaLite>,
        last_sender_report_nanos: Option<u64>,
    ) -> WindowAssessment {
        if self.skips(at_nanos, window_nanos, streams) {
            WindowAssessment::Skipped
        } else if total_packets(streams) > 0 {
            WindowAssessment::Measured {
                packets: total_packets(streams) as u32,
                packets_lost: total_lost(streams) as u32,
                rtt_max_ms: longest_round_trip(streams),
            }
        } else if last_sender_report_nanos is Some && time_since(
            at_nanos,
            last_sender_report_nanos->0,
        ) > window_nanos {
            WindowAssessment::Silent
        } else {
            WindowAssessment::Quiet
        }
    }

    /// A connection that is not muted.
    pub fn new(now_nanos: u64) -> (windows: Self)
        ensures
            windows == (ConnectionWindows {
                muted: false,
                unmuted_at_nanos: now_nanos,
                last_window_nanos: 5_000_000_000,
            }),
    {
        ConnectionWindows {
            muted: false,
            unmuted_at_nanos: now_nanos,
            last_window_nanos: 5_000_000_000,
        }
    }

    /// Mutes or unmutes the connection. Tells whether the score starts anew: muting lifts it,
    /// unless the connection is lost.
    pub fn update_mute_at(&mut self, is_muted: bool, at_nanos: u64, is_lost: bool) -> (lifts: bool)
        ensures
            lifts == (is_muted && !is_lost),
            *final(self) == (ConnectionWindows {
                muted: is_muted,
                unmuted_at_nanos: if is_muted {
                    old(self).unmuted_at_nanos
                } else {
                    at_nanos
                },
                ..*old(self)
            }),
    {
        if is_muted {
            self.muted = true;
            !is_lost
        } else {
            self.muted = false;
            self.unmuted_at_nanos = at_nanos;
            false
        }
    }

    /// Whether the window does not count.
    pub fn skips_window(&self, at_nanos: u64, window_nanos: u64, streams: &[StreamDeltaLite]) -> (
    skipped: bool)
        ensures
            skipped == self.skips(at_nanos, window_nanos, streams@),
    {
        self.muted || at_nanos.saturating_sub(self.unmuted_at_nanos) < window_nanos / 2
            || streams.len() == 0
    }

    /// Takes note of a window, and says what it says.
    pub fn update_score_at(
        &mut self,
        at_nanos: u64,
        window_nanos: u64,
        streams: &[StreamDeltaLite],
        last_sender_report_nanos: Option<u64>,
    ) -> (assessment: WindowAssessment)
        requires
            !old(self).skips(at_nanos, window_nanos, streams@) ==> total_packets(streams@)
                <= u32::MAX && total_lost(streams@) <= u32::MAX,
        ensures
            assessment == old(self).assessment(
                at_nanos,
                window_nanos,
                streams@,
                last_sender_report_nanos,
            ),
            *final(self) == (ConnectionWindows { last_window_nanos: window_nanos, ..*old(self) }),
    {
        self.last_window_nanos = window_nanos;
        if self.skips_window(at_nanos, window_nanos, streams) {
            return WindowAssessment::Skipped;
        }
        let mut packets: u32 = 0;
        let mut packets_lost: u32 = 0;
        let mut rtt_max_ms: u32 = 0;
        let mut i: usize = 0;
        while i < streams.len()
            invariant
                i <= streams@.len(),
                packets == total_packets(streams@.take(i as int)),
                packets_lost == total_lost(streams@.take(i as int)),
                rtt_max_ms == longest_round_trip(streams@.take(i as int)),
                total_packets(streams@) <= u32::MAX,
                total_lost(streams@) <= u32::MAX,
            decreases streams.len() - i,
        {
            let stream: StreamDeltaLite = streams[i];
            proof {
                assert(streams@.take(i + 1).drop_last() =~= streams@.take(i as int));
                assert(streams@.take(i + 1).last() == stream);
                lemma_totals_grow(streams@, i + 1);
            }
            packets = packets + stream.packets;
            packets_lost = packets_lost + stream.packets_lost;
            if stream.rtt_max_ms > rtt_max_ms {
                rtt_max_ms = stream.rtt_max_ms;
            }
            i += 1;
        }
        assert(streams@.take(i as int) =~= streams@);
        if packets > 0 {
            return WindowAssessment::Measured { packets, packets_lost, rtt_max_ms };
        }
        match last_sender_report_nanos {
            Some(last_sender_report) => {
                if at_nanos.saturating_sub(last_sender_report) > window_nanos {
                    WindowAssessment::Silent
                } else {
                    WindowAssessment::Quiet
                }
            },
            None => WindowAssessment::Quiet,
        }
    }
}

proof fn lemma_totals_grow(streams: Seq<StreamDeltaLite>, n: int)
    requires
        0 <= n <= streams.len(),
    ensures
        total_packets(streams.take(n)) <= total_packets(streams),
        total_lost(streams.take(n)) <= total_lost(streams),
    decreases streams.len() - n,
{
    if n < streams.len() {
        lemma_totals_grow(streams, n + 1);
        assert(streams.take(n + 1).drop_last() =~= streams.take(n));
    } else {
        assert(streams.take(n) =~= streams);
    }
}

/// While a connection is muted, and for half a window after, no window counts.
pub proof fn law_muted_windows_do_not_count(
    windows: ConnectionWindows,
    at_nanos: u64,
    window_nanos: u64,
    streams: Seq<StreamDeltaLite>,
    last_sender_report_nanos: Option<u64>,
)
    requires
        windows.muted || time_since(at_nanos, windows.unmuted_at_nanos) < window_nanos / 2,
    ensures
        windows.assessment(at_nanos, window_nanos, streams, last_sender_report_nanos)
            == WindowAssessment::Skipped,
{
}

/// The packets and the losses of the streams add up, and the longest round trip is that of one of
/// them, and no shorter than any.
pub proof fn law_streams_add_up(streams: Seq<StreamDeltaLite>, stream: StreamDeltaLite, i: int)
    ensures
        total_packets(Seq::empty()) == 0,
        total_lost(Seq::empty()) == 0,
        longest_round_trip(Seq::empty()) == 0,
        total_packets(streams.push(stream)) == total_packets(streams) + stream.packets,
        total_lost(streams.push(stream)) == total_lost(streams) + stream.packets_lost,
        longest_round_trip(streams.push(stream)) == longest_round_trip(streams)
            || longest_round_trip(streams.push(stream)) == stream.rtt_max_ms,
        longest_round_trip(streams.push(stream)) >= stream.rtt_max_ms,
        longest_round_trip(streams.push(stream)) >= longest_round_trip(streams),
        0 <= i < streams.len() ==> streams[i].rtt_max_ms <= longest_round_trip(streams),
    decreases streams.len(),
{
    assert(streams.push(stream).drop_last() =~= streams);
    if streams.len() > 0 {
        let front = streams.drop_last();
        law_streams_add_up(front, streams.last(), i);
        assert(front.push(streams.last()) =~= streams);
        if i < front.len() {
            assert(0 <= i ==> front[i] == streams[i]);
        }
    }
}

/// What a window says that counts: what was measured where packets came; else that the sender is
/// silent exactly where its last report is older than the window.
pub proof fn law_window_says_what_came(
    windows: ConnectionWindows,
    at_nanos: u64,
    window_nanos: u64,
    streams: Seq<StreamDeltaLite>,
    last_sender_report_nanos: Option<u64>,
)
    requires
        !windows.muted,
        windows.unmuted_at_nanos + window_nanos / 2 <= at_nanos,
        streams.len() > 0,
        total_packets(streams) <= u32::MAX,
        total_lost(streams) <= u32::MAX,
    ensures
        ({
            let said = windows.assessment(
                at_nanos,
                window_nanos,
                streams,
                last_sender_report_nanos,
            );
            &&& total_packets(streams) > 0 ==> (said matches WindowAssessment::Measured {
                packets,
                packets_lost,
                rtt_max_ms,
            } && packets == total_packets(streams) && packets_lost == total_lost(streams)
                && rtt_max_ms == longest_round_trip(streams))
            &&& total_packets(streams) == 0 && (last_sender_report_nanos matches Some(last) && last
                + window_nanos < at_nanos) ==> said == WindowAssessment::Silent
            &&& total_packets(streams) == 0 && last_sender_report_nanos is None ==> said
                == WindowAssessment::Quiet
            &&& total_packets(streams) == 0 && (last_sender_report_nanos matches Some(last) && last
                + window_nanos >= at_nanos) ==> said == WindowAssessment::Quiet
        }),
{
    lemma_totals_are_not_negative(streams);
}

proof fn lemma_totals_are_not_negative(streams: Seq<StreamDeltaLite>)
    ensures
        total_packets(streams) >= 0,
        total_lost(streams) >= 0,
    decreases streams.len(),
{
    if streams.len() > 0 {
        lemma_totals_are_not_negative(streams.drop_last());
    }
}

/// A window without streams does not count.
pub proof fn law_windows_without_streams_do_not_count(
    windows: ConnectionWindows,
    at_nanos: u64,
    window_nanos: u64,
    last_sender_report_nanos: Option<u64>,
)
    ensures
        windows.assessment(at_nanos, window_nanos, Seq::empty(), last_sender_report_nanos)
            == WindowAssessment::Skipped,
{
}

} // verus!
