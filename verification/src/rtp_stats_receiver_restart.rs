//! Detection of a restarted sender by a run of consecutive packets.
use vstd::prelude::*;

verus! {

/// How many consecutive packets show a restart.
pub const RESTART_THRESHOLD: usize = 5;

/// The numbers of a packet.
#[derive(Debug, Clone, Copy, PartialEq, Eq, Structural)]
pub struct Packet {
    pub sequence_number: u16,
    pub timestamp: u32,
}

/// The newest packets that did not fit the stream.
#[derive(Debug, Clone, Copy)]
pub struct RtpStatsReceiverRestartDetector {
    pub restart_packets_buf: [Packet; 5],
    pub restart_packets_n: usize,
}

impl View for RtpStatsReceiverRestartDetector {
    type V = Seq<Packet>;

    open spec fn view(&self) -> Seq<Packet> {
        self.restart_packets_buf@.take(self.restart_packets_n as int)
    }
}

/// The newest packets once `packet` came, of which no more than the threshold are kept.
pub open spec fn with_recent(recent: Seq<Packet>, packet: Packet) -> Seq<Packet> {
    if recent.len() < RESTART_THRESHOLD {
        recent.push(packet)
    } else {
        recent.drop_first().push(packet)
    }
}

/// `next` has the number after `previous`, and is not earlier.
pub open spec fn follows(previous: Packet, next: Packet) -> bool {
    &&& next.sequence_number == previous.sequence_number.wrapping_add(1)
    &&& next.timestamp.wrapping_sub(previous.timestamp) <= 0x8000_0000
}

/// The packets are as many as the threshold asks for, and each follows on the one before it.
pub open spec fn shows_restart(recent: Seq<Packet>) -> bool {
    &&& recent.len() == RESTART_THRESHOLD
    &&& forall|i: int| 1 <= i < recent.len() ==> follows(recent[i - 1], #[trigger] recent[i])
}

impl RtpStatsReceiverRestartDetector {
    /// No more packets than the threshold are kept.
    pub open spec fn wf(self) -> bool {
        self.restart_packets_n <= RESTART_THRESHOLD
    }

    /// A detector that has seen nothing.
    pub fn new() -> (detector: Self)
        ensures
            detector.wf(),
            detector@ == Seq::<Packet>::empty(),
    {
        RtpStatsReceiverRestartDetector {
            restart_packets_buf: [Packet { sequence_number: 0, timestamp: 0 };5],
            restart_packets_n: 0,
        }
    }

    /// Takes note of a packet, unless it is padding only, and tells whether the sender restarted.
    pub fn maybe_restart(&mut self, sn: u16, ts: u32, payload_size: usize) -> (restarted: bool)
        requires
            old(self).wf(),
        ensures
            final(self).wf(),
            final(self)@ == if payload_size > 0 {
                with_recent(old(self)@, (Packet { sequence_number: sn, timestamp: ts }))
            } else {
                old(self)@
            },
            restarted == shows_restart(final(self)@),
    {
        let ghost before = self@;
        if payload_size > 0 {
            let packet = Packet { sequence_number: sn, timestamp: ts };
            if self.restart_packets_n < RESTART_THRESHOLD {
                self.restart_packets_buf[self.restart_packets_n] = packet;
                self.restart_packets_n = self.restart_packets_n + 1;
                assert(self@ =~= before.push(packet));
            } else {
                self.restart_packets_buf[0] = self.restart_packets_buf[1];
                self.restart_packets_buf[1] = self.restart_packets_buf[2];
                self.restart_packets_buf[2] = self.restart_packets_buf[3];
                self.restart_packets_buf[3] = self.restart_packets_buf[4];
                self.restart_packets_buf[4] = packet;
                assert(self@ =~= before.drop_first().push(packet));
            }
        }
        if self.restart_packets_n < RESTART_THRESHOLD {
            return false;
        }
        let mut index: usize = 1;
        while index < self.restart_packets_n
            invariant
                self@ == if payload_size > 0 {
                    with_recent(old(self)@, (Packet { sequence_number: sn, timestamp: ts }))
                } else {
                    old(self)@
                },
                1 <= index <= self.restart_packets_n == RESTART_THRESHOLD,
                forall|i: int| 1 <= i < index ==> follows(self@[i - 1], #[trigger] self@[i]),
            decreases self.restart_packets_n - index,
        {
            let packet = self.restart_packets_buf[index];
            let previous = self.restart_packets_buf[index - 1];
            assert(packet == self@[index as int] && previous == self@[index - 1]);
            if packet.sequence_number != previous.sequence_number.wrapping_add(1)
                || packet.timestamp.wrapping_sub(previous.timestamp) > 0x8000_0000 {
                return false;
            }
            index += 1;
        }
        true
    }

    /// Forgets the packets.
    pub fn reset_restart(&mut self)
        ensures
            final(self).wf(),
            final(self)@ == Seq::<Packet>::empty(),
    {
        self.restart_packets_n = 0;
    }

    /// How many packets are kept.
    pub fn restart_packets_n(&self) -> (n: usize)
        requires
            self.wf(),
        ensures
            n == self@.len(),
    {
        self.restart_packets_n
    }
}

/// A run of consecutive packets that begins anywhere shows the restart with its fifth packet.
pub proof fn law_five_consecutive_packets_show_restart(
    recent: Seq<Packet>,
    run: Seq<Packet>,
)
    requires
        recent.len() <= RESTART_THRESHOLD,
        run.len() == RESTART_THRESHOLD,
        forall|i: int| 1 <= i < run.len() ==> follows(run[i - 1], #[trigger] run[i]),
    ensures
        ({
            let after = with_recent(
                with_recent(
                    with_recent(with_recent(with_recent(recent, run[0]), run[1]), run[2]),
                    run[3],
                ),
                run[4],
            );
            after == run && shows_restart(after)
        }),
{
    let after = with_recent(
        with_recent(with_recent(with_recent(with_recent(recent, run[0]), run[1]), run[2]), run[3]),
        run[4],
    );
    assert(after =~= run);
}

/// A restart is shown only by five packets that each have the number after the one before and a
/// timestamp no more than half a turn ahead of its.
pub proof fn law_restart_is_shown_by_a_run_only(recent: Seq<Packet>, i: int)
    requires
        shows_restart(recent),
        1 <= i < 5,
    ensures
        recent.len() == 5,
        recent[i].sequence_number == recent[i - 1].sequence_number.wrapping_add(1),
        recent[i].timestamp.wrapping_sub(recent[i - 1].timestamp) <= 0x8000_0000,
{
    assert(follows(recent[i - 1], recent[i]));
}

/// The newest five packets are kept, in order.
pub proof fn law_newest_packets_are_kept(recent: Seq<Packet>, packet: Packet, i: int)
    requires
        recent.len() <= 5,
    ensures
        with_recent(recent, packet).last() == packet,
        recent.len() < 5 ==> with_recent(recent, packet).drop_last() == recent,
        recent.len() == 5 ==> with_recent(recent, packet).len() == 5,
        recent.len() == 5 && 0 <= i < 4 ==> with_recent(recent, packet)[i] == recent[i + 1],
{
    if recent.len() < 5 {
        assert(with_recent(recent, packet).drop_last() =~= recent);
    }
}

} // verus!
