//! The playout delay that receivers are told, as jitter changes.
use crate::bytes::copy_bytes;
use crate::playout_delay::{
    PlayOutDelay, MAX_PLAYOUT_DELAY_DEFAULT_MS, PLAYOUT_DELAY_MAX_VALUE_MS,
};
use vstd::prelude::*;

verus! {

/// The delay is this many times the jitter.
pub const JITTER_MULTI_TO_DELAY: u32 = 10;

/// How far the delay may change within a second, in milliseconds.
pub const MAX_DELAY_CHANGE_PER_SEC: u32 = 80;

/// How long it takes until the delay may change by a millisecond more, in nanoseconds.
pub const NANOS_PER_DELAY_CHANGE: u64 = 12_500_000;

/// Whether receivers know the delay.
#[derive(Debug, Clone, Copy, PartialEq, Eq, Structural)]
pub enum PlayoutDelayState {
    Changed,
    Sending,
    Acked,
}

/// The delay, and whether receivers know it.
#[derive(Debug)]
pub struct PlayoutDelayController {
    pub state: PlayoutDelayState,
    pub min_delay_ms: u32,
    pub max_delay_ms: u32,
    pub current_delay_ms: u32,
    pub sending_at_seq: u16,
    pub sending_at_nanos: u64,
    pub ext_bytes: Vec<u8>,
}

/// The contents of a [`PlayoutDelayController`].
#[verifier::ext_equal]
pub struct ControllerView {
    pub state: PlayoutDelayState,
    pub min_delay_ms: u32,
    pub max_delay_ms: u32,
    pub current_delay_ms: u32,
    pub sending_at_seq: u16,
    pub sending_at_nanos: u64,
    pub ext_bytes: Seq<u8>,
}

impl View for PlayoutDelayController {
    type V = ControllerView;

    open spec fn view(&self) -> ControllerView {
        ControllerView {
            state: self.state,
            min_delay_ms: self.min_delay_ms,
            max_delay_ms: self.max_delay_ms,
            current_delay_ms: self.current_delay_ms,
            sending_at_seq: self.sending_at_seq,
            sending_at_nanos: self.sending_at_nanos,
            ext_bytes: self.ext_bytes@,
        }
    }
}

/// The greatest delay: the default if only a least one is given, and no more than fits.
pub open spec fn greatest_delay(min_delay_ms: u32, max_delay_ms: u32) -> u32 {
    if max_delay_ms == 0 && min_delay_ms > 0 {
        MAX_PLAYOUT_DELAY_DEFAULT_MS as u32
    } else if max_delay_ms > PLAYOUT_DELAY_MAX_VALUE_MS {
        PLAYOUT_DELAY_MAX_VALUE_MS as u32
    } else {
        max_delay_ms
    }
}

/// The bytes of the extension. Of each delay the low 16 bits count, as far as they fit.
pub open spec fn extension_of(current_delay_ms: u32, max_delay_ms: u32) -> Seq<u8> {
    crate::playout_delay::big_endian(
        PlayOutDelay {
            min_ms: crate::playout_delay::clamped((current_delay_ms % 0x1_0000) as u16),
            max_ms: crate::playout_delay::clamped((max_delay_ms % 0x1_0000) as u16),
        }.bits(),
    )
}

/// How far the delay may change after a time.
pub open spec fn change_limit(elapsed_nanos: int) -> int {
    if elapsed_nanos <= 0 {
        0
    } else if elapsed_nanos / (NANOS_PER_DELAY_CHANGE as int) > MAX_DELAY_CHANGE_PER_SEC {
        MAX_DELAY_CHANGE_PER_SEC as int
    } else {
        elapsed_nanos / (NANOS_PER_DELAY_CHANGE as int)
    }
}

/// `value` moved into the range: up to the least, then down to the greatest.
pub open spec fn within(value: int, least: int, greatest: int) -> int {
    let raised = if value < least {
        least
    } else {
        value
    };
    if raised > greatest {
        greatest
    } else {
        raised
    }
}

/// The number of 32 bits that is nearest.
pub open spec fn saturated(value: int) -> int {
    within(value, 0, u32::MAX as int)
}

impl ControllerView {
    /// The delay that a jitter asks for, as far as it may change by now, and within the limits.
    pub open spec fn delay_for(self, jitter_ms: u32, now_nanos: u64) -> u32 {
        let limit = change_limit(now_nanos - self.sending_at_nanos);
        let wanted = saturated(jitter_ms * JITTER_MULTI_TO_DELAY);
        let current = self.current_delay_ms as int;
        let reached = if wanted > saturated(current + limit) {
            saturated(current + limit)
        } else if current > saturated(wanted + limit) {
            saturated(current - limit)
        } else {
            wanted
        };
        within(reached, self.min_delay_ms as int, self.max_delay_ms as int) as u32
    }

    /// The controller with a delay that receivers do not know.
    pub open spec fn with_delay(self, delay_ms: u32) -> Self {
        ControllerView {
            state: PlayoutDelayState::Changed,
            current_delay_ms: delay_ms,
            ext_bytes: extension_of(delay_ms, self.max_delay_ms),
            ..self
        }
    }

    /// The controller after a jitter was measured.
    pub open spec fn with_jitter(self, jitter_ms: u32, now_nanos: u64) -> Self {
        if self.delay_for(jitter_ms, now_nanos) == self.current_delay_ms {
            self
        } else {
            self.with_delay(self.delay_for(jitter_ms, now_nanos))
        }
    }

    /// The controller after a packet was acknowledged. The delay is known once a packet is that was
    /// sent with it, or after.
    pub open spec fn after_ack(self, seq: u16) -> Self {
        if self.state == PlayoutDelayState::Sending && seq.wrapping_sub(self.sending_at_seq)
            < 0x8000 {
            ControllerView { state: PlayoutDelayState::Acked, ..self }
        } else {
            self
        }
    }

    /// The controller after a packet was sent.
    pub open spec fn after_send(self, seq: u16, now_nanos: u64) -> Self {
        if self.state == PlayoutDelayState::Changed {
            ControllerView {
                state: PlayoutDelayState::Sending,
                sending_at_seq: seq,
                sending_at_nanos: now_nanos,
                ..self
            }
        } else {
            self
        }
    }
}

impl PlayoutDelayController {
    /// The bytes are those of the delay.
    pub open spec fn wf(self) -> bool {
        self.ext_bytes@ == extension_of(self.current_delay_ms, self.max_delay_ms)
    }

    /// A controller that begins with the least delay.
    pub fn new(min_delay_ms: u32, max_delay_ms: u32, now_nanos: u64) -> (controller: Self)
        ensures
            controller.wf(),
            controller@ == (ControllerView {
                state: PlayoutDelayState::Changed,
                min_delay_ms,
                max_delay_ms: greatest_delay(min_delay_ms, max_delay_ms),
                current_delay_ms: min_delay_ms,
                sending_at_seq: 0,
                sending_at_nanos: now_nanos,
                ext_bytes: extension_of(min_delay_ms, greatest_delay(min_delay_ms, max_delay_ms)),
            }),
    {
        let mut greatest: u32 = max_delay_ms;
        if max_delay_ms == 0 && min_delay_ms > 0 {
            greatest = MAX_PLAYOUT_DELAY_DEFAULT_MS as u32;
        }
        if greatest > PLAYOUT_DELAY_MAX_VALUE_MS as u32 {
            greatest = PLAYOUT_DELAY_MAX_VALUE_MS as u32;
        }
        let mut controller = PlayoutDelayController {
            state: PlayoutDelayState::Changed,
            min_delay_ms,
            max_delay_ms: greatest,
            current_delay_ms: min_delay_ms,
            sending_at_seq: 0,
            sending_at_nanos: now_nanos,
            ext_bytes: Vec::new(),
        };
        controller.refresh_extension_bytes();
        controller
    }

    /// Takes note of a jitter.
    pub fn set_jitter(&mut self, jitter_ms: u32, now_nanos: u64)
        requires
            old(self).wf(),
        ensures
            final(self).wf(),
            final(self)@ == old(self)@.with_jitter(jitter_ms, now_nanos),
    {
        let mut target_delay: u32 = match jitter_ms.checked_mul(JITTER_MULTI_TO_DELAY) {
            Some(delay) => delay,
            None => u32::MAX,
        };
        let elapsed: u64 = now_nanos.saturating_sub(self.sending_at_nanos);
        let steps: u64 = elapsed / NANOS_PER_DELAY_CHANGE;
        let delay_change_limit: u32 = if steps > MAX_DELAY_CHANGE_PER_SEC as u64 {
            MAX_DELAY_CHANGE_PER_SEC
        } else {
            steps as u32
        };
        assert(delay_change_limit == change_limit(now_nanos - self.sending_at_nanos));
        assert(target_delay == saturated(jitter_ms * JITTER_MULTI_TO_DELAY));
        if target_delay > self.current_delay_ms.saturating_add(delay_change_limit) {
            target_delay = self.current_delay_ms.saturating_add(delay_change_limit);
        } else if self.current_delay_ms > target_delay.saturating_add(delay_change_limit) {
            target_delay = self.current_delay_ms.saturating_sub(delay_change_limit);
        }
        if target_delay < self.min_delay_ms {
            target_delay = self.min_delay_ms;
        }
        if target_delay > self.max_delay_ms {
            target_delay = self.max_delay_ms;
        }
        assert(target_delay == self@.delay_for(jitter_ms, now_nanos));
        if target_delay == self.current_delay_ms {
            return;
        }
        self.current_delay_ms = target_delay;
        self.refresh_extension_bytes();
    }

    /// Takes note of an acknowledgement.
    pub fn on_seq_acked(&mut self, seq: u16)
        requires
            old(self).wf(),
        ensures
            final(self).wf(),
            final(self)@ == old(self)@.after_ack(seq),
    {
        if self.state == PlayoutDelayState::Sending && seq.wrapping_sub(self.sending_at_seq)
            < 0x8000 {
            self.state = PlayoutDelayState::Acked;
        }
    }

    /// The extension for a packet, until receivers know the delay.
    pub fn get_delay_extension(&mut self, seq: u16, now_nanos: u64) -> (extension: Option<Vec<u8>>)
        requires
            old(self).wf(),
        ensures
            final(self).wf(),
            final(self)@ == old(self)@.after_send(seq, now_nanos),
            match extension {
                Some(extension) => old(self)@.state != PlayoutDelayState::Acked && extension@
                    == old(self)@.ext_bytes,
                None => old(self)@.state == PlayoutDelayState::Acked,
            },
    {
        match self.state {
            PlayoutDelayState::Changed => {
                self.state = PlayoutDelayState::Sending;
                self.sending_at_seq = seq;
                self.sending_at_nanos = now_nanos;
                Some(copy_bytes(self.ext_bytes.as_slice()))
            },
            PlayoutDelayState::Sending => Some(copy_bytes(self.ext_bytes.as_slice())),
            PlayoutDelayState::Acked => None,
        }
    }

    /// Writes the delay into the extension. Receivers do not know it yet.
    pub fn refresh_extension_bytes(&mut self)
        ensures
            final(self).wf(),
            final(self)@ == old(self)@.with_delay(old(self)@.current_delay_ms),
    {
        let delay: PlayOutDelay = PlayOutDelay::from_value(
            (self.current_delay_ms % 0x1_0000) as u16,
            (self.max_delay_ms % 0x1_0000) as u16,
        );
        if let Ok(bytes) = delay.marshal() {
            let mut ext: Vec<u8> = Vec::new();
            ext.push(bytes[0]);
            ext.push(bytes[1]);
            ext.push(bytes[2]);
            assert(ext@ =~= bytes@);
            self.ext_bytes = ext;
        }
        self.state = PlayoutDelayState::Changed;
    }
}

/// The delay stays within its limits, and changes by no more than the time allows, but where it
/// is outside of its limits.
pub proof fn law_delay_changes_slowly(controller: ControllerView, jitter_ms: u32, now_nanos: u64)
    requires
        controller.min_delay_ms <= controller.current_delay_ms <= controller.max_delay_ms,
    ensures
        ({
            let after = controller.with_jitter(jitter_ms, now_nanos);
            let limit = change_limit(now_nanos - controller.sending_at_nanos);
            &&& after.min_delay_ms <= after.current_delay_ms
            &&& after.current_delay_ms <= after.max_delay_ms
            &&& after.current_delay_ms <= controller.current_delay_ms + limit
            &&& controller.current_delay_ms <= after.current_delay_ms + limit
            &&& limit <= MAX_DELAY_CHANGE_PER_SEC
        }),
{
}

/// A delay is sent with every packet until a packet that was sent with it is acknowledged, and
/// not after that.
pub proof fn law_delay_is_sent_until_acknowledged(
    controller: ControllerView,
    first: u16,
    acknowledged: u16,
    now_nanos: u64,
)
    requires
        controller.state == PlayoutDelayState::Changed,
    ensures
        ({
            let sent = controller.after_send(first, now_nanos);
            let known = sent.after_ack(acknowledged);
            &&& sent.state == PlayoutDelayState::Sending
            &&& acknowledged.wrapping_sub(first) < 0x8000 ==> known.state
                == PlayoutDelayState::Acked
            &&& acknowledged.wrapping_sub(first) >= 0x8000 ==> known == sent
        }),
{
}

/// The delay goes to ten times the jitter, within the limits, as far as the time since the last
/// change was sent allows: a millisecond for every twelve and a half, and eighty at most.
pub proof fn law_delay_follows_the_jitter(
    controller: ControllerView,
    jitter_ms: u32,
    now_nanos: u64,
    limit: int,
)
    requires
        controller.min_delay_ms <= controller.current_delay_ms <= controller.max_delay_ms,
        controller.max_delay_ms <= 40_950,
        jitter_ms <= 1_000_000,
        now_nanos >= controller.sending_at_nanos,
        0 <= limit <= 80,
        limit < 80 ==> limit * 12_500_000 <= now_nanos - controller.sending_at_nanos < (limit + 1)
            * 12_500_000,
        limit == 80 ==> now_nanos - controller.sending_at_nanos >= 1_000_000_000,
    ensures
        ({
            let wanted = 10 * jitter_ms as int;
            let current = controller.current_delay_ms as int;
            let delay = controller.delay_for(jitter_ms, now_nanos) as int;
            &&& current - limit <= wanted <= current + limit && controller.min_delay_ms <= wanted
                <= controller.max_delay_ms ==> delay == wanted
            &&& wanted > current + limit && current + limit <= controller.max_delay_ms ==> delay
                == current + limit
            &&& wanted < current - limit && current - limit >= controller.min_delay_ms ==> delay
                == current - limit
            &&& wanted >= controller.max_delay_ms && current + limit >= controller.max_delay_ms
                ==> delay == controller.max_delay_ms
            &&& wanted <= controller.min_delay_ms && current - limit <= controller.min_delay_ms
                ==> delay == controller.min_delay_ms
        }),
{
}

/// A delay that changes is to be sent, with the bytes that hold it and the greatest delay; one that
/// stays changes nothing.
pub proof fn law_changed_delay_is_to_be_sent(
    controller: ControllerView,
    jitter_ms: u32,
    now_nanos: u64,
)
    ensures
        ({
            let after = controller.with_jitter(jitter_ms, now_nanos);
            let delay = controller.delay_for(jitter_ms, now_nanos);
            &&& delay == controller.current_delay_ms ==> after == controller
            &&& delay != controller.current_delay_ms ==> after.state == PlayoutDelayState::Changed
                && after.current_delay_ms == delay && after.ext_bytes == extension_of(
                delay,
                controller.max_delay_ms,
            )
            &&& after.min_delay_ms == controller.min_delay_ms
            &&& after.max_delay_ms == controller.max_delay_ms
            &&& after.sending_at_seq == controller.sending_at_seq
            &&& after.sending_at_nanos == controller.sending_at_nanos
        }),
{
}

/// Only the first packet after a change is remembered as the one that the delay was sent with, and
/// an acknowledgement counts only while the delay is being sent.
pub proof fn law_sending_begins_once(controller: ControllerView, seq: u16, now_nanos: u64)
    ensures
        controller.state == PlayoutDelayState::Changed ==> controller.after_send(
            seq,
            now_nanos,
        ).sending_at_seq == seq && controller.after_send(seq, now_nanos).sending_at_nanos
            == now_nanos && controller.after_send(seq, now_nanos).state
            == PlayoutDelayState::Sending,
        controller.state != PlayoutDelayState::Changed ==> controller.after_send(seq, now_nanos)
            == controller,
        controller.state != PlayoutDelayState::Sending ==> controller.after_ack(seq) == controller,
        controller.after_send(seq, now_nanos).current_delay_ms == controller.current_delay_ms,
        controller.after_send(seq, now_nanos).ext_bytes == controller.ext_bytes,
{
}

/// The greatest delay is ten seconds where only a least one is given, and no more than fits.
pub proof fn law_greatest_delay_is_given_or_taken(min_delay_ms: u32, max_delay_ms: u32)
    ensures
        greatest_delay(min_delay_ms, max_delay_ms) <= 40_950,
        0 < max_delay_ms <= 40_950 ==> greatest_delay(min_delay_ms, max_delay_ms) == max_delay_ms,
        max_delay_ms > 40_950 ==> greatest_delay(min_delay_ms, max_delay_ms) == 40_950,
        max_delay_ms == 0 && min_delay_ms > 0 ==> greatest_delay(min_delay_ms, max_delay_ms)
            == 10_000,
        max_delay_ms == 0 && min_delay_ms == 0 ==> greatest_delay(min_delay_ms, max_delay_ms) == 0,
{
}

/// The extension holds the current delay as the least one, and the greatest one.
pub proof fn law_extension_holds_the_delays(current_delay_ms: u32, max_delay_ms: u32)
    requires
        current_delay_ms <= 40_950,
        max_delay_ms <= 40_950,
    ensures
        ({
            let bytes = extension_of(current_delay_ms, max_delay_ms);
            &&& bytes.len() == 3
            &&& bytes[0] * 16 + bytes[1] / 16 == current_delay_ms / 10
            &&& bytes[1] % 16 * 256 + bytes[2] == max_delay_ms / 10
        }),
{
    let delay = PlayOutDelay { min_ms: current_delay_ms as u16, max_ms: max_delay_ms as u16 };
    crate::playout_delay::law_delays_are_made_to_fit(delay.min_ms, delay.max_ms);
    crate::playout_delay::law_delay_stands_in_its_bytes(delay);
}

} // verus!
