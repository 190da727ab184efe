//! The header extension that limits how long a receiver buffers.
use vstd::prelude::*;

verus! {

/// How many bytes the extension has.
pub const PLAYOUT_DELAY_EXTENSION_SIZE: usize = 3;

/// The name of the extension.
pub const PLAYOUT_DELAY_URI: &'static str =
    "http://www.webrtc.org/experiments/rtp-hdrext/playout-delay";

/// The greatest delay where none is given.
pub const MAX_PLAYOUT_DELAY_DEFAULT_MS: u16 = 10_000;

/// The greatest delay that the extension can hold.
pub const PLAYOUT_DELAY_MAX_VALUE_MS: u16 = 40_950;

/// Why a delay cannot be written or read.
#[derive(Debug, Clone, Copy, PartialEq, Eq, Structural)]
pub enum PlayOutDelayError {
    Overflow,
    BufferTooSmall,
}

/// The least and the greatest delay, in milliseconds.
#[derive(Debug, Clone, Copy, PartialEq, Eq, Structural)]
pub struct PlayOutDelay {
    pub min_ms: u16,
    pub max_ms: u16,
}

/// The greatest delay that fits.
pub open spec fn clamped(delay_ms: u16) -> u16 {
    if delay_ms <= PLAYOUT_DELAY_MAX_VALUE_MS {
        delay_ms
    } else {
        PLAYOUT_DELAY_MAX_VALUE_MS
    }
}

impl PlayOutDelay {
    /// Both delays, in units of ten milliseconds, have no more than twelve bits.
    pub open spec fn fits(self) -> bool {
        self.min_ms / 10 < 4096 && self.max_ms / 10 < 4096
    }

    /// The 24 bits of the extension: twelve bits of the least delay, then twelve of the greatest,
    /// in units of ten milliseconds.
    pub open spec fn bits(self) -> int {
        (self.min_ms / 10) * 4096 + self.max_ms / 10
    }

    /// The delays as far as they fit.
    pub fn from_value(min_ms: u16, max_ms: u16) -> (delay: Self)
        ensures
            delay == (PlayOutDelay { min_ms: clamped(min_ms), max_ms: clamped(max_ms) }),
            delay.fits(),
    {
        let least: u16 = if min_ms <= PLAYOUT_DELAY_MAX_VALUE_MS {
            min_ms
        } else {
            PLAYOUT_DELAY_MAX_VALUE_MS
        };
        let greatest: u16 = if max_ms <= PLAYOUT_DELAY_MAX_VALUE_MS {
            max_ms
        } else {
            PLAYOUT_DELAY_MAX_VALUE_MS
        };
        PlayOutDelay { min_ms: least, max_ms: greatest }
    }

    /// The bytes of the extension, most significant first.
    pub fn marshal(self) -> (result: Result<[u8; PLAYOUT_DELAY_EXTENSION_SIZE], PlayOutDelayError>)
        ensures
            match result {
                Ok(bytes) => self.fits() && bytes@ == big_endian(self.bits()),
                Err(error) => !self.fits() && error == PlayOutDelayError::Overflow,
            },
    {
        let min_units: u16 = self.min_ms / 10;
        let max_units: u16 = self.max_ms / 10;
        if min_units >= 4096 || max_units >= 4096 {
            return Err(PlayOutDelayError::Overflow);
        }
        let first: u8 = (min_units / 16) as u8;
        let second: u8 = ((min_units % 16) * 16 + max_units / 256) as u8;
        let third: u8 = (max_units % 256) as u8;
        let bytes: [u8; PLAYOUT_DELAY_EXTENSION_SIZE] = [first, second, third];
        proof {
            assert(min_units == 16 * (min_units / 16) + min_units % 16);
            assert(max_units == 256 * (max_units / 256) + max_units % 256);
            assert(self.bits() == first * 65536 + second * 256 + third);
            lemma_big_endian(first, second, third);
        }
        assert(bytes@ =~= big_endian(self.bits()));
        Ok(bytes)
    }

    /// Reads the extension. Bytes after it are passed over.
    pub fn unmarshal(raw_data: &[u8]) -> (result: Result<Self, PlayOutDelayError>)
        ensures
            match result {
                Ok(delay) => {
                    &&& raw_data@.len() >= PLAYOUT_DELAY_EXTENSION_SIZE
                    &&& delay.min_ms % 10 == 0 && delay.max_ms % 10 == 0
                    &&& delay.fits()
                    &&& big_endian(delay.bits()) == raw_data@.take(3)
                },
                Err(error) => raw_data@.len() < PLAYOUT_DELAY_EXTENSION_SIZE && error
                    == PlayOutDelayError::BufferTooSmall,
            },
    {
        if raw_data.len() < PLAYOUT_DELAY_EXTENSION_SIZE {
            return Err(PlayOutDelayError::BufferTooSmall);
        }
        let min_units: u16 = raw_data[0] as u16 * 16 + raw_data[1] as u16 / 16;
        let max_units: u16 = raw_data[1] as u16 % 16 * 256 + raw_data[2] as u16;
        let delay = PlayOutDelay { min_ms: min_units * 10, max_ms: max_units * 10 };
        proof {
            let second = raw_data@[1];
            assert(second == 16 * (second / 16) + second % 16);
            assert(delay.min_ms / 10 == min_units && delay.max_ms / 10 == max_units);
            assert(delay.bits() == raw_data@[0] * 65536 + raw_data@[1] * 256 + raw_data@[2]);
            lemma_big_endian(raw_data@[0], raw_data@[1], raw_data@[2]);
            assert(big_endian(delay.bits()) =~= raw_data@.take(3));
        }
        Ok(delay)
    }
}

/// The three bytes of a number, most significant first.
pub open spec fn big_endian(bits: int) -> Seq<u8> {
    seq![(bits / 65536) as u8, (bits / 256 % 256) as u8, (bits % 256) as u8]
}

proof fn lemma_big_endian(first: u8, second: u8, third: u8)
    ensures
        big_endian(first * 65536 + second * 256 + third) == seq![first, second, third],
{
    let bits = first * 65536 + second * 256 + third;
    assert(bits % 256 == third);
    assert(bits / 256 == first * 256 + second);
    assert(bits / 256 % 256 == second);
    assert(bits / 65536 == first);
    assert(big_endian(bits) =~= seq![first, second, third]);
}

/// Two delays of whole units with the same bytes are the same.
pub proof fn law_bytes_determine_delay(a: PlayOutDelay, b: PlayOutDelay)
    requires
        a.fits(),
        b.fits(),
        a.min_ms % 10 == 0,
        a.max_ms % 10 == 0,
        b.min_ms % 10 == 0,
        b.max_ms % 10 == 0,
        big_endian(a.bits()) == big_endian(b.bits()),
    ensures
        a == b,
{
    let x = big_endian(a.bits());
    let y = big_endian(b.bits());
    assert(x[0] == y[0] && x[1] == y[1] && x[2] == y[2]);
    assert(a.bits() == x[0] * 65536 + x[1] * 256 + x[2]);
    assert(b.bits() == y[0] * 65536 + y[1] * 256 + y[2]);
}

/// What was written is read back, each delay rounded down to a whole unit.
pub proof fn law_written_delay_is_read_back(written: PlayOutDelay, read: PlayOutDelay)
    requires
        written.fits(),
        read.fits(),
        read.min_ms % 10 == 0,
        read.max_ms % 10 == 0,
        big_endian(read.bits()) == big_endian(written.bits()),
    ensures
        read.min_ms == written.min_ms - written.min_ms % 10,
        read.max_ms == written.max_ms - written.max_ms % 10,
{
    let whole = PlayOutDelay {
        min_ms: (written.min_ms - written.min_ms % 10) as u16,
        max_ms: (written.max_ms - written.max_ms % 10) as u16,
    };
    assert(whole.bits() == written.bits());
    law_bytes_determine_delay(read, whole);
}

/// A delay that fits stands in the three bytes in units of ten milliseconds: the least in the first
/// byte and the upper half of the second, the greatest in the rest.
pub proof fn law_delay_stands_in_its_bytes(delay: PlayOutDelay)
    requires
        delay.fits(),
    ensures
        ({
            let bytes = big_endian(delay.bits());
            &&& bytes.len() == 3
            &&& bytes[0] * 16 + bytes[1] / 16 == delay.min_ms / 10
            &&& bytes[1] % 16 * 256 + bytes[2] == delay.max_ms / 10
        }),
{
}

/// The delays that fit are those below forty thousand nine hundred and sixty milliseconds, and a
/// delay is made to fit by the greatest one where it is above that.
pub proof fn law_delays_are_made_to_fit(delay_ms: u16, other_ms: u16)
    ensures
        clamped(delay_ms) <= 40_950,
        delay_ms <= 40_950 ==> clamped(delay_ms) == delay_ms,
        delay_ms > 40_950 ==> clamped(delay_ms) == 40_950,
        (PlayOutDelay { min_ms: clamped(delay_ms), max_ms: clamped(other_ms) }).fits(),
        (PlayOutDelay { min_ms: delay_ms, max_ms: other_ms }).fits() <==> delay_ms < 40_960
            && other_ms < 40_960,
{
}

} // verus!
