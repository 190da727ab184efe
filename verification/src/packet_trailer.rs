//! Detection of the `LKTS` trailer that senders may append to an RTP payload.
use vstd::prelude::*;

verus! {

/// The four bytes that end every packet trailer.
pub const PACKET_TRAILER_MAGIC: [u8; 4] = [0x4Cu8, 0x4Bu8, 0x54u8, 0x53u8];

/// The mask that the trailer length is stored under.
pub const XOR_BYTE: u8 = 0xFF;

/// One length byte and the magic.
pub const ENVELOPE_SIZE: usize = 5;

/// The trailer length that the envelope of `payload` announces.
pub open spec fn announced_trailer_len(payload: Seq<u8>) -> int {
    (payload[payload.len() - 5] ^ XOR_BYTE) as int
}

/// `payload` ends in an envelope whose announced length fits both the envelope and the payload.
pub open spec fn has_packet_trailer(payload: Seq<u8>) -> bool {
    &&& payload.len() >= ENVELOPE_SIZE
    &&& payload.subrange(payload.len() - 4, payload.len() as int) == PACKET_TRAILER_MAGIC@
    &&& ENVELOPE_SIZE <= announced_trailer_len(payload) <= payload.len()
}

/// Returns the number of bytes to strip from the end of an RTP payload
/// when a valid LKTS trailer suffix is present.
pub fn strip_packet_trailer(payload: &[u8], marker: bool) -> (stripped: usize)
    ensures
        stripped == if marker && has_packet_trailer(payload@) {
            announced_trailer_len(payload@)
        } else {
            0
        },
{
    let len: usize = payload.len();
    if !marker || len < ENVELOPE_SIZE {
        return 0;
    }
    let ghost tail = payload@.subrange(len - 4, len as int);
    let mut i: usize = 0;
    while i < 4
        invariant
            i <= 4,
            len == payload@.len(),
            len >= ENVELOPE_SIZE,
            tail == payload@.subrange(len - 4, len as int),
            forall|j: int| 0 <= j < i ==> tail[j] == PACKET_TRAILER_MAGIC@[j],
        decreases 4 - i,
    {
        if payload[len - 4 + i] != PACKET_TRAILER_MAGIC[i] {
            assert(tail[i as int] != PACKET_TRAILER_MAGIC@[i as int]);
            return 0;
        }
        i += 1;
    }
    assert(tail =~= PACKET_TRAILER_MAGIC@);
    let trailer_len: usize = (payload[len - 5] ^ XOR_BYTE) as usize;
    if trailer_len < ENVELOPE_SIZE || trailer_len > len {
        return 0;
    }
    trailer_len
}

/// A payload that ends with a length under its mask and the four bytes of the magic has a trailer
/// of that length, where the length takes in those five bytes and no more than there are.
pub proof fn law_marked_trailer_is_found(front: Seq<u8>, length: u8)
    ensures
        ({
            let payload = front + seq![(0xff - length) as u8, 0x4cu8, 0x4bu8, 0x54u8, 0x53u8];
            &&& announced_trailer_len(payload) == length
            &&& has_packet_trailer(payload) <==> 5 <= length <= payload.len()
        }),
{
    let payload = front + seq![(0xff - length) as u8, 0x4cu8, 0x4bu8, 0x54u8, 0x53u8];
    let masked = (0xff - length) as u8;
    assert(masked ^ 0xff == 0xff - masked) by (bit_vector);
    assert(payload.subrange(payload.len() - 4, payload.len() as int)
        =~= seq![0x4cu8, 0x4bu8, 0x54u8, 0x53u8]);
    assert(PACKET_TRAILER_MAGIC@ =~= seq![0x4cu8, 0x4bu8, 0x54u8, 0x53u8]);
}

/// A payload that does not end with the four bytes of the magic has no trailer.
pub proof fn law_unmarked_payload_has_no_trailer(payload: Seq<u8>)
    requires
        payload.len() < 5 || payload[payload.len() - 4] != 0x4c || payload[payload.len() - 3]
            != 0x4b || payload[payload.len() - 2] != 0x54 || payload[payload.len() - 1] != 0x53,
    ensures
        !has_packet_trailer(payload),
{
    if payload.len() >= 5 {
        let tail = payload.subrange(payload.len() - 4, payload.len() as int);
        assert(tail[0] == payload[payload.len() - 4] && tail[1] == payload[payload.len() - 3]);
        assert(tail[2] == payload[payload.len() - 2] && tail[3] == payload[payload.len() - 1]);
        assert(PACKET_TRAILER_MAGIC@ =~= seq![0x4cu8, 0x4bu8, 0x54u8, 0x53u8]);
    }
}

} // verus!
