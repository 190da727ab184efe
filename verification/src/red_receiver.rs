//! Redundant audio: packets that carry the packets before them once more (RFC 2198).
use vstd::prelude::*;

use crate::bytes::copy_bytes;

verus! {

/// How many packets before it a packet carries at most.
pub const MAX_RED_COUNT: usize = 2;

/// The payload type of the audio that is carried.
pub const OPUS_PT: u8 = 111;

/// How many blocks a packet can have for its redundant ones to have a bit each: one of them is
/// the primary one.
pub const MAX_RED_BLOCKS: usize = 9;

/// The parts of an RTP packet that redundancy is about.
#[derive(Debug, Clone, PartialEq, Eq)]
pub struct RtpPacketLite {
    pub sequence_number: u16,
    pub timestamp: u32,
    pub payload_type: u8,
    pub payload: Vec<u8>,
}

/// The contents of an [`RtpPacketLite`].
#[verifier::ext_equal]
pub struct PacketView {
    pub sequence_number: u16,
    pub timestamp: u32,
    pub payload_type: u8,
    pub payload: Seq<u8>,
}

impl View for RtpPacketLite {
    type V = PacketView;

    open spec fn view(&self) -> PacketView {
        PacketView {
            sequence_number: self.sequence_number,
            timestamp: self.timestamp,
            payload_type: self.payload_type,
            payload: self.payload@,
        }
    }
}

impl RtpPacketLite {
    /// A packet with the parts.
    pub fn with_payload(
        sequence_number: u16,
        timestamp: u32,
        payload_type: u8,
        payload: Vec<u8>,
    ) -> (packet: Self)
        ensures
            packet@ == (PacketView { sequence_number, timestamp, payload_type, payload: payload@ }),
    {
        RtpPacketLite { sequence_number, timestamp, payload_type, payload }
    }

    /// A packet with the same contents.
    pub fn duplicate(&self) -> (copy: Self)
        ensures
            copy@ == self@,
    {
        RtpPacketLite::with_payload(
            self.sequence_number,
            self.timestamp,
            self.payload_type,
            copy_bytes(&self.payload),
        )
    }
}

/// The contents of packets.
pub open spec fn packet_views(packets: Seq<RtpPacketLite>) -> Seq<PacketView> {
    packets.map_values(|packet: RtpPacketLite| packet@)
}

/// One block of a redundant payload.
#[derive(Debug, Clone, Copy, PartialEq, Eq, Structural)]
pub struct RedBlock {
    pub ts_offset: u32,
    pub length: usize,
    pub pt: u8,
    pub primary: bool,
}

/// Why a redundant payload cannot be read or written.
#[derive(Debug, Clone, Copy, PartialEq, Eq, Structural)]
pub enum RedError {
    IncompleteHeader,
    IncompleteBlock,
}

/// The header of a redundant block: a bit that says that another header follows, the payload
/// type in 7 bits, how much older the block is in 14 bits, and its length in 10 bits.
pub open spec fn block_header(timestamp: u32, packet: PacketView) -> Seq<u8> {
    let offset = timestamp.wrapping_sub(packet.timestamp) as int % 0x4000;
    let length = packet.payload.len() as int % 0x400;
    seq![
        (0x80 + OPUS_PT) as u8,
        (offset / 64) as u8,
        (offset % 64 * 4 + length / 256) as u8,
        (length % 256) as u8,
    ]
}

/// The headers of the redundant packets of a packet with the timestamp.
pub open spec fn block_headers(timestamp: u32, packets: Seq<PacketView>) -> Seq<u8>
    decreases packets.len(),
{
    if packets.len() == 0 {
        Seq::empty()
    } else {
        block_headers(timestamp, packets.drop_last()) + block_header(timestamp, packets.last())
    }
}

/// The payloads of the packets, one after the other.
pub open spec fn payloads(packets: Seq<PacketView>) -> Seq<u8>
    decreases packets.len(),
{
    if packets.len() == 0 {
        Seq::empty()
    } else {
        payloads(packets.drop_last()) + packets.last().payload
    }
}

/// The redundant payload that carries `packets` besides `primary`.
pub open spec fn encoding(packets: Seq<PacketView>, primary: PacketView) -> Seq<u8> {
    block_headers(primary.timestamp, packets) + seq![OPUS_PT] + payloads(packets)
        + primary.payload
}

/// The packets that are carried besides `primary` where there is room for `room` bytes: all or
/// none.
pub open spec fn carried(packets: Seq<PacketView>, primary: PacketView, room: nat) -> Seq<
    PacketView,
> {
    if encoding(packets, primary).len() <= room {
        packets
    } else {
        Seq::empty()
    }
}

/// What is in the room after the payload was written to it.
pub open spec fn written(before: Seq<u8>, bytes: Seq<u8>) -> Seq<u8> {
    bytes + before.skip(bytes.len() as int)
}

proof fn lemma_sizes(timestamp: u32, packets: Seq<PacketView>)
    ensures
        block_headers(timestamp, packets).len() == 4 * packets.len(),
        block_headers(timestamp, packets).len() + payloads(packets).len() == carried_size(packets),
    decreases packets.len(),
{
    if packets.len() > 0 {
        lemma_sizes(timestamp, packets.drop_last());
    }
}

/// How many bytes the redundant packets take.
pub open spec fn carried_size(packets: Seq<PacketView>) -> nat
    decreases packets.len(),
{
    if packets.len() == 0 {
        0
    } else {
        carried_size(packets.drop_last()) + packets.last().payload.len() + 4
    }
}

/// Appends bytes.
fn append_bytes(target: &mut Vec<u8>, bytes: &[u8])
    ensures
        final(target)@ == old(target)@ + bytes@,
{
    let ghost before = target@;
    let mut i: usize = 0;
    while i < bytes.len()
        invariant
            i <= bytes@.len(),
            target@ == before + bytes@.take(i as int),
        decreases bytes.len() - i,
    {
        target.push(bytes[i]);
        i += 1;
        assert(target@ =~= before + bytes@.take(i as int));
    }
    assert(bytes@.take(i as int) =~= bytes@);
}

/// Writes bytes to the front of a buffer.
fn put_bytes(buffer: &mut [u8], bytes: &[u8])
    requires
        bytes@.len() <= old(buffer)@.len(),
    ensures
        final(buffer)@ == written(old(buffer)@, bytes@),
{
    let ghost before = buffer@;
    let mut i: usize = 0;
    while i < bytes.len()
        invariant
            i <= bytes@.len(),
            bytes@.len() <= before.len(),
            buffer@ == written(before, bytes@.take(i as int)),
        decreases bytes.len() - i,
    {
        buffer[i] = bytes[i];
        i += 1;
        assert(buffer@ =~= written(before, bytes@.take(i as int)));
    }
    assert(bytes@.take(i as int) =~= bytes@);
}

/// The header of a redundant block.
fn header_bytes(timestamp: u32, packet: &RtpPacketLite) -> (header: [u8; 4])
    ensures
        header@ == block_header(timestamp, packet@),
{
    let offset: u32 = timestamp.wrapping_sub(packet.timestamp) % 0x4000;
    let length: usize = packet.payload.len() % 0x400;
    let header: [u8; 4] = [
        0x80 + OPUS_PT,
        (offset / 64) as u8,
        (offset % 64 * 4) as u8 + (length / 256) as u8,
        (length % 256) as u8,
    ];
    assert(header@ =~= block_header(timestamp, packet@));
    header
}

/// The payload that carries the packets besides `primary`.
fn encoded(packets: &[RtpPacketLite], primary: &RtpPacketLite) -> (bytes: Vec<u8>)
    ensures
        bytes@ == encoding(packet_views(packets@), primary@),
{
    let ghost views = packet_views(packets@);
    let mut bytes: Vec<u8> = Vec::new();
    let mut i: usize = 0;
    while i < packets.len()
        invariant
            i <= packets@.len(),
            views == packet_views(packets@),
            bytes@ == block_headers(primary@.timestamp, views.take(i as int)),
        decreases packets.len() - i,
    {
        let header: [u8; 4] = header_bytes(primary.timestamp, &packets[i]);
        append_bytes(&mut bytes, &header);
        i += 1;
        assert(views.take(i as int).drop_last() =~= views.take(i - 1));
    }
    bytes.push(OPUS_PT);
    let ghost front = bytes@;
    let mut j: usize = 0;
    while j < packets.len()
        invariant
            j <= packets@.len(),
            views == packet_views(packets@),
            bytes@ == front + payloads(views.take(j as int)),
        decreases packets.len() - j,
    {
        append_bytes(&mut bytes, &packets[j].payload);
        j += 1;
        assert(views.take(j as int).drop_last() =~= views.take(j - 1));
        assert(bytes@ =~= front + payloads(views.take(j as int)));
    }
    assert(views.take(packets@.len() as int) =~= views);
    append_bytes(&mut bytes, &primary.payload);
    assert(bytes@ =~= encoding(views, primary@));
    bytes
}

/// Writes the payload that carries `red_pkts` besides `primary`, or `primary` alone where there
/// is no room for all of them. Gives the length of what was written.
pub fn encode_red_for_primary_blocks(
    red_pkts: &[RtpPacketLite],
    primary: &RtpPacketLite,
    red_payload: &mut [u8],
) -> (written_bytes: Result<usize, RedError>)
    ensures
        ({
            let room = old(red_payload)@;
            let bytes = encoding(
                carried(packet_views(red_pkts@), primary@, room.len()),
                primary@,
            );
            match written_bytes {
                Ok(count) => bytes.len() <= room.len() && count == bytes.len()
                    && final(red_payload)@ == written(room, bytes),
                Err(error) => bytes.len() > room.len() && error == RedError::IncompleteBlock
                    && final(red_payload)@ == if room.len() == 0 {
                    room
                } else {
                    room.update(0, OPUS_PT)
                },
            }
        }),
{
    let ghost room = red_payload@;
    let ghost views = packet_views(red_pkts@);
    let mut payload_size: usize = primary.payload.len().saturating_add(1);
    let mut i: usize = 0;
    while i < red_pkts.len()
        invariant
            i <= red_pkts@.len(),
            views == packet_views(red_pkts@),
            payload_size == if primary@.payload.len() + 1 + carried_size(views.take(i as int))
                > usize::MAX {
                usize::MAX as nat
            } else {
                primary@.payload.len() + 1 + carried_size(views.take(i as int))
            },
        decreases red_pkts.len() - i,
    {
        payload_size = payload_size.saturating_add(red_pkts[i].payload.len()).saturating_add(4);
        i += 1;
        assert(views.take(i as int).drop_last() =~= views.take(i - 1));
    }
    assert(views.take(i as int) =~= views);
    proof {
        lemma_sizes(primary@.timestamp, views);
        lemma_sizes(primary@.timestamp, Seq::empty());
    }
    let bytes: Vec<u8> = if payload_size > red_payload.len() {
        encoded(&[], primary)
    } else {
        encoded(red_pkts, primary)
    };
    assert(packet_views(Seq::empty()) =~= Seq::empty());
    if bytes.len() <= red_payload.len() {
        put_bytes(red_payload, &bytes);
        Ok(bytes.len())
    } else {
        if red_payload.len() > 0 {
            red_payload[0] = OPUS_PT;
        }
        Err(RedError::IncompleteBlock)
    }
}

/// The block that a header of four bytes stands for.
pub open spec fn block_of(header: Seq<u8>) -> RedBlock {
    RedBlock {
        ts_offset: (header[1] as int * 64 + header[2] as int / 4) as u32,
        length: (header[2] as int % 4 * 256 + header[3]) as usize,
        pt: (header[0] as int % 128) as u8,
        primary: false,
    }
}

/// The blocks that the headers at the front of the payload stand for, of which only the last is
/// the primary one, and what follows the headers.
pub open spec fn block_list(payload: Seq<u8>) -> Result<(Seq<RedBlock>, Seq<u8>), RedError>
    decreases payload.len(),
{
    if payload.len() == 0 {
        Err(RedError::IncompleteHeader)
    } else if payload[0] < 0x80 {
        Ok(
            (
                seq![RedBlock { ts_offset: 0, length: 0, pt: payload[0], primary: true }],
                payload.skip(1),
            ),
        )
    } else if payload.len() < 4 {
        Err(RedError::IncompleteHeader)
    } else {
        led_by(seq![block_of(payload.take(4))], block_list(payload.skip(4)))
    }
}

/// The list with blocks before it.
pub open spec fn led_by(
    blocks: Seq<RedBlock>,
    list: Result<(Seq<RedBlock>, Seq<u8>), RedError>,
) -> Result<(Seq<RedBlock>, Seq<u8>), RedError> {
    match list {
        Ok((others, data)) => Ok((blocks + others, data)),
        Err(error) => Err(error),
    }
}

/// The lengths of the blocks, all together.
pub open spec fn total_length(blocks: Seq<RedBlock>) -> nat
    decreases blocks.len(),
{
    if blocks.len() == 0 {
        0
    } else {
        total_length(blocks.drop_last()) + blocks.last().length as nat
    }
}

/// The blocks of a payload, and the data of all of them.
pub open spec fn layout(payload: Seq<u8>) -> Result<(Seq<RedBlock>, Seq<u8>), RedError> {
    match block_list(payload) {
        Ok((blocks, data)) => if data.len() < total_length(blocks) {
            Err(RedError::IncompleteBlock)
        } else {
            Ok((blocks, data))
        },
        Err(error) => Err(error),
    }
}

/// The packet that lies `back` packets before the redundant one is wanted.
pub open spec fn is_wanted(recover_bits: u8, back: int) -> bool {
    recover_bits & (1u8 << ((back - 1) as u8)) != 0
}

/// The packet that lies `back` packets before the redundant one.
pub open spec fn recovered(packet: PacketView, back: int, block: RedBlock, data: Seq<u8>) ->
    PacketView {
    PacketView {
        sequence_number: packet.sequence_number.wrapping_sub(back as u16),
        timestamp: packet.timestamp.wrapping_sub(block.ts_offset),
        payload_type: block.pt,
        payload: data.take(block.length as int),
    }
}

/// The packets of the blocks: those of the redundant blocks that are wanted, and the primary one.
pub open spec fn unpacked(
    packet: PacketView,
    recover_bits: u8,
    blocks: Seq<RedBlock>,
    data: Seq<u8>,
) -> Seq<PacketView>
    decreases blocks.len(),
{
    if blocks.len() == 0 {
        Seq::empty()
    } else if blocks[0].primary {
        seq![PacketView { payload_type: blocks[0].pt, payload: data, ..packet }]
    } else {
        let back = blocks.len() - 1;
        let others = unpacked(
            packet,
            recover_bits,
            blocks.skip(1),
            data.skip(blocks[0].length as int),
        );
        if is_wanted(recover_bits, back) {
            seq![recovered(packet, back, blocks[0], data)] + others
        } else {
            others
        }
    }
}

/// The packets in a redundant packet.
pub open spec fn extracted(packet: PacketView, recover_bits: u8) -> Result<
    Seq<PacketView>,
    RedError,
> {
    match layout(packet.payload) {
        Ok((blocks, data)) => Ok(unpacked(packet, recover_bits, blocks, data)),
        Err(error) => Err(error),
    }
}

/// Every redundant block of the packet has a bit.
pub open spec fn has_bits(packet: PacketView) -> bool {
    layout(packet.payload) matches Ok((blocks, data)) ==> blocks.len() <= MAX_RED_BLOCKS
}

/// The list ends with its only primary block.
pub open spec fn ends_with_primary(blocks: Seq<RedBlock>) -> bool {
    &&& blocks.len() > 0
    &&& forall|i: int| 0 <= i < blocks.len() ==> #[trigger] blocks[i].primary == (i
        == blocks.len() - 1)
    &&& blocks.last().length == 0
}

proof fn lemma_block_list_ends_with_primary(payload: Seq<u8>)
    ensures
        block_list(payload) matches Ok((blocks, data)) ==> ends_with_primary(blocks),
    decreases payload.len(),
{
    if payload.len() >= 4 && payload[0] >= 0x80 {
        lemma_block_list_ends_with_primary(payload.skip(4));
    }
}

proof fn lemma_total_length_from_front(blocks: Seq<RedBlock>)
    requires
        blocks.len() > 0,
    ensures
        total_length(blocks) == blocks[0].length + total_length(blocks.skip(1)),
    decreases blocks.len(),
{
    if blocks.len() > 1 {
        lemma_total_length_from_front(blocks.drop_last());
        assert(blocks.drop_last().skip(1) =~= blocks.skip(1).drop_last());
    } else {
        assert(blocks.drop_last() =~= Seq::empty());
        assert(blocks.skip(1) =~= Seq::empty());
    }
}

/// The sum, or the largest number where the sum is larger.
pub open spec fn capped(sum: nat) -> nat {
    if sum > usize::MAX {
        usize::MAX as nat
    } else {
        sum
    }
}

/// Reads the headers of a payload: the blocks, and where their data begins.
fn read_blocks(payload: &[u8]) -> (list: Result<(Vec<RedBlock>, usize), RedError>)
    ensures
        match list {
            Ok((blocks, start)) => start <= payload@.len() && layout(payload@) == Ok::<
                (Seq<RedBlock>, Seq<u8>),
                RedError,
            >((blocks@, payload@.skip(start as int))),
            Err(error) => layout(payload@) == Err::<(Seq<RedBlock>, Seq<u8>), RedError>(error),
        },
{
    let mut blocks: Vec<RedBlock> = Vec::new();
    let mut block_length: usize = 0;
    let mut at: usize = 0;
    assert(payload@.skip(0) =~= payload@);
    assert(led_by(Seq::empty(), block_list(payload@)) =~= block_list(payload@)) by {
        if let Ok((list, data)) = block_list(payload@) {
            assert(Seq::<RedBlock>::empty() + list =~= list);
        }
    }
    while at < payload.len() && payload[at] >= 0x80
        invariant
            at <= payload@.len(),
            led_by(blocks@, block_list(payload@.skip(at as int))) == block_list(payload@),
            block_length == capped(total_length(blocks@)),
        decreases payload.len() - at,
    {
        let ghost rest = payload@.skip(at as int);
        if payload.len() - at < 4 {
            return Err(RedError::IncompleteHeader);
        }
        let block: RedBlock = RedBlock {
            ts_offset: payload[at + 1] as u32 * 64 + payload[at + 2] as u32 / 4,
            length: payload[at + 2] as usize % 4 * 256 + payload[at + 3] as usize,
            pt: payload[at] % 128,
            primary: false,
        };
        assert(block == block_of(rest.take(4)));
        let ghost before = blocks@;
        blocks.push(block);
        block_length = block_length.saturating_add(block.length);
        at += 4;
        proof {
            assert(rest.skip(4) =~= payload@.skip(at as int));
            if let Ok((list, data)) = block_list(rest.skip(4)) {
                assert(before + (seq![block] + list) =~= blocks@ + list);
            }
            assert(blocks@.drop_last() =~= before);
        }
    }
    if at == payload.len() {
        return Err(RedError::IncompleteHeader);
    }
    let ghost before = blocks@;
    let ghost rest = payload@.skip(at as int);
    blocks.push(RedBlock { ts_offset: 0, length: 0, pt: payload[at], primary: true });
    at += 1;
    proof {
        assert(rest.skip(1) =~= payload@.skip(at as int));
        assert(before + seq![blocks@.last()] =~= blocks@);
        assert(blocks@.drop_last() =~= before);
    }
    if payload.len() - at < block_length {
        return Err(RedError::IncompleteBlock);
    }
    Ok((blocks, at))
}

/// The packets in a redundant packet: those of the redundant blocks whose bits are set, and the
/// primary one. The lowest bit is that of the packet right before the primary one.
pub fn extract_pkts_from_red(red_pkt: &RtpPacketLite, recover_bits: u8) -> (packets: Result<
    Vec<RtpPacketLite>,
    RedError,
>)
    requires
        has_bits(red_pkt@),
    ensures
        match packets {
            Ok(packets) => extracted(red_pkt@, recover_bits) == Ok::<Seq<PacketView>, RedError>(
                packet_views(packets@),
            ),
            Err(error) => extracted(red_pkt@, recover_bits) == Err::<Seq<PacketView>, RedError>(
                error,
            ),
        },
{
    let (blocks, start): (Vec<RedBlock>, usize) = match read_blocks(&red_pkt.payload) {
        Ok(list) => list,
        Err(error) => {
            return Err(error);
        },
    };
    let payload: &[u8] = red_pkt.payload.as_slice();
    let ghost data = payload@.skip(start as int);
    proof {
        lemma_block_list_ends_with_primary(payload@);
    }
    let size: usize = payload.len();
    let mut packets: Vec<RtpPacketLite> = Vec::new();
    let mut at: usize = start;
    let mut i: usize = 0;
    assert(blocks@.skip(0) =~= blocks@);
    assert(packet_views(packets@) =~= Seq::empty());
    assert(Seq::empty() + unpacked(red_pkt@, recover_bits, blocks@, data) =~= unpacked(
        red_pkt@,
        recover_bits,
        blocks@,
        data,
    ));
    while i + 1 < blocks.len()
        invariant
            ends_with_primary(blocks@),
            blocks@.len() <= MAX_RED_BLOCKS,
            i + 1 <= blocks@.len(),
            at <= size == payload@.len(),
            payload@ == red_pkt@.payload,
            total_length(blocks@.skip(i as int)) <= payload@.len() - at,
            packet_views(packets@) + unpacked(
                red_pkt@,
                recover_bits,
                blocks@.skip(i as int),
                payload@.skip(at as int),
            ) == unpacked(red_pkt@, recover_bits, blocks@, data),
        decreases blocks.len() - i,
    {
        let ghost rest = blocks@.skip(i as int);
        let ghost found = packet_views(packets@);
        let block: RedBlock = blocks[i];
        let back: usize = blocks.len() - i - 1;
        proof {
            lemma_total_length_from_front(rest);
            assert(rest[0] == block);
            assert(rest.skip(1) =~= blocks@.skip(i + 1));
            assert(payload@.skip(at as int).skip(block.length as int) =~= payload@.skip(
                at + block.length as int,
            ));
        }
        if recover_bits & (1u8 << ((back - 1) as u8)) != 0 {
            let packet: RtpPacketLite = RtpPacketLite::with_payload(
                red_pkt.sequence_number.wrapping_sub(back as u16),
                red_pkt.timestamp.wrapping_sub(block.ts_offset),
                block.pt,
                copy_bytes(&payload[at..at + block.length]),
            );
            proof {
                assert(payload@.subrange(at as int, at + block.length as int) =~= payload@.skip(
                    at as int,
                ).take(block.length as int));
                assert(packet@ == recovered(red_pkt@, back as int, block, payload@.skip(at as int)));
                let others = unpacked(
                    red_pkt@,
                    recover_bits,
                    blocks@.skip(i + 1),
                    payload@.skip(at + block.length as int),
                );
                assert(packet_views(packets@.push(packet)) =~= found.push(packet@));
                assert(found + (seq![packet@] + others) =~= found.push(packet@) + others);
            }
            packets.push(packet);
        }
        at += block.length;
        i += 1;
    }
    let primary: RtpPacketLite = RtpPacketLite::with_payload(
        red_pkt.sequence_number,
        red_pkt.timestamp,
        blocks[i].pt,
        copy_bytes(&payload[at..size]),
    );
    proof {
        assert(payload@.subrange(at as int, payload@.len() as int) =~= payload@.skip(at as int));
        assert(packet_views(packets@.push(primary)) =~= packet_views(packets@) + seq![primary@]);
    }
    packets.push(primary);
    Ok(packets)
}

/// The payload of the primary block.
pub open spec fn primary_payload(payload: Seq<u8>) -> Result<Seq<u8>, RedError> {
    match layout(payload) {
        Ok((blocks, data)) => Ok(data.skip(total_length(blocks) as int)),
        Err(error) => Err(error),
    }
}

/// Gives the payload of the primary block.
pub fn extract_primary_encoding_for_red(payload: &[u8]) -> (primary: Result<Vec<u8>, RedError>)
    ensures
        match primary {
            Ok(primary) => primary_payload(payload@) == Ok::<Seq<u8>, RedError>(primary@),
            Err(error) => primary_payload(payload@) == Err::<Seq<u8>, RedError>(error),
        },
{
    let (blocks, start): (Vec<RedBlock>, usize) = match read_blocks(payload) {
        Ok(list) => list,
        Err(error) => {
            return Err(error);
        },
    };
    let size: usize = payload.len();
    let mut at: usize = start;
    let mut i: usize = 0;
    assert(blocks@.skip(0) =~= blocks@);
    while i < blocks.len()
        invariant
            i <= blocks@.len(),
            at + total_length(blocks@.skip(i as int)) == start + total_length(blocks@),
            start + total_length(blocks@) <= size,
        decreases blocks.len() - i,
    {
        proof {
            lemma_total_length_from_front(blocks@.skip(i as int));
            assert(blocks@.skip(i as int)[0] == blocks@[i as int]);
            assert(blocks@.skip(i as int).skip(1) =~= blocks@.skip(i + 1));
        }
        at += blocks[i].length;
        i += 1;
    }
    assert(blocks@.skip(i as int) =~= Seq::empty());
    assert(payload@.subrange(at as int, payload@.len() as int) =~= payload@.skip(
        start as int,
    ).skip(total_length(blocks@) as int));
    Ok(copy_bytes(&payload[at..size]))
}

/// Adds to packets the packets before them.
pub struct RedReceiverLite {
    pub older: Option<RtpPacketLite>,
    pub newer: Option<RtpPacketLite>,
}

/// The packets that a [`RedReceiverLite`] keeps.
#[verifier::ext_equal]
pub struct ReceiverView {
    pub older: Option<PacketView>,
    pub newer: Option<PacketView>,
}

/// The contents of a packet that may be there.
pub open spec fn slot_view(slot: Option<RtpPacketLite>) -> Option<PacketView> {
    match slot {
        Some(packet) => Some(packet@),
        None => None,
    }
}

/// The packet may be carried by `packet`: it is another one, and not too old.
pub open spec fn can_be_carried(packet: PacketView, previous: PacketView) -> bool {
    &&& packet.sequence_number != previous.sequence_number
    &&& packet.sequence_number.wrapping_sub(previous.sequence_number) <= MAX_RED_COUNT
    &&& packet.timestamp.wrapping_sub(previous.timestamp) < 0x4000
}

/// The packet is not older than the one that is kept, if any.
pub open spec fn is_not_older(packet: PacketView, kept: Option<PacketView>) -> bool {
    kept matches Some(kept) ==> packet.sequence_number.wrapping_sub(kept.sequence_number) < 0x8000
}

impl ReceiverView {
    /// The packets that `packet` is to carry.
    pub open spec fn redundancy(self, packet: PacketView) -> Seq<PacketView> {
        match (self.older, self.newer) {
            (_, None) => Seq::empty(),
            (None, Some(newer)) => if can_be_carried(packet, newer) {
                seq![newer]
            } else {
                Seq::empty()
            },
            (Some(older), Some(newer)) => if can_be_carried(packet, older) {
                if can_be_carried(packet, newer) {
                    seq![older, newer]
                } else {
                    seq![older]
                }
            } else if can_be_carried(packet, newer) {
                seq![newer]
            } else {
                Seq::empty()
            },
        }
    }

    /// The packets that are kept after `packet` came.
    pub open spec fn after(self, packet: PacketView) -> Self {
        if is_not_older(packet, self.newer) {
            ReceiverView { older: self.newer, newer: Some(packet) }
        } else if is_not_older(packet, self.older) {
            ReceiverView { older: Some(packet), newer: self.newer }
        } else {
            self
        }
    }
}

impl View for RedReceiverLite {
    type V = ReceiverView;

    open spec fn view(&self) -> ReceiverView {
        ReceiverView { older: slot_view(self.older), newer: slot_view(self.newer) }
    }
}

fn may_carry(packet: &RtpPacketLite, previous: &RtpPacketLite) -> (can: bool)
    ensures
        can == can_be_carried(packet@, previous@),
{
    packet.sequence_number != previous.sequence_number && packet.sequence_number.wrapping_sub(
        previous.sequence_number,
    ) <= MAX_RED_COUNT as u16 && packet.timestamp.wrapping_sub(previous.timestamp) < 0x4000
}

fn goes_after(packet: &RtpPacketLite, kept: &Option<RtpPacketLite>) -> (after: bool)
    ensures
        after == is_not_older(packet@, slot_view(*kept)),
{
    match kept {
        Some(kept) => packet.sequence_number.wrapping_sub(kept.sequence_number) < 0x8000,
        None => true,
    }
}

impl RedReceiverLite {
    /// A receiver that keeps nothing yet.
    pub fn new() -> (receiver: Self)
        ensures
            receiver@ == (ReceiverView { older: None, newer: None }),
    {
        RedReceiverLite { older: None, newer: None }
    }

    /// Writes the payload that carries the packets before `pkt` besides it, and keeps `pkt`.
    pub fn encode_red_for_primary(&mut self, pkt: &RtpPacketLite, red_payload: &mut [u8]) -> (
    written_bytes: Result<usize, RedError>)
        ensures
            final(self)@ == old(self)@.after(pkt@),
            ({
                let room = old(red_payload)@;
                let bytes = encoding(
                    carried(old(self)@.redundancy(pkt@), pkt@, room.len()),
                    pkt@,
                );
                match written_bytes {
                    Ok(count) => bytes.len() <= room.len() && count == bytes.len()
                        && final(red_payload)@ == written(room, bytes),
                    Err(error) => bytes.len() > room.len() && error == RedError::IncompleteBlock
                        && final(red_payload)@ == if room.len() == 0 {
                        room
                    } else {
                        room.update(0, OPUS_PT)
                    },
                }
            }),
    {
        let ghost before = self@;
        let mut red_pkts: Vec<RtpPacketLite> = Vec::new();
        if let Some(newer) = &self.newer {
            if let Some(older) = &self.older {
                if may_carry(pkt, older) {
                    red_pkts.push(older.duplicate());
                }
            }
            if may_carry(pkt, newer) {
                red_pkts.push(newer.duplicate());
            }
        }
        assert(packet_views(red_pkts@) =~= before.redundancy(pkt@));
        if goes_after(pkt, &self.newer) {
            let mut newer: Option<RtpPacketLite> = Some(pkt.duplicate());
            std::mem::swap(&mut self.newer, &mut newer);
            self.older = newer;
        } else if goes_after(pkt, &self.older) {
            self.older = Some(pkt.duplicate());
        }
        encode_red_for_primary_blocks(&red_pkts, pkt, red_payload)
    }
}

/// Gives out the packets that redundant packets carry, each once as far as that can be told.
#[derive(Debug, Clone, Copy)]
pub struct RedPrimaryReceiverLite {
    pub red_pt: u8,
    pub first_pkt_received: bool,
    pub last_seq: u16,
    /// Which of the eight packets before the last one have come, the latest in the lowest bit.
    pub pkt_history: u8,
}

impl RedPrimaryReceiverLite {
    /// How far the packet is ahead of the last one.
    pub open spec fn ahead(self, sequence_number: u16) -> u16 {
        sequence_number.wrapping_sub(self.last_seq)
    }

    /// The packet comes late, but the history reaches back to it.
    pub open spec fn is_late(self, sequence_number: u16) -> bool {
        self.ahead(sequence_number) > 0xfff7
    }

    /// The packet that lies `back` packets before the last one has come.
    pub open spec fn has_come(self, back: int) -> bool {
        self.pkt_history & (1u8 << ((back - 1) as u8)) != 0
    }

    /// The state after a redundant packet.
    pub open spec fn after(self, sequence_number: u16) -> Self {
        let ahead = self.ahead(sequence_number);
        if !self.first_pkt_received || 8 < ahead <= 0x8000 {
            RedPrimaryReceiverLite {
                first_pkt_received: true,
                last_seq: sequence_number,
                pkt_history: 0,
                ..self
            }
        } else if 0 < ahead < 8 {
            RedPrimaryReceiverLite {
                last_seq: sequence_number,
                pkt_history: (self.pkt_history << ahead) | (1u8 << ((ahead - 1) as u16)),
                ..self
            }
        } else if ahead == 8 {
            RedPrimaryReceiverLite { last_seq: sequence_number, pkt_history: 1u8 << 7u16, ..self }
        } else if self.is_late(sequence_number) {
            RedPrimaryReceiverLite {
                pkt_history: self.pkt_history | (1u8 << ((0xffff - ahead) as u16)),
                ..self
            }
        } else {
            self
        }
    }

    /// Packets before the redundant one may be missing.
    pub open spec fn looks_back(self, sequence_number: u16) -> bool {
        let ahead = self.ahead(sequence_number);
        self.first_pkt_received && (0 < ahead <= 0x8000 || self.is_late(sequence_number))
    }

    /// The packet that lies `back` packets before the one with the number has not come, though
    /// the history reaches back to it.
    pub open spec fn is_missing(self, sequence_number: u16, back: int) -> bool {
        let place = self.last_seq.wrapping_sub(sequence_number) + back;
        place <= 8 && !self.has_come(place)
    }

    /// The bits of the packets that are taken from the redundant packet with the number.
    pub open spec fn recover_bits(self, sequence_number: u16) -> u8 {
        let after = self.after(sequence_number);
        let looks_back = self.looks_back(sequence_number);
        ((if looks_back && after.is_missing(sequence_number, 1) {
            1int
        } else {
            0int
        }) + (if looks_back && after.is_missing(sequence_number, 2) {
            2int
        } else {
            0int
        })) as u8
    }

    /// The list of bits has room for the blocks of the packet.
    pub open spec fn can_take(self, packet: PacketView) -> bool {
        packet.payload_type == self.red_pt ==> has_bits(packet)
    }

    /// A receiver of redundant packets with the payload type.
    pub fn new(red_pt: u8) -> (receiver: Self)
        ensures
            receiver == (RedPrimaryReceiverLite {
                red_pt,
                first_pkt_received: false,
                last_seq: 0,
                pkt_history: 0,
            }),
    {
        RedPrimaryReceiverLite { red_pt, first_pkt_received: false, last_seq: 0, pkt_history: 0 }
    }

    /// The packets to send on for a packet: itself where it is not a redundant one.
    pub fn forward_rtp(&mut self, pkt: &RtpPacketLite) -> (packets: Result<
        Vec<RtpPacketLite>,
        RedError,
    >)
        requires
            old(self).can_take(pkt@),
        ensures
            pkt@.payload_type != old(self).red_pt ==> {
                &&& *final(self) == *old(self)
                &&& packets matches Ok(packets) && packet_views(packets@) == seq![pkt@]
            },
            pkt@.payload_type == old(self).red_pt ==> {
                &&& *final(self) == old(self).after(pkt@.sequence_number)
                &&& match packets {
                    Ok(packets) => extracted(
                        pkt@,
                        old(self).recover_bits(pkt@.sequence_number),
                    ) == Ok::<Seq<PacketView>, RedError>(packet_views(packets@)),
                    Err(error) => extracted(
                        pkt@,
                        old(self).recover_bits(pkt@.sequence_number),
                    ) == Err::<Seq<PacketView>, RedError>(error),
                }
            },
    {
        if pkt.payload_type != self.red_pt {
            let mut packets: Vec<RtpPacketLite> = Vec::new();
            packets.push(pkt.duplicate());
            assert(packet_views(packets@) =~= seq![pkt@]);
            return Ok(packets);
        }
        self.get_send_pkts_from_red(pkt)
    }

    /// Whether the packet that lies `back` packets before the one with the number is missing.
    fn misses(&self, sequence_number: u16, back: u16) -> (missing: bool)
        requires
            1 <= back <= 2,
        ensures
            missing == self.is_missing(sequence_number, back as int),
    {
        let distance: u16 = self.last_seq.wrapping_sub(sequence_number);
        distance <= 8 - back && self.pkt_history & (1u8 << ((distance + back - 1) as u8)) == 0
    }

    /// The packets to send on for a redundant packet.
    pub fn get_send_pkts_from_red(&mut self, rtp: &RtpPacketLite) -> (packets: Result<
        Vec<RtpPacketLite>,
        RedError,
    >)
        requires
            has_bits(rtp@),
        ensures
            *final(self) == old(self).after(rtp@.sequence_number),
            match packets {
                Ok(packets) => extracted(
                    rtp@,
                    old(self).recover_bits(rtp@.sequence_number),
                ) == Ok::<Seq<PacketView>, RedError>(packet_views(packets@)),
                Err(error) => extracted(
                    rtp@,
                    old(self).recover_bits(rtp@.sequence_number),
                ) == Err::<Seq<PacketView>, RedError>(error),
            },
    {
        let mut need_recover: bool = false;
        if !self.first_pkt_received {
            self.last_seq = rtp.sequence_number;
            self.pkt_history = 0;
            self.first_pkt_received = true;
        } else {
            let diff: u16 = rtp.sequence_number.wrapping_sub(self.last_seq);
            if diff > 0x8000 {
                if diff > 0xfff7 {
                    self.pkt_history = self.pkt_history | (1u8 << (0xffff - diff));
                    need_recover = true;
                }
            } else if diff > 8 {
                self.last_seq = rtp.sequence_number;
                self.pkt_history = 0;
                need_recover = true;
            } else if diff == 8 {
                self.last_seq = rtp.sequence_number;
                self.pkt_history = 1u8 << 7u16;
                need_recover = true;
            } else if diff > 0 {
                self.last_seq = rtp.sequence_number;
                self.pkt_history = (self.pkt_history << diff) | (1u8 << (diff - 1));
                need_recover = true;
            }
        }
        let mut recover_bits: u8 = 0;
        if need_recover && self.misses(rtp.sequence_number, 1) {
            recover_bits = recover_bits + 1;
        }
        if need_recover && self.misses(rtp.sequence_number, 2) {
            recover_bits = recover_bits + 2;
        }
        extract_pkts_from_red(rtp, recover_bits)
    }
}

/// The packets fit their headers: each is short enough, and not too old.
pub open spec fn fit_headers(packets: Seq<PacketView>, primary: PacketView) -> bool {
    forall|i: int|
        0 <= i < packets.len() ==> (#[trigger] packets[i]).payload.len() < 0x400
            && primary.timestamp.wrapping_sub(packets[i].timestamp) < 0x4000
}

/// The packets as they are read from the payload that carries them besides `primary`: numbered
/// as if each came right before the next.
pub open spec fn read_back(packets: Seq<PacketView>, primary: PacketView) -> Seq<PacketView>
    decreases packets.len(),
{
    if packets.len() == 0 {
        seq![PacketView { payload_type: OPUS_PT, ..primary }]
    } else {
        seq![
            PacketView {
                sequence_number: primary.sequence_number.wrapping_sub(packets.len() as u16),
                payload_type: OPUS_PT,
                ..packets[0]
            },
        ] + read_back(packets.skip(1), primary)
    }
}

/// The blocks of the payload that carries the packets.
spec fn blocks_for(timestamp: u32, packets: Seq<PacketView>) -> Seq<RedBlock>
    decreases packets.len(),
{
    if packets.len() == 0 {
        seq![RedBlock { ts_offset: 0, length: 0, pt: OPUS_PT, primary: true }]
    } else {
        seq![
            RedBlock {
                ts_offset: timestamp.wrapping_sub(packets[0].timestamp),
                length: packets[0].payload.len() as usize,
                pt: OPUS_PT,
                primary: false,
            },
        ] + blocks_for(timestamp, packets.skip(1))
    }
}

proof fn lemma_from_front(timestamp: u32, packets: Seq<PacketView>)
    requires
        packets.len() > 0,
    ensures
        block_headers(timestamp, packets) == block_header(timestamp, packets[0]) + block_headers(
            timestamp,
            packets.skip(1),
        ),
        payloads(packets) == packets[0].payload + payloads(packets.skip(1)),
    decreases packets.len(),
{
    if packets.len() == 1 {
        assert(packets.drop_last() =~= Seq::empty());
        assert(packets.skip(1) =~= Seq::empty());
        assert(block_headers(timestamp, packets.drop_last()) =~= Seq::empty());
        assert(payloads(packets.drop_last()) =~= Seq::empty());
        assert(block_headers(timestamp, packets) =~= block_header(timestamp, packets[0]));
    } else {
        lemma_from_front(timestamp, packets.drop_last());
        assert(packets.drop_last().skip(1) =~= packets.skip(1).drop_last());
        assert(packets.skip(1).last() == packets.last());
    }
}

proof fn lemma_headers_are_read_back(primary: PacketView, packets: Seq<PacketView>, data: Seq<u8>)
    requires
        fit_headers(packets, primary),
    ensures
        block_list(block_headers(primary.timestamp, packets) + seq![OPUS_PT] + data) == Ok::<
            (Seq<RedBlock>, Seq<u8>),
            RedError,
        >((blocks_for(primary.timestamp, packets), data)),
        blocks_for(primary.timestamp, packets).len() == packets.len() + 1,
        total_length(blocks_for(primary.timestamp, packets)) == payloads(packets).len(),
    decreases packets.len(),
{
    let timestamp = primary.timestamp;
    let bytes = block_headers(timestamp, packets) + seq![OPUS_PT] + data;
    if packets.len() == 0 {
        assert(bytes =~= seq![OPUS_PT] + data);
        assert(bytes.skip(1) =~= data);
        assert(blocks_for(timestamp, packets).drop_last() =~= Seq::empty());
        assert(total_length(Seq::empty()) == 0);
    } else {
        let others = packets.skip(1);
        assert forall|i: int| 0 <= i < others.len() implies (#[trigger] others[i]).payload.len()
            < 0x400 && timestamp.wrapping_sub(others[i].timestamp) < 0x4000 by {
            assert(others[i] == packets[i + 1]);
        }
        lemma_headers_are_read_back(primary, others, data);
        lemma_from_front(timestamp, packets);
        let header = block_header(timestamp, packets[0]);
        assert(bytes.take(4) =~= header);
        assert(bytes.skip(4) =~= block_headers(timestamp, others) + seq![OPUS_PT] + data);
        let blocks = blocks_for(timestamp, packets);
        assert(block_of(header) == blocks[0]);
        assert(blocks.skip(1) =~= blocks_for(timestamp, others));
        lemma_total_length_from_front(blocks);
    }
}

proof fn lemma_packets_are_read_back(
    packet: PacketView,
    primary: PacketView,
    packets: Seq<PacketView>,
)
    requires
        packets.len() < MAX_RED_BLOCKS,
        fit_headers(packets, primary),
        packet.sequence_number == primary.sequence_number,
        packet.timestamp == primary.timestamp,
    ensures
        unpacked(
            packet,
            0xff,
            blocks_for(primary.timestamp, packets),
            payloads(packets) + primary.payload,
        ) == read_back(packets, primary),
    decreases packets.len(),
{
    let blocks = blocks_for(primary.timestamp, packets);
    let data = payloads(packets) + primary.payload;
    if packets.len() == 0 {
        assert(data =~= primary.payload);
    } else {
        let others = packets.skip(1);
        assert forall|i: int| 0 <= i < others.len() implies (#[trigger] others[i]).payload.len()
            < 0x400 && primary.timestamp.wrapping_sub(others[i].timestamp) < 0x4000 by {
            assert(others[i] == packets[i + 1]);
        }
        lemma_packets_are_read_back(packet, primary, others);
        lemma_headers_are_read_back(primary, packets, Seq::empty());
        lemma_from_front(primary.timestamp, packets);
        assert(blocks.skip(1) =~= blocks_for(primary.timestamp, others));
        assert(data.skip(packets[0].payload.len() as int) =~= payloads(others) + primary.payload);
        assert(data.take(packets[0].payload.len() as int) =~= packets[0].payload);
        let bit = (packets.len() - 1) as u8;
        assert(0xffu8 & (1u8 << bit) != 0) by (bit_vector)
            requires
                bit < 8,
        ;
        assert(recovered(packet, packets.len() as int, blocks[0], data) == PacketView {
            sequence_number: primary.sequence_number.wrapping_sub(packets.len() as u16),
            payload_type: OPUS_PT,
            ..packets[0]
        });
    }
}

/// What was written is read back: a packet whose payload carries packets that fit their headers
/// gives back all of them, with their timestamps and payloads, and the primary one.
pub proof fn law_written_packets_are_read_back(
    packets: Seq<PacketView>,
    primary: PacketView,
    red_pt: u8,
)
    requires
        packets.len() < MAX_RED_BLOCKS,
        fit_headers(packets, primary),
    ensures
        extracted(
            PacketView { payload_type: red_pt, payload: encoding(packets, primary), ..primary },
            0xff,
        ) == Ok::<Seq<PacketView>, RedError>(read_back(packets, primary)),
{
    let packet = PacketView {
        payload_type: red_pt,
        payload: encoding(packets, primary),
        ..primary
    };
    let data = payloads(packets) + primary.payload;
    assert(packet.payload =~= block_headers(primary.timestamp, packets) + seq![OPUS_PT] + data);
    lemma_headers_are_read_back(primary, packets, data);
    lemma_packets_are_read_back(packet, primary, packets);
}

/// The primary payload is read back from the payload that carries packets besides it.
pub proof fn law_primary_payload_is_read_back(packets: Seq<PacketView>, primary: PacketView)
    requires
        fit_headers(packets, primary),
    ensures
        primary_payload(encoding(packets, primary)) == Ok::<Seq<u8>, RedError>(primary.payload),
{
    let data = payloads(packets) + primary.payload;
    assert(encoding(packets, primary) =~= block_headers(primary.timestamp, packets)
        + seq![OPUS_PT] + data);
    lemma_headers_are_read_back(primary, packets, data);
    assert(data.skip(payloads(packets).len() as int) =~= primary.payload);
}

/// The packets that a receiver adds to a packet fit their headers as long as they are short
/// enough, so they are read back from what the receiver writes.
pub proof fn law_added_packets_are_read_back(state: ReceiverView, packet: PacketView, red_pt: u8)
    requires
        state.older matches Some(older) ==> older.payload.len() < 0x400,
        state.newer matches Some(newer) ==> newer.payload.len() < 0x400,
    ensures
        extracted(
            PacketView {
                payload_type: red_pt,
                payload: encoding(state.redundancy(packet), packet),
                ..packet
            },
            0xff,
        ) == Ok::<Seq<PacketView>, RedError>(read_back(state.redundancy(packet), packet)),
{
    law_written_packets_are_read_back(state.redundancy(packet), packet, red_pt);
}

/// A redundant packet that comes in order gives out exactly those of the two packets before it
/// that have not come: neither the one that was the last until now, nor one that the history
/// knows.
pub proof fn law_only_missing_packets_are_recovered(
    state: RedPrimaryReceiverLite,
    sequence_number: u16,
    back: int,
)
    requires
        state.first_pkt_received,
        0 < state.ahead(sequence_number) <= 8,
        1 <= back <= MAX_RED_COUNT,
    ensures
        ({
            let ahead = state.ahead(sequence_number) as int;
            is_wanted(state.recover_bits(sequence_number), back) <==> back != ahead && (back
                > ahead ==> !state.has_come(back - ahead))
        }),
{
    let ahead = state.ahead(sequence_number);
    let history = state.pkt_history;
    let k = (back - 1) as u8;
    if ahead == 8 {
        assert((1u8 << 7u16) & (1u8 << 0u8) == 0 && (1u8 << 7u16) & (1u8 << 1u8) == 0)
            by (bit_vector);
    } else {
        lemma_history_moves(history, ahead, 0);
        lemma_history_moves(history, ahead, 1);
    }
    assert(state.after(sequence_number).last_seq.wrapping_sub(sequence_number) == 0);
    assert(0u8 & (1u8 << k) == 0 && (3u8 & (1u8 << k) != 0) && ((1u8 & (1u8 << k) != 0) == (k
        == 0)) && ((2u8 & (1u8 << k) != 0) == (k == 1))) by (bit_vector)
        requires
            k <= 1,
    ;
}

proof fn lemma_history_moves(history: u8, ahead: u16, k: u8)
    requires
        0 < ahead < 8,
        k < 8,
    ensures
        (((history << ahead) | (1u8 << ((ahead - 1) as u16))) & (1u8 << k) != 0) == (k == ahead - 1
            || (k >= ahead && history & (1u8 << ((k - ahead) as u8)) != 0)),
{
    assert((((history << ahead) | (1u8 << ((ahead - 1) as u16))) & (1u8 << k) != 0) == (k == ahead
        - 1 || (k >= ahead && history & (1u8 << ((k - ahead) as u8)) != 0))) by (bit_vector)
        requires
            0 < ahead < 8,
            k < 8,
    ;
}

/// A packet carries the kept packets that are one or two numbers before it and not too old for a
/// header, the older one first, and no others.
pub proof fn law_recent_packets_are_carried(
    older: PacketView,
    newer: PacketView,
    packet: PacketView,
)
    ensures
        ({
            let state = ReceiverView { older: Some(older), newer: Some(newer) };
            let carries = state.redundancy(packet);
            let has_older = (packet.sequence_number.wrapping_sub(older.sequence_number) == 1
                || packet.sequence_number.wrapping_sub(older.sequence_number) == 2)
                && packet.timestamp.wrapping_sub(older.timestamp) < 0x4000;
            let has_newer = (packet.sequence_number.wrapping_sub(newer.sequence_number) == 1
                || packet.sequence_number.wrapping_sub(newer.sequence_number) == 2)
                && packet.timestamp.wrapping_sub(newer.timestamp) < 0x4000;
            &&& has_older && has_newer ==> carries == seq![older, newer]
            &&& has_older && !has_newer ==> carries == seq![older]
            &&& !has_older && has_newer ==> carries == seq![newer]
            &&& !has_older && !has_newer ==> carries.len() == 0
            &&& has_newer ==> (ReceiverView { older: None, newer: Some(newer) }).redundancy(packet)
                == seq![newer]
            &&& !has_newer ==> (ReceiverView { older: None, newer: Some(newer) }).redundancy(
                packet,
            ).len() == 0
        }),
        (ReceiverView { older: None, newer: None }).redundancy(packet).len() == 0,
{
}

/// The two newest packets are kept, in order: a packet that is not older than both is kept, and the
/// older one of the others gives way to it.
pub proof fn law_newest_two_packets_are_kept(
    older: PacketView,
    newer: PacketView,
    packet: PacketView,
)
    ensures
        ({
            let after = ReceiverView { older: Some(older), newer: Some(newer) }.after(packet);
            let from_newer = packet.sequence_number.wrapping_sub(newer.sequence_number);
            let from_older = packet.sequence_number.wrapping_sub(older.sequence_number);
            &&& from_newer < 0x8000 ==> after.newer == Some(packet) && after.older == Some(newer)
            &&& from_newer >= 0x8000 && from_older < 0x8000 ==> after.newer == Some(newer)
                && after.older == Some(packet)
            &&& from_newer >= 0x8000 && from_older >= 0x8000 ==> after.newer == Some(newer)
                && after.older == Some(older)
        }),
        (ReceiverView { older: None, newer: None }).after(packet).newer == Some(packet),
        (ReceiverView { older: None, newer: None }).after(packet).older is None,
{
}

/// All packets are carried where they fit with their headers of four bytes, the last header of one,
/// and the packet itself; else none is.
pub proof fn law_all_or_none_are_carried(
    packets: Seq<PacketView>,
    primary: PacketView,
    room: nat,
)
    ensures
        encoding(packets, primary).len() == 4 * packets.len() + 1 + payloads(packets).len()
            + primary.payload.len(),
        encoding(packets, primary).len() <= room ==> carried(packets, primary, room) == packets,
        encoding(packets, primary).len() > room ==> carried(packets, primary, room).len() == 0,
    decreases packets.len(),
{
    lemma_header_length(primary.timestamp, packets);
}

proof fn lemma_header_length(timestamp: u32, packets: Seq<PacketView>)
    ensures
        block_headers(timestamp, packets).len() == 4 * packets.len(),
    decreases packets.len(),
{
    if packets.len() > 0 {
        lemma_header_length(timestamp, packets.drop_last());
    }
}

/// What is written stands at the front of the room, and what lay behind it stays.
pub proof fn law_written_bytes_stand_in_front(before: Seq<u8>, bytes: Seq<u8>, i: int)
    requires
        bytes.len() <= before.len(),
    ensures
        written(before, bytes).len() == before.len(),
        0 <= i < bytes.len() ==> written(before, bytes)[i] == bytes[i],
        bytes.len() <= i < before.len() ==> written(before, bytes)[i] == before[i],
{
}

/// Without wanted packets a redundant packet gives out its primary one alone, with its own number
/// and timestamp.
pub proof fn law_unwanted_packets_are_not_given_out(packet: PacketView)
    requires
        layout(packet.payload) is Ok,
        layout(packet.payload)->Ok_0.0.len() <= MAX_RED_BLOCKS,
    ensures
        extracted(packet, 0) matches Ok(given) && {
            &&& given.len() == 1
            &&& given[0].sequence_number == packet.sequence_number
            &&& given[0].timestamp == packet.timestamp
            &&& primary_payload(packet.payload) == Ok::<Seq<u8>, RedError>(given[0].payload)
        },
{
    let (blocks, data) = layout(packet.payload)->Ok_0;
    lemma_block_list_ends_with_primary(packet.payload);
    lemma_nothing_wanted(packet, blocks, data);
}

proof fn lemma_nothing_wanted(packet: PacketView, blocks: Seq<RedBlock>, data: Seq<u8>)
    requires
        ends_with_primary(blocks),
        blocks.len() <= MAX_RED_BLOCKS,
        total_length(blocks) <= data.len(),
    ensures
        unpacked(packet, 0, blocks, data).len() == 1,
        unpacked(packet, 0, blocks, data)[0].sequence_number == packet.sequence_number,
        unpacked(packet, 0, blocks, data)[0].timestamp == packet.timestamp,
        unpacked(packet, 0, blocks, data)[0].payload == data.skip(total_length(blocks) as int),
    decreases blocks.len(),
{
    reveal_with_fuel(total_length, 2);
    if blocks.len() == 1 {
        assert(blocks[0].primary);
        assert(blocks.drop_last() =~= Seq::<RedBlock>::empty());
        assert(data.skip(0) =~= data);
    } else {
        assert(!blocks[0].primary);
        let others = blocks.skip(1);
        assert forall|i: int| 0 <= i < others.len() implies #[trigger] others[i].primary == (i
            == others.len() - 1) by {
            assert(others[i] == blocks[i + 1]);
        }
        lemma_total_length_from_front(blocks);
        let back = (blocks.len() - 2) as u8;
        assert(0u8 & (1u8 << back) == 0) by (bit_vector);
        lemma_nothing_wanted(packet, others, data.skip(blocks[0].length as int));
        assert(data.skip(blocks[0].length as int).skip(total_length(others) as int) =~= data.skip(
            total_length(blocks) as int,
        ));
    }
}

/// A payload whose headers do not end is refused, and so is one whose blocks are longer than what
/// follows the headers.
pub proof fn law_incomplete_payloads_are_refused(payload: Seq<u8>)
    ensures
        payload.len() == 0 ==> extracted_error(payload) == Some(RedError::IncompleteHeader),
        0 < payload.len() < 4 && payload[0] >= 0x80 ==> extracted_error(payload) == Some(
            RedError::IncompleteHeader,
        ),
        payload.len() == 4 && payload[0] >= 0x80 ==> extracted_error(payload) == Some(
            RedError::IncompleteHeader,
        ),
        payload.len() > 0 && payload[0] < 0x80 ==> extracted_error(payload) is None,
        payload.len() > 4 && payload[0] >= 0x80 && payload[4] < 0x80 ==> {
            let length = payload[2] as int % 4 * 256 + payload[3];
            &&& payload.len() - 5 < length ==> extracted_error(payload) == Some(
                RedError::IncompleteBlock,
            )
            &&& payload.len() - 5 >= length ==> extracted_error(payload) is None
        },
{
    reveal_with_fuel(block_list, 3);
    reveal_with_fuel(total_length, 3);
    if payload.len() > 0 && payload[0] < 0x80 {
        let blocks = block_list(payload)->Ok_0.0;
        assert(blocks.drop_last() =~= Seq::<RedBlock>::empty());
    }
    if payload.len() >= 4 {
        assert(payload.take(4)[2] == payload[2]);
        assert(payload.take(4)[3] == payload[3]);
        if payload.len() > 4 && payload[0] >= 0x80 && payload[4] < 0x80 {
            assert(payload.skip(4)[0] == payload[4]);
            let blocks = block_list(payload)->Ok_0.0;
            assert(blocks.drop_last() =~= seq![block_of(payload.take(4))]);
            assert(blocks.drop_last().drop_last() =~= Seq::<RedBlock>::empty());
        }
    }
}

/// What a payload is refused with, if it is.
pub open spec fn extracted_error(payload: Seq<u8>) -> Option<RedError> {
    match extracted(PacketView { sequence_number: 0, timestamp: 0, payload_type: 0, payload }, 0) {
        Ok(_) => None,
        Err(error) => Some(error),
    }
}

/// The history follows the last packet: after a packet that is up to eight ahead, the one that was
/// the last has come, those that were skipped have not, and what was known of those before stays.
pub proof fn law_history_follows_the_last_packet(
    state: RedPrimaryReceiverLite,
    sequence_number: u16,
    back: int,
)
    requires
        state.first_pkt_received,
        0 < sequence_number.wrapping_sub(state.last_seq) <= 8,
        1 <= back <= 8,
    ensures
        ({
            let ahead = sequence_number.wrapping_sub(state.last_seq);
            let after = state.after(sequence_number);
            &&& after.last_seq == sequence_number
            &&& back < ahead ==> !after.has_come(back)
            &&& back == ahead ==> after.has_come(back)
            &&& back > ahead ==> after.has_come(back) == state.has_come(back - ahead)
        }),
{
    let ahead = state.ahead(sequence_number);
    let k = (back - 1) as u8;
    if ahead == 8 {
        assert(((1u8 << 7u16) & (1u8 << k) != 0) == (k == 7)) by (bit_vector)
            requires
                k < 8,
        ;
    } else {
        lemma_history_moves(state.pkt_history, ahead, k);
    }
}

/// A late packet is noted in the history where it reaches back to it, and the last packet stays;
/// one that is too far back, or the last one again, changes nothing. The first packet, and one that
/// is far ahead, begin the history anew.
pub proof fn law_late_packets_are_noted(
    state: RedPrimaryReceiverLite,
    sequence_number: u16,
    back: int,
)
    requires
        1 <= back <= 8,
    ensures
        ({
            let behind = state.last_seq.wrapping_sub(sequence_number);
            let after = state.after(sequence_number);
            &&& state.first_pkt_received && 1 <= behind <= 8 ==> after.last_seq == state.last_seq
                && (back == behind ==> after.has_come(back)) && (back != behind ==> after.has_come(
                back,
            ) == state.has_come(back))
            &&& state.first_pkt_received && (behind == 0 || 8 < behind < 0x8000) ==> after == state
            &&& !state.first_pkt_received || 8 < sequence_number.wrapping_sub(state.last_seq)
                <= 0x8000 ==> after.last_seq == sequence_number && after.first_pkt_received
                && !after.has_come(back)
            &&& after.red_pt == state.red_pt
        }),
{
    let k = (back - 1) as u8;
    let history = state.pkt_history;
    assert(0u8 & (1u8 << k) == 0) by (bit_vector);
    let behind = state.last_seq.wrapping_sub(sequence_number);
    if 1 <= behind <= 8 {
        let ahead = state.ahead(sequence_number);
        let bit: u16 = (0xffff - ahead) as u16;
        assert(bit == behind - 1);
        assert(((history | (1u8 << bit)) & (1u8 << k) != 0) == (history & (1u8 << k) != 0 || bit
            == k)) by (bit_vector)
            requires
                k < 8,
                bit < 8,
        ;
    }
}

/// Nothing is taken from the first packet, from the last packet again, or from one that is too far
/// back for the history.
pub proof fn law_nothing_is_recovered_without_history(
    state: RedPrimaryReceiverLite,
    sequence_number: u16,
)
    requires
        !state.first_pkt_received || sequence_number == state.last_seq || 8
            < state.last_seq.wrapping_sub(sequence_number) < 0x8000,
    ensures
        state.recover_bits(sequence_number) == 0,
{
}

} // verus!
