//! RTP packets as plain values.
use crate::bytes::copy_bytes;
use vstd::prelude::*;

verus! {

/// A header extension.
#[derive(Debug, Clone, PartialEq, Eq)]
pub struct RtpExtension {
    pub id: u8,
    pub payload: Vec<u8>,
}

/// The header of an RTP packet.
#[derive(Debug, Clone, PartialEq, Eq)]
pub struct RtpHeader {
    pub version: u8,
    pub padding: bool,
    pub extension: bool,
    pub marker: bool,
    pub payload_type: u8,
    pub sequence_number: u16,
    pub timestamp: u32,
    pub ssrc: u32,
    pub csrc: Vec<u32>,
    pub extension_profile: u16,
    pub extensions: Vec<RtpExtension>,
    pub extensions_padding: usize,
}

/// An RTP packet.
#[derive(Debug, Clone, PartialEq, Eq)]
pub struct RtpPacket {
    pub header: RtpHeader,
    pub payload: Vec<u8>,
}

/// The contents of an [`RtpPacket`].
#[verifier::ext_equal]
pub struct RtpPacketView {
    pub version: u8,
    pub padding: bool,
    pub extension: bool,
    pub marker: bool,
    pub payload_type: u8,
    pub sequence_number: u16,
    pub timestamp: u32,
    pub ssrc: u32,
    pub csrc: Seq<u32>,
    pub extension_profile: u16,
    pub extensions: Seq<(u8, Seq<u8>)>,
    pub extensions_padding: usize,
    pub payload: Seq<u8>,
}

/// The ids and payloads of header extensions.
pub open spec fn extension_views(extensions: Seq<RtpExtension>) -> Seq<(u8, Seq<u8>)> {
    Seq::new(extensions.len(), |i: int| (extensions[i].id, extensions[i].payload@))
}

impl View for RtpPacket {
    type V = RtpPacketView;

    open spec fn view(&self) -> RtpPacketView {
        RtpPacketView {
            version: self.header.version,
            padding: self.header.padding,
            extension: self.header.extension,
            marker: self.header.marker,
            payload_type: self.header.payload_type,
            sequence_number: self.header.sequence_number,
            timestamp: self.header.timestamp,
            ssrc: self.header.ssrc,
            csrc: self.header.csrc@,
            extension_profile: self.header.extension_profile,
            extensions: extension_views(self.header.extensions@),
            extensions_padding: self.header.extensions_padding,
            payload: self.payload@,
        }
    }
}

impl Default for RtpHeader {
    fn default() -> (header: Self)
        ensures
            header.version == 0,
            !header.padding,
            !header.extension,
            !header.marker,
            header.payload_type == 0,
            header.sequence_number == 0,
            header.timestamp == 0,
            header.ssrc == 0,
            header.csrc@ == Seq::<u32>::empty(),
            header.extension_profile == 0,
            header.extensions@ == Seq::<RtpExtension>::empty(),
            header.extensions_padding == 0,
    {
        RtpHeader {
            version: 0,
            padding: false,
            extension: false,
            marker: false,
            payload_type: 0,
            sequence_number: 0,
            timestamp: 0,
            ssrc: 0,
            csrc: Vec::new(),
            extension_profile: 0,
            extensions: Vec::new(),
            extensions_padding: 0,
        }
    }
}

impl Default for RtpPacket {
    fn default() -> (packet: Self)
        ensures
            packet@ == (RtpPacketView {
                version: 0,
                padding: false,
                extension: false,
                marker: false,
                payload_type: 0,
                sequence_number: 0,
                timestamp: 0,
                ssrc: 0,
                csrc: Seq::empty(),
                extension_profile: 0,
                extensions: Seq::empty(),
                extensions_padding: 0,
                payload: Seq::empty(),
            }),
    {
        let packet = RtpPacket { header: RtpHeader::default(), payload: Vec::new() };
        assert(packet@.extensions =~= Seq::empty());
        packet
    }
}

fn copy_extensions(extensions: &Vec<RtpExtension>) -> (copy: Vec<RtpExtension>)
    ensures
        extension_views(copy@) == extension_views(extensions@),
{
    let mut copy: Vec<RtpExtension> = Vec::new();
    let mut i: usize = 0;
    while i < extensions.len()
        invariant
            i <= extensions@.len(),
            copy@.len() == i,
            forall|j: int|
                0 <= j < i ==> (#[trigger] copy@[j]).id == extensions@[j].id && copy@[j].payload@
                    == extensions@[j].payload@,
        decreases extensions.len() - i,
    {
        let extension = &extensions[i];
        copy.push(
            RtpExtension { id: extension.id, payload: copy_bytes(extension.payload.as_slice()) },
        );
        i += 1;
    }
    assert(extension_views(copy@) =~= extension_views(extensions@));
    copy
}

fn copy_csrc(csrc: &Vec<u32>) -> (copy: Vec<u32>)
    ensures
        copy@ == csrc@,
{
    let mut copy: Vec<u32> = Vec::new();
    let mut i: usize = 0;
    while i < csrc.len()
        invariant
            i <= csrc@.len(),
            copy@ == csrc@.take(i as int),
        decreases csrc.len() - i,
    {
        copy.push(csrc[i]);
        i += 1;
        assert(csrc@.take(i as int) =~= csrc@.take(i - 1).push(csrc@[i - 1]));
    }
    assert(csrc@.take(i as int) =~= csrc@);
    copy
}

impl RtpPacket {
    /// A packet with the same contents.
    pub fn duplicate(&self) -> (copy: Self)
        ensures
            copy@ == self@,
    {
        RtpPacket {
            header: RtpHeader {
                version: self.header.version,
                padding: self.header.padding,
                extension: self.header.extension,
                marker: self.header.marker,
                payload_type: self.header.payload_type,
                sequence_number: self.header.sequence_number,
                timestamp: self.header.timestamp,
                ssrc: self.header.ssrc,
                csrc: copy_csrc(&self.header.csrc),
                extension_profile: self.header.extension_profile,
                extensions: copy_extensions(&self.header.extensions),
                extensions_padding: self.header.extensions_padding,
            },
            payload: copy_bytes(self.payload.as_slice()),
        }
    }
}

} // verus!
