//! Rewriting of the VP8 payload descriptor of a forwarded stream.
use crate::vp8_munger::ordered_cache::{CacheView, OrderedCache};
use vstd::prelude::*;

pub mod ordered_cache;

verus! {

/// How many picture ids of lost packets are remembered.
pub const MISSING_PICTURE_IDS_THRESHOLD: usize = 50;

/// How many ids of dropped pictures are remembered.
pub const DROPPED_PICTURE_IDS_THRESHOLD: usize = 20;

/// How many ids of pictures that are not to be dropped are remembered.
pub const EXEMPTED_PICTURE_IDS_THRESHOLD: usize = 20;

/// Why a packet is not forwarded.
#[derive(Debug, Clone, Copy, PartialEq, Eq, Structural)]
pub enum Vp8MungerError {
    NotVp8,
    OutOfOrderVp8PictureIdCacheMiss,
    FilteredVp8TemporalLayer,
}

/// A VP8 payload descriptor.
#[derive(Debug, Clone, Copy, PartialEq, Eq, Structural)]
pub struct Vp8Header {
    pub first_byte: u8,
    pub i: bool,
    pub m: bool,
    pub picture_id: u16,
    pub l: bool,
    pub tl0_pic_idx: u8,
    pub t: bool,
    pub tid: u8,
    pub y: bool,
    pub k: bool,
    pub key_idx: u8,
    pub header_size: usize,
    pub is_key_frame: bool,
}

/// What the munger reads of an incoming packet.
#[derive(Debug, Clone, Copy, PartialEq, Eq, Structural)]
pub struct ExtPacketVp8 {
    pub sequence_number: u16,
    pub timestamp: u32,
    pub temporal: i32,
    pub payload: Option<Vp8Header>,
}

/// Counts picture ids, which are 7 or 15 bits wide, beyond their width.
#[derive(Debug, Clone, Copy, PartialEq, Eq, Structural)]
pub struct Vp8PictureIdWrapHandler {
    pub max_picture_id: i32,
    pub max_m_bit: bool,
    pub total_wrap: i32,
    pub last_wrap: i32,
}

/// The low bits that a picture id of the given width has.
pub open spec fn id_bits(id: int, wide: bool) -> int {
    if wide {
        id % 0x8000
    } else {
        id % 0x80
    }
}

impl Vp8PictureIdWrapHandler {
    /// The counters of past wraps are not negative.
    pub open spec fn wf(self) -> bool {
        self.total_wrap >= 0 && self.last_wrap >= 0
    }

    /// The id belongs to the turn before the last wrap.
    pub open spec fn precedes_last_wrap(self, picture_id: u16, m_bit: bool) -> bool {
        self.total_wrap > 0 && self.max_picture_id + self.last_wrap / 2 < id_bits(
            picture_id as int,
            m_bit,
        ) + self.total_wrap
    }

    /// What the id wraps by: a turn of the newest id's width, if it is behind that id by more than
    /// half a turn.
    pub open spec fn wrap(self, picture_id: u16, m_bit: bool) -> int {
        let turn = if self.max_m_bit {
            0x8000int
        } else {
            0x80
        };
        if self.max_picture_id > 0 && id_bits(self.max_picture_id as int, self.max_m_bit) - id_bits(
            picture_id as int,
            m_bit,
        ) > turn / 2 {
            turn
        } else {
            0
        }
    }

    /// The count of the id.
    pub open spec fn unwrapped(self, picture_id: u16, m_bit: bool) -> int {
        if self.precedes_last_wrap(picture_id, m_bit) {
            id_bits(picture_id as int, m_bit) + self.total_wrap - self.last_wrap
        } else {
            id_bits(picture_id as int, m_bit) + self.total_wrap + self.wrap(picture_id, m_bit)
        }
    }

    /// The arithmetic on the id stays within `i32`.
    pub open spec fn can_unwrap(self, picture_id: u16, m_bit: bool) -> bool {
        &&& self.total_wrap > 0 ==> self.max_picture_id + self.last_wrap / 2 <= i32::MAX && id_bits(
            picture_id as int,
            m_bit,
        ) + self.total_wrap <= i32::MAX
        &&& self.unwrapped(picture_id, m_bit) <= i32::MAX
    }

    /// The handler after the id was counted.
    pub open spec fn after_unwrap(self, picture_id: u16, m_bit: bool) -> Self {
        let wrap = self.wrap(picture_id, m_bit);
        if self.precedes_last_wrap(picture_id, m_bit) || wrap == 0 {
            self
        } else {
            Vp8PictureIdWrapHandler {
                total_wrap: (self.total_wrap + wrap) as i32,
                last_wrap: wrap as i32,
                ..self
            }
        }
    }

    /// A handler that has counted nothing.
    pub fn new() -> (handler: Self)
        ensures
            handler.wf(),
            handler == (Vp8PictureIdWrapHandler {
                max_picture_id: (-1) as i32,
                max_m_bit: false,
                total_wrap: 0,
                last_wrap: 0,
            }),
    {
        Vp8PictureIdWrapHandler {
            max_picture_id: -1,
            max_m_bit: false,
            total_wrap: 0,
            last_wrap: 0,
        }
    }

    /// Starts to count at an id.
    pub fn init(&mut self, ext_picture_id: i32, m_bit: bool)
        ensures
            final(self).wf(),
            *final(self) == (Vp8PictureIdWrapHandler {
                max_picture_id: ext_picture_id,
                max_m_bit: m_bit,
                total_wrap: 0,
                last_wrap: 0,
            }),
    {
        self.max_picture_id = ext_picture_id;
        self.max_m_bit = m_bit;
        self.total_wrap = 0;
        self.last_wrap = 0;
    }

    /// The count of the newest id.
    pub fn max_picture_id(&self) -> (id: i32)
        ensures
            id == self.max_picture_id,
    {
        self.max_picture_id
    }

    /// Takes an id as the newest.
    pub fn update_max_picture_id(&mut self, ext_picture_id: i32, m_bit: bool)
        ensures
            *final(self) == (Vp8PictureIdWrapHandler {
                max_picture_id: ext_picture_id,
                max_m_bit: m_bit,
                ..*old(self)
            }),
    {
        self.max_picture_id = ext_picture_id;
        self.max_m_bit = m_bit;
    }

    /// The count of an id.
    pub fn unwrap(&self, picture_id: u16, m_bit: bool) -> (ext_picture_id: i32)
        requires
            self.wf(),
            self.can_unwrap(picture_id, m_bit),
        ensures
            ext_picture_id == self.unwrapped(picture_id, m_bit),
    {
        let mut copy: Vp8PictureIdWrapHandler = *self;
        copy.unwrap_and_update(picture_id, m_bit)
    }

    /// The count of an id, which is remembered if it wrapped.
    pub fn unwrap_and_update(&mut self, picture_id: u16, m_bit: bool) -> (ext_picture_id: i32)
        requires
            old(self).wf(),
            old(self).can_unwrap(picture_id, m_bit),
        ensures
            final(self).wf(),
            *final(self) == old(self).after_unwrap(picture_id, m_bit),
            ext_picture_id == old(self).unwrapped(picture_id, m_bit),
    {
        let mut max_picture_id: i32 = self.max_picture_id;
        if max_picture_id > 0 {
            if self.max_m_bit {
                max_picture_id = max_picture_id % 0x8000;
            } else {
                max_picture_id = max_picture_id % 0x80;
            }
        }
        let new_picture_id: i32 = if m_bit {
            (picture_id % 0x8000) as i32
        } else {
            (picture_id % 0x80) as i32
        };
        if self.total_wrap > 0 && (self.max_picture_id + self.last_wrap / 2) < (new_picture_id
            + self.total_wrap) {
            return new_picture_id + self.total_wrap - self.last_wrap;
        }
        let mut wrap: i32 = 0;
        if self.max_m_bit {
            if is_wrapping_15_bit(max_picture_id, new_picture_id) {
                wrap = 0x8000;
            }
        } else if is_wrapping_7_bit(max_picture_id, new_picture_id) {
            wrap = 0x80;
        }
        self.total_wrap = self.total_wrap + wrap;
        if wrap != 0 {
            self.last_wrap = wrap;
        }
        new_picture_id + self.total_wrap
    }
}

/// `val2` is behind `val1` by more than half a turn of 7 bits.
pub fn is_wrapping_7_bit(val1: i32, val2: i32) -> (wrapping: bool)
    requires
        val2 < val1 ==> val1 - val2 <= i32::MAX,
    ensures
        wrapping <==> val1 - val2 > 0x40,
{
    val2 < val1 && val1 - val2 > 0x40
}

/// `val2` is behind `val1` by more than half a turn of 15 bits.
pub fn is_wrapping_15_bit(val1: i32, val2: i32) -> (wrapping: bool)
    requires
        val2 < val1 ==> val1 - val2 <= i32::MAX,
    ensures
        wrapping <==> val1 - val2 > 0x4000,
{
    val2 < val1 && val1 - val2 > 0x4000
}

fn low_15_bits(value: i32) -> (low: u16)
    ensures
        low == value as int % 0x8000,
{
    ((value as i64 + 0x8000_0000) as u64 % 0x8000) as u16
}

/// The size of a descriptor whose picture id changed its width.
pub open spec fn resized(base: int, new_m_bit: bool, old_m_bit: bool) -> int {
    if new_m_bit && !old_m_bit {
        base + 1
    } else if !new_m_bit && old_m_bit && base > 0 {
        base - 1
    } else {
        base
    }
}

/// The size of a descriptor whose picture id changed its width.
pub fn adjusted_header_size(base: usize, new_m_bit: bool, old_m_bit: bool) -> (size: usize)
    requires
        new_m_bit && !old_m_bit ==> base < usize::MAX,
    ensures
        size == resized(base as int, new_m_bit, old_m_bit),
{
    if new_m_bit && !old_m_bit {
        base + 1
    } else if !new_m_bit && old_m_bit {
        base.saturating_sub(1)
    } else {
        base
    }
}

/// The rewriting state of one forwarded stream.
#[derive(Debug, Clone)]
pub struct Vp8Munger {
    pub picture_id_wrap_handler: Vp8PictureIdWrapHandler,
    pub ext_last_picture_id: i32,
    pub picture_id_offset: i32,
    pub picture_id_used: bool,
    pub last_tl0_pic_idx: u8,
    pub tl0_pic_idx_offset: u8,
    pub tl0_pic_idx_used: bool,
    pub tid_used: bool,
    pub last_key_idx: u8,
    pub key_idx_offset: u8,
    pub key_idx_used: bool,
    pub missing_picture_ids: OrderedCache<i32, i32>,
    pub dropped_picture_ids: OrderedCache<i32, bool>,
    pub exempted_picture_ids: OrderedCache<i32, bool>,
}

/// The contents of a [`Vp8Munger`].
#[verifier::ext_equal]
pub struct Vp8MungerView {
    pub handler: Vp8PictureIdWrapHandler,
    pub ext_last_picture_id: i32,
    pub picture_id_offset: i32,
    pub picture_id_used: bool,
    pub last_tl0_pic_idx: u8,
    pub tl0_pic_idx_offset: u8,
    pub tl0_pic_idx_used: bool,
    pub tid_used: bool,
    pub last_key_idx: u8,
    pub key_idx_offset: u8,
    pub key_idx_used: bool,
    pub missing: CacheView<i32, i32>,
    pub dropped: CacheView<i32, bool>,
    pub exempted: CacheView<i32, bool>,
}

impl View for Vp8Munger {
    type V = Vp8MungerView;

    open spec fn view(&self) -> Vp8MungerView {
        Vp8MungerView {
            handler: self.picture_id_wrap_handler,
            ext_last_picture_id: self.ext_last_picture_id,
            picture_id_offset: self.picture_id_offset,
            picture_id_used: self.picture_id_used,
            last_tl0_pic_idx: self.last_tl0_pic_idx,
            tl0_pic_idx_offset: self.tl0_pic_idx_offset,
            tl0_pic_idx_used: self.tl0_pic_idx_used,
            tid_used: self.tid_used,
            last_key_idx: self.last_key_idx,
            key_idx_offset: self.key_idx_offset,
            key_idx_used: self.key_idx_used,
            missing: self.missing_picture_ids@,
            dropped: self.dropped_picture_ids@,
            exempted: self.exempted_picture_ids@,
        }
    }
}

/// The cache after the ids `low` to `high`, both inclusive, were found missing. An id that was
/// dropped on purpose is not missing.
pub open spec fn with_missing(
    missing: CacheView<i32, i32>,
    dropped: Map<i32, bool>,
    low: int,
    high: int,
    offset: i32,
) -> CacheView<i32, i32>
    decreases high - low + 1,
{
    if high < low {
        missing
    } else {
        let before = with_missing(missing, dropped, low, high - 1, offset);
        if dropped.contains_key(high as i32) {
            before
        } else {
            before.with(high as i32, offset)
        }
    }
}

impl Vp8MungerView {
    /// The state after `vp8` was taken as the first picture to go out, unshifted.
    pub open spec fn started(self, vp8: Vp8Header) -> Self {
        Vp8MungerView {
            picture_id_used: vp8.i,
            handler: if vp8.i {
                Vp8PictureIdWrapHandler {
                    max_picture_id: (vp8.picture_id - 1) as i32,
                    max_m_bit: vp8.m,
                    total_wrap: 0,
                    last_wrap: 0,
                }
            } else {
                self.handler
            },
            ext_last_picture_id: if vp8.i {
                vp8.picture_id as i32
            } else {
                self.ext_last_picture_id
            },
            tl0_pic_idx_used: vp8.l,
            last_tl0_pic_idx: if vp8.l {
                vp8.tl0_pic_idx
            } else {
                self.last_tl0_pic_idx
            },
            tid_used: vp8.t,
            key_idx_used: vp8.k,
            last_key_idx: if vp8.k {
                vp8.key_idx
            } else {
                self.last_key_idx
            },
            ..self
        }
    }

    /// The state in which `vp8`, of another source, is to follow on the last picture that went
    /// out.
    pub open spec fn switched(self, vp8: Vp8Header) -> Self {
        Vp8MungerView {
            handler: if self.picture_id_used {
                Vp8PictureIdWrapHandler {
                    max_picture_id: (vp8.picture_id - 1) as i32,
                    max_m_bit: vp8.m,
                    total_wrap: 0,
                    last_wrap: 0,
                }
            } else {
                self.handler
            },
            picture_id_offset: if self.picture_id_used {
                (vp8.picture_id - self.ext_last_picture_id - 1) as i32
            } else {
                self.picture_id_offset
            },
            tl0_pic_idx_offset: if self.tl0_pic_idx_used {
                vp8.tl0_pic_idx.wrapping_sub(self.last_tl0_pic_idx).wrapping_sub(1)
            } else {
                self.tl0_pic_idx_offset
            },
            key_idx_offset: if self.key_idx_used {
                vp8.key_idx.wrapping_sub(self.last_key_idx).wrapping_sub(1) % 0x20
            } else {
                self.key_idx_offset
            },
            missing: CacheView::empty(),
            dropped: CacheView::empty(),
            exempted: CacheView::empty(),
            ..self
        }
    }

    /// The count of the picture.
    pub open spec fn ext_id(self, vp8: Vp8Header) -> int {
        self.handler.unwrapped(vp8.picture_id, vp8.m)
    }

    /// The state after the picture was counted.
    pub open spec fn counted(self, vp8: Vp8Header) -> Self {
        Vp8MungerView { handler: self.handler.after_unwrap(vp8.picture_id, vp8.m), ..self }
    }

    /// The descriptor that goes out with the outgoing picture count `ext_id`.
    pub open spec fn header(self, vp8: Vp8Header, ext_id: int, key_idx: u8) -> Vp8Header {
        let picture_id = (ext_id % 0x8000) as u16;
        Vp8Header {
            m: picture_id > 127,
            picture_id,
            tl0_pic_idx: vp8.tl0_pic_idx.wrapping_sub(self.tl0_pic_idx_offset),
            key_idx,
            header_size: resized(vp8.header_size as int, picture_id > 127, vp8.m) as usize,
            ..vp8
        }
    }

    /// The descriptor of a late picture, if its offset is remembered.
    pub open spec fn late_header(self, vp8: Vp8Header) -> Option<Vp8Header> {
        let ext_id = self.ext_id(vp8) as i32;
        if self.missing.values.contains_key(ext_id) {
            Some(
                self.header(
                    vp8,
                    ext_id - self.missing.values[ext_id],
                    vp8.key_idx.wrapping_sub(self.key_idx_offset),
                ),
            )
        } else {
            None
        }
    }

    /// A picture that arrives in order is filtered: it is above the wanted temporal layer, nothing
    /// was lost before it, and it is not exempted.
    pub open spec fn filters(
        self,
        vp8: Vp8Header,
        temporal: i32,
        sn_has_gap: bool,
        max_temporal_layer: i32,
    ) -> bool {
        &&& !sn_has_gap
        &&& temporal > max_temporal_layer
        &&& !self.exempted.values.contains_key(self.ext_id(vp8) as i32)
    }

    /// The filtered packet begins a picture, whose id is skipped.
    pub open spec fn skips_picture(self, vp8: Vp8Header) -> bool {
        vp8.i && self.handler.max_picture_id != self.ext_id(vp8)
    }

    /// The state after a picture in order became the newest one.
    pub open spec fn advanced(self, vp8: Vp8Header) -> Self {
        let counted = self.counted(vp8);
        Vp8MungerView {
            handler: Vp8PictureIdWrapHandler {
                max_picture_id: self.ext_id(vp8) as i32,
                max_m_bit: vp8.m,
                ..counted.handler
            },
            ..counted
        }
    }

    /// The state after a picture in order was filtered.
    pub open spec fn filtered(self, vp8: Vp8Header) -> Self {
        let advanced = self.advanced(vp8);
        if self.skips_picture(vp8) {
            Vp8MungerView {
                dropped: advanced.dropped.with(self.ext_id(vp8) as i32, true).trimmed(
                    DROPPED_PICTURE_IDS_THRESHOLD as nat,
                ),
                picture_id_offset: (advanced.picture_id_offset + 1) as i32,
                ..advanced
            }
        } else {
            advanced
        }
    }

    /// The state after packets were lost before a picture in order.
    pub open spec fn after_gap(
        self,
        vp8: Vp8Header,
        temporal: i32,
        max_temporal_layer: i32,
    ) -> Self {
        let advanced = self.advanced(vp8);
        Vp8MungerView {
            missing: with_missing(
                advanced.missing,
                advanced.dropped.values,
                self.handler.max_picture_id as int,
                self.ext_id(vp8),
                advanced.picture_id_offset,
            ).trimmed(MISSING_PICTURE_IDS_THRESHOLD as nat),
            exempted: if temporal > max_temporal_layer {
                advanced.exempted.with(self.ext_id(vp8) as i32, true).trimmed(
                    EXEMPTED_PICTURE_IDS_THRESHOLD as nat,
                )
            } else {
                advanced.exempted
            },
            ..advanced
        }
    }

    /// The key index that goes out.
    pub open spec fn munged_key_idx(self, vp8: Vp8Header) -> u8 {
        vp8.key_idx.wrapping_sub(self.key_idx_offset) % 0x20
    }

    /// The outgoing picture count of a picture in order.
    pub open spec fn munged_ext_id(self, vp8: Vp8Header) -> int {
        self.ext_id(vp8) - self.picture_id_offset
    }

    /// The state after a picture in order went out.
    pub open spec fn forwarded(
        self,
        vp8: Vp8Header,
        temporal: i32,
        sn_has_gap: bool,
        max_temporal_layer: i32,
    ) -> Self {
        let before = if sn_has_gap {
            self.after_gap(vp8, temporal, max_temporal_layer)
        } else {
            self.advanced(vp8)
        };
        Vp8MungerView {
            ext_last_picture_id: self.munged_ext_id(vp8) as i32,
            last_tl0_pic_idx: vp8.tl0_pic_idx.wrapping_sub(self.tl0_pic_idx_offset),
            last_key_idx: self.munged_key_idx(vp8),
            ..before
        }
    }

    /// What becomes of a packet.
    pub open spec fn translation(
        self,
        packet: ExtPacketVp8,
        sn_out_of_order: bool,
        sn_has_gap: bool,
        max_temporal_layer: i32,
    ) -> Result<(usize, Vp8Header), Vp8MungerError> {
        match packet.payload {
            None => Err(Vp8MungerError::NotVp8),
            Some(vp8) => if sn_out_of_order {
                match self.late_header(vp8) {
                    Some(header) => Ok((vp8.header_size, header)),
                    None => Err(Vp8MungerError::OutOfOrderVp8PictureIdCacheMiss),
                }
            } else if self.filters(vp8, packet.temporal, sn_has_gap, max_temporal_layer) {
                Err(Vp8MungerError::FilteredVp8TemporalLayer)
            } else {
                Ok(
                    (
                        vp8.header_size,
                        self.header(vp8, self.munged_ext_id(vp8), self.munged_key_idx(vp8)),
                    ),
                )
            },
        }
    }

    /// The state after a packet was looked at.
    pub open spec fn after_packet(
        self,
        packet: ExtPacketVp8,
        sn_out_of_order: bool,
        sn_has_gap: bool,
        max_temporal_layer: i32,
    ) -> Self {
        match packet.payload {
            None => self,
            Some(vp8) => if sn_out_of_order {
                self.counted(vp8)
            } else if self.filters(vp8, packet.temporal, sn_has_gap, max_temporal_layer) {
                self.filtered(vp8)
            } else {
                self.forwarded(vp8, packet.temporal, sn_has_gap, max_temporal_layer)
            },
        }
    }

    /// The outgoing picture count and the size of its descriptor stay within the machine types.
    pub open spec fn can_send(self, vp8: Vp8Header, outgoing: int) -> bool {
        &&& i32::MIN <= outgoing <= i32::MAX
        &&& resized(vp8.header_size as int, outgoing % 0x8000 > 127, vp8.m) <= usize::MAX
    }

    /// The arithmetic on the packet stays within the machine types.
    pub open spec fn can_translate(
        self,
        packet: ExtPacketVp8,
        sn_out_of_order: bool,
        sn_has_gap: bool,
        max_temporal_layer: i32,
    ) -> bool {
        packet.payload matches Some(vp8) ==> {
            let ext_id = self.ext_id(vp8);
            &&& self.handler.can_unwrap(vp8.picture_id, vp8.m)
            &&& if sn_out_of_order {
                self.missing.values.contains_key(ext_id as i32) ==> self.can_send(
                    vp8,
                    ext_id - self.missing.values[ext_id as i32],
                )
            } else if self.filters(vp8, packet.temporal, sn_has_gap, max_temporal_layer) {
                self.skips_picture(vp8) ==> self.picture_id_offset < i32::MAX
            } else {
                self.can_send(vp8, self.munged_ext_id(vp8))
            }
        }
    }

    /// The size of a padding descriptor for the outgoing picture count `ext_id`.
    pub open spec fn padding_header_size(self, ext_id: int) -> int {
        1 + (if self.picture_id_used || self.tl0_pic_idx_used || self.tid_used
            || self.key_idx_used {
            1int
        } else {
            0
        }) + (if !self.picture_id_used {
            0int
        } else if ext_id % 0x8000 > 127 {
            2
        } else {
            1
        }) + (if self.tl0_pic_idx_used {
            1int
        } else {
            0
        }) + (if self.tid_used || self.key_idx_used {
            1int
        } else {
            0
        })
    }

    /// The state after padding went out, as a picture of its own where `step` is 1.
    pub open spec fn padded(self, step: u8) -> Self {
        Vp8MungerView {
            ext_last_picture_id: if self.picture_id_used {
                (self.ext_last_picture_id + step) as i32
            } else {
                self.ext_last_picture_id
            },
            picture_id_offset: if self.picture_id_used {
                (self.picture_id_offset - step) as i32
            } else {
                self.picture_id_offset
            },
            last_tl0_pic_idx: if self.tl0_pic_idx_used {
                self.last_tl0_pic_idx.wrapping_add(step)
            } else {
                self.last_tl0_pic_idx
            },
            tl0_pic_idx_offset: if self.tl0_pic_idx_used {
                self.tl0_pic_idx_offset.wrapping_sub(step)
            } else {
                self.tl0_pic_idx_offset
            },
            last_key_idx: if self.key_idx_used {
                self.last_key_idx.wrapping_add(step) % 0x20
            } else {
                self.last_key_idx
            },
            key_idx_offset: if self.key_idx_used {
                self.key_idx_offset.wrapping_sub(step)
            } else {
                self.key_idx_offset
            },
            ..self
        }
    }

    /// The descriptor of a padding packet that left the munger in this state.
    pub open spec fn padding_header(self) -> Vp8Header {
        let picture_id = (self.ext_last_picture_id as int % 0x8000) as u16;
        Vp8Header {
            first_byte: 0x10,
            i: self.picture_id_used,
            m: picture_id > 127,
            picture_id,
            l: self.tl0_pic_idx_used,
            tl0_pic_idx: if self.tl0_pic_idx_used {
                self.last_tl0_pic_idx
            } else {
                0
            },
            t: self.tid_used,
            tid: 0,
            y: true,
            k: self.key_idx_used,
            key_idx: if self.key_idx_used {
                self.last_key_idx
            } else {
                0
            },
            is_key_frame: true,
            header_size: self.padding_header_size(self.ext_last_picture_id as int) as usize,
        }
    }
}

impl Vp8Munger {
    /// The caches are well formed and within their limits.
    pub open spec fn wf(self) -> bool {
        &&& self.picture_id_wrap_handler.wf()
        &&& self.missing_picture_ids.wf()
        &&& self.missing_picture_ids@.keys.len() <= MISSING_PICTURE_IDS_THRESHOLD
        &&& self.dropped_picture_ids.wf()
        &&& self.dropped_picture_ids@.keys.len() <= DROPPED_PICTURE_IDS_THRESHOLD
        &&& self.exempted_picture_ids.wf()
        &&& self.exempted_picture_ids@.keys.len() <= EXEMPTED_PICTURE_IDS_THRESHOLD
    }

    /// A munger that has seen nothing.
    pub fn new() -> (munger: Self)
        ensures
            munger.wf(),
            munger@ == (Vp8MungerView {
                handler: Vp8PictureIdWrapHandler {
                    max_picture_id: (-1) as i32,
                    max_m_bit: false,
                    total_wrap: 0,
                    last_wrap: 0,
                },
                ext_last_picture_id: 0,
                picture_id_offset: 0,
                picture_id_used: false,
                last_tl0_pic_idx: 0,
                tl0_pic_idx_offset: 0,
                tl0_pic_idx_used: false,
                tid_used: false,
                last_key_idx: 0,
                key_idx_offset: 0,
                key_idx_used: false,
                missing: CacheView::empty(),
                dropped: CacheView::empty(),
                exempted: CacheView::empty(),
            }),
    {
        broadcast use vstd::std_specs::hash::group_hash_axioms;

        Vp8Munger {
            picture_id_wrap_handler: Vp8PictureIdWrapHandler::new(),
            ext_last_picture_id: 0,
            picture_id_offset: 0,
            picture_id_used: false,
            last_tl0_pic_idx: 0,
            tl0_pic_idx_offset: 0,
            tl0_pic_idx_used: false,
            tid_used: false,
            last_key_idx: 0,
            key_idx_offset: 0,
            key_idx_used: false,
            missing_picture_ids: OrderedCache::new(),
            dropped_picture_ids: OrderedCache::new(),
            exempted_picture_ids: OrderedCache::new(),
        }
    }

    /// Starts the outgoing stream at a packet, which is to pass unshifted.
    pub fn set_last(&mut self, ext_pkt: &ExtPacketVp8)
        requires
            old(self).wf(),
        ensures
            final(self).wf(),
            final(self)@ == match ext_pkt.payload {
                Some(vp8) => old(self)@.started(vp8),
                None => old(self)@,
            },
    {
        if let Some(vp8) = ext_pkt.payload {
            self.picture_id_used = vp8.i;
            if self.picture_id_used {
                self.picture_id_wrap_handler.init(vp8.picture_id as i32 - 1, vp8.m);
                self.ext_last_picture_id = vp8.picture_id as i32;
            }
            self.tl0_pic_idx_used = vp8.l;
            if self.tl0_pic_idx_used {
                self.last_tl0_pic_idx = vp8.tl0_pic_idx;
            }
            self.tid_used = vp8.t;
            self.key_idx_used = vp8.k;
            if self.key_idx_used {
                self.last_key_idx = vp8.key_idx;
            }
        }
    }

    /// Continues the outgoing stream from another source, whose next packet is `ext_pkt`.
    pub fn update_offsets(&mut self, ext_pkt: &ExtPacketVp8)
        requires
            old(self).wf(),
            old(self).picture_id_used ==> (ext_pkt.payload matches Some(vp8) ==> i32::MIN
                <= vp8.picture_id - old(self).ext_last_picture_id - 1 && vp8.picture_id
                - old(self).ext_last_picture_id <= i32::MAX),
        ensures
            final(self).wf(),
            final(self)@ == match ext_pkt.payload {
                Some(vp8) => old(self)@.switched(vp8),
                None => old(self)@,
            },
    {
        if let Some(vp8) = ext_pkt.payload {
            if self.picture_id_used {
                self.picture_id_wrap_handler.init(vp8.picture_id as i32 - 1, vp8.m);
                self.picture_id_offset = vp8.picture_id as i32 - self.ext_last_picture_id - 1;
            }
            if self.tl0_pic_idx_used {
                self.tl0_pic_idx_offset = vp8.tl0_pic_idx.wrapping_sub(
                    self.last_tl0_pic_idx,
                ).wrapping_sub(1);
            }
            if self.key_idx_used {
                self.key_idx_offset = vp8.key_idx.wrapping_sub(self.last_key_idx).wrapping_sub(1)
                    % 0x20;
            }
            self.missing_picture_ids.clear();
            self.dropped_picture_ids.clear();
            self.exempted_picture_ids.clear();
        }
    }

    /// The outgoing descriptor of a packet, with the size of the incoming one, or why the packet
    /// is not sent on.
    pub fn update_and_get(
        &mut self,
        ext_pkt: &ExtPacketVp8,
        sn_out_of_order: bool,
        sn_has_gap: bool,
        max_temporal_layer: i32,
    ) -> (result: Result<(usize, Vp8Header), Vp8MungerError>)
        requires
            old(self).wf(),
            old(self)@.can_translate(*ext_pkt, sn_out_of_order, sn_has_gap, max_temporal_layer),
        ensures
            final(self).wf(),
            result == old(self)@.translation(
                *ext_pkt,
                sn_out_of_order,
                sn_has_gap,
                max_temporal_layer,
            ),
            final(self)@ == old(self)@.after_packet(
                *ext_pkt,
                sn_out_of_order,
                sn_has_gap,
                max_temporal_layer,
            ),
    {
        let vp8: Vp8Header = match ext_pkt.payload {
            Some(vp8) => vp8,
            None => {
                return Err(Vp8MungerError::NotVp8);
            },
        };
        if sn_out_of_order {
            return match self.translate_late(vp8) {
                Some(out) => Ok((vp8.header_size, out)),
                None => Err(Vp8MungerError::OutOfOrderVp8PictureIdCacheMiss),
            };
        }
        let prev_max_picture_id: i32 = self.picture_id_wrap_handler.max_picture_id();
        let ext_picture_id: i32 = self.advance(vp8);
        if sn_has_gap {
            self.note_gap(
                prev_max_picture_id,
                ext_picture_id,
                ext_pkt.temporal > max_temporal_layer,
            );
        } else if ext_pkt.temporal > max_temporal_layer && self.exempted_picture_ids.get(
            &ext_picture_id,
        ).is_none() {
            if vp8.i && prev_max_picture_id != ext_picture_id {
                self.skip_picture(ext_picture_id);
            }
            return Err(Vp8MungerError::FilteredVp8TemporalLayer);
        }
        let out: Vp8Header = self.send_on(vp8, ext_picture_id);
        Ok((vp8.header_size, out))
    }

    /// Counts a late picture, and gives its descriptor if its offset is remembered.
    fn translate_late(&mut self, vp8: Vp8Header) -> (out: Option<Vp8Header>)
        requires
            old(self).wf(),
            old(self)@.handler.can_unwrap(vp8.picture_id, vp8.m),
            ({
                let ext_id = old(self)@.ext_id(vp8) as i32;
                old(self)@.missing.values.contains_key(ext_id) ==> old(self)@.can_send(
                    vp8,
                    ext_id - old(self)@.missing.values[ext_id],
                )
            }),
        ensures
            final(self).wf(),
            final(self)@ == old(self)@.counted(vp8),
            out == old(self)@.late_header(vp8),
    {
        let ext_picture_id: i32 = self.picture_id_wrap_handler.unwrap_and_update(
            vp8.picture_id,
            vp8.m,
        );
        match self.missing_picture_ids.get(&ext_picture_id) {
            Some(offset) => {
                let key_idx: u8 = vp8.key_idx.wrapping_sub(self.key_idx_offset);
                Some(self.outgoing_header(vp8, ext_picture_id - *offset, key_idx))
            },
            None => None,
        }
    }

    /// Counts a picture in order, which is the newest one now.
    fn advance(&mut self, vp8: Vp8Header) -> (ext_picture_id: i32)
        requires
            old(self).wf(),
            old(self)@.handler.can_unwrap(vp8.picture_id, vp8.m),
        ensures
            final(self).wf(),
            final(self)@ == old(self)@.advanced(vp8),
            ext_picture_id == old(self)@.ext_id(vp8),
    {
        let ext_picture_id: i32 = self.picture_id_wrap_handler.unwrap_and_update(
            vp8.picture_id,
            vp8.m,
        );
        self.picture_id_wrap_handler.update_max_picture_id(ext_picture_id, vp8.m);
        ext_picture_id
    }

    /// Remembers the ids from `low` to `high`, before which packets were lost, and that the last
    /// of them is not to be dropped where it is `exempt`.
    fn note_gap(&mut self, low: i32, high: i32, exempt: bool)
        requires
            old(self).wf(),
        ensures
            final(self).wf(),
            final(self)@ == (Vp8MungerView {
                missing: with_missing(
                    old(self)@.missing,
                    old(self)@.dropped.values,
                    low as int,
                    high as int,
                    old(self).picture_id_offset,
                ).trimmed(MISSING_PICTURE_IDS_THRESHOLD as nat),
                exempted: if exempt {
                    old(self)@.exempted.with(high, true).trimmed(
                        EXEMPTED_PICTURE_IDS_THRESHOLD as nat,
                    )
                } else {
                    old(self)@.exempted
                },
                ..old(self)@
            }),
    {
        self.remember_missing(low, high);
        if exempt {
            self.exempted_picture_ids.set(high, true);
            self.exempted_picture_ids.trim(EXEMPTED_PICTURE_IDS_THRESHOLD);
        }
    }

    /// Remembers the id of a dropped picture, which later pictures make up for.
    fn skip_picture(&mut self, ext_picture_id: i32)
        requires
            old(self).wf(),
            old(self).picture_id_offset < i32::MAX,
        ensures
            final(self).wf(),
            final(self)@ == (Vp8MungerView {
                dropped: old(self)@.dropped.with(ext_picture_id, true).trimmed(
                    DROPPED_PICTURE_IDS_THRESHOLD as nat,
                ),
                picture_id_offset: (old(self).picture_id_offset + 1) as i32,
                ..old(self)@
            }),
    {
        self.dropped_picture_ids.set(ext_picture_id, true);
        self.dropped_picture_ids.trim(DROPPED_PICTURE_IDS_THRESHOLD);
        self.picture_id_offset = self.picture_id_offset + 1;
    }

    /// Gives the descriptor of a picture in order, and remembers what went out.
    fn send_on(&mut self, vp8: Vp8Header, ext_picture_id: i32) -> (out: Vp8Header)
        requires
            old(self).wf(),
            old(self)@.can_send(vp8, ext_picture_id - old(self).picture_id_offset),
        ensures
            final(self).wf(),
            final(self)@ == (Vp8MungerView {
                ext_last_picture_id: (ext_picture_id - old(self).picture_id_offset) as i32,
                last_tl0_pic_idx: vp8.tl0_pic_idx.wrapping_sub(old(self).tl0_pic_idx_offset),
                last_key_idx: old(self)@.munged_key_idx(vp8),
                ..old(self)@
            }),
            out == old(self)@.header(
                vp8,
                ext_picture_id - old(self).picture_id_offset,
                old(self)@.munged_key_idx(vp8),
            ),
    {
        let ext_munged_picture_id: i32 = ext_picture_id - self.picture_id_offset;
        let munged_tl0: u8 = vp8.tl0_pic_idx.wrapping_sub(self.tl0_pic_idx_offset);
        let munged_key_idx: u8 = vp8.key_idx.wrapping_sub(self.key_idx_offset) % 0x20;
        self.ext_last_picture_id = ext_munged_picture_id;
        self.last_tl0_pic_idx = munged_tl0;
        self.last_key_idx = munged_key_idx;
        self.outgoing_header(vp8, ext_munged_picture_id, munged_key_idx)
    }

    /// The descriptor that goes out with the outgoing picture count `ext_id`.
    fn outgoing_header(&self, vp8: Vp8Header, ext_id: i32, key_idx: u8) -> (header: Vp8Header)
        requires
            resized(vp8.header_size as int, ext_id as int % 0x8000 > 127, vp8.m) <= usize::MAX,
        ensures
            header == self@.header(vp8, ext_id as int, key_idx),
    {
        let picture_id: u16 = low_15_bits(ext_id);
        Vp8Header {
            first_byte: vp8.first_byte,
            i: vp8.i,
            m: picture_id > 127,
            picture_id,
            l: vp8.l,
            tl0_pic_idx: vp8.tl0_pic_idx.wrapping_sub(self.tl0_pic_idx_offset),
            t: vp8.t,
            tid: vp8.tid,
            y: vp8.y,
            k: vp8.k,
            key_idx,
            is_key_frame: vp8.is_key_frame,
            header_size: adjusted_header_size(vp8.header_size, picture_id > 127, vp8.m),
        }
    }

    /// Remembers the offset of the ids from `low` to `high` that were not dropped on purpose.
    fn remember_missing(&mut self, low: i32, high: i32)
        requires
            old(self).wf(),
        ensures
            final(self).wf(),
            final(self)@ == (Vp8MungerView {
                missing: with_missing(
                    old(self)@.missing,
                    old(self)@.dropped.values,
                    low as int,
                    high as int,
                    old(self).picture_id_offset,
                ).trimmed(MISSING_PICTURE_IDS_THRESHOLD as nat),
                ..old(self)@
            }),
    {
        let ghost before = self@;
        let mut lost: i64 = low as i64;
        while lost <= high as i64
            invariant
                low <= lost,
                lost <= high + 1 || lost == low,
                self.picture_id_wrap_handler.wf(),
                self.missing_picture_ids.wf(),
                self.dropped_picture_ids.wf(),
                self.dropped_picture_ids@.keys.len() <= DROPPED_PICTURE_IDS_THRESHOLD,
                self.exempted_picture_ids.wf(),
                self.exempted_picture_ids@.keys.len() <= EXEMPTED_PICTURE_IDS_THRESHOLD,
                self@ == (Vp8MungerView {
                    missing: with_missing(
                        before.missing,
                        before.dropped.values,
                        low as int,
                        lost - 1,
                        before.picture_id_offset,
                    ),
                    ..before
                }),
            decreases high + 1 - lost,
        {
            let lost_picture_id: i32 = lost as i32;
            if self.dropped_picture_ids.get(&lost_picture_id).is_none() {
                self.missing_picture_ids.set(lost_picture_id, self.picture_id_offset);
            }
            lost += 1;
        }
        self.missing_picture_ids.trim(MISSING_PICTURE_IDS_THRESHOLD);
    }

    /// The descriptor of a padding packet. The result is always `Ok`.
    pub fn update_and_get_padding(&mut self, new_picture: bool) -> (result: Result<
        Vp8Header,
        Vp8MungerError,
    >)
        requires
            old(self).wf(),
            new_picture && old(self).picture_id_used ==> old(self).ext_last_picture_id < i32::MAX
                && old(self).picture_id_offset > i32::MIN,
        ensures
            final(self).wf(),
            final(self)@ == old(self)@.padded(if new_picture { 1 } else { 0 }),
            result == Ok::<Vp8Header, Vp8MungerError>(final(self)@.padding_header()),
    {
        let offset: u8 = if new_picture {
            1
        } else {
            0
        };
        let mut header_size: usize = 1;
        if self.picture_id_used || self.tl0_pic_idx_used || self.tid_used || self.key_idx_used {
            header_size += 1;
        }
        let mut ext_picture_id: i32 = self.ext_last_picture_id;
        if self.picture_id_used {
            ext_picture_id = ext_picture_id + offset as i32;
            self.ext_last_picture_id = ext_picture_id;
            self.picture_id_offset = self.picture_id_offset - offset as i32;
            if low_15_bits(ext_picture_id) > 127 {
                header_size += 2;
            } else {
                header_size += 1;
            }
        }
        let picture_id: u16 = low_15_bits(ext_picture_id);
        let mut tl0: u8 = 0;
        if self.tl0_pic_idx_used {
            tl0 = self.last_tl0_pic_idx.wrapping_add(offset);
            self.last_tl0_pic_idx = tl0;
            self.tl0_pic_idx_offset = self.tl0_pic_idx_offset.wrapping_sub(offset);
            header_size += 1;
        }
        if self.tid_used || self.key_idx_used {
            header_size += 1;
        }
        let mut key_idx: u8 = 0;
        if self.key_idx_used {
            key_idx = self.last_key_idx.wrapping_add(offset) % 0x20;
            self.last_key_idx = key_idx;
            self.key_idx_offset = self.key_idx_offset.wrapping_sub(offset);
        }
        Ok(
            Vp8Header {
                first_byte: 0x10,
                i: self.picture_id_used,
                m: picture_id > 127,
                picture_id,
                l: self.tl0_pic_idx_used,
                tl0_pic_idx: tl0,
                t: self.tid_used,
                tid: 0,
                y: true,
                k: self.key_idx_used,
                key_idx,
                is_key_frame: true,
                header_size,
            },
        )
    }

    /// The offset that a late packet of the picture is shifted by.
    pub fn picture_id_offset(&self, ext_picture_id: i32) -> (offset: Option<i32>)
        requires
            self.wf(),
        ensures
            offset == if self@.missing.values.contains_key(ext_picture_id) {
                Some(self@.missing.values[ext_picture_id])
            } else {
                None
            },
    {
        match self.missing_picture_ids.get(&ext_picture_id) {
            Some(offset) => Some(*offset),
            None => None,
        }
    }

    /// The newest picture count, the last outgoing numbers with their offsets, and which fields
    /// are in use.
    pub fn state_view(&self) -> (state: (i32, i32, u8, u8, u8, u8, bool, bool, bool, bool))
        ensures
            state == (
                self.picture_id_wrap_handler.max_picture_id,
                self.ext_last_picture_id,
                self.last_tl0_pic_idx,
                self.tl0_pic_idx_offset,
                self.last_key_idx,
                self.key_idx_offset,
                self.picture_id_used,
                self.tl0_pic_idx_used,
                self.tid_used,
                self.key_idx_used,
            ),
    {
        (
            self.picture_id_wrap_handler.max_picture_id,
            self.ext_last_picture_id,
            self.last_tl0_pic_idx,
            self.tl0_pic_idx_offset,
            self.last_key_idx,
            self.key_idx_offset,
            self.picture_id_used,
            self.tl0_pic_idx_used,
            self.tid_used,
            self.key_idx_used,
        )
    }
}

/// Reading a picture id and counting it give the same number, wherever the arithmetic stays
/// within `i32`.
pub proof fn law_reading_agrees_with_counting(
    handler: Vp8PictureIdWrapHandler,
    counting: &mut Vp8PictureIdWrapHandler,
    picture_id: u16,
    m_bit: bool,
    read: i32,
    counted: i32,
)
    requires
        handler.wf(),
        handler.can_unwrap(picture_id, m_bit),
        *old(counting) == handler,
        call_ensures(Vp8PictureIdWrapHandler::unwrap, (&handler, picture_id, m_bit), read),
        call_ensures(
            Vp8PictureIdWrapHandler::unwrap_and_update,
            (old(counting), picture_id, m_bit),
            counted,
        ),
    ensures
        read == counted,
{
}

/// A picture that follows on the newest one without a wrap counts one more than it.
pub proof fn law_next_picture_counts_one_more(handler: Vp8PictureIdWrapHandler, picture_id: u16)
    requires
        handler.total_wrap == 0,
        handler.max_picture_id == picture_id - 1,
        picture_id < if handler.max_m_bit { 0x8000int } else { 0x80 },
    ensures
        handler.unwrapped(picture_id, handler.max_m_bit) == picture_id,
        handler.after_unwrap(picture_id, handler.max_m_bit) == handler,
{
}

/// Counting an id that wraps the width of the newest one goes on by a whole turn.
pub proof fn law_wrapped_id_counts_on(
    handler: Vp8PictureIdWrapHandler,
    picture_id: u16,
    m_bit: bool,
)
    requires
        handler.wf(),
        handler.can_unwrap(picture_id, m_bit),
        handler.max_picture_id > 0,
        !handler.precedes_last_wrap(picture_id, m_bit),
    ensures
        ({
            let turn: int = if handler.max_m_bit { 0x8000 } else { 0x80 };
            let behind = id_bits(handler.max_picture_id as int, handler.max_m_bit) - id_bits(
                picture_id as int,
                m_bit,
            );
            let after = handler.after_unwrap(picture_id, m_bit);
            &&& behind > turn / 2 ==> after.total_wrap == handler.total_wrap + turn
                && after.last_wrap == turn
            &&& behind <= turn / 2 ==> after == handler
            &&& handler.unwrapped(picture_id, m_bit) == id_bits(picture_id as int, m_bit)
                + after.total_wrap
        }),
{
}

/// The first picture after a switch of sources follows on the last picture that went out, and so
/// do its temporal and key indices.
pub proof fn law_switch_continues_pictures(
    state: Vp8MungerView,
    vp8: Vp8Header,
    temporal: i32,
    max_temporal_layer: i32,
)
    requires
        state.picture_id_used,
        state.tl0_pic_idx_used,
        state.key_idx_used,
        state.last_key_idx < 0x20,
        vp8.picture_id < if vp8.m { 0x8000int } else { 0x80 },
        i32::MIN <= vp8.picture_id - state.ext_last_picture_id - 1 <= i32::MAX,
        temporal <= max_temporal_layer,
    ensures
        ({
            let packet = ExtPacketVp8 {
                sequence_number: 0,
                timestamp: 0,
                temporal,
                payload: Some(vp8),
            };
            state.switched(vp8).translation(packet, false, false, max_temporal_layer) matches Ok((
                _,
                header,
            )) && {
                &&& header.picture_id == (state.ext_last_picture_id + 1) % 0x8000
                &&& header.tl0_pic_idx == state.last_tl0_pic_idx.wrapping_add(1)
                &&& header.key_idx == (state.last_key_idx + 1) % 0x20
            }
        }),
{
    let switched = state.switched(vp8);
    assert(switched.handler.unwrapped(vp8.picture_id, vp8.m) == vp8.picture_id);
    assert(switched.munged_ext_id(vp8) == state.ext_last_picture_id + 1);
}

/// A filtered picture leaves no hole: the picture after it gets the id that it would have had.
pub proof fn law_filtered_picture_leaves_no_hole(
    state: Vp8MungerView,
    filtered: Vp8Header,
    next: Vp8Header,
)
    requires
        state.skips_picture(filtered),
        state.picture_id_offset < i32::MAX,
        state.filtered(filtered).ext_id(next) == state.ext_id(filtered) + 1,
    ensures
        state.filtered(filtered).munged_ext_id(next) == state.munged_ext_id(filtered),
{
}

/// A further packet of a filtered picture skips no second id.
pub proof fn law_filtered_picture_is_skipped_once(state: Vp8MungerView, vp8: Vp8Header)
    requires
        i32::MIN <= state.ext_id(vp8) <= i32::MAX,
        state.filtered(vp8).ext_id(vp8) == state.ext_id(vp8),
    ensures
        state.filtered(vp8).filtered(vp8).picture_id_offset == state.filtered(vp8).picture_id_offset,
{
}

/// Every id between the newest picture and one behind a gap that was not dropped on purpose is
/// remembered as missing, with the offset in use, as long as the cache holds it.
pub proof fn law_gap_remembers_missing_pictures(
    missing: CacheView<i32, i32>,
    dropped: Map<i32, bool>,
    low: int,
    high: int,
    offset: i32,
    id: i32,
)
    requires
        i32::MIN <= low,
        high <= i32::MAX,
        low <= id <= high,
        !dropped.contains_key(id),
    ensures
        with_missing(missing, dropped, low, high, offset).values.contains_key(id),
        with_missing(missing, dropped, low, high, offset).values[id] == offset,
    decreases high - low,
{
    if id < high {
        law_gap_remembers_missing_pictures(missing, dropped, low, high - 1, offset, id);
    }
}

/// A late packet of a picture that is remembered as missing is shifted as the pictures around it
/// were.
pub proof fn law_late_picture_is_shifted_by_its_offset(
    state: Vp8MungerView,
    packet: ExtPacketVp8,
    max_temporal_layer: i32,
)
    requires
        packet.payload is Some,
        state.missing.values.contains_key(state.ext_id(packet.payload->0) as i32),
        state.can_translate(packet, true, false, max_temporal_layer),
    ensures
        ({
            let id = state.ext_id(packet.payload->0) as i32;
            state.translation(packet, true, false, max_temporal_layer) matches Ok((_, header))
                && header.picture_id == (id - state.missing.values[id]) % 0x8000
        }),
{
}

/// Padding that is a picture of its own gets the next ids, and the pictures behind it follow on.
pub proof fn law_padding_picture_is_followed(state: Vp8MungerView, next: Vp8Header)
    requires
        state.picture_id_used,
        state.tl0_pic_idx_used,
        state.ext_last_picture_id < i32::MAX,
        state.picture_id_offset > i32::MIN,
        state.munged_ext_id(next) == state.ext_last_picture_id + 1,
    ensures
        state.padded(1).padding_header().picture_id == (state.ext_last_picture_id + 1) % 0x8000,
        state.padded(1).padding_header().tl0_pic_idx == state.last_tl0_pic_idx.wrapping_add(1),
        state.padded(1).munged_ext_id(next) == state.padded(1).ext_last_picture_id + 1,
{
}

/// An id that is less than half a turn ahead of the newest one, or behind it, counts just as far
/// ahead or behind, across any number of wraps.
pub proof fn law_ids_count_from_the_newest(
    handler: Vp8PictureIdWrapHandler,
    picture_id: u16,
    distance: int,
)
    requires
        handler.wf(),
        handler.max_picture_id >= handler.total_wrap,
        ({
            let turn = if handler.max_m_bit {
                0x8000int
            } else {
                0x80
            };
            &&& handler.total_wrap as int % turn == 0
            &&& handler.max_picture_id - handler.total_wrap < turn
            &&& handler.total_wrap > 0 ==> handler.last_wrap == turn
            &&& -(turn / 2) < distance < turn / 2
            &&& handler.max_picture_id + distance >= 0
            &&& picture_id == (handler.max_picture_id + distance) % turn
        }),
    ensures
        handler.unwrapped(picture_id, handler.max_m_bit) == handler.max_picture_id + distance,
{
    let turn = if handler.max_m_bit {
        0x8000int
    } else {
        0x80
    };
    let within = handler.max_picture_id - handler.total_wrap;
    assert(handler.max_picture_id as int % turn == within);
}

/// A picture in order that is not filtered goes out with its count less the offset, its temporal
/// and key indices less theirs, and everything else as it came. Its id is wide exactly where it
/// needs to be, and the descriptor grows or shrinks by the byte that takes.
pub proof fn law_pictures_in_order_are_shifted(
    state: Vp8MungerView,
    packet: ExtPacketVp8,
    sn_has_gap: bool,
    max_temporal_layer: i32,
)
    requires
        state.can_translate(packet, false, sn_has_gap, max_temporal_layer),
        state.translation(packet, false, sn_has_gap, max_temporal_layer) is Ok,
    ensures
        ({
            let vp8 = packet.payload->Some_0;
            let (size, header) = state.translation(packet, false, sn_has_gap, max_temporal_layer)->Ok_0;
            &&& packet.payload is Some
            &&& size == vp8.header_size
            &&& header.picture_id < 0x8000
            &&& (header.picture_id + state.picture_id_offset - state.ext_id(vp8)) % 0x8000 == 0
            &&& header.tl0_pic_idx.wrapping_add(state.tl0_pic_idx_offset) == vp8.tl0_pic_idx
            &&& header.key_idx < 0x20
            &&& (header.key_idx + state.key_idx_offset - vp8.key_idx) % 0x20 == 0
            &&& header.m <==> header.picture_id >= 0x80
            &&& header.m == vp8.m ==> header.header_size == vp8.header_size
            &&& header.m && !vp8.m && vp8.header_size < usize::MAX ==> header.header_size
                == vp8.header_size + 1
            &&& !header.m && vp8.m && vp8.header_size > 0 ==> header.header_size
                == vp8.header_size - 1
            &&& header.first_byte == vp8.first_byte
            &&& header.i == vp8.i
            &&& header.l == vp8.l
            &&& header.t == vp8.t
            &&& header.tid == vp8.tid
            &&& header.y == vp8.y
            &&& header.k == vp8.k
            &&& header.is_key_frame == vp8.is_key_frame
        }),
{
}

/// Two pictures that go out one after the other keep the distance of their counts and of their
/// temporal and key indices.
pub proof fn law_pictures_keep_their_distance(
    state: Vp8MungerView,
    first: ExtPacketVp8,
    first_gap: bool,
    second: ExtPacketVp8,
    second_gap: bool,
    max_temporal_layer: i32,
)
    requires
        state.translation(first, false, first_gap, max_temporal_layer) is Ok,
        state.after_packet(first, false, first_gap, max_temporal_layer).translation(
            second,
            false,
            second_gap,
            max_temporal_layer,
        ) is Ok,
    ensures
        ({
            let after = state.after_packet(first, false, first_gap, max_temporal_layer);
            let (_, one) = state.translation(first, false, first_gap, max_temporal_layer)->Ok_0;
            let (_, two) = after.translation(second, false, second_gap, max_temporal_layer)->Ok_0;
            let old_one = first.payload->Some_0;
            let old_two = second.payload->Some_0;
            &&& (two.picture_id - one.picture_id - (after.ext_id(old_two) - state.ext_id(old_one)))
                % 0x8000 == 0
            &&& two.tl0_pic_idx.wrapping_sub(one.tl0_pic_idx) == old_two.tl0_pic_idx.wrapping_sub(
                old_one.tl0_pic_idx,
            )
            &&& (two.key_idx - one.key_idx - (old_two.key_idx - old_one.key_idx)) % 0x20 == 0
        }),
{
}

/// Which packets are refused, and why: one that is no VP8, one that is late and of a picture that
/// is not remembered as missing, and one in order, with nothing lost before it, that is above the
/// wanted temporal layer and not exempted.
pub proof fn law_refused_pictures(
    state: Vp8MungerView,
    packet: ExtPacketVp8,
    sn_out_of_order: bool,
    sn_has_gap: bool,
    max_temporal_layer: i32,
)
    ensures
        ({
            let outcome = state.translation(packet, sn_out_of_order, sn_has_gap, max_temporal_layer);
            &&& outcome == Err::<(usize, Vp8Header), Vp8MungerError>(Vp8MungerError::NotVp8)
                <==> packet.payload is None
            &&& outcome == Err::<(usize, Vp8Header), Vp8MungerError>(
                Vp8MungerError::OutOfOrderVp8PictureIdCacheMiss,
            ) <==> sn_out_of_order && (packet.payload matches Some(vp8)
                && !state.missing.values.contains_key(
                state.handler.unwrapped(vp8.picture_id, vp8.m) as i32,
            ))
            &&& outcome == Err::<(usize, Vp8Header), Vp8MungerError>(
                Vp8MungerError::FilteredVp8TemporalLayer,
            ) <==> !sn_out_of_order && !sn_has_gap && packet.temporal > max_temporal_layer && (
            packet.payload matches Some(vp8) && !state.exempted.values.contains_key(
                state.handler.unwrapped(vp8.picture_id, vp8.m) as i32,
            ))
        }),
{
}

/// What went out in order is remembered as the last picture, and the picture as the newest one; the
/// offsets stay.
pub proof fn law_sent_picture_is_remembered(
    state: Vp8MungerView,
    packet: ExtPacketVp8,
    sn_has_gap: bool,
    max_temporal_layer: i32,
)
    requires
        state.can_translate(packet, false, sn_has_gap, max_temporal_layer),
        state.translation(packet, false, sn_has_gap, max_temporal_layer) is Ok,
    ensures
        ({
            let vp8 = packet.payload->Some_0;
            let (_, header) = state.translation(packet, false, sn_has_gap, max_temporal_layer)->Ok_0;
            let after = state.after_packet(packet, false, sn_has_gap, max_temporal_layer);
            &&& after.ext_last_picture_id as int % 0x8000 == header.picture_id
            &&& after.ext_last_picture_id == state.ext_id(vp8) - state.picture_id_offset
            &&& after.last_tl0_pic_idx == header.tl0_pic_idx
            &&& after.last_key_idx == header.key_idx
            &&& after.handler.max_picture_id == state.ext_id(vp8)
            &&& after.handler.max_m_bit == vp8.m
            &&& after.picture_id_offset == state.picture_id_offset
            &&& after.tl0_pic_idx_offset == state.tl0_pic_idx_offset
            &&& after.key_idx_offset == state.key_idx_offset
            &&& after.picture_id_used == state.picture_id_used
            &&& after.tl0_pic_idx_used == state.tl0_pic_idx_used
            &&& after.tid_used == state.tid_used
            &&& after.key_idx_used == state.key_idx_used
            &&& after.dropped == state.dropped
            &&& !sn_has_gap ==> after.missing == state.missing && after.exempted == state.exempted
        }),
{
}

/// A filtered packet of a new picture makes the pictures after it go out one id earlier, and its id
/// is remembered as dropped; a further packet of the picture changes no offset. Nothing of what
/// went out is changed.
pub proof fn law_filtered_picture_shifts_the_ids(
    state: Vp8MungerView,
    packet: ExtPacketVp8,
    max_temporal_layer: i32,
)
    requires
        state.can_translate(packet, false, false, max_temporal_layer),
        state.dropped.wf(),
        state.translation(packet, false, false, max_temporal_layer) == Err::<
            (usize, Vp8Header),
            Vp8MungerError,
        >(Vp8MungerError::FilteredVp8TemporalLayer),
    ensures
        ({
            let vp8 = packet.payload->Some_0;
            let id = state.ext_id(vp8);
            let after = state.after_packet(packet, false, false, max_temporal_layer);
            &&& vp8.i && state.handler.max_picture_id != id ==> after.picture_id_offset
                == state.picture_id_offset + 1
            &&& vp8.i && state.handler.max_picture_id != id && !state.dropped.values.contains_key(
                id as i32,
            ) ==> after.dropped.values.contains_key(id as i32)
            &&& !vp8.i || state.handler.max_picture_id == id ==> after.picture_id_offset
                == state.picture_id_offset && after.dropped == state.dropped
            &&& after.handler.max_picture_id == id
            &&& after.handler.max_m_bit == vp8.m
            &&& after.ext_last_picture_id == state.ext_last_picture_id
            &&& after.last_tl0_pic_idx == state.last_tl0_pic_idx
            &&& after.tl0_pic_idx_offset == state.tl0_pic_idx_offset
            &&& after.last_key_idx == state.last_key_idx
            &&& after.key_idx_offset == state.key_idx_offset
            &&& after.missing == state.missing
            &&& after.exempted == state.exempted
        }),
{
    let vp8 = packet.payload->Some_0;
    let id = state.ext_id(vp8) as i32;
    let grown = state.dropped.with(id, true);
    state.dropped.lemma_with(id, true);
    if !state.dropped.values.contains_key(id) {
        crate::vp8_munger::ordered_cache::law_newest_keys_are_kept(
            grown,
            DROPPED_PICTURE_IDS_THRESHOLD as nat,
            grown.keys.len() - 1,
        );
    }
}

proof fn lemma_missing_is_well_formed(
    missing: CacheView<i32, i32>,
    dropped: Map<i32, bool>,
    low: int,
    high: int,
    offset: i32,
)
    requires
        missing.wf(),
    ensures
        with_missing(missing, dropped, low, high, offset).wf(),
        with_missing(missing, dropped, low, high, offset).keys.len() <= missing.keys.len() + (
        if high < low {
            0
        } else {
            high - low + 1
        }),
    decreases high - low + 1,
{
    if low <= high {
        lemma_missing_is_well_formed(missing, dropped, low, high - 1, offset);
        with_missing(missing, dropped, low, high - 1, offset).lemma_with(high as i32, offset);
    }
}

/// After a gap the pictures from the newest one up to the one that came are remembered as missing
/// with the offset in use, where the cache has room for them; one that was dropped on purpose is
/// not. The picture that came is exempted from filtering exactly where it would have been filtered.
pub proof fn law_gap_is_remembered(
    state: Vp8MungerView,
    packet: ExtPacketVp8,
    max_temporal_layer: i32,
    id: i32,
)
    requires
        state.can_translate(packet, false, true, max_temporal_layer),
        packet.payload is Some,
        state.missing.wf(),
        state.exempted.wf(),
        state.missing.keys.len() + state.ext_id(packet.payload->Some_0)
            - state.handler.max_picture_id + 1 <= 50,
        state.handler.max_picture_id <= id <= state.ext_id(packet.payload->Some_0),
    ensures
        ({
            let came = state.ext_id(packet.payload->Some_0) as i32;
            let after = state.after_packet(packet, false, true, max_temporal_layer);
            &&& !state.dropped.values.contains_key(id) ==> after.missing.values.contains_key(id)
                && after.missing.values[id] == state.picture_id_offset
            &&& packet.temporal <= max_temporal_layer ==> after.exempted == state.exempted
            &&& packet.temporal > max_temporal_layer && !state.exempted.values.contains_key(came)
                ==> after.exempted.values.contains_key(came)
        }),
{
    let vp8 = packet.payload->Some_0;
    let came = state.ext_id(vp8) as i32;
    let low = state.handler.max_picture_id as int;
    let high = state.ext_id(vp8);
    lemma_missing_is_well_formed(
        state.missing,
        state.dropped.values,
        low,
        high,
        state.picture_id_offset,
    );
    if !state.dropped.values.contains_key(id) {
        law_gap_remembers_missing_pictures(
            state.missing,
            state.dropped.values,
            low,
            high,
            state.picture_id_offset,
            id,
        );
    }
    if !state.exempted.values.contains_key(came) {
        state.exempted.lemma_with(came, true);
        let grown = state.exempted.with(came, true);
        crate::vp8_munger::ordered_cache::law_newest_keys_are_kept(
            grown,
            EXEMPTED_PICTURE_IDS_THRESHOLD as nat,
            grown.keys.len() - 1,
        );
    }
}

/// A late packet changes nothing but the count of wraps, and goes out with the offset that is
/// remembered for its picture.
pub proof fn law_late_picture_changes_nothing_sent(
    state: Vp8MungerView,
    packet: ExtPacketVp8,
    sn_has_gap: bool,
    max_temporal_layer: i32,
)
    requires
        packet.payload is Some,
    ensures
        ({
            let vp8 = packet.payload->Some_0;
            let id = state.ext_id(vp8) as i32;
            let after = state.after_packet(packet, true, sn_has_gap, max_temporal_layer);
            &&& after == (Vp8MungerView { handler: after.handler, ..state })
            &&& after.handler.max_picture_id == state.handler.max_picture_id
            &&& after.handler.max_m_bit == state.handler.max_m_bit
            &&& state.translation(packet, true, sn_has_gap, max_temporal_layer) matches Ok((
                size,
                header,
            )) ==> {
                &&& size == vp8.header_size
                &&& (header.picture_id + state.missing.values[id] - id) % 0x8000 == 0
                &&& header.tl0_pic_idx.wrapping_add(state.tl0_pic_idx_offset) == vp8.tl0_pic_idx
                &&& header.key_idx.wrapping_add(state.key_idx_offset) == vp8.key_idx
                &&& header.m <==> header.picture_id >= 0x80
            }
        }),
{
}

/// The first picture of a stream is taken as it is: its indices become the last ones, and which of
/// them are in use is what its descriptor says.
pub proof fn law_first_picture_is_taken_as_it_is(state: Vp8MungerView, vp8: Vp8Header)
    ensures
        ({
            let after = state.started(vp8);
            &&& after.picture_id_used == vp8.i
            &&& after.tl0_pic_idx_used == vp8.l
            &&& after.tid_used == vp8.t
            &&& after.key_idx_used == vp8.k
            &&& vp8.i ==> after.ext_last_picture_id == vp8.picture_id
                && after.handler.max_picture_id == vp8.picture_id - 1 && after.handler.max_m_bit
                == vp8.m && after.handler.total_wrap == 0 && after.handler.last_wrap == 0
            &&& !vp8.i ==> after.ext_last_picture_id == state.ext_last_picture_id && after.handler
                == state.handler
            &&& vp8.l ==> after.last_tl0_pic_idx == vp8.tl0_pic_idx
            &&& !vp8.l ==> after.last_tl0_pic_idx == state.last_tl0_pic_idx
            &&& vp8.k ==> after.last_key_idx == vp8.key_idx
            &&& !vp8.k ==> after.last_key_idx == state.last_key_idx
            &&& after.picture_id_offset == state.picture_id_offset
            &&& after.tl0_pic_idx_offset == state.tl0_pic_idx_offset
            &&& after.key_idx_offset == state.key_idx_offset
        }),
{
}

/// After a switch each index in use goes on by one from the last one sent, whichever others are in
/// use; an index that is not in use keeps its offset, and nothing of the source before is
/// remembered as missing, dropped or exempted.
pub proof fn law_switch_goes_on_by_one(state: Vp8MungerView, vp8: Vp8Header)
    requires
        state.picture_id_used ==> i32::MIN <= vp8.picture_id - state.ext_last_picture_id - 1
            <= i32::MAX,
    ensures
        ({
            let after = state.switched(vp8);
            &&& state.picture_id_used ==> vp8.picture_id - after.picture_id_offset
                == state.ext_last_picture_id + 1 && after.handler.max_picture_id
                == vp8.picture_id - 1 && after.handler.max_m_bit == vp8.m
                && after.handler.total_wrap == 0
            &&& !state.picture_id_used ==> after.picture_id_offset == state.picture_id_offset
                && after.handler == state.handler
            &&& state.tl0_pic_idx_used ==> vp8.tl0_pic_idx.wrapping_sub(after.tl0_pic_idx_offset)
                == state.last_tl0_pic_idx.wrapping_add(1)
            &&& !state.tl0_pic_idx_used ==> after.tl0_pic_idx_offset == state.tl0_pic_idx_offset
            &&& state.key_idx_used ==> (vp8.key_idx - after.key_idx_offset - state.last_key_idx - 1)
                % 0x20 == 0 && after.key_idx_offset < 0x20
            &&& !state.key_idx_used ==> after.key_idx_offset == state.key_idx_offset
            &&& after.ext_last_picture_id == state.ext_last_picture_id
            &&& after.last_tl0_pic_idx == state.last_tl0_pic_idx
            &&& after.last_key_idx == state.last_key_idx
            &&& after.picture_id_used == state.picture_id_used
            &&& after.tl0_pic_idx_used == state.tl0_pic_idx_used
            &&& after.tid_used == state.tid_used
            &&& after.key_idx_used == state.key_idx_used
            &&& forall|id: i32| !after.missing.values.contains_key(id)
            &&& forall|id: i32| !after.dropped.values.contains_key(id)
            &&& forall|id: i32| !after.exempted.values.contains_key(id)
        }),
{
}

/// Padding uses the indices that the stream uses. As a picture of its own it goes on by one from
/// the last picture sent, and shifts what comes after by one; else it repeats the last indices and
/// shifts nothing.
pub proof fn law_padding_goes_on_or_repeats(state: Vp8MungerView, new_picture: bool)
    requires
        new_picture && state.picture_id_used ==> state.ext_last_picture_id < i32::MAX
            && state.picture_id_offset > i32::MIN,
        state.last_key_idx < 0x20,
    ensures
        ({
            let after = state.padded(if new_picture { 1 } else { 0 });
            let header = after.padding_header();
            let step: int = if new_picture { 1 } else { 0 };
            &&& header.first_byte == 0x10
            &&& header.is_key_frame && header.y && header.tid == 0
            &&& header.i == state.picture_id_used
            &&& header.l == state.tl0_pic_idx_used
            &&& header.t == state.tid_used
            &&& header.k == state.key_idx_used
            &&& header.m <==> header.picture_id >= 0x80
            &&& state.picture_id_used ==> header.picture_id == (state.ext_last_picture_id + step)
                % 0x8000
            &&& state.tl0_pic_idx_used ==> header.tl0_pic_idx == (state.last_tl0_pic_idx + step)
                % 0x100
            &&& !state.tl0_pic_idx_used ==> header.tl0_pic_idx == 0
            &&& state.key_idx_used ==> header.key_idx == (state.last_key_idx + step) % 0x20
            &&& !state.key_idx_used ==> header.key_idx == 0
            &&& state.picture_id_used ==> after.picture_id_offset == state.picture_id_offset - step
            &&& state.tl0_pic_idx_used ==> (state.tl0_pic_idx_offset - after.tl0_pic_idx_offset
                - step) % 0x100 == 0
            &&& state.key_idx_used ==> (state.key_idx_offset - after.key_idx_offset - step) % 0x100
                == 0
            &&& !state.picture_id_used ==> after.picture_id_offset == state.picture_id_offset
                && after.ext_last_picture_id == state.ext_last_picture_id
            &&& !state.tl0_pic_idx_used ==> after.tl0_pic_idx_offset == state.tl0_pic_idx_offset
            &&& !state.key_idx_used ==> after.key_idx_offset == state.key_idx_offset
            &&& after.handler == state.handler
            &&& after.missing == state.missing
            &&& after.dropped == state.dropped
            &&& after.exempted == state.exempted
        }),
{
}

/// A padding descriptor has one byte, one more where anything is in use, one or two for the picture
/// id, one for the temporal index, and one for the temporal layer and the key index together.
pub proof fn law_padding_descriptor_size(state: Vp8MungerView)
    ensures
        ({
            let header = state.padding_header();
            let size = header.header_size;
            &&& !header.i && !header.l && !header.t && !header.k ==> size == 1
            &&& header.i && !header.l && !header.t && !header.k ==> size == if header.m {
                4int
            } else {
                3
            }
            &&& !header.i && header.l && !header.t && !header.k ==> size == 3
            &&& !header.i && !header.l && (header.t || header.k) ==> size == 3
            &&& !header.i && header.l && (header.t || header.k) ==> size == 4
            &&& header.i && header.l && !header.t && !header.k ==> size == if header.m {
                5int
            } else {
                4
            }
            &&& header.i && !header.l && (header.t || header.k) ==> size == if header.m {
                5int
            } else {
                4
            }
            &&& header.i && header.l && (header.t || header.k) ==> size == if header.m {
                6int
            } else {
                5
            }
        }),
{
}

/// A descriptor grows by a byte where its picture id becomes wide, shrinks by one where it becomes
/// narrow, and grows back to the size it had.
pub proof fn law_resizing_is_undone(base: int)
    requires
        base > 0,
    ensures
        resized(base, true, false) == base + 1,
        resized(base, false, true) == base - 1,
        resized(base, true, true) == base,
        resized(base, false, false) == base,
        resized(0, false, true) == 0,
        resized(resized(base, true, false), false, true) == base,
{
}

/// The ids that are missing after a gap are those that were missing before and those of the gap;
/// one that was dropped on purpose, or lies outside the gap, is not added.
pub proof fn law_only_the_gap_becomes_missing(
    missing: CacheView<i32, i32>,
    dropped: Map<i32, bool>,
    low: int,
    high: int,
    offset: i32,
    id: i32,
)
    requires
        i32::MIN <= low,
        high <= i32::MAX,
        dropped.contains_key(id) || id < low || id > high,
    ensures
        with_missing(missing, dropped, low, high, offset).values.contains_key(id)
            == missing.values.contains_key(id),
        missing.values.contains_key(id) ==> with_missing(
            missing,
            dropped,
            low,
            high,
            offset,
        ).values[id] == missing.values[id],
    decreases high - low + 1,
{
    if low <= high {
        law_only_the_gap_becomes_missing(missing, dropped, low, high - 1, offset, id);
    }
}

} // verus!
