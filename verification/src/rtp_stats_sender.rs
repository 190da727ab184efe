//! Statistics of intervals of a sent RTP stream.
use vstd::prelude::*;

verus! {

/// The packet ends a frame.
pub const FLAG_MARKER: u8 = 1;

/// The packet holds padding only.
pub const FLAG_PADDING: u8 = 2;

/// The packet was sent out of order.
pub const FLAG_OUT_OF_ORDER: u8 = 4;

/// What is remembered of a sent packet. A size of 0 stands for a packet that was not sent.
#[derive(Debug, Clone, Copy, PartialEq, Eq, Structural)]
pub struct SnInfo {
    pub pkt_size: u16,
    pub hdr_size: u8,
    pub flags: u8,
}

/// The flags of a packet.
pub open spec fn flags_of(marker: bool, padding_only: bool, out_of_order: bool) -> u8 {
    ((if marker {
        1int
    } else {
        0
    }) + (if padding_only {
        2int
    } else {
        0
    }) + (if out_of_order {
        4int
    } else {
        0
    })) as u8
}

/// The sums over an interval.
#[derive(Debug, Clone, Copy, PartialEq, Eq, Structural)]
pub struct IntervalStats {
    pub packets: u64,
    pub bytes: u64,
    pub header_bytes: u64,
    pub packets_padding: u64,
    pub bytes_padding: u64,
    pub header_bytes_padding: u64,
    pub packets_lost_feed: u64,
    pub packets_out_of_order_feed: u64,
    pub frames: u32,
    pub packets_not_found_metadata: u64,
}

impl Default for IntervalStats {
    fn default() -> (stats: Self)
        ensures
            stats == (IntervalStats {
                packets: 0,
                bytes: 0,
                header_bytes: 0,
                packets_padding: 0,
                bytes_padding: 0,
                header_bytes_padding: 0,
                packets_lost_feed: 0,
                packets_out_of_order_feed: 0,
                frames: 0,
                packets_not_found_metadata: 0,
            }),
    {
        IntervalStats {
            packets: 0,
            bytes: 0,
            header_bytes: 0,
            packets_padding: 0,
            bytes_padding: 0,
            header_bytes_padding: 0,
            packets_lost_feed: 0,
            packets_out_of_order_feed: 0,
            frames: 0,
            packets_not_found_metadata: 0,
        }
    }
}

impl SnInfo {
    /// The packet was not sent.
    pub open spec fn lost(self) -> bool {
        self.pkt_size == 0
    }

    /// The packet was sent, and holds padding only.
    pub open spec fn padding(self) -> bool {
        !self.lost() && self.flags & FLAG_PADDING != 0
    }

    /// The packet was sent with media.
    pub open spec fn media(self) -> bool {
        !self.lost() && self.flags & FLAG_PADDING == 0
    }

    /// The packet was sent with media, out of order.
    pub open spec fn reordered(self) -> bool {
        self.media() && self.flags & FLAG_OUT_OF_ORDER != 0
    }

    /// The packet ends a frame.
    pub open spec fn marker(self) -> bool {
        self.flags & FLAG_MARKER != 0
    }
}

/// The place of a number in a ring.
pub open spec fn info_at(infos: Seq<SnInfo>, n: int) -> SnInfo {
    infos[n % infos.len() as int]
}

/// The ring with what is known of a number at its place.
pub open spec fn with_info(infos: Seq<SnInfo>, n: u64, info: SnInfo) -> Seq<SnInfo> {
    if infos.len() == 0 {
        infos
    } else {
        infos.update(n as int % infos.len() as int, info)
    }
}

/// How many numbers from `low`, inclusive, to `high`, exclusive, `chosen` holds of.
pub open spec fn count(
    infos: Seq<SnInfo>,
    low: int,
    high: int,
    chosen: spec_fn(SnInfo) -> bool,
) -> nat
    decreases high - low,
{
    if high <= low {
        0
    } else {
        count(infos, low, high - 1, chosen) + if chosen(info_at(infos, high - 1)) {
            1nat
        } else {
            0
        }
    }
}

/// The sum of `size` over the numbers from `low`, inclusive, to `high`, exclusive, that `chosen`
/// holds of.
pub open spec fn total(
    infos: Seq<SnInfo>,
    low: int,
    high: int,
    chosen: spec_fn(SnInfo) -> bool,
    size: spec_fn(SnInfo) -> nat,
) -> nat
    decreases high - low,
{
    if high <= low {
        0
    } else {
        total(infos, low, high - 1, chosen, size) + if chosen(info_at(infos, high - 1)) {
            size(info_at(infos, high - 1))
        } else {
            0
        }
    }
}

/// What the sums over the numbers from `low`, inclusive, to `high`, exclusive, are.
pub open spec fn sums_are(stats: IntervalStats, infos: Seq<SnInfo>, low: int, high: int) -> bool {
    let media = |info: SnInfo| info.media();
    let padding = |info: SnInfo| info.padding();
    let packet = |info: SnInfo| info.pkt_size as nat;
    let header = |info: SnInfo| info.hdr_size as nat;
    &&& stats.packets == count(infos, low, high, media)
    &&& stats.bytes == total(infos, low, high, media, packet)
    &&& stats.header_bytes == total(infos, low, high, media, header)
    &&& stats.packets_padding == count(infos, low, high, padding)
    &&& stats.bytes_padding == total(infos, low, high, padding, packet)
    &&& stats.header_bytes_padding == total(infos, low, high, padding, header)
    &&& stats.packets_lost_feed == count(infos, low, high, |info: SnInfo| info.lost())
    &&& stats.packets_out_of_order_feed == count(
        infos,
        low,
        high,
        |info: SnInfo| info.reordered(),
    )
    &&& stats.frames == count(infos, low, high, |info: SnInfo| info.marker())
}

/// The sums over the numbers from `low`, inclusive, to `high`, exclusive, fit their types.
pub open spec fn sums_fit(infos: Seq<SnInfo>, low: int, high: int) -> bool {
    let media = |info: SnInfo| info.media();
    let padding = |info: SnInfo| info.padding();
    let packet = |info: SnInfo| info.pkt_size as nat;
    let header = |info: SnInfo| info.hdr_size as nat;
    &&& total(infos, low, high, media, packet) <= u64::MAX
    &&& total(infos, low, high, media, header) <= u64::MAX
    &&& total(infos, low, high, padding, packet) <= u64::MAX
    &&& total(infos, low, high, padding, header) <= u64::MAX
    &&& count(infos, low, high, |info: SnInfo| info.marker()) <= u32::MAX
}

/// The numbers of the interval that a ring of `n` places with the newest number `ehsn` knows of:
/// the first, and the one behind the last.
pub open spec fn known_interval(n: int, ehsn: u64, start: u64, end: u64) -> (int, int) {
    let upper: int = if ehsn == u64::MAX {
        ehsn as int
    } else {
        ehsn + 1
    };
    let lower: int = if n > 0 && ehsn >= n - 1 {
        ehsn - n + 1
    } else {
        0
    };
    let low: int = if start < lower {
        lower
    } else if start > upper {
        upper
    } else {
        start as int
    };
    let high: int = if end > upper {
        upper
    } else {
        end as int
    };
    (low, if high < low { low } else { high })
}

/// The newest sent packets of a stream.
#[derive(Debug, Clone)]
pub struct RtpStatsSenderLite {
    pub sn_infos: Vec<SnInfo>,
}

impl View for RtpStatsSenderLite {
    type V = Seq<SnInfo>;

    open spec fn view(&self) -> Seq<SnInfo> {
        self.sn_infos@
    }
}

impl RtpStatsSenderLite {
    /// A ring of places in which nothing was sent.
    pub fn new(sn_info_size: usize) -> (sender: Self)
        ensures
            sender@ == Seq::new(
                sn_info_size as nat,
                |i: int| SnInfo { pkt_size: 0, hdr_size: 0, flags: 0 },
            ),
    {
        let mut sn_infos: Vec<SnInfo> = Vec::new();
        let mut i: usize = 0;
        while i < sn_info_size
            invariant
                i <= sn_info_size,
                sn_infos@ == Seq::new(
                    i as nat,
                    |i: int| SnInfo { pkt_size: 0, hdr_size: 0, flags: 0 },
                ),
            decreases sn_info_size - i,
        {
            sn_infos.push(SnInfo { pkt_size: 0, hdr_size: 0, flags: 0 });
            i += 1;
        }
        RtpStatsSenderLite { sn_infos }
    }

    /// Remembers a sent packet.
    pub fn set_sn_info(
        &mut self,
        ext_sequence_number: u64,
        pkt_size: u16,
        hdr_size: u8,
        marker: bool,
        padding_only: bool,
        out_of_order: bool,
    )
        ensures
            final(self)@ == with_info(
                old(self)@,
                ext_sequence_number,
                (SnInfo { pkt_size, hdr_size, flags: flags_of(marker, padding_only, out_of_order) }),
            ),
    {
        if self.sn_infos.len() == 0 {
            return ;
        }
        let mut flags: u8 = 0;
        if marker {
            flags = flags + FLAG_MARKER;
        }
        if padding_only {
            flags = flags + FLAG_PADDING;
        }
        if out_of_order {
            flags = flags + FLAG_OUT_OF_ORDER;
        }
        let len: usize = self.sn_infos.len();
        let slot: usize = (ext_sequence_number % len as u64) as usize;
        self.sn_infos.set(slot, SnInfo { pkt_size, hdr_size, flags });
    }

    /// The sums over the numbers from `ext_start_inclusive` to `ext_end_exclusive`, as far as the
    /// ring, whose newest number is `ehsn`, knows of them.
    pub fn get_interval_stats(
        &self,
        ext_start_inclusive: u64,
        ext_end_exclusive: u64,
        ehsn: u64,
    ) -> (stats: IntervalStats)
        requires
            ext_start_inclusive <= ext_end_exclusive,
            self@.len() > 0 ==> ({
                let (low, high) = known_interval(
                    self@.len() as int,
                    ehsn,
                    ext_start_inclusive,
                    ext_end_exclusive,
                );
                sums_fit(self@, low, high)
            }),
        ensures
            ({
                let (low, high) = known_interval(
                    self@.len() as int,
                    ehsn,
                    ext_start_inclusive,
                    ext_end_exclusive,
                );
                &&& stats.packets_not_found_metadata == ext_end_exclusive - ext_start_inclusive - (
                high - low)
                &&& sums_are(stats, self@, low, if self@.len() > 0 { high } else { low })
            }),
    {
        let mut stats: IntervalStats = IntervalStats::default();
        let upper_bound: u64 = ehsn.saturating_add(1);
        let mut lower_bound: u64 = 0;
        if self.sn_infos.len() > 0 {
            let n: u64 = self.sn_infos.len() as u64;
            if ehsn >= n - 1 {
                lower_bound = ehsn - (n - 1);
            }
        }
        let mut low: u64 = if ext_start_inclusive < upper_bound {
            ext_start_inclusive
        } else {
            upper_bound
        };
        if low < lower_bound {
            low = lower_bound;
        }
        let mut high: u64 = if ext_end_exclusive < upper_bound {
            ext_end_exclusive
        } else {
            upper_bound
        };
        if high < low {
            high = low;
        }
        stats.packets_not_found_metadata = (ext_end_exclusive - ext_start_inclusive) - (high - low);
        if self.sn_infos.len() == 0 {
            return stats;
        }
        let ghost infos = self@;
        let ghost missing = stats.packets_not_found_metadata;
        let mut esn: u64 = low;
        while esn < high
            invariant
                low <= esn <= high,
                infos == self@,
                infos.len() > 0,
                sums_fit(infos, low as int, high as int),
                sums_are(stats, infos, low as int, esn as int),
                stats.packets_not_found_metadata == missing,
            decreases high - esn,
        {
            let slot: usize = (esn % self.sn_infos.len() as u64) as usize;
            let sn_info: SnInfo = self.sn_infos[slot];
            assert(sn_info == info_at(infos, esn as int));
            proof {
                lemma_sums_fit_prefix(infos, low as int, esn + 1, high as int);
                lemma_counts_bounded(infos, low as int, esn as int);
            }
            if sn_info.pkt_size == 0 {
                stats.packets_lost_feed = stats.packets_lost_feed + 1;
            } else if (sn_info.flags & FLAG_PADDING) != 0 {
                stats.packets_padding = stats.packets_padding + 1;
                stats.bytes_padding = stats.bytes_padding + sn_info.pkt_size as u64;
                stats.header_bytes_padding = stats.header_bytes_padding + sn_info.hdr_size as u64;
            } else {
                stats.packets = stats.packets + 1;
                stats.bytes = stats.bytes + sn_info.pkt_size as u64;
                stats.header_bytes = stats.header_bytes + sn_info.hdr_size as u64;
                if (sn_info.flags & FLAG_OUT_OF_ORDER) != 0 {
                    stats.packets_out_of_order_feed = stats.packets_out_of_order_feed + 1;
                }
            }
            if (sn_info.flags & FLAG_MARKER) != 0 {
                stats.frames = stats.frames + 1;
            }
            esn += 1;
        }
        stats
    }
}

proof fn lemma_count_grows(
    infos: Seq<SnInfo>,
    low: int,
    mid: int,
    high: int,
    chosen: spec_fn(SnInfo) -> bool,
)
    requires
        mid <= high,
    ensures
        count(infos, low, mid, chosen) <= count(infos, low, high, chosen),
    decreases high - mid,
{
    if mid < high {
        lemma_count_grows(infos, low, mid, high - 1, chosen);
    }
}

proof fn lemma_total_grows(
    infos: Seq<SnInfo>,
    low: int,
    mid: int,
    high: int,
    chosen: spec_fn(SnInfo) -> bool,
    size: spec_fn(SnInfo) -> nat,
)
    requires
        mid <= high,
    ensures
        total(infos, low, mid, chosen, size) <= total(infos, low, high, chosen, size),
    decreases high - mid,
{
    if mid < high {
        lemma_total_grows(infos, low, mid, high - 1, chosen, size);
    }
}

proof fn lemma_sums_fit_prefix(infos: Seq<SnInfo>, low: int, mid: int, high: int)
    requires
        mid <= high,
        sums_fit(infos, low, high),
    ensures
        sums_fit(infos, low, mid),
{
    let media = |info: SnInfo| info.media();
    let padding = |info: SnInfo| info.padding();
    let packet = |info: SnInfo| info.pkt_size as nat;
    let header = |info: SnInfo| info.hdr_size as nat;
    lemma_total_grows(infos, low, mid, high, media, packet);
    lemma_total_grows(infos, low, mid, high, media, header);
    lemma_total_grows(infos, low, mid, high, padding, packet);
    lemma_total_grows(infos, low, mid, high, padding, header);
    lemma_count_grows(infos, low, mid, high, |info: SnInfo| info.marker());
}

/// Every number of an interval is lost, padding or media, and only media counts as reordered.
pub proof fn lemma_counts_bounded(infos: Seq<SnInfo>, low: int, high: int)
    requires
        low <= high,
    ensures
        count(infos, low, high, |info: SnInfo| info.lost()) + count(
            infos,
            low,
            high,
            |info: SnInfo| info.padding(),
        ) + count(infos, low, high, |info: SnInfo| info.media()) == high - low,
        count(infos, low, high, |info: SnInfo| info.reordered()) <= count(
            infos,
            low,
            high,
            |info: SnInfo| info.media(),
        ),
    decreases high - low,
{
    if low < high {
        lemma_counts_bounded(infos, low, high - 1);
    }
}

/// Every number of an interval is counted once: as media, as padding, as lost, or as one that the
/// ring does not know of.
pub proof fn law_interval_is_accounted_for(
    stats: IntervalStats,
    infos: Seq<SnInfo>,
    ehsn: u64,
    start: u64,
    end: u64,
)
    requires
        infos.len() > 0,
        start <= end,
        ({
            let (low, high) = known_interval(infos.len() as int, ehsn, start, end);
            &&& stats.packets_not_found_metadata == end - start - (high - low)
            &&& sums_are(stats, infos, low, high)
        }),
    ensures
        stats.packets + stats.packets_padding + stats.packets_lost_feed
            + stats.packets_not_found_metadata == end - start,
        stats.packets_out_of_order_feed <= stats.packets,
{
    let (low, high) = known_interval(infos.len() as int, ehsn, start, end);
    lemma_counts_bounded(infos, low, high);
}

/// The flags of a packet say what they were made of.
pub proof fn law_flags_are_read_back(marker: bool, padding_only: bool, out_of_order: bool)
    ensures
        (flags_of(marker, padding_only, out_of_order) & FLAG_MARKER != 0) == marker,
        (flags_of(marker, padding_only, out_of_order) & FLAG_PADDING != 0) == padding_only,
        (flags_of(marker, padding_only, out_of_order) & FLAG_OUT_OF_ORDER != 0) == out_of_order,
{
    assert(forall|f: u8|
        f < 8 ==> ((#[trigger] (f & 1u8)) != 0) == (f % 2 == 1) && ((f & 2u8) != 0) == (f / 2 % 2
            == 1) && ((f & 4u8) != 0) == (f / 4 == 1)) by (bit_vector);
    let flags = flags_of(marker, padding_only, out_of_order);
    assert(((flags & 1u8) != 0) == (flags % 2 == 1));
}

/// A number is known of exactly where it is in the interval and among the newest ones, as many as
/// the ring has places.
pub proof fn law_known_numbers_are_in_the_ring(n: int, ehsn: u64, start: u64, end: u64, sn: int)
    requires
        n > 0,
        ehsn < u64::MAX,
        start <= end,
    ensures
        ({
            let (low, high) = known_interval(n, ehsn, start, end);
            &&& low <= sn < high <==> start <= sn < end && 0 <= sn <= ehsn && ehsn - sn < n
            &&& low <= high
        }),
{
}

/// A packet that was sent is media or padding by its flag, and a frame's end and out of order by
/// theirs; one without a size was not sent.
pub proof fn law_packets_are_what_their_flags_say(
    pkt_size: u16,
    hdr_size: u8,
    marker: bool,
    padding_only: bool,
    out_of_order: bool,
)
    requires
        pkt_size > 0,
    ensures
        ({
            let info = SnInfo {
                pkt_size,
                hdr_size,
                flags: flags_of(marker, padding_only, out_of_order),
            };
            &&& !info.lost()
            &&& info.padding() == padding_only
            &&& info.media() == !padding_only
            &&& info.reordered() == (out_of_order && !padding_only)
            &&& info.marker() == marker
        }),
        (SnInfo { pkt_size: 0, hdr_size, flags: 0 }).lost(),
{
    law_flags_are_read_back(marker, padding_only, out_of_order);
}

/// Counts and sums over an interval are those of its parts.
pub proof fn law_intervals_add_up(
    infos: Seq<SnInfo>,
    low: int,
    middle: int,
    high: int,
    chosen: spec_fn(SnInfo) -> bool,
    size: spec_fn(SnInfo) -> nat,
)
    requires
        low <= middle <= high,
    ensures
        count(infos, low, high, chosen) == count(infos, low, middle, chosen) + count(
            infos,
            middle,
            high,
            chosen,
        ),
        total(infos, low, high, chosen, size) == total(infos, low, middle, chosen, size) + total(
            infos,
            middle,
            high,
            chosen,
            size,
        ),
        count(infos, low, low, chosen) == 0,
        count(infos, low, low + 1, chosen) == (if chosen(infos[low % infos.len() as int]) {
            1nat
        } else {
            0
        }),
        total(infos, low, low + 1, chosen, size) == (if chosen(infos[low % infos.len() as int]) {
            size(infos[low % infos.len() as int])
        } else {
            0
        }),
    decreases high - middle,
{
    reveal_with_fuel(count, 2);
    reveal_with_fuel(total, 2);
    if middle < high {
        law_intervals_add_up(infos, low, middle, high - 1, chosen, size);
    }
}

/// What is set for a number is read back for it, and what is known of the other numbers that the
/// ring holds beside it stays.
pub proof fn law_set_number_is_read_back(infos: Seq<SnInfo>, n: u64, info: SnInfo, other: int)
    requires
        infos.len() > 0,
    ensures
        with_info(infos, n, info).len() == infos.len(),
        info_at(with_info(infos, n, info), n as int) == info,
        other != n && -infos.len() < other - n < infos.len() ==> info_at(
            with_info(infos, n, info),
            other,
        ) == info_at(infos, other),
{
    let len = infos.len() as int;
    vstd::arithmetic::div_mod::lemma_mod_bound(n as int, len);
    vstd::arithmetic::div_mod::lemma_mod_bound(other, len);
    if other != n && -len < other - n < len && other % len == n as int % len {
        vstd::arithmetic::div_mod::lemma_fundamental_div_mod(other, len);
        vstd::arithmetic::div_mod::lemma_fundamental_div_mod(n as int, len);
        let k = other / len - n as int / len;
        assert(len * (other / len) - len * (n as int / len) == len * k) by (nonlinear_arith)
            requires
                k == other / len - n as int / len,
        ;
        assert(k == 0) by (nonlinear_arith)
            requires
                -len < len * k < len,
                len > 0,
        ;
        assert(len * k == 0) by (nonlinear_arith)
            requires
                k == 0,
        ;
    }
}

} // verus!
