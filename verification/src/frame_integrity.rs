//! Which frames have come with all of their packets.
use vstd::prelude::*;

verus! {

/// How far before the first packet the history begins.
pub const HISTORY_LEAD: u64 = 100;

/// Where a packet stands in its frame.
#[derive(Debug, Clone, Copy, PartialEq, Eq, Structural)]
pub struct DependencyDescriptorLite {
    pub first_packet_in_frame: bool,
    pub last_packet_in_frame: bool,
}

impl Default for DependencyDescriptorLite {
    fn default() -> (descriptor: Self)
        ensures
            !descriptor.first_packet_in_frame,
            !descriptor.last_packet_in_frame,
    {
        DependencyDescriptorLite { first_packet_in_frame: false, last_packet_in_frame: false }
    }
}

/// Which of the latest packets have come: a ring of bits.
#[derive(Debug, Clone)]
pub struct PacketHistory {
    pub base: u64,
    pub last: u64,
    pub bits: Vec<u64>,
    pub packet_count: usize,
    pub inited: bool,
}

/// The contents of a [`PacketHistory`]: the marks on the ring, one after the other.
#[verifier::ext_equal]
pub struct HistoryView {
    pub base: u64,
    pub last: u64,
    pub marks: Seq<bool>,
    pub inited: bool,
}

/// The bit of a word.
pub open spec fn word_bit(word: u64, offset: int) -> bool {
    word & (1u64 << (offset as u64)) != 0
}

/// The bits of words, one after the other.
pub open spec fn ring(bits: Seq<u64>) -> Seq<bool> {
    Seq::new(64 * bits.len(), |i: int| word_bit(bits[i / 64], i % 64))
}

impl HistoryView {
    /// The place of a packet on the ring.
    pub open spec fn place(self, seq: u64) -> int {
        (seq - self.base) % (self.marks.len() as int)
    }

    /// The mark of the packet is set.
    pub open spec fn is_marked(self, seq: u64) -> bool {
        self.marks[self.place(seq)]
    }

    /// The ring with the mark of the packet set or cleared.
    pub open spec fn with_mark(self, seq: u64, received: bool) -> Self {
        HistoryView { marks: self.marks.update(self.place(seq), received), ..self }
    }

    /// The ring with the marks of the packets from `from` up to, but not including, `to` cleared.
    pub open spec fn without(self, from: u64, to: u64) -> Self
        decreases to - from,
    {
        if from >= to {
            self
        } else {
            self.without(from, (to - 1) as u64).with_mark((to - 1) as u64, false)
        }
    }

    /// The history after a packet: one that is too old changes nothing, and those that a newer
    /// one skips have not come.
    pub open spec fn after(self, seq: u64) -> Self {
        if !self.inited {
            HistoryView {
                inited: true,
                base: seq.saturating_sub(HISTORY_LEAD),
                last: seq,
                ..self
            }.with_mark(seq, true)
        } else if seq <= self.base {
            self
        } else if seq <= self.last {
            if self.last - seq < self.marks.len() {
                self.with_mark(seq, true)
            } else {
                self
            }
        } else {
            HistoryView {
                last: seq,
                ..self.without((self.last + 1) as u64, seq).with_mark(seq, true)
            }
        }
    }

    /// The packets from `start` to `end` have come, and are not too many for the ring.
    pub open spec fn all_came(self, start: u64, end: u64) -> bool {
        &&& start <= end
        &&& end - start < self.marks.len()
        &&& forall|seq: u64| start <= seq <= end ==> #[trigger] self.is_marked(seq)
    }
}

impl View for PacketHistory {
    type V = HistoryView;

    open spec fn view(&self) -> HistoryView {
        HistoryView {
            base: self.base,
            last: self.last,
            marks: ring(self.bits@),
            inited: self.inited,
        }
    }
}

proof fn lemma_bit_is_set(word: u64, offset: u64)
    requires
        offset < 64,
    ensures
        forall|k: int|
            0 <= k < 64 ==> #[trigger] word_bit(word | (1u64 << offset), k) == (k == offset || word_bit(
                word,
                k,
            )),
        forall|k: int|
            0 <= k < 64 ==> #[trigger] word_bit(word & !(1u64 << offset), k) == (k != offset && word_bit(
                word,
                k,
            )),
{
    assert forall|k: int| 0 <= k < 64 implies #[trigger] word_bit(word | (1u64 << offset), k) == (k == offset
        || word_bit(word, k)) by {
        let k = k as u64;
        assert(((word | (1u64 << offset)) & (1u64 << k) != 0) == (k == offset || word & (1u64
            << k) != 0)) by (bit_vector)
            requires
                k < 64,
                offset < 64,
        ;
    }
    assert forall|k: int| 0 <= k < 64 implies #[trigger] word_bit(word & !(1u64 << offset), k) == (k != offset
        && word_bit(word, k)) by {
        let k = k as u64;
        assert(((word & !(1u64 << offset)) & (1u64 << k) != 0) == (k != offset && word & (1u64
            << k) != 0)) by (bit_vector)
            requires
                k < 64,
                offset < 64,
        ;
    }
}

/// The bits from `from` to `to`.
pub open spec fn run_mask(from: u64, to: u64) -> u64 {
    (u64::MAX << from) & (u64::MAX >> ((63 - to) as u64))
}

proof fn lemma_run_mask(word: u64, from: u64, to: u64)
    requires
        from <= to < 64,
    ensures
        (word & run_mask(from, to) == run_mask(from, to)) == (forall|k: int|
            from <= k <= to ==> word_bit(word, k)),
    decreases to - from,
{
    let mask = run_mask(from, to);
    if word & mask == mask {
        assert forall|k: int| from <= k <= to implies word_bit(word, k) by {
            let k = k as u64;
            assert(word & (1u64 << k) != 0) by (bit_vector)
                requires
                    from <= k <= to < 64,
                    mask == (0xffff_ffff_ffff_ffffu64 << from) & (0xffff_ffff_ffff_ffffu64 >> (
                    (63 - to) as u64)),
                    word & mask == mask,
            ;
        }
    }
    if forall|k: int| from <= k <= to ==> word_bit(word, k) {
        assert(word_bit(word, to as int));
        if from == to {
            assert(word & mask == mask) by (bit_vector)
                requires
                    to < 64,
                    mask == (0xffff_ffff_ffff_ffffu64 << to) & (0xffff_ffff_ffff_ffffu64 >> ((63
                        - to) as u64)),
                    word & (1u64 << to) != 0,
            ;
        } else {
            let before = (to - 1) as u64;
            lemma_run_mask(word, from, before);
            let rest = run_mask(from, before);
            assert(word & mask == mask) by (bit_vector)
                requires
                    from <= before < to < 64,
                    before == to - 1,
                    mask == (0xffff_ffff_ffff_ffffu64 << from) & (0xffff_ffff_ffff_ffffu64 >> (
                    (63 - to) as u64)),
                    rest == (0xffff_ffff_ffff_ffffu64 << from) & (0xffff_ffff_ffff_ffffu64 >> (
                    (63 - before) as u64)),
                    word & rest == rest,
                    word & (1u64 << to) != 0,
            ;
        }
    }
}

impl PacketHistory {
    /// The ring is made of whole words.
    pub open spec fn wf(self) -> bool {
        self.packet_count == 64 * self.bits@.len()
    }

    /// A history of at least `packet_count` packets.
    pub fn new(packet_count: usize) -> (history: Self)
        requires
            packet_count <= usize::MAX - 63,
        ensures
            history.wf(),
            history@ == (HistoryView {
                base: 0,
                last: 0,
                marks: Seq::new(
                    ((packet_count + 63) / 64 * 64) as nat,
                    |i: int| false,
                ),
                inited: false,
            }),
    {
        let words: usize = (packet_count + 63) / 64;
        let mut bits: Vec<u64> = Vec::new();
        while bits.len() < words
            invariant
                bits@.len() <= words,
                forall|i: int| 0 <= i < bits@.len() ==> bits@[i] == 0,
            decreases words - bits.len(),
        {
            bits.push(0);
        }
        let history: PacketHistory = PacketHistory {
            base: 0,
            last: 0,
            bits,
            packet_count: words * 64,
            inited: false,
        };
        assert forall|i: int| 0 <= i < history@.marks.len() implies !#[trigger] history@.marks[i] by {
            let k = (i % 64) as u64;
            assert(0u64 & (1u64 << k) == 0) by (bit_vector);
        }
        assert(history@.marks =~= Seq::new(((packet_count + 63) / 64 * 64) as nat, |i: int| false));
        history
    }

    /// The word of a packet, and its bit there.
    pub fn get_pos(&self, seq: u64) -> (pos: (usize, usize))
        requires
            self.wf(),
            self.packet_count > 0,
            self.base <= seq,
        ensures
            pos.0 < self.bits@.len(),
            pos.1 < 64,
            64 * pos.0 + pos.1 == self@.place(seq),
    {
        let index: u64 = (seq - self.base) % (self.packet_count as u64);
        ((index / 64) as usize, (index % 64) as usize)
    }

    /// Sets or clears the mark of a packet.
    pub fn set(&mut self, seq: u64, received: bool)
        requires
            old(self).wf(),
            old(self).packet_count > 0,
            old(self).base <= seq,
        ensures
            final(self).wf(),
            final(self).packet_count == old(self).packet_count,
            final(self)@ == old(self)@.with_mark(seq, received),
    {
        let (index, offset): (usize, usize) = self.get_pos(seq);
        let word: u64 = self.bits[index];
        let bit: u64 = offset as u64;
        proof {
            lemma_bit_is_set(word, bit);
        }
        if received {
            self.bits[index] = word | (1u64 << bit);
        } else {
            self.bits[index] = word & !(1u64 << bit);
        }
        assert(self@.marks =~= old(self)@.marks.update(old(self)@.place(seq), received));
    }

    /// A packet has come.
    pub fn add_packet(&mut self, ext_seq: u64)
        requires
            old(self).wf(),
            old(self).packet_count > 0,
            old(self).inited ==> old(self).base <= old(self).last,
        ensures
            final(self).wf(),
            final(self).packet_count == old(self).packet_count,
            final(self).inited,
            final(self).base <= final(self).last,
            final(self)@ == old(self)@.after(ext_seq),
    {
        if !self.inited {
            self.inited = true;
            self.base = ext_seq.saturating_sub(HISTORY_LEAD);
            self.last = ext_seq;
            self.set(ext_seq, true);
            return;
        }
        if ext_seq <= self.base {
            return;
        }
        if ext_seq <= self.last {
            if self.last - ext_seq < self.packet_count as u64 {
                self.set(ext_seq, true);
            }
            return;
        }
        let ghost before = self@;
        let first: u64 = self.last + 1;
        let mut seq: u64 = first;
        while seq < ext_seq
            invariant
                self.wf(),
                self.packet_count == old(self).packet_count,
                self.packet_count > 0,
                self.base == before.base,
                self.inited,
                self.base < first,
                first <= seq <= ext_seq,
                self@ == before.without(first, seq),
            decreases ext_seq - seq,
        {
            self.set(seq, false);
            seq += 1;
        }
        self.set(ext_seq, true);
        self.last = ext_seq;
    }

    /// Tells whether the packets from `start` to `end` have come, a word of the ring at a time.
    pub fn packets_consecutive(&self, start: u64, end: u64) -> (consecutive: bool)
        requires
            self.wf(),
            start <= end && end - start < self.packet_count ==> self.base <= start,
        ensures
            consecutive == self@.all_came(start, end),
    {
        if start > end || end - start >= self.packet_count as u64 {
            return false;
        }
        let mut seq: u64 = start;
        loop
            invariant
                self.wf(),
                self.base <= start <= seq <= end,
                end - start < self.packet_count,
                forall|s: u64| start <= s < seq ==> #[trigger] self@.is_marked(s),
            decreases end - seq,
        {
            let (index, offset): (usize, usize) = self.get_pos(seq);
            let from: u64 = offset as u64;
            let rest: u64 = end - seq;
            let to: u64 = if rest <= 63 - from {
                from + rest
            } else {
                63
            };
            let word: u64 = self.bits[index];
            let mask: u64 = (u64::MAX << from) & (u64::MAX >> (63 - to));
            proof {
                lemma_run_mask(word, from, to);
                assert forall|k: int| from <= k <= to implies word_bit(word, k)
                    == #[trigger] self@.is_marked((seq + (k - from)) as u64) by {
                    lemma_same_word(seq - self.base, k - from, self.packet_count as int);
                }
            }
            if word & mask != mask {
                proof {
                    let k = choose|k: int| from <= k <= to && !word_bit(word, k);
                    assert(!self@.is_marked((seq + (k - from)) as u64));
                }
                return false;
            }
            proof {
                assert forall|s: u64| seq <= s <= seq + (to - from) implies self@.is_marked(
                    s,
                ) by {
                    let k = from + (s - seq);
                    assert(word_bit(word, k as int));
                    assert((seq + (k - from)) as u64 == s);
                }
            }
            if rest <= 63 - from {
                return true;
            }
            seq = seq + (64 - from);
        }
    }
}

/// Places on the ring that follow a place in the same word follow it on the ring.
proof fn lemma_same_word(distance: int, step: int, count: int)
    requires
        0 <= distance,
        0 <= step,
        0 < count,
        count % 64 == 0,
        distance % count % 64 + step < 64,
    ensures
        (distance + step) % count == distance % count + step,
{
    let place = distance % count;
    assert(place + step < count) by {
        let words = count / 64;
        assert(place / 64 < words) by (nonlinear_arith)
            requires
                0 <= place < count,
                count == 64 * words,
        ;
    }
    assert((distance + step) % count == place + step) by (nonlinear_arith)
        requires
            place == distance % count,
            0 <= step,
            place + step < count,
            0 <= place,
            0 < count,
    ;
}

/// What is known of a frame: its first and last packets, and whether all of them have come.
#[derive(Debug, Clone, Copy, PartialEq, Eq, Structural)]
pub struct FrameEntity {
    pub start_seq: Option<u64>,
    pub end_seq: Option<u64>,
    pub integrity: bool,
}

impl FrameEntity {
    /// A frame of which nothing is known.
    pub open spec fn fresh() -> Self {
        FrameEntity { start_seq: None, end_seq: None, integrity: false }
    }

    /// The frame with the packet as its first or last one, if it is.
    pub open spec fn bounded(self, ext_seq: u64, dd: DependencyDescriptorLite) -> Self {
        FrameEntity {
            start_seq: if self.start_seq is None && dd.first_packet_in_frame {
                Some(ext_seq)
            } else {
                self.start_seq
            },
            end_seq: if self.end_seq is None && dd.last_packet_in_frame {
                Some(ext_seq)
            } else {
                self.end_seq
            },
            ..self
        }
    }

    /// All packets of the frame have come.
    pub open spec fn all_came(self, history: HistoryView) -> bool {
        self.start_seq matches Some(start) && self.end_seq matches Some(end) && history.all_came(
            start,
            end,
        )
    }

    /// The frame after one of its packets.
    pub open spec fn after(
        self,
        ext_seq: u64,
        dd: DependencyDescriptorLite,
        history: HistoryView,
    ) -> Self {
        if self.integrity {
            self
        } else {
            let bounded = self.bounded(ext_seq, dd);
            FrameEntity { integrity: bounded.all_came(history), ..bounded }
        }
    }

    /// The history reaches back to the first packet of the frame, where that is looked up.
    pub open spec fn can_check(
        self,
        ext_seq: u64,
        dd: DependencyDescriptorLite,
        history: HistoryView,
    ) -> bool {
        let bounded = self.bounded(ext_seq, dd);
        !self.integrity && bounded.start_seq is Some && bounded.end_seq is Some
            && bounded.start_seq->0 <= bounded.end_seq->0 && bounded.end_seq->0
            - bounded.start_seq->0 < history.marks.len() ==> history.base <= bounded.start_seq->0
    }

    /// Forgets what is known.
    pub fn reset(&mut self)
        ensures
            *final(self) == FrameEntity::fresh(),
    {
        self.start_seq = None;
        self.end_seq = None;
        self.integrity = false;
    }

    /// A packet of the frame has come.
    pub fn add_packet(
        &mut self,
        ext_seq: u64,
        dd: DependencyDescriptorLite,
        packet_history: &PacketHistory,
    )
        requires
            packet_history.wf(),
            old(self).can_check(ext_seq, dd, packet_history@),
        ensures
            *final(self) == old(self).after(ext_seq, dd, packet_history@),
    {
        if self.integrity {
            return;
        }
        if self.start_seq.is_none() && dd.first_packet_in_frame {
            self.start_seq = Some(ext_seq);
        }
        if self.end_seq.is_none() && dd.last_packet_in_frame {
            self.end_seq = Some(ext_seq);
        }
        if let Some(start) = self.start_seq {
            if let Some(end) = self.end_seq {
                if packet_history.packets_consecutive(start, end) {
                    self.integrity = true;
                }
            }
        }
    }
}

/// Tells which of the latest frames have come with all of their packets.
#[derive(Debug, Clone)]
pub struct FrameIntegrityCheckerLite {
    pub frame_count: usize,
    pub frames: Vec<FrameEntity>,
    pub base: u64,
    pub last: u64,
    pub packet_history: PacketHistory,
    pub inited: bool,
}

/// The contents of a [`FrameIntegrityCheckerLite`]: a ring of frames.
#[verifier::ext_equal]
pub struct CheckerView {
    pub frames: Seq<FrameEntity>,
    pub base: u64,
    pub last: u64,
    pub history: HistoryView,
    pub inited: bool,
}

impl CheckerView {
    /// The place of a frame on the ring.
    pub open spec fn place(self, frame: u64) -> int {
        (frame - self.base) % (self.frames.len() as int)
    }

    /// The frames are numbered from `frame` if no frame has been seen yet.
    pub open spec fn begun(self, frame: u64) -> Self {
        if self.inited {
            self
        } else {
            CheckerView { inited: true, base: frame, last: frame, ..self }
        }
    }

    /// The ring with nothing known of the frames from `from` up to, but not including, `to`.
    pub open spec fn forgotten(self, from: u64, to: u64) -> Self
        decreases to - from,
    {
        if from >= to {
            self
        } else {
            let before = self.forgotten(from, (to - 1) as u64);
            CheckerView {
                frames: before.frames.update(self.place((to - 1) as u64), FrameEntity::fresh()),
                ..before
            }
        }
    }

    /// The checker made ready for a packet of a frame that it is to follow: frames up to a newer
    /// one are new.
    pub open spec fn ready(self, frame: u64) -> Self {
        if frame > self.last {
            let forgotten = self.forgotten((self.last + 1) as u64, frame);
            CheckerView {
                frames: forgotten.frames.update(self.place(frame), FrameEntity::fresh()),
                last: frame,
                ..forgotten
            }
        } else {
            self
        }
    }

    /// The frame is among the latest ones.
    pub open spec fn follows(self, frame: u64) -> bool {
        self.base <= frame && (frame <= self.last ==> self.last - frame < self.frames.len())
    }

    /// The frame after one of its packets.
    pub open spec fn with_packet(
        self,
        ext_seq: u64,
        frame: u64,
        dd: DependencyDescriptorLite,
    ) -> Self {
        let place = self.place(frame);
        CheckerView {
            frames: self.frames.update(
                place,
                self.frames[place].after(ext_seq, dd, self.history),
            ),
            ..self
        }
    }

    /// The checker once the packet is noted, before its frame is looked at.
    pub open spec fn noted(self, ext_seq: u64, frame: u64) -> Self {
        CheckerView { history: self.history.after(ext_seq), ..self }.begun(frame)
    }

    /// The checker after a packet.
    pub open spec fn after(self, ext_seq: u64, frame: u64, dd: DependencyDescriptorLite) -> Self {
        let noted = self.noted(ext_seq, frame);
        if noted.follows(frame) {
            noted.ready(frame).with_packet(ext_seq, frame, dd)
        } else {
            noted
        }
    }

    /// The history reaches back to the first packet of the frame, where that is looked up.
    pub open spec fn can_check(
        self,
        ext_seq: u64,
        frame: u64,
        dd: DependencyDescriptorLite,
    ) -> bool {
        let noted = self.noted(ext_seq, frame);
        noted.follows(frame) ==> noted.ready(frame).frames[noted.place(frame)].can_check(
            ext_seq,
            dd,
            noted.history,
        )
    }

    /// All packets of the frame have come.
    pub open spec fn is_complete(self, frame: u64) -> bool {
        self.inited && self.base <= frame <= self.last && self.last - frame < self.frames.len()
            && self.frames[self.place(frame)].integrity
    }
}

impl View for FrameIntegrityCheckerLite {
    type V = CheckerView;

    open spec fn view(&self) -> CheckerView {
        CheckerView {
            frames: self.frames@,
            base: self.base,
            last: self.last,
            history: self.packet_history@,
            inited: self.inited,
        }
    }
}

impl FrameIntegrityCheckerLite {
    /// The rings are whole, and nothing is before their beginnings.
    pub open spec fn wf(self) -> bool {
        &&& self.frames@.len() == self.frame_count
        &&& self.packet_history.wf()
        &&& self.inited ==> self.base <= self.last
        &&& self.packet_history.inited ==> self.packet_history.base <= self.packet_history.last
    }

    /// A checker of the latest `frame_count` frames and `packet_count` packets.
    pub fn new(frame_count: usize, packet_count: usize) -> (checker: Self)
        requires
            packet_count <= usize::MAX - 63,
        ensures
            checker.wf(),
            checker@ == (CheckerView {
                frames: Seq::new(frame_count as nat, |i: int| FrameEntity::fresh()),
                base: 0,
                last: 0,
                history: HistoryView {
                    base: 0,
                    last: 0,
                    marks: Seq::new(((packet_count + 63) / 64 * 64) as nat, |i: int| false),
                    inited: false,
                },
                inited: false,
            }),
    {
        let mut frames: Vec<FrameEntity> = Vec::new();
        while frames.len() < frame_count
            invariant
                frames@.len() <= frame_count,
                forall|i: int| 0 <= i < frames@.len() ==> frames@[i] == FrameEntity::fresh(),
            decreases frame_count - frames.len(),
        {
            frames.push(FrameEntity { start_seq: None, end_seq: None, integrity: false });
        }
        let checker: FrameIntegrityCheckerLite = FrameIntegrityCheckerLite {
            frame_count,
            frames,
            base: 0,
            last: 0,
            packet_history: PacketHistory::new(packet_count),
            inited: false,
        };
        assert(checker@.frames =~= Seq::new(frame_count as nat, |i: int| FrameEntity::fresh()));
        checker
    }

    /// A packet of a frame has come.
    pub fn add_packet(&mut self, ext_seq: u64, ext_frame_num: u64, dd: DependencyDescriptorLite)
        requires
            old(self).wf(),
            old(self).frame_count > 0,
            old(self).packet_history.packet_count > 0,
            old(self)@.can_check(ext_seq, ext_frame_num, dd),
        ensures
            final(self).wf(),
            final(self).frame_count == old(self).frame_count,
            final(self).packet_history.packet_count == old(self).packet_history.packet_count,
            final(self)@ == old(self)@.after(ext_seq, ext_frame_num, dd),
    {
        self.packet_history.add_packet(ext_seq);
        if !self.inited {
            self.inited = true;
            self.base = ext_frame_num;
            self.last = ext_frame_num;
        }
        let ghost noted = self@;
        assert(noted == old(self)@.noted(ext_seq, ext_frame_num));
        if ext_frame_num < self.base {
            return;
        }
        let count: u64 = self.frame_count as u64;
        if ext_frame_num <= self.last {
            if self.last - ext_frame_num >= count {
                return;
            }
        } else {
            let first: u64 = self.last + 1;
            let mut frame: u64 = first;
            while frame < ext_frame_num
                invariant
                    self.wf(),
                    self.frame_count == old(self).frame_count,
                    self.packet_history.packet_count == old(self).packet_history.packet_count,
                    self.base == noted.base,
                    self.packet_history@ == noted.history,
                    count == self.frame_count,
                    count == noted.frames.len(),
                    count > 0,
                    self.base < first,
                    first <= frame <= ext_frame_num,
                    self@ == noted.forgotten(first, frame),
                decreases ext_frame_num - frame,
            {
                let place: usize = ((frame - self.base) % count) as usize;
                let mut entity: FrameEntity = self.frames[place];
                entity.reset();
                self.frames[place] = entity;
                frame += 1;
                assert(self@ =~= noted.forgotten(first, frame));
            }
            let place: usize = ((ext_frame_num - self.base) % count) as usize;
            let mut entity: FrameEntity = self.frames[place];
            entity.reset();
            self.frames[place] = entity;
            self.last = ext_frame_num;
        }
        assert(self@ =~= noted.ready(ext_frame_num));
        let place: usize = ((ext_frame_num - self.base) % count) as usize;
        let mut entity: FrameEntity = self.frames[place];
        entity.add_packet(ext_seq, dd, &self.packet_history);
        self.frames[place] = entity;
    }

    /// Tells whether all packets of the frame have come.
    pub fn frame_integrity(&self, ext_frame_num: u64) -> (complete: bool)
        requires
            self.wf(),
        ensures
            complete == self@.is_complete(ext_frame_num),
    {
        if !self.inited || ext_frame_num < self.base || ext_frame_num > self.last || self.last
            - ext_frame_num >= self.frame_count as u64 {
            return false;
        }
        let place: usize = ((ext_frame_num - self.base) % (self.frame_count as u64)) as usize;
        self.frames[place].integrity
    }
}

/// Numbers that are less than a turn apart have different places on a ring.
proof fn lemma_places_differ(a: int, b: int, count: int)
    requires
        0 <= a < b,
        b - a < count,
    ensures
        a % count != b % count,
{
    if a % count == b % count {
        let x = a / count;
        let y = b / count;
        vstd::arithmetic::div_mod::lemma_fundamental_div_mod(a, count);
        vstd::arithmetic::div_mod::lemma_fundamental_div_mod(b, count);
        assert(b - a == count * (y - x)) by (nonlinear_arith)
            requires
                a == count * x + a % count,
                b == count * y + b % count,
                a % count == b % count,
        ;
        assert(false) by (nonlinear_arith)
            requires
                0 < b - a < count,
                b - a == count * (y - x),
        ;
    }
}

proof fn lemma_without_keeps(history: HistoryView, from: u64, to: u64, seq: u64)
    requires
        history.marks.len() > 0,
        history.base <= seq < from,
        to - seq <= history.marks.len(),
    ensures
        history.without(from, to).marks.len() == history.marks.len(),
        history.without(from, to).base == history.base,
        history.without(from, to).is_marked(seq) == history.is_marked(seq),
    decreases to - from,
{
    if from < to {
        lemma_without_keeps(history, from, (to - 1) as u64, seq);
        lemma_places_differ(
            seq - history.base,
            to - 1 - history.base,
            history.marks.len() as int,
        );
    }
}

proof fn lemma_without_clears(history: HistoryView, from: u64, to: u64, seq: u64)
    requires
        history.marks.len() > 0,
        history.base <= from <= seq < to,
        to - seq <= history.marks.len(),
    ensures
        history.without(from, to).marks.len() == history.marks.len(),
        history.without(from, to).base == history.base,
        !history.without(from, to).is_marked(seq),
    decreases to - from,
{
    lemma_without_is_a_ring(history, from, (to - 1) as u64);
    if seq < to - 1 {
        lemma_without_clears(history, from, (to - 1) as u64, seq);
        lemma_places_differ(
            seq - history.base,
            to - 1 - history.base,
            history.marks.len() as int,
        );
    }
}

proof fn lemma_without_is_a_ring(history: HistoryView, from: u64, to: u64)
    requires
        history.marks.len() > 0,
    ensures
        history.without(from, to).marks.len() == history.marks.len(),
        history.without(from, to).base == history.base,
    decreases to - from,
{
    if from < to {
        lemma_without_is_a_ring(history, from, (to - 1) as u64);
    }
}

/// A newer packet is marked, those that it skips are not, and the marks of those before stay, as
/// far as the ring reaches.
pub proof fn law_skipped_packets_are_missing(history: HistoryView, next: u64, seq: u64)
    requires
        history.inited,
        history.marks.len() > 0,
        history.base <= history.last < next,
        history.base <= seq <= next,
        next - seq < history.marks.len(),
    ensures
        history.after(next).is_marked(seq) == (seq == next || seq <= history.last
            && history.is_marked(seq)),
{
    let first = (history.last + 1) as u64;
    lemma_without_is_a_ring(history, first, next);
    if seq < next {
        lemma_places_differ(seq - history.base, next - history.base, history.marks.len() as int);
        if seq <= history.last {
            lemma_without_keeps(history, first, next, seq);
        } else {
            lemma_without_clears(history, first, next, seq);
        }
    }
}

/// A frame becomes complete with a packet exactly when its first and last packets are known and
/// all packets between them have come, and it stays complete.
pub proof fn law_complete_frame_has_all_packets(
    frame: FrameEntity,
    ext_seq: u64,
    dd: DependencyDescriptorLite,
    history: HistoryView,
)
    ensures
        frame.after(ext_seq, dd, history).integrity <==> frame.integrity || frame.bounded(
            ext_seq,
            dd,
        ).all_came(history),
        frame.integrity ==> frame.after(ext_seq, dd, history) == frame,
{
}

proof fn lemma_forgotten_keeps(checker: CheckerView, from: u64, to: u64, frame: u64)
    requires
        checker.frames.len() > 0,
        checker.base <= frame < from,
        to - frame <= checker.frames.len(),
    ensures
        checker.forgotten(from, to).frames.len() == checker.frames.len(),
        checker.forgotten(from, to).base == checker.base,
        checker.forgotten(from, to).history == checker.history,
        checker.forgotten(from, to).inited == checker.inited,
        checker.forgotten(from, to).frames[checker.place(frame)] == checker.frames[checker.place(
            frame,
        )],
    decreases to - from,
{
    if from < to {
        lemma_forgotten_keeps(checker, from, (to - 1) as u64, frame);
        lemma_places_differ(
            frame - checker.base,
            to - 1 - checker.base,
            checker.frames.len() as int,
        );
    }
}

/// A complete frame stays complete whatever packets come, as long as it is among the latest
/// frames.
pub proof fn law_complete_frames_stay_complete(
    checker: CheckerView,
    ext_seq: u64,
    next: u64,
    dd: DependencyDescriptorLite,
    frame: u64,
)
    requires
        checker.is_complete(frame),
        next > checker.last ==> next - frame < checker.frames.len(),
    ensures
        checker.after(ext_seq, next, dd).is_complete(frame),
{
    let noted = checker.noted(ext_seq, next);
    if noted.follows(next) {
        if next > checker.last {
            lemma_forgotten_keeps(noted, (noted.last + 1) as u64, next, frame);
        }
        if next != frame {
            let low = if next < frame {
                next
            } else {
                frame
            };
            let high = if next < frame {
                frame
            } else {
                next
            };
            lemma_places_differ(
                low - checker.base,
                high - checker.base,
                checker.frames.len() as int,
            );
        }
    }
}

/// The first packet begins the history up to a hundred packets before it, and is marked.
pub proof fn law_first_packet_begins_the_history(history: HistoryView, seq: u64)
    requires
        !history.inited,
        history.marks.len() > 0,
    ensures
        history.after(seq).inited,
        history.after(seq).last == seq,
        seq >= 100 ==> history.after(seq).base == seq - 100,
        seq < 100 ==> history.after(seq).base == 0,
        history.after(seq).is_marked(seq),
{
    let base = if seq >= 100 {
        (seq - 100) as u64
    } else {
        0
    };
    vstd::arithmetic::div_mod::lemma_mod_bound(seq - base, history.marks.len() as int);
}

/// A late packet that the ring reaches back to is marked, and no other mark changes; one that is
/// too old changes nothing.
pub proof fn law_late_packet_is_marked(history: HistoryView, late: u64, seq: u64)
    requires
        history.inited,
        history.marks.len() > 0,
        history.base <= history.last,
        late <= history.last,
        history.base <= seq <= history.last,
        history.last - seq < history.marks.len(),
    ensures
        late <= history.base || history.last - late >= history.marks.len() ==> history.after(late)
            == history,
        late > history.base && history.last - late < history.marks.len() ==> history.after(
            late,
        ).is_marked(seq) == (seq == late || history.is_marked(seq)),
        history.after(late).last == history.last,
        history.after(late).base == history.base,
{
    let n = history.marks.len() as int;
    let a = late - history.base;
    let b = seq - history.base;
    vstd::arithmetic::div_mod::lemma_mod_bound(a, n);
    vstd::arithmetic::div_mod::lemma_mod_bound(b, n);
    if late != seq && late > history.base && history.last - late < n && a % n == b % n {
        vstd::arithmetic::div_mod::lemma_fundamental_div_mod(a, n);
        vstd::arithmetic::div_mod::lemma_fundamental_div_mod(b, n);
        let k = a / n - b / n;
        assert(n * (a / n) - n * (b / n) == n * k) by (nonlinear_arith)
            requires
                k == a / n - b / n,
        ;
        assert(k == 0) by (nonlinear_arith)
            requires
                -n < n * k < n,
                n > 0,
        ;
        assert(n * k == 0) by (nonlinear_arith)
            requires
                k == 0,
        ;
    }
}

/// The first packet that says so begins a frame, and the first that says so ends it; what is known
/// of a frame is not changed by later packets.
pub proof fn law_frame_bounds_come_from_its_packets(
    frame: FrameEntity,
    ext_seq: u64,
    dd: DependencyDescriptorLite,
    history: HistoryView,
)
    requires
        !frame.integrity,
    ensures
        ({
            let after = frame.after(ext_seq, dd, history);
            &&& frame.start_seq is Some ==> after.start_seq == frame.start_seq
            &&& frame.end_seq is Some ==> after.end_seq == frame.end_seq
            &&& frame.start_seq is None ==> after.start_seq == if dd.first_packet_in_frame {
                Some(ext_seq)
            } else {
                None
            }
            &&& frame.end_seq is None ==> after.end_seq == if dd.last_packet_in_frame {
                Some(ext_seq)
            } else {
                None
            }
            &&& after.start_seq is None || after.end_seq is None ==> !after.integrity
            &&& after.start_seq is Some && after.end_seq is Some ==> {
                let start = after.start_seq->Some_0;
                let end = after.end_seq->Some_0;
                start <= end && end - start < history.marks.len() ==> (after.integrity <==> (
                forall|seq: u64| start <= seq <= end ==> #[trigger] history.is_marked(seq)))
            }
        }),
{
}

/// A packet of one frame says nothing of another frame, as long as that is among the latest ones;
/// and a frame that is newly followed is not complete unless its own packet completes it.
pub proof fn law_packets_speak_of_their_own_frame(
    checker: CheckerView,
    ext_seq: u64,
    frame: u64,
    dd: DependencyDescriptorLite,
    other: u64,
)
    requires
        checker.inited,
        checker.frames.len() > 0,
        checker.base <= frame <= checker.last,
        checker.last - frame < checker.frames.len(),
        checker.base <= other <= checker.last,
        checker.last - other < checker.frames.len(),
        other != frame,
    ensures
        checker.after(ext_seq, frame, dd).is_complete(other) == checker.is_complete(other),
        checker.after(ext_seq, frame, dd).last == checker.last,
{
    let n = checker.frames.len() as int;
    let a = frame - checker.base;
    let b = other - checker.base;
    vstd::arithmetic::div_mod::lemma_mod_bound(a, n);
    vstd::arithmetic::div_mod::lemma_mod_bound(b, n);
    if a % n == b % n {
        vstd::arithmetic::div_mod::lemma_fundamental_div_mod(a, n);
        vstd::arithmetic::div_mod::lemma_fundamental_div_mod(b, n);
        let k = a / n - b / n;
        assert(n * (a / n) - n * (b / n) == n * k) by (nonlinear_arith)
            requires
                k == a / n - b / n,
        ;
        assert(k == 0) by (nonlinear_arith)
            requires
                -n < n * k < n,
                n > 0,
        ;
        assert(n * k == 0) by (nonlinear_arith)
            requires
                k == 0,
        ;
    }
}

/// A frame is complete after its packet exactly where the frame itself is, with the packet noted in
/// the history.
pub proof fn law_frame_is_complete_with_its_packets(
    checker: CheckerView,
    ext_seq: u64,
    frame: u64,
    dd: DependencyDescriptorLite,
)
    requires
        checker.inited,
        checker.frames.len() > 0,
        checker.base <= frame <= checker.last,
        checker.last - frame < checker.frames.len(),
    ensures
        checker.after(ext_seq, frame, dd).is_complete(frame) <==> checker.frames[checker.place(
            frame,
        )].after(ext_seq, dd, checker.history.after(ext_seq)).integrity,
        checker.after(ext_seq, frame, dd).history == checker.history.after(ext_seq),
{
    vstd::arithmetic::div_mod::lemma_mod_bound(
        frame - checker.base,
        checker.frames.len() as int,
    );
}

/// A frame before the first one, after the last one, or too far behind it, is not complete.
pub proof fn law_unfollowed_frames_are_not_complete(checker: CheckerView, frame: u64)
    requires
        !checker.inited || frame < checker.base || frame > checker.last || checker.last - frame
            >= checker.frames.len(),
    ensures
        !checker.is_complete(frame),
{
}

proof fn lemma_forgotten_is_fresh(checker: CheckerView, from: u64, to: u64, frame: u64)
    requires
        checker.frames.len() > 0,
        checker.base <= from <= frame < to,
        to - frame <= checker.frames.len(),
    ensures
        checker.forgotten(from, to).frames.len() == checker.frames.len(),
        checker.forgotten(from, to).base == checker.base,
        checker.forgotten(from, to).inited == checker.inited,
        checker.forgotten(from, to).history == checker.history,
        checker.forgotten(from, to).frames[checker.place(frame)] == FrameEntity::fresh(),
    decreases to - from,
{
    let n = checker.frames.len() as int;
    vstd::arithmetic::div_mod::lemma_mod_bound(frame - checker.base, n);
    vstd::arithmetic::div_mod::lemma_mod_bound(to - 1 - checker.base, n);
    if frame < to - 1 {
        lemma_forgotten_is_fresh(checker, from, (to - 1) as u64, frame);
        lemma_places_differ(frame - checker.base, to - 1 - checker.base, n);
    } else {
        lemma_forgotten_length(checker, from, (to - 1) as u64);
    }
}

proof fn lemma_forgotten_length(checker: CheckerView, from: u64, to: u64)
    requires
        checker.frames.len() > 0,
    ensures
        checker.forgotten(from, to).frames.len() == checker.frames.len(),
        checker.forgotten(from, to).base == checker.base,
        checker.forgotten(from, to).inited == checker.inited,
        checker.forgotten(from, to).history == checker.history,
    decreases to - from,
{
    if from < to {
        lemma_forgotten_length(checker, from, (to - 1) as u64);
        vstd::arithmetic::div_mod::lemma_mod_bound(
            to - 1 - checker.base,
            checker.frames.len() as int,
        );
    }
}

/// Frames that a newer one passes over are not complete, whatever the ring held in their places;
/// the newer one becomes the last, and begins with its own packet alone.
pub proof fn law_passed_over_frames_are_not_complete(
    checker: CheckerView,
    ext_seq: u64,
    next: u64,
    dd: DependencyDescriptorLite,
    frame: u64,
)
    requires
        checker.inited,
        checker.frames.len() > 0,
        checker.base <= checker.last < frame < next,
        next - frame < checker.frames.len(),
    ensures
        !checker.after(ext_seq, next, dd).is_complete(frame),
        checker.after(ext_seq, next, dd).last == next,
        checker.after(ext_seq, next, dd).is_complete(next) <==> FrameEntity::fresh().after(
            ext_seq,
            dd,
            checker.history.after(ext_seq),
        ).integrity,
{
    let noted = checker.noted(ext_seq, next);
    let n = checker.frames.len() as int;
    lemma_forgotten_is_fresh(noted, (noted.last + 1) as u64, next, frame);
    lemma_places_differ(frame - checker.base, next - checker.base, n);
    vstd::arithmetic::div_mod::lemma_mod_bound(frame - checker.base, n);
    vstd::arithmetic::div_mod::lemma_mod_bound(next - checker.base, n);
}

} // verus!
