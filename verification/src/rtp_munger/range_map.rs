//! The running sequence number offset of a munger, kept as a short list of sequence number ranges.
//!
//! The newest range is open: it holds every key from its start on. Older ranges are closed, and
//! the keys that lie between two neighbouring ranges were excluded.
use vstd::prelude::*;

verus! {

/// The smallest number of closed ranges that a map keeps.
pub const MIN_RANGES: usize = 1;

/// Half of the key space: keys further apart than this are not compared.
pub const HALF_RANGE_U64: u64 = 0x8000_0000_0000_0000;

/// Why a map operation was refused or a key has no value.
#[derive(Debug, Clone, Copy, PartialEq, Eq, Structural)]
pub enum RangeMapError {
    ReversedOrder,
    KeyNotFound,
    KeyTooOld,
    KeyExcluded,
}

/// A range of keys that share a value. `end` is inclusive, and unused while the range is open.
#[derive(Debug, Clone, Copy, PartialEq, Eq, Structural)]
pub struct RangeVal {
    pub start: u64,
    pub end: u64,
    pub value: u64,
}

/// A map from `u64` keys to offsets that remembers `size` closed ranges beside the open one.
#[derive(Debug, Clone, PartialEq, Eq)]
pub struct RangeMapU64 {
    pub size: usize,
    pub ranges: Vec<RangeVal>,
}

/// `key` lies in the closed range, at less than half the key space from either bound.
pub open spec fn in_closed_range(range: RangeVal, key: u64) -> bool {
    &&& key.wrapping_sub(range.start) < HALF_RANGE_U64
    &&& range.end.wrapping_sub(key) < HALF_RANGE_U64
}

/// `key` lies strictly between two neighbouring ranges, at less than half the key space from
/// either of them.
pub open spec fn in_gap(previous: RangeVal, next: RangeVal, key: u64) -> bool {
    &&& 0 < key.wrapping_sub(previous.end) < HALF_RANGE_U64
    &&& 0 < next.start.wrapping_sub(key) < HALF_RANGE_U64
}

/// What the newest of the first `n` ranges, or of the gaps before them, says of `key`.
pub open spec fn lookup_among(ranges: Seq<RangeVal>, key: u64, n: nat) -> Result<
    u64,
    RangeMapError,
>
    decreases n,
{
    if n == 0 {
        Err(RangeMapError::KeyNotFound)
    } else if n != ranges.len() && in_closed_range(ranges[n - 1], key) {
        Ok(ranges[n - 1].value)
    } else if n > 1 && in_gap(ranges[n - 2], ranges[n - 1], key) {
        Err(RangeMapError::KeyExcluded)
    } else {
        lookup_among(ranges, key, (n - 1) as nat)
    }
}

/// The value of `key`: that of the open range from its start on, else what the ranges and gaps
/// before it say.
pub open spec fn lookup(ranges: Seq<RangeVal>, key: u64) -> Result<u64, RangeMapError> {
    if ranges.len() > 0 && key >= ranges.last().start {
        Ok(ranges.last().value)
    } else if ranges.len() > 0 && key < ranges[0].start {
        Err(RangeMapError::KeyTooOld)
    } else {
        lookup_among(ranges, key, ranges.len())
    }
}

/// The newest `size + 1` ranges.
pub open spec fn pruned(ranges: Seq<RangeVal>, size: nat) -> Seq<RangeVal> {
    if ranges.len() > size + 1 {
        ranges.subrange(ranges.len() - size - 1, ranges.len() as int)
    } else {
        ranges
    }
}

/// The ranges after the open range ends at `end` and a new one opens at `start` with `value`.
pub open spec fn reopened(
    ranges: Seq<RangeVal>,
    size: nat,
    end: u64,
    start: u64,
    value: u64,
) -> Seq<RangeVal> {
    let closed = RangeVal { end, ..ranges.last() };
    pruned(
        ranges.update(ranges.len() - 1, closed).push(RangeVal { start, end: 0, value }),
        size,
    )
}

/// Excluding `start..end` is possible: the interval is not empty, no wider than half the key
/// space, and does not begin before the open range.
pub open spec fn can_exclude(ranges: Seq<RangeVal>, start: u64, end: u64) -> bool {
    &&& 0 < end.wrapping_sub(start) <= HALF_RANGE_U64
    &&& ranges.last().start <= start
}

/// The ranges after `start..end` is excluded: the open range begins at `end`, and its value grows
/// by the number of excluded keys.
pub open spec fn after_exclusion(
    ranges: Seq<RangeVal>,
    size: nat,
    start: u64,
    end: u64,
) -> Seq<RangeVal> {
    let value = ranges.last().value.saturating_add(end.wrapping_sub(start));
    if ranges.last().start == start {
        ranges.update(ranges.len() - 1, RangeVal { start: end, value, ..ranges.last() })
    } else {
        reopened(ranges, size, start.wrapping_sub(1), end, value)
    }
}

/// The ranges after the value of the keys behind `end` is lowered by `dec`.
pub open spec fn after_decrement(ranges: Seq<RangeVal>, size: nat, end: u64, dec: u64) -> Seq<
    RangeVal,
> {
    let value = ranges.last().value.saturating_sub(dec);
    if ranges.last().start > end {
        ranges.update(ranges.len() - 1, RangeVal { value, ..ranges.last() })
    } else {
        reopened(ranges, size, end, end.wrapping_add(1), value)
    }
}

impl RangeMapU64 {
    /// There is an open range, and no more than `size` closed ones.
    pub open spec fn wf(self) -> bool {
        &&& self.size >= MIN_RANGES
        &&& 1 <= self.ranges@.len() <= self.size + 1
    }

    /// A map whose open range holds every key with value 0.
    pub fn new(size: usize) -> (map: Self)
        ensures
            map.wf(),
            map.size == if size < MIN_RANGES { MIN_RANGES } else { size },
            map.ranges@ == seq![RangeVal { start: 0, end: 0, value: 0 }],
    {
        let mut map = RangeMapU64 {
            size: if size < MIN_RANGES { MIN_RANGES } else { size },
            ranges: Vec::new(),
        };
        map.init_ranges(0, 0);
        map
    }

    /// Forgets every range and opens one at `start`.
    pub fn clear_and_reset_value(&mut self, start: u64, value: u64)
        ensures
            final(self).size == old(self).size,
            final(self).ranges@ == seq![RangeVal { start, end: 0, value }],
            old(self).size >= MIN_RANGES ==> final(self).wf(),
    {
        self.init_ranges(start, value);
    }

    /// Lowers the value of the keys behind `end`, or of the whole open range when `end` is before
    /// it.
    pub fn dec_value(&mut self, end: u64, dec: u64)
        requires
            old(self).wf(),
            old(self).size < usize::MAX,
        ensures
            final(self).wf(),
            final(self).size == old(self).size,
            final(self).ranges@ == after_decrement(
                old(self).ranges@,
                old(self).size as nat,
                end,
                dec,
            ),
    {
        let last_index: usize = self.ranges.len() - 1;
        let mut last: RangeVal = self.ranges[last_index];
        let next_value: u64 = last.value.saturating_sub(dec);
        if last.start > end {
            last.value = next_value;
            self.ranges.set(last_index, last);
            return ;
        }
        last.end = end;
        self.ranges.set(last_index, last);
        self.ranges.push(RangeVal { start: end.wrapping_add(1), end: 0, value: next_value });
        self.prune();
    }

    /// Excludes the keys of `start_inclusive..end_exclusive`. Later keys gain the interval's width.
    pub fn exclude_range(&mut self, start_inclusive: u64, end_exclusive: u64) -> (result: Result<
        (),
        RangeMapError,
    >)
        requires
            old(self).wf(),
            old(self).size < usize::MAX,
        ensures
            final(self).wf(),
            final(self).size == old(self).size,
            result == if can_exclude(old(self).ranges@, start_inclusive, end_exclusive) {
                Ok::<(), RangeMapError>(())
            } else {
                Err(RangeMapError::ReversedOrder)
            },
            final(self).ranges@ == if result is Ok {
                after_exclusion(
                    old(self).ranges@,
                    old(self).size as nat,
                    start_inclusive,
                    end_exclusive,
                )
            } else {
                old(self).ranges@
            },
    {
        let width: u64 = end_exclusive.wrapping_sub(start_inclusive);
        if end_exclusive == start_inclusive || width > HALF_RANGE_U64 {
            return Err(RangeMapError::ReversedOrder);
        }
        let last_index: usize = self.ranges.len() - 1;
        let mut last: RangeVal = self.ranges[last_index];
        if last.start > start_inclusive {
            return Err(RangeMapError::ReversedOrder);
        }
        let new_value: u64 = last.value.saturating_add(width);
        if last.start == start_inclusive {
            last.start = end_exclusive;
            last.value = new_value;
            self.ranges.set(last_index, last);
            return Ok(());
        }
        last.end = start_inclusive.wrapping_sub(1);
        self.ranges.set(last_index, last);
        self.ranges.push(RangeVal { start: end_exclusive, end: 0, value: new_value });
        self.prune();
        Ok(())
    }

    /// The value of `key`, or why it has none.
    pub fn get_value(&self, key: u64) -> (result: Result<u64, RangeMapError>)
        ensures
            result == lookup(self.ranges@, key),
    {
        let num_ranges: usize = self.ranges.len();
        if num_ranges != 0 {
            if key >= self.ranges[num_ranges - 1].start {
                return Ok(self.ranges[num_ranges - 1].value);
            }
            if key < self.ranges[0].start {
                return Err(RangeMapError::KeyTooOld);
            }
        }
        let mut n: usize = num_ranges;
        while n > 0
            invariant
                n <= num_ranges == self.ranges@.len(),
                lookup(self.ranges@, key) == lookup_among(self.ranges@, key, n as nat),
            decreases n,
        {
            let range: RangeVal = self.ranges[n - 1];
            if n != num_ranges && key.wrapping_sub(range.start) < HALF_RANGE_U64
                && range.end.wrapping_sub(key) < HALF_RANGE_U64 {
                return Ok(range.value);
            }
            if n > 1 {
                let previous: RangeVal = self.ranges[n - 2];
                let before_diff: u64 = key.wrapping_sub(previous.end);
                let after_diff: u64 = range.start.wrapping_sub(key);
                if before_diff > 0 && before_diff < HALF_RANGE_U64 && after_diff > 0 && after_diff
                    < HALF_RANGE_U64 {
                    return Err(RangeMapError::KeyExcluded);
                }
            }
            n -= 1;
        }
        Err(RangeMapError::KeyNotFound)
    }

    /// Leaves a single open range.
    pub fn init_ranges(&mut self, start: u64, value: u64)
        ensures
            final(self).size == old(self).size,
            final(self).ranges@ == seq![RangeVal { start, end: 0, value }],
    {
        let mut ranges: Vec<RangeVal> = Vec::new();
        ranges.push(RangeVal { start, end: 0, value });
        self.ranges = ranges;
    }

    /// Forgets the oldest ranges over the limit.
    pub fn prune(&mut self)
        requires
            old(self).size < usize::MAX,
        ensures
            final(self).size == old(self).size,
            final(self).ranges@ == pruned(old(self).ranges@, old(self).size as nat),
    {
        if self.ranges.len() > self.size + 1 {
            let surplus: usize = self.ranges.len() - self.size - 1;
            self.ranges = self.ranges.split_off(surplus);
        }
    }
}

/// Each range ends where it begins or later, and before the next one begins.
pub open spec fn ordered(ranges: Seq<RangeVal>) -> bool {
    forall|i: int, j: int|
        0 <= i < j < ranges.len() ==> (#[trigger] ranges[i]).start <= ranges[i].end
            && ranges[i].end < (#[trigger] ranges[j]).start
}

proof fn lemma_skip(ranges: Seq<RangeVal>, key: u64, low: nat, high: nat)
    requires
        low <= high <= ranges.len(),
        forall|i: int|
            low <= i < high ==> !(i + 1 != ranges.len() && in_closed_range(
                #[trigger] ranges[i],
                key,
            )),
        forall|i: int|
            low <= i < high && i >= 1 ==> !in_gap(ranges[i - 1], #[trigger] ranges[i], key),
    ensures
        lookup_among(ranges, key, high) == lookup_among(ranges, key, low),
    decreases high,
{
    if low < high {
        assert(!(high != ranges.len() && in_closed_range(ranges[high - 1], key)));
        assert(high > 1 ==> !in_gap(ranges[high - 2], ranges[high - 1], key));
        lemma_skip(ranges, key, low, (high - 1) as nat);
    }
}

/// In an ordered map a key of a closed range, at less than half the key space from both of its
/// bounds, has the value of that range.
pub proof fn law_closed_range_value(ranges: Seq<RangeVal>, key: u64, i: int)
    requires
        ordered(ranges),
        0 <= i < ranges.len() - 1,
        ranges[i].start <= key <= ranges[i].end,
        key - ranges[i].start < HALF_RANGE_U64,
        ranges[i].end - key < HALF_RANGE_U64,
    ensures
        lookup(ranges, key) == Ok::<u64, RangeMapError>(ranges[i].value),
{
    let n = ranges.len();
    assert(ranges[i].end < ranges[n - 1].start);
    if i > 0 {
        assert(ranges[0].start <= ranges[0].end);
        assert(ranges[0].end < ranges[i].start);
    }
    assert forall|j: int| i + 1 <= j < n implies !(j + 1 != n && in_closed_range(
        #[trigger] ranges[j],
        key,
    )) by {
        assert(ranges[i].end < ranges[j].start);
        if j + 1 != n {
            assert(ranges[j].end < ranges[n - 1].start);
            assert(ranges[j].start <= ranges[j].end);
        }
    }
    assert forall|j: int| i + 1 <= j < n && j >= 1 implies !in_gap(
        ranges[j - 1],
        #[trigger] ranges[j],
        key,
    ) by {
        assert(ranges[j - 1].end < ranges[j].start);
        if j - 1 > i {
            assert(ranges[i].end < ranges[j - 1].start);
        }
    }
    lemma_skip(ranges, key, (i + 1) as nat, n);
}

/// In an ordered map a key between two neighbouring ranges, at less than half the key space from
/// both, is excluded.
pub proof fn law_gap_is_excluded(ranges: Seq<RangeVal>, key: u64, i: int)
    requires
        ordered(ranges),
        0 <= i < ranges.len() - 1,
        ranges[i].end < key < ranges[i + 1].start,
        key - ranges[i].end < HALF_RANGE_U64,
        ranges[i + 1].start - key < HALF_RANGE_U64,
    ensures
        lookup(ranges, key) == Err::<u64, RangeMapError>(RangeMapError::KeyExcluded),
{
    let n = ranges.len();
    assert(ranges[i].start <= ranges[i].end < ranges[n - 1].start);
    if i + 1 < n - 1 {
        assert(ranges[i + 1].start <= ranges[i + 1].end < ranges[n - 1].start);
    }
    if i > 0 {
        assert(ranges[0].start <= ranges[0].end < ranges[i].start);
    }
    assert forall|j: int| i + 2 <= j < n implies !(j + 1 != n && in_closed_range(
        #[trigger] ranges[j],
        key,
    )) by {
        assert(ranges[i + 1].end < ranges[j].start);
        assert(ranges[i + 1].start <= ranges[i + 1].end);
        if j + 1 != n {
            assert(ranges[j].start <= ranges[j].end < ranges[n - 1].start);
        }
    }
    assert forall|j: int| i + 2 <= j < n && j >= 1 implies !in_gap(
        ranges[j - 1],
        #[trigger] ranges[j],
        key,
    ) by {
        assert(ranges[j - 1].start <= ranges[j - 1].end < ranges[j].start);
        if j - 1 > i + 1 {
            assert(ranges[i + 1].start <= ranges[i + 1].end < ranges[j - 1].start);
        }
    }
    lemma_skip(ranges, key, (i + 2) as nat, n);
    assert(!(i + 2 != n && in_closed_range(ranges[i + 1], key)));
}

/// In an ordered map a key that no range holds has no value.
pub proof fn law_unheld_key_has_no_value(ranges: Seq<RangeVal>, key: u64)
    requires
        ordered(ranges),
        ranges.len() > 0,
        key < ranges.last().start,
        forall|i: int|
            0 <= i < ranges.len() - 1 ==> !((#[trigger] ranges[i]).start <= key <= ranges[i].end),
    ensures
        lookup(ranges, key) is Err,
{
    lemma_unheld_among(ranges, key, ranges.len());
}

proof fn lemma_unheld_among(ranges: Seq<RangeVal>, key: u64, n: nat)
    requires
        ordered(ranges),
        n <= ranges.len(),
        forall|i: int|
            0 <= i < ranges.len() - 1 ==> !((#[trigger] ranges[i]).start <= key <= ranges[i].end),
    ensures
        lookup_among(ranges, key, n) is Err,
    decreases n,
{
    if n > 0 {
        if n != ranges.len() {
            let last: int = ranges.len() - 1;
            assert(ranges[n - 1].end < ranges[last].start);
        }
        lemma_unheld_among(ranges, key, (n - 1) as nat);
    }
}

/// Excluding an interval that does not wrap keeps an ordered map ordered.
pub proof fn law_exclusion_keeps_order(ranges: Seq<RangeVal>, size: nat, start: u64, end: u64)
    requires
        ordered(ranges),
        ranges.len() > 0,
        can_exclude(ranges, start, end),
        start < end,
    ensures
        ordered(after_exclusion(ranges, size, start, end)),
{
    let n = ranges.len();
    if ranges.last().start != start {
        let closed = RangeVal { end: start.wrapping_sub(1), ..ranges.last() };
        let value = ranges.last().value.saturating_add(end.wrapping_sub(start));
        let grown = ranges.update(n - 1, closed).push(RangeVal { start: end, end: 0, value });
        assert(ordered(grown)) by {
            assert forall|i: int, j: int| 0 <= i < j < grown.len() implies (
            #[trigger] grown[i]).start <= grown[i].end && grown[i].end < (
            #[trigger] grown[j]).start by {
                if i < n - 1 {
                    assert(ranges[i].start <= ranges[i].end < ranges[n - 1].start);
                    if j < n - 1 {
                        assert(ranges[i].end < ranges[j].start);
                    }
                }
            }
        }
    } else {
        let after = after_exclusion(ranges, size, start, end);
        assert forall|i: int, j: int| 0 <= i < j < after.len() implies (
        #[trigger] after[i]).start <= after[i].end && after[i].end < (
        #[trigger] after[j]).start by {
            assert(ranges[i].start <= ranges[i].end < ranges[j].start);
        }
    }
}

/// After an interval of an ordered map is excluded, none of its keys has a value, and every later
/// key has the old open value plus the interval's width, as far as `u64` holds it.
pub proof fn law_exclusion_is_seen(
    ranges: Seq<RangeVal>,
    size: nat,
    start: u64,
    end: u64,
    key: u64,
)
    requires
        ordered(ranges),
        ranges.len() > 0,
        can_exclude(ranges, start, end),
        start < end,
    ensures
        start <= key < end ==> lookup(after_exclusion(ranges, size, start, end), key) is Err,
        key >= end ==> lookup(after_exclusion(ranges, size, start, end), key) == Ok::<
            u64,
            RangeMapError,
        >(ranges.last().value.saturating_add((end - start) as u64)),
{
    law_exclusion_keeps_order(ranges, size, start, end);
    let after = after_exclusion(ranges, size, start, end);
    assert(after.last().start == end);
    if start <= key < end {
        assert forall|i: int| 0 <= i < after.len() - 1 implies !((
        #[trigger] after[i]).start <= key <= after[i].end) by {
            let n = ranges.len();
            assert(ordered(after));
            if ranges.last().start == start {
                assert(ranges[i].end < ranges[n - 1].start);
            } else if i < after.len() - 2 {
                assert(after[i].end < after[after.len() - 2].start);
                assert(after[after.len() - 2].end == start.wrapping_sub(1));
                assert(after[after.len() - 2].start <= after[after.len() - 2].end);
            }
        }
        law_unheld_key_has_no_value(after, key);
    }
}

/// A key before an excluded interval keeps its value, as long as its range is still remembered
/// and, where the exclusion closed its range, both bounds are less than half the key space away.
pub proof fn law_exclusion_keeps_older_values(
    ranges: Seq<RangeVal>,
    size: nat,
    start: u64,
    end: u64,
    key: u64,
    i: int,
)
    requires
        ordered(ranges),
        size >= 1,
        0 <= i < ranges.len(),
        can_exclude(ranges, start, end),
        start < end,
        ranges[i].start <= key < start,
        i < ranges.len() - 1 ==> key <= ranges[i].end,
        key - ranges[i].start < HALF_RANGE_U64,
        (if i < ranges.len() - 1 {
            ranges[i].end
        } else {
            (start - 1) as u64
        }) - key < HALF_RANGE_U64,
        ranges.last().start == start || i >= ranges.len() - size,
    ensures
        lookup(after_exclusion(ranges, size, start, end), key) == lookup(ranges, key),
        lookup(ranges, key) == Ok::<u64, RangeMapError>(ranges[i].value),
{
    let n = ranges.len();
    let after = after_exclusion(ranges, size, start, end);
    law_exclusion_keeps_order(ranges, size, start, end);
    if i < n - 1 {
        law_closed_range_value(ranges, key, i);
        assert(ranges[i].end < ranges[n - 1].start);
    }
    if ranges.last().start == start {
        assert(after[i] == ranges[i]);
        law_closed_range_value(after, key, i);
    } else {
        let dropped: int = if n + 1 > size + 1 { n - size } else { 0 };
        assert(after.len() == n + 1 - dropped);
        assert(after[i - dropped].value == ranges[i].value);
        assert(after[i - dropped].start == ranges[i].start);
        law_closed_range_value(after, key, i - dropped);
    }
}

/// Lowering the value of the keys behind `end` leaves the keys of the old open range up to `end`
/// alone, as far as both bounds are less than half the key space away, and lowers the rest.
pub proof fn law_decrement_is_seen(
    ranges: Seq<RangeVal>,
    size: nat,
    end: u64,
    dec: u64,
    key: u64,
)
    requires
        ordered(ranges),
        ranges.len() > 0,
        size >= 1,
        end < u64::MAX,
    ensures
        ordered(after_decrement(ranges, size, end, dec)),
        key > end && key >= ranges.last().start ==> lookup(
            after_decrement(ranges, size, end, dec),
            key,
        ) == Ok::<u64, RangeMapError>(ranges.last().value.saturating_sub(dec)),
        ranges.last().start <= key <= end && key - ranges.last().start < HALF_RANGE_U64 && end - key
            < HALF_RANGE_U64 ==> lookup(after_decrement(ranges, size, end, dec), key) == Ok::<
            u64,
            RangeMapError,
        >(ranges.last().value),
{
    let n = ranges.len();
    let value = ranges.last().value.saturating_sub(dec);
    let after = after_decrement(ranges, size, end, dec);
    if ranges.last().start > end {
        assert forall|i: int, j: int| 0 <= i < j < after.len() implies (
        #[trigger] after[i]).start <= after[i].end && after[i].end < (
        #[trigger] after[j]).start by {
            assert(ranges[i].start <= ranges[i].end < ranges[j].start);
        }
    } else {
        let closed = RangeVal { end, ..ranges.last() };
        let grown = ranges.update(n - 1, closed).push(
            RangeVal { start: end.wrapping_add(1), end: 0, value },
        );
        assert forall|i: int, j: int| 0 <= i < j < grown.len() implies (
        #[trigger] grown[i]).start <= grown[i].end && grown[i].end < (
        #[trigger] grown[j]).start by {
            if i < n - 1 {
                assert(ranges[i].start <= ranges[i].end < ranges[n - 1].start);
                if j < n - 1 {
                    assert(ranges[i].end < ranges[j].start);
                }
            }
        }
        assert(ordered(after));
        if ranges.last().start <= key <= end && key - ranges.last().start < HALF_RANGE_U64 && end
            - key < HALF_RANGE_U64 {
            law_closed_range_value(after, key, after.len() - 2);
        }
    }
}

/// An interval can be excluded exactly where it is not empty or reversed, is no wider than half the
/// key space, and does not begin before the open range.
pub proof fn law_intervals_can_be_excluded(ranges: Seq<RangeVal>, start: u64, end: u64)
    requires
        ranges.len() > 0,
    ensures
        start < end && end - start <= 0x8000_0000_0000_0000 && ranges.last().start <= start ==> can_exclude(
            ranges,
            start,
            end,
        ),
        start == end ==> !can_exclude(ranges, start, end),
        end < start && start - end < 0x8000_0000_0000_0000 ==> !can_exclude(ranges, start, end),
        start < ranges.last().start ==> !can_exclude(ranges, start, end),
{
}

/// A key of the open range has its value, and one before every range is too old.
pub proof fn law_open_range_and_old_keys(ranges: Seq<RangeVal>, key: u64)
    requires
        ordered(ranges),
        ranges.len() > 0,
    ensures
        key >= ranges.last().start ==> lookup(ranges, key) == Ok::<u64, RangeMapError>(
            ranges.last().value,
        ),
        key < ranges[0].start ==> lookup(ranges, key) == Err::<u64, RangeMapError>(
            RangeMapError::KeyTooOld,
        ),
{
    if ranges.len() > 1 {
        let last: int = ranges.len() - 1;
        assert(ranges[0].end < ranges[last].start);
    }
}

/// No more closed ranges are kept than the size of the map, and of more the newest are.
pub proof fn law_newest_ranges_are_kept(
    ranges: Seq<RangeVal>,
    size: nat,
    start: u64,
    end: u64,
    dec: u64,
)
    requires
        0 < ranges.len() <= size + 1,
    ensures
        after_exclusion(ranges, size, start, end).len() <= size + 1,
        after_decrement(ranges, size, end, dec).len() <= size + 1,
        after_exclusion(ranges, size, start, end).last().start == end,
        ranges.len() <= size ==> after_exclusion(ranges, size, start, end).len() >= ranges.len(),
{
}

} // verus!
