//! The running offset of an outgoing sequence from which padding was cut out.
//!
//! The newest range is open: it holds every number from its start on. Older ranges are closed,
//! and the numbers that lie between two neighbouring ranges were excluded.
use vstd::prelude::*;

verus! {

/// Why an exclusion was refused or a number has no offset.
#[derive(Debug, Clone, Copy, PartialEq, Eq, Structural)]
pub enum RangeMapError {
    ReversedOrder,
    KeyTooOld,
    KeyExcluded,
}

/// A range of numbers that share an offset. `end` is inclusive, and unused while the range is
/// open.
#[derive(Debug, Clone, Copy, PartialEq, Eq, Structural)]
pub struct RangeValU64 {
    pub start: u64,
    pub end: u64,
    pub value: u64,
}

/// A map from numbers to offsets that remembers `size` closed ranges beside the open one.
#[derive(Debug, Clone)]
pub struct RangeMapU64 {
    pub size: usize,
    pub ranges: Vec<RangeValU64>,
}

/// Each range ends where it begins or later, and before the next one begins, with a number between
/// them.
pub open spec fn ordered(ranges: Seq<RangeValU64>) -> bool {
    forall|i: int, j: int|
        0 <= i < j < ranges.len() ==> (#[trigger] ranges[i]).start <= ranges[i].end
            && ranges[i].end + 1 < (#[trigger] ranges[j]).start
}

/// Range `i` holds `key`.
pub open spec fn holds(ranges: Seq<RangeValU64>, i: int, key: u64) -> bool {
    &&& 0 <= i < ranges.len()
    &&& ranges[i].start <= key
    &&& i < ranges.len() - 1 ==> key <= ranges[i].end
}

/// The offset of `key`: the value of the range that holds it. A key before every range is
/// forgotten, one between two ranges was excluded.
pub open spec fn lookup(ranges: Seq<RangeValU64>, key: u64) -> Result<u64, RangeMapError> {
    if exists|i: int| holds(ranges, i, key) {
        Ok(ranges[choose|i: int| holds(ranges, i, key)].value)
    } else if ranges.len() == 0 || key < ranges[0].start {
        Err(RangeMapError::KeyTooOld)
    } else {
        Err(RangeMapError::KeyExcluded)
    }
}

/// Excluding `start..end` is possible: the interval is not empty and does not begin before the
/// open range.
pub open spec fn can_exclude(ranges: Seq<RangeValU64>, start: u64, end: u64) -> bool {
    start < end && ranges.last().start <= start
}

/// The newest `size + 1` ranges.
pub open spec fn pruned(ranges: Seq<RangeValU64>, size: nat) -> Seq<RangeValU64> {
    if ranges.len() > size + 1 {
        ranges.subrange(ranges.len() - size - 1, ranges.len() as int)
    } else {
        ranges
    }
}

/// The ranges after `start..end` is excluded: the open range begins at `end`, and its value grows
/// by the number of excluded keys.
pub open spec fn after_exclusion(
    ranges: Seq<RangeValU64>,
    size: nat,
    start: u64,
    end: u64,
) -> Seq<RangeValU64> {
    let value = ranges.last().value.saturating_add((end - start) as u64);
    if ranges.last().start == start {
        ranges.update(ranges.len() - 1, RangeValU64 { start: end, value, ..ranges.last() })
    } else {
        pruned(
            ranges.update(
                ranges.len() - 1,
                RangeValU64 { end: (start - 1) as u64, ..ranges.last() },
            ).push(RangeValU64 { start: end, end: 0, value }),
            size,
        )
    }
}

impl RangeMapU64 {
    /// There is an open range and no more than `size` closed ones, in order.
    pub open spec fn wf(self) -> bool {
        &&& 1 <= self.size < usize::MAX
        &&& 1 <= self.ranges@.len() <= self.size + 1
        &&& ordered(self.ranges@)
    }

    /// A map whose open range holds every number with offset 0.
    pub fn new(size: usize) -> (map: Self)
        requires
            size < usize::MAX,
        ensures
            map.wf(),
            map.size == if size < 1 { 1 } else { size },
            map.ranges@ == seq![RangeValU64 { start: 0, end: 0, value: 0 }],
    {
        let mut ranges: Vec<RangeValU64> = Vec::new();
        ranges.push(RangeValU64 { start: 0, end: 0, value: 0 });
        RangeMapU64 { size: if size < 1 { 1 } else { size }, ranges }
    }

    /// Excludes the numbers of `start_inclusive..end_exclusive`. Later numbers gain the interval's
    /// width as offset.
    pub fn exclude_range(&mut self, start_inclusive: u64, end_exclusive: u64) -> (result: Result<
        (),
        RangeMapError,
    >)
        requires
            old(self).wf(),
        ensures
            final(self).wf(),
            final(self).size == old(self).size,
            result == if can_exclude(old(self).ranges@, start_inclusive, end_exclusive) {
                Ok::<(), RangeMapError>(())
            } else {
                Err(RangeMapError::ReversedOrder)
            },
            final(self).ranges@ == if result is Ok {
                after_exclusion(
                    old(self).ranges@,
                    old(self).size as nat,
                    start_inclusive,
                    end_exclusive,
                )
            } else {
                old(self).ranges@
            },
    {
        if end_exclusive <= start_inclusive {
            return Err(RangeMapError::ReversedOrder);
        }
        let last_index: usize = self.ranges.len() - 1;
        let mut last: RangeValU64 = self.ranges[last_index];
        if last.start > start_inclusive {
            return Err(RangeMapError::ReversedOrder);
        }
        proof {
            lemma_exclusion_keeps_order(
                self.ranges@,
                self.size as nat,
                start_inclusive,
                end_exclusive,
            );
        }
        let width: u64 = end_exclusive - start_inclusive;
        let new_value: u64 = last.value.saturating_add(width);
        if last.start == start_inclusive {
            last.start = end_exclusive;
            last.value = new_value;
            self.ranges.set(last_index, last);
            return Ok(());
        }
        last.end = start_inclusive - 1;
        self.ranges.set(last_index, last);
        self.ranges.push(RangeValU64 { start: end_exclusive, end: 0, value: new_value });
        if self.ranges.len() > self.size + 1 {
            let surplus: usize = self.ranges.len() - self.size - 1;
            self.ranges = self.ranges.split_off(surplus);
        }
        Ok(())
    }

    /// The offset of `key`, or why it has none.
    pub fn get_value(&self, key: u64) -> (result: Result<u64, RangeMapError>)
        requires
            ordered(self.ranges@),
        ensures
            result == lookup(self.ranges@, key),
    {
        let len: usize = self.ranges.len();
        let ghost ranges = self.ranges@;
        if len == 0 {
            return Err(RangeMapError::KeyTooOld);
        }
        if key < self.ranges[0].start {
            assert forall|i: int| !holds(ranges, i, key) by {
                if 0 < i < len {
                    assert(ranges[0].end < ranges[i].start);
                }
            }
            return Err(RangeMapError::KeyTooOld);
        }
        let mut n: usize = len;
        while n > 0
            invariant
                n <= len == ranges.len(),
                ranges == self.ranges@,
                ordered(ranges),
                len > 0,
                key >= ranges[0].start,
                forall|i: int| n <= i < len ==> !holds(ranges, i, key),
                n < len ==> key < ranges[n as int].start,
            decreases n,
        {
            let range: RangeValU64 = self.ranges[n - 1];
            if key >= range.start {
                if n == len || key <= range.end {
                    proof {
                        lemma_holder_is_unique(ranges, n - 1, key);
                    }
                    return Ok(range.value);
                }
                assert forall|i: int| !holds(ranges, i, key) by {
                    if 0 <= i < n - 1 {
                        assert(ranges[i].end < ranges[n - 1].start);
                    }
                }
                return Err(RangeMapError::KeyExcluded);
            }
            n -= 1;
        }
        Err(RangeMapError::KeyExcluded)
    }
}

/// In an ordered map one range at most holds a key.
pub proof fn lemma_holder_is_unique(ranges: Seq<RangeValU64>, i: int, key: u64)
    requires
        ordered(ranges),
        holds(ranges, i, key),
    ensures
        lookup(ranges, key) == Ok::<u64, RangeMapError>(ranges[i].value),
{
    let j = choose|j: int| holds(ranges, j, key);
    if j < i {
        assert(ranges[j].end < ranges[i].start);
    } else if i < j {
        assert(ranges[i].end < ranges[j].start);
    }
}

/// Excluding an interval keeps a map ordered.
pub proof fn lemma_exclusion_keeps_order(
    ranges: Seq<RangeValU64>,
    size: nat,
    start: u64,
    end: u64,
)
    requires
        ordered(ranges),
        ranges.len() > 0,
        can_exclude(ranges, start, end),
    ensures
        ordered(after_exclusion(ranges, size, start, end)),
{
    let n = ranges.len();
    let after = after_exclusion(ranges, size, start, end);
    if ranges.last().start != start {
        let closed = RangeValU64 { end: (start - 1) as u64, ..ranges.last() };
        let value = ranges.last().value.saturating_add((end - start) as u64);
        let grown = ranges.update(n - 1, closed).push(RangeValU64 { start: end, end: 0, value });
        assert forall|i: int, j: int| 0 <= i < j < grown.len() implies (
        #[trigger] grown[i]).start <= grown[i].end && grown[i].end + 1 < (
        #[trigger] grown[j]).start by {
            if i < n - 1 {
                assert(ranges[i].start <= ranges[i].end < ranges[n - 1].start);
                if j < n - 1 {
                    assert(ranges[i].end < ranges[j].start);
                }
            }
        }
        assert(ordered(grown));
    } else {
        assert forall|i: int, j: int| 0 <= i < j < after.len() implies (
        #[trigger] after[i]).start <= after[i].end && after[i].end + 1 < (
        #[trigger] after[j]).start by {
            assert(ranges[i].start <= ranges[i].end < ranges[j].start);
        }
    }
}

/// After an interval is excluded none of its numbers has an offset, and every later number has
/// the old open offset plus the interval's width, as far as `u64` holds it.
pub proof fn law_exclusion_is_seen(
    ranges: Seq<RangeValU64>,
    size: nat,
    start: u64,
    end: u64,
    key: u64,
)
    requires
        ordered(ranges),
        ranges.len() > 0,
        can_exclude(ranges, start, end),
    ensures
        start <= key < end ==> lookup(after_exclusion(ranges, size, start, end), key) is Err,
        key >= end ==> lookup(after_exclusion(ranges, size, start, end), key) == Ok::<
            u64,
            RangeMapError,
        >(ranges.last().value.saturating_add((end - start) as u64)),
{
    lemma_exclusion_keeps_order(ranges, size, start, end);
    let after = after_exclusion(ranges, size, start, end);
    let last = after.len() - 1;
    assert(after[last].start == end);
    if key >= end {
        lemma_holder_is_unique(after, last, key);
    } else if start <= key {
        assert forall|i: int| !holds(after, i, key) by {
            if 0 <= i < last {
                if ranges.last().start == start {
                    assert(after[i] == ranges[i]);
                    assert(ranges[i].end < ranges[ranges.len() - 1].start);
                } else if i < last - 1 {
                    assert(after[i].end < after[last - 1].start);
                    assert(after[last - 1].start <= after[last - 1].end);
                    assert(after[last - 1].end == start - 1);
                } else {
                    assert(after[last - 1].end == start - 1);
                }
            }
        }
    }
}

/// A number before an excluded interval keeps its offset, as long as its range is remembered.
pub proof fn law_exclusion_keeps_older_offsets(
    ranges: Seq<RangeValU64>,
    size: nat,
    start: u64,
    end: u64,
    key: u64,
    i: int,
)
    requires
        ordered(ranges),
        size >= 1,
        can_exclude(ranges, start, end),
        key < start,
        holds(ranges, i, key),
        ranges.last().start == start || i >= ranges.len() - size,
    ensures
        lookup(after_exclusion(ranges, size, start, end), key) == lookup(ranges, key),
{
    let n = ranges.len();
    let after = after_exclusion(ranges, size, start, end);
    lemma_exclusion_keeps_order(ranges, size, start, end);
    lemma_holder_is_unique(ranges, i, key);
    if ranges.last().start == start {
        assert(holds(after, i, key));
        lemma_holder_is_unique(after, i, key);
    } else {
        let dropped: int = if n + 1 > size + 1 { n - size } else { 0 };
        assert(after[i - dropped].start == ranges[i].start);
        assert(after[i - dropped].value == ranges[i].value);
        assert(i == n - 1 ==> after[i - dropped].end == start - 1);
        assert(i < n - 1 ==> after[i - dropped].end == ranges[i].end);
        assert(holds(after, i - dropped, key));
        lemma_holder_is_unique(after, i - dropped, key);
    }
}

/// An interval can be excluded exactly where it is not empty or reversed, and does not begin before
/// the open range.
pub proof fn law_intervals_can_be_excluded(ranges: Seq<RangeValU64>, start: u64, end: u64)
    requires
        ranges.len() > 0,
    ensures
        can_exclude(ranges, start, end) <==> start < end && ranges.last().start <= start,
{
}

/// A key of the open range has its offset, one before every range is too old, and one between two
/// ranges was excluded.
pub proof fn law_keys_are_looked_up(ranges: Seq<RangeValU64>, key: u64, i: int)
    requires
        ordered(ranges),
        ranges.len() > 0,
        0 <= i < ranges.len() - 1,
    ensures
        key >= ranges.last().start ==> lookup(ranges, key) == Ok::<u64, RangeMapError>(
            ranges.last().value,
        ),
        key < ranges[0].start ==> lookup(ranges, key) == Err::<u64, RangeMapError>(
            RangeMapError::KeyTooOld,
        ),
        ranges[i].start <= key <= ranges[i].end ==> lookup(ranges, key) == Ok::<
            u64,
            RangeMapError,
        >(ranges[i].value),
        ranges[i].end < key < ranges[i + 1].start ==> lookup(ranges, key) == Err::<
            u64,
            RangeMapError,
        >(RangeMapError::KeyExcluded),
{
    let last: int = ranges.len() - 1;
    assert(ranges[0].end + 1 < ranges[last].start);
    if key >= ranges.last().start {
        assert(holds(ranges, last, key));
        lemma_holder_is_unique(ranges, last, key);
    }
    if ranges[i].start <= key <= ranges[i].end {
        assert(holds(ranges, i, key));
        lemma_holder_is_unique(ranges, i, key);
    }
    if key < ranges[0].start {
        assert forall|j: int| !holds(ranges, j, key) by {
            if holds(ranges, j, key) && j > 0 {
                assert(ranges[0].end + 1 < ranges[j].start);
                assert(ranges[0].start <= ranges[0].end);
            }
        }
    }
    if ranges[i].end < key < ranges[i + 1].start {
        assert(ranges[i].start <= ranges[i].end);
        if i > 0 {
            assert(ranges[0].end + 1 < ranges[i].start);
            assert(ranges[0].start <= ranges[0].end);
        }
        assert forall|j: int| !holds(ranges, j, key) by {
            if holds(ranges, j, key) {
                if j < i {
                    assert(ranges[j].end + 1 < ranges[i].start);
                } else if j > i + 1 {
                    assert(ranges[i + 1].end + 1 < ranges[j].start);
                    assert(ranges[i + 1].start <= ranges[i + 1].end);
                }
            }
        }
    }
}

} // verus!
