//! Which packets are missing, and how often they have been asked for.
use std::collections::BTreeMap;
use vstd::prelude::*;

verus! {

/// Keeps the packets that are missing.
pub struct NackTrackerLite {
    pub highest_ext_seq: Option<u64>,
    pub missing: BTreeMap<u16, usize>,
    pub max_retries: usize,
}

/// The contents of a [`NackTrackerLite`]: how often each missing packet has been asked for.
#[verifier::ext_equal]
pub struct TrackerView {
    pub highest: Option<u64>,
    pub missing: Map<u16, usize>,
    pub max_retries: usize,
}

/// The number that `seq` stands for next to `last`: at most half a turn away.
pub open spec fn extended(last: u64, seq: u16) -> int {
    let low = last as int % 0x1_0000;
    let near = last - low + seq;
    if low - seq > 0x8000 {
        near + 0x1_0000
    } else if seq - low > 0x8000 {
        if near < 0x1_0000 {
            0
        } else {
            near - 0x1_0000
        }
    } else {
        near
    }
}

/// The packet with the number `seq` lies between `last` and `next`.
pub open spec fn is_skipped(last: u64, next: int, seq: u16) -> bool {
    0 < (seq - last) % 0x1_0000 < next - last
}

impl TrackerView {
    /// The packets that are missing once `seq` has come.
    pub open spec fn missing_after(self, seq: u16) -> Map<u16, usize> {
        match self.highest {
            None => self.missing,
            Some(last) => Map::new(
                |other: u16|
                    other != seq && (self.missing.contains_key(other) || is_skipped(
                        last,
                        extended(last, seq),
                        other,
                    )),
                |other: u16|
                    if self.missing.contains_key(other) {
                        self.missing[other]
                    } else {
                        0
                    },
            ),
        }
    }

    /// The tracker after a packet.
    pub open spec fn after(self, seq: u16) -> Self {
        TrackerView {
            highest: match self.highest {
                None => Some(seq as u64),
                Some(last) => if extended(last, seq) > last {
                    Some(extended(last, seq) as u64)
                } else {
                    Some(last)
                },
            },
            missing: self.missing_after(seq),
            ..self
        }
    }

    /// The packet is to be asked for.
    pub open spec fn is_asked_for(self, seq: u16) -> bool {
        self.missing.contains_key(seq) && self.missing[seq] < self.max_retries
    }

    /// The tracker once every packet that is to be asked for has been asked for: one that has
    /// been asked for often enough is given up.
    pub open spec fn after_tick(self) -> Self {
        TrackerView {
            missing: Map::new(
                |seq: u16|
                    self.missing.contains_key(seq) && self.missing[seq] + 1 < self.max_retries,
                |seq: u16| (self.missing[seq] + 1) as usize,
            ),
            ..self
        }
    }

    /// The tracker after some rounds.
    pub open spec fn after_ticks(self, rounds: nat) -> Self
        decreases rounds,
    {
        if rounds == 0 {
            self
        } else {
            self.after_ticks((rounds - 1) as nat).after_tick()
        }
    }
}

impl View for NackTrackerLite {
    type V = TrackerView;

    open spec fn view(&self) -> TrackerView {
        TrackerView {
            highest: self.highest_ext_seq,
            missing: self.missing@,
            max_retries: self.max_retries,
        }
    }
}

/// The numbers are in ascending order.
pub open spec fn ascending(numbers: Seq<u16>) -> bool {
    forall|i: int, j: int| 0 <= i < j < numbers.len() ==> numbers[i] < numbers[j]
}

impl NackTrackerLite {
    /// A tracker that asks for a packet `max_retries` times.
    pub fn new(max_retries: usize) -> (tracker: Self)
        ensures
            tracker@ == (TrackerView { highest: None, missing: Map::empty(), max_retries }),
    {
        NackTrackerLite { highest_ext_seq: None, missing: BTreeMap::new(), max_retries }
    }

    /// The number that `seq` stands for next to `last_ext`.
    pub fn extend_sequence(last_ext: u64, seq: u16) -> (ext: u64)
        requires
            last_ext <= u64::MAX - 0x1_0000,
        ensures
            ext == extended(last_ext, seq),
    {
        let last_low: u16 = (last_ext % 0x1_0000) as u16;
        let near: u64 = last_ext - last_low as u64 + seq as u64;
        if seq < last_low && last_low - seq > 0x8000 {
            near + 0x1_0000
        } else if seq > last_low && seq - last_low > 0x8000 {
            near.saturating_sub(0x1_0000)
        } else {
            near
        }
    }

    /// A packet has come: those that it skips are missing.
    pub fn on_packet(&mut self, seq: u16)
        requires
            old(self).highest_ext_seq matches Some(last) ==> last <= u64::MAX - 0x1_0000,
        ensures
            final(self)@ == old(self)@.after(seq),
    {
        broadcast use vstd::std_specs::btree::group_btree_axioms;

        let last: u64 = match self.highest_ext_seq {
            None => {
                self.highest_ext_seq = Some(seq as u64);
                return;
            },
            Some(last) => last,
        };
        let ext: u64 = NackTrackerLite::extend_sequence(last, seq);
        let ghost before = self.missing@;
        if ext > last {
            let mut missing_ext: u64 = last + 1;
            while missing_ext < ext
                invariant
                    last < missing_ext <= ext,
                    ext - last <= 0x8000,
                    self.highest_ext_seq == old(self).highest_ext_seq,
                    self.max_retries == old(self).max_retries,
                    forall|other: u16| #[trigger]
                        self.missing@.contains_key(other) == (before.contains_key(other)
                            || is_skipped(last, missing_ext as int, other)),
                    forall|other: u16|
                        self.missing@.contains_key(other) ==> #[trigger] self.missing@[other]
                            == if before.contains_key(other) {
                            before[other]
                        } else {
                            0
                        },
                decreases ext - missing_ext,
            {
                let number: u16 = (missing_ext % 0x1_0000) as u16;
                proof {
                    lemma_next_is_skipped(last, missing_ext);
                }
                if !self.missing.contains_key(&number) {
                    self.missing.insert(number, 0);
                }
                missing_ext += 1;
            }
            self.highest_ext_seq = Some(ext);
        }
        self.missing.remove(&seq);
        assert(self@.missing =~= old(self)@.missing_after(seq));
    }

    /// Asks for the packets that are missing, in the order of their numbers.
    pub fn tick(&mut self) -> (asked: Vec<u16>)
        ensures
            ascending(asked@),
            forall|seq: u16| #[trigger] asked@.contains(seq) <==> old(self)@.is_asked_for(seq),
            final(self)@ == old(self)@.after_tick(),
    {
        broadcast use vstd::std_specs::btree::group_btree_axioms;

        let ghost before = self.missing@;
        let keys: Vec<u16> = self.missing_numbers();
        let mut asked: Vec<u16> = Vec::new();
        let mut i: usize = 0;
        while i < keys.len()
            invariant
                i <= keys@.len(),
                ascending(keys@),
                forall|seq: u16| #[trigger] keys@.contains(seq) <==> before.contains_key(seq),
                before == old(self)@.missing,
                self.highest_ext_seq == old(self).highest_ext_seq,
                self.max_retries == old(self).max_retries,
                ascending(asked@),
                forall|j: int, k: int| 0 <= j < asked@.len() && i <= k < keys@.len() ==> asked@[j]
                    < keys@[k],
                forall|seq: u16| #[trigger]
                    asked@.contains(seq) <==> keys@.take(i as int).contains(seq) && before[seq]
                        < self.max_retries,
                forall|seq: u16| #[trigger]
                    self.missing@.contains_key(seq) <==> before.contains_key(seq) && (keys@.take(
                        i as int,
                    ).contains(seq) ==> before[seq] + 1 < self.max_retries),
                forall|seq: u16|
                    self.missing@.contains_key(seq) ==> #[trigger] self.missing@[seq]
                        == if keys@.take(i as int).contains(seq) {
                        before[seq] + 1
                    } else {
                        before[seq] as int
                    },
            decreases keys.len() - i,
        {
            let seq: u16 = keys[i];
            let ghost done = keys@.take(i as int);
            let ghost asked_before = asked@;
            proof {
                assert(keys@.contains(seq));
                assert(keys@.take(i + 1) =~= done.push(seq));
                assert forall|other: u16| #[trigger]
                    keys@.take(i + 1).contains(other) <==> done.contains(other) || other
                        == seq by {
                    lemma_push_contains(done, seq, other);
                }
                assert(!done.contains(seq));
            }
            let mut retries: usize = 0;
            if let Some(count) = self.missing.get(&seq) {
                retries = *count;
            }
            assert(retries == before[seq]);
            if retries < self.max_retries {
                asked.push(seq);
                proof {
                    assert forall|other: u16| #[trigger]
                        asked@.contains(other) <==> asked_before.contains(other) || other
                            == seq by {
                        lemma_push_contains(asked_before, seq, other);
                    }
                }
            }
            if retries < self.max_retries && retries + 1 < self.max_retries {
                self.missing.insert(seq, retries + 1);
            } else {
                self.missing.remove(&seq);
            }
            i += 1;
        }
        assert(keys@.take(i as int) =~= keys@);
        assert(self@.missing =~= old(self)@.after_tick().missing);
        asked
    }

    /// The numbers of the packets that are missing, in their order.
    fn missing_numbers(&self) -> (numbers: Vec<u16>)
        ensures
            ascending(numbers@),
            forall|seq: u16| #[trigger] numbers@.contains(seq) <==> self.missing@.contains_key(seq),
    {
        broadcast use vstd::std_specs::btree::group_btree_axioms;

        broadcast use vstd::laws_cmp::group_laws_cmp;

        let mut numbers: Vec<u16> = Vec::new();
        let entries = self.missing.iter();
        let ghost all = vstd::std_specs::iter::IteratorSpec::remaining(&entries);
        let ghost in_order = all.map_values(|entry: (&u16, &usize)| *entry.0);
        assert(vstd::std_specs::btree::increasing_seq(in_order));
        for entry in iter: entries
            invariant
                iter.seq() == all,
                numbers@.len() == iter.index(),
                forall|i: int| 0 <= i < numbers@.len() ==> numbers@[i] == *all[i].0,
        {
            numbers.push(*entry.0);
        }
        proof {
            assert(numbers@ =~= in_order);
            assert forall|i: int, j: int| 0 <= i < j < numbers@.len() implies numbers@[i]
                < numbers@[j] by {
                assert(vstd::std_specs::cmp::OrdSpec::cmp_spec(&in_order[i], &in_order[j]) is Less);
            }
            assert forall|seq: u16| #[trigger] numbers@.contains(seq)
                <==> self.missing@.contains_key(seq) by {
                if numbers@.contains(seq) {
                    let i = choose|i: int| 0 <= i < numbers@.len() && numbers@[i] == seq;
                    assert(self.missing@.contains_key(*all[i].0));
                }
                if self.missing@.contains_key(seq) {
                    let entry = (&seq, &self.missing@[seq]);
                    assert(all.contains(entry));
                    let i = choose|i: int| 0 <= i < all.len() && all[i] == entry;
                    assert(numbers@[i] == seq);
                }
            }
        }
        numbers
    }
}

proof fn lemma_push_contains(list: Seq<u16>, item: u16, other: u16)
    ensures
        list.push(item).contains(other) <==> list.contains(other) || other == item,
{
    if list.contains(other) {
        let i = choose|i: int| 0 <= i < list.len() && list[i] == other;
        assert(list.push(item)[i] == other);
    }
    assert(list.push(item)[list.len() as int] == item);
}

proof fn lemma_next_is_skipped(last: u64, next: u64)
    requires
        last < next,
        next - last < 0x8000,
    ensures
        forall|other: u16| #[trigger]
            is_skipped(last, next + 1, other) <==> is_skipped(last, next as int, other) || other
                == next as int % 0x1_0000,
{
}

/// A packet that is missing is asked for as often as it can be, once a round, and then given up.
pub proof fn law_missing_packet_is_asked_for(tracker: TrackerView, seq: u16, rounds: nat)
    requires
        tracker.missing.contains_key(seq),
        tracker.missing[seq] < tracker.max_retries,
    ensures
        tracker.after_ticks(rounds).is_asked_for(seq) <==> tracker.missing[seq] + rounds
            < tracker.max_retries,
    decreases rounds,
{
    lemma_rounds(tracker, seq, rounds);
}

proof fn lemma_rounds(tracker: TrackerView, seq: u16, rounds: nat)
    requires
        tracker.missing.contains_key(seq),
        tracker.missing[seq] < tracker.max_retries,
    ensures
        ({
            let after = tracker.after_ticks(rounds);
            &&& after.max_retries == tracker.max_retries
            &&& after.missing.contains_key(seq) <==> tracker.missing[seq] + rounds
                < tracker.max_retries
            &&& after.missing.contains_key(seq) ==> after.missing[seq] == tracker.missing[seq]
                + rounds
        }),
    decreases rounds,
{
    if rounds > 0 {
        lemma_rounds(tracker, seq, (rounds - 1) as nat);
    }
}

/// A packet that has come is not missing, and those that it skips are.
pub proof fn law_skipped_packets_are_missing(tracker: TrackerView, seq: u16, other: u16)
    requires
        tracker.highest is Some,
    ensures
        !tracker.after(seq).missing.contains_key(seq),
        other != seq && is_skipped(
            tracker.highest->0,
            extended(tracker.highest->0, seq),
            other,
        ) ==> tracker.after(seq).missing.contains_key(other),
{
}

/// A number that is less than half a turn from the last one is given back by its low bits.
pub proof fn law_near_number_is_given_back(last: u64, number: u64)
    requires
        -0x8000 < number - last < 0x8000,
    ensures
        extended(last, (number % 0x1_0000) as u16) == number,
{
    let turns: int = number / 0x1_0000 - last / 0x1_0000;
    let base: int = last - last % 0x1_0000;
    assert(number == base + 0x1_0000 * turns + number % 0x1_0000);
    assert(turns == -1 || turns == 0 || turns == 1);
}

/// A newer packet becomes the newest, and each packet between it and the one that was the newest is
/// missing, not asked for yet unless it was missing before; other packets are missing as before.
pub proof fn law_newer_packet_leaves_a_gap(tracker: TrackerView, number: u64, other: u16)
    requires
        tracker.highest matches Some(last) && last < number < last + 0x8000,
    ensures
        ({
            let last = tracker.highest->Some_0;
            let seq = (number % 0x1_0000) as u16;
            let after = tracker.after(seq);
            let between = 0 < (other - last) % 0x1_0000 < number - last;
            &&& after.highest == Some(number)
            &&& !after.missing.contains_key(seq)
            &&& other != seq && between ==> after.missing.contains_key(other)
            &&& other != seq && !between ==> after.missing.contains_key(other)
                == tracker.missing.contains_key(other)
            &&& after.missing.contains_key(other) && tracker.missing.contains_key(other)
                ==> after.missing[other] == tracker.missing[other]
            &&& after.missing.contains_key(other) && !tracker.missing.contains_key(other)
                ==> after.missing[other] == 0
            &&& after.max_retries == tracker.max_retries
        }),
{
    law_near_number_is_given_back(tracker.highest->Some_0, number);
}

/// A late packet is no longer missing, and changes nothing else; the first packet is the newest,
/// and misses none.
pub proof fn law_late_packet_is_no_longer_missing(tracker: TrackerView, number: u64, other: u16)
    requires
        tracker.highest matches Some(last) ==> number <= last < number + 0x8000,
        tracker.highest is None ==> number < 0x1_0000,
    ensures
        ({
            let seq = (number % 0x1_0000) as u16;
            let after = tracker.after(seq);
            &&& tracker.highest is Some ==> after.highest == tracker.highest
                && !after.missing.contains_key(seq)
            &&& tracker.highest is None ==> after.highest == Some(number) && after.missing
                == tracker.missing
            &&& other != seq ==> after.missing.contains_key(other) == tracker.missing.contains_key(
                other,
            )
            &&& other != seq && tracker.missing.contains_key(other) ==> after.missing[other]
                == tracker.missing[other]
        }),
{
    if tracker.highest is Some {
        law_near_number_is_given_back(tracker.highest->Some_0, number);
    }
}

/// A round asks for every missing packet that was not asked for too often, counts it, and gives up
/// the one that was asked for as often as it may be.
pub proof fn law_round_asks_and_counts(tracker: TrackerView, seq: u16)
    requires
        tracker.missing.contains_key(seq),
        tracker.missing[seq] < usize::MAX,
    ensures
        tracker.is_asked_for(seq) <==> tracker.missing[seq] < tracker.max_retries,
        tracker.missing[seq] + 1 < tracker.max_retries ==> tracker.after_tick().missing.contains_key(
            seq,
        ) && tracker.after_tick().missing[seq] == tracker.missing[seq] + 1,
        tracker.missing[seq] + 1 >= tracker.max_retries
            ==> !tracker.after_tick().missing.contains_key(seq),
        tracker.after_tick().highest == tracker.highest,
        tracker.after_tick().max_retries == tracker.max_retries,
        forall|other: u16|
            !tracker.missing.contains_key(other)
                ==> !#[trigger] tracker.after_tick().missing.contains_key(other),
{
}

} // verus!
