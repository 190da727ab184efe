//! Which of the newest frames were forwarded.
//!
//! Two bits are kept for each frame of a window. Whoever needs the fate of a frame that is not
//! decided yet can wait for it.
use crate::text::{push_decimal, push_text, string_of};
use vstd::prelude::*;

verus! {

/// What became of a frame.
#[derive(Debug, Clone, Copy, PartialEq, Eq, Structural)]
pub enum SelectorDecision {
    Missing,
    Dropped,
    Forwarded,
    Unknown,
}

/// Someone waits for the decision on `entity`.
#[derive(Debug, Clone, Copy, PartialEq, Eq, Structural)]
pub struct Expectation {
    pub entity: u64,
    pub waiter: usize,
}

/// A waiter is told the decision on `entity`.
#[derive(Debug, Clone, Copy, PartialEq, Eq, Structural)]
pub struct Notice {
    pub waiter: usize,
    pub entity: u64,
    pub decision: SelectorDecision,
}

/// A frame is older than the window.
#[derive(Debug, Clone, Copy, PartialEq, Eq, Structural)]
pub struct EntityTooOld {
    pub oldest: u64,
    pub asking: u64,
}

impl EntityTooOld {
    /// What is said of the frame.
    pub open spec fn text(self) -> Seq<char> {
        "too old, oldest: "@ + crate::text::decimal(self.oldest as nat) + ", asking: "@
            + crate::text::decimal(self.asking as nat)
    }

    /// What is said of the frame.
    pub fn to_text(&self) -> (text: String)
        ensures
            text@ == self.text(),
    {
        let mut chars: Vec<char> = Vec::new();
        push_text(&mut chars, "too old, oldest: ");
        push_decimal(&mut chars, self.oldest);
        push_text(&mut chars, ", asking: ");
        push_decimal(&mut chars, self.asking);
        assert(chars@ =~= self.text());
        string_of(chars.as_slice())
    }
}

/// The decisions on the frames of a window.
#[derive(Debug, Clone)]
pub struct SelectorDecisionCache {
    pub initialized: bool,
    pub base: u64,
    pub last: u64,
    pub masks: Vec<u64>,
    pub num_entries: u64,
    pub num_nack_entries: u64,
    pub expectations: Vec<Expectation>,
}

/// The two bits of a decision.
pub open spec fn code_of(decision: SelectorDecision) -> u64 {
    match decision {
        SelectorDecision::Missing => 0,
        SelectorDecision::Dropped => 1,
        SelectorDecision::Forwarded => 2,
        SelectorDecision::Unknown => 3,
    }
}

/// The decision that two bits stand for.
pub open spec fn decision_of(code: u64) -> SelectorDecision {
    if code == 0 {
        SelectorDecision::Missing
    } else if code == 1 {
        SelectorDecision::Dropped
    } else if code == 2 {
        SelectorDecision::Forwarded
    } else {
        SelectorDecision::Unknown
    }
}

/// The decision that the bits from `bitpos` on of a mask stand for.
pub open spec fn decision_in(mask: u64, bitpos: u64) -> SelectorDecision {
    decision_of((mask >> bitpos) & 3)
}

/// The mask with the bits from `bitpos` on replaced.
pub open spec fn mask_with(mask: u64, bitpos: u64, code: u64) -> u64 {
    (mask & !(3u64 << bitpos)) | (code << bitpos)
}

proof fn lemma_mask_with(mask: u64, bitpos: u64, other: u64, code: u64)
    by (bit_vector)
    requires
        bitpos < 64,
        bitpos % 2 == 0,
        other < 64,
        other % 2 == 0,
        code < 4,
    ensures
        (mask_with(mask, bitpos, code) >> bitpos) & 3 == code,
        other != bitpos ==> (mask_with(mask, bitpos, code) >> other) & 3 == (mask >> other) & 3,
{
}

/// The contents of a [`SelectorDecisionCache`]: the decisions by place, and who waits, in order.
#[verifier::ext_equal]
pub struct DecisionsView {
    pub initialized: bool,
    pub base: u64,
    pub last: u64,
    pub entries: Seq<SelectorDecision>,
    pub num_nack_entries: u64,
    pub expectations: Seq<Expectation>,
}

/// The notices that those who wait for `entity` get.
pub open spec fn notices(
    expectations: Seq<Expectation>,
    chosen: spec_fn(Expectation) -> bool,
    decision: SelectorDecision,
) -> Seq<Notice> {
    let fired = expectations.filter(chosen);
    Seq::new(
        fired.len(),
        |i: int| Notice { waiter: fired[i].waiter, entity: fired[i].entity, decision },
    )
}

impl DecisionsView {
    /// The place of a frame.
    pub open spec fn slot(self, entity: int) -> int {
        (entity - self.base) % self.entries.len() as int
    }

    /// The decision in the place of a frame.
    pub open spec fn at(self, entity: int) -> SelectorDecision {
        self.entries[self.slot(entity)]
    }

    /// The state after a frame got a decision. One that settles it is told to those who wait.
    pub open spec fn with_decision(self, entity: int, decision: SelectorDecision) -> Self {
        DecisionsView {
            entries: self.entries.update(self.slot(entity), decision),
            expectations: if decision == SelectorDecision::Unknown {
                self.expectations
            } else {
                self.expectations.filter(|e: Expectation| e.entity != entity)
            },
            ..self
        }
    }

    /// What those who wait are told when a frame gets a decision.
    pub open spec fn told(self, entity: int, decision: SelectorDecision) -> Seq<Notice> {
        if decision == SelectorDecision::Unknown {
            Seq::empty()
        } else {
            notices(self.expectations, |e: Expectation| e.entity == entity, decision)
        }
    }

    /// The state after the frames from `low`, inclusive, to `high`, exclusive, became undecided.
    pub open spec fn undecided(self, low: int, high: int) -> Self
        decreases high - low,
    {
        if high <= low {
            self
        } else {
            self.undecided(low, high - 1).with_decision(high - 1, SelectorDecision::Unknown)
        }
    }

    /// The state after the undecided frames from `low`, inclusive, to `high`, exclusive, were
    /// given up.
    pub open spec fn given_up(self, low: int, high: int) -> Self
        decreases high - low,
    {
        if high <= low {
            self
        } else {
            let before = self.given_up(low, high - 1);
            if before.at(high - 1) == SelectorDecision::Unknown {
                before.with_decision(high - 1, SelectorDecision::Missing)
            } else {
                before
            }
        }
    }

    /// What those who wait are told when undecided frames are given up.
    pub open spec fn told_given_up(self, low: int, high: int) -> Seq<Notice>
        decreases high - low,
    {
        if high <= low {
            Seq::empty()
        } else {
            let before = self.given_up(low, high - 1);
            if before.at(high - 1) == SelectorDecision::Unknown {
                self.told_given_up(low, high - 1) + before.told(
                    high - 1,
                    SelectorDecision::Missing,
                )
            } else {
                self.told_given_up(low, high - 1)
            }
        }
    }

    /// The first frame that may still be asked for again when `newest` is the newest one.
    pub open spec fn nack_start(self, newest: int) -> int {
        if newest > self.num_nack_entries + self.base {
            newest - self.num_nack_entries
        } else {
            self.base as int
        }
    }

    /// The wait for this frame is over without a decision.
    pub open spec fn expired(self, e: Expectation) -> bool {
        e.entity + self.entries.len() < self.last
    }

    /// The state after the waits that are over were dropped.
    pub open spec fn without_expired(self) -> Self {
        DecisionsView {
            expectations: self.expectations.filter(|e: Expectation| !self.expired(e)),
            ..self
        }
    }

    /// The state in which the first frame is decided.
    pub open spec fn started(self, entity: u64) -> Self {
        DecisionsView { initialized: true, base: entity, last: entity, ..self }
    }

    /// The state before a frame ahead of every other is decided: the frames between are undecided,
    /// and those that are too old to be asked for again are given up.
    pub open spec fn opened(self, entity: u64) -> Self {
        self.undecided(self.last + 1, entity as int).given_up(
            self.nack_start(self.last as int),
            self.nack_start(entity as int),
        )
    }

    /// The state after a frame was decided.
    pub open spec fn added(self, entity: u64, decision: SelectorDecision) -> Self {
        if !self.initialized {
            self.started(entity).with_decision(entity as int, decision)
        } else if entity <= self.base {
            self
        } else if entity <= self.last {
            self.with_decision(entity as int, decision)
        } else {
            let decided = self.opened(entity).with_decision(entity as int, decision);
            DecisionsView { last: entity, ..decided }.without_expired()
        }
    }

    /// What those who wait are told when a frame is decided.
    pub open spec fn told_added(self, entity: u64, decision: SelectorDecision) -> Seq<Notice> {
        if !self.initialized {
            self.started(entity).told(entity as int, decision)
        } else if entity <= self.base {
            Seq::empty()
        } else if entity <= self.last {
            self.told(entity as int, decision)
        } else {
            let undecided = self.undecided(self.last + 1, entity as int);
            let decided = self.opened(entity).with_decision(entity as int, decision);
            let moved = DecisionsView { last: entity, ..decided };
            undecided.told_given_up(
                self.nack_start(self.last as int),
                self.nack_start(entity as int),
            ) + self.opened(entity).told(entity as int, decision) + notices(
                decided.expectations,
                |e: Expectation| moved.expired(e),
                SelectorDecision::Missing,
            )
        }
    }

    /// What became of a frame, as far as the window reaches.
    pub open spec fn decision(self, entity: u64) -> Result<SelectorDecision, EntityTooOld> {
        if !self.initialized || entity < self.base {
            Ok(SelectorDecision::Missing)
        } else if entity > self.last {
            Ok(SelectorDecision::Unknown)
        } else if self.last - entity >= self.entries.len() {
            Err(
                EntityTooOld {
                    oldest: (self.last - self.entries.len() + 1) as u64,
                    asking: entity,
                },
            )
        } else {
            Ok(self.at(entity as int))
        }
    }

    /// The decision on a frame can be waited for.
    pub open spec fn can_expect(self, entity: u64) -> bool {
        self.initialized && entity >= self.base && self.last - entity < self.entries.len()
    }
}

impl View for SelectorDecisionCache {
    type V = DecisionsView;

    open spec fn view(&self) -> DecisionsView {
        DecisionsView {
            initialized: self.initialized,
            base: self.base,
            last: self.last,
            entries: Seq::new(
                (32 * self.masks@.len()) as nat,
                |o: int| decision_in(self.masks@[o / 32], (2 * (o % 32)) as u64),
            ),
            num_nack_entries: self.num_nack_entries,
            expectations: self.expectations@,
        }
    }
}

fn retain_not_entity(expectations: &Vec<Expectation>, entity: u64) -> (kept: Vec<Expectation>)
    ensures
        kept@ == expectations@.filter(|e: Expectation| e.entity != entity),
{
    let ghost keep = |e: Expectation| e.entity != entity;
    let mut kept: Vec<Expectation> = Vec::new();
    let mut i: usize = 0;
    while i < expectations.len()
        invariant
            i <= expectations@.len(),
            keep == (|e: Expectation| e.entity != entity),
            kept@ == expectations@.take(i as int).filter(keep),
        decreases expectations.len() - i,
    {
        proof {
            reveal(Seq::filter);
            assert(expectations@.take(i + 1).drop_last() =~= expectations@.take(i as int));
        }
        if expectations[i].entity != entity {
            kept.push(expectations[i]);
        }
        i += 1;
    }
    assert(expectations@.take(i as int) =~= expectations@);
    kept
}

fn append_notices(
    told: &mut Vec<Notice>,
    expectations: &Vec<Expectation>,
    entity: u64,
    decision: SelectorDecision,
)
    ensures
        final(told)@ == old(told)@ + notices(
            expectations@,
            |e: Expectation| e.entity == entity,
            decision,
        ),
{
    let ghost chosen = |e: Expectation| e.entity == entity;
    let ghost before = told@;
    let mut i: usize = 0;
    assert(told@ =~= before + notices(expectations@.take(0), chosen, decision)) by {
        reveal(Seq::filter);
    }
    while i < expectations.len()
        invariant
            i <= expectations@.len(),
            chosen == (|e: Expectation| e.entity == entity),
            told@ == before + notices(expectations@.take(i as int), chosen, decision),
        decreases expectations.len() - i,
    {
        proof {
            reveal(Seq::filter);
            assert(expectations@.take(i + 1).drop_last() =~= expectations@.take(i as int));
        }
        let e: Expectation = expectations[i];
        if e.entity == entity {
            told.push(Notice { waiter: e.waiter, entity: e.entity, decision });
        }
        assert(told@ =~= before + notices(expectations@.take(i + 1), chosen, decision));
        i += 1;
    }
    assert(expectations@.take(i as int) =~= expectations@);
}

impl SelectorDecisionCache {
    /// The masks are as long as the window, and nobody waits before the first frame.
    pub open spec fn wf(self) -> bool {
        &&& self.num_entries == 32 * self.masks@.len()
        &&& self.num_nack_entries >= 1
        &&& self.base <= self.last
        &&& self.initialized ==> self.num_entries > 0
        &&& !self.initialized ==> self.expectations@.len() == 0
    }

    /// A window of at least `max_num_elements` frames. A frame that is `num_nack_entries` frames
    /// old is given up.
    pub fn new(max_num_elements: u64, num_nack_entries: u64) -> (cache: Self)
        requires
            max_num_elements * 2 <= usize::MAX,
        ensures
            cache.wf(),
            cache.num_entries == (max_num_elements * 2 + 63) / 64 * 32,
            cache@ == (DecisionsView {
                initialized: false,
                base: 0,
                last: 0,
                entries: Seq::new(cache.num_entries as nat, |i: int| SelectorDecision::Missing),
                num_nack_entries: if num_nack_entries < 1 { 1 } else { num_nack_entries },
                expectations: Seq::empty(),
            }),
    {
        let doubled: u64 = max_num_elements * 2;
        let num_elements: u64 = doubled / 64 + if doubled % 64 > 0 {
            1
        } else {
            0
        };
        let mut masks: Vec<u64> = Vec::new();
        let mut i: u64 = 0;
        while i < num_elements
            invariant
                i <= num_elements,
                masks@.len() == i,
                forall|j: int| 0 <= j < i ==> masks@[j] == 0,
            decreases num_elements - i,
        {
            masks.push(0);
            i += 1;
        }
        let cache = SelectorDecisionCache {
            initialized: false,
            base: 0,
            last: 0,
            masks,
            num_entries: num_elements * 32,
            num_nack_entries: if num_nack_entries < 1 {
                1
            } else {
                num_nack_entries
            },
            expectations: Vec::new(),
        };
        proof {
            assert forall|o: int| 0 <= o < cache.num_entries implies #[trigger] cache@.entries[o]
                == SelectorDecision::Missing by {
                let bitpos = (2 * (o % 32)) as u64;
                assert((0u64 >> bitpos) & 3 == 0) by (bit_vector);
            }
            assert(cache@.entries =~= Seq::new(
                cache.num_entries as nat,
                |i: int| SelectorDecision::Missing,
            ));
        }
        cache
    }

    /// The frame was forwarded. Returns what those who wait are to be told.
    pub fn add_forwarded(&mut self, entity: u64) -> (told: Vec<Notice>)
        requires
            old(self).wf(),
            old(self).num_entries > 0,
            old(self).initialized && entity > old(self).last ==> old(self).num_nack_entries
                + old(self).base <= u64::MAX,
        ensures
            final(self).wf(),
            final(self)@ == old(self)@.added(entity, SelectorDecision::Forwarded),
            told@ == old(self)@.told_added(entity, SelectorDecision::Forwarded),
            final(self).num_entries == old(self).num_entries,
    {
        self.add_entity(entity, SelectorDecision::Forwarded)
    }

    /// The frame was dropped. Returns what those who wait are to be told.
    pub fn add_dropped(&mut self, entity: u64) -> (told: Vec<Notice>)
        requires
            old(self).wf(),
            old(self).num_entries > 0,
            old(self).initialized && entity > old(self).last ==> old(self).num_nack_entries
                + old(self).base <= u64::MAX,
        ensures
            final(self).wf(),
            final(self)@ == old(self)@.added(entity, SelectorDecision::Dropped),
            told@ == old(self)@.told_added(entity, SelectorDecision::Dropped),
            final(self).num_entries == old(self).num_entries,
    {
        self.add_entity(entity, SelectorDecision::Dropped)
    }

    /// What became of a frame. One that is older than the window is an error.
    pub fn get_decision(&self, entity: u64) -> (result: Result<SelectorDecision, String>)
        requires
            self.wf(),
        ensures
            match self@.decision(entity) {
                Ok(decision) => result == Ok::<SelectorDecision, String>(decision),
                Err(error) => result matches Err(text) && text@ == error.text(),
            },
    {
        if !self.initialized || entity < self.base {
            return Ok(SelectorDecision::Missing);
        }
        if entity > self.last {
            return Ok(SelectorDecision::Unknown);
        }
        let offset: u64 = self.last - entity;
        if offset >= self.num_entries {
            let error: EntityTooOld = EntityTooOld {
                oldest: self.last - self.num_entries + 1,
                asking: entity,
            };
            return Err(error.to_text());
        }
        Ok(self.get_entity(entity))
    }

    /// Has `waiter` told the decision on a frame. Not possible for a frame before the window.
    pub fn expect_decision(&mut self, entity: u64, waiter: usize) -> (accepted: bool)
        requires
            old(self).wf(),
        ensures
            final(self).wf(),
            final(self).num_entries == old(self).num_entries,
            accepted == old(self)@.can_expect(entity),
            final(self)@ == if accepted {
                DecisionsView {
                    expectations: old(self)@.expectations.push(Expectation { entity, waiter }),
                    ..old(self)@
                }
            } else {
                old(self)@
            },
    {
        if !self.initialized || entity < self.base {
            return false;
        }
        if entity < self.last {
            let offset: u64 = self.last - entity;
            if offset >= self.num_entries {
                return false;
            }
        }
        self.expectations.push(Expectation { entity, waiter });
        true
    }

    /// Takes the decision on a frame. Returns what those who wait are to be told.
    pub fn add_entity(&mut self, entity: u64, decision: SelectorDecision) -> (told: Vec<Notice>)
        requires
            old(self).wf(),
            old(self).num_entries > 0,
            old(self).initialized && entity > old(self).last ==> old(self).num_nack_entries
                + old(self).base <= u64::MAX,
        ensures
            final(self).wf(),
            final(self)@ == old(self)@.added(entity, decision),
            told@ == old(self)@.told_added(entity, decision),
            final(self).num_entries == old(self).num_entries,
    {
        let mut told: Vec<Notice> = Vec::new();
        let ghost before = self@;
        if !self.initialized {
            self.initialized = true;
            self.base = entity;
            self.last = entity;
            assert(self@.entries =~= before.entries);
            assert(self@ =~= before.started(entity));
            self.set_entity(entity, decision, &mut told);
            assert(told@ =~= before.told_added(entity, decision));
            return told;
        }
        if entity <= self.base {
            return told;
        }
        if entity <= self.last {
            self.set_entity(entity, decision, &mut told);
            assert(told@ =~= before.told_added(entity, decision));
            return told;
        }
        let missing_start: u64 = if self.last > self.num_nack_entries + self.base {
            self.last - self.num_nack_entries
        } else {
            self.base
        };
        let missing_end: u64 = if entity > self.num_nack_entries + self.base {
            entity - self.num_nack_entries
        } else {
            self.base
        };
        let mut e: u64 = self.last + 1;
        while e < entity
            invariant
                self.wf(),
                self.initialized,
                self.num_entries == old(self).num_entries,
                self.base == before.base,
                self.last == before.last,
                before.last < e <= entity,
                told@.len() == 0,
                self@ == before.undecided(before.last + 1, e as int),
            decreases entity - e,
        {
            self.set_entity(e, SelectorDecision::Unknown, &mut told);
            e += 1;
        }
        let ghost undecided = self@;
        let mut e: u64 = missing_start;
        while e < missing_end
            invariant
                self.wf(),
                self.initialized,
                self.num_entries == old(self).num_entries,
                self.base == undecided.base,
                self.last == undecided.last,
                missing_start >= undecided.base,
                e >= missing_start,
                e <= missing_end || e == missing_start,
                self@ == undecided.given_up(missing_start as int, e as int),
                told@ == undecided.told_given_up(missing_start as int, e as int),
            decreases missing_end - e,
        {
            self.set_entity_if_unknown(e, SelectorDecision::Missing, &mut told);
            e += 1;
        }
        proof {
            if missing_end <= missing_start {
                assert(undecided.given_up(missing_start as int, missing_end as int) == undecided);
                assert(e == missing_start);
            } else {
                assert(e == missing_end);
            }
            lemma_undecided_keeps_frame(before, before.last + 1, entity as int);
        }
        assert(self@ == before.opened(entity));
        self.set_entity(entity, decision, &mut told);
        let ghost decided = self@;
        self.last = entity;
        assert(self@.entries =~= decided.entries);
        self.drop_expired(&mut told);
        assert(self@ =~= before.added(entity, decision));
        assert(told@ =~= before.told_added(entity, decision));
        told
    }

    /// Drops the waits that are over.
    fn drop_expired(&mut self, told: &mut Vec<Notice>)
        requires
            old(self).wf(),
        ensures
            final(self).wf(),
            final(self).num_entries == old(self).num_entries,
            final(self)@ == old(self)@.without_expired(),
            final(told)@ == old(told)@ + notices(
                old(self)@.expectations,
                |e: Expectation| old(self)@.expired(e),
                SelectorDecision::Missing,
            ),
    {
        let ghost before = self@;
        let ghost gone = |e: Expectation| before.expired(e);
        let ghost stays = |e: Expectation| !before.expired(e);
        let ghost told_before = told@;
        let mut kept: Vec<Expectation> = Vec::new();
        let mut i: usize = 0;
        proof {
            reveal(Seq::filter);
            assert(told@ =~= told_before + notices(
                before.expectations.take(0),
                gone,
                SelectorDecision::Missing,
            ));
        }
        while i < self.expectations.len()
            invariant
                self.wf(),
                *self == *old(self),
                before == self@,
                i <= self.expectations@.len(),
                gone == (|e: Expectation| before.expired(e)),
                stays == (|e: Expectation| !before.expired(e)),
                kept@ == before.expectations.take(i as int).filter(stays),
                told@ == told_before + notices(
                    before.expectations.take(i as int),
                    gone,
                    SelectorDecision::Missing,
                ),
            decreases self.expectations.len() - i,
        {
            proof {
                reveal(Seq::filter);
                assert(before.expectations.take(i + 1).drop_last() =~= before.expectations.take(
                    i as int,
                ));
            }
            let e: Expectation = self.expectations[i];
            if e.entity.saturating_add(self.num_entries) < self.last {
                told.push(
                    Notice {
                        waiter: e.waiter,
                        entity: e.entity,
                        decision: SelectorDecision::Missing,
                    },
                );
            } else {
                kept.push(e);
            }
            assert(told@ =~= told_before + notices(
                before.expectations.take(i + 1),
                gone,
                SelectorDecision::Missing,
            ));
            i += 1;
        }
        assert(before.expectations.take(i as int) =~= before.expectations);
        self.expectations = kept;
        assert(self@.entries =~= before.entries);
        assert(self@ =~= before.without_expired());
    }

    /// Takes the decision on a frame if there is none.
    pub fn set_entity_if_unknown(
        &mut self,
        entity: u64,
        decision: SelectorDecision,
        told: &mut Vec<Notice>,
    )
        requires
            old(self).wf(),
            old(self).initialized,
            entity >= old(self).base,
        ensures
            final(self).wf(),
            final(self).num_entries == old(self).num_entries,
            final(self)@ == if old(self)@.at(entity as int) == SelectorDecision::Unknown {
                old(self)@.with_decision(entity as int, decision)
            } else {
                old(self)@
            },
            final(told)@ == if old(self)@.at(entity as int) == SelectorDecision::Unknown {
                old(told)@ + old(self)@.told(entity as int, decision)
            } else {
                old(told)@
            },
    {
        if self.get_entity(entity) == SelectorDecision::Unknown {
            self.set_entity(entity, decision, told);
        }
    }

    /// Takes the decision on a frame.
    pub fn set_entity(&mut self, entity: u64, decision: SelectorDecision, told: &mut Vec<Notice>)
        requires
            old(self).wf(),
            old(self).initialized || old(self).num_entries > 0,
            entity >= old(self).base,
        ensures
            old(self).initialized ==> final(self).wf(),
            final(self).num_entries == old(self).num_entries,
            final(self)@ == old(self)@.with_decision(entity as int, decision),
            final(told)@ == old(told)@ + old(self)@.told(entity as int, decision),
    {
        let ghost before = self@;
        let (index, bitpos) = self.get_pos(entity);
        let code: u64 = match decision {
            SelectorDecision::Missing => 0,
            SelectorDecision::Dropped => 1,
            SelectorDecision::Forwarded => 2,
            SelectorDecision::Unknown => 3,
        };
        let mask: u64 = self.masks[index];
        let shift: u64 = bitpos as u64;
        self.masks.set(index, (mask & !(3u64 << shift)) | (code << shift));
        proof {
            let slot = before.slot(entity as int);
            assert forall|o: int| 0 <= o < before.entries.len() implies #[trigger] self@.entries[o]
                == before.entries.update(slot, decision)[o] by {
                lemma_mask_with(mask, shift, (2 * (o % 32)) as u64, code);
            }
            assert(self@.entries =~= before.entries.update(slot, decision));
        }
        if decision != SelectorDecision::Unknown {
            append_notices(told, &self.expectations, entity, decision);
            self.expectations = retain_not_entity(&self.expectations, entity);
        } else {
            assert(told@ =~= old(told)@ + before.told(entity as int, decision));
        }
        proof {
            assert(self@.entries =~= before.entries.update(
                before.slot(entity as int),
                decision,
            ));
            assert(self@ =~= before.with_decision(entity as int, decision));
        }
    }

    /// The decision in the place of a frame.
    pub fn get_entity(&self, entity: u64) -> (decision: SelectorDecision)
        requires
            self.wf(),
            self.num_entries > 0,
            entity >= self.base,
        ensures
            decision == self@.at(entity as int),
    {
        let (index, bitpos) = self.get_pos(entity);
        let shift: u64 = bitpos as u64;
        let code: u64 = (self.masks[index] >> shift) & 3;
        if code == 0 {
            SelectorDecision::Missing
        } else if code == 1 {
            SelectorDecision::Dropped
        } else if code == 2 {
            SelectorDecision::Forwarded
        } else {
            SelectorDecision::Unknown
        }
    }

    /// The mask and the first bit of a frame.
    pub fn get_pos(&self, entity: u64) -> (pos: (usize, usize))
        requires
            self.wf(),
            self.num_entries > 0,
            entity >= self.base,
        ensures
            pos.0 == self@.slot(entity as int) / 32,
            pos.0 < self.masks@.len(),
            pos.1 == 2 * (self@.slot(entity as int) % 32),
    {
        let offset: u64 = (entity - self.base) % self.num_entries;
        assert(offset / 32 < self.masks.len());
        ((offset / 32) as usize, (offset % 32) as usize * 2)
    }
}

proof fn lemma_undecided_keeps_frame(state: DecisionsView, low: int, high: int)
    ensures
        state.undecided(low, high).base == state.base,
        state.undecided(low, high).num_nack_entries == state.num_nack_entries,
        state.undecided(low, high).expectations == state.expectations,
    decreases high - low,
{
    if low < high {
        lemma_undecided_keeps_frame(state, low, high - 1);
    }
}

/// The decision on a frame of the window is read back.
pub proof fn law_decision_is_read_back(
    state: DecisionsView,
    entity: u64,
    decision: SelectorDecision,
)
    requires
        state.entries.len() > 0,
        state.initialized ==> entity > state.base && state.last - entity < state.entries.len(),
    ensures
        state.added(entity, decision).decision(entity) == Ok::<SelectorDecision, EntityTooOld>(
            decision,
        ),
{
    if state.initialized && entity > state.last {
        lemma_window_kept(state, state.last + 1, entity as int);
        let undecided = state.undecided(state.last + 1, entity as int);
        lemma_given_up_keeps_window(
            undecided,
            state.nack_start(state.last as int),
            state.nack_start(entity as int),
        );
    }
}

/// The decision on a late frame leaves the other frames of the window alone.
pub proof fn law_late_decision_leaves_others_alone(
    state: DecisionsView,
    entity: u64,
    decision: SelectorDecision,
    other: u64,
)
    requires
        state.entries.len() > 0,
        state.initialized,
        state.base < entity <= state.last,
        state.last - entity < state.entries.len(),
        other != entity,
    ensures
        state.added(entity, decision).decision(other) == state.decision(other),
{
    let n = state.entries.len() as int;
    if state.base <= other <= state.last && state.last - other < n {
        if state.slot(entity as int) == state.slot(other as int) {
            let a = entity - state.base;
            let b = other - state.base;
            vstd::arithmetic::div_mod::lemma_fundamental_div_mod(a, n);
            vstd::arithmetic::div_mod::lemma_fundamental_div_mod(b, n);
            assert(a - b == n * (a / n) - n * (b / n));
            assert(n * (a / n) - n * (b / n) == n * (a / n - b / n)) by (nonlinear_arith);
            let k = a / n - b / n;
            assert(a - b == n * k && -n < a - b < n && a != b);
            assert(k == 0) by (nonlinear_arith)
                requires
                    -n < n * k < n,
                    n > 0,
            ;
            assert(n * k == 0) by (nonlinear_arith)
                requires
                    k == 0,
            ;
        }
    }
}

/// Whoever waits for a frame of the window is told the decision on it, and waits no longer.
pub proof fn law_waiter_is_told(
    state: DecisionsView,
    entity: u64,
    waiter: usize,
    decision: SelectorDecision,
)
    requires
        state.initialized,
        state.base < entity <= state.last,
        state.expectations.contains(Expectation { entity, waiter }),
        decision != SelectorDecision::Unknown,
    ensures
        state.told_added(entity, decision).contains(Notice { waiter, entity, decision }),
        forall|e: Expectation|
            state.added(entity, decision).expectations.contains(e) ==> #[trigger] e.entity != entity,
{
    broadcast use vstd::seq_lib::group_filter_ensures;

    let chosen = |e: Expectation| e.entity == entity;
    let expectation = Expectation { entity, waiter };
    assert(chosen(expectation));
    let fired = state.expectations.filter(chosen);
    assert(fired.contains(expectation));
    let i = choose|i: int| 0 <= i < fired.len() && fired[i] == expectation;
    assert(state.told_added(entity, decision)[i] == (Notice { waiter, entity, decision }));
    assert forall|e: Expectation|
        state.added(entity, decision).expectations.contains(e) implies #[trigger] e.entity
        != entity by {
        let keep = |e: Expectation| e.entity != entity;
        assert(keep(e));
    }
}

proof fn lemma_window_kept(state: DecisionsView, low: int, high: int)
    requires
        state.entries.len() > 0,
    ensures
        state.undecided(low, high).entries.len() == state.entries.len(),
        state.undecided(low, high).base == state.base,
        state.undecided(low, high).initialized == state.initialized,
    decreases high - low,
{
    if low < high {
        lemma_window_kept(state, low, high - 1);
    }
}

proof fn lemma_given_up_keeps_window(state: DecisionsView, low: int, high: int)
    requires
        state.entries.len() > 0,
    ensures
        state.given_up(low, high).entries.len() == state.entries.len(),
        state.given_up(low, high).base == state.base,
        state.given_up(low, high).initialized == state.initialized,
    decreases high - low,
{
    if low < high {
        lemma_given_up_keeps_window(state, low, high - 1);
    }
}

proof fn lemma_places_differ(state: DecisionsView, one: int, other: int)
    requires
        state.entries.len() > 0,
        one != other,
        one - other < state.entries.len(),
        other - one < state.entries.len(),
    ensures
        state.slot(one) != state.slot(other),
{
    let n = state.entries.len() as int;
    if state.slot(one) == state.slot(other) {
        let a = one - state.base;
        let b = other - state.base;
        vstd::arithmetic::div_mod::lemma_fundamental_div_mod(a, n);
        vstd::arithmetic::div_mod::lemma_fundamental_div_mod(b, n);
        let k = a / n - b / n;
        assert(n * (a / n) - n * (b / n) == n * k) by (nonlinear_arith)
            requires
                k == a / n - b / n,
        ;
        assert(k == 0) by (nonlinear_arith)
            requires
                -n < n * k < n,
                n > 0,
        ;
        assert(n * k == 0) by (nonlinear_arith)
            requires
                k == 0,
        ;
    }
}

proof fn lemma_place_in_range(state: DecisionsView, frame: int)
    requires
        state.entries.len() > 0,
    ensures
        0 <= state.slot(frame) < state.entries.len(),
{
    vstd::arithmetic::div_mod::lemma_mod_bound(
        frame - state.base,
        state.entries.len() as int,
    );
}

proof fn lemma_undecided_at(state: DecisionsView, low: int, high: int, frame: int)
    requires
        state.entries.len() > 0,
        frame < high ==> high - frame <= state.entries.len(),
        frame - low < state.entries.len(),
    ensures
        state.undecided(low, high).entries.len() == state.entries.len(),
        state.undecided(low, high).base == state.base,
        state.undecided(low, high).at(frame) == if low <= frame < high {
            SelectorDecision::Unknown
        } else {
            state.at(frame)
        },
    decreases high - low,
{
    if low < high {
        lemma_undecided_at(state, low, high - 1, frame);
        let before = state.undecided(low, high - 1);
        lemma_place_in_range(before, frame);
        lemma_place_in_range(before, high - 1);
        if frame != high - 1 {
            lemma_places_differ(before, high - 1, frame);
        }
    }
}

proof fn lemma_given_up_at(state: DecisionsView, low: int, high: int, frame: int)
    requires
        state.entries.len() > 0,
        frame < high ==> high - frame <= state.entries.len(),
        frame - low < state.entries.len(),
    ensures
        state.given_up(low, high).entries.len() == state.entries.len(),
        state.given_up(low, high).base == state.base,
        state.given_up(low, high).at(frame) == if low <= frame < high && state.at(frame)
            == SelectorDecision::Unknown {
            SelectorDecision::Missing
        } else {
            state.at(frame)
        },
    decreases high - low,
{
    if low < high {
        lemma_given_up_at(state, low, high - 1, frame);
        let before = state.given_up(low, high - 1);
        lemma_place_in_range(before, frame);
        lemma_place_in_range(before, high - 1);
        if frame != high - 1 {
            lemma_places_differ(before, high - 1, frame);
        }
    }
}

/// When a newer frame is decided, what is known of the frames before it stays, except that an
/// undecided one that becomes too old to be asked for again is given up. A frame that was passed
/// over is undecided, or given up at once.
pub proof fn law_newer_decision_gives_old_frames_up(
    state: DecisionsView,
    entity: u64,
    decision: SelectorDecision,
    frame: u64,
)
    requires
        state.initialized,
        state.base <= state.last,
        state.entries.len() > 0,
        entity > state.last,
        entity - state.last + state.num_nack_entries <= state.entries.len(),
        state.base <= frame < entity,
        entity - frame < state.entries.len(),
    ensures
        state.added(entity, decision).decision(frame) == if state.decision(frame) == Ok::<
            SelectorDecision,
            EntityTooOld,
        >(SelectorDecision::Unknown) && entity - frame > state.num_nack_entries && state.last
            - frame <= state.num_nack_entries {
            Ok::<SelectorDecision, EntityTooOld>(SelectorDecision::Missing)
        } else {
            state.decision(frame)
        },
{
    let low = state.nack_start(state.last as int);
    let high = state.nack_start(entity as int);
    let undecided = state.undecided(state.last + 1, entity as int);
    lemma_window_kept(state, state.last + 1, entity as int);
    lemma_undecided_keeps_frame(state, state.last + 1, entity as int);
    lemma_undecided_at(state, state.last + 1, entity as int, frame as int);
    lemma_given_up_keeps_window(undecided, low, high);
    lemma_given_up_at(undecided, low, high, frame as int);
    let opened = state.opened(entity);
    lemma_place_in_range(opened, frame as int);
    lemma_place_in_range(opened, entity as int);
    lemma_places_differ(opened, entity as int, frame as int);
}

/// The window moves on to a newer frame, and stays where it is for any other.
pub proof fn law_window_follows_the_newest_frame(
    state: DecisionsView,
    entity: u64,
    decision: SelectorDecision,
)
    requires
        state.entries.len() > 0,
        state.initialized ==> state.base <= state.last,
    ensures
        state.added(entity, decision).initialized,
        state.added(entity, decision).entries.len() == state.entries.len(),
        !state.initialized ==> state.added(entity, decision).base == entity && state.added(
            entity,
            decision,
        ).last == entity,
        state.initialized ==> state.added(entity, decision).base == state.base,
        state.initialized ==> state.added(entity, decision).last == if entity > state.last {
            entity
        } else {
            state.last
        },
        state.initialized && entity <= state.base ==> state.added(entity, decision) == state
            && state.told_added(entity, decision).len() == 0,
{
    if state.initialized && entity > state.last {
        lemma_window_kept(state, state.last + 1, entity as int);
        let undecided = state.undecided(state.last + 1, entity as int);
        lemma_given_up_keeps_window(
            undecided,
            state.nack_start(state.last as int),
            state.nack_start(entity as int),
        );
    }
}

/// Nothing is known of a frame before the first one, a newer frame than the last is undecided, and
/// the oldest frame that an error names is the oldest one that can be asked for.
pub proof fn law_window_bounds_what_is_known(state: DecisionsView, entity: u64)
    requires
        state.entries.len() > 0,
        state.base <= state.last,
    ensures
        !state.initialized || entity < state.base ==> state.decision(entity) == Ok::<
            SelectorDecision,
            EntityTooOld,
        >(SelectorDecision::Missing),
        state.initialized && entity > state.last ==> state.decision(entity) == Ok::<
            SelectorDecision,
            EntityTooOld,
        >(SelectorDecision::Unknown),
        state.decision(entity) is Err <==> state.initialized && state.base <= entity
            && entity + state.entries.len() <= state.last,
        state.decision(entity) matches Err(error) ==> error.asking == entity && error.oldest
            + state.entries.len() == state.last + 1 && state.decision(error.oldest) is Ok
            && state.decision((error.oldest - 1) as u64) is Err == (error.oldest > state.base),
{
}

/// A decision can be waited for exactly where the window holds the frame or the frame is still to
/// come.
pub proof fn law_known_frames_can_be_waited_for(state: DecisionsView, entity: u64)
    ensures
        state.can_expect(entity) <==> state.initialized && state.base <= entity && state.decision(
            entity,
        ) is Ok,
        state.entries.len() > 0 && state.initialized && state.base <= state.last < entity
            ==> state.can_expect(entity),
{
}

/// When a newer frame is decided, nobody is left waiting for a frame that fell out of the window.
pub proof fn law_nobody_waits_for_forgotten_frames(
    state: DecisionsView,
    entity: u64,
    decision: SelectorDecision,
    waiting: Expectation,
)
    requires
        state.initialized,
        state.entries.len() > 0,
        state.base <= state.last < entity,
        waiting.entity + state.entries.len() < entity,
    ensures
        !state.added(entity, decision).expectations.contains(waiting),
{
    broadcast use vstd::seq_lib::group_filter_ensures;

    law_window_follows_the_newest_frame(state, entity, decision);
    let decided = state.opened(entity).with_decision(entity as int, decision);
    let moved = DecisionsView { last: entity, ..decided };
    let keep = |e: Expectation| !moved.expired(e);
    assert(state.added(entity, decision) == moved.without_expired());
    if state.added(entity, decision).expectations.contains(waiting) {
        assert(keep(waiting));
    }
}

/// To leave a late frame undecided tells nobody anything, and those who wait for other frames go on
/// waiting whatever is decided.
pub proof fn law_waits_for_other_frames_go_on(
    state: DecisionsView,
    entity: u64,
    decision: SelectorDecision,
    waiting: Expectation,
)
    requires
        state.initialized,
        state.base < entity <= state.last,
    ensures
        decision == SelectorDecision::Unknown ==> state.told_added(entity, decision).len() == 0
            && state.added(entity, decision).expectations == state.expectations,
        waiting.entity != entity && state.expectations.contains(waiting) ==> state.added(
            entity,
            decision,
        ).expectations.contains(waiting),
        forall|i: int|
            0 <= i < state.told_added(entity, decision).len() ==> (#[trigger] state.told_added(
                entity,
                decision,
            )[i]).entity == entity && state.told_added(entity, decision)[i].decision == decision,
{
    broadcast use vstd::seq_lib::group_filter_ensures;

    let keep = |e: Expectation| e.entity != entity;
    let chosen = |e: Expectation| e.entity == entity;
    if waiting.entity != entity && state.expectations.contains(waiting) {
        assert(keep(waiting));
    }
    let fired = state.expectations.filter(chosen);
    assert forall|i: int| 0 <= i < fired.len() implies (#[trigger] fired[i]).entity == entity by {
        assert(fired.contains(fired[i]));
        assert(chosen(fired[i]));
    }
}

/// The two bits of a decision are read back as that decision, and no other has them.
pub proof fn law_codes_are_read_back(decision: SelectorDecision, other: SelectorDecision)
    ensures
        decision_of(code_of(decision)) == decision,
        code_of(decision) < 4,
        code_of(decision) == code_of(other) ==> decision == other,
{
}

proof fn lemma_given_up_keeps_waits(
    state: DecisionsView,
    low: int,
    high: int,
    waiting: Expectation,
)
    requires
        state.expectations.contains(waiting),
        waiting.entity < low || waiting.entity >= high,
    ensures
        state.given_up(low, high).expectations.contains(waiting),
    decreases high - low,
{
    broadcast use vstd::seq_lib::group_filter_ensures;

    if low < high {
        lemma_given_up_keeps_waits(state, low, high - 1, waiting);
        let keep = |e: Expectation| e.entity != high - 1;
        assert(keep(waiting));
    }
}

proof fn lemma_given_up_is_told(
    state: DecisionsView,
    low: int,
    high: int,
    frame: u64,
    waiter: usize,
)
    requires
        state.entries.len() > 0,
        low <= frame < high,
        high - frame <= state.entries.len(),
        frame - low < state.entries.len(),
        state.at(frame as int) == SelectorDecision::Unknown,
        state.expectations.contains(Expectation { entity: frame, waiter }),
    ensures
        state.told_given_up(low, high).contains(
            Notice { waiter, entity: frame, decision: SelectorDecision::Missing },
        ),
    decreases high - low,
{
    broadcast use vstd::seq_lib::group_filter_ensures;

    let notice = Notice { waiter, entity: frame, decision: SelectorDecision::Missing };
    let before = state.given_up(low, high - 1);
    let told = state.told_given_up(low, high);
    if frame < high - 1 {
        lemma_given_up_is_told(state, low, high - 1, frame, waiter);
        let earlier = state.told_given_up(low, high - 1);
        let i = choose|i: int| 0 <= i < earlier.len() && earlier[i] == notice;
        assert(told[i] == notice);
    } else {
        let waiting = Expectation { entity: frame, waiter };
        lemma_given_up_keeps_waits(state, low, high - 1, waiting);
        lemma_given_up_at(state, low, high - 1, frame as int);
        let chosen = |e: Expectation| e.entity == high - 1;
        assert(chosen(waiting));
        let fired = before.expectations.filter(chosen);
        assert(fired.contains(waiting));
        let i = choose|i: int| 0 <= i < fired.len() && fired[i] == waiting;
        let last = before.told(high - 1, SelectorDecision::Missing);
        assert(last[i] == notice);
        let earlier = state.told_given_up(low, high - 1);
        assert(told == earlier + last);
        assert(told[earlier.len() + i] == notice);
    }
}

/// Whoever waits for an undecided frame that is given up, because it is too old to be asked for
/// again, is told that it is missing.
pub proof fn law_waiter_is_told_of_given_up_frames(
    state: DecisionsView,
    entity: u64,
    decision: SelectorDecision,
    frame: u64,
    waiter: usize,
)
    requires
        state.initialized,
        state.base <= frame <= state.last,
        state.entries.len() > 0,
        entity > state.last,
        entity - state.last + state.num_nack_entries <= state.entries.len(),
        entity - frame < state.entries.len(),
        entity - frame > state.num_nack_entries,
        state.last - frame <= state.num_nack_entries,
        state.decision(frame) == Ok::<SelectorDecision, EntityTooOld>(SelectorDecision::Unknown),
        state.expectations.contains(Expectation { entity: frame, waiter }),
    ensures
        state.told_added(entity, decision).contains(
            Notice { waiter, entity: frame, decision: SelectorDecision::Missing },
        ),
{
    let low = state.nack_start(state.last as int);
    let high = state.nack_start(entity as int);
    let undecided = state.undecided(state.last + 1, entity as int);
    lemma_window_kept(state, state.last + 1, entity as int);
    lemma_undecided_keeps_frame(state, state.last + 1, entity as int);
    lemma_undecided_at(state, state.last + 1, entity as int, frame as int);
    lemma_given_up_is_told(undecided, low, high, frame, waiter);
    let notice = Notice { waiter, entity: frame, decision: SelectorDecision::Missing };
    let first = undecided.told_given_up(low, high);
    let i = choose|i: int| 0 <= i < first.len() && first[i] == notice;
    assert(state.told_added(entity, decision)[i] == notice);
}

} // verus!
