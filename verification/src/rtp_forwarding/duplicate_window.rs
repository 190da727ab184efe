//! The newest packets that were forwarded, by source and number.
use std::collections::{HashSet, VecDeque};
use vstd::prelude::*;

verus! {

/// How many packets are remembered.
pub const RTP_DUPLICATE_WINDOW: usize = 512;

/// The newest packets, in the order in which they came.
#[derive(Debug)]
pub struct DuplicateWindow {
    pub seen: HashSet<u128>,
    pub order: VecDeque<(u32, u64)>,
}

impl View for DuplicateWindow {
    type V = Seq<(u32, u64)>;

    open spec fn view(&self) -> Seq<(u32, u64)> {
        self.order@
    }
}

/// The newest packets of a sequence, as many as are remembered.
pub open spec fn windowed(order: Seq<(u32, u64)>) -> Seq<(u32, u64)> {
    if order.len() > RTP_DUPLICATE_WINDOW {
        order.subrange(order.len() - RTP_DUPLICATE_WINDOW, order.len() as int)
    } else {
        order
    }
}

/// The number that stands for a packet.
pub open spec fn code_of(key: (u32, u64)) -> u128 {
    (key.0 * 0x1_0000_0000_0000_0000 + key.1) as u128
}

fn code(key: (u32, u64)) -> (code: u128)
    ensures
        code == code_of(key),
{
    key.0 as u128 * 0x1_0000_0000_0000_0000 + key.1 as u128
}

proof fn lemma_code_is_injective(a: (u32, u64), b: (u32, u64))
    requires
        code_of(a) == code_of(b),
    ensures
        a == b,
{
}

impl DuplicateWindow {
    /// The set holds the packets of the order, and each packet has one place.
    pub open spec fn wf(self) -> bool {
        &&& self.order@.no_duplicates()
        &&& self.order@.len() <= RTP_DUPLICATE_WINDOW
        &&& forall|key: (u32, u64)|
            self.seen@.contains(#[trigger] code_of(key)) <==> self.order@.contains(key)
    }

    /// A window without packets.
    pub fn new() -> (window: Self)
        ensures
            window.wf(),
            window@ == Seq::<(u32, u64)>::empty(),
    {
        DuplicateWindow { seen: HashSet::new(), order: VecDeque::new() }
    }

    /// The packet is remembered.
    pub fn contains(&self, key: (u32, u64)) -> (contained: bool)
        requires
            self.wf(),
        ensures
            contained == self@.contains(key),
    {
        broadcast use vstd::std_specs::hash::group_hash_axioms;

        self.seen.contains(&code(key))
    }

    /// Remembers a packet, and forgets the oldest one over the limit.
    pub fn push(&mut self, key: (u32, u64))
        requires
            old(self).wf(),
            !old(self)@.contains(key),
        ensures
            final(self).wf(),
            final(self)@ == windowed(old(self)@.push(key)),
    {
        broadcast use vstd::std_specs::hash::group_hash_axioms;

        let ghost before = self.order@;
        let ghost grown = before.push(key);
        self.seen.insert(code(key));
        self.order.push_back(key);
        proof {
            assert forall|k: (u32, u64)|
                self.seen@.contains(#[trigger] code_of(k)) <==> grown.contains(k) by {
                if code_of(k) == code_of(key) {
                    lemma_code_is_injective(k, key);
                    assert(grown[before.len() as int] == k);
                }
                if before.contains(k) {
                    let i = choose|i: int| 0 <= i < before.len() && before[i] == k;
                    assert(grown[i] == k);
                }
                if grown.contains(k) {
                    let i = choose|i: int| 0 <= i < grown.len() && grown[i] == k;
                    if i < before.len() {
                        assert(before[i] == k);
                        assert(before.contains(k));
                    }
                }
            }
            assert(grown.no_duplicates());
        }
        if self.order.len() > RTP_DUPLICATE_WINDOW {
            let ghost seen = self.seen@;
            if let Some(evicted) = self.order.pop_front() {
                self.seen.remove(&code(evicted));
                proof {
                    let rest = grown.subrange(1, grown.len() as int);
                    assert(windowed(grown) =~= rest);
                    assert forall|k: (u32, u64)|
                        self.seen@.contains(#[trigger] code_of(k)) <==> rest.contains(k) by {
                        if rest.contains(k) {
                            let i = choose|i: int| 0 <= i < rest.len() && rest[i] == k;
                            assert(grown[i + 1] == k);
                            assert(k != evicted);
                            if code_of(k) == code_of(evicted) {
                                lemma_code_is_injective(k, evicted);
                            }
                            assert(grown.contains(k));
                        }
                        if self.seen@.contains(code_of(k)) {
                            assert(grown.contains(k));
                            let i = choose|i: int| 0 <= i < grown.len() && grown[i] == k;
                            assert(i != 0);
                            assert(rest[i - 1] == k);
                        }
                    }
                }
            }
        }
    }
}

} // verus!
