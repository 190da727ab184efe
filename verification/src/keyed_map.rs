//! A map whose keys are made of strings.
use vstd::prelude::*;

verus! {

/// A key that is made of parts of text.
pub trait StoreKey: Sized {
    /// The parts of the key.
    spec fn parts(&self) -> Seq<Seq<char>>;

    /// The keys have the same parts.
    fn same(&self, other: &Self) -> (same: bool)
        ensures
            same == (self.parts() == other.parts()),
    ;

    /// A key with the same parts.
    fn duplicate(&self) -> (copy: Self)
        ensures
            copy.parts() == self.parts(),
    ;
}

impl StoreKey for (String, String) {
    open spec fn parts(&self) -> Seq<Seq<char>> {
        seq![self.0@, self.1@]
    }

    fn same(&self, other: &Self) -> (same: bool) {
        proof {
            assert(self.parts()[0] == self.0@ && self.parts()[1] == self.1@);
            assert(other.parts()[0] == other.0@ && other.parts()[1] == other.1@);
        }
        self.0 == other.0 && self.1 == other.1
    }

    fn duplicate(&self) -> (copy: Self) {
        (self.0.clone(), self.1.clone())
    }
}

impl StoreKey for (String, String, String) {
    open spec fn parts(&self) -> Seq<Seq<char>> {
        seq![self.0@, self.1@, self.2@]
    }

    fn same(&self, other: &Self) -> (same: bool) {
        proof {
            assert(self.parts()[0] == self.0@ && self.parts()[1] == self.1@ && self.parts()[2]
                == self.2@);
            assert(other.parts()[0] == other.0@ && other.parts()[1] == other.1@ && other.parts()[2]
                == other.2@);
        }
        self.0 == other.0 && self.1 == other.1 && self.2 == other.2
    }

    fn duplicate(&self) -> (copy: Self) {
        (self.0.clone(), self.1.clone(), self.2.clone())
    }
}

impl StoreKey for (String, String, String, String) {
    open spec fn parts(&self) -> Seq<Seq<char>> {
        seq![self.0@, self.1@, self.2@, self.3@]
    }

    fn same(&self, other: &Self) -> (same: bool) {
        proof {
            assert(self.parts()[0] == self.0@ && self.parts()[1] == self.1@ && self.parts()[2]
                == self.2@ && self.parts()[3] == self.3@);
            assert(other.parts()[0] == other.0@ && other.parts()[1] == other.1@ && other.parts()[2]
                == other.2@ && other.parts()[3] == other.3@);
        }
        self.0 == other.0 && self.1 == other.1 && self.2 == other.2 && self.3 == other.3
    }

    fn duplicate(&self) -> (copy: Self) {
        (self.0.clone(), self.1.clone(), self.2.clone(), self.3.clone())
    }
}

/// A map as a list of entries.
#[derive(Debug)]
pub struct KeyedMap<K: StoreKey, V: View> {
    pub entries: Vec<(K, V)>,
}

/// Entry `i` has the key.
pub open spec fn keyed_at<K: StoreKey, V: View>(
    entries: Seq<(K, V)>,
    key: Seq<Seq<char>>,
    i: int,
) -> bool {
    0 <= i < entries.len() && entries[i].0.parts() == key
}

/// The place of the entry with the key.
pub open spec fn place_of<K: StoreKey, V: View>(entries: Seq<(K, V)>, key: Seq<Seq<char>>) -> int {
    choose|i: int| keyed_at(entries, key, i)
}

/// No two entries have the same key.
pub open spec fn unique_keys<K: StoreKey, V: View>(entries: Seq<(K, V)>) -> bool {
    forall|i: int, j: int|
        0 <= i < j < entries.len() ==> (#[trigger] entries[i]).0.parts() != (
        #[trigger] entries[j]).0.parts()
}

/// The map that the entries make up.
pub open spec fn map_of<K: StoreKey, V: View>(entries: Seq<(K, V)>) -> Map<Seq<Seq<char>>, V::V> {
    Map::new(
        |key: Seq<Seq<char>>| exists|i: int| keyed_at(entries, key, i),
        |key: Seq<Seq<char>>| entries[place_of(entries, key)].1@,
    )
}

impl<K: StoreKey, V: View> View for KeyedMap<K, V> {
    type V = Map<Seq<Seq<char>>, V::V>;

    open spec fn view(&self) -> Map<Seq<Seq<char>>, V::V> {
        map_of(self.entries@)
    }
}

/// Where keys are unique, the entry with a key is the one that is found.
pub proof fn lemma_place<K: StoreKey, V: View>(entries: Seq<(K, V)>, i: int)
    requires
        unique_keys(entries),
        0 <= i < entries.len(),
    ensures
        place_of(entries, entries[i].0.parts()) == i,
        map_of(entries).contains_key(entries[i].0.parts()),
        map_of(entries)[entries[i].0.parts()] == entries[i].1@,
{
    let key = entries[i].0.parts();
    assert(keyed_at(entries, key, i));
    let j = place_of(entries, key);
    assert(keyed_at(entries, key, j));
    if i < j {
        assert(entries[i].0.parts() != entries[j].0.parts());
    } else if j < i {
        assert(entries[j].0.parts() != entries[i].0.parts());
    }
}

/// Replacing the value of an entry replaces it in the map.
pub proof fn lemma_updated<K: StoreKey, V: View>(
    before: Seq<(K, V)>,
    after: Seq<(K, V)>,
    i: int,
)
    requires
        unique_keys(before),
        before.len() == after.len(),
        0 <= i < before.len(),
        forall|j: int|
            0 <= j < before.len() ==> (#[trigger] after[j]).0.parts() == before[j].0.parts(),
        forall|j: int| 0 <= j < before.len() && j != i ==> (#[trigger] after[j]).1@ == before[j].1@,
    ensures
        unique_keys(after),
        map_of(after) == map_of(before).insert(before[i].0.parts(), after[i].1@),
{
    assert(unique_keys(after)) by {
        assert forall|a: int, b: int| 0 <= a < b < after.len() implies (
        #[trigger] after[a]).0.parts() != (#[trigger] after[b]).0.parts() by {
            assert(before[a].0.parts() != before[b].0.parts());
        }
    }
    let expected = map_of(before).insert(before[i].0.parts(), after[i].1@);
    assert forall|key: Seq<Seq<char>>| map_of(after).contains_key(key) <==> expected.contains_key(
        key,
    ) by {
        if map_of(after).contains_key(key) {
            let j = choose|j: int| keyed_at(after, key, j);
            assert(keyed_at(before, key, j));
        }
        if expected.contains_key(key) {
            if key == before[i].0.parts() {
                assert(keyed_at(after, key, i));
            } else {
                let j = choose|j: int| keyed_at(before, key, j);
                assert(keyed_at(after, key, j));
            }
        }
    }
    assert forall|key: Seq<Seq<char>>| map_of(after).contains_key(key) implies #[trigger] map_of(
        after,
    )[key] == expected[key] by {
        let j = choose|j: int| keyed_at(after, key, j);
        lemma_place(after, j);
        lemma_place(before, j);
        lemma_place(before, i);
    }
    assert(map_of(after) =~= expected);
}

/// Adding an entry with a new key adds it to the map.
pub proof fn lemma_pushed<K: StoreKey, V: View>(entries: Seq<(K, V)>, entry: (K, V))
    requires
        unique_keys(entries),
        !map_of(entries).contains_key(entry.0.parts()),
    ensures
        unique_keys(entries.push(entry)),
        map_of(entries.push(entry)) == map_of(entries).insert(entry.0.parts(), entry.1@),
{
    let after = entries.push(entry);
    assert(unique_keys(after)) by {
        assert forall|a: int, b: int| 0 <= a < b < after.len() implies (
        #[trigger] after[a]).0.parts() != (#[trigger] after[b]).0.parts() by {
            if b == entries.len() {
                if entries[a].0.parts() == entry.0.parts() {
                    assert(keyed_at(entries, entry.0.parts(), a));
                }
            } else {
                assert(entries[a].0.parts() != entries[b].0.parts());
            }
        }
    }
    let expected = map_of(entries).insert(entry.0.parts(), entry.1@);
    assert forall|key: Seq<Seq<char>>| map_of(after).contains_key(key) <==> expected.contains_key(
        key,
    ) by {
        if map_of(after).contains_key(key) {
            let j = choose|j: int| keyed_at(after, key, j);
            if j < entries.len() {
                assert(keyed_at(entries, key, j));
            }
        }
        if expected.contains_key(key) {
            if key == entry.0.parts() {
                assert(keyed_at(after, key, entries.len() as int));
            } else {
                let j = choose|j: int| keyed_at(entries, key, j);
                assert(keyed_at(after, key, j));
            }
        }
    }
    assert forall|key: Seq<Seq<char>>| map_of(after).contains_key(key) implies #[trigger] map_of(
        after,
    )[key] == expected[key] by {
        let j = choose|j: int| keyed_at(after, key, j);
        lemma_place(after, j);
        if j < entries.len() {
            lemma_place(entries, j);
        }
    }
    assert(map_of(after) =~= expected);
}

/// Removing an entry removes it from the map.
pub proof fn lemma_removed<K: StoreKey, V: View>(entries: Seq<(K, V)>, i: int)
    requires
        unique_keys(entries),
        0 <= i < entries.len(),
    ensures
        unique_keys(entries.remove(i)),
        map_of(entries.remove(i)) == map_of(entries).remove(entries[i].0.parts()),
{
    let after = entries.remove(i);
    assert(unique_keys(after)) by {
        assert forall|a: int, b: int| 0 <= a < b < after.len() implies (
        #[trigger] after[a]).0.parts() != (#[trigger] after[b]).0.parts() by {
            let a1: int = if a < i { a } else { a + 1 };
            let b1: int = if b < i { b } else { b + 1 };
            assert(entries[a1].0.parts() != entries[b1].0.parts());
        }
    }
    let expected = map_of(entries).remove(entries[i].0.parts());
    assert forall|key: Seq<Seq<char>>| map_of(after).contains_key(key) <==> expected.contains_key(
        key,
    ) by {
        if map_of(after).contains_key(key) {
            let j = choose|j: int| keyed_at(after, key, j);
            let j1: int = if j < i { j } else { j + 1 };
            assert(keyed_at(entries, key, j1));
            if j1 < i {
                assert(entries[j1].0.parts() != entries[i].0.parts());
            } else {
                assert(entries[i].0.parts() != entries[j1].0.parts());
            }
        }
        if expected.contains_key(key) {
            let j = choose|j: int| keyed_at(entries, key, j);
            let j1: int = if j < i { j } else { j - 1 };
            assert(keyed_at(after, key, j1));
        }
    }
    assert forall|key: Seq<Seq<char>>| map_of(after).contains_key(key) implies #[trigger] map_of(
        after,
    )[key] == expected[key] by {
        let j = choose|j: int| keyed_at(after, key, j);
        let j1: int = if j < i { j } else { j + 1 };
        lemma_place(after, j);
        lemma_place(entries, j1);
    }
    assert(map_of(after) =~= expected);
}

proof fn lemma_remaining_entries<K, V>(entries: Seq<(K, V)>, i: int)
    requires
        0 <= i < entries.len(),
    ensures
        forall|entry: (K, V)| entries.remove(i).contains(entry) ==> entries.contains(entry),
{
    let after = entries.remove(i);
    assert forall|entry: (K, V)| after.contains(entry) implies entries.contains(entry) by {
        let j = choose|j: int| 0 <= j < after.len() && after[j] == entry;
        let j1: int = if j < i { j } else { j + 1 };
        assert(entries[j1] == entry);
    }
}

/// The entries of `map` whose key `keep` holds of.
pub open spec fn kept<W>(
    map: Map<Seq<Seq<char>>, W>,
    keep: spec_fn(Seq<Seq<char>>) -> bool,
) -> Map<Seq<Seq<char>>, W> {
    Map::new(
        |key: Seq<Seq<char>>| map.contains_key(key) && keep(key),
        |key: Seq<Seq<char>>| map[key],
    )
}

impl<K: StoreKey, V: View> KeyedMap<K, V> {
    /// No two entries have the same key.
    pub open spec fn wf(self) -> bool {
        unique_keys(self.entries@)
    }

    /// A map without entries.
    pub fn new() -> (map: Self)
        ensures
            map.wf(),
            map.entries@.len() == 0,
            map@ == Map::<Seq<Seq<char>>, V::V>::empty(),
    {
        let map = KeyedMap { entries: Vec::new() };
        assert(map@ =~= Map::<Seq<Seq<char>>, V::V>::empty());
        map
    }

    /// The place of the entry with the key.
    pub fn find(&self, key: &K) -> (place: Option<usize>)
        requires
            self.wf(),
        ensures
            match place {
                Some(place) => {
                    &&& place < self.entries@.len()
                    &&& self.entries@[place as int].0.parts() == key.parts()
                    &&& self@.contains_key(key.parts())
                    &&& self@[key.parts()] == self.entries@[place as int].1@
                },
                None => !self@.contains_key(key.parts()),
            },
    {
        let mut i: usize = 0;
        while i < self.entries.len()
            invariant
                self.wf(),
                i <= self.entries@.len(),
                forall|j: int|
                    0 <= j < i ==> (#[trigger] self.entries@[j]).0.parts() != key.parts(),
            decreases self.entries.len() - i,
        {
            if self.entries[i].0.same(key) {
                proof {
                    lemma_place(self.entries@, i as int);
                }
                return Some(i);
            }
            i += 1;
        }
        assert forall|j: int| !keyed_at(self.entries@, key.parts(), j) by {}
        None
    }

    /// The value of the key.
    pub fn get(&self, key: &K) -> (value: Option<&V>)
        requires
            self.wf(),
        ensures
            match value {
                Some(value) => self@.contains_key(key.parts()) && value@ == self@[key.parts()],
                None => !self@.contains_key(key.parts()),
            },
    {
        match self.find(key) {
            Some(place) => Some(&self.entries[place].1),
            None => None,
        }
    }

    /// Gives the key a value.
    pub fn insert(&mut self, key: K, value: V)
        requires
            old(self).wf(),
        ensures
            final(self).wf(),
            final(self)@ == old(self)@.insert(key.parts(), value@),
    {
        let ghost before = self.entries@;
        let ghost parts = key.parts();
        match self.find(&key) {
            Some(place) => {
                self.entries.set(place, (key, value));
                proof {
                    lemma_updated(before, self.entries@, place as int);
                }
            },
            None => {
                proof {
                    lemma_pushed(before, (key, value));
                }
                self.entries.push((key, value));
            },
        }
    }

    /// Forgets the key.
    pub fn remove(&mut self, key: &K) -> (removed: bool)
        requires
            old(self).wf(),
        ensures
            final(self).wf(),
            final(self)@ == old(self)@.remove(key.parts()),
            removed == old(self)@.contains_key(key.parts()),
            forall|entry: (K, V)|
                final(self).entries@.contains(entry) ==> old(self).entries@.contains(entry),
    {
        match self.find(key) {
            Some(place) => {
                let ghost before = self.entries@;
                proof {
                    lemma_removed(before, place as int);
                }
                self.entries.remove(place);
                proof {
                    lemma_remaining_entries(before, place as int);
                }
                true
            },
            None => {
                assert(self@.remove(key.parts()) =~= self@);
                false
            },
        }
    }

    /// Forgets the keys that `choice` does not choose. `keep` is what `choice` computes.
    pub fn retain<F: Fn(&K) -> bool>(
        &mut self,
        choice: F,
        Ghost(keep): Ghost<spec_fn(Seq<Seq<char>>) -> bool>,
    )
        requires
            old(self).wf(),
            forall|key: K| call_requires(choice, (&key,)),
            forall|key: K, chosen: bool|
                call_ensures(choice, (&key,), chosen) ==> chosen == keep(key.parts()),
        ensures
            final(self).wf(),
            final(self)@ == kept(old(self)@, keep),
            forall|entry: (K, V)|
                final(self).entries@.contains(entry) ==> old(self).entries@.contains(entry),
    {
        let ghost before = self@;
        let mut i: usize = 0;
        while i < self.entries.len()
            invariant
                self.wf(),
                i <= self.entries@.len(),
                forall|key: K| call_requires(choice, (&key,)),
                forall|key: K, chosen: bool|
                    call_ensures(choice, (&key,), chosen) ==> chosen == keep(key.parts()),
                self@.submap_of(before),
                forall|key: Seq<Seq<char>>|
                    #[trigger] before.contains_key(key) && keep(key) ==> self@.contains_key(key),
                forall|j: int| 0 <= j < i ==> keep((#[trigger] self.entries@[j]).0.parts()),
                forall|entry: (K, V)|
                    self.entries@.contains(entry) ==> old(self).entries@.contains(entry),
            decreases self.entries.len() - i,
        {
            if choice(&self.entries[i].0) {
                i += 1;
            } else {
                proof {
                    lemma_removed(self.entries@, i as int);
                    lemma_remaining_entries(self.entries@, i as int);
                }
                self.entries.remove(i);
            }
        }
        proof {
            let expected = kept(before, keep);
            assert forall|key: Seq<Seq<char>>| self@.contains_key(key) <==> expected.contains_key(
                key,
            ) by {
                if self@.contains_key(key) {
                    let j = choose|j: int| keyed_at(self.entries@, key, j);
                    assert(keep(self.entries@[j].0.parts()));
                    assert(before.contains_key(key));
                }
            }
            assert(self@ =~= expected);
        }
    }
}

/// An entry is kept exactly where its key is to be, with its value.
pub proof fn law_entries_are_kept_by_their_key<W>(
    map: Map<Seq<Seq<char>>, W>,
    keep: spec_fn(Seq<Seq<char>>) -> bool,
    key: Seq<Seq<char>>,
)
    ensures
        kept(map, keep).contains_key(key) <==> map.contains_key(key) && keep(key),
        map.contains_key(key) && keep(key) ==> kept(map, keep)[key] == map[key],
{
}

} // verus!
