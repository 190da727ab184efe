//! A map that knows the order in which its keys came.
use std::collections::{HashMap, VecDeque};
use vstd::prelude::*;

verus! {

/// A map whose oldest key can be forgotten.
#[derive(Debug, Clone)]
#[verifier::reject_recursive_types(K)]
#[verifier::reject_recursive_types(V)]
pub struct OrderedCache<K: Eq + std::hash::Hash + Copy, V> {
    pub map: HashMap<K, V>,
    pub order: VecDeque<K>,
}

/// The contents of an [`OrderedCache`]: its keys, oldest first, and their values.
#[verifier::ext_equal]
#[verifier::reject_recursive_types(K)]
pub struct CacheView<K, V> {
    pub keys: Seq<K>,
    pub values: Map<K, V>,
}

impl<K, V> CacheView<K, V> {
    /// A cache without keys.
    pub open spec fn empty() -> Self {
        CacheView { keys: Seq::empty(), values: Map::empty() }
    }

    /// Every key has one place in the order, and a value.
    pub open spec fn wf(self) -> bool {
        &&& self.keys.no_duplicates()
        &&& self.keys.to_set() == self.values.dom()
    }

    /// The cache with `value` for `key`. A key that was there keeps its place.
    pub open spec fn with(self, key: K, value: V) -> Self {
        CacheView {
            keys: if self.values.contains_key(key) {
                self.keys
            } else {
                self.keys.push(key)
            },
            values: self.values.insert(key, value),
        }
    }

    /// The cache without its oldest key.
    pub open spec fn without_oldest(self) -> Self {
        if self.keys.len() == 0 {
            self
        } else {
            CacheView {
                keys: self.keys.subrange(1, self.keys.len() as int),
                values: self.values.remove(self.keys[0]),
            }
        }
    }

    /// The cache with no more than its newest `limit` keys.
    pub open spec fn trimmed(self, limit: nat) -> Self
        decreases self.keys.len(),
    {
        if self.keys.len() <= limit {
            self
        } else {
            self.without_oldest().trimmed(limit)
        }
    }

    /// Setting a key keeps the cache well formed.
    pub proof fn lemma_with(self, key: K, value: V)
        requires
            self.wf(),
        ensures
            self.with(key, value).wf(),
    {
        let after = self.with(key, value);
        assert forall|k: K| after.keys.to_set().contains(k) <==> after.values.dom().contains(k) by {
            if after.values.dom().contains(k) {
                if k == key && !self.values.contains_key(key) {
                    assert(after.keys[self.keys.len() as int] == k);
                } else {
                    assert(self.keys.to_set().contains(k));
                    let i = choose|i: int| 0 <= i < self.keys.len() && self.keys[i] == k;
                    assert(after.keys[i] == k);
                }
            }
            if after.keys.to_set().contains(k) {
                let i = choose|i: int| 0 <= i < after.keys.len() && after.keys[i] == k;
                if i < self.keys.len() {
                    assert(self.keys[i] == k);
                    assert(self.keys.to_set().contains(k));
                }
            }
        }
        assert(after.keys.to_set() =~= after.values.dom());
        if !self.values.contains_key(key) {
            assert(!self.keys.to_set().contains(key));
        }
    }

    /// Forgetting the oldest key keeps the cache well formed.
    pub proof fn lemma_without_oldest(self)
        requires
            self.wf(),
        ensures
            self.without_oldest().wf(),
    {
        let after = self.without_oldest();
        if self.keys.len() > 0 {
            assert forall|k: K| after.keys.to_set().contains(k) <==> after.values.dom().contains(
                k,
            ) by {
                if after.values.dom().contains(k) {
                    assert(self.keys.to_set().contains(k));
                    let i = choose|i: int| 0 <= i < self.keys.len() && self.keys[i] == k;
                    assert(after.keys[i - 1] == k);
                }
                if after.keys.to_set().contains(k) {
                    let i = choose|i: int| 0 <= i < after.keys.len() && after.keys[i] == k;
                    assert(self.keys[i + 1] == k);
                    assert(self.keys.to_set().contains(k));
                }
            }
            assert(after.keys.to_set() =~= after.values.dom());
        }
    }

    /// A trimmed cache is well formed, no larger than the limit, and holds only values of the
    /// whole one.
    pub proof fn lemma_trimmed(self, limit: nat)
        requires
            self.wf(),
        ensures
            self.trimmed(limit).wf(),
            self.trimmed(limit).keys.len() <= limit,
            self.trimmed(limit).values.submap_of(self.values),
        decreases self.keys.len(),
    {
        if self.keys.len() > limit {
            self.lemma_without_oldest();
            self.without_oldest().lemma_trimmed(limit);
        }
    }
}

impl<K: Eq + std::hash::Hash + Copy, V> View for OrderedCache<K, V> {
    type V = CacheView<K, V>;

    open spec fn view(&self) -> CacheView<K, V> {
        CacheView { keys: self.order@, values: self.map@ }
    }
}

impl<K: Eq + std::hash::Hash + Copy, V> OrderedCache<K, V> {
    /// The contents are well formed, and the keys can be hashed.
    pub open spec fn wf(self) -> bool {
        &&& self@.wf()
        &&& vstd::std_specs::hash::obeys_key_model::<K>()
    }

    /// A cache without keys.
    pub fn new() -> (cache: Self)
        ensures
            cache@ == CacheView::<K, V>::empty(),
            vstd::std_specs::hash::obeys_key_model::<K>() ==> cache.wf(),
    {
        let cache = OrderedCache { map: HashMap::new(), order: VecDeque::new() };
        assert(cache@.keys.to_set() =~= Set::empty());
        cache
    }

    /// Forgets every key.
    pub fn clear(&mut self)
        requires
            old(self).wf(),
        ensures
            final(self)@ == CacheView::<K, V>::empty(),
            final(self).wf(),
    {
        self.map.clear();
        self.order.clear();
        assert(self@.keys.to_set() =~= Set::empty());
    }

    /// Gives `key` the value, at the end of the order if it is new.
    pub fn set(&mut self, key: K, value: V)
        requires
            old(self).wf(),
        ensures
            final(self)@ == old(self)@.with(key, value),
            final(self).wf(),
    {
        broadcast use vstd::std_specs::hash::group_hash_axioms;

        proof {
            self@.lemma_with(key, value);
        }
        if !self.map.contains_key(&key) {
            self.order.push_back(key);
        }
        self.map.insert(key, value);
    }

    /// The value of `key`.
    pub fn get(&self, key: &K) -> (value: Option<&V>)
        requires
            self.wf(),
        ensures
            match value {
                Some(value) => self@.values.contains_key(*key) && *value == self@.values[*key],
                None => !self@.values.contains_key(*key),
            },
    {
        broadcast use vstd::std_specs::hash::group_hash_axioms;

        self.map.get(key)
    }

    /// The number of keys.
    pub fn len(&self) -> (len: usize)
        requires
            self.wf(),
        ensures
            len == self@.keys.len(),
    {
        self.order.len()
    }

    /// Forgets the oldest key, if there is one.
    pub fn pop_front(&mut self)
        requires
            old(self).wf(),
        ensures
            final(self)@ == old(self)@.without_oldest(),
            final(self).wf(),
    {
        broadcast use vstd::std_specs::hash::group_hash_axioms;

        proof {
            self@.lemma_without_oldest();
        }
        if let Some(key) = self.order.pop_front() {
            self.map.remove(&key);
        }
    }

    /// Forgets the oldest keys over `limit`.
    pub fn trim(&mut self, limit: usize)
        requires
            old(self).wf(),
        ensures
            final(self)@ == old(self)@.trimmed(limit as nat),
            final(self).wf(),
            final(self)@.keys.len() <= limit,
    {
        while self.len() > limit
            invariant
                self.wf(),
                self@.trimmed(limit as nat) == old(self)@.trimmed(limit as nat),
            decreases self@.keys.len(),
        {
            self.pop_front();
        }
    }
}

/// A key that is set has its value, the values of other keys stay, and a new key is the newest.
pub proof fn law_set_key_is_read_back<K, V>(cache: CacheView<K, V>, key: K, value: V, other: K)
    ensures
        cache.with(key, value).values.contains_key(key),
        cache.with(key, value).values[key] == value,
        other != key ==> cache.with(key, value).values.contains_key(other)
            == cache.values.contains_key(other),
        other != key && cache.values.contains_key(other) ==> cache.with(key, value).values[other]
            == cache.values[other],
        cache.values.contains_key(key) ==> cache.with(key, value).keys == cache.keys,
        !cache.values.contains_key(key) ==> cache.with(key, value).keys.drop_last() == cache.keys
            && cache.with(key, value).keys.last() == key,
{
    if !cache.values.contains_key(key) {
        assert(cache.keys.push(key).drop_last() =~= cache.keys);
    }
}

/// Of a cache that is too long the newest keys are kept, in order and with their values, as many as
/// the limit allows; one that is not too long stays as it is.
pub proof fn law_newest_keys_are_kept<K, V>(cache: CacheView<K, V>, limit: nat, i: int)
    requires
        cache.wf(),
        0 <= i < cache.keys.len(),
    ensures
        cache.keys.len() <= limit ==> cache.trimmed(limit) == cache,
        cache.keys.len() > limit ==> cache.trimmed(limit).keys == cache.keys.skip(
            cache.keys.len() - limit,
        ),
        i >= cache.keys.len() - limit ==> cache.trimmed(limit).values.contains_key(cache.keys[i])
            && cache.trimmed(limit).values[cache.keys[i]] == cache.values[cache.keys[i]],
        i < cache.keys.len() - limit ==> !cache.trimmed(limit).values.contains_key(cache.keys[i]),
    decreases cache.keys.len(),
{
    assert(cache.keys.to_set().contains(cache.keys[i]));
    if cache.keys.len() > limit {
        let shorter = cache.without_oldest();
        cache.lemma_without_oldest();
        assert(shorter.keys =~= cache.keys.skip(1));
        if i > 0 {
            assert(shorter.keys[i - 1] == cache.keys[i]);
            law_newest_keys_are_kept(shorter, limit, i - 1);
        } else {
            shorter.lemma_trimmed(limit);
            if shorter.keys.len() > 0 {
                law_newest_keys_are_kept(shorter, limit, 0);
            }
        }
        if shorter.keys.len() > limit {
            assert(shorter.keys.skip(shorter.keys.len() - limit) =~= cache.keys.skip(
                cache.keys.len() - limit,
            ));
        } else {
            assert(shorter.keys =~= cache.keys.skip(cache.keys.len() - limit));
        }
    }
}

} // verus!
