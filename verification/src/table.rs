//! An association table: a finite map whose keys are compared one by one.

use vstd::prelude::*;

verus! {

/// A key of a [`Table`]: a plain value with an equality test.
pub trait TableKey: Copy {
    fn same(&self, other: &Self) -> (same: bool)
        ensures
            same == (*self == *other),
    ;
}

/// A finite map, kept as the sequence of its keys and, beside it, of their values.
pub struct Table<K, V> {
    keys: Vec<K>,
    values: Vec<V>,
}

impl<K, V> Table<K, V> {
    /// The keys, in the order in which the table walks them.
    pub closed spec fn keys(&self) -> Seq<K> {
        self.keys@
    }

    /// What the table maps each key to.
    pub closed spec fn view(&self) -> Map<K, V> {
        Map::new(
            |k: K| self.keys@.contains(k),
            |k: K| self.values@[self.keys@.index_of(k)],
        )
    }

    /// No key occurs twice, and every key has a value.
    pub closed spec fn wf(&self) -> bool {
        &&& self.keys@.len() == self.values@.len()
        &&& self.keys@.no_duplicates()
    }

    /// How the walk order and the map fit together.
    pub proof fn lemma_keys(&self)
        requires
            self.wf(),
        ensures
            self.keys().no_duplicates(),
            forall|k: K| #[trigger] self@.contains_key(k) <==> self.keys().contains(k),
            forall|i: int|
                0 <= i < self.keys().len() ==> self@.contains_key(#[trigger] self.keys()[i]),
            self@.dom().finite(),
            self@.len() == self.keys().len(),
    {
        self.keys@.unique_seq_to_set();
        assert(self@.dom() =~= self.keys@.to_set());
        vstd::seq_lib::seq_to_set_is_finite(self.keys@);
    }

    pub fn new() -> (table: Self)
        ensures
            table.wf(),
            table@ == Map::<K, V>::empty(),
            table.keys() == Seq::<K>::empty(),
    {
        let table = Table { keys: Vec::new(), values: Vec::new() };
        assert(table@ =~= Map::<K, V>::empty());
        table
    }

    pub fn len(&self) -> (n: usize)
        requires
            self.wf(),
        ensures
            n == self@.len(),
            n == self.keys().len(),
            self@.dom().finite(),
    {
        proof {
            self.lemma_keys();
        }
        self.keys.len()
    }
}

impl<K: TableKey, V> Table<K, V> {
    /// The key at position `i` of the walk.
    pub fn key_at(&self, i: usize) -> (key: K)
        requires
            self.wf(),
            i < self.keys().len(),
        ensures
            key == self.keys()[i as int],
            self@.contains_key(key),
    {
        self.keys[i]
    }

    fn find(&self, key: &K) -> (found: Option<usize>)
        requires
            self.wf(),
        ensures
            match found {
                Some(i) => i < self.keys@.len() && self.keys@[i as int] == *key
                    && self.keys@.index_of(*key) == i,
                None => !self.keys@.contains(*key),
            },
    {
        let mut i: usize = 0;
        while i < self.keys.len()
            invariant
                self.wf(),
                i <= self.keys@.len(),
                forall|j: int| 0 <= j < i ==> self.keys@[j] != *key,
            decreases self.keys@.len() - i,
        {
            if self.keys[i].same(key) {
                return Some(i);
            }
            i += 1;
        }
        None
    }

    pub fn contains_key(&self, key: &K) -> (found: bool)
        requires
            self.wf(),
        ensures
            found == self@.contains_key(*key),
    {
        self.find(key).is_some()
    }

    pub fn get(&self, key: &K) -> (value: Option<&V>)
        requires
            self.wf(),
        ensures
            match value {
                Some(v) => self@.contains_key(*key) && *v == self@[*key],
                None => !self@.contains_key(*key),
            },
    {
        match self.find(key) {
            Some(i) => Some(&self.values[i]),
            None => None,
        }
    }

    pub fn get_mut(&mut self, key: &K) -> (value: Option<&mut V>)
        requires
            old(self).wf(),
        ensures
            final(self).wf(),
            final(self).keys() == old(self).keys(),
            match value {
                Some(v) => old(self)@.contains_key(*key) && *v == old(self)@[*key] && final(self)@
                    == old(self)@.insert(*key, *final(v)),
                None => !old(self)@.contains_key(*key) && final(self)@ == old(self)@,
            },
    {
        match self.find(key) {
            Some(i) => {
                let ghost before = *self;
                let v = &mut self.values[i];
                proof {
                    let after = Table { keys: before.keys, values: after_borrow(self).values };
                    assert(after@ =~= before@.insert(*key, *final(v)));
                }
                Some(v)
            },
            None => None,
        }
    }

    /// Maps `key` to `value`. A key that is new goes to the end of the walk.
    pub fn insert(&mut self, key: K, value: V)
        requires
            old(self).wf(),
        ensures
            final(self).wf(),
            final(self)@ == old(self)@.insert(key, value),
            final(self).keys() == if old(self)@.contains_key(key) {
                old(self).keys()
            } else {
                old(self).keys().push(key)
            },
    {
        let ghost before = *self;
        match self.find(&key) {
            Some(i) => {
                self.values.set(i, value);
                assert(self@ =~= before@.insert(key, value));
            },
            None => {
                self.keys.push(key);
                self.values.push(value);
                assert(self.keys@[before.keys@.len() as int] == key);
                assert forall|k: K| before.keys@.contains(k) implies self.keys@.contains(k)
                    && self.keys@.index_of(k) == before.keys@.index_of(k) by {
                    assert(self.keys@[before.keys@.index_of(k)] == k);
                }
                assert(self.keys@.index_of(key) == before.keys@.len());
                assert forall|k: K| self.keys@.contains(k) && k != key implies before.keys@.contains(
                    k,
                ) by {
                    assert(before.keys@[self.keys@.index_of(k)] == k);
                }
                assert(self@ =~= before@.insert(key, value));
            },
        }
    }

    /// Takes `key` out of the table and hands back its value. The walk order of
    /// the others is kept.
    pub fn remove(&mut self, key: &K) -> (value: Option<V>)
        requires
            old(self).wf(),
        ensures
            final(self).wf(),
            final(self)@ == old(self)@.remove(*key),
            final(self).keys() == old(self).keys().remove_value(*key),
            match value {
                Some(v) => old(self)@.contains_key(*key) && v == old(self)@[*key],
                None => !old(self)@.contains_key(*key),
            },
    {
        let ghost before = *self;
        match self.find(key) {
            Some(i) => {
                let _ = self.keys.remove(i);
                let value = self.values.remove(i);
                proof {
                    before.keys@.index_of_first_ensures(*key);
                    before.keys@.remove_ensures(i as int);
                    assert forall|k: K| self.keys@.contains(k) implies before.keys@.contains(k) && k
                        != *key && self.values@[self.keys@.index_of(k)]
                        == before.values@[before.keys@.index_of(k)] by {
                        let j = self.keys@.index_of(k);
                        if j < i {
                            assert(before.keys@[j] == k);
                        } else {
                            assert(before.keys@[j + 1] == k);
                        }
                    }
                    assert forall|k: K| before.keys@.contains(k) && k != *key implies self.keys@.contains(
                        k,
                    ) by {
                        let j = before.keys@.index_of(k);
                        if j < i {
                            assert(self.keys@[j] == k);
                        } else {
                            assert(self.keys@[j - 1] == k);
                        }
                    }
                    assert(self@ =~= before@.remove(*key));
                }
                Some(value)
            },
            None => {
                proof {
                    before.keys@.index_of_first_ensures(*key);
                    assert(self@ =~= before@.remove(*key));
                }
                None
            },
        }
    }
}

/// The chosen ones among `keys`, in the order of `keys`.
pub open spec fn in_order<K>(keys: Seq<K>, chosen: Set<K>) -> Seq<K>
    decreases keys.len(),
{
    if keys.len() == 0 {
        Seq::empty()
    } else {
        let earlier = in_order(keys.drop_last(), chosen);
        if chosen.contains(keys.last()) {
            earlier.push(keys.last())
        } else {
            earlier
        }
    }
}

/// Every chosen key occurs, and none occurs twice.
pub proof fn lemma_in_order<K>(keys: Seq<K>, chosen: Set<K>)
    requires
        keys.no_duplicates(),
    ensures
        in_order(keys, chosen).no_duplicates(),
        in_order(keys, chosen).to_set() == keys.to_set().intersect(chosen),
    decreases keys.len(),
{
    let picked = in_order(keys, chosen);
    if keys.len() > 0 {
        let rest = keys.drop_last();
        let earlier = in_order(rest, chosen);
        lemma_in_order(rest, chosen);
        assert forall|k: K| #[trigger] earlier.contains(k) <==> rest.contains(k) && chosen.contains(
            k,
        ) by {
            assert(earlier.to_set().contains(k) <==> rest.to_set().intersect(chosen).contains(k));
        }
        assert(!rest.contains(keys.last()));
        assert forall|i: int| 0 <= i < earlier.len() implies earlier[i] != keys.last() by {
            assert(earlier.contains(earlier[i]));
        }
        assert forall|k: K| keys.contains(k) <==> rest.contains(k) || k == keys.last() by {
            if keys.contains(k) && k != keys.last() {
                assert(rest[keys.index_of(k)] == k);
            }
            if rest.contains(k) {
                assert(keys[rest.index_of(k)] == k);
            }
            assert(keys[keys.len() - 1] == keys.last());
        }
        assert forall|k: K| picked.contains(k) <==> keys.contains(k) && chosen.contains(k) by {
            if chosen.contains(keys.last()) {
                assert(picked == earlier.push(keys.last()));
                if earlier.contains(k) {
                    assert(picked[earlier.index_of(k)] == k);
                }
                assert(picked[earlier.len() as int] == keys.last());
                if picked.contains(k) && k != keys.last() {
                    assert(earlier[picked.index_of(k)] == k);
                }
            }
        }
        assert(picked.to_set() =~= keys.to_set().intersect(chosen));
    } else {
        assert(picked.to_set() =~= keys.to_set().intersect(chosen));
    }
}

} // verus!
