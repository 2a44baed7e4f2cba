//! A map from integer keys to values, kept in the order of its keys.

use vstd::prelude::*;

verus! {

/// Whether the keys stand in strictly increasing order.
pub open spec fn strictly_increasing(keys: Seq<i128>) -> bool {
    forall|i: int, j: int| 0 <= i < j < keys.len() ==> keys[i] < keys[j]
}

/// A map from integer keys to values that is walked in the order of its keys.
///
/// `keys` and `values` run in parallel: `values[i]` belongs to `keys[i]`.
pub struct OrderedMap<V> {
    pub keys: Vec<i128>,
    pub values: Vec<V>,
}

impl<V> View for OrderedMap<V> {
    type V = Map<i128, V>;

    open spec fn view(&self) -> Map<i128, V> {
        Map::new(
            |k: i128| self.keys@.contains(k),
            |k: i128| self.values@[self.keys@.index_of(k)],
        )
    }
}

impl<V> OrderedMap<V> {
    /// Whether every key has its value and the keys strictly increase.
    pub open spec fn wf(&self) -> bool {
        &&& self.keys.len() == self.values.len()
        &&& strictly_increasing(self.keys@)
    }

    /// The entry at index `i` is the value of the key at index `i`.
    pub proof fn lemma_entry(&self, i: int)
        requires
            self.wf(),
            0 <= i < self.keys.len(),
        ensures
            self@.contains_key(self.keys[i]),
            self@[self.keys[i]] == self.values[i],
            self.keys@.index_of(self.keys[i]) == i,
    {
        let k = self.keys[i];
        assert(self.keys@.contains(k));
        let j = self.keys@.index_of(k);
        assert(0 <= j < self.keys.len() && self.keys[j] == k);
        if j < i {
            assert(self.keys[j] < self.keys[i]);
        } else if i < j {
            assert(self.keys[i] < self.keys[j]);
        }
    }

    /// A key of the map stands at some index.
    pub proof fn lemma_key_index(&self, k: i128)
        requires
            self.wf(),
            self@.contains_key(k),
        ensures
            0 <= self.keys@.index_of(k) < self.keys.len(),
            self.keys[self.keys@.index_of(k)] == k,
            self@[k] == self.values[self.keys@.index_of(k)],
    {
        assert(self.keys@.contains(k));
    }

    /// The map has as many entries as it has keys.
    pub proof fn lemma_len(&self)
        requires
            self.wf(),
        ensures
            self@.dom().finite(),
            self@.dom().len() == self.keys.len(),
            self@.dom() == self.keys@.to_set(),
    {
        assert(self@.dom() =~= self.keys@.to_set());
        assert(self.keys@.no_duplicates()) by {
            assert forall|i: int, j: int|
                0 <= i < self.keys.len() && 0 <= j < self.keys.len() && i != j implies self.keys[i]
                != self.keys[j] by {
                if i < j {
                    assert(self.keys[i] < self.keys[j]);
                } else {
                    assert(self.keys[j] < self.keys[i]);
                }
            }
        }
        self.keys@.unique_seq_to_set();
    }

    /// A map whose value at index `i` was replaced maps the key at `i` to
    /// the new value and every other key as before.
    pub proof fn lemma_value_replaced(&self, after: &OrderedMap<V>, i: int)
        requires
            self.wf(),
            0 <= i < self.keys.len(),
            after.keys@ == self.keys@,
            after.values@ == self.values@.update(i, after.values[i]),
            after.values.len() == self.values.len(),
        ensures
            after.wf(),
            after@ == self@.insert(self.keys[i], after.values[i]),
    {
        self.lemma_entry(i);
        let k = self.keys[i];
        let v = after.values[i];
        assert forall|key: i128| #[trigger] after@.contains_key(key) implies after@[key]
            == self@.insert(k, v)[key] by {
            after.lemma_key_index(key);
        }
        assert(after@ =~= self@.insert(k, v));
    }

    pub fn new() -> (result: OrderedMap<V>)
        ensures
            result.wf(),
            result@ == Map::<i128, V>::empty(),
            result.keys.len() == 0,
    {
        let result = OrderedMap { keys: Vec::new(), values: Vec::new() };
        assert(result@ =~= Map::<i128, V>::empty());
        result
    }

    pub fn len(&self) -> (result: usize)
        requires
            self.wf(),
        ensures
            result == self.keys.len(),
            result == self@.dom().len(),
    {
        proof {
            self.lemma_len();
        }
        self.keys.len()
    }

    /// The index of the first key that is not below `k`, and whether that
    /// key is `k`.
    pub fn find(&self, k: i128) -> (result: (usize, bool))
        requires
            self.wf(),
        ensures
            result.0 <= self.keys.len(),
            forall|i: int| 0 <= i < result.0 ==> self.keys[i] < k,
            forall|i: int| result.0 <= i < self.keys.len() ==> self.keys[i] >= k,
            result.1 <==> self@.contains_key(k),
            result.1 ==> result.0 < self.keys.len() && self.keys[result.0 as int] == k,
    {
        let mut low: usize = 0;
        let mut high: usize = self.keys.len();
        while low < high
            invariant
                self.wf(),
                low <= high <= self.keys.len(),
                forall|i: int| 0 <= i < low ==> self.keys[i] < k,
                forall|i: int| high <= i < self.keys.len() ==> self.keys[i] >= k,
            decreases high - low,
        {
            let middle: usize = low + (high - low) / 2;
            if self.keys[middle] < k {
                assert forall|i: int| 0 <= i < middle + 1 implies self.keys[i] < k by {
                    if i < middle {
                        assert(self.keys[i] < self.keys[middle as int]);
                    }
                }
                low = middle + 1;
            } else {
                assert forall|i: int| middle <= i < self.keys.len() implies self.keys[i] >= k by {
                    if middle < i {
                        assert(self.keys[middle as int] < self.keys[i]);
                    }
                }
                high = middle;
            }
        }
        let found = low < self.keys.len() && self.keys[low] == k;
        proof {
            if found {
                assert(self.keys@.contains(k));
            } else if self.keys@.contains(k) {
                let j = self.keys@.index_of(k);
                assert(self.keys[j] == k);
                if j > low {
                    assert(self.keys[low as int] < self.keys[j]);
                }
            }
        }
        (low, found)
    }

    pub fn contains_key(&self, k: i128) -> (result: bool)
        requires
            self.wf(),
        ensures
            result == self@.contains_key(k),
    {
        self.find(k).1
    }

    pub fn get(&self, k: i128) -> (result: Option<&V>)
        requires
            self.wf(),
        ensures
            result.is_some() == self@.contains_key(k),
            result.is_some() ==> *result.unwrap() == self@[k],
    {
        let (i, found) = self.find(k);
        if found {
            proof {
                self.lemma_entry(i as int);
            }
            Some(&self.values[i])
        } else {
            None
        }
    }

    /// The key at index `i`, counted in the order of the keys.
    pub fn key_at(&self, i: usize) -> (result: i128)
        requires
            self.wf(),
            i < self.keys.len(),
        ensures
            result == self.keys[i as int],
            self@.contains_key(result),
    {
        proof {
            self.lemma_entry(i as int);
        }
        self.keys[i]
    }

    /// The value at index `i`, counted in the order of the keys.
    pub fn value_at(&self, i: usize) -> (result: &V)
        requires
            self.wf(),
            i < self.keys.len(),
        ensures
            *result == self.values[i as int],
            *result == self@[self.keys[i as int]],
    {
        proof {
            self.lemma_entry(i as int);
        }
        &self.values[i]
    }

    /// Puts `v` in place of the value at index `i` and returns the old value.
    pub fn replace_at(&mut self, i: usize, v: V) -> (result: V)
        requires
            old(self).wf(),
            i < old(self).keys.len(),
        ensures
            final(self).wf(),
            final(self).keys@ == old(self).keys@,
            final(self).values@ == old(self).values@.update(i as int, v),
            final(self)@ == old(self)@.insert(old(self).keys[i as int], v),
            result == old(self).values[i as int],
    {
        self.values.push(v);
        let previous = self.values.swap_remove(i);
        proof {
            assert(self.values@ =~= old(self).values@.update(i as int, v));
            old(self).lemma_entry(i as int);
            let k = self.keys[i as int];
            assert forall|key: i128| #[trigger] self@.contains_key(key) implies self@[key] == old(
                self,
            )@.insert(k, v)[key] by {
                self.lemma_key_index(key);
            }
            assert(self@ =~= old(self)@.insert(k, v));
        }
        previous
    }

    /// Sets the value of `k` and returns the value it had.
    pub fn insert(&mut self, k: i128, v: V) -> (result: Option<V>)
        requires
            old(self).wf(),
        ensures
            final(self).wf(),
            final(self)@ == old(self)@.insert(k, v),
            result.is_some() == old(self)@.contains_key(k),
            result.is_some() ==> result.unwrap() == old(self)@[k],
            !old(self)@.contains_key(k) ==> final(self).keys.len() == old(self).keys.len() + 1,
            old(self)@.contains_key(k) ==> final(self).keys@ == old(self).keys@,
    {
        let (i, found) = self.find(k);
        if found {
            proof {
                self.lemma_entry(i as int);
            }
            Some(self.replace_at(i, v))
        } else {
            self.keys.insert(i, k);
            self.values.insert(i, v);
            proof {
                let old_keys = old(self).keys@;
                let new_keys = self.keys@;
                assert(strictly_increasing(new_keys)) by {
                    assert forall|a: int, b: int| 0 <= a < b < new_keys.len() implies new_keys[a]
                        < new_keys[b] by {
                        let oa = if a < i { a } else { a - 1 };
                        let ob = if b < i { b } else { b - 1 };
                        if a != i && b != i {
                            assert(old_keys[oa] < old_keys[ob]);
                        }
                    }
                }
                assert forall|key: i128| self@.contains_key(key) <==> old(self)@.insert(
                    k,
                    v,
                ).contains_key(key) by {
                    if old_keys.contains(key) {
                        let j = old_keys.index_of(key);
                        let nj = if j < i { j } else { j + 1 };
                        assert(new_keys[nj] == key);
                    }
                    if key == k {
                        assert(new_keys[i as int] == k);
                    }
                    if new_keys.contains(key) && key != k {
                        let j = new_keys.index_of(key);
                        let oj = if j < i { j } else { j - 1 };
                        assert(old_keys[oj] == key);
                    }
                }
                assert forall|key: i128| #[trigger] self@.contains_key(key) implies self@[key]
                    == old(self)@.insert(k, v)[key] by {
                    self.lemma_key_index(key);
                    let j = new_keys.index_of(key);
                    if key != k {
                        let oj = if j < i { j } else { j - 1 };
                        assert(old_keys[oj] == key);
                        old(self).lemma_entry(oj);
                    } else {
                        self.lemma_entry(i as int);
                    }
                }
                assert(self@ =~= old(self)@.insert(k, v));
            }
            None
        }
    }

    /// Takes the entry of `k` out of the map and returns its value.
    pub fn remove(&mut self, k: i128) -> (result: Option<V>)
        requires
            old(self).wf(),
        ensures
            final(self).wf(),
            final(self)@ == old(self)@.remove(k),
            result.is_some() == old(self)@.contains_key(k),
            result.is_some() ==> result.unwrap() == old(self)@[k],
    {
        let (i, found) = self.find(k);
        if found {
            proof {
                self.lemma_entry(i as int);
            }
            self.keys.remove(i);
            let value = self.values.remove(i);
            proof {
                let old_keys = old(self).keys@;
                let new_keys = self.keys@;
                assert(strictly_increasing(new_keys)) by {
                    assert forall|a: int, b: int| 0 <= a < b < new_keys.len() implies new_keys[a]
                        < new_keys[b] by {
                        let oa = if a < i { a } else { a + 1 };
                        let ob = if b < i { b } else { b + 1 };
                        assert(old_keys[oa] < old_keys[ob]);
                    }
                }
                assert forall|key: i128| self@.contains_key(key) <==> old(self)@.remove(
                    k,
                ).contains_key(key) by {
                    if old_keys.contains(key) && key != k {
                        let j = old_keys.index_of(key);
                        let nj = if j < i { j } else { j - 1 };
                        assert(new_keys[nj] == key);
                    }
                    if new_keys.contains(key) {
                        let j = new_keys.index_of(key);
                        let oj = if j < i { j } else { j + 1 };
                        assert(old_keys[oj] == key);
                        if key == k {
                            old(self).lemma_entry(oj);
                        }
                    }
                }
                assert forall|key: i128| #[trigger] self@.contains_key(key) implies self@[key]
                    == old(self)@.remove(k)[key] by {
                    self.lemma_key_index(key);
                    let j = new_keys.index_of(key);
                    let oj = if j < i { j } else { j + 1 };
                    assert(old_keys[oj] == key);
                    old(self).lemma_entry(oj);
                }
                assert(self@ =~= old(self)@.remove(k));
            }
            Some(value)
        } else {
            proof {
                assert(self@ =~= old(self)@.remove(k));
            }
            None
        }
    }

    /// Takes the entry with the smallest key out of the map.
    pub fn pop_first(&mut self) -> (result: Option<(i128, V)>)
        requires
            old(self).wf(),
        ensures
            final(self).wf(),
            result.is_none() == (old(self).keys.len() == 0),
            result.is_none() ==> final(self)@ == old(self)@,
            result.is_some() ==> {
                &&& old(self)@.contains_key(result.unwrap().0)
                &&& result.unwrap().0 == old(self).keys[0]
                &&& result.unwrap().1 == old(self)@[result.unwrap().0]
                &&& final(self)@ == old(self)@.remove(result.unwrap().0)
                &&& final(self).keys.len() + 1 == old(self).keys.len()
            },
    {
        if self.keys.len() == 0 {
            return None;
        }
        let key = self.keys[0];
        proof {
            self.lemma_entry(0);
        }
        match self.remove(key) {
            Some(value) => {
                proof {
                    self.lemma_len();
                    old(self).lemma_len();
                }
                Some((key, value))
            },
            None => None,
        }
    }
}

} // verus!
