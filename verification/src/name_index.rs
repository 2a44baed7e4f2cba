//! A map from names to values, searched name by name.

use vstd::prelude::*;

verus! {

/// A name and the value it resolves to.
pub struct Named<V> {
    pub name: String,
    pub value: V,
}

/// The index of the first entry at or after `from` with the name `name`, or
/// the number of entries where there is none.
pub open spec fn position_of<V>(entries: Seq<Named<V>>, name: Seq<char>, from: int) -> int
    decreases entries.len() - from,
{
    if from < 0 || from >= entries.len() {
        entries.len() as int
    } else if entries[from].name@ == name {
        from
    } else {
        position_of(entries, name, from + 1)
    }
}

/// `position_of` returns an index in range that carries the name, or the
/// length when no entry from `from` on carries it.
pub proof fn lemma_position_of<V>(entries: Seq<Named<V>>, name: Seq<char>, from: int)
    requires
        0 <= from <= entries.len(),
    ensures
        from <= position_of(entries, name, from) <= entries.len(),
        position_of(entries, name, from) < entries.len() ==> entries[position_of(
            entries,
            name,
            from,
        )].name@ == name,
        forall|i: int|
            from <= i < position_of(entries, name, from) ==> (#[trigger] entries[i]).name@ != name,
    decreases entries.len() - from,
{
    if from < entries.len() && entries[from].name@ != name {
        lemma_position_of(entries, name, from + 1);
    }
}

/// The first entry with a name is found from wherever the search starts
/// before it.
pub proof fn lemma_position_is<V>(entries: Seq<Named<V>>, name: Seq<char>, from: int, at: int)
    requires
        0 <= from <= at <= entries.len(),
        at < entries.len() ==> entries[at].name@ == name,
        forall|i: int| from <= i < at ==> (#[trigger] entries[i]).name@ != name,
    ensures
        position_of(entries, name, from) == at,
    decreases at - from,
{
    if from < at {
        lemma_position_is(entries, name, from + 1, at);
    }
}

/// A map from names to values. No name occurs twice.
pub struct NameIndex<V> {
    pub entries: Vec<Named<V>>,
}

impl<V> View for NameIndex<V> {
    type V = Map<Seq<char>, V>;

    open spec fn view(&self) -> Map<Seq<char>, V> {
        Map::new(
            |name: Seq<char>| position_of(self.entries@, name, 0) < self.entries.len(),
            |name: Seq<char>| self.entries@[position_of(self.entries@, name, 0)].value,
        )
    }
}

impl<V: Copy> NameIndex<V> {
    /// Whether no name occurs twice.
    pub open spec fn wf(&self) -> bool {
        forall|i: int, j: int|
            0 <= i < j < self.entries.len() ==> (#[trigger] self.entries[i]).name@
                != (#[trigger] self.entries[j]).name@
    }

    pub fn new() -> (result: Self)
        ensures
            result.wf(),
            result@ == Map::<Seq<char>, V>::empty(),
    {
        let result = NameIndex { entries: Vec::new() };
        assert(result@ =~= Map::<Seq<char>, V>::empty());
        result
    }

    fn find(&self, name: &String) -> (result: usize)
        ensures
            result == position_of(self.entries@, name@, 0),
            result <= self.entries.len(),
            result < self.entries.len() ==> self.entries[result as int].name@ == name@,
    {
        let mut i: usize = 0;
        proof {
            lemma_position_of(self.entries@, name@, 0);
        }
        while i < self.entries.len()
            invariant
                i <= self.entries.len(),
                position_of(self.entries@, name@, i as int) == position_of(self.entries@, name@, 0),
            decreases self.entries.len() - i,
        {
            if self.entries[i].name == *name {
                return i;
            }
            i += 1;
        }
        i
    }

    /// The value that `name` resolves to.
    pub fn get(&self, name: &String) -> (result: Option<V>)
        ensures
            result.is_some() == self@.contains_key(name@),
            result.is_some() ==> result.unwrap() == self@[name@],
    {
        let at = self.find(name);
        if at < self.entries.len() {
            Some(self.entries[at].value)
        } else {
            None
        }
    }

    /// Lets `name` resolve to `value`.
    pub fn insert(&mut self, name: String, value: V)
        requires
            old(self).wf(),
        ensures
            final(self).wf(),
            final(self)@ == old(self)@.insert(name@, value),
    {
        let at = self.find(&name);
        let ghost before = self.entries@;
        let ghost key = name@;
        proof {
            lemma_position_of(before, key, 0);
        }
        if at < self.entries.len() {
            self.entries[at].value = value;
        } else {
            self.entries.push(Named { name, value });
        }
        proof {
            let after = self.entries@;
            let target = old(self)@.insert(key, value);
            assert(after.len() >= before.len());
            assert(forall|i: int| 0 <= i < before.len() ==> (#[trigger] after[i]).name@
                == before[i].name@);
            assert forall|n: Seq<char>|
                self@.dom().contains(n) == #[trigger] target.dom().contains(n) && (
                target.dom().contains(n) ==> self@[n] == target[n]) by {
                lemma_position_of(before, n, 0);
                lemma_position_of(after, n, 0);
                let o = position_of(before, n, 0);
                if n == key {
                    assert forall|i: int| 0 <= i < at implies (#[trigger] after[i]).name@ != n by {
                        assert(before[i].name@ != n);
                    }
                    lemma_position_is(after, n, 0, at as int);
                } else if o < before.len() {
                    assert(after[o].name@ == n);
                    assert forall|i: int| 0 <= i < o implies (#[trigger] after[i]).name@ != n by {
                        assert(before[i].name@ != n);
                    }
                    lemma_position_is(after, n, 0, o);
                    assert(after[o].value == before[o].value);
                } else {
                    assert forall|i: int| 0 <= i < after.len() implies (#[trigger] after[i]).name@
                        != n by {
                        if i < before.len() {
                            assert(before[i].name@ != n);
                        }
                    }
                    lemma_position_is(after, n, 0, after.len() as int);
                }
            }
            assert(self@.dom() =~= target.dom());
            assert(self@ =~= target);
            assert forall|i: int, j: int| 0 <= i < j < after.len() implies (#[trigger] after[i]).name@
                != (#[trigger] after[j]).name@ by {
                if j < before.len() {
                    assert(before[i].name@ != before[j].name@);
                } else {
                    assert(before[i].name@ != key);
                }
            }
        }
    }

    /// Forgets `name`.
    pub fn remove(&mut self, name: &String)
        requires
            old(self).wf(),
        ensures
            final(self).wf(),
            final(self)@ == old(self)@.remove(name@),
    {
        let at = self.find(name);
        let ghost before = self.entries@;
        proof {
            lemma_position_of(before, name@, 0);
        }
        if at < self.entries.len() {
            self.entries.remove(at);
            proof {
                let after = self.entries@;
                let target = old(self)@.remove(name@);
                assert(forall|i: int| 0 <= i < at ==> (#[trigger] after[i]) == before[i]);
                assert(forall|i: int| at <= i < after.len() ==> (#[trigger] after[i]) == before[i + 1]);
                assert forall|n: Seq<char>|
                    self@.dom().contains(n) == #[trigger] target.dom().contains(n) && (
                    target.dom().contains(n) ==> self@[n] == target[n]) by {
                    lemma_position_of(before, n, 0);
                    let o = position_of(before, n, 0);
                    if n == name@ {
                        assert forall|i: int| 0 <= i < after.len() implies (#[trigger] after[i]).name@
                            != n by {
                            if i < at {
                                assert(before[i].name@ != before[at as int].name@);
                            } else {
                                assert(before[at as int].name@ != before[i + 1].name@);
                            }
                        }
                        lemma_position_is(after, n, 0, after.len() as int);
                    } else if o < before.len() {
                        let shifted = if o < at { o } else { o - 1 };
                        assert(after[shifted] == before[o]);
                        assert forall|i: int| 0 <= i < shifted implies (#[trigger] after[i]).name@
                            != n by {
                            if i < at {
                                assert(before[i].name@ != n);
                            } else {
                                assert(before[i + 1].name@ != n);
                            }
                        }
                        lemma_position_is(after, n, 0, shifted);
                    } else {
                        assert forall|i: int| 0 <= i < after.len() implies (#[trigger] after[i]).name@
                            != n by {
                            if i < at {
                                assert(before[i].name@ != n);
                            } else {
                                assert(before[i + 1].name@ != n);
                            }
                        }
                        lemma_position_is(after, n, 0, after.len() as int);
                    }
                }
                assert(self@.dom() =~= target.dom());
                assert(self@ =~= target);
                assert forall|i: int,
                    j: int| 0 <= i < j < after.len() implies (#[trigger] after[i]).name@
                    != (#[trigger] after[j]).name@ by {
                    let oi = if i < at { i } else { i + 1 };
                    let oj = if j < at { j } else { j + 1 };
                    assert(before[oi].name@ != before[oj].name@);
                }
            }
        } else {
            proof {
                assert(self@ =~= old(self)@.remove(name@));
            }
        }
    }
}

} // verus!
