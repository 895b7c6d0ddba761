//! An association from string keys to values with unique keys: the
//! explicit table value behind both the server's handler registry and
//! the client's correlation table.

use vstd::prelude::*;

verus! {

/// The map denoted by a run of key-value entries, later entries winning.
spec fn map_of<V>(entries: Seq<(String, V)>) -> Map<Seq<char>, V>
    decreases entries.len(),
{
    if entries.len() == 0 {
        Map::empty()
    } else {
        map_of(entries.drop_last()).insert(entries.last().0@, entries.last().1)
    }
}

/// No two entries bind the same key.
spec fn unique_keys<V>(entries: Seq<(String, V)>) -> bool {
    forall|i: int, j: int|
        0 <= i < j < entries.len() ==> (#[trigger] entries[i]).0@ != (#[trigger] entries[j]).0@
}

/// A key is in the map exactly when some entry binds it.
proof fn lemma_map_of_contains<V>(entries: Seq<(String, V)>, k: Seq<char>)
    ensures
        map_of(entries).contains_key(k) <==> exists|i: int|
            0 <= i < entries.len() && (#[trigger] entries[i]).0@ == k,
    decreases entries.len(),
{
    if entries.len() > 0 {
        lemma_map_of_contains(entries.drop_last(), k);
        let last = entries.len() - 1;
        if entries.last().0@ == k {
            assert(entries[last].0@ == k);
        } else if map_of(entries).contains_key(k) {
            let i = choose|i: int|
                0 <= i < entries.drop_last().len() && (#[trigger] entries.drop_last()[i]).0@ == k;
            assert(entries[i].0@ == k);
        } else if exists|i: int| 0 <= i < entries.len() && (#[trigger] entries[i]).0@ == k {
            let i = choose|i: int| 0 <= i < entries.len() && (#[trigger] entries[i]).0@ == k;
            assert(i < last);
            assert(entries.drop_last()[i].0@ == k);
        }
    }
}

/// With unique keys, the map sends each entry's key to that entry's
/// value.
proof fn lemma_map_of_get<V>(entries: Seq<(String, V)>, i: int)
    requires
        0 <= i < entries.len(),
        unique_keys(entries),
    ensures
        map_of(entries).contains_key(entries[i].0@),
        map_of(entries)[entries[i].0@] == entries[i].1,
    decreases entries.len(),
{
    let last = entries.len() - 1;
    if i < last {
        assert(unique_keys(entries.drop_last())) by {
            assert forall|a: int, b: int| 0 <= a < b < entries.drop_last().len() implies (
            #[trigger] entries.drop_last()[a]).0@ != (#[trigger] entries.drop_last()[b]).0@ by {
                assert(entries[a].0@ != entries[b].0@);
            }
        }
        assert(entries.drop_last()[i] == entries[i]);
        lemma_map_of_get(entries.drop_last(), i);
        assert(entries[i].0@ != entries[last].0@);
    }
}

/// Replacing the entry that binds a key replaces that key's value in the
/// map and touches nothing else.
proof fn lemma_map_of_update<V>(entries: Seq<(String, V)>, i: int, e: (String, V))
    requires
        0 <= i < entries.len(),
        unique_keys(entries),
        e.0@ == entries[i].0@,
    ensures
        map_of(entries.update(i, e)) == map_of(entries).insert(e.0@, e.1),
    decreases entries.len(),
{
    let last = entries.len() - 1;
    if i == last {
        assert(entries.update(i, e).drop_last() =~= entries.drop_last());
        assert(entries.update(i, e).last() == e);
        assert(map_of(entries.drop_last()).insert(entries.last().0@, entries.last().1).insert(
            e.0@,
            e.1,
        ) =~= map_of(entries.drop_last()).insert(e.0@, e.1));
    } else {
        assert(unique_keys(entries.drop_last())) by {
            assert forall|a: int, b: int| 0 <= a < b < entries.drop_last().len() implies (
            #[trigger] entries.drop_last()[a]).0@ != (#[trigger] entries.drop_last()[b]).0@ by {
                assert(entries[a].0@ != entries[b].0@);
            }
        }
        assert(entries.drop_last()[i] == entries[i]);
        lemma_map_of_update(entries.drop_last(), i, e);
        assert(entries.update(i, e).drop_last() =~= entries.drop_last().update(i, e));
        assert(entries.update(i, e).last() == entries.last());
        assert(entries[i].0@ != entries[last].0@);
        assert(map_of(entries.drop_last()).insert(e.0@, e.1).insert(
            entries.last().0@,
            entries.last().1,
        ) =~= map_of(entries.drop_last()).insert(entries.last().0@, entries.last().1).insert(
            e.0@,
            e.1,
        ));
    }
}

/// Removing the entry that binds a key removes that key from the map
/// and touches nothing else.
proof fn lemma_map_of_remove<V>(entries: Seq<(String, V)>, i: int)
    requires
        0 <= i < entries.len(),
        unique_keys(entries),
    ensures
        map_of(entries.remove(i)) == map_of(entries).remove(entries[i].0@),
    decreases entries.len(),
{
    let last = entries.len() - 1;
    let k = entries[i].0@;
    if i == last {
        assert(entries.remove(i) =~= entries.drop_last());
        assert forall|j: int| 0 <= j < entries.drop_last().len() implies (
        #[trigger] entries.drop_last()[j]).0@ != k by {
            assert(entries[j].0@ != entries[last].0@);
        }
        lemma_map_of_contains(entries.drop_last(), k);
        assert(!map_of(entries.drop_last()).contains_key(k));
        assert(map_of(entries.drop_last()).insert(k, entries.last().1).remove(k) =~= map_of(
            entries.drop_last(),
        ));
    } else {
        assert(unique_keys(entries.drop_last())) by {
            assert forall|a: int, b: int| 0 <= a < b < entries.drop_last().len() implies (
            #[trigger] entries.drop_last()[a]).0@ != (#[trigger] entries.drop_last()[b]).0@ by {
                assert(entries[a].0@ != entries[b].0@);
            }
        }
        assert(entries.drop_last()[i] == entries[i]);
        lemma_map_of_remove(entries.drop_last(), i);
        assert(entries.remove(i).drop_last() =~= entries.drop_last().remove(i));
        assert(entries.remove(i).last() == entries.last());
        assert(entries[i].0@ != entries[last].0@);
        assert(map_of(entries.drop_last()).remove(k).insert(
            entries.last().0@,
            entries.last().1,
        ) =~= map_of(entries.drop_last()).insert(entries.last().0@, entries.last().1).remove(k));
    }
}

/// An association from string keys to values. At most one value is bound
/// to each key.
pub struct StrMap<V> {
    entries: Vec<(String, V)>,
}

impl<V> StrMap<V> {
    /// The map this table denotes.
    pub closed spec fn as_map(self) -> Map<Seq<char>, V> {
        map_of(self.entries@)
    }

    /// The table's internal invariant: no key is bound twice.
    pub closed spec fn wf(self) -> bool {
        unique_keys(self.entries@)
    }

    /// An empty table.
    pub fn new() -> (r: StrMap<V>)
        ensures
            r.wf(),
            r.as_map() == Map::<Seq<char>, V>::empty(),
    {
        let r = StrMap { entries: Vec::new() };
        proof {
            assert(r.entries@.len() == 0);
        }
        r
    }

    /// The position of the entry binding `key`, if any.
    fn find(&self, key: &String) -> (r: Option<usize>)
        ensures
            (match r {
                Some(i) => i < self.entries@.len() && self.entries@[i as int].0@ == key@,
                None => forall|j: int|
                    0 <= j < self.entries@.len() ==> (#[trigger] self.entries@[j]).0@ != key@,
            }),
    {
        let mut i: usize = 0;
        while i < self.entries.len()
            invariant
                i <= self.entries@.len(),
                forall|j: int| 0 <= j < i ==> (#[trigger] self.entries@[j]).0@ != key@,
            decreases self.entries@.len() - i,
        {
            if self.entries[i].0 == *key {
                return Some(i);
            }
            i += 1;
        }
        None
    }

    /// The value bound to `key`, if any.
    pub fn get(&self, key: &String) -> (r: Option<&V>)
        requires
            self.wf(),
        ensures
            (match r {
                Some(v) => self.as_map().contains_key(key@) && *v == self.as_map()[key@],
                None => !self.as_map().contains_key(key@),
            }),
    {
        match self.find(key) {
            Some(i) => {
                proof {
                    lemma_map_of_get(self.entries@, i as int);
                }
                Some(&self.entries[i].1)
            },
            None => {
                proof {
                    lemma_map_of_contains(self.entries@, key@);
                }
                None
            },
        }
    }

    /// Bind `key` to `value`, silently replacing any value it was bound
    /// to before.
    pub fn insert(&mut self, key: String, value: V)
        requires
            old(self).wf(),
        ensures
            final(self).wf(),
            final(self).as_map() == old(self).as_map().insert(key@, value),
    {
        let ghost gkey = key@;
        let ghost pre = self.entries@;
        match self.find(&key) {
            Some(i) => {
                proof {
                    lemma_map_of_update(pre, i as int, (key, value));
                }
                self.entries[i] = (key, value);
                proof {
                    assert(self.entries@ == pre.update(i as int, (key, value)));
                    assert forall|a: int, b: int| 0 <= a < b < self.entries@.len() implies (
                    #[trigger] self.entries@[a]).0@ != (#[trigger] self.entries@[b]).0@ by {
                        assert(pre[a].0@ != pre[b].0@);
                        assert(pre[i as int].0@ == gkey);
                    }
                }
            },
            None => {
                self.entries.push((key, value));
                proof {
                    assert(self.entries@.drop_last() =~= pre);
                    assert(self.entries@.last() == (key, value));
                    assert forall|a: int, b: int| 0 <= a < b < self.entries@.len() implies (
                    #[trigger] self.entries@[a]).0@ != (#[trigger] self.entries@[b]).0@ by {
                        if b < pre.len() {
                            assert(pre[a].0@ != pre[b].0@);
                        } else {
                            assert(pre[a].0@ != gkey);
                        }
                    }
                }
            },
        }
    }

    /// Bind `key` to `value` only if it is not bound yet; report whether
    /// it was fresh. A key already bound keeps its value.
    pub fn insert_fresh(&mut self, key: String, value: V) -> (r: bool)
        requires
            old(self).wf(),
        ensures
            final(self).wf(),
            r == !old(self).as_map().contains_key(key@),
            r ==> final(self).as_map() == old(self).as_map().insert(key@, value),
            !r ==> *final(self) == *old(self),
    {
        let ghost gkey = key@;
        let ghost pre = self.entries@;
        match self.find(&key) {
            Some(_) => {
                proof {
                    lemma_map_of_contains(pre, gkey);
                }
                false
            },
            None => {
                proof {
                    lemma_map_of_contains(pre, gkey);
                }
                self.entries.push((key, value));
                proof {
                    assert(self.entries@.drop_last() =~= pre);
                    assert(self.entries@.last() == (key, value));
                    assert forall|a: int, b: int| 0 <= a < b < self.entries@.len() implies (
                    #[trigger] self.entries@[a]).0@ != (#[trigger] self.entries@[b]).0@ by {
                        if b < pre.len() {
                            assert(pre[a].0@ != pre[b].0@);
                        } else {
                            assert(pre[a].0@ != gkey);
                        }
                    }
                }
                true
            },
        }
    }

    /// Unbind `key`, handing back the value it was bound to, if any.
    pub fn remove(&mut self, key: &String) -> (r: Option<V>)
        requires
            old(self).wf(),
        ensures
            final(self).wf(),
            (match r {
                Some(v) => old(self).as_map().contains_key(key@) && v == old(self).as_map()[key@]
                    && final(self).as_map() == old(self).as_map().remove(key@),
                None => !old(self).as_map().contains_key(key@) && *final(self) == *old(self),
            }),
    {
        let ghost pre = self.entries@;
        match self.find(key) {
            Some(i) => {
                proof {
                    lemma_map_of_get(pre, i as int);
                    lemma_map_of_remove(pre, i as int);
                }
                let entry = self.entries.remove(i);
                proof {
                    assert(self.entries@ == pre.remove(i as int));
                    assert forall|a: int, b: int| 0 <= a < b < self.entries@.len() implies (
                    #[trigger] self.entries@[a]).0@ != (#[trigger] self.entries@[b]).0@ by {
                        let a0: int = if a < i { a } else { a + 1 };
                        let b0: int = if b < i { b } else { b + 1 };
                        assert(self.entries@[a] == pre[a0]);
                        assert(self.entries@[b] == pre[b0]);
                        assert(pre[a0].0@ != pre[b0].0@);
                    }
                }
                Some(entry.1)
            },
            None => {
                proof {
                    lemma_map_of_contains(pre, key@);
                }
                None
            },
        }
    }
}

} // verus!
