//! A map keyed by shard number, walked in ascending order.

use vstd::prelude::*;

verus! {

/// Entries in ascending order of shard number.
#[derive(Debug)]
pub struct ShardMap<V> {
    entries: Vec<(u32, V)>,
}

/// Whether keys ascend.
pub open spec fn ascending<V>(entries: Seq<(u32, V)>) -> bool {
    forall|i: int, j: int|
        0 <= i < j < entries.len() ==> (#[trigger] entries[i]).0 < (#[trigger] entries[j]).0
}

/// The map that a list of entries with different keys is.
pub open spec fn entry_map<V>(entries: Seq<(u32, V)>) -> Map<u32, V>
    decreases entries.len(),
{
    if entries.len() == 0 {
        Map::empty()
    } else {
        entry_map(entries.drop_last()).insert(entries.last().0, entries.last().1)
    }
}

proof fn lemma_entry_map<V>(entries: Seq<(u32, V)>)
    requires
        ascending(entries),
    ensures
        forall|k: u32| #[trigger] entry_map(entries).dom().contains(k) <==> exists|i: int|
            0 <= i < entries.len() && (#[trigger] entries[i]).0 == k,
        forall|i: int|
            0 <= i < entries.len() ==> entry_map(entries)[(#[trigger] entries[i]).0]
                == entries[i].1,
    decreases entries.len(),
{
    if entries.len() > 0 {
        let rest = entries.drop_last();
        lemma_entry_map(rest);
        assert forall|k: u32| #[trigger] entry_map(entries).dom().contains(k) <==> exists|i: int|
            0 <= i < entries.len() && (#[trigger] entries[i]).0 == k by {
            if entry_map(entries).dom().contains(k) && k != entries.last().0 {
                assert(entry_map(rest).dom().contains(k));
                let i = choose|i: int| 0 <= i < rest.len() && (#[trigger] rest[i]).0 == k;
                assert(entries[i].0 == k);
            }
            if entry_map(entries).dom().contains(k) && k == entries.last().0 {
                assert(entries[entries.len() - 1].0 == k);
            }
            if exists|i: int| 0 <= i < entries.len() && (#[trigger] entries[i]).0 == k {
                let i = choose|i: int| 0 <= i < entries.len() && (#[trigger] entries[i]).0 == k;
                if i < rest.len() {
                    assert(rest[i].0 == k);
                    assert(entry_map(rest).dom().contains(k));
                }
            }
        }
        assert forall|i: int| 0 <= i < entries.len() implies entry_map(
            entries,
        )[(#[trigger] entries[i]).0] == entries[i].1 by {
            if i < rest.len() {
                assert(rest[i] == entries[i]);
                assert(entries[i].0 < entries[entries.len() - 1].0);
            }
        }
    }
}

proof fn lemma_entry_count<V>(entries: Seq<(u32, V)>)
    requires
        ascending(entries),
    ensures
        entry_map(entries).dom().finite(),
        entry_map(entries).dom().len() == entries.len(),
    decreases entries.len(),
{
    if entries.len() > 0 {
        let rest = entries.drop_last();
        lemma_entry_count(rest);
        lemma_entry_map(rest);
        let k = entries.last().0;
        if entry_map(rest).dom().contains(k) {
            let i = choose|i: int| 0 <= i < rest.len() && (#[trigger] rest[i]).0 == k;
            assert(entries[i].0 < entries[entries.len() - 1].0);
        }
        assert(entry_map(entries).dom() =~= entry_map(rest).dom().insert(k));
    }
}

/// Two ascending lists with the same entries are the same map; used to compare maps by lists.
proof fn lemma_map_by_entries<V>(entries: Seq<(u32, V)>, m: Map<u32, V>)
    requires
        ascending(entries),
        forall|i: int|
            0 <= i < entries.len() ==> m.dom().contains((#[trigger] entries[i]).0)
                && m[entries[i].0] == entries[i].1,
        forall|k: u32| #[trigger] m.dom().contains(k) ==> exists|i: int|
            0 <= i < entries.len() && (#[trigger] entries[i]).0 == k,
    ensures
        entry_map(entries) =~= m,
{
    lemma_entry_map(entries);
    assert forall|k: u32| #[trigger] m.dom().contains(k) implies entry_map(entries).dom().contains(
        k,
    ) && entry_map(entries)[k] == m[k] by {
        let i = choose|i: int| 0 <= i < entries.len() && (#[trigger] entries[i]).0 == k;
        assert(entry_map(entries)[entries[i].0] == entries[i].1);
    }
    assert forall|k: u32| #[trigger] entry_map(entries).dom().contains(k) implies m.dom().contains(
        k,
    ) by {
        let i = choose|i: int| 0 <= i < entries.len() && (#[trigger] entries[i]).0 == k;
    }
}

impl<V> View for ShardMap<V> {
    type V = Map<u32, V>;

    closed spec fn view(&self) -> Map<u32, V> {
        entry_map(self.entries@)
    }
}

impl<V> ShardMap<V> {
    /// The entries in order.
    pub closed spec fn list(&self) -> Seq<(u32, V)> {
        self.entries@
    }

    /// Whether the entries ascend and are those of the map.
    pub open spec fn wf(&self) -> bool {
        ascending(self.list()) && self@ == entry_map(self.list())
    }

    /// An entry of the list is one of the map.
    pub proof fn lemma_listed(&self, i: int)
        requires
            self.wf(),
            0 <= i < self.list().len(),
        ensures
            self@.dom().contains(self.list()[i].0),
            self@[self.list()[i].0] == self.list()[i].1,
    {
        lemma_entry_map(self.entries@);
    }

    /// Every key of the map is in the list.
    pub proof fn lemma_all_listed(&self, key: u32)
        requires
            self.wf(),
            self@.dom().contains(key),
        ensures
            exists|i: int| 0 <= i < self.list().len() && (#[trigger] self.list()[i]).0 == key,
    {
        lemma_entry_map(self.entries@);
        let i = choose|i: int|
            0 <= i < self.entries@.len() && (#[trigger] self.entries@[i]).0 == key;
        assert(self.list()[i].0 == key);
    }

    /// The list has as many entries as the map.
    pub proof fn lemma_counted(&self)
        requires
            self.wf(),
        ensures
            self@.dom().finite(),
            self@.dom().len() == self.list().len(),
    {
        lemma_entry_count(self.list());
    }

    pub fn new() -> (r: ShardMap<V>)
        ensures
            r.wf(),
            r@ == Map::<u32, V>::empty(),
            r.list() == Seq::<(u32, V)>::empty(),
    {
        let r = ShardMap { entries: Vec::new() };
        assert(r.entries@ =~= Seq::empty());
        r
    }

    pub fn len(&self) -> (r: usize)
        ensures
            r == self.list().len(),
    {
        self.entries.len()
    }

    /// The key of the entry at a place in the order.
    pub fn key_at(&self, i: usize) -> (r: u32)
        requires
            i < self.list().len(),
        ensures
            r == self.list()[i as int].0,
    {
        self.entries[i].0
    }

    /// The value of the entry at a place in the order.
    pub fn value_at(&self, i: usize) -> (r: &V)
        requires
            i < self.list().len(),
        ensures
            *r == self.list()[i as int].1,
    {
        &self.entries[i].1
    }

    /// The first place whose key is not below `key`.
    fn place(&self, key: u32) -> (r: usize)
        requires
            self.wf(),
        ensures
            r <= self.entries@.len(),
            forall|i: int| 0 <= i < r ==> (#[trigger] self.entries@[i]).0 < key,
            forall|i: int| r <= i < self.entries@.len() ==> (#[trigger] self.entries@[i]).0 >= key,
    {
        let mut at: usize = 0;
        while at < self.entries.len() && self.entries[at].0 < key
            invariant
                self.wf(),
                at <= self.entries@.len(),
                forall|i: int| 0 <= i < at ==> (#[trigger] self.entries@[i]).0 < key,
            decreases self.entries@.len() - at,
        {
            at = at + 1;
        }
        at
    }

    /// The value under `key`.
    pub fn get(&self, key: u32) -> (r: Option<&V>)
        requires
            self.wf(),
        ensures
            match r {
                Some(v) => self@.dom().contains(key) && self@[key] == *v,
                None => !self@.dom().contains(key),
            },
    {
        let at: usize = self.place(key);
        proof {
            lemma_entry_map(self.entries@);
        }
        if at < self.entries.len() && self.entries[at].0 == key {
            Some(&self.entries[at].1)
        } else {
            proof {
                if self@.dom().contains(key) {
                    let i = choose|i: int|
                        0 <= i < self.entries@.len() && (#[trigger] self.entries@[i]).0 == key;
                    assert(i >= at);
                    if i > at {
                        assert(self.entries@[at as int].0 < self.entries@[i].0);
                    }
                }
            }
            None
        }
    }

    /// Puts `value` under `key`.
    pub fn insert(&mut self, key: u32, value: V)
        requires
            old(self).wf(),
        ensures
            final(self).wf(),
            final(self)@ == old(self)@.insert(key, value),
    {
        let ghost before = self.entries@;
        let at: usize = self.place(key);
        if at < self.entries.len() && self.entries[at].0 == key {
            self.entries.remove(at);
            self.entries.insert(at, (key, value));
            assert(self.entries@ =~= before.update(at as int, (key, value)));
            proof {
                let after = self.entries@;
                assert forall|i: int, j: int| 0 <= i < j < after.len() implies (#[trigger] after[i]).0
                    < (#[trigger] after[j]).0 by {
                    assert(before[i].0 < before[j].0);
                }
                lemma_entry_map(before);
                let m = entry_map(before).insert(key, value);
                assert forall|i: int| 0 <= i < after.len() implies m.dom().contains(
                    (#[trigger] after[i]).0,
                ) && m[after[i].0] == after[i].1 by {
                    if i != at {
                        assert(before[i] == after[i]);
                        if i < at {
                            assert(before[i].0 < before[at as int].0);
                        } else {
                            assert(before[at as int].0 < before[i].0);
                        }
                    }
                }
                assert forall|k: u32| #[trigger] m.dom().contains(k) implies exists|i: int|
                    0 <= i < after.len() && (#[trigger] after[i]).0 == k by {
                    if k == key {
                        assert(after[at as int].0 == k);
                    } else {
                        assert(entry_map(before).dom().contains(k));
                        let i = choose|i: int| 0 <= i < before.len() && (#[trigger] before[i]).0 == k;
                        assert(after[i].0 == k);
                    }
                }
                lemma_map_by_entries(after, m);
            }
        } else {
            proof {
                if at < before.len() {
                    assert(before[at as int].0 > key);
                }
            }
            self.entries.insert(at, (key, value));
            proof {
                let after = self.entries@;
                assert(after =~= before.insert(at as int, (key, value)));
                assert forall|i: int| at <= i < before.len() implies (#[trigger] before[i]).0
                    > key by {
                    if i > at {
                        assert(before[at as int].0 < before[i].0);
                    }
                }
                assert forall|i: int, j: int| 0 <= i < j < after.len() implies (#[trigger] after[i]).0
                    < (#[trigger] after[j]).0 by {
                    if j < at {
                        assert(before[i].0 < before[j].0);
                    } else if j == at {
                        assert(before[i].0 < key);
                    } else if i < at {
                        assert(before[i].0 < key);
                        assert(before[j - 1].0 > key);
                    } else if i == at {
                        assert(before[j - 1].0 > key);
                    } else {
                        assert(before[i - 1].0 < before[j - 1].0);
                    }
                }
                lemma_entry_map(before);
                let m = entry_map(before).insert(key, value);
                assert forall|i: int| 0 <= i < after.len() implies m.dom().contains(
                    (#[trigger] after[i]).0,
                ) && m[after[i].0] == after[i].1 by {
                    if i < at {
                        assert(before[i] == after[i]);
                        assert(before[i].0 < key);
                    } else if i > at {
                        assert(before[i - 1] == after[i]);
                        assert(before[i - 1].0 > key);
                    }
                }
                assert forall|k: u32| #[trigger] m.dom().contains(k) implies exists|i: int|
                    0 <= i < after.len() && (#[trigger] after[i]).0 == k by {
                    if k == key {
                        assert(after[at as int].0 == k);
                    } else {
                        assert(entry_map(before).dom().contains(k));
                        let i = choose|i: int| 0 <= i < before.len() && (#[trigger] before[i]).0 == k;
                        if i < at {
                            assert(after[i].0 == k);
                        } else {
                            assert(after[i + 1].0 == k);
                        }
                    }
                }
                lemma_map_by_entries(after, m);
            }
        }
    }

    /// Takes the value under `key` out.
    pub fn remove(&mut self, key: u32) -> (r: Option<V>)
        requires
            old(self).wf(),
        ensures
            final(self).wf(),
            final(self)@ == old(self)@.remove(key),
            match r {
                Some(v) => old(self)@.dom().contains(key) && old(self)@[key] == v,
                None => !old(self)@.dom().contains(key),
            },
    {
        let ghost before = self.entries@;
        let at: usize = self.place(key);
        proof {
            lemma_entry_map(before);
        }
        if at < self.entries.len() && self.entries[at].0 == key {
            let (_, value) = self.entries.remove(at);
            proof {
                let after = self.entries@;
                assert(after =~= before.remove(at as int));
                assert forall|i: int, j: int| 0 <= i < j < after.len() implies (#[trigger] after[i]).0
                    < (#[trigger] after[j]).0 by {
                    let a = if i < at { i } else { i + 1 };
                    let b = if j < at { j } else { j + 1 };
                    assert(before[a].0 < before[b].0);
                }
                let m = entry_map(before).remove(key);
                assert forall|i: int| 0 <= i < after.len() implies m.dom().contains(
                    (#[trigger] after[i]).0,
                ) && m[after[i].0] == after[i].1 by {
                    let a = if i < at { i } else { i + 1 };
                    assert(before[a] == after[i]);
                    if a < at {
                        assert(before[a].0 < before[at as int].0);
                    } else {
                        assert(before[at as int].0 < before[a].0);
                    }
                }
                assert forall|k: u32| #[trigger] m.dom().contains(k) implies exists|i: int|
                    0 <= i < after.len() && (#[trigger] after[i]).0 == k by {
                    assert(entry_map(before).dom().contains(k));
                    let i = choose|i: int| 0 <= i < before.len() && (#[trigger] before[i]).0 == k;
                    if i < at {
                        assert(after[i].0 == k);
                    } else {
                        assert(after[i - 1].0 == k);
                    }
                }
                lemma_map_by_entries(after, m);
            }
            Some(value)
        } else {
            proof {
                if self@.dom().contains(key) {
                    let i = choose|i: int|
                        0 <= i < before.len() && (#[trigger] before[i]).0 == key;
                    if i > at {
                        assert(before[at as int].0 < before[i].0);
                    }
                }
                assert(self@ =~= self@.remove(key));
            }
            None
        }
    }
}

} // verus!
