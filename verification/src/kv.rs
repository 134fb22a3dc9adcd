//! A small string-keyed association map.
//!
//! Both key spaces of the lobby store live in one embedded collection each,
//! keyed by an identifier string.  This container is the in-memory form of
//! such a collection: a vector of key-value entries with pairwise distinct
//! keys, viewed as a [`Map`] from the key's characters to the value's view.

use vstd::prelude::*;

verus! {

/// The map denoted by a sequence of entries, later entries winning.
spec fn entry_map<V: View>(entries: Seq<(String, V)>) -> Map<Seq<char>, V::V>
    decreases entries.len(),
{
    if entries.len() == 0 {
        Map::empty()
    } else {
        entry_map(entries.drop_last()).insert(entries.last().0@, entries.last().1@)
    }
}

/// Pairwise distinct keys.
spec fn keys_unique<V: View>(entries: Seq<(String, V)>) -> bool {
    forall|i: int, j: int|
        0 <= i < j < entries.len() ==> entries[i].0@ != entries[j].0@
}

/// With distinct keys, the denoted map holds exactly the entries' keys, each
/// bound to its entry's value.
proof fn lemma_entry_map_props<V: View>(entries: Seq<(String, V)>)
    requires
        keys_unique(entries),
    ensures
        forall|k: Seq<char>|
            #[trigger] entry_map(entries).contains_key(k) <==> exists|i: int|
                0 <= i < entries.len() && entries[i].0@ == k,
        forall|i: int|
            0 <= i < entries.len() ==> #[trigger] entry_map(entries)[entries[i].0@]
                == entries[i].1@,
    decreases entries.len(),
{
    if entries.len() > 0 {
        let dl = entries.drop_last();
        lemma_entry_map_props(dl);
        assert(entry_map(entries) == entry_map(dl).insert(entries.last().0@, entries.last().1@));
        assert(forall|i: int| 0 <= i < dl.len() ==> #[trigger] dl[i] == entries[i]);
        assert forall|k: Seq<char>| #[trigger] entry_map(entries).contains_key(k)
            implies exists|i: int| 0 <= i < entries.len() && entries[i].0@ == k by {
            if k == entries.last().0@ {
                assert(entries[entries.len() - 1].0@ == k);
            } else {
                assert(entry_map(dl).contains_key(k));
                let i = choose|i: int| 0 <= i < dl.len() && dl[i].0@ == k;
                assert(entries[i].0@ == k);
            }
        }
        assert forall|k: Seq<char>|
            (exists|i: int| 0 <= i < entries.len() && entries[i].0@ == k)
            implies #[trigger] entry_map(entries).contains_key(k) by {
            let i = choose|i: int| 0 <= i < entries.len() && entries[i].0@ == k;
            if i < entries.len() - 1 {
                assert(dl[i].0@ == k);
            }
        }
        assert forall|i: int| 0 <= i < entries.len()
            implies #[trigger] entry_map(entries)[entries[i].0@] == entries[i].1@ by {
            if i < entries.len() - 1 {
                assert(entries[i].0@ != entries.last().0@);
                assert(dl[i].0@ == entries[i].0@ && dl[i].1@ == entries[i].1@);
            }
        }
    }
}

/// Updating the entry that holds a key denotes inserting at that key.
proof fn lemma_entry_map_update<V: View>(entries: Seq<(String, V)>, i: int, e: (String, V))
    requires
        keys_unique(entries),
        0 <= i < entries.len(),
        entries[i].0@ == e.0@,
    ensures
        entry_map(entries.update(i, e)) == entry_map(entries).insert(e.0@, e.1@),
    decreases entries.len(),
{
    let u = entries.update(i, e);
    let dl = entries.drop_last();
    if i == entries.len() - 1 {
        assert(u.drop_last() =~= dl);
        assert(entry_map(u) == entry_map(dl).insert(e.0@, e.1@));
        assert(entry_map(dl).insert(entries.last().0@, entries.last().1@).insert(e.0@, e.1@)
            =~= entry_map(dl).insert(e.0@, e.1@));
    } else {
        assert(u.drop_last() =~= dl.update(i, e));
        lemma_entry_map_update(dl, i, e);
        assert(entry_map(u) == entry_map(dl).insert(e.0@, e.1@).insert(
            entries.last().0@,
            entries.last().1@,
        ));
        assert(e.0@ != entries.last().0@);
        assert(entry_map(dl).insert(e.0@, e.1@).insert(entries.last().0@, entries.last().1@)
            =~= entry_map(dl).insert(entries.last().0@, entries.last().1@).insert(e.0@, e.1@));
    }
}

/// Removing the entry that holds a key denotes removing that key.
proof fn lemma_entry_map_remove<V: View>(entries: Seq<(String, V)>, i: int)
    requires
        keys_unique(entries),
        0 <= i < entries.len(),
    ensures
        entry_map(entries.remove(i)) == entry_map(entries).remove(entries[i].0@),
    decreases entries.len(),
{
    let r = entries.remove(i);
    let dl = entries.drop_last();
    let k = entries[i].0@;
    lemma_entry_map_props(entries);
    if i == entries.len() - 1 {
        assert(r =~= dl);
        lemma_entry_map_props(dl);
        assert(!entry_map(dl).contains_key(k));
        assert(entry_map(dl).insert(k, entries.last().1@).remove(k) =~= entry_map(dl));
    } else {
        assert(r.drop_last() =~= dl.remove(i));
        assert(r.last() == entries.last());
        lemma_entry_map_remove(dl, i);
        assert(entry_map(r) == entry_map(dl).remove(k).insert(
            entries.last().0@,
            entries.last().1@,
        ));
        assert(k != entries.last().0@);
        assert(entry_map(dl).remove(k).insert(entries.last().0@, entries.last().1@)
            =~= entry_map(dl).insert(entries.last().0@, entries.last().1@).remove(k));
    }
}

/// An association map from identifier strings to values, with distinct keys.
pub struct StrKeyMap<V> {
    entries: Vec<(String, V)>,
}

impl<V: View> View for StrKeyMap<V> {
    type V = Map<Seq<char>, V::V>;

    closed spec fn view(&self) -> Map<Seq<char>, V::V> {
        entry_map(self.entries@)
    }
}

impl<V: View> StrKeyMap<V> {
    /// The container's invariant: no key occurs twice.
    pub closed spec fn wf(&self) -> bool {
        keys_unique(self.entries@)
    }

    /// An empty map.
    pub fn new() -> (m: StrKeyMap<V>)
        ensures
            m.wf(),
            m@ == Map::<Seq<char>, V::V>::empty(),
    {
        StrKeyMap { entries: Vec::new() }
    }

    /// The position of the entry holding the key, if any.
    fn index_of(&self, k: &String) -> (r: Option<usize>)
        ensures
            match r {
                Some(i) => i < self.entries@.len() && self.entries@[i as int].0@ == k@,
                None => forall|i: int|
                    0 <= i < self.entries@.len() ==> self.entries@[i].0@ != k@,
            },
    {
        let n = self.entries.len();
        let mut i: usize = 0;
        while i < n
            invariant
                n == self.entries@.len(),
                i <= n,
                forall|j: int| 0 <= j < i ==> self.entries@[j].0@ != k@,
            decreases n - i,
        {
            if self.entries[i].0 == *k {
                return Some(i);
            }
            i += 1;
        }
        None
    }

    /// Look a key up.
    pub fn get(&self, k: &String) -> (r: Option<&V>)
        requires
            self.wf(),
        ensures
            match r {
                Some(v) => self@.contains_key(k@) && v@ == self@[k@],
                None => !self@.contains_key(k@),
            },
    {
        proof {
            lemma_entry_map_props(self.entries@);
        }
        match self.index_of(k) {
            Some(i) => Some(&self.entries[i].1),
            None => None,
        }
    }

    /// Bind a key to a value, replacing any previous binding.
    pub fn insert(&mut self, k: String, v: V)
        requires
            old(self).wf(),
        ensures
            final(self).wf(),
            final(self)@ == old(self)@.insert(k@, v@),
    {
        match self.index_of(&k) {
            Some(i) => {
                proof {
                    lemma_entry_map_update(self.entries@, i as int, (k, v));
                }
                self.entries.set(i, (k, v));
                assert forall|a: int, b: int|
                    0 <= a < b < self.entries@.len()
                    implies self.entries@[a].0@ != self.entries@[b].0@ by {
                    assert(old(self).entries@[a].0@ != old(self).entries@[b].0@);
                }
            },
            None => {
                proof {
                    assert(self.entries@.push((k, v)).drop_last() =~= self.entries@);
                }
                self.entries.push((k, v));
            },
        }
    }

    /// Drop a key's binding, if there is one.
    pub fn remove(&mut self, k: &String)
        requires
            old(self).wf(),
        ensures
            final(self).wf(),
            final(self)@ == old(self)@.remove(k@),
    {
        match self.index_of(k) {
            Some(i) => {
                proof {
                    lemma_entry_map_remove(self.entries@, i as int);
                }
                self.entries.remove(i);
                assert forall|a: int, b: int|
                    0 <= a < b < self.entries@.len()
                    implies self.entries@[a].0@ != self.entries@[b].0@ by {
                    let a0: int = if a < i { a } else { a + 1 };
                    let b0: int = if b < i { b } else { b + 1 };
                    assert(old(self).entries@[a0].0@ != old(self).entries@[b0].0@);
                }
            },
            None => {
                proof {
                    lemma_entry_map_props(self.entries@);
                    assert(self@.remove(k@) =~= self@);
                }
            },
        }
    }
}

} // verus!
