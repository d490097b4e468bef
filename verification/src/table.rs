//! A keyed table held as an association list: the later of two entries
//! with one key is the one that counts.
//!
//! The store's tables are keyed by addresses, hashes and 32-byte task
//! ids. vstd specifies `HashMap` lookups only for keys whose hashing it
//! models (integers and `bool`), and `BTreeMap` lookups only for keys
//! whose ordering it models; for these keys every lookup would be left
//! unspecified, or rest on an assumed key model. This table compares keys with `KeyEq`, whose contract is
//! equality, so every lookup and insertion is proved.

use vstd::prelude::*;

use crate::primitives::{Duplicate, KeyEq};

verus! {

/// The map an association list denotes: entries applied in order, so the
/// last entry for a key wins.
pub open spec fn assoc_map<K, V: View>(s: Seq<(K, V)>) -> Map<K, V::V>
    decreases s.len(),
{
    if s.len() == 0 {
        Map::empty()
    } else {
        assoc_map(s.drop_last()).insert(s.last().0, s.last().1@)
    }
}

/// `i` is the last position of key `k`.
pub open spec fn last_at<K, V>(s: Seq<(K, V)>, k: K, i: int) -> bool {
    &&& 0 <= i < s.len()
    &&& s[i].0 == k
    &&& forall|j: int| i < j < s.len() ==> s[j].0 != k
}

pub proof fn lemma_assoc_absent<K, V: View>(s: Seq<(K, V)>, k: K)
    requires
        forall|j: int| 0 <= j < s.len() ==> s[j].0 != k,
    ensures
        !assoc_map(s).contains_key(k),
    decreases s.len(),
{
    if s.len() > 0 {
        lemma_assoc_absent(s.drop_last(), k);
    }
}

pub proof fn lemma_assoc_last<K, V: View>(s: Seq<(K, V)>, k: K, i: int)
    requires
        last_at(s, k, i),
    ensures
        assoc_map(s).contains_key(k),
        assoc_map(s)[k] == s[i].1@,
    decreases s.len(),
{
    if i < s.len() - 1 {
        lemma_assoc_last(s.drop_last(), k, i);
    }
}

pub proof fn lemma_assoc_update<K, V: View>(s: Seq<(K, V)>, k: K, i: int, v: V)
    requires
        last_at(s, k, i),
    ensures
        assoc_map(s.update(i, (k, v))) =~= assoc_map(s).insert(k, v@),
    decreases s.len(),
{
    let t = s.update(i, (k, v));
    if i == s.len() - 1 {
        assert(t.drop_last() =~= s.drop_last());
    } else {
        assert(t.drop_last() =~= s.drop_last().update(i, (k, v)));
        lemma_assoc_update(s.drop_last(), k, i, v);
    }
}

/// A table from keys to values.
pub struct Table<K, V> {
    entries: Vec<(K, V)>,
}

impl<K: KeyEq, V: View> Table<K, V> {
    /// The map the table holds.
    pub closed spec fn view(&self) -> Map<K, V::V> {
        assoc_map(self.entries@)
    }

    /// An empty table.
    pub fn new() -> (r: Self)
        ensures
            r.view() == Map::<K, V::V>::empty(),
    {
        Table { entries: Vec::new() }
    }

    /// Position of the last entry with key `k`.
    fn find(&self, k: &K) -> (r: Option<usize>)
        ensures
            match r {
                Some(i) => last_at(self.entries@, *k, i as int),
                None => forall|j: int| 0 <= j < self.entries@.len() ==> self.entries@[j].0 != *k,
            },
    {
        let mut i: usize = self.entries.len();
        while i > 0
            invariant
                i <= self.entries@.len(),
                forall|j: int| i <= j < self.entries@.len() ==> self.entries@[j].0 != *k,
            decreases i,
        {
            i -= 1;
            if self.entries[i].0.key_eq(k) {
                return Some(i);
            }
        }
        None
    }

    /// The value stored under `k`, if any.
    pub fn get(&self, k: &K) -> (r: Option<&V>)
        ensures
            match r {
                Some(v) => self.view().contains_key(*k) && self.view()[*k] == v@,
                None => !self.view().contains_key(*k),
            },
    {
        match self.find(k) {
            Some(i) => {
                proof {
                    lemma_assoc_last(self.entries@, *k, i as int);
                }
                Some(&self.entries[i].1)
            },
            None => {
                proof {
                    lemma_assoc_absent(self.entries@, *k);
                }
                None
            },
        }
    }

    /// Whether `k` has a value.
    pub fn contains_key(&self, k: &K) -> (r: bool)
        ensures
            r == self.view().contains_key(*k),
    {
        self.get(k).is_some()
    }

    /// Stores `v` under `k`, replacing any earlier value.
    pub fn insert(&mut self, k: K, v: V)
        ensures
            final(self).view() == old(self).view().insert(k, v@),
    {
        match self.find(&k) {
            Some(i) => {
                proof {
                    lemma_assoc_update(self.entries@, k, i as int, v);
                }
                self.entries.set(i, (k, v));
            },
            None => {
                let ghost pre = self.entries@;
                self.entries.push((k, v));
                proof {
                    assert(self.entries@.drop_last() =~= pre);
                }
            },
        }
    }
}

impl<K: KeyEq, V: Duplicate> Table<K, V> {
    /// A copy of the value stored under `k`, if any.
    pub fn get_copy(&self, k: &K) -> (r: Option<V>)
        ensures
            match r {
                Some(v) => self.view().contains_key(*k) && self.view()[*k] == v@,
                None => !self.view().contains_key(*k),
            },
    {
        match self.get(k) {
            Some(v) => Some(v.duplicate()),
            None => None,
        }
    }
}

} // verus!
