//! Finite maps and sets over keys compared by value, kept as vectors of
//! distinct keys.
use crate::word::U256;
use vstd::prelude::*;

verus! {

/// A key type whose equality test agrees with equality of values.
pub trait Key: Copy + Sized {
    /// Whether two keys are the same.
    fn same(&self, other: &Self) -> (r: bool)
        ensures
            r == (*self == *other),
    ;
}

impl Key for U256 {
    fn same(&self, other: &Self) -> (r: bool) {
        *self == *other
    }
}

/// A storage slot of an account: the account's address and the slot's key.
#[derive(Debug, Clone, Copy, PartialEq, Eq, Structural)]
pub struct SlotKey {
    /// The account's address.
    pub address: U256,
    /// The slot's key.
    pub key: U256,
}

impl Key for SlotKey {
    fn same(&self, other: &Self) -> (r: bool) {
        *self == *other
    }
}

/// Whether `k` is the key of some entry.
pub open spec fn has_key<K, V>(s: Seq<(K, V)>, k: K) -> bool {
    exists|i: int| 0 <= i < s.len() && #[trigger] s[i].0 == k
}

/// The index of the entry whose key is `k`.
pub open spec fn key_index<K, V>(s: Seq<(K, V)>, k: K) -> int {
    choose|i: int| 0 <= i < s.len() && #[trigger] s[i].0 == k
}

/// No key occurs twice.
pub open spec fn distinct_keys<K, V>(s: Seq<(K, V)>) -> bool {
    forall|i: int, j: int| 0 <= i < s.len() && 0 <= j < s.len() && i != j ==> s[i].0 != s[j].0
}

/// The map that a list of entries with distinct keys spells.
pub open spec fn entries_map<K, V>(s: Seq<(K, V)>) -> Map<K, V> {
    Map::new(|k: K| has_key(s, k), |k: K| s[key_index(s, k)].1)
}

/// In a list of distinct keys, the entry at `i` is the one the map finds.
pub proof fn lemma_entry_at<K, V>(s: Seq<(K, V)>, i: int)
    requires
        distinct_keys(s),
        0 <= i < s.len(),
    ensures
        entries_map(s).dom().contains(s[i].0),
        entries_map(s)[s[i].0] == s[i].1,
        key_index(s, s[i].0) == i,
{
    assert(has_key(s, s[i].0));
}

/// A map from keys to values.
#[derive(Debug, Clone)]
pub struct AssocMap<K, V> {
    entries: Vec<(K, V)>,
}

impl<K: Key, V> AssocMap<K, V> {
    /// The map's contents.
    pub closed spec fn view(&self) -> Map<K, V> {
        entries_map(self.entries@)
    }

    /// The entries, in their stored order.
    pub closed spec fn entry_seq(&self) -> Seq<(K, V)> {
        self.entries@
    }

    /// The representation holds each key once.
    pub closed spec fn wf(&self) -> bool {
        distinct_keys(self.entries@)
    }

    /// The entries spell the map, and each key of the map has one entry.
    pub proof fn lemma_entries(&self)
        requires
            self.wf(),
        ensures
            self.entry_seq().len() == self.view().dom().len(),
            self.view().dom().finite(),
            forall|i: int|
                0 <= i < self.entry_seq().len() ==> #[trigger] self.view().dom().contains(
                    self.entry_seq()[i].0,
                ) && self.view()[self.entry_seq()[i].0] == self.entry_seq()[i].1,
            forall|k: K|
                #[trigger] self.view().dom().contains(k) ==> exists|i: int|
                    0 <= i < self.entry_seq().len() && #[trigger] self.entry_seq()[i].0 == k,
    {
        let s = self.entries@;
        assert forall|i: int| 0 <= i < s.len() implies #[trigger] self.view().dom().contains(
            s[i].0,
        ) && self.view()[s[i].0] == s[i].1 by {
            lemma_entry_at(s, i);
        }
        lemma_dom_len(s);
    }

    /// An empty map.
    pub fn new() -> (r: Self)
        ensures
            r.wf(),
            r.view() == Map::<K, V>::empty(),
    {
        let r = AssocMap { entries: Vec::new() };
        assert(r.view() =~= Map::<K, V>::empty());
        r
    }

    /// The number of keys.
    pub fn len(&self) -> (r: usize)
        requires
            self.wf(),
        ensures
            r == self.view().dom().len(),
            r == self.entry_seq().len(),
    {
        proof {
            self.lemma_entries();
        }
        self.entries.len()
    }

    /// Whether the map is empty.
    pub fn is_empty(&self) -> (r: bool)
        requires
            self.wf(),
        ensures
            r == (self.view().dom().len() == 0),
            r == (self.view() == Map::<K, V>::empty()),
    {
        proof {
            self.lemma_entries();
            if self.entries@.len() != 0 {
                assert(self.view().dom().contains(self.entries@[0].0));
            } else {
                assert(self.view() =~= Map::<K, V>::empty());
            }
        }
        self.entries.len() == 0
    }

    /// The position of the entry with key `k`, if there is one.
    fn find(&self, k: &K) -> (r: Option<usize>)
        requires
            self.wf(),
        ensures
            r is None ==> !self.view().dom().contains(*k),
            r matches Some(i) ==> i < self.entries@.len() && self.entries@[i as int].0 == *k
                && self.view().dom().contains(*k) && self.view()[*k] == self.entries@[i as int].1,
    {
        let mut i: usize = 0;
        while i < self.entries.len()
            invariant
                i <= self.entries@.len(),
                distinct_keys(self.entries@),
                forall|j: int| 0 <= j < i ==> self.entries@[j].0 != *k,
            decreases self.entries@.len() - i,
        {
            if self.entries[i].0.same(k) {
                proof {
                    lemma_entry_at(self.entries@, i as int);
                }
                return Some(i);
            }
            i = i + 1;
        }
        None
    }

    /// Whether `k` is a key of the map.
    pub fn contains_key(&self, k: &K) -> (r: bool)
        requires
            self.wf(),
        ensures
            r == self.view().dom().contains(*k),
    {
        self.find(k).is_some()
    }

    /// The value at `k`, if any.
    pub fn get(&self, k: &K) -> (r: Option<&V>)
        requires
            self.wf(),
        ensures
            r is Some == self.view().dom().contains(*k),
            r matches Some(v) ==> *v == self.view()[*k],
    {
        match self.find(k) {
            Some(i) => Some(&self.entries[i].1),
            None => None,
        }
    }

    /// The entry at position `i` of the stored order.
    pub fn entry_at(&self, i: usize) -> (r: (&K, &V))
        requires
            self.wf(),
            i < self.entry_seq().len(),
        ensures
            *r.0 == self.entry_seq()[i as int].0,
            *r.1 == self.entry_seq()[i as int].1,
    {
        let e = &self.entries[i];
        (&e.0, &e.1)
    }

    /// Maps `k` to `v`, replacing any earlier value.
    pub fn insert(&mut self, k: K, v: V)
        requires
            old(self).wf(),
        ensures
            final(self).wf(),
            final(self).view() == old(self).view().insert(k, v),
    {
        let ghost old_s = self.entries@;
        match self.find(&k) {
            Some(i) => {
                self.entries.set(i, (k, v));
                proof {
                    let s = self.entries@;
                    assert(s == old_s.update(i as int, (k, v)));
                    assert forall|x: K| #[trigger] has_key(s, x) == (has_key(old_s, x) || x == k) by {
                        if has_key(old_s, x) {
                            let j = key_index(old_s, x);
                            if j == i {
                                assert(s[j].0 == x);
                            } else {
                                assert(s[j].0 == x);
                            }
                        }
                        if has_key(s, x) {
                            let j = key_index(s, x);
                            if j != i {
                                assert(old_s[j].0 == x);
                            }
                        }
                    }
                    assert forall|x: K| #[trigger] has_key(s, x) implies s[key_index(s, x)].1 == (
                    if x == k {
                        v
                    } else {
                        old_s[key_index(old_s, x)].1
                    }) by {
                        let j = key_index(s, x);
                        lemma_entry_at(s, j);
                        if x != k {
                            assert(j != i);
                            assert(old_s[j].0 == x);
                            lemma_entry_at(old_s, j);
                        } else {
                            assert(s[i as int].0 == k);
                            lemma_entry_at(s, i as int);
                        }
                    }
                    assert(self.view() =~= old_s_map(old_s).insert(k, v));
                }
            },
            None => {
                self.entries.push((k, v));
                proof {
                    let s = self.entries@;
                    assert(s == old_s.push((k, v)));
                    assert forall|x: K| #[trigger] has_key(s, x) == (has_key(old_s, x) || x == k) by {
                        if has_key(old_s, x) {
                            let j = key_index(old_s, x);
                            assert(s[j].0 == x);
                        }
                        if x == k {
                            assert(s[old_s.len() as int].0 == x);
                        }
                        if has_key(s, x) {
                            let j = key_index(s, x);
                            if j != old_s.len() {
                                assert(old_s[j].0 == x);
                            }
                        }
                    }
                    assert forall|x: K| #[trigger] has_key(s, x) implies s[key_index(s, x)].1 == (
                    if x == k {
                        v
                    } else {
                        old_s[key_index(old_s, x)].1
                    }) by {
                        let j = key_index(s, x);
                        lemma_entry_at(s, j);
                        if x != k {
                            assert(j != old_s.len());
                            assert(old_s[j].0 == x);
                            lemma_entry_at(old_s, j);
                        } else {
                            lemma_entry_at(s, old_s.len() as int);
                        }
                    }
                    assert(self.view() =~= old_s_map(old_s).insert(k, v));
                }
            },
        }
    }

    /// Removes the entry with key `k`, returning its value if there was one.
    pub fn remove(&mut self, k: &K) -> (r: Option<V>)
        requires
            old(self).wf(),
        ensures
            final(self).wf(),
            final(self).view() == old(self).view().remove(*k),
            r is Some == old(self).view().dom().contains(*k),
            r matches Some(v) ==> v == old(self).view()[*k],
    {
        let ghost old_s = self.entries@;
        match self.find(k) {
            Some(i) => {
                let e = self.entries.swap_remove(i);
                proof {
                    let s = self.entries@;
                    let n = old_s.len() - 1;
                    assert forall|j: int| 0 <= j < s.len() implies #[trigger] s[j] == (if j == i {
                        old_s[n]
                    } else {
                        old_s[j]
                    }) by {}
                    assert forall|x: K| #[trigger] has_key(s, x) == (has_key(old_s, x) && x != *k) by {
                        if has_key(old_s, x) && x != *k {
                            let j = key_index(old_s, x);
                            if j == n {
                                assert(s[i as int].0 == x);
                            } else {
                                assert(j != i);
                                assert(s[j].0 == x);
                            }
                        }
                        if has_key(s, x) {
                            let j = key_index(s, x);
                            if j == i {
                                assert(old_s[n].0 == x);
                            } else {
                                assert(old_s[j].0 == x);
                            }
                        }
                    }
                    assert forall|x: K| #[trigger] has_key(s, x) implies s[key_index(s, x)].1
                        == old_s[key_index(old_s, x)].1 by {
                        let j = key_index(s, x);
                        if j == i {
                            lemma_entry_at(old_s, n);
                        } else {
                            lemma_entry_at(old_s, j);
                        }
                    }
                    assert(self.view() =~= old_s_map(old_s).remove(*k));
                }
                Some(e.1)
            },
            None => {
                assert(self.view() =~= old_s_map(old_s).remove(*k));
                None
            },
        }
    }
}

impl<K: Key, V: Copy> AssocMap<K, V> {
    /// A copy of the map.
    pub fn duplicate(&self) -> (r: Self)
        requires
            self.wf(),
        ensures
            r.wf(),
            r.view() == self.view(),
            r.entry_seq() == self.entry_seq(),
    {
        let mut entries: Vec<(K, V)> = Vec::new();
        let mut i: usize = 0;
        while i < self.entries.len()
            invariant
                i <= self.entries@.len(),
                entries@ == self.entries@.subrange(0, i as int),
            decreases self.entries@.len() - i,
        {
            let e = self.entries[i];
            entries.push(e);
            i = i + 1;
            assert(entries@ =~= self.entries@.subrange(0, i as int));
        }
        assert(entries@ =~= self.entries@);
        AssocMap { entries }
    }
}

/// The map spelled by a list of entries (a name for use in proofs).
pub open spec fn old_s_map<K, V>(s: Seq<(K, V)>) -> Map<K, V> {
    entries_map(s)
}

/// A list of distinct keys has as many entries as its map has keys.
pub proof fn lemma_dom_len<K, V>(s: Seq<(K, V)>)
    requires
        distinct_keys(s),
    ensures
        entries_map(s).dom().finite(),
        entries_map(s).dom().len() == s.len(),
    decreases s.len(),
{
    if s.len() == 0 {
        assert(entries_map(s).dom() =~= Set::<K>::empty());
    } else {
        let t = s.drop_last();
        let last = s.last();
        lemma_dom_len(t);
        assert(entries_map(s).dom() =~= entries_map(t).dom().insert(last.0)) by {
            assert forall|x: K| #[trigger] has_key(s, x) == (has_key(t, x) || x == last.0) by {
                if has_key(t, x) {
                    let j = key_index(t, x);
                    assert(s[j].0 == x);
                }
                if x == last.0 {
                    assert(s[s.len() - 1].0 == x);
                }
                if has_key(s, x) {
                    let j = key_index(s, x);
                    if j != s.len() - 1 {
                        assert(t[j].0 == x);
                    }
                }
            }
        }
        if has_key(t, last.0) {
            let j = key_index(t, last.0);
            assert(s[j].0 == s[s.len() - 1].0);
        }
    }
}

} // verus!
