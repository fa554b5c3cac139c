//! A small map keyed by sled id, kept as a list of entries with distinct keys.

use vstd::prelude::*;

verus! {

/// Stable identifier of a sled (a host of the fleet), as the 128-bit value of its UUID.
pub type SledUuid = u128;

/// A map from sled ids to values, kept as a list of entries in increasing key order.
#[derive(Debug)]
pub struct SledMap<T> {
    pub entries: Vec<(SledUuid, T)>,
}

impl<T> View for SledMap<T> {
    type V = Map<SledUuid, T>;

    open spec fn view(&self) -> Map<SledUuid, T> {
        Map::new(
            |k: SledUuid| self.has_key(k),
            |k: SledUuid| self.entries@[self.index_of_key(k)].1,
        )
    }
}

impl<T> SledMap<T> {
    /// The keys are strictly increasing, so no key occurs in two entries.
    pub open spec fn wf(&self) -> bool {
        forall|i: int, j: int|
            0 <= i < j < self.entries@.len() ==> self.entries@[i].0 < self.entries@[j].0
    }

    pub open spec fn has_key(&self, k: SledUuid) -> bool {
        exists|i: int| 0 <= i < self.entries@.len() && #[trigger] self.entries@[i].0 == k
    }

    pub open spec fn index_of_key(&self, k: SledUuid) -> int {
        choose|i: int| 0 <= i < self.entries@.len() && #[trigger] self.entries@[i].0 == k
    }

    /// The entry at position `i` is what the map holds for its key.
    pub proof fn lemma_entry(&self, i: int)
        requires
            self.wf(),
            0 <= i < self.entries@.len(),
        ensures
            self@.contains_key(self.entries@[i].0),
            self@[self.entries@[i].0] == self.entries@[i].1,
    {
        let k = self.entries@[i].0;
        assert(self.has_key(k));
        let j = self.index_of_key(k);
        assert(j == i);
    }

    /// An empty map.
    pub fn new() -> (r: Self)
        ensures
            r.wf(),
            r@ == Map::<SledUuid, T>::empty(),
    {
        let r = SledMap { entries: Vec::new() };
        assert(r@ =~= Map::<SledUuid, T>::empty());
        r
    }

    /// The position of the entry for `k`, if there is one.
    pub fn position(&self, k: SledUuid) -> (r: Option<usize>)
        requires
            self.wf(),
        ensures
            match r {
                Some(i) => i < self.entries@.len() && self.entries@[i as int].0 == k,
                None => !self@.contains_key(k),
            },
    {
        let mut i: usize = 0;
        while i < self.entries.len()
            invariant
                i <= self.entries@.len(),
                forall|j: int| 0 <= j < i ==> self.entries@[j].0 != k,
            decreases self.entries@.len() - i,
        {
            if self.entries[i].0 == k {
                return Some(i);
            }
            i = i + 1;
        }
        None
    }

    /// Whether the map holds a value for `k`.
    pub fn contains_key(&self, k: SledUuid) -> (r: bool)
        requires
            self.wf(),
        ensures
            r == self@.contains_key(k),
    {
        match self.position(k) {
            Some(i) => {
                proof {
                    self.lemma_entry(i as int);
                }
                true
            },
            None => false,
        }
    }

    /// The value held for `k`, if any.
    pub fn get(&self, k: SledUuid) -> (r: Option<&T>)
        requires
            self.wf(),
        ensures
            match r {
                Some(v) => self@.contains_key(k) && *v == self@[k],
                None => !self@.contains_key(k),
            },
    {
        match self.position(k) {
            Some(i) => {
                proof {
                    self.lemma_entry(i as int);
                }
                Some(&self.entries[i].1)
            },
            None => None,
        }
    }

    /// Sets the value held for `k`, replacing any earlier one.
    pub fn insert(&mut self, k: SledUuid, v: T)
        requires
            old(self).wf(),
        ensures
            final(self).wf(),
            final(self)@ == old(self)@.insert(k, v),
    {
        match self.position(k) {
            Some(i) => {
                self.entries.set(i, (k, v));
                proof {
                    assert forall|x: SledUuid| #[trigger] self@.contains_key(x) == old(self)@.insert(k, v).contains_key(x) by {
                        if old(self).has_key(x) {
                            let j = old(self).index_of_key(x);
                            assert(self.entries@[j].0 == x);
                        }
                        if self.has_key(x) {
                            let j = self.index_of_key(x);
                            if j != i {
                                assert(old(self).entries@[j].0 == x);
                            }
                        }
                    }
                    assert forall|x: SledUuid| #[trigger] self@.contains_key(x) implies self@[x] == old(self)@.insert(k, v)[x] by {
                        let j = self.index_of_key(x);
                        if x != k {
                            assert(old(self).entries@[j].0 == x);
                            old(self).lemma_entry(j);
                        }
                    }
                    assert(self@ =~= old(self)@.insert(k, v));
                }
            },
            None => {
                let mut p: usize = 0;
                while p < self.entries.len()
                    invariant
                        p <= self.entries@.len(),
                        self.entries@ == old(self).entries@,
                        !self@.contains_key(k),
                        forall|j: int| 0 <= j < p ==> #[trigger] self.entries@[j].0 < k,
                    ensures
                        p <= self.entries@.len(),
                        self.entries@ == old(self).entries@,
                        forall|j: int| 0 <= j < p ==> #[trigger] self.entries@[j].0 < k,
                        p < self.entries@.len() ==> self.entries@[p as int].0 > k,
                    decreases self.entries@.len() - p,
                {
                    if self.entries[p].0 > k {
                        break;
                    }
                    proof {
                        if self.entries@[p as int].0 == k {
                            assert(self.has_key(k));
                        }
                    }
                    p = p + 1;
                }
                self.entries.insert(p, (k, v));
                proof {
                    let o = old(self).entries@;
                    assert(self.entries@ == o.insert(p as int, (k, v)));
                    assert forall|i: int, j: int| 0 <= i < j < self.entries@.len() implies self.entries@[i].0 < self.entries@[j].0 by {
                        if p < o.len() {
                            assert(o[p as int].0 > k);
                        }
                        if j > p && i > p {
                            assert(o[i - 1].0 < o[j - 1].0);
                        } else if j > p && i == p {
                            assert(o[p as int].0 <= o[j - 1].0);
                        } else if j > p && i < p {
                            assert(o[i].0 < k);
                        } else if j < p {
                            assert(o[i].0 < o[j].0);
                        }
                    }
                    assert forall|x: SledUuid| #[trigger] self@.contains_key(x) == old(self)@.insert(k, v).contains_key(x) by {
                        if old(self).has_key(x) {
                            let j = old(self).index_of_key(x);
                            if j < p {
                                assert(self.entries@[j].0 == x);
                            } else {
                                assert(self.entries@[j + 1].0 == x);
                            }
                        }
                        if x == k {
                            assert(self.entries@[p as int].0 == x);
                        }
                        if self.has_key(x) {
                            let j = self.index_of_key(x);
                            if j < p {
                                assert(o[j].0 == x);
                            } else if j > p {
                                assert(o[j - 1].0 == x);
                            }
                        }
                    }
                    assert forall|x: SledUuid| #[trigger] self@.contains_key(x) implies self@[x] == old(self)@.insert(k, v)[x] by {
                        let j = self.index_of_key(x);
                        if x != k {
                            if j < p {
                                assert(o[j].0 == x);
                                old(self).lemma_entry(j);
                            } else {
                                assert(o[j - 1].0 == x);
                                old(self).lemma_entry(j - 1);
                            }
                        } else {
                            self.lemma_entry(p as int);
                        }
                    }
                    assert(self@ =~= old(self)@.insert(k, v));
                }
            },
        }
    }
}

} // verus!
