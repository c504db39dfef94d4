//! Values kept per address, one entry per address.
use vstd::prelude::*;

use crate::bytes::{bytes_eq, copy_bytes};

verus! {

/// Values keyed by address, at most one entry per address, in insertion order.
pub struct ByAddress<V> {
    /// the entries
    pub entries: Vec<(Vec<u8>, V)>,
}

/// No address has two entries.
pub open spec fn keys_unique<V>(e: Seq<(Vec<u8>, V)>) -> bool {
    forall|i: int, j: int| 0 <= i < j < e.len() ==> (#[trigger] e[i]).0@ != (#[trigger] e[j]).0@
}

/// Whether `k` has an entry.
pub open spec fn has_key<V>(e: Seq<(Vec<u8>, V)>, k: Seq<u8>) -> bool {
    exists|i: int| 0 <= i < e.len() && (#[trigger] e[i]).0@ == k
}

/// The index of `k`'s entry, where it has one.
pub open spec fn key_pos<V>(e: Seq<(Vec<u8>, V)>, k: Seq<u8>) -> int {
    choose|i: int| 0 <= i < e.len() && (#[trigger] e[i]).0@ == k
}

/// The entries as a map from address to value.
pub open spec fn entries_map<V>(e: Seq<(Vec<u8>, V)>) -> Map<Seq<u8>, V> {
    Map::new(|k: Seq<u8>| has_key(e, k), |k: Seq<u8>| e[key_pos(e, k)].1)
}

impl<V> ByAddress<V> {
    /// The stored values as a map from address to value.
    pub open spec fn view_map(&self) -> Map<Seq<u8>, V> {
        entries_map(self.entries@)
    }

    /// One entry per address.
    pub open spec fn wf(&self) -> bool {
        keys_unique(self.entries@)
    }

    /// Returns an empty store.
    pub fn new() -> (r: Self)
        ensures
            r.wf(),
            r.view_map() == Map::<Seq<u8>, V>::empty(),
    {
        let r = ByAddress { entries: Vec::new() };
        assert(r.view_map() =~= Map::<Seq<u8>, V>::empty());
        r
    }

    /// Returns the index of `k`'s entry, if it has one.
    pub fn find(&self, k: &[u8]) -> (r: Option<usize>)
        requires
            self.wf(),
        ensures
            match r {
                Some(i) => {
                    &&& i < self.entries@.len()
                    &&& self.entries@[i as int].0@ == k@
                    &&& self.view_map().contains_key(k@)
                    &&& self.view_map()[k@] == self.entries@[i as int].1
                },
                None => !self.view_map().contains_key(k@),
            },
    {
        let mut i: usize = 0;
        while i < self.entries.len()
            invariant
                self.wf(),
                i <= self.entries@.len(),
                forall|j: int| 0 <= j < i ==> (#[trigger] self.entries@[j]).0@ != k@,
            decreases self.entries@.len() - i,
        {
            if bytes_eq(self.entries[i].0.as_slice(), k) {
                proof {
                    lemma_key_pos(self.entries@, i as int);
                }
                return Some(i);
            }
            i = i + 1;
        }
        None
    }

    /// Sets `k`'s value to `v`, adding an entry at the end where it has none.
    pub fn set(&mut self, k: &[u8], v: V)
        requires
            old(self).wf(),
        ensures
            final(self).wf(),
            final(self).view_map() == old(self).view_map().insert(k@, v),
            old(self).view_map().contains_key(k@) ==> final(self).entries@.len()
                == old(self).entries@.len(),
            !old(self).view_map().contains_key(k@) ==> final(self).entries@.len()
                == old(self).entries@.len() + 1,
    {
        let ghost e = self.entries@;
        match self.find(k) {
            Some(i) => {
                let key = copy_bytes(k);
                self.entries.set(i, (key, v));
                proof {
                    let e2 = self.entries@;
                    assert(keys_unique(e2)) by {
                        assert forall|a: int, b: int| 0 <= a < b < e2.len() implies (#[trigger] e2[a]).0@
                            != (#[trigger] e2[b]).0@ by {
                            assert(e[a].0@ != e[b].0@);
                        }
                    }
                    lemma_key_pos(e2, i as int);
                    assert forall|k2: Seq<u8>| k2 != k@ && has_key(e, k2) implies has_key(e2, k2)
                        && e2[key_pos(e2, k2)].1 == e[key_pos(e, k2)].1 by {
                        let j = key_pos(e, k2);
                        lemma_key_pos(e, j);
                        assert(e2[j] == e[j]);
                        lemma_key_pos(e2, j);
                    }
                    assert forall|k2: Seq<u8>| has_key(e2, k2) implies k2 == k@ || has_key(e, k2) by {
                        let j = key_pos(e2, k2);
                        if j != i as int {
                            assert(e2[j] == e[j]);
                        }
                    }
                    assert(self.view_map() =~= entries_map(e).insert(k@, v));
                }
            },
            None => {
                let key = copy_bytes(k);
                self.entries.push((key, v));
                proof {
                    let e2 = self.entries@;
                    let n = e.len() as int;
                    assert(keys_unique(e2)) by {
                        assert forall|a: int, b: int| 0 <= a < b < e2.len() implies (#[trigger] e2[a]).0@
                            != (#[trigger] e2[b]).0@ by {
                            if b == n {
                                assert(e2[a] == e[a]);
                                assert(!(0 <= a < e.len() && e[a].0@ == k@));
                            } else {
                                assert(e[a].0@ != e[b].0@);
                            }
                        }
                    }
                    lemma_key_pos(e2, n);
                    assert forall|k2: Seq<u8>| k2 != k@ && has_key(e, k2) implies has_key(e2, k2)
                        && e2[key_pos(e2, k2)].1 == e[key_pos(e, k2)].1 by {
                        let j = key_pos(e, k2);
                        lemma_key_pos(e, j);
                        assert(e2[j] == e[j]);
                        lemma_key_pos(e2, j);
                    }
                    assert forall|k2: Seq<u8>| has_key(e2, k2) implies k2 == k@ || has_key(e, k2) by {
                        let j = key_pos(e2, k2);
                        if j != n {
                            assert(e2[j] == e[j]);
                        }
                    }
                    assert(self.view_map() =~= entries_map(e).insert(k@, v));
                }
            },
        }
    }
}

/// In a store with one entry per address, the entry found for an address is
/// the one at which it stands.
pub proof fn lemma_key_pos<V>(e: Seq<(Vec<u8>, V)>, i: int)
    requires
        keys_unique(e),
        0 <= i < e.len(),
    ensures
        has_key(e, e[i].0@),
        key_pos(e, e[i].0@) == i,
        entries_map(e).contains_key(e[i].0@),
        entries_map(e)[e[i].0@] == e[i].1,
{
    assert(has_key(e, e[i].0@));
    let p = key_pos(e, e[i].0@);
    if p != i {
        if p < i {
            assert(e[p].0@ != e[i].0@);
        } else {
            assert(e[i].0@ != e[p].0@);
        }
    }
}

} // verus!
