//! A capacity-bounded cache that evicts the least recently used entry.

use vstd::prelude::*;

verus! {

/// No two entries carry the same key.
pub open spec fn keys_unique<V>(s: Seq<(u64, V)>) -> bool {
    forall|i: int, j: int| 0 <= i < j < s.len() ==> (#[trigger] s[i]).0 != (#[trigger] s[j]).0
}

/// Some entry carries the key.
pub open spec fn contains_key<V>(s: Seq<(u64, V)>, key: u64) -> bool {
    exists|i: int| 0 <= i < s.len() && (#[trigger] s[i]).0 == key
}

/// A bounded cache. Entries are held from least recently used to most
/// recently used; a `get` or `insert` of a key makes it the most recent, and
/// an `insert` into a full cache evicts the least recent entry.
pub struct LRUCache<V> {
    capacity: usize,
    entries: Vec<(u64, V)>,
}

impl<V> LRUCache<V> {
    /// The entries, least recently used first.
    pub closed spec fn view(&self) -> Seq<(u64, V)> {
        self.entries@
    }

    pub closed spec fn spec_capacity(&self) -> usize {
        self.capacity
    }

    /// Bounded by a positive capacity, one entry per key.
    pub open spec fn wf(&self) -> bool {
        &&& self.spec_capacity() > 0
        &&& self.view().len() <= self.spec_capacity()
        &&& keys_unique(self.view())
    }

    /// An empty cache that holds at most `capacity` entries.
    pub fn new(capacity: usize) -> (r: Self)
        requires
            capacity > 0,
        ensures
            r.wf(),
            r.spec_capacity() == capacity,
            r.view() == Seq::<(u64, V)>::empty(),
    {
        LRUCache { capacity, entries: Vec::new() }
    }

    /// Look a key up. A hit hands back the value and makes the entry the most
    /// recently used; a miss changes nothing.
    #[verifier::loop_isolation(false)]
    pub fn get(&mut self, key: &u64) -> (r: Option<&V>)
        requires
            old(self).wf(),
        ensures
            final(self).wf(),
            final(self).spec_capacity() == old(self).spec_capacity(),
            ({
                let s = old(self).view();
                if contains_key(s, *key) {
                    exists|i: int|
                        0 <= i < s.len() && (#[trigger] s[i]).0 == *key && (r matches Some(v)
                            && *v == s[i].1) && final(self).view() == s.remove(i).push(
                            (*key, s[i].1),
                        )
                } else {
                    r is None && final(self).view() == s
                }
            }),
    {
        let ghost s = self.entries@;
        let n = self.entries.len();
        let mut i: usize = 0;
        while i < n
            invariant
                n == self.entries@.len(),
                i <= n,
                forall|t: int| 0 <= t < i ==> (#[trigger] s[t]).0 != *key,
                self.entries@ == s,
                self.spec_capacity() == old(self).spec_capacity(),
            decreases n - i,
        {
            if self.entries[i].0 == *key {
                let entry = self.entries.remove(i);
                self.entries.push(entry);
                proof {
                    let t = i as int;
                    assert(s[t].0 == *key);
                    assert(self.entries@ == s.remove(t).push((*key, s[t].1)));
                    assert forall|a: int, b: int|
                        0 <= a < b < self.entries@.len() implies (#[trigger] self.entries@[a]).0
                        != (#[trigger] self.entries@[b]).0 by {
                        assert(keys_unique(s));
                    }
                }
                let last = self.entries.len() - 1;
                return Some(&self.entries[last].1);
            }
            i = i + 1;
        }
        None
    }

    /// Insert a key. If the key is present its value is replaced and the old
    /// one handed back; otherwise the entry is added, evicting the least
    /// recently used entry when the cache is full. Either way the key becomes
    /// the most recently used.
    #[verifier::loop_isolation(false)]
    pub fn insert(&mut self, key: u64, value: V) -> (r: Option<V>)
        requires
            old(self).wf(),
        ensures
            final(self).wf(),
            final(self).spec_capacity() == old(self).spec_capacity(),
            ({
                let s = old(self).view();
                if contains_key(s, key) {
                    exists|i: int|
                        0 <= i < s.len() && (#[trigger] s[i]).0 == key && (r matches Some(v) && v
                            == s[i].1) && final(self).view() == s.remove(i).push((key, value))
                } else if s.len() == old(self).spec_capacity() {
                    r is None && final(self).view() == s.drop_first().push((key, value))
                } else {
                    r is None && final(self).view() == s.push((key, value))
                }
            }),
    {
        let ghost s = self.entries@;
        let n = self.entries.len();
        let mut i: usize = 0;
        while i < n
            invariant
                n == self.entries@.len(),
                i <= n,
                forall|t: int| 0 <= t < i ==> (#[trigger] s[t]).0 != key,
                self.entries@ == s,
                self.spec_capacity() == old(self).spec_capacity(),
            decreases n - i,
        {
            if self.entries[i].0 == key {
                let entry = self.entries.remove(i);
                self.entries.push((key, value));
                proof {
                    let t = i as int;
                    assert(s[t].0 == key);
                    assert(self.entries@ == s.remove(t).push((key, value)));
                    assert forall|a: int, b: int|
                        0 <= a < b < self.entries@.len() implies (#[trigger] self.entries@[a]).0
                        != (#[trigger] self.entries@[b]).0 by {
                        assert(keys_unique(s));
                    }
                }
                return Some(entry.1);
            }
            i = i + 1;
        }

        proof {
            assert(!contains_key(s, key));
        }
        if self.entries.len() == self.capacity {
            let evicted = self.entries.remove(0);
            self.entries.push((key, value));
            proof {
                assert(self.entries@ == s.drop_first().push((key, value)));
                assert forall|a: int, b: int|
                    0 <= a < b < self.entries@.len() implies (#[trigger] self.entries@[a]).0
                    != (#[trigger] self.entries@[b]).0 by {
                    assert(keys_unique(s));
                    if b < self.entries@.len() - 1 {
                        assert(self.entries@[a] == s[a + 1]);
                        assert(self.entries@[b] == s[b + 1]);
                    } else {
                        assert(self.entries@[a] == s[a + 1]);
                        assert(s[a + 1].0 != key);
                    }
                }
            }
        } else {
            self.entries.push((key, value));
            proof {
                assert forall|a: int, b: int|
                    0 <= a < b < self.entries@.len() implies (#[trigger] self.entries@[a]).0
                    != (#[trigger] self.entries@[b]).0 by {
                    assert(keys_unique(s));
                    if b < self.entries@.len() - 1 {
                        assert(self.entries@[a] == s[a]);
                        assert(self.entries@[b] == s[b]);
                    } else {
                        assert(self.entries@[a] == s[a]);
                        assert(s[a].0 != key);
                    }
                }
            }
        }
        None
    }
}

} // verus!
