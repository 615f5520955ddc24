//! An association container kept as a vector of entries sorted by key, looked
//! up by binary search.

use vstd::prelude::*;

verus! {

/// The entries are strictly sorted by key, so every key occurs at most once.
pub open spec fn sorted_by_key<V>(s: Seq<(u64, V)>) -> bool {
    forall|i: int, j: int| 0 <= i < j < s.len() ==> (#[trigger] s[i]).0 < (#[trigger] s[j]).0
}

/// Some entry carries the key.
pub open spec fn has_key<V>(s: Seq<(u64, V)>, key: u64) -> bool {
    exists|i: int| 0 <= i < s.len() && (#[trigger] s[i]).0 == key
}

/// Relies on Vec::capacity of std: a vector's capacity is at least its
/// length.
#[verifier::external_body]
fn vec_capacity<T>(v: &Vec<T>) -> (r: usize)
    ensures
        r >= v@.len(),
{
    v.capacity()
}

/// A map from keys to values held as a flat sorted vector of entries.
pub struct FlatMap<V>(Vec<(u64, V)>);

impl<V> FlatMap<V> {
    /// The entries, in strictly increasing key order.
    pub closed spec fn view(&self) -> Seq<(u64, V)> {
        self.0@
    }

    pub open spec fn wf(&self) -> bool {
        sorted_by_key(self.view())
    }

    pub fn new() -> (r: Self)
        ensures
            r.wf(),
            r.view() == Seq::<(u64, V)>::empty(),
    {
        FlatMap(Vec::new())
    }

    pub fn len(&self) -> (r: usize)
        ensures
            r == self.view().len(),
    {
        self.0.len()
    }

    pub fn is_empty(&self) -> (r: bool)
        ensures
            r == (self.view().len() == 0),
    {
        self.0.len() == 0
    }

    /// How many entries fit before the storage reallocates; at least the
    /// current number of entries.
    pub fn capacity(&self) -> (r: usize)
        ensures
            r >= self.view().len(),
    {
        vec_capacity(&self.0)
    }

    pub fn as_slice(&self) -> (r: &[(u64, V)])
        ensures
            r@ == self.view(),
    {
        self.0.as_slice()
    }

    /// The index where `key` sits or would be inserted: everything before it
    /// has a smaller key, everything from it on a key at least as large.
    #[verifier::loop_isolation(false)]
    fn search(&self, key: u64) -> (r: usize)
        requires
            self.wf(),
        ensures
            r <= self.view().len(),
            forall|t: int| 0 <= t < r ==> (#[trigger] self.view()[t]).0 < key,
            forall|t: int| r <= t < self.view().len() ==> (#[trigger] self.view()[t]).0 >= key,
    {
        let mut lo: usize = 0;
        let mut hi: usize = self.0.len();
        while lo < hi
            invariant
                lo <= hi <= self.view().len(),
                forall|t: int| 0 <= t < lo ==> (#[trigger] self.view()[t]).0 < key,
                forall|t: int|
                    hi <= t < self.view().len() ==> (#[trigger] self.view()[t]).0 >= key,
            decreases hi - lo,
        {
            let mid = lo + (hi - lo) / 2;
            if self.0[mid].0 < key {
                lo = mid + 1;
            } else {
                hi = mid;
            }
        }
        lo
    }

    /// Bind `key` to `value`. If the key was bound the old value is replaced
    /// and handed back; otherwise the entry is inserted at its sorted
    /// position.
    pub fn insert(&mut self, key: u64, value: V) -> (r: Option<V>)
        requires
            old(self).wf(),
        ensures
            final(self).wf(),
            ({
                let s = old(self).view();
                if has_key(s, key) {
                    exists|i: int|
                        0 <= i < s.len() && (#[trigger] s[i]).0 == key && (r matches Some(v) && v
                            == s[i].1) && final(self).view() == s.update(i, (key, value))
                } else {
                    r is None && exists|i: int|
                        0 <= i <= s.len() && final(self).view() == s.take(i) + seq![(key, value)]
                            + s.skip(i) && (forall|t: int|
                            0 <= t < i ==> (#[trigger] s[t]).0 < key) && (forall|t: int|
                            i <= t < s.len() ==> (#[trigger] s[t]).0 > key)
                }
            }),
    {
        let ghost s = self.0@;
        let pos = self.search(key);
        if pos < self.0.len() && self.0[pos].0 == key {
            let entry = self.0.remove(pos);
            self.0.insert(pos, (key, value));
            proof {
                assert(self.0@ =~= s.update(pos as int, (key, value)));
                assert forall|a: int, b: int| 0 <= a < b < self.0@.len() implies (
                #[trigger] self.0@[a]).0 < (#[trigger] self.0@[b]).0 by {
                    assert(s[a].0 < s[b].0);
                }
            }
            Some(entry.1)
        } else {
            self.0.insert(pos, (key, value));
            proof {
                assert(self.0@ =~= s.take(pos as int) + seq![(key, value)] + s.skip(pos as int));
                assert forall|a: int, b: int| 0 <= a < b < self.0@.len() implies (
                #[trigger] self.0@[a]).0 < (#[trigger] self.0@[b]).0 by {
                    if a < pos && b > pos {
                        assert(s[a].0 < key);
                        assert(s[b - 1].0 > key);
                    } else if a < pos && b < pos {
                        assert(s[a].0 < s[b].0);
                    } else if a > pos && b > pos {
                        assert(s[a - 1].0 < s[b - 1].0);
                    }
                }
                assert(!has_key(s, key));
            }
            None
        }
    }

    /// The value bound to `key`, if any.
    pub fn get(&self, key: &u64) -> (r: Option<&V>)
        requires
            self.wf(),
        ensures
            ({
                let s = self.view();
                if has_key(s, *key) {
                    exists|i: int|
                        0 <= i < s.len() && (#[trigger] s[i]).0 == *key && (r matches Some(v) && *v
                            == s[i].1)
                } else {
                    r is None
                }
            }),
    {
        let pos = self.search(*key);
        if pos < self.0.len() && self.0[pos].0 == *key {
            Some(&self.0[pos].1)
        } else {
            proof {
                assert(!has_key(self.view(), *key));
            }
            None
        }
    }

    /// Unbind `key`, handing back the value it was bound to, if any.
    pub fn remove(&mut self, key: &u64) -> (r: Option<V>)
        requires
            old(self).wf(),
        ensures
            final(self).wf(),
            ({
                let s = old(self).view();
                if has_key(s, *key) {
                    exists|i: int|
                        0 <= i < s.len() && (#[trigger] s[i]).0 == *key && (r matches Some(v) && v
                            == s[i].1) && final(self).view() == s.remove(i)
                } else {
                    r is None && final(self).view() == s
                }
            }),
    {
        let ghost s = self.0@;
        let pos = self.search(*key);
        if pos < self.0.len() && self.0[pos].0 == *key {
            let entry = self.0.remove(pos);
            proof {
                assert forall|a: int, b: int| 0 <= a < b < self.0@.len() implies (
                #[trigger] self.0@[a]).0 < (#[trigger] self.0@[b]).0 by {
                    let aa = if a < pos { a } else { a + 1 };
                    let bb = if b < pos { b } else { b + 1 };
                    assert(s[aa].0 < s[bb].0);
                }
            }
            Some(entry.1)
        } else {
            proof {
                assert(!has_key(s, *key));
            }
            None
        }
    }

    /// Unbind `key`, handing back the whole entry, if any.
    pub fn remove_entry(&mut self, key: &u64) -> (r: Option<(u64, V)>)
        requires
            old(self).wf(),
        ensures
            final(self).wf(),
            ({
                let s = old(self).view();
                if has_key(s, *key) {
                    exists|i: int|
                        0 <= i < s.len() && (#[trigger] s[i]).0 == *key && (r matches Some(e) && e
                            == s[i]) && final(self).view() == s.remove(i)
                } else {
                    r is None && final(self).view() == s
                }
            }),
    {
        let ghost s = self.0@;
        let pos = self.search(*key);
        if pos < self.0.len() && self.0[pos].0 == *key {
            let entry = self.0.remove(pos);
            proof {
                assert forall|a: int, b: int| 0 <= a < b < self.0@.len() implies (
                #[trigger] self.0@[a]).0 < (#[trigger] self.0@[b]).0 by {
                    let aa = if a < pos { a } else { a + 1 };
                    let bb = if b < pos { b } else { b + 1 };
                    assert(s[aa].0 < s[bb].0);
                }
            }
            Some(entry)
        } else {
            proof {
                assert(!has_key(s, *key));
            }
            None
        }
    }
}

impl<V> Default for FlatMap<V> {
    fn default() -> (r: Self)
        ensures
            r.wf(),
            r.view() == Seq::<(u64, V)>::empty(),
    {
        FlatMap::new()
    }
}

} // verus!
