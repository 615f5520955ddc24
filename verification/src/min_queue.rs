//! A first-in-first-out queue that also hands out its running minimum in
//! constant time, built from two stacks whose entries cache the minimum of
//! everything below them.

use std::collections::VecDeque;
use vstd::prelude::*;

verus! {

/// The queue elements of a stack of (element, cached minimum) pairs.
pub open spec fn firsts(s: Seq<(i64, i64)>) -> Seq<i64> {
    s.map_values(|p: (i64, i64)| p.0)
}

/// The least element of a non-empty sequence.
pub open spec fn min_of(s: Seq<i64>) -> i64
    recommends
        s.len() > 0,
    decreases s.len(),
{
    if s.len() <= 1 {
        s[0]
    } else {
        let m = min_of(s.drop_last());
        if s.last() < m {
            s.last()
        } else {
            m
        }
    }
}

/// Extending a non-empty sequence by one element moves its minimum to the
/// smaller of the old minimum and the new element.
proof fn lemma_min_of_push(s: Seq<i64>, v: i64)
    requires
        s.len() > 0,
    ensures
        min_of(s.push(v)) == if v < min_of(s) {
            v
        } else {
            min_of(s)
        },
{
    assert(s.push(v).drop_last() =~= s);
    assert(s.push(v).last() == v);
}

/// The minimum of a concatenation of non-empty sequences is the smaller of
/// the two minima.
proof fn lemma_min_of_concat(a: Seq<i64>, b: Seq<i64>)
    requires
        a.len() > 0,
        b.len() > 0,
    ensures
        min_of(a + b) == if min_of(b) < min_of(a) {
            min_of(b)
        } else {
            min_of(a)
        },
    decreases b.len(),
{
    if b.len() == 1 {
        assert((a + b).drop_last() =~= a);
        assert((a + b).last() == b[0]);
        assert(min_of(b) == b[0]);
    } else {
        lemma_min_of_concat(a, b.drop_last());
        assert((a + b).drop_last() =~= a + b.drop_last());
        assert((a + b).last() == b.last());
        assert(b.drop_last().len() > 0);
        lemma_min_of_push(b.drop_last(), b.last());
        assert(b.drop_last().push(b.last()) =~= b);
    }
}

/// Reversing a sequence does not change its minimum.
proof fn lemma_min_of_reverse(s: Seq<i64>)
    requires
        s.len() > 0,
    ensures
        min_of(s.reverse()) == min_of(s),
    decreases s.len(),
{
    if s.len() == 1 {
        assert(s.reverse() =~= s);
    } else {
        lemma_min_of_reverse(s.drop_last());
        assert(s.reverse() =~= seq![s.last()] + s.drop_last().reverse());
        lemma_min_of_concat(seq![s.last()], s.drop_last().reverse());
        lemma_min_of_push(s.drop_last(), s.last());
        assert(s.drop_last().push(s.last()) =~= s);
        assert(min_of(seq![s.last()]) == s.last());
    }
}

/// Law: the minimum of a non-empty sequence is one of its elements and no
/// element is smaller.
pub proof fn lemma_min_of_is_min(s: Seq<i64>)
    requires
        s.len() > 0,
    ensures
        s.contains(min_of(s)),
        forall|i: int| 0 <= i < s.len() ==> min_of(s) <= #[trigger] s[i],
    decreases s.len(),
{
    if s.len() == 1 {
        assert(s[0] == min_of(s));
    } else {
        lemma_min_of_is_min(s.drop_last());
        assert forall|i: int| 0 <= i < s.len() implies min_of(s) <= #[trigger] s[i] by {
            if i < s.len() - 1 {
                assert(s.drop_last()[i] == s[i]);
            }
        }
        if s.last() < min_of(s.drop_last()) {
            assert(s[s.len() - 1] == min_of(s));
        } else {
            let w = choose|i: int| 0 <= i < s.drop_last().len() && s.drop_last()[i] == min_of(
                s.drop_last(),
            );
            assert(s[w] == min_of(s));
        }
    }
}

/// Each stack entry caches the minimum of the stack up to and including
/// itself.
pub open spec fn mins_cached(s: Seq<(i64, i64)>) -> bool {
    forall|i: int| 0 <= i < s.len() ==> (#[trigger] s[i]).1 == min_of(firsts(s).take(i + 1))
}

/// Dropping the newest stack entry keeps the cached minima of the rest
/// correct.
proof fn lemma_mins_cached_drop_last(s: Seq<(i64, i64)>)
    requires
        mins_cached(s),
        s.len() > 0,
    ensures
        mins_cached(s.drop_last()),
{
    assert forall|i: int| 0 <= i < s.drop_last().len() implies (#[trigger] s.drop_last()[i]).1
        == min_of(firsts(s.drop_last()).take(i + 1)) by {
        assert(firsts(s.drop_last()).take(i + 1) =~= firsts(s).take(i + 1));
        assert(s[i].1 == min_of(firsts(s).take(i + 1)));
        assert(s.drop_last()[i] == s[i]);
    }
}

/// A queue with a constant-time minimum. Elements enter the push stack and
/// leave the pop stack; the pop stack is refilled by reversing the push
/// stack, and both stacks cache running minima.
pub struct MinQueue {
    push_stack: VecDeque<(i64, i64)>,
    pop_stack: VecDeque<(i64, i64)>,
}

impl MinQueue {
    /// The queue's elements, oldest first.
    pub closed spec fn view(&self) -> Seq<i64> {
        firsts(self.pop_stack@).reverse() + firsts(self.push_stack@)
    }

    pub closed spec fn wf(&self) -> bool {
        &&& mins_cached(self.push_stack@)
        &&& mins_cached(self.pop_stack@)
        &&& self.push_stack@.len() + self.pop_stack@.len() <= usize::MAX
    }

    pub fn new() -> (r: Self)
        ensures
            r.wf(),
            r.view() == Seq::<i64>::empty(),
    {
        let r = MinQueue { push_stack: VecDeque::new(), pop_stack: VecDeque::new() };
        proof {
            assert(r.view() =~= Seq::<i64>::empty());
        }
        r
    }

    /// Append an element at the back of the queue.
    #[verifier::loop_isolation(false)]
    pub fn push(&mut self, val: i64)
        requires
            old(self).wf(),
            old(self).view().len() < usize::MAX,
        ensures
            final(self).wf(),
            final(self).view() == old(self).view().push(val),
    {
        let n = self.push_stack.len();
        let min: i64 = if n == 0 {
            val
        } else {
            let back = self.push_stack[n - 1];
            proof {
                assert(back.1 == min_of(firsts(self.push_stack@).take(n as int)));
                assert(firsts(self.push_stack@).take(n as int) =~= firsts(self.push_stack@));
            }
            if val < back.1 {
                val
            } else {
                back.1
            }
        };

        self.push_stack.push_back((val, min));
        proof {
            let s0 = old(self).push_stack@;
            assert(firsts(self.push_stack@) =~= firsts(s0).push(val));
            if s0.len() > 0 {
                lemma_min_of_push(firsts(s0), val);
                assert(firsts(s0).take(s0.len() as int) =~= firsts(s0));
            }
            assert forall|i: int| 0 <= i < self.push_stack@.len() implies (
            #[trigger] self.push_stack@[i]).1 == min_of(firsts(self.push_stack@).take(i + 1)) by {
                if i < s0.len() {
                    assert(firsts(self.push_stack@).take(i + 1) =~= firsts(s0).take(i + 1));
                    assert(s0[i].1 == min_of(firsts(s0).take(i + 1)));
                } else {
                    assert(firsts(self.push_stack@).take(i + 1) =~= firsts(s0).push(val));
                }
            }
            assert(self.view() =~= old(self).view().push(val));
        }
    }

    /// Remove and return the oldest element, if any.
    #[verifier::loop_isolation(false)]
    pub fn pop(&mut self) -> (r: Option<i64>)
        requires
            old(self).wf(),
        ensures
            final(self).wf(),
            ({
                let v = old(self).view();
                if v.len() > 0 {
                    r == Some(v[0]) && final(self).view() == v.drop_first()
                } else {
                    r == None::<i64> && final(self).view() == v
                }
            }),
    {
        if self.pop_stack.len() == 0 {
            let ghost p0 = firsts(old(self).push_stack@);
            proof {
                assert(old(self).view() =~= p0);
            }
            while self.push_stack.len() > 0
                invariant
                    mins_cached(self.push_stack@),
                    mins_cached(self.pop_stack@),
                    self.push_stack@.len() + self.pop_stack@.len() <= usize::MAX,
                    firsts(self.push_stack@) + firsts(self.pop_stack@).reverse() == p0,
                decreases self.push_stack@.len(),
            {
                let ghost pstack0 = self.push_stack@;
                let popped = self.push_stack.pop_back();
                proof {
                    if pstack0.len() > 0 {
                        lemma_mins_cached_drop_last(pstack0);
                        assert(self.push_stack@ =~= pstack0.drop_last());
                    }
                }
                match popped {
                    Some(tmp) => {
                        let m = self.pop_stack.len();
                        let min: i64 = if m == 0 {
                            tmp.0
                        } else {
                            let back = self.pop_stack[m - 1];
                            proof {
                                assert(back.1 == min_of(
                                    firsts(self.pop_stack@).take(m as int),
                                ));
                                assert(firsts(self.pop_stack@).take(m as int) =~= firsts(
                                    self.pop_stack@,
                                ));
                            }
                            if tmp.0 < back.1 {
                                tmp.0
                            } else {
                                back.1
                            }
                        };
                        let ghost q0 = self.pop_stack@;
                        let ghost push_before = self.push_stack@.push(tmp);
                        self.pop_stack.push_back((tmp.0, min));
                        proof {
                            assert(firsts(self.pop_stack@) =~= firsts(q0).push(tmp.0));
                            if q0.len() > 0 {
                                lemma_min_of_push(firsts(q0), tmp.0);
                                assert(firsts(q0).take(q0.len() as int) =~= firsts(q0));
                            }
                            assert forall|i: int| 0 <= i < self.pop_stack@.len() implies (
                            #[trigger] self.pop_stack@[i]).1 == min_of(
                                firsts(self.pop_stack@).take(i + 1),
                            ) by {
                                if i < q0.len() {
                                    assert(firsts(self.pop_stack@).take(i + 1) =~= firsts(
                                        q0,
                                    ).take(i + 1));
                                    assert(q0[i].1 == min_of(firsts(q0).take(i + 1)));
                                } else {
                                    assert(firsts(self.pop_stack@).take(i + 1) =~= firsts(
                                        q0,
                                    ).push(tmp.0));
                                }
                            }
                            assert(firsts(self.push_stack@) + firsts(
                                self.pop_stack@,
                            ).reverse() =~= p0);
                        }
                    },
                    None => {},
                }
            }
            proof {
                assert(firsts(self.push_stack@) =~= Seq::<i64>::empty());
                assert(firsts(self.pop_stack@).reverse() =~= p0);
                assert(self.view() =~= old(self).view());
            }
        }

        let ghost qstack0 = self.pop_stack@;
        let popped = self.pop_stack.pop_back();
        match popped {
            Some(entry) => {
                proof {
                    lemma_mins_cached_drop_last(qstack0);
                    assert(self.pop_stack@ =~= qstack0.drop_last());
                    let q = old(self).view();
                    let pops = firsts(self.pop_stack@);
                    assert(entry.0 == q[0]) by {
                        assert(q[0] == firsts(self.pop_stack@.push(entry)).reverse()[0]);
                        assert(firsts(self.pop_stack@.push(entry)).reverse()[0] == firsts(
                            self.pop_stack@.push(entry),
                        ).last());
                        assert(firsts(self.pop_stack@.push(entry)).last() == entry.0);
                    }
                    assert(self.view() =~= q.drop_first()) by {
                        assert(firsts(self.pop_stack@.push(entry)) =~= firsts(
                            self.pop_stack@,
                        ).push(entry.0));
                        assert(firsts(self.pop_stack@).push(entry.0).reverse() =~= seq![entry.0]
                            + firsts(self.pop_stack@).reverse());
                    }
                }
                Some(entry.0)
            },
            None => {
                proof {
                    assert(old(self).view() =~= self.view());
                    assert(self.view().len() == 0);
                }
                None
            },
        }
    }

    /// The oldest element, without removing it.
    pub fn front(&self) -> (r: Option<&i64>)
        requires
            self.wf(),
        ensures
            ({
                let v = self.view();
                if v.len() > 0 {
                    r matches Some(x) && *x == v[0]
                } else {
                    r is None
                }
            }),
    {
        let m = self.pop_stack.len();
        let n = self.push_stack.len();
        if m > 0 {
            proof {
                assert(self.view()[0] == firsts(self.pop_stack@).reverse()[0]);
                assert(firsts(self.pop_stack@).reverse()[0] == firsts(self.pop_stack@).last());
            }
            Some(&self.pop_stack[m - 1].0)
        } else if n > 0 {
            proof {
                assert(firsts(self.pop_stack@).reverse() =~= Seq::<i64>::empty());
                assert(self.view() =~= firsts(self.push_stack@));
            }
            Some(&self.push_stack[0].0)
        } else {
            proof {
                assert(self.view() =~= Seq::<i64>::empty());
            }
            None
        }
    }

    /// The least element of the queue, without removing it.
    pub fn min(&self) -> (r: Option<&i64>)
        requires
            self.wf(),
        ensures
            ({
                let v = self.view();
                if v.len() > 0 {
                    r matches Some(x) && *x == min_of(v)
                } else {
                    r is None
                }
            }),
    {
        let m = self.pop_stack.len();
        let n = self.push_stack.len();
        proof {
            if m > 0 {
                assert(self.pop_stack@[m - 1].1 == min_of(
                    firsts(self.pop_stack@).take(m as int),
                ));
                assert(firsts(self.pop_stack@).take(m as int) =~= firsts(self.pop_stack@));
                lemma_min_of_reverse(firsts(self.pop_stack@));
            }
            if n > 0 {
                assert(self.push_stack@[n - 1].1 == min_of(
                    firsts(self.push_stack@).take(n as int),
                ));
                assert(firsts(self.push_stack@).take(n as int) =~= firsts(self.push_stack@));
            }
            if m > 0 && n > 0 {
                lemma_min_of_concat(firsts(self.pop_stack@).reverse(), firsts(self.push_stack@));
            }
            if m > 0 && n == 0 {
                assert(self.view() =~= firsts(self.pop_stack@).reverse());
            }
            if m == 0 && n > 0 {
                assert(self.view() =~= firsts(self.push_stack@));
            }
            if m == 0 && n == 0 {
                assert(self.view() =~= Seq::<i64>::empty());
            }
        }
        if n == 0 || m == 0 {
            if n == 0 && m > 0 {
                Some(&self.pop_stack[m - 1].1)
            } else if m == 0 && n > 0 {
                Some(&self.push_stack[n - 1].1)
            } else {
                None
            }
        } else {
            if self.pop_stack[m - 1].1 < self.push_stack[n - 1].1 {
                Some(&self.pop_stack[m - 1].1)
            } else {
                Some(&self.push_stack[n - 1].1)
            }
        }
    }

    /// How many elements the queue holds.
    pub fn len(&self) -> (r: usize)
        requires
            self.wf(),
        ensures
            r == self.view().len(),
    {
        self.push_stack.len() + self.pop_stack.len()
    }

    /// Whether the queue holds nothing.
    pub fn is_empty(&self) -> (r: bool)
        requires
            self.wf(),
        ensures
            r == (self.view().len() == 0),
    {
        self.push_stack.len() == 0 && self.pop_stack.len() == 0
    }
}

impl Default for MinQueue {
    fn default() -> (r: Self)
        ensures
            r.wf(),
            r.view() == Seq::<i64>::empty(),
    {
        MinQueue::new()
    }
}

} // verus!
