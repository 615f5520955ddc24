//! Lazy adaptors over pull-based sequences.
//!
//! A sequence produces one element per poll until it is exhausted; exhaustion
//! is permanent. Four adaptors are built on that contract: an infinite cyclic
//! replay of a finite source, extraction of the element at one position,
//! a two-way fork with independent consumption rates, and run-length grouping
//! by a projected key.

use std::collections::VecDeque;
use vstd::prelude::*;
use vstd::arithmetic::div_mod::lemma_add_mod_noop;

verus! {

/// The pull-based sequence contract. `remaining` is the sequence of elements
/// still to be produced; each poll yields the first of them, and a poll of an
/// exhausted sequence keeps signalling exhaustion.
pub trait ExtendedIterator: Sized {
    spec fn remaining(&self) -> Seq<u64>;

    fn next(&mut self) -> (r: Option<u64>)
        ensures
            ({
                let prev = old(self).remaining();
                if prev.len() > 0 {
                    &&& r == Some(prev[0])
                    &&& final(self).remaining() == prev.drop_first()
                } else {
                    &&& r == None::<u64>
                    &&& final(self).remaining() == prev
                }
            }),
    ;

}

/// A sequence backed by a vector of elements, produced front to back.
pub struct VecSource {
    items: Vec<u64>,
    pos: usize,
}

impl VecSource {
    pub fn new(items: Vec<u64>) -> (r: Self)
        ensures
            r.remaining() == items@,
    {
        VecSource { items, pos: 0 }
    }
}

impl ExtendedIterator for VecSource {
    closed spec fn remaining(&self) -> Seq<u64> {
        if self.pos <= self.items@.len() {
            self.items@.skip(self.pos as int)
        } else {
            Seq::empty()
        }
    }

    fn next(&mut self) -> (r: Option<u64>) {
        if self.pos < self.items.len() {
            let v = self.items[self.pos];
            self.pos = self.pos + 1;
            proof {
                assert(old(self).remaining().drop_first() =~= self.remaining());
            }
            Some(v)
        } else {
            None
        }
    }
}

/// Replays its source forever: elements are buffered as they are produced,
/// and once the source is exhausted the buffer is cycled through endlessly.
/// A source of N > 0 elements therefore yields element `i % N` on poll `i`,
/// counting from zero, and an empty source yields an exhausted signal on
/// every poll.
pub struct LazyCycle<I: ExtendedIterator> {
    data: Vec<u64>,
    next_id: usize,
    done: bool,
    underlying: I,
    src: Ghost<Seq<u64>>,
    polls: Ghost<nat>,
}

impl<I: ExtendedIterator> LazyCycle<I> {
    /// The full contents of the wrapped source.
    pub closed spec fn source(&self) -> Seq<u64> {
        self.src@
    }

    /// How many times this adaptor has been polled.
    pub closed spec fn polled(&self) -> nat {
        self.polls@
    }

    pub closed spec fn wf(&self) -> bool {
        &&& if !self.done {
            &&& self.data@.len() <= self.src@.len()
            &&& self.data@ == self.src@.take(self.data@.len() as int)
            &&& self.underlying.remaining() == self.src@.skip(self.data@.len() as int)
            &&& self.polls@ == self.data@.len()
            &&& self.next_id == 0
        } else {
            &&& self.data@ == self.src@
            &&& self.underlying.remaining().len() == 0
            &&& self.src@.len() > 0 ==> {
                &&& self.polls@ >= self.src@.len()
                &&& self.next_id == self.polls@ % self.src@.len()
            }
        }
    }

    pub fn new(iter: I) -> (r: Self)
        ensures
            r.wf(),
            r.source() == iter.remaining(),
            r.polled() == 0,
    {
        let ghost src = iter.remaining();
        proof {
            assert(src.take(0) =~= Seq::<u64>::empty());
            assert(src.skip(0) =~= src);
        }
        LazyCycle {
            data: Vec::new(),
            next_id: 0,
            done: false,
            underlying: iter,
            src: Ghost(src),
            polls: Ghost(0),
        }
    }

    /// One poll after the source has been exhausted: cycle through the buffer.
    fn get_after_exhaustion(&mut self) -> (r: Option<u64>)
        requires
            old(self).wf(),
            old(self).done,
        ensures
            final(self).wf(),
            final(self).done,
            final(self).source() == old(self).source(),
            final(self).polled() == old(self).polled() + 1,
            r == (if old(self).source().len() == 0 {
                None::<u64>
            } else {
                Some(old(self).source()[(old(self).polled() % old(self).source().len()) as int])
            }),
    {
        self.polls = Ghost(self.polls@ + 1);
        if self.data.len() == 0 {
            return None;
        }

        let len = self.data.len();
        let res = self.data[self.next_id];
        self.next_id = (self.next_id + 1) % len;
        proof {
            let p = old(self).polls@ as int;
            let l = len as int;
            lemma_add_mod_noop(p, 1, l);
            if l > 1 {
                vstd::arithmetic::div_mod::lemma_small_mod(1nat, len as nat);
            } else {
                vstd::arithmetic::div_mod::lemma_mod_self_0(l);
                vstd::arithmetic::div_mod::lemma_fundamental_div_mod(p, 1);
                vstd::arithmetic::div_mod::lemma_fundamental_div_mod(p + 1, 1);
                vstd::arithmetic::div_mod::lemma_fundamental_div_mod(p % 1 + 1, 1);
            }
            assert((old(self).polls@ + 1) % (len as nat) == self.next_id);
        }
        Some(res)
    }

    /// One poll: pass the source through while it lasts, then replay the
    /// buffer forever. On poll `i` (counting from zero since construction)
    /// this yields element `i % N` of an N-element source, and exhaustion for
    /// an empty one.
    fn get_next(&mut self) -> (r: Option<u64>)
        requires
            old(self).wf(),
        ensures
            final(self).wf(),
            final(self).source() == old(self).source(),
            final(self).polled() == old(self).polled() + 1,
            r == (if old(self).source().len() == 0 {
                None::<u64>
            } else {
                Some(old(self).source()[(old(self).polled() % old(self).source().len()) as int])
            }),
    {
        if self.done {
            return self.get_after_exhaustion();
        }

        let nxt = self.underlying.next();
        match nxt {
            None => {
                self.done = true;
                proof {
                    assert(self.src@.take(self.data@.len() as int) =~= self.src@);
                }
                self.get_after_exhaustion()
            },
            Some(val) => {
                self.data.push(val);
                self.polls = Ghost(self.polls@ + 1);
                proof {
                    let n = old(self).data@.len() as int;
                    assert(old(self).underlying.remaining()[0] == self.src@[n]);
                    assert(self.data@ =~= self.src@.take(n + 1));
                    assert(self.underlying.remaining() =~= self.src@.skip(n + 1));
                    assert(n < self.src@.len());
                    vstd::arithmetic::div_mod::lemma_small_mod(n as nat, self.src@.len());
                    assert(old(self).polls@ % self.src@.len() == n);
                }
                Some(val)
            },
        }
    }

    /// Poll once.
    pub fn next(&mut self) -> (r: Option<u64>)
        requires
            old(self).wf(),
        ensures
            final(self).wf(),
            final(self).source() == old(self).source(),
            final(self).polled() == old(self).polled() + 1,
            r == (if old(self).source().len() == 0 {
                None::<u64>
            } else {
                Some(old(self).source()[(old(self).polled() % old(self).source().len()) as int])
            }),
    {
        self.get_next()
    }
}

/// Law: polled `3 * N` times from the start, a cyclic replay of an N-element
/// source (N > 0) yields the source three times over: poll `i` yields element
/// `i % N`, and that is exactly position `i` of the source concatenated with
/// itself twice.
pub proof fn lemma_cycle_three_replays(s: Seq<u64>)
    requires
        s.len() > 0,
    ensures
        forall|i: int|
            0 <= i < 3 * s.len() ==> ((s + s) + s)[i] == s[i % (s.len() as int)],
{
    let n = s.len() as int;
    assert forall|i: int| 0 <= i < 3 * n implies ((s + s) + s)[i] == s[i % n] by {
        if i < n {
            vstd::arithmetic::div_mod::lemma_small_mod(i as nat, n as nat);
        } else if i < 2 * n {
            vstd::arithmetic::div_mod::lemma_mod_sub_multiples_vanish(i, n);
            vstd::arithmetic::div_mod::lemma_small_mod((i - n) as nat, n as nat);
            assert(((s + s) + s)[i] == s[i - n]);
        } else {
            vstd::arithmetic::div_mod::lemma_mod_sub_multiples_vanish(i - n, n);
            vstd::arithmetic::div_mod::lemma_mod_sub_multiples_vanish(i, n);
            vstd::arithmetic::div_mod::lemma_small_mod((i - 2 * n) as nat, n as nat);
            assert(((s + s) + s)[i] == s[i - 2 * n]);
        }
    }
}

/// The element at one position is taken out; what was pulled to reach it is
/// buffered and drained first, then the untouched tail of the source follows.
pub struct Extract<I: ExtendedIterator> {
    data: VecDeque<u64>,
    underlying: I,
}

impl<I: ExtendedIterator> Extract<I> {
    /// Pull `index` elements into a buffer, take the next element out, and
    /// leave everything after it unconsumed in the source.
    pub fn new(iter: I, index: usize) -> (r: (Option<u64>, Extract<I>))
        ensures
            ({
                let src = iter.remaining();
                if index < src.len() {
                    &&& r.0 == Some(src[index as int])
                    &&& r.1.remaining() == src.remove(index as int)
                } else {
                    &&& r.0 == None::<u64>
                    &&& r.1.remaining() == src
                }
            }),
    {
        let ghost src = iter.remaining();
        let mut it = iter;
        let mut data: VecDeque<u64> = VecDeque::new();
        let mut i: usize = 0;
        let mut exhausted = false;

        proof {
            assert(src.take(0) =~= Seq::<u64>::empty());
            assert(src.skip(0) =~= src);
        }

        while i < index && !exhausted
            invariant
                i <= index,
                i <= src.len(),
                data@ == src.take(i as int),
                it.remaining() == src.skip(i as int),
                exhausted ==> i == src.len(),
            decreases index - i + (if exhausted { 0int } else { 1int }),
        {
            match it.next() {
                None => {
                    exhausted = true;
                },
                Some(val) => {
                    data.push_back(val);
                    i = i + 1;
                    proof {
                        assert(data@ =~= src.take(i as int));
                        assert(it.remaining() =~= src.skip(i as int));
                    }
                },
            }
        }

        let extracted = it.next();
        let rest = Extract { data, underlying: it };
        proof {
            if (index as int) < src.len() {
                assert(rest.remaining() =~= src.remove(index as int));
            } else {
                assert(rest.remaining() =~= src);
            }
        }
        (extracted, rest)
    }
}

impl<I: ExtendedIterator> ExtendedIterator for Extract<I> {
    /// First the buffered prefix, then whatever the source still holds.
    closed spec fn remaining(&self) -> Seq<u64> {
        self.data@ + self.underlying.remaining()
    }

    fn next(&mut self) -> (r: Option<u64>) {
        if self.data.len() == 0 {
            let r = self.underlying.next();
            proof {
                assert(self.data@ + self.underlying.remaining() =~= self.underlying.remaining());
                if old(self).remaining().len() > 0 {
                    assert(old(self).remaining() =~= old(self).underlying.remaining());
                    assert(self.remaining() =~= old(self).remaining().drop_first());
                }
            }
            return r;
        }
        let r = self.data.pop_front();
        proof {
            assert(self.remaining() =~= old(self).remaining().drop_first());
        }
        r
    }
}

/// One source forked into two handles. Each handle yields every element of
/// the shared source exactly once, in source order, however the polls of the
/// two handles are interleaved: whichever handle runs ahead pulls the source
/// and leaves a copy of what it pulled in the other handle's delivery queue.
pub struct Tee<I: ExtendedIterator> {
    underlying: I,
    done: bool,
    queue_first: VecDeque<u64>,
    queue_second: VecDeque<u64>,
    history: Ghost<Seq<u64>>,
    got_first: Ghost<Seq<u64>>,
    got_second: Ghost<Seq<u64>>,
}

impl<I: ExtendedIterator> Tee<I> {
    /// The whole logical content of the fork: everything the shared source
    /// ever produced followed by everything it still holds. Polls never
    /// change it.
    pub closed spec fn stream(&self) -> Seq<u64> {
        self.history@ + self.underlying.remaining()
    }

    /// The elements the first handle has yielded so far, in order.
    pub closed spec fn yielded_first(&self) -> Seq<u64> {
        self.got_first@
    }

    /// The elements the second handle has yielded so far, in order.
    pub closed spec fn yielded_second(&self) -> Seq<u64> {
        self.got_second@
    }

    pub closed spec fn wf(&self) -> bool {
        &&& self.history@ == self.got_first@ + self.queue_first@
        &&& self.history@ == self.got_second@ + self.queue_second@
        &&& self.done ==> self.underlying.remaining().len() == 0
    }

    pub fn new(iter: I) -> (r: Self)
        ensures
            r.wf(),
            r.stream() == iter.remaining(),
            r.yielded_first() == Seq::<u64>::empty(),
            r.yielded_second() == Seq::<u64>::empty(),
    {
        let r = Tee {
            underlying: iter,
            done: false,
            queue_first: VecDeque::new(),
            queue_second: VecDeque::new(),
            history: Ghost(Seq::empty()),
            got_first: Ghost(Seq::empty()),
            got_second: Ghost(Seq::empty()),
        };
        proof {
            assert(r.history@ =~= r.got_first@ + r.queue_first@);
            assert(r.history@ =~= r.got_second@ + r.queue_second@);
            assert(r.stream() =~= iter.remaining());
        }
        r
    }

    /// Poll the first handle.
    pub fn next_first(&mut self) -> (r: Option<u64>)
        requires
            old(self).wf(),
        ensures
            final(self).wf(),
            final(self).stream() == old(self).stream(),
            final(self).yielded_second() == old(self).yielded_second(),
            ({
                let taken = old(self).yielded_first().len();
                if taken < old(self).stream().len() {
                    &&& r == Some(old(self).stream()[taken as int])
                    &&& final(self).yielded_first() == old(self).yielded_first().push(
                        old(self).stream()[taken as int],
                    )
                } else {
                    &&& r == None::<u64>
                    &&& final(self).yielded_first() == old(self).yielded_first()
                }
            }),
    {
        if self.queue_first.len() > 0 {
            let popped = self.queue_first.pop_front();
            match popped {
                Some(v) => {
                    self.got_first = Ghost(self.got_first@.push(v));
                    proof {
                        assert(self.history@ =~= self.got_first@ + self.queue_first@);
                        assert(old(self).history@[old(self).got_first@.len() as int] == v);
                    }
                    Some(v)
                },
                None => None,
            }
        } else if self.done {
            proof {
                assert(old(self).got_first@ =~= old(self).history@);
            }
            None
        } else {
            let pulled = self.underlying.next();
            match pulled {
                None => {
                    self.done = true;
                    proof {
                        assert(old(self).got_first@ =~= old(self).history@);
                    }
                    None
                },
                Some(v) => {
                    self.queue_second.push_back(v);
                    self.history = Ghost(self.history@.push(v));
                    self.got_first = Ghost(self.got_first@.push(v));
                    proof {
                        assert(self.history@ =~= self.got_first@ + self.queue_first@);
                        assert(self.history@ =~= self.got_second@ + self.queue_second@);
                        assert(self.stream() =~= old(self).stream());
                        assert(old(self).got_first@.len() == old(self).history@.len());
                        assert(old(self).stream()[old(self).history@.len() as int] == v);
                    }
                    Some(v)
                },
            }
        }
    }

    /// Poll the second handle.
    pub fn next_second(&mut self) -> (r: Option<u64>)
        requires
            old(self).wf(),
        ensures
            final(self).wf(),
            final(self).stream() == old(self).stream(),
            final(self).yielded_first() == old(self).yielded_first(),
            ({
                let taken = old(self).yielded_second().len();
                if taken < old(self).stream().len() {
                    &&& r == Some(old(self).stream()[taken as int])
                    &&& final(self).yielded_second() == old(self).yielded_second().push(
                        old(self).stream()[taken as int],
                    )
                } else {
                    &&& r == None::<u64>
                    &&& final(self).yielded_second() == old(self).yielded_second()
                }
            }),
    {
        if self.queue_second.len() > 0 {
            let popped = self.queue_second.pop_front();
            match popped {
                Some(v) => {
                    self.got_second = Ghost(self.got_second@.push(v));
                    proof {
                        assert(self.history@ =~= self.got_second@ + self.queue_second@);
                        assert(old(self).history@[old(self).got_second@.len() as int] == v);
                    }
                    Some(v)
                },
                None => None,
            }
        } else if self.done {
            proof {
                assert(old(self).got_second@ =~= old(self).history@);
            }
            None
        } else {
            let pulled = self.underlying.next();
            match pulled {
                None => {
                    self.done = true;
                    proof {
                        assert(old(self).got_second@ =~= old(self).history@);
                    }
                    None
                },
                Some(v) => {
                    self.queue_first.push_back(v);
                    self.history = Ghost(self.history@.push(v));
                    self.got_second = Ghost(self.got_second@.push(v));
                    proof {
                        assert(self.history@ =~= self.got_second@ + self.queue_second@);
                        assert(self.history@ =~= self.got_first@ + self.queue_first@);
                        assert(self.stream() =~= old(self).stream());
                        assert(old(self).got_second@.len() == old(self).history@.len());
                        assert(old(self).stream()[old(self).history@.len() as int] == v);
                    }
                    Some(v)
                },
            }
        }
    }
}

/// Law: each handle of a fork yields an exact prefix of the shared stream, so
/// once both handles have yielded as many elements as the stream holds — in
/// whatever interleaving of polls got them there — the two handles have
/// yielded the same sequence, and it is the source itself.
pub proof fn lemma_tee_handles_agree<I: ExtendedIterator>(t: &Tee<I>)
    requires
        t.wf(),
        t.yielded_first().len() == t.stream().len(),
        t.yielded_second().len() == t.stream().len(),
    ensures
        t.yielded_first() == t.stream(),
        t.yielded_second() == t.stream(),
        t.yielded_first() == t.yielded_second(),
{
    assert(t.yielded_first() =~= t.stream());
    assert(t.yielded_second() =~= t.stream());
}

/// Law: a handle never yields anything but a prefix of the shared stream, in
/// order and without duplicates or gaps.
pub proof fn lemma_tee_yields_prefix<I: ExtendedIterator>(t: &Tee<I>)
    requires
        t.wf(),
    ensures
        t.yielded_first() == t.stream().take(t.yielded_first().len() as int),
        t.yielded_second() == t.stream().take(t.yielded_second().len() as int),
{
    assert(t.yielded_first() =~= t.stream().take(t.yielded_first().len() as int));
    assert(t.yielded_second() =~= t.stream().take(t.yielded_second().len() as int));
}

/// Run-length grouping of a sequence of elements by a sequence of projected
/// keys, one key per element: each new element joins the last run when its
/// key equals that run's key, and opens a new run otherwise.
pub open spec fn run_groups(elems: Seq<u64>, keys: Seq<u64>) -> Seq<(u64, Seq<u64>)>
    recommends
        elems.len() == keys.len(),
    decreases elems.len(),
{
    if elems.len() == 0 {
        Seq::empty()
    } else {
        let prev = run_groups(elems.drop_last(), keys.drop_last());
        let x = elems.last();
        let k = keys.last();
        if prev.len() > 0 && prev.last().0 == k {
            prev.update(prev.len() - 1, (k, prev.last().1.push(x)))
        } else {
            prev.push((k, seq![x]))
        }
    }
}

/// The source, fully drained at construction, partitioned into maximal
/// consecutive runs of equal projected key; the runs are then yielded one per
/// poll, in discovery order.
pub struct GroupBy {
    data: VecDeque<(u64, Vec<u64>)>,
}

/// The runs held in a buffer of (key, elements) pairs, as a mathematical
/// sequence.
pub open spec fn groups_of(data: Seq<(u64, Vec<u64>)>) -> Seq<(u64, Seq<u64>)> {
    Seq::new(data.len(), |i: int| (data[i].0, data[i].1@))
}

impl GroupBy {
    /// The runs still to be yielded: a key beside the elements of its run.
    pub closed spec fn groups(&self) -> Seq<(u64, Seq<u64>)> {
        groups_of(self.data@)
    }

    /// Drain the source and build the runs eagerly.
    pub fn new<I: ExtendedIterator, F: Fn(u64) -> u64>(iter: I, func: F) -> (r: GroupBy)
        requires
            forall|x: u64| #[trigger] func.requires((x,)),
        ensures
            exists|keys: Seq<u64>|
                {
                    &&& keys.len() == iter.remaining().len()
                    &&& (forall|j: int|
                        0 <= j < keys.len() ==> call_ensures(
                            func,
                            (iter.remaining()[j],),
                            #[trigger] keys[j],
                        ))
                    &&& r.groups() == run_groups(iter.remaining(), keys)
                },
    {
        let ghost src = iter.remaining();
        let mut it = iter;
        let mut data: VecDeque<(u64, Vec<u64>)> = VecDeque::new();
        let ghost mut seen: Seq<u64> = Seq::empty();
        let ghost mut keys: Seq<u64> = Seq::empty();
        let mut going = true;

        proof {
            assert(src.skip(0) =~= src);
            assert(src.take(0) =~= Seq::<u64>::empty());
        }

        while going
            invariant
                forall|x: u64| #[trigger] func.requires((x,)),
                seen.len() <= src.len(),
                seen == src.take(seen.len() as int),
                it.remaining() == src.skip(seen.len() as int),
                keys.len() == seen.len(),
                forall|j: int|
                    0 <= j < keys.len() ==> call_ensures(func, (seen[j],), #[trigger] keys[j]),
                groups_of(data@) == run_groups(seen, keys),
                !going ==> seen.len() == src.len(),
            decreases it.remaining().len() + (if going { 1int } else { 0int }),
        {
            match it.next() {
                None => {
                    going = false;
                },
                Some(val) => {
                    let key = func(val);
                    let ghost seen0 = seen;
                    let ghost keys0 = keys;
                    let ghost prev = run_groups(seen0, keys0);
                    proof {
                        seen = seen.push(val);
                        keys = keys.push(key);
                        assert(seen.drop_last() =~= seen0);
                        assert(keys.drop_last() =~= keys0);
                        assert(val == src[seen0.len() as int]);
                        assert(seen =~= src.take(seen.len() as int));
                        assert(it.remaining() =~= src.skip(seen.len() as int));
                        assert(run_groups(seen, keys) == (if prev.len() > 0 && prev.last().0
                            == key {
                            prev.update(prev.len() - 1, (key, prev.last().1.push(val)))
                        } else {
                            prev.push((key, seq![val]))
                        }));
                    }
                    let last = data.pop_back();
                    match last {
                        None => {
                            let mut grp: Vec<u64> = Vec::new();
                            grp.push(val);
                            data.push_back((key, grp));
                            proof {
                                assert(prev.len() == 0);
                                assert(grp@ =~= seq![val]);
                                assert(groups_of(data@) =~~= run_groups(seen, keys));
                            }
                        },
                        Some(tail) => {
                            if tail.0 == key {
                                let mut grp = tail.1;
                                grp.push(val);
                                data.push_back((key, grp));
                                proof {
                                    assert(prev.len() > 0 && prev.last().0 == key);
                                    assert(prev.last().1 == tail.1@);
                                    assert(groups_of(data@) =~~= run_groups(seen, keys));
                                }
                            } else {
                                data.push_back(tail);
                                let mut grp: Vec<u64> = Vec::new();
                                grp.push(val);
                                data.push_back((key, grp));
                                proof {
                                    assert(prev.len() > 0 && prev.last().0 != key);
                                    assert(grp@ =~= seq![val]);
                                    assert(groups_of(data@) =~~= run_groups(seen, keys));
                                }
                            }
                        },
                    }
                },
            }
        }

        GroupBy { data }
    }

    /// Yield the next run, or signal exhaustion once all runs are out.
    pub fn next(&mut self) -> (r: Option<(u64, Vec<u64>)>)
        ensures
            ({
                let prev = old(self).groups();
                if prev.len() > 0 {
                    &&& r matches Some(g) && g.0 == prev[0].0 && g.1@ == prev[0].1
                    &&& final(self).groups() == prev.drop_first()
                } else {
                    &&& r is None
                    &&& final(self).groups() == prev
                }
            }),
    {
        let r = self.data.pop_front();
        proof {
            if old(self).data@.len() > 0 {
                assert(self.groups() =~= old(self).groups().drop_first());
            }
        }
        r
    }
}

} // verus!

