//! A fixed-capacity circular history of the six most recent pushed values.
//!
//! Slots that were never pushed hold the sentinel value 361 (the "no move"
//! index, one past the last board point). Iteration runs from the most
//! recently pushed value backward in time and always yields exactly six
//! items.

use vstd::prelude::*;

verus! {

/// The sentinel held by slots that were never pushed.
pub const EMPTY_SLOT: u16 = 361;

/// A circular stack that keeps track of the six most recent pushed values.
pub struct CircularBuf {
    position: usize,
    buf: Vec<u16>,
}

/// An iterator over the values of a `CircularBuf`, most recent first.
pub struct CircularIterator {
    count: usize,
    position: usize,
    buf: Vec<u16>,
}

/// What one push does to the history: the new value enters in front and the
/// oldest of the six values falls out.
pub open spec fn push_model(c: Seq<u16>, value: u16) -> Seq<u16> {
    seq![value] + c.take(5)
}

/// The history after pushing every value of `vs` in order onto `c`.
pub open spec fn push_all(c: Seq<u16>, vs: Seq<u16>) -> Seq<u16>
    decreases vs.len(),
{
    if vs.len() == 0 {
        c
    } else {
        push_all(push_model(c, vs[0]), vs.skip(1))
    }
}

impl CircularBuf {
    pub closed spec fn wf(self) -> bool {
        self.position < 6 && self.buf@.len() == 6
    }

    /// The six recorded values, most recent first.
    pub closed spec fn contents(self) -> Seq<u16> {
        Seq::new(6, |k: int| self.buf@[(self.position - 1 - k) % 6])
    }

    pub fn new() -> (r: CircularBuf)
        ensures
            r.wf(),
            r.contents() == Seq::new(6, |k: int| EMPTY_SLOT),
    {
        let mut buf: Vec<u16> = Vec::new();
        let mut i: usize = 0;
        while i < 6
            invariant
                i <= 6,
                buf@.len() == i,
                forall|k: int| 0 <= k < i ==> buf@[k] == EMPTY_SLOT,
            decreases 6 - i,
        {
            buf.push(EMPTY_SLOT);
            i += 1;
        }
        let r = CircularBuf { position: 0, buf };
        proof {
            assert(r.contents() =~= Seq::new(6, |k: int| EMPTY_SLOT));
        }
        r
    }

    /// Adds another value to this circular buffer, displacing the oldest one.
    pub fn push(&mut self, value: u16)
        requires
            old(self).wf(),
        ensures
            final(self).wf(),
            final(self).contents() == push_model(old(self).contents(), value),
    {
        self.buf[self.position] = value;
        self.position = (self.position + 1) % 6;
        proof {
            let oldc = old(self).contents();
            let newc = final(self).contents();
            let p = old(self).position as int;
            assert forall|k: int| 0 <= k < 6 implies newc[k] == push_model(oldc, value)[k] by {
                assert(newc[k] == self.buf@[(p - k) % 6]);
                if k == 0 {
                    assert((p - 0) % 6 == p);
                } else {
                    assert((p - k) % 6 != p % 6);
                    assert((p - k) % 6 == (p - 1 - (k - 1)) % 6);
                }
            }
            assert(newc =~= push_model(oldc, value));
        }
    }

    /// Returns an iterator over all the values in the stack starting with the
    /// most recent one, and going backward in time.
    pub fn iter(&self) -> (r: CircularIterator)
        requires
            self.wf(),
        ensures
            r.wf(),
            r.remaining() == self.contents(),
    {
        let r = CircularIterator {
            count: 0,
            position: (self.position + 5) % 6,
            buf: self.buf.clone(),
        };
        proof {
            let p = self.position as int;
            assert forall|k: int| 0 <= k < 6 implies r.remaining()[k] == self.contents()[k] by {
                assert(((p + 5) % 6 - k) % 6 == (p + 5 - k) % 6);
                assert((p + 5 - k) % 6 == (p - 1 - k) % 6);
            }
            assert(r.remaining() =~= self.contents());
        }
        r
    }
}

impl Clone for CircularBuf {
    fn clone(&self) -> (r: CircularBuf)
        ensures
            r.wf() == self.wf(),
            r.contents() == self.contents(),
    {
        CircularBuf { position: self.position, buf: self.buf.clone() }
    }
}

impl CircularIterator {
    pub closed spec fn wf(self) -> bool {
        self.position < 6 && self.count <= 6 && self.buf@.len() == 6
    }

    /// The values not yet yielded, in the order they will come.
    pub closed spec fn remaining(self) -> Seq<u16> {
        Seq::new((6 - self.count) as nat, |k: int| self.buf@[(self.position - k) % 6])
    }

    /// Yields the next value, or `None` once all six values have come.
    pub fn next(&mut self) -> (r: Option<u16>)
        requires
            old(self).wf(),
        ensures
            final(self).wf(),
            old(self).remaining().len() == 0 ==> r is None && final(self).remaining().len() == 0,
            old(self).remaining().len() > 0 ==> {
                &&& r == Some(old(self).remaining()[0])
                &&& final(self).remaining() == old(self).remaining().skip(1)
            },
    {
        if self.count == 6 {
            None
        } else {
            let index = self.position;
            self.position = (self.position + 5) % 6;
            self.count += 1;
            let item = self.buf[index];
            proof {
                let oldr = old(self).remaining();
                let p = old(self).position as int;
                assert forall|k: int| 0 <= k < oldr.len() - 1 implies final(self).remaining()[k]
                    == oldr.skip(1)[k] by {
                    assert(((p + 5) % 6 - k) % 6 == (p + 5 - k) % 6);
                    assert((p + 5 - k) % 6 == (p - (k + 1)) % 6);
                }
                assert(final(self).remaining() =~= oldr.skip(1));
                assert((p - 0) % 6 == p);
            }
            Some(item)
        }
    }
}

/// Law: after pushing at least six values, the history is exactly the six
/// most recent pushed values in reverse push order, whatever it held before.
pub proof fn lemma_push_all_recent(c: Seq<u16>, vs: Seq<u16>)
    requires
        c.len() == 6,
        vs.len() >= 6,
    ensures
        push_all(c, vs) == Seq::new(6, |k: int| vs[vs.len() - 1 - k]),
    decreases vs.len(),
{
    lemma_push_all_len(c, vs);
    if vs.len() == 6 {
        lemma_push_all_prefix(c, vs);
    } else {
        lemma_push_all_recent(push_model(c, vs[0]), vs.skip(1));
        assert(push_all(c, vs) =~= Seq::new(6, |k: int| vs[vs.len() - 1 - k])) by {
            let tail = vs.skip(1);
            assert forall|k: int| 0 <= k < 6 implies push_all(c, vs)[k] == vs[vs.len() - 1 - k] by {
                assert(push_all(c, vs)[k] == tail[tail.len() - 1 - k]);
                assert(tail[tail.len() - 1 - k] == vs[vs.len() - 1 - k]);
            }
        }
    }
}

/// The history always keeps length six.
pub proof fn lemma_push_all_len(c: Seq<u16>, vs: Seq<u16>)
    requires
        c.len() == 6,
    ensures
        push_all(c, vs).len() == 6,
    decreases vs.len(),
{
    if vs.len() > 0 {
        lemma_push_all_len(push_model(c, vs[0]), vs.skip(1));
    }
}

/// After pushing exactly `k <= 6` values, the first `k` history slots are the
/// pushed values in reverse order.
proof fn lemma_push_all_prefix(c: Seq<u16>, vs: Seq<u16>)
    requires
        c.len() == 6,
        vs.len() <= 6,
    ensures
        push_all(c, vs).len() == 6,
        forall|k: int| 0 <= k < vs.len() ==> push_all(c, vs)[k] == vs[vs.len() - 1 - k],
    decreases vs.len(),
{
    lemma_push_all_len(c, vs);
    if vs.len() > 0 {
        let c1 = push_model(c, vs[0]);
        let tail = vs.skip(1);
        lemma_push_all_prefix(c1, tail);
        assert forall|k: int| 0 <= k < vs.len() implies push_all(c, vs)[k] == vs[vs.len() - 1 - k] by {
            if k < vs.len() - 1 {
                assert(push_all(c, vs)[k] == tail[tail.len() - 1 - k]);
                assert(tail[tail.len() - 1 - k] == vs[vs.len() - 1 - k]);
            } else {
                lemma_push_all_keeps_deep(c1, tail, k);
                assert(push_all(c, vs)[k] == c1[k - tail.len()]);
                assert(c1[0] == vs[0]);
            }
        }
    }
}

/// Pushing `n` values leaves history slots at depth `n` and beyond... more
/// precisely: slot `d` is untouched by pushes of a sequence shorter than
/// `d + 1`, shifted by the number of pushes.
proof fn lemma_push_all_keeps_deep(c: Seq<u16>, vs: Seq<u16>, d: int)
    requires
        c.len() == 6,
        vs.len() <= d,
        d < 6,
    ensures
        push_all(c, vs)[d] == c[d - vs.len()],
    decreases vs.len(),
{
    if vs.len() > 0 {
        lemma_push_all_keeps_deep(push_model(c, vs[0]), vs.skip(1), d);
    }
}

} // verus!
