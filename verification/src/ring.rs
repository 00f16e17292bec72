//! A fixed-size queue of samples, the storage of the audio rings.
use vstd::prelude::*;

verus! {

/// The last `n` elements of `s`, or all of them.
pub open spec fn last_n(s: Seq<i16>, n: int) -> Seq<i16> {
    if s.len() > n {
        s.skip(s.len() - n)
    } else {
        s
    }
}

/// What is kept of a sequence and one more sample is what is kept of both.
pub proof fn lemma_last_n_push(s: Seq<i16>, x: i16, n: int)
    requires
        0 < n,
    ensures
        last_n(last_n(s, n).push(x), n) == last_n(s.push(x), n),
{
    assert(last_n(last_n(s, n).push(x), n) =~= last_n(s.push(x), n));
}

/// The slot of the `i`-th sample of a queue that starts at `start`.
pub open spec fn slot(capacity: int, start: int, i: int) -> int {
    if start + i < capacity {
        start + i
    } else {
        start + i - capacity
    }
}

pub struct SampleRing {
    buf: Vec<i16>,
    start: usize,
    len: usize,
}

impl View for SampleRing {
    type V = Seq<i16>;

    closed spec fn view(&self) -> Seq<i16> {
        Seq::new(
            self.len as nat,
            |i: int| self.buf@[slot(self.buf@.len() as int, self.start as int, i)],
        )
    }
}

impl SampleRing {
    pub closed spec fn capacity(&self) -> nat {
        self.buf@.len()
    }

    pub closed spec fn wf(&self) -> bool {
        &&& self.buf@.len() <= 0x7fff_ffff
        &&& self.start < self.buf@.len() || self.buf@.len() == 0
        &&& self.len <= self.buf@.len()
    }

    /// An empty queue.
    pub fn empty(capacity: usize) -> (r: Self)
        requires
            capacity <= 0x7fff_ffff,
        ensures
            r.wf(),
            r.capacity() == capacity,
            r@ == Seq::<i16>::empty(),
    {
        let r = SampleRing { buf: vec![0i16; capacity], start: 0, len: 0 };
        assert(r@ =~= Seq::<i16>::empty());
        r
    }

    /// A queue full of silence.
    pub fn silent(capacity: usize) -> (r: Self)
        requires
            capacity <= 0x7fff_ffff,
        ensures
            r.wf(),
            r.capacity() == capacity,
            r@ == Seq::new(capacity as nat, |i: int| 0i16),
    {
        let r = SampleRing { buf: vec![0i16; capacity], start: 0, len: capacity };
        assert(r@ =~= Seq::new(capacity as nat, |i: int| 0i16));
        r
    }

    pub fn len(&self) -> (r: usize)
        ensures
            r == self@.len(),
    {
        self.len
    }

    pub fn slots(&self) -> (r: usize)
        ensures
            r == self.capacity(),
    {
        self.buf.len()
    }

    /// The length is bounded by the capacity.
    pub proof fn lemma_bounds(&self)
        requires
            self.wf(),
        ensures
            self@.len() <= self.capacity(),
            self.capacity() <= 0x7fff_ffff,
    {
    }

    pub fn get(&self, i: usize) -> (r: i16)
        requires
            self.wf(),
            i < self@.len(),
        ensures
            r == self@[i as int],
    {
        let cap: usize = self.buf.len();
        let k: usize = if self.start + i < cap {
            self.start + i
        } else {
            self.start + i - cap
        };
        self.buf[k]
    }

    /// Appends a sample; when the queue is full the oldest one goes.
    pub fn push(&mut self, x: i16)
        requires
            old(self).wf(),
        ensures
            final(self).wf(),
            final(self).capacity() == old(self).capacity(),
            final(self)@ == last_n(old(self)@.push(x), old(self).capacity() as int),
    {
        let ghost before = self@;
        let cap: usize = self.buf.len();
        if cap == 0 {
            assert(self@ =~= last_n(before.push(x), 0));
        } else if self.len == cap {
            let k: usize = self.start;
            self.buf.set(k, x);
            self.start = if k + 1 < cap {
                k + 1
            } else {
                0
            };
            assert(self@ =~= last_n(before.push(x), cap as int));
        } else {
            let k: usize = if self.start + self.len < cap {
                self.start + self.len
            } else {
                self.start + self.len - cap
            };
            self.buf.set(k, x);
            self.len = self.len + 1;
            assert(self@ =~= last_n(before.push(x), cap as int));
        }
    }

    /// Takes the oldest sample.
    pub fn pop(&mut self) -> (r: i16)
        requires
            old(self).wf(),
            old(self)@.len() > 0,
        ensures
            final(self).wf(),
            final(self).capacity() == old(self).capacity(),
            r == old(self)@[0],
            final(self)@ == old(self)@.skip(1),
    {
        let ghost before = self@;
        let cap: usize = self.buf.len();
        let k: usize = self.start;
        let x: i16 = self.buf[k];
        self.start = if k + 1 < cap {
            k + 1
        } else {
            0
        };
        self.len = self.len - 1;
        assert(self@ =~= before.skip(1));
        x
    }
}

} // verus!
