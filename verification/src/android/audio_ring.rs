//! The sample ring between the app's audio threads and the engine. On
//! overflow the oldest samples go.
use vstd::prelude::*;

use crate::android::engine::plus;
use crate::audio_ring::min;
use crate::ring::{last_n, lemma_last_n_push, SampleRing};

verus! {

/// Samples in the ring: 200 ms at 48 kHz mono.
pub const RING_CAPACITY: usize = 9600;

pub struct AudioRing {
    queue: SampleRing,
    /// Writes that cost unread samples, and reads that found none.
    overflow_count: u64,
    underrun_count: u64,
}

impl View for AudioRing {
    type V = Seq<i16>;

    /// The samples that have not been read, the oldest first.
    closed spec fn view(&self) -> Seq<i16> {
        self.queue@
    }
}

/// What a write of `n` samples does to the counters.
pub open spec fn counts_write(before: AudioRing, after: AudioRing, n: int) -> bool {
    &&& after.underruns() == before.underruns()
    &&& after.overflows() == if before@.len() + n > 9600 {
        plus(before.overflows(), 1)
    } else {
        before.overflows()
    }
}

/// What a read does to the counters.
pub open spec fn counts_read(before: AudioRing, after: AudioRing) -> bool {
    &&& after.overflows() == before.overflows()
    &&& after.underruns() == if before@.len() == 0 {
        plus(before.underruns(), 1)
    } else {
        before.underruns()
    }
}

impl AudioRing {
    /// Writes that cost unread samples.
    pub closed spec fn overflows(&self) -> u64 {
        self.overflow_count
    }

    /// Reads that found nothing.
    pub closed spec fn underruns(&self) -> u64 {
        self.underrun_count
    }

    pub closed spec fn wf(&self) -> bool {
        self.queue.wf() && self.queue.capacity() == 9600
    }

    pub proof fn lemma_len(&self)
        requires
            self.wf(),
        ensures
            self@.len() <= 9600,
    {
        self.queue.lemma_bounds();
    }

    pub fn new() -> (r: Self)
        ensures
            r.wf(),
            r@ == Seq::<i16>::empty(),
            r.overflows() == 0,
            r.underruns() == 0,
    {
        AudioRing {
            queue: SampleRing::empty(RING_CAPACITY),
            overflow_count: 0,
            underrun_count: 0,
        }
    }

    pub fn overflow_count(&self) -> (r: u64)
        ensures
            r == self.overflows(),
    {
        self.overflow_count
    }

    pub fn underrun_count(&self) -> (r: u64)
        ensures
            r == self.underruns(),
    {
        self.underrun_count
    }

    /// Samples available to read.
    pub fn available(&self) -> (r: usize)
        ensures
            r == self@.len(),
    {
        self.queue.len()
    }

    /// Samples that can be written before the oldest goes.
    pub fn free_space(&self) -> (r: usize)
        requires
            self.wf(),
        ensures
            r == 9600 - self@.len(),
    {
        proof {
            self.lemma_len();
        }
        RING_CAPACITY - self.available()
    }

    /// Writes samples, at most a ring full of them; returns how many.
    pub fn write(&mut self, samples: &[i16]) -> (r: usize)
        requires
            old(self).wf(),
        ensures
            final(self).wf(),
            r == min(samples@.len() as int, 9600),
            final(self)@ == last_n(old(self)@ + samples@.take(r as int), 9600),
            counts_write(*old(self), *final(self), r as int),
    {
        let ghost start = self@;
        proof {
            self.lemma_len();
        }
        let count: usize = if samples.len() < RING_CAPACITY {
            samples.len()
        } else {
            RING_CAPACITY
        };
        if count > self.free_space() {
            self.overflow_count = self.overflow_count.wrapping_add(1);
        }
        let ghost counted = *self;
        let mut i: usize = 0;
        assert(last_n(start + samples@.take(0), 9600) =~= start);
        while i < count
            invariant
                i <= count <= samples@.len(),
                self.wf(),
                self.overflows() == counted.overflows(),
                self.underruns() == counted.underruns(),
                self@ == last_n(start + samples@.take(i as int), 9600),
            decreases count - i,
        {
            proof {
                lemma_last_n_push(start + samples@.take(i as int), samples@[i as int], 9600);
                assert((start + samples@.take(i as int)).push(samples@[i as int]) =~= start
                    + samples@.take(i + 1));
            }
            self.queue.push(samples[i]);
            i += 1;
        }
        count
    }

    /// Reads samples into `out`, as many as there are and as fit; returns how
    /// many.
    pub fn read(&mut self, out: &mut [i16]) -> (r: usize)
        requires
            old(self).wf(),
        ensures
            final(self).wf(),
            r == min(old(out)@.len() as int, old(self)@.len() as int),
            final(out)@ == old(self)@.take(r as int) + old(out)@.skip(r as int),
            final(self)@ == old(self)@.skip(r as int),
            counts_read(*old(self), *final(self)),
    {
        let ghost start = self@;
        let avail: usize = self.available();
        if avail == 0 {
            self.underrun_count = self.underrun_count.wrapping_add(1);
        }
        let ghost counted = *self;
        let count: usize = if out.len() < avail {
            out.len()
        } else {
            avail
        };
        let mut i: usize = 0;
        assert(start.skip(0) =~= start);
        assert(out@ =~= start.take(0) + old(out)@.skip(0));
        while i < count
            invariant
                i <= count <= start.len(),
                count <= old(out)@.len(),
                self.wf(),
                self.overflows() == counted.overflows(),
                self.underruns() == counted.underruns(),
                self@ == start.skip(i as int),
                out@ == start.take(i as int) + old(out)@.skip(i as int),
                out@.len() == old(out)@.len(),
            decreases count - i,
        {
            let ghost before = out@;
            assert(start.skip(i as int)[0] == start[i as int]);
            let x: i16 = self.queue.pop();
            out[i] = x;
            i += 1;
            proof {
                assert(start.skip(i - 1).skip(1) =~= start.skip(i as int));
                assert(out@ =~= before.update(i - 1, x));
                assert(out@ =~= start.take(i as int) + old(out)@.skip(i as int));
            }
        }
        count
    }
}

/// What is written to a ring with room for it is read in order, after what
/// was there before.
pub proof fn lemma_first_in_first_out(queued: Seq<i16>, samples: Seq<i16>)
    requires
        queued.len() + samples.len() <= 9600,
    ensures
        last_n(queued + samples, 9600) == queued + samples,
{
}

/// On overflow the newest samples stay.
pub proof fn lemma_overflow_keeps_newest(queued: Seq<i16>, samples: Seq<i16>)
    requires
        queued.len() + samples.len() > 9600,
    ensures
        last_n(queued + samples, 9600).len() == 9600,
        last_n(queued + samples, 9600) == (queued + samples).skip(
            queued.len() + samples.len() - 9600,
        ),
{
}

/// A write is counted as an overflow exactly where it costs unread samples.
pub proof fn lemma_overflow_is_loss(before: AudioRing, after: AudioRing, samples: Seq<i16>)
    requires
        before.wf(),
        after@ == last_n(before@ + samples, 9600),
        counts_write(before, after, samples.len() as int),
    ensures
        after.overflows() == before.overflows() <==> after@ == before@ + samples,
        after@ != before@ + samples ==> (after.overflows() - before.overflows() - 1)
            % 0x1_0000_0000_0000_0000 == 0,
        after.underruns() == before.underruns(),
{
    if before@.len() + samples.len() > 9600 {
        assert(after@.len() == 9600);
        assert((before@ + samples).len() > 9600);
    }
}

/// A read is counted as an underrun exactly where there is nothing to read.
pub proof fn lemma_underrun_is_empty_read(before: AudioRing, after: AudioRing)
    requires
        counts_read(before, after),
    ensures
        after.underruns() == before.underruns() <==> before@.len() > 0,
        before@.len() == 0 ==> (after.underruns() - before.underruns() - 1)
            % 0x1_0000_0000_0000_0000 == 0,
        after.overflows() == before.overflows(),
{
}

} // verus!
