//! The sample ring between an audio device and the call.
//!
//! The writer never waits: on overflow it overwrites old samples. The reader
//! finds out that it was lapped and goes on with the oldest sample that is
//! still there.
use vstd::prelude::*;

use crate::ring::{last_n, lemma_last_n_push, SampleRing};

verus! {

/// Samples in the ring: 341.3 ms at 48 kHz mono.
pub const RING_CAPACITY: usize = 16384;

pub struct AudioRing {
    /// The last samples written, as many as the ring holds.
    kept: SampleRing,
    /// How far the writer is ahead of the reader.
    ahead: usize,
    overflows: u64,
    underruns: u64,
}

pub open spec fn min(a: int, b: int) -> int {
    if a < b {
        a
    } else {
        b
    }
}

/// `after` is `before` with `samples` written to it, `r` of them: at most a
/// ring full.
pub open spec fn wrote(before: AudioRing, after: AudioRing, samples: Seq<i16>, r: int) -> bool {
    &&& r == min(samples.len() as int, 16384)
    &&& after.tail() == last_n(before.tail() + samples.take(r), 16384)
    &&& after.lead() == if before.lead() + r > usize::MAX {
        before.lead() + r - usize::MAX - 1
    } else {
        before.lead() + r
    }
    &&& after.overflows() == before.overflows()
    &&& after.underruns() == before.underruns()
}

/// `after` is `before` with `r` samples read, of `wanted`.
pub open spec fn did_read(before: AudioRing, after: AudioRing, wanted: nat, r: int) -> bool {
    &&& r == min(wanted as int, before.unread().len() as int)
    &&& after.tail() == before.tail()
    &&& after.lead() == if r == 0 {
        before.lead() as int
    } else {
        before.unread().len() - r
    }
    &&& after.overflows() == if before.lead() > 16384 {
        (before.overflows() + 1) % 0x1_0000_0000_0000_0000
    } else {
        before.overflows() as int
    }
    &&& after.underruns() == if before.lead() == 0 {
        (before.underruns() + 1) % 0x1_0000_0000_0000_0000
    } else {
        before.underruns() as int
    }
}

impl AudioRing {
    /// The last `RING_CAPACITY` samples written, with silence before the first.
    pub closed spec fn tail(&self) -> Seq<i16> {
        self.kept@
    }

    /// How far the writer is ahead of the reader; more than the capacity when
    /// the reader has been lapped.
    pub closed spec fn lead(&self) -> usize {
        self.ahead
    }

    pub closed spec fn overflows(&self) -> u64 {
        self.overflows
    }

    pub closed spec fn underruns(&self) -> u64 {
        self.underruns
    }

    /// The samples that a reader can still get, in order.
    pub open spec fn unread(&self) -> Seq<i16> {
        last_n(self.tail(), min(self.lead() as int, 16384))
    }

    pub closed spec fn wf(&self) -> bool {
        &&& self.kept.wf()
        &&& self.kept.capacity() == 16384
        &&& self.kept@.len() == 16384
    }

    pub proof fn lemma_tail_len(&self)
        requires
            self.wf(),
        ensures
            self.tail().len() == 16384,
            self.unread().len() == min(self.lead() as int, 16384),
    {
    }

    pub fn new() -> (r: Self)
        ensures
            r.wf(),
            r.unread() == Seq::<i16>::empty(),
            r.lead() == 0,
            r.tail() == Seq::new(16384, |i: int| 0i16),
            r.overflows() == 0,
            r.underruns() == 0,
    {
        let r = AudioRing {
            kept: SampleRing::silent(RING_CAPACITY),
            ahead: 0,
            overflows: 0,
            underruns: 0,
        };
        assert(r.unread() =~= Seq::<i16>::empty());
        r
    }

    /// Samples available to read.
    pub fn available(&self) -> (r: usize)
        requires
            self.wf(),
        ensures
            r == self.unread().len(),
            r <= RING_CAPACITY,
    {
        if self.ahead < RING_CAPACITY {
            self.ahead
        } else {
            RING_CAPACITY
        }
    }

    /// Writes samples, at most a ring full of them; returns how many.
    pub fn write(&mut self, samples: &[i16]) -> (r: usize)
        requires
            old(self).wf(),
        ensures
            final(self).wf(),
            wrote(*old(self), *final(self), samples@, r as int),
    {
        let ghost start = self.kept@;
        let count: usize = if samples.len() < RING_CAPACITY {
            samples.len()
        } else {
            RING_CAPACITY
        };
        let mut i: usize = 0;
        assert(start + samples@.take(0) =~= start);
        while i < count
            invariant
                i <= count <= samples@.len(),
                self.kept.wf(),
                self.kept.capacity() == 16384,
                self.kept@.len() == 16384,
                self.kept@ == last_n(start + samples@.take(i as int), 16384),
                self.ahead == old(self).ahead,
                self.overflows == old(self).overflows,
                self.underruns == old(self).underruns,
            decreases count - i,
        {
            proof {
                lemma_last_n_push(start + samples@.take(i as int), samples@[i as int], 16384);
                assert((start + samples@.take(i as int)).push(samples@[i as int]) =~= start
                    + samples@.take(i + 1));
            }
            self.kept.push(samples[i]);
            i += 1;
        }
        self.ahead = self.ahead.wrapping_add(count);
        count
    }

    /// Reads samples into `out`, as many as there are and as fit; returns how
    /// many. A reader that was lapped goes on with the oldest sample kept.
    pub fn read(&mut self, out: &mut [i16]) -> (r: usize)
        requires
            old(self).wf(),
        ensures
            final(self).wf(),
            final(out)@ == old(self).unread().take(r as int) + old(out)@.skip(r as int),
            did_read(*old(self), *final(self), old(out)@.len(), r as int),
    {
        let avail: usize = self.available();
        if self.ahead > RING_CAPACITY {
            self.overflows = self.overflows.wrapping_add(1);
        }
        let count: usize = if out.len() < avail {
            out.len()
        } else {
            avail
        };
        if count == 0 {
            if self.ahead == 0 {
                self.underruns = self.underruns.wrapping_add(1);
            }
            assert(out@ =~= old(self).unread().take(0) + old(out)@.skip(0));
            return 0;
        }
        let ghost unread = old(self).unread();
        let mut i: usize = 0;
        assert(out@ =~= unread.take(0) + old(out)@.skip(0));
        while i < count
            invariant
                i <= count <= avail <= 16384,
                count <= old(out)@.len(),
                self.kept.wf(),
                self.kept@.len() == 16384,
                unread == last_n(self.kept@, avail as int),
                unread.len() == avail,
                out@ == unread.take(i as int) + old(out)@.skip(i as int),
                out@.len() == old(out)@.len(),
            decreases count - i,
        {
            let x: i16 = self.kept.get(RING_CAPACITY - avail + i);
            let ghost before = out@;
            out[i] = x;
            i += 1;
            proof {
                assert(x == unread[i - 1]);
                assert(out@ =~= before.update(i - 1, x));
                assert(out@ =~= unread.take(i as int) + old(out)@.skip(i as int));
            }
        }
        self.ahead = avail - count;
        count
    }

    /// Times that the reader found itself lapped.
    pub fn overflow_count(&self) -> (r: u64)
        ensures
            r == self.overflows(),
    {
        self.overflows
    }

    /// Times that the reader found nothing.
    pub fn underrun_count(&self) -> (r: u64)
        ensures
            r == self.underruns(),
    {
        self.underruns
    }
}

/// What is written to a ring with room for it is what is read next, in order,
/// after what was there already.
pub proof fn lemma_first_in_first_out(tail: Seq<i16>, lead: int, samples: Seq<i16>)
    requires
        tail.len() == 16384,
        0 <= lead,
        lead + samples.len() <= 16384,
    ensures
        last_n(last_n(tail + samples, 16384), min(lead + samples.len(), 16384)) == last_n(
            tail,
            min(lead, 16384),
        ) + samples,
{
    assert(last_n(last_n(tail + samples, 16384), min(lead + samples.len(), 16384)) =~= last_n(
        tail,
        min(lead, 16384),
    ) + samples);
}

/// A reader that has been lapped gets the newest samples: what is unread are
/// the last samples written, a ring full.
pub proof fn lemma_lapped_reader_gets_newest(tail: Seq<i16>, lead: int, samples: Seq<i16>)
    requires
        tail.len() == 16384,
        0 <= lead,
        samples.len() <= 16384,
        lead + samples.len() > 16384,
    ensures
        last_n(last_n(tail + samples, 16384), min(lead + samples.len(), 16384)) == last_n(
            tail + samples,
            16384,
        ),
{
}

/// A write to a ring with room for it leaves what was unread, and after it
/// what was written; it is counted as neither an overflow nor an underrun.
pub proof fn lemma_write_queues(before: AudioRing, after: AudioRing, samples: Seq<i16>, r: int)
    requires
        before.wf(),
        wrote(before, after, samples, r),
        before.lead() + samples.len() <= 16384,
    ensures
        r == samples.len(),
        after.unread() == before.unread() + samples,
        after.lead() == before.lead() + samples.len(),
        after.overflows() == before.overflows(),
        after.underruns() == before.underruns(),
{
    before.lemma_tail_len();
    assert(samples.take(r) =~= samples);
    lemma_first_in_first_out(before.tail(), before.lead() as int, samples);
}

/// A read hands out the oldest of the unread samples and leaves the others;
/// only a reader that was lapped counts an overflow, and only one that finds
/// nothing an underrun.
pub proof fn lemma_read_takes_oldest(before: AudioRing, after: AudioRing, wanted: nat, r: int)
    requires
        before.wf(),
        did_read(before, after, wanted, r),
        wanted > 0,
    ensures
        before.unread().take(r) + after.unread() == before.unread(),
        r == wanted || after.unread().len() == 0,
        r == 0 <==> before.lead() == 0,
        before.lead() <= 16384 ==> after.overflows() == before.overflows(),
        before.lead() > 16384 ==> (after.overflows() - before.overflows() - 1)
            % 0x1_0000_0000_0000_0000 == 0,
        before.lead() > 0 ==> after.underruns() == before.underruns(),
        before.lead() == 0 ==> (after.underruns() - before.underruns() - 1)
            % 0x1_0000_0000_0000_0000 == 0,
        after.lead() <= 16384,
{
    before.lemma_tail_len();
    assert(before.unread().take(r) + after.unread() =~= before.unread());
}

/// What the writer writes into a ring that has been read empty is what the
/// reader reads, all of it and in order.
pub proof fn lemma_write_then_read(
    empty: AudioRing,
    full: AudioRing,
    after: AudioRing,
    samples: Seq<i16>,
    written: int,
    wanted: nat,
    read: int,
)
    requires
        empty.wf(),
        full.wf(),
        empty.lead() == 0,
        samples.len() <= 16384,
        wanted >= samples.len(),
        wrote(empty, full, samples, written),
        did_read(full, after, wanted, read),
    ensures
        read == samples.len(),
        full.unread().take(read) == samples,
        after.unread().len() == 0,
{
    lemma_write_queues(empty, full, samples, written);
    empty.lemma_tail_len();
    full.lemma_tail_len();
    assert(empty.unread() + samples =~= samples);
    assert(samples.take(read) =~= samples);
}

} // verus!
