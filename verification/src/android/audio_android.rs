//! Audio through Oboe: the rings that the native side shares with us.
use vstd::prelude::*;

use crate::audio_ring::min;
use crate::ring::{last_n, SampleRing};

verus! {

/// Samples in a 20 ms frame at 48 kHz mono.
pub const FRAME_SAMPLES: usize = 960;

/// Slots in a ring: 160 ms.
pub const RING_CAPACITY: usize = 7680;

/// A ring that refuses what does not fit. One slot stays empty.
pub struct RingBuffer {
    queue: SampleRing,
}

impl View for RingBuffer {
    type V = Seq<i16>;

    /// The samples that have not been read, the oldest first.
    closed spec fn view(&self) -> Seq<i16> {
        self.queue@
    }
}

/// A write of `data` accepts `n` samples: those that fit.
pub open spec fn accepts(before: RingBuffer, after: RingBuffer, data: Seq<i16>, n: int) -> bool {
    &&& after.capacity() == before.capacity()
    &&& n == min(data.len() as int, before.capacity() - 1 - before@.len())
    &&& after@ == before@ + data.take(n)
}

/// A read into `out` hands out `n` samples, the oldest first.
pub open spec fn hands_out(
    before: RingBuffer,
    after: RingBuffer,
    out: Seq<i16>,
    filled: Seq<i16>,
    n: int,
) -> bool {
    &&& after.capacity() == before.capacity()
    &&& n == min(out.len() as int, before@.len() as int)
    &&& filled == before@.take(n) + out.skip(n)
    &&& after@ == before@.skip(n)
}

impl RingBuffer {
    pub closed spec fn capacity(&self) -> nat {
        self.queue.capacity()
    }

    /// There is always an empty slot, if there are slots at all.
    pub closed spec fn wf(&self) -> bool {
        &&& self.queue.wf()
        &&& self.queue.capacity() > 0 ==> self.queue@.len() < self.queue.capacity()
    }

    pub proof fn lemma_len(&self)
        requires
            self.wf(),
        ensures
            self.capacity() <= 0x7fff_ffff,
            self@.len() <= self.capacity(),
            self.capacity() > 0 ==> self@.len() < self.capacity(),
    {
        self.queue.lemma_bounds();
    }

    pub fn new(capacity: usize) -> (r: Self)
        requires
            capacity <= 0x7fff_ffff,
        ensures
            r.wf(),
            r.capacity() == capacity,
            r@ == Seq::<i16>::empty(),
    {
        RingBuffer { queue: SampleRing::empty(capacity) }
    }

    /// Samples available to read.
    pub fn available_read(&self) -> (r: usize)
        ensures
            r == self@.len(),
    {
        self.queue.len()
    }

    /// Samples that can be written.
    pub fn available_write(&self) -> (r: usize)
        requires
            self.wf(),
            self.capacity() > 0,
        ensures
            r == self.capacity() - 1 - self@.len(),
    {
        self.queue.slots() - 1 - self.available_read()
    }

    /// Writes the samples that fit; returns how many.
    pub fn write(&mut self, data: &[i16]) -> (r: usize)
        requires
            old(self).wf(),
            old(self).capacity() > 0,
        ensures
            final(self).wf(),
            accepts(*old(self), *final(self), data@, r as int),
    {
        let ghost start = self@;
        let ghost cap = self.capacity();
        let avail: usize = self.available_write();
        let count: usize = if data.len() < avail {
            data.len()
        } else {
            avail
        };
        let mut i: usize = 0;
        assert(start + data@.take(0) =~= start);
        while i < count
            invariant
                i <= count <= data@.len(),
                start.len() + count < cap,
                self.wf(),
                self.capacity() == cap,
                self@ == start + data@.take(i as int),
            decreases count - i,
        {
            self.queue.push(data[i]);
            proof {
                assert((start + data@.take(i as int)).push(data@[i as int]) =~= start + data@.take(
                    i + 1,
                ));
                assert(last_n(start + data@.take(i + 1), cap as int) =~= start + data@.take(i + 1));
            }
            i += 1;
        }
        count
    }

    /// Reads samples into `out`, as many as there are and as fit; returns how
    /// many.
    pub fn read(&mut self, out: &mut [i16]) -> (r: usize)
        requires
            old(self).wf(),
        ensures
            final(self).wf(),
            hands_out(*old(self), *final(self), old(out)@, final(out)@, r as int),
    {
        let ghost start = self@;
        let ghost cap = self.capacity();
        let avail: usize = self.available_read();
        let count: usize = if out.len() < avail {
            out.len()
        } else {
            avail
        };
        let mut i: usize = 0;
        assert(start.skip(0) =~= start);
        assert(out@ =~= start.take(0) + old(out)@.skip(0));
        while i < count
            invariant
                i <= count <= start.len(),
                count <= old(out)@.len(),
                self.wf(),
                self.capacity() == cap,
                self@ == start.skip(i as int),
                out@ == start.take(i as int) + old(out)@.skip(i as int),
                out@.len() == old(out)@.len(),
            decreases count - i,
        {
            let ghost before = out@;
            assert(start.skip(i as int)[0] == start[i as int]);
            let x: i16 = self.queue.pop();
            out[i] = x;
            i += 1;
            proof {
                assert(start.skip(i - 1).skip(1) =~= start.skip(i as int));
                assert(out@ =~= before.update(i - 1, x));
                assert(out@ =~= start.take(i as int) + old(out)@.skip(i as int));
            }
        }
        count
    }
}

/// Whatever is accepted comes out again, once and in order: what a read after
/// a write hands out, and what it leaves, are what was queued and then what
/// the write accepted.
pub proof fn lemma_nothing_lost(
    before: RingBuffer,
    written: RingBuffer,
    data: Seq<i16>,
    accepted: int,
    after: RingBuffer,
    out: Seq<i16>,
    filled: Seq<i16>,
    read: int,
)
    requires
        before@.len() < before.capacity(),
        accepts(before, written, data, accepted),
        hands_out(written, after, out, filled, read),
    ensures
        filled.take(read) + after@ == before@ + data.take(accepted),
        filled.skip(read) == out.skip(read),
        after@.len() < after.capacity(),
{
    assert(filled.take(read) =~= written@.take(read));
    assert(filled.take(read) + after@ =~= written@);
    assert(filled.skip(read) =~= out.skip(read));
}

/// What the caller has to do for a backend to change its state.
#[derive(Clone, Copy, Debug, PartialEq, Eq, Structural)]
pub enum OboeStep {
    /// Nothing: it is in that state already.
    Done,
    /// Call the native side, and report its code.
    CallNative,
}

/// The rings for capture and playout, and whether the streams run.
pub struct OboeBackend {
    pub capture_ring: RingBuffer,
    pub playout_ring: RingBuffer,
    pub started: bool,
}

impl OboeBackend {
    pub open spec fn wf(&self) -> bool {
        &&& self.capture_ring.wf()
        &&& self.playout_ring.wf()
        &&& self.playout_ring.capacity() > 0
    }

    pub fn new() -> (r: Self)
        ensures
            r.wf(),
            !r.started,
            r.capture_ring@ == Seq::<i16>::empty(),
            r.playout_ring@ == Seq::<i16>::empty(),
            r.capture_ring.capacity() == 7680,
            r.playout_ring.capacity() == 7680,
    {
        OboeBackend {
            capture_ring: RingBuffer::new(RING_CAPACITY),
            playout_ring: RingBuffer::new(RING_CAPACITY),
            started: false,
        }
    }

    /// What it takes to start.
    pub fn start(&self) -> (r: OboeStep)
        ensures
            r == if self.started {
                OboeStep::Done
            } else {
                OboeStep::CallNative
            },
    {
        if self.started {
            OboeStep::Done
        } else {
            OboeStep::CallNative
        }
    }

    /// Takes in the code with which the native start returned.
    pub fn start_returned(&mut self, code: i32) -> (r: Result<(), i32>)
        ensures
            final(self).capture_ring == old(self).capture_ring,
            final(self).playout_ring == old(self).playout_ring,
            code == 0 ==> r is Ok && final(self).started,
            code != 0 ==> r == Err::<(), i32>(code) && final(self).started == old(self).started,
    {
        if code != 0 {
            return Err(code);
        }
        self.started = true;
        Ok(())
    }

    /// Stops; says whether the native side has to be told.
    pub fn stop(&mut self) -> (r: OboeStep)
        ensures
            final(self).capture_ring == old(self).capture_ring,
            final(self).playout_ring == old(self).playout_ring,
            !final(self).started,
            r == if old(self).started {
                OboeStep::CallNative
            } else {
                OboeStep::Done
            },
    {
        if !self.started {
            return OboeStep::Done;
        }
        self.started = false;
        OboeStep::CallNative
    }

    /// Reads samples from the microphone.
    pub fn read_capture(&mut self, out: &mut [i16]) -> (r: usize)
        requires
            old(self).wf(),
        ensures
            final(self).wf(),
            final(self).started == old(self).started,
            final(self).playout_ring == old(self).playout_ring,
            r == min(old(out)@.len() as int, old(self).capture_ring@.len() as int),
            final(out)@ == old(self).capture_ring@.take(r as int) + old(out)@.skip(r as int),
            final(self).capture_ring@ == old(self).capture_ring@.skip(r as int),
            final(self).capture_ring.capacity() == old(self).capture_ring.capacity(),
    {
        self.capture_ring.read(out)
    }

    /// Queues samples for the speaker.
    pub fn write_playout(&mut self, samples: &[i16]) -> (r: usize)
        requires
            old(self).wf(),
        ensures
            final(self).wf(),
            final(self).started == old(self).started,
            final(self).capture_ring == old(self).capture_ring,
            r == min(
                samples@.len() as int,
                old(self).playout_ring.capacity() - 1 - old(self).playout_ring@.len(),
            ),
            final(self).playout_ring@ == old(self).playout_ring@ + samples@.take(r as int),
            final(self).playout_ring.capacity() == old(self).playout_ring.capacity(),
    {
        self.playout_ring.write(samples)
    }
}

/// The processors for audio threads: the upper half, which are the fast ones
/// on most devices. Nothing where their number is not known.
pub fn big_cores(num_cpus: i64) -> (r: Option<(usize, usize)>)
    requires
        num_cpus <= 0x7fff_ffff,
    ensures
        r == if num_cpus <= 0 {
            None::<(usize, usize)>
        } else {
            Some(((num_cpus / 2) as usize, num_cpus as usize))
        },
{
    if num_cpus <= 0 {
        None
    } else {
        let n: usize = num_cpus as usize;
        Some((n / 2, n))
    }
}

} // verus!
