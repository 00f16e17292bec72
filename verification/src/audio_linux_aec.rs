//! Echo cancellation on Linux: microphone and speaker samples in frames of
//! 20 ms, each handed to the echo canceller as two halves.
use vstd::prelude::*;

use crate::audio_io::fill_from_ring;
use crate::audio_ring::{did_read, min, wrote, AudioRing};

verus! {

/// 20 ms at 48 kHz mono.
pub const FRAME_SAMPLES: usize = 960;

/// What the echo canceller takes at a time: 10 ms.
pub const APM_FRAME_SAMPLES: usize = 480;

/// Starting point for the round trip from speaker to microphone.
pub const STREAM_DELAY_MS: i32 = 60;

/// All samples of some frames, one after the other.
pub open spec fn flat(frames: Seq<Vec<i16>>) -> Seq<i16>
    decreases frames.len(),
{
    if frames.len() == 0 {
        Seq::empty()
    } else {
        flat(frames.drop_last()) + frames.last()@
    }
}

/// Takes whole frames off the front of `leftover`; less than a frame stays.
pub fn take_frames(leftover: &mut Vec<i16>) -> (r: Vec<Vec<i16>>)
    ensures
        flat(r@) + final(leftover)@ == old(leftover)@,
        forall|i: int| 0 <= i < r@.len() ==> (#[trigger] r@[i])@.len() == 960,
        final(leftover)@.len() < 960,
        r@.len() == old(leftover)@.len() / 960,
{
    let ghost all = leftover@;
    let mut frames: Vec<Vec<i16>> = Vec::new();
    let mut rest: Vec<i16> = Vec::new();
    std::mem::swap(&mut rest, leftover);
    assert(flat(frames@) + rest@ =~= all);
    while rest.len() >= FRAME_SAMPLES
        invariant
            flat(frames@) + rest@ == all,
            forall|i: int| 0 <= i < frames@.len() ==> (#[trigger] frames@[i])@.len() == 960,
            all.len() == frames@.len() * 960 + rest@.len(),
        decreases rest.len(),
    {
        let ghost before = frames@;
        let ghost rest_before = rest@;
        let tail = rest.split_off(FRAME_SAMPLES);
        let ghost head = rest@;
        frames.push(rest);
        rest = tail;
        proof {
            assert(frames@.drop_last() =~= before);
            assert(head + rest@ =~= rest_before);
            assert(flat(frames@) + rest@ =~= flat(before) + rest_before);
        }
    }
    *leftover = rest;
    frames
}

/// The two halves of a frame.
pub fn halves(frame: &[i16]) -> (r: (Vec<i16>, Vec<i16>))
    requires
        frame@.len() == 960,
    ensures
        r.0@ == frame@.take(480),
        r.1@ == frame@.skip(480),
{
    let mut a: Vec<i16> = Vec::new();
    let mut b: Vec<i16> = Vec::new();
    let mut i: usize = 0;
    while i < APM_FRAME_SAMPLES
        invariant
            i <= 480,
            frame@.len() == 960,
            a@ == frame@.take(i as int),
            b@ == frame@.subrange(480, 480 + i),
        decreases 480 - i,
    {
        a.push(frame[i]);
        b.push(frame[APM_FRAME_SAMPLES + i]);
        i += 1;
        assert(a@ =~= frame@.take(i as int));
        assert(b@ =~= frame@.subrange(480, 480 + i));
    }
    assert(b@ =~= frame@.skip(480));
    (a, b)
}

/// Microphone capture behind the echo canceller.
pub struct LinuxAecCapture {
    pub ring: AudioRing,
    pub running: bool,
    /// Samples that do not make a frame yet.
    pub leftover: Vec<i16>,
}

impl LinuxAecCapture {
    pub fn started() -> (r: Self)
        ensures
            r.running,
            r.ring.wf(),
            r.ring.unread() == Seq::<i16>::empty(),
            r.leftover@.len() == 0,
    {
        LinuxAecCapture { ring: AudioRing::new(), running: true, leftover: Vec::new() }
    }

    pub fn ring(&self) -> (r: &AudioRing)
        ensures
            *r == self.ring,
    {
        &self.ring
    }

    pub fn stop(&mut self)
        ensures
            !final(self).running,
            final(self).ring == old(self).ring,
            final(self).leftover == old(self).leftover,
    {
        self.running = false;
    }

    /// Takes in samples from the device and gives the frames that are
    /// complete, for the echo canceller; none once stopped.
    pub fn on_samples(&mut self, data: &[i16]) -> (r: Vec<Vec<i16>>)
        ensures
            final(self).running == old(self).running,
            final(self).ring == old(self).ring,
            forall|i: int| 0 <= i < r@.len() ==> (#[trigger] r@[i])@.len() == 960,
            !old(self).running ==> r@.len() == 0 && final(self).leftover == old(self).leftover,
            old(self).running ==> final(self).leftover@.len() < 960 && flat(r@)
                + final(self).leftover@ == old(self).leftover@ + data@,
    {
        if !self.running {
            return Vec::new();
        }
        self.leftover.extend_from_slice(data);
        assert(self.leftover@ =~= old(self).leftover@ + data@);
        take_frames(&mut self.leftover)
    }

    /// Puts a frame that has been through the echo canceller into the ring.
    pub fn push_processed(&mut self, frame: &[i16])
        requires
            old(self).ring.wf(),
        ensures
            final(self).ring.wf(),
            final(self).running == old(self).running,
            final(self).leftover == old(self).leftover,
            wrote(old(self).ring, final(self).ring, frame@, min(frame@.len() as int, 16384)),
    {
        self.ring.write(frame);
    }
}

/// Speaker playback whose samples also go to the echo canceller.
pub struct LinuxAecPlayback {
    pub ring: AudioRing,
    pub running: bool,
    /// Samples that do not make a frame yet.
    pub carry: Vec<i16>,
}

impl LinuxAecPlayback {
    pub fn started() -> (r: Self)
        ensures
            r.running,
            r.ring.wf(),
            r.ring.unread() == Seq::<i16>::empty(),
            r.carry@.len() == 0,
    {
        LinuxAecPlayback { ring: AudioRing::new(), running: true, carry: Vec::new() }
    }

    pub fn ring(&self) -> (r: &AudioRing)
        ensures
            *r == self.ring,
    {
        &self.ring
    }

    pub fn stop(&mut self)
        ensures
            !final(self).running,
            final(self).ring == old(self).ring,
            final(self).carry == old(self).carry,
    {
        self.running = false;
    }

    /// Gives the device its samples, silence where the ring has none, and
    /// gives the frames that are complete, for the echo canceller.
    pub fn fill_and_tee(&mut self, data: &mut [i16]) -> (r: Vec<Vec<i16>>)
        requires
            old(self).ring.wf(),
        ensures
            final(self).ring.wf(),
            final(self).running == old(self).running,
            ({
                let n = min(old(data)@.len() as int, old(self).ring.unread().len() as int);
                &&& final(data)@ == old(self).ring.unread().take(n) + crate::audio_io::silence(
                    (old(data)@.len() - n) as nat,
                )
                &&& did_read(old(self).ring, final(self).ring, old(data)@.len(), n)
            }),
            forall|i: int| 0 <= i < r@.len() ==> (#[trigger] r@[i])@.len() == 960,
            final(self).carry@.len() < 960,
            flat(r@) + final(self).carry@ == old(self).carry@ + final(data)@,
    {
        fill_from_ring(&mut self.ring, data);
        let mut i: usize = 0;
        let ghost after_fill = self.ring;
        let ghost carry = self.carry@;
        assert(self.carry@ =~= carry + data@.take(0));
        while i < data.len()
            invariant
                i <= data@.len(),
                self.ring == after_fill,
                self.running == old(self).running,
                self.carry@ == carry + data@.take(i as int),
            decreases data.len() - i,
        {
            self.carry.push(data[i]);
            i += 1;
            assert(self.carry@ =~= carry + data@.take(i as int));
        }
        assert(data@.take(i as int) =~= data@);
        take_frames(&mut self.carry)
    }
}

} // verus!
