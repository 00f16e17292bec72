//! Microphone and speaker: what happens to samples in a device's callbacks.
use vstd::prelude::*;

use crate::audio_ring::{did_read, min, wrote, AudioRing};
use crate::ring::last_n;

verus! {

/// Samples in a 20 ms frame at 48 kHz mono.
pub const FRAME_SAMPLES: usize = 960;

/// A microphone that writes into a ring while it runs.
pub struct AudioCapture {
    pub ring: AudioRing,
    pub running: bool,
}

impl AudioCapture {
    /// A capture that has just been started.
    pub fn started() -> (r: Self)
        ensures
            r.running,
            r.ring.wf(),
            r.ring.unread() == Seq::<i16>::empty(),
    {
        AudioCapture { ring: AudioRing::new(), running: true }
    }

    pub fn ring(&self) -> (r: &AudioRing)
        ensures
            *r == self.ring,
    {
        &self.ring
    }

    /// Takes in samples from the device; none once stopped.
    pub fn on_samples(&mut self, data: &[i16])
        requires
            old(self).ring.wf(),
        ensures
            final(self).ring.wf(),
            final(self).running == old(self).running,
            !old(self).running ==> final(self).ring == old(self).ring,
            old(self).running ==> wrote(
                old(self).ring,
                final(self).ring,
                data@,
                min(data@.len() as int, 16384),
            ),
    {
        if self.running {
            self.ring.write(data);
        }
    }

    /// Takes in samples that came from the device in another form and have
    /// been converted; none once stopped.
    pub fn on_converted(&mut self, data: &[i16])
        requires
            old(self).ring.wf(),
        ensures
            final(self).ring.wf(),
            final(self).running == old(self).running,
            !old(self).running ==> final(self).ring == old(self).ring,
            old(self).running ==> wrote_frames(old(self).ring, final(self).ring, data@),
    {
        if self.running {
            write_in_frames(&mut self.ring, data);
        }
    }

    pub fn stop(&mut self)
        ensures
            !final(self).running,
            final(self).ring == old(self).ring,
    {
        self.running = false;
    }
}

/// A speaker that plays from a ring.
pub struct AudioPlayback {
    pub ring: AudioRing,
    pub running: bool,
}

/// Fills `data` from a ring and the rest with silence; returns how much came
/// from the ring.
pub fn fill_from_ring(ring: &mut AudioRing, data: &mut [i16]) -> (r: usize)
    requires
        old(ring).wf(),
    ensures
        final(ring).wf(),
        r == min(old(data)@.len() as int, old(ring).unread().len() as int),
        final(data)@ == old(ring).unread().take(r as int) + silence(
            (old(data)@.len() - r) as nat,
        ),
        did_read(*old(ring), *final(ring), old(data)@.len(), r as int),
{
    let ghost unread = ring.unread();
    let ghost n = data@.len();
    let read: usize = ring.read(data);
    proof {
        old(ring).lemma_tail_len();
    }
    let mut i: usize = read;
    while i < data.len()
        invariant
            read <= i <= data@.len(),
            data@.len() == n,
            read <= unread.len(),
            forall|k: int| 0 <= k < read ==> #[trigger] data@[k] == unread[k],
            forall|k: int| read <= k < i ==> #[trigger] data@[k] == 0,
        decreases data.len() - i,
    {
        data[i] = 0;
        i += 1;
    }
    assert(data@ =~= unread.take(read as int) + silence((n - read) as nat));
    read
}

/// `after` is `before` with all of `samples` written to it, frame by frame.
pub open spec fn wrote_frames(before: AudioRing, after: AudioRing, samples: Seq<i16>) -> bool {
    &&& after.tail() == last_n(before.tail() + samples, 16384)
    &&& after.lead() == if before.lead() + samples.len() > usize::MAX {
        before.lead() + samples.len() - usize::MAX - 1
    } else {
        before.lead() + samples.len()
    }
    &&& after.overflows() == before.overflows()
    &&& after.underruns() == before.underruns()
}

/// Writes samples to a ring in frames of `FRAME_SAMPLES`.
pub fn write_in_frames(ring: &mut AudioRing, data: &[i16])
    requires
        old(ring).wf(),
    ensures
        final(ring).wf(),
        wrote_frames(*old(ring), *final(ring), data@),
{
    let mut at: usize = 0;
    proof {
        old(ring).lemma_tail_len();
        assert(old(ring).tail() + data@.take(0) =~= old(ring).tail());
        assert(last_n(old(ring).tail(), 16384) =~= old(ring).tail());
        assert(data.len() == data@.len());
    }
    while at < data.len()
        invariant
            data@.len() <= usize::MAX,
            at <= data@.len(),
            old(ring).tail().len() == 16384,
            ring.wf(),
            wrote_frames(*old(ring), *ring, data@.take(at as int)),
        decreases data.len() - at,
    {
        let n: usize = if data.len() - at < FRAME_SAMPLES {
            data.len() - at
        } else {
            FRAME_SAMPLES
        };
        let frame: &[i16] = vstd::slice::slice_subrange(data, at, at + n);
        let ghost before = old(ring).tail() + data@.take(at as int);
        ring.write(frame);
        proof {
            assert(frame@.take(n as int) =~= frame@);
            assert(data@.take(at + n) =~= data@.take(at as int) + frame@);
            assert(last_n(last_n(before, 16384) + frame@, 16384) =~= last_n(
                old(ring).tail() + data@.take(at + n),
                16384,
            ));
        }
        at += n;
    }
    assert(data@.take(at as int) =~= data@);
}

/// Frames that `n` samples take.
pub open spec fn frames_of(n: int) -> int {
    (n + 959) / 960
}

/// `after` is `before` with `r` samples read, of `wanted`, frame by frame:
/// each frame for which the ring is empty counts as an underrun.
pub open spec fn did_read_frames(before: AudioRing, after: AudioRing, wanted: int, r: int) -> bool {
    &&& r == min(wanted, before.unread().len() as int)
    &&& after.tail() == before.tail()
    &&& after.lead() == if r == 0 {
        before.lead() as int
    } else {
        before.unread().len() - r
    }
    &&& after.overflows() == if wanted > 0 && before.lead() > 16384 {
        (before.overflows() + 1) % 0x1_0000_0000_0000_0000
    } else {
        before.overflows() as int
    }
    &&& after.underruns() == if frames_of(wanted) > frames_of(before.unread().len() as int) {
        (before.underruns() + frames_of(wanted) - frames_of(before.unread().len() as int))
            % 0x1_0000_0000_0000_0000
    } else {
        before.underruns() as int
    }
}

/// One more frame after `at` samples, all of them whole frames.
proof fn lemma_next_frame(
    first: AudioRing,
    before: AudioRing,
    after: AudioRing,
    at: int,
    r: int,
    n: int,
    k: int,
)
    requires
        first.wf(),
        before.wf(),
        0 <= at,
        at % 960 == 0,
        0 < n <= 960,
        did_read_frames(first, before, at, r),
        did_read(before, after, n as nat, k),
    ensures
        did_read_frames(first, after, at + n, r + k),
        before.unread().take(k) == first.unread().subrange(r, r + k),
        k < n ==> r + k == first.unread().len(),
{
    first.lemma_tail_len();
    before.lemma_tail_len();
    let u = first.unread().len() as int;
    assert(before.unread().len() == u - r);
    assert(before.unread() =~= first.unread().skip(r));
    assert(before.unread().take(k) =~= first.unread().subrange(r, r + k));
    assert(frames_of(at + n) == at / 960 + 1);
    assert(frames_of(at) == at / 960);
}

/// Fills `data` from a ring in frames of `FRAME_SAMPLES`, and the rest with
/// silence; returns how much came from the ring.
pub fn fill_in_frames(ring: &mut AudioRing, data: &mut [i16]) -> (r: usize)
    requires
        old(ring).wf(),
    ensures
        final(ring).wf(),
        final(data)@ == old(ring).unread().take(r as int) + silence(
            (old(data)@.len() - r) as nat,
        ),
        did_read_frames(*old(ring), *final(ring), old(data)@.len() as int, r as int),
{
    let ghost unread = ring.unread();
    let ghost first = *ring;
    let mut at: usize = 0;
    let mut total: usize = 0;
    proof {
        first.lemma_tail_len();
    }
    while at < data.len()
        invariant
            first.wf(),
            ring.wf(),
            unread == first.unread(),
            at <= data@.len(),
            data@.len() == old(data)@.len(),
            at < data@.len() ==> at % 960 == 0,
            total <= at,
            total <= unread.len() <= 16384,
            did_read_frames(first, *ring, at as int, total as int),
            forall|i: int| 0 <= i < total ==> #[trigger] data@[i] == unread[i],
            forall|i: int| total <= i < at ==> #[trigger] data@[i] == 0,
        decreases data.len() - at,
    {
        let n: usize = if data.len() - at < FRAME_SAMPLES {
            data.len() - at
        } else {
            FRAME_SAMPLES
        };
        let ghost before = *ring;
        let mut frame: Vec<i16> = vec![0i16; n];
        let k: usize = fill_from_ring(ring, frame.as_mut_slice());
        proof {
            lemma_next_frame(first, before, *ring, at as int, total as int, n as int, k as int);
            assert forall|i: int| 0 <= i < k implies #[trigger] frame@[i] == unread[total + i] by {
                assert(frame@[i] == before.unread().take(k as int)[i]);
            }
        }
        let ghost seen = data@;
        let mut i: usize = 0;
        while i < n
            invariant
                i <= n == frame@.len(),
                at + n <= data@.len(),
                data@.len() == old(data)@.len(),
                forall|j: int| 0 <= j < at ==> #[trigger] data@[j] == seen[j],
                forall|j: int| at <= j < at + i ==> #[trigger] data@[j] == frame@[j - at],
            decreases n - i,
        {
            assert(data.len() == data@.len());
            data[at + i] = frame[i];
            i += 1;
        }
        at += n;
        total += k;
    }
    assert(data@ =~= unread.take(total as int) + silence((data@.len() - total) as nat));
    total
}

pub open spec fn silence(n: nat) -> Seq<i16> {
    Seq::new(n, |i: int| 0i16)
}

impl AudioPlayback {
    /// A playback that has just been started.
    pub fn started() -> (r: Self)
        ensures
            r.running,
            r.ring.wf(),
            r.ring.unread() == Seq::<i16>::empty(),
    {
        AudioPlayback { ring: AudioRing::new(), running: true }
    }

    pub fn ring(&self) -> (r: &AudioRing)
        ensures
            *r == self.ring,
    {
        &self.ring
    }

    /// Gives the device its samples, silence where the ring has none.
    pub fn fill(&mut self, data: &mut [i16])
        requires
            old(self).ring.wf(),
        ensures
            final(self).ring.wf(),
            final(self).running == old(self).running,
            ({
                let n = min(old(data)@.len() as int, old(self).ring.unread().len() as int);
                &&& final(data)@ == old(self).ring.unread().take(n) + silence(
                    (old(data)@.len() - n) as nat,
                )
                &&& did_read(old(self).ring, final(self).ring, old(data)@.len(), n)
            }),
    {
        fill_from_ring(&mut self.ring, data);
    }

    /// Gives samples for a device that takes them in another form, silence
    /// where the ring has none.
    pub fn fill_converted(&mut self, data: &mut [i16])
        requires
            old(self).ring.wf(),
        ensures
            final(self).ring.wf(),
            final(self).running == old(self).running,
            ({
                let n = min(old(data)@.len() as int, old(self).ring.unread().len() as int);
                &&& final(data)@ == old(self).ring.unread().take(n) + silence(
                    (old(data)@.len() - n) as nat,
                )
                &&& did_read_frames(old(self).ring, final(self).ring, old(data)@.len() as int, n)
            }),
    {
        fill_in_frames(&mut self.ring, data);
    }

    pub fn stop(&mut self)
        ensures
            !final(self).running,
            final(self).ring == old(self).ring,
    {
        self.running = false;
    }
}

/// A configuration that a device supports, as far as it matters.
#[derive(Clone, Copy, Debug, PartialEq, Eq, Structural)]
pub struct DeviceConfig {
    pub is_i16: bool,
    pub min_rate: u32,
    pub max_rate: u32,
    pub channels: u16,
}

pub open spec fn takes_i16(c: DeviceConfig) -> bool {
    c.is_i16 && c.min_rate <= 48000 && c.max_rate >= 48000 && c.channels >= 1
}

/// Whether a device can exchange 16-bit samples at 48 kHz.
pub fn supports_i16(configs: &[DeviceConfig]) -> (r: bool)
    ensures
        r == exists|i: int| 0 <= i < configs@.len() && takes_i16(#[trigger] configs@[i]),
{
    let mut i: usize = 0;
    while i < configs.len()
        invariant
            i <= configs@.len(),
            forall|k: int| 0 <= k < i ==> !takes_i16(#[trigger] configs@[k]),
        decreases configs.len() - i,
    {
        let c = configs[i];
        if c.is_i16 && c.min_rate <= 48000 && c.max_rate >= 48000 && c.channels >= 1 {
            assert(takes_i16(configs@[i as int]));
            return true;
        }
        i += 1;
    }
    false
}

/// A device is used with 16-bit samples only at a rate at which 20 ms are a
/// frame, on at least one channel.
pub proof fn lemma_rate_of_frames(c: DeviceConfig, rate: u32)
    ensures
        20 * rate == 1000 * 960 && c.is_i16 && c.channels > 0 && c.min_rate <= rate <= c.max_rate
            ==> takes_i16(c),
        takes_i16(c) && c.min_rate == c.max_rate ==> 20 * c.min_rate == 1000 * 960,
        takes_i16(c) ==> c.is_i16 && c.channels > 0,
{
}

} // verus!
