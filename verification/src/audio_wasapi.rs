//! Microphone capture on Windows, with the system's echo cancellation.
use vstd::prelude::*;

use crate::audio_ring::{min, wrote, AudioRing};

verus! {

/// 20 ms at 48 kHz mono.
pub const FRAME_SAMPLES: usize = 960;

/// A microphone that writes into a ring while it runs.
pub struct WasapiAudioCapture {
    pub ring: AudioRing,
    pub running: bool,
}

impl WasapiAudioCapture {
    pub fn started() -> (r: Self)
        ensures
            r.running,
            r.ring.wf(),
            r.ring.unread() == Seq::<i16>::empty(),
    {
        WasapiAudioCapture { ring: AudioRing::new(), running: true }
    }

    pub fn ring(&self) -> (r: &AudioRing)
        ensures
            *r == self.ring,
    {
        &self.ring
    }

    /// Takes in one packet of the device; an empty one is nothing.
    pub fn on_packet(&mut self, samples: &[i16])
        requires
            old(self).ring.wf(),
        ensures
            final(self).ring.wf(),
            final(self).running == old(self).running,
            samples@.len() == 0 ==> final(self).ring == old(self).ring,
            samples@.len() > 0 ==> wrote(
                old(self).ring,
                final(self).ring,
                samples@,
                min(samples@.len() as int, 16384),
            ),
    {
        if samples.len() > 0 {
            self.ring.write(samples);
        }
    }

    pub fn stop(&mut self)
        ensures
            !final(self).running,
            final(self).ring == old(self).ring,
    {
        self.running = false;
    }
}

} // verus!
