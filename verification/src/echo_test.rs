//! A tone through a relay and back, looked at in windows.
use vstd::prelude::*;

verus! {

/// Samples in a 20 ms frame at 48 kHz mono.
pub const FRAME_SAMPLES: usize = 960;

/// A window whose loudest sample is below this is silent.
pub const SILENCE_PEAK: i16 = 100;

/// Frames in a window of so many milliseconds: at least one.
pub fn frames_per_window(window_ms: u64) -> (r: u64)
    ensures
        r == if window_ms / 20 > 1 {
            window_ms / 20
        } else {
            1
        },
        r >= 1,
        r > 1 ==> r * 960 <= 48 * window_ms,
        48 * window_ms < (r + 1) * 960,
{
    let n: u64 = window_ms / 20;
    if n > 1 {
        n
    } else {
        1
    }
}

/// The samples that a window speaks of.
#[derive(Clone, Copy, Debug, PartialEq, Eq, Structural)]
pub struct WindowBounds {
    pub index: usize,
    /// Among the samples sent.
    pub sent_start: usize,
    pub sent_end: usize,
    /// Among the samples received: from here to the end.
    pub recv_start: usize,
    pub frames_sent: u32,
    pub frames_received: u32,
}

/// Counts frames, and says where windows end.
#[derive(Clone, Copy, Debug, PartialEq, Eq, Structural)]
pub struct EchoWindows {
    pub total_frames: u64,
    pub frames_per_window: u64,
    pub window_idx: usize,
    pub window_frames_sent: u32,
    pub window_frames_received: u32,
    /// Frames sent and samples received, in all.
    pub frames_sent: u64,
    pub samples_received: usize,
    pub packets_sent: u64,
    pub packets_received: u64,
}

impl EchoWindows {
    /// Every window before this one was full.
    pub open spec fn wf(&self) -> bool {
        &&& 0 < self.frames_per_window
        &&& self.total_frames <= 50 * 0xffff_ffff
        &&& self.frames_sent <= self.total_frames
        &&& self.frames_sent < self.total_frames ==> self.frames_sent == self.window_idx
            * self.frames_per_window + self.window_frames_sent
        &&& self.frames_sent < self.total_frames ==> self.window_frames_sent
            < self.frames_per_window
    }

    pub fn new(duration_secs: u32, window_ms: u64) -> (r: Self)
        ensures
            r.wf(),
            r.total_frames == duration_secs * 50,
            r.total_frames * 960 == duration_secs * 48_000,
            r.frames_per_window == if window_ms / 20 > 1 {
                window_ms / 20
            } else {
                1
            },
            r.window_idx == 0,
            r.window_frames_sent == 0,
            r.window_frames_received == 0,
            r.frames_sent == 0,
            r.samples_received == 0,
            r.packets_sent == 0,
            r.packets_received == 0,
    {
        let per_window: u64 = frames_per_window(window_ms);
        assert(0 == 0 * per_window) by (nonlinear_arith);
        EchoWindows {
            total_frames: duration_secs as u64 * 50,
            frames_per_window: per_window,
            window_idx: 0,
            window_frames_sent: 0,
            window_frames_received: 0,
            frames_sent: 0,
            samples_received: 0,
            packets_sent: 0,
            packets_received: 0,
        }
    }

    /// Packets have been sent.
    pub fn sent_packets(&mut self, count: usize)
        requires
            old(self).packets_sent + count <= u64::MAX,
        ensures
            *final(self) == (EchoWindows {
                packets_sent: (old(self).packets_sent + count) as u64,
                ..*old(self)
            }),
    {
        self.packets_sent = self.packets_sent + count as u64;
    }

    /// A packet has come back.
    pub fn received_packet(&mut self)
        requires
            old(self).packets_received < u64::MAX,
        ensures
            *final(self) == (EchoWindows {
                packets_received: (old(self).packets_received + 1) as u64,
                ..*old(self)
            }),
    {
        self.packets_received = self.packets_received + 1;
    }

    /// A frame of so many samples has been decoded.
    pub fn received_frame(&mut self, samples: usize)
        requires
            old(self).samples_received + samples <= usize::MAX,
            old(self).window_frames_received < u32::MAX,
        ensures
            *final(self) == (EchoWindows {
                samples_received: (old(self).samples_received + samples) as usize,
                window_frames_received: (old(self).window_frames_received + 1) as u32,
                ..*old(self)
            }),
    {
        self.samples_received = self.samples_received + samples;
        self.window_frames_received = self.window_frames_received + 1;
    }

    /// A frame has been sent: the window that ends with it, if one does. A
    /// window ends when it is full, and with the last frame.
    pub fn frame_sent(&mut self) -> (r: Option<WindowBounds>)
        requires
            old(self).wf(),
            old(self).frames_sent < old(self).total_frames,
            old(self).total_frames * 960 <= usize::MAX,
            old(self).window_idx < usize::MAX,
            old(self).window_frames_sent < u32::MAX,
        ensures
            final(self).wf(),
            final(self).frames_sent == old(self).frames_sent + 1,
            final(self).total_frames == old(self).total_frames,
            final(self).frames_per_window == old(self).frames_per_window,
            final(self).samples_received == old(self).samples_received,
            final(self).packets_sent == old(self).packets_sent,
            final(self).packets_received == old(self).packets_received,
            r is Some <==> old(self).window_frames_sent + 1 == old(self).frames_per_window
                || final(self).frames_sent == final(self).total_frames,
            final(self).frames_sent == final(self).total_frames ==> r is Some,
            r is None ==> old(self).window_frames_sent + 1 < old(self).frames_per_window,
            match r {
                Some(w) => {
                    &&& w.index == old(self).window_idx
                    &&& w.sent_start == old(self).window_idx * old(self).frames_per_window * 960
                    &&& w.sent_end == final(self).frames_sent * 960
                    &&& w.frames_sent == old(self).window_frames_sent + 1
                    &&& w.sent_end - w.sent_start == w.frames_sent * 960
                    &&& w.frames_received == old(self).window_frames_received
                    &&& w.recv_start == if old(self).samples_received
                        > old(self).window_frames_received * 960 {
                        (old(self).samples_received - old(self).window_frames_received * 960) as int
                    } else {
                        0
                    }
                    &&& final(self).window_idx == old(self).window_idx + 1
                    &&& final(self).window_frames_sent == 0
                    &&& final(self).window_frames_received == 0
                },
                None => {
                    &&& final(self).window_idx == old(self).window_idx
                    &&& final(self).window_frames_sent == old(self).window_frames_sent + 1
                    &&& final(self).window_frames_received == old(self).window_frames_received
                },
            },
    {
        let ghost idx = self.window_idx as int;
        let ghost per = self.frames_per_window as int;
        let full: u64 = self.frames_sent - self.window_frames_sent as u64;
        assert(full == idx * per);
        self.frames_sent = self.frames_sent + 1;
        self.window_frames_sent = self.window_frames_sent + 1;
        if self.window_frames_sent as u64 == self.frames_per_window || self.frames_sent
            == self.total_frames {
            assert(self.frames_sent * 960 <= self.total_frames * 960 <= usize::MAX);
            let sent_start: usize = full as usize * 960;
            let sent_end: usize = self.frames_sent as usize * 960;
            let received: u64 = self.window_frames_received as u64 * 960;
            let recv_start: usize = if self.samples_received as u64 > received {
                (self.samples_received as u64 - received) as usize
            } else {
                0
            };
            let w = WindowBounds {
                index: self.window_idx,
                sent_start,
                sent_end,
                recv_start,
                frames_sent: self.window_frames_sent,
                frames_received: self.window_frames_received,
            };
            proof {
                assert((idx + 1) * per == idx * per + per) by (nonlinear_arith);
            }
            self.window_idx = self.window_idx + 1;
            self.window_frames_sent = 0;
            self.window_frames_received = 0;
            Some(w)
        } else {
            None
        }
    }

    /// Whole frames among the samples that came back.
    pub fn total_frames_received(&self) -> (r: u64)
        ensures
            r == self.samples_received / 960,
    {
        self.samples_received as u64 / 960
    }
}

/// The loudness of the loudest of some samples; zero for none.
pub open spec fn peak_of(s: Seq<i16>) -> int
    decreases s.len(),
{
    if s.len() == 0 {
        0
    } else {
        let rest = peak_of(s.drop_last());
        let x = s.last();
        let a = if x < 0 {
            -x
        } else {
            x as int
        };
        if a > rest {
            a
        } else {
            rest
        }
    }
}

pub fn peak(samples: &[i16]) -> (r: i16)
    requires
        forall|i: int| 0 <= i < samples@.len() ==> samples@[i] != i16::MIN,
    ensures
        r == peak_of(samples@),
{
    let mut r: i16 = 0;
    let mut i: usize = 0;
    assert(samples@.take(0) =~= Seq::empty());
    while i < samples.len()
        invariant
            i <= samples@.len(),
            0 <= r,
            r == peak_of(samples@.take(i as int)),
            forall|i: int| 0 <= i < samples@.len() ==> samples@[i] != i16::MIN,
        decreases samples.len() - i,
    {
        assert(samples@.take(i + 1).drop_last() =~= samples@.take(i as int));
        let x: i16 = samples[i];
        let a: i16 = if x < 0 {
            -x
        } else {
            x
        };
        if a > r {
            r = a;
        }
        i += 1;
    }
    assert(samples@.take(i as int) =~= samples@);
    r
}

/// Whether there is no signal.
pub fn is_silent(peak: i16) -> (r: bool)
    ensures
        r == (peak < 100),
        r <==> peak + 1 <= 4 * 25,
{
    peak < SILENCE_PEAK
}

/// No sample is louder than the peak, and some sample is as loud, unless the
/// peak is zero.
pub proof fn lemma_peak(s: Seq<i16>)
    ensures
        forall|i: int| 0 <= i < s.len() ==> -peak_of(s) <= #[trigger] s[i] <= peak_of(s),
        peak_of(s) == 0 || exists|i: int|
            0 <= i < s.len() && (#[trigger] s[i] == peak_of(s) || s[i] == -peak_of(s)),
    decreases s.len(),
{
    if s.len() > 0 {
        let rest = s.drop_last();
        lemma_peak(rest);
        assert forall|i: int| 0 <= i < s.len() implies -peak_of(s) <= #[trigger] s[i] <= peak_of(
            s,
        ) by {
            if i < rest.len() {
                assert(s[i] == rest[i]);
            }
        }
        if peak_of(s) != 0 {
            if peak_of(s) == peak_of(rest) {
                let j = choose|i: int|
                    0 <= i < rest.len() && (#[trigger] rest[i] == peak_of(rest) || rest[i]
                        == -peak_of(rest));
                assert(s[j] == rest[j]);
            } else {
                assert(s[s.len() - 1] == s.last());
            }
        }
    }
}

} // verus!
