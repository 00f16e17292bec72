//! Voice processing on macOS: counters of the device's callbacks.
use vstd::prelude::*;

use crate::audio_io::{did_read_frames, fill_in_frames, write_in_frames, wrote_frames};
use crate::audio_ring::{min, AudioRing};

verus! {

/// Samples in a 20 ms frame at 48 kHz mono.
pub const FRAME_SAMPLES: usize = 960;

/// Counters of the capture and render callbacks; each wraps around.
#[derive(Clone, Copy, Debug, PartialEq, Eq, Structural)]
pub struct VpioStats {
    pub capture_callbacks: u64,
    pub capture_samples: u64,
    pub render_callbacks: u64,
    pub render_requested_samples: u64,
    pub render_read_samples: u64,
    /// Render callbacks for which the ring had nothing.
    pub render_underrun_callbacks: u64,
    /// Render callbacks that were not silent.
    pub render_nonzero_callbacks: u64,
    pub render_last_requested: u64,
    pub render_last_read: u64,
    pub render_last_rms: u64,
    pub render_last_ring_available: u64,
}

#[derive(Clone, Copy, Debug, PartialEq, Eq, Structural)]
pub struct VpioStatsSnapshot {
    pub capture_callbacks: u64,
    pub capture_samples: u64,
    pub render_callbacks: u64,
    pub render_requested_samples: u64,
    pub render_read_samples: u64,
    pub render_underrun_callbacks: u64,
    pub render_nonzero_callbacks: u64,
    pub render_last_requested: u64,
    pub render_last_read: u64,
    pub render_last_rms: u64,
    pub render_last_ring_available: u64,
}

impl Default for VpioStats {
    fn default() -> (r: Self)
        ensures
            r == zero_stats(),
    {
        VpioStats {
            capture_callbacks: 0,
            capture_samples: 0,
            render_callbacks: 0,
            render_requested_samples: 0,
            render_read_samples: 0,
            render_underrun_callbacks: 0,
            render_nonzero_callbacks: 0,
            render_last_requested: 0,
            render_last_read: 0,
            render_last_rms: 0,
            render_last_ring_available: 0,
        }
    }
}

pub open spec fn zero_stats() -> VpioStats {
    VpioStats {
        capture_callbacks: 0,
        capture_samples: 0,
        render_callbacks: 0,
        render_requested_samples: 0,
        render_read_samples: 0,
        render_underrun_callbacks: 0,
        render_nonzero_callbacks: 0,
        render_last_requested: 0,
        render_last_read: 0,
        render_last_rms: 0,
        render_last_ring_available: 0,
    }
}

/// `a` plus `b`, wrapped around at 2^64.
pub open spec fn wrap_add(a: u64, b: int) -> u64 {
    ((a + b) % 0x1_0000_0000_0000_0000) as u64
}

fn wrap_add_exec(a: u64, b: u64) -> (r: u64)
    ensures
        r == wrap_add(a, b as int),
{
    a.wrapping_add(b)
}

/// The sum of the squares of some samples.
pub open spec fn energy(s: Seq<i16>) -> nat
    decreases s.len(),
{
    if s.len() == 0 {
        0
    } else {
        energy(s.drop_last()) + (s.last() * s.last()) as nat
    }
}

/// `r` is the root of the mean square of some samples, rounded down; zero for
/// none.
pub open spec fn is_rms(s: Seq<i16>, r: int) -> bool {
    if s.len() == 0 {
        r == 0
    } else {
        0 <= r && r * r <= energy(s) / s.len() < (r + 1) * (r + 1)
    }
}

proof fn lemma_energy_bound(s: Seq<i16>)
    ensures
        energy(s) <= s.len() * 0x4000_0000,
    decreases s.len(),
{
    if s.len() > 0 {
        lemma_energy_bound(s.drop_last());
        let x = s.last() as int;
        assert(0 <= x * x <= 0x4000_0000) by (nonlinear_arith)
            requires
                -32768 <= x <= 32767,
        ;
    }
}

/// The loudness of some samples.
pub fn rms(samples: &[i16]) -> (r: u64)
    ensures
        is_rms(samples@, r as int),
        r <= 32768,
{
    if samples.len() == 0 {
        return 0;
    }
    let mut sum: u128 = 0;
    let mut i: usize = 0;
    assert(samples@.take(0) =~= Seq::empty());
    assert(samples.len() == samples@.len());
    while i < samples.len()
        invariant
            i <= samples@.len() <= usize::MAX,
            sum == energy(samples@.take(i as int)),
        decreases samples.len() - i,
    {
        let x: i64 = samples[i] as i64;
        proof {
            assert(samples@.take(i + 1).drop_last() =~= samples@.take(i as int));
            lemma_energy_bound(samples@.take(i as int));
            assert(0 <= x * x <= 0x4000_0000) by (nonlinear_arith)
                requires
                    -32768 <= x <= 32767,
            ;
        }
        sum = sum + (x * x) as u128;
        i += 1;
    }
    assert(samples@.take(i as int) =~= samples@);
    let mean: u128 = sum / samples.len() as u128;
    proof {
        lemma_energy_bound(samples@);
        let n = samples@.len() as int;
        assert(sum as int / n <= 0x4000_0000) by (nonlinear_arith)
            requires
                n > 0,
                sum <= n * 0x4000_0000,
        ;
    }
    let mut r: u64 = 0;
    let mean: u64 = mean as u64;
    while (r + 1) * (r + 1) <= mean
        invariant
            mean <= 0x4000_0000,
            r * r <= mean,
            r <= 0x8000,
            (r + 1) * (r + 1) <= 0x1_0000_0000,
        decreases 0x8000 - r,
    {
        assert(r < 0x8000) by (nonlinear_arith)
            requires
                (r + 1) * (r + 1) <= mean,
                mean <= 0x4000_0000,
        ;
        r += 1;
        assert((r + 1) * (r + 1) <= 0x1_0000_0000) by (nonlinear_arith)
            requires
                r <= 0x8000,
        ;
    }
    r
}

/// `after` is `before` with one more render callback, which asked for
/// `requested` samples, found `available` in the ring and got `played`.
pub open spec fn rendered(
    before: VpioStats,
    after: VpioStats,
    requested: nat,
    available: nat,
    played: Seq<i16>,
) -> bool {
    &&& is_rms(played, after.render_last_rms as int)
    &&& after == (VpioStats {
        render_callbacks: wrap_add(before.render_callbacks, 1),
        render_requested_samples: wrap_add(before.render_requested_samples, requested as int),
        render_read_samples: wrap_add(before.render_read_samples, played.len() as int),
        render_underrun_callbacks: if played.len() == 0 {
            wrap_add(before.render_underrun_callbacks, 1)
        } else {
            before.render_underrun_callbacks
        },
        render_nonzero_callbacks: if after.render_last_rms > 0 {
            wrap_add(before.render_nonzero_callbacks, 1)
        } else {
            before.render_nonzero_callbacks
        },
        render_last_requested: requested as u64,
        render_last_read: played.len() as u64,
        render_last_rms: after.render_last_rms,
        render_last_ring_available: available as u64,
        ..before
    })
}

impl VpioStats {
    pub fn snapshot(&self) -> (r: VpioStatsSnapshot)
        ensures
            r.capture_callbacks == self.capture_callbacks,
            r.capture_samples == self.capture_samples,
            r.render_callbacks == self.render_callbacks,
            r.render_requested_samples == self.render_requested_samples,
            r.render_read_samples == self.render_read_samples,
            r.render_underrun_callbacks == self.render_underrun_callbacks,
            r.render_nonzero_callbacks == self.render_nonzero_callbacks,
            r.render_last_requested == self.render_last_requested,
            r.render_last_read == self.render_last_read,
            r.render_last_rms == self.render_last_rms,
            r.render_last_ring_available == self.render_last_ring_available,
    {
        VpioStatsSnapshot {
            capture_callbacks: self.capture_callbacks,
            capture_samples: self.capture_samples,
            render_callbacks: self.render_callbacks,
            render_requested_samples: self.render_requested_samples,
            render_read_samples: self.render_read_samples,
            render_underrun_callbacks: self.render_underrun_callbacks,
            render_nonzero_callbacks: self.render_nonzero_callbacks,
            render_last_requested: self.render_last_requested,
            render_last_read: self.render_last_read,
            render_last_rms: self.render_last_rms,
            render_last_ring_available: self.render_last_ring_available,
        }
    }

    /// Counts one capture callback with `samples` samples.
    pub fn record_capture(&mut self, samples: usize)
        ensures
            *final(self) == (VpioStats {
                capture_callbacks: wrap_add(old(self).capture_callbacks, 1),
                capture_samples: wrap_add(old(self).capture_samples, samples as int),
                ..*old(self)
            }),
    {
        self.capture_callbacks = wrap_add_exec(self.capture_callbacks, 1);
        self.capture_samples = wrap_add_exec(self.capture_samples, samples as u64);
    }

    /// Counts one render callback that asked for `requested` samples, found
    /// `available` in the ring and got `played`.
    pub fn record_render(&mut self, requested: usize, available: usize, played: &[i16])
        ensures
            rendered(*old(self), *final(self), requested as nat, available as nat, played@),
    {
        self.render_callbacks = wrap_add_exec(self.render_callbacks, 1);
        self.render_requested_samples = wrap_add_exec(
            self.render_requested_samples,
            requested as u64,
        );
        self.render_last_requested = requested as u64;
        self.render_read_samples = wrap_add_exec(self.render_read_samples, played.len() as u64);
        self.render_last_read = played.len() as u64;
        self.render_last_ring_available = available as u64;
        if played.len() == 0 {
            self.render_underrun_callbacks = wrap_add_exec(self.render_underrun_callbacks, 1);
        }
        let loudness: u64 = rms(played);
        self.render_last_rms = loudness;
        if loudness > 0 {
            self.render_nonzero_callbacks = wrap_add_exec(self.render_nonzero_callbacks, 1);
        }
    }
}

/// Capture and playback through one device.
pub struct VpioAudio {
    pub capture_ring: AudioRing,
    pub playout_ring: AudioRing,
    pub running: bool,
    pub stats: VpioStats,
}

impl VpioAudio {
    pub fn started() -> (r: Self)
        ensures
            r.running,
            r.capture_ring.wf(),
            r.playout_ring.wf(),
            r.capture_ring.unread() == Seq::<i16>::empty(),
            r.playout_ring.unread() == Seq::<i16>::empty(),
            r.stats == zero_stats(),
    {
        VpioAudio {
            capture_ring: AudioRing::new(),
            playout_ring: AudioRing::new(),
            running: true,
            stats: VpioStats::default(),
        }
    }

    pub fn capture_ring(&self) -> (r: &AudioRing)
        ensures
            *r == self.capture_ring,
    {
        &self.capture_ring
    }

    pub fn playout_ring(&self) -> (r: &AudioRing)
        ensures
            *r == self.playout_ring,
    {
        &self.playout_ring
    }

    pub fn stats(&self) -> (r: VpioStats)
        ensures
            r == self.stats,
    {
        self.stats
    }

    pub fn stop(&mut self)
        ensures
            !final(self).running,
            final(self).capture_ring == old(self).capture_ring,
            final(self).playout_ring == old(self).playout_ring,
            final(self).stats == old(self).stats,
    {
        self.running = false;
    }

    /// Takes in one chunk of microphone samples; none once stopped.
    pub fn on_capture(&mut self, samples: &[i16])
        requires
            old(self).capture_ring.wf(),
        ensures
            final(self).running == old(self).running,
            final(self).playout_ring == old(self).playout_ring,
            final(self).capture_ring.wf(),
            !old(self).running ==> *final(self) == *old(self),
            old(self).running ==> wrote_frames(
                old(self).capture_ring,
                final(self).capture_ring,
                samples@,
            ) && final(self).stats == (VpioStats {
                capture_callbacks: wrap_add(old(self).stats.capture_callbacks, 1),
                capture_samples: wrap_add(old(self).stats.capture_samples, samples@.len() as int),
                ..old(self).stats
            }),
    {
        if self.running {
            self.stats.record_capture(samples.len());
            write_in_frames(&mut self.capture_ring, samples);
        }
    }

    /// Gives the speaker its samples, silence where the ring has none.
    pub fn on_render(&mut self, data: &mut [i16])
        requires
            old(self).playout_ring.wf(),
        ensures
            final(self).running == old(self).running,
            final(self).capture_ring == old(self).capture_ring,
            final(self).playout_ring.wf(),
            ({
                let n = min(old(data)@.len() as int, old(self).playout_ring.unread().len() as int);
                let played = old(self).playout_ring.unread().take(n);
                &&& final(data)@ == played + crate::audio_io::silence(
                    (old(data)@.len() - n) as nat,
                )
                &&& did_read_frames(
                    old(self).playout_ring,
                    final(self).playout_ring,
                    old(data)@.len() as int,
                    n,
                )
                &&& rendered(
                    old(self).stats,
                    final(self).stats,
                    old(data)@.len(),
                    old(self).playout_ring.unread().len(),
                    played,
                )
            }),
    {
        let available: usize = self.playout_ring.available();
        let ghost unread = self.playout_ring.unread();
        let n: usize = fill_in_frames(&mut self.playout_ring, data);
        let mut played: Vec<i16> = Vec::new();
        let mut i: usize = 0;
        while i < n
            invariant
                i <= n <= data@.len(),
                played@ == data@.take(i as int),
            decreases n - i,
        {
            played.push(data[i]);
            i += 1;
            assert(played@ =~= data@.take(i as int));
        }
        assert(played@ =~= unread.take(n as int));
        self.stats.record_render(data.len(), available, played.as_slice());
    }
}

proof fn lemma_energy_constant(s: Seq<i16>, x: i16)
    requires
        forall|i: int| 0 <= i < s.len() ==> #[trigger] s[i] == x || s[i] == -x,
    ensures
        energy(s) == s.len() * (x * x),
    decreases s.len(),
{
    if s.len() > 0 {
        let t = s.drop_last();
        assert forall|i: int| 0 <= i < t.len() implies #[trigger] t[i] == x || t[i] == -x by {
            assert(t[i] == s[i]);
        }
        lemma_energy_constant(t, x);
        let y = s.last() as int;
        let z = x as int;
        assert(s.last() == s[s.len() - 1]);
        assert(y * y == z * z && 0 <= y * y) by (nonlinear_arith)
            requires
                y == z || y == -z,
        ;
        let n = t.len() as int;
        assert((n + 1) * (z * z) == n * (z * z) + z * z) by (nonlinear_arith);
        assert(energy(s) == energy(t) + y * y);
    } else {
        let z = x as int;
        assert(0 * (z * z) == 0) by (nonlinear_arith);
    }
}

/// The energy of two pieces is that of both together, and that of one sample
/// is its square.
pub proof fn lemma_energy_adds(s: Seq<i16>, t: Seq<i16>, x: i16)
    ensures
        energy(s + t) == energy(s) + energy(t),
        energy(seq![x]) == x * x,
    decreases t.len(),
{
    let y = x as int;
    assert(0 <= y * y) by (nonlinear_arith);
    assert(seq![x].drop_last() =~= Seq::<i16>::empty());
    assert(energy(Seq::<i16>::empty()) == 0);
    if t.len() == 0 {
        assert(s + t =~= s);
    } else {
        assert((s + t).drop_last() =~= s + t.drop_last());
        assert((s + t).last() == t.last());
        lemma_energy_adds(s, t.drop_last(), x);
    }
}

/// The loudness of a signal that only changes its sign is its height.
pub proof fn lemma_rms_of_square_wave(s: Seq<i16>, x: i16, r: int)
    requires
        s.len() > 0,
        x >= 0,
        forall|i: int| 0 <= i < s.len() ==> #[trigger] s[i] == x || s[i] == -x,
        is_rms(s, r),
    ensures
        r == x,
{
    lemma_energy_constant(s, x);
    let n = s.len() as int;
    let z = x as int;
    assert(n * (z * z) / n == z * z) by {
        vstd::arithmetic::div_mod::lemma_div_multiples_vanish(z * z, n);
    }
    assert(r == z) by (nonlinear_arith)
        requires
            0 <= r,
            0 <= z,
            r * r <= z * z,
            z * z < (r + 1) * (r + 1),
    ;
}

/// There is one loudness only, and it is zero just where the samples are too
/// quiet for one.
pub proof fn lemma_rms_unique(s: Seq<i16>, r: int, q: int)
    requires
        is_rms(s, r),
        is_rms(s, q),
    ensures
        r == q,
{
    if s.len() > 0 {
        let m = (energy(s) / s.len()) as int;
        assert(r == q) by (nonlinear_arith)
            requires
                0 <= r,
                0 <= q,
                r * r <= m < (r + 1) * (r + 1),
                q * q <= m < (q + 1) * (q + 1),
        ;
    }
}

/// A render callback asks for as much as it is given and as much as is
/// silent: what was read never exceeds what was asked for in all.
pub proof fn lemma_render_counts(
    before: VpioStats,
    after: VpioStats,
    requested: nat,
    available: nat,
    played: Seq<i16>,
)
    requires
        rendered(before, after, requested, available, played),
        played.len() <= requested <= u64::MAX,
        available <= u64::MAX,
    ensures
        after.render_last_requested == requested,
        after.render_last_read == played.len(),
        after.render_last_ring_available == available,
        (after.render_callbacks - before.render_callbacks - 1) % 0x1_0000_0000_0000_0000 == 0,
        (after.render_requested_samples - before.render_requested_samples - requested)
            % 0x1_0000_0000_0000_0000 == 0,
        (after.render_read_samples - before.render_read_samples - played.len())
            % 0x1_0000_0000_0000_0000 == 0,
        after.render_underrun_callbacks != before.render_underrun_callbacks <==> played.len() == 0,
        after.render_nonzero_callbacks != before.render_nonzero_callbacks <==> after.render_last_rms
            != 0,
        after.capture_callbacks == before.capture_callbacks,
        after.capture_samples == before.capture_samples,
{
}

} // verus!
