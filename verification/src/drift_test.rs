//! How far the receiver's clock is from the sender's.
use vstd::prelude::*;
use vstd::string::StringExecFns;

use crate::text::{decimal, decimal_int, push_decimal, push_decimal_int};

verus! {

broadcast use vstd::string::group_string_axioms;

/// Samples in a 20 ms frame at 48 kHz mono.
pub const FRAME_SAMPLES: usize = 960;

pub const SAMPLE_RATE: u32 = 48_000;

/// How the measurement is made.
#[derive(Clone, Copy, Debug, PartialEq, Eq, Structural)]
pub struct DriftTestConfig {
    /// Seconds of tone.
    pub duration_secs: u32,
    pub tone_freq_hz: u32,
}

impl Default for DriftTestConfig {
    fn default() -> (r: Self)
        ensures
            r == (DriftTestConfig { duration_secs: 10, tone_freq_hz: 440 }),
    {
        DriftTestConfig { duration_secs: 10, tone_freq_hz: 440 }
    }
}

impl DriftTestConfig {
    /// Frames to send: fifty a second.
    pub fn total_frames(&self) -> (r: u64)
        ensures
            r == self.duration_secs * 50,
            r * 960 == self.duration_secs * 48_000,
    {
        self.duration_secs as u64 * 50
    }

    pub fn expected_duration_ms(&self) -> (r: u64)
        ensures
            r == self.duration_secs * 1000,
            r * 48 == self.duration_secs * 48_000,
    {
        self.duration_secs as u64 * 1000
    }
}

/// When frames came in, in nanoseconds of a running clock.
#[derive(Clone, Copy, Debug, PartialEq, Eq, Structural)]
pub struct Arrivals {
    pub frames: u64,
    pub first: Option<u64>,
    pub last: Option<u64>,
}

impl Arrivals {
    pub open spec fn wf(self) -> bool {
        match (self.first, self.last) {
            (Some(a), Some(b)) => a <= b,
            (None, None) => true,
            _ => false,
        }
    }

    pub fn new() -> (r: Self)
        ensures
            r.wf(),
            r == (Arrivals { frames: 0, first: None, last: None }),
    {
        Arrivals { frames: 0, first: None, last: None }
    }

    /// A frame has come in.
    pub fn record(&mut self, now: u64)
        requires
            old(self).wf(),
            old(self).last matches Some(t) ==> t <= now,
            old(self).frames < u64::MAX,
        ensures
            final(self).wf(),
            *final(self) == (Arrivals {
                frames: (old(self).frames + 1) as u64,
                first: match old(self).first {
                    Some(t) => Some(t),
                    None => Some(now),
                },
                last: Some(now),
            }),
    {
        if self.first.is_none() {
            self.first = Some(now);
        }
        self.last = Some(now);
        self.frames = self.frames + 1;
    }

    /// From the first frame to the last one, in whole milliseconds.
    pub fn actual_duration_ms(&self) -> (r: u64)
        requires
            self.wf(),
        ensures
            r == match (self.first, self.last) {
                (Some(a), Some(b)) => (b - a) / 1_000_000,
                _ => 0,
            },
            self.first is Some ==> 1000 * (1000 * r) <= self.last->0 - self.first->0 < 1000 * (1000
                * r + 1000),
    {
        match (self.first, self.last) {
            (Some(a), Some(b)) => (b - a) / 1_000_000,
            _ => 0,
        }
    }
}

/// What was measured.
#[derive(Clone, Copy, Debug, PartialEq, Eq, Structural)]
pub struct DriftResult {
    pub expected_duration_ms: u64,
    pub actual_duration_ms: u64,
    /// Positive where the receiver took longer.
    pub drift_ms: i64,
    pub frames_sent: u64,
    pub frames_received: u64,
}

impl DriftResult {
    pub fn compute(
        expected_duration_ms: u64,
        actual_duration_ms: u64,
        frames_sent: u64,
        frames_received: u64,
    ) -> (r: Self)
        requires
            expected_duration_ms <= i64::MAX,
            actual_duration_ms <= i64::MAX,
        ensures
            r.expected_duration_ms == expected_duration_ms,
            r.actual_duration_ms == actual_duration_ms,
            r.drift_ms == actual_duration_ms - expected_duration_ms,
            r.frames_sent == frames_sent,
            r.frames_received == frames_received,
    {
        DriftResult {
            expected_duration_ms,
            actual_duration_ms,
            drift_ms: actual_duration_ms as i64 - expected_duration_ms as i64,
            frames_sent,
            frames_received,
        }
    }

    pub open spec fn abs_drift(self) -> nat {
        if self.drift_ms < 0 {
            (-self.drift_ms) as nat
        } else {
            self.drift_ms as nat
        }
    }

    /// What the measurement means.
    pub open spec fn verdict_text(self) -> Seq<char> {
        if self.frames_received == 0 {
            "WARNING: No frames received. Transport may be non-functional."@
        } else if self.abs_drift() < 5 {
            "Result: EXCELLENT -- drift is negligible (<5 ms)."@
        } else if self.abs_drift() < 20 {
            "Result: GOOD -- drift is within acceptable bounds (<20 ms)."@
        } else if self.abs_drift() < 100 {
            "Result: FAIR -- noticeable drift ("@ + decimal(self.abs_drift())
                + " ms). Clock sync may be needed."@
        } else {
            "Result: POOR -- significant drift ("@ + decimal(self.abs_drift())
                + " ms). Investigate clock sources."@
        }
    }

    pub fn verdict(&self) -> (r: String)
        ensures
            r@ == self.verdict_text(),
    {
        let abs_drift: u64 = if self.drift_ms >= 0 {
            self.drift_ms as u64
        } else {
            (-(self.drift_ms as i128)) as u64
        };
        assert(abs_drift == self.abs_drift());
        if self.frames_received == 0 {
            String::from_str("WARNING: No frames received. Transport may be non-functional.")
        } else if abs_drift < 5 {
            String::from_str("Result: EXCELLENT -- drift is negligible (<5 ms).")
        } else if abs_drift < 20 {
            String::from_str("Result: GOOD -- drift is within acceptable bounds (<20 ms).")
        } else if abs_drift < 100 {
            let mut m = String::from_str("Result: FAIR -- noticeable drift (");
            push_decimal(&mut m, abs_drift);
            m.append(" ms). Clock sync may be needed.");
            m
        } else {
            let mut m = String::from_str("Result: POOR -- significant drift (");
            push_decimal(&mut m, abs_drift);
            m.append(" ms). Investigate clock sources.");
            m
        }
    }

    /// The report, with the loss and the drift in percent already written
    /// out.
    pub open spec fn report_text(self, loss: Seq<char>, drift: Seq<char>) -> Seq<char> {
        "\n=== Drift Measurement Report ===\n\nFrames sent:        "@ + decimal(
            self.frames_sent as nat,
        ) + "\nFrames received:    "@ + decimal(self.frames_received as nat)
            + "\nPacket loss:        "@ + loss + "%\n\nExpected duration:  "@ + decimal(
            self.expected_duration_ms as nat,
        ) + " ms\nActual duration:    "@ + decimal(self.actual_duration_ms as nat)
            + " ms\nDrift:              "@ + decimal_int(self.drift_ms as int) + " ms ("@ + drift
            + "%)\n\n"@ + self.verdict_text() + "\n\n"@
    }

    pub fn drift_report(&self, loss: &str, drift: &str) -> (r: String)
        ensures
            r@ == self.report_text(loss@, drift@),
    {
        let mut m = String::from_str(
            "\n=== Drift Measurement Report ===\n\nFrames sent:        ",
        );
        push_decimal(&mut m, self.frames_sent);
        m.append("\nFrames received:    ");
        push_decimal(&mut m, self.frames_received);
        m.append("\nPacket loss:        ");
        m.append(loss);
        m.append("%\n\nExpected duration:  ");
        push_decimal(&mut m, self.expected_duration_ms);
        m.append(" ms\nActual duration:    ");
        push_decimal(&mut m, self.actual_duration_ms);
        m.append(" ms\nDrift:              ");
        push_decimal_int(&mut m, self.drift_ms);
        m.append(" ms (");
        m.append(drift);
        m.append("%)\n\n");
        let v = self.verdict();
        m.append(v.as_str());
        m.append("\n\n");
        m
    }
}

/// What arrives as long as it was sent has no drift.
pub proof fn lemma_no_drift(r: DriftResult)
    requires
        r.drift_ms == r.actual_duration_ms - r.expected_duration_ms,
    ensures
        r.drift_ms == 0 <==> r.actual_duration_ms == r.expected_duration_ms,
        r.drift_ms > 0 <==> r.actual_duration_ms > r.expected_duration_ms,
{
}

/// The verdict goes by how far the clocks are apart, not by which is ahead;
/// below 5, 20 and 100 milliseconds it says so, and the same for all within
/// one range.
pub proof fn lemma_verdict_by_distance(r: DriftResult, s: DriftResult)
    requires
        r.frames_received > 0,
        s.frames_received > 0,
        r.drift_ms == s.drift_ms || r.drift_ms == -s.drift_ms,
    ensures
        r.verdict_text() == s.verdict_text(),
        -5 < r.drift_ms < 5 <==> r.verdict_text()
            == "Result: EXCELLENT -- drift is negligible (<5 ms)."@,
        -20 < r.drift_ms < 20 && !(-5 < r.drift_ms < 5) <==> r.verdict_text()
            == "Result: GOOD -- drift is within acceptable bounds (<20 ms)."@,
{
    reveal_strlit("Result: EXCELLENT -- drift is negligible (<5 ms).");
    reveal_strlit("Result: GOOD -- drift is within acceptable bounds (<20 ms).");
    reveal_strlit("Result: FAIR -- noticeable drift (");
    reveal_strlit("Result: POOR -- significant drift (");
    let t = r.verdict_text();
    let excellent = "Result: EXCELLENT -- drift is negligible (<5 ms)."@;
    let good = "Result: GOOD -- drift is within acceptable bounds (<20 ms)."@;
    assert(excellent[8] == 'E' && good[8] == 'G');
    if r.abs_drift() >= 20 {
        let head = if r.abs_drift() < 100 {
            "Result: FAIR -- noticeable drift ("@
        } else {
            "Result: POOR -- significant drift ("@
        };
        assert(t[8] == head[8]);
        assert(head[8] == 'F' || head[8] == 'P');
    }
}

} // verus!
