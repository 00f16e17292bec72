//! A line of numbers about the call every so often.
use vstd::prelude::*;
use vstd::string::StringExecFns;

use crate::proto::JitterStats;

verus! {

broadcast use vstd::string::group_string_axioms;

/// Numbers of one moment.
#[derive(Clone, Debug)]
pub struct ClientMetricsSnapshot {
    /// When, as a date and time of day.
    pub ts: String,
    pub buffer_depth: usize,
    pub underruns: u64,
    pub overruns: u64,
    /// Packets lost, of so many received.
    pub packets_lost: u64,
    pub packets_received: u64,
    pub rtt_ms: u64,
    pub jitter_ms: u64,
    pub frames_sent: u64,
    pub frames_received: u64,
    pub quality_profile: String,
}

/// `r` holds the numbers of a jitter buffer, under a profile's name.
pub open spec fn snapshot_of(r: ClientMetricsSnapshot, stats: JitterStats, profile: Seq<char>) -> bool {
    &&& r.buffer_depth == stats.current_depth
    &&& r.underruns == stats.underruns
    &&& r.overruns == stats.overruns
    &&& r.packets_lost == stats.packets_lost
    &&& r.packets_received == stats.packets_received
    &&& r.rtt_ms == 0
    &&& r.jitter_ms == 0
    &&& r.frames_sent == 0
    &&& r.frames_received == stats.total_decoded
    &&& r.quality_profile@ == profile
}

/// The time of day, as `chrono::Utc::now` tells it and
/// `DateTime::to_rfc3339_opts` writes it, with whole seconds and a `Z`. What
/// it is depends on the clock, so nothing is said of it.
#[verifier::external_body]
fn utc_now_text() -> (r: String) {
    chrono::Utc::now().to_rfc3339_opts(chrono::SecondsFormat::Secs, true)
}

/// The numbers of a jitter buffer at a time. What it does not know of is
/// zero.
pub fn snapshot_at(stats: &JitterStats, profile: &str, ts: String) -> (r: ClientMetricsSnapshot)
    ensures
        snapshot_of(r, *stats, profile@),
        r.ts@ == ts@,
{
    ClientMetricsSnapshot {
        ts,
        buffer_depth: stats.current_depth,
        underruns: stats.underruns,
        overruns: stats.overruns,
        packets_lost: stats.packets_lost,
        packets_received: stats.packets_received,
        rtt_ms: 0,
        jitter_ms: 0,
        frames_sent: 0,
        frames_received: stats.total_decoded,
        quality_profile: String::from_str(profile),
    }
}

/// The numbers of a jitter buffer now.
pub fn snapshot_from_stats(stats: &JitterStats, profile: &str) -> (r: ClientMetricsSnapshot)
    ensures
        snapshot_of(r, *stats, profile@),
{
    snapshot_at(stats, profile, utc_now_text())
}

/// Says when a line is due.
#[derive(Clone, Copy, Debug, PartialEq, Eq, Structural)]
pub struct MetricsWriter {
    pub interval_secs: u64,
    /// When the last line was written, in nanoseconds of a running clock.
    pub last_write: Option<u64>,
}

impl MetricsWriter {
    pub fn new(interval_secs: u64) -> (r: Self)
        ensures
            r == (MetricsWriter { interval_secs, last_write: None }),
    {
        MetricsWriter { interval_secs, last_write: None }
    }

    /// The first line is due at once, and another one when an interval has
    /// passed.
    pub open spec fn due(self, now: u64) -> bool {
        match self.last_write {
            None => true,
            Some(t) => if now < t {
                self.interval_secs == 0
            } else {
                now - t >= self.interval_secs * 1_000_000_000
            },
        }
    }

    pub fn is_due(&self, now: u64) -> (r: bool)
        ensures
            r == self.due(now),
    {
        match self.last_write {
            None => true,
            Some(t) => now.saturating_sub(t) as u128 >= self.interval_secs as u128 * 1_000_000_000,
        }
    }

    /// A line has been written.
    pub fn written(&mut self, now: u64)
        ensures
            *final(self) == (MetricsWriter { last_write: Some(now), ..*old(self) }),
    {
        self.last_write = Some(now);
    }
}

/// No two lines are written within less than an interval, if each is written
/// only when it is due.
pub proof fn lemma_lines_apart(w: MetricsWriter, first: u64, second: u64)
    requires
        first <= second,
        (MetricsWriter { last_write: Some(first), ..w }).due(second),
    ensures
        second - first >= w.interval_secs * 1_000_000_000,
{
}

/// A line that is owed is written: the first one at once, and another one as
/// soon as the interval has passed.
pub proof fn lemma_line_owed(w: MetricsWriter, last: u64, now: u64)
    ensures
        (MetricsWriter { last_write: None, ..w }).due(now),
        now >= last + w.interval_secs * 1_000_000_000 ==> (MetricsWriter {
            last_write: Some(last),
            ..w
        }).due(now),
        last <= now < last + w.interval_secs * 1_000_000_000 ==> !(MetricsWriter {
            last_write: Some(last),
            ..w
        }).due(now),
{
}

} // verus!
