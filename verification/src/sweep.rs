//! Jitter buffer settings, tried one after the other.
use vstd::prelude::*;
use vstd::string::StringExecFns;

use crate::call::{config_with, CallConfig};
use crate::proto::{good_profile, JitterStats, QualityProfile};
use crate::text::{decimal, push_number, push_right_aligned, right_aligned};

verus! {

broadcast use vstd::string::group_string_axioms;

/// Samples in a 20 ms frame at 48 kHz mono.
pub const FRAME_SAMPLES: usize = 960;

pub const SAMPLE_RATE: u32 = 48_000;

pub const FRAME_DURATION_MS: u32 = 20;

/// The settings to try.
#[derive(Clone, Debug)]
pub struct SweepConfig {
    /// Target and maximal depths of the jitter buffer, in packets.
    pub target_depths: Vec<usize>,
    pub max_depths: Vec<usize>,
    /// Seconds of tone for each.
    pub test_duration_secs: u32,
    pub tone_freq_hz: u32,
}

impl Default for SweepConfig {
    fn default() -> (r: Self)
        ensures
            r.target_depths@ == seq![10usize, 25, 50, 100, 200],
            r.max_depths@ == seq![50usize, 100, 250, 500],
            r.test_duration_secs == 2,
            r.tone_freq_hz == 440,
    {
        let target_depths: Vec<usize> = vec![10, 25, 50, 100, 200];
        let max_depths: Vec<usize> = vec![50, 100, 250, 500];
        assert(target_depths@ =~= seq![10usize, 25, 50, 100, 200]);
        assert(max_depths@ =~= seq![50usize, 100, 250, 500]);
        SweepConfig { target_depths, max_depths, test_duration_secs: 2, tone_freq_hz: 440 }
    }
}

/// The smallest depth for a target: three, or less for a smaller target, but
/// at least one.
pub open spec fn min_depth(target: usize) -> usize {
    if target > 3 {
        3
    } else if target < 1 {
        1
    } else {
        target
    }
}

/// The call that tries a target and a maximal depth.
pub open spec fn trial(target: usize, max: usize) -> CallConfig {
    config_with(good_profile(), target, max, min_depth(target))
}

/// The trials with one target, over some maximal depths that are no less.
pub open spec fn trials_for(target: usize, maxes: Seq<usize>) -> Seq<CallConfig>
    decreases maxes.len(),
{
    if maxes.len() == 0 {
        Seq::empty()
    } else if target > maxes.last() {
        trials_for(target, maxes.drop_last())
    } else {
        trials_for(target, maxes.drop_last()).push(trial(target, maxes.last()))
    }
}

/// All the trials, target by target.
pub open spec fn trials(targets: Seq<usize>, maxes: Seq<usize>) -> Seq<CallConfig>
    decreases targets.len(),
{
    if targets.len() == 0 {
        Seq::empty()
    } else {
        trials(targets.drop_last(), maxes) + trials_for(targets.last(), maxes)
    }
}

impl SweepConfig {
    /// Frames in each trial: fifty a second.
    pub fn frames_per_config(&self) -> (r: u64)
        ensures
            r == self.test_duration_secs * 50,
            r * 960 == self.test_duration_secs * 48_000,
    {
        self.test_duration_secs as u64 * (1000 / FRAME_DURATION_MS as u64)
    }

    /// The calls to try.
    pub fn call_configs(&self) -> (r: Vec<CallConfig>)
        ensures
            r@ == trials(self.target_depths@, self.max_depths@),
    {
        let mut r: Vec<CallConfig> = Vec::new();
        let mut i: usize = 0;
        assert(self.target_depths@.take(0) =~= Seq::empty());
        while i < self.target_depths.len()
            invariant
                i <= self.target_depths@.len(),
                r@ == trials(self.target_depths@.take(i as int), self.max_depths@),
            decreases self.target_depths.len() - i,
        {
            let target: usize = self.target_depths[i];
            let ghost before = r@;
            let mut j: usize = 0;
            assert(self.max_depths@.take(0) =~= Seq::empty());
            assert(before + Seq::<CallConfig>::empty() =~= before);
            while j < self.max_depths.len()
                invariant
                    j <= self.max_depths@.len(),
                    r@ == before + trials_for(target, self.max_depths@.take(j as int)),
                decreases self.max_depths.len() - j,
            {
                let max: usize = self.max_depths[j];
                let ghost so_far = r@;
                assert(self.max_depths@.take(j + 1).drop_last() =~= self.max_depths@.take(
                    j as int,
                ));
                if target <= max {
                    let mut cfg = CallConfig::default();
                    cfg.jitter_target = target;
                    cfg.jitter_max = max;
                    cfg.jitter_min = if target > 3 {
                        3
                    } else if target < 1 {
                        1
                    } else {
                        target
                    };
                    assert(cfg == trial(target, max));
                    r.push(cfg);
                    assert(r@ =~= before + trials_for(target, self.max_depths@.take(j + 1)));
                }
                j += 1;
            }
            assert(self.max_depths@.take(j as int) =~= self.max_depths@);
            assert(self.target_depths@.take(i + 1).drop_last() =~= self.target_depths@.take(
                i as int,
            ));
            i += 1;
        }
        assert(self.target_depths@.take(i as int) =~= self.target_depths@);
        r
    }
}

/// No trial has a target beyond its maximal depth.
pub proof fn lemma_trials_valid(targets: Seq<usize>, maxes: Seq<usize>)
    ensures
        forall|i: int|
            #![trigger trials(targets, maxes)[i]]
            0 <= i < trials(targets, maxes).len() ==> {
                &&& trials(targets, maxes)[i].jitter_target <= trials(targets, maxes)[i].jitter_max
                &&& 1 <= trials(targets, maxes)[i].jitter_min <= 3
            },
    decreases targets.len(),
{
    if targets.len() > 0 {
        lemma_trials_valid(targets.drop_last(), maxes);
        lemma_trials_for_valid(targets.last(), maxes);
        let head = trials(targets.drop_last(), maxes);
        let tail = trials_for(targets.last(), maxes);
        assert forall|i: int| 0 <= i < trials(targets, maxes).len() implies {
            &&& (#[trigger] trials(targets, maxes)[i]).jitter_target <= trials(
                targets,
                maxes,
            )[i].jitter_max
            &&& 1 <= trials(targets, maxes)[i].jitter_min <= 3
        } by {
            if i < head.len() {
                assert(trials(targets, maxes)[i] == head[i]);
            } else {
                assert(trials(targets, maxes)[i] == tail[i - head.len()]);
            }
        }
    }
}

proof fn lemma_trials_for_valid(target: usize, maxes: Seq<usize>)
    ensures
        forall|i: int|
            #![trigger trials_for(target, maxes)[i]]
            0 <= i < trials_for(target, maxes).len() ==> {
                &&& trials_for(target, maxes)[i].jitter_target <= trials_for(
                    target,
                    maxes,
                )[i].jitter_max
                &&& 1 <= trials_for(target, maxes)[i].jitter_min <= 3
            },
    decreases maxes.len(),
{
    if maxes.len() > 0 {
        lemma_trials_for_valid(target, maxes.drop_last());
        let head = trials_for(target, maxes.drop_last());
        assert forall|i: int| 0 <= i < trials_for(target, maxes).len() implies {
            &&& (#[trigger] trials_for(target, maxes)[i]).jitter_target <= trials_for(
                target,
                maxes,
            )[i].jitter_max
            &&& 1 <= trials_for(target, maxes)[i].jitter_min <= 3
        } by {
            if i < head.len() {
                assert(trials_for(target, maxes)[i] == head[i]);
            }
        }
    }
}

/// What came of one trial.
#[derive(Clone, Copy, Debug, PartialEq, Eq, Structural)]
pub struct SweepResult {
    pub target_depth: usize,
    pub max_depth: usize,
    pub frames_sent: u64,
    pub frames_received: u64,
    /// What the target depth costs.
    pub avg_latency_ms: u64,
    pub underruns: u64,
    pub overruns: u64,
}

/// Sums up a trial.
pub fn sweep_result(
    config: &CallConfig,
    frames_sent: u64,
    frames_received: u64,
    stats: &JitterStats,
) -> (r: SweepResult)
    requires
        config.jitter_target * 20 <= u64::MAX,
    ensures
        r == (SweepResult {
            target_depth: config.jitter_target,
            max_depth: config.jitter_max,
            frames_sent,
            frames_received,
            avg_latency_ms: (config.jitter_target * 20) as u64,
            underruns: stats.underruns,
            overruns: stats.overruns,
        }),
{
    SweepResult {
        target_depth: config.jitter_target,
        max_depth: config.jitter_max,
        frames_sent,
        frames_received,
        avg_latency_ms: config.jitter_target as u64 * FRAME_DURATION_MS as u64,
        underruns: stats.underruns,
        overruns: stats.overruns,
    }
}

/// What stands above the rows of a table.
pub open spec fn table_head() -> Seq<char> {
    "\n=== Jitter Buffer Parameter Sweep ===\n\n target |  max |   sent |   recv |  loss% | latency_ms | underruns | overruns\n -------+------+--------+--------+--------+------------+-----------+---------\n"@
}

/// The row of a table for a result, with the loss in percent already written
/// out.
pub open spec fn row_text(r: SweepResult, loss: Seq<char>) -> Seq<char> {
    " "@ + right_aligned(decimal(r.target_depth as nat), 6) + " | "@ + right_aligned(
        decimal(r.max_depth as nat),
        4,
    ) + " | "@ + right_aligned(decimal(r.frames_sent as nat), 6) + " | "@ + right_aligned(
        decimal(r.frames_received as nat),
        6,
    ) + " | "@ + right_aligned(loss, 5) + "% | "@ + right_aligned(
        decimal(r.avg_latency_ms as nat),
        10,
    ) + " | "@ + right_aligned(decimal(r.underruns as nat), 9) + " | "@ + right_aligned(
        decimal(r.overruns as nat),
        8,
    ) + "\n"@
}

pub fn sweep_row(r: &SweepResult, loss: &str) -> (s: String)
    ensures
        s@ == row_text(*r, loss@),
{
    let mut m = String::from_str(" ");
    push_number(&mut m, r.target_depth as u64, 6);
    m.append(" | ");
    push_number(&mut m, r.max_depth as u64, 4);
    m.append(" | ");
    push_number(&mut m, r.frames_sent, 6);
    m.append(" | ");
    push_number(&mut m, r.frames_received, 6);
    m.append(" | ");
    push_right_aligned(&mut m, loss, 5);
    m.append("% | ");
    push_number(&mut m, r.avg_latency_ms, 10);
    m.append(" | ");
    push_number(&mut m, r.underruns, 9);
    m.append(" | ");
    push_number(&mut m, r.overruns, 8);
    m.append("\n");
    m
}

/// The rows of a table, from results with their losses.
pub open spec fn rows_text(rows: Seq<(SweepResult, Seq<char>)>) -> Seq<char>
    decreases rows.len(),
{
    if rows.len() == 0 {
        Seq::empty()
    } else {
        rows_text(rows.drop_last()) + row_text(rows.last().0, rows.last().1)
    }
}

pub open spec fn rows_view(rows: Seq<(SweepResult, String)>) -> Seq<(SweepResult, Seq<char>)> {
    rows.map_values(|r: (SweepResult, String)| (r.0, r.1@))
}

/// The table of some results.
pub fn sweep_table(rows: &[(SweepResult, String)]) -> (r: String)
    ensures
        r@ == table_head() + rows_text(rows_view(rows@)) + "\n"@,
{
    let ghost all = rows_view(rows@);
    let mut m = String::from_str(
        "\n=== Jitter Buffer Parameter Sweep ===\n\n target |  max |   sent |   recv |  loss% | latency_ms | underruns | overruns\n -------+------+--------+--------+--------+------------+-----------+---------\n",
    );
    let ghost head = m@;
    let mut i: usize = 0;
    assert(all.take(0) =~= Seq::empty());
    assert(head + Seq::<char>::empty() =~= head);
    while i < rows.len()
        invariant
            i <= rows@.len(),
            all == rows_view(rows@),
            m@ == head + rows_text(all.take(i as int)),
        decreases rows.len() - i,
    {
        let row = sweep_row(&rows[i].0, rows[i].1.as_str());
        m.append(row.as_str());
        proof {
            assert(all.take(i + 1).drop_last() =~= all.take(i as int));
            assert(all.take(i + 1).last() == (rows@[i as int].0, rows@[i as int].1@));
            assert(m@ =~= head + rows_text(all.take(i + 1)));
        }
        i += 1;
    }
    assert(all.take(i as int) =~= all);
    m.append("\n");
    m
}

proof fn lemma_trials_for_complete(target: usize, maxes: Seq<usize>, c: CallConfig)
    ensures
        trials_for(target, maxes).contains(c) <==> exists|j: int|
            0 <= j < maxes.len() && target <= #[trigger] maxes[j] && c == trial(target, maxes[j]),
    decreases maxes.len(),
{
    let all = trials_for(target, maxes);
    if maxes.len() > 0 {
        let shorter = maxes.drop_last();
        let before = trials_for(target, shorter);
        let n = shorter.len() as int;
        lemma_trials_for_complete(target, shorter, c);
        assert(maxes[n] == maxes.last());
        if all.contains(c) {
            let i = choose|i: int| 0 <= i < all.len() && all[i] == c;
            if i < before.len() {
                assert(before[i] == c);
                let j = choose|j: int|
                    0 <= j < shorter.len() && target <= #[trigger] shorter[j] && c == trial(
                        target,
                        shorter[j],
                    );
                assert(maxes[j] == shorter[j]);
            }
        }
        if exists|j: int|
            0 <= j < maxes.len() && target <= #[trigger] maxes[j] && c == trial(target, maxes[j]) {
            let j = choose|j: int|
                0 <= j < maxes.len() && target <= #[trigger] maxes[j] && c == trial(
                    target,
                    maxes[j],
                );
            if j < n {
                assert(shorter[j] == maxes[j]);
                assert(before.contains(c));
                let i = choose|i: int| 0 <= i < before.len() && before[i] == c;
                assert(all[i] == c);
            } else {
                assert(all[before.len() as int] == c);
            }
        }
    }
}

/// Every target is tried with every maximal depth that is no less than it,
/// and nothing else is tried. A trial has the target and the maximal depth
/// that it is for, and a smallest depth of no more than three and, but for a
/// target of zero, no more than the target.
pub proof fn lemma_trials_complete(targets: Seq<usize>, maxes: Seq<usize>, c: CallConfig)
    ensures
        trials(targets, maxes).contains(c) <==> exists|i: int, j: int|
            0 <= i < targets.len() && 0 <= j < maxes.len() && #[trigger] targets[i]
                <= #[trigger] maxes[j] && c == trial(targets[i], maxes[j]),
    decreases targets.len(),
{
    let all = trials(targets, maxes);
    if targets.len() > 0 {
        let shorter = targets.drop_last();
        let before = trials(shorter, maxes);
        let more = trials_for(targets.last(), maxes);
        let n = shorter.len() as int;
        lemma_trials_complete(shorter, maxes, c);
        lemma_trials_for_complete(targets.last(), maxes, c);
        assert(targets[n] == targets.last());
        assert(all.contains(c) <==> before.contains(c) || more.contains(c)) by {
            if before.contains(c) {
                let k = choose|k: int| 0 <= k < before.len() && before[k] == c;
                assert(all[k] == c);
            }
            if more.contains(c) {
                let k = choose|k: int| 0 <= k < more.len() && more[k] == c;
                assert(all[before.len() + k] == c);
            }
            if all.contains(c) {
                let k = choose|k: int| 0 <= k < all.len() && all[k] == c;
                if k < before.len() {
                    assert(before[k] == c);
                } else {
                    assert(more[k - before.len()] == c);
                }
            }
        }
        if before.contains(c) {
            let (i, j) = choose|i: int, j: int|
                0 <= i < shorter.len() && 0 <= j < maxes.len() && #[trigger] shorter[i]
                    <= #[trigger] maxes[j] && c == trial(shorter[i], maxes[j]);
            assert(targets[i] == shorter[i]);
        }
        if exists|i: int, j: int|
            0 <= i < targets.len() && 0 <= j < maxes.len() && #[trigger] targets[i]
                <= #[trigger] maxes[j] && c == trial(targets[i], maxes[j]) {
            let (i, j) = choose|i: int, j: int|
                0 <= i < targets.len() && 0 <= j < maxes.len() && #[trigger] targets[i]
                    <= #[trigger] maxes[j] && c == trial(targets[i], maxes[j]);
            if i < n {
                assert(shorter[i] == targets[i]);
            }
        }
    }
}

/// The depths of a trial.
pub proof fn lemma_trial_depths(target: usize, max: usize)
    ensures
        ({
            let c = trial(target, max);
            &&& c.jitter_target == target
            &&& c.jitter_max == max
            &&& 1 <= c.jitter_min <= 3
            &&& target >= 1 ==> c.jitter_min <= target
            &&& target >= 3 ==> c.jitter_min == 3
            &&& c.profile == good_profile()
        }),
{
}

} // verus!
