//! One voice call: quality adaptation, the packets that frames become, and
//! what is played for each place in the stream.
use std::collections::VecDeque;

use vstd::prelude::*;

use crate::proto::{
    catastrophic_profile, degraded_profile, good_profile, packets_view, CodecId, MediaHeader,
    MediaPacket, PacketView, QualityProfile, QualityReport,
};

verus! {

/// Configuration of a call.
#[derive(Clone, Copy, Debug, PartialEq, Eq, Structural)]
pub struct CallConfig {
    pub profile: QualityProfile,
    /// Jitter buffer: target, maximal and minimal depth, in packets.
    pub jitter_target: usize,
    pub jitter_max: usize,
    pub jitter_min: usize,
    pub suppression_enabled: bool,
    /// Loudness below which a frame is silent.
    pub silence_threshold_rms: u32,
    /// Silent frames before suppression begins.
    pub silence_hangover_frames: u32,
    /// Amplitude of comfort noise.
    pub comfort_noise_level: i16,
    pub noise_suppression: bool,
    /// Whether most packets get a short header.
    pub mini_frames_enabled: bool,
    /// Whether the jitter buffer adapts its target depth.
    pub adaptive_jitter: bool,
}

/// The defaults with a profile and depths of the jitter buffer.
pub open spec fn config_with(
    profile: QualityProfile,
    jitter_target: usize,
    jitter_max: usize,
    jitter_min: usize,
) -> CallConfig {
    CallConfig {
        profile,
        jitter_target,
        jitter_max,
        jitter_min,
        suppression_enabled: true,
        silence_threshold_rms: 100,
        silence_hangover_frames: 5,
        comfort_noise_level: 50,
        noise_suppression: true,
        mini_frames_enabled: true,
        adaptive_jitter: true,
    }
}

fn make_config(
    profile: QualityProfile,
    jitter_target: usize,
    jitter_max: usize,
    jitter_min: usize,
) -> (r: CallConfig)
    ensures
        r == config_with(profile, jitter_target, jitter_max, jitter_min),
{
    CallConfig {
        profile,
        jitter_target,
        jitter_max,
        jitter_min,
        suppression_enabled: true,
        silence_threshold_rms: 100,
        silence_hangover_frames: 5,
        comfort_noise_level: 50,
        noise_suppression: true,
        mini_frames_enabled: true,
        adaptive_jitter: true,
    }
}

impl Default for CallConfig {
    fn default() -> (r: Self)
        ensures
            r == config_with(good_profile(), 10, 250, 3),
    {
        make_config(QualityProfile::good(), 10, 250, 3)
    }
}

impl CallConfig {
    /// A configuration for a profile: the worse the path, the deeper the
    /// jitter buffer.
    pub fn from_profile(profile: QualityProfile) -> (r: Self)
        ensures
            r == if profile == catastrophic_profile() {
                config_with(profile, 20, 500, 8)
            } else if profile == degraded_profile() {
                config_with(profile, 15, 350, 5)
            } else {
                config_with(profile, 10, 250, 3)
            },
            r.profile == profile,
            r.jitter_min < r.jitter_target < r.jitter_max,
            profile.codec is Codec2_1200 || profile.codec is Opus6k || r.jitter_target == 10,
    {
        if profile == QualityProfile::catastrophic() {
            make_config(profile, 20, 500, 8)
        } else if profile == QualityProfile::degraded() {
            make_config(profile, 15, 350, 5)
        } else {
            make_config(profile, 10, 250, 3)
        }
    }
}

/// Which jitter buffer a call gets.
#[derive(Clone, Copy, Debug, PartialEq, Eq, Structural)]
pub enum JitterPlan {
    /// One that adapts its target depth.
    Adaptive { min: usize, max: usize },
    Fixed { target: usize, max: usize, min: usize },
}

impl CallConfig {
    pub fn jitter_plan(&self) -> (r: JitterPlan)
        ensures
            r == if self.adaptive_jitter {
                JitterPlan::Adaptive { min: self.jitter_min, max: self.jitter_max }
            } else {
                JitterPlan::Fixed {
                    target: self.jitter_target,
                    max: self.jitter_max,
                    min: self.jitter_min,
                }
            },
    {
        if self.adaptive_jitter {
            JitterPlan::Adaptive { min: self.jitter_min, max: self.jitter_max }
        } else {
            JitterPlan::Fixed {
                target: self.jitter_target,
                max: self.jitter_max,
                min: self.jitter_min,
            }
        }
    }
}

// ---------------------------------------------------------------------------
// Quality adaptation
// ---------------------------------------------------------------------------

/// Reports in a row that it takes to switch.
pub const HYSTERESIS_COUNT: u32 = 3;

/// Reports that are remembered.
pub const ADAPTER_WINDOW: usize = 10;

/// The profile for the path that a report describes: more than 15% loss or
/// 200 ms is catastrophic, more than 5% or 100 ms is degraded.
pub open spec fn profile_for(report: QualityReport) -> QualityProfile {
    if report.loss_pct * 100 > 15 * 255 || report.rtt_4ms * 4 > 200 {
        catastrophic_profile()
    } else if report.loss_pct * 100 > 5 * 255 || report.rtt_4ms * 4 > 100 {
        degraded_profile()
    } else {
        good_profile()
    }
}

/// What the adapter counts: the profile that the last reports gave, and how
/// many gave it, up to three. A recommendation to switch starts the count
/// again, as does a match with the current profile.
pub struct Pending {
    pub profile: Option<QualityProfile>,
    pub count: int,
}

/// Nothing counted.
pub open spec fn nothing_pending() -> Pending {
    Pending { profile: None, count: 0 }
}

/// The count after one more report.
pub open spec fn noted(p: Pending, report: QualityReport) -> Pending {
    let q = profile_for(report);
    Pending {
        profile: Some(q),
        count: if p.profile != Some(q) {
            1
        } else if p.count < 3 {
            p.count + 1
        } else {
            3
        },
    }
}

/// What is recommended where the newest report gives `recommended` and
/// `current` is in use, and the count after that.
pub open spec fn adapt(p: Pending, recommended: QualityProfile, current: QualityProfile) -> (
    Pending,
    Option<QualityProfile>,
) {
    if recommended == current {
        (nothing_pending(), None)
    } else if p.profile == Some(recommended) && p.count >= 3 {
        (nothing_pending(), Some(recommended))
    } else {
        (p, None)
    }
}

/// The last `p.count` of `reports` gave `p.profile`.
pub open spec fn tracks(p: Pending, reports: Seq<QualityReport>) -> bool {
    &&& 0 <= p.count <= 3
    &&& p.count <= reports.len()
    &&& p.count == 0 <==> p.profile is None
    &&& forall|i: int|
        reports.len() - p.count <= i < reports.len() ==> Some(
            profile_for(#[trigger] reports[i]),
        ) == p.profile
}

/// The last three of `reports` gave `q`.
pub open spec fn three_reports(reports: Seq<QualityReport>, q: QualityProfile) -> bool {
    let n = reports.len();
    &&& n >= 3
    &&& profile_for(reports[n - 1]) == q
    &&& profile_for(reports[n - 2]) == q
    &&& profile_for(reports[n - 3]) == q
}

/// A switch is only ever recommended to a profile that the last three reports
/// all gave, and that is not the current one. The count goes by reports:
/// asking again without a report adds nothing to it.
pub proof fn lemma_hysteresis(
    p: Pending,
    reports: Seq<QualityReport>,
    report: QualityReport,
    current: QualityProfile,
)
    requires
        tracks(p, reports),
    ensures
        tracks(noted(p, report), reports.push(report)),
        reports.len() > 0 ==> {
            let (after, switch) = adapt(p, profile_for(reports.last()), current);
            &&& tracks(after, reports)
            &&& after.count <= p.count
            &&& switch matches Some(q) ==> three_reports(reports, q) && q != current
        },
{
    let all = reports.push(report);
    let after = noted(p, report);
    assert forall|i: int| all.len() - after.count <= i < all.len() implies Some(
        profile_for(#[trigger] all[i]),
    ) == after.profile by {
        if i < reports.len() {
            assert(all[i] == reports[i]);
        }
    }
}

/// Three reports in a row against the current profile make a switch, whatever
/// was counted before.
pub proof fn lemma_three_in_a_row(
    p: Pending,
    first: QualityReport,
    second: QualityReport,
    third: QualityReport,
    current: QualityProfile,
)
    requires
        0 <= p.count <= 3,
        p.count == 0 <==> p.profile is None,
        profile_for(first) == profile_for(third),
        profile_for(second) == profile_for(third),
        profile_for(third) != current,
    ensures
        adapt(noted(noted(noted(p, first), second), third), profile_for(third), current) == (
            nothing_pending(),
            Some(profile_for(third)),
        ),
{
}

/// The count starts again whenever a switch is recommended and whenever the
/// newest report agrees with the profile in use; without either it goes on.
pub proof fn lemma_count_starts_again(
    p: Pending,
    recommended: QualityProfile,
    current: QualityProfile,
)
    ensures
        ({
            let (after, switch) = adapt(p, recommended, current);
            &&& recommended == current ==> switch is None && after.count == 0
                && after.profile is None
            &&& switch is Some ==> after.count == 0 && after.profile is None
            &&& switch matches Some(q) ==> q == recommended
            &&& recommended != current && switch is None ==> after == p
        }),
{
}

/// The reports that are remembered after one more.
pub open spec fn remembered(reports: Seq<QualityReport>, report: QualityReport) -> Seq<
    QualityReport,
> {
    if reports.len() >= 10 {
        reports.skip(1).push(report)
    } else {
        reports.push(report)
    }
}

/// Of all reports the last ten are remembered, in order.
pub proof fn lemma_last_ten_remembered(all: Seq<QualityReport>, report: QualityReport)
    ensures
        ({
            let last = |s: Seq<QualityReport>|
                if s.len() > 10 {
                    s.skip(s.len() - 10)
                } else {
                    s
                };
            remembered(last(all), report) == last(all.push(report))
        }),
{
    if all.len() >= 10 {
        let kept = all.skip(all.len() - 10);
        assert(kept.skip(1).push(report) =~= all.push(report).skip(all.len() + 1 - 10));
        if all.len() == 10 {
            assert(kept =~= all);
        }
    }
}

/// How bad the path is that a recommended profile is meant for.
pub open spec fn path_rank(q: QualityProfile) -> int {
    if q.codec is Opus24k {
        0
    } else if q.codec is Opus6k {
        1
    } else {
        2
    }
}

/// A path with at least as much loss and at least as long a round trip never
/// gets a better profile.
pub proof fn lemma_worse_path_never_better(better: QualityReport, worse: QualityReport)
    requires
        better.loss_pct <= worse.loss_pct,
        better.rtt_4ms <= worse.rtt_4ms,
    ensures
        path_rank(profile_for(better)) <= path_rank(profile_for(worse)),
{
}

/// Loss and round-trip time each decide on their own: a loss above 15% is
/// catastrophic whatever the round trip, a round trip above 200 ms is
/// whatever the loss, and above 5% or 100 ms no path is good. A path within
/// both bounds is no worse than they say. Nothing else in a report counts.
pub proof fn lemma_each_bound_decides(report: QualityReport, other: QualityReport)
    ensures
        report.loss_pct * 20 > 3 * 255 ==> profile_for(report) == catastrophic_profile(),
        report.rtt_4ms > 50 ==> profile_for(report) == catastrophic_profile(),
        report.loss_pct * 20 <= 3 * 255 && report.rtt_4ms <= 50 ==> path_rank(profile_for(report))
            <= 1,
        report.loss_pct * 20 > 255 ==> path_rank(profile_for(report)) >= 1,
        report.rtt_4ms > 25 ==> path_rank(profile_for(report)) >= 1,
        report.loss_pct * 20 <= 255 && report.rtt_4ms <= 25 ==> profile_for(report)
            == good_profile(),
        path_rank(profile_for(report)) == 1 ==> profile_for(report) == degraded_profile(),
        report.loss_pct == other.loss_pct && report.rtt_4ms == other.rtt_4ms ==> profile_for(report)
            == profile_for(other),
{
}

/// Follows a relay's reports and recommends profiles.
pub struct QualityAdapter {
    window: VecDeque<QualityReport>,
    consecutive_same: u32,
    pending_profile: Option<QualityProfile>,
}

impl QualityAdapter {
    /// The last reports, the newest last.
    pub closed spec fn reports(&self) -> Seq<QualityReport> {
        self.window@
    }

    pub closed spec fn pending(&self) -> Pending {
        Pending { profile: self.pending_profile, count: self.consecutive_same as int }
    }

    pub closed spec fn wf(&self) -> bool {
        &&& self.window@.len() <= 10
        &&& tracks(self.pending(), self.window@)
    }

    /// The profile for the newest report.
    pub open spec fn recommendation(&self) -> QualityProfile {
        if self.reports().len() > 0 {
            profile_for(self.reports().last())
        } else {
            good_profile()
        }
    }

    pub fn new() -> (r: Self)
        ensures
            r.wf(),
            r.reports() == Seq::<QualityReport>::empty(),
            r.pending() == nothing_pending(),
    {
        QualityAdapter { window: VecDeque::new(), consecutive_same: 0, pending_profile: None }
    }

    /// Records a report; only the last ones are remembered.
    pub fn ingest(&mut self, report: &QualityReport)
        requires
            old(self).wf(),
        ensures
            final(self).wf(),
            final(self).reports() == remembered(old(self).reports(), *report),
            final(self).pending() == noted(old(self).pending(), *report),
    {
        if self.window.len() >= ADAPTER_WINDOW {
            self.window.pop_front();
            assert(self.window@ =~= old(self).window@.skip(1));
            assert forall|i: int|
                self.window@.len() - self.consecutive_same <= i < self.window@.len() implies Some(
                profile_for(#[trigger] self.window@[i]),
            ) == self.pending_profile by {
                assert(self.window@[i] == old(self).window@[i + 1]);
            }
            assert(tracks(self.pending(), self.window@));
        }
        proof {
            lemma_hysteresis(self.pending(), self.window@, *report, good_profile());
        }
        self.window.push_back(*report);
        let given = Self::classify(report);
        let repeated = match self.pending_profile {
            Some(pending) => pending == given,
            None => false,
        };
        if !repeated {
            self.pending_profile = Some(given);
            self.consecutive_same = 1;
        } else if self.consecutive_same < HYSTERESIS_COUNT {
            self.consecutive_same = self.consecutive_same + 1;
        }
    }

    /// The profile for the path that a report describes.
    pub fn classify(report: &QualityReport) -> (r: QualityProfile)
        ensures
            r == profile_for(*report),
            report.loss_pct * 20 > 3 * 255 || report.rtt_4ms > 50 <==> path_rank(r) == 2,
            report.loss_pct * 20 <= 255 && report.rtt_4ms <= 25 <==> path_rank(r) == 0,
    {
        let loss: u32 = report.loss_pct as u32 * 100;
        let rtt: u32 = report.rtt_4ms as u32 * 4;
        if loss > 15 * 255 || rtt > 200 {
            QualityProfile::catastrophic()
        } else if loss > 5 * 255 || rtt > 100 {
            QualityProfile::degraded()
        } else {
            QualityProfile::good()
        }
    }

    /// The profile for the newest report.
    pub fn recommended_profile(&self) -> (r: QualityProfile)
        ensures
            r == self.recommendation(),
    {
        let n: usize = self.window.len();
        if n > 0 {
            Self::classify(&self.window[n - 1])
        } else {
            QualityProfile::good()
        }
    }

    /// Whether to switch away from `current`, and to what: to the profile that
    /// the last three reports gave.
    pub fn should_switch(&mut self, current: &QualityProfile) -> (r: Option<QualityProfile>)
        requires
            old(self).wf(),
        ensures
            final(self).wf(),
            final(self).reports() == old(self).reports(),
            (final(self).pending(), r) == adapt(
                old(self).pending(),
                old(self).recommendation(),
                *current,
            ),
            r matches Some(q) ==> three_reports(old(self).reports(), q) && q != *current,
    {
        let recommended = self.recommended_profile();
        if recommended == *current {
            self.consecutive_same = 0;
            self.pending_profile = None;
            return None;
        }
        let repeated = match self.pending_profile {
            Some(pending) => pending == recommended,
            None => false,
        };
        if repeated && self.consecutive_same >= HYSTERESIS_COUNT {
            proof {
                let n = self.window@.len();
                assert(Some(profile_for(self.window@[n - 2])) == self.pending_profile);
                assert(Some(profile_for(self.window@[n - 3])) == self.pending_profile);
            }
            self.consecutive_same = 0;
            self.pending_profile = None;
            Some(recommended)
        } else {
            None
        }
    }
}

// ---------------------------------------------------------------------------
// Sending
// ---------------------------------------------------------------------------

/// The sending side of a call: the counters that packets are numbered from.
#[derive(Clone, Copy, Debug, PartialEq, Eq, Structural)]
pub struct CallEncoder {
    pub profile: QualityProfile,
    pub seq: u16,
    /// FEC block, and the frame in it.
    pub block_id: u8,
    pub frame_in_block: u8,
    pub timestamp_ms: u32,
    pub suppression_enabled: bool,
    pub frames_suppressed: u64,
    /// Silent frames in a row.
    pub cn_counter: u32,
    pub cn_level: i16,
    pub mini_frames_enabled: bool,
}

/// How a packet's header is written.
#[derive(Clone, Copy, Debug, PartialEq, Eq, Structural)]
pub enum HeaderForm {
    /// Mostly as the difference to the last full header.
    Compact,
    Full,
}

/// What codec and FEC made of one frame.
pub struct FrameInput {
    /// The silence detector's answer.
    pub silent: bool,
    /// The encoded frame.
    pub encoded: Result<Vec<u8>, String>,
    /// The profile's FEC ratio in the form of the header.
    pub fec_ratio_encoded: u8,
    /// Whether the FEC encoder took the frame.
    pub symbol_added: Result<(), String>,
    /// The repair symbols of the block, if it is full and they could be made.
    pub repairs: Option<Vec<(u8, Vec<u8>)>>,
}

pub open spec fn next16(x: u16, n: int) -> u16 {
    ((x + n) % 65536) as u16
}

pub open spec fn next32(x: u32, n: int) -> u32 {
    ((x + n) % 0x1_0000_0000) as u32
}

pub open spec fn next8(x: u8) -> u8 {
    ((x + 1) % 256) as u8
}

/// A packet header with the fields that a sender sets.
pub open spec fn header_with(
    codec_id: CodecId,
    is_repair: bool,
    fec_ratio_encoded: u8,
    seq: u16,
    timestamp: u32,
    fec_block: u8,
    fec_symbol: u8,
) -> MediaHeader {
    MediaHeader {
        version: 0,
        is_repair,
        codec_id,
        has_quality_report: false,
        fec_ratio_encoded,
        seq,
        timestamp,
        fec_block,
        fec_symbol,
        reserved: 0,
        csrc_count: 0,
    }
}

pub fn make_header(
    codec_id: CodecId,
    is_repair: bool,
    fec_ratio_encoded: u8,
    seq: u16,
    timestamp: u32,
    fec_block: u8,
    fec_symbol: u8,
) -> (r: MediaHeader)
    ensures
        r == header_with(
            codec_id,
            is_repair,
            fec_ratio_encoded,
            seq,
            timestamp,
            fec_block,
            fec_symbol,
        ),
{
    MediaHeader {
        version: 0,
        is_repair,
        codec_id,
        has_quality_report: false,
        fec_ratio_encoded,
        seq,
        timestamp,
        fec_block,
        fec_symbol,
        reserved: 0,
        csrc_count: 0,
    }
}

pub open spec fn plain_packet(header: MediaHeader, payload: Seq<u8>) -> PacketView {
    PacketView { header, payload, quality_report: None }
}

pub open spec fn repairs_view(v: Seq<(u8, Vec<u8>)>) -> Seq<(u8, Seq<u8>)> {
    v.map_values(|r: (u8, Vec<u8>)| (r.0, r.1@))
}

/// The repair packets of a block, numbered on from `seq`.
pub open spec fn repair_packets_from(
    codec: CodecId,
    fec_ratio_encoded: u8,
    seq: u16,
    timestamp: u32,
    block: u8,
    repairs: Seq<(u8, Seq<u8>)>,
) -> Seq<PacketView> {
    Seq::new(
        repairs.len(),
        |i: int|
            plain_packet(
                header_with(
                    codec,
                    true,
                    fec_ratio_encoded,
                    next16(seq, i),
                    timestamp,
                    block,
                    repairs[i].0,
                ),
                repairs[i].1,
            ),
    )
}

/// A sequence number some packets on.
pub fn add_seq(seq: u16, count: usize) -> (r: u16)
    ensures
        r == next16(seq, count as int),
{
    seq.wrapping_add((count % 65536) as u16)
}

/// Makes the repair packets of a block.
pub fn build_repairs(
    codec: CodecId,
    fec_ratio_encoded: u8,
    seq: u16,
    timestamp: u32,
    block: u8,
    repairs: Vec<(u8, Vec<u8>)>,
) -> (r: Vec<MediaPacket>)
    ensures
        packets_view(r@) == repair_packets_from(
            codec,
            fec_ratio_encoded,
            seq,
            timestamp,
            block,
            repairs_view(repairs@),
        ),
{
    let ghost all = repair_packets_from(
        codec,
        fec_ratio_encoded,
        seq,
        timestamp,
        block,
        repairs_view(repairs@),
    );
    let mut out: Vec<MediaPacket> = Vec::new();
    let mut next: u16 = seq;
    let mut rest = repairs;
    let ghost mut done: int = 0;
    assert(packets_view(out@) =~= all.take(0));
    while rest.len() > 0
        invariant
            0 <= done <= all.len(),
            rest@.len() == all.len() - done,
            all == repair_packets_from(
                codec,
                fec_ratio_encoded,
                seq,
                timestamp,
                block,
                repairs_view(repairs@),
            ),
            all.len() == repairs@.len(),
            forall|k: int| 0 <= k < rest@.len() ==> #[trigger] rest@[k] == repairs@[done + k],
            packets_view(out@) == all.take(done),
            next == next16(seq, done),
        decreases rest.len(),
    {
        let ghost rest_before = rest@;
        let ghost out_before = packets_view(out@);
        let (sym_idx, data) = rest.remove(0);
        assert((sym_idx, data) == rest_before[0]);
        let packet = MediaPacket {
            header: make_header(codec, true, fec_ratio_encoded, next, timestamp, block, sym_idx),
            payload: data,
            quality_report: None,
        };
        proof {
            assert(rest_before[0] == repairs@[done + 0]);
            assert(repairs_view(repairs@)[done] == (sym_idx, data@));
            assert(packet@ == all[done]);
            assert forall|k: int| 0 <= k < rest@.len() implies #[trigger] rest@[k] == repairs@[done
                + 1 + k] by {
                assert(rest@[k] == rest_before[k + 1]);
            }
        }
        out.push(packet);
        next = next.wrapping_add(1);
        proof {
            assert(packets_view(out@) =~= out_before.push(all[done]));
            assert(packets_view(out@) =~= all.take(done + 1));
            done = done + 1;
        }
    }
    assert(all.take(done) =~= all);
    out
}

impl CallEncoder {
    /// The frame number is one of the block.
    pub open spec fn wf(&self) -> bool {
        self.frame_in_block == 0 || self.frame_in_block < self.profile.frames_per_block
    }

    /// The source packet of a frame. Opus packets carry no FEC fields: Opus
    /// has its own redundancy.
    pub open spec fn source_packet(self, payload: Seq<u8>, fec_ratio_encoded: u8) -> PacketView {
        let h = if self.profile.codec.opus() {
            header_with(self.profile.codec, false, 0, self.seq, self.timestamp_ms, 0, 0)
        } else {
            header_with(
                self.profile.codec,
                false,
                fec_ratio_encoded,
                self.seq,
                self.timestamp_ms,
                self.block_id,
                self.frame_in_block,
            )
        };
        plain_packet(h, payload)
    }

    /// The comfort noise packet after a silent frame.
    pub open spec fn noise_packet(self) -> PacketView {
        plain_packet(
            header_with(
                CodecId::ComfortNoise,
                false,
                0,
                self.seq,
                self.timestamp_ms,
                self.block_id,
                0,
            ),
            seq![(self.cn_level % 256) as u8],
        )
    }

    /// The repair packets of a block, numbered on from `self.seq`.
    pub open spec fn repair_packets(self, repairs: Seq<(u8, Seq<u8>)>, fec_ratio_encoded: u8) -> Seq<
        PacketView,
    > {
        repair_packets_from(
            self.profile.codec,
            fec_ratio_encoded,
            self.seq,
            self.timestamp_ms,
            self.block_id,
            repairs,
        )
    }

    /// The counters after a silent frame, before a packet of it.
    pub open spec fn after_silence(self) -> CallEncoder {
        CallEncoder {
            frames_suppressed: ((self.frames_suppressed + 1) % 0x1_0000_0000_0000_0000) as u64,
            cn_counter: next32(self.cn_counter, 1),
            timestamp_ms: next32(self.timestamp_ms, self.profile.frame_duration_ms as int),
            ..self
        }
    }

    /// The counters after a source packet.
    pub open spec fn after_source(self) -> CallEncoder {
        CallEncoder {
            cn_counter: 0,
            seq: next16(self.seq, 1),
            timestamp_ms: next32(self.timestamp_ms, self.profile.frame_duration_ms as int),
            ..self
        }
    }

    /// The source packet of the next frame completes a block.
    pub open spec fn completes_block(self) -> bool {
        !self.profile.codec.opus() && self.frame_in_block + 1 >= self.profile.frames_per_block
    }

    /// What becomes of a frame: the state after it, and the packets to send.
    pub open spec fn encoded(self, f: FrameInput) -> (
        CallEncoder,
        Result<Seq<PacketView>, Seq<char>>,
    ) {
        if self.suppression_enabled && f.silent {
            let s = self.after_silence();
            if s.cn_counter % 10 == 0 {
                (CallEncoder { seq: next16(s.seq, 1), ..s }, Ok(seq![s.noise_packet()]))
            } else {
                (s, Ok(Seq::empty()))
            }
        } else {
            match f.encoded {
                Err(e) => (CallEncoder { cn_counter: 0, ..self }, Err(e@)),
                Ok(payload) => {
                    let source = self.source_packet(payload@, f.fec_ratio_encoded);
                    let s = self.after_source();
                    if self.profile.codec.opus() {
                        (s, Ok(seq![source]))
                    } else {
                        match f.symbol_added {
                            Err(e) => (s, Err(e@)),
                            Ok(_) => if !self.completes_block() {
                                (
                                    CallEncoder {
                                        frame_in_block: (s.frame_in_block + 1) as u8,
                                        ..s
                                    },
                                    Ok(seq![source]),
                                )
                            } else {
                                let repairs = match f.repairs {
                                    Some(v) => s.repair_packets(
                                        repairs_view(v@),
                                        f.fec_ratio_encoded,
                                    ),
                                    None => Seq::empty(),
                                };
                                (
                                    CallEncoder {
                                        seq: next16(s.seq, repairs.len() as int),
                                        block_id: next8(s.block_id),
                                        frame_in_block: 0,
                                        ..s
                                    },
                                    Ok(seq![source] + repairs),
                                )
                            },
                        }
                    }
                },
            }
        }
    }

    pub fn new(config: &CallConfig) -> (r: Self)
        ensures
            r.wf(),
            r == (CallEncoder {
                profile: config.profile,
                seq: 0,
                block_id: 0,
                frame_in_block: 0,
                timestamp_ms: 0,
                suppression_enabled: config.suppression_enabled,
                frames_suppressed: 0,
                cn_counter: 0,
                cn_level: config.comfort_noise_level,
                mini_frames_enabled: config.mini_frames_enabled,
            }),
            r == fresh_encoder(*config),
    {
        CallEncoder {
            profile: config.profile,
            seq: 0,
            block_id: 0,
            frame_in_block: 0,
            timestamp_ms: 0,
            suppression_enabled: config.suppression_enabled,
            frames_suppressed: 0,
            cn_counter: 0,
            cn_level: config.comfort_noise_level,
            mini_frames_enabled: config.mini_frames_enabled,
        }
    }

    /// Whether the next frame completes a block, so that repair symbols are
    /// to be made after it.
    pub fn is_block_completed(&self) -> (r: bool)
        requires
            self.wf(),
        ensures
            r == self.completes_block(),
    {
        !self.profile.codec.is_opus() && self.frame_in_block + 1 >= self.profile.frames_per_block
    }

    fn suppress(&mut self) -> (r: Vec<MediaPacket>)
        requires
            old(self).wf(),
        ensures
            final(self).wf(),
            ({
                let s = old(self).after_silence();
                if s.cn_counter % 10 == 0 {
                    *final(self) == (CallEncoder { seq: next16(s.seq, 1), ..s }) && packets_view(r@)
                        == seq![s.noise_packet()]
                } else {
                    *final(self) == s && packets_view(r@) == Seq::<PacketView>::empty()
                }
            }),
    {
        self.frames_suppressed = self.frames_suppressed.wrapping_add(1);
        self.cn_counter = self.cn_counter.wrapping_add(1);
        self.timestamp_ms = self.timestamp_ms.wrapping_add(self.profile.frame_duration_ms as u32);
        let mut out: Vec<MediaPacket> = Vec::new();
        if self.cn_counter % 10 == 0 {
            let level: u8 = low_byte(self.cn_level);
            let payload: Vec<u8> = vec![level];
            assert(payload@ =~= seq![level]);
            out.push(
                MediaPacket {
                    header: make_header(
                        CodecId::ComfortNoise,
                        false,
                        0,
                        self.seq,
                        self.timestamp_ms,
                        self.block_id,
                        0,
                    ),
                    payload,
                    quality_report: None,
                },
            );
            let ghost s = old(self).after_silence();
            assert(packets_view(out@) =~= seq![s.noise_packet()]);
            self.seq = self.seq.wrapping_add(1);
        } else {
            assert(packets_view(out@) =~= Seq::<PacketView>::empty());
        }
        out
    }

    /// Makes packets of a frame, from what codec and FEC made of it.
    pub fn encode_frame(&mut self, frame: FrameInput) -> (r: Result<Vec<MediaPacket>, String>)
        requires
            old(self).wf(),
        ensures
            final(self).wf(),
            *final(self) == old(self).encoded(frame).0,
            match r {
                Ok(v) => old(self).encoded(frame).1 == Ok::<Seq<PacketView>, Seq<char>>(
                    packets_view(v@),
                ),
                Err(e) => old(self).encoded(frame).1 == Err::<Seq<PacketView>, Seq<char>>(e@),
            },
    {
        let ghost f = frame;
        if self.suppression_enabled && frame.silent {
            return Ok(self.suppress());
        }
        self.cn_counter = 0;
        let payload = match frame.encoded {
            Ok(p) => p,
            Err(e) => {
                return Err(e);
            },
        };
        let is_opus = self.profile.codec.is_opus();
        let header = if is_opus {
            make_header(self.profile.codec, false, 0, self.seq, self.timestamp_ms, 0, 0)
        } else {
            make_header(
                self.profile.codec,
                false,
                frame.fec_ratio_encoded,
                self.seq,
                self.timestamp_ms,
                self.block_id,
                self.frame_in_block,
            )
        };
        let mut out: Vec<MediaPacket> = Vec::new();
        out.push(MediaPacket { header, payload, quality_report: None });
        let ghost source = old(self).source_packet(payload@, frame.fec_ratio_encoded);
        assert(packets_view(out@) =~= seq![source]);
        self.seq = self.seq.wrapping_add(1);
        self.timestamp_ms = self.timestamp_ms.wrapping_add(self.profile.frame_duration_ms as u32);
        let ghost s = old(self).after_source();
        assert(*self == s);
        if is_opus {
            return Ok(out);
        }
        if let Err(e) = frame.symbol_added {
            return Err(e);
        }
        self.frame_in_block = self.frame_in_block + 1;
        if self.frame_in_block >= self.profile.frames_per_block {
            if let Some(repairs) = frame.repairs {
                let count: usize = repairs.len();
                let mut more = build_repairs(
                    self.profile.codec,
                    frame.fec_ratio_encoded,
                    self.seq,
                    self.timestamp_ms,
                    self.block_id,
                    repairs,
                );
                let ghost before = out@;
                let ghost added = more@;
                out.append(&mut more);
                assert(packets_view(out@) =~= packets_view(before) + packets_view(added));
                self.seq = add_seq(self.seq, count);
            } else {
                assert(seq![source] + Seq::<PacketView>::empty() =~= seq![source]);
            }
            self.block_id = self.block_id.wrapping_add(1);
            self.frame_in_block = 0;
        }
        Ok(out)
    }

    /// The form of header that a packet is sent with.
    pub fn serialize_compact(&self) -> (r: HeaderForm)
        ensures
            r == if self.mini_frames_enabled {
                HeaderForm::Compact
            } else {
                HeaderForm::Full
            },
    {
        if self.mini_frames_enabled {
            HeaderForm::Compact
        } else {
            HeaderForm::Full
        }
    }

    /// Changes the profile; a block that was begun is given up.
    pub fn set_profile(&mut self, profile: QualityProfile)
        ensures
            final(self).wf(),
            *final(self) == (CallEncoder { profile, frame_in_block: 0, ..*old(self) }),
    {
        self.profile = profile;
        self.frame_in_block = 0;
    }
}

/// The low byte of a 16-bit number.
fn low_byte(x: i16) -> (r: u8)
    ensures
        r == (x % 256) as u8,
{
    let w: i32 = (x as i32 + 65536) % 256;
    w as u8
}

/// Packets are numbered without gaps: each packet of a frame has the next
/// number, and the next frame goes on from there.
pub proof fn lemma_numbers_consecutive(e: CallEncoder, f: FrameInput)
    ensures
        match e.encoded(f).1 {
            Ok(packets) => {
                &&& forall|i: int|
                    0 <= i < packets.len() ==> (#[trigger] packets[i]).header.seq == next16(e.seq, i)
                &&& e.encoded(f).0.seq == next16(e.seq, packets.len() as int)
            },
            Err(_) => true,
        },
{
    if let Ok(packets) = e.encoded(f).1 {
        assert forall|i: int| 0 <= i < packets.len() implies (#[trigger] packets[i]).header.seq
            == next16(e.seq, i) by {}
    }
}

/// With an Opus profile no repair packet is ever sent and the FEC fields of
/// voice packets are zero.
pub proof fn lemma_opus_has_no_repair(e: CallEncoder, f: FrameInput, i: int)
    requires
        e.profile.codec.opus(),
        e.encoded(f).1 matches Ok(packets) && 0 <= i < packets.len(),
    ensures
        !e.encoded(f).1->Ok_0[i].header.is_repair,
        e.encoded(f).1->Ok_0[i].header.codec_id != CodecId::ComfortNoise
            ==> e.encoded(f).1->Ok_0[i].header.fec_block == 0
            && e.encoded(f).1->Ok_0[i].header.fec_symbol == 0
            && e.encoded(f).1->Ok_0[i].header.fec_ratio_encoded == 0,
{
}

/// Time goes on by one frame with every frame that does not fail to encode,
/// silent or not.
pub proof fn lemma_timestamp_advances(e: CallEncoder, f: FrameInput)
    requires
        f.silent && e.suppression_enabled || f.encoded is Ok,
    ensures
        e.encoded(f).0.timestamp_ms == next32(e.timestamp_ms, e.profile.frame_duration_ms as int),
{
}

/// The sender after `n` silent frames, and the packets that it sent for them.
pub open spec fn silent_run(e: CallEncoder, f: FrameInput, n: nat) -> (CallEncoder, Seq<PacketView>)
    decreases n,
{
    if n == 0 {
        (e, Seq::empty())
    } else {
        let (before, sent) = silent_run(e, f, (n - 1) as nat);
        let (after, packets) = before.encoded(f);
        (
            after,
            match packets {
                Ok(p) => sent + p,
                Err(_) => sent,
            },
        )
    }
}

/// Of a run of silent frames every tenth one makes a packet, and no other
/// does.
pub proof fn lemma_noise_every_tenth(e: CallEncoder, f: FrameInput, n: nat)
    requires
        e.suppression_enabled && f.silent,
        e.cn_counter == 0,
        n < 0x1_0000_0000,
    ensures
        silent_run(e, f, n).0.cn_counter == n,
        silent_run(e, f, n).0.suppression_enabled,
        silent_run(e, f, n).1.len() == n / 10,
        forall|i: int|
            0 <= i < silent_run(e, f, n).1.len() ==> (#[trigger] silent_run(
                e,
                f,
                n,
            ).1[i]).header.codec_id == CodecId::ComfortNoise,
    decreases n,
{
    if n > 0 {
        lemma_noise_every_tenth(e, f, (n - 1) as nat);
    }
}

/// A silent frame makes at most one packet, of comfort noise: it carries the
/// low byte of the noise level and the time after the frame. The frame is
/// counted as suppressed, and the block that was begun stays as it is.
pub proof fn lemma_silent_frame(e: CallEncoder, f: FrameInput)
    requires
        e.suppression_enabled && f.silent,
    ensures
        ({
            let after = e.encoded(f).0;
            let packets = e.encoded(f).1->Ok_0;
            &&& e.encoded(f).1 is Ok
            &&& packets.len() <= 1
            &&& packets.len() == 1 <==> after.cn_counter % 10 == 0
            &&& packets.len() == 1 ==> {
                let h = packets[0].header;
                &&& h.codec_id is ComfortNoise && !h.is_repair
                &&& h.seq == e.seq
                &&& h.timestamp == after.timestamp_ms
                &&& h.fec_block == e.block_id && h.fec_symbol == 0 && h.fec_ratio_encoded == 0
                &&& packets[0].payload.len() == 1
                &&& (packets[0].payload[0] - e.cn_level) % 256 == 0
            }
            &&& (after.frames_suppressed - e.frames_suppressed - 1) % 0x1_0000_0000_0000_0000 == 0
            &&& (after.timestamp_ms - e.timestamp_ms - e.profile.frame_duration_ms)
                % 0x1_0000_0000 == 0
            &&& (after.cn_counter - e.cn_counter - 1) % 0x1_0000_0000 == 0
            &&& after.block_id == e.block_id && after.frame_in_block == e.frame_in_block
            &&& after.profile == e.profile && after.suppression_enabled
        }),
{
}

/// A voice frame under a codec with FEC is counted: its block and its place
/// in the block go on by one, and the place stays within the block.
pub proof fn lemma_block_position(e: CallEncoder, f: FrameInput)
    requires
        e.wf(),
        0 < e.profile.frames_per_block,
        !e.profile.codec.opus(),
        !(e.suppression_enabled && f.silent),
        f.encoded is Ok && f.symbol_added is Ok,
    ensures
        ({
            let after = e.encoded(f).0;
            let per = e.profile.frames_per_block as int;
            &&& after.frame_in_block < per
            &&& after.block_id * per + after.frame_in_block == (e.block_id * per + e.frame_in_block
                + 1) % (256 * per)
        }),
{
    let after = e.encoded(f).0;
    let per = e.profile.frames_per_block as int;
    let b = e.block_id as int;
    let k = e.frame_in_block as int;
    if k + 1 < per {
        assert((b * per + k + 1) % (256 * per) == b * per + k + 1) by (nonlinear_arith)
            requires
                0 <= b < 256,
                0 <= k,
                k + 1 < per,
        ;
    } else if b < 255 {
        assert((b * per + k + 1) % (256 * per) == (b + 1) * per) by (nonlinear_arith)
            requires
                0 <= b < 255,
                k + 1 == per,
                0 < per,
        ;
    } else {
        assert((b * per + k + 1) % (256 * per) == 0) by (nonlinear_arith)
            requires
                b == 255,
                k + 1 == per,
                0 < per,
        ;
        assert(0 * per == 0) by (nonlinear_arith);
    }
}

/// What a frame that is neither suppressed nor lost becomes: first its own
/// packet, with the encoded frame, the codec of the profile and the time of
/// the frame; then, where the block is full, one packet for each repair
/// symbol. A repair packet names the block of the source packet before it and
/// the symbol that it carries, and is stamped with the time after the frame.
pub proof fn lemma_repairs_go_with_their_block(e: CallEncoder, f: FrameInput)
    requires
        !(e.suppression_enabled && f.silent),
        e.encoded(f).1 is Ok,
    ensures
        ({
            let packets = e.encoded(f).1->Ok_0;
            let source = packets[0].header;
            let fec = !(e.profile.codec.opus());
            let full = fec && e.frame_in_block + 1 >= e.profile.frames_per_block;
            &&& packets.len() == 1 + if full && f.repairs is Some {
                f.repairs->0@.len()
            } else {
                0
            }
            &&& f.encoded is Ok && packets[0].payload == f.encoded->Ok_0@
            &&& !source.is_repair
            &&& source.codec_id == e.profile.codec
            &&& source.timestamp == e.timestamp_ms
            &&& fec ==> source.fec_block == e.block_id && source.fec_symbol == e.frame_in_block
                && source.fec_ratio_encoded == f.fec_ratio_encoded
            &&& forall|i: int|
                1 <= i < packets.len() ==> {
                    let h = (#[trigger] packets[i]).header;
                    &&& h.is_repair
                    &&& h.codec_id == source.codec_id
                    &&& h.fec_block == source.fec_block
                    &&& h.fec_ratio_encoded == source.fec_ratio_encoded
                    &&& h.fec_symbol == f.repairs->0@[i - 1].0
                    &&& packets[i].payload == f.repairs->0@[i - 1].1@
                    &&& (h.timestamp - source.timestamp - e.profile.frame_duration_ms)
                        % 0x1_0000_0000 == 0
                }
            &&& forall|i: int|
                0 <= i < packets.len() ==> {
                    let p = #[trigger] packets[i];
                    &&& p.quality_report is None && !p.header.has_quality_report
                    &&& p.header.version == 0 && p.header.reserved == 0 && p.header.csrc_count == 0
                    &&& (p.header.seq - e.seq - i) % 65536 == 0
                }
        }),
{
    let packets = e.encoded(f).1->Ok_0;
    assert forall|i: int| 1 <= i < packets.len() implies {
        let p = #[trigger] packets[i];
        &&& p.header.fec_symbol == f.repairs->0@[i - 1].0
        &&& p.payload == f.repairs->0@[i - 1].1@
        &&& (p.header.seq - e.seq - i) % 65536 == 0
    } by {
        assert(repairs_view(f.repairs->0@)[i - 1] == (
            f.repairs->0@[i - 1].0,
            f.repairs->0@[i - 1].1@,
        ));
    }
}

/// A frame that cannot be encoded leaves no trace but in the count of silent
/// frames. One that FEC does not take has used up its number and its time, but
/// no place in the block.
pub proof fn lemma_failed_frame(e: CallEncoder, f: FrameInput)
    requires
        e.encoded(f).1 is Err,
    ensures
        ({
            let after = e.encoded(f).0;
            let lost = f.encoded is Ok;
            &&& !(e.suppression_enabled && f.silent)
            &&& f.encoded is Err || f.symbol_added is Err && !e.profile.codec.opus()
            &&& (after.seq - e.seq - if lost {
                1int
            } else {
                0int
            }) % 65536 == 0
            &&& (after.timestamp_ms - e.timestamp_ms - if lost {
                e.profile.frame_duration_ms as int
            } else {
                0int
            }) % 0x1_0000_0000 == 0
            &&& after.block_id == e.block_id && after.frame_in_block == e.frame_in_block
            &&& after.cn_counter == 0
            &&& after.frames_suppressed == e.frames_suppressed && after.profile == e.profile
            &&& e.encoded(f).1->Err_0 == if lost {
                f.symbol_added->Err_0@
            } else {
                f.encoded->Err_0@
            }
        }),
{
}

/// The packets for frames one after the other, and the sender after them.
pub open spec fn voice_run(e: CallEncoder, frames: Seq<FrameInput>) -> (
    CallEncoder,
    Seq<Seq<PacketView>>,
)
    decreases frames.len(),
{
    if frames.len() == 0 {
        (e, Seq::empty())
    } else {
        let (before, sent) = voice_run(e, frames.drop_last());
        let (after, packets) = before.encoded(frames.last());
        (
            after,
            sent.push(
                match packets {
                    Ok(p) => p,
                    Err(_) => Seq::empty(),
                },
            ),
        )
    }
}

/// The number of packets for some frames.
pub open spec fn total_packets(sent: Seq<Seq<PacketView>>) -> int
    decreases sent.len(),
{
    if sent.len() == 0 {
        0
    } else {
        total_packets(sent.drop_last()) + sent.last().len()
    }
}

/// A call that sends voice frames only, from its start: the source packet of
/// frame `k` has symbol number `k` modulo the block length, the block number
/// counts the full blocks before it, its time is `k` frame durations, and it
/// is numbered by the packets sent before it.
pub proof fn lemma_place_of_each_frame(config: CallConfig, frames: Seq<FrameInput>, k: int)
    requires
        0 < config.profile.frames_per_block,
        !config.profile.codec.opus(),
        forall|i: int|
            0 <= i < frames.len() ==> !(#[trigger] frames[i]).silent && frames[i].encoded is Ok
                && frames[i].symbol_added is Ok,
        0 <= k < frames.len(),
    ensures
        ({
            let sent = voice_run(fresh_encoder(config), frames).1;
            let per = config.profile.frames_per_block as int;
            let source = sent[k][0].header;
            &&& sent.len() == frames.len()
            &&& sent[k].len() >= 1
            &&& sent[k][0].payload == frames[k].encoded->Ok_0@
            &&& source.fec_symbol == k % per
            &&& source.fec_block == (k / per) % 256
            &&& source.timestamp == (k * config.profile.frame_duration_ms) % 0x1_0000_0000
            &&& source.seq == total_packets(sent.take(k)) % 65536
            &&& sent[k].len() > 1 ==> (k + 1) % per == 0
        }),
    decreases frames.len(),
{
    lemma_voice_run(config, frames);
    let e = fresh_encoder(config);
    let sent = voice_run(e, frames).1;
    let shorter = frames.drop_last();
    lemma_voice_run(config, shorter);
    let before = voice_run(e, shorter);
    if k < shorter.len() {
        lemma_place_of_each_frame(config, shorter, k);
        assert(sent[k] == before.1[k]);
        assert(sent.take(k) =~= before.1.take(k));
        assert(shorter[k] == frames[k]);
    } else {
        assert(sent.take(k) =~= before.1);
        lemma_next_place(k, config.profile.frames_per_block as int);
    }
}

/// The sender at the start of a call.
pub open spec fn fresh_encoder(config: CallConfig) -> CallEncoder {
    CallEncoder {
        profile: config.profile,
        seq: 0,
        block_id: 0,
        frame_in_block: 0,
        timestamp_ms: 0,
        suppression_enabled: config.suppression_enabled,
        frames_suppressed: 0,
        cn_counter: 0,
        cn_level: config.comfort_noise_level,
        mini_frames_enabled: config.mini_frames_enabled,
    }
}

/// Quotient and remainder of the next number.
proof fn lemma_next_place(n: int, per: int)
    requires
        0 <= n,
        0 < per,
    ensures
        n % per + 1 == per ==> (n + 1) % per == 0 && (n + 1) / per == n / per + 1,
        n % per + 1 < per ==> (n + 1) % per == n % per + 1 && (n + 1) / per == n / per,
        0 <= n % per < per,
{
    vstd::arithmetic::div_mod::lemma_fundamental_div_mod(n, per);
    vstd::arithmetic::div_mod::lemma_mod_bound(n, per);
    let q = n / per;
    let r = n % per;
    if r + 1 == per {
        assert(n + 1 == (q + 1) * per + 0) by (nonlinear_arith)
            requires
                n == per * q + r,
                r + 1 == per,
        ;
        vstd::arithmetic::div_mod::lemma_fundamental_div_mod_converse(n + 1, per, q + 1, 0);
    } else {
        assert(n + 1 == q * per + (r + 1)) by (nonlinear_arith)
            requires
                n == per * q + r,
        ;
        vstd::arithmetic::div_mod::lemma_fundamental_div_mod_converse(n + 1, per, q, r + 1);
    }
}

/// The sender after one voice frame.
proof fn lemma_voice_step(e: CallEncoder, f: FrameInput)
    requires
        !e.profile.codec.opus(),
        !f.silent,
        f.encoded is Ok,
        f.symbol_added is Ok,
    ensures
        e.encoded(f).1 is Ok,
        ({
            let after = e.encoded(f).0;
            let packets = e.encoded(f).1->Ok_0;
            &&& after.profile == e.profile
            &&& after.seq == (packets.len() + e.seq) % 65536
            &&& after.timestamp_ms == (e.profile.frame_duration_ms + e.timestamp_ms)
                % 0x1_0000_0000
            &&& if e.frame_in_block + 1 < e.profile.frames_per_block {
                after.frame_in_block == e.frame_in_block + 1 && after.block_id == e.block_id
            } else {
                after.frame_in_block == 0 && after.block_id == (1 + e.block_id) % 256
            }
        }),
{
    lemma_numbers_consecutive(e, f);
}

/// The sender after a run of voice frames.
proof fn lemma_voice_run(config: CallConfig, frames: Seq<FrameInput>)
    requires
        0 < config.profile.frames_per_block,
        !config.profile.codec.opus(),
        forall|i: int|
            0 <= i < frames.len() ==> !(#[trigger] frames[i]).silent && frames[i].encoded is Ok
                && frames[i].symbol_added is Ok,
    ensures
        ({
            let (after, sent) = voice_run(fresh_encoder(config), frames);
            let n = frames.len() as int;
            let per = config.profile.frames_per_block as int;
            &&& sent.len() == n
            &&& total_packets(sent) >= 0
            &&& after.profile == config.profile
            &&& after.frame_in_block == n % per
            &&& after.block_id == (n / per) % 256
            &&& after.timestamp_ms == (n * config.profile.frame_duration_ms) % 0x1_0000_0000
            &&& after.seq == total_packets(sent) % 65536
        }),
    decreases frames.len(),
{
    let e = fresh_encoder(config);
    let per = config.profile.frames_per_block as int;
    let ms = config.profile.frame_duration_ms as int;
    if frames.len() == 0 {
        assert(0 * ms == 0) by (nonlinear_arith);
        vstd::arithmetic::div_mod::lemma_small_mod(0, per as nat);
        vstd::arithmetic::div_mod::lemma_basic_div(0, per);
    } else {
        let shorter = frames.drop_last();
        assert forall|i: int| 0 <= i < shorter.len() implies !(#[trigger] shorter[i]).silent
            && shorter[i].encoded is Ok && shorter[i].symbol_added is Ok by {
            assert(shorter[i] == frames[i]);
        }
        lemma_voice_run(config, shorter);
        let (before, sent) = voice_run(e, shorter);
        let n = shorter.len() as int;
        let all = voice_run(e, frames).1;
        lemma_voice_step(before, frames.last());
        assert(all.drop_last() =~= sent);
        assert(all.last() == before.encoded(frames.last()).1->Ok_0);
        lemma_next_place(n, per);
        vstd::arithmetic::div_mod::lemma_add_mod_noop_right(ms, n * ms, 0x1_0000_0000);
        vstd::arithmetic::div_mod::lemma_add_mod_noop_right(
            all.last().len() as int,
            total_packets(sent),
            65536,
        );
        vstd::arithmetic::div_mod::lemma_add_mod_noop_right(1, n / per, 256);
        assert((n + 1) * ms == n * ms + ms) by (nonlinear_arith);
    }
}

// ---------------------------------------------------------------------------
// Receiving
// ---------------------------------------------------------------------------

/// How far ahead of a lost packet redundancy is still used.
pub const MAX_SEQ_DELTA: u16 = 128;

/// The receiving side of a call: what redundancy is at hand, and counters.
#[derive(Clone, Copy, Debug, PartialEq, Eq, Structural)]
pub struct CallDecoder {
    pub profile: QualityProfile,
    /// Whether the last frame was comfort noise.
    pub last_was_cn: bool,
    /// The packet whose redundancy is cached, and the samples that it covers.
    pub last_good_dred_seq: Option<u16>,
    pub last_good_dred_samples: i32,
    pub dred_reconstructions: u64,
    pub classical_plc_invocations: u64,
}

/// What is done with a received packet.
#[derive(Clone, Copy, Debug, PartialEq, Eq, Structural)]
pub struct IngestPlan {
    /// Give it to the FEC decoder.
    pub feed_fec: bool,
    /// Look for redundancy in it.
    pub parse_dred: bool,
    /// Queue it for playout.
    pub to_jitter: bool,
}

/// What the jitter buffer hands out.
pub enum Playout {
    Packet { codec_id: CodecId },
    /// A packet is missing; so many are queued behind it.
    Missing { seq: u16, depth: usize },
    NotReady,
}

/// What is played next.
#[derive(Clone, Copy, Debug, PartialEq, Eq, Structural)]
pub enum DecodeAction {
    ComfortNoise,
    /// Decode the packet; conceal if that fails.
    Decode,
    /// Reconstruct from redundancy this many samples back; conceal if that
    /// fails.
    Reconstruct { offset_samples: i32 },
    Conceal,
    /// Nothing: count an underrun.
    Underrun,
}

/// What a place in the stream came to: the samples to play, and what the
/// jitter buffer is told to count.
#[derive(Clone, Copy, Debug, PartialEq, Eq, Structural)]
pub struct Played {
    pub samples: Option<usize>,
    pub count_decode: bool,
    pub count_underrun: bool,
}

/// The number of packets from `seq` on to `last`, modulo 2^16.
pub open spec fn seq_ahead(last: u16, seq: u16) -> int {
    (last - seq) % 65536
}

/// Where the samples for a lost packet are in the cached redundancy, if they
/// are there.
pub open spec fn dred_offset(d: CallDecoder, seq: u16) -> Option<int> {
    match d.last_good_dred_seq {
        Some(last) => {
            let delta = seq_ahead(last, seq);
            let offset = delta * d.profile.samples();
            if d.profile.codec.opus() && 0 < delta <= 128 && 0 < offset
                <= d.last_good_dred_samples {
                Some(offset)
            } else {
                None
            }
        },
        None => None,
    }
}

impl CallDecoder {
    pub fn new(config: &CallConfig) -> (r: Self)
        ensures
            r == (CallDecoder {
                profile: config.profile,
                last_was_cn: false,
                last_good_dred_seq: None,
                last_good_dred_samples: 0,
                dred_reconstructions: 0,
                classical_plc_invocations: 0,
            }),
    {
        CallDecoder {
            profile: config.profile,
            last_was_cn: false,
            last_good_dred_seq: None,
            last_good_dred_samples: 0,
            dred_reconstructions: 0,
            classical_plc_invocations: 0,
        }
    }

    /// Decides on a received packet: only other codecs than Opus use the FEC
    /// decoder, only Opus carries redundancy of its own, and repair packets
    /// are never played.
    pub fn ingest(&self, header: &MediaHeader) -> (r: IngestPlan)
        ensures
            r.feed_fec == !header.codec_id.opus(),
            r.parse_dred == (header.codec_id.opus() && !header.is_repair),
            r.to_jitter == !header.is_repair,
            r.feed_fec || r.parse_dred || header.is_repair,
            r.parse_dred ==> r.to_jitter && !r.feed_fec,
            header.is_repair ==> !r.to_jitter && !r.parse_dred,
    {
        let opus = header.codec_id.is_opus();
        IngestPlan {
            feed_fec: !opus,
            parse_dred: opus && !header.is_repair,
            to_jitter: !header.is_repair,
        }
    }

    /// Takes note of the redundancy found in packet `seq`: `available`
    /// samples; a packet without any leaves the cache as it is.
    pub fn dred_parsed(&mut self, seq: u16, available: i32)
        ensures
            *final(self) == if available > 0 {
                CallDecoder {
                    last_good_dred_seq: Some(seq),
                    last_good_dred_samples: available,
                    ..*old(self)
                }
            } else {
                *old(self)
            },
    {
        if available > 0 {
            self.last_good_dred_seq = Some(seq);
            self.last_good_dred_samples = available;
        }
    }

    /// Decides what to play.
    pub fn decode_next(&mut self, playout: Playout) -> (r: DecodeAction)
        ensures
            match playout {
                Playout::Packet { codec_id } => {
                    &&& r == if codec_id == CodecId::ComfortNoise {
                        DecodeAction::ComfortNoise
                    } else {
                        DecodeAction::Decode
                    }
                    &&& *final(self) == (CallDecoder {
                        last_was_cn: codec_id == CodecId::ComfortNoise,
                        ..*old(self)
                    })
                },
                Playout::Missing { seq, depth } => if depth == 0 {
                    r == DecodeAction::Underrun && *final(self) == *old(self)
                } else {
                    match dred_offset(*old(self), seq) {
                        Some(offset) => r == (DecodeAction::Reconstruct {
                            offset_samples: offset as i32,
                        }) && *final(self) == *old(self),
                        None => r == DecodeAction::Conceal && *final(self) == old(self).concealed(),
                    }
                },
                Playout::NotReady => r == DecodeAction::Underrun && *final(self) == *old(self),
            },
            playout matches Playout::Missing { depth, .. } ==> (r is Underrun <==> depth == 0),
            r is Conceal ==> playout is Missing && (final(self).classical_plc_invocations - old(
                self,
            ).classical_plc_invocations - 1) % 0x1_0000_0000_0000_0000 == 0,
            r !is Conceal ==> final(self).classical_plc_invocations == old(
                self,
            ).classical_plc_invocations,
            final(self).last_good_dred_seq == old(self).last_good_dred_seq,
            final(self).last_good_dred_samples == old(self).last_good_dred_samples,
            final(self).dred_reconstructions == old(self).dred_reconstructions,
            final(self).last_was_cn <==> r is ComfortNoise || playout !is Packet && old(
                self,
            ).last_was_cn,
            r matches DecodeAction::Reconstruct { offset_samples } ==> {
                &&& playout is Missing
                &&& 1000 * offset_samples == ((old(self).last_good_dred_seq->0 - playout->seq)
                    % 65536) * (48_000 * old(self).profile.frame_duration_ms)
            },
    {
        proof {
            if let Playout::Missing { seq, .. } = playout {
                lemma_reconstruction_offset(*self, seq);
            }
        }
        match playout {
            Playout::Packet { codec_id } => {
                if codec_id == CodecId::ComfortNoise {
                    self.last_was_cn = true;
                    DecodeAction::ComfortNoise
                } else {
                    self.last_was_cn = false;
                    DecodeAction::Decode
                }
            },
            Playout::Missing { seq, depth } => {
                if depth == 0 {
                    return DecodeAction::Underrun;
                }
                if self.profile.codec.is_opus() {
                    if let Some(last) = self.last_good_dred_seq {
                        let delta: u16 = last.wrapping_sub(seq);
                        assert(delta == seq_ahead(last, seq));
                        if delta > 0 && delta <= MAX_SEQ_DELTA {
                            let samples: i32 = self.profile.frame_duration_ms as i32 * 48;
                            assert(0 <= delta * samples <= 128 * 12240) by (nonlinear_arith)
                                requires
                                    0 < delta <= 128,
                                    0 <= samples <= 12240,
                            ;
                            let offset_samples: i32 = delta as i32 * samples;
                            if offset_samples > 0 && offset_samples <= self.last_good_dred_samples {
                                return DecodeAction::Reconstruct { offset_samples };
                            }
                        }
                    }
                }
                self.classical_plc_invocations = self.classical_plc_invocations.wrapping_add(1);
                DecodeAction::Conceal
            },
            Playout::NotReady => DecodeAction::Underrun,
        }
    }

    /// One more loss concealed by the codec.
    pub open spec fn concealed(self) -> CallDecoder {
        CallDecoder {
            classical_plc_invocations: ((self.classical_plc_invocations + 1)
                % 0x1_0000_0000_0000_0000) as u64,
            ..self
        }
    }

    /// Takes note of how a reconstruction went; after a failure the loss is
    /// concealed.
    pub fn reconstructed(&mut self, ok: bool) -> (r: Option<DecodeAction>)
        ensures
            ok ==> r is None && *final(self) == (CallDecoder {
                dred_reconstructions: ((old(self).dred_reconstructions + 1)
                    % 0x1_0000_0000_0000_0000) as u64,
                ..*old(self)
            }),
            !ok ==> r == Some(DecodeAction::Conceal) && *final(self) == old(self).concealed(),
    {
        if ok {
            self.dred_reconstructions = self.dred_reconstructions.wrapping_add(1);
            None
        } else {
            self.classical_plc_invocations = self.classical_plc_invocations.wrapping_add(1);
            Some(DecodeAction::Conceal)
        }
    }

    /// What an action came to. `made` is how many samples decoding or
    /// reconstruction gave, `concealed` how many the codec's concealment gave
    /// where it was needed, `room` how many the caller has room for.
    pub fn played(
        action: DecodeAction,
        room: usize,
        made: Option<usize>,
        concealed: Option<usize>,
    ) -> (r: Played)
        ensures
            r.samples == (match action {
                DecodeAction::ComfortNoise => Some(room),
                DecodeAction::Decode | DecodeAction::Reconstruct { .. } => if made is Some {
                    made
                } else {
                    concealed
                },
                DecodeAction::Conceal => concealed,
                DecodeAction::Underrun => None,
            }),
            r.count_decode == (r.samples is Some),
            r.count_underrun == (action is Underrun),
    {
        let samples: Option<usize> = match action {
            DecodeAction::ComfortNoise => Some(room),
            DecodeAction::Decode | DecodeAction::Reconstruct { .. } => {
                if made.is_some() {
                    made
                } else {
                    concealed
                }
            },
            DecodeAction::Conceal => concealed,
            DecodeAction::Underrun => None,
        };
        Played {
            samples,
            count_decode: samples.is_some(),
            count_underrun: matches!(action, DecodeAction::Underrun),
        }
    }

    pub fn profile(&self) -> (r: QualityProfile)
        ensures
            r == self.profile,
    {
        self.profile
    }

    pub fn last_good_dred_seq(&self) -> (r: Option<u16>)
        ensures
            r == self.last_good_dred_seq,
    {
        self.last_good_dred_seq
    }

    pub fn last_good_dred_samples_available(&self) -> (r: i32)
        ensures
            r == self.last_good_dred_samples,
    {
        self.last_good_dred_samples
    }
}

/// A lost packet lies as far back in the cached redundancy as the time
/// between it and the packet that carried the redundancy, at 48 kHz.
pub proof fn lemma_reconstruction_offset(d: CallDecoder, seq: u16)
    ensures
        dred_offset(d, seq) matches Some(offset) ==> {
            let ahead = (d.last_good_dred_seq->0 - seq) % 65536;
            &&& d.last_good_dred_seq is Some
            &&& 1000 * offset == ahead * (48_000 * d.profile.frame_duration_ms)
        },
{
    if let Some(last) = d.last_good_dred_seq {
        let ahead = (last - seq) % 65536;
        let ms = d.profile.frame_duration_ms as int;
        assert(1000 * (ahead * (ms * 48)) == ahead * (48_000 * ms)) by (nonlinear_arith);
    }
}

/// Redundancy is used whenever it is there: for Opus, where at most 128
/// packets lie between and the cached samples reach back to the lost packet;
/// and then only.
pub proof fn lemma_reconstruction_owed(d: CallDecoder, seq: u16, last: u16, ahead: int)
    requires
        d.last_good_dred_seq == Some(last),
        0 <= ahead < 65536,
        last == (seq + ahead) % 65536,
    ensures
        dred_offset(d, seq) is Some <==> {
            &&& d.profile.codec.opus()
            &&& 1 <= ahead <= 128
            &&& d.profile.frame_duration_ms > 0
            &&& ahead * (48_000 * d.profile.frame_duration_ms) <= 1000 * d.last_good_dred_samples
        },
{
    let ms = d.profile.frame_duration_ms as int;
    assert(seq_ahead(last, seq) == ahead);
    assert(1000 * (ahead * (ms * 48)) == ahead * (48_000 * ms)) by (nonlinear_arith);
    assert(0 < ahead && 0 < ms ==> 0 < ahead * (ms * 48)) by (nonlinear_arith);
    assert(ms == 0 ==> ahead * (ms * 48) == 0) by (nonlinear_arith);
}

// ---------------------------------------------------------------------------
// Telemetry
// ---------------------------------------------------------------------------

/// Lets a report through at most once per interval.
#[derive(Clone, Copy, Debug, PartialEq, Eq, Structural)]
pub struct JitterTelemetry {
    pub interval_secs: u64,
    /// When the last report was made, in nanoseconds of a running clock.
    pub last_report: u64,
}

impl JitterTelemetry {
    pub fn new(interval_secs: u64, now: u64) -> (r: Self)
        ensures
            r == (JitterTelemetry { interval_secs, last_report: now }),
    {
        JitterTelemetry { interval_secs, last_report: now }
    }

    /// Whether a report is due at `now`.
    pub fn maybe_log(&mut self, now: u64) -> (r: bool)
        ensures
            r == (if now < old(self).last_report {
                0
            } else {
                now - old(self).last_report
            } >= old(self).interval_secs * 1_000_000_000),
            *final(self) == if r {
                JitterTelemetry { last_report: now, ..*old(self) }
            } else {
                *old(self)
            },            now >= old(self).last_report + old(self).interval_secs * 1_000_000_000 ==> r,
            old(self).last_report <= now < old(self).last_report + old(self).interval_secs
                * 1_000_000_000 ==> !r,
    {
        let elapsed: u64 = now.saturating_sub(self.last_report);
        if elapsed as u128 >= self.interval_secs as u128 * 1_000_000_000 {
            self.last_report = now;
            true
        } else {
            false
        }
    }
}

} // verus!
