//! The call engine: what a call does with captured audio, received packets
//! and signals.
use vstd::prelude::*;
use vstd::string::StringExecFns;

use crate::android::audio_ring::{counts_read, counts_write, AudioRing};
use crate::android::commands::EngineCommand;
use crate::android::stats::{
    members_view, participants_view, room_members, CallState, CallStats,
};
use crate::audio_ring::min;
use crate::audio_vpio::{is_rms, rms};
use crate::call::{
    add_seq, build_repairs, header_with, make_header, next16, next32, next8, plain_packet,
    repair_packets_from, repairs_view, seq_ahead,
};
use crate::net::{parse_socket, SocketAddr};
use crate::proto::{
    catastrophic_profile, clone_opt, codec2_3200_profile, degraded_profile, good_profile,
    offered_profiles, opt_text, packets_view, studio_profile, supported_profiles, CallAcceptMode,
    CodecId, HangupReason, MediaHeader, MediaPacket, NetworkContext, PacketView, QualityProfile,
    QualityReport, SignalMessage,
};
use crate::ring::last_n;
use crate::text::{chars_of, contains_text, contains_text_exec, decimal, push_decimal};

verus! {

broadcast use vstd::string::group_string_axioms;

/// Samples in the longest frame: 40 ms at 48 kHz mono.
pub const MAX_FRAME_SAMPLES: usize = 1920;

/// Says that no change is pending.
pub const PROFILE_NO_CHANGE: u8 = 0xff;

/// The index by which threads tell each other of a profile: that of the first
/// offered profile with the same codec, or else that of the good profile.
pub open spec fn profile_index(p: QualityProfile) -> u8 {
    match p.codec {
        CodecId::Opus64k => 0,
        CodecId::Opus48k => 1,
        CodecId::Opus32k => 2,
        CodecId::Opus24k => 3,
        CodecId::Opus6k => 4,
        CodecId::Codec2_1200 => 5,
        _ => 3,
    }
}

pub fn profile_to_index(p: &QualityProfile) -> (r: u8)
    ensures
        r == profile_index(*p),
{
    let all = supported_profiles();
    let mut i: usize = 0;
    while i < all.len()
        invariant
            i <= all@.len(),
            all@ == offered_profiles(),
            forall|j: int| 0 <= j < i ==> (#[trigger] all@[j]).codec != p.codec,
        decreases all.len() - i,
    {
        if all[i].codec == p.codec {
            assert(profile_index(*p) == i) by {
                assert(all@[0].codec == CodecId::Opus64k && all@[1].codec == CodecId::Opus48k);
                assert(all@[2].codec == CodecId::Opus32k && all@[3].codec == CodecId::Opus24k);
                assert(all@[4].codec == CodecId::Opus6k && all@[5].codec == CodecId::Codec2_1200);
            }
            return i as u8;
        }
        i += 1;
    }
    assert(profile_index(*p) == 3) by {
        assert(all@[0].codec == CodecId::Opus64k && all@[1].codec == CodecId::Opus48k);
        assert(all@[2].codec == CodecId::Opus32k && all@[3].codec == CodecId::Opus24k);
        assert(all@[4].codec == CodecId::Opus6k && all@[5].codec == CodecId::Codec2_1200);
    }
    3
}

/// The profile of an index.
pub open spec fn profile_at(idx: u8) -> Option<QualityProfile> {
    if idx < 6 {
        Some(offered_profiles()[idx as int])
    } else {
        None
    }
}

pub fn index_to_profile(idx: u8) -> (r: Option<QualityProfile>)
    ensures
        r == profile_at(idx),
{
    let all = supported_profiles();
    if (idx as usize) < all.len() {
        Some(all[idx as usize])
    } else {
        None
    }
}

/// Every offered profile is found again by its index.
pub proof fn lemma_profile_index_round_trip(i: int)
    requires
        0 <= i < offered_profiles().len(),
    ensures
        profile_at(profile_index(offered_profiles()[i])) == Some(offered_profiles()[i]),
{
}

/// Samples in one frame of a profile, at 48 kHz.
pub fn frame_samples_for(profile: &QualityProfile) -> (r: usize)
    ensures
        r == profile.samples(),
{
    profile.frame_samples()
}

/// The tier of a profile: 0 from the bit rate of the good profile on, 1 below
/// it, 2 where speech is only coded by Codec2.
pub open spec fn tier_of(profile: QualityProfile) -> u8 {
    match profile.codec {
        CodecId::Codec2_1200 | CodecId::Codec2_3200 => 2,
        CodecId::Opus6k | CodecId::Opus16k => 1,
        _ => 0,
    }
}

pub fn quality_tier(profile: &QualityProfile) -> (r: u8)
    ensures
        r == tier_of(*profile),
{
    match profile.codec {
        CodecId::Codec2_1200 | CodecId::Codec2_3200 => 2,
        CodecId::Opus6k | CodecId::Opus16k => 1,
        _ => 0,
    }
}

/// The tiers of the profiles that they are named after.
pub proof fn lemma_tiers()
    ensures
        tier_of(good_profile()) == 0,
        tier_of(degraded_profile()) == 1,
        tier_of(catastrophic_profile()) == 2,
{
}

/// The tier is how bad the path is: of the profiles that are recommended for
/// a path, a worse path never has a lower tier.
pub proof fn lemma_tier_follows_path(better: QualityReport, worse: QualityReport)
    requires
        better.loss_pct <= worse.loss_pct,
        better.rtt_4ms <= worse.rtt_4ms,
    ensures
        tier_of(crate::call::profile_for(better)) <= tier_of(crate::call::profile_for(worse)),
        tier_of(crate::call::profile_for(worse)) == crate::call::path_rank(
            crate::call::profile_for(worse),
        ),
{
}

/// What goes by index is an offered profile, each by its own index, the better
/// ones first; no index stands for `PROFILE_NO_CHANGE`.
pub proof fn lemma_index_order(i: int, p: QualityProfile)
    requires
        0 <= i < 6,
    ensures
        profile_index(offered_profiles()[i]) == i,
        profile_at(i as u8) == Some(offered_profiles()[i]),
        profile_index(p) < 6,
        profile_at(0xff) is None,
{
}

/// What a call is started with.
#[derive(Clone, Debug)]
pub struct CallStartConfig {
    pub profile: QualityProfile,
    /// Take the profile that the relay chooses.
    pub auto_profile: bool,
    pub relay_addr: String,
    pub room: String,
    pub auth_token: Vec<u8>,
    pub identity_seed: [u8; 32],
    pub alias: Option<String>,
}

impl Default for CallStartConfig {
    fn default() -> (r: Self)
        ensures
            r.profile == good_profile(),
            !r.auto_profile,
            r.relay_addr@ == Seq::<char>::empty(),
            r.room@ == Seq::<char>::empty(),
            r.auth_token@ == Seq::<u8>::empty(),
            forall|i: int| 0 <= i < 32 ==> r.identity_seed@[i] == 0,
            r.alias is None,
    {
        CallStartConfig {
            profile: QualityProfile::good(),
            auto_profile: false,
            relay_addr: String::new(),
            room: String::new(),
            auth_token: Vec::new(),
            identity_seed: [0u8;32],
            alias: None,
        }
    }
}

/// Why a call is not started.
#[derive(Debug)]
pub enum StartError {
    AlreadyActive,
    InvalidAddress { relay_addr: String },
}

impl StartError {
    pub open spec fn message(self) -> Seq<char> {
        match self {
            StartError::AlreadyActive => "call already active"@,
            StartError::InvalidAddress { relay_addr } => "invalid relay address '"@ + relay_addr@
                + "': invalid socket address syntax"@,
        }
    }

    pub fn to_string(&self) -> (r: String)
        ensures
            r@ == self.message(),
    {
        match self {
            StartError::AlreadyActive => String::from_str("call already active"),
            StartError::InvalidAddress { relay_addr } => {
                let mut m = String::from_str("invalid relay address '");
                m.append(relay_addr.as_str());
                m.append("': invalid socket address syntax");
                m
            },
        }
    }
}

/// The engine behind the app: one call at a time.
pub struct WzpEngine {
    pub running: bool,
    pub muted: bool,
    pub stats: CallStats,
    /// From the microphone to the encoder.
    pub capture_ring: AudioRing,
    /// From the decoder to the speaker.
    pub playout_ring: AudioRing,
    pub audio_level_rms: u32,
    /// The network that the device changed to, or `PROFILE_NO_CHANGE`.
    pub pending_network_type: u8,
    /// When the call began, in nanoseconds of a running clock.
    pub call_start: Option<u64>,
}

impl WzpEngine {
    pub open spec fn wf(&self) -> bool {
        self.capture_ring.wf() && self.playout_ring.wf()
    }

    pub fn new() -> (r: Self)
        ensures
            r.wf(),
            !r.running,
            !r.muted,
            r.stats.fresh(CallState::Idle),
            r.capture_ring@ == Seq::<i16>::empty(),
            r.playout_ring@ == Seq::<i16>::empty(),
            r.capture_ring.overflows() == 0,
            r.playout_ring.overflows() == 0,
            r.playout_ring.underruns() == 0,
            r.audio_level_rms == 0,
            r.pending_network_type == PROFILE_NO_CHANGE,
            r.call_start is None,
    {
        WzpEngine {
            running: false,
            muted: false,
            stats: CallStats::default(),
            capture_ring: AudioRing::new(),
            playout_ring: AudioRing::new(),
            audio_level_rms: 0,
            pending_network_type: PROFILE_NO_CHANGE,
            call_start: None,
        }
    }

    /// All but `running`, `stats` and `call_start` is as in `other`.
    pub open spec fn same_audio(&self, other: &WzpEngine) -> bool {
        &&& self.muted == other.muted
        &&& self.capture_ring == other.capture_ring
        &&& self.playout_ring == other.playout_ring
        &&& self.audio_level_rms == other.audio_level_rms
        &&& self.pending_network_type == other.pending_network_type
    }

    /// Begins a call: says where the relay is.
    pub fn start_call(&mut self, config: &CallStartConfig, now: u64) -> (r: Result<
        SocketAddr,
        StartError,
    >)
        ensures
            final(self).same_audio(old(self)),
            match r {
                Ok(addr) => {
                    &&& !old(self).running
                    &&& parse_socket(config.relay_addr@) == Some(addr)
                    &&& final(self).running
                    &&& final(self).call_start == Some(now)
                    &&& final(self).stats.fresh(CallState::Connecting)
                },
                Err(StartError::AlreadyActive) => old(self).running && *final(self) == *old(self),
                Err(StartError::InvalidAddress { relay_addr }) => {
                    &&& !old(self).running
                    &&& parse_socket(config.relay_addr@) is None
                    &&& relay_addr@ == config.relay_addr@
                    &&& !final(self).running
                    &&& final(self).call_start == old(self).call_start
                    &&& final(self).stats.fresh(CallState::Connecting)
                },
            },
    {
        if self.running {
            return Err(StartError::AlreadyActive);
        }
        self.stats = CallStats::in_state(CallState::Connecting);
        match SocketAddr::parse(config.relay_addr.as_str()) {
            None => Err(StartError::InvalidAddress { relay_addr: config.relay_addr.clone() }),
            Some(addr) => {
                self.running = true;
                self.call_start = Some(now);
                Ok(addr)
            },
        }
    }

    /// The call has come to its end.
    pub fn call_ended(&mut self)
        ensures
            final(self).same_audio(old(self)),
            !final(self).running,
            final(self).call_start == old(self).call_start,
            final(self).stats == (CallStats { state: CallState::Closed, ..old(self).stats }),
    {
        self.running = false;
        self.stats.state = CallState::Closed;
    }

    /// The handshake is done: the call is active with `profile`.
    pub fn call_active(&mut self, profile: &QualityProfile, auto_profile: bool)
        ensures
            final(self).same_audio(old(self)),
            final(self).running == old(self).running,
            final(self).call_start == old(self).call_start,
            final(self).stats == (CallStats {
                state: CallState::Active,
                quality_tier: tier_of(*profile),
                current_codec: Some(profile.codec),
                auto_mode: auto_profile,
                ..old(self).stats
            }),
    {
        self.stats.state = CallState::Active;
        self.stats.quality_tier = quality_tier(profile);
        self.stats.current_codec = Some(profile.codec);
        self.stats.auto_mode = auto_profile;
    }

    /// The encoder has gone over to `profile`.
    pub fn profile_switched(&mut self, profile: &QualityProfile)
        ensures
            final(self).same_audio(old(self)),
            final(self).running == old(self).running,
            final(self).call_start == old(self).call_start,
            final(self).stats == (CallStats {
                quality_tier: tier_of(*profile),
                current_codec: Some(profile.codec),
                ..old(self).stats
            }),
    {
        self.stats.quality_tier = quality_tier(profile);
        self.stats.current_codec = Some(profile.codec);
    }

    /// The path has been measured, when so many frames had been encoded.
    pub fn path_measured(&mut self, frames_encoded: u64, rtt_ms: u32, jitter_ms: u32)
        ensures
            final(self).same_audio(old(self)),
            final(self).running == old(self).running,
            final(self).call_start == old(self).call_start,
            final(self).stats == (CallStats {
                frames_encoded,
                rtt_ms,
                jitter_ms,
                ..old(self).stats
            }),
    {
        self.stats.frames_encoded = frames_encoded;
        self.stats.rtt_ms = rtt_ms;
        self.stats.jitter_ms = jitter_ms;
    }

    /// Ends the call; the command goes to the engine's queue.
    pub fn stop_call(&mut self) -> (r: EngineCommand)
        ensures
            final(self).same_audio(old(self)),
            !final(self).running,
            final(self).call_start is None,
            final(self).stats == old(self).stats,
            r is Stop,
    {
        self.running = false;
        self.call_start = None;
        EngineCommand::Stop
    }

    /// The command to place a call.
    pub fn place_call(&self, target_fingerprint: &str) -> (r: EngineCommand)
        ensures
            r matches EngineCommand::PlaceCall { target_fingerprint: t } && t@
                == target_fingerprint@,
    {
        EngineCommand::PlaceCall { target_fingerprint: String::from_str(target_fingerprint) }
    }

    /// The command to answer a call.
    pub fn answer_call(&self, call_id: &str, mode: CallAcceptMode) -> (r: EngineCommand)
        ensures
            r matches EngineCommand::AnswerCall { call_id: c, accept_mode } && c@ == call_id@
                && accept_mode == mode,
    {
        EngineCommand::AnswerCall { call_id: String::from_str(call_id), accept_mode: mode }
    }

    pub fn set_mute(&mut self, muted: bool)
        ensures
            *final(self) == (WzpEngine { muted, ..*old(self) }),
    {
        self.muted = muted;
    }

    /// The speaker is switched by the platform: nothing changes here.
    pub fn set_speaker(&mut self, enabled: bool)
        ensures
            *final(self) == *old(self),
    {
    }

    /// A forced profile is not acted on.
    pub fn force_profile(&mut self, profile: QualityProfile)
        ensures
            *final(self) == *old(self),
    {
    }

    /// Stops the call, if there is one, and the engine with it.
    pub fn destroy(self) -> (r: EngineCommand)
        ensures
            r is Stop,
    {
        let mut engine = self;
        engine.stop_call()
    }

    /// Takes note of a change of network.
    pub fn on_network_changed(&mut self, network_type: u8, bandwidth_kbps: u32)
        ensures
            *final(self) == (WzpEngine { pending_network_type: network_type, ..*old(self) }),
    {
        self.pending_network_type = network_type;
    }

    /// The change of network that has not been acted on, if there is one.
    pub fn take_network_change(&mut self) -> (r: Option<NetworkContext>)
        ensures
            *final(self) == (WzpEngine { pending_network_type: PROFILE_NO_CHANGE, ..*old(self) }),
            r == network_context(old(self).pending_network_type),
    {
        let net: u8 = self.pending_network_type;
        self.pending_network_type = PROFILE_NO_CHANGE;
        if net == PROFILE_NO_CHANGE {
            return None;
        }
        Some(
            match net {
                0 => NetworkContext::WiFi,
                1 => NetworkContext::CellularLte,
                2 => NetworkContext::Cellular5g,
                3 => NetworkContext::Cellular3g,
                _ => NetworkContext::Unknown,
            },
        )
    }

    /// The numbers of the call, at `now`.
    pub fn get_stats(&self, now: u64) -> (r: CallStats)
        ensures
            r.same_as(
                CallStats {
                    duration_ns: match self.call_start {
                        Some(t) => if now < t {
                            0
                        } else {
                            (now - t) as u64
                        },
                        None => self.stats.duration_ns,
                    },
                    audio_level: self.audio_level_rms,
                    underruns: self.playout_ring.underruns(),
                    playout_overflows: self.playout_ring.overflows(),
                    playout_underruns: self.playout_ring.underruns(),
                    capture_overflows: self.capture_ring.overflows(),
                    ..self.stats
                },
            ),
    {
        let mut stats = self.stats.copied();
        if let Some(t) = self.call_start {
            stats.duration_ns = now.saturating_sub(t);
        }
        stats.audio_level = self.audio_level_rms;
        stats.underruns = self.playout_ring.underrun_count();
        stats.playout_overflows = self.playout_ring.overflow_count();
        stats.playout_underruns = self.playout_ring.underrun_count();
        stats.capture_overflows = self.capture_ring.overflow_count();
        stats
    }

    pub fn is_active(&self) -> (r: bool)
        ensures
            r == self.running,
    {
        self.running
    }

    /// Takes in captured samples. While muted they go nowhere.
    pub fn write_audio(&mut self, samples: &[i16]) -> (r: usize)
        requires
            old(self).wf(),
        ensures
            final(self).wf(),
            old(self).muted ==> r == samples@.len() && *final(self) == *old(self),
            !old(self).muted ==> {
                &&& r == min(samples@.len() as int, 9600)
                &&& final(self).capture_ring@ == last_n(
                    old(self).capture_ring@ + samples@.take(r as int),
                    9600,
                )
                &&& counts_write(old(self).capture_ring, final(self).capture_ring, r as int)
                &&& samples@.len() == 0 ==> final(self).audio_level_rms
                    == old(self).audio_level_rms
                &&& samples@.len() > 0 ==> is_rms(samples@, final(self).audio_level_rms as int)
                &&& *final(self) == (WzpEngine {
                    capture_ring: final(self).capture_ring,
                    audio_level_rms: final(self).audio_level_rms,
                    ..*old(self)
                })
            },
    {
        if self.muted {
            return samples.len();
        }
        if samples.len() > 0 {
            self.audio_level_rms = rms(samples) as u32;
        }
        self.capture_ring.write(samples)
    }

    /// Hands out samples to be played.
    pub fn read_audio(&mut self, out: &mut [i16]) -> (r: usize)
        requires
            old(self).wf(),
        ensures
            final(self).wf(),
            r == min(old(out)@.len() as int, old(self).playout_ring@.len() as int),
            final(out)@ == old(self).playout_ring@.take(r as int) + old(out)@.skip(r as int),
            final(self).playout_ring@ == old(self).playout_ring@.skip(r as int),
            counts_read(old(self).playout_ring, final(self).playout_ring),
            *final(self) == (WzpEngine { playout_ring: final(self).playout_ring, ..*old(self) }),
    {
        self.playout_ring.read(out)
    }

    /// The next frame to encode, if that many samples are there: silence
    /// while muted.
    pub fn next_frame(&mut self, frame_samples: usize) -> (r: Option<Vec<i16>>)
        requires
            old(self).wf(),
        ensures
            final(self).wf(),
            match r {
                None => old(self).capture_ring@.len() < frame_samples && *final(self)
                    == *old(self),
                Some(frame) => {
                    &&& old(self).capture_ring@.len() >= frame_samples
                    &&& frame@ == if old(self).muted {
                        Seq::new(frame_samples as nat, |i: int| 0i16)
                    } else {
                        old(self).capture_ring@.take(frame_samples as int)
                    }
                    &&& final(self).capture_ring@ == old(self).capture_ring@.skip(
                        frame_samples as int,
                    )
                    &&& counts_read(old(self).capture_ring, final(self).capture_ring)
                    &&& *final(self) == (WzpEngine {
                        capture_ring: final(self).capture_ring,
                        ..*old(self)
                    })
                },
            },
    {
        if self.capture_ring.available() < frame_samples {
            return None;
        }
        let mut frame: Vec<i16> = vec![0i16; frame_samples];
        let _read: usize = self.capture_ring.read(frame.as_mut_slice());
        if self.muted {
            let silence: Vec<i16> = vec![0i16; frame_samples];
            assert(silence@ =~= Seq::new(frame_samples as nat, |i: int| 0i16));
            return Some(silence);
        }
        assert(frame@ =~= old(self).capture_ring@.take(frame_samples as int));
        Some(frame)
    }

    /// Takes in decoded samples to be played.
    pub fn play(&mut self, samples: &[i16]) -> (r: usize)
        requires
            old(self).wf(),
        ensures
            final(self).wf(),
            r == min(samples@.len() as int, 9600),
            final(self).playout_ring@ == last_n(
                old(self).playout_ring@ + samples@.take(r as int),
                9600,
            ),
            counts_write(old(self).playout_ring, final(self).playout_ring, r as int),
            *final(self) == (WzpEngine { playout_ring: final(self).playout_ring, ..*old(self) }),
    {
        self.playout_ring.write(samples)
    }

    /// Takes in the answer to the registration; says whether it was granted.
    pub fn on_registration(&mut self, answer: Option<&SignalMessage>) -> (r: bool)
        ensures
            r == match answer {
                Some(SignalMessage::RegisterPresenceAck { success, .. }) => *success,
                _ => false,
            },
            *final(self) == if r {
                WzpEngine {
                    stats: CallStats { state: CallState::Registered, ..old(self).stats },
                    ..*old(self)
                }
            } else {
                *old(self)
            },
    {
        let granted = match answer {
            Some(SignalMessage::RegisterPresenceAck { success, .. }) => *success,
            _ => false,
        };
        if granted {
            self.stats.state = CallState::Registered;
        }
        granted
    }

    /// Takes in a signal of the signaling connection.
    pub fn on_signal(&mut self, msg: &SignalMessage)
        ensures
            *final(self) == (WzpEngine { stats: final(self).stats, ..*old(self) }),
            final(self).stats == (CallStats {
                state: final(self).stats.state,
                incoming_call_id: final(self).stats.incoming_call_id,
                incoming_caller_fp: final(self).stats.incoming_caller_fp,
                incoming_caller_alias: final(self).stats.incoming_caller_alias,
                ..old(self).stats
            }),
            signaling(final(self).stats) == signaling(old(self).stats).after(*msg),
    {
        match msg {
            SignalMessage::CallRinging { .. } => {
                self.stats.state = CallState::Ringing;
            },
            SignalMessage::DirectCallOffer {
                caller_fingerprint,
                caller_alias,
                call_id,
                ..
            } => {
                self.stats.state = CallState::IncomingCall;
                self.stats.incoming_call_id = Some(call_id.clone());
                self.stats.incoming_caller_fp = Some(caller_fingerprint.clone());
                self.stats.incoming_caller_alias = clone_opt(caller_alias);
            },
            SignalMessage::CallSetup { room, relay_addr, .. } => {
                self.stats.state = CallState::Connecting;
                let mut id = relay_addr.clone();
                id.append("|");
                id.append(room.as_str());
                self.stats.incoming_call_id = Some(id);
            },
            SignalMessage::Hangup { .. } => {
                self.stats.state = CallState::Closed;
                self.stats.incoming_call_id = None;
                self.stats.incoming_caller_fp = None;
                self.stats.incoming_caller_alias = None;
            },
            _ => {},
        }
    }

    /// The signaling connection is gone.
    pub fn signaling_closed(&mut self)
        ensures
            *final(self) == (WzpEngine {
                stats: CallStats { state: CallState::Closed, ..old(self).stats },
                ..*old(self)
            }),
    {
        self.stats.state = CallState::Closed;
    }

    /// Takes in a room update; other signals change nothing.
    pub fn on_room_signal(&mut self, msg: &SignalMessage)
        ensures
            match *msg {
                SignalMessage::RoomUpdate { count, participants } => {
                    &&& *final(self) == (WzpEngine { stats: final(self).stats, ..*old(self) })
                    &&& final(self).stats == (CallStats {
                        room_participant_count: count,
                        room_participants: final(self).stats.room_participants,
                        ..old(self).stats
                    })
                    &&& members_view(final(self).stats.room_participants@) == participants_view(
                        participants@,
                    )
                },
                _ => *final(self) == *old(self),
            },
    {
        if let SignalMessage::RoomUpdate { count, participants } = msg {
            self.stats.room_participant_count = *count;
            self.stats.room_participants = room_members(participants.as_slice());
        }
    }
}

/// The network that a number of the platform stands for.
pub open spec fn network_context(net: u8) -> Option<NetworkContext> {
    if net == 0xff {
        None
    } else {
        Some(
            match net {
                0 => NetworkContext::WiFi,
                1 => NetworkContext::CellularLte,
                2 => NetworkContext::Cellular5g,
                3 => NetworkContext::Cellular3g,
                _ => NetworkContext::Unknown,
            },
        )
    }
}

/// The server name under which the relay is asked for a room.
pub open spec fn room_sni(room: Seq<char>) -> Seq<char> {
    if room.len() == 0 {
        "android"@
    } else {
        room
    }
}

pub fn sni_for(room: &str) -> (r: String)
    ensures
        r@ == room_sni(room@),
{
    if room.unicode_len() == 0 {
        String::from_str("android")
    } else {
        String::from_str(room)
    }
}

/// What the app is told of a relay that answered.
pub open spec fn ping_text(rtt_ms: u64, server_fingerprint: Seq<char>) -> Seq<char> {
    "{\"rtt_ms\":"@ + decimal(rtt_ms as nat) + ",\"server_fingerprint\":\""@ + server_fingerprint
        + "\"}"@
}

pub fn ping_report(rtt_ms: u64, server_fingerprint: &str) -> (r: String)
    ensures
        r@ == ping_text(rtt_ms, server_fingerprint@),
{
    let mut m = String::from_str("{\"rtt_ms\":");
    push_decimal(&mut m, rtt_ms);
    m.append(",\"server_fingerprint\":\"");
    m.append(server_fingerprint);
    m.append("\"}");
    m
}

/// What the relay's answer to an offer amounts to.
#[derive(Debug)]
pub enum AnswerError {
    /// The connection closed before there was an answer.
    Closed,
    /// Another signal came.
    Unexpected,
}

impl AnswerError {
    /// What is told of the failure. Which signal came is not said.
    pub open spec fn message(self) -> Seq<char> {
        match self {
            AnswerError::Closed => "connection closed before CallAnswer"@,
            AnswerError::Unexpected => "expected CallAnswer, got another signal"@,
        }
    }

    pub fn to_string(&self) -> (r: String)
        ensures
            r@ == self.message(),
    {
        match self {
            AnswerError::Closed => String::from_str("connection closed before CallAnswer"),
            AnswerError::Unexpected => String::from_str("expected CallAnswer, got another signal"),
        }
    }
}

/// The relay's ephemeral key, and the profile of the call: the one that the
/// relay chose, where the caller left it the choice.
pub fn accept_answer(
    answer: Option<SignalMessage>,
    profile: QualityProfile,
    auto_profile: bool,
) -> (r: Result<(Vec<u8>, QualityProfile), AnswerError>)
    ensures
        match answer {
            None => r == Err::<(Vec<u8>, QualityProfile), AnswerError>(AnswerError::Closed),
            Some(SignalMessage::CallAnswer { ephemeral_pub, chosen_profile, .. }) => r == Ok::<
                (Vec<u8>, QualityProfile),
                AnswerError,
            >(
                (
                    ephemeral_pub,
                    if auto_profile {
                        chosen_profile
                    } else {
                        profile
                    },
                ),
            ),
            Some(_) => r == Err::<(Vec<u8>, QualityProfile), AnswerError>(AnswerError::Unexpected),
        },
{
    match answer {
        None => Err(AnswerError::Closed),
        Some(SignalMessage::CallAnswer { ephemeral_pub, chosen_profile, .. }) => {
            if auto_profile {
                Ok((ephemeral_pub, chosen_profile))
            } else {
                Ok((ephemeral_pub, profile))
            }
        },
        Some(_) => Err(AnswerError::Unexpected),
    }
}

// ---------------------------------------------------------------------------
// Sending
// ---------------------------------------------------------------------------

/// The counters that packets are numbered from. Time is counted in samples.
#[derive(Clone, Copy, Debug, PartialEq, Eq, Structural)]
pub struct Sender {
    pub profile: QualityProfile,
    pub seq: u16,
    pub timestamp: u32,
    pub block_id: u8,
    pub frame_in_block: u8,
    /// Frames that packets were made of.
    pub frames_encoded: u64,
}

impl Sender {
    /// The frame number is one of the block.
    pub open spec fn wf(&self) -> bool {
        self.frame_in_block == 0 || self.frame_in_block < self.profile.frames_per_block
    }

    pub fn new(profile: QualityProfile) -> (r: Self)
        ensures
            r.wf(),
            r == (Sender {
                profile,
                seq: 0,
                timestamp: 0,
                block_id: 0,
                frame_in_block: 0,
                frames_encoded: 0,
            }),
    {
        Sender {
            profile,
            seq: 0,
            timestamp: 0,
            block_id: 0,
            frame_in_block: 0,
            frames_encoded: 0,
        }
    }

    /// The encoder has changed over to a profile: a new block begins.
    pub fn switched(&mut self, profile: QualityProfile)
        ensures
            final(self).wf(),
            *final(self) == (Sender {
                profile,
                block_id: next8(old(self).block_id),
                frame_in_block: 0,
                ..*old(self)
            }),
    {
        self.profile = profile;
        self.frame_in_block = 0;
        self.block_id = self.block_id.wrapping_add(1);
    }

    /// The packet of a frame. Opus packets carry no FEC fields.
    pub open spec fn source_packet(self, payload: Seq<u8>, fec_ratio_encoded: u8) -> PacketView {
        let h = if self.profile.codec.opus() {
            header_with(self.profile.codec, false, 0, self.seq, self.timestamp, 0, 0)
        } else {
            header_with(
                self.profile.codec,
                false,
                fec_ratio_encoded,
                self.seq,
                self.timestamp,
                self.block_id,
                self.frame_in_block,
            )
        };
        plain_packet(h, payload)
    }

    /// Makes the packet of a frame.
    pub fn source(&mut self, payload: Vec<u8>, fec_ratio_encoded: u8) -> (r: MediaPacket)
        ensures
            r@ == old(self).source_packet(payload@, fec_ratio_encoded),
            *final(self) == (Sender {
                seq: next16(old(self).seq, 1),
                timestamp: next32(old(self).timestamp, old(self).profile.samples() as int),
                frames_encoded: plus(old(self).frames_encoded, 1),
                ..*old(self)
            }),
            r.header.seq == old(self).seq,
            r.header.timestamp == old(self).timestamp,
            1000 * ((final(self).timestamp - old(self).timestamp) % 0x1_0000_0000) == 48_000
                * old(self).profile.frame_duration_ms,
    {
        self.frames_encoded = self.frames_encoded.wrapping_add(1);
        let header = if self.profile.codec.is_opus() {
            make_header(self.profile.codec, false, 0, self.seq, self.timestamp, 0, 0)
        } else {
            make_header(
                self.profile.codec,
                false,
                fec_ratio_encoded,
                self.seq,
                self.timestamp,
                self.block_id,
                self.frame_in_block,
            )
        };
        self.seq = self.seq.wrapping_add(1);
        self.timestamp = self.timestamp.wrapping_add(frame_samples_for(&self.profile) as u32);
        MediaPacket { header, payload, quality_report: None }
    }

    /// One more frame sent completes a block.
    pub open spec fn fills_block(self) -> bool {
        !self.profile.codec.opus() && self.frame_in_block + 1 >= self.profile.frames_per_block
    }

    /// Whether repair symbols are to be made once the frame is sent.
    pub fn wants_repairs(&self) -> (r: bool)
        requires
            self.wf(),
        ensures
            r == self.fills_block(),
    {
        !self.profile.codec.is_opus() && self.frame_in_block + 1 >= self.profile.frames_per_block
    }

    /// What follows a frame that has been sent with `timestamp`: the state,
    /// and the repair packets to send.
    pub open spec fn after_sent(
        self,
        timestamp: u32,
        fec_ratio_encoded: u8,
        repairs: Option<Seq<(u8, Seq<u8>)>>,
    ) -> (Sender, Seq<PacketView>) {
        if self.profile.codec.opus() {
            (self, Seq::empty())
        } else if !self.fills_block() {
            (Sender { frame_in_block: (self.frame_in_block + 1) as u8, ..self }, Seq::empty())
        } else {
            let packets = match repairs {
                Some(v) => repair_packets_from(
                    self.profile.codec,
                    fec_ratio_encoded,
                    self.seq,
                    timestamp,
                    self.block_id,
                    v,
                ),
                None => Seq::empty(),
            };
            (
                Sender {
                    seq: next16(self.seq, packets.len() as int),
                    block_id: next8(self.block_id),
                    frame_in_block: 0,
                    ..self
                },
                packets,
            )
        }
    }

    /// Takes note of a frame that has been sent; a frame that could not be
    /// sent is not part of a block.
    pub fn sent(
        &mut self,
        timestamp: u32,
        fec_ratio_encoded: u8,
        repairs: Option<Vec<(u8, Vec<u8>)>>,
    ) -> (r: Vec<MediaPacket>)
        requires
            old(self).wf(),
        ensures
            final(self).wf(),
            (*final(self), packets_view(r@)) == old(self).after_sent(
                timestamp,
                fec_ratio_encoded,
                match repairs {
                    Some(v) => Some(repairs_view(v@)),
                    None => None,
                },
            ),
    {
        let mut out: Vec<MediaPacket> = Vec::new();
        assert(packets_view(out@) =~= Seq::<PacketView>::empty());
        if self.profile.codec.is_opus() {
            return out;
        }
        self.frame_in_block = self.frame_in_block + 1;
        if self.frame_in_block >= self.profile.frames_per_block {
            if let Some(v) = repairs {
                let count: usize = v.len();
                out = build_repairs(
                    self.profile.codec,
                    fec_ratio_encoded,
                    self.seq,
                    timestamp,
                    self.block_id,
                    v,
                );
                self.seq = add_seq(self.seq, count);
            }
            self.block_id = self.block_id.wrapping_add(1);
            self.frame_in_block = 0;
        }
        out
    }
}

/// Packets are numbered without gaps: the source packet of a frame, then its
/// block's repair packets, if there are any, then the next frame.
pub proof fn lemma_sender_numbers(
    s: Sender,
    timestamp: u32,
    fec_ratio_encoded: u8,
    repairs: Option<Seq<(u8, Seq<u8>)>>,
)
    ensures
        ({
            let (after, packets) = s.after_sent(timestamp, fec_ratio_encoded, repairs);
            &&& forall|i: int|
                0 <= i < packets.len() ==> (#[trigger] packets[i]).header.seq == next16(s.seq, i)
                    && packets[i].header.timestamp == timestamp && packets[i].header.is_repair
            &&& after.seq == next16(s.seq, packets.len() as int)
        }),
{
}

/// The repair packets that follow a frame belong to its block: each names the
/// block and the codec of the source packet before it, and carries the symbol
/// that was made for it.
pub proof fn lemma_repairs_of_the_block(
    s: Sender,
    payload: Seq<u8>,
    timestamp: u32,
    fec_ratio_encoded: u8,
    repairs: Seq<(u8, Seq<u8>)>,
    i: int,
)
    requires
        0 <= i < s.after_sent(timestamp, fec_ratio_encoded, Some(repairs)).1.len(),
    ensures
        ({
            let source = s.source_packet(payload, fec_ratio_encoded).header;
            let packets = s.after_sent(timestamp, fec_ratio_encoded, Some(repairs)).1;
            let h = packets[i].header;
            &&& packets.len() == repairs.len()
            &&& s.frame_in_block + 1 >= s.profile.frames_per_block
            &&& !s.profile.codec.opus()
            &&& h.is_repair && !source.is_repair
            &&& h.codec_id == source.codec_id && h.codec_id == s.profile.codec
            &&& h.fec_block == source.fec_block && h.fec_block == s.block_id
            &&& h.fec_ratio_encoded == source.fec_ratio_encoded
            &&& h.fec_symbol == repairs[i].0
            &&& packets[i].payload == repairs[i].1
            &&& source.fec_symbol == s.frame_in_block
            &&& h.timestamp == timestamp
        }),
{
}

/// A frame under a codec with FEC that has been sent is counted: the place
/// that block and frame number give goes on by one.
pub proof fn lemma_sent_place(
    s: Sender,
    timestamp: u32,
    fec_ratio_encoded: u8,
    repairs: Option<Seq<(u8, Seq<u8>)>>,
)
    requires
        s.wf(),
        0 < s.profile.frames_per_block,
        !s.profile.codec.opus(),
    ensures
        ({
            let after = s.after_sent(timestamp, fec_ratio_encoded, repairs).0;
            let per = s.profile.frames_per_block as int;
            &&& after.frame_in_block < per
            &&& after.block_id * per + after.frame_in_block == (s.block_id * per + s.frame_in_block
                + 1) % (256 * per)
            &&& after.profile == s.profile && after.timestamp == s.timestamp
            &&& after.frames_encoded == s.frames_encoded
        }),
{
    let per = s.profile.frames_per_block as int;
    let b = s.block_id as int;
    let k = s.frame_in_block as int;
    if k + 1 < per {
        assert((b * per + k + 1) % (256 * per) == b * per + k + 1) by (nonlinear_arith)
            requires
                0 <= b < 256,
                0 <= k,
                k + 1 < per,
        ;
    } else if b < 255 {
        assert((b * per + k + 1) % (256 * per) == (b + 1) * per) by (nonlinear_arith)
            requires
                0 <= b < 255,
                k + 1 == per,
                0 < per,
        ;
    } else {
        assert((b * per + k + 1) % (256 * per) == 0) by (nonlinear_arith)
            requires
                b == 255,
                k + 1 == per,
                0 < per,
        ;
        assert(0 * per == 0) by (nonlinear_arith);
    }
}

// ---------------------------------------------------------------------------
// Receiving
// ---------------------------------------------------------------------------

/// The longest gap that is filled, in packets.
pub const MAX_GAP_FRAMES: u16 = 16;

/// How a missing frame is filled.
#[derive(Clone, Copy, Debug, PartialEq, Eq, Structural)]
pub enum GapFill {
    /// From redundancy this many samples back; concealed if that fails.
    Reconstruct { offset_samples: i32 },
    Conceal,
}

/// What is done with a received packet, in this order.
pub struct RecvPlan {
    /// Give it to the FEC decoder.
    pub feed_fec: bool,
    /// Change the decoder over.
    pub switch_to: Option<QualityProfile>,
    /// Fill the gap before it.
    pub fills: Vec<GapFill>,
    /// Decode it; conceal if that fails.
    pub decode: bool,
    /// Forget the FEC blocks before this one.
    pub expire_before: Option<u8>,
}

/// What became of one frame.
#[derive(Clone, Copy, Debug, PartialEq, Eq, Structural)]
pub enum FrameOutcome {
    Decoded,
    /// A frame of a gap, from redundancy.
    Reconstructed,
    /// A frame of a gap, concealed.
    Concealed,
    /// Concealed because the packet could not be decoded.
    ConcealedAfterError,
}

/// What is done about a failure to receive.
#[derive(Clone, Copy, Debug, PartialEq, Eq, Structural)]
pub enum RecvFailure {
    /// The connection is gone.
    Stop,
    /// Log it and go on.
    Log,
    GoOn,
}

/// The profile with which a codec is decoded.
pub open spec fn decoder_profile(codec: CodecId) -> QualityProfile {
    match codec {
        CodecId::Opus24k => good_profile(),
        CodecId::Opus6k => degraded_profile(),
        CodecId::Opus32k => studio_profile(CodecId::Opus32k),
        CodecId::Opus48k => studio_profile(CodecId::Opus48k),
        CodecId::Opus64k => studio_profile(CodecId::Opus64k),
        CodecId::Codec2_1200 => catastrophic_profile(),
        CodecId::Codec2_3200 => codec2_3200_profile(),
        other => QualityProfile { codec: other, ..good_profile() },
    }
}

pub fn profile_for_codec(codec: CodecId) -> (r: QualityProfile)
    ensures
        r == decoder_profile(codec),
        r.codec == codec,
{
    match codec {
        CodecId::Opus24k => QualityProfile::good(),
        CodecId::Opus6k => QualityProfile::degraded(),
        CodecId::Opus32k => QualityProfile::studio_32k(),
        CodecId::Opus48k => QualityProfile::studio_48k(),
        CodecId::Opus64k => QualityProfile::studio_64k(),
        CodecId::Codec2_1200 => QualityProfile::catastrophic(),
        CodecId::Codec2_3200 => QualityProfile::codec2_3200(),
        other => {
            let good = QualityProfile::good();
            QualityProfile {
                codec: other,
                fec_percent: good.fec_percent,
                frame_duration_ms: good.frame_duration_ms,
                frames_per_block: good.frames_per_block,
            }
        },
    }
}

/// How the frame `missing` is filled from what redundancy there is.
pub open spec fn gap_fill(
    dred_seq: Option<u16>,
    dred_samples: i32,
    frame_samples: int,
    missing: u16,
) -> GapFill {
    match dred_seq {
        Some(anchor) => {
            let delta = seq_ahead(anchor, missing);
            let offset = delta * frame_samples;
            if 0 < delta <= 16 && 0 < offset <= dred_samples {
                GapFill::Reconstruct { offset_samples: offset as i32 }
            } else {
                GapFill::Conceal
            }
        },
        None => GapFill::Conceal,
    }
}

/// The receiving side of a call.
#[derive(Clone, Copy, Debug, PartialEq, Eq, Structural)]
pub struct Receiver {
    /// The profile with which the call began.
    pub profile: QualityProfile,
    pub last_peer_codec: Option<CodecId>,
    /// The packet whose redundancy is cached, and the samples that it covers.
    pub last_good_dred_seq: Option<u16>,
    pub last_good_dred_samples: i32,
    /// The number of the next packet.
    pub expected_seq: Option<u16>,
    pub frames_decoded: u64,
    pub fec_recovered: u64,
    pub recv_errors: u64,
    pub dred_reconstructions: u64,
    pub classical_plc_invocations: u64,
}

/// One more, wrapped around at 2^64.
pub open spec fn plus(x: u64, n: int) -> u64 {
    ((x + n) % 0x1_0000_0000_0000_0000) as u64
}

impl Receiver {
    pub fn new(profile: QualityProfile) -> (r: Self)
        ensures
            r == (Receiver {
                profile,
                last_peer_codec: None,
                last_good_dred_seq: None,
                last_good_dred_samples: 0,
                expected_seq: None,
                frames_decoded: 0,
                fec_recovered: 0,
                recv_errors: 0,
                dred_reconstructions: 0,
                classical_plc_invocations: 0,
            }),
    {
        Receiver {
            profile,
            last_peer_codec: None,
            last_good_dred_seq: None,
            last_good_dred_samples: 0,
            expected_seq: None,
            frames_decoded: 0,
            fec_recovered: 0,
            recv_errors: 0,
            dred_reconstructions: 0,
            classical_plc_invocations: 0,
        }
    }

    /// A packet that is played.
    pub open spec fn plays(header: MediaHeader) -> bool {
        !header.is_repair && header.codec_id != CodecId::ComfortNoise
    }

    /// The state when a packet that is played has been looked at, but not the
    /// gap before it: after a change of codec nothing of before counts.
    pub open spec fn looked_at(
        self,
        header: MediaHeader,
        decoder_codec: CodecId,
        dred_available: i32,
    ) -> Receiver {
        let s = if header.codec_id != decoder_codec {
            Receiver { last_good_dred_seq: None, expected_seq: None, ..self }
        } else {
            self
        };
        let s = Receiver { last_peer_codec: Some(header.codec_id), ..s };
        if header.codec_id.opus() && dred_available > 0 {
            Receiver {
                last_good_dred_seq: Some(header.seq),
                last_good_dred_samples: dred_available,
                ..s
            }
        } else {
            s
        }
    }

    /// How many packets are missing before packet `seq`; none where the gap
    /// is too long to fill.
    pub open spec fn gap(self, seq: u16) -> nat {
        match self.expected_seq {
            Some(expected) => if seq_ahead(seq, expected) <= 16 {
                seq_ahead(seq, expected) as nat
            } else {
                0
            },
            None => 0,
        }
    }

    /// How the gap before packet `seq` is filled.
    pub open spec fn gap_fills(self, seq: u16) -> Seq<GapFill> {
        Seq::new(
            self.gap(seq),
            |i: int|
                gap_fill(
                    self.last_good_dred_seq,
                    self.last_good_dred_samples,
                    self.profile.samples() as int,
                    next16(self.expected_seq->0, i),
                ),
        )
    }

    /// Decides on a received packet. `decoder_codec` is what the decoder is
    /// set to, `dred_available` the samples of redundancy in the packet.
    pub fn on_packet(
        &mut self,
        header: &MediaHeader,
        decoder_codec: CodecId,
        dred_available: i32,
    ) -> (r: RecvPlan)
        ensures
            r.feed_fec == !header.codec_id.opus(),
            r.decode == Self::plays(*header),
            r.expire_before matches Some(block) ==> block > 0 && block + 3 == header.fec_block,
            r.expire_before is None ==> header.codec_id.opus() || header.fec_block <= 3,
            r.expire_before == if !header.codec_id.opus() && header.fec_block > 3 {
                Some((header.fec_block - 3) as u8)
            } else {
                None
            },
            r.switch_to == if Self::plays(*header) && header.codec_id != decoder_codec {
                Some(decoder_profile(header.codec_id))
            } else {
                None
            },
            ({
                let s = old(self).looked_at(*header, decoder_codec, dred_available);
                if !Self::plays(*header) {
                    *final(self) == *old(self) && r.fills@ == Seq::<GapFill>::empty()
                } else if header.codec_id.opus() {
                    &&& *final(self) == (Receiver {
                        expected_seq: Some(next16(header.seq, 1)),
                        ..s
                    })
                    &&& r.fills@ == s.gap_fills(header.seq)
                } else {
                    *final(self) == s && r.fills@ == Seq::<GapFill>::empty()
                }
            }),
    {
        let opus = header.codec_id.is_opus();
        let mut fills: Vec<GapFill> = Vec::new();
        let mut switch_to: Option<QualityProfile> = None;
        let decode = !header.is_repair && header.codec_id != CodecId::ComfortNoise;
        if decode {
            if header.codec_id != decoder_codec {
                switch_to = Some(profile_for_codec(header.codec_id));
                self.last_good_dred_seq = None;
                self.expected_seq = None;
            }
            self.last_peer_codec = Some(header.codec_id);
            if opus {
                if dred_available > 0 {
                    self.last_good_dred_seq = Some(header.seq);
                    self.last_good_dred_samples = dred_available;
                }
                fills = self.fill_gap(header.seq);
                self.expected_seq = Some(header.seq.wrapping_add(1));
            }
        }
        let expire_before: Option<u8> = if !opus && header.fec_block > 3 {
            Some(header.fec_block - 3)
        } else {
            None
        };
        RecvPlan { feed_fec: !opus, switch_to, fills, decode, expire_before }
    }

    fn fill_gap(&self, seq: u16) -> (r: Vec<GapFill>)
        ensures
            r@ == self.gap_fills(seq),
    {
        let mut fills: Vec<GapFill> = Vec::new();
        if let Some(expected) = self.expected_seq {
            let gap: u16 = seq.wrapping_sub(expected);
            assert(gap == seq_ahead(seq, expected));
            if gap <= MAX_GAP_FRAMES {
                let samples: i32 = self.profile.frame_duration_ms as i32 * 48;
                let mut i: u16 = 0;
                while i < gap
                    invariant
                        i <= gap <= 16,
                        gap == self.gap(seq),
                        self.expected_seq == Some(expected),
                        samples == self.profile.samples(),
                        samples <= 12240,
                        fills@ == self.gap_fills(seq).take(i as int),
                    decreases gap - i,
                {
                    let missing: u16 = expected.wrapping_add(i);
                    let mut fill = GapFill::Conceal;
                    if let Some(anchor) = self.last_good_dred_seq {
                        let delta: u16 = anchor.wrapping_sub(missing);
                        assert(delta == seq_ahead(anchor, missing));
                        if delta > 0 && delta <= MAX_GAP_FRAMES {
                            assert(0 <= delta * samples <= 16 * 12240) by (nonlinear_arith)
                                requires
                                    0 < delta <= 16,
                                    0 <= samples <= 12240,
                            ;
                            let offset_samples: i32 = delta as i32 * samples;
                            if offset_samples > 0 && offset_samples <= self.last_good_dred_samples {
                                fill = GapFill::Reconstruct { offset_samples };
                            }
                        }
                    }
                    assert(fill == self.gap_fills(seq)[i as int]);
                    fills.push(fill);
                    i += 1;
                    assert(fills@ =~= self.gap_fills(seq).take(i as int));
                }
            }
        }
        assert(fills@ =~= self.gap_fills(seq));
        fills
    }

    /// Counts a frame.
    pub open spec fn counted(self, outcome: FrameOutcome) -> Receiver {
        match outcome {
            FrameOutcome::Decoded => Receiver {
                frames_decoded: plus(self.frames_decoded, 1),
                ..self
            },
            FrameOutcome::Reconstructed => Receiver {
                frames_decoded: plus(self.frames_decoded, 1),
                dred_reconstructions: plus(self.dred_reconstructions, 1),
                ..self
            },
            FrameOutcome::Concealed => Receiver {
                frames_decoded: plus(self.frames_decoded, 1),
                classical_plc_invocations: plus(self.classical_plc_invocations, 1),
                ..self
            },
            FrameOutcome::ConcealedAfterError => Receiver {
                classical_plc_invocations: plus(self.classical_plc_invocations, 1),
                ..self
            },
        }
    }

    pub fn count(&mut self, outcome: FrameOutcome)
        ensures
            *final(self) == old(self).counted(outcome),
    {
        match outcome {
            FrameOutcome::Decoded => {
                self.frames_decoded = self.frames_decoded.wrapping_add(1);
            },
            FrameOutcome::Reconstructed => {
                self.frames_decoded = self.frames_decoded.wrapping_add(1);
                self.dred_reconstructions = self.dred_reconstructions.wrapping_add(1);
            },
            FrameOutcome::Concealed => {
                self.frames_decoded = self.frames_decoded.wrapping_add(1);
                self.classical_plc_invocations = self.classical_plc_invocations.wrapping_add(1);
            },
            FrameOutcome::ConcealedAfterError => {
                self.classical_plc_invocations = self.classical_plc_invocations.wrapping_add(1);
            },
        }
    }

    /// Counts frames that FEC recovered.
    pub fn recovered(&mut self, frames: usize)
        ensures
            *final(self) == (Receiver {
                fec_recovered: plus(old(self).fec_recovered, frames as int),
                ..*old(self)
            }),
    {
        self.fec_recovered = self.fec_recovered.wrapping_add(frames as u64);
    }

    /// Decides on a failure to receive, by its message.
    pub fn on_error(&mut self, message: &str) -> (r: RecvFailure)
        ensures
            *final(self) == (Receiver {
                recv_errors: plus(old(self).recv_errors, 1),
                ..*old(self)
            }),
            r == if contains_text(message@, "closed"@) || contains_text(message@, "reset"@) {
                RecvFailure::Stop
            } else if final(self).recv_errors <= 3 || final(self).recv_errors % 50 == 0 {
                RecvFailure::Log
            } else {
                RecvFailure::GoOn
            },
            contains_text(message@, "closed"@) ==> r is Stop,
            contains_text(message@, "reset"@) ==> r is Stop,
            r is Stop && !contains_text(message@, "reset"@) ==> contains_text(
                message@,
                "closed"@,
            ),
            old(self).recv_errors < 3 ==> r !is GoOn,
            r is Log && old(self).recv_errors < u64::MAX ==> old(self).recv_errors < 3 || old(
                self,
            ).recv_errors % 50 == 49,
    {
        self.recv_errors = self.recv_errors.wrapping_add(1);
        let msg = chars_of(message);
        let closed = chars_of("closed");
        let reset = chars_of("reset");
        if contains_text_exec(msg.as_slice(), closed.as_slice()) || contains_text_exec(
            msg.as_slice(),
            reset.as_slice(),
        ) {
            RecvFailure::Stop
        } else if self.recv_errors <= 3 || self.recv_errors % 50 == 0 {
            RecvFailure::Log
        } else {
            RecvFailure::GoOn
        }
    }

    /// Puts the counters where the app sees them.
    pub fn report(&self, stats: &mut CallStats)
        ensures
            *final(stats) == (CallStats {
                frames_decoded: self.frames_decoded,
                fec_recovered: self.fec_recovered,
                dred_reconstructions: self.dred_reconstructions,
                classical_plc_invocations: self.classical_plc_invocations,
                peer_codec: match self.last_peer_codec {
                    Some(c) => Some(c),
                    None => old(stats).peer_codec,
                },
                ..*old(stats)
            }),
    {
        stats.frames_decoded = self.frames_decoded;
        stats.fec_recovered = self.fec_recovered;
        stats.dred_reconstructions = self.dred_reconstructions;
        stats.classical_plc_invocations = self.classical_plc_invocations;
        if let Some(c) = self.last_peer_codec {
            stats.peer_codec = Some(c);
        }
    }
}

/// Packets that come in order leave no gap: after a packet of Opus has been
/// taken in, the next one in number is decoded with nothing filled in before.
pub proof fn lemma_in_order_no_gap(r: Receiver, seq: u16)
    requires
        r.expected_seq == Some(seq),
    ensures
        r.gap(seq) == 0,
{
}

/// A loss of up to sixteen packets is filled frame by frame.
pub proof fn lemma_gap_is_filled(r: Receiver, expected: u16, lost: int)
    requires
        r.expected_seq == Some(expected),
        0 <= lost <= 16,
    ensures
        r.gap_fills(next16(expected, lost)).len() == lost,
{
}

/// After a change of codec nothing of before counts: no gap is filled, and no
/// redundancy is used but what the packet itself brings. Without a change the
/// next packet is still the one that was expected, and a packet without
/// redundancy leaves what is cached.
pub proof fn lemma_codec_change_forgets(
    r: Receiver,
    header: MediaHeader,
    decoder_codec: CodecId,
    dred_available: i32,
)
    ensures
        ({
            let s = r.looked_at(header, decoder_codec, dred_available);
            let brings = header.codec_id.opus() && dred_available > 0;
            &&& s.last_peer_codec == Some(header.codec_id)
            &&& header.codec_id != decoder_codec ==> s.gap(header.seq) == 0
            &&& header.codec_id == decoder_codec ==> s.expected_seq == r.expected_seq && s.gap(
                header.seq,
            ) == r.gap(header.seq)
            &&& brings ==> s.last_good_dred_seq == Some(header.seq) && s.last_good_dred_samples
                == dred_available
            &&& !brings && header.codec_id == decoder_codec ==> s.last_good_dred_seq
                == r.last_good_dred_seq && s.last_good_dred_samples == r.last_good_dred_samples
            &&& !brings && header.codec_id != decoder_codec ==> s.last_good_dred_seq is None
            &&& s.profile == r.profile && s.frames_decoded == r.frames_decoded
        }),
{
}

/// A longer loss is not filled at all.
pub proof fn lemma_long_gap_is_not_filled(r: Receiver, expected: u16, lost: int)
    requires
        r.expected_seq == Some(expected),
        16 < lost < 65536,
    ensures
        r.gap_fills(next16(expected, lost)).len() == 0,
{
    assert(seq_ahead(next16(expected, lost), expected) == lost);
}

/// Where redundancy came with the packet `ahead` packets after the first lost
/// one, the lost frame number `i` lies as far back in it as the time between,
/// at 48 kHz; redundancy is used where it reaches back that far, and then
/// only.
pub proof fn lemma_fill_offset(r: Receiver, expected: u16, lost: int, ahead: int, i: int)
    requires
        r.expected_seq == Some(expected),
        0 <= i < lost <= 16,
        0 <= ahead < 65536,
        r.last_good_dred_seq == Some(next16(expected, ahead)),
    ensures
        ({
            let fill = r.gap_fills(next16(expected, lost))[i];
            let back = (ahead - i) % 65536;
            let needed = back * (48_000 * r.profile.frame_duration_ms);
            &&& fill matches GapFill::Reconstruct { offset_samples } ==> 1000 * offset_samples
                == needed
            &&& fill is Reconstruct <==> {
                &&& 1 <= back <= 16
                &&& 0 < r.profile.frame_duration_ms
                &&& needed <= 1000 * r.last_good_dred_samples
            }
        }),
{
    let seq = next16(expected, lost);
    let anchor = next16(expected, ahead);
    let missing = next16(expected, i);
    let back = (ahead - i) % 65536;
    let ms = r.profile.frame_duration_ms as int;
    lemma_gap_is_filled(r, expected, lost);
    assert(r.gap(seq) == lost);
    assert(seq_ahead(anchor, missing) == back);
    assert(1000 * (back * (ms * 48)) == back * (48_000 * ms)) by (nonlinear_arith);
    assert(0 < back && 0 < ms ==> 0 < back * (ms * 48)) by (nonlinear_arith);
    assert(ms == 0 ==> back * (ms * 48) == 0) by (nonlinear_arith);
    assert(back <= 16 ==> back * (ms * 48) <= 16 * (255 * 48)) by (nonlinear_arith)
        requires
            0 <= back,
            0 <= ms <= 255,
    ;
}

/// The profile for a codec is the profile that uses it.
pub proof fn lemma_decoder_profiles(i: int, codec: CodecId)
    requires
        0 <= i < offered_profiles().len(),
    ensures
        decoder_profile(offered_profiles()[i].codec) == offered_profiles()[i],
        decoder_profile(codec2_3200_profile().codec) == codec2_3200_profile(),
        decoder_profile(codec).codec == codec,
{
}

/// The receiver after it has counted frames.
pub open spec fn counted_all(r: Receiver, outcomes: Seq<FrameOutcome>) -> Receiver
    decreases outcomes.len(),
{
    if outcomes.len() == 0 {
        r
    } else {
        counted_all(r, outcomes.drop_last()).counted(outcomes.last())
    }
}

/// How many of the outcomes are `o`.
pub open spec fn occurrences(outcomes: Seq<FrameOutcome>, o: FrameOutcome) -> int
    decreases outcomes.len(),
{
    if outcomes.len() == 0 {
        0
    } else {
        occurrences(outcomes.drop_last(), o) + if outcomes.last() == o {
            1int
        } else {
            0int
        }
    }
}

/// Frames that were played are those decoded, reconstructed and concealed in
/// a gap; each kind of repair has its own count.
pub proof fn lemma_counts(r: Receiver, outcomes: Seq<FrameOutcome>)
    ensures
        ({
            let after = counted_all(r, outcomes);
            let decoded = occurrences(outcomes, FrameOutcome::Decoded);
            let reconstructed = occurrences(outcomes, FrameOutcome::Reconstructed);
            let concealed = occurrences(outcomes, FrameOutcome::Concealed);
            let failed = occurrences(outcomes, FrameOutcome::ConcealedAfterError);
            &&& after.frames_decoded == plus(
                r.frames_decoded,
                decoded + reconstructed + concealed,
            )
            &&& after.dred_reconstructions == plus(r.dred_reconstructions, reconstructed)
            &&& after.classical_plc_invocations == plus(
                r.classical_plc_invocations,
                concealed + failed,
            )
            &&& decoded + reconstructed + concealed + failed == outcomes.len()
            &&& after.fec_recovered == r.fec_recovered && after.recv_errors == r.recv_errors
            &&& after.expected_seq == r.expected_seq
        }),
    decreases outcomes.len(),
{
    if outcomes.len() > 0 {
        let before = outcomes.drop_last();
        lemma_counts(r, before);
        let decoded = occurrences(before, FrameOutcome::Decoded);
        let reconstructed = occurrences(before, FrameOutcome::Reconstructed);
        let concealed = occurrences(before, FrameOutcome::Concealed);
        let failed = occurrences(before, FrameOutcome::ConcealedAfterError);
        lemma_plus_one(r.frames_decoded, decoded + reconstructed + concealed);
        lemma_plus_one(r.dred_reconstructions, reconstructed);
        lemma_plus_one(r.classical_plc_invocations, concealed + failed);
    }
}

proof fn lemma_plus_one(x: u64, n: int)
    ensures
        plus(plus(x, n), 1) == plus(x, n + 1),
{
    vstd::arithmetic::div_mod::lemma_add_mod_noop_right(1, x + n, 0x1_0000_0000_0000_0000);
}

// ---------------------------------------------------------------------------
// Signaling
// ---------------------------------------------------------------------------

/// What the app sees of the engine's signaling.
#[verifier::ext_equal]
pub struct SignalingView {
    pub state: CallState,
    pub incoming_call_id: Option<Seq<char>>,
    pub incoming_caller_fp: Option<Seq<char>>,
    pub incoming_caller_alias: Option<Seq<char>>,
}

pub open spec fn signaling(stats: CallStats) -> SignalingView {
    SignalingView {
        state: stats.state,
        incoming_call_id: opt_text(stats.incoming_call_id),
        incoming_caller_fp: opt_text(stats.incoming_caller_fp),
        incoming_caller_alias: opt_text(stats.incoming_caller_alias),
    }
}

impl SignalingView {
    /// What a signal changes. A call setup is passed on as the relay and the
    /// room, with a bar between them.
    pub open spec fn after(self, msg: SignalMessage) -> SignalingView {
        match msg {
            SignalMessage::CallRinging { .. } => SignalingView {
                state: CallState::Ringing,
                ..self
            },
            SignalMessage::DirectCallOffer {
                caller_fingerprint,
                caller_alias,
                call_id,
                ..
            } => SignalingView {
                state: CallState::IncomingCall,
                incoming_call_id: Some(call_id@),
                incoming_caller_fp: Some(caller_fingerprint@),
                incoming_caller_alias: opt_text(caller_alias),
            },
            SignalMessage::CallSetup { room, relay_addr, .. } => SignalingView {
                state: CallState::Connecting,
                incoming_call_id: Some(relay_addr@ + "|"@ + room@),
                ..self
            },
            SignalMessage::Hangup { .. } => SignalingView {
                state: CallState::Closed,
                incoming_call_id: None,
                incoming_caller_fp: None,
                incoming_caller_alias: None,
            },
            _ => self,
        }
    }
}

/// A call that was set up is passed on as the relay up to the bar and the room
/// after it.
pub proof fn lemma_setup_names_relay_and_room(before: SignalingView, msg: SignalMessage)
    requires
        msg is CallSetup,
        crate::text::has_no(msg->relay_addr@, '|'),
    ensures
        ({
            let after = before.after(msg);
            let t = after.incoming_call_id->0;
            let k = crate::text::index_of_from(t, 0, '|');
            &&& after.state is Connecting
            &&& after.incoming_call_id is Some
            &&& k < t.len()
            &&& t.take(k) == msg->relay_addr@
            &&& t.skip(k + 1) == msg->CallSetup_room@
            &&& after.incoming_caller_fp == before.incoming_caller_fp
        }),
{
    reveal_strlit("|");
    let relay = msg->relay_addr@;
    let room = msg->CallSetup_room@;
    let t = before.after(msg).incoming_call_id->0;
    assert(t == relay + "|"@ + room);
    let k = crate::text::index_of_from(t, 0, '|');
    crate::text::lemma_index_of_from(t, 0, '|');
    assert(t[relay.len() as int] == '|');
    if k < relay.len() {
        assert(t[k] == relay[k]);
    }
    assert(t.take(k) =~= relay);
    assert(t.skip(k + 1) =~= room);
}

/// After a hang-up no call is shown, whatever came before.
pub proof fn lemma_hangup_ends_call(before: SignalingView, reason: HangupReason)
    ensures
        before.after(SignalMessage::Hangup { reason }) == (SignalingView {
            state: CallState::Closed,
            incoming_call_id: None,
            incoming_caller_fp: None,
            incoming_caller_alias: None,
        }),
{
}

} // verus!
