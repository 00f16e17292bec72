//! The values that calls are made of: codecs, quality profiles, media
//! packets and signals.
use vstd::prelude::*;

verus! {

#[derive(Clone, Copy, Debug, PartialEq, Eq, Structural)]
pub enum CodecId {
    Opus24k,
    Opus16k,
    Opus6k,
    Codec2_3200,
    Codec2_1200,
    ComfortNoise,
    Opus32k,
    Opus48k,
    Opus64k,
    H264Baseline,
}

impl CodecId {
    pub open spec fn opus(self) -> bool {
        ||| self is Opus24k
        ||| self is Opus16k
        ||| self is Opus6k
        ||| self is Opus32k
        ||| self is Opus48k
        ||| self is Opus64k
    }

    pub fn is_opus(&self) -> (r: bool)
        ensures
            r == self.opus(),
            !r <==> self is Codec2_3200 || self is Codec2_1200 || self is ComfortNoise
                || self is H264Baseline,
    {
        match self {
            CodecId::Opus24k
            | CodecId::Opus16k
            | CodecId::Opus6k
            | CodecId::Opus32k
            | CodecId::Opus48k
            | CodecId::Opus64k => true,
            _ => false,
        }
    }
}

/// A codec with the redundancy that goes with it.
#[derive(Clone, Copy, Debug, PartialEq, Eq, Structural)]
pub struct QualityProfile {
    pub codec: CodecId,
    /// Repair data as a percentage of source data.
    pub fec_percent: u8,
    pub frame_duration_ms: u8,
    pub frames_per_block: u8,
}

pub open spec fn good_profile() -> QualityProfile {
    QualityProfile {
        codec: CodecId::Opus24k,
        fec_percent: 20,
        frame_duration_ms: 20,
        frames_per_block: 5,
    }
}

pub open spec fn degraded_profile() -> QualityProfile {
    QualityProfile {
        codec: CodecId::Opus6k,
        fec_percent: 50,
        frame_duration_ms: 40,
        frames_per_block: 10,
    }
}

pub open spec fn catastrophic_profile() -> QualityProfile {
    QualityProfile {
        codec: CodecId::Codec2_1200,
        fec_percent: 100,
        frame_duration_ms: 40,
        frames_per_block: 8,
    }
}

/// A high-bitrate Opus profile.
pub open spec fn studio_profile(codec: CodecId) -> QualityProfile {
    QualityProfile { codec, fec_percent: 10, frame_duration_ms: 20, frames_per_block: 5 }
}

/// Codec2 at 3200 bit/s.
pub open spec fn codec2_3200_profile() -> QualityProfile {
    QualityProfile {
        codec: CodecId::Codec2_3200,
        fec_percent: 50,
        frame_duration_ms: 20,
        frames_per_block: 5,
    }
}

impl QualityProfile {
    pub fn good() -> (r: Self)
        ensures
            r == good_profile(),
    {
        QualityProfile {
            codec: CodecId::Opus24k,
            fec_percent: 20,
            frame_duration_ms: 20,
            frames_per_block: 5,
        }
    }

    pub fn degraded() -> (r: Self)
        ensures
            r == degraded_profile(),
    {
        QualityProfile {
            codec: CodecId::Opus6k,
            fec_percent: 50,
            frame_duration_ms: 40,
            frames_per_block: 10,
        }
    }

    pub fn catastrophic() -> (r: Self)
        ensures
            r == catastrophic_profile(),
    {
        QualityProfile {
            codec: CodecId::Codec2_1200,
            fec_percent: 100,
            frame_duration_ms: 40,
            frames_per_block: 8,
        }
    }

    pub fn studio_32k() -> (r: Self)
        ensures
            r == studio_profile(CodecId::Opus32k),
    {
        QualityProfile {
            codec: CodecId::Opus32k,
            fec_percent: 10,
            frame_duration_ms: 20,
            frames_per_block: 5,
        }
    }

    pub fn studio_48k() -> (r: Self)
        ensures
            r == studio_profile(CodecId::Opus48k),
    {
        QualityProfile {
            codec: CodecId::Opus48k,
            fec_percent: 10,
            frame_duration_ms: 20,
            frames_per_block: 5,
        }
    }

    pub fn studio_64k() -> (r: Self)
        ensures
            r == studio_profile(CodecId::Opus64k),
    {
        QualityProfile {
            codec: CodecId::Opus64k,
            fec_percent: 10,
            frame_duration_ms: 20,
            frames_per_block: 5,
        }
    }

    pub fn codec2_3200() -> (r: Self)
        ensures
            r == codec2_3200_profile(),
    {
        QualityProfile {
            codec: CodecId::Codec2_3200,
            fec_percent: 50,
            frame_duration_ms: 20,
            frames_per_block: 5,
        }
    }

    /// Samples in one frame at 48 kHz.
    pub open spec fn samples(self) -> nat {
        (self.frame_duration_ms * 48) as nat
    }

    pub fn frame_samples(&self) -> (r: usize)
        ensures
            r == self.samples(),
    {
        self.frame_duration_ms as usize * 48
    }
}

/// The profiles that a caller offers, best first.
pub open spec fn offered_profiles() -> Seq<QualityProfile> {
    seq![
        studio_profile(CodecId::Opus64k),
        studio_profile(CodecId::Opus48k),
        studio_profile(CodecId::Opus32k),
        good_profile(),
        degraded_profile(),
        catastrophic_profile(),
    ]
}

pub fn supported_profiles() -> (r: Vec<QualityProfile>)
    ensures
        r@ == offered_profiles(),
{
    let r: Vec<QualityProfile> = vec![
        QualityProfile::studio_64k(),
        QualityProfile::studio_48k(),
        QualityProfile::studio_32k(),
        QualityProfile::good(),
        QualityProfile::degraded(),
        QualityProfile::catastrophic(),
    ];
    assert(r@ =~= offered_profiles());
    r
}

/// A relay's view of the path, in the units of the wire: loss in 255ths,
/// round-trip time in units of four milliseconds.
#[derive(Clone, Copy, Debug, PartialEq, Eq, Structural)]
pub struct QualityReport {
    pub loss_pct: u8,
    pub rtt_4ms: u8,
    pub jitter_ms: u8,
    pub bitrate_cap_kbps: u8,
}

#[derive(Clone, Copy, Debug, PartialEq, Eq, Structural)]
pub struct MediaHeader {
    pub version: u8,
    pub is_repair: bool,
    pub codec_id: CodecId,
    pub has_quality_report: bool,
    pub fec_ratio_encoded: u8,
    pub seq: u16,
    pub timestamp: u32,
    pub fec_block: u8,
    pub fec_symbol: u8,
    pub reserved: u8,
    pub csrc_count: u8,
}

#[derive(Clone, Debug)]
pub struct MediaPacket {
    pub header: MediaHeader,
    pub payload: Vec<u8>,
    pub quality_report: Option<QualityReport>,
}

/// A packet with its payload as a byte sequence.
pub struct PacketView {
    pub header: MediaHeader,
    pub payload: Seq<u8>,
    pub quality_report: Option<QualityReport>,
}

impl View for MediaPacket {
    type V = PacketView;

    open spec fn view(&self) -> PacketView {
        PacketView {
            header: self.header,
            payload: self.payload@,
            quality_report: self.quality_report,
        }
    }
}

pub open spec fn packets_view(v: Seq<MediaPacket>) -> Seq<PacketView> {
    v.map_values(|p: MediaPacket| p@)
}

/// Counters of a jitter buffer.
#[derive(Clone, Copy, Debug, PartialEq, Eq, Structural)]
pub struct JitterStats {
    pub packets_received: u64,
    pub packets_played: u64,
    pub packets_lost: u64,
    pub packets_late: u64,
    pub packets_duplicate: u64,
    pub current_depth: usize,
    pub total_decoded: u64,
    pub underruns: u64,
    pub overruns: u64,
    pub max_depth_seen: usize,
}

#[derive(Clone, Debug)]
pub enum HangupReason {
    Normal,
    Busy,
    Declined,
    Timeout,
    Error,
    ProtocolVersionMismatch { server_supported: Vec<u8> },
}

/// How an incoming call is answered.
#[derive(Clone, Copy, Debug, PartialEq, Eq, Structural)]
pub enum CallAcceptMode {
    Reject,
    AcceptTrusted,
    AcceptGeneric,
}

/// The network that the device is on.
#[derive(Clone, Copy, Debug, PartialEq, Eq, Structural)]
pub enum NetworkContext {
    WiFi,
    CellularLte,
    Cellular5g,
    Cellular3g,
    Unknown,
}

/// A participant of a room, as the relay lists it.
#[derive(Clone, Debug)]
pub struct Participant {
    pub fingerprint: String,
    pub alias: Option<String>,
    pub relay_label: Option<String>,
}

/// A message of the signaling protocol.
#[allow(inconsistent_fields)]
#[derive(Clone, Debug)]
pub enum SignalMessage {
    CallOffer {
        identity_pub: Vec<u8>,
        ephemeral_pub: Vec<u8>,
        signature: Vec<u8>,
        supported_profiles: Vec<QualityProfile>,
        alias: Option<String>,
        protocol_version: u8,
        supported_versions: Vec<u8>,
        video_codecs: Vec<CodecId>,
    },
    CallAnswer {
        identity_pub: Vec<u8>,
        ephemeral_pub: Vec<u8>,
        signature: Vec<u8>,
        chosen_profile: QualityProfile,
        video_codec: Option<CodecId>,
    },
    IceCandidate { candidate: String },
    Hangup { reason: HangupReason },
    Rekey { new_ephemeral_pub: Vec<u8>, signature: Vec<u8> },
    QualityUpdate { report: QualityReport, recommended_profile: QualityProfile },
    Ping { timestamp_ms: u64 },
    Pong { timestamp_ms: u64 },
    AuthToken { token: String },
    Hold,
    Unhold,
    Mute,
    Unmute,
    Transfer { target_fingerprint: String, relay_addr: Option<String> },
    TransferAck,
    PresenceUpdate { fingerprints: Vec<String>, relay_addr: String },
    RegisterPresence { identity_pub: Vec<u8>, signature: Vec<u8>, alias: Option<String> },
    RegisterPresenceAck { success: bool, error: Option<String> },
    Reflect,
    ReflectResponse { observed_addr: String },
    CandidateUpdate {
        call_id: String,
        reflexive_addr: Option<String>,
        local_addrs: Vec<String>,
        mapped_addr: Option<String>,
        generation: u32,
    },
    DirectCallOffer {
        caller_fingerprint: String,
        caller_alias: Option<String>,
        target_fingerprint: String,
        call_id: String,
        identity_pub: Vec<u8>,
        ephemeral_pub: Vec<u8>,
        signature: Vec<u8>,
        supported_profiles: Vec<QualityProfile>,
    },
    DirectCallAnswer {
        call_id: String,
        accept_mode: CallAcceptMode,
        identity_pub: Option<Vec<u8>>,
        ephemeral_pub: Option<Vec<u8>>,
        signature: Option<Vec<u8>>,
        chosen_profile: Option<QualityProfile>,
    },
    CallRinging { call_id: String },
    CallSetup { call_id: String, room: String, relay_addr: String },
    RoomUpdate { count: u32, participants: Vec<Participant> },
}

/// The text in an optional string.
pub open spec fn opt_text(s: Option<String>) -> Option<Seq<char>> {
    match s {
        Some(t) => Some(t@),
        None => None,
    }
}

/// A copy of an optional string.
pub fn clone_opt(s: &Option<String>) -> (r: Option<String>)
    ensures
        opt_text(r) == opt_text(*s),
{
    match s {
        Some(t) => Some(t.clone()),
        None => None,
    }
}

} // verus!
