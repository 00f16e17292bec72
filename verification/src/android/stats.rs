//! What the app shows of a call.
use vstd::prelude::*;

use crate::proto::{clone_opt, opt_text, CodecId, Participant};

verus! {

#[derive(Clone, Copy, Debug, PartialEq, Eq, Structural)]
pub enum CallState {
    Idle,
    Connecting,
    Active,
    Reconnecting,
    Closed,
    /// Known to the relay, and waiting for calls.
    Registered,
    /// A call was placed and rings.
    Ringing,
    IncomingCall,
}

impl Default for CallState {
    fn default() -> (r: Self)
        ensures
            r == CallState::Idle,
    {
        CallState::Idle
    }
}

impl CallState {
    /// The number by which the app knows a state.
    pub open spec fn number(self) -> u8 {
        match self {
            CallState::Idle => 0,
            CallState::Connecting => 1,
            CallState::Active => 2,
            CallState::Reconnecting => 3,
            CallState::Closed => 4,
            CallState::Registered => 5,
            CallState::Ringing => 6,
            CallState::IncomingCall => 7,
        }
    }

    pub fn code(&self) -> (r: u8)
        ensures
            r == self.number(),
    {
        match self {
            CallState::Idle => 0,
            CallState::Connecting => 1,
            CallState::Active => 2,
            CallState::Reconnecting => 3,
            CallState::Closed => 4,
            CallState::Registered => 5,
            CallState::Ringing => 6,
            CallState::IncomingCall => 7,
        }
    }
}

/// Two states with one number are the same state.
pub proof fn lemma_state_numbers_distinct(a: CallState, b: CallState)
    requires
        a.number() == b.number(),
    ensures
        a == b,
{
}

/// A participant of the room.
#[derive(Clone, Debug)]
pub struct RoomMember {
    pub fingerprint: String,
    pub alias: Option<String>,
    pub relay_label: Option<String>,
}

pub struct MemberView {
    pub fingerprint: Seq<char>,
    pub alias: Option<Seq<char>>,
    pub relay_label: Option<Seq<char>>,
}

impl View for RoomMember {
    type V = MemberView;

    open spec fn view(&self) -> MemberView {
        MemberView {
            fingerprint: self.fingerprint@,
            alias: opt_text(self.alias),
            relay_label: opt_text(self.relay_label),
        }
    }
}

pub open spec fn participant_view(p: Participant) -> MemberView {
    MemberView {
        fingerprint: p.fingerprint@,
        alias: opt_text(p.alias),
        relay_label: opt_text(p.relay_label),
    }
}

pub open spec fn members_view(v: Seq<RoomMember>) -> Seq<MemberView> {
    v.map_values(|m: RoomMember| m@)
}

pub open spec fn participants_view(v: Seq<Participant>) -> Seq<MemberView> {
    v.map_values(|p: Participant| participant_view(p))
}

/// The participants of a room update, for the app.
pub fn room_members(participants: &[Participant]) -> (r: Vec<RoomMember>)
    ensures
        members_view(r@) == participants_view(participants@),
{
    let ghost all = participants_view(participants@);
    let mut r: Vec<RoomMember> = Vec::new();
    let mut i: usize = 0;
    while i < participants.len()
        invariant
            i <= participants@.len(),
            all == participants_view(participants@),
            members_view(r@) == all.take(i as int),
        decreases participants.len() - i,
    {
        let ghost before = r@;
        let p = &participants[i];
        r.push(
            RoomMember {
                fingerprint: p.fingerprint.clone(),
                alias: clone_opt(&p.alias),
                relay_label: clone_opt(&p.relay_label),
            },
        );
        i += 1;
        proof {
            assert(members_view(r@) =~= members_view(before).push(participant_view(participants@[i - 1])));
            assert(members_view(r@) =~= all.take(i as int));
        }
    }
    assert(all.take(i as int) =~= all);
    r
}

/// Numbers of a call.
#[derive(Clone, Debug)]
pub struct CallStats {
    pub state: CallState,
    pub duration_ns: u64,
    pub quality_tier: u8,
    pub rtt_ms: u32,
    pub jitter_ms: u32,
    pub jitter_buffer_depth: usize,
    pub frames_encoded: u64,
    pub frames_decoded: u64,
    pub underruns: u64,
    pub fec_recovered: u64,
    /// Losses made good from redundancy, and concealed by the codec.
    pub dred_reconstructions: u64,
    pub classical_plc_invocations: u64,
    /// How often the playout ring was full, and empty.
    pub playout_overflows: u64,
    pub playout_underruns: u64,
    /// How often the capture ring was full.
    pub capture_overflows: u64,
    /// Loudness of the microphone.
    pub audio_level: u32,
    pub current_codec: Option<CodecId>,
    pub peer_codec: Option<CodecId>,
    pub auto_mode: bool,
    pub room_participant_count: u32,
    pub room_participants: Vec<RoomMember>,
    /// The call that comes in, or where the call that was set up is: relay and
    /// room, with a bar between them.
    pub incoming_call_id: Option<String>,
    pub incoming_caller_fp: Option<String>,
    pub incoming_caller_alias: Option<String>,
}

impl CallStats {
    /// All zero, in a state.
    pub open spec fn fresh(self, state: CallState) -> bool {
        &&& self.state == state
        &&& self.duration_ns == 0
        &&& self.quality_tier == 0
        &&& self.rtt_ms == 0
        &&& self.jitter_ms == 0
        &&& self.jitter_buffer_depth == 0
        &&& self.frames_encoded == 0
        &&& self.frames_decoded == 0
        &&& self.underruns == 0
        &&& self.fec_recovered == 0
        &&& self.dred_reconstructions == 0
        &&& self.classical_plc_invocations == 0
        &&& self.playout_overflows == 0
        &&& self.playout_underruns == 0
        &&& self.capture_overflows == 0
        &&& self.audio_level == 0
        &&& self.current_codec is None
        &&& self.peer_codec is None
        &&& !self.auto_mode
        &&& self.room_participant_count == 0
        &&& self.room_participants@.len() == 0
        &&& self.incoming_call_id is None
        &&& self.incoming_caller_fp is None
        &&& self.incoming_caller_alias is None
    }

    /// The same numbers, participants and texts.
    pub open spec fn same_as(self, other: CallStats) -> bool {
        &&& self.state == other.state
        &&& self.duration_ns == other.duration_ns
        &&& self.quality_tier == other.quality_tier
        &&& self.rtt_ms == other.rtt_ms
        &&& self.jitter_ms == other.jitter_ms
        &&& self.jitter_buffer_depth == other.jitter_buffer_depth
        &&& self.frames_encoded == other.frames_encoded
        &&& self.frames_decoded == other.frames_decoded
        &&& self.underruns == other.underruns
        &&& self.fec_recovered == other.fec_recovered
        &&& self.dred_reconstructions == other.dred_reconstructions
        &&& self.classical_plc_invocations == other.classical_plc_invocations
        &&& self.playout_overflows == other.playout_overflows
        &&& self.playout_underruns == other.playout_underruns
        &&& self.capture_overflows == other.capture_overflows
        &&& self.audio_level == other.audio_level
        &&& self.current_codec == other.current_codec
        &&& self.peer_codec == other.peer_codec
        &&& self.auto_mode == other.auto_mode
        &&& self.room_participant_count == other.room_participant_count
        &&& members_view(self.room_participants@) == members_view(other.room_participants@)
        &&& opt_text(self.incoming_call_id) == opt_text(other.incoming_call_id)
        &&& opt_text(self.incoming_caller_fp) == opt_text(other.incoming_caller_fp)
        &&& opt_text(self.incoming_caller_alias) == opt_text(other.incoming_caller_alias)
    }

    /// A copy.
    pub fn copied(&self) -> (r: Self)
        ensures
            r.same_as(*self),
    {
        let ghost all = members_view(self.room_participants@);
        let mut members: Vec<RoomMember> = Vec::new();
        let mut i: usize = 0;
        assert(members_view(members@) =~= all.take(0));
        while i < self.room_participants.len()
            invariant
                i <= self.room_participants@.len(),
                all == members_view(self.room_participants@),
                members_view(members@) == all.take(i as int),
            decreases self.room_participants.len() - i,
        {
            let ghost before = members@;
            let m = &self.room_participants[i];
            members.push(
                RoomMember {
                    fingerprint: m.fingerprint.clone(),
                    alias: clone_opt(&m.alias),
                    relay_label: clone_opt(&m.relay_label),
                },
            );
            i += 1;
            proof {
                assert(members_view(members@) =~= members_view(before).push(all[i - 1]));
                assert(members_view(members@) =~= all.take(i as int));
            }
        }
        assert(all.take(i as int) =~= all);
        CallStats {
            state: self.state,
            duration_ns: self.duration_ns,
            quality_tier: self.quality_tier,
            rtt_ms: self.rtt_ms,
            jitter_ms: self.jitter_ms,
            jitter_buffer_depth: self.jitter_buffer_depth,
            frames_encoded: self.frames_encoded,
            frames_decoded: self.frames_decoded,
            underruns: self.underruns,
            fec_recovered: self.fec_recovered,
            dred_reconstructions: self.dred_reconstructions,
            classical_plc_invocations: self.classical_plc_invocations,
            playout_overflows: self.playout_overflows,
            playout_underruns: self.playout_underruns,
            capture_overflows: self.capture_overflows,
            audio_level: self.audio_level,
            current_codec: self.current_codec,
            peer_codec: self.peer_codec,
            auto_mode: self.auto_mode,
            room_participant_count: self.room_participant_count,
            room_participants: members,
            incoming_call_id: clone_opt(&self.incoming_call_id),
            incoming_caller_fp: clone_opt(&self.incoming_caller_fp),
            incoming_caller_alias: clone_opt(&self.incoming_caller_alias),
        }
    }

    pub fn in_state(state: CallState) -> (r: Self)
        ensures
            r.fresh(state),
    {
        CallStats {
            state,
            duration_ns: 0,
            quality_tier: 0,
            rtt_ms: 0,
            jitter_ms: 0,
            jitter_buffer_depth: 0,
            frames_encoded: 0,
            frames_decoded: 0,
            underruns: 0,
            fec_recovered: 0,
            dred_reconstructions: 0,
            classical_plc_invocations: 0,
            playout_overflows: 0,
            playout_underruns: 0,
            capture_overflows: 0,
            audio_level: 0,
            current_codec: None,
            peer_codec: None,
            auto_mode: false,
            room_participant_count: 0,
            room_participants: Vec::new(),
            incoming_call_id: None,
            incoming_caller_fp: None,
            incoming_caller_alias: None,
        }
    }
}

impl Default for CallStats {
    fn default() -> (r: Self)
        ensures
            r.fresh(CallState::Idle),
    {
        CallStats::in_state(CallState::Idle)
    }
}

} // verus!
