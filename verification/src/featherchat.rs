//! Call signals through a chat server.
use vstd::prelude::*;
use vstd::string::StringExecFns;

use crate::proto::{opt_text, SignalMessage};

verus! {

broadcast use vstd::string::group_string_axioms;

/// The chat server's kinds of call signals.
#[derive(Clone, Copy, Debug, PartialEq, Eq, Structural)]
pub enum CallSignalType {
    Offer,
    Answer,
    IceCandidate,
    Hangup,
    Reject,
    Ringing,
    Busy,
    Hold,
    Unhold,
    Mute,
    Unmute,
    Transfer,
}

/// A signal with where to meet for media.
#[derive(Clone, Debug)]
pub struct WzpCallPayload {
    pub signal: SignalMessage,
    /// The relay, as host and port.
    pub relay_addr: Option<String>,
    pub room: Option<String>,
}

/// What it takes to call someone.
#[derive(Clone, Debug)]
pub struct CallInitParams {
    pub server_url: String,
    pub token: String,
    pub target_fingerprint: String,
    pub relay_addr: String,
    pub room: String,
    pub seed: [u8; 32],
}

/// Where a call that was set up takes place.
#[derive(Clone, Debug)]
pub struct CallSetupResult {
    pub relay_addr: String,
    pub room: String,
    pub answer: SignalMessage,
}

/// The payload for a signal.
pub fn call_payload(signal: SignalMessage, relay_addr: Option<&str>, room: Option<&str>) -> (r:
    WzpCallPayload)
    ensures
        r.signal == signal,
        opt_text(r.relay_addr) == match relay_addr {
            Some(s) => Some(s@),
            None => None,
        },
        opt_text(r.room) == match room {
            Some(s) => Some(s@),
            None => None,
        },
{
    WzpCallPayload {
        signal,
        relay_addr: match relay_addr {
            Some(s) => Some(String::from_str(s)),
            None => None,
        },
        room: match room {
            Some(s) => Some(String::from_str(s)),
            None => None,
        },
    }
}

/// The kind under which a signal is sent. What the chat server has no kind
/// for goes as an offer.
pub open spec fn call_type(signal: SignalMessage) -> CallSignalType {
    match signal {
        SignalMessage::CallAnswer { .. } => CallSignalType::Answer,
        SignalMessage::IceCandidate { .. } => CallSignalType::IceCandidate,
        SignalMessage::Hangup { .. } => CallSignalType::Hangup,
        SignalMessage::Hold => CallSignalType::Hold,
        SignalMessage::Unhold => CallSignalType::Unhold,
        SignalMessage::Mute => CallSignalType::Mute,
        SignalMessage::Unmute => CallSignalType::Unmute,
        SignalMessage::Transfer { .. } => CallSignalType::Transfer,
        _ => CallSignalType::Offer,
    }
}

pub fn signal_to_call_type(signal: &SignalMessage) -> (r: CallSignalType)
    ensures
        r == call_type(*signal),
{
    match signal {
        SignalMessage::CallAnswer { .. } => CallSignalType::Answer,
        SignalMessage::IceCandidate { .. } => CallSignalType::IceCandidate,
        SignalMessage::Hangup { .. } => CallSignalType::Hangup,
        SignalMessage::Hold => CallSignalType::Hold,
        SignalMessage::Unhold => CallSignalType::Unhold,
        SignalMessage::Mute => CallSignalType::Mute,
        SignalMessage::Unmute => CallSignalType::Unmute,
        SignalMessage::Transfer { .. } => CallSignalType::Transfer,
        _ => CallSignalType::Offer,
    }
}

} // verus!
