//! Commands to a running engine.
use vstd::prelude::*;

use crate::proto::{CallAcceptMode, QualityProfile};

verus! {

#[derive(Clone, Debug)]
pub enum EngineCommand {
    SetMute(bool),
    SetSpeaker(bool),
    ForceProfile(QualityProfile),
    PlaceCall { target_fingerprint: String },
    AnswerCall { call_id: String, accept_mode: CallAcceptMode },
    Stop,
}

} // verus!
