//! The signaling connection of the app, which outlives calls.
use vstd::prelude::*;
use vstd::string::StringExecFns;

use crate::proto::{
    clone_opt, good_profile, opt_text, CallAcceptMode, HangupReason, QualityProfile, SignalMessage,
};
use crate::text::{hex_padded, push_hex_padded};

verus! {

broadcast use vstd::string::group_string_axioms;

/// What the app sees of the signaling connection.
#[derive(Clone, Debug)]
pub struct SignalState {
    /// "connecting", "idle", "registered", "ringing", "incoming" or "setup".
    pub status: String,
    pub fingerprint: String,
    pub incoming_call_id: Option<String>,
    pub incoming_caller_fp: Option<String>,
    pub incoming_caller_alias: Option<String>,
    pub call_setup_relay: Option<String>,
    pub call_setup_room: Option<String>,
    pub call_setup_id: Option<String>,
}

#[verifier::ext_equal]
pub struct SignalView {
    pub status: Seq<char>,
    pub fingerprint: Seq<char>,
    pub incoming_call_id: Option<Seq<char>>,
    pub incoming_caller_fp: Option<Seq<char>>,
    pub incoming_caller_alias: Option<Seq<char>>,
    pub call_setup_relay: Option<Seq<char>>,
    pub call_setup_room: Option<Seq<char>>,
    pub call_setup_id: Option<Seq<char>>,
}

impl View for SignalState {
    type V = SignalView;

    open spec fn view(&self) -> SignalView {
        SignalView {
            status: self.status@,
            fingerprint: self.fingerprint@,
            incoming_call_id: opt_text(self.incoming_call_id),
            incoming_caller_fp: opt_text(self.incoming_caller_fp),
            incoming_caller_alias: opt_text(self.incoming_caller_alias),
            call_setup_relay: opt_text(self.call_setup_relay),
            call_setup_room: opt_text(self.call_setup_room),
            call_setup_id: opt_text(self.call_setup_id),
        }
    }
}

/// A state without a call.
pub open spec fn without_call(status: Seq<char>, fingerprint: Seq<char>) -> SignalView {
    SignalView {
        status,
        fingerprint,
        incoming_call_id: None,
        incoming_caller_fp: None,
        incoming_caller_alias: None,
        call_setup_relay: None,
        call_setup_room: None,
        call_setup_id: None,
    }
}

impl SignalView {
    /// What a signal changes.
    pub open spec fn after(self, msg: SignalMessage) -> SignalView {
        match msg {
            SignalMessage::CallRinging { .. } => SignalView { status: "ringing"@, ..self },
            SignalMessage::DirectCallOffer {
                caller_fingerprint,
                caller_alias,
                call_id,
                ..
            } => SignalView {
                status: "incoming"@,
                incoming_call_id: Some(call_id@),
                incoming_caller_fp: Some(caller_fingerprint@),
                incoming_caller_alias: opt_text(caller_alias),
                ..self
            },
            SignalMessage::CallSetup { call_id, room, relay_addr } => SignalView {
                status: "setup"@,
                call_setup_relay: Some(relay_addr@),
                call_setup_room: Some(room@),
                call_setup_id: Some(call_id@),
                ..self
            },
            SignalMessage::Hangup { .. } => without_call("registered"@, self.fingerprint),
            _ => self,
        }
    }

    /// What a series of signals changes.
    pub open spec fn after_all(self, msgs: Seq<SignalMessage>) -> SignalView
        decreases msgs.len(),
    {
        if msgs.len() == 0 {
            self
        } else {
            self.after_all(msgs.drop_last()).after(msgs.last())
        }
    }
}

/// After a hangup nothing of any earlier call is left, whatever signals came
/// before it.
pub proof fn lemma_hangup_clears(s: SignalView, msgs: Seq<SignalMessage>, reason: HangupReason)
    ensures
        s.after_all(msgs.push(SignalMessage::Hangup { reason })) == without_call(
            "registered"@,
            s.fingerprint,
        ),
    decreases msgs.len(),
{
    let all = msgs.push(SignalMessage::Hangup { reason });
    assert(all.drop_last() =~= msgs);
    lemma_fingerprint_stays(s, msgs);
}

/// No signal changes the fingerprint.
pub proof fn lemma_fingerprint_stays(s: SignalView, msgs: Seq<SignalMessage>)
    ensures
        s.after_all(msgs).fingerprint == s.fingerprint,
    decreases msgs.len(),
{
    if msgs.len() > 0 {
        lemma_fingerprint_stays(s, msgs.drop_last());
    }
}

impl SignalState {
    /// Before the relay has answered.
    pub fn connecting(fingerprint: &str) -> (r: Self)
        ensures
            r@ == without_call("connecting"@, fingerprint@),
    {
        SignalState {
            status: String::from_str("connecting"),
            fingerprint: String::from_str(fingerprint),
            incoming_call_id: None,
            incoming_caller_fp: None,
            incoming_caller_alias: None,
            call_setup_relay: None,
            call_setup_room: None,
            call_setup_id: None,
        }
    }

    /// Takes in the answer to the registration; says whether to go on.
    pub fn on_registration(&mut self, answer: Option<&SignalMessage>) -> (r: bool)
        ensures
            r == match answer {
                Some(SignalMessage::RegisterPresenceAck { success, .. }) => *success,
                _ => false,
            },
            final(self)@ == (SignalView {
                status: if r {
                    "registered"@
                } else {
                    "idle"@
                },
                ..old(self)@
            }),
    {
        let ok = match answer {
            Some(SignalMessage::RegisterPresenceAck { success, .. }) => *success,
            _ => false,
        };
        if ok {
            self.status = String::from_str("registered");
        } else {
            self.status = String::from_str("idle");
        }
        ok
    }

    pub fn on_signal(&mut self, msg: &SignalMessage)
        ensures
            final(self)@ == old(self)@.after(*msg),
    {
        match msg {
            SignalMessage::CallRinging { .. } => {
                self.status = String::from_str("ringing");
            },
            SignalMessage::DirectCallOffer {
                caller_fingerprint,
                caller_alias,
                call_id,
                ..
            } => {
                self.status = String::from_str("incoming");
                self.incoming_call_id = Some(call_id.clone());
                self.incoming_caller_fp = Some(caller_fingerprint.clone());
                self.incoming_caller_alias = clone_opt(caller_alias);
            },
            SignalMessage::CallSetup { call_id, room, relay_addr } => {
                self.status = String::from_str("setup");
                self.call_setup_relay = Some(relay_addr.clone());
                self.call_setup_room = Some(room.clone());
                self.call_setup_id = Some(call_id.clone());
            },
            SignalMessage::Hangup { .. } => {
                self.call_over();
            },
            _ => {},
        }
    }

    /// The call is over, by either side.
    pub fn call_over(&mut self)
        ensures
            final(self)@ == without_call("registered"@, old(self)@.fingerprint),
    {
        self.status = String::from_str("registered");
        self.incoming_call_id = None;
        self.incoming_caller_fp = None;
        self.incoming_caller_alias = None;
        self.call_setup_relay = None;
        self.call_setup_room = None;
        self.call_setup_id = None;
    }

    /// The connection is gone, or never came about.
    pub fn closed(&mut self)
        ensures
            final(self)@ == (SignalView { status: "idle"@, ..old(self)@ }),
    {
        self.status = String::from_str("idle");
    }

    /// A copy.
    pub fn get_state(&self) -> (r: Self)
        ensures
            r@ == self@,
    {
        SignalState {
            status: self.status.clone(),
            fingerprint: self.fingerprint.clone(),
            incoming_call_id: clone_opt(&self.incoming_call_id),
            incoming_caller_fp: clone_opt(&self.incoming_caller_fp),
            incoming_caller_alias: clone_opt(&self.incoming_caller_alias),
            call_setup_relay: clone_opt(&self.call_setup_relay),
            call_setup_room: clone_opt(&self.call_setup_room),
            call_setup_id: clone_opt(&self.call_setup_id),
        }
    }

    /// The signal that places a call. The call is named after the time, in
    /// nanoseconds of the wall clock.
    pub fn place_call(&self, target_fp: &str, nanos: u64) -> (r: SignalMessage)
        ensures
            match r {
                SignalMessage::DirectCallOffer {
                    caller_fingerprint,
                    caller_alias,
                    target_fingerprint,
                    call_id,
                    identity_pub,
                    ephemeral_pub,
                    signature,
                    supported_profiles,
                } => {
                    &&& caller_fingerprint@ == self.fingerprint@
                    &&& caller_alias is None
                    &&& target_fingerprint@ == target_fp@
                    &&& call_id@ == hex_padded(nanos as nat, 16)
                    &&& call_id@.len() == 2 * 8 && crate::text::hex_value(call_id@) == nanos
                    &&& identity_pub@ == Seq::new(32, |i: int| 0u8)
                    &&& ephemeral_pub@ == Seq::new(32, |i: int| 0u8)
                    &&& signature@ == Seq::<u8>::empty()
                    &&& supported_profiles@ == seq![good_profile()]
                },
                _ => false,
            },
    {
        let mut call_id = String::new();
        push_hex_padded(&mut call_id, nanos, 16);
        assert(call_id@ =~= hex_padded(nanos as nat, 16));
        proof {
            crate::text::lemma_hex_of_u64(nanos);
        }
        let identity_pub: Vec<u8> = vec![0u8; 32];
        let ephemeral_pub: Vec<u8> = vec![0u8; 32];
        let supported_profiles: Vec<QualityProfile> = vec![QualityProfile::good()];
        assert(supported_profiles@ =~= seq![good_profile()]);
        SignalMessage::DirectCallOffer {
            caller_fingerprint: self.fingerprint.clone(),
            caller_alias: None,
            target_fingerprint: String::from_str(target_fp),
            call_id,
            identity_pub,
            ephemeral_pub,
            signature: Vec::new(),
            supported_profiles,
        }
    }

    /// The signal that answers a call.
    pub fn answer_call(call_id: &str, mode: CallAcceptMode) -> (r: SignalMessage)
        ensures
            match r {
                SignalMessage::DirectCallAnswer {
                    call_id: id,
                    accept_mode,
                    identity_pub,
                    ephemeral_pub,
                    signature,
                    chosen_profile,
                } => {
                    &&& id@ == call_id@
                    &&& accept_mode == mode
                    &&& identity_pub is None
                    &&& ephemeral_pub is None
                    &&& signature is None
                    &&& chosen_profile == Some(good_profile())
                },
                _ => false,
            },
    {
        SignalMessage::DirectCallAnswer {
            call_id: String::from_str(call_id),
            accept_mode: mode,
            identity_pub: None,
            ephemeral_pub: None,
            signature: None,
            chosen_profile: Some(QualityProfile::good()),
        }
    }

    /// The signal that ends a call.
    pub fn hangup() -> (r: SignalMessage)
        ensures
            r == (SignalMessage::Hangup { reason: HangupReason::Normal }),
    {
        SignalMessage::Hangup { reason: HangupReason::Normal }
    }
}

} // verus!
