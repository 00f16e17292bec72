//! The caller's side of the key exchange: what is signed, what is offered,
//! and what the answer amounts to.
use vstd::prelude::*;
use vstd::string::StringExecFns;
use vstd::utf8::encode_utf8;

use crate::proto::{
    offered_profiles, opt_text, supported_profiles, CodecId, HangupReason, QualityProfile,
    SignalMessage,
};
use crate::text::{decimal, push_decimal};

verus! {

broadcast use vstd::string::group_string_axioms;

/// How long the answer is waited for, in milliseconds.
pub const ANSWER_TIMEOUT_MS: u64 = 10_000;

/// The video codecs that are offered.
pub fn supported_video_codecs() -> (r: Vec<CodecId>)
    ensures
        r@ == seq![CodecId::H264Baseline],
{
    let r: Vec<CodecId> = vec![CodecId::H264Baseline];
    assert(r@ =~= seq![CodecId::H264Baseline]);
    r
}

/// What the caller signs: its ephemeral key, marked as an offer.
pub open spec fn offer_data(ephemeral_pub: Seq<u8>) -> Seq<u8> {
    ephemeral_pub + encode_utf8("call-offer"@)
}

/// What the callee signs: its ephemeral key, marked as an answer.
pub open spec fn answer_data(ephemeral_pub: Seq<u8>) -> Seq<u8> {
    ephemeral_pub + encode_utf8("call-answer"@)
}

pub fn offer_sign_data(ephemeral_pub: &[u8]) -> (r: Vec<u8>)
    ensures
        r@ == offer_data(ephemeral_pub@),
{
    let mut r: Vec<u8> = Vec::new();
    r.extend_from_slice(ephemeral_pub);
    r.extend_from_slice("call-offer".as_bytes());
    assert(r@ =~= offer_data(ephemeral_pub@));
    r
}

pub fn answer_sign_data(ephemeral_pub: &[u8]) -> (r: Vec<u8>)
    ensures
        r@ == answer_data(ephemeral_pub@),
{
    let mut r: Vec<u8> = Vec::new();
    r.extend_from_slice(ephemeral_pub);
    r.extend_from_slice("call-answer".as_bytes());
    assert(r@ =~= answer_data(ephemeral_pub@));
    r
}

/// The offer of a call.
pub fn call_offer(
    identity_pub: Vec<u8>,
    ephemeral_pub: Vec<u8>,
    signature: Vec<u8>,
    alias: Option<&str>,
) -> (r: SignalMessage)
    ensures
        match r {
            SignalMessage::CallOffer {
                identity_pub: i,
                ephemeral_pub: e,
                signature: s,
                supported_profiles,
                alias: a,
                protocol_version,
                supported_versions,
                video_codecs,
            } => {
                &&& i == identity_pub
                &&& e == ephemeral_pub
                &&& s == signature
                &&& supported_profiles@ == offered_profiles()
                &&& opt_text(a) == match alias {
                    Some(t) => Some(t@),
                    None => None,
                }
                &&& protocol_version == 2
                &&& supported_versions@ == seq![2u8]
                &&& video_codecs@ == seq![CodecId::H264Baseline]
            },
            _ => false,
        },
{
    let supported_versions: Vec<u8> = vec![2];
    assert(supported_versions@ =~= seq![2u8]);
    SignalMessage::CallOffer {
        identity_pub,
        ephemeral_pub,
        signature,
        supported_profiles: supported_profiles(),
        alias: match alias {
            Some(t) => Some(String::from_str(t)),
            None => None,
        },
        protocol_version: 2,
        supported_versions,
        video_codecs: supported_video_codecs(),
    }
}

/// Why a handshake failed.
#[derive(Debug)]
pub enum HandshakeError {
    ConnectionClosed,
    ProtocolVersionMismatch { server_supported: Vec<u8> },
    UnexpectedSignal(String),
    SignatureVerificationFailed,
    KeyDerivation(String),
    Transport(String),
}

/// Numbers with commas between them.
pub open spec fn joined(v: Seq<u8>) -> Seq<char>
    decreases v.len(),
{
    if v.len() == 0 {
        Seq::empty()
    } else if v.len() == 1 {
        decimal(v[0] as nat)
    } else {
        joined(v.drop_last()) + ", "@ + decimal(v.last() as nat)
    }
}

fn push_joined(out: &mut String, v: &[u8])
    ensures
        final(out)@ == old(out)@ + joined(v@),
{
    let ghost start = out@;
    let mut i: usize = 0;
    assert(v@.take(0) =~= Seq::empty());
    assert(start + joined(v@.take(0)) =~= start);
    while i < v.len()
        invariant
            i <= v@.len(),
            out@ == start + joined(v@.take(i as int)),
        decreases v.len() - i,
    {
        let ghost next = v@.take(i + 1);
        assert(next.drop_last() =~= v@.take(i as int));
        if i > 0 {
            out.append(", ");
        }
        push_decimal(out, v[i] as u64);
        i += 1;
        assert(out@ =~= start + joined(next));
    }
    assert(v@.take(i as int) =~= v@);
}

impl HandshakeError {
    pub open spec fn message(self) -> Seq<char> {
        match self {
            HandshakeError::ConnectionClosed => "connection closed before receiving CallAnswer"@,
            HandshakeError::ProtocolVersionMismatch { server_supported } =>
                "protocol version mismatch: server supports ["@ + joined(server_supported@) + "]"@,
            HandshakeError::UnexpectedSignal(expected) => "expected CallAnswer, got "@ + expected@,
            HandshakeError::SignatureVerificationFailed => "callee signature verification failed"@,
            HandshakeError::KeyDerivation(msg) => "key derivation failed: "@ + msg@,
            HandshakeError::Transport(e) => "transport error: "@ + e@,
        }
    }

    pub fn to_string(&self) -> (r: String)
        ensures
            r@ == self.message(),
    {
        match self {
            HandshakeError::ConnectionClosed => String::from_str(
                "connection closed before receiving CallAnswer",
            ),
            HandshakeError::ProtocolVersionMismatch { server_supported } => {
                let mut m = String::from_str("protocol version mismatch: server supports [");
                push_joined(&mut m, server_supported.as_slice());
                m.append("]");
                m
            },
            HandshakeError::UnexpectedSignal(expected) => {
                let mut m = String::from_str("expected CallAnswer, got ");
                m.append(expected.as_str());
                m
            },
            HandshakeError::SignatureVerificationFailed => String::from_str(
                "callee signature verification failed",
            ),
            HandshakeError::KeyDerivation(msg) => {
                let mut m = String::from_str("key derivation failed: ");
                m.append(msg.as_str());
                m
            },
            HandshakeError::Transport(e) => {
                let mut m = String::from_str("transport error: ");
                m.append(e.as_str());
                m
            },
        }
    }
}

/// What the callee answered.
#[derive(Debug)]
pub struct Answer {
    pub identity_pub: Vec<u8>,
    pub ephemeral_pub: Vec<u8>,
    pub signature: Vec<u8>,
    pub chosen_profile: QualityProfile,
    pub video_codec: Option<CodecId>,
}

/// Reads what came in answer to the offer; a failure to receive is told in
/// its own words.
pub fn read_answer(received: Result<Option<SignalMessage>, String>) -> (r: Result<
    Answer,
    HandshakeError,
>)
    ensures
        match received {
            Err(e) => r matches Err(HandshakeError::Transport(t)) && t@ == e@,
            Ok(None) => r matches Err(HandshakeError::ConnectionClosed),
            Ok(
                Some(
                    SignalMessage::CallAnswer {
                        identity_pub,
                        ephemeral_pub,
                        signature,
                        chosen_profile,
                        video_codec,
                    },
                ),
            ) => r == Ok::<Answer, HandshakeError>(
                Answer { identity_pub, ephemeral_pub, signature, chosen_profile, video_codec },
            ),
            Ok(
                Some(
                    SignalMessage::Hangup {
                        reason: HangupReason::ProtocolVersionMismatch { server_supported },
                    },
                ),
            ) => r == Err::<Answer, HandshakeError>(
                HandshakeError::ProtocolVersionMismatch { server_supported },
            ),
            Ok(Some(_)) => r matches Err(HandshakeError::UnexpectedSignal(s)) && s@
                == "CallAnswer"@,
        },
{
    match received {
        Err(e) => Err(HandshakeError::Transport(e)),
        Ok(None) => Err(HandshakeError::ConnectionClosed),
        Ok(Some(msg)) => match msg {
            SignalMessage::CallAnswer {
                identity_pub,
                ephemeral_pub,
                signature,
                chosen_profile,
                video_codec,
            } => Ok(Answer { identity_pub, ephemeral_pub, signature, chosen_profile, video_codec }),
            SignalMessage::Hangup {
                reason: HangupReason::ProtocolVersionMismatch { server_supported },
            } => Err(HandshakeError::ProtocolVersionMismatch { server_supported }),
            _ => Err(HandshakeError::UnexpectedSignal(String::from_str("CallAnswer"))),
        },
    }
}

/// What a handshake has agreed on.
#[derive(Debug)]
pub struct HandshakeResult {
    pub video_codec: Option<CodecId>,
}

/// Ends a handshake: the callee's signature comes first, then the session
/// that was, or was not, derived.
pub fn finish_handshake(answer: &Answer, signature_ok: bool, session: Result<(), String>) -> (r:
    Result<HandshakeResult, HandshakeError>)
    ensures
        if !signature_ok {
            r matches Err(HandshakeError::SignatureVerificationFailed)
        } else {
            match session {
                Err(e) => r == Err::<HandshakeResult, HandshakeError>(
                    HandshakeError::KeyDerivation(e),
                ),
                Ok(_) => r == Ok::<HandshakeResult, HandshakeError>(
                    HandshakeResult { video_codec: answer.video_codec },
                ),
            }
        },
{
    if !signature_ok {
        return Err(HandshakeError::SignatureVerificationFailed);
    }
    match session {
        Err(e) => Err(HandshakeError::KeyDerivation(e)),
        Ok(_) => Ok(HandshakeResult { video_codec: answer.video_codec }),
    }
}

/// A signature over an offer is no signature over an answer, whatever the
/// keys: with keys of one length no offer is signed in the same words as any
/// answer.
pub proof fn lemma_offer_is_no_answer(a: Seq<u8>, b: Seq<u8>)
    requires
        a.len() == b.len(),
    ensures
        offer_data(a) != answer_data(b),
{
    reveal_strlit("call-offer");
    reveal_strlit("call-answer");
    assert(encode_utf8("call-offer"@).len() == 10) by {
        vstd::utf8::is_ascii_chars_encode_utf8("call-offer"@);
    }
    assert(encode_utf8("call-answer"@).len() == 11) by {
        vstd::utf8::is_ascii_chars_encode_utf8("call-answer"@);
    }
    assert(offer_data(a).len() != answer_data(b).len());
}

/// Two offers are signed in the same words only for the same key.
pub proof fn lemma_offer_fixes_key(a: Seq<u8>, b: Seq<u8>)
    requires
        offer_data(a) == offer_data(b),
    ensures
        a == b,
{
    let n = encode_utf8("call-offer"@).len();
    assert(a.len() == offer_data(a).len() - n);
    assert(a =~= offer_data(a).take(a.len() as int));
    assert(b =~= offer_data(b).take(b.len() as int));
}

/// What is signed is the key followed by the ASCII text that says what for:
/// `call-offer` by the caller, `call-answer` by the callee.
pub proof fn lemma_signed_bytes(key: Seq<u8>)
    ensures
        offer_data(key) == key + seq![99u8, 97, 108, 108, 45, 111, 102, 102, 101, 114],
        answer_data(key) == key + seq![99u8, 97, 108, 108, 45, 97, 110, 115, 119, 101, 114],
{
    reveal_strlit("call-offer");
    reveal_strlit("call-answer");
    vstd::utf8::is_ascii_chars_encode_utf8("call-offer"@);
    vstd::utf8::is_ascii_chars_encode_utf8("call-answer"@);
    assert(encode_utf8("call-offer"@) =~= seq![
        99u8,
        97,
        108,
        108,
        45,
        111,
        102,
        102,
        101,
        114,
    ]);
    assert(encode_utf8("call-answer"@) =~= seq![
        99u8,
        97,
        108,
        108,
        45,
        97,
        110,
        115,
        119,
        101,
        114,
    ]);
}

} // verus!
