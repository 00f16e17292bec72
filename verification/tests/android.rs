use wzp_client::android::audio_android::{big_cores, OboeBackend, OboeStep, RingBuffer};
use wzp_client::android::audio_ring::AudioRing;
use wzp_client::android::commands::EngineCommand;
use wzp_client::android::engine::{
    accept_answer, index_to_profile, ping_report, profile_for_codec, profile_to_index,
    quality_tier, sni_for, AnswerError, CallStartConfig, FrameOutcome, GapFill, Receiver,
    RecvFailure, Sender, StartError, WzpEngine,
};
use wzp_client::android::jni_bridge::{
    accept_mode_from_int, identity_seed, profile_from_int, seed_from_drawn, seed_from_hex,
    start_config, PROFILE_AUTO,
};
use wzp_client::android::pipeline::{JitterOutput, Pipeline};
use wzp_client::android::signal_mgr::SignalState;
use wzp_client::android::stats::{CallState, CallStats};
use wzp_client::call::JitterPlan;
use wzp_client::proto::{
    supported_profiles, CallAcceptMode, CodecId, HangupReason, MediaHeader, NetworkContext,
    Participant, QualityProfile, SignalMessage,
};

#[test]
fn ring_buffer_write_read() {
    let mut ring = RingBuffer::new(16);
    let data = [1i16, 2, 3, 4, 5];
    assert_eq!(ring.write(&data), 5);
    assert_eq!(ring.available_read(), 5);

    let mut out = [0i16; 5];
    assert_eq!(ring.read(&mut out), 5);
    assert_eq!(out, [1, 2, 3, 4, 5]);
    assert_eq!(ring.available_read(), 0);
}

#[test]
fn ring_buffer_wraparound() {
    let mut ring = RingBuffer::new(8);
    let data = [10i16, 20, 30, 40, 50, 60];
    assert_eq!(ring.write(&data), 6);

    let mut out = [0i16; 4];
    assert_eq!(ring.read(&mut out), 4);
    assert_eq!(out, [10, 20, 30, 40]);

    let data2 = [70i16, 80, 90, 100];
    assert_eq!(ring.write(&data2), 4);

    let mut out2 = [0i16; 6];
    assert_eq!(ring.read(&mut out2), 6);
    assert_eq!(out2, [50, 60, 70, 80, 90, 100]);
}

#[test]
fn ring_buffer_full() {
    let mut ring = RingBuffer::new(4);
    let data = [1i16, 2, 3, 4, 5];
    assert_eq!(ring.write(&data), 3);
    assert_eq!(ring.available_write(), 0);
}

#[test]
fn a_ring_without_slots_holds_nothing() {
    let mut ring = RingBuffer::new(0);
    let mut out = [7i16; 2];
    assert_eq!(ring.available_read(), 0);
    assert_eq!(ring.read(&mut out), 0);
    assert_eq!(out, [7, 7]);
}

#[test]
fn oboe_backend_stub_start_stop() {
    let mut backend = OboeBackend::new();
    assert_eq!(backend.start(), OboeStep::CallNative);
    backend.start_returned(0).expect("stub start should succeed");
    assert!(backend.started);
    assert_eq!(backend.start(), OboeStep::Done);
    assert_eq!(backend.stop(), OboeStep::CallNative);
    assert!(!backend.started);
    assert_eq!(backend.stop(), OboeStep::Done);
    assert_eq!(backend.start_returned(-3), Err(-3));
    assert!(!backend.started);
}

#[test]
fn oboe_backend_moves_samples() {
    let mut backend = OboeBackend::new();
    assert_eq!(backend.write_playout(&[1i16; 8000]), 7679);
    assert_eq!(backend.write_playout(&[1i16; 1]), 0);
    let mut out = [3i16; 4];
    assert_eq!(backend.read_capture(&mut out), 0);
    assert_eq!(out, [3; 4]);
}

#[test]
fn android_ring_drops_the_oldest() {
    let mut ring = AudioRing::new();
    assert_eq!(ring.free_space(), 9600);
    let many: Vec<i16> = (0..9600).map(|i| i as i16).collect();
    assert_eq!(ring.write(&many), 9600);
    assert_eq!(ring.free_space(), 0);
    assert_eq!(ring.write(&[-1, -2]), 2);
    assert_eq!(ring.available(), 9600);
    let mut out = vec![0i16; 9600];
    assert_eq!(ring.read(&mut out), 9600);
    assert_eq!(&out[..3], &[2, 3, 4]);
    assert_eq!(&out[9597..], &[9599, -1, -2]);
    // More than a ring full at once: the rest is not taken.
    let too_many: Vec<i16> = (0..9700).map(|i| i as i16).collect();
    assert_eq!(ring.write(&too_many), 9600);
    assert_eq!(ring.read(&mut out), 9600);
    assert_eq!(out[0], 0);
    assert_eq!(out[9599], 9599);
}

#[test]
fn upper_half_of_the_processors() {
    assert_eq!(big_cores(8), Some((4, 8)));
    assert_eq!(big_cores(1), Some((0, 1)));
    assert_eq!(big_cores(0), None);
    assert_eq!(big_cores(-1), None);
}

#[test]
fn states_have_numbers() {
    let states = [
        CallState::Idle,
        CallState::Connecting,
        CallState::Active,
        CallState::Reconnecting,
        CallState::Closed,
        CallState::Registered,
        CallState::Ringing,
        CallState::IncomingCall,
    ];
    for (i, s) in states.iter().enumerate() {
        assert_eq!(s.code() as usize, i);
    }
    assert_eq!(CallStats::default().state, CallState::default());
}

#[test]
fn profiles_by_index() {
    for (i, p) in supported_profiles().iter().enumerate() {
        assert_eq!(profile_to_index(p) as usize, i);
        assert_eq!(index_to_profile(i as u8), Some(*p));
    }
    assert_eq!(index_to_profile(6), None);
    assert_eq!(index_to_profile(0xff), None);
    assert_eq!(profile_to_index(&QualityProfile::codec2_3200()), 3);
}

#[test]
fn profiles_by_codec() {
    assert_eq!(profile_for_codec(CodecId::Opus24k), QualityProfile::good());
    assert_eq!(profile_for_codec(CodecId::Codec2_1200), QualityProfile::catastrophic());
    let p = profile_for_codec(CodecId::Opus16k);
    assert_eq!(p.codec, CodecId::Opus16k);
    assert_eq!(p.frame_duration_ms, 20);
}

fn config(relay: &str) -> CallStartConfig {
    CallStartConfig { relay_addr: relay.into(), ..Default::default() }
}

#[test]
fn a_call_is_started_once() {
    let mut engine = WzpEngine::new();
    assert!(!engine.is_active());
    let err = engine.start_call(&config("nowhere"), 10).unwrap_err();
    assert_eq!(
        err.to_string(),
        "invalid relay address 'nowhere': invalid socket address syntax"
    );
    assert!(!engine.is_active());
    let addr = engine.start_call(&config("192.0.2.1:4433"), 10).unwrap();
    assert_eq!(addr.text(), "192.0.2.1:4433");
    assert!(engine.is_active());
    assert_eq!(engine.get_stats(2_510).duration_ns, 2_500);
    assert_eq!(engine.get_stats(10).state, CallState::Connecting);
    let again = engine.start_call(&config("192.0.2.1:4433"), 20).unwrap_err();
    assert!(matches!(again, StartError::AlreadyActive));
    assert_eq!(again.to_string(), "call already active");
    engine.call_active(&QualityProfile::good(), true);
    assert_eq!(engine.stats.state, CallState::Active);
    assert_eq!(engine.stats.current_codec, Some(CodecId::Opus24k));
    engine.call_ended();
    assert_eq!(engine.stats.state, CallState::Closed);
    assert!(matches!(engine.stop_call(), EngineCommand::Stop));
    assert!(engine.call_start.is_none());
}

#[test]
fn muting_drops_captured_audio() {
    let mut engine = WzpEngine::new();
    engine.set_mute(true);
    assert_eq!(engine.write_audio(&[500; 100]), 100);
    assert_eq!(engine.capture_ring.available(), 0);
    assert_eq!(engine.audio_level_rms, 0);
    engine.set_mute(false);
    assert_eq!(engine.write_audio(&[500; 1000]), 1000);
    assert_eq!(engine.audio_level_rms, 500);
    assert!(engine.next_frame(1920).is_none());
    assert_eq!(engine.next_frame(960).unwrap(), vec![500i16; 960]);
    engine.write_audio(&[500; 920]);
    engine.set_mute(true);
    assert_eq!(engine.next_frame(960).unwrap(), vec![0i16; 960]);
    let mut out = [7i16; 2];
    assert_eq!(engine.read_audio(&mut out), 0);
}

#[test]
fn networks_by_number() {
    let mut engine = WzpEngine::new();
    assert_eq!(engine.take_network_change(), None);
    let expected = [
        (0, NetworkContext::WiFi),
        (1, NetworkContext::CellularLte),
        (2, NetworkContext::Cellular5g),
        (3, NetworkContext::Cellular3g),
        (9, NetworkContext::Unknown),
    ];
    for (n, ctx) in expected {
        engine.on_network_changed(n, 1000);
        assert_eq!(engine.take_network_change(), Some(ctx));
        assert_eq!(engine.take_network_change(), None);
    }
}

#[test]
fn rooms_are_shown() {
    let mut engine = WzpEngine::new();
    engine.on_room_signal(&SignalMessage::RoomUpdate {
        count: 2,
        participants: vec![
            Participant { fingerprint: "aa".into(), alias: Some("Ann".into()), relay_label: None },
            Participant { fingerprint: "bb".into(), alias: None, relay_label: Some("eu".into()) },
        ],
    });
    let stats = engine.get_stats(0);
    assert_eq!(stats.room_participant_count, 2);
    assert_eq!(stats.room_participants[0].alias.as_deref(), Some("Ann"));
    assert_eq!(stats.room_participants[1].relay_label.as_deref(), Some("eu"));
    engine.on_room_signal(&SignalMessage::Hold);
    assert_eq!(engine.stats.room_participant_count, 2);
}

#[test]
fn commands_are_built() {
    let engine = WzpEngine::new();
    assert!(matches!(
        engine.place_call("abcd"),
        EngineCommand::PlaceCall { target_fingerprint } if target_fingerprint == "abcd"
    ));
    assert!(matches!(
        engine.answer_call("7", CallAcceptMode::Reject),
        EngineCommand::AnswerCall { call_id, accept_mode: CallAcceptMode::Reject } if call_id == "7"
    ));
}

#[test]
fn ping_and_names() {
    assert_eq!(ping_report(42, "00ff"), "{\"rtt_ms\":42,\"server_fingerprint\":\"00ff\"}");
    assert_eq!(sni_for(""), "android");
    assert_eq!(sni_for("lobby"), "lobby");
}

fn answer(profile: QualityProfile) -> SignalMessage {
    SignalMessage::CallAnswer {
        identity_pub: vec![1; 32],
        ephemeral_pub: vec![2; 32],
        signature: vec![],
        chosen_profile: profile,
        video_codec: None,
    }
}

#[test]
fn the_relay_chooses_in_auto_mode() {
    let own = QualityProfile::good();
    let theirs = QualityProfile::degraded();
    let (key, p) = accept_answer(Some(answer(theirs)), own, false).unwrap();
    assert_eq!(key, vec![2; 32]);
    assert_eq!(p, own);
    let (_, p) = accept_answer(Some(answer(theirs)), own, true).unwrap();
    assert_eq!(p, theirs);
    assert!(matches!(accept_answer(None, own, true), Err(AnswerError::Closed)));
    assert_eq!(AnswerError::Closed.to_string(), "connection closed before CallAnswer");
    assert!(AnswerError::Unexpected.to_string().starts_with("expected CallAnswer, got "));
    assert!(matches!(
        accept_answer(Some(SignalMessage::Hold), own, true),
        Err(AnswerError::Unexpected)
    ));
}

#[test]
fn sender_numbers_source_and_repair() {
    let mut s = Sender::new(QualityProfile::catastrophic());
    for i in 0..8u16 {
        let full = s.wants_repairs();
        assert_eq!(full, i == 7);
        let p = s.source(vec![i as u8], 9);
        assert_eq!(p.header.seq, i);
        assert_eq!(p.header.timestamp, i as u32 * 1920);
        assert_eq!(p.header.fec_symbol as u16, i);
        assert_eq!(p.header.fec_ratio_encoded, 9);
        let repairs = if full { Some(vec![(8, vec![1]), (9, vec![2])]) } else { None };
        let more = s.sent(p.header.timestamp, 9, repairs);
        assert_eq!(more.len(), if full { 2 } else { 0 });
        for (k, r) in more.iter().enumerate() {
            assert!(r.header.is_repair);
            assert_eq!(r.header.seq, 8 + k as u16);
            assert_eq!(r.header.timestamp, 7 * 1920);
            assert_eq!(r.header.fec_block, 0);
            assert_eq!(r.header.fec_symbol, 8 + k as u8);
        }
    }
    assert_eq!(s.seq, 10);
    assert_eq!(s.block_id, 1);
    assert_eq!(s.frame_in_block, 0);
    s.switched(QualityProfile::good());
    assert_eq!(s.block_id, 2);
    let p = s.source(vec![], 9);
    assert_eq!(p.header.fec_ratio_encoded, 0);
    assert!(s.sent(0, 9, Some(vec![(1, vec![])])).is_empty());
    assert!(!s.wants_repairs());
}

fn header(seq: u16, codec_id: CodecId) -> MediaHeader {
    MediaHeader {
        version: 0,
        is_repair: false,
        codec_id,
        has_quality_report: false,
        fec_ratio_encoded: 0,
        seq,
        timestamp: 0,
        fec_block: 0,
        fec_symbol: 0,
        reserved: 0,
        csrc_count: 0,
    }
}

#[test]
fn receiver_fills_gaps() {
    let mut r = Receiver::new(QualityProfile::good());
    let plan = r.on_packet(&header(10, CodecId::Opus24k), CodecId::Opus24k, 0);
    assert!(plan.decode && plan.fills.is_empty() && !plan.feed_fec);
    // In order.
    let plan = r.on_packet(&header(11, CodecId::Opus24k), CodecId::Opus24k, 0);
    assert!(plan.fills.is_empty());
    // Three are missing, and two of them are covered.
    let plan = r.on_packet(&header(15, CodecId::Opus24k), CodecId::Opus24k, 1920);
    assert_eq!(
        plan.fills,
        vec![
            GapFill::Conceal,
            GapFill::Reconstruct { offset_samples: 1920 },
            GapFill::Reconstruct { offset_samples: 960 },
        ]
    );
    // Too long a gap is left.
    let plan = r.on_packet(&header(33, CodecId::Opus24k), CodecId::Opus24k, 0);
    assert!(plan.fills.is_empty());
    assert_eq!(r.expected_seq, Some(34));
    // A change of codec begins anew.
    let plan = r.on_packet(&header(40, CodecId::Opus6k), CodecId::Opus24k, 0);
    assert_eq!(plan.switch_to, Some(QualityProfile::degraded()));
    assert!(plan.fills.is_empty());
    assert_eq!(r.last_good_dred_seq, None);
    assert_eq!(r.last_peer_codec, Some(CodecId::Opus6k));
}

#[test]
fn receiver_feeds_fec_and_forgets_old_blocks() {
    let mut r = Receiver::new(QualityProfile::catastrophic());
    let mut h = header(1, CodecId::Codec2_1200);
    h.fec_block = 5;
    let plan = r.on_packet(&h, CodecId::Codec2_1200, 0);
    assert!(plan.feed_fec && plan.decode);
    assert_eq!(plan.expire_before, Some(2));
    h.fec_block = 3;
    h.is_repair = true;
    let plan = r.on_packet(&h, CodecId::Codec2_1200, 0);
    assert!(plan.feed_fec && !plan.decode);
    assert_eq!(plan.expire_before, None);
    let plan = r.on_packet(&header(9, CodecId::ComfortNoise), CodecId::Codec2_1200, 0);
    assert!(!plan.decode && plan.switch_to.is_none());
    r.recovered(4);
    r.count(FrameOutcome::Decoded);
    r.count(FrameOutcome::Reconstructed);
    r.count(FrameOutcome::Concealed);
    r.count(FrameOutcome::ConcealedAfterError);
    let mut stats = CallStats::default();
    r.report(&mut stats);
    assert_eq!(stats.fec_recovered, 4);
    assert_eq!(stats.frames_decoded, 3);
    assert_eq!(stats.dred_reconstructions, 1);
    assert_eq!(stats.classical_plc_invocations, 2);
    assert_eq!(stats.peer_codec, Some(CodecId::Codec2_1200));
}

#[test]
fn receiver_stops_when_the_connection_is_gone() {
    let mut r = Receiver::new(QualityProfile::good());
    assert_eq!(r.on_error("hiccup"), RecvFailure::Log);
    assert_eq!(r.on_error("hiccup"), RecvFailure::Log);
    assert_eq!(r.on_error("hiccup"), RecvFailure::Log);
    assert_eq!(r.on_error("hiccup"), RecvFailure::GoOn);
    assert_eq!(r.on_error("stream closed by peer"), RecvFailure::Stop);
    assert_eq!(r.on_error("connection reset"), RecvFailure::Stop);
    r.recv_errors = 49;
    assert_eq!(r.on_error("hiccup"), RecvFailure::Log);
}

fn call_setup() -> SignalMessage {
    SignalMessage::CallSetup {
        call_id: "c1".into(),
        room: "room".into(),
        relay_addr: "192.0.2.1:4433".into(),
    }
}

fn offer() -> SignalMessage {
    SignalMessage::DirectCallOffer {
        caller_fingerprint: "fp".into(),
        caller_alias: Some("Bob".into()),
        target_fingerprint: "me".into(),
        call_id: "c1".into(),
        identity_pub: vec![],
        ephemeral_pub: vec![],
        signature: vec![],
        supported_profiles: vec![],
    }
}

#[test]
fn engine_signaling_follows_signals() {
    let ack = |success| SignalMessage::RegisterPresenceAck { success, error: None };
    let mut e = WzpEngine::new();
    e.path_measured(9, 8, 7);
    assert!(!e.on_registration(None));
    assert!(!e.on_registration(Some(&ack(false))));
    assert!(!e.on_registration(Some(&offer())));
    assert_eq!(e.get_stats(0).state, CallState::Idle);
    assert!(e.on_registration(Some(&ack(true))));
    assert_eq!(e.get_stats(0).state, CallState::Registered);
    e.on_signal(&SignalMessage::CallRinging { call_id: "x".into() });
    assert_eq!(e.get_stats(0).state, CallState::Ringing);
    e.on_signal(&offer());
    let s = e.get_stats(0);
    assert_eq!(s.state, CallState::IncomingCall);
    assert_eq!(s.incoming_call_id.as_deref(), Some("c1"));
    assert_eq!(s.incoming_caller_fp.as_deref(), Some("fp"));
    assert_eq!(s.incoming_caller_alias.as_deref(), Some("Bob"));
    e.on_signal(&ack(true));
    assert_eq!(e.get_stats(0).state, CallState::IncomingCall);
    e.on_signal(&call_setup());
    let s = e.get_stats(0);
    assert_eq!(s.state, CallState::Connecting);
    assert_eq!(s.incoming_call_id.as_deref(), Some("192.0.2.1:4433|room"));
    e.on_signal(&SignalMessage::Hangup { reason: HangupReason::Busy });
    let s = e.get_stats(0);
    assert_eq!(s.state, CallState::Closed);
    assert!(s.incoming_call_id.is_none() && s.incoming_caller_fp.is_none());
    assert!(s.incoming_caller_alias.is_none());
    assert_eq!((s.frames_encoded, s.rtt_ms, s.jitter_ms), (9, 8, 7));
    assert!(e.on_registration(Some(&ack(true))));
    e.signaling_closed();
    assert_eq!(e.get_stats(0).state, CallState::Closed);
}

#[test]
fn hangup_clears_the_signal_state() {
    let mut s = SignalState::connecting("fp");
    assert_eq!(s.status, "connecting");
    assert!(!s.on_registration(None));
    assert_eq!(s.status, "idle");
    assert!(s.on_registration(Some(&SignalMessage::RegisterPresenceAck {
        success: true,
        error: None
    })));
    assert_eq!(s.status, "registered");
    s.on_signal(&offer());
    assert_eq!(s.status, "incoming");
    assert_eq!(s.incoming_call_id.as_deref(), Some("c1"));
    s.on_signal(&SignalMessage::CallRinging { call_id: "c1".into() });
    assert_eq!(s.status, "ringing");
    s.on_signal(&call_setup());
    assert_eq!(s.status, "setup");
    assert_eq!(s.call_setup_relay.as_deref(), Some("192.0.2.1:4433"));
    assert_eq!(s.call_setup_room.as_deref(), Some("room"));
    let copy = s.get_state();
    assert_eq!(copy.call_setup_id.as_deref(), Some("c1"));
    s.on_signal(&SignalMessage::Hangup { reason: HangupReason::Normal });
    assert_eq!(s.status, "registered");
    assert!(s.incoming_call_id.is_none());
    assert!(s.incoming_caller_fp.is_none());
    assert!(s.incoming_caller_alias.is_none());
    assert!(s.call_setup_relay.is_none());
    assert!(s.call_setup_room.is_none());
    assert!(s.call_setup_id.is_none());
    assert_eq!(s.fingerprint, "fp");
    s.closed();
    assert_eq!(s.status, "idle");
}

#[test]
fn calls_are_named_after_the_time() {
    let s = SignalState::connecting("fp");
    match s.place_call("them", 0x0123_4567_89ab_cdef) {
        SignalMessage::DirectCallOffer {
            call_id, target_fingerprint, caller_fingerprint, supported_profiles, ..
        } => {
            assert_eq!(call_id, "0123456789abcdef");
            assert_eq!(target_fingerprint, "them");
            assert_eq!(caller_fingerprint, "fp");
            assert_eq!(supported_profiles, vec![QualityProfile::good()]);
        }
        _ => panic!("expected an offer"),
    }
    match SignalState::answer_call("c9", CallAcceptMode::AcceptTrusted) {
        SignalMessage::DirectCallAnswer { call_id, accept_mode, chosen_profile, .. } => {
            assert_eq!(call_id, "c9");
            assert_eq!(accept_mode, CallAcceptMode::AcceptTrusted);
            assert_eq!(chosen_profile, Some(QualityProfile::good()));
        }
        _ => panic!("expected an answer"),
    }
    assert!(matches!(
        SignalState::hangup(),
        SignalMessage::Hangup { reason: HangupReason::Normal }
    ));
}

#[test]
fn numbers_of_the_app() {
    assert_eq!(profile_from_int(0), QualityProfile::good());
    assert_eq!(profile_from_int(1), QualityProfile::degraded());
    assert_eq!(profile_from_int(2), QualityProfile::catastrophic());
    assert_eq!(profile_from_int(3), QualityProfile::codec2_3200());
    assert_eq!(profile_from_int(4), QualityProfile::studio_32k());
    assert_eq!(profile_from_int(5), QualityProfile::studio_48k());
    assert_eq!(profile_from_int(6), QualityProfile::studio_64k());
    assert_eq!(profile_from_int(PROFILE_AUTO), QualityProfile::good());
    assert_eq!(profile_from_int(-1), QualityProfile::good());
    assert_eq!(accept_mode_from_int(0), CallAcceptMode::Reject);
    assert_eq!(accept_mode_from_int(1), CallAcceptMode::AcceptTrusted);
    assert_eq!(accept_mode_from_int(2), CallAcceptMode::AcceptGeneric);
}

#[test]
fn seeds_from_text() {
    let text: String = (0..32).map(|i| format!("{:02x}", i * 7)).collect();
    let seed = identity_seed(&text).unwrap();
    for i in 0..32 {
        assert_eq!(seed[i], (i * 7) as u8);
    }
    // Pairs that are no number count as zero; a plus sign is one digit's.
    let mut odd = "zz".repeat(32);
    odd.replace_range(0..2, "+f");
    odd.replace_range(2..4, "-1");
    odd.replace_range(4..6, "Fe");
    let seed = seed_from_hex(odd.as_bytes()).unwrap();
    assert_eq!(&seed[..4], &[15, 0, 0xfe, 0]);
    // A character across two pairs.
    let mut across = "0".repeat(62);
    across.insert(1, 'é');
    assert_eq!(across.len(), 64);
    assert!(identity_seed(&across).is_none());
    // Any other length: a new one each time.
    assert_ne!(identity_seed("").unwrap(), identity_seed("").unwrap());
    let drawn: Vec<u8> = (100..132).collect();
    assert_eq!(seed_from_drawn(&drawn).to_vec(), drawn);
}

#[test]
fn start_configs_of_the_app() {
    let c = start_config(
        "r:1".into(),
        "room".into(),
        [3; 32],
        "tok".into(),
        String::new(),
        PROFILE_AUTO,
    );
    assert!(c.auto_profile);
    assert_eq!(c.auth_token, b"tok".to_vec());
    assert!(c.alias.is_none());
    assert_eq!(c.identity_seed, [3; 32]);
    let c = start_config("".into(), "".into(), [0; 32], "".into(), "Al".into(), 1);
    assert!(!c.auto_profile);
    assert!(c.auth_token.is_empty());
    assert_eq!(c.alias.as_deref(), Some("Al"));
    assert_eq!(c.profile, QualityProfile::degraded());
}

#[test]
fn pipeline_picks_what_is_encoded_and_played() {
    let mut p = Pipeline::new(QualityProfile::good(), Ok(()), Ok(())).unwrap();
    assert_eq!(p.encoder_input(&[5; 2000], false), vec![5i16; 960]);
    assert_eq!(p.encoder_input(&[5; 10], false), vec![5i16; 10]);
    assert_eq!(p.encoder_input(&[5; 10], true), vec![0i16; 960]);
    assert!(p.farend(false).is_none());
    assert_eq!(p.encode_frame(Some(vec![1])), Some(vec![1]));
    assert_eq!(p.encode_frame(None), None);
    assert_eq!(
        p.decode_frame(JitterOutput::Packet, Some(vec![1, 2]), None),
        Some(vec![1, 2])
    );
    assert_eq!(p.farend(false), Some(&vec![1, 2]));
    assert!(p.farend(true).is_none());
    assert!(Pipeline::generate_plc(JitterOutput::Packet, false));
    assert!(!Pipeline::generate_plc(JitterOutput::Packet, true));
    assert!(Pipeline::generate_plc(JitterOutput::Missing, false));
    assert!(!Pipeline::generate_plc(JitterOutput::NotReady, false));
    assert_eq!(p.decode_frame(JitterOutput::Missing, None, Some(vec![3])), Some(vec![3]));
    assert_eq!(p.decode_frame(JitterOutput::Packet, None, None), None);
    assert_eq!(p.decode_frame(JitterOutput::NotReady, None, None), None);
    assert_eq!(p.farend(false), Some(&vec![3]));
    let s = p.stats(4, 1);
    assert_eq!(s.frames_encoded, 1);
    assert_eq!(s.frames_decoded, 2);
    assert_eq!(s.underruns, 1);
    assert_eq!(s.jitter_depth, 4);
    assert_eq!(s.quality_tier, 1);
    let mut h = header(0, CodecId::Opus24k);
    assert!(!p.feed_packet(&h));
    h.fec_symbol = 1;
    assert!(p.feed_packet(&h));
}

#[test]
fn some_controls_change_nothing() {
    let mut engine = WzpEngine::new();
    engine.set_mute(true);
    engine.set_speaker(true);
    engine.force_profile(QualityProfile::catastrophic());
    assert!(engine.muted);
    assert!(!engine.is_active());
    assert_eq!(engine.stats.state, CallState::Idle);
    assert_eq!(engine.stats.current_codec, None);
    assert!(matches!(engine.destroy(), EngineCommand::Stop));
}

#[test]
fn what_the_app_sees_of_the_path() {
    let mut engine = WzpEngine::new();
    engine.path_measured(70_000, 45, 6);
    engine.profile_switched(&QualityProfile::degraded());
    let stats = engine.get_stats(0);
    assert_eq!(stats.frames_encoded, 70_000);
    assert_eq!((stats.rtt_ms, stats.jitter_ms), (45, 6));
    assert_eq!(stats.current_codec, Some(CodecId::Opus6k));
    assert_eq!(stats.quality_tier, 1);
}

#[test]
fn tiers_go_by_the_profile() {
    assert_eq!(quality_tier(&QualityProfile::good()), 0);
    assert_eq!(quality_tier(&QualityProfile::studio_32k()), 0);
    assert_eq!(quality_tier(&QualityProfile::degraded()), 1);
    assert_eq!(quality_tier(&QualityProfile::catastrophic()), 2);
    assert_eq!(quality_tier(&QualityProfile::codec2_3200()), 2);
    let mut engine = WzpEngine::new();
    engine.call_active(&QualityProfile::catastrophic(), false);
    assert_eq!(engine.get_stats(0).quality_tier, 2);
    engine.profile_switched(&QualityProfile::good());
    assert_eq!(engine.get_stats(0).quality_tier, 0);
}

#[test]
fn frames_are_counted_past_the_sequence_numbers() {
    let mut s = Sender::new(QualityProfile::good());
    for _ in 0..65_540 {
        s.source(vec![], 0);
    }
    assert_eq!(s.seq, 4);
    assert_eq!(s.frames_encoded, 65_540);
}

#[test]
fn rings_that_run_over_or_dry_are_counted() {
    let mut engine = WzpEngine::new();
    let mut out = [0i16; 10];
    assert_eq!(engine.read_audio(&mut out), 0);
    assert_eq!(engine.play(&[1; 9600]), 9600);
    assert_eq!(engine.play(&[2; 5]), 5);
    assert_eq!(engine.play(&[3; 5]), 5);
    assert_eq!(engine.read_audio(&mut out), 10);
    assert_eq!(out, [1; 10]);
    engine.write_audio(&[1; 9600]);
    engine.write_audio(&[1; 1]);
    let s = engine.get_stats(0);
    assert_eq!((s.playout_overflows, s.playout_underruns), (2, 1));
    assert_eq!((s.capture_overflows, s.underruns), (1, 1));
}

#[test]
fn a_pipeline_needs_both_codecs() {
    let profile = QualityProfile::catastrophic();
    let p = Pipeline::new(profile, Ok(()), Ok(())).unwrap();
    assert_eq!(p.parts.profile, profile);
    assert_eq!(p.parts.fec_frames_per_block, 8);
    assert_eq!(p.parts.jitter, JitterPlan::Fixed { target: 10, max: 250, min: 3 });
    assert_eq!((p.parts.echo_sample_rate, p.parts.echo_tail_ms), (48_000, 100));
    assert_eq!(p.stats(0, 0).frames_encoded, 0);
    let no = |s: &str| Err(s.to_string());
    assert_eq!(Pipeline::new(profile, no("x"), no("y")).err().unwrap(), "encoder init: x");
    assert_eq!(Pipeline::new(profile, Ok(()), no("y")).err().unwrap(), "decoder init: y");
}
