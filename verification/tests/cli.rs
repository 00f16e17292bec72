use wzp_client::cli::{
    bind_addr_for, decode_pcm, direct_offer, encode_pcm, in_call, on_signal, parse_args,
    registration, split_frames, tone_frames, ArgError, CallEvent, CallStep, CliArgs, Mode,
    PacketTotals, RegistrationError, SeedSource, SignalStep,
};
use wzp_client::net::SocketAddr;
use wzp_client::proto::{
    CallAcceptMode, CodecId, HangupReason, MediaHeader, MediaPacket, QualityProfile, SignalMessage,
};

fn parse(args: &[&str]) -> Result<CliArgs, ArgError> {
    let args: Vec<String> = args.iter().map(|s| s.to_string()).collect();
    parse_args(&args)
}

fn sa(s: &str) -> SocketAddr {
    SocketAddr::parse(s).unwrap()
}

#[test]
fn no_arguments_are_enough() {
    let a = parse(&[]).unwrap();
    assert_eq!(a.relay_addr, sa("127.0.0.1:4433"));
    assert_eq!(a.mode(), Mode::Silence);
    assert_eq!(a.sni(), "default");
    assert!(matches!(a.resolve_seed(), SeedSource::Generated));
}

#[test]
fn every_option_is_read() {
    let a = parse(&[
        "--live", "--signal", "--call", "fp", "--send-tone", "+10", "--send-file", "in.raw",
        "--seed", "00ff", "--room", "lobby", "--token", "t", "--metrics-file", "m.jsonl",
        "--record", "out.raw", "--echo-test", "5", "--drift-test", "007", "--sweep",
        "--version-check", "--mnemonic", "one", "two", "three", "--live", "[::1]:9",
    ])
    .unwrap();
    assert!(a.live && a.signal && a.sweep && a.version_check);
    assert_eq!(a.call_target.as_deref(), Some("fp"));
    assert_eq!(a.send_tone_secs, Some(10));
    assert_eq!(a.send_file.as_deref(), Some("in.raw"));
    assert_eq!(a.seed_hex.as_deref(), Some("00ff"));
    assert_eq!(a.room.as_deref(), Some("lobby"));
    assert_eq!(a.token.as_deref(), Some("t"));
    assert_eq!(a.metrics_file.as_deref(), Some("m.jsonl"));
    assert_eq!(a.record_file.as_deref(), Some("out.raw"));
    assert_eq!(a.echo_test_secs, Some(5));
    assert_eq!(a.drift_test_secs, Some(7));
    assert_eq!(a.mnemonic.as_deref(), Some("one two three"));
    assert_eq!(a.relay_addr, sa("[::1]:9"));
    assert_eq!(a.sni(), "lobby");
    assert!(matches!(a.resolve_seed(), SeedSource::Hex(h) if h == "00ff"));
    // Words take in what would be a relay.
    let a = parse(&["--mnemonic", "one", "192.0.2.1:1"]).unwrap();
    assert_eq!(a.mnemonic.as_deref(), Some("one 192.0.2.1:1"));
    assert_eq!(a.relay_addr, sa("127.0.0.1:4433"));
    assert!(matches!(a.resolve_seed(), SeedSource::Mnemonic(_)));
    assert_eq!(parse(&["--mnemonic"]).unwrap().mnemonic.as_deref(), Some(""));
}

#[test]
fn bad_arguments_are_told() {
    assert!(matches!(parse(&["-h"]), Err(ArgError::Help)));
    assert!(matches!(parse(&["--live", "--help"]), Err(ArgError::Help)));
    assert!(matches!(
        parse(&["--bogus"]),
        Err(ArgError::Unknown { argument }) if argument == "--bogus"
    ));
    assert!(matches!(
        parse(&["192.0.2.1:1", "192.0.2.2:2"]),
        Err(ArgError::Unknown { argument }) if argument == "192.0.2.2:2"
    ));
    assert!(matches!(parse(&["nowhere"]), Err(ArgError::InvalidRelay)));
    let bad = |args: &[&str]| match parse(args) {
        Err(ArgError::Bad { message }) => message,
        _ => panic!("expected a bad option"),
    };
    assert_eq!(bad(&["--call"]), "--call requires a fingerprint");
    assert_eq!(bad(&["--send-tone"]), "--send-tone requires seconds");
    assert_eq!(bad(&["--send-tone", "ten"]), "--send-tone value must be a number");
    assert_eq!(bad(&["--echo-test", "4294967296"]), "--echo-test value must be a number");
    assert_eq!(bad(&["--drift-test", "+"]), "--drift-test value must be a number");
    assert_eq!(bad(&["--send-file"]), "--send-file requires a filename");
    assert_eq!(bad(&["--seed"]), "--seed requires hex string");
    assert_eq!(bad(&["--room"]), "--room requires a name");
    assert_eq!(bad(&["--token"]), "--token requires a value");
    assert_eq!(bad(&["--metrics-file"]), "--metrics-file requires a path");
    assert_eq!(bad(&["--record"]), "--record requires a filename");
    assert_eq!(bad(&["--echo-test"]), "--echo-test requires seconds");
    assert_eq!(bad(&["--drift-test"]), "--drift-test requires seconds");
}

#[test]
fn the_first_request_counts() {
    assert_eq!(parse(&["--sweep", "--signal"]).unwrap().mode(), Mode::Sweep);
    assert_eq!(parse(&["--version-check", "--live"]).unwrap().mode(), Mode::VersionCheck);
    assert_eq!(parse(&["--signal", "--live"]).unwrap().mode(), Mode::Signal);
    assert_eq!(parse(&["--live", "--echo-test", "1"]).unwrap().mode(), Mode::Live);
    assert_eq!(
        parse(&["--echo-test", "3", "--drift-test", "1"]).unwrap().mode(),
        Mode::EchoTest { secs: 3 }
    );
    assert_eq!(parse(&["--drift-test", "4"]).unwrap().mode(), Mode::DriftTest { secs: 4 });
    assert_eq!(parse(&["--record", "x"]).unwrap().mode(), Mode::File);
    assert_eq!(parse(&["--send-tone", "1"]).unwrap().mode(), Mode::File);
}

#[test]
fn local_addresses_match_the_relay() {
    assert_eq!(bind_addr_for(&sa("192.0.2.1:1")), sa("0.0.0.0:0"));
    assert_eq!(bind_addr_for(&sa("[::1]:1")), sa("[::]:0"));
}

#[test]
fn samples_are_little_endian() {
    let samples = [0i16, 1, -1, 255, 256, -256, i16::MAX, i16::MIN];
    let expected: Vec<u8> = samples.iter().flat_map(|s| s.to_le_bytes()).collect();
    assert_eq!(encode_pcm(&samples), expected);
    assert_eq!(decode_pcm(&expected), samples.to_vec());
    let mut odd = expected.clone();
    odd.push(9);
    assert_eq!(decode_pcm(&odd), samples.to_vec());
}

#[test]
fn only_whole_frames_are_sent() {
    let samples: Vec<i16> = (0..2000).collect();
    let frames = split_frames(&samples);
    assert_eq!(frames.len(), 2);
    assert_eq!(frames[1], samples[960..1920].to_vec());
    assert!(split_frames(&samples[..959]).is_empty());
    assert_eq!(tone_frames(3), 150);
}

#[test]
fn packets_are_counted() {
    let mut t = PacketTotals::new();
    let mut p = MediaPacket {
        header: MediaHeader {
            version: 0,
            is_repair: false,
            codec_id: CodecId::Opus24k,
            has_quality_report: false,
            fec_ratio_encoded: 0,
            seq: 0,
            timestamp: 0,
            fec_block: 0,
            fec_symbol: 0,
            reserved: 0,
            csrc_count: 0,
        },
        payload: vec![0; 60],
        quality_report: None,
    };
    t.count(&p);
    p.header.is_repair = true;
    t.count(&p);
    t.count(&p);
    assert_eq!((t.source, t.repair, t.bytes), (1, 2, 180));
}

#[test]
fn registrations_are_read() {
    let ack = |success, error: Option<&str>| SignalMessage::RegisterPresenceAck {
        success,
        error: error.map(|s| s.to_string()),
    };
    assert!(registration(Some(&ack(true, None))).is_ok());
    assert!(matches!(
        registration(Some(&ack(false, Some("banned")))),
        Err(RegistrationError::Refused { reason }) if reason == "banned"
    ));
    assert!(matches!(
        registration(Some(&ack(false, None))),
        Err(RegistrationError::Refused { reason }) if reason.is_empty()
    ));
    let refused = RegistrationError::Refused { reason: "banned".into() };
    assert_eq!(refused.to_string(), "registration failed: banned");
    assert_eq!(RegistrationError::Unexpected.to_string(), "unexpected response");
    assert!(matches!(registration(None), Err(RegistrationError::Unexpected)));
    assert!(matches!(
        registration(Some(&SignalMessage::Hold)),
        Err(RegistrationError::Unexpected)
    ));
}

#[test]
fn calls_are_accepted_and_joined() {
    let ours = sa("192.0.2.1:4433");
    let offer = direct_offer("me", "them", 255, vec![7; 32]);
    match &offer {
        SignalMessage::DirectCallOffer { call_id, identity_pub, ephemeral_pub, .. } => {
            assert_eq!(call_id, "00000000000000ff");
            assert_eq!(identity_pub, &vec![7; 32]);
            assert_eq!(ephemeral_pub, &vec![0; 32]);
        }
        _ => panic!("expected an offer"),
    }
    match on_signal(&offer, ours, vec![9; 32]) {
        SignalStep::Send(SignalMessage::DirectCallAnswer {
            call_id,
            accept_mode,
            identity_pub,
            chosen_profile,
            ..
        }) => {
            assert_eq!(call_id, "00000000000000ff");
            assert_eq!(accept_mode, CallAcceptMode::AcceptGeneric);
            assert_eq!(identity_pub, Some(vec![9; 32]));
            assert_eq!(chosen_profile, Some(QualityProfile::good()));
        }
        _ => panic!("expected an answer"),
    }
    let setup = |relay: &str| SignalMessage::CallSetup {
        call_id: "c".into(),
        room: "r".into(),
        relay_addr: relay.into(),
    };
    assert!(matches!(
        on_signal(&setup("198.51.100.9:1"), ours, vec![]),
        SignalStep::JoinMedia { relay, room } if relay == sa("198.51.100.9:1") && room == "r"
    ));
    assert!(matches!(
        on_signal(&setup("garbage"), ours, vec![]),
        SignalStep::JoinMedia { relay, .. } if relay == ours
    ));
    assert!(matches!(
        on_signal(&SignalMessage::Pong { timestamp_ms: 0 }, ours, vec![]),
        SignalStep::Nothing
    ));
}

#[test]
fn calls_end_by_either_side() {
    let hangup = SignalMessage::Hangup { reason: HangupReason::Normal };
    assert!(matches!(in_call(CallEvent::Signal(hangup)), CallStep::End));
    assert!(matches!(in_call(CallEvent::Signal(SignalMessage::Hold)), CallStep::GoOn));
    assert!(matches!(in_call(CallEvent::Closed), CallStep::End));
    assert!(matches!(
        in_call(CallEvent::Interrupted),
        CallStep::HangUp(SignalMessage::Hangup { reason: HangupReason::Normal })
    ));
}
