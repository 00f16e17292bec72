use wzp_client::bench::{
    all_symbols, bench_payload, kept_indices, pcm_bytes, shuffled_indices, source_frame,
    total_packets, FecResult, CODEC_FRAMES, FEC_BLOCKS, PIPELINE_FRAMES,
};
use wzp_client::bench_cli::{
    parse_bench_args, print_footer, print_header, print_row, BenchFlags, BenchRequest,
};
use wzp_client::call::CallConfig;
use wzp_client::drift_test::{Arrivals, DriftResult, DriftTestConfig};
use wzp_client::echo_test::{frames_per_window, is_silent, peak, EchoWindows};
use wzp_client::encrypted_transport::{open, seal};
use wzp_client::featherchat::{call_payload, signal_to_call_type, CallSignalType};
use wzp_client::handshake::{
    answer_sign_data, call_offer, finish_handshake, offer_sign_data, read_answer,
    supported_video_codecs, Answer, HandshakeError, HandshakeResult,
};
use wzp_client::metrics::{snapshot_at, snapshot_from_stats, MetricsWriter};
use wzp_client::proto::{
    supported_profiles, CodecId, HangupReason, JitterStats, MediaHeader, MediaPacket,
    QualityProfile, QualityReport, SignalMessage,
};
use wzp_client::sweep::{sweep_result, sweep_row, sweep_table, SweepConfig, SweepResult};

fn drift_pct(r: &DriftResult) -> f64 {
    if r.expected_duration_ms > 0 {
        r.drift_ms as f64 / r.expected_duration_ms as f64 * 100.0
    } else {
        0.0
    }
}

fn loss_pct(r: &DriftResult) -> f64 {
    if r.frames_sent > 0 {
        (1.0 - r.frames_received as f64 / r.frames_sent as f64) * 100.0
    } else {
        0.0
    }
}

#[test]
fn drift_result_calculations() {
    let r = DriftResult::compute(10_000, 10_000, 500, 500);
    assert_eq!(r.drift_ms, 0);
    assert!((drift_pct(&r) - 0.0).abs() < f64::EPSILON);
    assert!((loss_pct(&r) - 0.0).abs() < f64::EPSILON);

    let r = DriftResult::compute(10_000, 10_050, 500, 490);
    assert_eq!(r.drift_ms, 50);
    assert!((drift_pct(&r) - 0.5).abs() < 1e-9);
    assert!((loss_pct(&r) - 2.0).abs() < 1e-9);

    let r = DriftResult::compute(10_000, 9_900, 500, 450);
    assert_eq!(r.drift_ms, -100);
    assert!((drift_pct(&r) - (-1.0)).abs() < 1e-9);
    assert!((loss_pct(&r) - 10.0).abs() < 1e-9);

    let r = DriftResult::compute(0, 0, 0, 0);
    assert_eq!(r.drift_ms, 0);
    assert!((drift_pct(&r) - 0.0).abs() < f64::EPSILON);
    assert!((loss_pct(&r) - 0.0).abs() < f64::EPSILON);
}

#[test]
fn drift_config_defaults() {
    let cfg = DriftTestConfig::default();
    assert_eq!(cfg.duration_secs, 10);
    assert!((cfg.tone_freq_hz as f32 - 440.0).abs() < f32::EPSILON);
    assert_eq!(cfg.total_frames(), 500);
    assert_eq!(cfg.expected_duration_ms(), 10_000);
}

#[test]
fn drift_verdicts() {
    let verdict = |actual, received| DriftResult::compute(1_000, actual, 50, received).verdict();
    assert_eq!(
        verdict(1_000, 0),
        "WARNING: No frames received. Transport may be non-functional."
    );
    assert_eq!(verdict(996, 1), "Result: EXCELLENT -- drift is negligible (<5 ms).");
    assert_eq!(
        verdict(1_005, 1),
        "Result: GOOD -- drift is within acceptable bounds (<20 ms)."
    );
    assert_eq!(
        verdict(980, 1),
        "Result: FAIR -- noticeable drift (20 ms). Clock sync may be needed."
    );
    assert_eq!(
        verdict(1_100, 1),
        "Result: POOR -- significant drift (100 ms). Investigate clock sources."
    );
    let report = DriftResult::compute(1_000, 900, 50, 49).drift_report("2.0", "-10.0000");
    assert_eq!(
        report,
        "\n=== Drift Measurement Report ===\n\nFrames sent:        50\nFrames received:    49\n\
         Packet loss:        2.0%\n\nExpected duration:  1000 ms\nActual duration:    900 ms\n\
         Drift:              -100 ms (-10.0000%)\n\n\
         Result: POOR -- significant drift (100 ms). Investigate clock sources.\n\n"
    );
}

#[test]
fn arrivals_span_first_to_last() {
    let mut a = Arrivals::new();
    assert_eq!(a.actual_duration_ms(), 0);
    a.record(100);
    assert_eq!(a.actual_duration_ms(), 0);
    a.record(140);
    a.record(150_999_999);
    assert_eq!(a.actual_duration_ms(), 150);
    assert_eq!(a.frames, 3);
}

#[test]
fn echo_windows_cover_what_was_sent() {
    assert_eq!(frames_per_window(5_000), 250);
    assert_eq!(frames_per_window(10), 1);
    // One second in windows of 400 ms: two full ones and a rest.
    let mut w = EchoWindows::new(1, 400);
    let mut ends = Vec::new();
    for i in 0..50 {
        if i % 2 == 0 {
            w.received_packet();
            w.received_frame(960);
        }
        w.sent_packets(2);
        if let Some(b) = w.frame_sent() {
            ends.push(b);
        }
    }
    assert_eq!(ends.len(), 3);
    assert_eq!(ends[0].index, 0);
    assert_eq!((ends[0].sent_start, ends[0].sent_end), (0, 20 * 960));
    assert_eq!((ends[1].sent_start, ends[1].sent_end), (20 * 960, 40 * 960));
    assert_eq!((ends[2].sent_start, ends[2].sent_end), (40 * 960, 50 * 960));
    assert_eq!(ends[2].frames_sent, 10);
    assert_eq!(ends[0].frames_received, 10);
    assert_eq!(ends[1].recv_start, 10 * 960);
    assert_eq!(w.total_frames_received(), 25);
    assert_eq!(w.packets_sent, 100);
    assert_eq!(w.packets_received, 25);
}

#[test]
fn peaks_and_silence() {
    assert_eq!(peak(&[]), 0);
    assert_eq!(peak(&[3, -7, 5]), 7);
    assert!(is_silent(99));
    assert!(!is_silent(100));
}

#[test]
fn sweep_config_default() {
    let cfg = SweepConfig::default();
    assert_eq!(cfg.target_depths.len(), 5);
    assert_eq!(cfg.max_depths.len(), 4);
    assert!(cfg.test_duration_secs > 0);
    assert!(cfg.tone_freq_hz as f32 > 0.0);
    assert!(cfg.target_depths.iter().all(|&d| d > 0));
    assert!(cfg.max_depths.iter().all(|&d| d > 0));
}

#[test]
fn sweep_tries_valid_settings() {
    let cfg = SweepConfig {
        target_depths: vec![3, 10],
        max_depths: vec![50, 100],
        test_duration_secs: 1,
        tone_freq_hz: 440,
    };
    assert_eq!(cfg.frames_per_config(), 50);
    let calls = cfg.call_configs();
    assert_eq!(calls.len(), 4);
    let pairs: Vec<(usize, usize)> =
        calls.iter().map(|c| (c.jitter_target, c.jitter_max)).collect();
    assert_eq!(pairs, vec![(3, 50), (3, 100), (10, 50), (10, 100)]);
    assert!(calls.iter().all(|c| c.jitter_min == 3));
    // A target beyond the maximum is left out: of the defaults, three pairs.
    assert_eq!(SweepConfig::default().call_configs().len(), 17);
    let small = SweepConfig { target_depths: vec![0, 2], ..cfg };
    let mins: Vec<usize> = small.call_configs().iter().map(|c| c.jitter_min).collect();
    assert_eq!(mins, vec![1, 1, 2, 2]);
}

#[test]
fn sweep_table_formats() {
    let head = "\n=== Jitter Buffer Parameter Sweep ===\n\n \
        target |  max |   sent |   recv |  loss% | latency_ms | underruns | overruns\n \
        -------+------+--------+--------+--------+------------+-----------+---------\n";
    assert_eq!(sweep_table(&[]), format!("{head}\n"));
    let results = [
        SweepResult {
            target_depth: 10,
            max_depth: 50,
            frames_sent: 100,
            frames_received: 98,
            avg_latency_ms: 200,
            underruns: 2,
            overruns: 0,
        },
        SweepResult {
            target_depth: 25,
            max_depth: 100,
            frames_sent: 100,
            frames_received: 100,
            avg_latency_ms: 500,
            underruns: 0,
            overruns: 0,
        },
    ];
    let first = format!(
        " {:>6} | {:>4} | {:>6} | {:>6} | {:>5.1}% | {:>10.0} | {:>9} | {:>8}\n",
        10, 50, 100, 98, 2.0, 200.0, 2, 0
    );
    let second = format!(
        " {:>6} | {:>4} | {:>6} | {:>6} | {:>5.1}% | {:>10.0} | {:>9} | {:>8}\n",
        25, 100, 100, 100, 0.0, 500.0, 0, 0
    );
    assert_eq!(sweep_row(&results[0], "2.0"), first);
    let table = sweep_table(&[(results[0], "2.0".into()), (results[1], "0.0".into())]);
    assert_eq!(table, format!("{head}{first}{second}\n"));
}

#[test]
fn sweep_results_are_summed_up() {
    let stats = JitterStats {
        packets_received: 0,
        packets_played: 0,
        packets_lost: 0,
        packets_late: 0,
        packets_duplicate: 0,
        current_depth: 0,
        total_decoded: 0,
        underruns: 3,
        overruns: 4,
        max_depth_seen: 0,
    };
    let mut call = CallConfig::default();
    call.jitter_target = 25;
    let r = sweep_result(&call, 100, 97, &stats);
    assert_eq!(r.avg_latency_ms, 500);
    assert_eq!((r.underruns, r.overruns), (3, 4));
    assert_eq!((r.frames_sent, r.frames_received), (100, 97));
}

#[test]
fn benchmark_sizes() {
    assert_eq!(CODEC_FRAMES, 1000);
    assert_eq!(FEC_BLOCKS, 100);
    assert_eq!(total_packets(), 30000);
    assert_eq!(PIPELINE_FRAMES, 200);
    assert_eq!(pcm_bytes(2), 3840);
    assert_eq!(bench_payload(0), vec![0u8; 60]);
    assert_eq!(bench_payload(10_257), vec![1u8; 120]);
    assert_eq!(bench_payload(29_999), vec![(9_999 % 256) as u8; 256]);
}

#[test]
fn fec_blocks_are_shuffled_the_same_way_each_time() {
    assert_eq!(source_frame(51, 2), vec![1u8; 80]);
    let symbols = all_symbols(0, vec![(5, vec![9u8; 10]), (6, vec![8u8; 20])]);
    assert_eq!(symbols.len(), 7);
    assert!(symbols[..5].iter().all(|s| !s.is_repair && s.data.len() == 80));
    assert_eq!(symbols[6].index, 6);
    assert!(symbols[6].is_repair);
    let mut tally = FecResult::new();
    tally.add_block(&symbols, true);
    tally.add_block(&symbols, false);
    assert_eq!(tally.blocks_attempted, 2);
    assert_eq!(tally.blocks_recovered, 1);
    assert_eq!(tally.total_source_bytes, 800);
    assert_eq!(tally.total_repair_bytes, 60);

    // The generator, written out.
    for block in 0..5usize {
        let n = 8;
        let mut indices: Vec<usize> = (0..n).collect();
        let mut seed = (block as u64).wrapping_mul(6364136223846793005).wrapping_add(1);
        for i in (1..n).rev() {
            seed = seed.wrapping_mul(6364136223846793005).wrapping_add(1442695040888963407);
            let j = (seed >> 33) as usize % (i + 1);
            indices.swap(i, j);
        }
        assert_eq!(shuffled_indices(block, n), indices);
        assert_eq!(kept_indices(block, n, 3), indices[3..].to_vec());
    }
    let mut many = kept_indices(1, 70_000, 0);
    many.sort_unstable();
    assert!(many.iter().enumerate().all(|(i, n)| i == *n));
    assert_eq!(many.len(), 70_000);
}

fn strings(args: &[&str]) -> Vec<String> {
    args.iter().map(|s| s.to_string()).collect()
}

#[test]
fn benchmark_arguments() {
    let run = |args: &[&str]| parse_bench_args(&strings(args));
    let all = BenchFlags { codec: true, fec: true, crypto: true, pipeline: true };
    assert!(matches!(run(&[]), BenchRequest::Run { flags, loss: None } if flags == all));
    assert!(matches!(run(&["--all"]), BenchRequest::Run { flags, .. } if flags == all));
    let some = BenchFlags { codec: false, fec: true, crypto: false, pipeline: false };
    assert!(matches!(
        run(&["--fec", "--loss", "30"]),
        BenchRequest::Run { flags, loss: Some(l) } if flags == some && l == "30"
    ));
    assert!(matches!(run(&["--loss"]), BenchRequest::Run { loss: None, .. }));
    assert!(matches!(run(&["--bogus", "-h"]), BenchRequest::Help));
    assert!(matches!(
        run(&["--codec", "--bogus"]),
        BenchRequest::Unknown { option } if option == "--bogus"
    ));
}

#[test]
fn benchmark_tables() {
    let title = "Codec";
    assert_eq!(
        print_header(title),
        format!(
            "\n┌─────────────────────────────────────────────────────┐\n│ {:<51} │\n\
             ├─────────────────────────────────────────────────────┤\n",
            title
        )
    );
    assert_eq!(
        print_row("Frames", "1000"),
        format!("│  {:<28} {:>20}  │\n", "Frames", "1000")
    );
    assert_eq!(print_row("x", &"9".repeat(30)), format!("│  {:<28} {}  │\n", "x", "9".repeat(30)));
    assert!(print_footer().starts_with('└'));
}

#[test]
fn offer_contains_h264_only() {
    assert_eq!(supported_video_codecs(), vec![CodecId::H264Baseline]);
    match call_offer(vec![1], vec![2], vec![3], Some("me")) {
        SignalMessage::CallOffer {
            video_codecs,
            supported_profiles: profiles,
            protocol_version,
            supported_versions,
            alias,
            ..
        } => {
            assert_eq!(video_codecs, vec![CodecId::H264Baseline]);
            assert_eq!(profiles, supported_profiles());
            assert_eq!(protocol_version, 2);
            assert_eq!(supported_versions, vec![2]);
            assert_eq!(alias.as_deref(), Some("me"));
        }
        _ => panic!("expected an offer"),
    }
}

#[test]
fn sign_data_is_key_and_tag() {
    let eph = [0x11u8; 32];
    let mut data = Vec::new();
    data.extend_from_slice(&eph);
    data.extend_from_slice(b"call-offer");
    assert_eq!(offer_sign_data(&eph), data);
    assert_ne!(offer_sign_data(&eph), answer_sign_data(&eph));
    assert!(answer_sign_data(&eph).ends_with(b"call-answer"));
}

fn call_answer(video_codec: Option<CodecId>) -> SignalMessage {
    SignalMessage::CallAnswer {
        identity_pub: vec![1; 32],
        ephemeral_pub: vec![2; 32],
        signature: vec![3; 64],
        chosen_profile: QualityProfile::good(),
        video_codec,
    }
}

#[test]
fn handshake_result_carries_video_codec() {
    let answer = read_answer(Ok(Some(call_answer(None)))).unwrap();
    let hs: HandshakeResult = finish_handshake(&answer, true, Ok(())).unwrap();
    assert!(hs.video_codec.is_none());

    let answer: Answer = read_answer(Ok(Some(call_answer(Some(CodecId::H264Baseline))))).unwrap();
    assert_eq!(answer.ephemeral_pub, vec![2; 32]);
    let hs2 = finish_handshake(&answer, true, Ok(())).unwrap();
    assert_eq!(hs2.video_codec, Some(CodecId::H264Baseline));
}

#[test]
fn handshake_failures() {
    let e = read_answer(Err("gone".into())).unwrap_err();
    assert_eq!(e.to_string(), "transport error: gone");
    let e = read_answer(Ok(None)).unwrap_err();
    assert!(matches!(e, HandshakeError::ConnectionClosed));
    assert_eq!(e.to_string(), "connection closed before receiving CallAnswer");
    let e = read_answer(Ok(Some(SignalMessage::Hangup {
        reason: HangupReason::ProtocolVersionMismatch { server_supported: vec![3, 4] },
    })))
    .unwrap_err();
    assert_eq!(
        e.to_string(),
        format!("protocol version mismatch: server supports {:?}", vec![3u8, 4])
    );
    let e = HandshakeError::ProtocolVersionMismatch { server_supported: vec![] };
    assert_eq!(e.to_string(), "protocol version mismatch: server supports []");
    let e = read_answer(Ok(Some(SignalMessage::Hangup { reason: HangupReason::Busy }))).unwrap_err();
    assert_eq!(e.to_string(), "expected CallAnswer, got CallAnswer");
    let answer = read_answer(Ok(Some(call_answer(None)))).unwrap();
    let e = finish_handshake(&answer, false, Err("unused".into())).unwrap_err();
    assert_eq!(e.to_string(), "callee signature verification failed");
    let e = finish_handshake(&answer, true, Err("weak key".into())).unwrap_err();
    assert_eq!(e.to_string(), "key derivation failed: weak key");
}

#[test]
fn signal_type_mapping() {
    let offer = call_offer(vec![0; 32], vec![0; 32], vec![], None);
    assert!(matches!(signal_to_call_type(&offer), CallSignalType::Offer));

    let hangup = SignalMessage::Hangup { reason: HangupReason::Normal };
    assert!(matches!(signal_to_call_type(&hangup), CallSignalType::Hangup));

    assert!(matches!(signal_to_call_type(&SignalMessage::Hold), CallSignalType::Hold));
    assert!(matches!(signal_to_call_type(&SignalMessage::Unhold), CallSignalType::Unhold));
    assert!(matches!(signal_to_call_type(&SignalMessage::Mute), CallSignalType::Mute));
    assert!(matches!(signal_to_call_type(&SignalMessage::Unmute), CallSignalType::Unmute));

    let transfer = SignalMessage::Transfer {
        target_fingerprint: "abc".to_string(),
        relay_addr: None,
    };
    assert!(matches!(signal_to_call_type(&transfer), CallSignalType::Transfer));
    assert!(matches!(signal_to_call_type(&call_answer(None)), CallSignalType::Answer));
    assert!(matches!(
        signal_to_call_type(&SignalMessage::Ping { timestamp_ms: 1 }),
        CallSignalType::Offer
    ));
}

#[test]
fn payloads_name_the_relay() {
    let p = call_payload(SignalMessage::Hold, Some("relay.example.com:4433"), Some("myroom"));
    assert_eq!(p.relay_addr.unwrap(), "relay.example.com:4433");
    assert_eq!(p.room.unwrap(), "myroom");
    assert!(matches!(p.signal, SignalMessage::Hold));
    assert!(call_payload(SignalMessage::Hold, None, None).room.is_none());
}

#[test]
fn sealed_packets_open_again() {
    let packet = MediaPacket {
        header: MediaHeader {
            version: 0,
            is_repair: false,
            codec_id: CodecId::Opus24k,
            has_quality_report: true,
            fec_ratio_encoded: 0,
            seq: 5,
            timestamp: 100,
            fec_block: 0,
            fec_symbol: 0,
            reserved: 0,
            csrc_count: 0,
        },
        payload: b"hello encrypted world".to_vec(),
        quality_report: Some(QualityReport {
            loss_pct: 1,
            rtt_4ms: 2,
            jitter_ms: 3,
            bitrate_cap_kbps: 4,
        }),
    };
    // Any cipher that undoes itself.
    let turned: Vec<u8> = packet.payload.iter().map(|b| b ^ 0x42).collect();
    let wire = seal(&packet, Ok(turned)).unwrap();
    assert_eq!(wire.header, packet.header, "header must be preserved");
    assert_ne!(wire.payload, packet.payload, "plaintext must not appear on wire");
    assert_eq!(wire.quality_report, packet.quality_report);
    let back: Vec<u8> = wire.payload.iter().map(|b| b ^ 0x42).collect();
    let opened = open(&wire, Ok(back)).unwrap();
    assert_eq!(opened.payload, packet.payload);
    assert_eq!(opened.header, packet.header);
    assert_eq!(seal(&packet, Err("no nonce".into())).unwrap_err(), "encrypt: no nonce");
    assert_eq!(open(&wire, Err("bad tag".into())).unwrap_err(), "decrypt: bad tag");
}

fn make_test_stats() -> JitterStats {
    JitterStats {
        packets_received: 100,
        packets_played: 95,
        packets_lost: 5,
        packets_late: 2,
        packets_duplicate: 0,
        current_depth: 8,
        total_decoded: 93,
        underruns: 1,
        overruns: 0,
        max_depth_seen: 12,
    }
}

#[test]
fn snapshots_hold_the_numbers() {
    let snap = snapshot_from_stats(&make_test_stats(), "GOOD");
    assert_eq!(snap.buffer_depth, 8);
    assert_eq!(snap.underruns, 1);
    assert_eq!(snap.overruns, 0);
    assert_eq!(snap.packets_lost as f64 / snap.packets_received as f64 * 100.0, 5.0);
    assert_eq!(snap.frames_received, 93);
    assert_eq!((snap.rtt_ms, snap.jitter_ms, snap.frames_sent), (0, 0, 0));
    assert_eq!(snap.quality_profile, "GOOD");
    // The time is one of this age, to the second.
    assert_eq!(snap.ts.len(), 20);
    assert!(snap.ts.starts_with("20") && snap.ts.ends_with('Z'));
    assert_eq!(&snap.ts[10..11], "T");
    assert_eq!(snapshot_at(&make_test_stats(), "x", "then".into()).ts, "then");
}

#[test]
fn metrics_writer_respects_interval() {
    let mut writer = MetricsWriter::new(60);
    assert!(writer.is_due(1_000), "first write should succeed");
    writer.written(1_000);
    assert!(!writer.is_due(1_000), "second write should be skipped — interval not elapsed");
    assert!(!writer.is_due(60_000_000_999));
    assert!(writer.is_due(60_000_001_000));
}
