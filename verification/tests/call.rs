use wzp_client::call::{
    CallConfig, CallDecoder, CallEncoder, DecodeAction, FrameInput, HeaderForm, JitterPlan,
    JitterTelemetry, Playout, QualityAdapter,
};
use wzp_client::proto::{CodecId, MediaHeader, MediaPacket, QualityProfile, QualityReport};

/// A frame that is not silent, with whatever repair symbols a full block has.
fn voice_frame(repairs: usize) -> FrameInput {
    FrameInput {
        silent: false,
        encoded: Ok(vec![7u8; 60]),
        fec_ratio_encoded: 32,
        symbol_added: Ok(()),
        repairs: Some((0..repairs).map(|i| (8 + i as u8, vec![i as u8; 60])).collect()),
    }
}

fn header(seq: u16, codec_id: CodecId) -> MediaHeader {
    MediaHeader {
        version: 0,
        is_repair: false,
        codec_id,
        has_quality_report: false,
        fec_ratio_encoded: 0,
        seq,
        timestamp: seq as u32 * 20,
        fec_block: 0,
        fec_symbol: 0,
        reserved: 0,
        csrc_count: 0,
    }
}

#[test]
fn encoder_produces_packets() {
    let config = CallConfig::default();
    let mut enc = CallEncoder::new(&config);
    let packets = enc.encode_frame(voice_frame(0)).unwrap();
    assert!(!packets.is_empty());
    assert_eq!(packets[0].header.seq, 0);
    assert!(!packets[0].header.is_repair);
}

#[test]
fn opus_source_packets_have_zero_fec_header_fields() {
    let config = CallConfig {
        profile: QualityProfile::good(),
        suppression_enabled: false,
        ..Default::default()
    };
    let mut enc = CallEncoder::new(&config);
    let packets = enc.encode_frame(voice_frame(2)).unwrap();
    assert_eq!(packets.len(), 1, "Opus must emit exactly 1 source packet");
    let hdr = &packets[0].header;
    assert!(hdr.codec_id.is_opus());
    assert!(!hdr.is_repair);
    assert_eq!(hdr.fec_block, 0, "Opus fec_block must be 0");
    assert_eq!(hdr.fec_symbol, 0, "Opus fec_symbol must be 0");
    assert_eq!(hdr.fec_ratio_encoded, 0, "Opus fec_ratio_encoded must be 0");
}

#[test]
fn opus_encoder_never_emits_repair_packets() {
    let config = CallConfig {
        profile: QualityProfile::good(),
        suppression_enabled: false,
        ..Default::default()
    };
    let mut enc = CallEncoder::new(&config);
    let mut total_packets = 0usize;
    let mut repair_count = 0usize;
    for _ in 0..20 {
        let packets = enc.encode_frame(voice_frame(2)).unwrap();
        total_packets += packets.len();
        repair_count += packets.iter().filter(|p| p.header.is_repair).count();
    }
    assert_eq!(repair_count, 0, "Opus must emit zero repair packets");
    assert_eq!(
        total_packets, 20,
        "20 source frames → 20 source packets (1:1, no RaptorQ expansion)"
    );
}

#[test]
fn codec2_encoder_generates_repair_on_full_block() {
    let config = CallConfig {
        profile: QualityProfile::catastrophic(),
        suppression_enabled: false,
        ..Default::default()
    };
    let mut enc = CallEncoder::new(&config);
    let mut total_packets = 0usize;
    let mut repair_count = 0usize;
    for _ in 0..16 {
        let full = enc.is_block_completed();
        let packets = enc.encode_frame(voice_frame(8)).unwrap();
        assert_eq!(packets.len() > 1, full);
        for p in &packets {
            if p.header.is_repair {
                repair_count += 1;
            }
        }
        total_packets += packets.len();
    }
    assert!(
        repair_count > 0,
        "Codec2 must still emit repair packets (got {repair_count} repairs, {total_packets} total)"
    );
    assert_eq!(repair_count, 16);
    assert_eq!(total_packets, 32);
}

#[test]
fn packets_are_numbered_without_gaps() {
    let config = CallConfig {
        profile: QualityProfile::catastrophic(),
        suppression_enabled: false,
        ..Default::default()
    };
    let mut enc = CallEncoder::new(&config);
    enc.seq = 65_530;
    let mut expected = 65_530u16;
    for frame in 0..9u32 {
        for p in enc.encode_frame(voice_frame(3)).unwrap() {
            assert_eq!(p.header.seq, expected);
            assert_eq!(p.header.fec_ratio_encoded, 32);
            if !p.header.is_repair {
                assert_eq!(p.header.timestamp, frame * 40);
                assert_eq!(p.header.fec_symbol as u32, frame % 8);
                assert_eq!(p.header.fec_block as u32, frame / 8);
            }
            expected = expected.wrapping_add(1);
        }
    }
    assert_eq!(enc.seq, expected);
}

#[test]
fn failures_of_the_codec_are_passed_on() {
    let mut enc = CallEncoder::new(&CallConfig {
        profile: QualityProfile::catastrophic(),
        ..Default::default()
    });
    let mut f = voice_frame(0);
    f.encoded = Err("no encoder".into());
    assert_eq!(enc.encode_frame(f).unwrap_err(), "no encoder");
    assert_eq!(enc.seq, 0);
    let mut f = voice_frame(0);
    f.symbol_added = Err("no room".into());
    assert_eq!(enc.encode_frame(f).unwrap_err(), "no room");
    assert_eq!(enc.seq, 1);
    assert_eq!(enc.frame_in_block, 0);
}

#[test]
fn set_profile_begins_a_block() {
    let mut enc = CallEncoder::new(&CallConfig {
        profile: QualityProfile::catastrophic(),
        ..Default::default()
    });
    enc.encode_frame(voice_frame(0)).unwrap();
    assert_eq!(enc.frame_in_block, 1);
    enc.set_profile(QualityProfile::good());
    assert_eq!(enc.frame_in_block, 0);
    assert_eq!(enc.profile, QualityProfile::good());
    assert_eq!(enc.seq, 1);
}

#[test]
fn opus_single_packet_loss_is_recovered_via_dred() {
    let mut dec = CallDecoder::new(&CallConfig::default());
    for i in 0..60u16 {
        let plan = dec.ingest(&header(i, CodecId::Opus24k));
        assert!(plan.parse_dred && plan.to_jitter && !plan.feed_fec);
        dec.dred_parsed(i, 9600);
    }
    dec.dred_parsed(62, 9600);
    assert_eq!(dec.last_good_dred_seq(), Some(62));
    assert_eq!(dec.last_good_dred_samples_available(), 9600);
    let baseline_dred = dec.dred_reconstructions;
    let action = dec.decode_next(Playout::Missing { seq: 61, depth: 1 });
    assert_eq!(action, DecodeAction::Reconstruct { offset_samples: 960 });
    assert_eq!(dec.reconstructed(true), None);
    let dred_delta = dec.dred_reconstructions - baseline_dred;
    assert!(dred_delta >= 1);
    assert_eq!(dec.classical_plc_invocations, 0);
}

#[test]
fn opus_lossless_ingest_never_triggers_dred_or_plc() {
    let mut dec = CallDecoder::new(&CallConfig::default());
    for i in 0..40u16 {
        dec.ingest(&header(i, CodecId::Opus24k));
        dec.dred_parsed(i, 960);
        let action = dec.decode_next(Playout::Packet { codec_id: CodecId::Opus24k });
        assert_eq!(action, DecodeAction::Decode);
    }
    assert_eq!(dec.decode_next(Playout::NotReady), DecodeAction::Underrun);
    assert_eq!(dec.dred_reconstructions, 0, "lossless stream should not reconstruct");
    assert_eq!(dec.classical_plc_invocations, 0, "lossless stream should not PLC");
}

#[test]
fn codec2_loss_falls_through_to_classical_plc() {
    let config = CallConfig { profile: QualityProfile::catastrophic(), ..Default::default() };
    let mut dec = CallDecoder::new(&config);
    for i in 0..20u16 {
        let plan = dec.ingest(&header(i, CodecId::Codec2_1200));
        assert!(plan.feed_fec && !plan.parse_dred);
    }
    // Even with redundancy at hand a lost frame is concealed.
    dec.dred_parsed(5, 96_000);
    assert_eq!(
        dec.decode_next(Playout::Missing { seq: 4, depth: 3 }),
        DecodeAction::Conceal
    );
    assert_eq!(dec.dred_reconstructions, 0, "Codec2 must never reconstruct via DRED");
    assert_eq!(dec.classical_plc_invocations, 1);
}

#[test]
fn redundancy_is_used_within_its_reach_only() {
    let mut dec = CallDecoder::new(&CallConfig::default());
    // None parsed yet.
    assert_eq!(
        dec.decode_next(Playout::Missing { seq: 1, depth: 1 }),
        DecodeAction::Conceal
    );
    dec.dred_parsed(10, 1920);
    dec.dred_parsed(11, 0);
    assert_eq!(dec.last_good_dred_seq(), Some(10));
    assert_eq!(
        dec.decode_next(Playout::Missing { seq: 8, depth: 1 }),
        DecodeAction::Reconstruct { offset_samples: 1920 }
    );
    // Too far back, and not behind at all.
    assert_eq!(
        dec.decode_next(Playout::Missing { seq: 7, depth: 1 }),
        DecodeAction::Conceal
    );
    assert_eq!(
        dec.decode_next(Playout::Missing { seq: 10, depth: 1 }),
        DecodeAction::Conceal
    );
    // An empty buffer is an underrun, not a loss.
    assert_eq!(
        dec.decode_next(Playout::Missing { seq: 8, depth: 0 }),
        DecodeAction::Underrun
    );
    // A failure to reconstruct is concealed.
    let before = dec.classical_plc_invocations;
    assert_eq!(dec.reconstructed(false), Some(DecodeAction::Conceal));
    assert_eq!(dec.classical_plc_invocations, before + 1);
    assert_eq!(
        dec.decode_next(Playout::Packet { codec_id: CodecId::ComfortNoise }),
        DecodeAction::ComfortNoise
    );
    assert!(dec.last_was_cn);
    assert_eq!(dec.profile(), QualityProfile::good());
}

#[test]
fn repair_packets_are_not_played() {
    let dec = CallDecoder::new(&CallConfig::default());
    let mut h = header(3, CodecId::Codec2_1200);
    h.is_repair = true;
    let plan = dec.ingest(&h);
    assert!(plan.feed_fec && !plan.parse_dred && !plan.to_jitter);
}

/// A report from loss in percent and round-trip time in milliseconds.
fn make_report(loss_pct_f: f32, rtt_ms: u16) -> QualityReport {
    QualityReport {
        loss_pct: (loss_pct_f / 100.0 * 255.0) as u8,
        rtt_4ms: (rtt_ms / 4) as u8,
        jitter_ms: 10,
        bitrate_cap_kbps: 200,
    }
}

#[test]
fn good_conditions_stays_good() {
    let mut adapter = QualityAdapter::new();
    let good = make_report(1.0, 40);
    for _ in 0..10 {
        adapter.ingest(&good);
    }
    assert_eq!(adapter.recommended_profile(), QualityProfile::good());

    let current = QualityProfile::good();
    for _ in 0..10 {
        adapter.ingest(&good);
        assert!(adapter.should_switch(&current).is_none());
    }
}

#[test]
fn high_loss_degrades() {
    let mut adapter = QualityAdapter::new();
    let degraded = make_report(8.0, 40);
    let mut current = QualityProfile::good();
    for _ in 0..3 {
        adapter.ingest(&degraded);
        if let Some(new) = adapter.should_switch(&current) {
            current = new;
        }
    }
    assert_eq!(current, QualityProfile::degraded());
}

#[test]
fn catastrophic_conditions() {
    let mut adapter = QualityAdapter::new();
    let terrible = make_report(20.0, 50);
    let mut current = QualityProfile::good();
    for _ in 0..3 {
        adapter.ingest(&terrible);
        if let Some(new) = adapter.should_switch(&current) {
            current = new;
        }
    }
    assert_eq!(current, QualityProfile::catastrophic());

    let mut adapter2 = QualityAdapter::new();
    let high_rtt = make_report(1.0, 252);
    let mut current2 = QualityProfile::good();
    for _ in 0..3 {
        adapter2.ingest(&high_rtt);
        if let Some(new) = adapter2.should_switch(&current2) {
            current2 = new;
        }
    }
    assert_eq!(current2, QualityProfile::catastrophic());
}

#[test]
fn hysteresis_prevents_flapping() {
    let mut adapter = QualityAdapter::new();
    let good = make_report(1.0, 40);
    let bad = make_report(8.0, 40);
    let current = QualityProfile::good();
    for _ in 0..20 {
        adapter.ingest(&bad);
        assert!(adapter.should_switch(&current).is_none());
        adapter.ingest(&good);
        assert!(adapter.should_switch(&current).is_none());
    }
    assert_eq!(current, QualityProfile::good());
}

#[test]
fn recovery_to_good() {
    let mut adapter = QualityAdapter::new();
    let bad = make_report(20.0, 50);
    let good = make_report(1.0, 40);
    let mut current = QualityProfile::good();
    for _ in 0..3 {
        adapter.ingest(&bad);
        if let Some(new) = adapter.should_switch(&current) {
            current = new;
        }
    }
    assert_eq!(current, QualityProfile::catastrophic());
    for _ in 0..3 {
        adapter.ingest(&good);
        if let Some(new) = adapter.should_switch(&current) {
            current = new;
        }
    }
    assert_eq!(current, QualityProfile::good());
}

#[test]
fn thresholds_are_exclusive() {
    let at = |loss_pct: u8, rtt_4ms: u8| {
        QualityAdapter::classify(&QualityReport {
            loss_pct,
            rtt_4ms,
            jitter_ms: 0,
            bitrate_cap_kbps: 0,
        })
    };
    assert_eq!(at(12, 25), QualityProfile::good());
    assert_eq!(at(13, 0), QualityProfile::degraded());
    assert_eq!(at(0, 26), QualityProfile::degraded());
    assert_eq!(at(38, 50), QualityProfile::degraded());
    assert_eq!(at(39, 0), QualityProfile::catastrophic());
    assert_eq!(at(0, 51), QualityProfile::catastrophic());
}

#[test]
fn call_config_from_profile() {
    let good = CallConfig::from_profile(QualityProfile::good());
    assert_eq!(good.profile, QualityProfile::good());
    assert_eq!(good.jitter_min, 3);

    let degraded = CallConfig::from_profile(QualityProfile::degraded());
    assert_eq!(degraded.profile, QualityProfile::degraded());
    assert!(degraded.jitter_target > good.jitter_target);

    let catastrophic = CallConfig::from_profile(QualityProfile::catastrophic());
    assert_eq!(catastrophic.profile, QualityProfile::catastrophic());
    assert!(catastrophic.jitter_max > degraded.jitter_max);
}

#[test]
fn telemetry_respects_interval() {
    let start: u64 = 5_000;
    let mut telemetry = JitterTelemetry::new(60, start);
    let logged = telemetry.maybe_log(start);
    assert!(!logged, "should not log before interval elapses");
    assert!(!telemetry.maybe_log(start + 59_999_999_999));
    assert!(telemetry.maybe_log(start + 60_000_000_000));
    assert!(!telemetry.maybe_log(start + 60_000_000_001));
}

#[test]
fn silence_suppression_skips_silent_frames() {
    let config = CallConfig {
        suppression_enabled: true,
        silence_threshold_rms: 100,
        silence_hangover_frames: 5,
        comfort_noise_level: 50,
        ..Default::default()
    };
    let mut enc = CallEncoder::new(&config);
    let mut total_packets = 0;
    let mut cn_packets = 0;
    for frame in 0..20 {
        // The detector calls a frame silent once the hangover has passed.
        let mut f = voice_frame(0);
        f.silent = frame >= config.silence_hangover_frames;
        let packets = enc.encode_frame(f).unwrap();
        for p in &packets {
            if p.header.codec_id == CodecId::ComfortNoise {
                cn_packets += 1;
                assert_eq!(p.payload.len(), 1);
                assert_eq!(p.payload[0], 50);
                assert_eq!(p.header.seq, 5);
                assert_eq!(p.header.timestamp, 15 * 20);
            }
        }
        total_packets += packets.len();
    }
    assert!(
        total_packets < 20,
        "suppression should reduce packet count, got {total_packets}"
    );
    assert!(
        cn_packets >= 1,
        "should have at least one CN packet, got {cn_packets}"
    );
    assert_eq!(cn_packets, 1);
    assert!(enc.frames_suppressed > 0, "frames_suppressed should be > 0");
    assert_eq!(enc.frames_suppressed, 15);
    assert_eq!(enc.timestamp_ms, 400);
}

#[test]
fn packets_carry_their_payload() {
    let mut enc = CallEncoder::new(&CallConfig::default());
    let packets: Vec<MediaPacket> = enc.encode_frame(voice_frame(0)).unwrap();
    assert_eq!(packets[0].payload, vec![7u8; 60]);
    assert!(packets[0].quality_report.is_none());
}

#[test]
fn jitter_buffers_by_configuration() {
    let config = CallConfig::default();
    assert_eq!(config.jitter_plan(), JitterPlan::Adaptive { min: 3, max: 250 });
    let config = CallConfig { adaptive_jitter: false, ..CallConfig::default() };
    assert_eq!(config.jitter_plan(), JitterPlan::Fixed { target: 10, max: 250, min: 3 });
}

#[test]
fn header_form_by_configuration() {
    let mut config = CallConfig::default();
    assert_eq!(CallEncoder::new(&config).serialize_compact(), HeaderForm::Compact);
    config.mini_frames_enabled = false;
    assert_eq!(CallEncoder::new(&config).serialize_compact(), HeaderForm::Full);
}

#[test]
fn what_a_place_in_the_stream_comes_to() {
    let play = CallDecoder::played;
    let noise = play(DecodeAction::ComfortNoise, 960, None, None);
    assert_eq!((noise.samples, noise.count_decode, noise.count_underrun), (Some(960), true, false));
    assert_eq!(play(DecodeAction::Decode, 960, Some(480), None).samples, Some(480));
    assert_eq!(play(DecodeAction::Decode, 960, None, Some(960)).samples, Some(960));
    let failed = play(DecodeAction::Decode, 960, None, None);
    assert_eq!((failed.samples, failed.count_decode), (None, false));
    assert_eq!(play(DecodeAction::Conceal, 960, Some(1), Some(960)).samples, Some(960));
    let again = play(DecodeAction::Reconstruct { offset_samples: 960 }, 960, Some(960), None);
    assert!(again.count_decode);
    let none = play(DecodeAction::Underrun, 960, Some(1), Some(1));
    assert_eq!((none.samples, none.count_decode, none.count_underrun), (None, false, true));
}

#[test]
fn every_tenth_silent_frame_is_comfort_noise() {
    let config = CallConfig::default();
    let mut enc = CallEncoder::new(&config);
    let mut sent = Vec::new();
    for i in 0..30usize {
        let mut frame = voice_frame(0);
        frame.silent = true;
        let packets = enc.encode_frame(frame).unwrap();
        if !packets.is_empty() {
            assert_eq!(packets.len(), 1);
            assert_eq!(packets[0].header.codec_id, CodecId::ComfortNoise);
            sent.push(i);
        }
    }
    assert_eq!(sent.len(), 3);
    assert_eq!(sent[1] - sent[0], 10);
    assert_eq!(sent[2] - sent[1], 10);
}

#[test]
fn a_block_begins_after_as_many_frames_as_it_has() {
    let profile = QualityProfile::catastrophic();
    let config = CallConfig { suppression_enabled: false, ..CallConfig::from_profile(profile) };
    let mut enc = CallEncoder::new(&config);
    for k in 0..20u8 {
        let packets = enc.encode_frame(voice_frame(0)).unwrap();
        assert_eq!(packets[0].header.fec_block, k / 8);
        assert_eq!(packets[0].header.fec_symbol, k % 8);
    }
}

#[test]
fn switches_go_by_reports() {
    let bad = make_report(8.0, 40);
    let good = QualityProfile::good();
    let mut adapter = QualityAdapter::new();
    adapter.ingest(&bad);
    for _ in 0..5 {
        assert!(adapter.should_switch(&good).is_none());
    }
    adapter.ingest(&bad);
    adapter.ingest(&bad);
    assert_eq!(adapter.should_switch(&good), Some(QualityProfile::degraded()));
    assert!(adapter.should_switch(&good).is_none());

    let mut adapter = QualityAdapter::new();
    for _ in 0..3 {
        adapter.ingest(&bad);
    }
    assert_eq!(adapter.should_switch(&good), Some(QualityProfile::degraded()));

    let mut adapter = QualityAdapter::new();
    for _ in 0..5 {
        assert!(adapter.should_switch(&QualityProfile::degraded()).is_none());
    }
}
