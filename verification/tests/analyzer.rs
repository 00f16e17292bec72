use wzp_client::analyzer::{
    capture_header, capture_header_of, chart_points, dataset, duration_secs,
    find_or_create_participant, new_capture, new_capture_at, observe, second_labels, status_line,
    stream_color, summary_row, write_packet, CaptureError, CaptureReader, LossLevel, OpenError,
    ParticipantStats, Report, TimelineEntry,
};
use wzp_client::proto::{CodecId, MediaHeader};

fn header(seq: u16, codec_id: CodecId) -> MediaHeader {
    MediaHeader {
        version: 0,
        is_repair: false,
        codec_id,
        has_quality_report: false,
        fec_ratio_encoded: 0,
        seq,
        timestamp: 0,
        fec_block: 0,
        fec_symbol: 0,
        reserved: 0,
        csrc_count: 0,
    }
}

#[test]
fn losses_are_counted_from_gaps() {
    let mut p = ParticipantStats::new(3, CodecId::Opus24k, 1_000);
    assert_eq!(p.ingest(&header(65_534, CodecId::Opus24k), 1_000), None);
    assert_eq!(p.ingest(&header(65_535, CodecId::Opus24k), 21_000), Some(20_000));
    // Two lost across the wrap.
    p.ingest(&header(2, CodecId::Opus24k), 41_000);
    assert_eq!(p.lost, 2);
    assert_eq!(p.packets + p.lost, 5);
    // A hundred at once is no loss but something else, and so is going back.
    p.ingest(&header(103, CodecId::Opus24k), 61_000);
    p.ingest(&header(50, CodecId::Opus6k), 81_000);
    assert_eq!(p.lost, 2);
    assert_eq!(p.codec_switches, 1);
    assert_eq!(p.codec, CodecId::Opus6k);
    assert_eq!(p.duration(), 80_000);
    assert_eq!(p.loss_percent(), (2, 7));
    assert_eq!(p.display_name(), "Stream 3");
    p.alias = Some("Ann".into());
    assert_eq!(p.display_name(), "Ann");
}

#[test]
fn losses_have_levels() {
    let mut p = ParticipantStats::new(0, CodecId::Opus24k, 0);
    assert_eq!(p.loss_level(), LossLevel::Low);
    p.packets = 99;
    p.lost = 1;
    assert_eq!(p.loss_level(), LossLevel::Low);
    p.packets = 98;
    p.lost = 2;
    assert_eq!(p.loss_level(), LossLevel::Medium);
    p.packets = 95;
    p.lost = 5;
    assert_eq!(p.loss_level(), LossLevel::Medium);
    p.packets = 94;
    p.lost = 6;
    assert_eq!(p.loss_level(), LossLevel::High);
}

#[test]
fn streams_are_told_apart_by_number() {
    let mut ps = Vec::new();
    assert_eq!(observe(&mut ps, &header(100, CodecId::Opus24k), 0), (0, None));
    assert_eq!(observe(&mut ps, &header(30_000, CodecId::Opus24k), 1), (1, None));
    assert_eq!(observe(&mut ps, &header(101, CodecId::Opus24k), 2), (0, Some(2)));
    assert_eq!(observe(&mut ps, &header(30_049, CodecId::Opus24k), 3), (1, Some(2)));
    assert_eq!(ps[1].lost, 48);
    // Fifty on is another stream, and so is the same number again.
    assert_eq!(observe(&mut ps, &header(151, CodecId::Opus24k), 4).0, 2);
    assert_eq!(find_or_create_participant(&mut ps, 101, CodecId::Opus24k, 5), 3);
    assert_eq!(ps[3].stream_id, 3);
}

#[test]
fn captures_give_back_what_was_written() {
    let mut file = capture_header(b"{\"room\":\"x\"}");
    assert_eq!(&file[..8], b"WZP\x01\x0c\0\0\0");
    let packets: Vec<(u64, Vec<u8>)> =
        vec![(0, vec![1, 2, 3]), (u64::MAX, vec![]), (1_000_000, vec![9; 300])];
    for (ts, raw) in &packets {
        file.extend(write_packet(*ts, raw));
    }
    let mut reader = CaptureReader::open(file.clone()).unwrap();
    assert_eq!(reader.header, b"{\"room\":\"x\"}");
    for p in &packets {
        assert_eq!(reader.next_packet().unwrap().as_ref(), Some(p));
    }
    assert_eq!(reader.next_packet(), Ok(None));

    // Up to seven bytes more are an end; from there on the capture is cut.
    file.extend([0u8; 7]);
    let mut reader = CaptureReader::open(file.clone()).unwrap();
    for _ in &packets {
        reader.next_packet().unwrap();
    }
    assert_eq!(reader.next_packet(), Ok(None));
    file.push(0);
    let mut reader = CaptureReader::open(file.clone()).unwrap();
    for _ in &packets {
        reader.next_packet().unwrap();
    }
    assert_eq!(reader.next_packet(), Err(CaptureError::Truncated));
    file.extend([1, 0, 0, 0]);
    let mut reader = CaptureReader::open(file).unwrap();
    for _ in &packets {
        reader.next_packet().unwrap();
    }
    assert_eq!(reader.next_packet(), Err(CaptureError::Truncated));
}

#[test]
fn other_files_are_no_captures() {
    let open = |b: &[u8]| match CaptureReader::open(b.to_vec()) {
        Err(OpenError::Capture(e)) => e,
        _ => panic!("no such error"),
    };
    assert_eq!(open(b"WZP"), CaptureError::Truncated);
    assert_eq!(open(b"WZP\x02\0\0\0\0"), CaptureError::NotACapture);
    assert_eq!(open(b"WZP\x01\0\0"), CaptureError::Truncated);
    assert_eq!(open(b"WZP\x01\x02\0\0\0{"), CaptureError::Truncated);
    assert_eq!(CaptureError::NotACapture.to_string(), "not a WZP capture file");
    assert_eq!(CaptureError::Truncated.to_string(), "failed to fill whole buffer");
}

#[test]
fn charts_show_the_last_packet_of_a_second() {
    let e = |timestamp_us, stream_id| TimelineEntry { timestamp_us, stream_id };
    let line = [e(100, 0), e(900_000, 1), e(999_999, 0), e(2_500_000, 0)];
    assert_eq!(duration_secs(&line), 3);
    assert_eq!(duration_secs(&[]), 1);
    assert_eq!(chart_points(&line, 0, 3), vec![Some(2), None, Some(3)]);
    assert_eq!(chart_points(&line, 1, 3), vec![Some(1), None, None]);
    assert_eq!(chart_points(&line, 2, 2), vec![None, None]);
}

#[test]
fn reports_are_pages() {
    assert_eq!(second_labels(3), format!("{:?}", ["0s", "1s", "2s"]));
    assert_eq!(second_labels(0), "[]");
    assert_eq!(stream_color(0), "#e74c3c");
    assert_eq!(stream_color(7), "#3498db");
    assert_eq!(
        dataset("Ann", "[0.0, 1.5]", "#e74c3c"),
        "{ label: 'Ann', data: [0.0, 1.5], borderColor: '#e74c3c', fill: false },\n"
    );
    let mut p = ParticipantStats::new(1, CodecId::Opus24k, 0);
    p.packets = 40;
    p.codec_switches = 2;
    assert_eq!(
        summary_row(&p, "Opus24k", "1.5", "12"),
        "<tr><td>Stream 1</td><td>Opus24k</td><td>40</td><td>1.5%</td><td>12ms</td><td>2</td></tr>\n"
    );
    let page = Report {
        room: "lobby".into(),
        start_time: "now".into(),
        total_packets: 40,
        duration_secs: 3,
        summary_rows: "ROWS".into(),
        labels: second_labels(3),
        loss_datasets: "LOSS".into(),
        jitter_datasets: "JITTER".into(),
    }
    .html();
    assert!(page.starts_with("<!DOCTYPE html>\n<html><head>"));
    assert!(page.contains("<title>WZP Call Report — lobby</title>"));
    assert!(page.contains("Room: <b>lobby</b> | Start: now | Packets: 40 | Duration: 3s"));
    assert!(page.contains("datasets: [LOSS]"));
    assert!(page.contains("datasets: [JITTER]"));
    assert!(page.contains("\nROWS\n"));
    assert!(page.ends_with("</script>\n</body></html>"));
}

#[test]
fn the_display_has_a_clock() {
    assert_eq!(
        status_line(2, 300, 3_725),
        " WZP Analyzer | 2 participants | 300 packets | 01:02:05"
    );
    assert_eq!(
        status_line(0, 0, 360_000),
        " WZP Analyzer | 0 participants | 0 packets | 100:00:00"
    );
}

#[test]
fn captures_give_back_their_names() {
    let start = "2026-01-02T03:04:05+00:00";
    let mut file = new_capture_at("a \"room\"\n\u{e9}", "1.2.3.4:4433", start).unwrap();
    assert_eq!(
        capture_header_of(&file).unwrap(),
        "{\"relay\":\"1.2.3.4:4433\",\"room\":\"a \\\"room\\\"\\n\u{e9}\",\
         \"start_time\":\"2026-01-02T03:04:05+00:00\",\"version\":1}"
            .as_bytes()
    );
    file.extend(write_packet(5, &[1, 2]));
    let mut reader = CaptureReader::open(file).unwrap();
    assert_eq!(reader.room.as_deref(), Some("a \"room\"\n\u{e9}"));
    assert_eq!(reader.start_time.as_deref(), Some(start));
    assert_eq!(reader.shown_room(), "a \"room\"\n\u{e9}");
    assert_eq!(reader.next_packet(), Ok(Some((5, vec![1, 2]))));

    let now = CaptureReader::open(new_capture("r", "relay").unwrap()).unwrap();
    assert_eq!(now.room.as_deref(), Some("r"));
    assert!(now.start_time.unwrap().ends_with("+00:00"));
}

#[test]
fn headers_may_say_nothing_but_are_json() {
    let open = |h: &[u8]| CaptureReader::open(capture_header(h));
    let reader = open(b"{\"room\":7}").unwrap();
    assert_eq!((&reader.room, &reader.start_time), (&None, &None));
    assert_eq!(reader.shown_room(), "?");
    assert_eq!(reader.report_names(), ("unknown".to_string(), "?".to_string()));
    assert!(open(b"[1]").unwrap().room.is_none());
    match open(b"{\"room\":") {
        Err(OpenError::Header(m)) => {
            assert_eq!(m, "EOF while parsing a value at line 1 column 8");
            assert_eq!(OpenError::Header(m.clone()).to_string(), m);
        }
        _ => panic!("opened"),
    }
    let made = |room: Result<Option<String>, String>| {
        let data = capture_header(b"x");
        CaptureReader::opened(data, b"x".to_vec(), room, Ok(Some("t".to_string())))
    };
    let reader = made(Ok(None)).unwrap();
    assert_eq!((reader.pos, reader.start_time.as_deref()), (9, Some("t")));
    assert!(matches!(made(Err("no".to_string())), Err(OpenError::Header(m)) if m == "no"));
    assert_eq!(
        OpenError::Capture(CaptureError::NotACapture).to_string(),
        "not a WZP capture file"
    );
}
