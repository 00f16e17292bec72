use wzp_client::birthday::{
    acceptor_ports, dialer_targets_from, generate_dialer_targets, spray_event, spray_step,
    SprayEvent, SprayStep, SprayVerdict,
};
use wzp_client::dual_path::{
    after_grace, candidate_step, decide_race, dial_error, dial_result, dialed_diag, fill_timeouts,
    finish_race, first_ended, on_accept, other_wait, skipped_diag, tickle_addrs, AcceptStep,
    CandidateStep, DialEnd, DialFailure, FirstEnd, GraceEnd, OtherWait, PathEnd, PeerCandidates,
    WinningPath,
};
use wzp_client::ice_agent::{IceAgent, IceAgentConfig};
use wzp_client::net::{IpAddr, Ipv4Addr, SocketAddr};
use wzp_client::netcheck::{
    build_report, ipv6_reachable, relay_latency, sort_latencies, wants_portmap,
};
use wzp_client::portmap::PortMapProtocol;
use wzp_client::proto::SignalMessage;
use wzp_client::reflect::{
    after_reflect, after_register, bad_address_text, determine_role, detection, is_private_or_loopback,
    lost_probe_row, lost_stun_row, relay_probe_row, stun_probe_row, NatType, ProbeError, Role,
};
use wzp_client::relay_map::RelayMap;
use wzp_client::stun::{
    discovery_result, encode_binding_request, gen_txn_id, parse_binding_response, pick_stun_addr,
    port_allocation_result, predict_ports, reflect_first, reflect_second, reflect_wait,
    PortAllocation, ReflectStep, Reply, StunError, DEFAULT_STUN_SERVERS,
};
use wzp_client::time::Duration;

fn sa(s: &str) -> SocketAddr {
    SocketAddr::parse(s).unwrap()
}

// --- asking STUN servers ---

fn xor_response(txn: &[u8; 12], addr: [u8; 4], port: u16) -> Vec<u8> {
    let mut b = vec![0x01, 0x01, 0x00, 12, 0x21, 0x12, 0xA4, 0x42];
    b.extend_from_slice(txn);
    b.extend_from_slice(&[0x00, 0x20, 0x00, 8, 0x00, 0x01]);
    b.extend_from_slice(&(port ^ 0x2112).to_be_bytes());
    let key = [0x21u8, 0x12, 0xA4, 0x42];
    for i in 0..4 {
        b.push(addr[i] ^ key[i]);
    }
    b
}

#[test]
fn a_response_is_for_one_transaction() {
    let txn = [7u8; 12];
    let other = [8u8; 12];
    let b = xor_response(&txn, [203, 0, 113, 5], 4433);
    assert_eq!(parse_binding_response(&b, &txn).unwrap(), sa("203.0.113.5:4433"));
    assert!(matches!(parse_binding_response(&b, &other), Err(StunError::TxnMismatch)));
}

#[test]
fn a_request_is_no_response() {
    let txn = gen_txn_id();
    let b = encode_binding_request(&txn);
    assert_eq!(
        parse_binding_response(&b, &txn).unwrap_err().to_string(),
        "STUN malformed: unexpected message type: 0x0001"
    );
}

#[test]
fn default_servers_are_these() {
    assert_eq!(
        DEFAULT_STUN_SERVERS,
        ["stun.l.google.com:19302", "stun1.l.google.com:19302", "stun.cloudflare.com:3478"]
    );
}

#[test]
fn first_wait_wants_the_server_itself() {
    let txn = [1u8; 12];
    let server = sa("198.51.100.1:3478");
    let bytes = xor_response(&txn, [203, 0, 113, 5], 4433);
    let good = Reply::Received { from: sa("198.51.100.1:9999"), bytes: bytes.clone() };
    match reflect_first(good, server, &txn) {
        ReflectStep::Done(r) => assert_eq!(r.unwrap(), sa("203.0.113.5:4433")),
        ReflectStep::Retry => panic!("no retry"),
    }
    let strange = Reply::Received { from: sa("198.51.100.2:3478"), bytes: bytes.clone() };
    match reflect_first(strange, server, &txn) {
        ReflectStep::Done(r) => assert_eq!(
            r.unwrap_err().to_string(),
            "STUN malformed: response from unexpected source: 198.51.100.2:3478 (expected 198.51.100.1:3478)"
        ),
        ReflectStep::Retry => panic!("no retry"),
    }
    match reflect_first(Reply::Failed("down".into()), server, &txn) {
        ReflectStep::Done(r) => assert_eq!(r.unwrap_err().to_string(), "STUN I/O: down"),
        ReflectStep::Retry => panic!("no retry"),
    }
    assert!(matches!(reflect_first(Reply::TimedOut, server, &txn), ReflectStep::Retry));
    assert_eq!(reflect_wait(Duration::from_millis(3001)).as_millis(), 1500);
    assert_eq!(reflect_wait(Duration::from_millis(3)).nanos, 1_500_000);
}

#[test]
fn second_wait_takes_any_source() {
    let txn = [1u8; 12];
    let bytes = xor_response(&txn, [203, 0, 113, 5], 4433);
    let r = reflect_second(Reply::Received { from: sa("192.0.2.1:1"), bytes }, &txn);
    assert_eq!(r.unwrap(), sa("203.0.113.5:4433"));
    assert!(matches!(reflect_second(Reply::TimedOut, &txn), Err(StunError::Timeout)));
    assert!(matches!(reflect_second(Reply::Failed("x".into()), &txn), Err(StunError::Io(_))));
}

#[test]
fn ipv4_servers_are_preferred() {
    let both = [sa("[2001:db8::1]:3478"), sa("198.51.100.1:3478"), sa("198.51.100.2:3478")];
    assert_eq!(pick_stun_addr("h:1", &both).unwrap(), sa("198.51.100.1:3478"));
    let only = [sa("[2001:db8::1]:3478"), sa("[2001:db8::2]:3478")];
    assert_eq!(pick_stun_addr("h:1", &only).unwrap(), sa("[2001:db8::1]:3478"));
    assert_eq!(
        pick_stun_addr("h:1", &[]).unwrap_err().to_string(),
        "STUN DNS: h:1: no addresses resolved"
    );
}

#[test]
fn first_server_to_succeed_counts() {
    let r = discovery_result(
        3,
        vec![Err(StunError::Timeout), Ok(sa("1.2.3.4:5")), Ok(sa("1.2.3.4:6"))],
    );
    assert_eq!(r.unwrap(), sa("1.2.3.4:5"));
    let r = discovery_result(2, vec![Err(StunError::Timeout), Err(StunError::NoMappedAddress)]);
    assert!(matches!(r, Err(StunError::NoMappedAddress)));
    assert_eq!(
        discovery_result(0, vec![]).unwrap_err().to_string(),
        "STUN I/O: no STUN servers configured"
    );
    assert_eq!(
        discovery_result(2, vec![]).unwrap_err().to_string(),
        "STUN I/O: no STUN servers responded"
    );
}

#[test]
fn allocation_needs_two_servers() {
    let seen = [sa("1.2.3.4:100"), sa("1.2.3.4:102"), sa("1.2.3.4:104")];
    let r = port_allocation_result(3, &seen);
    assert_eq!(r.allocation, PortAllocation::Sequential { delta: 2 });
    assert_eq!(r.observed_ports, vec![100, 102, 104]);
    assert_eq!(r.external_ip, Some(IpAddr::V4(Ipv4Addr::new(1, 2, 3, 4))));
    let r = port_allocation_result(2, &[sa("1.2.3.4:100"), sa("1.2.3.5:100")]);
    assert_eq!(r.allocation, PortAllocation::PortPreserving);
    assert_eq!(r.external_ip, None);
    let r = port_allocation_result(1, &seen);
    assert_eq!(r.allocation, PortAllocation::Unknown);
    assert!(r.observed_ports.is_empty());
    assert_eq!(r.external_ip, None);
}

#[test]
fn predicted_ports_skip_zero() {
    assert_eq!(predict_ports(65534, 1, 0, 1), vec![65534, 65535]);
    assert_eq!(predict_ports(10, 0, 3, 5), vec![10]);
    assert_eq!(predict_ports(65535, 100, 0, 1), vec![99, 199, 65535]);
}

// --- NAT detection ---

#[test]
fn peers_get_opposite_roles() {
    let a = "1.2.3.4:5";
    let b = "1.2.3.4:50";
    assert_eq!(determine_role(Some(a), Some(b)), Some(Role::Acceptor));
    assert_eq!(determine_role(Some(b), Some(a)), Some(Role::Dialer));
    assert_eq!(determine_role(Some(a), Some(a)), None);
}

#[test]
fn addresses_that_are_not_public() {
    for t in [
        "127.0.0.1:1",
        "10.0.0.1:1",
        "172.16.0.1:1",
        "192.168.0.1:1",
        "169.254.0.1:1",
        "100.64.0.1:1",
        "100.127.255.255:1",
        "[::1]:1",
        "[::]:1",
        "[fe80::1]:1",
        "[febf::1]:1",
    ] {
        assert!(is_private_or_loopback(&sa(t)), "{}", t);
    }
    for t in ["8.8.8.8:1", "100.63.0.1:1", "100.128.0.1:1", "0.0.0.0:1", "[fec0::1]:1", "[2001:db8::1]:1"] {
        assert!(!is_private_or_loopback(&sa(t)), "{}", t);
    }
}

#[test]
fn rows_of_a_detection() {
    let ok = relay_probe_row("r1".into(), sa("9.9.9.9:1"), Ok((sa("1.2.3.4:5"), 17)));
    assert_eq!(ok.relay_name, "r1");
    assert_eq!(ok.relay_addr, "9.9.9.9:1");
    assert_eq!(ok.observed_addr.as_deref(), Some("1.2.3.4:5"));
    assert_eq!(ok.latency_ms, Some(17));
    assert!(ok.error.is_none());
    let bad = relay_probe_row("r2".into(), sa("9.9.9.8:1"), Err("connect: refused".into()));
    assert!(bad.observed_addr.is_none() && bad.latency_ms.is_none());
    assert_eq!(bad.error.as_deref(), Some("connect: refused"));
    let lost = lost_probe_row("boom");
    assert_eq!(lost.relay_name, "<panicked>");
    assert_eq!(lost.relay_addr, "unknown");
    assert_eq!(lost.error.as_deref(), Some("probe task panicked: boom"));

    let d = detection(vec![
        ok.clone(),
        relay_probe_row("r3".into(), sa("9.9.9.7:1"), Ok((sa("1.2.3.4:5"), 3))),
        bad,
        relay_probe_row("lan".into(), sa("10.0.0.1:1"), Ok((sa("10.0.0.7:9"), 1))),
    ]);
    assert_eq!(d.nat_type, NatType::Cone);
    assert_eq!(d.consensus_addr.as_deref(), Some("1.2.3.4:5"));
    assert_eq!(d.probes.len(), 4);
}

#[test]
fn rows_of_stun_probes() {
    let ok = stun_probe_row("s:1", Some(sa("9.9.9.9:1")), Ok(sa("1.2.3.4:5")), 8);
    assert_eq!(ok.relay_name, "stun:s:1");
    assert_eq!(ok.relay_addr, "9.9.9.9:1");
    assert_eq!(ok.observed_addr.as_deref(), Some("1.2.3.4:5"));
    assert_eq!(ok.latency_ms, Some(8));
    let unresolved = stun_probe_row("s:1", None, Err("STUN DNS: x".into()), 8);
    assert_eq!(unresolved.relay_addr, "s:1");
    assert_eq!(unresolved.latency_ms, None);
    assert_eq!(unresolved.error.as_deref(), Some("STUN DNS: x"));
    let lost = lost_stun_row();
    assert_eq!(lost.relay_name, "stun:<panicked>");
    assert_eq!(lost.error.as_deref(), Some("STUN probe task panicked"));
}

#[test]
fn a_probe_waits_for_the_acknowledgement() {
    let ack = |success| SignalMessage::RegisterPresenceAck { success, error: None };
    assert!(after_register(Ok(Some(ack(true)))).is_ok());
    assert!(matches!(
        after_register(Ok(Some(ack(false)))),
        Err(ProbeError::UnexpectedBeforeReflect)
    ));
    assert!(matches!(
        after_register(Ok(Some(SignalMessage::Hold))),
        Err(ProbeError::UnexpectedBeforeReflect)
    ));
    assert!(matches!(after_register(Ok(None)), Err(ProbeError::ClosedBeforeAck)));
    match after_register(Err("x".into())) {
        Err(ProbeError::RecvAck(e)) => assert_eq!(e, "x"),
        other => panic!("{:?}", other),
    }
}

#[test]
fn a_probe_reads_the_observed_address() {
    let answer = |t: &str| SignalMessage::ReflectResponse { observed_addr: t.into() };
    assert_eq!(after_reflect(Ok(Some(answer("1.2.3.4:5")))).unwrap(), sa("1.2.3.4:5"));
    match after_reflect(Ok(Some(answer("nowhere")))) {
        Err(ProbeError::BadAddress(t)) => assert_eq!(t, "nowhere"),
        other => panic!("{:?}", other),
    }
    assert!(matches!(
        after_reflect(Ok(Some(SignalMessage::Reflect))),
        Err(ProbeError::UnexpectedResponse)
    ));
    assert!(matches!(after_reflect(Ok(None)), Err(ProbeError::ClosedBeforeResponse)));
    assert!(matches!(after_reflect(Err("x".into())), Err(ProbeError::RecvResponse(_))));
}

#[test]
fn failed_probes_have_a_text() {
    let told = |e: ProbeError| e.to_string();
    assert_eq!(
        told(ProbeError::ClosedBeforeAck),
        "connection closed before RegisterPresenceAck"
    );
    assert_eq!(told(ProbeError::RecvAck("x".into())), "recv RegisterPresenceAck: x");
    assert_eq!(
        told(ProbeError::ClosedBeforeResponse),
        "connection closed before ReflectResponse"
    );
    assert_eq!(told(ProbeError::RecvResponse("x".into())), "recv ReflectResponse: x");
    assert_eq!(
        told(ProbeError::BadAddress("no\n\"where\"".into())),
        "parse observed_addr \"no\\n\\\"where\\\"\": invalid socket address syntax"
    );
    assert_eq!(bad_address_text("x"), "parse observed_addr x: invalid socket address syntax");
    assert!(told(ProbeError::UnexpectedBeforeReflect).starts_with("unexpected pre-reflect signal"));
    assert!(told(ProbeError::UnexpectedResponse).starts_with("expected ReflectResponse, got "));
}

#[test]
fn relays_that_tie_keep_their_order() {
    let mut m = RelayMap::default();
    assert!(m.entries().is_empty());
    let relays = ["1.1.1.1:1", "2.2.2.2:1", "3.3.3.3:1", "4.4.4.4:1"];
    for a in relays {
        m.upsert(a, sa(a), None);
    }
    for a in relays {
        m.update_rtt(sa(a), if a == "3.3.3.3:1" { 1 } else { 7 }, 0);
    }
    let order: Vec<String> = m.entries().iter().map(|e| e.addr.text()).collect();
    assert_eq!(order, ["3.3.3.3:1", "1.1.1.1:1", "2.2.2.2:1", "4.4.4.4:1"]);
}

// --- relays ---

#[test]
fn relays_stay_in_order_of_latency() {
    let mut m = RelayMap::new();
    for (name, a) in [("a", "1.1.1.1:1"), ("b", "2.2.2.2:1"), ("c", "3.3.3.3:1")] {
        m.upsert(name, sa(a), Some("eu".into()));
    }
    m.update_rtt(sa("3.3.3.3:1"), 10, 1000);
    m.update_rtt(sa("1.1.1.1:1"), 30, 1000);
    m.update_rtt(sa("9.9.9.9:1"), 1, 1000);
    let names: Vec<&str> = m.entries().iter().map(|e| e.name.as_str()).collect();
    assert_eq!(names, ["c", "a", "b"]);
    assert_eq!(m.preferred().unwrap().name, "c");
    m.mark_unreachable(sa("3.3.3.3:1"), 2000);
    assert_eq!(m.preferred().unwrap().name, "a");
    let names: Vec<&str> = m.entries().iter().map(|e| e.name.as_str()).collect();
    assert_eq!(names, ["a", "c", "b"]);
    assert_eq!(m.entries()[1].rtt_ms, Some(10));
    m.upsert("renamed", sa("1.1.1.1:1"), None);
    assert_eq!(m.entries().len(), 3);
    assert_eq!(m.preferred().unwrap().name, "renamed");
    assert_eq!(m.preferred().unwrap().region.as_deref(), Some("eu"));
}

#[test]
fn probes_grow_old() {
    let mut m = RelayMap::new();
    m.upsert("a", sa("1.1.1.1:1"), None);
    m.update_rtt(sa("1.1.1.1:1"), 5, 1000);
    let limit: u64 = 1000 + 500_000_000;
    assert!(!m.needs_reprobe(Duration::from_millis(500), limit));
    assert!(m.needs_reprobe(Duration::from_millis(500), limit + 1));
    assert!(!m.needs_reprobe(Duration::from_millis(500), 0));
    assert_eq!(
        m.stale_entries(Duration::from_millis(500), limit + 1),
        vec![("a".to_string(), sa("1.1.1.1:1"))]
    );
    assert!(m.stale_entries(Duration::from_millis(500), limit).is_empty());
}

// --- the race for a path ---

#[test]
fn acceptors_tickle_real_addresses() {
    let c = PeerCandidates {
        reflexive: Some(sa("203.0.113.5:1")),
        local: vec![sa("127.0.0.1:2"), sa("192.168.1.2:2"), sa("0.0.0.0:2")],
        mapped: None,
    };
    let own = sa("203.0.113.5:9");
    assert_eq!(tickle_addrs(&c, Some(&own)), vec![sa("192.168.1.2:2"), sa("203.0.113.5:1")]);
    assert_eq!(tickle_addrs(&c, None), vec![sa("203.0.113.5:1")]);
}

#[test]
fn three_stale_connections_are_too_many() {
    assert!(matches!(on_accept(0, false), AcceptStep::Take));
    assert!(matches!(on_accept(0, true), AcceptStep::Skip(1)));
    assert!(matches!(on_accept(1, true), AcceptStep::Skip(2)));
    match on_accept(2, true) {
        AcceptStep::Abort(m) => assert_eq!(m, "A-role: 3 stale connections, aborting"),
        _ => panic!("not aborted"),
    }
}

#[test]
fn candidates_of_ipv6_are_skipped() {
    assert!(matches!(candidate_step(0, sa("1.2.3.4:5")), CandidateStep::Dial));
    match candidate_step(3, sa("[2001:db8::1]:5")) {
        CandidateStep::Skip(d) => {
            assert_eq!((d.index, d.result.as_str()), (3, "skipped:ipv6"));
        }
        CandidateStep::Dial => panic!("dialed"),
    }
}

#[test]
fn notes_on_candidates() {
    let d = dialed_diag(2, sa("1.2.3.4:5"), None, 40);
    assert_eq!((d.index, d.addr.as_str(), d.result.as_str(), d.elapsed_ms), (2, "1.2.3.4:5", "ok", Some(40)));
    let d = dialed_diag(0, sa("1.2.3.4:5"), Some("refused"), 1);
    assert_eq!(d.result, "error:refused");
    let d = skipped_diag(1, sa("[::1]:5"));
    assert_eq!((d.addr.as_str(), d.result.as_str(), d.elapsed_ms), ("[::1]:5", "skipped:ipv6", None));
    let mut diags = vec![dialed_diag(1, sa("2.2.2.2:1"), Some("no"), 3)];
    fill_timeouts(&mut diags, &[sa("1.1.1.1:1"), sa("2.2.2.2:1"), sa("3.3.3.3:1")]);
    let seen: Vec<(usize, &str)> = diags.iter().map(|d| (d.index, d.result.as_str())).collect();
    assert_eq!(seen, [(1, "error:no"), (0, "timeout:2s"), (2, "timeout:2s")]);
    assert_eq!(diags[2].elapsed_ms, Some(2000));
}

#[test]
fn first_dial_to_connect_counts() {
    let refused = || {
        DialEnd::Failed(DialFailure::Refused { candidate: sa("1.2.3.4:5"), error: "no".into() })
    };
    assert_eq!(dial_result(3, vec![refused(), DialEnd::Connected(2), DialEnd::Connected(0)]), Ok(2));
    assert_eq!(
        dial_result(2, vec![DialEnd::Failed(DialFailure::Lost("gone".into())), refused()]),
        Err("all 2 direct candidates failed; last: candidate 1.2.3.4:5: no".to_string())
    );
    assert_eq!(
        dial_result(1, vec![DialEnd::Failed(DialFailure::Lost("gone".into()))]),
        Err("all 1 direct candidates failed; last: join gone".to_string())
    );
    assert_eq!(dial_error(0, None), "all 0 direct candidates failed; last: n/a");
}

#[test]
fn a_race_names_a_path_that_is_connected() {
    let r = decide_race(FirstEnd::Direct(PathEnd::Connected), GraceEnd::NoResult).unwrap();
    assert!(r.direct_ok && !r.relay_ok);
    assert_eq!(r.local_winner, WinningPath::Direct);
    let r = decide_race(FirstEnd::Direct(PathEnd::TimedOut), GraceEnd::Connected).unwrap();
    assert!(!r.direct_ok && r.relay_ok);
    assert_eq!(r.local_winner, WinningPath::Relay);
    let r = decide_race(FirstEnd::Relay(PathEnd::Connected), GraceEnd::Connected).unwrap();
    assert!(r.direct_ok && r.relay_ok);
    assert_eq!(r.local_winner, WinningPath::Relay);
    let r = decide_race(FirstEnd::Relay(PathEnd::Failed("x".into())), GraceEnd::Connected).unwrap();
    assert_eq!(r.local_winner, WinningPath::Direct);
    let e = decide_race(FirstEnd::Relay(PathEnd::TimedOut), GraceEnd::Failed("y".into()));
    assert_eq!(e.unwrap_err(), "both paths failed: no media transport available");
}

#[test]
fn a_failed_path_leaves_the_other_its_time() {
    let grace = OtherWait::Grace(1000);
    assert_eq!(other_wait(&first_ended(FirstEnd::Direct(PathEnd::Connected))), grace);
    assert_eq!(other_wait(&first_ended(FirstEnd::Relay(PathEnd::Connected))), grace);
    for end in [PathEnd::TimedOut, PathEnd::Failed("x".into())] {
        let s = first_ended(FirstEnd::Direct(end));
        assert_eq!(other_wait(&s), OtherWait::UntilItEnds);
    }
    let s = first_ended(FirstEnd::Relay(PathEnd::Panicked("p".into())));
    assert_eq!(other_wait(&s), OtherWait::UntilItEnds);
}

#[test]
fn failures_of_a_race_are_told() {
    let s = first_ended(FirstEnd::Relay(PathEnd::Panicked("p".into())));
    assert_eq!(s.relay, Some(Err("relay task panic: p".to_string())));
    assert_eq!(s.direct, None);
    let s = after_grace(s, GraceEnd::NoResult);
    assert_eq!(s.direct, Some(Err("direct: no result in grace period".to_string())));
    assert!(finish_race(&s).is_err());
    let s = first_ended(FirstEnd::Direct(PathEnd::Panicked("p".into())));
    assert_eq!(s.direct, Some(Err("direct task panic".to_string())));
    let s = after_grace(s, GraceEnd::NoResult);
    assert_eq!(s.relay, Some(Err("relay: no result in grace period".to_string())));
    let s = first_ended(FirstEnd::Direct(PathEnd::TimedOut));
    assert_eq!(s.direct, Some(Err("direct timeout".to_string())));
    let s = first_ended(FirstEnd::Relay(PathEnd::TimedOut));
    assert_eq!(s.relay, Some(Err("relay timeout".to_string())));
}

// --- many sockets, many dials ---

#[test]
fn opened_ports_are_summed_up() {
    let r = acceptor_ports(
        5,
        &[
            (1000, Some(sa("[2001:db8::1]:40"))),
            (1001, None),
            (1002, Some(sa("203.0.113.5:41"))),
            (1003, Some(sa("203.0.113.6:42"))),
        ],
    );
    assert_eq!(r.attempted, 5);
    assert_eq!(r.succeeded, 3);
    assert_eq!(r.external_ip, Some(Ipv4Addr::new(203, 0, 113, 5)));
    let pairs: Vec<(u16, u16)> = r.ports.iter().map(|p| (p.local_port, p.external_port)).collect();
    assert_eq!(pairs, [(1000, 40), (1002, 41), (1003, 42)]);
}

#[test]
fn known_ports_come_before_drawn_ones() {
    let ip = Ipv4Addr::new(203, 0, 113, 5);
    let t = dialer_targets_from(ip, &[40, 41], &[2000, 41, 2000, 3000]);
    let ports: Vec<u16> = t.iter().map(|a| a.port()).collect();
    assert_eq!(ports, [40, 41, 2000, 3000]);
    let t = generate_dialer_targets(ip, &[40, 41], 30);
    assert!(t.len() <= 30);
    assert!(t[2..].iter().all(|a| a.port() >= 1024));
    assert!(t.iter().all(|a| a.ip() == IpAddr::V4(ip)));
    let other = generate_dialer_targets(ip, &[40, 41], 30);
    assert_ne!(t, other);
    // More known ports than probes leave none to draw.
    assert_eq!(generate_dialer_targets(ip, &[5; 31], 30).len(), 31);
    // The known ports are counted with 16 bits: twenty more are drawn here.
    let drawn = generate_dialer_targets(ip, &vec![5; 65_546], 30).len() - 65_546;
    assert!(1 <= drawn && drawn <= 20);
}

#[test]
fn a_spray_stops_in_time() {
    let t = [sa("1.2.3.4:1"), sa("1.2.3.4:2")];
    let limit = Duration::from_millis(100);
    assert_eq!(
        spray_step(&t, 0, Duration::from_millis(0), limit),
        SprayStep::Dial { target: t[0], then_pause: true }
    );
    assert_eq!(
        spray_step(&t, 1, Duration::from_millis(99), limit),
        SprayStep::Dial { target: t[1], then_pause: false }
    );
    assert_eq!(spray_step(&t, 1, Duration::from_millis(100), limit), SprayStep::Wait);
    assert_eq!(spray_step(&t, 2, Duration::from_millis(0), limit), SprayStep::Wait);
    assert_eq!(spray_event(SprayEvent::Connected(1)), SprayVerdict::Hit(1));
    assert_eq!(spray_event(SprayEvent::Failed), SprayVerdict::KeepWaiting);
    assert_eq!(spray_event(SprayEvent::AllEnded), SprayVerdict::GiveUp);
    assert_eq!(spray_event(SprayEvent::TimeUp), SprayVerdict::GiveUp);
}

// --- candidates over a call ---

#[test]
fn a_peer_reads_what_was_gathered() {
    let config = IceAgentConfig { local_v4_port: 4433, ..IceAgentConfig::default() };
    let mut here = IceAgent::new("c1".into(), config);
    let mut there = IceAgent::new("c1".into(), IceAgentConfig::default());
    assert!(here.wants_portmap());
    assert!(!there.wants_portmap());
    let first = here.gather(None, vec![], None);
    assert_eq!(first.generation, 0);
    let local = vec![sa("192.168.1.2:4433"), sa("[fe80::1%2]:4433")];
    let (set, msg) = here.re_gather(Some(sa("203.0.113.5:1")), local.clone(), Some(sa("203.0.113.5:2")));
    assert_eq!(set.generation, 1);
    assert_eq!(here.generation(), 2);
    let read = there.apply_peer_update(&msg).unwrap();
    assert_eq!(read.reflexive, Some(sa("203.0.113.5:1")));
    assert_eq!(read.local, local);
    assert_eq!(read.mapped, Some(sa("203.0.113.5:2")));
    assert!(there.apply_peer_update(&msg).is_none());
}

// --- reports ---

#[test]
fn rows_are_sorted_by_latency() {
    let rows = vec![
        relay_latency("a".into(), sa("1.1.1.1:1"), Err("x".into())),
        relay_latency("b".into(), sa("2.2.2.2:1"), Ok(20)),
        relay_latency("c".into(), sa("3.3.3.3:1"), Ok(10)),
        relay_latency("d".into(), sa("4.4.4.4:1"), Ok(20)),
    ];
    let rows = sort_latencies(rows);
    let names: Vec<&str> = rows.iter().map(|r| r.name.as_str()).collect();
    assert_eq!(names, ["c", "b", "d", "a"]);
    assert_eq!(rows[3].error.as_deref(), Some("x"));
    assert_eq!(rows[0].addr, "3.3.3.3:1");
}

#[test]
fn a_report_sums_up_the_probes() {
    let probes = vec![
        stun_probe_row("s1:1", Some(sa("9.9.9.9:1")), Ok(sa("1.2.3.4:5")), 30),
        stun_probe_row("s2:1", Some(sa("9.9.9.8:1")), Ok(sa("1.2.3.4:6")), 12),
        stun_probe_row("s3:1", None, Err("no".into()), 1),
    ];
    let rows = vec![
        relay_latency("b".into(), sa("2.2.2.2:1"), Ok(20)),
        relay_latency("d".into(), sa("4.4.4.4:1"), Ok(20)),
    ];
    let gateway = Some(Ipv4Addr::new(192, 168, 1, 1));
    let r = build_report(probes, &[], rows, Some(PortMapProtocol::Pcp), gateway, true, 77);
    assert_eq!(r.nat_type, NatType::SymmetricPort);
    assert_eq!(r.reflexive_addr, None);
    assert!(r.ipv4_reachable && r.ipv6_reachable);
    assert_eq!(r.preferred_relay.as_deref(), Some("b"));
    assert_eq!(r.stun_latency_ms, Some(12));
    assert!(r.pcp_available && !r.nat_pmp_available && !r.upnp_available);
    assert_eq!(r.gateway.as_deref(), Some("192.168.1.1"));
    assert_eq!(r.duration_ms, 77);
    let relays = vec![
        relay_probe_row("b".into(), sa("2.2.2.2:1"), Ok((sa("1.2.3.4:5"), 20))),
        relay_probe_row("d".into(), sa("4.4.4.4:1"), Err("no".into())),
    ];
    let one = vec![stun_probe_row("s1:1", Some(sa("9.9.9.9:1")), Ok(sa("1.2.3.4:5")), 30)];
    let r = build_report(one.clone(), &relays, vec![], None, None, false, 0);
    assert_eq!(r.nat_type, NatType::Cone);
    assert_eq!(r.reflexive_addr.as_deref(), Some("1.2.3.4:5"));
    assert_eq!(r.stun_latency_ms, Some(30));
    assert_eq!(r.stun_probes.len(), 1);
    let r = build_report(one, &[], vec![], None, None, false, 0);
    assert_eq!(r.nat_type, NatType::Unknown);
    let r = build_report(vec![], &relays, vec![], None, None, false, 0);
    assert!(!r.ipv4_reachable);
    let r = build_report(vec![], &[], vec![], None, None, false, 0);
    assert_eq!(r.nat_type, NatType::Unknown);
    assert!(!r.ipv4_reachable);
    assert_eq!(r.stun_latency_ms, None);
    assert_eq!(r.preferred_relay, None);
}

#[test]
fn when_things_are_tested() {
    assert!(wants_portmap(true, 1));
    assert!(!wants_portmap(true, 0));
    assert!(!wants_portmap(false, 1));
    assert!(ipv6_reachable(true, false, true));
    assert!(ipv6_reachable(true, true, false));
    assert!(!ipv6_reachable(true, false, false));
    assert!(!ipv6_reachable(false, true, true));
}
