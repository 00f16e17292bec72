use wzp_client::reflect::{classify_nat, determine_role, NatProbeResult, NatType, Role};

fn mk(addr: Option<&str>) -> NatProbeResult {
    NatProbeResult {
        relay_name: "test".into(),
        relay_addr: "0.0.0.0:0".into(),
        observed_addr: addr.map(|s| s.to_string()),
        latency_ms: addr.map(|_| 10),
        error: None,
    }
}

#[test]
fn classify_empty_is_unknown() {
    let (nt, addr) = classify_nat(&[]);
    assert_eq!(nt, NatType::Unknown);
    assert!(addr.is_none());
}

#[test]
fn classify_single_success_is_unknown() {
    let probes = vec![mk(Some("192.0.2.1:4433"))];
    let (nt, addr) = classify_nat(&probes);
    assert_eq!(nt, NatType::Unknown);
    assert!(addr.is_none());
}

#[test]
fn classify_two_identical_is_cone() {
    let probes = vec![
        mk(Some("192.0.2.1:4433")),
        mk(Some("192.0.2.1:4433")),
    ];
    let (nt, addr) = classify_nat(&probes);
    assert_eq!(nt, NatType::Cone);
    assert_eq!(addr.as_deref(), Some("192.0.2.1:4433"));
}

#[test]
fn classify_same_ip_different_ports_is_symmetric() {
    let probes = vec![
        mk(Some("192.0.2.1:4433")),
        mk(Some("192.0.2.1:51234")),
    ];
    let (nt, addr) = classify_nat(&probes);
    assert_eq!(nt, NatType::SymmetricPort);
    assert!(addr.is_none());
}

#[test]
fn classify_different_ips_is_multiple() {
    let probes = vec![
        mk(Some("192.0.2.1:4433")),
        mk(Some("198.51.100.9:4433")),
    ];
    let (nt, addr) = classify_nat(&probes);
    assert_eq!(nt, NatType::Multiple);
    assert!(addr.is_none());
}

#[test]
fn classify_drops_private_ip_probes() {
    // One LAN probe + one public probe should behave like a
    // single public probe — i.e. Unknown (not enough data to
    // classify). This is the common real-world case: the user
    // has a LAN relay + an internet relay configured, the LAN
    // relay sees the LAN IP, the internet relay sees the WAN
    // IP, and the old classifier would flag "Multiple" and
    // falsely warn about symmetric NAT.
    let probes = vec![
        mk(Some("192.168.1.100:4433")), // LAN — must be dropped
        mk(Some("203.0.113.5:4433")),   // public (TEST-NET-3)
    ];
    let (nt, _) = classify_nat(&probes);
    assert_eq!(nt, NatType::Unknown);
}

#[test]
fn classify_drops_loopback_probes() {
    let probes = vec![
        mk(Some("127.0.0.1:4433")),     // loopback — must be dropped
        mk(Some("203.0.113.5:4433")),   // public
        mk(Some("203.0.113.5:4433")),   // public, same addr
    ];
    let (nt, addr) = classify_nat(&probes);
    // Two public probes with identical addrs → Cone.
    assert_eq!(nt, NatType::Cone);
    assert_eq!(addr.as_deref(), Some("203.0.113.5:4433"));
}

#[test]
fn classify_drops_cgnat_probes() {
    // 100.64.0.0/10 is the CGNAT shared-transition range.
    // Filter treats it like RFC1918 — a relay that sees the
    // client with a 100.64/10 addr is on the same CGNAT
    // network and can't contribute to public NAT classification.
    let probes = vec![
        mk(Some("100.64.0.42:4433")),   // CGNAT — dropped
        mk(Some("203.0.113.5:4433")),   // public
        mk(Some("203.0.113.5:12345")),  // public, different port
    ];
    let (nt, _) = classify_nat(&probes);
    // Two public probes same IP different port → SymmetricPort.
    assert_eq!(nt, NatType::SymmetricPort);
}

#[test]
fn classify_two_lan_probes_is_unknown_not_cone() {
    // Even if both probes come back from LAN relays, we can't
    // say anything useful about the public NAT state. Unknown,
    // not Cone.
    let probes = vec![
        mk(Some("192.168.1.100:4433")),
        mk(Some("192.168.1.100:4433")),
    ];
    let (nt, addr) = classify_nat(&probes);
    assert_eq!(nt, NatType::Unknown);
    assert!(addr.is_none());
}

#[test]
fn classify_mix_of_success_and_failure() {
    let probes = vec![
        mk(Some("192.0.2.1:4433")),
        mk(None), // failed probe
        mk(Some("192.0.2.1:4433")),
    ];
    let (nt, addr) = classify_nat(&probes);
    // Two successes both agree → Cone, ignore the failure row.
    assert_eq!(nt, NatType::Cone);
    assert_eq!(addr.as_deref(), Some("192.0.2.1:4433"));
}

#[test]
fn determine_role_smaller_is_acceptor() {
    // Lexicographic: "192.0.2.1:4433" < "198.51.100.9:4433"
    assert_eq!(
        determine_role(Some("192.0.2.1:4433"), Some("198.51.100.9:4433")),
        Some(Role::Acceptor)
    );
}

#[test]
fn determine_role_larger_is_dialer() {
    assert_eq!(
        determine_role(Some("198.51.100.9:4433"), Some("192.0.2.1:4433")),
        Some(Role::Dialer)
    );
}

#[test]
fn determine_role_port_difference_matters() {
    // Same ip, different ports — string compare still works
    // because "4433" < "54321".
    assert_eq!(
        determine_role(Some("127.0.0.1:4433"), Some("127.0.0.1:54321")),
        Some(Role::Acceptor)
    );
    assert_eq!(
        determine_role(Some("127.0.0.1:54321"), Some("127.0.0.1:4433")),
        Some(Role::Dialer)
    );
}

#[test]
fn determine_role_equal_addrs_is_none() {
    assert_eq!(
        determine_role(Some("192.0.2.1:4433"), Some("192.0.2.1:4433")),
        None
    );
}

#[test]
fn determine_role_missing_side_is_none() {
    assert_eq!(determine_role(None, Some("192.0.2.1:4433")), None);
    assert_eq!(determine_role(Some("192.0.2.1:4433"), None), None);
    assert_eq!(determine_role(None, None), None);
}

#[test]
fn determine_role_is_symmetric_across_peers() {
    // Both peers compute roles independently; they must end
    // up with opposite assignments (one Acceptor, one Dialer)
    // so that each side ends up talking to the other.
    let a = "192.0.2.1:4433";
    let b = "198.51.100.9:4433";
    let alice_role = determine_role(Some(a), Some(b));
    let bob_role = determine_role(Some(b), Some(a));
    assert_eq!(alice_role, Some(Role::Acceptor));
    assert_eq!(bob_role, Some(Role::Dialer));
}

#[test]
fn classify_one_success_one_failure_is_unknown() {
    let probes = vec![mk(Some("192.0.2.1:4433")), mk(None)];
    let (nt, addr) = classify_nat(&probes);
    assert_eq!(nt, NatType::Unknown);
    assert!(addr.is_none());
}
