use wzp_client::netcheck::{format_report, NetcheckConfig, NetcheckReport, RelayLatency};
use wzp_client::portmap::PortMapProtocol;
use wzp_client::reflect::{NatProbeResult, NatType};

#[test]
fn default_config_has_stun_servers() {
    let config = NetcheckConfig::default();
    assert!(!config.stun_config.servers.is_empty());
}

#[test]
fn format_report_produces_output() {
    let report = NetcheckReport {
        nat_type: NatType::Cone,
        reflexive_addr: Some("203.0.113.5:4433".into()),
        ipv4_reachable: true,
        ipv6_reachable: false,
        hairpin_works: None,
        port_mapping: None,
        relay_latencies: vec![RelayLatency {
            name: "relay-1".into(),
            addr: "10.0.0.1:4433".into(),
            rtt_ms: Some(25),
            error: None,
        }],
        preferred_relay: Some("relay-1".into()),
        stun_latency_ms: Some(15),
        upnp_available: false,
        pcp_available: false,
        nat_pmp_available: false,
        gateway: Some("192.168.1.1".into()),
        duration_ms: 1500,
        stun_probes: vec![],
    };

    let text = format_report(&report);
    assert!(text.contains("Cone"));
    assert!(text.contains("203.0.113.5:4433"));
    assert!(text.contains("relay-1"));
    assert!(text.contains("1500ms"));
}

#[test]
fn format_report_empty_relays() {
    let report = NetcheckReport {
        nat_type: NatType::Unknown,
        reflexive_addr: None,
        ipv4_reachable: false,
        ipv6_reachable: false,
        hairpin_works: None,
        port_mapping: None,
        relay_latencies: vec![],
        preferred_relay: None,
        stun_latency_ms: None,
        upnp_available: false,
        pcp_available: false,
        nat_pmp_available: false,
        gateway: None,
        duration_ms: 100,
        stun_probes: vec![],
    };
    let text = format_report(&report);
    assert!(text.contains("Unknown"));
    assert!(text.contains("(unknown)")); // reflexive addr
    assert!(text.contains("100ms"));
}

#[test]
fn format_report_with_stun_probes() {
    let report = NetcheckReport {
        nat_type: NatType::SymmetricPort,
        reflexive_addr: None,
        ipv4_reachable: true,
        ipv6_reachable: true,
        hairpin_works: Some(false),
        port_mapping: Some(PortMapProtocol::UPnP),
        relay_latencies: vec![
            RelayLatency {
                name: "us-east".into(),
                addr: "10.0.0.1:4433".into(),
                rtt_ms: Some(15),
                error: None,
            },
            RelayLatency {
                name: "eu-west".into(),
                addr: "10.0.0.2:4433".into(),
                rtt_ms: None,
                error: Some("timeout".into()),
            },
        ],
        preferred_relay: Some("us-east".into()),
        stun_latency_ms: Some(20),
        upnp_available: true,
        pcp_available: false,
        nat_pmp_available: false,
        gateway: Some("192.168.0.1".into()),
        duration_ms: 3000,
        stun_probes: vec![NatProbeResult {
            relay_name: "stun:google".into(),
            relay_addr: "74.125.250.129:19302".into(),
            observed_addr: Some("203.0.113.5:12345".into()),
            latency_ms: Some(20),
            error: None,
        }],
    };
    let text = format_report(&report);
    assert!(text.contains("SymmetricPort"));
    assert!(text.contains("us-east"));
    assert!(text.contains("eu-west"));
    assert!(text.contains("Preferred: us-east"));
    assert!(text.contains("UPnP: yes"));
    assert!(text.contains("stun:google"));
    assert!(text.contains("3000ms"));
}
