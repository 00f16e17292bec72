use wzp_client::ice_agent::{IceAgent, IceAgentConfig};
use wzp_client::net::SocketAddr;
use wzp_client::proto::SignalMessage;

fn sa(s: &str) -> SocketAddr {
    SocketAddr::parse(s).unwrap()
}

#[test]
fn apply_peer_update_rejects_stale() {
    let mut agent = IceAgent::new("test-call".into(), IceAgentConfig::default());

    // First update (gen=1) should succeed.
    let update1 = SignalMessage::CandidateUpdate {
        call_id: "test-call".into(),
        reflexive_addr: Some("203.0.113.5:4433".into()),
        local_addrs: vec!["192.168.1.10:4433".into()],
        mapped_addr: None,
        generation: 1,
    };
    let result = agent.apply_peer_update(&update1);
    assert!(result.is_some());
    let candidates = result.unwrap();
    assert_eq!(
        candidates.reflexive,
        Some(sa("203.0.113.5:4433"))
    );
    assert_eq!(candidates.local.len(), 1);

    // Same generation (gen=1) should be rejected.
    let update1b = SignalMessage::CandidateUpdate {
        call_id: "test-call".into(),
        reflexive_addr: Some("198.51.100.9:4433".into()),
        local_addrs: vec![],
        mapped_addr: None,
        generation: 1,
    };
    assert!(agent.apply_peer_update(&update1b).is_none());

    // Older generation (gen=0) should be rejected.
    let update0 = SignalMessage::CandidateUpdate {
        call_id: "test-call".into(),
        reflexive_addr: Some("10.0.0.1:4433".into()),
        local_addrs: vec![],
        mapped_addr: None,
        generation: 0,
    };
    assert!(agent.apply_peer_update(&update0).is_none());

    // Newer generation (gen=2) should succeed.
    let update2 = SignalMessage::CandidateUpdate {
        call_id: "test-call".into(),
        reflexive_addr: Some("198.51.100.9:5555".into()),
        local_addrs: vec![],
        mapped_addr: Some("203.0.113.5:12345".into()),
        generation: 2,
    };
    let result = agent.apply_peer_update(&update2);
    assert!(result.is_some());
    let candidates = result.unwrap();
    assert_eq!(
        candidates.reflexive,
        Some(sa("198.51.100.9:5555"))
    );
    assert_eq!(
        candidates.mapped,
        Some(sa("203.0.113.5:12345"))
    );
}

#[test]
fn apply_wrong_signal_returns_none() {
    let mut agent = IceAgent::new("test-call".into(), IceAgentConfig::default());
    let wrong = SignalMessage::Reflect;
    assert!(agent.apply_peer_update(&wrong).is_none());
}

#[test]
fn generation_increments() {
    let mut agent = IceAgent::new("test".into(), IceAgentConfig::default());
    assert_eq!(agent.generation(), 0);
    // Simulate what gather() does internally
    let g1 = agent.next_generation();
    assert_eq!(g1, 0);
    assert_eq!(agent.generation(), 1);
    let g2 = agent.next_generation();
    assert_eq!(g2, 1);
    assert_eq!(agent.generation(), 2);
}

#[test]
fn apply_peer_update_parses_all_fields() {
    let mut agent = IceAgent::new("test-call".into(), IceAgentConfig::default());

    let update = SignalMessage::CandidateUpdate {
        call_id: "test-call".into(),
        reflexive_addr: Some("203.0.113.5:4433".into()),
        local_addrs: vec!["192.168.1.10:4433".into(), "10.0.0.5:4433".into()],
        mapped_addr: Some("198.51.100.42:12345".into()),
        generation: 1,
    };

    let candidates = agent.apply_peer_update(&update).unwrap();
    assert_eq!(
        candidates.reflexive,
        Some(sa("203.0.113.5:4433"))
    );
    assert_eq!(candidates.local.len(), 2);
    assert_eq!(
        candidates.local[0],
        sa("192.168.1.10:4433")
    );
    assert_eq!(
        candidates.mapped,
        Some(sa("198.51.100.42:12345"))
    );
}

#[test]
fn apply_peer_update_handles_empty_fields() {
    let mut agent = IceAgent::new("test".into(), IceAgentConfig::default());

    let update = SignalMessage::CandidateUpdate {
        call_id: "test".into(),
        reflexive_addr: None,
        local_addrs: vec![],
        mapped_addr: None,
        generation: 1,
    };

    let candidates = agent.apply_peer_update(&update).unwrap();
    assert!(candidates.reflexive.is_none());
    assert!(candidates.local.is_empty());
    assert!(candidates.mapped.is_none());
}

#[test]
fn apply_peer_update_skips_unparseable_addrs() {
    let mut agent = IceAgent::new("test".into(), IceAgentConfig::default());

    let update = SignalMessage::CandidateUpdate {
        call_id: "test".into(),
        reflexive_addr: Some("not-an-addr".into()),
        local_addrs: vec![
            "192.168.1.10:4433".into(),
            "garbage".into(),
            "10.0.0.5:4433".into(),
        ],
        mapped_addr: Some("also-bad".into()),
        generation: 1,
    };

    let candidates = agent.apply_peer_update(&update).unwrap();
    assert!(candidates.reflexive.is_none()); // unparseable
    assert_eq!(candidates.local.len(), 2); // garbage filtered
    assert!(candidates.mapped.is_none()); // unparseable
}

#[test]
fn default_config_values() {
    let cfg = IceAgentConfig::default();
    assert!(cfg.enable_portmap);
    assert!(cfg.gather_timeout.as_secs() > 0);
    assert!(!cfg.stun_config.servers.is_empty());
    assert_eq!(cfg.local_v4_port, 0);
    assert!(cfg.local_v6_port.is_none());
}
