use wzp_client::dual_path::{PeerCandidates, WinningPath};
use wzp_client::net::SocketAddr;

fn sa(s: &str) -> SocketAddr {
    SocketAddr::parse(s).unwrap()
}

#[test]
fn peer_candidates_dial_order_all_types() {
    let candidates = PeerCandidates {
        reflexive: Some(sa("203.0.113.5:4433")),
        local: vec![
            sa("192.168.1.10:4433"),
            sa("10.0.0.5:4433"),
        ],
        mapped: Some(sa("198.51.100.42:12345")),
    };

    let order = candidates.dial_order();
    // Order: local first, then mapped, then reflexive
    assert_eq!(order.len(), 4);
    assert_eq!(order[0], sa("192.168.1.10:4433"));
    assert_eq!(order[1], sa("10.0.0.5:4433"));
    assert_eq!(order[2], sa("198.51.100.42:12345"));
    assert_eq!(order[3], sa("203.0.113.5:4433"));
}

#[test]
fn peer_candidates_dial_order_no_mapped() {
    let candidates = PeerCandidates {
        reflexive: Some(sa("203.0.113.5:4433")),
        local: vec![sa("192.168.1.10:4433")],
        mapped: None,
    };

    let order = candidates.dial_order();
    assert_eq!(order.len(), 2);
    assert_eq!(order[0], sa("192.168.1.10:4433"));
    assert_eq!(order[1], sa("203.0.113.5:4433"));
}

#[test]
fn peer_candidates_dial_order_only_mapped() {
    let candidates = PeerCandidates {
        reflexive: None,
        local: vec![],
        mapped: Some(sa("198.51.100.42:12345")),
    };

    let order = candidates.dial_order();
    assert_eq!(order.len(), 1);
    assert_eq!(order[0], sa("198.51.100.42:12345"));
}

#[test]
fn peer_candidates_dial_order_dedup_mapped_equals_reflexive() {
    let addr: SocketAddr = sa("203.0.113.5:4433");
    let candidates = PeerCandidates {
        reflexive: Some(addr),
        local: vec![],
        mapped: Some(addr), // same as reflexive
    };

    let order = candidates.dial_order();
    // Should be deduped to 1
    assert_eq!(order.len(), 1);
    assert_eq!(order[0], addr);
}

#[test]
fn peer_candidates_dial_order_dedup_mapped_in_local() {
    let addr: SocketAddr = sa("192.168.1.10:4433");
    let candidates = PeerCandidates {
        reflexive: None,
        local: vec![addr],
        mapped: Some(addr), // same as a local addr
    };

    let order = candidates.dial_order();
    assert_eq!(order.len(), 1);
    assert_eq!(order[0], addr);
}

#[test]
fn peer_candidates_is_empty() {
    let empty = PeerCandidates::default();
    assert!(empty.is_empty());

    let with_reflexive = PeerCandidates {
        reflexive: Some(sa("1.2.3.4:5")),
        ..Default::default()
    };
    assert!(!with_reflexive.is_empty());

    let with_local = PeerCandidates {
        local: vec![sa("10.0.0.1:5")],
        ..Default::default()
    };
    assert!(!with_local.is_empty());

    let with_mapped = PeerCandidates {
        mapped: Some(sa("1.2.3.4:5")),
        ..Default::default()
    };
    assert!(!with_mapped.is_empty());
}

#[test]
fn peer_candidates_empty_dial_order() {
    let empty = PeerCandidates::default();
    assert!(empty.dial_order().is_empty());
}

#[test]
fn winning_path_debug() {
    // Just verify Debug impl doesn't panic
    let _ = format!("{:?}", WinningPath::Direct);
    let _ = format!("{:?}", WinningPath::Relay);
}


#[test]
fn smart_dial_order_same_network_includes_lan() {
    let candidates = PeerCandidates {
        reflexive: Some(sa("203.0.113.5:4433")),
        local: vec![
            sa("192.168.1.10:4433"),
            sa("10.0.0.5:4433"),
        ],
        mapped: None,
    };
    let own: SocketAddr = sa("203.0.113.5:12345");
    let order = candidates.smart_dial_order(Some(&own));
    // Same public IP → LAN candidates included
    assert!(order.contains(&sa("192.168.1.10:4433")));
    assert!(order.contains(&sa("10.0.0.5:4433")));
    assert!(order.contains(&sa("203.0.113.5:4433")));
}

#[test]
fn smart_dial_order_different_network_strips_lan() {
    let candidates = PeerCandidates {
        reflexive: Some(sa("150.228.49.65:4433")),
        local: vec![
            sa("172.16.81.126:4433"),
            sa("10.0.0.5:4433"),
        ],
        mapped: None,
    };
    // Different public IP → LAN candidates stripped
    let own: SocketAddr = sa("185.115.4.212:12345");
    let order = candidates.smart_dial_order(Some(&own));
    assert!(!order.contains(&sa("172.16.81.126:4433")));
    assert!(!order.contains(&sa("10.0.0.5:4433")));
    // Reflexive still included
    assert!(order.contains(&sa("150.228.49.65:4433")));
}

#[test]
fn smart_dial_order_strips_ipv6() {
    let candidates = PeerCandidates {
        reflexive: Some(sa("150.228.49.65:4433")),
        local: vec![
            sa("[2a0d:3344:692c::1]:4433"),
            sa("172.16.81.126:4433"),
        ],
        mapped: None,
    };
    // Same network, but IPv6 should be stripped
    let own: SocketAddr = sa("150.228.49.65:5555");
    let order = candidates.smart_dial_order(Some(&own));
    assert!(!order.iter().any(|a| a.is_ipv6()));
    assert!(order.contains(&sa("172.16.81.126:4433")));
}

#[test]
fn smart_dial_order_no_own_reflexive_strips_lan() {
    let candidates = PeerCandidates {
        reflexive: Some(sa("150.228.49.65:4433")),
        local: vec![sa("172.16.81.126:4433")],
        mapped: Some(sa("198.51.100.42:12345")),
    };
    // No own reflexive → can't determine same network → strip LAN
    let order = candidates.smart_dial_order(None);
    assert!(!order.contains(&sa("172.16.81.126:4433")));
    assert!(order.contains(&sa("198.51.100.42:12345")));
    assert!(order.contains(&sa("150.228.49.65:4433")));
}

#[test]
fn smart_dial_order_mapped_always_included() {
    let candidates = PeerCandidates {
        reflexive: Some(sa("150.228.49.65:4433")),
        local: vec![],
        mapped: Some(sa("198.51.100.42:12345")),
    };
    let own: SocketAddr = sa("185.115.4.212:12345");
    let order = candidates.smart_dial_order(Some(&own));
    assert_eq!(order.len(), 2); // mapped + reflexive
    assert!(order.contains(&sa("198.51.100.42:12345")));
    assert!(order.contains(&sa("150.228.49.65:4433")));
}
