use wzp_client::birthday::{generate_dialer_targets, BirthdayConfig};
use wzp_client::net::{IpAddr, Ipv4Addr};

#[test]
fn generate_targets_known_ports_first() {
    let ip = Ipv4Addr::new(203, 0, 113, 5);
    let known = vec![10000, 10001, 10002];
    let targets = generate_dialer_targets(ip, &known, 10);

    // Known ports should be first
    assert_eq!(targets[0].port(), 10000);
    assert_eq!(targets[1].port(), 10001);
    assert_eq!(targets[2].port(), 10002);
    // Rest are random
    assert!(targets.len() <= 10);
    // All target the right IP
    assert!(targets.iter().all(|a| a.ip() == IpAddr::V4(ip)));
}

#[test]
fn generate_targets_no_known_all_random() {
    let ip = Ipv4Addr::new(10, 0, 0, 1);
    let targets = generate_dialer_targets(ip, &[], 50);
    assert!(!targets.is_empty());
    assert!(targets.len() <= 50);
    // All ports in valid range
    assert!(targets.iter().all(|a| a.port() >= 1024));
}

#[test]
fn generate_targets_more_known_than_total() {
    let ip = Ipv4Addr::new(10, 0, 0, 1);
    let known: Vec<u16> = (10000..10100).collect();
    let targets = generate_dialer_targets(ip, &known, 50);
    // All 100 known ports included even though total=50
    assert_eq!(targets.len(), 100);
}

#[test]
fn generate_targets_dedup() {
    let ip = Ipv4Addr::new(10, 0, 0, 1);
    let targets = generate_dialer_targets(ip, &[], 100);
    // No duplicates
    for i in 0..targets.len() {
        assert!(!targets[..i].contains(&targets[i]));
    }
}

#[test]
fn default_config() {
    let cfg = BirthdayConfig::default();
    assert_eq!(cfg.acceptor_ports, 32);
    assert_eq!(cfg.dialer_probes, 128);
    assert!(cfg.timeout.as_secs() > 0);
}
