use wzp_client::net::SocketAddr;
use wzp_client::relay_map::RelayMap;
use wzp_client::time::Duration;

const NOW: u64 = 1_000;

fn sa(s: &str) -> SocketAddr {
    SocketAddr::parse(s).unwrap()
}

#[test]
fn preferred_returns_lowest_rtt() {
    let mut map = RelayMap::new();
    let a1: SocketAddr = sa("10.0.0.1:4433");
    let a2: SocketAddr = sa("10.0.0.2:4433");
    let a3: SocketAddr = sa("10.0.0.3:4433");

    map.upsert("slow", a1, None);
    map.upsert("fast", a2, None);
    map.upsert("mid", a3, None);

    map.update_rtt(a1, 200, NOW);
    map.update_rtt(a2, 15, NOW);
    map.update_rtt(a3, 80, NOW);

    let pref = map.preferred().unwrap();
    assert_eq!(pref.addr, a2);
    assert_eq!(pref.rtt_ms, Some(15));
}

#[test]
fn unreachable_not_preferred() {
    let mut map = RelayMap::new();
    let a1: SocketAddr = sa("10.0.0.1:4433");
    let a2: SocketAddr = sa("10.0.0.2:4433");

    map.upsert("fast-dead", a1, None);
    map.upsert("slow-alive", a2, None);

    map.update_rtt(a1, 5, NOW);
    map.update_rtt(a2, 200, NOW);
    map.mark_unreachable(a1, NOW);

    let pref = map.preferred().unwrap();
    assert_eq!(pref.addr, a2);
}

#[test]
fn populate_from_ack() {
    let mut map = RelayMap::new();
    map.populate_from_ack(
        &[
            "us-east|203.0.113.5:4433".into(),
            "eu-west|198.51.100.9:4433".into(),
        ],
        Some("us-east"),
    );
    assert_eq!(map.entries().len(), 2);
    assert_eq!(map.entries()[0].name, "us-east");
    assert_eq!(map.entries()[1].name, "eu-west");
}

#[test]
fn upsert_updates_existing() {
    let mut map = RelayMap::new();
    let addr: SocketAddr = sa("10.0.0.1:4433");
    map.upsert("old-name", addr, None);
    map.upsert("new-name", addr, Some("us-west".into()));
    assert_eq!(map.entries().len(), 1);
    assert_eq!(map.entries()[0].name, "new-name");
    assert_eq!(map.entries()[0].region, Some("us-west".into()));
}

#[test]
fn upsert_preserves_region_when_none() {
    let mut map = RelayMap::new();
    let addr: SocketAddr = sa("10.0.0.1:4433");
    map.upsert("relay", addr, Some("eu-west".into()));
    map.upsert("relay", addr, None); // region is None
    // Should keep the original region
    assert_eq!(map.entries()[0].region, Some("eu-west".into()));
}

#[test]
fn preferred_returns_none_on_empty() {
    let map = RelayMap::new();
    assert!(map.preferred().is_none());
}

#[test]
fn preferred_returns_none_when_all_unreachable() {
    let mut map = RelayMap::new();
    let addr: SocketAddr = sa("10.0.0.1:4433");
    map.upsert("relay", addr, None);
    // Not update_rtt'd, so reachable=false
    assert!(map.preferred().is_none());
}

#[test]
fn needs_reprobe_empty_is_false() {
    let map = RelayMap::new();
    // No entries → nothing to reprobe
    assert!(!map.needs_reprobe(Duration::from_secs(60), NOW));
}

#[test]
fn needs_reprobe_never_probed() {
    let mut map = RelayMap::new();
    map.upsert("relay", sa("10.0.0.1:4433"), None);
    assert!(map.needs_reprobe(Duration::from_secs(60), NOW));
}

#[test]
fn needs_reprobe_fresh_is_false() {
    let mut map = RelayMap::new();
    let addr: SocketAddr = sa("10.0.0.1:4433");
    map.upsert("relay", addr, None);
    map.update_rtt(addr, 50, NOW);
    // Just probed, so 60s max_age should not trigger
    assert!(!map.needs_reprobe(Duration::from_secs(60), NOW));
}

#[test]
fn stale_entries_returns_unprobed() {
    let mut map = RelayMap::new();
    let a1: SocketAddr = sa("10.0.0.1:4433");
    let a2: SocketAddr = sa("10.0.0.2:4433");
    map.upsert("probed", a1, None);
    map.upsert("stale", a2, None);
    map.update_rtt(a1, 50, NOW);

    let stale = map.stale_entries(Duration::from_secs(60), NOW);
    assert_eq!(stale.len(), 1);
    assert_eq!(stale[0].1, a2);
}

#[test]
fn sort_stability_with_equal_rtt() {
    let mut map = RelayMap::new();
    let a1: SocketAddr = sa("10.0.0.1:4433");
    let a2: SocketAddr = sa("10.0.0.2:4433");
    map.upsert("first", a1, None);
    map.upsert("second", a2, None);
    map.update_rtt(a1, 50, NOW);
    map.update_rtt(a2, 50, NOW);

    // Both have same RTT — sort should be stable (insertion order)
    assert_eq!(map.entries().len(), 2);
    // Both are valid preferred relays
    assert!(map.preferred().is_some());
}

#[test]
fn populate_from_ack_skips_malformed() {
    let mut map = RelayMap::new();
    map.populate_from_ack(
        &[
            "good|10.0.0.1:4433".into(),
            "no-pipe-separator".into(),
            "bad-addr|not-a-socket-addr".into(),
            "also-good|10.0.0.2:4433".into(),
        ],
        None,
    );
    assert_eq!(map.entries().len(), 2);
}

#[test]
fn mark_unreachable_sorts_to_end() {
    let mut map = RelayMap::new();
    let a1: SocketAddr = sa("10.0.0.1:4433");
    let a2: SocketAddr = sa("10.0.0.2:4433");
    map.upsert("fast", a1, None);
    map.upsert("slow", a2, None);
    map.update_rtt(a1, 10, NOW);
    map.update_rtt(a2, 200, NOW);

    assert_eq!(map.preferred().unwrap().addr, a1);

    map.mark_unreachable(a1, NOW);
    assert_eq!(map.preferred().unwrap().addr, a2);
}
