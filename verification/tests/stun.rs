use wzp_client::net::{IpAddr, Ipv4Addr, Ipv6Addr, SocketAddr};
use wzp_client::stun::{
    classify_port_allocation, encode_binding_request, gen_txn_id, parse_binding_response,
    predict_ports, PortAllocation, StunConfig, StunError, ATTR_MAPPED_ADDRESS,
    ATTR_XOR_MAPPED_ADDRESS, BINDING_RESPONSE, MAGIC_COOKIE,
};

fn octets(ip: Ipv4Addr) -> [u8; 4] {
    [ip.a, ip.b, ip.c, ip.d]
}

fn v6(g: [u16; 8]) -> Ipv6Addr {
    Ipv6Addr { g0: g[0], g1: g[1], g2: g[2], g3: g[3], g4: g[4], g5: g[5], g6: g[6], g7: g[7] }
}

fn octets6(ip: Ipv6Addr) -> [u8; 16] {
    let groups = [ip.g0, ip.g1, ip.g2, ip.g3, ip.g4, ip.g5, ip.g6, ip.g7];
    let mut out = [0u8; 16];
    for i in 0..8 {
        out[2 * i..2 * i + 2].copy_from_slice(&groups[i].to_be_bytes());
    }
    out
}

#[test]
fn encode_binding_request_is_20_bytes() {
    let txn_id = [1u8; 12];
    let pkt = encode_binding_request(&txn_id);
    assert_eq!(pkt.len(), 20);
    // First two bytes: Binding Request type
    assert_eq!(pkt[0], 0x00);
    assert_eq!(pkt[1], 0x01);
    // Bytes 2-3: message length = 0
    assert_eq!(pkt[2], 0x00);
    assert_eq!(pkt[3], 0x00);
    // Bytes 4-7: magic cookie
    assert_eq!(&pkt[4..8], &MAGIC_COOKIE.to_be_bytes());
    // Bytes 8-19: transaction ID
    assert_eq!(&pkt[8..20], &txn_id);
}

#[test]
fn parse_xor_mapped_address_ipv4() {
    let txn_id = [0u8; 12];
    // Build a minimal Binding Response with XOR-MAPPED-ADDRESS
    // for 203.0.113.5:12345
    let ip = Ipv4Addr::new(203, 0, 113, 5);
    let port: u16 = 12345;

    // XOR the port and IP
    let xport = port ^ (MAGIC_COOKIE >> 16) as u16;
    let cookie_bytes = MAGIC_COOKIE.to_be_bytes();
    let ip_octets = octets(ip);
    let xip = [
        ip_octets[0] ^ cookie_bytes[0],
        ip_octets[1] ^ cookie_bytes[1],
        ip_octets[2] ^ cookie_bytes[2],
        ip_octets[3] ^ cookie_bytes[3],
    ];

    // Attribute: XOR-MAPPED-ADDRESS (type 0x0020, length 8)
    let mut attr = Vec::new();
    attr.extend_from_slice(&ATTR_XOR_MAPPED_ADDRESS.to_be_bytes());
    attr.extend_from_slice(&8u16.to_be_bytes()); // length
    attr.push(0x00); // reserved
    attr.push(0x01); // family: IPv4
    attr.extend_from_slice(&xport.to_be_bytes());
    attr.extend_from_slice(&xip);

    // Build full response
    let mut pkt = Vec::new();
    pkt.extend_from_slice(&BINDING_RESPONSE.to_be_bytes());
    pkt.extend_from_slice(&(attr.len() as u16).to_be_bytes());
    pkt.extend_from_slice(&MAGIC_COOKIE.to_be_bytes());
    pkt.extend_from_slice(&txn_id);
    pkt.extend_from_slice(&attr);

    let result = parse_binding_response(&pkt, &txn_id).unwrap();
    assert_eq!(result, SocketAddr::new(IpAddr::V4(ip), port));
}

#[test]
fn parse_xor_mapped_address_ipv6() {
    let txn_id = [0xAB; 12];
    let ip = v6([0x2001, 0x0db8, 0, 0, 0, 0, 0, 1]);
    let port: u16 = 54321;

    let xport = port ^ (MAGIC_COOKIE >> 16) as u16;
    let cookie_bytes = MAGIC_COOKIE.to_be_bytes();
    let ip_octets = octets6(ip);
    let mut xor_key = [0u8; 16];
    xor_key[..4].copy_from_slice(&cookie_bytes);
    xor_key[4..16].copy_from_slice(&txn_id);
    let mut xip = [0u8; 16];
    for i in 0..16 {
        xip[i] = ip_octets[i] ^ xor_key[i];
    }

    let mut attr = Vec::new();
    attr.extend_from_slice(&ATTR_XOR_MAPPED_ADDRESS.to_be_bytes());
    attr.extend_from_slice(&20u16.to_be_bytes()); // length
    attr.push(0x00); // reserved
    attr.push(0x02); // family: IPv6
    attr.extend_from_slice(&xport.to_be_bytes());
    attr.extend_from_slice(&xip);

    let mut pkt = Vec::new();
    pkt.extend_from_slice(&BINDING_RESPONSE.to_be_bytes());
    pkt.extend_from_slice(&(attr.len() as u16).to_be_bytes());
    pkt.extend_from_slice(&MAGIC_COOKIE.to_be_bytes());
    pkt.extend_from_slice(&txn_id);
    pkt.extend_from_slice(&attr);

    let result = parse_binding_response(&pkt, &txn_id).unwrap();
    assert_eq!(result, SocketAddr::new(IpAddr::V6(ip), port));
}

#[test]
fn parse_mapped_address_fallback() {
    let txn_id = [0u8; 12];
    let ip = Ipv4Addr::new(198, 51, 100, 42);
    let port: u16 = 8080;

    // Attribute: MAPPED-ADDRESS (type 0x0001, length 8)
    let mut attr = Vec::new();
    attr.extend_from_slice(&ATTR_MAPPED_ADDRESS.to_be_bytes());
    attr.extend_from_slice(&8u16.to_be_bytes());
    attr.push(0x00); // reserved
    attr.push(0x01); // family: IPv4
    attr.extend_from_slice(&port.to_be_bytes());
    attr.extend_from_slice(&octets(ip));

    let mut pkt = Vec::new();
    pkt.extend_from_slice(&BINDING_RESPONSE.to_be_bytes());
    pkt.extend_from_slice(&(attr.len() as u16).to_be_bytes());
    pkt.extend_from_slice(&MAGIC_COOKIE.to_be_bytes());
    pkt.extend_from_slice(&txn_id);
    pkt.extend_from_slice(&attr);

    let result = parse_binding_response(&pkt, &txn_id).unwrap();
    assert_eq!(result, SocketAddr::new(IpAddr::V4(ip), port));
}

#[test]
fn parse_rejects_wrong_txn_id() {
    let txn_id = [1u8; 12];
    let wrong_txn = [2u8; 12];

    let mut pkt = Vec::new();
    pkt.extend_from_slice(&BINDING_RESPONSE.to_be_bytes());
    pkt.extend_from_slice(&0u16.to_be_bytes());
    pkt.extend_from_slice(&MAGIC_COOKIE.to_be_bytes());
    pkt.extend_from_slice(&wrong_txn);

    let err = parse_binding_response(&pkt, &txn_id).unwrap_err();
    assert!(matches!(err, StunError::TxnMismatch));
}

#[test]
fn parse_rejects_too_short() {
    let txn_id = [0u8; 12];
    let err = parse_binding_response(&[0u8; 10], &txn_id).unwrap_err();
    assert!(matches!(err, StunError::Malformed(_)));
}

#[test]
fn parse_rejects_bad_cookie() {
    let txn_id = [0u8; 12];
    let mut pkt = [0u8; 20];
    pkt[0..2].copy_from_slice(&BINDING_RESPONSE.to_be_bytes());
    pkt[4..8].copy_from_slice(&0xDEADBEEFu32.to_be_bytes());
    pkt[8..20].copy_from_slice(&txn_id);

    let err = parse_binding_response(&pkt, &txn_id).unwrap_err();
    assert!(matches!(err, StunError::Malformed(_)));
}

#[test]
fn parse_no_mapped_address() {
    let txn_id = [0u8; 12];
    // Valid response with zero-length body (no attributes)
    let mut pkt = Vec::new();
    pkt.extend_from_slice(&BINDING_RESPONSE.to_be_bytes());
    pkt.extend_from_slice(&0u16.to_be_bytes());
    pkt.extend_from_slice(&MAGIC_COOKIE.to_be_bytes());
    pkt.extend_from_slice(&txn_id);

    let err = parse_binding_response(&pkt, &txn_id).unwrap_err();
    assert!(matches!(err, StunError::NoMappedAddress));
}

#[test]
fn xor_mapped_preferred_over_mapped() {
    let txn_id = [0u8; 12];

    // Build two attributes: MAPPED-ADDRESS with one IP, then
    // XOR-MAPPED-ADDRESS with a different IP.
    let mapped_ip = Ipv4Addr::new(10, 0, 0, 1);
    let xor_ip = Ipv4Addr::new(203, 0, 113, 5);
    let port: u16 = 9999;

    let mut attrs = Vec::new();

    // MAPPED-ADDRESS
    attrs.extend_from_slice(&ATTR_MAPPED_ADDRESS.to_be_bytes());
    attrs.extend_from_slice(&8u16.to_be_bytes());
    attrs.push(0x00);
    attrs.push(0x01);
    attrs.extend_from_slice(&port.to_be_bytes());
    attrs.extend_from_slice(&octets(mapped_ip));

    // XOR-MAPPED-ADDRESS
    let xport = port ^ (MAGIC_COOKIE >> 16) as u16;
    let cookie_bytes = MAGIC_COOKIE.to_be_bytes();
    let xip_octets = octets(xor_ip);
    let xip = [
        xip_octets[0] ^ cookie_bytes[0],
        xip_octets[1] ^ cookie_bytes[1],
        xip_octets[2] ^ cookie_bytes[2],
        xip_octets[3] ^ cookie_bytes[3],
    ];
    attrs.extend_from_slice(&ATTR_XOR_MAPPED_ADDRESS.to_be_bytes());
    attrs.extend_from_slice(&8u16.to_be_bytes());
    attrs.push(0x00);
    attrs.push(0x01);
    attrs.extend_from_slice(&xport.to_be_bytes());
    attrs.extend_from_slice(&xip);

    let mut pkt = Vec::new();
    pkt.extend_from_slice(&BINDING_RESPONSE.to_be_bytes());
    pkt.extend_from_slice(&(attrs.len() as u16).to_be_bytes());
    pkt.extend_from_slice(&MAGIC_COOKIE.to_be_bytes());
    pkt.extend_from_slice(&txn_id);
    pkt.extend_from_slice(&attrs);

    let result = parse_binding_response(&pkt, &txn_id).unwrap();
    // XOR-MAPPED-ADDRESS should win
    assert_eq!(result, SocketAddr::new(IpAddr::V4(xor_ip), port));
}


#[test]
fn encode_txn_id_is_random() {
    let a = gen_txn_id();
    let b = gen_txn_id();
    // Extremely unlikely to collide (96-bit random).
    assert_ne!(a, b, "two txn IDs should differ");
}

#[test]
fn parse_error_response_0x0111() {
    let txn_id = [0u8; 12];
    let mut pkt = Vec::new();
    // Error response type = 0x0111
    pkt.extend_from_slice(&0x0111u16.to_be_bytes());
    pkt.extend_from_slice(&0u16.to_be_bytes());
    pkt.extend_from_slice(&MAGIC_COOKIE.to_be_bytes());
    pkt.extend_from_slice(&txn_id);

    let err = parse_binding_response(&pkt, &txn_id).unwrap_err();
    assert!(matches!(err, StunError::ErrorResponse(_)));
}

#[test]
fn parse_unknown_message_type() {
    let txn_id = [0u8; 12];
    let mut pkt = Vec::new();
    // Some unknown type 0x0042
    pkt.extend_from_slice(&0x0042u16.to_be_bytes());
    pkt.extend_from_slice(&0u16.to_be_bytes());
    pkt.extend_from_slice(&MAGIC_COOKIE.to_be_bytes());
    pkt.extend_from_slice(&txn_id);

    let err = parse_binding_response(&pkt, &txn_id).unwrap_err();
    assert!(matches!(err, StunError::Malformed(_)));
}

#[test]
fn parse_truncated_attribute_is_handled() {
    let txn_id = [0u8; 12];
    // Attribute header says length=100 but buffer ends after 4 bytes
    let mut attr = Vec::new();
    attr.extend_from_slice(&ATTR_XOR_MAPPED_ADDRESS.to_be_bytes());
    attr.extend_from_slice(&100u16.to_be_bytes()); // claims 100 bytes
    // No actual value bytes — truncated

    let mut pkt = Vec::new();
    pkt.extend_from_slice(&BINDING_RESPONSE.to_be_bytes());
    pkt.extend_from_slice(&(attr.len() as u16).to_be_bytes());
    pkt.extend_from_slice(&MAGIC_COOKIE.to_be_bytes());
    pkt.extend_from_slice(&txn_id);
    pkt.extend_from_slice(&attr);

    // Should NOT panic — truncated attribute is skipped, then NoMappedAddress
    let err = parse_binding_response(&pkt, &txn_id).unwrap_err();
    assert!(matches!(err, StunError::NoMappedAddress));
}

#[test]
fn parse_unknown_attributes_skipped() {
    let txn_id = [0u8; 12];
    let ip = Ipv4Addr::new(192, 0, 2, 99);
    let port: u16 = 5000;

    let mut attrs = Vec::new();

    // Unknown attribute type 0x8000 (comprehension-optional), 4 bytes
    attrs.extend_from_slice(&0x8000u16.to_be_bytes());
    attrs.extend_from_slice(&4u16.to_be_bytes());
    attrs.extend_from_slice(&[0xDE, 0xAD, 0xBE, 0xEF]);

    // The real XOR-MAPPED-ADDRESS after the unknown one
    let xport = port ^ (MAGIC_COOKIE >> 16) as u16;
    let cookie_bytes = MAGIC_COOKIE.to_be_bytes();
    let xip = [
        octets(ip)[0] ^ cookie_bytes[0],
        octets(ip)[1] ^ cookie_bytes[1],
        octets(ip)[2] ^ cookie_bytes[2],
        octets(ip)[3] ^ cookie_bytes[3],
    ];
    attrs.extend_from_slice(&ATTR_XOR_MAPPED_ADDRESS.to_be_bytes());
    attrs.extend_from_slice(&8u16.to_be_bytes());
    attrs.push(0x00);
    attrs.push(0x01);
    attrs.extend_from_slice(&xport.to_be_bytes());
    attrs.extend_from_slice(&xip);

    let mut pkt = Vec::new();
    pkt.extend_from_slice(&BINDING_RESPONSE.to_be_bytes());
    pkt.extend_from_slice(&(attrs.len() as u16).to_be_bytes());
    pkt.extend_from_slice(&MAGIC_COOKIE.to_be_bytes());
    pkt.extend_from_slice(&txn_id);
    pkt.extend_from_slice(&attrs);

    let result = parse_binding_response(&pkt, &txn_id).unwrap();
    assert_eq!(result, SocketAddr::new(IpAddr::V4(ip), port));
}

#[test]
fn parse_message_length_exceeds_buffer() {
    let txn_id = [0u8; 12];
    let mut pkt = Vec::new();
    pkt.extend_from_slice(&BINDING_RESPONSE.to_be_bytes());
    // Claims 500 bytes of attributes but buffer is only header
    pkt.extend_from_slice(&500u16.to_be_bytes());
    pkt.extend_from_slice(&MAGIC_COOKIE.to_be_bytes());
    pkt.extend_from_slice(&txn_id);

    let err = parse_binding_response(&pkt, &txn_id).unwrap_err();
    assert!(matches!(err, StunError::Malformed(_)));
}

#[test]
fn parse_xor_mapped_ipv4_high_port() {
    // Port 65535 — tests boundary of u16 XOR
    let txn_id = [0xFF; 12];
    let ip = Ipv4Addr::new(255, 255, 255, 255);
    let port: u16 = 65535;

    let xport = port ^ (MAGIC_COOKIE >> 16) as u16;
    let cookie_bytes = MAGIC_COOKIE.to_be_bytes();
    let xip = [
        octets(ip)[0] ^ cookie_bytes[0],
        octets(ip)[1] ^ cookie_bytes[1],
        octets(ip)[2] ^ cookie_bytes[2],
        octets(ip)[3] ^ cookie_bytes[3],
    ];

    let mut attr = Vec::new();
    attr.extend_from_slice(&ATTR_XOR_MAPPED_ADDRESS.to_be_bytes());
    attr.extend_from_slice(&8u16.to_be_bytes());
    attr.push(0x00);
    attr.push(0x01);
    attr.extend_from_slice(&xport.to_be_bytes());
    attr.extend_from_slice(&xip);

    let mut pkt = Vec::new();
    pkt.extend_from_slice(&BINDING_RESPONSE.to_be_bytes());
    pkt.extend_from_slice(&(attr.len() as u16).to_be_bytes());
    pkt.extend_from_slice(&MAGIC_COOKIE.to_be_bytes());
    pkt.extend_from_slice(&txn_id);
    pkt.extend_from_slice(&attr);

    let result = parse_binding_response(&pkt, &txn_id).unwrap();
    assert_eq!(result.port(), 65535);
    assert_eq!(result.ip(), IpAddr::V4(ip));
}

#[test]
fn parse_mapped_address_ipv6() {
    let txn_id = [0u8; 12];
    let ip = v6([0x2001, 0xdb8, 0, 0, 0, 0, 0, 0x42]);
    let port: u16 = 3478;

    let mut attr = Vec::new();
    attr.extend_from_slice(&ATTR_MAPPED_ADDRESS.to_be_bytes());
    attr.extend_from_slice(&20u16.to_be_bytes());
    attr.push(0x00);
    attr.push(0x02); // family: IPv6
    attr.extend_from_slice(&port.to_be_bytes());
    attr.extend_from_slice(&octets6(ip));

    let mut pkt = Vec::new();
    pkt.extend_from_slice(&BINDING_RESPONSE.to_be_bytes());
    pkt.extend_from_slice(&(attr.len() as u16).to_be_bytes());
    pkt.extend_from_slice(&MAGIC_COOKIE.to_be_bytes());
    pkt.extend_from_slice(&txn_id);
    pkt.extend_from_slice(&attr);

    let result = parse_binding_response(&pkt, &txn_id).unwrap();
    assert_eq!(result, SocketAddr::new(IpAddr::V6(ip), port));
}

#[test]
fn parse_mapped_address_unknown_family() {
    let txn_id = [0u8; 12];
    let mut attr = Vec::new();
    attr.extend_from_slice(&ATTR_MAPPED_ADDRESS.to_be_bytes());
    attr.extend_from_slice(&8u16.to_be_bytes());
    attr.push(0x00);
    attr.push(0x03); // unknown family
    attr.extend_from_slice(&1234u16.to_be_bytes());
    attr.extend_from_slice(&[1, 2, 3, 4]);

    let mut pkt = Vec::new();
    pkt.extend_from_slice(&BINDING_RESPONSE.to_be_bytes());
    pkt.extend_from_slice(&(attr.len() as u16).to_be_bytes());
    pkt.extend_from_slice(&MAGIC_COOKIE.to_be_bytes());
    pkt.extend_from_slice(&txn_id);
    pkt.extend_from_slice(&attr);

    // Unknown family in the only attribute → NoMappedAddress
    let err = parse_binding_response(&pkt, &txn_id).unwrap_err();
    assert!(matches!(err, StunError::NoMappedAddress));
}

#[test]
fn parse_attribute_with_padding() {
    // Attribute with length=5 gets padded to 8 bytes boundary.
    // Then a real XOR-MAPPED-ADDRESS follows.
    let txn_id = [0u8; 12];
    let ip = Ipv4Addr::new(10, 1, 2, 3);
    let port: u16 = 7777;

    let mut attrs = Vec::new();

    // SOFTWARE attribute (type 0x8022) with 5 bytes of data
    attrs.extend_from_slice(&0x8022u16.to_be_bytes());
    attrs.extend_from_slice(&5u16.to_be_bytes());
    attrs.extend_from_slice(b"hello");
    // 3 bytes padding to reach next 4-byte boundary
    attrs.extend_from_slice(&[0, 0, 0]);

    // XOR-MAPPED-ADDRESS
    let xport = port ^ (MAGIC_COOKIE >> 16) as u16;
    let cookie_bytes = MAGIC_COOKIE.to_be_bytes();
    let xip = [
        octets(ip)[0] ^ cookie_bytes[0],
        octets(ip)[1] ^ cookie_bytes[1],
        octets(ip)[2] ^ cookie_bytes[2],
        octets(ip)[3] ^ cookie_bytes[3],
    ];
    attrs.extend_from_slice(&ATTR_XOR_MAPPED_ADDRESS.to_be_bytes());
    attrs.extend_from_slice(&8u16.to_be_bytes());
    attrs.push(0x00);
    attrs.push(0x01);
    attrs.extend_from_slice(&xport.to_be_bytes());
    attrs.extend_from_slice(&xip);

    let mut pkt = Vec::new();
    pkt.extend_from_slice(&BINDING_RESPONSE.to_be_bytes());
    pkt.extend_from_slice(&(attrs.len() as u16).to_be_bytes());
    pkt.extend_from_slice(&MAGIC_COOKIE.to_be_bytes());
    pkt.extend_from_slice(&txn_id);
    pkt.extend_from_slice(&attrs);

    let result = parse_binding_response(&pkt, &txn_id).unwrap();
    assert_eq!(result, SocketAddr::new(IpAddr::V4(ip), port));
}

#[test]
fn stun_error_display() {
    assert!(StunError::Timeout.to_string().contains("timeout"));
    assert!(StunError::TxnMismatch.to_string().contains("mismatch"));
    assert!(StunError::NoMappedAddress.to_string().contains("MAPPED"));
    assert!(StunError::Io("test".into()).to_string().contains("test"));
    assert!(StunError::DnsError("bad".into()).to_string().contains("bad"));
    assert!(StunError::ErrorResponse(420).to_string().contains("420"));
    assert!(StunError::Malformed("x".into()).to_string().contains("x"));
}

#[test]
fn default_stun_config_has_servers() {
    let cfg = StunConfig::default();
    assert!(cfg.servers.len() >= 3);
    assert!(cfg.timeout.as_secs() > 0);
}


#[test]
fn classify_port_preserving() {
    let ports = vec![4433, 4433, 4433, 4433, 4433];
    assert_eq!(classify_port_allocation(&ports), PortAllocation::PortPreserving);
}

#[test]
fn classify_sequential_delta_1() {
    let ports = vec![40001, 40002, 40003, 40004, 40005];
    assert_eq!(
        classify_port_allocation(&ports),
        PortAllocation::Sequential { delta: 1 }
    );
}

#[test]
fn classify_sequential_delta_2() {
    let ports = vec![50000, 50002, 50004, 50006];
    assert_eq!(
        classify_port_allocation(&ports),
        PortAllocation::Sequential { delta: 2 }
    );
}

#[test]
fn classify_sequential_negative_delta() {
    // Some NATs decrement
    let ports = vec![50000, 49999, 49998, 49997];
    assert_eq!(
        classify_port_allocation(&ports),
        PortAllocation::Sequential { delta: -1 }
    );
}

#[test]
fn classify_random() {
    let ports = vec![40001, 52847, 19432, 61203, 8847];
    assert_eq!(classify_port_allocation(&ports), PortAllocation::Random);
}

#[test]
fn classify_too_few_ports() {
    assert_eq!(classify_port_allocation(&[]), PortAllocation::Unknown);
    assert_eq!(classify_port_allocation(&[4433]), PortAllocation::Unknown);
}

#[test]
fn classify_two_same_is_preserving() {
    let ports = vec![4433, 4433];
    assert_eq!(classify_port_allocation(&ports), PortAllocation::PortPreserving);
}

#[test]
fn classify_two_different_is_unknown() {
    // Can't distinguish sequential from random with only 2 points
    let ports = vec![4433, 4434];
    assert_eq!(classify_port_allocation(&ports), PortAllocation::Unknown);
}

#[test]
fn classify_sequential_with_jitter() {
    // Delta is mostly 1 but one jump of 2 (concurrent flow grabbed a port)
    let ports = vec![40001, 40002, 40004, 40005, 40006];
    // Deltas: [1, 2, 1, 1] — 3 out of 4 are delta=1, above 60% threshold
    assert_eq!(
        classify_port_allocation(&ports),
        PortAllocation::Sequential { delta: 1 }
    );
}

#[test]
fn classify_sequential_wraparound() {
    // Port wraps from 65534 -> 65535 -> 1 -> 2
    let ports = vec![65534, 65535, 1, 2];
    // Deltas: [1, -65534(→+2), 1] — wraparound handling
    let alloc = classify_port_allocation(&ports);
    // Should detect as sequential with delta ~1
    assert!(
        matches!(alloc, PortAllocation::Sequential { delta: 1 }),
        "wraparound should be sequential, got: {alloc:?}"
    );
}

#[test]
fn predict_ports_sequential() {
    // Last port 40005, delta 1, offset 0, spread 2
    let predicted = predict_ports(40005, 1, 0, 2);
    assert!(predicted.contains(&40006)); // most likely next
    assert!(predicted.contains(&40004)); // spread -2
    assert!(predicted.contains(&40008)); // spread +2
}

#[test]
fn predict_ports_delta_2() {
    let predicted = predict_ports(50000, 2, 0, 1);
    assert!(predicted.contains(&50002)); // next
    assert!(predicted.contains(&50000)); // spread -1*delta
    assert!(predicted.contains(&50004)); // spread +1*delta
}

#[test]
fn predict_ports_with_offset() {
    // offset=2 means 2 extra flows will open before our dial,
    // so prediction jumps further: 40005 + 1*(2+1) = 40008
    let predicted = predict_ports(40005, 1, 2, 1);
    assert!(predicted.contains(&40008));
}

#[test]
fn predict_ports_wraparound() {
    let predicted = predict_ports(65534, 1, 0, 2);
    // Should handle the u16 wraparound gracefully
    assert!(predicted.contains(&65535));
    assert!(!predicted.is_empty());
}

#[test]
fn port_allocation_display() {
    assert_eq!(PortAllocation::PortPreserving.to_string(), "port-preserving");
    assert_eq!(PortAllocation::Sequential { delta: 1 }.to_string(), "sequential(delta=1)");
    assert_eq!(PortAllocation::Random.to_string(), "random");
    assert_eq!(PortAllocation::Unknown.to_string(), "unknown");
}
