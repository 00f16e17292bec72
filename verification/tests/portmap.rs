use wzp_client::net::{IpAddr, Ipv4Addr};
use wzp_client::portmap::{
    add_mapping_action, add_mapping_body, bad_gateway_text, check_add_mapping,
    delete_mapping_action, delete_mapping_body, detect_local_ipv4, external_ip_action,
    external_ip_body, extract_control_url, find_location, gateway_from_route_output,
    gateway_from_route_table, http_body, http_get_request, http_target, msearch_request,
    natpmp_address_request, natpmp_map_request, natpmp_mapping, parse_external_ip,
    parse_natpmp_address, parse_natpmp_map, pcp_mapping, pcp_release_with, pcp_request,
    pcp_request_with, release_request, soap_request, ssdp_addr, upnp_mapping, url_host_to_ip,
    Acquisition, PortMapError, PortMapProtocol, ReleaseRequest, NATPMP_OP_MAP_UDP, NATPMP_PORT,
    NATPMP_VERSION, PCP_OPCODE_MAP, PCP_PORT, PCP_VERSION,
};

#[test]
fn natpmp_request_encoding() {
    // Verify the NAT-PMP external address request is 2 bytes
    let request = [NATPMP_VERSION, 0u8];
    assert_eq!(request.len(), 2);
    assert_eq!(request[0], 0); // version 0
    assert_eq!(request[1], 0); // opcode 0
}

#[test]
fn natpmp_map_request_encoding() {
    let mut request = [0u8; 12];
    request[0] = NATPMP_VERSION;
    request[1] = NATPMP_OP_MAP_UDP;
    let port: u16 = 12345;
    request[4..6].copy_from_slice(&port.to_be_bytes());
    request[6..8].copy_from_slice(&port.to_be_bytes());
    let lifetime: u32 = 7200;
    request[8..12].copy_from_slice(&lifetime.to_be_bytes());

    assert_eq!(request[0], 0);
    assert_eq!(request[1], 1);
    assert_eq!(u16::from_be_bytes([request[4], request[5]]), 12345);
    assert_eq!(u32::from_be_bytes([request[8], request[9], request[10], request[11]]), 7200);
}

#[test]
fn extract_control_url_from_xml() {
    let xml = r#"
    <service>
        <serviceType>urn:schemas-upnp-org:service:WANIPConnection:1</serviceType>
        <controlURL>/upnp/control/WANIPConn1</controlURL>
    </service>
    "#;
    let base = "http://192.168.1.1:49152/rootDesc.xml";
    let url = extract_control_url(xml, base).unwrap();
    assert_eq!(url, "http://192.168.1.1:49152/upnp/control/WANIPConn1");
}

#[test]
fn extract_control_url_absolute() {
    let xml = r#"
    <service>
        <serviceType>urn:schemas-upnp-org:service:WANIPConnection:1</serviceType>
        <controlURL>http://10.0.0.1:5000/ctl/IPConn</controlURL>
    </service>
    "#;
    let base = "http://10.0.0.1:49152/rootDesc.xml";
    let url = extract_control_url(xml, base).unwrap();
    assert_eq!(url, "http://10.0.0.1:5000/ctl/IPConn");
}

#[test]
fn extract_control_url_ppp_connection() {
    let xml = r#"
    <service>
        <serviceType>urn:schemas-upnp-org:service:WANPPPConnection:1</serviceType>
        <controlURL>/upnp/control/WANPPPConn1</controlURL>
    </service>
    "#;
    let base = "http://192.168.0.1:1900/igd.xml";
    let url = extract_control_url(xml, base).unwrap();
    assert_eq!(url, "http://192.168.0.1:1900/upnp/control/WANPPPConn1");
}

#[test]
fn url_host_to_ip_works() {
    assert_eq!(
        url_host_to_ip("http://192.168.1.1:49152/rootDesc.xml"),
        Some(Ipv4Addr::new(192, 168, 1, 1))
    );
    assert_eq!(
        url_host_to_ip("http://10.0.0.1/ctl"),
        Some(Ipv4Addr::new(10, 0, 0, 1))
    );
}


#[test]
fn extract_control_url_v2() {
    let xml = r#"
    <service>
        <serviceType>urn:schemas-upnp-org:service:WANIPConnection:2</serviceType>
        <controlURL>/upnp/v2/WANIPConn</controlURL>
    </service>
    "#;
    let base = "http://192.168.1.1:5000/desc.xml";
    let url = extract_control_url(xml, base).unwrap();
    assert_eq!(url, "http://192.168.1.1:5000/upnp/v2/WANIPConn");
}

#[test]
fn extract_control_url_no_service_fails() {
    let xml = r#"
    <service>
        <serviceType>urn:schemas-upnp-org:service:SomethingElse:1</serviceType>
        <controlURL>/nope</controlURL>
    </service>
    "#;
    let base = "http://10.0.0.1/desc.xml";
    let err = extract_control_url(xml, base).unwrap_err();
    assert!(matches!(err, PortMapError::Protocol(_)));
}

#[test]
fn extract_control_url_missing_control_url_tag() {
    let xml = r#"
    <service>
        <serviceType>urn:schemas-upnp-org:service:WANIPConnection:1</serviceType>
        <!-- no controlURL tag -->
    </service>
    "#;
    let base = "http://10.0.0.1/desc.xml";
    let err = extract_control_url(xml, base).unwrap_err();
    assert!(matches!(err, PortMapError::Protocol(_)));
}

#[test]
fn url_host_to_ip_no_scheme() {
    assert_eq!(
        url_host_to_ip("192.168.1.1:49152/rootDesc.xml"),
        Some(Ipv4Addr::new(192, 168, 1, 1))
    );
}

#[test]
fn url_host_to_ip_hostname_returns_none() {
    assert_eq!(url_host_to_ip("http://myrouter.local:49152/desc.xml"), None);
}

#[test]
fn port_map_error_display() {
    assert!(PortMapError::NoGateway.to_string().contains("gateway"));
    assert!(PortMapError::Timeout.to_string().contains("timeout"));
    assert!(PortMapError::Io("test".into()).to_string().contains("test"));
    assert!(
        PortMapError::Protocol("bad".into())
            .to_string()
            .contains("bad")
    );
    let errs = vec![
        (PortMapProtocol::NatPmp, "fail1".into()),
        (PortMapProtocol::Pcp, "fail2".into()),
    ];
    let all = PortMapError::AllFailed(errs);
    let s = all.to_string();
    assert!(s.contains("NatPmp"));
    assert!(s.contains("Pcp"));
    assert!(s.contains("fail1"));
}

#[test]
fn natpmp_constants() {
    assert_eq!(NATPMP_PORT, 5351);
    assert_eq!(NATPMP_VERSION, 0);
    assert_eq!(NATPMP_OP_MAP_UDP, 1);
    assert_eq!(PCP_PORT, 5351); // same port
    assert_eq!(PCP_VERSION, 2);
    assert_eq!(PCP_OPCODE_MAP, 1);
}

#[test]
fn extract_control_url_real_world_xml() {
    // Realistic device description from a common router
    let xml = r#"<?xml version="1.0"?>
<root xmlns="urn:schemas-upnp-org:device-1-0">
  <device>
<deviceType>urn:schemas-upnp-org:device:InternetGatewayDevice:1</deviceType>
<friendlyName>RT-AX86U</friendlyName>
<deviceList>
  <device>
    <deviceType>urn:schemas-upnp-org:device:WANDevice:1</deviceType>
    <deviceList>
      <device>
        <deviceType>urn:schemas-upnp-org:device:WANConnectionDevice:1</deviceType>
        <serviceList>
          <service>
            <serviceType>urn:schemas-upnp-org:service:WANIPConnection:1</serviceType>
            <serviceId>urn:upnp-org:serviceId:WANIPConn1</serviceId>
            <controlURL>/ctl/IPConn</controlURL>
            <eventSubURL>/evt/IPConn</eventSubURL>
            <SCPDURL>/WANIPCn.xml</SCPDURL>
          </service>
        </serviceList>
      </device>
    </deviceList>
  </device>
</deviceList>
  </device>
</root>"#;
    let base = "http://192.168.1.1:49152/rootDesc.xml";
    let url = extract_control_url(xml, base).unwrap();
    assert_eq!(url, "http://192.168.1.1:49152/ctl/IPConn");
}

#[test]
fn natpmp_replies() {
    assert_eq!(natpmp_address_request(), [0, 0]);
    let request = natpmp_map_request(0x1234, 0x5678, 7200);
    assert_eq!(request, vec![0, 1, 0, 0, 0x12, 0x34, 0x56, 0x78, 0, 0, 0x1c, 0x20]);
    let address = [0, 128, 0, 0, 0, 0, 0, 9, 203, 0, 113, 5];
    assert_eq!(parse_natpmp_address(&address).unwrap(), Ipv4Addr::new(203, 0, 113, 5));
    let map = [0, 129, 0, 0, 0, 0, 0, 9, 0x12, 0x34, 0x9c, 0x40, 0, 0, 0x0e, 0x10];
    assert_eq!(parse_natpmp_map(&map).unwrap(), (40000, 3600));
    let gateway = Ipv4Addr::new(192, 168, 1, 1);
    let m = natpmp_mapping(gateway, 0x1234, &address, &map, 5000).unwrap();
    assert_eq!(m.external_addr.text(), "203.0.113.5:40000");
    assert_eq!(m.protocol, PortMapProtocol::NatPmp);
    assert_eq!(m.expires_at, 5000 + 3_600_000_000_000);
    assert_eq!(m.refresh_interval.as_secs(), 1800);
    assert_eq!(m.internal_port, 0x1234);
    let local = Ipv4Addr::new(192, 168, 1, 7);
    assert!(matches!(
        release_request(&m, local),
        ReleaseRequest::Datagram(d) if d == [0, 1, 0, 0, 0x12, 0x34, 0, 0, 0, 0, 0, 0]
    ));
}

#[test]
fn natpmp_refusals() {
    assert_eq!(
        parse_natpmp_address(&[0; 11]).unwrap_err().to_string(),
        "protocol error: NAT-PMP external addr response too short: 11"
    );
    assert_eq!(
        parse_natpmp_address(&[0, 128, 1, 2, 0, 0, 0, 0, 0, 0, 0, 0]).unwrap_err().to_string(),
        "protocol error: NAT-PMP error: result code 258"
    );
    assert_eq!(
        parse_natpmp_map(&[0; 15]).unwrap_err().to_string(),
        "protocol error: NAT-PMP map response too short: 15"
    );
    let mut map = [0u8; 16];
    map[3] = 3;
    assert_eq!(
        parse_natpmp_map(&map).unwrap_err().to_string(),
        "protocol error: NAT-PMP map error: result code 3"
    );
    let gateway = Ipv4Addr::new(192, 168, 1, 1);
    assert!(natpmp_mapping(gateway, 1, &[0; 3], &map, 0).is_err());
    assert!(natpmp_mapping(gateway, 1, &[0; 12], &map, 0).is_err());
}

#[test]
fn pcp_messages() {
    let nonce = [9u8; 12];
    let local = Ipv4Addr::new(192, 168, 1, 7);
    let request = pcp_request_with(0x1234, local, &nonce);
    assert_eq!(request.len(), 60);
    assert_eq!(request[..8], [2, 1, 0, 0, 0, 0, 0x1c, 0x20]);
    assert_eq!(request[8..24], [0, 0, 0, 0, 0, 0, 0, 0, 0, 0, 0xff, 0xff, 192, 168, 1, 7]);
    assert_eq!(request[24..36], nonce);
    assert_eq!(request[36..44], [17, 0, 0, 0, 0x12, 0x34, 0x12, 0x34]);
    assert!(request[44..].iter().all(|b| *b == 0));
    let gateway = Ipv4Addr::new(192, 168, 1, 1);
    let refused = |r: &[u8], n: &[u8]| pcp_mapping(gateway, 1, r, n, 0).unwrap_err().to_string();
    assert_eq!(refused(&request, &nonce), "protocol error: PCP: not a response");
    assert_eq!(refused(&request[..59], &nonce), "protocol error: PCP response too short: 59");
    let mut reply = request.clone();
    reply[1] = 0x81;
    reply[4..8].copy_from_slice(&600u32.to_be_bytes());
    reply[42..44].copy_from_slice(&40000u16.to_be_bytes());
    reply[56..60].copy_from_slice(&[203, 0, 113, 5]);
    let m = pcp_mapping(gateway, 0x1234, &reply, &nonce, 1000).unwrap();
    assert_eq!(m.external_addr.text(), "203.0.113.5:40000");
    assert_eq!(m.protocol, PortMapProtocol::Pcp);
    assert_eq!(m.expires_at, 600_000_001_000);
    let mut given_back = request.clone();
    given_back[4..8].copy_from_slice(&[0; 4]);
    assert_eq!(pcp_release_with(&m, local, &nonce), given_back);
    match release_request(&m, local) {
        ReleaseRequest::Datagram(d) => {
            assert_eq!(d[..24], given_back[..24]);
            assert_eq!(d[36..], given_back[36..]);
        }
        ReleaseRequest::Soap { .. } => panic!("not a datagram"),
    }
    assert_eq!(refused(&reply, &[8u8; 12]), "protocol error: PCP nonce mismatch");
    reply[3] = 2;
    assert_eq!(refused(&reply, &nonce), "protocol error: PCP error: result code 2");
}

#[test]
fn pcp_nonces_are_fresh() {
    let local = Ipv4Addr::new(192, 168, 1, 7);
    let (a, n) = pcp_request(5, local);
    let (b, m) = pcp_request(5, local);
    assert_ne!(n, m);
    assert_eq!(a[24..36], n[..]);
    assert_eq!(b[24..36], m[..]);
}

#[test]
fn gateways_in_routing_tables() {
    let table = "Iface\tDestination\tGateway\tFlags\n\
                 eth0\t0001A8C0\t00000000\t0001\n\
                 eth0\t00000000\t0101A8C0\t0003\n";
    assert_eq!(gateway_from_route_table(table).unwrap(), Ipv4Addr::new(192, 168, 1, 1));
    assert!(matches!(gateway_from_route_table("Iface\n"), Err(PortMapError::NoGateway)));
    assert!(matches!(gateway_from_route_table(""), Err(PortMapError::NoGateway)));
    assert_eq!(
        gateway_from_route_table("h\ne 00000000 xyz 1\n").unwrap_err().to_string(),
        "protocol error: parse gateway hex: invalid digit found in string"
    );
    assert_eq!(
        gateway_from_route_table("h\ne 00000000 1FFFFFFFF 1\n").unwrap_err().to_string(),
        "protocol error: parse gateway hex: number too large to fit in target type"
    );
}

#[test]
fn gateways_in_route_output() {
    let out = "   route to: default\n    gateway: 10.0.0.1\n  interface: en0\n";
    assert_eq!(gateway_from_route_output(out).unwrap(), Ipv4Addr::new(10, 0, 0, 1));
    assert!(matches!(gateway_from_route_output("x"), Err(PortMapError::NoGateway)));
    let refused = |t: &str| gateway_from_route_output(t).unwrap_err().to_string();
    assert_eq!(
        refused("gateway: fe80::1"),
        "protocol error: parse gateway \"fe80::1\": invalid IPv4 address syntax"
    );
    assert_eq!(
        refused("gateway: a\"b\u{7f}"),
        "protocol error: parse gateway \"a\\\"b\\u{7f}\": invalid IPv4 address syntax"
    );
    assert_eq!(bad_gateway_text("x"), "parse gateway x: invalid IPv4 address syntax");
}

#[test]
fn upnp_search() {
    assert_eq!(ssdp_addr().text(), "239.255.255.250:1900");
    assert!(msearch_request().starts_with("M-SEARCH * HTTP/1.1\r\n"));
    assert!(msearch_request().ends_with("InternetGatewayDevice:1\r\n\r\n"));
    let reply = "HTTP/1.1 200 OK\r\nST: x\r\nLoCaTiOn: http://192.168.1.1:5000/d.xml\r\n\r\n";
    assert_eq!(find_location(reply).unwrap(), "http://192.168.1.1:5000/d.xml");
    assert_eq!(
        find_location("HTTP/1.1 200 OK\r\n\r\n").unwrap_err().to_string(),
        "protocol error: no LOCATION in SSDP response"
    );
}

#[test]
fn http_urls() {
    let t = http_target(" http://192.168.1.1:5000/d.xml ").unwrap();
    assert_eq!(t.addr.text(), "192.168.1.1:5000");
    assert_eq!(t.host_port, "192.168.1.1:5000");
    assert_eq!(t.path, "/d.xml");
    assert_eq!(
        http_get_request(&t),
        "GET /d.xml HTTP/1.1\r\nHost: 192.168.1.1:5000\r\nConnection: close\r\n\r\n"
    );
    let t = http_target("http://192.168.1.1").unwrap();
    assert_eq!(t.addr.text(), "192.168.1.1:80");
    assert_eq!(t.host_port, "192.168.1.1");
    assert_eq!(t.path, "/");
    assert_eq!(
        http_target("https://h/").err().unwrap().to_string(),
        "protocol error: non-HTTP URL: https://h/"
    );
    assert_eq!(
        http_target("http://router/").err().unwrap().to_string(),
        "protocol error: parse router:80: invalid socket address syntax"
    );
    let t = http_target("http://1.2.3.4/c").unwrap();
    let soap = soap_request(&t, "act", "<b/>");
    let (head, body) = soap.split_once("\r\n\r\n").unwrap();
    assert!(head.contains("SOAPAction: \"act\""));
    assert!(head.contains(&format!("Content-Length: {}\r\n", body.len())));
    assert!(body.contains("<s:Body><b/></s:Body>"));
    assert_eq!(http_body("A: b\r\n\r\nrest"), "rest");
    assert_eq!(http_body("no headers"), "no headers");
}

#[test]
fn upnp_replies() {
    assert!(external_ip_action().ends_with("#GetExternalIPAddress"));
    assert!(external_ip_body().starts_with("<u:GetExternalIPAddress"));
    assert!(add_mapping_action().ends_with("#AddPortMapping"));
    let ok = "<x><NewExternalIPAddress>203.0.113.5</NewExternalIPAddress></x>";
    assert_eq!(parse_external_ip(ok).unwrap(), Ipv4Addr::new(203, 0, 113, 5));
    let refused = |t: &str| parse_external_ip(t).unwrap_err().to_string();
    assert_eq!(refused("<x/>"), "protocol error: no NewExternalIPAddress in response");
    assert_eq!(
        refused("<NewExternalIPAddress>1.2.3.4"),
        "protocol error: malformed NewExternalIPAddress"
    );
    assert_eq!(
        refused("<NewExternalIPAddress>?</NewExternalIPAddress>"),
        "protocol error: parse external IP: invalid IPv4 address syntax"
    );
    let body = add_mapping_body(40000, 4433, Ipv4Addr::new(192, 168, 1, 7), 7200);
    assert!(body.contains("<NewExternalPort>40000</NewExternalPort>"));
    assert!(body.contains("<NewInternalPort>4433</NewInternalPort>"));
    assert!(body.contains("<NewInternalClient>192.168.1.7</NewInternalClient>"));
    assert!(body.contains("<NewLeaseDuration>7200</NewLeaseDuration>"));
    assert!(check_add_mapping("<ok/>").is_ok());
    assert_eq!(
        check_add_mapping("<s:Fault>no").unwrap_err().to_string(),
        "protocol error: AddPortMapping SOAP fault: <s:Fault>no"
    );
    let long = format!("errorCode{}", "x".repeat(300));
    assert_eq!(
        check_add_mapping(&long).unwrap_err().to_string(),
        format!("protocol error: AddPortMapping SOAP fault: {}", &long[..200])
    );
    let m = upnp_mapping(Ipv4Addr::new(203, 0, 113, 5), 4433, "http://192.168.1.1:5000/d", 0);
    assert_eq!(m.external_addr.text(), "203.0.113.5:4433");
    assert_eq!(m.gateway, Ipv4Addr::new(192, 168, 1, 1));
    assert_eq!(m.expires_at, 7_200_000_000_000);
    match release_request(&m, Ipv4Addr::new(192, 168, 1, 7)) {
        ReleaseRequest::Soap { action, body } => {
            assert_eq!(action, delete_mapping_action());
            assert_eq!(action, "urn:schemas-upnp-org:service:WANIPConnection:1#DeletePortMapping");
            assert_eq!(body, delete_mapping_body(4433));
            assert_eq!(
                body,
                "<u:DeletePortMapping xmlns:u=\"urn:schemas-upnp-org:service:WANIPConnection:1\">\
                 <NewRemoteHost></NewRemoteHost><NewExternalPort>4433</NewExternalPort>\
                 <NewProtocol>UDP</NewProtocol></u:DeletePortMapping>"
            );
        }
        ReleaseRequest::Datagram(_) => panic!("not an action"),
    }
    let m = upnp_mapping(Ipv4Addr::new(203, 0, 113, 5), 4433, "http://router/d", 0);
    assert_eq!(m.gateway, Ipv4Addr::new(0, 0, 0, 0));
}

#[test]
fn protocols_are_tried_in_order() {
    let mut a = Acquisition::new();
    assert_eq!(a.next(), Some(PortMapProtocol::NatPmp));
    a.record(&PortMapError::Timeout);
    assert_eq!(a.next(), Some(PortMapProtocol::Pcp));
    a.record(&PortMapError::Io("down".into()));
    assert_eq!(a.next(), Some(PortMapProtocol::UPnP));
    a.record(&PortMapError::NoGateway);
    assert_eq!(a.next(), None);
    assert_eq!(
        a.into_error().to_string(),
        "all protocols failed: NatPmp=timeout Pcp=I/O error: down UPnP=no default gateway found"
    );
}

#[test]
fn local_address_is_the_first_private_one() {
    let ifaces = [
        (true, IpAddr::V4(Ipv4Addr::new(10, 0, 0, 9))),
        (false, IpAddr::V4(Ipv4Addr::new(8, 8, 8, 8))),
        (false, IpAddr::V4(Ipv4Addr::new(192, 168, 1, 7))),
        (false, IpAddr::V4(Ipv4Addr::new(10, 0, 0, 1))),
    ];
    assert_eq!(detect_local_ipv4(&ifaces), Some(Ipv4Addr::new(192, 168, 1, 7)));
    assert_eq!(detect_local_ipv4(&ifaces[..2]), None);
}
