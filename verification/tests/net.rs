use wzp_client::net::{IpAddr, Ipv4Addr, Ipv6Addr, SocketAddr};

fn v6(g: [u16; 8]) -> Ipv6Addr {
    Ipv6Addr {
        g0: g[0],
        g1: g[1],
        g2: g[2],
        g3: g[3],
        g4: g[4],
        g5: g[5],
        g6: g[6],
        g7: g[7],
    }
}

fn text6(g: [u16; 8]) -> String {
    IpAddr::V6(v6(g)).text()
}

#[test]
fn ipv4_text() {
    assert_eq!(Ipv4Addr::new(203, 0, 113, 5).text(), "203.0.113.5");
    assert_eq!(Ipv4Addr::parse("255.255.255.255"), Some(Ipv4Addr::new(255, 255, 255, 255)));
    for bad in ["", "1.2.3", "1.2.3.4.5", "256.1.1.1", "01.2.3.4", "1.2.3.4 ", "1..2.3", "a.b.c.d"] {
        assert_eq!(Ipv4Addr::parse(bad), None, "{}", bad);
    }
}

#[test]
fn ipv4_kinds() {
    assert!(Ipv4Addr::new(127, 9, 9, 9).is_loopback());
    assert!(!Ipv4Addr::new(128, 0, 0, 1).is_loopback());
    assert!(Ipv4Addr::new(10, 1, 2, 3).is_private());
    assert!(Ipv4Addr::new(172, 16, 0, 1).is_private());
    assert!(Ipv4Addr::new(172, 31, 255, 255).is_private());
    assert!(!Ipv4Addr::new(172, 32, 0, 1).is_private());
    assert!(Ipv4Addr::new(192, 168, 0, 1).is_private());
    assert!(Ipv4Addr::new(169, 254, 1, 1).is_link_local());
    assert!(Ipv4Addr::new(0, 0, 0, 0).is_unspecified());
    assert!(!Ipv4Addr::new(0, 0, 0, 1).is_unspecified());
}

#[test]
fn ipv6_text_shortens_the_longest_run_of_zeros() {
    assert_eq!(text6([0, 0, 0, 0, 0, 0, 0, 0]), "::");
    assert_eq!(text6([0, 0, 0, 0, 0, 0, 0, 1]), "::1");
    assert_eq!(text6([0xfe80, 0, 0, 0, 0, 0, 0, 1]), "fe80::1");
    assert_eq!(text6([0x2001, 0xdb8, 0, 0, 1, 0, 0, 1]), "2001:db8::1:0:0:1");
    assert_eq!(text6([0x2001, 0xdb8, 0, 1, 1, 1, 1, 1]), "2001:db8:0:1:1:1:1:1");
    assert_eq!(text6([1, 0, 0, 2, 0, 0, 0, 3]), "1:0:0:2::3");
    assert_eq!(text6([1, 2, 3, 4, 5, 6, 0, 0]), "1:2:3:4:5:6::");
    assert_eq!(text6([0, 0, 0, 0, 0, 0xffff, 0x0102, 0x0304]), "::ffff:1.2.3.4");
}

#[test]
fn socket_addresses_survive_as_text() {
    let v4 = SocketAddr::V4 { ip: Ipv4Addr::new(192, 168, 1, 10), port: 4433 };
    assert_eq!(v4.text(), "192.168.1.10:4433");
    assert_eq!(SocketAddr::parse("192.168.1.10:4433"), Some(v4));
    let groups = [
        [0, 0, 0, 0, 0, 0, 0, 0],
        [0, 0, 0, 0, 0, 0, 0, 1],
        [0xfe80, 0, 0, 0, 0, 0, 0, 1],
        [0x2001, 0xdb8, 0, 0, 1, 0, 0, 1],
        [1, 2, 3, 4, 5, 6, 7, 8],
        [1, 2, 3, 4, 5, 6, 0, 0],
        [0, 0, 3, 4, 5, 6, 7, 8],
        [0, 0, 0, 0, 0, 0xffff, 0x0102, 0x0304],
        [0xffff, 0xffff, 0xffff, 0xffff, 0xffff, 0xffff, 0xffff, 0xffff],
    ];
    for g in groups {
        for scope_id in [0u32, 1, 4_294_967_295] {
            let addr = SocketAddr::V6 { ip: v6(g), port: 65535, scope_id };
            assert_eq!(SocketAddr::parse(&addr.text()), Some(addr), "{}", addr.text());
        }
    }
    let scoped = SocketAddr::V6 { ip: v6([0xfe80, 0, 0, 0, 0, 0, 0, 1]), port: 80, scope_id: 3 };
    assert_eq!(scoped.text(), "[fe80::1%3]:80");
}

#[test]
fn socket_addresses_are_read_strictly() {
    for bad in [
        "",
        "1.2.3.4",
        "1.2.3.4:",
        "1.2.3.4:65536",
        "1.2.3.4:-1",
        "1.2.3.4:80 ",
        "::1:80",
        "[::1]",
        "[::1]:",
        "[1::2::3]:80",
        "[1:2:3:4:5:6:7]:80",
        "[1:2:3:4:5:6:7:8:9]:80",
        "[12345::]:80",
        "[::1%]:80",
        "example.com:80",
    ] {
        assert_eq!(SocketAddr::parse(bad), None, "{}", bad);
    }
    assert_eq!(
        SocketAddr::parse("[::FFFF:10.0.0.1]:5"),
        Some(SocketAddr::V6 {
            ip: v6([0, 0, 0, 0, 0, 0xffff, 0x0a00, 0x0001]),
            port: 5,
            scope_id: 0,
        })
    );
    assert_eq!(
        SocketAddr::parse("1.2.3.4:00080"),
        Some(SocketAddr::V4 { ip: Ipv4Addr::new(1, 2, 3, 4), port: 80 })
    );
}

#[test]
fn socket_address_parts() {
    let a = SocketAddr::new(IpAddr::V4(Ipv4Addr::new(1, 2, 3, 4)), 5);
    assert_eq!(a, SocketAddr::V4 { ip: Ipv4Addr::new(1, 2, 3, 4), port: 5 });
    assert_eq!(a.ip(), IpAddr::V4(Ipv4Addr::new(1, 2, 3, 4)));
    assert_eq!(a.port(), 5);
    assert!(!a.is_ipv6());
    let b = SocketAddr::new(IpAddr::V6(v6([0, 0, 0, 0, 0, 0, 0, 1])), 7);
    assert!(b.is_ipv6());
    assert_eq!(b.text(), "[::1]:7");
    assert!(v6([0, 0, 0, 0, 0, 0, 0, 1]).is_loopback());
    assert!(v6([0; 8]).is_unspecified());
}
