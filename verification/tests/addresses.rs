use astra_dns::ip::{
    read_ip, read_ipv4, read_ipv6, read_socket, AddrParseError, IpAddr, IpNet, Ipv4Addr, Ipv6Addr,
    SocketAddr,
};
use astra_dns::text::chars_of;

fn groups(groups: [u16; 8]) -> Ipv6Addr {
    let mut bits: u128 = 0;
    for group in groups {
        bits = bits << 16 | u128::from(group);
    }
    Ipv6Addr { bits }
}

#[test]
fn ipv4_addresses_are_read() {
    let read = [
        ("0.0.0.0", Ipv4Addr::new(0, 0, 0, 0)),
        ("1.2.3.4", Ipv4Addr::new(1, 2, 3, 4)),
        ("255.255.255.255", Ipv4Addr::new(255, 255, 255, 255)),
    ];
    for (text, addr) in read {
        let chars = chars_of(text);
        assert_eq!(read_ipv4(&chars), Some(addr), "{text:?}");
        assert_eq!(read_ip(&chars), Some(IpAddr::V4(addr)), "{text:?}");
        assert_eq!(read_ipv6(&chars), None, "{text:?}");
    }
    for text in [
        "", "256.1.1.1", "1.2.3", "1.2.3.4.5", "01.2.3.4", "0.0.0.00", "1.2.3.4 ", " 1.2.3.4",
        "1..2.3", "1.2.3.", "1.2.3.4:53", "+1.2.3.4", "1000.2.3.4", "a.b.c.d",
    ] {
        let chars = chars_of(text);
        assert_eq!(read_ipv4(&chars), None, "{text:?}");
        assert_eq!(read_ip(&chars), None, "{text:?}");
    }
}

#[test]
fn ipv6_addresses_are_read() {
    let read = [
        ("::", groups([0; 8])),
        ("::1", groups([0, 0, 0, 0, 0, 0, 0, 1])),
        ("1::", groups([1, 0, 0, 0, 0, 0, 0, 0])),
        ("1:2:3:4:5:6:7:8", groups([1, 2, 3, 4, 5, 6, 7, 8])),
        ("1:2:3:4:5:6:7::", groups([1, 2, 3, 4, 5, 6, 7, 0])),
        ("::2:3:4:5:6:7:8", groups([0, 2, 3, 4, 5, 6, 7, 8])),
        ("ABCD:ef01::9", groups([0xabcd, 0xef01, 0, 0, 0, 0, 0, 9])),
        ("::ffff:1.2.3.4", groups([0, 0, 0, 0, 0, 0xffff, 0x0102, 0x0304])),
        ("1:2:3:4:5:6:1.2.3.4", groups([1, 2, 3, 4, 5, 6, 0x0102, 0x0304])),
        ("::1:53", groups([0, 0, 0, 0, 0, 0, 1, 0x53])),
    ];
    for (text, addr) in read {
        let chars = chars_of(text);
        assert_eq!(read_ipv6(&chars), Some(addr), "{text:?}");
        assert_eq!(read_ip(&chars), Some(IpAddr::V6(addr)), "{text:?}");
        assert_eq!(read_ipv4(&chars), None, "{text:?}");
        assert_eq!(read_socket(&chars), None, "{text:?}");
    }
    for text in [
        "", ":", ":::", "1:", ":1", "1:2:3:4:5:6:7", "1:2:3:4:5:6:7:8:9", "1:2:3:4::5:6:7:8",
        "1::2::3", "fe80::1%3", "1:2:3:4:5:6:7:1.2.3.4", "1.2.3.4::", "::1.2.3.4:5",
        "::1.2.3.256", "12345::", "g::", "1:2:3:4:5:6:7:8::", "[::1]",
    ] {
        let chars = chars_of(text);
        assert_eq!(read_ipv6(&chars), None, "{text:?}");
        assert_eq!(read_ip(&chars), None, "{text:?}");
    }
}

#[test]
fn socket_addresses_are_read() {
    let four = IpAddr::V4(Ipv4Addr::new(1, 2, 3, 4));
    let one = IpAddr::V6(Ipv6Addr { bits: 1 });
    let read = [
        ("1.2.3.4:53", four, 53, 0),
        ("1.2.3.4:65535", four, 65535, 0),
        ("1.2.3.4:00053", four, 53, 0),
        ("[::1]:53", one, 53, 0),
        ("[::1%7]:53", one, 53, 7),
        ("[::1%4294967295]:0", one, 0, 4294967295),
    ];
    for (text, ip, port, scope_id) in read {
        let addr = SocketAddr { ip, port, scope_id };
        assert_eq!(read_socket(&chars_of(text)), Some(addr), "{text:?}");
    }
    for text in [
        "", "1.2.3.4", "1.2.3.4:", "1.2.3.4:65536", "1.2.3.4:-1", "1.2.3.4:+1", "[::1]:",
        "[::1]", "[::1]:53x", "[::1%]:53", "[::1%4294967296]:53", "[1.2.3.4]:53", "[::]]:1",
        "localhost:53", "::1", "[::1:53",
    ] {
        assert_eq!(read_socket(&chars_of(text)), None, "{text:?}");
    }
}

#[test]
fn address_errors_have_words() {
    assert_eq!(AddrParseError::Ip.message(), "invalid IP address syntax");
    assert_eq!(AddrParseError::Ipv4.message(), "invalid IPv4 address syntax");
    assert_eq!(AddrParseError::Ipv6.message(), "invalid IPv6 address syntax");
}

#[test]
fn octets_make_an_address() {
    assert_eq!(Ipv4Addr::new(1, 2, 3, 4).bits, 0x01020304);
}

#[test]
fn networks_hold_their_addresses() {
    let nets4 = [
        (0x0a000001u32, 8u8, [true, false, false]),
        (0xc0a80100, 24, [false, true, false]),
        (0x01020304, 32, [false, false, true]),
        (0x01020304, 0, [true, true, true]),
        (0x01020305, 31, [false, false, true]),
        (0x01020304, 33, [false, false, false]),
    ];
    for (bits, prefix, expected) in nets4 {
        let net = IpNet::V4(Ipv4Addr { bits }, prefix);
        let addrs = [0x0affffff, 0xc0a801ff, 0x01020304];
        let held = addrs.map(|bits| net.contains(&IpAddr::V4(Ipv4Addr { bits })));
        assert_eq!(held, expected, "{net:?}");
        assert!(!net.contains(&IpAddr::V6(Ipv6Addr { bits: 0 })));
    }
    let nets6 = [
        (0xfd00u128 << 112, 16u8, [true, false, false]),
        (0xfe80 << 112, 10, [false, true, false]),
        (1, 128, [false, false, true]),
        (1, 0, [true, true, true]),
        (1, 129, [false, false, false]),
    ];
    for (bits, prefix, expected) in nets6 {
        let net = IpNet::V6(Ipv6Addr { bits }, prefix);
        let addrs = [0xfd00 << 112 | 5, 0xfebf << 112, 1];
        let held = addrs.map(|bits| net.contains(&IpAddr::V6(Ipv6Addr { bits })));
        assert_eq!(held, expected, "{net:?}");
        assert!(!net.contains(&IpAddr::V4(Ipv4Addr { bits: 0 })));
    }
}
