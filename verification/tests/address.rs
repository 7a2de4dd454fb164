use ruproxy::address::{ipv4_text, ipv6_text, split_host_port, AddrError, SocketAddress};

fn v6(s: [u16; 8]) -> [u8; 16] {
    let mut o = [0u8; 16];
    for i in 0..8 {
        o[2 * i] = (s[i] >> 8) as u8;
        o[2 * i + 1] = s[i] as u8;
    }
    o
}

#[test]
fn addresses_are_written_in_their_shortest_form() {
    assert_eq!(ipv4_text(&[192, 0, 2, 10]), "192.0.2.10");
    for (s, text) in [
        ([0, 0, 0, 0, 0, 0, 0, 0], "::"),
        ([0, 0, 0, 0, 0, 0, 0, 1], "::1"),
        ([0x2001, 0xdb8, 0, 0, 0, 0, 0, 1], "2001:db8::1"),
        ([0x2001, 0xdb8, 0, 1, 1, 1, 1, 1], "2001:db8:0:1:1:1:1:1"),
        ([1, 0, 0, 2, 0, 0, 0, 3], "1:0:0:2::3"),
        ([1, 0, 0, 2, 0, 0, 3, 4], "1::2:0:0:3:4"),
        ([0, 0, 0, 0, 0, 0xffff, 0xc000, 0x0203], "::ffff:192.0.2.3"),
        ([0, 0, 0, 0, 0, 0, 0xc000, 0x0203], "::c000:203"),
        ([0xfe80, 0, 0, 0, 0xabcd, 0x12, 0xf, 0], "fe80::abcd:12:f:0"),
        ([1, 2, 3, 4, 5, 6, 0, 0], "1:2:3:4:5:6::"),
        ([0xffff; 8], "ffff:ffff:ffff:ffff:ffff:ffff:ffff:ffff"),
    ] {
        assert_eq!(ipv6_text(&v6(s)), text);
    }
}

#[test]
fn socket_addresses_have_brackets_around_ipv6() {
    let a = SocketAddress::V4 { octets: [10, 0, 0, 1], port: 53 };
    assert_eq!(a.to_text(), "10.0.0.1:53");
    let b = SocketAddress::V6 { octets: v6([0, 0, 0, 0, 0, 0, 0, 1]), port: 65535 };
    assert_eq!(b.to_text(), "[::1]:65535");
    assert_eq!(split_host_port("[::1]:65535"), Ok(("::1".to_string(), 65535)));
}

#[test]
fn hosts_and_ports_are_split_at_the_last_colon() {
    assert_eq!(split_host_port("example.com:443"), Ok(("example.com".to_string(), 443)));
    assert_eq!(split_host_port("a:b:80"), Ok(("a:b".to_string(), 80)));
    assert_eq!(split_host_port(":0"), Ok((String::new(), 0)));
    assert_eq!(split_host_port("[[x]]:+7"), Ok(("x".to_string(), 7)));
    assert_eq!(split_host_port("example.com"), Err(AddrError::NoPort));
    assert_eq!(split_host_port("h:"), Err(AddrError::BadPort));
    assert_eq!(split_host_port("h:65536"), Err(AddrError::BadPort));
    assert_eq!(split_host_port("h:-1"), Err(AddrError::BadPort));
}
