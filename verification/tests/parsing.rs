use tzoffset::ip::{
    is_global_exec, parse_ip_str, IpAddress, Ipv4Address, Ipv6Address,
};

#[test]
fn parses_dotted_quad() {
    assert_eq!(
        parse_ip_str("203.0.113.5"),
        Some(IpAddress::V4(Ipv4Address { a: 203, b: 0, c: 113, d: 5 }))
    );
}

#[test]
fn parses_extreme_octets() {
    assert_eq!(
        parse_ip_str("0.0.0.0"),
        Some(IpAddress::V4(Ipv4Address { a: 0, b: 0, c: 0, d: 0 }))
    );
    assert_eq!(
        parse_ip_str("255.255.255.255"),
        Some(IpAddress::V4(Ipv4Address { a: 255, b: 255, c: 255, d: 255 }))
    );
}

#[test]
fn rejects_octet_over_255() {
    assert_eq!(parse_ip_str("256.1.1.1"), None);
}

#[test]
fn rejects_leading_zero_octet() {
    assert_eq!(parse_ip_str("01.2.3.4"), None);
    assert_eq!(parse_ip_str("1.2.3.007"), None);
}

#[test]
fn rejects_wrong_part_count() {
    assert_eq!(parse_ip_str("1.2.3"), None);
    assert_eq!(parse_ip_str("1.2.3.4.5"), None);
    assert_eq!(parse_ip_str(""), None);
}

#[test]
fn rejects_non_digits_and_inner_spaces() {
    assert_eq!(parse_ip_str("a.b.c.d"), None);
    assert_eq!(parse_ip_str("1. 2.3.4"), None);
    assert_eq!(parse_ip_str("1.2.3.4 "), None);
}

#[test]
fn private_and_special_v4_ranges_are_not_global() {
    for s in [
        "0.1.2.3",
        "10.0.0.1",
        "100.64.0.1",
        "100.127.255.255",
        "127.0.0.1",
        "169.254.1.1",
        "172.16.0.1",
        "172.31.255.255",
        "192.0.0.1",
        "192.168.1.1",
        "198.18.0.1",
        "198.19.255.255",
        "240.0.0.1",
        "255.255.255.255",
    ] {
        let ip = parse_ip_str(s).unwrap();
        assert!(!is_global_exec(&ip), "{s} should not be global");
    }
}

#[test]
fn public_v4_addresses_are_global() {
    for s in [
        "8.8.8.8",
        "100.63.0.1",
        "100.128.0.1",
        "172.15.0.1",
        "172.32.0.1",
        "192.0.0.9",
        "192.0.0.10",
        "198.17.0.1",
        "198.20.0.1",
        "203.0.113.5",
        "198.51.100.7",
        "192.0.2.1",
        "239.255.255.255",
    ] {
        let ip = parse_ip_str(s).unwrap();
        assert!(is_global_exec(&ip), "{s} should be global");
    }
}

#[test]
fn parses_full_v6_form() {
    assert_eq!(
        parse_ip_str("1:2:3:4:5:6:7:8"),
        Some(IpAddress::V6(Ipv6Address {
            g0: 1,
            g1: 2,
            g2: 3,
            g3: 4,
            g4: 5,
            g5: 6,
            g6: 7,
            g7: 8
        }))
    );
    assert_eq!(
        parse_ip_str("ABCD:ef01:0000:0:1:02:003:feff"),
        Some(IpAddress::V6(Ipv6Address {
            g0: 0xabcd,
            g1: 0xef01,
            g2: 0,
            g3: 0,
            g4: 1,
            g5: 2,
            g6: 3,
            g7: 0xfeff
        }))
    );
}

#[test]
fn parses_compressed_v6_forms() {
    assert_eq!(
        parse_ip_str("::"),
        Some(IpAddress::V6(Ipv6Address {
            g0: 0,
            g1: 0,
            g2: 0,
            g3: 0,
            g4: 0,
            g5: 0,
            g6: 0,
            g7: 0
        }))
    );
    assert_eq!(
        parse_ip_str("::1"),
        Some(IpAddress::V6(Ipv6Address {
            g0: 0,
            g1: 0,
            g2: 0,
            g3: 0,
            g4: 0,
            g5: 0,
            g6: 0,
            g7: 1
        }))
    );
    assert_eq!(
        parse_ip_str("2001:db8::1"),
        Some(IpAddress::V6(Ipv6Address {
            g0: 0x2001,
            g1: 0xdb8,
            g2: 0,
            g3: 0,
            g4: 0,
            g5: 0,
            g6: 0,
            g7: 1
        }))
    );
    assert_eq!(
        parse_ip_str("fe80::"),
        Some(IpAddress::V6(Ipv6Address {
            g0: 0xfe80,
            g1: 0,
            g2: 0,
            g3: 0,
            g4: 0,
            g5: 0,
            g6: 0,
            g7: 0
        }))
    );
    assert_eq!(
        parse_ip_str("1:2:3:4:5:6:7::"),
        Some(IpAddress::V6(Ipv6Address {
            g0: 1,
            g1: 2,
            g2: 3,
            g3: 4,
            g4: 5,
            g5: 6,
            g6: 7,
            g7: 0
        }))
    );
}

#[test]
fn parses_v6_with_embedded_dotted_quad() {
    assert_eq!(
        parse_ip_str("::ffff:192.0.2.128"),
        Some(IpAddress::V6(Ipv6Address {
            g0: 0,
            g1: 0,
            g2: 0,
            g3: 0,
            g4: 0,
            g5: 0xffff,
            g6: 0xc000,
            g7: 0x0280
        }))
    );
    assert_eq!(
        parse_ip_str("1:2:3:4:5:6:77.77.88.88"),
        Some(IpAddress::V6(Ipv6Address {
            g0: 1,
            g1: 2,
            g2: 3,
            g3: 4,
            g4: 5,
            g5: 6,
            g6: 77 * 256 + 77,
            g7: 88 * 256 + 88
        }))
    );
}

#[test]
fn rejects_malformed_v6_forms() {
    for s in [
        ":",
        ":::",
        "1:",
        ":1",
        "1:::2",
        "1::2::3",
        "::1:",
        "12345::",
        "g::",
        "1:2:3:4:5:6:7",
        "1:2:3:4:5:6:7:8:9",
        "1:2:3:4:5:6:7:8::",
        "1.2.3.4::",
        "::1.2.3.4.5",
        "1:2:3:4:5:6:7:1.2.3.4",
    ] {
        assert_eq!(parse_ip_str(s), None, "{s} should not parse");
    }
}

#[test]
fn special_v6_ranges_are_not_global() {
    let cases: [[u16; 8]; 8] = [
        [0, 0, 0, 0, 0, 0, 0, 0],
        [0, 0, 0, 0, 0, 0, 0, 1],
        [0, 0, 0, 0, 0, 0xffff, 0xc633, 0x6405],
        [0x64, 0xff9b, 1, 0, 0, 0, 0, 1],
        [0x100, 0, 0, 0, 0, 0, 0, 1],
        [0x2002, 0xc633, 0x6405, 0, 0, 0, 0, 1],
        [0xfc00, 0, 0, 0, 0, 0, 0, 1],
        [0xfe80, 0, 0, 0, 0, 0, 0, 1],
    ];
    for g in cases {
        let ip = IpAddress::V6(Ipv6Address {
            g0: g[0],
            g1: g[1],
            g2: g[2],
            g3: g[3],
            g4: g[4],
            g5: g[5],
            g6: g[6],
            g7: g[7],
        });
        assert!(!is_global_exec(&ip), "{g:?} should not be global");
    }
}

#[test]
fn ordinary_v6_addresses_are_global() {
    let cases: [[u16; 8]; 4] = [
        [0x2001, 0x4860, 0x4860, 0, 0, 0, 0, 0x8888],
        [0x2001, 1, 0, 0, 0, 0, 0, 1],
        [0x2001, 0x30, 0, 0, 0, 0, 0, 1],
        [0x2607, 0xf8b0, 0x4005, 0x805, 0, 0, 0, 0x200e],
    ];
    for g in cases {
        let ip = IpAddress::V6(Ipv6Address {
            g0: g[0],
            g1: g[1],
            g2: g[2],
            g3: g[3],
            g4: g[4],
            g5: g[5],
            g6: g[6],
            g7: g[7],
        });
        assert!(is_global_exec(&ip), "{g:?} should be global");
    }
}
