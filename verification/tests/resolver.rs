use tzoffset::errors::ResolutionError;
use tzoffset::ip::{IpAddress, Ipv4Address, Ipv6Address};
use tzoffset::resolver::resolve;

#[test]
fn chain_reverse_scan_finds_global() {
    let peer = Some(IpAddress::V4(Ipv4Address { a: 192, b: 168, c: 0, d: 1 }));
    let r = resolve(peer, Some("203.0.113.5, 10.0.0.1"));
    assert_eq!(r, Ok(IpAddress::V4(Ipv4Address { a: 203, b: 0, c: 113, d: 5 })));
}

#[test]
fn malformed_entry_aborts_scan() {
    let peer = Some(IpAddress::V4(Ipv4Address { a: 192, b: 168, c: 0, d: 1 }));
    let r = resolve(peer, Some("203.0.113.5, not-an-ip"));
    assert_eq!(r, Err(ResolutionError::MalformedChainEntry));
}

#[test]
fn chain_without_global_address_fails() {
    let peer = Some(IpAddress::V4(Ipv4Address { a: 192, b: 168, c: 0, d: 1 }));
    let r = resolve(peer, Some("10.0.0.1, 10.0.0.2"));
    assert_eq!(r, Err(ResolutionError::NoGlobalAddressFound));
}

#[test]
fn no_header_returns_peer_even_if_private() {
    let peer = IpAddress::V4(Ipv4Address { a: 10, b: 0, c: 0, d: 1 });
    let r = resolve(Some(peer), None);
    assert_eq!(r, Ok(peer));
}

#[test]
fn missing_peer_fails() {
    assert_eq!(resolve(None, None), Err(ResolutionError::MissingPeerAddress));
}

#[test]
fn missing_peer_fails_despite_header() {
    assert_eq!(
        resolve(None, Some("203.0.113.5")),
        Err(ResolutionError::MissingPeerAddress)
    );
}

#[test]
fn entries_are_trimmed_before_parsing() {
    let peer = Some(IpAddress::V4(Ipv4Address { a: 192, b: 168, c: 0, d: 1 }));
    let r = resolve(peer, Some("10.0.0.1, \t 203.0.113.5 \t"));
    assert_eq!(r, Ok(IpAddress::V4(Ipv4Address { a: 203, b: 0, c: 113, d: 5 })));
}

#[test]
fn empty_header_is_malformed() {
    let peer = Some(IpAddress::V4(Ipv4Address { a: 192, b: 168, c: 0, d: 1 }));
    assert_eq!(
        resolve(peer, Some("")),
        Err(ResolutionError::MalformedChainEntry)
    );
}

#[test]
fn private_hops_are_skipped_backward() {
    let peer = Some(IpAddress::V4(Ipv4Address { a: 192, b: 168, c: 0, d: 1 }));
    let r = resolve(peer, Some("198.51.100.7, 172.16.0.1, 192.168.1.1"));
    assert_eq!(r, Ok(IpAddress::V4(Ipv4Address { a: 198, b: 51, c: 100, d: 7 })));
}

#[test]
fn v6_entries_take_part_in_the_scan() {
    let peer = Some(IpAddress::V4(Ipv4Address { a: 192, b: 168, c: 0, d: 1 }));
    let r = resolve(peer, Some("2001:db8::1, ::1, fe80::1"));
    assert_eq!(
        r,
        Ok(IpAddress::V6(Ipv6Address {
            g0: 0x2001,
            g1: 0xdb8,
            g2: 0,
            g3: 0,
            g4: 0,
            g5: 0,
            g6: 0,
            g7: 1
        }))
    );
}

#[test]
fn single_global_entry_resolves() {
    let peer = Some(IpAddress::V4(Ipv4Address { a: 10, b: 0, c: 0, d: 1 }));
    let r = resolve(peer, Some("8.8.8.8"));
    assert_eq!(r, Ok(IpAddress::V4(Ipv4Address { a: 8, b: 8, c: 8, d: 8 })));
}
