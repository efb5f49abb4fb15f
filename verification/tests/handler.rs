use tzoffset::errors::PipelineError;
use tzoffset::handler::{client_address, respond};
use tzoffset::ip::{IpAddress, Ipv4Address};

#[test]
fn any_failure_yields_uniform_500() {
    let failures = [
        PipelineError::MissingPeerAddress,
        PipelineError::MalformedChainEntry,
        PipelineError::NoGlobalAddressFound,
        PipelineError::LocationNotFound,
        PipelineError::UnknownTimezone,
    ];
    for e in failures {
        let r = respond(Err(e));
        assert_eq!(r.status, 500);
        assert_eq!(r.body, "Server Error");
    }
}

#[test]
fn success_carries_decimal_offset() {
    let r = respond(Ok(-14400));
    assert_eq!(r.status, 200);
    assert_eq!(r.body, "-14400");
}

#[test]
fn success_zero_offset() {
    let r = respond(Ok(0));
    assert_eq!(r.status, 200);
    assert_eq!(r.body, "0");
}

#[test]
fn success_positive_offset() {
    let r = respond(Ok(19800));
    assert_eq!(r.status, 200);
    assert_eq!(r.body, "19800");
}

#[test]
fn client_address_lifts_resolution_errors() {
    assert_eq!(
        client_address(None, None),
        Err(PipelineError::MissingPeerAddress)
    );
    let peer = Some(IpAddress::V4(Ipv4Address { a: 192, b: 168, c: 0, d: 1 }));
    assert_eq!(
        client_address(peer, Some("bogus")),
        Err(PipelineError::MalformedChainEntry)
    );
    assert_eq!(
        client_address(peer, Some("10.9.8.7")),
        Err(PipelineError::NoGlobalAddressFound)
    );
    assert_eq!(
        client_address(peer, Some("203.0.113.5")),
        Ok(IpAddress::V4(Ipv4Address { a: 203, b: 0, c: 113, d: 5 }))
    );
}
