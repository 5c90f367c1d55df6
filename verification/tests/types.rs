//! The typed value model: emails, domains, address literals, hosts.

use bytes::Bytes;
use smtpkit::command::Host;
use smtpkit::ip::IpAddr;
use smtpkit::types::{Address, Domain, Email};

#[test]
fn test_address_parts() {
    let addr = Address::new_unchecked(Bytes::from("[test:1234]"));
    assert_eq!(
        addr.parts(),
        (Bytes::from_static(b"test"), Bytes::from_static(b"1234"))
    );
}

#[test]
fn address_parts() {
    let addr = Address::new_unchecked(Bytes::from("[test:1234]"));
    assert_eq!(
        addr.parts(),
        (Bytes::from_static(b"test"), Bytes::from_static(b"1234"))
    );
}

#[test]
fn address_display() {
    let address = Address::new_unchecked(Bytes::from("[test:1234]"));
    assert_eq!(address.bytes().as_ref(), b"[test:1234]");
}

#[test]
fn domain_parse_keeps_labels() {
    let d = Domain::parse(Bytes::from_static(b"mail.example.com")).unwrap();
    assert_eq!(d.bytes().as_ref(), b"mail.example.com");
    assert!(Domain::parse(Bytes::from_static(b"-bad.example")).is_err());
    assert!(Domain::parse(Bytes::from_static(b"bad-.example")).is_err());
    assert!(Domain::parse(Bytes::from_static(b"bad..example")).is_err());
}

#[test]
fn domain_parse_accepts_one_trailing_dot() {
    // One trailing label separator with no empty label is accepted, and the
    // stored bytes are the label without the dot.
    let d = Domain::parse(Bytes::from_static(b"example.")).unwrap();
    assert_eq!(d.bytes().as_ref(), b"example");
    assert!(Domain::parse(Bytes::from_static(b"two.labels.")).is_err());
}

#[test]
fn email_parse_splits_at_last_at() {
    let e = Email::parse(Bytes::from_static(b"alice@example.com")).unwrap();
    assert_eq!(e.bytes().as_ref(), b"alice@example.com");
    let quoted = Email::parse(Bytes::from_static(b"\"quoted\"@example.com")).unwrap();
    assert_eq!(quoted.bytes().as_ref(), b"\"quoted\"@example.com");
    assert!(Email::parse(Bytes::from_static(b"no-at-sign")).is_err());
    assert!(Email::parse(Bytes::from_static(b"bad domain@ex ample")).is_err());
    assert!(Email::parse(Bytes::from_static(b"@example.com")).is_err());
}

#[test]
fn email_parse_holds_ceilings() {
    // The local part may hold at most 64 bytes.
    let local_64 = [b'a'; 64];
    let mut ok = Vec::new();
    ok.extend_from_slice(&local_64);
    ok.extend_from_slice(b"@example.com");
    assert!(Email::parse(Bytes::from(ok)).is_ok());
    let local_65 = [b'a'; 65];
    let mut too_long = Vec::new();
    too_long.extend_from_slice(&local_65);
    too_long.extend_from_slice(b"@example.com");
    assert!(Email::parse(Bytes::from(too_long)).is_err());
}

#[test]
fn host_parse_forms() {
    match Host::parse(Bytes::from_static(b"example.com")).unwrap() {
        Host::Domain(d) => assert_eq!(d.bytes().as_ref(), b"example.com"),
        _ => panic!("expected a domain"),
    }
    match Host::parse(Bytes::from_static(b"[1.2.3.4]")).unwrap() {
        Host::Ip(IpAddr::V4(ip)) => assert_eq!(ip.octets, [1, 2, 3, 4]),
        _ => panic!("expected an IPv4 literal"),
    }
    match Host::parse(Bytes::from_static(b"[IPv6:2001:db8::1]")).unwrap() {
        Host::Ip(IpAddr::V6(ip)) => {
            assert_eq!(ip.segments, [0x2001, 0xdb8, 0, 0, 0, 0, 0, 1])
        },
        _ => panic!("expected an IPv6 literal"),
    }
    match Host::parse(Bytes::from_static(b"[tag:content]")).unwrap() {
        Host::Address(a) => assert_eq!(a.bytes().as_ref(), b"[tag:content]"),
        _ => panic!("expected an address literal"),
    }
    // An empty tag and a bracketed non-literal are rejected.
    assert!(Host::parse(Bytes::from_static(b"[:content]")).is_err());
    assert!(Host::parse(Bytes::from_static(b"[nocolon]")).is_err());
    assert!(Host::parse(Bytes::from_static(b"[IPv6:garbage]")).is_err());
}
