//! XText validation, decoding, encoding, and the round trip.

use bytes::Bytes;
use smtpkit::xtext::{decode_hex, encode_hex, XText};

#[test]
fn xtext_decode_hexchars() {
    let cases: &[(&[u8], &[u8])] = &[
        (b"he+40llo+0A+2Bworld+2B", b"he@llo\n+world+"),
        (b"AbCd,1234,Foo", b"AbCd,1234,Foo"),
        (b"", b""),
        (b"hello", b"hello"),
        (b"+48+65+6c+6c+6f", b"Hello"),
        (b"Mixed+20Text", b"Mixed Text"),
        (b"+FF", b"\xFF"),
    ];
    for (input, expected) in cases {
        let encoded = XText::parse(Bytes::copy_from_slice(input)).unwrap();
        assert_eq!(encoded.decode().as_ref(), *expected);
    }
}

#[test]
fn xtext_encode_hexchars() {
    let cases: &[(&[u8], &[u8])] = &[
        (b"he@llo\n+world+", b"he@llo+0A+2Bworld+2B"),
        (b"AbCd,1234,Foo", b"AbCd,1234,Foo"),
        (b"", b""),
    ];
    for (input, expected) in cases {
        let encoded = XText::encode(&Bytes::copy_from_slice(input));
        assert_eq!(encoded.bytes().as_ref(), *expected);
    }
}

#[test]
fn xtext_roundtrip_encode() {
    let cases: &[&[u8]] = &[b"he@llo\n+world+", b"AbCd,1234,Foo", b"", b"\x00\xff\x80 +="];
    for input in cases {
        let back = XText::encode(&Bytes::copy_from_slice(input)).decode();
        assert_eq!(back.as_ref(), *input);
    }
}

#[test]
fn xtext_parse_rejects_bad_escapes() {
    assert!(XText::parse(Bytes::from_static(b"ok+4")).is_err());
    assert!(XText::parse(Bytes::from_static(b"ok+")).is_err());
    assert!(XText::parse(Bytes::from_static(b"+4G")).is_err());
    assert!(XText::parse(Bytes::from_static(b"sp ace")).is_err());
    assert!(XText::parse(Bytes::from_static(b"eq=")).is_err());
    assert!(XText::parse(Bytes::from_static(b"+2B")).is_ok());
    assert!(XText::parse(Bytes::from_static(b"")).is_ok());
}

#[test]
fn test_decode_hex() {
    assert_eq!(decode_hex(b'0'), 0);
    assert_eq!(decode_hex(b'9'), 9);
    assert_eq!(decode_hex(b'a'), 10);
    assert_eq!(decode_hex(b'f'), 15);
    assert_eq!(decode_hex(b'A'), 10);
    assert_eq!(decode_hex(b'F'), 15);
}

#[test]
fn test_encode_hex() {
    assert_eq!(encode_hex(0), b'0');
    assert_eq!(encode_hex(9), b'9');
    assert_eq!(encode_hex(10), b'A');
    assert_eq!(encode_hex(15), b'F');
}
