//! Serializer output and parse/encode round trips.

use bytes::{BufMut, Bytes, BytesMut};
use smtpkit::command::{Bdat, Command, Host, Mechanism};
use smtpkit::mail::{Auth, Body, EnvId, Mail, Ret, ReversePath};
use smtpkit::parser::Parser;
use smtpkit::rcpt::{Notify, Rcpt};
use smtpkit::serialize::ToBytes;
use smtpkit::types::{Base64, Domain, Email};
use smtpkit::xtext::XText;

fn email(s: &'static [u8]) -> Email {
    Email::parse(Bytes::from_static(s)).unwrap()
}

fn domain(s: &'static [u8]) -> Domain {
    Domain::parse(Bytes::from_static(s)).unwrap()
}

#[test]
fn encode_simple_commands() {
    assert_eq!(Command::Rset.to_bytes().as_ref(), b"RSET\r\n");
    assert_eq!(Command::Noop.to_bytes().as_ref(), b"NOOP\r\n");
    assert_eq!(Command::Quit.to_bytes().as_ref(), b"QUIT\r\n");
    assert_eq!(Command::Vrfy.to_bytes().as_ref(), b"VRFY\r\n");
    assert_eq!(Command::Expn.to_bytes().as_ref(), b"EXPN\r\n");
    assert_eq!(Command::Help.to_bytes().as_ref(), b"HELP\r\n");
    assert_eq!(Command::StartTls.to_bytes().as_ref(), b"STARTTLS\r\n");
}

#[test]
fn encode_helo_and_ehlo() {
    let helo = Command::Helo(Host::Domain(domain(b"example.com")));
    assert_eq!(helo.to_bytes().as_ref(), b"HELO example.com\r\n");
    let v4 = Host::parse(Bytes::from_static(b"[127.0.0.1]")).unwrap();
    assert_eq!(
        Command::Ehlo(v4).to_bytes().as_ref(),
        b"EHLO [127.0.0.1]\r\n"
    );
    let v6 = Host::parse(Bytes::from_static(b"[IPv6:2001:db8::]")).unwrap();
    assert_eq!(
        Command::Ehlo(v6).to_bytes().as_ref(),
        b"EHLO [IPv6:2001:db8:0:0:0:0:0:0]\r\n"
    );
    let addr = Host::parse(Bytes::from_static(b"[test:1234]")).unwrap();
    assert_eq!(
        Command::Ehlo(addr).to_bytes().as_ref(),
        b"EHLO [test:1234]\r\n"
    );
}

#[test]
fn encode_mail_parameters_in_order() {
    let m = Mail {
        size: Some(1024),
        ret: Some(Ret::Full),
        envid: Some(EnvId(XText::parse(Bytes::from_static(b"12345")).unwrap())),
        auth: Some(Auth::Anonymous),
        body: Some(Body::EightBitMime),
        from: ReversePath::Email(email(b"bob@example.com")),
    };
    assert_eq!(
        Command::Mail(m).to_bytes().as_ref(),
        &b"MAIL FROM:<bob@example.com> SIZE=1024 RET=FULL ENVID=12345 AUTH=<> BODY=8BITMIME\r\n"[..]
    );
    let null = Mail {
        size: None,
        ret: None,
        envid: None,
        auth: None,
        body: None,
        from: ReversePath::Null,
    };
    assert_eq!(Command::Mail(null).to_bytes().as_ref(), b"MAIL FROM:<>\r\n");
}

#[test]
fn encode_rcpt_with_notify() {
    let r = Rcpt {
        orcpt: Some(email(b"orig@example.com")),
        notify: Some(Notify::of_flags(true, true, false)),
        to: email(b"bob@example.com"),
    };
    assert_eq!(
        Command::Rcpt(r).to_bytes().as_ref(),
        &b"RCPT TO:<bob@example.com> NOTIFY=DELAY,FAILURE ORCPT=<orig@example.com>\r\n"[..]
    );
    let never = Rcpt { orcpt: None, notify: Some(Notify::of_flags(false, false, false)), to: email(b"b@c.d") };
    assert_eq!(
        Command::Rcpt(never).to_bytes().as_ref(),
        &b"RCPT TO:<b@c.d> NOTIFY=NEVER\r\n"[..]
    );
}

#[test]
fn encode_data_and_bdat_framing() {
    let data = Command::Data(Bytes::from_static(b"Hello"));
    assert_eq!(data.to_bytes().as_ref(), b"DATA\r\nHello\r\n.\r\n");
    let bdat = Command::Bdat(Bdat { size: 5, last: false, payload: Bytes::from_static(b"HELLO") });
    assert_eq!(bdat.to_bytes().as_ref(), b"BDAT 5\r\nHELLO");
    let last = Command::Bdat(Bdat { size: 6, last: true, payload: Bytes::from_static(b" WORLD") });
    assert_eq!(last.to_bytes().as_ref(), b"BDAT 6 LAST\r\n WORLD");
}

#[test]
fn encode_auth() {
    let auth = Command::Auth {
        mechanism: Mechanism::Plain,
        initial_response: Some(Base64::new_unchecked(Bytes::from_static(b"dGVzdA=="))),
    };
    assert_eq!(auth.to_bytes().as_ref(), b"AUTH PLAIN dGVzdA==\r\n");
    let bare = Command::Auth { mechanism: Mechanism::ScramSha256, initial_response: None };
    assert_eq!(bare.to_bytes().as_ref(), b"AUTH SCRAM-SHA-256\r\n");
}

/// Feed the encoding of a command back through a fresh parser and return
/// what comes out.
fn reparse(wire: &[u8]) -> Command {
    let mut parser = Parser::default();
    let mut b = BytesMut::new();
    b.put_slice(wire);
    let c = parser.parse(&mut b).unwrap().unwrap();
    assert!(b.is_empty(), "the encoding must be consumed whole");
    c
}

#[test]
fn reparse_recovers_simple_commands() {
    assert!(matches!(reparse(&Command::Rset.to_bytes()), Command::Rset));
    assert!(matches!(reparse(&Command::Noop.to_bytes()), Command::Noop));
    assert!(matches!(reparse(&Command::Quit.to_bytes()), Command::Quit));
}

#[test]
fn reparse_recovers_mail() {
    let m = Mail {
        size: Some(42),
        ret: Some(Ret::Headers),
        envid: Some(EnvId(XText::parse(Bytes::from_static(b"id+2B1")).unwrap())),
        auth: Some(Auth::Identity(XText::parse(Bytes::from_static(b"me")).unwrap())),
        body: Some(Body::BinaryMime),
        from: ReversePath::Email(email(b"alice@example.com")),
    };
    let wire = Command::Mail(m).to_bytes();
    match reparse(&wire) {
        Command::Mail(back) => {
            assert_eq!(back.size, Some(42));
            assert!(matches!(back.ret, Some(Ret::Headers)));
            assert_eq!(back.envid.unwrap().0.bytes().as_ref(), b"id+2B1");
            match back.auth.unwrap() {
                Auth::Identity(x) => assert_eq!(x.bytes().as_ref(), b"me"),
                Auth::Anonymous => panic!("expected an identity"),
            }
            assert!(matches!(back.body, Some(Body::BinaryMime)));
            match back.from {
                ReversePath::Email(e) => assert_eq!(e.bytes().as_ref(), b"alice@example.com"),
                ReversePath::Null => panic!("expected an email"),
            }
        },
        other => panic!("expected MAIL, got {other:?}"),
    }
}

#[test]
fn reparse_recovers_rcpt_and_hosts() {
    let r = Rcpt {
        orcpt: None,
        notify: Some(Notify::of_flags(false, true, true)),
        to: email(b"bob@example.com"),
    };
    let wire = Command::Rcpt(r).to_bytes();
    match reparse(&wire) {
        Command::Rcpt(back) => {
            let n = back.notify.unwrap();
            assert!(!n.delay() && n.failure() && n.success());
        },
        other => panic!("expected RCPT, got {other:?}"),
    }
    let h = Host::parse(Bytes::from_static(b"[IPv6:::1]")).unwrap();
    let wire = Command::Ehlo(h).to_bytes();
    match reparse(&wire) {
        Command::Ehlo(Host::Ip(smtpkit::ip::IpAddr::V6(ip))) => {
            assert_eq!(ip.segments, [0, 0, 0, 0, 0, 0, 0, 1]);
        },
        other => panic!("expected an IPv6 EHLO, got {other:?}"),
    }
}

#[test]
fn reparse_recovers_data_and_bdat() {
    let wire = Command::Data(Bytes::from_static(b"line one\r\nline two")).to_bytes();
    match reparse(&wire) {
        Command::Data(p) => assert_eq!(p.as_ref(), b"line one\r\nline two"),
        other => panic!("expected DATA, got {other:?}"),
    }
    let wire = Command::Bdat(Bdat { size: 3, last: true, payload: Bytes::from_static(b"abc") })
        .to_bytes();
    match reparse(&wire) {
        Command::Bdat(b) => {
            assert_eq!(b.size, 3);
            assert!(b.last);
            assert_eq!(b.payload.as_ref(), b"abc");
        },
        other => panic!("expected BDAT, got {other:?}"),
    }
}

#[test]
fn notify_bitsets_normalize() {
    // Every bitset survives an encode and reparse.
    for bits in 0u8..8 {
        let n = Notify::of_flags(bits & 1 != 0, bits & 2 != 0, bits & 4 != 0);
        let r = Rcpt { orcpt: None, notify: Some(n), to: email(b"a@b.c") };
        let wire = Command::Rcpt(r).to_bytes();
        match reparse(&wire) {
            Command::Rcpt(back) => {
                let m = back.notify.unwrap();
                assert_eq!(m.delay(), bits & 1 != 0);
                assert_eq!(m.failure(), bits & 2 != 0);
                assert_eq!(m.success(), bits & 4 != 0);
            },
            other => panic!("expected RCPT, got {other:?}"),
        }
    }
}
