//! Streaming parser scenarios: framing, ceilings, errors, resynchronization.

use bytes::{BufMut, BytesMut};
use smtpkit::command::{Command, Host};
use smtpkit::error::Error;
use smtpkit::mail::ReversePath;
use smtpkit::parser::Parser;

fn buf(bytes: &[u8]) -> BytesMut {
    let mut b = BytesMut::new();
    b.put_slice(bytes);
    b
}

#[test]
fn basic_sequence() {
    let mut parser = Parser::default();
    let mut b = buf(
        b"EHLO mail.example.com\r\nMAIL FROM:<alice@example.com> SIZE=1024\r\nRCPT TO:<bob@example.com> NOTIFY=SUCCESS,FAILURE\r\nDATA\r\nHello\r\n.\r\nQUIT\r\n",
    );
    match parser.parse(&mut b).unwrap().unwrap() {
        Command::Ehlo(Host::Domain(d)) => assert_eq!(d.bytes().as_ref(), b"mail.example.com"),
        other => panic!("expected EHLO, got {other:?}"),
    }
    match parser.parse(&mut b).unwrap().unwrap() {
        Command::Mail(m) => {
            assert_eq!(m.size, Some(1024));
            assert!(m.ret.is_none() && m.envid.is_none() && m.auth.is_none() && m.body.is_none());
            match m.from {
                ReversePath::Email(e) => assert_eq!(e.bytes().as_ref(), b"alice@example.com"),
                ReversePath::Null => panic!("expected an email"),
            }
        },
        other => panic!("expected MAIL, got {other:?}"),
    }
    match parser.parse(&mut b).unwrap().unwrap() {
        Command::Rcpt(r) => {
            assert_eq!(r.to.bytes().as_ref(), b"bob@example.com");
            let n = r.notify.unwrap();
            assert!(n.success() && n.failure() && !n.delay() && !n.never());
            assert!(r.orcpt.is_none());
        },
        other => panic!("expected RCPT, got {other:?}"),
    }
    match parser.parse(&mut b).unwrap().unwrap() {
        Command::Data(payload) => assert_eq!(payload.as_ref(), b"Hello"),
        other => panic!("expected DATA, got {other:?}"),
    }
    assert!(matches!(parser.parse(&mut b), Ok(Some(Command::Quit))));
    assert!(b.is_empty());
}

#[test]
fn bdat_framing() {
    let mut parser = Parser::default();
    let mut b = buf(b"BDAT 5\r\nHELLOBDAT 6 LAST\r\n WORLD");
    match parser.parse(&mut b).unwrap().unwrap() {
        Command::Bdat(bd) => {
            assert_eq!(bd.size, 5);
            assert!(!bd.last);
            assert_eq!(bd.payload.as_ref(), b"HELLO");
        },
        other => panic!("expected BDAT, got {other:?}"),
    }
    match parser.parse(&mut b).unwrap().unwrap() {
        Command::Bdat(bd) => {
            assert_eq!(bd.size, 6);
            assert!(bd.last);
            assert_eq!(bd.payload.as_ref(), b" WORLD");
        },
        other => panic!("expected BDAT, got {other:?}"),
    }
    assert!(b.is_empty());
}

#[test]
fn partial_input() {
    let mut parser = Parser::default();
    let mut b = buf(b"MAIL FR");
    assert!(matches!(parser.parse(&mut b), Ok(None)));
    b.put_slice(b"OM:<a@b.c>\r\n");
    match parser.parse(&mut b).unwrap().unwrap() {
        Command::Mail(m) => match m.from {
            ReversePath::Email(e) => assert_eq!(e.bytes().as_ref(), b"a@b.c"),
            ReversePath::Null => panic!("expected an email"),
        },
        other => panic!("expected MAIL, got {other:?}"),
    }
}

#[test]
fn oversize_command_resynchronizes() {
    let mut parser = Parser::default();
    let mut junk = vec![b'x'; 518];
    junk.extend_from_slice(b"\r\n");
    assert_eq!(junk.len(), 520);
    let mut b = buf(&junk);
    assert!(matches!(parser.parse(&mut b), Err(Error::TooLong)));
    // The CRLF is kept for resynchronization; the empty line it closes is
    // consumed as an empty command, then parsing resumes.
    b.put_slice(b"NOOP\r\n");
    assert!(matches!(parser.parse(&mut b), Err(Error::Empty)));
    assert!(matches!(parser.parse(&mut b), Ok(Some(Command::Noop))));
}

#[test]
fn command_line_ceiling_is_sharp() {
    // A command line of exactly 510 bytes (plus CRLF) parses.
    let mut line = Vec::new();
    line.extend_from_slice(b"HELO ");
    line.extend_from_slice(&[b'a'; 505]);
    assert_eq!(line.len(), 510);
    line.extend_from_slice(b"\r\n");
    let mut parser = Parser::default();
    let mut b = buf(&line);
    assert!(matches!(
        parser.parse(&mut b),
        Ok(Some(Command::Helo(Host::Domain(_))))
    ));
    // One more byte trips the ceiling.
    let mut long = Vec::new();
    long.extend_from_slice(b"HELO ");
    long.extend_from_slice(&[b'a'; 506]);
    assert_eq!(long.len(), 511);
    long.extend_from_slice(b"\r\n");
    let mut b = buf(&long);
    assert!(matches!(parser.parse(&mut b), Err(Error::TooLong)));
}

#[test]
fn data_line_ceiling_is_sharp() {
    // A complete DATA line of exactly 998 bytes parses.
    let mut input = Vec::new();
    input.extend_from_slice(b"DATA\r\n");
    input.extend_from_slice(&[b'a'; 998]);
    input.extend_from_slice(b"\r\n");
    input.extend_from_slice(b"\r\n.\r\n");
    let mut parser = Parser::default();
    let mut b = buf(&input);
    match parser.parse(&mut b).unwrap().unwrap() {
        Command::Data(payload) => assert_eq!(payload.len(), 1000),
        other => panic!("expected DATA, got {other:?}"),
    }
    // 999 bytes trigger TooLong once the body terminator arrives.
    let mut input = Vec::new();
    input.extend_from_slice(b"DATA\r\n");
    input.extend_from_slice(&[b'a'; 999]);
    input.extend_from_slice(b"\r\n");
    input.extend_from_slice(b"\r\n.\r\n");
    let mut parser = Parser::default();
    let mut b = buf(&input);
    assert!(matches!(parser.parse(&mut b), Err(Error::TooLong)));
    // The machine is back awaiting a command.
    b.put_slice(b"RSET\r\n");
    assert!(matches!(parser.parse(&mut b), Ok(Some(Command::Rset))));
}

#[test]
fn bdat_zero_is_legal() {
    let mut parser = Parser::default();
    let mut b = buf(b"BDAT 0\r\nNOOP\r\n");
    match parser.parse(&mut b).unwrap().unwrap() {
        Command::Bdat(bd) => {
            assert_eq!(bd.size, 0);
            assert!(!bd.last);
            assert!(bd.payload.is_empty());
        },
        other => panic!("expected BDAT, got {other:?}"),
    }
    assert!(matches!(parser.parse(&mut b), Ok(Some(Command::Noop))));
}

#[test]
fn bdat_over_ceiling_is_rejected_unread() {
    let mut parser = Parser::new(100);
    let mut b = buf(b"BDAT 101\r\n");
    assert!(matches!(parser.parse(&mut b), Err(Error::TooLong)));
    b.put_slice(b"NOOP\r\n");
    assert!(matches!(parser.parse(&mut b), Ok(Some(Command::Noop))));
}

#[test]
fn whole_buffer_ceiling_clears() {
    let mut parser = Parser::new(8);
    let mut b = buf(b"NOOP NOOP\r\n");
    assert!(matches!(parser.parse(&mut b), Err(Error::TooLong)));
    assert!(b.is_empty());
    b.put_slice(b"NOOP\r\n");
    assert!(matches!(parser.parse(&mut b), Ok(Some(Command::Noop))));
}

#[test]
fn empty_line_is_empty() {
    let mut parser = Parser::default();
    let mut b = buf(b"\r\n");
    assert!(matches!(parser.parse(&mut b), Err(Error::Empty)));
    assert!(b.is_empty());
}

#[test]
fn one_byte_verb_is_not_implemented() {
    let mut parser = Parser::default();
    let mut b = buf(b"A\r\n");
    assert!(matches!(parser.parse(&mut b), Err(Error::CommandNotImplemented)));
}

#[test]
fn null_reverse_path() {
    let mut parser = Parser::default();
    let mut b = buf(b"MAIL FROM:<>\r\n");
    match parser.parse(&mut b).unwrap().unwrap() {
        Command::Mail(m) => assert!(matches!(m.from, ReversePath::Null)),
        other => panic!("expected MAIL, got {other:?}"),
    }
}

#[test]
fn bad_domain_keeps_synchronization() {
    let mut parser = Parser::default();
    let mut b = buf(b"HELO -bad.example\r\nRSET\r\n");
    assert!(matches!(parser.parse(&mut b), Err(Error::InvalidSyntax)));
    assert!(matches!(parser.parse(&mut b), Ok(Some(Command::Rset))));
}

#[test]
fn ehlo_ipv6_loopback() {
    let mut parser = Parser::default();
    let mut b = buf(b"EHLO [IPv6:::1]\r\n");
    match parser.parse(&mut b).unwrap().unwrap() {
        Command::Ehlo(Host::Ip(smtpkit::ip::IpAddr::V6(ip))) => {
            assert_eq!(ip.segments, [0, 0, 0, 0, 0, 0, 0, 1]);
        },
        other => panic!("expected an IPv6 EHLO, got {other:?}"),
    }
}

#[test]
fn verb_case_is_ignored() {
    let mut parser = Parser::default();
    let mut b = buf(b"noop\r\nQuIt\r\n");
    assert!(matches!(parser.parse(&mut b), Ok(Some(Command::Noop))));
    assert!(matches!(parser.parse(&mut b), Ok(Some(Command::Quit))));
}

#[test]
fn extra_arguments_are_unexpected() {
    let mut parser = Parser::default();
    for line in [&b"NOOP x\r\n"[..], b"RSET x\r\n", b"QUIT x\r\n", b"DATA x\r\n", b"HELO a b\r\n"] {
        let mut b = buf(line);
        assert!(matches!(parser.parse(&mut b), Err(Error::UnexpectedParameter)));
    }
}

#[test]
fn missing_arguments_are_reported() {
    let mut parser = Parser::default();
    for line in [&b"HELO\r\n"[..], b"EHLO\r\n", b"MAIL\r\n", b"RCPT\r\n", b"BDAT\r\n"] {
        let mut b = buf(line);
        assert!(matches!(parser.parse(&mut b), Err(Error::MissingParameter)));
    }
}

#[test]
fn reserved_verbs_are_not_implemented() {
    let mut parser = Parser::default();
    for line in [&b"VRFY x\r\n"[..], b"EXPN x\r\n", b"HELP\r\n", b"AUTH PLAIN\r\n", b"STARTTLS\r\n"] {
        let mut b = buf(line);
        assert!(matches!(parser.parse(&mut b), Err(Error::CommandNotImplemented)));
    }
}

#[test]
fn bdat_size_errors() {
    let mut parser = Parser::default();
    let mut b = buf(b"BDAT x\r\n");
    assert!(matches!(parser.parse(&mut b), Err(Error::InvalidSyntax)));
    // A size too large for the machine word is an overlong chunk.
    let mut b = buf(b"BDAT 99999999999999999999999999\r\n");
    assert!(matches!(parser.parse(&mut b), Err(Error::TooLong)));
    let mut b = buf(b"BDAT 5 NOTLAST\r\n");
    assert!(matches!(parser.parse(&mut b), Err(Error::UnexpectedParameter)));
    let mut b = buf(b"BDAT 5 LAST extra\r\n");
    assert!(matches!(parser.parse(&mut b), Err(Error::UnexpectedParameter)));
}

#[test]
fn mail_parameters_fold_last_wins() {
    let mut parser = Parser::default();
    let mut b = buf(
        b"MAIL FROM:<bob@example.com> RET=FULL SIZE=10240 ENVID=b0b's+20m@!+2B+2B SIZE=1\r\n",
    );
    match parser.parse(&mut b).unwrap().unwrap() {
        Command::Mail(m) => {
            assert_eq!(m.size, Some(1));
            assert!(matches!(m.ret, Some(smtpkit::mail::Ret::Full)));
            assert_eq!(
                m.envid.unwrap().0.bytes().as_ref(),
                b"b0b's+20m@!+2B+2B"
            );
        },
        other => panic!("expected MAIL, got {other:?}"),
    }
}

#[test]
fn mail_parameter_errors() {
    let mut parser = Parser::default();
    let mut b = buf(b"MAIL FROM:<a@b.c> FOO=1\r\n");
    assert!(matches!(parser.parse(&mut b), Err(Error::InvalidParameter)));
    let mut b = buf(b"MAIL FROM:<a@b.c> SIZE=abc\r\n");
    assert!(matches!(parser.parse(&mut b), Err(Error::InvalidSyntax)));
    let mut b = buf(b"MAIL TO:<a@b.c>\r\n");
    assert!(matches!(parser.parse(&mut b), Err(Error::InvalidSyntax)));
    let mut b = buf(b"MAIL FROM:<not-an-email>\r\n");
    assert!(matches!(parser.parse(&mut b), Err(Error::InvalidSyntax)));
}

#[test]
fn rcpt_parameters() {
    let mut parser = Parser::default();
    let mut b = buf(b"RCPT TO:<bob@example.com> NOTIFY=NEVER ORCPT=alice@example.com\r\n");
    match parser.parse(&mut b).unwrap().unwrap() {
        Command::Rcpt(r) => {
            assert!(r.notify.unwrap().never());
            assert_eq!(r.orcpt.unwrap().bytes().as_ref(), b"alice@example.com");
        },
        other => panic!("expected RCPT, got {other:?}"),
    }
    let mut b = buf(b"RCPT TO:<bob@example.com> NOTIFY=SOMETIMES\r\n");
    assert!(matches!(parser.parse(&mut b), Err(Error::InvalidSyntax)));
    let mut b = buf(b"RCPT TO:<bob@example.com> FOO=1\r\n");
    assert!(matches!(parser.parse(&mut b), Err(Error::InvalidParameter)));
}
