//! The line-framing codec: decode frames, encode lines, ceilings.

use bytes::{BufMut, BytesMut};
use smtpkit::codec::{Smtp, SmtpError};
use smtpkit::command::Command;
use smtpkit::error::Error;

fn buf(bytes: &[u8]) -> BytesMut {
    let mut b = BytesMut::new();
    b.put_slice(bytes);
    b
}

#[test]
fn decode_cuts_complete_lines() {
    let mut codec = Smtp::new();
    let mut b = buf(b"NOOP\r\nQUIT\r\n");
    assert!(matches!(codec.decode(&mut b), Ok(Some(Command::Noop))));
    assert!(matches!(codec.decode(&mut b), Ok(Some(Command::Quit))));
    assert!(matches!(codec.decode(&mut b), Ok(None)));
}

#[test]
fn decode_reports_command_errors() {
    let mut codec = Smtp::new();
    let mut b = buf(b"HELO -bad\r\n");
    assert!(matches!(
        codec.decode(&mut b),
        Err(SmtpError::Command(Error::InvalidSyntax))
    ));
}

#[test]
fn decode_clears_over_full_buffers() {
    let mut codec = Smtp::with_max_length(4);
    let mut b = buf(b"NOOPX");
    assert!(matches!(codec.decode(&mut b), Err(SmtpError::TooBig)));
    assert!(b.is_empty());
}

#[test]
fn encode_appends_one_frame() {
    let mut codec = Smtp::new();
    let mut out = BytesMut::new();
    assert_eq!(codec.encode(b"250 OK", &mut out), Ok(()));
    assert_eq!(out.as_ref(), b"250 OK\r\n");
    let long = vec![b'x'; 513];
    assert_eq!(codec.encode(&long, &mut out), Err(SmtpError::TooBig));
    assert_eq!(out.as_ref(), b"250 OK\r\n");
}
