//! The token and line iterators over shared byte buffers.

use bytes::Bytes;
use smtpkit::tokens::{Lines, Tokens};

fn collect_tokens(input: &'static [u8], delim: u8) -> Vec<Bytes> {
    let mut t = Tokens::new(Bytes::from_static(input), delim);
    let mut out = Vec::new();
    while let Some(tok) = t.next() {
        out.push(tok);
    }
    out
}

#[test]
fn tokens_split_on_single_delimiters() {
    assert_eq!(collect_tokens(b"a b c", b' '), vec![
        Bytes::from_static(b"a"),
        Bytes::from_static(b"b"),
        Bytes::from_static(b"c"),
    ]);
    assert_eq!(collect_tokens(b"a  b", b' '), vec![
        Bytes::from_static(b"a"),
        Bytes::from_static(b""),
        Bytes::from_static(b"b"),
    ]);
}

#[test]
fn tokens_empty_buffer_yields_nothing() {
    assert_eq!(collect_tokens(b"", b' '), Vec::<Bytes>::new());
}

#[test]
fn tokens_trailing_delimiter_yields_final_empty_token() {
    assert_eq!(collect_tokens(b"a,", b','), vec![
        Bytes::from_static(b"a"),
        Bytes::from_static(b""),
    ]);
    assert_eq!(collect_tokens(b",", b','), vec![
        Bytes::from_static(b""),
        Bytes::from_static(b""),
    ]);
}

#[test]
fn tokens_remainder_returns_rest() {
    let mut t = Tokens::new(Bytes::from_static(b"key=value"), b'=');
    assert_eq!(t.next(), Some(Bytes::from_static(b"key")));
    assert_eq!(t.remainder(), Bytes::from_static(b"value"));
}

#[test]
fn lines_yield_only_complete_lines() {
    let mut l = Lines::new(Bytes::from_static(b"one\r\ntwo\r\ntail"));
    assert_eq!(l.next(), Some(Bytes::from_static(b"one")));
    assert_eq!(l.next(), Some(Bytes::from_static(b"two")));
    assert_eq!(l.next(), None);
    assert_eq!(l.into_bytes(), Bytes::from_static(b"one\r\ntwo\r\ntail"));
}

#[test]
fn lines_ignore_bare_terminator_halves() {
    let mut l = Lines::new(Bytes::from_static(b"a\rb\nc\r\n"));
    assert_eq!(l.next(), Some(Bytes::from_static(b"a\rb\nc")));
    assert_eq!(l.next(), None);
}
