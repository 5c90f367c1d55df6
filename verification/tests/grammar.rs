//! Validator behavior on the grammar of RFC 5321 tokens.

use smtpkit::grammar::{
    is_atext, is_domain, is_dot_string, is_local_part, is_qtext, is_quoted_pair, is_quoted_string,
    is_subdomain, strip_quotes,
};
use smtpkit::is_xchar;

#[test]
fn atext_accepts_atoms() {
    assert!(is_atext(b"abcABC123"));
    assert!(is_atext(b"!#$%&'*+-/=?^_`{|}"));
    assert!(is_atext(b"mixed123!#$"));
}

#[test]
fn atext_rejects_outsiders() {
    assert!(!is_atext(b""));
    assert!(!is_atext(b"hello world"));
    assert!(!is_atext(b"hello\x00world"));
    assert!(!is_atext(b"hello@world"));
    assert!(!is_atext(b"hello,world"));
    assert!(!is_atext(b"hello\"world"));
    assert!(!is_atext(b"hello\tworld"));
    assert!(!is_atext(b"hello\x80world"));
}

#[test]
fn dot_string_joins_atoms() {
    assert!(is_dot_string(b"simple"));
    assert!(is_dot_string(b"with.dot"));
    assert!(is_dot_string(b"with.multiple.dots"));
    assert!(is_dot_string(b"special!#$%.chars"));
}

#[test]
fn dot_string_rejects_bad_dots() {
    assert!(!is_dot_string(b""));
    assert!(!is_dot_string(b"."));
    assert!(!is_dot_string(b".leading"));
    assert!(!is_dot_string(b"trailing."));
    assert!(!is_dot_string(b"double..dot"));
    assert!(!is_dot_string(b"with space.com"));
    assert!(!is_dot_string(b"illegal@.char"));
}

#[test]
fn qtext_and_quoted_pair_ranges() {
    assert!(is_qtext(b' '));
    assert!(is_qtext(b'A'));
    assert!(is_qtext(b'z'));
    assert!(is_qtext(b'!'));
    assert!(!is_qtext(b'"'));
    assert!(!is_qtext(b'\\'));
    assert!(!is_qtext(0x80));
    assert!(!is_qtext(0x00));
    assert!(is_quoted_pair(b'\\'));
    assert!(is_quoted_pair(b' '));
    assert!(is_quoted_pair(b'~'));
    assert!(is_quoted_pair(b'"'));
    assert!(!is_quoted_pair(0x80));
    assert!(!is_quoted_pair(0x00));
}

#[test]
fn quoted_string_scans_escapes() {
    assert!(is_quoted_string(b"\"quoted\""));
    assert!(is_quoted_string(b"\"quoted with space\""));
    assert!(is_quoted_string(b"\"quoted\\\"\""));
    assert!(is_quoted_string(b"\"quoted\\\\\""));
    assert!(is_quoted_string(b"\"\""));
    assert!(is_quoted_string(b"\"test\\\"test\\\"again\""));
    assert!(!is_quoted_string(b"not quoted"));
    assert!(!is_quoted_string(b"\"open quoted"));
    assert!(!is_quoted_string(b"close quoted\""));
    assert!(!is_quoted_string(b"\"quoted\\\""));
    assert!(!is_quoted_string(b"\"test\\\x7f\""));
    assert!(!is_quoted_string(b"\"quoted\x80\""));
}

#[test]
fn subdomain_bounds_hyphens() {
    assert!(is_subdomain(b"simple"));
    assert!(is_subdomain(b"hyphen-ated"));
    assert!(is_subdomain(b"mixed-123"));
    assert!(is_subdomain(b"multiple--hyphens"));
    assert!(!is_subdomain(b""));
    assert!(!is_subdomain(b"-leading"));
    assert!(!is_subdomain(b"trailing-"));
    assert!(!is_subdomain(b"with space"));
    assert!(!is_subdomain(b"with.dot"));
    assert!(!is_subdomain(b"with_underscore"));
}

#[test]
fn domain_joins_subdomains() {
    assert!(is_domain(b"simple"));
    assert!(is_domain(b"hyphen-ated"));
    assert!(is_domain(b"mixed-123"));
    assert!(is_domain(b"with.dot"));
    assert!(is_domain(b"trailing."));
    assert!(!is_domain(b""));
    assert!(!is_domain(b"-leading"));
    assert!(!is_domain(b"trailing-"));
    assert!(!is_domain(b".leading"));
    assert!(!is_domain(b"multiple..dots"));
    assert!(!is_domain(b"subdomain.-leading.com"));
    assert!(!is_domain(b"subdomain.trailing-.com"));
}

#[test]
fn local_part_takes_either_form() {
    assert!(is_local_part(b"dot.string"));
    assert!(is_local_part(b"\"quoted string\""));
    assert!(!is_local_part(b".bad"));
}

#[test]
fn strip_quotes_needs_both_ends() {
    assert_eq!(strip_quotes(b"\"inner\""), Some(&b"inner"[..]));
    assert_eq!(strip_quotes(b"\"\""), Some(&b""[..]));
    assert_eq!(strip_quotes(b"inner"), None);
    assert_eq!(strip_quotes(b"\"open"), None);
    assert_eq!(strip_quotes(b"close\""), None);
}

#[test]
fn xchar_excludes_space_plus_equals() {
    assert!(is_xchar(b'!'));
    assert!(is_xchar(b'*'));
    assert!(is_xchar(b','));
    assert!(is_xchar(b'<'));
    assert!(is_xchar(b'>'));
    assert!(is_xchar(b'~'));
    assert!(!is_xchar(b' '));
    assert!(!is_xchar(b'+'));
    assert!(!is_xchar(b'='));
    assert!(!is_xchar(b'\n'));
    assert!(!is_xchar(0x7f));
    assert!(!is_xchar(0x80));
}
