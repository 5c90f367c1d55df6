//! The serializer: every command value back to conforming wire bytes, the
//! inverse of the parser.

use vstd::prelude::*;

use crate::bytebuf::{bytes_as_slice, bytes_mut_extend_from_slice, bytes_mut_new, bytes_mut_push,
    bytes_mut_view, bytes_view};
use crate::command::{Bdat, Command, CommandV, Host, HostV, Mechanism};
use crate::ip::{IpV, Ipv4Addr, Ipv6Addr};
use crate::mail::{Auth, AuthV, Body, EnvId, Mail, MailV, Ret, ReversePath, ReversePathV};
use crate::rcpt::{Notify, Rcpt, RcptV, NOTIFY_DELAY, NOTIFY_FAILURE, NOTIFY_SUCCESS};
use crate::types::{Address, Base64, Domain, Email};
use crate::xtext::XText;

verus! {

/// The decimal digit string of a non-negative number, most significant
/// digit first.
pub open spec fn spec_dec_str(v: int) -> Seq<u8>
    decreases v,
{
    if v < 10 {
        seq![(0x30 + if v >= 0 {
            v
        } else {
            0
        }) as u8]
    } else {
        spec_dec_str(v / 10).push((0x30 + v % 10) as u8)
    }
}

/// The lower-case hex digit of a value below 16.
pub open spec fn spec_hex_digit_lower(v: int) -> u8 {
    if 0 <= v < 10 {
        (0x30 + v) as u8
    } else if v < 16 {
        (0x61 + v - 10) as u8
    } else {
        0
    }
}

/// The minimal lower-case hex string of a non-negative number.
pub open spec fn spec_hex_str(v: int) -> Seq<u8>
    decreases v,
{
    if v < 16 {
        seq![spec_hex_digit_lower(if v >= 0 {
            v
        } else {
            0
        })]
    } else {
        spec_hex_str(v / 16).push(spec_hex_digit_lower(v % 16))
    }
}

/// The dotted-decimal text of an IPv4 address.
pub open spec fn spec_ipv4_text(o: Seq<int>) -> Seq<u8> {
    spec_dec_str(o[0]) + seq![0x2eu8] + spec_dec_str(o[1]) + seq![0x2eu8] + spec_dec_str(o[2])
        + seq![0x2eu8] + spec_dec_str(o[3])
}

/// The full eight-group hex text of an IPv6 address.
pub open spec fn spec_ipv6_text(g: Seq<int>) -> Seq<u8> {
    spec_hex_str(g[0]) + seq![0x3au8] + spec_hex_str(g[1]) + seq![0x3au8] + spec_hex_str(g[2])
        + seq![0x3au8] + spec_hex_str(g[3]) + seq![0x3au8] + spec_hex_str(g[4]) + seq![0x3au8]
        + spec_hex_str(g[5]) + seq![0x3au8] + spec_hex_str(g[6]) + seq![0x3au8] + spec_hex_str(
        g[7],
    )
}

/// The wire text of a host: a domain verbatim, `[dotted]` for v4,
/// `[IPv6:groups]` for v6, an address literal verbatim.
pub open spec fn spec_wire_host(h: HostV) -> Seq<u8> {
    match h {
        HostV::Domain(d) => d,
        HostV::Ip(IpV::V4(o)) => seq![0x5bu8] + spec_ipv4_text(o) + seq![0x5du8],
        HostV::Ip(IpV::V6(g)) => seq![0x5bu8, 0x49u8, 0x50u8, 0x76u8, 0x36u8, 0x3au8]
            + spec_ipv6_text(g) + seq![0x5du8],
        HostV::Address(a) => a,
    }
}

/// The wire text of a reverse path: `<>` or `<email>`.
pub open spec fn spec_wire_reverse_path(rp: ReversePathV) -> Seq<u8> {
    match rp {
        ReversePathV::Null => seq![0x3cu8, 0x3eu8],
        ReversePathV::Email(e) => seq![0x3cu8] + e + seq![0x3eu8],
    }
}

/// The wire text of a `RET` parameter.
pub open spec fn spec_wire_ret(r: Ret) -> Seq<u8> {
    match r {
        Ret::Full => crate::mail::spec_lit_ret() + seq![0x3du8] + crate::mail::spec_lit_full(),
        Ret::Headers => crate::mail::spec_lit_ret() + seq![0x3du8] + crate::mail::spec_lit_hdrs(),
    }
}

/// The wire text of a `BODY` parameter.
pub open spec fn spec_wire_body(b: Body) -> Seq<u8> {
    match b {
        Body::SevenBit => crate::mail::spec_lit_body() + seq![0x3du8]
            + crate::mail::spec_lit_7bit(),
        Body::EightBitMime => crate::mail::spec_lit_body() + seq![0x3du8]
            + crate::mail::spec_lit_8bitmime(),
        Body::BinaryMime => crate::mail::spec_lit_body() + seq![0x3du8]
            + crate::mail::spec_lit_binarymime(),
    }
}

/// The wire text of an `ENVID` parameter.
pub open spec fn spec_wire_envid(e: Seq<u8>) -> Seq<u8> {
    crate::mail::spec_lit_envid() + seq![0x3du8] + e
}

/// The wire text of an `AUTH` parameter.
pub open spec fn spec_wire_auth(a: AuthV) -> Seq<u8> {
    match a {
        AuthV::Anonymous => crate::mail::spec_lit_auth() + seq![0x3du8] + seq![0x3cu8, 0x3eu8],
        AuthV::Identity(x) => crate::mail::spec_lit_auth() + seq![0x3du8] + x,
    }
}

/// The wire text of a `MAIL` command body, parameters in the stable order
/// `SIZE`, `RET`, `ENVID`, `AUTH`, `BODY`.
pub open spec fn spec_wire_mail(m: MailV) -> Seq<u8> {
    seq![0x4du8, 0x41u8, 0x49u8, 0x4cu8, 0x20u8, 0x46u8, 0x52u8, 0x4fu8, 0x4du8, 0x3au8]
        + spec_wire_reverse_path(m.from) + (match m.size {
        Some(n) => seq![0x20u8, 0x53u8, 0x49u8, 0x5au8, 0x45u8, 0x3du8] + spec_dec_str(n as int),
        None => Seq::<u8>::empty(),
    }) + (match m.ret {
        Some(r) => seq![0x20u8] + spec_wire_ret(r),
        None => Seq::<u8>::empty(),
    }) + (match m.envid {
        Some(e) => seq![0x20u8] + spec_wire_envid(e),
        None => Seq::<u8>::empty(),
    }) + (match m.auth {
        Some(a) => seq![0x20u8] + spec_wire_auth(a),
        None => Seq::<u8>::empty(),
    }) + (match m.body {
        Some(b) => seq![0x20u8] + spec_wire_body(b),
        None => Seq::<u8>::empty(),
    })
}

/// The wire text of a `NOTIFY` parameter: `NEVER` for the empty set, else
/// the set flags in the stable order `DELAY`, `FAILURE`, `SUCCESS`.
pub open spec fn spec_wire_notify(bits: u8) -> Seq<u8> {
    crate::rcpt::spec_lit_notify() + seq![0x3du8] + spec_notify_value(bits)
}

/// The value part of a `NOTIFY` parameter.
pub open spec fn spec_notify_value(bits: u8) -> Seq<u8> {
    if bits == 0 {
        crate::rcpt::spec_lit_never()
    } else {
        let d: Seq<u8> = if bits & NOTIFY_DELAY != 0 {
            crate::rcpt::spec_lit_delay()
        } else {
            Seq::<u8>::empty()
        };
        let f: Seq<u8> = if bits & NOTIFY_FAILURE != 0 {
            if d.len() > 0 {
                seq![0x2cu8] + crate::rcpt::spec_lit_failure()
            } else {
                crate::rcpt::spec_lit_failure()
            }
        } else {
            Seq::<u8>::empty()
        };
        let s: Seq<u8> = if bits & NOTIFY_SUCCESS != 0 {
            if d.len() > 0 || f.len() > 0 {
                seq![0x2cu8] + crate::rcpt::spec_lit_success()
            } else {
                crate::rcpt::spec_lit_success()
            }
        } else {
            Seq::<u8>::empty()
        };
        d + f + s
    }
}

/// The wire text of an `ORCPT` parameter.
pub open spec fn spec_wire_orcpt(e: Seq<u8>) -> Seq<u8> {
    crate::rcpt::spec_lit_orcpt() + seq![0x3du8, 0x3cu8] + e + seq![0x3eu8]
}

/// The wire text of a `RCPT` command body, parameters in the stable order
/// `NOTIFY`, `ORCPT`.
pub open spec fn spec_wire_rcpt(r: RcptV) -> Seq<u8> {
    seq![0x52u8, 0x43u8, 0x50u8, 0x54u8, 0x20u8, 0x54u8, 0x4fu8, 0x3au8, 0x3cu8] + r.to + seq![
        0x3eu8,
    ] + (match r.notify {
        Some(n) => seq![0x20u8] + spec_wire_notify(n),
        None => Seq::<u8>::empty(),
    }) + (match r.orcpt {
        Some(e) => seq![0x20u8] + spec_wire_orcpt(e),
        None => Seq::<u8>::empty(),
    })
}

/// The canonical SASL name of a mechanism.
pub open spec fn spec_wire_mechanism(m: Mechanism) -> Seq<u8> {
    match m {
        Mechanism::Anonymous => seq![0x41u8, 0x4eu8, 0x4fu8, 0x4eu8, 0x59u8, 0x4du8, 0x4fu8,
            0x55u8, 0x53u8],
        Mechanism::CramMd5 => seq![0x43u8, 0x52u8, 0x41u8, 0x4du8, 0x2du8, 0x4du8, 0x44u8, 0x35u8],
        Mechanism::DigestMd5 => seq![0x44u8, 0x49u8, 0x47u8, 0x45u8, 0x53u8, 0x54u8, 0x2du8,
            0x4du8, 0x44u8, 0x35u8],
        Mechanism::Gssapi => seq![0x47u8, 0x53u8, 0x53u8, 0x41u8, 0x50u8, 0x49u8],
        Mechanism::Login => seq![0x4cu8, 0x4fu8, 0x47u8, 0x49u8, 0x4eu8],
        Mechanism::Ntlm => seq![0x4eu8, 0x54u8, 0x4cu8, 0x4du8],
        Mechanism::OAuthBearer => seq![0x4fu8, 0x41u8, 0x55u8, 0x54u8, 0x48u8, 0x42u8, 0x45u8,
            0x41u8, 0x52u8, 0x45u8, 0x52u8],
        Mechanism::Plain => seq![0x50u8, 0x4cu8, 0x41u8, 0x49u8, 0x4eu8],
        Mechanism::ScramSha1 => seq![0x53u8, 0x43u8, 0x52u8, 0x41u8, 0x4du8, 0x2du8, 0x53u8,
            0x48u8, 0x41u8, 0x2du8, 0x31u8],
        Mechanism::ScramSha256 => seq![0x53u8, 0x43u8, 0x52u8, 0x41u8, 0x4du8, 0x2du8, 0x53u8,
            0x48u8, 0x41u8, 0x2du8, 0x32u8, 0x35u8, 0x36u8],
        Mechanism::XOAuth2 => seq![0x58u8, 0x4fu8, 0x41u8, 0x55u8, 0x54u8, 0x48u8, 0x32u8],
    }
}

/// The line terminator.
pub open spec fn spec_wire_crlf() -> Seq<u8> {
    seq![0x0du8, 0x0au8]
}

/// The full wire form of a command, CRLF framing included: one line ending
/// in CRLF, except that `DATA` carries its dot-terminated body and `BDAT`
/// carries exactly its payload after the header line.
pub open spec fn spec_wire_command(c: CommandV) -> Seq<u8> {
    match c {
        CommandV::Helo(h) => seq![0x48u8, 0x45u8, 0x4cu8, 0x4fu8, 0x20u8] + spec_wire_host(h)
            + spec_wire_crlf(),
        CommandV::Ehlo(h) => seq![0x45u8, 0x48u8, 0x4cu8, 0x4fu8, 0x20u8] + spec_wire_host(h)
            + spec_wire_crlf(),
        CommandV::Mail(m) => spec_wire_mail(m) + spec_wire_crlf(),
        CommandV::Rcpt(r) => spec_wire_rcpt(r) + spec_wire_crlf(),
        CommandV::Data(p) => seq![0x44u8, 0x41u8, 0x54u8, 0x41u8] + spec_wire_crlf() + p + seq![
            0x0du8,
            0x0au8,
            0x2eu8,
            0x0du8,
            0x0au8,
        ],
        CommandV::Bdat(b) => seq![0x42u8, 0x44u8, 0x41u8, 0x54u8, 0x20u8] + spec_dec_str(
            b.payload.len() as int,
        ) + (if b.last {
            seq![0x20u8, 0x4cu8, 0x41u8, 0x53u8, 0x54u8]
        } else {
            Seq::<u8>::empty()
        }) + spec_wire_crlf() + b.payload,
        CommandV::Rset => seq![0x52u8, 0x53u8, 0x45u8, 0x54u8] + spec_wire_crlf(),
        CommandV::Vrfy => seq![0x56u8, 0x52u8, 0x46u8, 0x59u8] + spec_wire_crlf(),
        CommandV::Expn => seq![0x45u8, 0x58u8, 0x50u8, 0x4eu8] + spec_wire_crlf(),
        CommandV::Help => seq![0x48u8, 0x45u8, 0x4cu8, 0x50u8] + spec_wire_crlf(),
        CommandV::Noop => seq![0x4eu8, 0x4fu8, 0x4fu8, 0x50u8] + spec_wire_crlf(),
        CommandV::Quit => seq![0x51u8, 0x55u8, 0x49u8, 0x54u8] + spec_wire_crlf(),
        CommandV::StartTls => seq![0x53u8, 0x54u8, 0x41u8, 0x52u8, 0x54u8, 0x54u8, 0x4cu8, 0x53u8]
            + spec_wire_crlf(),
        CommandV::Auth { mechanism, initial_response } => seq![0x41u8, 0x55u8, 0x54u8, 0x48u8,
            0x20u8] + spec_wire_mechanism(mechanism) + (match initial_response {
            Some(b) => seq![0x20u8] + b,
            None => Seq::<u8>::empty(),
        }) + spec_wire_crlf(),
    }
}

/// A value with a wire form that can be appended to a buffer.
pub trait ToBytes {
    /// The wire bytes this value denotes.
    spec fn wire(&self) -> Seq<u8>;

    /// Append the wire bytes to `buf`.
    fn to_bytes_into(&self, buf: &mut bytes::BytesMut)
        ensures
            bytes_mut_view(*final(buf)) == bytes_mut_view(*old(buf)) + self.wire(),
    ;

    /// The wire bytes in a fresh buffer.
    fn to_bytes(&self) -> (r: bytes::BytesMut)
        ensures
            bytes_mut_view(r) == self.wire(),
    {
        let mut buf = bytes_mut_new();
        self.to_bytes_into(&mut buf);
        proof {
            assert(bytes_mut_view(buf) =~= self.wire());
        }
        buf
    }
}

/// Append a fixed pattern.
fn put<const N: usize>(buf: &mut bytes::BytesMut, pat: &[u8; N])
    ensures
        bytes_mut_view(*final(buf)) == bytes_mut_view(*old(buf)) + pat@,
{
    bytes_mut_extend_from_slice(buf, pat.as_slice());
}

/// Append the contents of a shared byte buffer.
fn put_bytes(buf: &mut bytes::BytesMut, b: &bytes::Bytes)
    ensures
        bytes_mut_view(*final(buf)) == bytes_mut_view(*old(buf)) + bytes_view(*b),
{
    bytes_mut_extend_from_slice(buf, bytes_as_slice(b));
}

/// Append the decimal digits of a number.
fn put_dec(buf: &mut bytes::BytesMut, v: usize)
    ensures
        bytes_mut_view(*final(buf)) == bytes_mut_view(*old(buf)) + spec_dec_str(v as int),
    decreases v,
{
    if v >= 10 {
        put_dec(buf, v / 10);
        bytes_mut_push(buf, 0x30 + (v % 10) as u8);
    } else {
        bytes_mut_push(buf, 0x30 + (v % 10) as u8);
    }
}

/// Append the minimal lower-case hex digits of a 16-bit number.
fn put_hex(buf: &mut bytes::BytesMut, v: u16)
    ensures
        bytes_mut_view(*final(buf)) == bytes_mut_view(*old(buf)) + spec_hex_str(v as int),
    decreases v,
{
    let d = (v % 16) as u8;
    let digit: u8 = if d < 10 {
        0x30 + d
    } else {
        0x61 + (d - 10)
    };
    if v >= 16 {
        put_hex(buf, v / 16);
        bytes_mut_push(buf, digit);
    } else {
        bytes_mut_push(buf, digit);
    }
}

impl ToBytes for Ret {
    open spec fn wire(&self) -> Seq<u8> {
        spec_wire_ret(*self)
    }

    fn to_bytes_into(&self, buf: &mut bytes::BytesMut) {
        match self {
            Ret::Full => put(buf, &[0x52, 0x45, 0x54, 0x3d, 0x46, 0x55, 0x4c, 0x4c]),
            Ret::Headers => put(buf, &[0x52, 0x45, 0x54, 0x3d, 0x48, 0x44, 0x52, 0x53]),
        }
        proof {
            assert(bytes_mut_view(*buf) =~= bytes_mut_view(*old(buf)) + self.wire());
        }
    }

}


impl ToBytes for Body {
    open spec fn wire(&self) -> Seq<u8> {
        spec_wire_body(*self)
    }

    fn to_bytes_into(&self, buf: &mut bytes::BytesMut) {
        match self {
            Body::SevenBit => put(buf, &[0x42, 0x4f, 0x44, 0x59, 0x3d, 0x37, 0x42, 0x49, 0x54]),
            Body::EightBitMime => put(
                buf,
                &[0x42, 0x4f, 0x44, 0x59, 0x3d, 0x38, 0x42, 0x49, 0x54, 0x4d, 0x49, 0x4d, 0x45],
            ),
            Body::BinaryMime => put(
                buf,
                &[
                    0x42,
                    0x4f,
                    0x44,
                    0x59,
                    0x3d,
                    0x42,
                    0x49,
                    0x4e,
                    0x41,
                    0x52,
                    0x59,
                    0x4d,
                    0x49,
                    0x4d,
                    0x45,
                ],
            ),
        }
        proof {
            assert(bytes_mut_view(*buf) =~= bytes_mut_view(*old(buf)) + self.wire());
        }
    }
}

impl ToBytes for EnvId {
    open spec fn wire(&self) -> Seq<u8> {
        spec_wire_envid(self@)
    }

    fn to_bytes_into(&self, buf: &mut bytes::BytesMut) {
        put(buf, &[0x45, 0x4e, 0x56, 0x49, 0x44, 0x3d]);
        put_bytes(buf, self.0.bytes());
        proof {
            assert(bytes_mut_view(*buf) =~= bytes_mut_view(*old(buf)) + self.wire());
        }
    }
}

impl ToBytes for Auth {
    open spec fn wire(&self) -> Seq<u8> {
        spec_wire_auth(self@)
    }

    fn to_bytes_into(&self, buf: &mut bytes::BytesMut) {
        put(buf, &[0x41, 0x55, 0x54, 0x48, 0x3d]);
        match self {
            Auth::Anonymous => put(buf, &[0x3c, 0x3e]),
            Auth::Identity(x) => put_bytes(buf, x.bytes()),
        }
        proof {
            assert(bytes_mut_view(*buf) =~= bytes_mut_view(*old(buf)) + self.wire());
        }
    }
}

impl ToBytes for ReversePath {
    open spec fn wire(&self) -> Seq<u8> {
        spec_wire_reverse_path(self@)
    }

    fn to_bytes_into(&self, buf: &mut bytes::BytesMut) {
        put(buf, &[0x3c]);
        match self {
            ReversePath::Null => {},
            ReversePath::Email(e) => put_bytes(buf, e.bytes()),
        }
        put(buf, &[0x3e]);
        proof {
            assert(bytes_mut_view(*buf) =~= bytes_mut_view(*old(buf)) + self.wire());
        }
    }
}

impl ToBytes for Notify {
    open spec fn wire(&self) -> Seq<u8> {
        spec_wire_notify(self@)
    }

    fn to_bytes_into(&self, buf: &mut bytes::BytesMut) {
        put(buf, &[0x4e, 0x4f, 0x54, 0x49, 0x46, 0x59, 0x3d]);
        if self.never() {
            put(buf, &[0x4e, 0x45, 0x56, 0x45, 0x52]);
            proof {
                assert(bytes_mut_view(*buf) =~= bytes_mut_view(*old(buf)) + self.wire());
            }
            return ;
        }
        let mut first = true;
        if self.delay() {
            put(buf, &[0x44, 0x45, 0x4c, 0x41, 0x59]);
            first = false;
        }
        if self.failure() {
            if !first {
                put(buf, &[0x2c]);
            }
            put(buf, &[0x46, 0x41, 0x49, 0x4c, 0x55, 0x52, 0x45]);
            first = false;
        }
        if self.success() {
            if !first {
                put(buf, &[0x2c]);
            }
            put(buf, &[0x53, 0x55, 0x43, 0x43, 0x45, 0x53, 0x53]);
        }
        proof {
            assert(bytes_mut_view(*buf) =~= bytes_mut_view(*old(buf)) + self.wire());
        }
    }
}

impl ToBytes for Mail {
    open spec fn wire(&self) -> Seq<u8> {
        spec_wire_mail(self@)
    }

    #[verifier::rlimit(100)]
    #[verifier::spinoff_prover]
    fn to_bytes_into(&self, buf: &mut bytes::BytesMut) {
        let ghost base = bytes_mut_view(*old(buf));
        let ghost w0 = seq![0x4du8, 0x41u8, 0x49u8, 0x4cu8, 0x20u8, 0x46u8, 0x52u8, 0x4fu8,
            0x4du8, 0x3au8];
        let ghost w1 = spec_wire_reverse_path(self.from@);
        let ghost w2 = match self@.size {
            Some(n) => seq![0x20u8, 0x53u8, 0x49u8, 0x5au8, 0x45u8, 0x3du8] + spec_dec_str(
                n as int,
            ),
            None => Seq::<u8>::empty(),
        };
        let ghost w3 = match self@.ret {
            Some(r) => seq![0x20u8] + spec_wire_ret(r),
            None => Seq::<u8>::empty(),
        };
        let ghost w4 = match self@.envid {
            Some(e) => seq![0x20u8] + spec_wire_envid(e),
            None => Seq::<u8>::empty(),
        };
        let ghost w5 = match self@.auth {
            Some(a) => seq![0x20u8] + spec_wire_auth(a),
            None => Seq::<u8>::empty(),
        };
        let ghost w6 = match self@.body {
            Some(b) => seq![0x20u8] + spec_wire_body(b),
            None => Seq::<u8>::empty(),
        };
        put(buf, &[0x4d, 0x41, 0x49, 0x4c, 0x20, 0x46, 0x52, 0x4f, 0x4d, 0x3a]);
        proof {
            assert(bytes_mut_view(*buf) =~= base + w0);
        }
        self.from.to_bytes_into(buf);
        let ghost c1 = base + w0 + w1;
        if let Some(n) = self.size {
            put(buf, &[0x20, 0x53, 0x49, 0x5a, 0x45, 0x3d]);
            put_dec(buf, n);
            proof {
                assert(bytes_mut_view(*buf) =~= c1 + w2);
            }
        } else {
            proof {
                assert(c1 + w2 =~= c1);
            }
        }
        let ghost c2 = c1 + w2;
        if let Some(r) = self.ret {
            put(buf, &[0x20]);
            r.to_bytes_into(buf);
            proof {
                assert(bytes_mut_view(*buf) =~= c2 + w3);
            }
        } else {
            proof {
                assert(c2 + w3 =~= c2);
            }
        }
        let ghost c3 = c2 + w3;
        if let Some(ref e) = self.envid {
            put(buf, &[0x20]);
            e.to_bytes_into(buf);
            proof {
                assert(bytes_mut_view(*buf) =~= c3 + w4);
            }
        } else {
            proof {
                assert(c3 + w4 =~= c3);
            }
        }
        let ghost c4 = c3 + w4;
        if let Some(ref a) = self.auth {
            put(buf, &[0x20]);
            a.to_bytes_into(buf);
            proof {
                assert(bytes_mut_view(*buf) =~= c4 + w5);
            }
        } else {
            proof {
                assert(c4 + w5 =~= c4);
            }
        }
        let ghost c5 = c4 + w5;
        if let Some(b) = self.body {
            put(buf, &[0x20]);
            b.to_bytes_into(buf);
            proof {
                assert(bytes_mut_view(*buf) =~= c5 + w6);
            }
        } else {
            proof {
                assert(c5 + w6 =~= c5);
            }
        }
        proof {
            assert(spec_wire_mail(self@) == w0 + w1 + w2 + w3 + w4 + w5 + w6);
            lemma_mail_chain(base, w0, w1, w2, w3, w4, w5, w6);
        }
    }
}

/// Prefixing a seven-part concatenation distributes over each part.
proof fn lemma_mail_chain(
    base: Seq<u8>,
    w0: Seq<u8>,
    w1: Seq<u8>,
    w2: Seq<u8>,
    w3: Seq<u8>,
    w4: Seq<u8>,
    w5: Seq<u8>,
    w6: Seq<u8>,
)
    ensures
        base + (w0 + w1 + w2 + w3 + w4 + w5 + w6) == base + w0 + w1 + w2 + w3 + w4 + w5 + w6,
{
    vstd::seq_lib::lemma_concat_associative(base, w0 + w1 + w2 + w3 + w4 + w5, w6);
    vstd::seq_lib::lemma_concat_associative(base, w0 + w1 + w2 + w3 + w4, w5);
    vstd::seq_lib::lemma_concat_associative(base, w0 + w1 + w2 + w3, w4);
    vstd::seq_lib::lemma_concat_associative(base, w0 + w1 + w2, w3);
    vstd::seq_lib::lemma_concat_associative(base, w0 + w1, w2);
    vstd::seq_lib::lemma_concat_associative(base, w0, w1);
}

impl ToBytes for Rcpt {
    open spec fn wire(&self) -> Seq<u8> {
        spec_wire_rcpt(self@)
    }

    fn to_bytes_into(&self, buf: &mut bytes::BytesMut) {
        put(buf, &[0x52, 0x43, 0x50, 0x54, 0x20, 0x54, 0x4f, 0x3a, 0x3c]);
        put_bytes(buf, self.to.bytes());
        put(buf, &[0x3e]);
        if let Some(n) = self.notify {
            put(buf, &[0x20]);
            n.to_bytes_into(buf);
        }
        if let Some(ref e) = self.orcpt {
            put(buf, &[0x20, 0x4f, 0x52, 0x43, 0x50, 0x54, 0x3d, 0x3c]);
            put_bytes(buf, e.bytes());
            put(buf, &[0x3e]);
        }
        proof {
            assert(bytes_mut_view(*buf) =~= bytes_mut_view(*old(buf)) + self.wire());
        }
    }
}

impl ToBytes for Mechanism {
    open spec fn wire(&self) -> Seq<u8> {
        spec_wire_mechanism(*self)
    }

    fn to_bytes_into(&self, buf: &mut bytes::BytesMut) {
        match self {
            Mechanism::Anonymous => put(
                buf,
                &[0x41, 0x4e, 0x4f, 0x4e, 0x59, 0x4d, 0x4f, 0x55, 0x53],
            ),
            Mechanism::CramMd5 => put(buf, &[0x43, 0x52, 0x41, 0x4d, 0x2d, 0x4d, 0x44, 0x35]),
            Mechanism::DigestMd5 => put(
                buf,
                &[0x44, 0x49, 0x47, 0x45, 0x53, 0x54, 0x2d, 0x4d, 0x44, 0x35],
            ),
            Mechanism::Gssapi => put(buf, &[0x47, 0x53, 0x53, 0x41, 0x50, 0x49]),
            Mechanism::Login => put(buf, &[0x4c, 0x4f, 0x47, 0x49, 0x4e]),
            Mechanism::Ntlm => put(buf, &[0x4e, 0x54, 0x4c, 0x4d]),
            Mechanism::OAuthBearer => put(
                buf,
                &[0x4f, 0x41, 0x55, 0x54, 0x48, 0x42, 0x45, 0x41, 0x52, 0x45, 0x52],
            ),
            Mechanism::Plain => put(buf, &[0x50, 0x4c, 0x41, 0x49, 0x4e]),
            Mechanism::ScramSha1 => put(
                buf,
                &[0x53, 0x43, 0x52, 0x41, 0x4d, 0x2d, 0x53, 0x48, 0x41, 0x2d, 0x31],
            ),
            Mechanism::ScramSha256 => put(
                buf,
                &[0x53, 0x43, 0x52, 0x41, 0x4d, 0x2d, 0x53, 0x48, 0x41, 0x2d, 0x32, 0x35, 0x36],
            ),
            Mechanism::XOAuth2 => put(buf, &[0x58, 0x4f, 0x41, 0x55, 0x54, 0x48, 0x32]),
        }
        proof {
            assert(bytes_mut_view(*buf) =~= bytes_mut_view(*old(buf)) + self.wire());
        }
    }
}

/// Append the dotted-decimal text of an IPv4 address.
fn put_ipv4(buf: &mut bytes::BytesMut, ip: &Ipv4Addr)
    ensures
        bytes_mut_view(*final(buf)) == bytes_mut_view(*old(buf)) + spec_ipv4_text(
            Seq::<int>::new(4, |i: int| ip.octets@[i] as int),
        ),
{
    put_dec(buf, ip.octets[0] as usize);
    put(buf, &[0x2e]);
    put_dec(buf, ip.octets[1] as usize);
    put(buf, &[0x2e]);
    put_dec(buf, ip.octets[2] as usize);
    put(buf, &[0x2e]);
    put_dec(buf, ip.octets[3] as usize);
    proof {
        assert(bytes_mut_view(*buf) =~= bytes_mut_view(*old(buf)) + spec_ipv4_text(
            Seq::<int>::new(4, |i: int| ip.octets@[i] as int),
        ));
    }
}

/// Append the eight-group hex text of an IPv6 address.
fn put_ipv6(buf: &mut bytes::BytesMut, ip: &Ipv6Addr)
    ensures
        bytes_mut_view(*final(buf)) == bytes_mut_view(*old(buf)) + spec_ipv6_text(
            Seq::<int>::new(8, |i: int| ip.segments@[i] as int),
        ),
{
    put_hex(buf, ip.segments[0]);
    put(buf, &[0x3a]);
    put_hex(buf, ip.segments[1]);
    put(buf, &[0x3a]);
    put_hex(buf, ip.segments[2]);
    put(buf, &[0x3a]);
    put_hex(buf, ip.segments[3]);
    put(buf, &[0x3a]);
    put_hex(buf, ip.segments[4]);
    put(buf, &[0x3a]);
    put_hex(buf, ip.segments[5]);
    put(buf, &[0x3a]);
    put_hex(buf, ip.segments[6]);
    put(buf, &[0x3a]);
    put_hex(buf, ip.segments[7]);
    proof {
        assert(bytes_mut_view(*buf) =~= bytes_mut_view(*old(buf)) + spec_ipv6_text(
            Seq::<int>::new(8, |i: int| ip.segments@[i] as int),
        ));
    }
}

impl ToBytes for Host {
    open spec fn wire(&self) -> Seq<u8> {
        spec_wire_host(self@)
    }

    fn to_bytes_into(&self, buf: &mut bytes::BytesMut) {
        match self {
            Host::Domain(d) => put_bytes(buf, d.bytes()),
            Host::Ip(crate::ip::IpAddr::V4(ip)) => {
                put(buf, &[0x5b]);
                put_ipv4(buf, ip);
                put(buf, &[0x5d]);
            },
            Host::Ip(crate::ip::IpAddr::V6(ip)) => {
                put(buf, &[0x5b, 0x49, 0x50, 0x76, 0x36, 0x3a]);
                put_ipv6(buf, ip);
                put(buf, &[0x5d]);
            },
            Host::Address(a) => put_bytes(buf, a.bytes()),
        }
        proof {
            assert(bytes_mut_view(*buf) =~= bytes_mut_view(*old(buf)) + self.wire());
        }
    }
}

impl ToBytes for Bdat {
    open spec fn wire(&self) -> Seq<u8> {
        spec_wire_command(CommandV::Bdat(self@))
    }

    fn to_bytes_into(&self, buf: &mut bytes::BytesMut) {
        put(buf, &[0x42, 0x44, 0x41, 0x54, 0x20]);
        put_dec(buf, crate::bytebuf::bytes_len(&self.payload));
        if self.last {
            put(buf, &[0x20, 0x4c, 0x41, 0x53, 0x54]);
        }
        put(buf, &[0x0d, 0x0a]);
        put_bytes(buf, &self.payload);
        proof {
            assert(bytes_mut_view(*buf) =~= bytes_mut_view(*old(buf)) + self.wire());
        }
    }
}

impl ToBytes for Command {
    open spec fn wire(&self) -> Seq<u8> {
        spec_wire_command(self@)
    }

    fn to_bytes_into(&self, buf: &mut bytes::BytesMut) {
        match self {
            Command::Helo(h) => {
                put(buf, &[0x48, 0x45, 0x4c, 0x4f, 0x20]);
                h.to_bytes_into(buf);
                put(buf, &[0x0d, 0x0a]);
            },
            Command::Ehlo(h) => {
                put(buf, &[0x45, 0x48, 0x4c, 0x4f, 0x20]);
                h.to_bytes_into(buf);
                put(buf, &[0x0d, 0x0a]);
            },
            Command::Mail(m) => {
                m.to_bytes_into(buf);
                put(buf, &[0x0d, 0x0a]);
            },
            Command::Rcpt(r) => {
                r.to_bytes_into(buf);
                put(buf, &[0x0d, 0x0a]);
            },
            Command::Data(p) => {
                put(buf, &[0x44, 0x41, 0x54, 0x41, 0x0d, 0x0a]);
                put_bytes(buf, p);
                put(buf, &[0x0d, 0x0a, 0x2e, 0x0d, 0x0a]);
            },
            Command::Bdat(b) => {
                b.to_bytes_into(buf);
            },
            Command::Rset => put(buf, &[0x52, 0x53, 0x45, 0x54, 0x0d, 0x0a]),
            Command::Vrfy => put(buf, &[0x56, 0x52, 0x46, 0x59, 0x0d, 0x0a]),
            Command::Expn => put(buf, &[0x45, 0x58, 0x50, 0x4e, 0x0d, 0x0a]),
            Command::Help => put(buf, &[0x48, 0x45, 0x4c, 0x50, 0x0d, 0x0a]),
            Command::Noop => put(buf, &[0x4e, 0x4f, 0x4f, 0x50, 0x0d, 0x0a]),
            Command::Quit => put(buf, &[0x51, 0x55, 0x49, 0x54, 0x0d, 0x0a]),
            Command::StartTls => put(
                buf,
                &[0x53, 0x54, 0x41, 0x52, 0x54, 0x54, 0x4c, 0x53, 0x0d, 0x0a],
            ),
            Command::Auth { mechanism, initial_response } => {
                put(buf, &[0x41, 0x55, 0x54, 0x48, 0x20]);
                mechanism.to_bytes_into(buf);
                if let Some(b) = initial_response {
                    put(buf, &[0x20]);
                    put_bytes(buf, b.bytes());
                }
                put(buf, &[0x0d, 0x0a]);
            },
        }
        proof {
            assert(bytes_mut_view(*buf) =~= bytes_mut_view(*old(buf)) + self.wire());
        }
    }
}

impl ToBytes for Email {
    open spec fn wire(&self) -> Seq<u8> {
        self@
    }

    fn to_bytes_into(&self, buf: &mut bytes::BytesMut) {
        put_bytes(buf, self.bytes());
    }
}

impl ToBytes for Domain {
    open spec fn wire(&self) -> Seq<u8> {
        self@
    }

    fn to_bytes_into(&self, buf: &mut bytes::BytesMut) {
        put_bytes(buf, self.bytes());
    }
}

impl ToBytes for XText {
    open spec fn wire(&self) -> Seq<u8> {
        self@
    }

    fn to_bytes_into(&self, buf: &mut bytes::BytesMut) {
        put_bytes(buf, self.bytes());
    }
}

impl ToBytes for Base64 {
    open spec fn wire(&self) -> Seq<u8> {
        self@
    }

    fn to_bytes_into(&self, buf: &mut bytes::BytesMut) {
        put_bytes(buf, self.bytes());
    }
}

impl ToBytes for Address {
    open spec fn wire(&self) -> Seq<u8> {
        self@
    }

    fn to_bytes_into(&self, buf: &mut bytes::BytesMut) {
        put_bytes(buf, self.bytes());
    }
}

} // verus!
