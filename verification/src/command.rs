//! SMTP commands and the single-command parser: one command line, already
//! stripped of its CRLF, read into a typed value.

use vstd::prelude::*;

use crate::bytebuf::{bytes_as_slice, bytes_new, bytes_slice, bytes_view};
use crate::error::Error;
use crate::grammar::{
    eq_bytes, eq_ci, find_byte, lemma_find_absent, lemma_find_found, parse_decimal, spec_dec_val,
    spec_find, spec_is_dec, spec_is_domain, spec_upper, Decimal,
};
use crate::ip::{parse_ipv4, parse_ipv6, spec_ipv4_seg, spec_ipv6_segs, spec_is_ipv4, spec_is_ipv6,
    IpAddr, IpV};
use crate::mail::{
    spec_fold_mail_params, spec_lit_null_path, Mail, MailV, ReversePath, ReversePathV, ANGLE_CLOSE,
    ANGLE_OPEN,
};
use crate::rcpt::{spec_fold_rcpt_params, Rcpt, RcptV};
use crate::tokens::{spec_tokens, Parameters, Tokens};
use crate::types::{
    spec_domain_canon, spec_first_colon, spec_ipv6_tag, spec_is_address, spec_is_email, Address,
    Base64, Domain, Email, BRACKET_CLOSE, BRACKET_OPEN, COLON,
};

verus! {

/// ` `, the token separator of a command line.
pub const SPACE: u8 = 0x20;

/// The bytes `HELO`.
pub open spec fn spec_lit_helo() -> Seq<u8> {
    seq![0x48u8, 0x45u8, 0x4cu8, 0x4fu8]
}

/// The bytes `EHLO`.
pub open spec fn spec_lit_ehlo() -> Seq<u8> {
    seq![0x45u8, 0x48u8, 0x4cu8, 0x4fu8]
}

/// The bytes `MAIL`.
pub open spec fn spec_lit_mail() -> Seq<u8> {
    seq![0x4du8, 0x41u8, 0x49u8, 0x4cu8]
}

/// The bytes `RCPT`.
pub open spec fn spec_lit_rcpt() -> Seq<u8> {
    seq![0x52u8, 0x43u8, 0x50u8, 0x54u8]
}

/// The bytes `DATA`.
pub open spec fn spec_lit_data() -> Seq<u8> {
    seq![0x44u8, 0x41u8, 0x54u8, 0x41u8]
}

/// The bytes `RSET`.
pub open spec fn spec_lit_rset() -> Seq<u8> {
    seq![0x52u8, 0x53u8, 0x45u8, 0x54u8]
}

/// The bytes `NOOP`.
pub open spec fn spec_lit_noop() -> Seq<u8> {
    seq![0x4eu8, 0x4fu8, 0x4fu8, 0x50u8]
}

/// The bytes `QUIT`.
pub open spec fn spec_lit_quit() -> Seq<u8> {
    seq![0x51u8, 0x55u8, 0x49u8, 0x54u8]
}

/// The bytes `BDAT`.
pub open spec fn spec_lit_bdat() -> Seq<u8> {
    seq![0x42u8, 0x44u8, 0x41u8, 0x54u8]
}

/// The bytes `LAST`.
pub open spec fn spec_lit_last() -> Seq<u8> {
    seq![0x4cu8, 0x41u8, 0x53u8, 0x54u8]
}

/// The bytes `FROM:`.
pub open spec fn spec_lit_from_colon() -> Seq<u8> {
    seq![0x46u8, 0x52u8, 0x4fu8, 0x4du8, 0x3au8]
}

/// The bytes `TO:`.
pub open spec fn spec_lit_to_colon() -> Seq<u8> {
    seq![0x54u8, 0x4fu8, 0x3au8]
}

/// # Authentication Mechanisms
///
/// The closed set of SASL mechanism names the serializer can emit.
#[derive(Debug, Clone, Copy, PartialEq, Eq, Structural, Hash)]
pub enum Mechanism {
    Anonymous,
    CramMd5,
    DigestMd5,
    Gssapi,
    Login,
    Ntlm,
    OAuthBearer,
    Plain,
    ScramSha1,
    ScramSha256,
    XOAuth2,
}

/// Domain, IP address, or address literal identifying an SMTP client.
#[derive(Debug)]
pub enum Host {
    Domain(Domain),
    Ip(IpAddr),
    Address(Address),
}

/// The mathematical value of a [`Host`].
pub enum HostV {
    Domain(Seq<u8>),
    Ip(IpV),
    Address(Seq<u8>),
}

impl View for Host {
    type V = HostV;

    open spec fn view(&self) -> HostV {
        match self {
            Host::Domain(d) => HostV::Domain(d@),
            Host::Ip(ip) => HostV::Ip(ip@),
            Host::Address(a) => HostV::Address(a@),
        }
    }
}

impl Host {
    /// Every held value satisfies its grammar.
    pub open spec fn wf(&self) -> bool {
        match self {
            Host::Domain(d) => d.wf(),
            Host::Ip(_) => true,
            Host::Address(a) => a.wf(),
        }
    }
}

/// # Binary Data Chunk
#[derive(Debug)]
pub struct Bdat {
    /// Expected size of this chunk of data.
    pub size: usize,
    /// Whether this is the last chunk of data.
    pub last: bool,
    /// Binary data payload.
    pub payload: bytes::Bytes,
}

/// The mathematical value of a [`Bdat`].
pub struct BdatV {
    pub size: usize,
    pub last: bool,
    pub payload: Seq<u8>,
}

impl View for Bdat {
    type V = BdatV;

    open spec fn view(&self) -> BdatV {
        BdatV { size: self.size, last: self.last, payload: bytes_view(self.payload) }
    }
}

/// # SMTP Commands
///
/// The sum of every command the parser produces or the serializer emits.
#[derive(Debug)]
pub enum Command {
    /// Identify the client to the server.
    Helo(Host),
    /// Identify the client and request extended SMTP.
    Ehlo(Host),
    /// Initiate a mail transaction.
    Mail(Mail),
    /// Identify the recipient of the mail transaction.
    Rcpt(Rcpt),
    /// Initiate the transfer of the message data.
    Data(bytes::Bytes),
    /// Initiate the transfer of binary data.
    Bdat(Bdat),
    /// Reset the current mail transaction.
    Rset,
    /// Verify an email address.
    Vrfy,
    /// Expand a mailing list.
    Expn,
    /// Request help from the server.
    Help,
    /// Do nothing.
    Noop,
    /// Terminate the session.
    Quit,
    /// Initiate a TLS session.
    StartTls,
    /// Authenticate the client to the server.
    Auth { mechanism: Mechanism, initial_response: Option<Base64> },
}

/// The mathematical value of a [`Command`].
pub enum CommandV {
    Helo(HostV),
    Ehlo(HostV),
    Mail(MailV),
    Rcpt(RcptV),
    Data(Seq<u8>),
    Bdat(BdatV),
    Rset,
    Vrfy,
    Expn,
    Help,
    Noop,
    Quit,
    StartTls,
    Auth { mechanism: Mechanism, initial_response: Option<Seq<u8>> },
}

impl View for Command {
    type V = CommandV;

    open spec fn view(&self) -> CommandV {
        match self {
            Command::Helo(h) => CommandV::Helo(h@),
            Command::Ehlo(h) => CommandV::Ehlo(h@),
            Command::Mail(m) => CommandV::Mail(m@),
            Command::Rcpt(r) => CommandV::Rcpt(r@),
            Command::Data(p) => CommandV::Data(bytes_view(*p)),
            Command::Bdat(b) => CommandV::Bdat(b@),
            Command::Rset => CommandV::Rset,
            Command::Vrfy => CommandV::Vrfy,
            Command::Expn => CommandV::Expn,
            Command::Help => CommandV::Help,
            Command::Noop => CommandV::Noop,
            Command::Quit => CommandV::Quit,
            Command::StartTls => CommandV::StartTls,
            Command::Auth { mechanism, initial_response } => CommandV::Auth {
                mechanism: *mechanism,
                initial_response: match initial_response {
                    Some(b) => Some(b@),
                    None => None,
                },
            },
        }
    }
}

impl Command {
    /// Every held value satisfies its grammar.
    pub open spec fn wf(&self) -> bool {
        match self {
            Command::Helo(h) => h.wf(),
            Command::Ehlo(h) => h.wf(),
            Command::Mail(m) => m.wf(),
            Command::Rcpt(r) => r.wf(),
            Command::Auth { mechanism: _, initial_response: Some(b) } => b.wf(),
            _ => true,
        }
    }
}

/// How a host argument reads: a bracketed IPv4 literal, a bracketed
/// `IPv6:` literal, another bracketed address literal with a non-empty tag,
/// or a bare domain.
pub open spec fn spec_parse_host(s: Seq<u8>) -> Result<HostV, Error> {
    if s.len() >= 2 && s[0] == BRACKET_OPEN && s[s.len() - 1] == BRACKET_CLOSE {
        let inner = s.subrange(1, s.len() - 1);
        if spec_is_ipv4(inner) {
            Ok(HostV::Ip(IpV::V4(Seq::<int>::new(4, |i: int| spec_ipv4_seg(inner, i)))))
        } else {
            match spec_find(inner, COLON) {
                Some(j) => if inner.take(j) == spec_ipv6_tag() {
                    if spec_is_ipv6(inner.skip(j + 1)) {
                        Ok(HostV::Ip(IpV::V6(spec_ipv6_segs(inner.skip(j + 1)))))
                    } else {
                        Err(Error::InvalidSyntax)
                    }
                } else if j == 0 {
                    Err(Error::InvalidSyntax)
                } else {
                    Ok(HostV::Address(s))
                },
                None => Err(Error::InvalidSyntax),
            }
        }
    } else {
        if spec_is_domain(s) {
            Ok(HostV::Domain(spec_domain_canon(s)))
        } else {
            Err(Error::InvalidSyntax)
        }
    }
}

/// How a `HELO` argument list reads.
pub open spec fn spec_helo(args: Seq<Seq<u8>>) -> Result<CommandV, Error> {
    if args.len() == 0 {
        Err(Error::MissingParameter)
    } else if args.len() >= 2 {
        Err(Error::UnexpectedParameter)
    } else if spec_is_domain(args[0]) {
        Ok(CommandV::Helo(HostV::Domain(spec_domain_canon(args[0]))))
    } else {
        Err(Error::InvalidSyntax)
    }
}

/// How an `EHLO` argument list reads.
pub open spec fn spec_ehlo(args: Seq<Seq<u8>>) -> Result<CommandV, Error> {
    if args.len() == 0 {
        Err(Error::MissingParameter)
    } else if args.len() >= 2 {
        Err(Error::UnexpectedParameter)
    } else {
        match spec_parse_host(args[0]) {
            Ok(h) => Ok(CommandV::Ehlo(h)),
            Err(e) => Err(e),
        }
    }
}

/// How a `MAIL` argument list reads: a `FROM:` path, then parameters.
pub open spec fn spec_mail_cmd(args: Seq<Seq<u8>>) -> Result<CommandV, Error> {
    if args.len() == 0 {
        Err(Error::MissingParameter)
    } else {
        let t0 = args[0];
        if !(t0.len() >= 5 && spec_upper(t0.take(5)) == spec_lit_from_colon()) {
            Err(Error::InvalidSyntax)
        } else {
            let rp = t0.skip(5);
            let from = if rp == spec_lit_null_path() {
                Ok(ReversePathV::Null)
            } else if rp.len() >= 2 && rp[0] == ANGLE_OPEN && rp[rp.len() - 1] == ANGLE_CLOSE
                && spec_is_email(rp.subrange(1, rp.len() - 1)) {
                Ok(ReversePathV::Email(rp.subrange(1, rp.len() - 1)))
            } else {
                Err(Error::InvalidSyntax)
            };
            match from {
                Err(e) => Err(e),
                Ok(from) => match spec_fold_mail_params(
                    MailV { size: None, ret: None, envid: None, auth: None, body: None, from },
                    args.skip(1),
                ) {
                    Ok(m) => Ok(CommandV::Mail(m)),
                    Err(e) => Err(e),
                },
            }
        }
    }
}

/// How a `RCPT` argument list reads: a `TO:` path, then parameters.
pub open spec fn spec_rcpt_cmd(args: Seq<Seq<u8>>) -> Result<CommandV, Error> {
    if args.len() == 0 {
        Err(Error::MissingParameter)
    } else {
        let t0 = args[0];
        if !(t0.len() >= 3 && spec_upper(t0.take(3)) == spec_lit_to_colon()) {
            Err(Error::InvalidSyntax)
        } else {
            let rp = t0.skip(3);
            if rp.len() >= 2 && rp[0] == ANGLE_OPEN && rp[rp.len() - 1] == ANGLE_CLOSE
                && spec_is_email(rp.subrange(1, rp.len() - 1)) {
                match spec_fold_rcpt_params(
                    RcptV { orcpt: None, notify: None, to: rp.subrange(1, rp.len() - 1) },
                    args.skip(1),
                ) {
                    Ok(m) => Ok(CommandV::Rcpt(m)),
                    Err(e) => Err(e),
                }
            } else {
                Err(Error::InvalidSyntax)
            }
        }
    }
}

/// How a `BDAT` argument list reads: a decimal size, an optional `LAST`.
pub open spec fn spec_bdat_cmd(args: Seq<Seq<u8>>) -> Result<CommandV, Error> {
    if args.len() == 0 {
        Err(Error::MissingParameter)
    } else if !spec_is_dec(args[0]) {
        Err(Error::InvalidSyntax)
    } else if spec_dec_val(args[0]) > usize::MAX {
        Err(Error::TooLong)
    } else if args.len() == 1 {
        Ok(
            CommandV::Bdat(
                BdatV {
                    size: spec_dec_val(args[0]) as usize,
                    last: false,
                    payload: Seq::<u8>::empty(),
                },
            ),
        )
    } else if spec_upper(args[1]) != spec_lit_last() {
        Err(Error::UnexpectedParameter)
    } else if args.len() >= 3 {
        Err(Error::UnexpectedParameter)
    } else {
        Ok(
            CommandV::Bdat(
                BdatV {
                    size: spec_dec_val(args[0]) as usize,
                    last: true,
                    payload: Seq::<u8>::empty(),
                },
            ),
        )
    }
}

/// How an argument list for a command that takes none reads.
pub open spec fn spec_no_args(args: Seq<Seq<u8>>, c: CommandV) -> Result<CommandV, Error> {
    if args.len() == 0 {
        Ok(c)
    } else {
        Err(Error::UnexpectedParameter)
    }
}

/// How one command line reads: the verb dispatches, case-insensitively, on
/// the space-separated tokens.
pub open spec fn spec_parse_command(line: Seq<u8>) -> Result<CommandV, Error> {
    let toks = spec_tokens(line, SPACE);
    if toks.len() == 0 {
        Err(Error::Empty)
    } else {
        let verb = spec_upper(toks[0]);
        let args = toks.skip(1);
        if verb == spec_lit_helo() {
            spec_helo(args)
        } else if verb == spec_lit_ehlo() {
            spec_ehlo(args)
        } else if verb == spec_lit_mail() {
            spec_mail_cmd(args)
        } else if verb == spec_lit_rcpt() {
            spec_rcpt_cmd(args)
        } else if verb == spec_lit_data() {
            spec_no_args(args, CommandV::Data(Seq::<u8>::empty()))
        } else if verb == spec_lit_rset() {
            spec_no_args(args, CommandV::Rset)
        } else if verb == spec_lit_noop() {
            spec_no_args(args, CommandV::Noop)
        } else if verb == spec_lit_quit() {
            spec_no_args(args, CommandV::Quit)
        } else if verb == spec_lit_bdat() {
            spec_bdat_cmd(args)
        } else {
            Err(Error::CommandNotImplemented)
        }
    }
}

impl Host {
    /// Read one host argument.
    pub fn parse(input: bytes::Bytes) -> (r: Result<Host, Error>)
        ensures
            match r {
                Ok(h) => spec_parse_host(bytes_view(input)) == Ok::<HostV, Error>(h@) && h.wf(),
                Err(e) => spec_parse_host(bytes_view(input)) == Err::<HostV, Error>(e),
            },
    {
        let s = bytes_as_slice(&input);
        let n = s.len();
        let ghost whole = bytes_view(input);
        if !(n >= 2 && s[0] == BRACKET_OPEN && s[n - 1] == BRACKET_CLOSE) {
            return match Domain::parse(input) {
                Ok(d) => Ok(Host::Domain(d)),
                Err(e) => Err(e),
            };
        }
        let inner = vstd::slice::slice_subrange(s, 1, n - 1);
        let ghost innerv = whole.subrange(1, whole.len() - 1);
        proof {
            assert(inner@ =~= innerv);
        }
        if let Some(ip) = parse_ipv4(inner) {
            proof {
                assert(Seq::<int>::new(4, |i: int| ip.octets@[i] as int) =~= Seq::<int>::new(
                    4,
                    |i: int| spec_ipv4_seg(innerv, i),
                ));
            }
            return Ok(Host::Ip(IpAddr::V4(ip)));
        }
        let colon = match find_byte(inner, 0, COLON) {
            Some(j) => j,
            None => {
                proof {
                    lemma_find_absent(innerv, COLON);
                }
                return Err(Error::InvalidSyntax);
            },
        };
        proof {
            lemma_find_found(innerv, COLON, colon as int);
        }
        let tag = vstd::slice::slice_subrange(inner, 0, colon);
        proof {
            assert(tag@ =~= innerv.take(colon as int));
            assert(spec_ipv6_tag() =~= seq![0x49u8, 0x50u8, 0x76u8, 0x36u8]);
        }
        if eq_bytes(tag, &[0x49, 0x50, 0x76, 0x36]) {
            let content = vstd::slice::slice_subrange(inner, colon + 1, inner.len());
            proof {
                assert(content@ =~= innerv.skip(colon + 1));
            }
            return match parse_ipv6(content) {
                Some(ip) => {
                    proof {
                        assert(Seq::<int>::new(8, |i: int| ip.segments@[i] as int)
                            =~= spec_ipv6_segs(innerv.skip(colon + 1)));
                    }
                    Ok(Host::Ip(IpAddr::V6(ip)))
                },
                None => Err(Error::InvalidSyntax),
            };
        }
        if colon == 0 {
            return Err(Error::InvalidSyntax);
        }
        proof {
            assert(spec_first_colon(innerv, colon as int));
            assert(spec_is_address(whole));
        }
        let addr = Address::new_unchecked(input);
        Ok(Host::Address(addr))
    }
}

/// Read a `HELO` argument list.
fn helo(tokens: Tokens) -> (r: Result<Command, Error>)
    ensures
        match r {
            Ok(c) => spec_helo(tokens@) == Ok::<CommandV, Error>(c@) && c.wf(),
            Err(e) => spec_helo(tokens@) == Err::<CommandV, Error>(e),
        },
{
    let mut t = tokens;
    let a = t.next();
    let b = t.next();
    match (a, b) {
        (Some(d), None) => match Domain::parse(d) {
            Ok(d) => Ok(Command::Helo(Host::Domain(d))),
            Err(e) => Err(e),
        },
        (Some(_), Some(_)) => Err(Error::UnexpectedParameter),
        (None, _) => Err(Error::MissingParameter),
    }
}

/// Read an `EHLO` argument list.
fn ehlo(tokens: Tokens) -> (r: Result<Command, Error>)
    ensures
        match r {
            Ok(c) => spec_ehlo(tokens@) == Ok::<CommandV, Error>(c@) && c.wf(),
            Err(e) => spec_ehlo(tokens@) == Err::<CommandV, Error>(e),
        },
{
    let mut t = tokens;
    let a = t.next();
    let b = t.next();
    match (a, b) {
        (Some(d), None) => match Host::parse(d) {
            Ok(h) => Ok(Command::Ehlo(h)),
            Err(e) => Err(e),
        },
        (Some(_), Some(_)) => Err(Error::UnexpectedParameter),
        (None, _) => Err(Error::MissingParameter),
    }
}

/// Read a `MAIL` argument list.
fn mail(tokens: Tokens) -> (r: Result<Command, Error>)
    ensures
        match r {
            Ok(c) => spec_mail_cmd(tokens@) == Ok::<CommandV, Error>(c@) && c.wf(),
            Err(e) => spec_mail_cmd(tokens@) == Err::<CommandV, Error>(e),
        },
{
    let mut t = tokens;
    let t0 = match t.next() {
        Some(t0) => t0,
        None => {
            return Err(Error::MissingParameter);
        },
    };
    let s = bytes_as_slice(&t0);
    let n = s.len();
    let ghost t0v = bytes_view(t0);
    if n < 5 {
        return Err(Error::InvalidSyntax);
    }
    let prefix = vstd::slice::slice_subrange(s, 0, 5);
    proof {
        assert(prefix@ =~= t0v.take(5));
        assert(spec_lit_from_colon() =~= seq![0x46u8, 0x52u8, 0x4fu8, 0x4du8, 0x3au8]);
    }
    if !eq_ci(prefix, &[0x46, 0x52, 0x4f, 0x4d, 0x3a]) {
        return Err(Error::InvalidSyntax);
    }
    let rp = bytes_slice(&t0, 5, n);
    let ghost rpv = t0v.skip(5);
    proof {
        assert(bytes_view(rp) =~= rpv);
        assert(spec_lit_null_path() =~= seq![0x3cu8, 0x3eu8]);
    }
    let rs = bytes_as_slice(&rp);
    let from: ReversePath = if rs.len() == 2 && rs[0] == ANGLE_OPEN && rs[1] == ANGLE_CLOSE {
        proof {
            assert(rpv =~= spec_lit_null_path());
        }
        ReversePath::Null
    } else {
        proof {
            assert(rpv != spec_lit_null_path());
        }
        if !(rs.len() >= 2 && rs[0] == ANGLE_OPEN && rs[rs.len() - 1] == ANGLE_CLOSE) {
            return Err(Error::InvalidSyntax);
        }
        let inner = bytes_slice(&rp, 1, rs.len() - 1);
        proof {
            assert(bytes_view(inner) =~= rpv.subrange(1, rpv.len() - 1));
        }
        match Email::parse(inner) {
            Ok(e) => ReversePath::Email(e),
            Err(e) => {
                return Err(e);
            },
        }
    };
    let mut m = Mail { size: None, ret: None, envid: None, auth: None, body: None, from };
    proof {
        assert(m.wf());
    }
    match m.parameters(t) {
        Ok(()) => Ok(Command::Mail(m)),
        Err(e) => Err(e),
    }
}

/// Read a `RCPT` argument list.
fn rcpt(tokens: Tokens) -> (r: Result<Command, Error>)
    ensures
        match r {
            Ok(c) => spec_rcpt_cmd(tokens@) == Ok::<CommandV, Error>(c@) && c.wf(),
            Err(e) => spec_rcpt_cmd(tokens@) == Err::<CommandV, Error>(e),
        },
{
    let mut t = tokens;
    let t0 = match t.next() {
        Some(t0) => t0,
        None => {
            return Err(Error::MissingParameter);
        },
    };
    let s = bytes_as_slice(&t0);
    let n = s.len();
    let ghost t0v = bytes_view(t0);
    if n < 3 {
        return Err(Error::InvalidSyntax);
    }
    let prefix = vstd::slice::slice_subrange(s, 0, 3);
    proof {
        assert(prefix@ =~= t0v.take(3));
        assert(spec_lit_to_colon() =~= seq![0x54u8, 0x4fu8, 0x3au8]);
    }
    if !eq_ci(prefix, &[0x54, 0x4f, 0x3a]) {
        return Err(Error::InvalidSyntax);
    }
    let rp = bytes_slice(&t0, 3, n);
    let ghost rpv = t0v.skip(3);
    proof {
        assert(bytes_view(rp) =~= rpv);
    }
    let rs = bytes_as_slice(&rp);
    if !(rs.len() >= 2 && rs[0] == ANGLE_OPEN && rs[rs.len() - 1] == ANGLE_CLOSE) {
        return Err(Error::InvalidSyntax);
    }
    let inner = bytes_slice(&rp, 1, rs.len() - 1);
    proof {
        assert(bytes_view(inner) =~= rpv.subrange(1, rpv.len() - 1));
    }
    let to = match Email::parse(inner) {
        Ok(e) => e,
        Err(e) => {
            return Err(e);
        },
    };
    let mut m = Rcpt { orcpt: None, notify: None, to };
    proof {
        assert(m.wf());
    }
    match m.parameters(t) {
        Ok(()) => Ok(Command::Rcpt(m)),
        Err(e) => Err(e),
    }
}

/// Read an argument list for a command that takes none.
fn no_args(tokens: Tokens, c: Command) -> (r: Result<Command, Error>)
    ensures
        match r {
            Ok(out) => spec_no_args(tokens@, c@) == Ok::<CommandV, Error>(out@) && out == c,
            Err(e) => spec_no_args(tokens@, c@) == Err::<CommandV, Error>(e),
        },
{
    let mut t = tokens;
    match t.next() {
        None => Ok(c),
        Some(_) => Err(Error::UnexpectedParameter),
    }
}

/// Read a `BDAT` argument list.
fn bdat(tokens: Tokens) -> (r: Result<Command, Error>)
    ensures
        match r {
            Ok(c) => spec_bdat_cmd(tokens@) == Ok::<CommandV, Error>(c@) && c.wf(),
            Err(e) => spec_bdat_cmd(tokens@) == Err::<CommandV, Error>(e),
        },
{
    let mut t = tokens;
    let t0 = match t.next() {
        Some(t0) => t0,
        None => {
            return Err(Error::MissingParameter);
        },
    };
    let size = match parse_decimal(bytes_as_slice(&t0)) {
        Decimal::Value(v) => v,
        Decimal::Overflow => {
            return Err(Error::TooLong);
        },
        Decimal::Malformed => {
            return Err(Error::InvalidSyntax);
        },
    };
    let last = match t.next() {
        None => {
            let payload = bytes_new();
            return Ok(Command::Bdat(Bdat { size, last: false, payload }));
        },
        Some(t1) => {
            proof {
                assert(spec_lit_last() =~= seq![0x4cu8, 0x41u8, 0x53u8, 0x54u8]);
            }
            if eq_ci(bytes_as_slice(&t1), &[0x4c, 0x41, 0x53, 0x54]) {
                true
            } else {
                return Err(Error::UnexpectedParameter);
            }
        },
    };
    match t.next() {
        None => {
            let payload = bytes_new();
            Ok(Command::Bdat(Bdat { size, last, payload }))
        },
        Some(_) => Err(Error::UnexpectedParameter),
    }
}

impl Command {
    /// Read one command line, already stripped of its CRLF.
    pub fn parse(input: bytes::Bytes) -> (r: Result<Command, Error>)
        ensures
            match r {
                Ok(c) => spec_parse_command(bytes_view(input)) == Ok::<CommandV, Error>(c@)
                    && c.wf(),
                Err(e) => spec_parse_command(bytes_view(input)) == Err::<CommandV, Error>(e),
            },
    {
        let ghost line = bytes_view(input);
        let mut tokens = Tokens::new(input, SPACE);
        let verb = match tokens.next() {
            Some(v) => v,
            None => {
                return Err(Error::Empty);
            },
        };
        let vs = bytes_as_slice(&verb);
        proof {
            assert(spec_lit_helo() =~= seq![0x48u8, 0x45u8, 0x4cu8, 0x4fu8]);
            assert(spec_lit_ehlo() =~= seq![0x45u8, 0x48u8, 0x4cu8, 0x4fu8]);
            assert(spec_lit_mail() =~= seq![0x4du8, 0x41u8, 0x49u8, 0x4cu8]);
            assert(spec_lit_rcpt() =~= seq![0x52u8, 0x43u8, 0x50u8, 0x54u8]);
            assert(spec_lit_data() =~= seq![0x44u8, 0x41u8, 0x54u8, 0x41u8]);
            assert(spec_lit_rset() =~= seq![0x52u8, 0x53u8, 0x45u8, 0x54u8]);
            assert(spec_lit_noop() =~= seq![0x4eu8, 0x4fu8, 0x4fu8, 0x50u8]);
            assert(spec_lit_quit() =~= seq![0x51u8, 0x55u8, 0x49u8, 0x54u8]);
            assert(spec_lit_bdat() =~= seq![0x42u8, 0x44u8, 0x41u8, 0x54u8]);
        }
        if eq_ci(vs, &[0x48, 0x45, 0x4c, 0x4f]) {
            helo(tokens)
        } else if eq_ci(vs, &[0x45, 0x48, 0x4c, 0x4f]) {
            ehlo(tokens)
        } else if eq_ci(vs, &[0x4d, 0x41, 0x49, 0x4c]) {
            mail(tokens)
        } else if eq_ci(vs, &[0x52, 0x43, 0x50, 0x54]) {
            rcpt(tokens)
        } else if eq_ci(vs, &[0x44, 0x41, 0x54, 0x41]) {
            let payload = bytes_new();
            no_args(tokens, Command::Data(payload))
        } else if eq_ci(vs, &[0x52, 0x53, 0x45, 0x54]) {
            no_args(tokens, Command::Rset)
        } else if eq_ci(vs, &[0x4e, 0x4f, 0x4f, 0x50]) {
            no_args(tokens, Command::Noop)
        } else if eq_ci(vs, &[0x51, 0x55, 0x49, 0x54]) {
            no_args(tokens, Command::Quit)
        } else if eq_ci(vs, &[0x42, 0x44, 0x41, 0x54]) {
            bdat(tokens)
        } else {
            Err(Error::CommandNotImplemented)
        }
    }
}

} // verus!
