//! `MAIL` command parameters: typed values and their parsing.

use vstd::prelude::*;

use crate::bytebuf::{bytes_as_slice, bytes_slice, bytes_view};
use crate::error::Error;
use crate::grammar::{eq_ci, find_byte, lemma_find_absent, lemma_find_found, parse_decimal,
    spec_dec_val, spec_find, spec_is_dec, spec_upper, Decimal};
use crate::tokens::{Parameters, Tokens};
use crate::types::Email;
use crate::xtext::{spec_is_xtext, XText};

verus! {

/// `=`, separating a parameter name from its value.
pub const EQUALS: u8 = 0x3d;

/// `<`, opening an angle-bracketed path.
pub const ANGLE_OPEN: u8 = 0x3c;

/// `>`, closing an angle-bracketed path.
pub const ANGLE_CLOSE: u8 = 0x3e;

/// The bytes `SIZE`.
pub open spec fn spec_lit_size() -> Seq<u8> {
    seq![0x53u8, 0x49u8, 0x5au8, 0x45u8]
}

/// The bytes `RET`.
pub open spec fn spec_lit_ret() -> Seq<u8> {
    seq![0x52u8, 0x45u8, 0x54u8]
}

/// The bytes `ENVID`.
pub open spec fn spec_lit_envid() -> Seq<u8> {
    seq![0x45u8, 0x4eu8, 0x56u8, 0x49u8, 0x44u8]
}

/// The bytes `AUTH`.
pub open spec fn spec_lit_auth() -> Seq<u8> {
    seq![0x41u8, 0x55u8, 0x54u8, 0x48u8]
}

/// The bytes `BODY`.
pub open spec fn spec_lit_body() -> Seq<u8> {
    seq![0x42u8, 0x4fu8, 0x44u8, 0x59u8]
}

/// The bytes `FULL`.
pub open spec fn spec_lit_full() -> Seq<u8> {
    seq![0x46u8, 0x55u8, 0x4cu8, 0x4cu8]
}

/// The bytes `HDRS`.
pub open spec fn spec_lit_hdrs() -> Seq<u8> {
    seq![0x48u8, 0x44u8, 0x52u8, 0x53u8]
}

/// The bytes `7BIT`.
pub open spec fn spec_lit_7bit() -> Seq<u8> {
    seq![0x37u8, 0x42u8, 0x49u8, 0x54u8]
}

/// The bytes `8BITMIME`.
pub open spec fn spec_lit_8bitmime() -> Seq<u8> {
    seq![0x38u8, 0x42u8, 0x49u8, 0x54u8, 0x4du8, 0x49u8, 0x4du8, 0x45u8]
}

/// The bytes `BINARYMIME`.
pub open spec fn spec_lit_binarymime() -> Seq<u8> {
    seq![0x42u8, 0x49u8, 0x4eu8, 0x41u8, 0x52u8, 0x59u8, 0x4du8, 0x49u8, 0x4du8, 0x45u8]
}

/// The bytes `<>`, the null path.
pub open spec fn spec_lit_null_path() -> Seq<u8> {
    seq![0x3cu8, 0x3eu8]
}

/// # Return
///
/// Whether the full message or only its headers should come back in a
/// failure notification.
#[derive(Debug, Clone, Copy, PartialEq, Eq, Structural, Hash)]
pub enum Ret {
    /// Request that only the headers of the message be returned.
    Headers,
    /// Request that the entire message be returned.
    Full,
}

/// # Body
///
/// The body type of the message.
#[derive(Debug, Clone, Copy, PartialEq, Eq, Structural, Hash)]
pub enum Body {
    SevenBit,
    EightBitMime,
    BinaryMime,
}

/// # Envelope ID
///
/// A unique identifier that tracks the message through the mail system.
#[derive(Debug)]
pub struct EnvId(pub XText);

impl View for EnvId {
    type V = Seq<u8>;

    open spec fn view(&self) -> Seq<u8> {
        self.0@
    }
}

impl EnvId {
    /// The xtext grammar holds of the identifier.
    pub open spec fn wf(&self) -> bool {
        self.0.wf()
    }
}

/// # Authentication Identity
///
/// The identity associated with an individual message.
#[derive(Debug)]
pub enum Auth {
    Anonymous,
    Identity(XText),
}

/// The mathematical value of an [`Auth`].
pub enum AuthV {
    Anonymous,
    Identity(Seq<u8>),
}

impl View for Auth {
    type V = AuthV;

    open spec fn view(&self) -> AuthV {
        match self {
            Auth::Anonymous => AuthV::Anonymous,
            Auth::Identity(x) => AuthV::Identity(x@),
        }
    }
}

impl Auth {
    /// Any identity satisfies the xtext grammar.
    pub open spec fn wf(&self) -> bool {
        match self {
            Auth::Anonymous => true,
            Auth::Identity(x) => x.wf(),
        }
    }
}

/// # Reverse Path
///
/// The origin of the message: an email address, or null (`<>`).
#[derive(Debug)]
pub enum ReversePath {
    /// The reverse path is null (`<>`).
    Null,
    /// The reverse path is an email address.
    Email(Email),
}

/// The mathematical value of a [`ReversePath`].
pub enum ReversePathV {
    Null,
    Email(Seq<u8>),
}

impl View for ReversePath {
    type V = ReversePathV;

    open spec fn view(&self) -> ReversePathV {
        match self {
            ReversePath::Null => ReversePathV::Null,
            ReversePath::Email(e) => ReversePathV::Email(e@),
        }
    }
}

impl ReversePath {
    /// Any email satisfies the email grammar.
    pub open spec fn wf(&self) -> bool {
        match self {
            ReversePath::Null => true,
            ReversePath::Email(e) => e.wf(),
        }
    }
}

/// `MAIL` command parameters.
#[derive(Debug)]
pub struct Mail {
    /// `SIZE`
    pub size: Option<usize>,
    /// `RET`
    pub ret: Option<Ret>,
    /// `ENVID`
    pub envid: Option<EnvId>,
    /// `AUTH`
    pub auth: Option<Auth>,
    /// `BODY`
    pub body: Option<Body>,
    /// `FROM:`
    pub from: ReversePath,
}

/// The mathematical value of a [`Mail`].
pub struct MailV {
    pub size: Option<usize>,
    pub ret: Option<Ret>,
    pub envid: Option<Seq<u8>>,
    pub auth: Option<AuthV>,
    pub body: Option<Body>,
    pub from: ReversePathV,
}

impl View for Mail {
    type V = MailV;

    open spec fn view(&self) -> MailV {
        MailV {
            size: self.size,
            ret: self.ret,
            envid: match self.envid {
                Some(ref e) => Some(e@),
                None => None,
            },
            auth: match self.auth {
                Some(ref a) => Some(a@),
                None => None,
            },
            body: self.body,
            from: self.from@,
        }
    }
}

impl Mail {
    /// Every held value satisfies its grammar.
    pub open spec fn wf(&self) -> bool {
        &&& match self.envid {
            Some(ref e) => e.wf(),
            None => true,
        }
        &&& match self.auth {
            Some(ref a) => a.wf(),
            None => true,
        }
        &&& self.from.wf()
    }
}

/// # `MAIL` Command Parameter
#[derive(Debug)]
pub enum Parameter {
    Size(usize),
    Ret(Ret),
    EnvId(EnvId),
    Auth(Auth),
    Body(Body),
}

/// The mathematical value of a [`Parameter`].
pub enum ParameterV {
    Size(usize),
    Ret(Ret),
    EnvId(Seq<u8>),
    Auth(AuthV),
    Body(Body),
}

impl View for Parameter {
    type V = ParameterV;

    open spec fn view(&self) -> ParameterV {
        match self {
            Parameter::Size(n) => ParameterV::Size(*n),
            Parameter::Ret(r) => ParameterV::Ret(*r),
            Parameter::EnvId(e) => ParameterV::EnvId(e@),
            Parameter::Auth(a) => ParameterV::Auth(a@),
            Parameter::Body(b) => ParameterV::Body(*b),
        }
    }
}

impl Parameter {
    /// Every held value satisfies its grammar.
    pub open spec fn wf(&self) -> bool {
        match self {
            Parameter::EnvId(e) => e.wf(),
            Parameter::Auth(a) => a.wf(),
            _ => true,
        }
    }
}

/// The name and optional value of a `NAME` or `NAME=VALUE` token, split at
/// the first `=`.
pub open spec fn spec_param_key(t: Seq<u8>) -> Seq<u8> {
    match spec_find(t, EQUALS) {
        None => t,
        Some(p) => t.take(p),
    }
}

/// The value of a `NAME=VALUE` token, if any.
pub open spec fn spec_param_value(t: Seq<u8>) -> Option<Seq<u8>> {
    match spec_find(t, EQUALS) {
        None => None,
        Some(p) => Some(t.skip(p + 1)),
    }
}

/// How one `MAIL` parameter token reads: its typed value, or why it is
/// rejected.
pub open spec fn spec_parse_mail_param(t: Seq<u8>) -> Result<ParameterV, Error> {
    let key = spec_upper(spec_param_key(t));
    match spec_param_value(t) {
        Some(v) => if key == spec_lit_size() {
            if spec_is_dec(v) && spec_dec_val(v) <= usize::MAX {
                Ok(ParameterV::Size(spec_dec_val(v) as usize))
            } else {
                Err(Error::InvalidSyntax)
            }
        } else if key == spec_lit_ret() {
            if spec_upper(v) == spec_lit_full() {
                Ok(ParameterV::Ret(Ret::Full))
            } else if spec_upper(v) == spec_lit_hdrs() {
                Ok(ParameterV::Ret(Ret::Headers))
            } else {
                Err(Error::InvalidSyntax)
            }
        } else if key == spec_lit_envid() {
            if spec_is_xtext(v) {
                Ok(ParameterV::EnvId(v))
            } else {
                Err(Error::InvalidSyntax)
            }
        } else if key == spec_lit_auth() {
            if v == spec_lit_null_path() {
                Ok(ParameterV::Auth(AuthV::Anonymous))
            } else if spec_is_xtext(v) {
                Ok(ParameterV::Auth(AuthV::Identity(v)))
            } else {
                Err(Error::InvalidSyntax)
            }
        } else if key == spec_lit_body() {
            if spec_upper(v) == spec_lit_7bit() {
                Ok(ParameterV::Body(Body::SevenBit))
            } else if spec_upper(v) == spec_lit_8bitmime() {
                Ok(ParameterV::Body(Body::EightBitMime))
            } else if spec_upper(v) == spec_lit_binarymime() {
                Ok(ParameterV::Body(Body::BinaryMime))
            } else {
                Err(Error::InvalidSyntax)
            }
        } else {
            Err(Error::InvalidParameter)
        },
        None => Err(Error::InvalidParameter),
    }
}

/// Folding one parameter into the `MAIL` value: repetition overwrites.
pub open spec fn spec_apply_mail_param(m: MailV, p: ParameterV) -> MailV {
    match p {
        ParameterV::Size(n) => MailV { size: Some(n), ..m },
        ParameterV::Ret(r) => MailV { ret: Some(r), ..m },
        ParameterV::EnvId(e) => MailV { envid: Some(e), ..m },
        ParameterV::Auth(a) => MailV { auth: Some(a), ..m },
        ParameterV::Body(b) => MailV { body: Some(b), ..m },
    }
}

/// Folding a token list of parameters into the `MAIL` value, left to right,
/// stopping at the first rejected token.
pub open spec fn spec_fold_mail_params(m: MailV, toks: Seq<Seq<u8>>) -> Result<MailV, Error>
    decreases toks.len(),
{
    if toks.len() == 0 {
        Ok(m)
    } else {
        match spec_parse_mail_param(toks[0]) {
            Err(e) => Err(e),
            Ok(p) => spec_fold_mail_params(spec_apply_mail_param(m, p), toks.skip(1)),
        }
    }
}

/// Split a parameter token at its first `=`, if any.
pub(crate) fn split_param(input: &bytes::Bytes) -> (r: (bytes::Bytes, Option<bytes::Bytes>))
    ensures
        bytes_view(r.0) == spec_param_key(bytes_view(*input)),
        match r.1 {
            Some(v) => spec_param_value(bytes_view(*input)) == Some(bytes_view(v)),
            None => spec_param_value(bytes_view(*input)) == None::<Seq<u8>>,
        },
{
    let s = bytes_as_slice(input);
    let n = s.len();
    match find_byte(s, 0, EQUALS) {
        Some(p) => {
            proof {
                lemma_find_found(bytes_view(*input), EQUALS, p as int);
            }
            let key = bytes_slice(input, 0, p);
            let value = bytes_slice(input, p + 1, n);
            proof {
                assert(bytes_view(key) =~= bytes_view(*input).take(p as int));
                assert(bytes_view(value) =~= bytes_view(*input).skip(p + 1));
            }
            (key, Some(value))
        },
        None => {
            proof {
                lemma_find_absent(bytes_view(*input), EQUALS);
            }
            let key = bytes_slice(input, 0, n);
            proof {
                assert(bytes_view(key) =~= bytes_view(*input));
            }
            (key, None)
        },
    }
}

impl Parameter {
    /// Read one `NAME` or `NAME=VALUE` token as a `MAIL` parameter.
    pub fn parse(input: bytes::Bytes) -> (r: Result<Parameter, Error>)
        ensures
            match r {
                Ok(p) => spec_parse_mail_param(bytes_view(input)) == Ok::<ParameterV, Error>(p@)
                    && p.wf(),
                Err(e) => spec_parse_mail_param(bytes_view(input)) == Err::<ParameterV, Error>(e),
            },
    {
        let (key, value) = split_param(&input);
        let value = match value {
            Some(v) => v,
            None => {
                return Err(Error::InvalidParameter);
            },
        };
        let ks = bytes_as_slice(&key);
        let vs = bytes_as_slice(&value);
        if eq_ci(ks, &[0x53, 0x49, 0x5a, 0x45]) {
            proof {
                assert(spec_lit_size() =~= seq![0x53u8, 0x49u8, 0x5au8, 0x45u8]);
            }
            match parse_decimal(vs) {
                Decimal::Value(n) => Ok(Parameter::Size(n)),
                _ => Err(Error::InvalidSyntax),
            }
        } else if eq_ci(ks, &[0x52, 0x45, 0x54]) {
            proof {
                assert(spec_lit_ret() =~= seq![0x52u8, 0x45u8, 0x54u8]);
                assert(spec_lit_full() =~= seq![0x46u8, 0x55u8, 0x4cu8, 0x4cu8]);
                assert(spec_lit_hdrs() =~= seq![0x48u8, 0x44u8, 0x52u8, 0x53u8]);
            }
            if eq_ci(vs, &[0x46, 0x55, 0x4c, 0x4c]) {
                Ok(Parameter::Ret(Ret::Full))
            } else if eq_ci(vs, &[0x48, 0x44, 0x52, 0x53]) {
                Ok(Parameter::Ret(Ret::Headers))
            } else {
                Err(Error::InvalidSyntax)
            }
        } else if eq_ci(ks, &[0x45, 0x4e, 0x56, 0x49, 0x44]) {
            proof {
                assert(spec_lit_envid() =~= seq![0x45u8, 0x4eu8, 0x56u8, 0x49u8, 0x44u8]);
            }
            match XText::parse(value) {
                Ok(x) => Ok(Parameter::EnvId(EnvId(x))),
                Err(e) => Err(e),
            }
        } else if eq_ci(ks, &[0x41, 0x55, 0x54, 0x48]) {
            proof {
                assert(spec_lit_auth() =~= seq![0x41u8, 0x55u8, 0x54u8, 0x48u8]);
                assert(spec_lit_null_path() =~= seq![0x3cu8, 0x3eu8]);
            }
            if vs.len() == 2 && vs[0] == ANGLE_OPEN && vs[1] == ANGLE_CLOSE {
                proof {
                    assert(bytes_view(value) =~= spec_lit_null_path());
                }
                Ok(Parameter::Auth(Auth::Anonymous))
            } else {
                proof {
                    assert(bytes_view(value) != spec_lit_null_path());
                }
                match XText::parse(value) {
                    Ok(x) => Ok(Parameter::Auth(Auth::Identity(x))),
                    Err(e) => Err(e),
                }
            }
        } else if eq_ci(ks, &[0x42, 0x4f, 0x44, 0x59]) {
            proof {
                assert(spec_lit_body() =~= seq![0x42u8, 0x4fu8, 0x44u8, 0x59u8]);
                assert(spec_lit_7bit() =~= seq![0x37u8, 0x42u8, 0x49u8, 0x54u8]);
                assert(spec_lit_8bitmime() =~= seq![
                    0x38u8,
                    0x42u8,
                    0x49u8,
                    0x54u8,
                    0x4du8,
                    0x49u8,
                    0x4du8,
                    0x45u8,
                ]);
                assert(spec_lit_binarymime() =~= seq![
                    0x42u8,
                    0x49u8,
                    0x4eu8,
                    0x41u8,
                    0x52u8,
                    0x59u8,
                    0x4du8,
                    0x49u8,
                    0x4du8,
                    0x45u8,
                ]);
            }
            if eq_ci(vs, &[0x37, 0x42, 0x49, 0x54]) {
                Ok(Parameter::Body(Body::SevenBit))
            } else if eq_ci(vs, &[0x38, 0x42, 0x49, 0x54, 0x4d, 0x49, 0x4d, 0x45]) {
                Ok(Parameter::Body(Body::EightBitMime))
            } else if eq_ci(vs, &[0x42, 0x49, 0x4e, 0x41, 0x52, 0x59, 0x4d, 0x49, 0x4d, 0x45]) {
                Ok(Parameter::Body(Body::BinaryMime))
            } else {
                Err(Error::InvalidSyntax)
            }
        } else {
            proof {
                lemma_key_unknown(bytes_view(input));
            }
            Err(Error::InvalidParameter)
        }
    }
}

/// A key that matches none of the recognized names is rejected; stated so
/// that each caller branch discharges directly.
proof fn lemma_key_unknown(t: Seq<u8>)
    requires
        spec_param_value(t) is Some,
        spec_upper(spec_param_key(t)) != spec_lit_size(),
        spec_upper(spec_param_key(t)) != spec_lit_ret(),
        spec_upper(spec_param_key(t)) != spec_lit_envid(),
        spec_upper(spec_param_key(t)) != spec_lit_auth(),
        spec_upper(spec_param_key(t)) != spec_lit_body(),
    ensures
        spec_parse_mail_param(t) == Err::<ParameterV, Error>(Error::InvalidParameter),
{
}

impl Parameters for Mail {
    /// Fold the remaining tokens into this value as `MAIL` parameters,
    /// last occurrence winning, stopping at the first rejected token.
    fn parameters(&mut self, tokens: Tokens) -> (r: Result<(), Error>)
        ensures
            match r {
                Ok(()) => spec_fold_mail_params(old(self)@, tokens@) == Ok::<MailV, Error>(
                    final(self)@,
                ) && (old(self).wf() ==> final(self).wf()),
                Err(e) => spec_fold_mail_params(old(self)@, tokens@) == Err::<MailV, Error>(e),
            },
    {
        let ghost m0 = self@;
        let ghost toks0 = tokens@;
        let ghost wf0 = self.wf();
        let mut rest = tokens;
        loop
            invariant
                spec_fold_mail_params(m0, toks0) == spec_fold_mail_params(self@, rest@),
                m0 == old(self)@,
                toks0 == tokens@,
                wf0 == old(self).wf(),
                wf0 ==> self.wf(),
            decreases rest@.len(),
        {
            let t = match rest.next() {
                Some(t) => t,
                None => {
                    return Ok(());
                },
            };
            let p = match Parameter::parse(t) {
                Ok(p) => p,
                Err(e) => {
                    return Err(e);
                },
            };
            match p {
                Parameter::Size(n) => {
                    self.size = Some(n);
                },
                Parameter::Ret(r) => {
                    self.ret = Some(r);
                },
                Parameter::EnvId(e) => {
                    self.envid = Some(e);
                },
                Parameter::Auth(a) => {
                    self.auth = Some(a);
                },
                Parameter::Body(b) => {
                    self.body = Some(b);
                },
            }
        }
    }
}

} // verus!
