//! `RCPT` command parameters: typed values and their parsing.

use vstd::prelude::*;

use crate::bytebuf::{bytes_as_slice, bytes_view};
use crate::error::Error;
use crate::grammar::{eq_ci, spec_upper};
use crate::mail::{split_param, spec_param_key, spec_param_value};
use crate::tokens::{spec_tokens, Parameters, Tokens};
use crate::types::{spec_is_email, Email};

verus! {

/// `,`, separating `NOTIFY` flags.
pub const COMMA: u8 = 0x2c;

/// The `DELAY` bit of a notify set.
pub const NOTIFY_DELAY: u8 = 0x1;

/// The `FAILURE` bit of a notify set.
pub const NOTIFY_FAILURE: u8 = 0x2;

/// The `SUCCESS` bit of a notify set.
pub const NOTIFY_SUCCESS: u8 = 0x4;

/// The bytes `NOTIFY`.
pub open spec fn spec_lit_notify() -> Seq<u8> {
    seq![0x4eu8, 0x4fu8, 0x54u8, 0x49u8, 0x46u8, 0x59u8]
}

/// The bytes `ORCPT`.
pub open spec fn spec_lit_orcpt() -> Seq<u8> {
    seq![0x4fu8, 0x52u8, 0x43u8, 0x50u8, 0x54u8]
}

/// The bytes `NEVER`.
pub open spec fn spec_lit_never() -> Seq<u8> {
    seq![0x4eu8, 0x45u8, 0x56u8, 0x45u8, 0x52u8]
}

/// The bytes `DELAY`.
pub open spec fn spec_lit_delay() -> Seq<u8> {
    seq![0x44u8, 0x45u8, 0x4cu8, 0x41u8, 0x59u8]
}

/// The bytes `FAILURE`.
pub open spec fn spec_lit_failure() -> Seq<u8> {
    seq![0x46u8, 0x41u8, 0x49u8, 0x4cu8, 0x55u8, 0x52u8, 0x45u8]
}

/// The bytes `SUCCESS`.
pub open spec fn spec_lit_success() -> Seq<u8> {
    seq![0x53u8, 0x55u8, 0x43u8, 0x43u8, 0x45u8, 0x53u8, 0x53u8]
}

/// Flags for the `NOTIFY` parameter of the `RCPT` command, held as a bitset
/// over delay, failure and success.  The empty set means `NEVER`.
#[derive(Debug, Clone, Copy, PartialEq, Eq, Structural, Hash)]
pub struct Notify {
    bits: u8,
}

impl View for Notify {
    type V = u8;

    closed spec fn view(&self) -> u8 {
        self.bits
    }
}

impl Notify {
    /// The bits beyond the three flags are clear.
    pub open spec fn wf(&self) -> bool {
        self@ < 8
    }

    /// The set holding exactly the given flags.
    pub fn of_flags(delay: bool, failure: bool, success: bool) -> (r: Notify)
        ensures
            r@ == (if delay {
                NOTIFY_DELAY
            } else {
                0
            }) + (if failure {
                NOTIFY_FAILURE
            } else {
                0
            }) + (if success {
                NOTIFY_SUCCESS
            } else {
                0
            }),
            r.wf(),
    {
        let mut bits: u8 = 0;
        if delay {
            bits = bits + NOTIFY_DELAY;
        }
        if failure {
            bits = bits + NOTIFY_FAILURE;
        }
        if success {
            bits = bits + NOTIFY_SUCCESS;
        }
        Notify { bits }
    }

    /// No notification is requested.
    pub fn never(&self) -> (r: bool)
        ensures
            r == (self@ == 0),
    {
        self.bits == 0
    }

    /// Notification on delay is requested.
    pub fn delay(&self) -> (r: bool)
        ensures
            r == (self@ & NOTIFY_DELAY != 0),
    {
        self.bits & NOTIFY_DELAY != 0
    }

    /// Notification on failure is requested.
    pub fn failure(&self) -> (r: bool)
        ensures
            r == (self@ & NOTIFY_FAILURE != 0),
    {
        self.bits & NOTIFY_FAILURE != 0
    }

    /// Notification on success is requested.
    pub fn success(&self) -> (r: bool)
        ensures
            r == (self@ & NOTIFY_SUCCESS != 0),
    {
        self.bits & NOTIFY_SUCCESS != 0
    }

    /// Read a `NOTIFY` value: `NEVER`, or a comma-separated flag list.
    pub fn parse(input: bytes::Bytes) -> (r: Result<Notify, Error>)
        ensures
            match r {
                Ok(n) => spec_parse_notify(bytes_view(input)) == Ok::<u8, Error>(n@) && n.wf(),
                Err(e) => spec_parse_notify(bytes_view(input)) == Err::<u8, Error>(e),
            },
    {
        let s = bytes_as_slice(&input);
        if eq_ci(s, &[0x4e, 0x45, 0x56, 0x45, 0x52]) {
            proof {
                assert(spec_lit_never() =~= seq![0x4eu8, 0x45u8, 0x56u8, 0x45u8, 0x52u8]);
            }
            return Ok(Notify { bits: 0 });
        }
        proof {
            assert(spec_lit_never() =~= seq![0x4eu8, 0x45u8, 0x56u8, 0x45u8, 0x52u8]);
        }
        let ghost toks0 = spec_tokens(bytes_view(input), COMMA);
        let mut tokens = Tokens::new(input, COMMA);
        let mut bits: u8 = 0;
        loop
            invariant
                bits < 8,
                spec_fold_notify(0, toks0) == spec_fold_notify(bits, tokens@),
                spec_parse_notify(bytes_view(input)) == spec_fold_notify(0, toks0),
            decreases tokens@.len(),
        {
            let t = match tokens.next() {
                Some(t) => t,
                None => {
                    return Ok(Notify { bits });
                },
            };
            let ts = bytes_as_slice(&t);
            if eq_ci(ts, &[0x44, 0x45, 0x4c, 0x41, 0x59]) {
                proof {
                    assert(spec_lit_delay() =~= seq![0x44u8, 0x45u8, 0x4cu8, 0x41u8, 0x59u8]);
                }
                let nb = bits | NOTIFY_DELAY;
                proof {
                    assert(nb < 8) by (bit_vector)
                        requires
                            bits < 8 && nb == (bits | 1u8),
                    ;
                }
                bits = nb;
            } else if eq_ci(ts, &[0x46, 0x41, 0x49, 0x4c, 0x55, 0x52, 0x45]) {
                proof {
                    assert(spec_lit_failure() =~= seq![
                        0x46u8,
                        0x41u8,
                        0x49u8,
                        0x4cu8,
                        0x55u8,
                        0x52u8,
                        0x45u8,
                    ]);
                }
                let nb = bits | NOTIFY_FAILURE;
                proof {
                    assert(nb < 8) by (bit_vector)
                        requires
                            bits < 8 && nb == (bits | 2u8),
                    ;
                }
                bits = nb;
            } else if eq_ci(ts, &[0x53, 0x55, 0x43, 0x43, 0x45, 0x53, 0x53]) {
                proof {
                    assert(spec_lit_success() =~= seq![
                        0x53u8,
                        0x55u8,
                        0x43u8,
                        0x43u8,
                        0x45u8,
                        0x53u8,
                        0x53u8,
                    ]);
                }
                let nb = bits | NOTIFY_SUCCESS;
                proof {
                    assert(nb < 8) by (bit_vector)
                        requires
                            bits < 8 && nb == (bits | 4u8),
                    ;
                }
                bits = nb;
            } else {
                proof {
                    assert(spec_lit_delay() =~= seq![0x44u8, 0x45u8, 0x4cu8, 0x41u8, 0x59u8]);
                    assert(spec_lit_failure() =~= seq![
                        0x46u8,
                        0x41u8,
                        0x49u8,
                        0x4cu8,
                        0x55u8,
                        0x52u8,
                        0x45u8,
                    ]);
                    assert(spec_lit_success() =~= seq![
                        0x53u8,
                        0x55u8,
                        0x43u8,
                        0x43u8,
                        0x45u8,
                        0x53u8,
                        0x53u8,
                    ]);
                }
                return Err(Error::InvalidSyntax);
            }
        }
    }
}

/// One `NOTIFY` flag folded into the set, or a rejection.
pub open spec fn spec_notify_flag(t: Seq<u8>) -> Result<u8, Error> {
    if spec_upper(t) == spec_lit_delay() {
        Ok(NOTIFY_DELAY)
    } else if spec_upper(t) == spec_lit_failure() {
        Ok(NOTIFY_FAILURE)
    } else if spec_upper(t) == spec_lit_success() {
        Ok(NOTIFY_SUCCESS)
    } else {
        Err(Error::InvalidSyntax)
    }
}

/// Folding a token list of flags into a bitset, left to right.
pub open spec fn spec_fold_notify(bits: u8, toks: Seq<Seq<u8>>) -> Result<u8, Error>
    decreases toks.len(),
{
    if toks.len() == 0 {
        Ok(bits)
    } else {
        match spec_notify_flag(toks[0]) {
            Err(e) => Err(e),
            Ok(f) => spec_fold_notify(bits | f, toks.skip(1)),
        }
    }
}

/// How a `NOTIFY` value reads: the empty set for `NEVER`, else the folded
/// flag list.
pub open spec fn spec_parse_notify(v: Seq<u8>) -> Result<u8, Error> {
    if spec_upper(v) == spec_lit_never() {
        Ok(0)
    } else {
        spec_fold_notify(0, spec_tokens(v, COMMA))
    }
}

/// `RCPT` command parameters.
#[derive(Debug)]
pub struct Rcpt {
    pub orcpt: Option<Email>,
    pub notify: Option<Notify>,
    pub to: Email,
}

/// The mathematical value of a [`Rcpt`].
pub struct RcptV {
    pub orcpt: Option<Seq<u8>>,
    pub notify: Option<u8>,
    pub to: Seq<u8>,
}

impl View for Rcpt {
    type V = RcptV;

    open spec fn view(&self) -> RcptV {
        RcptV {
            orcpt: match self.orcpt {
                Some(ref e) => Some(e@),
                None => None,
            },
            notify: match self.notify {
                Some(n) => Some(n@),
                None => None,
            },
            to: self.to@,
        }
    }
}

impl Rcpt {
    /// Every held value satisfies its grammar.
    pub open spec fn wf(&self) -> bool {
        &&& match self.orcpt {
            Some(ref e) => e.wf(),
            None => true,
        }
        &&& match self.notify {
            Some(n) => n.wf(),
            None => true,
        }
        &&& self.to.wf()
    }
}

/// Parameters for the `RCPT` command.
#[derive(Debug)]
pub enum Parameter {
    ORcpt(Email),
    Notify(Notify),
}

/// The mathematical value of a [`Parameter`].
pub enum ParameterV {
    ORcpt(Seq<u8>),
    Notify(u8),
}

impl View for Parameter {
    type V = ParameterV;

    open spec fn view(&self) -> ParameterV {
        match self {
            Parameter::ORcpt(e) => ParameterV::ORcpt(e@),
            Parameter::Notify(n) => ParameterV::Notify(n@),
        }
    }
}

impl Parameter {
    /// Every held value satisfies its grammar.
    pub open spec fn wf(&self) -> bool {
        match self {
            Parameter::ORcpt(e) => e.wf(),
            Parameter::Notify(n) => n.wf(),
        }
    }
}

/// How one `RCPT` parameter token reads: its typed value, or why it is
/// rejected.
pub open spec fn spec_parse_rcpt_param(t: Seq<u8>) -> Result<ParameterV, Error> {
    let key = spec_upper(spec_param_key(t));
    match spec_param_value(t) {
        Some(v) => if key == spec_lit_notify() {
            match spec_parse_notify(v) {
                Ok(bits) => Ok(ParameterV::Notify(bits)),
                Err(e) => Err(e),
            }
        } else if key == spec_lit_orcpt() {
            if spec_is_email(v) {
                Ok(ParameterV::ORcpt(v))
            } else {
                Err(Error::InvalidSyntax)
            }
        } else {
            Err(Error::InvalidParameter)
        },
        None => Err(Error::InvalidParameter),
    }
}

impl Parameter {
    /// Read one `NAME=VALUE` token as a `RCPT` parameter.
    pub fn parse(input: bytes::Bytes) -> (r: Result<Parameter, Error>)
        ensures
            match r {
                Ok(p) => spec_parse_rcpt_param(bytes_view(input)) == Ok::<ParameterV, Error>(p@)
                    && p.wf(),
                Err(e) => spec_parse_rcpt_param(bytes_view(input)) == Err::<ParameterV, Error>(e),
            },
    {
        let (key, value) = split_param(&input);
        let value = match value {
            Some(v) => v,
            None => {
                return Err(Error::InvalidParameter);
            },
        };
        let ks = bytes_as_slice(&key);
        if eq_ci(ks, &[0x4e, 0x4f, 0x54, 0x49, 0x46, 0x59]) {
            proof {
                assert(spec_lit_notify() =~= seq![0x4eu8, 0x4fu8, 0x54u8, 0x49u8, 0x46u8, 0x59u8]);
            }
            match Notify::parse(value) {
                Ok(n) => Ok(Parameter::Notify(n)),
                Err(e) => Err(e),
            }
        } else if eq_ci(ks, &[0x4f, 0x52, 0x43, 0x50, 0x54]) {
            proof {
                assert(spec_lit_orcpt() =~= seq![0x4fu8, 0x52u8, 0x43u8, 0x50u8, 0x54u8]);
            }
            match Email::parse(value) {
                Ok(e) => Ok(Parameter::ORcpt(e)),
                Err(e) => Err(e),
            }
        } else {
            proof {
                assert(spec_lit_notify() =~= seq![0x4eu8, 0x4fu8, 0x54u8, 0x49u8, 0x46u8, 0x59u8]);
                assert(spec_lit_orcpt() =~= seq![0x4fu8, 0x52u8, 0x43u8, 0x50u8, 0x54u8]);
            }
            Err(Error::InvalidParameter)
        }
    }
}

/// Folding a token list of parameters into the `RCPT` value, left to right,
/// stopping at the first rejected token.
pub open spec fn spec_fold_rcpt_params(m: RcptV, toks: Seq<Seq<u8>>) -> Result<RcptV, Error>
    decreases toks.len(),
{
    if toks.len() == 0 {
        Ok(m)
    } else {
        match spec_parse_rcpt_param(toks[0]) {
            Err(e) => Err(e),
            Ok(p) => spec_fold_rcpt_params(
                match p {
                    ParameterV::ORcpt(e) => RcptV { orcpt: Some(e), ..m },
                    ParameterV::Notify(n) => RcptV { notify: Some(n), ..m },
                },
                toks.skip(1),
            ),
        }
    }
}

impl Parameters for Rcpt {
    /// Fold the remaining tokens into this value as `RCPT` parameters,
    /// last occurrence winning, stopping at the first rejected token.
    fn parameters(&mut self, tokens: Tokens) -> (r: Result<(), Error>)
        ensures
            match r {
                Ok(()) => spec_fold_rcpt_params(old(self)@, tokens@) == Ok::<RcptV, Error>(
                    final(self)@,
                ) && (old(self).wf() ==> final(self).wf()),
                Err(e) => spec_fold_rcpt_params(old(self)@, tokens@) == Err::<RcptV, Error>(e),
            },
    {
        let ghost m0 = self@;
        let ghost toks0 = tokens@;
        let ghost wf0 = self.wf();
        let mut rest = tokens;
        loop
            invariant
                spec_fold_rcpt_params(m0, toks0) == spec_fold_rcpt_params(self@, rest@),
                m0 == old(self)@,
                toks0 == tokens@,
                wf0 == old(self).wf(),
                wf0 ==> self.wf(),
            decreases rest@.len(),
        {
            let t = match rest.next() {
                Some(t) => t,
                None => {
                    return Ok(());
                },
            };
            let p = match Parameter::parse(t) {
                Ok(p) => p,
                Err(e) => {
                    return Err(e);
                },
            };
            match p {
                Parameter::ORcpt(e) => {
                    self.orcpt = Some(e);
                },
                Parameter::Notify(n) => {
                    self.notify = Some(n);
                },
            }
        }
    }
}

} // verus!
