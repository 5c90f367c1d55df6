//! Sans-I/O building blocks for the SMTP wire protocol: grammar validators,
//! typed command values, a streaming command parser, and a symmetric
//! serializer, all carrying machine-checked contracts.

use vstd::prelude::*;

pub mod bytebuf;
pub mod codec;
pub mod command;
pub mod error;
pub mod grammar;
pub mod ip;
pub mod laws;
pub mod mail;
pub mod max;
pub mod parser;
pub mod rcpt;
pub mod serialize;
pub mod tokens;
pub mod types;
pub mod xtext;

verus! {

/// True when `input` is an xchar: printable ASCII minus space, `+`, `=`
/// and DEL.
pub open spec fn spec_is_xchar(input: u8) -> bool {
    (0x21 <= input <= 0x2a) || (0x2c <= input <= 0x3c) || (0x3e <= input <= 0x7e)
}

/// Classify one byte of an xtext string.
pub fn is_xchar(input: u8) -> (r: bool)
    ensures
        r == spec_is_xchar(input),
{
    (0x21 <= input && input <= 0x2a) || (0x2c <= input && input <= 0x3c) || (0x3e <= input
        && input <= 0x7e)
}

} // verus!
