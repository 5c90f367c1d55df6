//! Length ceilings from RFC 5321 and RFC 5322.

use vstd::prelude::*;

verus! {

/// Maximum length of the local part of an email address.
pub const LOCAL_PART: usize = 64;

/// Maximum length of the domain part of an email address.
pub const DOMAIN: usize = 255;

/// Maximum length of an email address, excluding the `<>`.
pub const EMAIL: usize = 254;

/// Maximum length of a command line, excluding the trailing CRLF.
pub const COMMAND_LINE: usize = 510;

/// Maximum length of a `DATA` line, excluding the trailing CRLF.
pub const DATA_LINE: usize = 998;

} // verus!
