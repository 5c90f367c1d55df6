//! The parser's error taxonomy: a closed set of terminal failure cases.

use vstd::prelude::*;

verus! {

/// Why a buffer or command line failed to parse.
#[derive(Debug, Clone, Copy, PartialEq, Eq, Structural, Hash)]
pub enum Error {
    /// Command not recognized.
    InvalidCommand,
    /// Parameter name not in the recognized set.
    InvalidParameter,
    /// Command is missing a required parameter.
    MissingParameter,
    /// Command has too many parameters or unexpected trailing data.
    UnexpectedParameter,
    /// Invalid syntax.
    InvalidSyntax,
    /// Empty command.
    Empty,
    /// Line or buffer too long.
    TooLong,
    /// Input ended unexpectedly.
    Eoi,
    /// Command not implemented.
    CommandNotImplemented,
    /// Parameter not implemented.
    ParameterNotImplemented,
}

impl Error {
    /// A short human-readable description of the error.
    pub fn message(&self) -> (r: &'static str)
        ensures
            r@.len() > 0,
    {
        let m = match self {
            Error::InvalidCommand => "Command not recognized",
            Error::InvalidParameter => "Parameter not recognized",
            Error::MissingParameter => "Command is missing a required parameter",
            Error::UnexpectedParameter => "Command has too many parameters or unexpected trailing data",
            Error::InvalidSyntax => "Invalid syntax",
            Error::Empty => "Empty command",
            Error::TooLong => "Line too long",
            Error::Eoi => "Input ended unexpectedly",
            Error::CommandNotImplemented => "Command not implemented",
            Error::ParameterNotImplemented => "Parameter not implemented",
        };
        proof {
            reveal_strlit("Command not recognized");
            reveal_strlit("Parameter not recognized");
            reveal_strlit("Command is missing a required parameter");
            reveal_strlit("Command has too many parameters or unexpected trailing data");
            reveal_strlit("Invalid syntax");
            reveal_strlit("Empty command");
            reveal_strlit("Line too long");
            reveal_strlit("Input ended unexpectedly");
            reveal_strlit("Command not implemented");
            reveal_strlit("Parameter not implemented");
        }
        m
    }
}

} // verus!
