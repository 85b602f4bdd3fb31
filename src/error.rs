//! Failures of the library's operations.
use vstd::prelude::*;
use vstd::string::*;

verus! {

/// Every way an exchange with the board, or the handling of what it returned,
/// can fail.
#[derive(Debug, Clone, PartialEq, Eq)]
pub enum Error {
    /// No valid response arrived within the retry budget.
    Timeout,
    /// The board rejected the exchange with an error packet, or sent a packet
    /// that has no place in it (see [`malformed`]).
    Protocol { code: u16, message: String },
    /// A read of `words` words returned `got` bytes instead of four per word.
    SizeMismatch { words: usize, got: usize },
    /// A device directory that breaks the listing grammar.
    Decode,
}

/// The mathematical value of an [`Error`].
pub enum ErrorSpec {
    Timeout,
    Protocol { code: u16, message: Seq<char> },
    SizeMismatch { words: usize, got: usize },
    Decode,
}

impl View for Error {
    type V = ErrorSpec;

    open spec fn view(&self) -> ErrorSpec {
        match self {
            Error::Timeout => ErrorSpec::Timeout,
            Error::Protocol { code, message } => ErrorSpec::Protocol {
                code: *code,
                message: message@,
            },
            Error::SizeMismatch { words, got } => ErrorSpec::SizeMismatch {
                words: *words,
                got: *got,
            },
            Error::Decode => ErrorSpec::Decode,
        }
    }
}

/// Error code that reports a packet with no place in the exchange: an
/// unknown opcode, a length inconsistent with its content, or a packet kind
/// the exchange does not expect ("illegal operation").
pub const ILLEGAL_OPERATION: u16 = 4;

/// The protocol error that reports such a packet.
pub open spec fn malformed_spec() -> ErrorSpec {
    ErrorSpec::Protocol { code: ILLEGAL_OPERATION, message: "malformed packet"@ }
}

/// The protocol error for a structurally invalid packet from the board.
pub fn malformed() -> (e: Error)
    ensures
        e@ == malformed_spec(),
{
    Error::Protocol { code: ILLEGAL_OPERATION, message: String::from_str("malformed packet") }
}

} // verus!
