//! The ways in which decoding a packet or answering a query can fail.

use vstd::prelude::*;
use vstd::string::StringExecFns;

verus! {

/// Why a packet could not be decoded. Either failure ends the query it
/// belongs to: nothing is retried and no partial result is kept.
#[derive(Clone, Copy, Debug, PartialEq, Eq, Structural)]
pub enum QueryError {
    /// Fewer bytes were left than a read needed.
    TruncatedInput,
    /// A response did not begin with the fixed response header.
    ProtocolError,
}

impl QueryError {
    /// The text of the message that belongs to this error.
    pub open spec fn message_text(self) -> Seq<char> {
        match self {
            QueryError::TruncatedInput => "truncated input"@,
            QueryError::ProtocolError => "mismatched starting sequence"@,
        }
    }

    /// A human-readable message for this error.
    pub fn message(&self) -> (text: String)
        ensures
            text@ == self.message_text(),
    {
        match self {
            QueryError::TruncatedInput => String::from_str("truncated input"),
            QueryError::ProtocolError => String::from_str("mismatched starting sequence"),
        }
    }
}

} // verus!
