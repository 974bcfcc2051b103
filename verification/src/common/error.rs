//! What can go wrong inside the protocol.

use vstd::prelude::*;
use vstd::string::*;

verus! {

/// Why a datagram or a stream was turned down. Most often the peer did not
/// keep to the wire format. The offending datagram or stream is dropped;
/// nothing else is affected.
#[derive(Clone, Copy, Debug, PartialEq, Eq, Structural)]
pub enum ProtocolError {
    /// The operation tag is none that is valid at this place.
    InvalidFlag,
    /// The message ends inside a field of fixed width.
    ShortRead,
    /// The symbol of a datagram has not the size of a serialized symbol, or
    /// names another source block than the one that a block is coded as.
    InvalidSymbol,
    /// The file name is not valid UTF-8.
    InvalidFilename,
    /// The file has more blocks than a block index can number.
    FileTooLarge,
    /// No transfer has the identifier that the message names.
    InvalidId,
    /// The identifier drawn for a new transfer is in use.
    IdCollision,
}

impl ProtocolError {
    pub open spec fn spec_message(self) -> Seq<char> {
        match self {
            ProtocolError::InvalidFlag => "invalid flag"@,
            ProtocolError::ShortRead => "unexpected end of message"@,
            ProtocolError::InvalidSymbol => "invalid symbol"@,
            ProtocolError::InvalidFilename => "file name is not valid UTF-8"@,
            ProtocolError::FileTooLarge => "file has too many blocks"@,
            ProtocolError::InvalidId => "Invalid ID"@,
            ProtocolError::IdCollision => "transfer identifier is in use"@,
        }
    }

    /// A line for the log.
    pub fn message(&self) -> (text: String)
        ensures
            text@ == self.spec_message(),
    {
        match self {
            ProtocolError::InvalidFlag => String::from_str("invalid flag"),
            ProtocolError::ShortRead => String::from_str("unexpected end of message"),
            ProtocolError::InvalidSymbol => String::from_str("invalid symbol"),
            ProtocolError::InvalidFilename => String::from_str("file name is not valid UTF-8"),
            ProtocolError::FileTooLarge => String::from_str("file has too many blocks"),
            ProtocolError::InvalidId => String::from_str("Invalid ID"),
            ProtocolError::IdCollision => String::from_str("transfer identifier is in use"),
        }
    }
}

/// The symbols at hand did not suffice to rebuild a block. The block stays
/// missing and is asked for again when the round is over.
#[derive(Clone, Copy, Debug, PartialEq, Eq, Structural)]
pub struct DecodeFailed;

impl DecodeFailed {
    pub open spec fn spec_message(self) -> Seq<char> {
        "failed to decode file"@
    }

    /// A line for the log.
    pub fn message(&self) -> (text: String)
        ensures
            text@ == self.spec_message(),
    {
        String::from_str("failed to decode file")
    }
}

} // verus!
