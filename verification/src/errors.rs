//! Errors reported by the wire-protocol codec.

use vstd::prelude::*;

verus! {

/// An error produced while encoding or decoding a protocol message.
///
/// `ReadError` stands for a truncated input: the bytes at hand end before
/// the message does. `WriteError` stands for a failed write of an encoded
/// message. `InvalidMessage` carries the four offending bytes of a header
/// that did not match the magic constant. `UnknownType` carries a type code
/// outside the known set.
#[derive(Debug)]
pub enum MessageError {
    UnknownError,
    ReadError,
    WriteError,
    InvalidMessage(Vec<u8>),
    UnknownType(u8),
}

impl MessageError {
    /// The text that `to_string` returns for this error.
    pub open spec fn text(&self) -> Seq<char> {
        match self {
            MessageError::ReadError => "Failed to read from stream"@,
            MessageError::WriteError => "Failed to write to stream"@,
            MessageError::InvalidMessage(_) => "Invalid message"@,
            MessageError::UnknownType(_) => "Unknown message type code"@,
            MessageError::UnknownError => "Unknown error"@,
        }
    }

    /// A human-readable description of the error.
    pub fn to_string(&self) -> (r: String)
        ensures
            r@ == self.text(),
    {
        match self {
            MessageError::ReadError => "Failed to read from stream".to_owned(),
            MessageError::WriteError => "Failed to write to stream".to_owned(),
            MessageError::InvalidMessage(_) => "Invalid message".to_owned(),
            MessageError::UnknownType(_) => "Unknown message type code".to_owned(),
            MessageError::UnknownError => "Unknown error".to_owned(),
        }
    }
}

} // verus!
