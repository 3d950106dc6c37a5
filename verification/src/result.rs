//! The errors of this library.

use vstd::prelude::*;

verus! {

/// What can go wrong while frames are received.
#[derive(Clone, Debug, PartialEq, Eq)]
pub enum WebSocketError {
    /// The peer broke the framing rules of the protocol.
    ProtocolError(String),
    /// A data frame could not be decoded.
    DataFrameError(String),
    /// The source had no data frame to give.
    NoDataAvailable,
    /// The connection below the source failed.
    IoError(String),
}

/// The text of the error for a message that begins with a continuation frame.
pub open spec fn unexpected_continuation() -> Seq<char> {
    "unexpected continuation frame"@
}

/// The text of the error for a frame that starts a message while another
/// message is still open.
pub open spec fn unexpected_data() -> Seq<char> {
    "unexpected data frame opcode"@
}

/// The text of the error for a code that stands for no opcode.
pub open spec fn invalid_opcode() -> Seq<char> {
    "invalid opcode"@
}

/// The text of the error for a message made of no frame at all.
pub open spec fn no_dataframes() -> Seq<char> {
    "no dataframes provided"@
}

impl WebSocketError {
    /// Whether this is a protocol error with the given text.
    pub open spec fn is_protocol_error(self, text: Seq<char>) -> bool {
        self matches WebSocketError::ProtocolError(message) && message@ == text
    }

    /// A protocol error with the given text.
    pub fn protocol(text: &str) -> (r: WebSocketError)
        ensures
            r.is_protocol_error(text@),
    {
        WebSocketError::ProtocolError(text.to_owned())
    }
}

} // verus!
