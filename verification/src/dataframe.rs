//! Data frames and their opcodes.

use vstd::prelude::*;
use crate::result::{invalid_opcode, WebSocketError};

verus! {

/// The opcode of a data frame.
///
/// Only the codes that a frame may carry have a variant: the three data
/// opcodes and the eight codes of the control range.
#[derive(Clone, Copy, Debug, PartialEq, Eq, Structural)]
pub enum Opcode {
    /// A further fragment of the message in progress (code 0).
    Continuation,
    /// The first fragment of a text message (code 1).
    Text,
    /// The first fragment of a binary message (code 2).
    Binary,
    /// The connection is being closed (code 8).
    Close,
    /// A ping (code 9).
    Ping,
    /// A pong (code 10).
    Pong,
    /// Reserved control code 11.
    Control1,
    /// Reserved control code 12.
    Control2,
    /// Reserved control code 13.
    Control3,
    /// Reserved control code 14.
    Control4,
    /// Reserved control code 15.
    Control5,
}

/// The three ways in which message assembly treats a frame.
#[derive(Clone, Copy, Debug, PartialEq, Eq, Structural)]
pub enum OpcodeClass {
    /// The frame continues the message in progress.
    Continuation,
    /// The frame starts a message.
    Data,
    /// The frame is a control frame, which may stand between the fragments
    /// of a message.
    Control,
}

impl Opcode {
    /// The number that stands for this opcode on the wire.
    pub open spec fn spec_code(self) -> u8 {
        match self {
            Opcode::Continuation => 0,
            Opcode::Text => 1,
            Opcode::Binary => 2,
            Opcode::Close => 8,
            Opcode::Ping => 9,
            Opcode::Pong => 10,
            Opcode::Control1 => 11,
            Opcode::Control2 => 12,
            Opcode::Control3 => 13,
            Opcode::Control4 => 14,
            Opcode::Control5 => 15,
        }
    }

    /// Whether `code` stands for an opcode: 0 to 2 and 8 to 15 do.
    pub open spec fn valid_code(code: u8) -> bool {
        code <= 2 || 8 <= code <= 15
    }

    /// The class of this opcode, by its code: 0 continues a message, 8 and
    /// above are control codes, the others start a message.
    pub open spec fn spec_class(self) -> OpcodeClass {
        if self.spec_code() == 0 {
            OpcodeClass::Continuation
        } else if self.spec_code() >= 8 {
            OpcodeClass::Control
        } else {
            OpcodeClass::Data
        }
    }

    /// The opcode that `code` stands for; `None` for a code that is reserved
    /// for later data opcodes (3 to 7) or out of range (above 15).
    pub fn new(code: u8) -> (r: Option<Opcode>)
        ensures
            match r {
                Some(opcode) => opcode.spec_code() == code,
                None => !Opcode::valid_code(code),
            },
    {
        match code {
            0 => Some(Opcode::Continuation),
            1 => Some(Opcode::Text),
            2 => Some(Opcode::Binary),
            8 => Some(Opcode::Close),
            9 => Some(Opcode::Ping),
            10 => Some(Opcode::Pong),
            11 => Some(Opcode::Control1),
            12 => Some(Opcode::Control2),
            13 => Some(Opcode::Control3),
            14 => Some(Opcode::Control4),
            15 => Some(Opcode::Control5),
            _ => None,
        }
    }

    /// The opcode that `code` stands for; a protocol error for a code that
    /// is reserved for later data opcodes (3 to 7) or out of range (above
    /// 15).
    pub fn from_code(code: u8) -> (r: Result<Opcode, WebSocketError>)
        ensures
            match r {
                Ok(opcode) => opcode.spec_code() == code,
                Err(e) => !Opcode::valid_code(code) && e.is_protocol_error(invalid_opcode()),
            },
    {
        match Opcode::new(code) {
            Some(opcode) => Ok(opcode),
            None => Err(WebSocketError::protocol("invalid opcode")),
        }
    }

    /// The number that stands for this opcode on the wire.
    pub fn code(self) -> (r: u8)
        ensures
            r == self.spec_code(),
    {
        match self {
            Opcode::Continuation => 0,
            Opcode::Text => 1,
            Opcode::Binary => 2,
            Opcode::Close => 8,
            Opcode::Ping => 9,
            Opcode::Pong => 10,
            Opcode::Control1 => 11,
            Opcode::Control2 => 12,
            Opcode::Control3 => 13,
            Opcode::Control4 => 14,
            Opcode::Control5 => 15,
        }
    }

    /// The class of this opcode.
    pub fn class(self) -> (r: OpcodeClass)
        ensures
            r == self.spec_class(),
    {
        match self {
            Opcode::Continuation => OpcodeClass::Continuation,
            Opcode::Text | Opcode::Binary => OpcodeClass::Data,
            _ => OpcodeClass::Control,
        }
    }
}

/// One framing unit of the protocol.
#[derive(Clone, Debug, PartialEq, Eq)]
pub struct DataFrame {
    /// Whether this frame is the last fragment of its message.
    pub finished: bool,
    /// What the frame carries.
    pub opcode: Opcode,
    /// The payload, unmasked.
    pub payload: Vec<u8>,
}

impl DataFrame {
    /// A data frame of the given parts.
    pub fn new(finished: bool, opcode: Opcode, payload: Vec<u8>) -> (r: DataFrame)
        ensures
            r == (DataFrame { finished, opcode, payload }),
    {
        DataFrame { finished, opcode, payload }
    }
}

} // verus!
