//! Messages, as the application sees them.

use vstd::prelude::*;
use crate::dataframe::{DataFrame, Opcode};
use crate::result::{no_dataframes, WebSocketError};

verus! {

/// The payloads of `frames`, one after the other.
pub open spec fn joined_payloads(frames: Seq<DataFrame>) -> Seq<u8>
    decreases frames.len(),
{
    if frames.len() == 0 {
        Seq::empty()
    } else {
        joined_payloads(frames.drop_last()) + frames.last().payload@
    }
}

/// One message: what its first fragment says it carries, and the payloads of
/// all its fragments in one piece.
#[derive(Clone, Debug, PartialEq, Eq)]
pub struct Message {
    /// The opcode of the first fragment.
    pub opcode: Opcode,
    /// The payload of the whole message.
    pub payload: Vec<u8>,
}

impl Message {
    /// Whether this is the message that `frames` make up.
    pub open spec fn is_made_of(self, frames: Seq<DataFrame>) -> bool {
        &&& frames.len() > 0
        &&& self.opcode == frames[0].opcode
        &&& self.payload@ == joined_payloads(frames)
    }

    /// The message that `frames` make up: a protocol error if there is no
    /// frame.
    pub fn from_dataframes(frames: Vec<DataFrame>) -> (r: Result<Message, WebSocketError>)
        ensures
            match r {
                Ok(message) => message.is_made_of(frames@),
                Err(e) => frames@.len() == 0 && e.is_protocol_error(no_dataframes()),
            },
    {
        if frames.len() == 0 {
            return Err(WebSocketError::protocol("no dataframes provided"));
        }
        let opcode = frames[0].opcode;
        let mut payload: Vec<u8> = Vec::new();
        let mut i: usize = 0;
        while i < frames.len()
            invariant
                i <= frames.len(),
                payload@ == joined_payloads(frames@.take(i as int)),
            decreases frames.len() - i,
        {
            let part = &frames[i].payload;
            let mut j: usize = 0;
            while j < part.len()
                invariant
                    j <= part.len(),
                    payload@ == joined_payloads(frames@.take(i as int)) + part@.take(j as int),
                decreases part.len() - j,
            {
                payload.push(part[j]);
                assert(part@.take(j + 1) == part@.take(j as int).push(part@[j as int]));
                j += 1;
            }
            assert(part@.take(j as int) == part@);
            assert(frames@.take(i + 1).drop_last() == frames@.take(i as int));
            i += 1;
        }
        assert(frames@.take(i as int) == frames@);
        Ok(Message { opcode, payload })
    }
}

} // verus!
