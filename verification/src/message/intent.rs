//! Coarse message intents, decoded from a single byte.

use vstd::prelude::*;

use crate::message::error::MessageError;

verus! {

/// What a peer intends with a frame; a compact, closed tag set.
#[derive(Debug, Clone, Copy, PartialEq, Eq, Structural)]
pub enum Intent {
    Data,
    Discover,
    Ping,
    Pong,
    Information,
    Error,
    Ack,
}

/// The intent a byte denotes, if any.
pub open spec fn spec_intent_of_byte(byte: u8) -> Option<Intent> {
    if byte == 0 {
        Some(Intent::Data)
    } else if byte == 1 {
        Some(Intent::Discover)
    } else if byte == 2 {
        Some(Intent::Ping)
    } else if byte == 3 {
        Some(Intent::Pong)
    } else if byte == 4 {
        Some(Intent::Information)
    } else if byte == 5 {
        Some(Intent::Error)
    } else if byte == 6 {
        Some(Intent::Ack)
    } else {
        None
    }
}

impl Intent {
    /// Decodes an intent byte; bytes outside the table are malformed.
    pub fn try_from(byte: u8) -> (r: Result<Intent, MessageError>)
        ensures
            (match spec_intent_of_byte(byte) {
                Some(intent) => r == Ok::<Intent, MessageError>(intent),
                None => r == Err::<Intent, MessageError>(MessageError::DeserializationError),
            }),
    {
        match byte {
            0 => Ok(Intent::Data),
            1 => Ok(Intent::Discover),
            2 => Ok(Intent::Ping),
            3 => Ok(Intent::Pong),
            4 => Ok(Intent::Information),
            5 => Ok(Intent::Error),
            6 => Ok(Intent::Ack),
            _ => Err(MessageError::DeserializationError),
        }
    }
}

} // verus!
