//! Errors of the message codec.

use vstd::prelude::*;

verus! {

/// Codec failure.  Decoding distinguishes no sub-causes: every malformed
/// frame yields `DeserializationError`.
#[derive(Clone, Copy, Debug, PartialEq, Eq, Structural)]
pub enum MessageError {
    DeserializationError,
    SerializationError,
}

} // verus!
