//! Errors the mesh engine distinguishes.  None of them is fatal: every
//! engine iteration is independent.

use vstd::prelude::*;

use crate::message::error::MessageError;

verus! {

/// Failure modes of the engine.
#[derive(Clone, Copy, Debug, PartialEq, Eq, Structural)]
pub enum DeviceError {
    /// No usable route towards the destination.
    RouteNotFound,
    /// The routing table rejected an operation.
    RouteError,
    /// The codec rejected a frame.
    MessageError { source: MessageError },
    /// The radio reported a fault; details stay with the radio driver.
    RadioError,
    /// A broadcast was used where only a unicast destination is valid.
    InvalidDestination,
}

impl From<MessageError> for DeviceError {
    /// Wraps a codec error.
    fn from(error: MessageError) -> (r: Self)
        ensures
            r == (DeviceError::MessageError { source: error }),
    {
        Self::MessageError { source: error }
    }
}

impl vstd::std_specs::convert::FromSpecImpl<MessageError> for DeviceError {
    open spec fn obeys_from_spec() -> bool {
        true
    }

    open spec fn from_spec(error: MessageError) -> DeviceError {
        DeviceError::MessageError { source: error }
    }
}

} // verus!
