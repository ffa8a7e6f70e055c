//! QuadraNet: a verified mesh-network engine for small LoRa nodes.
//!
//! Each node has a non-zero 8-bit identifier and exchanges short framed
//! messages with its neighbours.  The crate contains the node's mesh engine:
//! the message model and its byte codec, the bounded in/out queues, the
//! pending-acknowledgement tracker with exponential backoff, the
//! quality-aware routing table, and the per-iteration engine logic that ties
//! them together.  The radio itself is I/O and lives outside the library;
//! the engine is driven with the bytes a radio received and the current
//! monotonic time, and hands back the frames to transmit.

pub mod device;
pub mod message;
pub mod route;
