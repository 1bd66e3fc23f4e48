//! Verified core of a push-protocol client for a streaming market-data feed.
//!
//! The library validates the integrity of an inbound event sequence and
//! routes each decoded event to the handler registered for its instrument
//! key.  Decoding of wire frames and the transport itself are left to the
//! caller; the caller feeds decoded messages in and performs the I/O that
//! the session state machine asks for.

pub mod client;
pub mod dispatch;
pub mod errors;
pub mod models;
pub mod registry;
pub mod sequence;
pub mod subscription;
