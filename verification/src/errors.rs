//! The error taxonomy of a session.
//!
//! Only `ConfigurationError`, `SubscriptionMismatch`, `DecodeError` under
//! the aborting decode policy, `UnroutableEvent` under the fatal routing
//! policy, and `TransportError` terminate a session; every other anomaly
//! is reported and processing continues.

use vstd::prelude::*;

verus! {

/// A terminal session failure.
#[derive(Clone, Copy, Debug, PartialEq, Eq, Structural)]
pub enum ClientError {
    /// No handlers were registered before connecting: there is nothing to
    /// subscribe to.  Surfaced before any I/O is attempted.
    ConfigurationError,
    /// A frame failed structural parsing and the decode policy aborts.
    DecodeError,
    /// The server's acknowledged subscriptions do not match the registered
    /// handlers: continuing would silently drop data for unmonitored keys.
    SubscriptionMismatch,
    /// A ticker arrived for a key with no registered handler and the
    /// routing policy is fatal.
    UnroutableEvent,
    /// The connection failed or closed abnormally.
    TransportError,
}

} // verus!
