//! What can go wrong, by component.

use vstd::prelude::*;

verus! {

/// Why a port could not be reserved.
#[derive(Clone, Copy, Debug, PartialEq, Eq, Structural)]
pub enum IoError {
    /// No listener could be bound to the wildcard address.
    BindFailed,
    /// The bound listener did not tell a concrete port.
    AddrQueryFailed,
    /// The loopback connection to the listener could not be opened.
    ConnectFailed,
    /// The listener could not accept the loopback connection.
    AcceptFailed,
}

/// Why the service's run loop ended in failure.
#[derive(Debug, PartialEq, Eq)]
pub enum ServiceError {
    /// The listener could not be bound to the address asked for.
    BindFailed,
    /// The loop met a fault it cannot recover from.
    Internal(String),
}

/// Why a call to the service failed.
#[derive(Clone, Copy, Debug, PartialEq, Eq, Structural)]
pub enum ApiError {
    /// The request or its response did not get through.
    Transport,
    /// A response came that could not be read.
    MalformedResponse,
}

/// Why the task of the run loop ended without a result of its own.
#[derive(Clone, Copy, Debug, PartialEq, Eq, Structural)]
pub enum JoinError {
    /// The task was cancelled.
    Cancelled,
    /// The task panicked.
    Panicked,
}

} // verus!
