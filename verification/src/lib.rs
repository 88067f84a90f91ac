//! Lifecycle management for one local background service.
//!
//! The crate holds the decisions of a small process manager: how a free
//! local port is reserved, how a single-use stop signal behaves, how the
//! service's run loop reacts to what happens around it, and in which order
//! the managing flow starts the service, talks to it, stops it and waits
//! for it. Sockets, tasks and timers are left to the caller, which performs
//! the actions that the state machines here hand out and reports back what
//! happened.

pub mod address;
pub mod coordinator;
pub mod error;
pub mod port;
pub mod run_loop;
pub mod shutdown;
pub mod url;
