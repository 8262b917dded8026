//! An iterative DNS resolver for IPv4 addresses.
//!
//! The resolver is a state machine: it says which server to ask next and
//! with which message, and it is told what came back. Sending and receiving
//! datagrams is left to the caller.

pub mod message;
pub mod engine;
