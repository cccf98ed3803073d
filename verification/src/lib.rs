//! Message layer of a client/server networking core for real-time games.
//!
//! The layer sits on top of an unreliable datagram transport. A connection
//! multiplexes a fixed set of channels onto one packet payload per packet
//! sequence number; each channel is either reliable and ordered or unreliable
//! and unordered. Everything here is plain data and pure decisions: the
//! transport itself is driven by the caller, which hands this crate packet
//! sequence numbers, received payloads and acknowledged sequences.

use vstd::prelude::*;

pub mod byte_order;
pub mod channel;
pub mod client;
pub mod config;
pub mod connection;
pub mod message;
pub mod network_simulator;
pub mod server;

verus! {

/// How much the transport writes to its log.
#[derive(Debug, Copy, Clone, PartialEq, Eq, Structural)]
pub enum BindingsLogLevel {
    Off,
    Error,
    Info,
    Debug,
}

impl BindingsLogLevel {
    /// The number that the transport knows this level by.
    pub fn to_raw(self) -> (level: i32)
        ensures
            level == match self {
                BindingsLogLevel::Off => 0i32,
                BindingsLogLevel::Error => 1i32,
                BindingsLogLevel::Info => 2i32,
                BindingsLogLevel::Debug => 3i32,
            },
    {
        match self {
            BindingsLogLevel::Off => 0,
            BindingsLogLevel::Error => 1,
            BindingsLogLevel::Info => 2,
            BindingsLogLevel::Debug => 3,
        }
    }
}

} // verus!
