//! The messages that peers exchange.

use vstd::prelude::*;

use crate::address::PeerAddr;

verus! {

/// A message between two peers.
#[derive(Debug)]
pub enum Message {
    /// Asks to join the receiver's connections; the port is the one the
    /// sender listens on.
    Join(u16),
    JoinDenied,
    JoinAccepted,
    PeerListRequest,
    /// The addresses of the sender's connections.
    PeerList(Vec<PeerAddr>),
    HeartBeat,
    /// Text that is spread to every connection.
    Flood(String),
}

} // verus!
