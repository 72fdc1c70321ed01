//! Network addresses of peers, as plain values.

use vstd::prelude::*;

verus! {

/// The IP part of a socket address: version 4 as a 32-bit number; version 6
/// as a 128-bit number (network order, most significant octet first)
/// together with the flow information and scope id of the socket address,
/// which take part in telling two addresses apart.
#[derive(Clone, Copy, Debug, PartialEq, Eq, Hash, Structural)]
pub enum IpAddress {
    V4(u32),
    V6 { addr: u128, flowinfo: u32, scope_id: u32 },
}

/// The socket address of a peer: an IP address and a TCP port. Two
/// addresses are the same when all their parts are.
#[derive(Clone, Copy, Debug, PartialEq, Eq, Hash, Structural)]
pub struct PeerAddr {
    pub ip: IpAddress,
    pub port: u16,
}

impl PeerAddr {
    pub fn new(ip: IpAddress, port: u16) -> (a: PeerAddr)
        ensures
            a == (PeerAddr { ip, port }),
    {
        PeerAddr { ip, port }
    }

    /// The same address with another port (flow information and scope id
    /// are kept).
    pub fn with_port(&self, port: u16) -> (a: PeerAddr)
        ensures
            a == (PeerAddr { ip: self.ip, port }),
    {
        PeerAddr { ip: self.ip, port }
    }
}

} // verus!
