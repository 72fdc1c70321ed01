//! The decisions a peer takes on the messages of a connection: the
//! handshake of an incoming connection, the handshake of an outgoing one,
//! and the handling of messages once connected.

use vstd::prelude::*;

use crate::address::PeerAddr;
use crate::message::Message;
use crate::random::shuffle;
use crate::table::ConnectionTable;

verus! {

/// The most connections a peer keeps open.
pub const MAX_CONNECTIONS: usize = 12;

/// Why a handshake with another peer failed.
#[derive(Debug, PartialEq, Eq, Structural)]
pub enum PeerError {
    /// No room for another connection, or a connection to that peer is
    /// already open ("Max connections reached").
    MaxConnections,
    /// The other peer refused the join ("Join denied").
    JoinDenied,
    /// The other peer answered with a message that does not fit the
    /// handshake ("Unexpected message").
    UnexpectedMessage,
}

impl PeerError {
    /// Whether the connection is shut down when the handshake fails this
    /// way: only after an unexpected message.
    pub fn closes_connection(&self) -> (b: bool)
        ensures
            b == (*self == PeerError::UnexpectedMessage),
    {
        match self {
            PeerError::UnexpectedMessage => true,
            _ => false,
        }
    }
}

/// What a peer does with a message on a connection it accepted, before
/// the other side has joined.
#[derive(Debug, PartialEq, Eq, Structural)]
pub enum IncomingAction {
    /// Answer `JoinDenied` and keep waiting.
    Deny,
    /// Answer `JoinAccepted` and keep the connection under this address.
    Accept(PeerAddr),
    /// Answer with the peer list and keep waiting.
    SendPeerList,
    /// Close the connection.
    Reject,
}

/// The handshake of an incoming connection from `remote`, while `open`
/// connections are open: a join is accepted while there is room, and the
/// joined peer is known by the port it announced.
pub fn incoming_step(open: usize, remote: PeerAddr, msg: &Message) -> (a: IncomingAction)
    ensures
        match *msg {
            Message::Join(port) => if open >= MAX_CONNECTIONS {
                a == IncomingAction::Deny
            } else {
                a == IncomingAction::Accept(PeerAddr { ip: remote.ip, port })
            },
            Message::PeerListRequest => a == IncomingAction::SendPeerList,
            _ => a == IncomingAction::Reject,
        },
{
    match msg {
        Message::Join(port) => {
            if open >= MAX_CONNECTIONS {
                IncomingAction::Deny
            } else {
                IncomingAction::Accept(remote.with_port(*port))
            }
        },
        Message::PeerListRequest => IncomingAction::SendPeerList,
        _ => IncomingAction::Reject,
    }
}

/// Whether a join to `address` may be attempted: not while the table is
/// full, nor when a connection to `address` is already open.
pub fn check_join<C>(table: &ConnectionTable<C>, address: &PeerAddr) -> (r: Result<(), PeerError>)
    ensures
        r is Err <==> (table@.len() >= MAX_CONNECTIONS || table@.dom().contains(*address)),
        r matches Err(e) ==> e == PeerError::MaxConnections,
{
    if table.len() >= MAX_CONNECTIONS || table.contains(address) {
        Err(PeerError::MaxConnections)
    } else {
        Ok(())
    }
}

/// The answer to our `Join`: accepted, denied, or something unexpected.
pub fn join_reply(msg: &Message) -> (r: Result<(), PeerError>)
    ensures
        match *msg {
            Message::JoinAccepted => r is Ok,
            Message::JoinDenied => r == Err::<(), PeerError>(PeerError::JoinDenied),
            _ => r == Err::<(), PeerError>(PeerError::UnexpectedMessage),
        },
{
    match msg {
        Message::JoinAccepted => Ok(()),
        Message::JoinDenied => Err(PeerError::JoinDenied),
        _ => Err(PeerError::UnexpectedMessage),
    }
}

/// The answer to our `PeerListRequest`: the list, or an error when the
/// other peer sent anything else.
pub fn peer_list_reply(msg: Message) -> (r: Result<Vec<PeerAddr>, PeerError>)
    ensures
        match msg {
            Message::PeerList(addrs) => r matches Ok(v) && v@ == addrs@,
            _ => r matches Err(e) && e == PeerError::UnexpectedMessage,
        },
{
    match msg {
        Message::PeerList(addrs) => Ok(addrs),
        _ => Err(PeerError::UnexpectedMessage),
    }
}

/// Why reading the next message of a connection failed.
#[derive(Debug, PartialEq, Eq, Structural)]
pub enum ReadFailure {
    /// The other side closed the connection.
    EndOfStream,
    /// Any other error.
    Other,
}

/// What a peer does after reading from an established connection.
#[derive(Debug)]
pub enum ConnectionAction {
    /// Drop the connection from the table and close it.
    Terminate,
    /// Drop the connection from the table and stop reading from it.
    Disconnect,
    /// Stop reading from the connection.
    Stop,
    /// Answer with the peer list.
    SendPeerList,
    /// Dial the given peers, in this order, then trim the table.
    Rewire(Vec<PeerAddr>),
    /// Nothing to do (a heartbeat).
    Ignore,
    /// Show the flooded text.
    Deliver(String),
}

/// The handling of what was read from an established connection: a closed
/// connection is dropped, any other read error only stops reading,
/// handshake messages end the connection, a peer list is dialled in random
/// order.
pub fn connection_step(read: Result<Message, ReadFailure>) -> (a: ConnectionAction)
    ensures
        match read {
            Err(ReadFailure::EndOfStream) => a is Disconnect,
            Err(ReadFailure::Other) => a is Stop,
            Ok(Message::Join(_)) | Ok(Message::JoinDenied) | Ok(Message::JoinAccepted) => a is Terminate,
            Ok(Message::PeerListRequest) => a is SendPeerList,
            Ok(Message::PeerList(addrs)) => a matches ConnectionAction::Rewire(order)
                && order@.to_multiset() == addrs@.to_multiset(),
            Ok(Message::HeartBeat) => a is Ignore,
            Ok(Message::Flood(text)) => a matches ConnectionAction::Deliver(t) && t@ == text@,
        },
{
    let msg = match read {
        Ok(msg) => msg,
        Err(ReadFailure::EndOfStream) => return ConnectionAction::Disconnect,
        Err(ReadFailure::Other) => return ConnectionAction::Stop,
    };
    match msg {
        Message::Join(_) => ConnectionAction::Terminate,
        Message::JoinDenied => ConnectionAction::Terminate,
        Message::JoinAccepted => ConnectionAction::Terminate,
        Message::PeerListRequest => ConnectionAction::SendPeerList,
        Message::PeerList(addrs) => {
            let mut order = addrs;
            shuffle(&mut order);
            ConnectionAction::Rewire(order)
        },
        Message::HeartBeat => ConnectionAction::Ignore,
        Message::Flood(text) => ConnectionAction::Deliver(text),
    }
}

/// Whether to dial `address` while rewiring: never ourselves, never a peer
/// we are already connected to.
pub fn should_dial<C>(table: &ConnectionTable<C>, own: &PeerAddr, address: &PeerAddr) -> (b: bool)
    ensures
        b == (*address != *own && !table@.dom().contains(*address)),
{
    *address != *own && !table.contains(address)
}

/// After rewiring, close random connections until at most half the
/// maximum are left (the limit the peer also bootstraps to; joins are
/// refused only at the full maximum).
pub fn trim_after_rewire<C>(table: &mut ConnectionTable<C>)
    ensures
        final(table)@.len() == if old(table)@.len() <= MAX_CONNECTIONS / 2 {
            old(table)@.len()
        } else {
            (MAX_CONNECTIONS / 2) as nat
        },
        final(table)@.submap_of(old(table)@),
{
    table.trim_random(MAX_CONNECTIONS / 2);
}

/// The `PeerList` answer to a `PeerListRequest`: the addresses of all open
/// connections.
pub fn peer_list<C>(table: &ConnectionTable<C>) -> (m: Message)
    ensures
        m matches Message::PeerList(addrs) && addrs@.no_duplicates() && addrs@.to_set() == table@.dom(),
{
    Message::PeerList(table.addresses())
}

} // verus!
