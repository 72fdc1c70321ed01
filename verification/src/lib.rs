//! A small peer-to-peer node: block and transaction encoding, the wire
//! framing of messages, the table of open connections, and the decisions
//! a peer takes during handshakes, bootstrapping and message handling.
//! Sockets, threads and serialisation live outside this library.

pub mod digest;
mod random;

pub mod address;
pub mod blockchain;
pub mod bootstrap;
pub mod command;
pub mod frame;
pub mod message;
pub mod protocol;
pub mod table;

pub use address::{IpAddress, PeerAddr};
pub use blockchain::{Block, Blockchain, Transaction};
pub use bootstrap::Bootstrap;
pub use command::{parse_command, Command};
pub use frame::{encode_frame, payload_length, FrameError, MAX_PAYLOAD};
pub use message::Message;
pub use protocol::{
    check_join, connection_step, incoming_step, join_reply, peer_list, peer_list_reply,
    should_dial, trim_after_rewire, ConnectionAction, IncomingAction, PeerError, ReadFailure,
    MAX_CONNECTIONS,
};
pub use table::ConnectionTable;
