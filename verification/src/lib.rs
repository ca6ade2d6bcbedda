//! Verified peer-to-peer networking core of a blockchain node.
//!
//! The library holds the logic of the node's network server: the wire
//! codec for the framed message protocol, the peer book with its three
//! disjoint address sets, the ping and handshake registries, the chain
//! sync state machine, the per-peer reader failure policy, and the
//! central message handler that dispatches every inbound message.
//! Sockets, tasks and the ledger are collaborators at the edge: the
//! handler consumes their answers as plain values and returns the
//! actions to perform.

pub mod bytes;
pub mod addr;
pub mod message;
pub mod codec;
pub mod addr_map;
pub mod peer_book;
pub mod sync;
pub mod pings;
pub mod handshake;
pub mod reader;
pub mod node;
pub mod errors;
