//! Peer management for a node of a peer-to-peer network: pooled connections, the set of known
//! peers, the workers that serve them and the reading of their responses.
//!
//! The crate holds the decisions of the network layer and performs none of its I/O. Sockets,
//! clocks, channels and the peer database belong to the program around it, which hands in what
//! came back from them and carries out what the crate returns. The program also computes what is
//! fractional, the scores of peers and their smoothed response times, and hands those in too.

pub mod addr;
pub mod connection_pool;
pub mod error;
pub mod history;
pub mod listing;
pub mod operations;
mod order;
pub mod packet;
pub mod peer;
pub mod peers;
pub mod random;
pub mod records;
pub mod selection;
pub mod tables;
pub mod tcp_recv;
pub mod time;
pub mod worker;

pub use connection_pool::ConnectionPool;
pub use error::{NetworkError, NetworkResult};
pub use peer::AsyncPeer;
pub use peers::{AsyncPeerSet, PeerSet};
