//! Single-decree Paxos: the acceptor and proposer state machines, the quorum
//! arithmetic between them, and a proof that no two rounds can choose
//! different values.
//!
//! The library performs no I/O. A node feeds it the requests and replies that
//! its transport delivers and sends whatever the library hands back.

pub mod acceptor;
pub mod ballot;
pub mod config;
pub mod error;
pub mod message;
pub mod node;
pub mod proposer;
pub mod quorum;
pub mod safety;
pub mod value;
