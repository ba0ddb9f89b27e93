//! A small proof-of-work blockchain node: blocks and transactions, the
//! peer-to-peer packet format, the node's chain bookkeeping, block hashing,
//! and the decisions of the interactive client.
pub mod block;
pub mod client;
pub mod database;
pub mod network;
pub mod verify;
