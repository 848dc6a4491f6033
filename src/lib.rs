//! Core of a post-quantum, DAG-based payment network node: transactions and
//! their canonical encoding, the local transaction graph with double-spend
//! detection, confidence tracking, the fee and emission economy, and the
//! decisions of the node's event loop.

pub mod admin;
pub mod bytes;
pub mod consensus;
pub mod crypto;
pub mod economics;
pub mod graph;
pub mod index;
pub mod network;
pub mod node;
