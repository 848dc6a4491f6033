//! What the gossip transport hands to the node.

use crate::graph::{Alert, Transaction};
use vstd::prelude::*;

verus! {

/// An inbound event of the gossip transport.
pub enum NetworkEvent {
    TransactionReceived(Transaction),
    AlertReceived(Alert),
    PeerConnected(String),
    PeerDisconnected(String),
}

} // verus!
