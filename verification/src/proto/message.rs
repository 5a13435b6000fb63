//! The messages that nodes exchange.

use vstd::prelude::*;

use crate::proto::addr::{NodeAddr, NodeAddrView};
use crate::proto::keys::BlobHash;
use crate::proto::random::{is_random_id, random_id};

verus! {

/// The identifier of a transaction: the 128 bits of a UUID.
pub type TxId = u128;

/// Protocol message
#[derive(Debug, Clone)]
pub struct Message {
    /// The identifier of the transaction that this message belongs to.
    pub tx_id: TxId,
    /// Approximate number of hops that this message will still travel.
    pub hops_to_live: u64,
    /// Approximate number of nodes which have already relayed this message.
    pub depth: u64,
    /// Message payload
    pub data: MessageData,
}

/// Payload of a message
#[derive(Debug, Clone)]
pub enum MessageData {
    /// This node is looking for `key`.
    Find { key: BlobHash },
    /// This node found data at node `from` of `size` bytes.
    Found { from: NodeAddr, size: u64 },
    /// The [`MessageData::Find`] or [`MessageData::Insert`] message used up all its
    /// `hops_to_live` without finding a corresponding data blob.
    NotFound,
    /// No more nodes are available.
    Continue { hops_remaining: u64 },
    /// This node wants to insert some data into the network.
    Insert { from: NodeAddr, key: BlobHash, size: u64 },
    /// We've traversed enough nodes and not found a colliding blob.
    Inserted,
    /// `addr` has the blob associated with the hash `data`, of `size` bytes.
    Ready { addr: NodeAddr, data: BlobHash, size: u64 },
    /// This connection is active.
    Pulse,
    /// You sent an incorrect message.
    Error,
}

/// What a [`Message`] holds.
#[verifier::ext_equal]
pub struct MessageView {
    pub tx_id: TxId,
    pub hops_to_live: u64,
    pub depth: u64,
    pub data: DataView,
}

/// What a [`MessageData`] holds.
#[verifier::ext_equal]
pub enum DataView {
    Find { key: BlobHash },
    Found { from: NodeAddrView, size: u64 },
    NotFound,
    Continue { hops_remaining: u64 },
    Insert { from: NodeAddrView, key: BlobHash, size: u64 },
    Inserted,
    Ready { addr: NodeAddrView, data: BlobHash, size: u64 },
    Pulse,
    Error,
}

impl View for MessageData {
    type V = DataView;

    open spec fn view(&self) -> DataView {
        match *self {
            MessageData::Find { key } => DataView::Find { key },
            MessageData::Found { from, size } => DataView::Found { from: from@, size },
            MessageData::NotFound => DataView::NotFound,
            MessageData::Continue { hops_remaining } => DataView::Continue { hops_remaining },
            MessageData::Insert { from, key, size } => DataView::Insert { from: from@, key, size },
            MessageData::Inserted => DataView::Inserted,
            MessageData::Ready { addr, data, size } => DataView::Ready { addr: addr@, data, size },
            MessageData::Pulse => DataView::Pulse,
            MessageData::Error => DataView::Error,
        }
    }
}

impl View for Message {
    type V = MessageView;

    open spec fn view(&self) -> MessageView {
        MessageView {
            tx_id: self.tx_id,
            hops_to_live: self.hops_to_live,
            depth: self.depth,
            data: self.data@,
        }
    }
}

impl Message {
    /// Message that does nothing but notifies the receiving node that this connection
    /// is still active.
    pub fn pulse() -> (msg: Message)
        ensures
            msg.hops_to_live == 1,
            msg.depth == 0,
            msg.data == MessageData::Pulse,
            is_random_id(msg.tx_id),
    {
        Message { tx_id: random_id(), hops_to_live: 1, depth: 0, data: MessageData::Pulse }
    }

    /// The transaction ID of this message.
    pub fn transaction(&self) -> (tx_id: TxId)
        ensures
            tx_id == self@.tx_id,
    {
        self.tx_id
    }
}

} // verus!
