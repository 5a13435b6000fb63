//! What the state machine is told, and what it asks for.

use vstd::prelude::*;

use crate::proto::addr::{NodeAddr, NodeAddrView};
use crate::proto::keys::{BlobHash, PublicKey};
use crate::proto::message::{Message, MessageView, TxId};

verus! {

/// Node configuration
#[derive(Debug, Clone, Copy)]
pub struct Config {
    /// Maximum amount of memory or storage space, in bytes, that this node will allow its blob
    /// store to use before deleting unused data.
    pub max_storage_use: u64,
    /// Maximum size of messages this node will accept or send.
    pub max_message_size: usize,
}

/// How much of a blob the local store holds.
#[derive(Debug, Clone, Copy)]
pub enum BlobStatus {
    /// The blob is not stored.
    NotFound,
    /// The blob is stored in part; its size may be known.
    Partial { size: Option<u64> },
    /// The blob is stored whole.
    Complete { size: u64 },
}

/// The outcome of a download.
#[derive(Debug, Clone, Copy)]
pub struct DownloadOutcome {
    /// The size of the data that is now stored locally.
    pub local_size: u64,
    /// The size of the data that was downloaded.
    pub downloaded_size: u64,
}

/// Event sent to this node's state machine.
///
/// This event should be produced by some networking code and sent to
/// [`State::handle`](crate::proto::State::handle).
#[derive(Debug, Clone)]
pub enum InEvent {
    /// We've received a [`Message`] from another peer with this [`PublicKey`].
    RecvMessage(PublicKey, Message),
    /// We've checked the local status of some data in our blob store, and received this
    /// [`BlobStatus`].
    CheckedBlob(TxId, BlobStatus),
    /// We've successfully downloaded a blob as part of the transaction identified by this
    /// [`TxId`]. This also specifies the size of this blob.
    DownloadedBlob(TxId, DownloadOutcome),
    /// The connection to the peer with this [`PublicKey`], for the transaction identified by
    /// this [`TxId`], timed out.
    Timeout(TxId, PublicKey),
    /// We want to find the data associated with this [`BlobHash`].
    Find(BlobHash),
    /// We have the blob associated with this [`BlobHash`] in our blob store, of this size in
    /// bytes, and we want to insert it into the network.
    Insert(BlobHash, u64),
    /// The peer with this [`PublicKey`] has disconnected from us.
    PeerDisconnected(PublicKey),
}

/// Event produced by this node's state machine.
///
/// This is produced by [`State::handle`](crate::proto::State::handle), and provides
/// instructions or feedback to a networking implementation.
#[derive(Debug, Clone)]
pub enum OutEvent {
    /// You must send this [`Message`] to the peer with this [`PublicKey`]. The peer may reply
    /// with other [`Message`]s, in which case you must return those to the state machine with
    /// an [`InEvent::RecvMessage`].
    ///
    /// This [`PublicKey`] may come from an added peer, in which case you should have dialing
    /// information for this peer, or it may have been automatically discovered from a
    /// [`Message`] received by this peer, in which case it will be accompanied by an
    /// [`OutEvent::PeerInfo`] providing this information.
    SendMessage(PublicKey, Message),
    /// You must check your local blob store for a blob with this [`BlobHash`]. Return the
    /// resulting [`BlobStatus`] with an [`InEvent::CheckedBlob`].
    CheckBlob(TxId, BlobHash),
    /// You must download the data blob with this [`BlobHash`] from this [`NodeAddr`]. This
    /// `u64` is the size of the blob as claimed by the peer who provides it.
    DownloadBlob(TxId, NodeAddr, BlobHash, u64),
    /// You must save this [`NodeAddr`] and be ready to use it to make connections to using its
    /// [`PublicKey`].
    PeerInfo(NodeAddr),
    /// We've found data associated with this [`BlobHash`].
    Found(BlobHash),
    /// We've finished downloading the blob with this [`BlobHash`]. You may now retrieve it from
    /// the blob store.
    Downloaded(BlobHash, DownloadOutcome),
    /// We checked enough peers and didn't find the data with this [`BlobHash`].
    NotFound(BlobHash),
    /// We successfully inserted data with this [`BlobHash`] into the network.
    Inserted(BlobHash),
    /// We couldn't send the data with this [`BlobHash`] to enough peers to insert it.
    NotInserted(BlobHash),
    /// You must disconnect from the peer with this [`PublicKey`].
    DisconnectPeer(PublicKey),
}

/// What an [`InEvent`] holds.
#[verifier::ext_equal]
pub enum InEventView {
    RecvMessage(PublicKey, MessageView),
    CheckedBlob(TxId, BlobStatus),
    DownloadedBlob(TxId, DownloadOutcome),
    Timeout(TxId, PublicKey),
    Find(BlobHash),
    Insert(BlobHash, u64),
    PeerDisconnected(PublicKey),
}

/// What an [`OutEvent`] holds.
#[verifier::ext_equal]
pub enum OutEventView {
    SendMessage(PublicKey, MessageView),
    CheckBlob(TxId, BlobHash),
    DownloadBlob(TxId, NodeAddrView, BlobHash, u64),
    PeerInfo(NodeAddrView),
    Found(BlobHash),
    Downloaded(BlobHash, DownloadOutcome),
    NotFound(BlobHash),
    Inserted(BlobHash),
    NotInserted(BlobHash),
    DisconnectPeer(PublicKey),
}

impl View for InEvent {
    type V = InEventView;

    open spec fn view(&self) -> InEventView {
        match *self {
            InEvent::RecvMessage(peer, msg) => InEventView::RecvMessage(peer, msg@),
            InEvent::CheckedBlob(tx_id, status) => InEventView::CheckedBlob(tx_id, status),
            InEvent::DownloadedBlob(tx_id, outcome) => InEventView::DownloadedBlob(tx_id, outcome),
            InEvent::Timeout(tx_id, peer) => InEventView::Timeout(tx_id, peer),
            InEvent::Find(key) => InEventView::Find(key),
            InEvent::Insert(key, size) => InEventView::Insert(key, size),
            InEvent::PeerDisconnected(peer) => InEventView::PeerDisconnected(peer),
        }
    }
}

impl View for OutEvent {
    type V = OutEventView;

    open spec fn view(&self) -> OutEventView {
        match *self {
            OutEvent::SendMessage(peer, msg) => OutEventView::SendMessage(peer, msg@),
            OutEvent::CheckBlob(tx_id, key) => OutEventView::CheckBlob(tx_id, key),
            OutEvent::DownloadBlob(tx_id, from, key, size) => OutEventView::DownloadBlob(
                tx_id,
                from@,
                key,
                size,
            ),
            OutEvent::PeerInfo(addr) => OutEventView::PeerInfo(addr@),
            OutEvent::Found(key) => OutEventView::Found(key),
            OutEvent::Downloaded(key, outcome) => OutEventView::Downloaded(key, outcome),
            OutEvent::NotFound(key) => OutEventView::NotFound(key),
            OutEvent::Inserted(key) => OutEventView::Inserted(key),
            OutEvent::NotInserted(key) => OutEventView::NotInserted(key),
            OutEvent::DisconnectPeer(peer) => OutEventView::DisconnectPeer(peer),
        }
    }
}

/// What a list of output events holds.
pub open spec fn events_of(events: Seq<OutEvent>) -> Seq<OutEventView> {
    events.map_values(|e: OutEvent| e@)
}

} // verus!
