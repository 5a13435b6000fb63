//! What a node remembers of a transaction.

use vstd::prelude::*;

use crate::proto::addr::{NodeAddr, NodeAddrView};
use crate::proto::keys::{BlobHash, PublicKey};
use crate::proto::peers::PeerSet;

verus! {

/// The state of one transaction.
#[derive(Debug, Clone)]
pub enum TxState {
    /// A request has come in and nothing was done about it yet.
    Starting { from: PublicKey },
    /// Data is being looked for on behalf of `from`.
    Finding {
        from: PublicKey,
        hops_to_live: u64,
        depth: u64,
        key: BlobHash,
        tried: PeerSet,
    },
    /// Data of the node `origin` is being inserted; `from` passed the request on.
    Inserting {
        origin: NodeAddr,
        from: PublicKey,
        hops_to_live: u64,
        depth: u64,
        key: BlobHash,
        size: u64,
        tried: PeerSet,
    },
    /// The protocol was violated.
    Errored { from: PublicKey },
    /// Nothing is left to do.
    Finished { from: PublicKey },
}

/// What a [`TxState`] holds.
#[verifier::ext_equal]
pub enum TxView {
    Starting { from: PublicKey },
    Finding {
        from: PublicKey,
        hops_to_live: u64,
        depth: u64,
        key: BlobHash,
        tried: Set<PublicKey>,
    },
    Inserting {
        origin: NodeAddrView,
        from: PublicKey,
        hops_to_live: u64,
        depth: u64,
        key: BlobHash,
        size: u64,
        tried: Set<PublicKey>,
    },
    Errored { from: PublicKey },
    Finished { from: PublicKey },
}

impl View for TxState {
    type V = TxView;

    open spec fn view(&self) -> TxView {
        match *self {
            TxState::Starting { from } => TxView::Starting { from },
            TxState::Finding { from, hops_to_live, depth, key, tried } => TxView::Finding {
                from,
                hops_to_live,
                depth,
                key,
                tried: tried@,
            },
            TxState::Inserting { origin, from, hops_to_live, depth, key, size, tried } => {
                TxView::Inserting {
                    origin: origin@,
                    from,
                    hops_to_live,
                    depth,
                    key,
                    size,
                    tried: tried@,
                }
            },
            TxState::Errored { from } => TxView::Errored { from },
            TxState::Finished { from } => TxView::Finished { from },
        }
    }
}

impl TxView {
    /// The node that a transaction belongs to.
    pub open spec fn owner(self) -> PublicKey {
        match self {
            TxView::Starting { from } => from,
            TxView::Finding { from, .. } => from,
            TxView::Inserting { origin, .. } => origin.node_id,
            TxView::Errored { from } => from,
            TxView::Finished { from } => from,
        }
    }
}

impl TxState {
    /// The set of tried peers is well formed.
    pub open spec fn wf(&self) -> bool {
        match *self {
            TxState::Finding { tried, .. } => tried.wf(),
            TxState::Inserting { tried, .. } => tried.wf(),
            _ => true,
        }
    }

    /// The node that this transaction belongs to.
    pub fn from(&self) -> (from: &PublicKey)
        ensures
            *from == self@.owner(),
    {
        match self {
            TxState::Starting { from } => from,
            TxState::Finding { from, .. } => from,
            TxState::Inserting { origin, .. } => &origin.node_id,
            TxState::Errored { from } => from,
            TxState::Finished { from } => from,
        }
    }

    /// Whether this transaction is finished.
    pub fn is_finished(&self) -> (r: bool)
        ensures
            r == self@ is Finished,
    {
        match self {
            TxState::Finished { .. } => true,
            _ => false,
        }
    }
}

} // verus!
