//! Which peers are being dialed.

use vstd::prelude::*;

use crate::proto::keys::PublicKey;
use crate::proto::peers::PeerSet;

verus! {

/// The peers to which a connection is being opened.
#[derive(Debug)]
pub struct Dialer {
    pending_dials: PeerSet,
}

impl View for Dialer {
    type V = Set<PublicKey>;

    closed spec fn view(&self) -> Set<PublicKey> {
        self.pending_dials@
    }
}

impl Dialer {
    /// No peer is listed twice.
    pub closed spec fn wf(&self) -> bool {
        self.pending_dials.wf()
    }

    /// A dialer that dials nobody.
    pub fn new() -> (dialer: Dialer)
        ensures
            dialer.wf(),
            dialer@ == Set::<PublicKey>::empty(),
    {
        Dialer { pending_dials: PeerSet::new() }
    }

    /// Whether a connection to this peer is being opened.
    pub fn is_pending(&self, node_id: &PublicKey) -> (r: bool)
        ensures
            r == self@.contains(*node_id),
    {
        self.pending_dials.contains(node_id)
    }

    /// Notes that this peer is to be dialed. Returns whether a dial has to be started: it has
    /// unless one is under way.
    pub fn queue_dial(&mut self, node_id: PublicKey) -> (start: bool)
        requires
            old(self).wf(),
        ensures
            final(self).wf(),
            final(self)@ == old(self)@.insert(node_id),
            start == !old(self)@.contains(node_id),
    {
        if self.is_pending(&node_id) {
            assert(self@ =~= old(self)@.insert(node_id));
            return false;
        }
        self.pending_dials.insert(node_id);
        true
    }

    /// Notes that the dial to this peer has ended.
    pub fn dialed(&mut self, node_id: &PublicKey)
        requires
            old(self).wf(),
        ensures
            final(self).wf(),
            final(self)@ == old(self)@.remove(*node_id),
    {
        self.pending_dials.remove(node_id);
    }
}

} // verus!
