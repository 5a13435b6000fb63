//! What a node knows of the connection to a peer.

use vstd::prelude::*;

use crate::proto::message::{Message, MessageView};

verus! {

/// The number by which a connection is told from all others.
pub type ConnId = usize;

/// Whether there is a connection to a peer.
#[derive(Debug, Clone)]
pub enum PeerState {
    /// There is none yet; these messages wait for it.
    Pending { queue: Vec<Message> },
    /// Messages go over the connection `conn_id`; the others are older ones that have not ended.
    Active { conn_id: ConnId, other_conns: Vec<ConnId> },
}

/// What a [`PeerState`] holds.
#[verifier::ext_equal]
pub enum PeerView {
    Pending { queue: Seq<MessageView> },
    Active { conn_id: ConnId, other_conns: Seq<ConnId> },
}

/// What a list of messages holds.
pub open spec fn messages_of(messages: Seq<Message>) -> Seq<MessageView> {
    messages.map_values(|m: Message| m@)
}

impl View for PeerState {
    type V = PeerView;

    open spec fn view(&self) -> PeerView {
        match *self {
            PeerState::Pending { queue } => PeerView::Pending { queue: messages_of(queue@) },
            PeerState::Active { conn_id, other_conns } => PeerView::Active {
                conn_id,
                other_conns: other_conns@,
            },
        }
    }
}

/// A peer of which nothing is known.
pub open spec fn unknown_peer() -> PeerView {
    PeerView::Pending { queue: Seq::empty() }
}

/// A peer to which a connection has been made, the messages that waited for it, and the
/// connection that no more messages go over.
pub open spec fn on_accept(pre: PeerView, conn_id: ConnId) -> (
    PeerView,
    Seq<MessageView>,
    Option<ConnId>,
) {
    match pre {
        PeerView::Pending { queue } => (
            PeerView::Active { conn_id, other_conns: Seq::empty() },
            queue,
            None,
        ),
        PeerView::Active { conn_id: active, other_conns } => (
            PeerView::Active { conn_id, other_conns: other_conns.push(active) },
            Seq::empty(),
            Some(active),
        ),
    }
}

/// Whether a connection is another one than `ended`.
pub open spec fn goes_on(ended: ConnId) -> spec_fn(ConnId) -> bool {
    |conn: ConnId| conn != ended
}

/// The connections without the one that has ended.
pub open spec fn without_conn(conns: Seq<ConnId>, ended: ConnId) -> Seq<ConnId> {
    conns.filter(goes_on(ended))
}

impl Default for PeerState {
    /// A peer of which nothing is known.
    fn default() -> (state: PeerState)
        ensures
            state@ == unknown_peer(),
    {
        let state = PeerState::Pending { queue: Vec::new() };
        assert(state@ =~= unknown_peer());
        state
    }
}

impl PeerState {
    /// A connection to the peer has been made. The messages that waited for one go over it
    /// first, and from now on all others do. Returns these messages, and the connection over
    /// which messages went so far.
    pub fn accept_conn(&mut self, conn_id: ConnId) -> (r: (Vec<Message>, Option<ConnId>))
        ensures
            (final(self)@, messages_of(r.0@), r.1) == on_accept(old(self)@, conn_id),
    {
        let mut none: Vec<Message> = Vec::new();
        assert(messages_of(none@) =~= Seq::<MessageView>::empty());
        match self {
            PeerState::Pending { queue } => {
                std::mem::swap(queue, &mut none);
                *self = PeerState::Active { conn_id, other_conns: Vec::new() };
                (none, None)
            },
            PeerState::Active { conn_id: active_id, other_conns } => {
                let replaced = *active_id;
                other_conns.push(replaced);
                *active_id = conn_id;
                (none, Some(replaced))
            },
        }
    }
}

/// Takes `ended` out of a list of connections.
pub fn remove_conn(conns: &Vec<ConnId>, ended: ConnId) -> (left: Vec<ConnId>)
    ensures
        left@ == without_conn(conns@, ended),
{
    let mut left: Vec<ConnId> = Vec::new();
    let mut i: usize = 0;
    proof {
        reveal(Seq::filter);
        assert(conns@.take(0) =~= Seq::empty());
    }
    while i < conns.len()
        invariant
            i <= conns@.len(),
            left@ == conns@.take(i as int).filter(goes_on(ended)),
        decreases conns@.len() - i,
    {
        proof {
            reveal(Seq::filter);
            assert(conns@.take(i + 1).drop_last() =~= conns@.take(i as int));
        }
        if conns[i] != ended {
            left.push(conns[i]);
        }
        i = i + 1;
    }
    assert(conns@.take(i as int) =~= conns@);
    left
}

} // verus!
