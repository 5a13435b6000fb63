//! A node's state machine.

use std::collections::HashMap;

use vstd::prelude::*;

use n0_future::time::Instant;

use crate::proto::addr::NodeAddr;
use crate::proto::event::{events_of, Config, InEvent, InEventView, OutEvent};
use crate::proto::handlers::{
    checked_in_range, downloaded_in_range, emit, emit_message, handle_checked, handle_downloaded,
    handle_message, handle_timeout, message_in_range, send_error, timeout_in_range,
};
use crate::proto::keys::{BlobHash, PublicKey};
use crate::proto::message::{Message, MessageData, TxId};
use crate::proto::model::{
    can_reply, fits, fits_with, live, on_dropped, on_get, on_put, on_receive, react, refusal, step,
    tx_for, walk_for, without_owner, StateView, Walk,
};
use crate::proto::peers::PeerSet;
use crate::proto::random::{is_random_id, random_id, toss};
use crate::proto::tx::{TxState, TxView};

verus! {

/// The clock reading of `n0_future`, carried through unread.
#[verifier::external_type_specification]
#[verifier::external_body]
pub struct ExInstant(n0_future::time::Instant);

/// What the transactions of a node hold.
pub open spec fn txs_of(transactions: Map<TxId, TxState>) -> Map<TxId, TxView> {
    transactions.map_values(|tx: TxState| tx@)
}

/// The identifiers of all transactions.
fn ids_of(transactions: &HashMap<TxId, TxState>) -> (ids: Vec<TxId>)
    ensures
        forall|id: TxId| ids@.contains(id) <==> transactions@.contains_key(id),
{
    let mut ids: Vec<TxId> = Vec::new();
    for id in it: transactions.keys()
        invariant
            ids@.len() == it.index(),
            it.seq().unref().to_set() == transactions@.dom(),
            forall|j: int| 0 <= j < it.index() ==> ids@[j] == *it.seq()[j],
            it.index() == it.seq().len() ==> ids@.to_set() == transactions@.dom(),
    {
        ids.push(*id);
        assert(it.index() + 1 == it.seq().len() ==> ids@ =~= it.seq().unref());
    }
    assert forall|id: TxId| ids@.contains(id) <==> transactions@.contains_key(id) by {
        assert(ids@.to_set().contains(id) == ids@.contains(id));
    }
    ids
}

proof fn lemma_take_next(ids: Seq<TxId>, i: int)
    requires
        0 <= i < ids.len(),
    ensures
        forall|id: TxId| #[trigger]
            ids.take(i + 1).contains(id) <==> ids.take(i).contains(id) || id == ids[i],
{
    let now = ids.take(i);
    let next = ids.take(i + 1);
    assert forall|id: TxId| #[trigger] next.contains(id) <==> now.contains(id) || id
        == ids[i] by {
        assert(next[i] == ids[i]);
        if now.contains(id) {
            let j = choose|j: int| 0 <= j < i && now[j] == id;
            assert(next[j] == id);
        }
        if next.contains(id) {
            let j = choose|j: int| 0 <= j < i + 1 && next[j] == id;
            if j < i {
                assert(now[j] == id);
            }
        }
    }
}

/// Forgets the finished transactions.
fn forget_finished(transactions: &mut HashMap<TxId, TxState>)
    ensures
        forall|id: TxId| #[trigger]
            final(transactions)@.contains_key(id) <==> old(transactions)@.contains_key(id)
                && !(old(transactions)@[id]@ is Finished),
        forall|id: TxId| #[trigger]
            final(transactions)@.contains_key(id) ==> final(transactions)@[id] == old(
                transactions,
            )@[id],
{
    let ids = ids_of(transactions);
    let ghost before = transactions@;
    let mut i: usize = 0;
    while i < ids.len()
        invariant
            i <= ids@.len(),
            before == old(transactions)@,
            forall|id: TxId| ids@.contains(id) <==> before.contains_key(id),
            forall|id: TxId| #[trigger]
                transactions@.contains_key(id) <==> before.contains_key(id) && !(
                ids@.take(i as int).contains(id) && before[id]@ is Finished),
            forall|id: TxId| #[trigger]
                transactions@.contains_key(id) ==> transactions@[id] == before[id],
        decreases ids@.len() - i,
    {
        let id = ids[i];
        let done = match transactions.get(&id) {
            Some(tx) => tx.is_finished(),
            None => false,
        };
        proof {
            assert(ids@.contains(id));
            lemma_take_next(ids@, i as int);
        }
        if done {
            transactions.remove(&id);
        }
        i = i + 1;
    }
    assert(ids@.take(i as int) =~= ids@);
}

/// Forgets the transactions that belong to `peer_id`.
fn forget_owner(transactions: &mut HashMap<TxId, TxState>, peer_id: PublicKey)
    ensures
        forall|id: TxId| #[trigger]
            final(transactions)@.contains_key(id) <==> old(transactions)@.contains_key(id)
                && old(transactions)@[id]@.owner() != peer_id,
        forall|id: TxId| #[trigger]
            final(transactions)@.contains_key(id) ==> final(transactions)@[id] == old(
                transactions,
            )@[id],
{
    let ids = ids_of(transactions);
    let ghost before = transactions@;
    let mut i: usize = 0;
    while i < ids.len()
        invariant
            i <= ids@.len(),
            before == old(transactions)@,
            forall|id: TxId| ids@.contains(id) <==> before.contains_key(id),
            forall|id: TxId| #[trigger]
                transactions@.contains_key(id) <==> before.contains_key(id) && !(
                ids@.take(i as int).contains(id) && before[id]@.owner() == peer_id),
            forall|id: TxId| #[trigger]
                transactions@.contains_key(id) ==> transactions@[id] == before[id],
        decreases ids@.len() - i,
    {
        let id = ids[i];
        let owned = match transactions.get(&id) {
            Some(tx) => *tx.from() == peer_id,
            None => false,
        };
        proof {
            assert(ids@.contains(id));
            lemma_take_next(ids@, i as int);
        }
        if owned {
            transactions.remove(&id);
        }
        i = i + 1;
    }
    assert(ids@.take(i as int) =~= ids@);
}

/// Node state
#[derive(Debug, Clone)]
pub struct State {
    pub config: Config,
    node_addr: NodeAddr,
    transactions: HashMap<TxId, TxState>,
    peers: PeerSet,
}

impl View for State {
    type V = StateView;

    closed spec fn view(&self) -> StateView {
        StateView {
            config: self.config,
            node_addr: self.node_addr@,
            transactions: txs_of(self.transactions@),
            peers: self.peers@,
        }
    }
}

impl State {
    /// The sets of peers are well formed.
    pub closed spec fn wf(&self) -> bool {
        &&& self.peers.wf()
        &&& forall|id: TxId| #[trigger]
            self.transactions@.contains_key(id) ==> self.transactions@[id].wf()
    }

    /// Constructs the initial state of a new node.
    pub fn new(config: Config, node_addr: NodeAddr) -> (state: State)
        ensures
            state.wf(),
            state@ == (StateView {
                config,
                node_addr: node_addr@,
                transactions: Map::empty(),
                peers: Set::empty(),
            }),
    {
        let state = State {
            config,
            node_addr,
            transactions: HashMap::new(),
            peers: PeerSet::new(),
        };
        assert(state@.transactions =~= Map::empty());
        state
    }

    /// Add a peer's public key to this node's state. You should already have some way to
    /// contact this peer if sent an [`OutEvent::SendMessage`].
    pub fn add_peer(&mut self, node_id: PublicKey)
        requires
            old(self).wf(),
        ensures
            final(self).wf(),
            final(self)@ == (StateView { peers: old(self)@.peers.insert(node_id), ..old(self)@ }),
    {
        self.peers.insert(node_id);
    }

    /// Maximum size of messages this node will send or accept.
    pub fn max_message_size(&self) -> (size: usize)
        ensures
            size == self@.config.max_message_size,
    {
        self.config.max_message_size
    }

    /// Maximum amount of storage that this node's blob store may use.
    pub fn max_storage_use(&self) -> (size: u64)
        ensures
            size == self@.config.max_storage_use,
    {
        self.config.max_storage_use
    }

    /// Puts the transaction `tx` under `tx_id`.
    fn put_tx(&mut self, tx_id: TxId, tx: TxState)
        requires
            old(self).wf(),
            tx.wf(),
        ensures
            final(self).wf(),
            final(self)@ == (StateView {
                transactions: old(self)@.transactions.insert(tx_id, tx@),
                ..old(self)@
            }),
    {
        self.transactions.insert(tx_id, tx);
        assert(self@.transactions =~= old(self)@.transactions.insert(tx_id, tx@));
    }

    /// Takes the transaction under `tx_id` out, if there is one.
    fn take_tx(&mut self, tx_id: TxId) -> (tx: Option<TxState>)
        requires
            old(self).wf(),
        ensures
            final(self).wf(),
            final(self)@ == (StateView {
                transactions: old(self)@.transactions.remove(tx_id),
                ..old(self)@
            }),
            match tx {
                Some(tx) => {
                    &&& tx.wf()
                    &&& old(self)@.transactions.contains_key(tx_id)
                    &&& tx@ == old(self)@.transactions[tx_id]
                },
                None => !old(self)@.transactions.contains_key(tx_id),
            },
    {
        let tx = self.transactions.remove(&tx_id);
        assert(self@.transactions =~= old(self)@.transactions.remove(tx_id));
        tx
    }

    /// Handles a message on the last of its hops that goes no further.
    fn drop_message(&mut self, peer_id: PublicKey, msg: Message, outbox: &mut Vec<OutEvent>)
        requires
            old(self).wf(),
            can_reply(msg.depth),
        ensures
            final(self).wf(),
            ({
                let (post, out) = on_dropped(old(self)@, peer_id, msg@);
                &&& final(self)@ == post
                &&& events_of(final(outbox)@) == events_of(old(outbox)@) + out
            }),
    {
        let ghost before = events_of(outbox@);
        let Message { tx_id, hops_to_live, depth, data } = msg;
        if let MessageData::Insert { from, key, size } = data {
            self.peers.insert(from.node_id);
            emit(outbox, OutEvent::PeerInfo(from.clone()));
            if !self.transactions.contains_key(&tx_id) {
                self.put_tx(
                    tx_id,
                    TxState::Inserting {
                        origin: from,
                        from: peer_id,
                        hops_to_live,
                        depth,
                        key,
                        size,
                        tried: PeerSet::new(),
                    },
                );
            }
        }
        emit_message(outbox, peer_id, tx_id, depth + 2, 0, MessageData::NotFound);
        assert(events_of(outbox@) =~= before + on_dropped(old(self)@, peer_id, msg@).1);
    }

    /// Handles a message.
    fn receive(
        &mut self,
        peer_id: PublicKey,
        msg: Message,
        coin: bool,
        outbox: &mut Vec<OutEvent>,
    ) -> (walk: Ghost<Walk>)
        requires
            old(self).wf(),
            fits_with(old(self)@, InEventView::RecvMessage(peer_id, msg@), coin),
        ensures
            final(self).wf(),
            walk_for(old(self)@, InEventView::RecvMessage(peer_id, msg@), coin, walk@),
            ({
                let (post, out) = on_receive(old(self)@, peer_id, msg@, coin, walk@);
                &&& final(self)@ == post
                &&& events_of(final(outbox)@) == events_of(old(outbox)@) + out
            }),
    {
        let ghost before = events_of(outbox@);
        let ghost idle = Walk { pick: None, order: seq![] };
        if let MessageData::Pulse = &msg.data {
            assert(events_of(outbox@) =~= before + seq![]);
            return Ghost(idle);
        }
        if msg.hops_to_live == 1 && coin {
            self.drop_message(peer_id, msg, outbox);
            return Ghost(idle);
        }
        let opens = match &msg.data {
            MessageData::Find { .. } => true,
            MessageData::Insert { .. } => true,
            _ => false,
        };
        let tx = match self.take_tx(msg.tx_id) {
            Some(tx) => tx,
            None => {
                assert(self@.transactions =~= old(self)@.transactions);
                if !opens {
                    send_error(peer_id, &msg, outbox);
                    assert(events_of(outbox@) =~= before + seq![refusal(peer_id, msg@)]);
                    return Ghost(idle);
                }
                TxState::Starting { from: peer_id }
            },
        };
        let ghost found = tx@;
        assert(tx_for(old(self)@.transactions, peer_id, msg@) == Some(found));
        let tx_id = msg.tx_id;
        self.peers.insert(peer_id);
        let (next, Ghost(walk)) = handle_message(
            &self.node_addr,
            peer_id,
            &mut self.peers,
            tx,
            msg,
            outbox,
        );
        self.put_tx(tx_id, next);
        assert(self@.transactions =~= old(self)@.transactions.insert(tx_id, next@));
        Ghost(walk)
    }

    /// Starts a search for data on behalf of this node.
    fn find(
        &mut self,
        key: BlobHash,
        tx_id: TxId,
        outbox: &mut Vec<OutEvent>,
    ) -> (walk: Ghost<Walk>)
        requires
            old(self).wf(),
        ensures
            final(self).wf(),
            walk_for(old(self)@, InEventView::Find(key), false, walk@),
            ({
                let (post, out) = on_get(old(self)@, key, tx_id, walk@.pick);
                &&& final(self)@ == post
                &&& events_of(final(outbox)@) == events_of(old(outbox)@) + out
            }),
    {
        let ghost before = events_of(outbox@);
        let node_id = self.node_addr.node_id;
        self.put_tx(
            tx_id,
            TxState::Finding {
                from: node_id,
                hops_to_live: 5,
                depth: 0,
                key,
                tried: PeerSet::new(),
            },
        );
        let pick = self.peers.any();
        if let Some(send_to) = pick {
            emit_message(outbox, send_to, tx_id, 5, 0, MessageData::Find { key });
        } else {
            emit(outbox, OutEvent::NotFound(key));
        }
        assert(events_of(outbox@) =~= before + on_get(old(self)@, key, tx_id, pick).1);
        Ghost(Walk { pick, order: Seq::empty() })
    }

    /// Starts the insertion of this node's own data.
    fn insert(
        &mut self,
        key: BlobHash,
        size: u64,
        tx_id: TxId,
        outbox: &mut Vec<OutEvent>,
    ) -> (walk: Ghost<Walk>)
        requires
            old(self).wf(),
        ensures
            final(self).wf(),
            walk_for(old(self)@, InEventView::Insert(key, size), false, walk@),
            ({
                let (post, out) = on_put(old(self)@, key, size, tx_id, walk@.pick);
                &&& final(self)@ == post
                &&& events_of(final(outbox)@) == events_of(old(outbox)@) + out
            }),
    {
        let ghost before = events_of(outbox@);
        let pick = self.peers.nearest(key);
        if let Some(send_to) = pick {
            let origin = self.node_addr.clone();
            let from = self.node_addr.clone();
            let node_id = self.node_addr.node_id;
            self.put_tx(
                tx_id,
                TxState::Inserting {
                    origin,
                    from: node_id,
                    hops_to_live: 2,
                    depth: 0,
                    key,
                    size,
                    tried: PeerSet::new(),
                },
            );
            emit_message(
                outbox,
                send_to,
                tx_id,
                2,
                0,
                MessageData::Insert { from, key, size },
            );
        } else {
            emit(outbox, OutEvent::NotInserted(key));
        }
        assert(events_of(outbox@) =~= before + on_put(old(self)@, key, size, tx_id, pick).1);
        Ghost(Walk { pick, order: Seq::empty() })
    }

    /// Notifies this node of an incoming event, given the toss of the coin that decides whether
    /// a message on the last of its hops is dropped, and the identifier that a transaction of
    /// this node's own gets.
    ///
    /// The contract leaves open only how the node goes through its peers.
    pub fn handle_with(
        &mut self,
        event: InEvent,
        coin: bool,
        fresh: TxId,
    ) -> (out: Vec<OutEvent>)
        requires
            old(self).wf(),
            fits_with(old(self)@, event@, coin),
        ensures
            final(self).wf(),
            exists|walk: Walk| #[trigger]
                walk_for(old(self)@, event@, coin, walk) && (final(self)@, events_of(out@))
                    == step(old(self)@, event@, coin, fresh, walk),
    {
        let ghost seen = event@;
        let ghost mut walk = Walk { pick: None, order: seq![] };
        let mut outbox: Vec<OutEvent> = Vec::new();
        let ghost none = events_of(outbox@);
        assert(none =~= seq![]);
        match event {
            InEvent::RecvMessage(peer_id, msg) => {
                let Ghost(w) = self.receive(peer_id, msg, coin, &mut outbox);
                proof {
                    walk = w;
                }
            },
            InEvent::CheckedBlob(tx_id, status) => {
                if let Some(tx) = self.transactions.get(&tx_id) {
                    let Ghost(pick) = handle_checked(
                        &self.node_addr,
                        &self.peers,
                        tx_id,
                        tx,
                        status,
                        &mut outbox,
                    );
                    proof {
                        walk = Walk { pick, ..walk };
                    }
                }
            },
            InEvent::DownloadedBlob(tx_id, outcome) => {
                match self.take_tx(tx_id) {
                    Some(tx) => {
                        let (next, Ghost(order)) = handle_downloaded(
                            &self.node_addr,
                            tx_id,
                            tx,
                            outcome,
                            &mut outbox,
                        );
                        self.put_tx(tx_id, next);
                        proof {
                            walk = Walk { order, ..walk };
                            assert(self@.transactions =~= old(self)@.transactions.insert(
                                tx_id,
                                next@,
                            ));
                        }
                    },
                    None => {
                        assert(self@.transactions =~= old(self)@.transactions);
                    },
                }
            },
            InEvent::Timeout(tx_id, timeout_peer) => {
                if let Some(tx) = self.transactions.get(&tx_id) {
                    let Ghost(pick) = handle_timeout(
                        &self.node_addr,
                        &self.peers,
                        tx_id,
                        tx,
                        timeout_peer,
                        &mut outbox,
                    );
                    proof {
                        walk = Walk { pick, ..walk };
                    }
                }
            },
            InEvent::Find(key) => {
                let Ghost(w) = self.find(key, fresh, &mut outbox);
                proof {
                    walk = w;
                }
            },
            InEvent::Insert(key, size) => {
                let Ghost(w) = self.insert(key, size, fresh, &mut outbox);
                proof {
                    walk = w;
                }
            },
            InEvent::PeerDisconnected(peer_id) => {
                self.peers.remove(&peer_id);
                forget_owner(&mut self.transactions, peer_id);
                assert(self@.transactions =~= without_owner(old(self)@.transactions, peer_id));
            },
        }
        let ghost reacted = self@;
        assert(events_of(outbox@) =~= react(old(self)@, seen, coin, fresh, walk).1);
        assert(reacted == react(old(self)@, seen, coin, fresh, walk).0);
        forget_finished(&mut self.transactions);
        proof {
            assert(self@.transactions =~= live(reacted.transactions));
            assert(walk_for(old(self)@, seen, coin, walk));
        }
        outbox
    }

    /// Whether every number that comes up in handling this event is one that its counter can
    /// hold, however the coin falls.
    pub fn in_range(&self, event: &InEvent) -> (r: bool)
        requires
            self.wf(),
        ensures
            r == fits(self@, event@),
    {
        match event {
            InEvent::RecvMessage(peer_id, msg) => {
                let opens = match &msg.data {
                    MessageData::Pulse => {
                        return true;
                    },
                    MessageData::Find { .. } => true,
                    MessageData::Insert { .. } => true,
                    _ => false,
                };
                if msg.hops_to_live == 1 && msg.depth > u64::MAX - 2 {
                    return false;
                }
                let mut peers = self.peers.copy();
                peers.insert(*peer_id);
                match self.transactions.get(&msg.tx_id) {
                    Some(tx) => message_in_range(&self.node_addr, *peer_id, &peers, tx, msg),
                    None => {
                        if opens {
                            let tx = TxState::Starting { from: *peer_id };
                            message_in_range(&self.node_addr, *peer_id, &peers, &tx, msg)
                        } else {
                            true
                        }
                    },
                }
            },
            InEvent::CheckedBlob(tx_id, status) => match self.transactions.get(tx_id) {
                Some(tx) => checked_in_range(&self.peers, tx, *status),
                None => true,
            },
            InEvent::DownloadedBlob(tx_id, _) => match self.transactions.get(tx_id) {
                Some(tx) => downloaded_in_range(&self.node_addr, tx),
                None => true,
            },
            InEvent::Timeout(tx_id, peer_id) => match self.transactions.get(tx_id) {
                Some(tx) => timeout_in_range(&self.node_addr, &self.peers, tx, *peer_id),
                None => true,
            },
            _ => true,
        }
    }

    /// Notifies this node of an incoming event. Make sure to handle all the [`OutEvent`]s
    /// produced.
    pub fn handle(&mut self, event: InEvent, _now: Instant) -> (out: Vec<OutEvent>)
        requires
            old(self).wf(),
            fits(old(self)@, event@),
        ensures
            final(self).wf(),
            exists|coin: bool, fresh: TxId, walk: Walk|
                #![trigger walk_for(old(self)@, event@, coin, walk), fresh_for(event@, fresh)]
                walk_for(old(self)@, event@, coin, walk) && fresh_for(event@, fresh) && (
                    final(self)@,
                    events_of(out@),
                ) == step(old(self)@, event@, coin, fresh, walk),
    {
        let mut coin = false;
        let mut fresh: TxId = 0;
        match &event {
            InEvent::RecvMessage(_, msg) => {
                if msg.hops_to_live == 1 {
                    coin = toss();
                }
            },
            InEvent::Find(_) => {
                fresh = random_id();
            },
            InEvent::Insert(_, _) => {
                fresh = random_id();
            },
            _ => {},
        }
        assert(fresh_for(event@, fresh));
        self.handle_with(event, coin, fresh)
    }
}

/// Whether `fresh` can be the identifier that the node draws for a transaction of its own.
pub open spec fn fresh_for(event: InEventView, fresh: TxId) -> bool {
    event is Find || event is Insert ==> is_random_id(fresh)
}

} // verus!
