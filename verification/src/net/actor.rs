//! The decisions of a running node: what it does next when something has happened.
//!
//! The node's sockets, tasks, timers and its blob store are elsewhere. Whoever has them reports
//! what happens to [`Actor::event_loop`], and performs the [`Action`]s that come back, in order.

use vstd::prelude::*;

use n0_future::time::Instant;

use crate::net::dialer::Dialer;
use crate::net::peer::{
    messages_of, on_accept, remove_conn, unknown_peer, without_conn, ConnId, PeerState, PeerView,
};
use crate::net::table::Table;
use crate::proto::addr::{NodeAddr, NodeAddrView};
use crate::proto::event::{
    events_of, BlobStatus, Config, InEvent, InEventView, OutEvent, OutEventView,
};
use crate::proto::keys::{BlobHash, PublicKey};
use crate::proto::message::{Message, MessageView, TxId};
use crate::proto::model::{fits, step, walk_for, StateView, Walk};
use crate::proto::random::is_random_id;
use crate::proto::state::{fresh_for, State};

verus! {

/// How long a peer has to answer a message, in seconds.
pub const TIMEOUT_SECS: u64 = 3;

/// Which side opened a connection.
#[derive(Debug, Clone, Copy, PartialEq, Eq, Structural)]
pub enum ConnOrigin {
    /// The peer did.
    Accept,
    /// This node did.
    Dial,
}

/// Something that has happened.
///
/// A request of type `R` is waiting for the outcome of a search or an insertion, and one of type
/// `D` for the end of a dial.
#[derive(Debug)]
pub enum Occurrence<R, D> {
    /// There is a connection to this peer.
    Connection(PublicKey, ConnId, ConnOrigin),
    /// The blob `key`, whose local status is `status`, is to be inserted into the network.
    Put { key: BlobHash, status: BlobStatus, result: R },
    /// The blob `key` is to be retrieved from the network.
    Get { key: BlobHash, result: R },
    /// This node is to be a peer.
    AddPeer { node_addr: NodeAddr, result: D },
    /// Nobody can make requests any more.
    Closed,
    /// The dial to this peer has ended, with this connection if it succeeded.
    Dialed(PublicKey, Option<ConnId>),
    /// The protocol is to be told this. A timer that has run out is reported as an
    /// [`InEvent::Timeout`].
    Event(InEvent),
    /// The connection with this peer has ended.
    ConnectionEnded(PublicKey, ConnId),
}

/// Something that is to be done.
#[derive(Debug)]
pub enum Action<R, D> {
    /// Report an [`InEvent::Timeout`] for this transaction and peer after `secs` seconds.
    SetTimer { tx_id: TxId, peer_id: PublicKey, secs: u64 },
    /// Send a message over this connection.
    Send { conn_id: ConnId, msg: Message },
    /// Send nothing more over this connection.
    StopSending { conn_id: ConnId },
    /// Exchange messages over this connection, the ones of `queue` first.
    RunConnection {
        peer_id: PublicKey,
        conn_id: ConnId,
        origin: ConnOrigin,
        queue: Vec<Message>,
        max_message_size: usize,
    },
    /// Open a connection to this peer, and tell `result` when that has been tried.
    Dial { peer_id: PublicKey, result: Option<D> },
    /// Remember where a node can be reached.
    AddNodeAddr(NodeAddr),
    /// Look for a blob in the local store, and report its status.
    CheckBlob { tx_id: TxId, key: BlobHash },
    /// Download a blob of `size` bytes, keeping the use of storage below a maximum, and report
    /// the outcome.
    DownloadBlob {
        tx_id: TxId,
        from: NodeAddr,
        key: BlobHash,
        size: u64,
        max_storage_use: u64,
    },
    /// Tell whoever waits whether the search or insertion succeeded.
    Reply { result: R, success: bool },
}

/// What an [`Action`] holds.
#[verifier::ext_equal]
pub enum ActionView<R, D> {
    SetTimer { tx_id: TxId, peer_id: PublicKey, secs: u64 },
    Send { conn_id: ConnId, msg: MessageView },
    StopSending { conn_id: ConnId },
    RunConnection {
        peer_id: PublicKey,
        conn_id: ConnId,
        origin: ConnOrigin,
        queue: Seq<MessageView>,
        max_message_size: usize,
    },
    Dial { peer_id: PublicKey, result: Option<D> },
    AddNodeAddr(NodeAddrView),
    CheckBlob { tx_id: TxId, key: BlobHash },
    DownloadBlob {
        tx_id: TxId,
        from: NodeAddrView,
        key: BlobHash,
        size: u64,
        max_storage_use: u64,
    },
    Reply { result: R, success: bool },
}

impl<R, D> View for Action<R, D> {
    type V = ActionView<R, D>;

    open spec fn view(&self) -> ActionView<R, D> {
        match *self {
            Action::SetTimer { tx_id, peer_id, secs } => ActionView::SetTimer {
                tx_id,
                peer_id,
                secs,
            },
            Action::Send { conn_id, msg } => ActionView::Send { conn_id, msg: msg@ },
            Action::StopSending { conn_id } => ActionView::StopSending { conn_id },
            Action::RunConnection { peer_id, conn_id, origin, queue, max_message_size } => {
                ActionView::RunConnection {
                    peer_id,
                    conn_id,
                    origin,
                    queue: messages_of(queue@),
                    max_message_size,
                }
            },
            Action::Dial { peer_id, result } => ActionView::Dial { peer_id, result },
            Action::AddNodeAddr(addr) => ActionView::AddNodeAddr(addr@),
            Action::CheckBlob { tx_id, key } => ActionView::CheckBlob { tx_id, key },
            Action::DownloadBlob { tx_id, from, key, size, max_storage_use } => {
                ActionView::DownloadBlob { tx_id, from: from@, key, size, max_storage_use }
            },
            Action::Reply { result, success } => ActionView::Reply { result, success },
        }
    }
}

/// What a list of actions holds.
pub open spec fn actions_of<R, D>(actions: Seq<Action<R, D>>) -> Seq<ActionView<R, D>> {
    actions.map_values(|a: Action<R, D>| a@)
}

/// What a running node holds.
#[verifier::ext_equal]
pub struct ActorView<R> {
    /// The state of the protocol.
    pub state: StateView,
    /// The peers that are being dialed.
    pub dialing: Set<PublicKey>,
    /// Who waits for the outcome of the search for a blob or its insertion.
    pub results: Map<BlobHash, R>,
    /// The peers that there was reason to contact.
    pub peers: Map<PublicKey, PeerView>,
}

// ---------------------------------------------------------------------------------------
// What each occurrence does
// ---------------------------------------------------------------------------------------

/// What is known of the connection to a peer.
pub open spec fn peer_of(peers: Map<PublicKey, PeerView>, peer_id: PublicKey) -> PeerView {
    if peers.contains_key(peer_id) {
        peers[peer_id]
    } else {
        unknown_peer()
    }
}

/// A peer is to be dialed, unless it is being dialed.
pub open spec fn on_dial<R, D>(
    pre: ActorView<R>,
    peer_id: PublicKey,
    result: Option<D>,
) -> (ActorView<R>, Seq<ActionView<R, D>>) {
    (
        ActorView { dialing: pre.dialing.insert(peer_id), ..pre },
        if pre.dialing.contains(peer_id) {
            seq![]
        } else {
            seq![ActionView::Dial { peer_id, result }]
        },
    )
}

/// A message goes over the connection to a peer if there is one. Otherwise it waits for one,
/// and the first that waits has the peer dialed.
pub open spec fn on_send<R, D>(
    pre: ActorView<R>,
    peer_id: PublicKey,
    msg: MessageView,
) -> (ActorView<R>, Seq<ActionView<R, D>>) {
    let timer = ActionView::SetTimer { tx_id: msg.tx_id, peer_id, secs: TIMEOUT_SECS };
    match peer_of(pre.peers, peer_id) {
        PeerView::Active { conn_id, .. } => (
            pre,
            seq![timer, ActionView::Send { conn_id, msg }],
        ),
        PeerView::Pending { queue } => {
            let (dialed, actions) = if queue.len() == 0 {
                on_dial(pre, peer_id, None)
            } else {
                (pre, seq![])
            };
            let waiting = PeerView::Pending { queue: queue.push(msg) };
            (
                ActorView { peers: pre.peers.insert(peer_id, waiting), ..dialed },
                seq![timer] + actions,
            )
        },
    }
}

/// The search for a blob or its insertion is over; whoever waits for that is told.
pub open spec fn on_result<R, D>(
    pre: ActorView<R>,
    key: BlobHash,
    success: bool,
) -> (ActorView<R>, Seq<ActionView<R, D>>) {
    if pre.results.contains_key(key) {
        (
            ActorView { results: pre.results.remove(key), ..pre },
            seq![ActionView::Reply { result: pre.results[key], success }],
        )
    } else {
        (pre, seq![])
    }
}

/// A peer is to be disconnected.
pub open spec fn on_disconnect<R, D>(
    pre: ActorView<R>,
    peer_id: PublicKey,
) -> (ActorView<R>, Seq<ActionView<R, D>>) {
    (
        ActorView { peers: pre.peers.remove(peer_id), ..pre },
        match peer_of(pre.peers, peer_id) {
            PeerView::Active { conn_id, .. } => seq![ActionView::StopSending { conn_id }],
            PeerView::Pending { .. } => seq![],
        },
    )
}

/// What an event of the protocol leads to.
pub open spec fn on_out_event<R, D>(
    pre: ActorView<R>,
    event: OutEventView,
) -> (ActorView<R>, Seq<ActionView<R, D>>) {
    match event {
        OutEventView::SendMessage(peer_id, msg) => on_send(pre, peer_id, msg),
        OutEventView::CheckBlob(tx_id, key) => (pre, seq![ActionView::CheckBlob { tx_id, key }]),
        OutEventView::DownloadBlob(tx_id, from, key, size) => (
            pre,
            seq![
                ActionView::DownloadBlob {
                    tx_id,
                    from,
                    key,
                    size,
                    max_storage_use: pre.state.config.max_storage_use,
                },
            ],
        ),
        OutEventView::PeerInfo(addr) => (pre, seq![ActionView::AddNodeAddr(addr)]),
        OutEventView::Found(_) => (pre, seq![]),
        OutEventView::Downloaded(key, _) => on_result(pre, key, true),
        OutEventView::Inserted(key) => on_result(pre, key, true),
        OutEventView::NotFound(key) => on_result(pre, key, false),
        OutEventView::NotInserted(key) => on_result(pre, key, false),
        OutEventView::DisconnectPeer(peer_id) => on_disconnect(pre, peer_id),
    }
}

/// What some events of the protocol, one after another, lead to.
pub open spec fn on_out_events<R, D>(
    pre: ActorView<R>,
    events: Seq<OutEventView>,
) -> (ActorView<R>, Seq<ActionView<R, D>>)
    decreases events.len(),
{
    if events.len() == 0 {
        (pre, seq![])
    } else {
        let (mid, before) = on_out_events(pre, events.drop_last());
        let (post, after) = on_out_event(mid, events.last());
        (post, before + after)
    }
}

/// What telling the protocol of an event leads to, given what the protocol draws from chance.
pub open spec fn on_in_event<R, D>(
    pre: ActorView<R>,
    event: InEventView,
    coin: bool,
    fresh: TxId,
    walk: Walk,
) -> (ActorView<R>, Seq<ActionView<R, D>>) {
    let (state, out) = step(pre.state, event, coin, fresh, walk);
    on_out_events(ActorView { state, ..pre }, out)
}

/// Whether telling the protocol of an event can lead to this.
pub open spec fn can_follow<R, D>(
    pre: ActorView<R>,
    event: InEventView,
    post: ActorView<R>,
    actions: Seq<ActionView<R, D>>,
) -> bool {
    exists|coin: bool, fresh: TxId, walk: Walk|
        #![trigger walk_for(pre.state, event, coin, walk), fresh_for(event, fresh)]
        walk_for(pre.state, event, coin, walk) && fresh_for(event, fresh) && (post, actions)
            == on_in_event::<R, D>(pre, event, coin, fresh, walk)
}

/// Whether inserting a blob can lead to this: it is inserted if it is stored whole, and refused
/// otherwise.
pub open spec fn can_follow_put<R, D>(
    pre: ActorView<R>,
    key: BlobHash,
    status: BlobStatus,
    result: R,
    post: ActorView<R>,
    actions: Seq<ActionView<R, D>>,
) -> bool {
    match status {
        BlobStatus::Complete { size } => can_follow(
            ActorView { results: pre.results.insert(key, result), ..pre },
            InEventView::Insert(key, size),
            post,
            actions,
        ),
        _ => post == pre && actions == seq![ActionView::<R, D>::Reply { result, success: false }],
    }
}

/// Whether retrieving a blob can lead to this.
pub open spec fn can_follow_get<R, D>(
    pre: ActorView<R>,
    key: BlobHash,
    result: R,
    post: ActorView<R>,
    actions: Seq<ActionView<R, D>>,
) -> bool {
    can_follow(
        ActorView { results: pre.results.insert(key, result), ..pre },
        InEventView::Find(key),
        post,
        actions,
    )
}

/// A node becomes a peer. Unless there is a connection, `pulse` waits for one; and unless other
/// messages wait, the peer is dialed.
pub open spec fn on_add_peer<R, D>(
    pre: ActorView<R>,
    node_addr: NodeAddrView,
    result: D,
    pulse: MessageView,
) -> (ActorView<R>, Seq<ActionView<R, D>>) {
    let node_id = node_addr.node_id;
    let known = ActorView {
        state: StateView { peers: pre.state.peers.insert(node_id), ..pre.state },
        ..pre
    };
    match peer_of(pre.peers, node_id) {
        PeerView::Active { .. } => (known, seq![]),
        PeerView::Pending { queue } => {
            let (dialed, actions) = if queue.len() == 0 {
                let (dialed, actions) = on_dial(known, node_id, Some(result));
                (dialed, seq![ActionView::AddNodeAddr(node_addr)] + actions)
            } else {
                (known, seq![])
            };
            let waiting = PeerView::Pending { queue: queue.push(pulse) };
            (ActorView { peers: pre.peers.insert(node_id, waiting), ..dialed }, actions)
        },
    }
}

/// There is a connection to a peer. Messages to the peer go over it from now on, those that wait
/// first.
pub open spec fn on_connection<R, D>(
    pre: ActorView<R>,
    node_id: PublicKey,
    conn_id: ConnId,
    origin: ConnOrigin,
) -> (ActorView<R>, Seq<ActionView<R, D>>) {
    let (peer, queue, replaced) = on_accept(peer_of(pre.peers, node_id), conn_id);
    (
        ActorView {
            state: StateView { peers: pre.state.peers.insert(node_id), ..pre.state },
            peers: pre.peers.insert(node_id, peer),
            ..pre
        },
        (match replaced {
            Some(active) => seq![ActionView::StopSending { conn_id: active }],
            None => seq![],
        }) + seq![
            ActionView::RunConnection {
                peer_id: node_id,
                conn_id,
                origin,
                queue,
                max_message_size: pre.state.config.max_message_size,
            },
        ],
    )
}

/// The dial to a peer has ended.
pub open spec fn on_dialed<R, D>(
    pre: ActorView<R>,
    peer_id: PublicKey,
    conn: Option<ConnId>,
) -> (ActorView<R>, Seq<ActionView<R, D>>) {
    let idle = ActorView { dialing: pre.dialing.remove(peer_id), ..pre };
    match conn {
        Some(conn_id) => on_connection(idle, peer_id, conn_id, ConnOrigin::Dial),
        None => (idle, seq![]),
    }
}

/// Whether the end of a connection can lead to this. If messages went over it, the peer has
/// disconnected; otherwise another connection goes on.
pub open spec fn can_follow_end<R, D>(
    pre: ActorView<R>,
    peer_id: PublicKey,
    conn_id: ConnId,
    post: ActorView<R>,
    actions: Seq<ActionView<R, D>>,
) -> bool {
    match peer_of(pre.peers, peer_id) {
        PeerView::Active { conn_id: active, other_conns } => if active == conn_id {
            can_follow(pre, InEventView::PeerDisconnected(peer_id), post, actions)
        } else {
            let left = PeerView::Active {
                conn_id: active,
                other_conns: without_conn(other_conns, conn_id),
            };
            &&& post == (ActorView { peers: pre.peers.insert(peer_id, left), ..pre })
            &&& actions == Seq::<ActionView<R, D>>::empty()
        },
        PeerView::Pending { .. } => post == pre && actions == Seq::<ActionView<R, D>>::empty(),
    }
}

/// Whether `msg` is a pulse.
pub open spec fn is_pulse(msg: MessageView) -> bool {
    &&& is_random_id(msg.tx_id)
    &&& msg.hops_to_live == 1
    &&& msg.depth == 0
    &&& msg.data is Pulse
}

/// Whether adding a peer can lead to this.
pub open spec fn can_follow_add_peer<R, D>(
    pre: ActorView<R>,
    node_addr: NodeAddrView,
    result: D,
    post: ActorView<R>,
    actions: Seq<ActionView<R, D>>,
) -> bool {
    exists|pulse: MessageView| #[trigger]
        is_pulse(pulse) && (post, actions) == on_add_peer::<R, D>(pre, node_addr, result, pulse)
}

/// Whether an occurrence can lead to this.
pub open spec fn can_follow_occurrence<R, D>(
    pre: ActorView<R>,
    occurrence: Occurrence<R, D>,
    post: ActorView<R>,
    actions: Seq<ActionView<R, D>>,
) -> bool {
    match occurrence {
        Occurrence::Connection(node_id, conn_id, origin) => (post, actions) == on_connection::<
            R,
            D,
        >(pre, node_id, conn_id, origin),
        Occurrence::Put { key, status, result } => can_follow_put(
            pre,
            key,
            status,
            result,
            post,
            actions,
        ),
        Occurrence::Get { key, result } => can_follow_get(pre, key, result, post, actions),
        Occurrence::AddPeer { node_addr, result } => can_follow_add_peer(
            pre,
            node_addr@,
            result,
            post,
            actions,
        ),
        Occurrence::Closed => post == pre && actions == Seq::<ActionView<R, D>>::empty(),
        Occurrence::Dialed(peer_id, conn) => (post, actions) == on_dialed::<R, D>(
            pre,
            peer_id,
            conn,
        ),
        Occurrence::Event(event) => can_follow(pre, event@, post, actions),
        Occurrence::ConnectionEnded(peer_id, conn_id) => can_follow_end(
            pre,
            peer_id,
            conn_id,
            post,
            actions,
        ),
    }
}

/// Whether every number that comes up is one that its counter can hold.
pub open spec fn occurrence_fits<R, D>(pre: ActorView<R>, occurrence: Occurrence<R, D>) -> bool {
    occurrence matches Occurrence::Event(event) ==> fits(pre.state, event@)
}

// ---------------------------------------------------------------------------------------
// The running node
// ---------------------------------------------------------------------------------------

/// What the connections to some peers hold.
pub open spec fn peers_of(peers: Map<PublicKey, PeerState>) -> Map<PublicKey, PeerView> {
    peers.map_values(|p: PeerState| p@)
}

/// A running node.
#[derive(Debug)]
pub struct Actor<R> {
    state: State,
    dialer: Dialer,
    results: Table<BlobHash, R>,
    peers: Table<PublicKey, PeerState>,
}

impl<R> View for Actor<R> {
    type V = ActorView<R>;

    closed spec fn view(&self) -> ActorView<R> {
        ActorView {
            state: self.state@,
            dialing: self.dialer@,
            results: self.results@,
            peers: peers_of(self.peers@),
        }
    }
}

/// Appends an action.
fn act<R, D>(actions: &mut Vec<Action<R, D>>, action: Action<R, D>)
    ensures
        actions_of(final(actions)@) == actions_of(old(actions)@).push(action@),
{
    actions.push(action);
    assert(actions_of(actions@) =~= actions_of(old(actions)@).push(action@));
}

/// The list without actions.
fn no_actions<R, D>() -> (actions: Vec<Action<R, D>>)
    ensures
        actions_of(actions@) == Seq::<ActionView<R, D>>::empty(),
{
    let actions: Vec<Action<R, D>> = Vec::new();
    assert(actions_of(actions@) =~= Seq::<ActionView<R, D>>::empty());
    actions
}

impl<R> Actor<R> {
    /// The parts of the node are consistent.
    pub closed spec fn wf(&self) -> bool {
        &&& self.state.wf()
        &&& self.dialer.wf()
        &&& self.results.wf()
        &&& self.peers.wf()
    }

    /// A node that has just been started.
    pub fn new(config: Config, node_addr: NodeAddr) -> (actor: Actor<R>)
        ensures
            actor.wf(),
            actor@ == (ActorView::<R> {
                state: StateView {
                    config,
                    node_addr: node_addr@,
                    transactions: Map::empty(),
                    peers: Set::empty(),
                },
                dialing: Set::empty(),
                results: Map::empty(),
                peers: Map::empty(),
            }),
    {
        let actor = Actor {
            state: State::new(config, node_addr),
            dialer: Dialer::new(),
            results: Table::new(),
            peers: Table::new(),
        };
        assert(actor@.peers =~= Map::empty());
        actor
    }

    /// Takes out what is known of the connection to a peer.
    fn take_peer(&mut self, peer_id: PublicKey) -> (peer: PeerState)
        requires
            old(self).wf(),
        ensures
            final(self).wf(),
            peer@ == peer_of(old(self)@.peers, peer_id),
            final(self)@ == (ActorView {
                peers: old(self)@.peers.remove(peer_id),
                ..old(self)@
            }),
    {
        let peer = match self.peers.remove(&peer_id) {
            Some(peer) => peer,
            None => PeerState::default(),
        };
        assert(self@.peers =~= old(self)@.peers.remove(peer_id));
        peer
    }

    /// Puts back what is known of the connection to a peer.
    fn put_peer(&mut self, peer_id: PublicKey, peer: PeerState)
        requires
            old(self).wf(),
        ensures
            final(self).wf(),
            final(self)@ == (ActorView {
                peers: old(self)@.peers.insert(peer_id, peer@),
                ..old(self)@
            }),
    {
        self.peers.insert(peer_id, peer);
        assert(self@.peers =~= old(self)@.peers.insert(peer_id, peer@));
    }

    /// Has a peer dialed, unless it is being dialed.
    fn dial<D>(&mut self, peer_id: PublicKey, result: Option<D>, actions: &mut Vec<Action<R, D>>)
        requires
            old(self).wf(),
        ensures
            final(self).wf(),
            ({
                let (post, more) = on_dial::<R, D>(old(self)@, peer_id, result);
                &&& final(self)@ == post
                &&& actions_of(final(actions)@) == actions_of(old(actions)@) + more
            }),
    {
        if self.dialer.queue_dial(peer_id) {
            act(actions, Action::Dial { peer_id, result });
        }
        assert(actions_of(actions@) =~= actions_of(old(actions)@) + on_dial::<R, D>(
            old(self)@,
            peer_id,
            result,
        ).1);
    }

    /// Sends a message to a peer, or lets it wait for a connection.
    fn send<D>(&mut self, peer_id: PublicKey, msg: Message, actions: &mut Vec<Action<R, D>>)
        requires
            old(self).wf(),
        ensures
            final(self).wf(),
            ({
                let (post, more) = on_send::<R, D>(old(self)@, peer_id, msg@);
                &&& final(self)@ == post
                &&& actions_of(final(actions)@) == actions_of(old(actions)@) + more
            }),
    {
        let ghost sent = msg@;
        act(actions, Action::SetTimer { tx_id: msg.transaction(), peer_id, secs: TIMEOUT_SECS });
        let active = match self.peers.get(&peer_id) {
            Some(PeerState::Active { conn_id, .. }) => Some(*conn_id),
            _ => None,
        };
        match active {
            Some(conn_id) => {
                act(actions, Action::Send { conn_id, msg });
            },
            None => {
                let peer = self.take_peer(peer_id);
                match peer {
                    PeerState::Pending { mut queue } => {
                        let ghost waiting = messages_of(queue@);
                        if queue.len() == 0 {
                            self.dial(peer_id, None, actions);
                        }
                        queue.push(msg);
                        assert(messages_of(queue@) =~= waiting.push(sent));
                        self.put_peer(peer_id, PeerState::Pending { queue });
                    },
                    PeerState::Active { .. } => {
                        assert(false);
                    },
                }
                assert(self@.peers =~= on_send::<R, D>(old(self)@, peer_id, sent).0.peers);
            },
        }
        assert(actions_of(actions@) =~= actions_of(old(actions)@) + on_send::<R, D>(
            old(self)@,
            peer_id,
            sent,
        ).1);
    }

    /// Tells whoever waits for the outcome.
    fn report<D>(&mut self, key: BlobHash, success: bool, actions: &mut Vec<Action<R, D>>)
        requires
            old(self).wf(),
        ensures
            final(self).wf(),
            ({
                let (post, more) = on_result::<R, D>(old(self)@, key, success);
                &&& final(self)@ == post
                &&& actions_of(final(actions)@) == actions_of(old(actions)@) + more
            }),
    {
        match self.results.remove(&key) {
            Some(result) => {
                act(actions, Action::Reply { result, success });
            },
            None => {
                assert(self@.results =~= old(self)@.results);
            },
        }
        assert(actions_of(actions@) =~= actions_of(old(actions)@) + on_result::<R, D>(
            old(self)@,
            key,
            success,
        ).1);
    }

    /// Does what an event of the protocol asks for.
    fn handle_out_event<D>(&mut self, event: OutEvent, actions: &mut Vec<Action<R, D>>)
        requires
            old(self).wf(),
        ensures
            final(self).wf(),
            ({
                let (post, more) = on_out_event::<R, D>(old(self)@, event@);
                &&& final(self)@ == post
                &&& actions_of(final(actions)@) == actions_of(old(actions)@) + more
            }),
    {
        let ghost asked = event@;
        match event {
            OutEvent::SendMessage(peer_id, msg) => {
                self.send(peer_id, msg, actions);
            },
            OutEvent::CheckBlob(tx_id, key) => {
                act(actions, Action::CheckBlob { tx_id, key });
            },
            OutEvent::DownloadBlob(tx_id, from, key, size) => {
                let max_storage_use = self.state.max_storage_use();
                act(actions, Action::DownloadBlob { tx_id, from, key, size, max_storage_use });
            },
            OutEvent::PeerInfo(info) => {
                act(actions, Action::AddNodeAddr(info));
            },
            OutEvent::Downloaded(key, _) => {
                self.report(key, true, actions);
            },
            OutEvent::Inserted(key) => {
                self.report(key, true, actions);
            },
            OutEvent::Found(_key) => {},
            OutEvent::NotFound(key) => {
                self.report(key, false, actions);
            },
            OutEvent::NotInserted(key) => {
                self.report(key, false, actions);
            },
            OutEvent::DisconnectPeer(peer_id) => {
                match self.take_peer(peer_id) {
                    PeerState::Active { conn_id, .. } => {
                        act(actions, Action::StopSending { conn_id });
                    },
                    PeerState::Pending { .. } => {},
                }
            },
        }
        assert(actions_of(actions@) =~= actions_of(old(actions)@) + on_out_event::<R, D>(
            old(self)@,
            asked,
        ).1);
    }

    /// Does what some events of the protocol ask for, one after another.
    pub fn handle_out_events<D>(&mut self, events: Vec<OutEvent>) -> (actions: Vec<Action<R, D>>)
        requires
            old(self).wf(),
        ensures
            final(self).wf(),
            (final(self)@, actions_of(actions@)) == on_out_events::<R, D>(
                old(self)@,
                events_of(events@),
            ),
    {
        let ghost all = events_of(events@);
        let mut events = events;
        let mut actions: Vec<Action<R, D>> = no_actions();
        let ghost mut done: int = 0;
        assert(all.take(0) =~= seq![]);
        while events.len() > 0
            invariant
                self.wf(),
                0 <= done <= all.len(),
                events_of(events@) == all.skip(done),
                (self@, actions_of(actions@)) == on_out_events::<R, D>(old(self)@, all.take(done)),
            decreases events@.len(),
        {
            let ghost before = events@;
            let event = events.remove(0);
            proof {
                assert(events_of(before).len() == all.len() - done);
                assert(events_of(before)[0] == event@);
                assert forall|i: int| 0 <= i < events@.len() implies #[trigger] events_of(
                    events@,
                )[i] == all.skip(done + 1)[i] by {
                    assert(events_of(before)[i + 1] == all.skip(done)[i + 1]);
                }
                assert(events_of(events@) =~= all.skip(done + 1));
                assert(all.take(done + 1).drop_last() =~= all.take(done));
                done = done + 1;
            }
            self.handle_out_event(event, &mut actions);
        }
        assert(events_of(events@).len() == 0);
        assert(all.take(done) =~= all);
        actions
    }

    /// Whether every number that comes up when the protocol is told of an event is one that its
    /// counter can hold.
    pub fn in_range(&self, event: &InEvent) -> (r: bool)
        requires
            self.wf(),
        ensures
            r == fits(self@.state, event@),
    {
        self.state.in_range(event)
    }

    /// Tells the protocol of an event and does what it asks for.
    pub fn handle_in_event<D>(&mut self, event: InEvent, now: Instant) -> (actions: Vec<
        Action<R, D>,
    >)
        requires
            old(self).wf(),
            fits(old(self)@.state, event@),
        ensures
            final(self).wf(),
            can_follow(old(self)@, event@, final(self)@, actions_of(actions@)),
    {
        let ghost told = event@;
        let out = self.state.handle(event, now);
        let ghost (coin, fresh, walk) = choose|coin: bool, fresh: TxId, walk: Walk|
            #![trigger walk_for(old(self)@.state, told, coin, walk), fresh_for(told, fresh)]
            walk_for(old(self)@.state, told, coin, walk) && fresh_for(told, fresh) && (
                self.state@,
                events_of(out@),
            ) == step(old(self)@.state, told, coin, fresh, walk);
        assert(self@ == (ActorView { state: self@.state, ..old(self)@ }));
        let actions = self.handle_out_events(out);
        assert(walk_for(old(self)@.state, told, coin, walk) && fresh_for(told, fresh) && (
            self@,
            actions_of(actions@),
        ) == on_in_event::<R, D>(old(self)@, told, coin, fresh, walk));
        actions
    }

    /// Inserts a blob, whose local status is `status`, into the network.
    pub fn put<D>(&mut self, key: BlobHash, status: BlobStatus, result: R, now: Instant) -> (
    actions: Vec<Action<R, D>>)
        requires
            old(self).wf(),
        ensures
            final(self).wf(),
            can_follow_put(old(self)@, key, status, result, final(self)@, actions_of(actions@)),
    {
        match status {
            BlobStatus::Complete { size } => {
                self.results.insert(key, result);
                self.handle_in_event(InEvent::Insert(key, size), now)
            },
            _ => {
                let mut actions: Vec<Action<R, D>> = no_actions();
                act(&mut actions, Action::Reply { result, success: false });
                assert(actions_of(actions@) =~= seq![
                    ActionView::<R, D>::Reply { result, success: false },
                ]);
                actions
            },
        }
    }

    /// Retrieves a blob from the network.
    pub fn get<D>(&mut self, key: BlobHash, result: R, now: Instant) -> (actions: Vec<
        Action<R, D>,
    >)
        requires
            old(self).wf(),
        ensures
            final(self).wf(),
            can_follow_get(old(self)@, key, result, final(self)@, actions_of(actions@)),
    {
        self.results.insert(key, result);
        self.handle_in_event(InEvent::Find(key), now)
    }

    /// Makes a node a peer; `pulse` is the message that has it dialed. Whoever waits for the
    /// dial learns nothing if the peer is not dialed on this account.
    pub fn add_peer_with<D>(&mut self, node_addr: NodeAddr, result: D, pulse: Message) -> (
    actions: Vec<Action<R, D>>)
        requires
            old(self).wf(),
        ensures
            final(self).wf(),
            (final(self)@, actions_of(actions@)) == on_add_peer::<R, D>(
                old(self)@,
                node_addr@,
                result,
                pulse@,
            ),
    {
        let ghost addr = node_addr@;
        let ghost msg = pulse@;
        let node_id = node_addr.node_id;
        let mut actions: Vec<Action<R, D>> = no_actions();
        self.state.add_peer(node_id);
        let active = match self.peers.get(&node_id) {
            Some(PeerState::Active { .. }) => true,
            _ => false,
        };
        if !active {
            let peer = self.take_peer(node_id);
            match peer {
                PeerState::Pending { mut queue } => {
                    let ghost waiting = messages_of(queue@);
                    if queue.len() == 0 {
                        act(&mut actions, Action::AddNodeAddr(node_addr));
                        self.dial(node_id, Some(result), &mut actions);
                    }
                    queue.push(pulse);
                    assert(messages_of(queue@) =~= waiting.push(msg));
                    self.put_peer(node_id, PeerState::Pending { queue });
                },
                PeerState::Active { .. } => {
                    assert(false);
                },
            }
        }
        let ghost (post, expected) = on_add_peer::<R, D>(old(self)@, addr, result, msg);
        assert(self@.peers =~= post.peers);
        assert(actions_of(actions@) =~= expected);
        actions
    }

    /// Makes a node a peer. Whoever waits for the dial learns nothing if the peer is not dialed
    /// on this account.
    pub fn add_peer<D>(&mut self, node_addr: NodeAddr, result: D) -> (actions: Vec<Action<R, D>>)
        requires
            old(self).wf(),
        ensures
            final(self).wf(),
            can_follow_add_peer(
                old(self)@,
                node_addr@,
                result,
                final(self)@,
                actions_of(actions@),
            ),
    {
        let pulse = Message::pulse();
        assert(is_pulse(pulse@));
        self.add_peer_with(node_addr, result, pulse)
    }

    /// Takes up a connection to a peer.
    pub fn handle_connection<D>(
        &mut self,
        node_id: PublicKey,
        conn_id: ConnId,
        origin: ConnOrigin,
    ) -> (actions: Vec<Action<R, D>>)
        requires
            old(self).wf(),
        ensures
            final(self).wf(),
            (final(self)@, actions_of(actions@)) == on_connection::<R, D>(
                old(self)@,
                node_id,
                conn_id,
                origin,
            ),
    {
        let mut actions: Vec<Action<R, D>> = no_actions();
        let mut peer = self.take_peer(node_id);
        let (queue, replaced) = peer.accept_conn(conn_id);
        self.put_peer(node_id, peer);
        self.state.add_peer(node_id);
        let max_message_size = self.state.max_message_size();
        if let Some(active) = replaced {
            act(&mut actions, Action::StopSending { conn_id: active });
        }
        act(
            &mut actions,
            Action::RunConnection { peer_id: node_id, conn_id, origin, queue, max_message_size },
        );
        let ghost (post, expected) = on_connection::<R, D>(old(self)@, node_id, conn_id, origin);
        assert(self@.peers =~= post.peers);
        assert(actions_of(actions@) =~= expected);
        actions
    }

    /// Takes note that the dial to a peer has ended, and takes up the connection if there is one.
    pub fn handle_dialed<D>(&mut self, peer_id: PublicKey, conn: Option<ConnId>) -> (actions: Vec<
        Action<R, D>,
    >)
        requires
            old(self).wf(),
        ensures
            final(self).wf(),
            (final(self)@, actions_of(actions@)) == on_dialed::<R, D>(old(self)@, peer_id, conn),
    {
        self.dialer.dialed(&peer_id);
        match conn {
            Some(conn_id) => self.handle_connection(peer_id, conn_id, ConnOrigin::Dial),
            None => no_actions(),
        }
    }

    /// Takes note that a connection with a peer has ended.
    pub fn handle_conn_task_end<D>(
        &mut self,
        peer_id: PublicKey,
        conn_id: ConnId,
        now: Instant,
    ) -> (actions: Vec<Action<R, D>>)
        requires
            old(self).wf(),
        ensures
            final(self).wf(),
            can_follow_end(old(self)@, peer_id, conn_id, final(self)@, actions_of(actions@)),
    {
        let left = match self.peers.get(&peer_id) {
            Some(PeerState::Active { conn_id: active_id, other_conns }) => {
                if conn_id == *active_id {
                    None
                } else {
                    Some((*active_id, remove_conn(other_conns, conn_id)))
                }
            },
            _ => {
                return no_actions();
            },
        };
        match left {
            None => self.handle_in_event(InEvent::PeerDisconnected(peer_id), now),
            Some((active_id, other_conns)) => {
                self.put_peer(peer_id, PeerState::Active { conn_id: active_id, other_conns });
                no_actions()
            },
        }
    }

    /// Reacts to what has happened. Returns whether the node goes on, and what is to be done.
    pub fn event_loop<D>(&mut self, occurrence: Occurrence<R, D>, now: Instant) -> (r: (
        bool,
        Vec<Action<R, D>>,
    ))
        requires
            old(self).wf(),
            occurrence_fits(old(self)@, occurrence),
        ensures
            final(self).wf(),
            r.0 == !(occurrence is Closed),
            can_follow_occurrence(old(self)@, occurrence, final(self)@, actions_of(r.1@)),
    {
        let actions = match occurrence {
            Occurrence::Connection(node_id, conn_id, origin) => self.handle_connection(
                node_id,
                conn_id,
                origin,
            ),
            Occurrence::Put { key, status, result } => self.put(key, status, result, now),
            Occurrence::Get { key, result } => self.get(key, result, now),
            Occurrence::AddPeer { node_addr, result } => self.add_peer(node_addr, result),
            Occurrence::Closed => {
                return (false, no_actions());
            },
            Occurrence::Dialed(peer_id, conn) => self.handle_dialed(peer_id, conn),
            Occurrence::Event(event) => self.handle_in_event(event, now),
            Occurrence::ConnectionEnded(peer_id, conn_id) => self.handle_conn_task_end(
                peer_id,
                conn_id,
                now,
            ),
        };
        (true, actions)
    }
}

} // verus!
