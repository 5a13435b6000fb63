//! The rules of a running node, each said of the actions themselves: what is done when something
//! has happened, and what is kept.

use vstd::prelude::*;

use crate::net::actor::{
    actions_of, can_follow, can_follow_end, can_follow_get, can_follow_occurrence, can_follow_put,
    is_pulse, occurrence_fits, on_add_peer, on_connection, on_dialed, on_in_event, on_out_event,
    on_out_events, peers_of, Action, ActionView, ActorView, ConnOrigin, Occurrence,
};
use crate::net::connection::{message_of, on_received, SendStepView};
use crate::net::peer::{messages_of, on_accept, without_conn, ConnId, PeerState, PeerView};
use crate::proto::addr::NodeAddrView;
use crate::proto::event::{BlobStatus, InEventView, OutEventView};
use crate::proto::keys::{BlobHash, PublicKey};
use crate::proto::message::{Message, MessageView, TxId};
use crate::proto::model::{fits, step, walk_for, Walk};
use crate::proto::state::fresh_for;

verus! {

// ---------------------------------------------------------------------------------------
// Words of the rules
// ---------------------------------------------------------------------------------------

/// The messages that wait for a connection to a peer.
pub open spec fn waiting<R>(actor: ActorView<R>, peer_id: PublicKey) -> Seq<MessageView> {
    if actor.peers.contains_key(peer_id) {
        match actor.peers[peer_id] {
            PeerView::Pending { queue } => queue,
            PeerView::Active { .. } => Seq::empty(),
        }
    } else {
        Seq::empty()
    }
}

/// The connection over which messages to a peer go.
pub open spec fn connection<R>(actor: ActorView<R>, peer_id: PublicKey) -> Option<ConnId> {
    if actor.peers.contains_key(peer_id) {
        match actor.peers[peer_id] {
            PeerView::Pending { .. } => None,
            PeerView::Active { conn_id, .. } => Some(conn_id),
        }
    } else {
        None
    }
}

/// The older connections to a peer.
pub open spec fn older<R>(actor: ActorView<R>, peer_id: PublicKey) -> Seq<ConnId> {
    if actor.peers.contains_key(peer_id) {
        match actor.peers[peer_id] {
            PeerView::Pending { .. } => Seq::empty(),
            PeerView::Active { other_conns, .. } => other_conns,
        }
    } else {
        Seq::empty()
    }
}

/// Whether nothing differs but what is known of the connection to one peer, and whether it is
/// being dialed.
pub open spec fn differs_at<R>(pre: ActorView<R>, post: ActorView<R>, peer_id: PublicKey) -> bool {
    &&& post.results == pre.results
    &&& forall|p: PublicKey|
        p != peer_id ==> {
            &&& #[trigger] post.peers.contains_key(p) == pre.peers.contains_key(p)
            &&& pre.peers.contains_key(p) ==> post.peers[p] == pre.peers[p]
        }
    &&& forall|p: PublicKey|
        p != peer_id ==> #[trigger] post.dialing.contains(p) == pre.dialing.contains(p)
}

// ---------------------------------------------------------------------------------------
// What the protocol asks for
// ---------------------------------------------------------------------------------------

/// A message to a peer is given three seconds. It goes over the connection to the peer if there
/// is one. Otherwise it waits behind those that wait, and if none does, the peer is dialed unless
/// it is being dialed.
pub proof fn law_sending<R, D>(pre: ActorView<R>, peer_id: PublicKey, msg: MessageView)
    ensures
        ({
            let (post, actions) = on_out_event::<R, D>(
                pre,
                OutEventView::SendMessage(peer_id, msg),
            );
            let timer = ActionView::<R, D>::SetTimer { tx_id: msg.tx_id, peer_id, secs: 3 };
            match connection(pre, peer_id) {
                Some(conn_id) => {
                    &&& post == pre
                    &&& actions == seq![timer, ActionView::<R, D>::Send { conn_id, msg }]
                },
                None => {
                    let queue = waiting(pre, peer_id);
                    let first = queue.len() == 0;
                    &&& differs_at(pre, post, peer_id)
                    &&& post.state == pre.state
                    &&& post.peers.contains_key(peer_id)
                    &&& post.peers[peer_id] == (PeerView::Pending { queue: queue.push(msg) })
                    &&& post.dialing.contains(peer_id) == (first || pre.dialing.contains(peer_id))
                    &&& actions == if first && !pre.dialing.contains(peer_id) {
                        seq![timer, ActionView::<R, D>::Dial { peer_id, result: None }]
                    } else {
                        seq![timer]
                    }
                },
            }
        }),
{
    let (post, actions) = on_out_event::<R, D>(pre, OutEventView::SendMessage(peer_id, msg));
    assert(actions.len() <= 2);
    let timer = ActionView::<R, D>::SetTimer { tx_id: msg.tx_id, peer_id, secs: 3 };
    if connection(pre, peer_id) is None {
        if waiting(pre, peer_id).len() == 0 && !pre.dialing.contains(peer_id) {
            assert(actions =~= seq![timer, ActionView::<R, D>::Dial { peer_id, result: None }]);
        } else {
            assert(actions =~= seq![timer]);
        }
    }
}

/// Where the outcome of a search or an insertion is reported, whoever waits for it is told, and
/// waits no longer; if nobody waits, nothing is done.
pub proof fn law_reporting<R, D>(pre: ActorView<R>, event: OutEventView, key: BlobHash)
    requires
        match event {
            OutEventView::Downloaded(k, _) => k == key,
            OutEventView::Inserted(k) => k == key,
            OutEventView::NotFound(k) => k == key,
            OutEventView::NotInserted(k) => k == key,
            _ => false,
        },
    ensures
        ({
            let (post, actions) = on_out_event::<R, D>(pre, event);
            &&& post.state == pre.state
            &&& post.dialing == pre.dialing
            &&& post.peers == pre.peers
            &&& post.results == pre.results.remove(key)
            &&& actions == if pre.results.contains_key(key) {
                seq![
                    ActionView::<R, D>::Reply {
                        result: pre.results[key],
                        success: event is Downloaded || event is Inserted,
                    },
                ]
            } else {
                seq![]
            }
        }),
{
    assert(!pre.results.contains_key(key) ==> pre.results.remove(key) =~= pre.results);
}

/// The other things that the protocol asks for are done as they are asked for; a download is told
/// the limit of the configuration.
pub proof fn law_asking<R, D>(pre: ActorView<R>, event: OutEventView)
    ensures
        ({
            let (post, actions) = on_out_event::<R, D>(pre, event);
            match event {
                OutEventView::CheckBlob(tx_id, key) => post == pre && actions == seq![
                    ActionView::<R, D>::CheckBlob { tx_id, key },
                ],
                OutEventView::DownloadBlob(tx_id, from, key, size) => post == pre && actions
                    == seq![
                    ActionView::<R, D>::DownloadBlob {
                        tx_id,
                        from,
                        key,
                        size,
                        max_storage_use: pre.state.config.max_storage_use,
                    },
                ],
                OutEventView::PeerInfo(addr) => post == pre && actions == seq![
                    ActionView::<R, D>::AddNodeAddr(addr),
                ],
                OutEventView::Found(_) => post == pre && actions.len() == 0,
                OutEventView::DisconnectPeer(peer_id) => {
                    &&& differs_at(pre, post, peer_id)
                    &&& post.state == pre.state
                    &&& post.dialing == pre.dialing
                    &&& !post.peers.contains_key(peer_id)
                    &&& actions == match connection(pre, peer_id) {
                        Some(conn_id) => seq![ActionView::<R, D>::StopSending { conn_id }],
                        None => seq![],
                    }
                },
                _ => true,
            }
        }),
{
}

/// Events are performed one after another: what the last one does comes behind what the others
/// do, and starts from where they end.
pub proof fn law_one_after_another<R, D>(
    pre: ActorView<R>,
    events: Seq<OutEventView>,
    event: OutEventView,
)
    ensures
        on_out_events::<R, D>(pre, Seq::empty()) == (pre, Seq::<ActionView<R, D>>::empty()),
        ({
            let (mid, before) = on_out_events::<R, D>(pre, events);
            let (post, after) = on_out_event::<R, D>(mid, event);
            on_out_events::<R, D>(pre, events.push(event)) == (post, before + after)
        }),
{
    assert(events.push(event).drop_last() =~= events);
}

/// An event goes to the protocol as it is, and all that the protocol asks for is performed.
pub proof fn law_protocol_is_asked<R, D>(
    pre: ActorView<R>,
    event: InEventView,
    coin: bool,
    fresh: TxId,
    walk: Walk,
)
    ensures
        ({
            let (state, out) = step(pre.state, event, coin, fresh, walk);
            on_in_event::<R, D>(pre, event, coin, fresh, walk) == on_out_events::<R, D>(
                ActorView {
                    state,
                    dialing: pre.dialing,
                    results: pre.results,
                    peers: pre.peers,
                },
                out,
            )
        }),
{
}

/// Whether this can come of telling the protocol of an event, with `results` to be answered.
pub open spec fn comes_of<R, D>(
    pre: ActorView<R>,
    results: Map<BlobHash, R>,
    event: InEventView,
    post: ActorView<R>,
    actions: Seq<ActionView<R, D>>,
) -> bool {
    exists|coin: bool, fresh: TxId, walk: Walk|
        #![trigger walk_for(pre.state, event, coin, walk), fresh_for(event, fresh)]
        walk_for(pre.state, event, coin, walk) && fresh_for(event, fresh) && ({
            let (state, out) = step(pre.state, event, coin, fresh, walk);
            (post, actions) == on_out_events::<R, D>(
                ActorView { state, dialing: pre.dialing, results, peers: pre.peers },
                out,
            )
        })
}

proof fn lemma_comes_of<R, D>(
    pre: ActorView<R>,
    results: Map<BlobHash, R>,
    event: InEventView,
    post: ActorView<R>,
    actions: Seq<ActionView<R, D>>,
)
    requires
        can_follow(ActorView { results, ..pre }, event, post, actions),
    ensures
        comes_of(pre, results, event, post, actions),
{
    let asked = ActorView { results, ..pre };
    let (coin, fresh, walk) = choose|coin: bool, fresh: TxId, walk: Walk|
        #![trigger walk_for(asked.state, event, coin, walk), fresh_for(event, fresh)]
        walk_for(asked.state, event, coin, walk) && fresh_for(event, fresh) && (post, actions)
            == on_in_event::<R, D>(asked, event, coin, fresh, walk);
    law_protocol_is_asked::<R, D>(asked, event, coin, fresh, walk);
    assert(walk_for(pre.state, event, coin, walk) && fresh_for(event, fresh));
}

// ---------------------------------------------------------------------------------------
// What users ask for
// ---------------------------------------------------------------------------------------

/// Data that is stored whole, and only such, is inserted into the network with its size, and
/// whoever asks waits for the outcome; otherwise the request is refused at once.
pub proof fn law_putting<R, D>(
    pre: ActorView<R>,
    key: BlobHash,
    status: BlobStatus,
    result: R,
    post: ActorView<R>,
    actions: Seq<ActionView<R, D>>,
)
    requires
        can_follow_put(pre, key, status, result, post, actions),
    ensures
        match status {
            BlobStatus::Complete { size } => comes_of(
                pre,
                pre.results.insert(key, result),
                InEventView::Insert(key, size),
                post,
                actions,
            ),
            _ => post == pre && actions == seq![
                ActionView::<R, D>::Reply { result, success: false },
            ],
        },
{
    if let BlobStatus::Complete { size } = status {
        let results = pre.results.insert(key, result);
        lemma_comes_of(pre, results, InEventView::Insert(key, size), post, actions);
    }
}

/// Data that is wanted is searched for, and whoever asks waits for the outcome.
pub proof fn law_getting<R, D>(
    pre: ActorView<R>,
    key: BlobHash,
    result: R,
    post: ActorView<R>,
    actions: Seq<ActionView<R, D>>,
)
    requires
        can_follow_get(pre, key, result, post, actions),
    ensures
        comes_of(
            pre,
            pre.results.insert(key, result),
            InEventView::Find(key),
            post,
            actions,
        ),
{
    let results = pre.results.insert(key, result);
    lemma_comes_of(pre, results, InEventView::Find(key), post, actions);
}

/// A node that is added becomes a peer of the protocol. Without a connection to it, `pulse` waits
/// behind what waits. If nothing waits, its address is remembered and it is dialed on this
/// account, unless it is being dialed.
pub proof fn law_adding<R, D>(
    pre: ActorView<R>,
    node_addr: NodeAddrView,
    result: D,
    pulse: MessageView,
)
    ensures
        ({
            let id = node_addr.node_id;
            let (post, actions) = on_add_peer::<R, D>(pre, node_addr, result, pulse);
            let queue = waiting(pre, id);
            let first = queue.len() == 0;
            &&& post.state.peers == pre.state.peers.insert(id)
            &&& post.state.transactions == pre.state.transactions
            &&& post.state.config == pre.state.config
            &&& post.state.node_addr == pre.state.node_addr
            &&& differs_at(pre, post, id)
            &&& if connection(pre, id) is Some {
                post.peers == pre.peers && post.dialing == pre.dialing && actions.len() == 0
            } else {
                &&& post.peers.contains_key(id)
                &&& post.peers[id] == (PeerView::Pending { queue: queue.push(pulse) })
                &&& post.dialing.contains(id) == (first || pre.dialing.contains(id))
                &&& actions == if !first {
                    seq![]
                } else if pre.dialing.contains(id) {
                    seq![ActionView::<R, D>::AddNodeAddr(node_addr)]
                } else {
                    seq![
                        ActionView::<R, D>::AddNodeAddr(node_addr),
                        ActionView::<R, D>::Dial { peer_id: id, result: Some(result) },
                    ]
                }
            }
        }),
{
    let id = node_addr.node_id;
    let actions = on_add_peer::<R, D>(pre, node_addr, result, pulse).1;
    if connection(pre, id) is None && waiting(pre, id).len() == 0 {
        if pre.dialing.contains(id) {
            assert(actions =~= seq![ActionView::<R, D>::AddNodeAddr(node_addr)]);
        } else {
            assert(actions =~= seq![
                ActionView::<R, D>::AddNodeAddr(node_addr),
                ActionView::<R, D>::Dial { peer_id: id, result: Some(result) },
            ]);
        }
    }
}

// ---------------------------------------------------------------------------------------
// Connections
// ---------------------------------------------------------------------------------------

/// A connection to a peer makes it a peer of the protocol. From now on its messages go over the
/// connection, those that wait first; the connection over which they went so far is one of the
/// older ones, and nothing more is sent over it.
pub proof fn law_connecting<R, D>(
    pre: ActorView<R>,
    id: PublicKey,
    conn_id: ConnId,
    origin: ConnOrigin,
)
    ensures
        ({
            let (post, actions) = on_connection::<R, D>(pre, id, conn_id, origin);
            let run = ActionView::<R, D>::RunConnection {
                peer_id: id,
                conn_id,
                origin,
                queue: waiting(pre, id),
                max_message_size: pre.state.config.max_message_size,
            };
            &&& post.state.peers == pre.state.peers.insert(id)
            &&& post.state.transactions == pre.state.transactions
            &&& post.state.config == pre.state.config
            &&& post.state.node_addr == pre.state.node_addr
            &&& differs_at(pre, post, id)
            &&& post.dialing == pre.dialing
            &&& connection(post, id) == Some(conn_id)
            &&& match connection(pre, id) {
                Some(active) => {
                    &&& older(post, id) == older(pre, id).push(active)
                    &&& actions == seq![
                        ActionView::<R, D>::StopSending { conn_id: active },
                        run,
                    ]
                },
                None => older(post, id).len() == 0 && actions == seq![run],
            }
        }),
{
    let actions = on_connection::<R, D>(pre, id, conn_id, origin).1;
    let run = actions.last();
    match connection(pre, id) {
        Some(active) => {
            assert(actions =~= seq![ActionView::<R, D>::StopSending { conn_id: active }, run]);
        },
        None => {
            assert(actions =~= seq![run]);
        },
    }
}

/// A peer whose dial has ended is not being dialed any more. A connection that came of it is
/// taken up as one that this node has opened; without one nothing else changes.
pub proof fn law_dialing<R, D>(pre: ActorView<R>, id: PublicKey, conn: Option<ConnId>)
    ensures
        ({
            let (post, actions) = on_dialed::<R, D>(pre, id, conn);
            let idle = ActorView {
                state: pre.state,
                dialing: pre.dialing.remove(id),
                results: pre.results,
                peers: pre.peers,
            };
            match conn {
                Some(conn_id) => (post, actions) == on_connection::<R, D>(
                    idle,
                    id,
                    conn_id,
                    ConnOrigin::Dial,
                ),
                None => post == idle && actions.len() == 0,
            }
        }),
{
}

/// When the connection ends over which messages to a peer go, the protocol is told that the peer
/// has disconnected. When an older one ends, it is just not among the older ones any more; and
/// when it is none of a connected peer's, nothing happens.
pub proof fn law_disconnecting<R, D>(
    pre: ActorView<R>,
    id: PublicKey,
    conn_id: ConnId,
    post: ActorView<R>,
    actions: Seq<ActionView<R, D>>,
)
    requires
        can_follow_end(pre, id, conn_id, post, actions),
    ensures
        match connection(pre, id) {
            Some(active) => if active == conn_id {
                comes_of(pre, pre.results, InEventView::PeerDisconnected(id), post, actions)
            } else {
                &&& differs_at(pre, post, id)
                &&& post.state == pre.state
                &&& post.dialing == pre.dialing
                &&& connection(post, id) == Some(active)
                &&& older(post, id) == without_conn(older(pre, id), conn_id)
                &&& actions.len() == 0
            },
            None => post == pre && actions.len() == 0,
        },
{
    if connection(pre, id) == Some(conn_id) {
        assert(pre == ActorView { results: pre.results, ..pre });
        lemma_comes_of(pre, pre.results, InEventView::PeerDisconnected(id), post, actions);
    }
}

/// Taking a connection out of a list takes out that one wherever it stands, and nothing else, and
/// leaves the others in order.
pub proof fn law_taking_out(a: Seq<ConnId>, b: Seq<ConnId>, conn: ConnId, ended: ConnId)
    ensures
        without_conn(Seq::empty(), ended) == Seq::<ConnId>::empty(),
        without_conn(seq![conn], ended) == if conn == ended {
            Seq::<ConnId>::empty()
        } else {
            seq![conn]
        },
        without_conn(a + b, ended) == without_conn(a, ended) + without_conn(b, ended),
    decreases b.len(),
{
    reveal(Seq::filter);
    let one = seq![conn];
    assert(one.drop_last() =~= Seq::empty());
    if b.len() == 0 {
        assert(a + b =~= a);
        assert(without_conn(a, ended) + without_conn(b, ended) =~= without_conn(a, ended));
    } else {
        law_taking_out(a, b.drop_last(), conn, ended);
        assert((a + b).drop_last() =~= a + b.drop_last());
        assert(without_conn(a + b, ended) =~= without_conn(a, ended) + without_conn(b, ended));
    }
    if conn != ended {
        assert(without_conn(one, ended) =~= one);
    }
}

/// A peer takes up a connection: if there was none, the messages that wait are handed out, all
/// and in order, and if there was one, that is handed out and counted among the older ones.
pub proof fn law_accepting(pre: PeerView, conn_id: ConnId)
    ensures
        ({
            let (post, queue, replaced) = on_accept(pre, conn_id);
            match pre {
                PeerView::Pending { queue: waited } => {
                    &&& post == (PeerView::Active { conn_id, other_conns: Seq::empty() })
                    &&& queue == waited
                    &&& replaced is None
                },
                PeerView::Active { conn_id: active, other_conns } => {
                    &&& post == (PeerView::Active {
                        conn_id,
                        other_conns: other_conns.push(active),
                    })
                    &&& queue.len() == 0
                    &&& replaced == Some(active)
                },
            }
        }),
{
}

/// A message that is to be sent is written as it is; when there will be no more, the stream is
/// finished.
pub proof fn law_writing(msg: MessageView)
    ensures
        on_received(Some(msg)) == SendStepView::Write(msg),
        on_received(None) == SendStepView::Finish,
{
}

// ---------------------------------------------------------------------------------------
// All of it
// ---------------------------------------------------------------------------------------

/// Whatever happens leads to what the rule for it says; and all of it can be dealt with, but for
/// an event whose numbers would run over.
pub proof fn law_happening<R, D>(
    pre: ActorView<R>,
    occurrence: Occurrence<R, D>,
    post: ActorView<R>,
    actions: Seq<ActionView<R, D>>,
)
    ensures
        can_follow_occurrence(pre, occurrence, post, actions) ==> match occurrence {
            Occurrence::Connection(id, conn_id, origin) => (post, actions) == on_connection::<R, D>(
                pre,
                id,
                conn_id,
                origin,
            ),
            Occurrence::Put { key, status, result } => can_follow_put(
                pre,
                key,
                status,
                result,
                post,
                actions,
            ),
            Occurrence::Get { key, result } => can_follow_get(pre, key, result, post, actions),
            Occurrence::AddPeer { node_addr, result } => exists|pulse: MessageView|
                pulse.data is Pulse && pulse.hops_to_live == 1 && pulse.depth == 0 && (
                    post,
                    actions,
                ) == #[trigger] on_add_peer::<R, D>(pre, node_addr@, result, pulse),
            Occurrence::Closed => post == pre && actions.len() == 0,
            Occurrence::Dialed(id, conn) => (post, actions) == on_dialed::<R, D>(pre, id, conn),
            Occurrence::Event(event) => comes_of(pre, pre.results, event@, post, actions),
            Occurrence::ConnectionEnded(id, conn_id) => can_follow_end(
                pre,
                id,
                conn_id,
                post,
                actions,
            ),
        },
        occurrence_fits(pre, occurrence) <==> (occurrence matches Occurrence::Event(event)
            ==> fits(pre.state, event@)),
{
    if can_follow_occurrence(pre, occurrence, post, actions) {
        if let Occurrence::Event(event) = occurrence {
            assert(pre == ActorView { results: pre.results, ..pre });
            lemma_comes_of(pre, pre.results, event@, post, actions);
        }
    }
}

// ---------------------------------------------------------------------------------------
// Nothing is hidden
// ---------------------------------------------------------------------------------------

/// What an action holds is shown whole.
pub proof fn law_actions_are_shown_whole<R, D>(action: Action<R, D>)
    ensures
        match action {
            Action::SetTimer { tx_id: t, peer_id: p, secs: s } => action@
                matches ActionView::SetTimer { tx_id, peer_id, secs } && tx_id == t && peer_id == p
                && secs == s,
            Action::Send { conn_id: c, msg: m } => action@ matches ActionView::Send { conn_id, msg }
                && conn_id == c && msg == m@,
            Action::StopSending { conn_id: c } => action@
                matches ActionView::StopSending { conn_id } && conn_id == c,
            Action::RunConnection {
                peer_id: p,
                conn_id: c,
                origin: o,
                queue: q,
                max_message_size: m,
            } => action@ matches ActionView::RunConnection {
                peer_id,
                conn_id,
                origin,
                queue,
                max_message_size,
            } && peer_id == p && conn_id == c && origin == o && max_message_size == m && queue.len()
                == q@.len() && forall|i: int|
                0 <= i < q@.len() ==> #[trigger] queue[i] == q@[i]@,
            Action::Dial { peer_id: p, result: r } => action@
                matches ActionView::Dial { peer_id, result } && peer_id == p && result == r,
            Action::AddNodeAddr(a) => action@ matches ActionView::AddNodeAddr(addr) && addr == a@,
            Action::CheckBlob { tx_id: t, key: k } => action@
                matches ActionView::CheckBlob { tx_id, key } && tx_id == t && key == k,
            Action::DownloadBlob { tx_id: t, from: f, key: k, size: s, max_storage_use: m } => {
                action@ matches ActionView::DownloadBlob {
                    tx_id,
                    from,
                    key,
                    size,
                    max_storage_use,
                } && tx_id == t && from == f@ && key == k && size == s && max_storage_use == m
            },
            Action::Reply { result: r, success: s } => action@
                matches ActionView::Reply { result, success } && result == r && success == s,
        },
{
}

/// What is known of the connection to a peer is shown whole.
pub proof fn law_peers_are_shown_whole(peer: PeerState)
    ensures
        match peer {
            PeerState::Pending { queue: q } => peer@ matches PeerView::Pending { queue }
                && queue.len() == q@.len() && forall|i: int|
                0 <= i < q@.len() ==> #[trigger] queue[i] == q@[i]@,
            PeerState::Active { conn_id: c, other_conns: o } => peer@
                matches PeerView::Active { conn_id, other_conns } && conn_id == c && other_conns
                == o@,
        },
{
}

/// What lists and tables hold is shown whole, item by item.
pub proof fn law_lists_are_shown_whole<R, D>(
    actions: Seq<Action<R, D>>,
    messages: Seq<Message>,
    peers: Map<PublicKey, PeerState>,
    msg: Message,
)
    ensures
        actions_of(actions).len() == actions.len(),
        forall|i: int| 0 <= i < actions.len() ==> #[trigger] actions_of(actions)[i] == actions[i]@,
        messages_of(messages).len() == messages.len(),
        forall|i: int|
            0 <= i < messages.len() ==> #[trigger] messages_of(messages)[i] == messages[i]@,
        forall|id: PublicKey| #[trigger]
            peers_of(peers).contains_key(id) <==> peers.contains_key(id),
        forall|id: PublicKey|
            peers.contains_key(id) ==> #[trigger] peers_of(peers)[id] == peers[id]@,
        message_of(Some(msg)) == Some(msg@),
        message_of(None) is None,
{
}

/// A pulse belongs to no search and no insertion, and goes no further than one hop; its identifier
/// has the bits for version and variant of a random UUID.
pub proof fn law_pulses(pulse: MessageView)
    requires
        is_pulse(pulse),
    ensures
        pulse.data is Pulse,
        pulse.hops_to_live == 1,
        pulse.depth == 0,
        (pulse.tx_id >> 76u128) & 0xf == 4,
        (pulse.tx_id >> 62u128) & 0x3 == 2,
{
}

} // verus!
