//! What holds of every running node.

use vstd::prelude::*;

use crate::net::actor::{
    can_follow, can_follow_get, can_follow_occurrence, can_follow_put, on_add_peer, on_connection,
    on_in_event, on_out_event, on_out_events, peer_of, ActionView, ActorView, ConnOrigin,
    Occurrence, TIMEOUT_SECS,
};
use crate::net::peer::{ConnId, PeerView};
use crate::net::reclaim::{
    by_age, candidates, kept, law_plan_makes_room, oldest, storage_use, to_reclaim, Blob,
    Candidate, Dated,
};
use crate::proto::addr::NodeAddrView;
use crate::proto::event::{BlobStatus, InEventView, OutEventView};
use crate::proto::keys::{BlobHash, PublicKey};
use crate::proto::message::{MessageView, TxId};
use crate::proto::model::{step, walk_for, Walk};
use crate::proto::state::fresh_for;

verus! {

/// Every message that the protocol sends has a timer, and either goes over the connection to
/// the peer at once, or is the last of the messages that wait for one.
pub proof fn law_message_is_sent_or_waits<R, D>(
    pre: ActorView<R>,
    peer_id: PublicKey,
    msg: MessageView,
)
    ensures
        ({
            let (post, actions) = on_out_event::<R, D>(
                pre,
                OutEventView::SendMessage(peer_id, msg),
            );
            let timer = ActionView::<R, D>::SetTimer {
                tx_id: msg.tx_id,
                peer_id,
                secs: TIMEOUT_SECS,
            };
            &&& actions[0] == timer
            &&& match peer_of(post.peers, peer_id) {
                PeerView::Active { conn_id, .. } => actions == seq![
                    timer,
                    ActionView::<R, D>::Send { conn_id, msg },
                ],
                PeerView::Pending { queue } => queue.len() > 0 && queue.last() == msg,
            }
        }),
{
}

/// The events with which the protocol sends these messages to a peer.
pub open spec fn sends(peer_id: PublicKey, msgs: Seq<MessageView>) -> Seq<OutEventView> {
    msgs.map_values(|m: MessageView| OutEventView::SendMessage(peer_id, m))
}

proof fn lemma_messages_wait<R, D>(
    pre: ActorView<R>,
    peer_id: PublicKey,
    queue: Seq<MessageView>,
    msgs: Seq<MessageView>,
)
    requires
        peer_of(pre.peers, peer_id) == (PeerView::Pending { queue }),
    ensures
        peer_of(on_out_events::<R, D>(pre, sends(peer_id, msgs)).0.peers, peer_id) == (
        PeerView::Pending { queue: queue + msgs }),
    decreases msgs.len(),
{
    if msgs.len() == 0 {
        assert(queue + msgs =~= queue);
    } else {
        lemma_messages_wait::<R, D>(pre, peer_id, queue, msgs.drop_last());
        assert(sends(peer_id, msgs).drop_last() =~= sends(peer_id, msgs.drop_last()));
        assert(queue + msgs =~= (queue + msgs.drop_last()).push(msgs.last()));
    }
}

/// No message that waits for a connection is lost, and none overtakes another: when the
/// connection is there, all go over it first, in the order in which they were sent.
pub proof fn law_waiting_messages_go_first<R, D>(
    pre: ActorView<R>,
    peer_id: PublicKey,
    queue: Seq<MessageView>,
    msgs: Seq<MessageView>,
    conn_id: ConnId,
    origin: ConnOrigin,
)
    requires
        peer_of(pre.peers, peer_id) == (PeerView::Pending { queue }),
    ensures
        ({
            let (mid, _) = on_out_events::<R, D>(pre, sends(peer_id, msgs));
            let (_, actions) = on_connection::<R, D>(mid, peer_id, conn_id, origin);
            actions == seq![
                ActionView::<R, D>::RunConnection {
                    peer_id,
                    conn_id,
                    origin,
                    queue: queue + msgs,
                    max_message_size: mid.state.config.max_message_size,
                },
            ]
        }),
{
    lemma_messages_wait::<R, D>(pre, peer_id, queue, msgs);
}

/// Whether every peer for which messages wait is being dialed.
pub open spec fn waiting_are_dialed<R>(actor: ActorView<R>) -> bool {
    forall|p: PublicKey| #[trigger]
        actor.peers.contains_key(p) ==> (actor.peers[p] matches PeerView::Pending { queue }
            ==> queue.len() > 0 ==> actor.dialing.contains(p))
}

proof fn lemma_out_events_dial<R, D>(pre: ActorView<R>, events: Seq<OutEventView>)
    requires
        waiting_are_dialed(pre),
    ensures
        waiting_are_dialed(on_out_events::<R, D>(pre, events).0),
    decreases events.len(),
{
    if events.len() > 0 {
        lemma_out_events_dial::<R, D>(pre, events.drop_last());
        let mid = on_out_events::<R, D>(pre, events.drop_last()).0;
        assert(waiting_are_dialed(on_out_event::<R, D>(mid, events.last()).0));
    }
}

proof fn lemma_in_event_dials<R, D>(
    pre: ActorView<R>,
    event: InEventView,
    post: ActorView<R>,
    actions: Seq<ActionView<R, D>>,
)
    requires
        waiting_are_dialed(pre),
        can_follow(pre, event, post, actions),
    ensures
        waiting_are_dialed(post),
{
    let (coin, fresh, walk) = choose|coin: bool, fresh: TxId, walk: Walk|
        #![trigger walk_for(pre.state, event, coin, walk), fresh_for(event, fresh)]
        walk_for(pre.state, event, coin, walk) && fresh_for(event, fresh) && (post, actions)
            == on_in_event::<R, D>(pre, event, coin, fresh, walk);
    let (state, out) = step(pre.state, event, coin, fresh, walk);
    lemma_out_events_dial::<R, D>(ActorView { state, ..pre }, out);
}

/// A peer for which messages wait is being dialed. This goes on to hold whatever happens, other
/// than that a dial fails.
pub proof fn law_waiting_peers_are_dialed<R, D>(
    pre: ActorView<R>,
    occurrence: Occurrence<R, D>,
    post: ActorView<R>,
    actions: Seq<ActionView<R, D>>,
)
    requires
        waiting_are_dialed(pre),
        can_follow_occurrence(pre, occurrence, post, actions),
        !(occurrence matches Occurrence::Dialed(_, conn) && conn is None),
    ensures
        waiting_are_dialed(post),
{
    match occurrence {
        Occurrence::Put { key, status, result } => {
            let asked = ActorView { results: pre.results.insert(key, result), ..pre };
            if let BlobStatus::Complete { size } = status {
                lemma_in_event_dials(asked, InEventView::Insert(key, size), post, actions);
            }
        },
        Occurrence::Get { key, result } => {
            let asked = ActorView { results: pre.results.insert(key, result), ..pre };
            lemma_in_event_dials(asked, InEventView::Find(key), post, actions);
        },
        Occurrence::Event(event) => {
            lemma_in_event_dials(pre, event@, post, actions);
        },
        Occurrence::ConnectionEnded(peer_id, conn_id) => {
            if let PeerView::Active { conn_id: active, .. } = peer_of(pre.peers, peer_id) {
                if active == conn_id {
                    lemma_in_event_dials(
                        pre,
                        InEventView::PeerDisconnected(peer_id),
                        post,
                        actions,
                    );
                }
            }
        },
        _ => {},
    }
}

/// Whoever waits for a search or an insertion is told its outcome, once: when the protocol
/// reports it the request is answered accordingly, and forgotten.
pub proof fn law_request_is_answered_once<R, D>(
    pre: ActorView<R>,
    key: BlobHash,
    event: OutEventView,
)
    requires
        pre.results.contains_key(key),
        match event {
            OutEventView::Downloaded(k, _) => k == key,
            OutEventView::Inserted(k) => k == key,
            OutEventView::NotFound(k) => k == key,
            OutEventView::NotInserted(k) => k == key,
            _ => false,
        },
    ensures
        ({
            let (post, actions) = on_out_event::<R, D>(pre, event);
            &&& actions == seq![
                ActionView::<R, D>::Reply {
                    result: pre.results[key],
                    success: event is Downloaded || event is Inserted,
                },
            ]
            &&& !post.results.contains_key(key)
            &&& on_out_event::<R, D>(post, event) == (post, Seq::<ActionView<R, D>>::empty())
        }),
{
}

/// A node without peers finds nothing: a search is answered at once.
pub proof fn law_search_without_peers_fails<R, D>(
    pre: ActorView<R>,
    key: BlobHash,
    result: R,
    post: ActorView<R>,
    actions: Seq<ActionView<R, D>>,
)
    requires
        pre.state.peers == Set::<PublicKey>::empty(),
        can_follow_get(pre, key, result, post, actions),
    ensures
        actions == seq![ActionView::<R, D>::Reply { result, success: false }],
        !post.results.contains_key(key),
{
    let asked = ActorView { results: pre.results.insert(key, result), ..pre };
    let event = InEventView::Find(key);
    let (coin, fresh, walk) = choose|coin: bool, fresh: TxId, walk: Walk|
        #![trigger walk_for(asked.state, event, coin, walk), fresh_for(event, fresh)]
        walk_for(asked.state, event, coin, walk) && fresh_for(event, fresh) && (post, actions)
            == on_in_event::<R, D>(asked, event, coin, fresh, walk);
    let (state, out) = step(asked.state, event, coin, fresh, walk);
    assert(out =~= seq![OutEventView::NotFound(key)]);
    lemma_one_out_event::<R, D>(ActorView { state, ..asked }, out);
}

/// A node without peers cannot insert anything: an insertion is answered at once.
pub proof fn law_insertion_without_peers_fails<R, D>(
    pre: ActorView<R>,
    key: BlobHash,
    status: BlobStatus,
    result: R,
    post: ActorView<R>,
    actions: Seq<ActionView<R, D>>,
)
    requires
        pre.state.peers == Set::<PublicKey>::empty(),
        can_follow_put(pre, key, status, result, post, actions),
    ensures
        actions == seq![ActionView::<R, D>::Reply { result, success: false }],
{
    if let BlobStatus::Complete { size } = status {
        let asked = ActorView { results: pre.results.insert(key, result), ..pre };
        let event = InEventView::Insert(key, size);
        let (coin, fresh, walk) = choose|coin: bool, fresh: TxId, walk: Walk|
            #![trigger walk_for(asked.state, event, coin, walk), fresh_for(event, fresh)]
            walk_for(asked.state, event, coin, walk) && fresh_for(event, fresh) && (post, actions)
                == on_in_event::<R, D>(asked, event, coin, fresh, walk);
        let (state, out) = step(asked.state, event, coin, fresh, walk);
        assert(out =~= seq![OutEventView::NotInserted(key)]);
        lemma_one_out_event::<R, D>(ActorView { state, ..asked }, out);
    }
}

proof fn lemma_one_out_event<R, D>(pre: ActorView<R>, out: Seq<OutEventView>)
    requires
        out.len() == 1,
    ensures
        on_out_events::<R, D>(pre, out) == on_out_event::<R, D>(pre, out[0]),
{
    reveal_with_fuel(on_out_events, 2);
    let (post, actions) = on_out_event::<R, D>(pre, out[0]);
    assert(Seq::<ActionView<R, D>>::empty() + actions =~= actions);
    assert(out.drop_last().len() == 0);
}

/// A node that is made a peer is one that the protocol may send requests to, whether or not
/// there is a connection to it.
pub proof fn law_added_peer_is_known<R, D>(
    pre: ActorView<R>,
    node_addr: NodeAddrView,
    result: D,
    pulse: MessageView,
)
    ensures
        on_add_peer::<R, D>(pre, node_addr, result, pulse).0.state.peers
            == pre.state.peers.insert(node_addr.node_id),
{
}

/// A download keeps to the storage limit: when the protocol asks for one, the node is told its
/// configured limit, and if the plan that is made with it says that there is enough, the blob and
/// what the plan leaves of the store do not exceed it.
pub proof fn law_downloads_keep_to_the_limit<R, D>(
    pre: ActorView<R>,
    tx_id: TxId,
    from: NodeAddrView,
    key: BlobHash,
    size: u64,
    tags: Seq<Dated>,
    blobs: Seq<Blob>,
    queue: Seq<Candidate>,
)
    requires
        by_age(queue, candidates(tags, blobs)),
    ensures
        ({
            let limit = pre.state.config.max_storage_use;
            let (post, actions) = on_out_event::<R, D>(
                pre,
                OutEventView::DownloadBlob(tx_id, from, key, size),
            );
            let (delete, enough) = oldest(queue, to_reclaim(blobs, size, limit));
            &&& actions == seq![
                ActionView::<R, D>::DownloadBlob { tx_id, from, key, size, max_storage_use: limit },
            ]
            &&& enough ==> storage_use(kept(blobs, delete)) + size <= limit
        }),
{
    law_plan_makes_room(tags, blobs, queue, size, pre.state.config.max_storage_use);
}

} // verus!
