//! What holds of every node, whatever happens to it.

use vstd::prelude::*;

use crate::proto::addr::NodeAddrView;
use crate::proto::event::{BlobStatus, Config, DownloadOutcome, InEventView, OutEventView};
use crate::proto::keys::{BlobHash, PublicKey};
use crate::proto::message::{DataView, MessageView, TxId};
use crate::proto::model::{
    drops, fits_with, forward, next_hops, on_message, opens, pass_on, refusal, reply, send,
    send_all, step, tx_key, tx_tried, walk_for, StateView, Walk,
};
use crate::proto::peers::{lemma_walk_of_nothing, walks};
use crate::proto::tx::TxView;

verus! {

/// Whether no transaction is finished and still remembered.
pub open spec fn settled(state: StateView) -> bool {
    forall|id: TxId| #[trigger]
        state.transactions.contains_key(id) ==> !(state.transactions[id] is Finished)
}

/// Whether every message among these events has a property.
pub open spec fn all_sent(
    out: Seq<OutEventView>,
    p: spec_fn(PublicKey, MessageView) -> bool,
) -> bool {
    forall|i: int|
        0 <= i < out.len() ==> (#[trigger] out[i] matches OutEventView::SendMessage(to, msg)
            ==> p(to, msg))
}

/// Whether these events tell of the node `id`.
pub open spec fn announced(out: Seq<OutEventView>, id: PublicKey) -> bool {
    exists|i: int|
        0 <= i < out.len() && (#[trigger] out[i] matches OutEventView::PeerInfo(addr)
            && addr.node_id == id)
}

/// The peer whose message an event brings.
pub open spec fn sender(event: InEventView) -> Option<PublicKey> {
    match event {
        InEventView::RecvMessage(peer, _) => Some(peer),
        _ => None,
    }
}

/// A finished transaction is forgotten at once.
pub proof fn law_finished_is_forgotten(
    pre: StateView,
    event: InEventView,
    coin: bool,
    fresh: TxId,
    walk: Walk,
)
    ensures
        settled(step(pre, event, coin, fresh, walk).0),
{
}

/// No event changes who a node is or how it is configured.
pub proof fn law_identity_is_kept(
    pre: StateView,
    event: InEventView,
    coin: bool,
    fresh: TxId,
    walk: Walk,
)
    ensures
        step(pre, event, coin, fresh, walk).0.node_addr == pre.node_addr,
        step(pre, event, coin, fresh, walk).0.config == pre.config,
{
}

/// A pulse neither changes a node nor makes it say anything.
pub proof fn law_pulse_does_nothing(
    pre: StateView,
    peer: PublicKey,
    msg: MessageView,
    coin: bool,
    fresh: TxId,
    walk: Walk,
)
    requires
        settled(pre),
        msg.data is Pulse,
    ensures
        step(pre, InEventView::RecvMessage(peer, msg), coin, fresh, walk) == (
            pre,
            Seq::<OutEventView>::empty(),
        ),
{
    let (post, out) = step(pre, InEventView::RecvMessage(peer, msg), coin, fresh, walk);
    assert(post.transactions =~= pre.transactions);
}

/// A message that belongs to no transaction and opens none is refused: the sender is answered
/// with an error, and the node stays as it was.
pub proof fn law_stray_message_is_refused(
    pre: StateView,
    peer: PublicKey,
    msg: MessageView,
    coin: bool,
    fresh: TxId,
    walk: Walk,
)
    requires
        settled(pre),
        !(msg.data is Pulse),
        !opens(msg.data),
        !drops(msg, coin),
        !pre.transactions.contains_key(msg.tx_id),
    ensures
        step(pre, InEventView::RecvMessage(peer, msg), coin, fresh, walk) == (
            pre,
            seq![refusal(peer, msg)],
        ),
{
    let (post, out) = step(pre, InEventView::RecvMessage(peer, msg), coin, fresh, walk);
    assert(post.transactions =~= pre.transactions);
}

/// A second request within one transaction is refused, and the transaction counts as violated
/// from then on.
pub proof fn law_second_request_is_refused(
    pre: StateView,
    peer: PublicKey,
    msg: MessageView,
    coin: bool,
    fresh: TxId,
    walk: Walk,
)
    requires
        opens(msg.data),
        !drops(msg, coin),
        pre.transactions.contains_key(msg.tx_id),
        !(pre.transactions[msg.tx_id] is Starting),
    ensures
        ({
            let (post, out) = step(pre, InEventView::RecvMessage(peer, msg), coin, fresh, walk);
            &&& out == seq![refusal(peer, msg)]
            &&& post.transactions.contains_key(msg.tx_id)
            &&& post.transactions[msg.tx_id] == (TxView::Errored { from: peer })
            &&& post.peers == pre.peers.insert(peer)
        }),
{
}

/// A violated transaction stays so until the node that it belongs to disconnects, unless the
/// node draws its identifier anew.
pub proof fn law_violation_is_permanent(
    pre: StateView,
    id: TxId,
    event: InEventView,
    coin: bool,
    fresh: TxId,
    walk: Walk,
)
    requires
        pre.transactions.contains_key(id),
        pre.transactions[id] is Errored,
        event is Find || event is Insert ==> fresh != id,
    ensures
        ({
            let post = step(pre, event, coin, fresh, walk).0;
            if event == InEventView::PeerDisconnected(pre.transactions[id].owner()) {
                !post.transactions.contains_key(id)
            } else {
                post.transactions.contains_key(id) && post.transactions[id] is Errored
            }
        }),
{
}

/// A message that a node drops on the last of its hops is answered: the sender is told that
/// nothing was found.
pub proof fn law_dropped_message_is_answered(
    pre: StateView,
    peer: PublicKey,
    msg: MessageView,
    fresh: TxId,
    walk: Walk,
)
    requires
        !(msg.data is Pulse),
        msg.hops_to_live == 1,
    ensures
        ({
            let out = step(pre, InEventView::RecvMessage(peer, msg), true, fresh, walk).1;
            out.len() > 0 && out.last() == reply(peer, msg.tx_id, msg.depth, DataView::NotFound)
        }),
{
}

/// When a peer disconnects, it is no peer any more and the transactions that belong to it are
/// gone; nothing else changes and nothing is sent.
pub proof fn law_disconnected_peer_is_forgotten(
    pre: StateView,
    peer: PublicKey,
    coin: bool,
    fresh: TxId,
    walk: Walk,
)
    requires
        settled(pre),
    ensures
        ({
            let (post, out) = step(
                pre,
                InEventView::PeerDisconnected(peer),
                coin,
                fresh,
                walk,
            );
            &&& out == Seq::<OutEventView>::empty()
            &&& !post.peers.contains(peer)
            &&& forall|p: PublicKey| p != peer ==> post.peers.contains(p) == pre.peers.contains(p)
            &&& forall|id: TxId| #[trigger]
                post.transactions.contains_key(id) <==> pre.transactions.contains_key(id)
                    && pre.transactions[id].owner() != peer
            &&& forall|id: TxId| #[trigger]
                post.transactions.contains_key(id) ==> post.transactions[id]
                    == pre.transactions[id]
        }),
{
}

/// The transaction that an event is about.
pub open spec fn subject(event: InEventView, fresh: TxId) -> Option<TxId> {
    match event {
        InEventView::RecvMessage(_, msg) => Some(msg.tx_id),
        InEventView::CheckedBlob(id, _) => Some(id),
        InEventView::DownloadedBlob(id, _) => Some(id),
        InEventView::Timeout(id, _) => Some(id),
        InEventView::Find(_) => Some(fresh),
        InEventView::Insert(_, _) => Some(fresh),
        InEventView::PeerDisconnected(_) => None,
    }
}

/// An event of one transaction leaves all others as they are.
pub proof fn law_transactions_are_independent(
    pre: StateView,
    id: TxId,
    event: InEventView,
    coin: bool,
    fresh: TxId,
    walk: Walk,
)
    requires
        settled(pre),
        subject(event, fresh) is Some,
        subject(event, fresh) != Some(id),
    ensures
        ({
            let post = step(pre, event, coin, fresh, walk).0;
            &&& post.transactions.contains_key(id) == pre.transactions.contains_key(id)
            &&& pre.transactions.contains_key(id) ==> post.transactions[id]
                == pre.transactions[id]
        }),
{
}

/// A node gets to know peers only by their own messages and by addresses that it passes on: a
/// peer that it learns of from a message is announced with the events of the same step. And it
/// forgets a peer only when that peer disconnects.
pub proof fn law_discovered_peers_are_announced(
    pre: StateView,
    event: InEventView,
    coin: bool,
    fresh: TxId,
    walk: Walk,
)
    ensures
        ({
            let (post, out) = step(pre, event, coin, fresh, walk);
            &&& forall|p: PublicKey| #[trigger]
                post.peers.contains(p) ==> pre.peers.contains(p) || sender(event) == Some(p)
                    || announced(out, p)
            &&& forall|p: PublicKey| #[trigger]
                pre.peers.contains(p) ==> post.peers.contains(p) || event
                    == InEventView::PeerDisconnected(p)
        }),
{
    let (post, out) = step(pre, event, coin, fresh, walk);
    assert forall|p: PublicKey| #[trigger] post.peers.contains(p) implies pre.peers.contains(p)
        || sender(event) == Some(p) || announced(out, p) by {
        if out.len() > 0 && out[0] is PeerInfo {
            assert(out[0] matches OutEventView::PeerInfo(addr));
        }
    }
}

/// Whether a message may still travel; an error may be sent without any hops left.
pub open spec fn can_travel() -> spec_fn(PublicKey, MessageView) -> bool {
    |to: PublicKey, msg: MessageView| msg.data is Error || msg.hops_to_live >= 1
}

/// Every message that a node sends, other than an error, has at least one hop to live.
pub proof fn law_messages_can_travel(
    pre: StateView,
    event: InEventView,
    coin: bool,
    fresh: TxId,
    walk: Walk,
)
    requires
        fits_with(pre, event, coin),
        walk_for(pre, event, coin, walk),
    ensures
        all_sent(step(pre, event, coin, fresh, walk).1, can_travel()),
{
    lemma_send_all(walk.order);
}

/// Whether a message that says where data can be had names the node `me`.
pub open spec fn names_only(me: NodeAddrView) -> spec_fn(PublicKey, MessageView) -> bool {
    |to: PublicKey, msg: MessageView|
        {
            &&& msg.data matches DataView::Found { from, .. } ==> from == me
            &&& msg.data matches DataView::Ready { addr, .. } ==> addr == me
        }
}

/// A node that says where data was found, or can be had, names itself and nobody else: what it
/// passes on does not tell where the data came from.
pub proof fn law_sources_are_not_disclosed(
    pre: StateView,
    event: InEventView,
    coin: bool,
    fresh: TxId,
    walk: Walk,
)
    ensures
        all_sent(step(pre, event, coin, fresh, walk).1, names_only(pre.node_addr)),
{
    lemma_send_all(walk.order);
}

/// Each of the messages that go to all peers of an order is the message for the peer in its
/// place.
proof fn lemma_send_all(order: Seq<PublicKey>)
    ensures
        forall|id: TxId, hops: u64, data: DataView, i: int|
            0 <= i < order.len() ==> #[trigger] send_all(order, id, hops, data)[i] == send(
                order[i],
                id,
                hops,
                0,
                data,
            ),
{
}

/// Whether a node of `known` is meant.
pub open spec fn addressed_to(known: Set<PublicKey>) -> spec_fn(PublicKey, MessageView) -> bool {
    |to: PublicKey, msg: MessageView| known.contains(to)
}

/// Whether `known` holds every node that a transaction mentions.
pub open spec fn covers(known: Set<PublicKey>, tx: TxView) -> bool {
    &&& known.contains(tx.owner())
    &&& tx matches TxView::Inserting { from, .. } ==> known.contains(from)
    &&& tx_tried(tx).subset_of(known)
}

/// Whether `known` holds every node that a node has heard of, itself among them.
pub open spec fn covers_all(known: Set<PublicKey>, state: StateView) -> bool {
    &&& known.contains(state.id())
    &&& state.peers.subset_of(known)
    &&& forall|id: TxId| #[trigger]
        state.transactions.contains_key(id) ==> covers(known, state.transactions[id])
}

/// The nodes that are known after an event: those known before, the sender of the message, and
/// those that the node announces.
pub open spec fn known_after(
    known: Set<PublicKey>,
    event: InEventView,
    out: Seq<OutEventView>,
) -> Set<PublicKey> {
    Set::new(|p: PublicKey| known.contains(p) || sender(event) == Some(p) || announced(out, p))
}

/// A node sends messages only to nodes that it was told of: to those known before, to the one
/// whose message it handles, and to those that it announces in the same step.
pub proof fn law_messages_go_to_known_nodes(
    known: Set<PublicKey>,
    pre: StateView,
    event: InEventView,
    coin: bool,
    fresh: TxId,
    walk: Walk,
)
    requires
        covers_all(known, pre),
        walk_for(pre, event, coin, walk),
    ensures
        ({
            let (post, out) = step(pre, event, coin, fresh, walk);
            let now = known_after(known, event, out);
            &&& covers_all(now, post)
            &&& all_sent(out, addressed_to(now))
        }),
{
    let (post, out) = step(pre, event, coin, fresh, walk);
    let now = known_after(known, event, out);
    lemma_send_all(walk.order);
    if out.len() > 0 && out[0] is PeerInfo {
        assert(announced(out, out[0]->PeerInfo_0.node_id));
    }
    assert forall|i: int| 0 <= i < walk.order.len() implies walk.order.to_set().contains(
        #[trigger] walk.order[i],
    ) by {
        assert(walk.order.contains(walk.order[i]));
    }
}

/// Whether a request goes to a node of `peers` that the transaction neither belongs to nor has
/// tried.
pub open spec fn asks_anew(
    peers: Set<PublicKey>,
    tx: TxView,
) -> spec_fn(PublicKey, MessageView) -> bool {
    |to: PublicKey, msg: MessageView|
        opens(msg.data) ==> {
            &&& peers.contains(to)
            &&& to != tx.owner()
            &&& !tx_tried(tx).contains(to)
        }
}

/// Within a transaction a request goes only to peers, never back to the node that the
/// transaction belongs to, and never to a peer that has sent it back.
pub proof fn law_requests_go_to_untried_peers(
    pre: StateView,
    id: TxId,
    event: InEventView,
    coin: bool,
    fresh: TxId,
    walk: Walk,
)
    requires
        !(event is Find),
        !(event is Insert),
        subject(event, fresh) == Some(id),
        pre.transactions.contains_key(id),
        walk_for(pre, event, coin, walk),
    ensures
        all_sent(
            step(pre, event, coin, fresh, walk).1,
            asks_anew(pre.peers, pre.transactions[id]),
        ),
{
    lemma_send_all(walk.order);
}

/// As long as a transaction goes on, a peer that it has tried stays tried, and a peer that
/// sends the request back becomes so.
pub proof fn law_tried_peers_stay_tried(
    pre: StateView,
    id: TxId,
    event: InEventView,
    coin: bool,
    fresh: TxId,
    walk: Walk,
)
    requires
        pre.transactions.contains_key(id),
        pre.transactions[id] is Finding || pre.transactions[id] is Inserting,
        event is Find || event is Insert ==> fresh != id,
    ensures
        ({
            let post = step(pre, event, coin, fresh, walk).0;
            post.transactions.contains_key(id) && (post.transactions[id] is Finding
                || post.transactions[id] is Inserting) ==> {
                &&& tx_tried(pre.transactions[id]).subset_of(tx_tried(post.transactions[id]))
                &&& event matches InEventView::RecvMessage(peer, msg) ==> msg.tx_id == id
                    && msg.data is Continue && !drops(msg, coin)
                    && pre.transactions[id].owner() != peer ==> tx_tried(
                    post.transactions[id],
                ).contains(peer)
            }
        }),
{
}

/// A request loses a hop each time it is passed on, down to the last one.
pub proof fn law_hops_run_down(hops: u64)
    requires
        hops >= 1,
    ensures
        1 <= next_hops(hops) <= hops,
        hops >= 2 ==> next_hops(hops) == hops - 1,
{
}

/// A search is over once its data is downloaded: the node that looks for the data for itself
/// reports the download, any other one tells the node that asked it, and the transaction is
/// gone.
pub proof fn law_download_ends_search(
    pre: StateView,
    id: TxId,
    outcome: DownloadOutcome,
    coin: bool,
    fresh: TxId,
    walk: Walk,
)
    requires
        pre.transactions.contains_key(id),
        pre.transactions[id] is Finding,
    ensures
        ({
            let tx = pre.transactions[id];
            let (post, out) = step(
                pre,
                InEventView::DownloadedBlob(id, outcome),
                coin,
                fresh,
                walk,
            );
            &&& !post.transactions.contains_key(id)
            &&& out.len() == 1
            &&& tx.owner() == pre.id() ==> out[0] == OutEventView::Downloaded(
                tx_key(tx),
                outcome,
            )
            &&& tx.owner() != pre.id() ==> (out[0] matches OutEventView::SendMessage(to, msg)
                && to == tx.owner() && msg.tx_id == id && msg.data == (DataView::Ready {
                addr: pre.node_addr,
                data: tx_key(tx),
                size: outcome.local_size,
            }))
        }),
{
}

/// A search is over once its request has run out of hops: the node that looks for the data for
/// itself reports that it was not found, any other one tells the node that asked it, and the
/// transaction is gone.
pub proof fn law_not_found_ends_search(
    pre: StateView,
    peer: PublicKey,
    msg: MessageView,
    coin: bool,
    fresh: TxId,
    walk: Walk,
)
    requires
        msg.data is NotFound,
        !drops(msg, coin),
        pre.transactions.contains_key(msg.tx_id),
        pre.transactions[msg.tx_id] is Finding,
        pre.transactions[msg.tx_id].owner() != peer,
    ensures
        ({
            let tx = pre.transactions[msg.tx_id];
            let (post, out) = step(pre, InEventView::RecvMessage(peer, msg), coin, fresh, walk);
            &&& !post.transactions.contains_key(msg.tx_id)
            &&& out.len() == 1
            &&& tx.owner() == pre.id() ==> out[0] == OutEventView::NotFound(tx_key(tx))
            &&& tx.owner() != pre.id() ==> (out[0] matches OutEventView::SendMessage(to, answer)
                && to == tx.owner() && answer.tx_id == msg.tx_id && answer.data is NotFound)
        }),
{
}

/// Data can be retrieved from a peer that stores it. Let node `a` look for `key`, ask its peer
/// `b`, and let `b` find the data of `size` bytes in its store, and let each message reach the
/// other node. Then `a` is told to download the data from `b`, and once it has done so it
/// reports the download and has forgotten the transaction.
pub proof fn law_stored_data_is_retrieved(
    a: StateView,
    b: StateView,
    key: BlobHash,
    size: u64,
    id: TxId,
    outcome: DownloadOutcome,
    coin: bool,
    other: TxId,
    first: Walk,
    walk: Walk,
)
    requires
        a.id() != b.id(),
        !b.transactions.contains_key(id),
        first.pick == Some(b.id()),
    ensures
        ({
            let find = MessageView {
                tx_id: id,
                hops_to_live: 5,
                depth: 0,
                data: DataView::Find { key },
            };
            let found = MessageView {
                tx_id: id,
                hops_to_live: 2,
                depth: 0,
                data: DataView::Found { from: b.node_addr, size },
            };
            let ready = MessageView {
                tx_id: id,
                hops_to_live: 2,
                depth: 0,
                data: DataView::Ready { addr: b.node_addr, data: key, size },
            };
            let (a1, asked) = step(a, InEventView::Find(key), coin, id, first);
            let (b1, checks) = step(b, InEventView::RecvMessage(a.id(), find), coin, other, walk);
            let (b2, offers) = step(
                b1,
                InEventView::CheckedBlob(id, BlobStatus::Complete { size }),
                coin,
                other,
                walk,
            );
            let (a2, hears) = step(a1, InEventView::RecvMessage(b.id(), found), coin, other, walk);
            let (a3, fetches) = step(
                a2,
                InEventView::RecvMessage(b.id(), ready),
                coin,
                other,
                walk,
            );
            let (a4, reports) = step(
                a3,
                InEventView::DownloadedBlob(id, outcome),
                coin,
                other,
                walk,
            );
            &&& asked == seq![OutEventView::SendMessage(b.id(), find)]
            &&& checks == seq![OutEventView::CheckBlob(id, key)]
            &&& offers == seq![
                OutEventView::SendMessage(a.id(), found),
                OutEventView::SendMessage(a.id(), ready),
            ]
            &&& hears == seq![OutEventView::PeerInfo(b.node_addr), OutEventView::Found(key)]
            &&& fetches == seq![
                OutEventView::PeerInfo(b.node_addr),
                OutEventView::DownloadBlob(id, b.node_addr, key, size),
            ]
            &&& reports == seq![OutEventView::Downloaded(key, outcome)]
            &&& !a4.transactions.contains_key(id)
        }),
{
}

/// A message.
pub open spec fn told(tx_id: TxId, hops_to_live: u64, depth: u64, data: DataView) -> MessageView {
    MessageView { tx_id, hops_to_live, depth, data }
}

/// A node that does not store the data relays a search, wherever it stands on the way. Let `b` be
/// asked by `asker` with `hops` left and after `depth` nodes, ask its peer `c`, and let `c` offer
/// the data of `size` bytes. Then `b` says under its own name that the data was found, is told to
/// download it from `c`, and once it has done so offers it to `asker` under its own name; and the
/// transaction is forgotten.
pub proof fn law_relay_hands_data_on(
    b: StateView,
    c: NodeAddrView,
    asker: PublicKey,
    key: BlobHash,
    size: u64,
    id: TxId,
    hops: u64,
    depth: u64,
    back_hops: u64,
    back_depth: u64,
    status: BlobStatus,
    outcome: DownloadOutcome,
    coin: bool,
    other: TxId,
    onward: Walk,
    walk: Walk,
)
    requires
        b.id() != asker,
        c.node_id != asker,
        !b.transactions.contains_key(id),
        !(status is Complete),
        onward.pick == Some(c.node_id),
        !drops(told(id, hops, depth, DataView::Find { key }), coin),
        back_hops >= 2,
    ensures
        ({
            let find = DataView::Find { key };
            let found = |by: NodeAddrView| DataView::Found { from: by, size };
            let offer = DataView::Ready { addr: c, data: key, size };
            let offer_on = DataView::Ready {
                addr: b.node_addr,
                data: key,
                size: outcome.local_size,
            };
            let received = |by: StateView, from: PublicKey, msg: MessageView|
                step(by, InEventView::RecvMessage(from, msg), coin, other, walk);
            let (b1, out1) = received(b, asker, told(id, hops, depth, find));
            let (b2, out2) = step(b1, InEventView::CheckedBlob(id, status), coin, other, onward);
            let (b3, out3) = received(b2, c.node_id, told(id, back_hops, back_depth, found(c)));
            let (b4, out4) = received(b3, c.node_id, told(id, back_hops, back_depth, offer));
            let (b5, out5) = step(b4, InEventView::DownloadedBlob(id, outcome), coin, other, walk);
            &&& out1 == seq![OutEventView::CheckBlob(id, key)]
            &&& out2 == seq![forward(c.node_id, id, hops, depth, find)]
            &&& out3 == seq![
                OutEventView::PeerInfo(c),
                pass_on(
                    asker,
                    told(id, back_hops, back_depth, found(c)),
                    found(b.node_addr),
                ),
            ]
            &&& out4 == seq![
                OutEventView::PeerInfo(c),
                OutEventView::DownloadBlob(id, c, key, size),
            ]
            &&& out5 == seq![reply(asker, id, depth, offer_on)]
            &&& !b5.transactions.contains_key(id)
        }),
{
}

/// Data can be retrieved over a relay. Let node `a` look for `key` and ask its peer `b`, which
/// does not store the data and asks its peer `c`, which stores `size` bytes of it, and let each
/// message reach the node that it is for. Then `b` is told to download the data from `c`, and
/// once it has done so offers it to `a` under its own name; `a` is told to download it from `b`,
/// and once it has done so it reports the download and has forgotten the transaction, as `b` has.
pub proof fn law_data_is_retrieved_over_a_relay(
    a: StateView,
    b: StateView,
    c: StateView,
    key: BlobHash,
    size: u64,
    id: TxId,
    status: BlobStatus,
    at_b: DownloadOutcome,
    at_a: DownloadOutcome,
    coin: bool,
    other: TxId,
    first: Walk,
    second: Walk,
    walk: Walk,
)
    requires
        a.id() != b.id(),
        a.id() != c.id(),
        b.id() != c.id(),
        !b.transactions.contains_key(id),
        !c.transactions.contains_key(id),
        !(status is Complete),
        first.pick == Some(b.id()),
        second.pick == Some(c.id()),
    ensures
        ({
            let find = DataView::Find { key };
            let found = |by: StateView| DataView::Found { from: by.node_addr, size };
            let from_c = DataView::Ready { addr: c.node_addr, data: key, size };
            let from_b = DataView::Ready { addr: b.node_addr, data: key, size: at_b.local_size };
            let received = |by: StateView, from: StateView, msg: MessageView|
                step(by, InEventView::RecvMessage(from.id(), msg), coin, other, walk);
            // The request goes from `a` over `b` to `c`.
            let (a1, out1) = step(a, InEventView::Find(key), coin, id, first);
            let (b1, out2) = received(b, a, told(id, 5, 0, find));
            let (b2, out3) = step(b1, InEventView::CheckedBlob(id, status), coin, other, second);
            let (c1, out4) = received(c, b, told(id, 4, 1, find));
            let stored = InEventView::CheckedBlob(id, BlobStatus::Complete { size });
            let (c2, out5) = step(c1, stored, coin, other, walk);
            // The data goes to `b`.
            let (b3, out6) = received(b2, c, told(id, 3, 0, found(c)));
            let (b4, out7) = received(b3, c, told(id, 3, 0, from_c));
            let (b5, out8) = step(b4, InEventView::DownloadedBlob(id, at_b), coin, other, walk);
            // The data goes to `a`.
            let (a2, out9) = received(a1, b, told(id, 2, 1, found(b)));
            let (a3, out10) = received(a2, b, told(id, 2, 0, from_b));
            let (a4, out11) = step(a3, InEventView::DownloadedBlob(id, at_a), coin, other, walk);
            &&& out1 == seq![OutEventView::SendMessage(b.id(), told(id, 5, 0, find))]
            &&& out2 == seq![OutEventView::CheckBlob(id, key)]
            &&& out3 == seq![OutEventView::SendMessage(c.id(), told(id, 4, 1, find))]
            &&& out4 == seq![OutEventView::CheckBlob(id, key)]
            &&& out5 == seq![
                OutEventView::SendMessage(b.id(), told(id, 3, 0, found(c))),
                OutEventView::SendMessage(b.id(), told(id, 3, 0, from_c)),
            ]
            &&& out6 == seq![
                OutEventView::PeerInfo(c.node_addr),
                OutEventView::SendMessage(a.id(), told(id, 2, 1, found(b))),
            ]
            &&& out7 == seq![
                OutEventView::PeerInfo(c.node_addr),
                OutEventView::DownloadBlob(id, c.node_addr, key, size),
            ]
            &&& out8 == seq![OutEventView::SendMessage(a.id(), told(id, 2, 0, from_b))]
            &&& out9 == seq![OutEventView::PeerInfo(b.node_addr), OutEventView::Found(key)]
            &&& out10 == seq![
                OutEventView::PeerInfo(b.node_addr),
                OutEventView::DownloadBlob(id, b.node_addr, key, at_b.local_size),
            ]
            &&& out11 == seq![OutEventView::Downloaded(key, at_a)]
            &&& !a4.transactions.contains_key(id)
            &&& !b5.transactions.contains_key(id)
        }),
{
}

/// An order that goes through one peer is that peer.
proof fn lemma_walk_of_one(order: Seq<PublicKey>, peer: PublicKey)
    requires
        walks(order, Set::empty().insert(peer)),
    ensures
        order == seq![peer],
{
    assert(order.to_set().contains(peer));
    assert forall|i: int| 0 <= i < order.len() implies order[i] == peer by {
        assert(order.to_set().contains(order[i]));
    }
    if order.len() > 1 {
        assert(order[0] == order[1]);
    }
}

/// Data can be inserted. Let node `a` insert `key`, let the request go to its peer `b`, which
/// does not store the data and sends it on to its peer `c`, where it goes no further, and let
/// each message reach the node that it is for. Then `b` is told to download the data from `a`,
/// `c` is told to do so after it, and once both have done so `a` reports that the data was
/// inserted.
pub proof fn law_data_is_inserted(
    a: StateView,
    b: StateView,
    c: StateView,
    key: BlobHash,
    size: u64,
    id: TxId,
    status: BlobStatus,
    at_b: DownloadOutcome,
    at_c: DownloadOutcome,
    coin: bool,
    other: TxId,
    first: Walk,
    second: Walk,
    to_b: Walk,
    to_c: Walk,
    none: Walk,
)
    requires
        a.id() != b.id(),
        a.id() != c.id(),
        b.id() != c.id(),
        !b.transactions.contains_key(id),
        !c.transactions.contains_key(id),
        !(status is Complete),
        first.pick == Some(b.id()),
        second.pick == Some(c.id()),
        walks(to_b.order, Set::empty().insert(b.id())),
        walks(to_c.order, Set::empty().insert(c.id())),
        walks(none.order, Set::empty()),
    ensures
        ({
            let origin = a.node_addr;
            let request = DataView::Insert { from: origin, key, size };
            let from_a = DataView::Ready { addr: origin, data: key, size };
            let from_b = DataView::Ready { addr: b.node_addr, data: key, size: at_b.local_size };
            let received = |by: StateView, from: StateView, msg: MessageView, walk: Walk|
                step(by, InEventView::RecvMessage(from.id(), msg), coin, other, walk);
            // The request goes from `a` over `b` to `c`.
            let (a1, out1) = step(a, InEventView::Insert(key, size), coin, id, first);
            let (b1, out2) = received(b, a, told(id, 2, 0, request), none);
            let (b2, out3) = step(b1, InEventView::CheckedBlob(id, status), coin, other, second);
            let (c1, out4) = step(
                c,
                InEventView::RecvMessage(b.id(), told(id, 1, 1, request)),
                true,
                other,
                none,
            );
            // The answer goes the same way back.
            let (b3, out5) = received(b2, c, told(id, 3, 0, DataView::NotFound), none);
            let (a2, out6) = received(a1, b, told(id, 2, 1, DataView::NotFound), to_b);
            // The data goes to `b` and `c`.
            let (b4, out7) = received(b3, a, told(id, 5, 0, from_a), none);
            let (b5, out8) = step(b4, InEventView::DownloadedBlob(id, at_b), coin, other, to_c);
            let (c2, out9) = received(c1, b, told(id, 2, 0, from_b), none);
            let (c3, out10) = step(c2, InEventView::DownloadedBlob(id, at_c), coin, other, none);
            // The success is reported.
            let (b6, out11) = received(b5, c, told(id, 3, 0, DataView::Inserted), none);
            let (a3, out12) = received(a2, b, told(id, 2, 1, DataView::Inserted), none);
            &&& out1 == seq![OutEventView::SendMessage(b.id(), told(id, 2, 0, request))]
            &&& out2 == seq![OutEventView::PeerInfo(origin), OutEventView::CheckBlob(id, key)]
            &&& out3 == seq![OutEventView::SendMessage(c.id(), told(id, 1, 1, request))]
            &&& out4 == seq![
                OutEventView::PeerInfo(origin),
                OutEventView::SendMessage(b.id(), told(id, 3, 0, DataView::NotFound)),
            ]
            &&& out5 == seq![
                OutEventView::SendMessage(a.id(), told(id, 2, 1, DataView::NotFound)),
            ]
            &&& out6 == seq![OutEventView::SendMessage(b.id(), told(id, 5, 0, from_a))]
            &&& out7 == seq![
                OutEventView::PeerInfo(origin),
                OutEventView::DownloadBlob(id, origin, key, size),
            ]
            &&& out8 == seq![OutEventView::SendMessage(c.id(), told(id, 2, 0, from_b))]
            &&& out9 == seq![
                OutEventView::PeerInfo(b.node_addr),
                OutEventView::DownloadBlob(id, origin, key, at_b.local_size),
            ]
            &&& out10 == seq![
                OutEventView::SendMessage(b.id(), told(id, 3, 0, DataView::Inserted)),
            ]
            &&& out11 == seq![
                OutEventView::SendMessage(a.id(), told(id, 2, 1, DataView::Inserted)),
            ]
            &&& out12 == seq![OutEventView::Inserted(key)]
        }),
{
    lemma_walk_of_one(to_b.order, b.id());
    lemma_walk_of_one(to_c.order, c.id());
    lemma_walk_of_nothing(none.order, Set::empty());
}

/// Whether everything that these events ask for belongs to the transaction `id`.
pub open spec fn all_about(out: Seq<OutEventView>, id: TxId) -> bool {
    forall|i: int|
        0 <= i < out.len() ==> match #[trigger] out[i] {
            OutEventView::SendMessage(_, msg) => msg.tx_id == id,
            OutEventView::CheckBlob(tx_id, _) => tx_id == id,
            OutEventView::DownloadBlob(tx_id, _, _, _) => tx_id == id,
            _ => true,
        }
}

/// What handling a message yields stays within the message's transaction: each message that is
/// sent, each look into the store and each download carries its identifier. Peers only become
/// more, and a transaction does not go back to its start.
pub proof fn law_message_stays_in_its_transaction(
    me: NodeAddrView,
    peer: PublicKey,
    peers: Set<PublicKey>,
    tx: TxView,
    msg: MessageView,
    walk: Walk,
)
    ensures
        ({
            let outcome = on_message(me, peer, peers, tx, msg, walk);
            &&& all_about(outcome.out, msg.tx_id)
            &&& peers.subset_of(outcome.peers)
            &&& outcome.tx is Starting ==> tx is Starting
        }),
{
    lemma_send_all(walk.order);
}

/// No event makes a node ask for a peer to be disconnected.
pub proof fn law_no_peer_is_disconnected(
    pre: StateView,
    event: InEventView,
    coin: bool,
    fresh: TxId,
    walk: Walk,
)
    ensures
        forall|i: int|
            0 <= i < step(pre, event, coin, fresh, walk).1.len() ==> !(#[trigger] step(
                pre,
                event,
                coin,
                fresh,
                walk,
            ).1[i] is DisconnectPeer),
{
    lemma_send_all(walk.order);
}

// ---------------------------------------------------------------------------------------
// Histories
// ---------------------------------------------------------------------------------------

/// A call that a node's user makes.
pub enum Call {
    /// A peer is added.
    AddPeer(PublicKey),
    /// An event is handled, and chance falls like this.
    Handle { event: InEventView, coin: bool, fresh: TxId, walk: Walk },
}

/// What a call does.
pub open spec fn on_call(pre: StateView, call: Call) -> (StateView, Seq<OutEventView>) {
    match call {
        Call::AddPeer(node_id) => (
            StateView { peers: pre.peers.insert(node_id), ..pre },
            seq![],
        ),
        Call::Handle { event, coin, fresh, walk } => step(pre, event, coin, fresh, walk),
    }
}

/// A new node.
pub open spec fn new_node(config: Config, node_addr: NodeAddrView) -> StateView {
    StateView { config, node_addr, transactions: Map::empty(), peers: Set::empty() }
}

/// What has become of a new node after some calls, and all that they have yielded.
pub open spec fn history(
    config: Config,
    node_addr: NodeAddrView,
    calls: Seq<Call>,
) -> (StateView, Seq<OutEventView>)
    decreases calls.len(),
{
    if calls.len() == 0 {
        (new_node(config, node_addr), seq![])
    } else {
        let (pre, before) = history(config, node_addr, calls.drop_last());
        let (post, out) = on_call(pre, calls.last());
        (post, before + out)
    }
}

/// Whether chance can fall as the calls say.
pub open spec fn can_happen(config: Config, node_addr: NodeAddrView, calls: Seq<Call>) -> bool
    decreases calls.len(),
{
    calls.len() > 0 ==> {
        &&& can_happen(config, node_addr, calls.drop_last())
        &&& calls.last() matches Call::Handle { event, coin, walk, .. } ==> walk_for(
            history(config, node_addr, calls.drop_last()).0,
            event,
            coin,
            walk,
        )
    }
}

/// Whether a node was added as a peer, or was the sender of a message, in one of the calls.
pub open spec fn introduced(calls: Seq<Call>, node_id: PublicKey) -> bool {
    exists|i: int|
        0 <= i < calls.len() && match #[trigger] calls[i] {
            Call::AddPeer(added) => added == node_id,
            Call::Handle { event, .. } => sender(event) == Some(node_id),
        }
}

/// The nodes that a node can know after some calls: itself, those that were introduced to it, and
/// those that it has announced.
pub open spec fn heard_of(
    config: Config,
    node_addr: NodeAddrView,
    calls: Seq<Call>,
) -> Set<PublicKey> {
    Set::new(
        |p: PublicKey|
            {
                ||| p == node_addr.node_id
                ||| introduced(calls, p)
                ||| announced(history(config, node_addr, calls).1, p)
            },
    )
}

proof fn lemma_heard_of_grows(config: Config, node_addr: NodeAddrView, calls: Seq<Call>)
    requires
        calls.len() > 0,
    ensures
        ({
            let before = heard_of(config, node_addr, calls.drop_last());
            let now = heard_of(config, node_addr, calls);
            let out = on_call(history(config, node_addr, calls.drop_last()).0, calls.last()).1;
            &&& before.subset_of(now)
            &&& forall|p: PublicKey| announced(out, p) ==> now.contains(p)
            &&& calls.last() matches Call::AddPeer(p) ==> now.contains(p)
            &&& calls.last() matches Call::Handle { event, .. } ==> (sender(event) matches Some(p)
                ==> now.contains(p))
        }),
{
    let init = calls.drop_last();
    let (pre, before) = history(config, node_addr, init);
    let out = on_call(pre, calls.last()).1;
    let all = before + out;
    let now = heard_of(config, node_addr, calls);
    assert(history(config, node_addr, calls).1 == all);
    assert forall|p: PublicKey| heard_of(config, node_addr, init).contains(p) implies now.contains(
        p,
    ) by {
        if introduced(init, p) {
            let i = choose|i: int|
                0 <= i < init.len() && match #[trigger] init[i] {
                    Call::AddPeer(added) => added == p,
                    Call::Handle { event, .. } => sender(event) == Some(p),
                };
            assert(calls[i] == init[i]);
            assert(introduced(calls, p));
        } else if announced(before, p) {
            let i = choose|i: int|
                0 <= i < before.len() && (#[trigger] before[i] matches OutEventView::PeerInfo(addr)
                    && addr.node_id == p);
            assert(all[i] == before[i]);
            assert(announced(all, p));
        }
    }
    assert forall|p: PublicKey| announced(out, p) implies now.contains(p) by {
        let i = choose|i: int|
            0 <= i < out.len() && (#[trigger] out[i] matches OutEventView::PeerInfo(addr)
                && addr.node_id == p);
        assert(all[before.len() + i] == out[i]);
        assert(announced(all, p));
    }
    let last = calls[calls.len() - 1];
    assert(last == calls.last());
    match last {
        Call::AddPeer(p) => {
            assert(introduced(calls, p));
        },
        Call::Handle { event, .. } => {
            if let Some(p) = sender(event) {
                assert(introduced(calls, p));
            }
        },
    }
}

proof fn lemma_covers_more(few: Set<PublicKey>, many: Set<PublicKey>, state: StateView)
    requires
        few.subset_of(many),
        covers_all(few, state),
    ensures
        covers_all(many, state),
{
    assert forall|id: TxId| #[trigger] state.transactions.contains_key(id) implies covers(
        many,
        state.transactions[id],
    ) by {
        assert(covers(few, state.transactions[id]));
    }
}

proof fn lemma_history_is_covered(config: Config, node_addr: NodeAddrView, calls: Seq<Call>)
    requires
        can_happen(config, node_addr, calls),
    ensures
        covers_all(heard_of(config, node_addr, calls), history(config, node_addr, calls).0),
        history(config, node_addr, calls).0.node_addr == node_addr,
    decreases calls.len(),
{
    if calls.len() > 0 {
        let init = calls.drop_last();
        let pre = history(config, node_addr, init).0;
        let known = heard_of(config, node_addr, init);
        let now = heard_of(config, node_addr, calls);
        lemma_history_is_covered(config, node_addr, init);
        lemma_heard_of_grows(config, node_addr, calls);
        match calls.last() {
            Call::AddPeer(_) => {
                lemma_covers_more(known, now, pre);
            },
            Call::Handle { event, coin, fresh, walk } => {
                let (post, out) = step(pre, event, coin, fresh, walk);
                law_messages_go_to_known_nodes(known, pre, event, coin, fresh, walk);
                lemma_covers_more(known_after(known, event, out), now, post);
            },
        }
    }
}

/// A node that gets a message can be reached: over any history of a node, a message goes to the
/// node itself, to one that was added as a peer, to one that has sent a message, or to one whose
/// address was announced by then.
pub proof fn law_recipients_can_be_reached(
    config: Config,
    node_addr: NodeAddrView,
    calls: Seq<Call>,
    to: PublicKey,
    msg: MessageView,
)
    requires
        calls.len() > 0,
        can_happen(config, node_addr, calls),
        on_call(
            history(config, node_addr, calls.drop_last()).0,
            calls.last(),
        ).1.contains(OutEventView::SendMessage(to, msg)),
        to != node_addr.node_id,
        !introduced(calls, to),
    ensures
        announced(history(config, node_addr, calls).1, to),
{
    let init = calls.drop_last();
    let pre = history(config, node_addr, init).0;
    let known = heard_of(config, node_addr, init);
    let now = heard_of(config, node_addr, calls);
    lemma_history_is_covered(config, node_addr, init);
    lemma_heard_of_grows(config, node_addr, calls);
    match calls.last() {
        Call::AddPeer(_) => {},
        Call::Handle { event, coin, fresh, walk } => {
            let out = step(pre, event, coin, fresh, walk).1;
            law_messages_go_to_known_nodes(known, pre, event, coin, fresh, walk);
            let i = out.index_of(OutEventView::SendMessage(to, msg));
            assert(out[i] == OutEventView::SendMessage(to, msg));
            assert(known_after(known, event, out).contains(to));
            assert(now.contains(to));
        },
    }
}

/// Over any history of a node, no finished transaction is remembered, the node is the one that it
/// was made as, and no peer was to be disconnected. What a call yields is added to what the
/// earlier ones have yielded, and nothing of that comes again.
pub proof fn law_history_keeps_order(config: Config, node_addr: NodeAddrView, calls: Seq<Call>)
    ensures
        ({
            let (state, out) = history(config, node_addr, calls);
            &&& settled(state)
            &&& state.config == config
            &&& state.node_addr == node_addr
            &&& forall|i: int| 0 <= i < out.len() ==> !(#[trigger] out[i] is DisconnectPeer)
            &&& calls.len() > 0 ==> {
                let (pre, before) = history(config, node_addr, calls.drop_last());
                out == before + on_call(pre, calls.last()).1
            }
        }),
    decreases calls.len(),
{
    if calls.len() > 0 {
        let (pre, before) = history(config, node_addr, calls.drop_last());
        law_history_keeps_order(config, node_addr, calls.drop_last());
        if let Call::Handle { event, coin, fresh, walk } = calls.last() {
            law_finished_is_forgotten(pre, event, coin, fresh, walk);
            law_identity_is_kept(pre, event, coin, fresh, walk);
            law_no_peer_is_disconnected(pre, event, coin, fresh, walk);
        }
    }
}

} // verus!
