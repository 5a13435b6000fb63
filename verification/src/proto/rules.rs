//! The rules of the protocol, each said of the events and messages themselves: what a node sends
//! to whom, and what it remembers.

use vstd::prelude::*;

use crate::proto::addr::{NodeAddr, NodeAddrView};
use crate::proto::event::{
    events_of, BlobStatus, DownloadOutcome, InEvent, InEventView, OutEvent, OutEventView,
};
use crate::proto::keys::{distance_spec, nearer, BlobHash, PublicKey};
use crate::proto::message::{DataView, Message, MessageData, MessageView, TxId};
use crate::proto::model::{
    first_candidates, fits, next_candidates, retry_candidates, send_all, step, tx_tried, walk_for,
    StateView, Walk,
};
use crate::proto::state::{fresh_for, txs_of};
use crate::proto::tx::{TxState, TxView};

verus! {

// ---------------------------------------------------------------------------------------
// Words of the rules
// ---------------------------------------------------------------------------------------

/// A message that comes in from `peer`.
pub open spec fn got(
    peer: PublicKey,
    tx_id: TxId,
    hops_to_live: u64,
    depth: u64,
    data: DataView,
) -> InEventView {
    InEventView::RecvMessage(peer, MessageView { tx_id, hops_to_live, depth, data })
}

/// A message that goes out to `to`.
pub open spec fn note(
    to: PublicKey,
    tx_id: TxId,
    hops_to_live: int,
    depth: int,
    data: DataView,
) -> OutEventView {
    OutEventView::SendMessage(
        to,
        MessageView { tx_id, hops_to_live: hops_to_live as u64, depth: depth as u64, data },
    )
}

/// One hop less, but always one.
pub open spec fn fewer(hops: u64) -> int {
    if hops > 1 {
        hops - 1
    } else {
        1
    }
}

/// How far two numbers lie apart.
pub open spec fn apart(a: u128, b: u128) -> int {
    if a >= b {
        a - b
    } else {
        b - a
    }
}

/// Whether `q` lies strictly closer to `key` than `p`: in the first half, or in the second where
/// the first halves lie equally far.
pub open spec fn closer(q: PublicKey, p: PublicKey, key: BlobHash) -> bool {
    ||| apart(q.hi, key.hi) < apart(p.hi, key.hi)
    ||| apart(q.hi, key.hi) == apart(p.hi, key.hi) && apart(q.lo, key.lo) < apart(p.lo, key.lo)
}

/// Whether `p` is a peer that has not been tried and is neither of two nodes.
pub open spec fn may_ask(
    p: PublicKey,
    peers: Set<PublicKey>,
    tried: Set<PublicKey>,
    one: PublicKey,
    two: PublicKey,
) -> bool {
    peers.contains(p) && !tried.contains(p) && p != one && p != two
}

/// Whether there is just one event: `msg` goes to a closest of the peers that have not been tried
/// and are neither of two nodes, and if there are none, `otherwise` happens.
pub open spec fn asks_closest(
    out: Seq<OutEventView>,
    peers: Set<PublicKey>,
    tried: Set<PublicKey>,
    one: PublicKey,
    two: PublicKey,
    key: BlobHash,
    msg: MessageView,
    otherwise: OutEventView,
) -> bool {
    &&& out.len() == 1
    &&& (exists|p: PublicKey| #[trigger] may_ask(p, peers, tried, one, two)) ==> (
    out[0] matches OutEventView::SendMessage(to, m) && m == msg && may_ask(
        to,
        peers,
        tried,
        one,
        two,
    ) && forall|q: PublicKey| #[trigger]
        may_ask(q, peers, tried, one, two) ==> !closer(q, to, key))
    &&& (forall|p: PublicKey| !(#[trigger] may_ask(p, peers, tried, one, two))) ==> out[0]
        == otherwise
}

/// Whether no finished transaction is remembered, which holds of every node in use.
pub open spec fn tidy(state: StateView) -> bool {
    forall|id: TxId| #[trigger]
        state.transactions.contains_key(id) ==> !(state.transactions[id] is Finished)
}

/// The state with other peers, and with `tx` remembered under `id`.
pub open spec fn with(state: StateView, peers: Set<PublicKey>, id: TxId, tx: TxView) -> StateView {
    StateView { peers, transactions: state.transactions.insert(id, tx), ..state }
}

/// The state with other peers, and without the transaction `id`.
pub open spec fn without(state: StateView, peers: Set<PublicKey>, id: TxId) -> StateView {
    StateView { peers, transactions: state.transactions.remove(id), ..state }
}

// ---------------------------------------------------------------------------------------
// Distances
// ---------------------------------------------------------------------------------------

/// A distance is made up of how far the halves lie apart, over the integers; and nearness goes by
/// it.
pub proof fn law_distance_is_a_difference(p: PublicKey, q: PublicKey, key: BlobHash)
    ensures
        p.hi >= key.hi ==> key.hi + distance_spec(p, key).0 == p.hi,
        p.hi <= key.hi ==> p.hi + distance_spec(p, key).0 == key.hi,
        p.lo >= key.lo ==> key.lo + distance_spec(p, key).1 == p.lo,
        p.lo <= key.lo ==> p.lo + distance_spec(p, key).1 == key.lo,
        nearer(q, p, key) <==> closer(q, p, key),
        apart(q.hi, key.hi) < apart(p.hi, key.hi) ==> nearer(q, p, key) && !nearer(p, q, key),
{
}

proof fn lemma_nearer(key: BlobHash)
    ensures
        forall|q: PublicKey, p: PublicKey| #[trigger]
            closer(q, p, key) ==> nearer(q, p, key),
{
}

// ---------------------------------------------------------------------------------------
// Messages
// ---------------------------------------------------------------------------------------

/// On the last of its hops, and if the coin falls so, a message goes no further: the sender is
/// told that nothing was found. An insertion is remembered all the same, its origin becomes a
/// peer, and its address is announced.
pub proof fn law_last_hop(
    pre: StateView,
    peer: PublicKey,
    id: TxId,
    depth: u64,
    data: DataView,
    fresh: TxId,
    walk: Walk,
)
    requires
        tidy(pre),
        !(data is Pulse),
    ensures
        ({
            let (post, out) = step(pre, got(peer, id, 1, depth, data), true, fresh, walk);
            let nothing = note(peer, id, depth + 2, 0, DataView::NotFound);
            match data {
                DataView::Insert { from, key, size } => {
                    let tx = TxView::Inserting {
                        origin: from,
                        from: peer,
                        hops_to_live: 1,
                        depth,
                        key,
                        size,
                        tried: Set::empty(),
                    };
                    let peers = pre.peers.insert(from.node_id);
                    &&& out == seq![OutEventView::PeerInfo(from), nothing]
                    &&& pre.transactions.contains_key(id) ==> post == StateView { peers, ..pre }
                    &&& !pre.transactions.contains_key(id) ==> post == with(pre, peers, id, tx)
                },
                _ => out == seq![nothing] && post == pre,
            }
        }),
{
    let (post, out) = step(pre, got(peer, id, 1, depth, data), true, fresh, walk);
    assert(post.transactions =~= pre.transactions || data is Insert);
    if let DataView::Insert { from, key, size } = data {
        let tx = TxView::Inserting {
            origin: from,
            from: peer,
            hops_to_live: 1,
            depth,
            key,
            size,
            tried: Set::empty(),
        };
        if pre.transactions.contains_key(id) {
            assert(post.transactions =~= pre.transactions);
        } else {
            assert(post.transactions =~= pre.transactions.insert(id, tx));
        }
    }
}

/// A message other than a request that belongs to no transaction is refused with an error, and
/// changes nothing.
pub proof fn law_message_without_transaction(
    pre: StateView,
    peer: PublicKey,
    id: TxId,
    hops: u64,
    depth: u64,
    data: DataView,
    coin: bool,
    fresh: TxId,
    walk: Walk,
)
    requires
        tidy(pre),
        !(hops == 1 && coin),
        !pre.transactions.contains_key(id),
        !(data is Find),
        !(data is Insert),
        !(data is Pulse),
    ensures
        step(pre, got(peer, id, hops, depth, data), coin, fresh, walk) == (
            pre,
            seq![note(peer, id, depth as int, 0, DataView::Error)],
        ),
{
    let post = step(pre, got(peer, id, hops, depth, data), coin, fresh, walk).0;
    assert(post.transactions =~= pre.transactions);
}

/// The first request of a transaction makes the node look into its store, whoever sends it; the
/// origin of an insertion becomes a peer and is announced. A second request is refused with an
/// error, and the transaction counts as violated. Either way the sender becomes a peer.
pub proof fn law_request(
    pre: StateView,
    peer: PublicKey,
    id: TxId,
    hops: u64,
    depth: u64,
    data: DataView,
    coin: bool,
    fresh: TxId,
    walk: Walk,
)
    requires
        tidy(pre),
        !(hops == 1 && coin),
        data is Find || data is Insert,
    ensures
        ({
            let (post, out) = step(pre, got(peer, id, hops, depth, data), coin, fresh, walk);
            let peers = pre.peers.insert(peer);
            if pre.transactions.contains_key(id) && !(pre.transactions[id] is Starting) {
                &&& out == seq![note(peer, id, depth as int, 0, DataView::Error)]
                &&& post == with(pre, peers, id, TxView::Errored { from: peer })
            } else {
                match data {
                    DataView::Find { key } => {
                        &&& out == seq![OutEventView::CheckBlob(id, key)]
                        &&& post == with(
                            pre,
                            peers,
                            id,
                            TxView::Finding {
                                from: peer,
                                hops_to_live: hops,
                                depth,
                                key,
                                tried: Set::empty(),
                            },
                        )
                    },
                    DataView::Insert { from, key, size } => {
                        &&& out == seq![
                            OutEventView::PeerInfo(from),
                            OutEventView::CheckBlob(id, key),
                        ]
                        &&& post == with(
                            pre,
                            peers.insert(from.node_id),
                            id,
                            TxView::Inserting {
                                origin: from,
                                from: peer,
                                hops_to_live: hops,
                                depth,
                                key,
                                size,
                                tried: Set::empty(),
                            },
                        )
                    },
                    _ => true,
                }
            }
        }),
{
    let post = step(pre, got(peer, id, hops, depth, data), coin, fresh, walk).0;
    assert(post.transactions =~= pre.transactions.insert(id, post.transactions[id]));
}

/// An error from whomever violates the transaction, for the node that it belongs to, and is not
/// answered.
pub proof fn law_error(
    pre: StateView,
    peer: PublicKey,
    id: TxId,
    hops: u64,
    depth: u64,
    coin: bool,
    fresh: TxId,
    walk: Walk,
)
    requires
        tidy(pre),
        !(hops == 1 && coin),
        pre.transactions.contains_key(id),
    ensures
        ({
            let (post, out) = step(
                pre,
                got(peer, id, hops, depth, DataView::Error),
                coin,
                fresh,
                walk,
            );
            let from = match pre.transactions[id] {
                TxView::Starting { from } => from,
                TxView::Finding { from, .. } => from,
                TxView::Inserting { origin, .. } => origin.node_id,
                TxView::Errored { from } => from,
                TxView::Finished { from } => from,
            };
            &&& out == Seq::<OutEventView>::empty()
            &&& post == with(pre, pre.peers.insert(peer), id, TxView::Errored { from })
        }),
{
    let post = step(pre, got(peer, id, hops, depth, DataView::Error), coin, fresh, walk).0;
    assert(post.transactions =~= pre.transactions.insert(id, post.transactions[id]));
}

/// An answer is refused with an error, and the transaction left as it is, where nothing is being
/// searched or inserted; where it comes from the node that the search belongs to, or from the
/// origin of the insertion; and where a search is told that it was inserted. There are two
/// exceptions: word that data is ready is taken from anybody, and so is word of an insertion that
/// nothing was found.
pub proof fn law_answer_out_of_place(
    pre: StateView,
    peer: PublicKey,
    id: TxId,
    hops: u64,
    depth: u64,
    data: DataView,
    coin: bool,
    fresh: TxId,
    walk: Walk,
)
    requires
        tidy(pre),
        !(hops == 1 && coin),
        pre.transactions.contains_key(id),
        data is Found || data is NotFound || data is Continue || data is Inserted || data is Ready,
        match pre.transactions[id] {
            TxView::Finding { from, .. } => data is Inserted || (from == peer && !(data is Ready)),
            TxView::Inserting { origin, .. } => origin.node_id == peer && !(data is Ready)
                && !(data is NotFound),
            _ => true,
        },
    ensures
        step(pre, got(peer, id, hops, depth, data), coin, fresh, walk) == (
            StateView { peers: pre.peers.insert(peer), ..pre },
            seq![note(peer, id, depth as int, 0, DataView::Error)],
        ),
{
    let post = step(pre, got(peer, id, hops, depth, data), coin, fresh, walk).0;
    assert(post.transactions =~= pre.transactions);
}

/// Word of where data was found: the node that has it becomes a peer and is announced. A search
/// reports it, or tells the node that asked, under this node's own name. An insertion downloads
/// the data, and reports the failure or tells the origin, under this node's own name.
pub proof fn law_found(
    pre: StateView,
    peer: PublicKey,
    id: TxId,
    hops: u64,
    depth: u64,
    at: NodeAddrView,
    size: u64,
    coin: bool,
    fresh: TxId,
    walk: Walk,
)
    requires
        tidy(pre),
        !(hops == 1 && coin),
        pre.transactions.contains_key(id),
    ensures
        ({
            let tx = pre.transactions[id];
            let me = pre.node_addr;
            let (post, out) = step(
                pre,
                got(peer, id, hops, depth, DataView::Found { from: at, size }),
                coin,
                fresh,
                walk,
            );
            let on = |to: PublicKey|
                note(to, id, fewer(hops), depth + 1, DataView::Found { from: me, size });
            let after = StateView {
                peers: pre.peers.insert(peer).insert(at.node_id),
                ..pre
            };
            match tx {
                TxView::Finding { from, key, .. } => from != peer ==> {
                    &&& post == after
                    &&& out == seq![
                        OutEventView::PeerInfo(at),
                        if from == me.node_id {
                            OutEventView::Found(key)
                        } else {
                            on(from)
                        },
                    ]
                },
                TxView::Inserting { origin, key, .. } => origin.node_id != peer ==> {
                    &&& post == after
                    &&& out == seq![
                        OutEventView::PeerInfo(at),
                        OutEventView::DownloadBlob(id, at, key, size),
                        if origin.node_id == me.node_id {
                            OutEventView::NotInserted(key)
                        } else {
                            on(origin.node_id)
                        },
                    ]
                },
                _ => true,
            }
        }),
{
    let data = DataView::Found { from: at, size };
    let post = step(pre, got(peer, id, hops, depth, data), coin, fresh, walk).0;
    assert(post.transactions =~= pre.transactions);
}

/// Word to a search that nothing was found: it is over, and that is reported, or told to the node
/// that asked.
pub proof fn law_not_found_by_search(
    pre: StateView,
    peer: PublicKey,
    id: TxId,
    hops: u64,
    depth: u64,
    coin: bool,
    fresh: TxId,
    walk: Walk,
)
    requires
        tidy(pre),
        !(hops == 1 && coin),
        pre.transactions.contains_key(id),
        pre.transactions[id] matches TxView::Finding { from, .. } && from != peer,
    ensures
        ({
            let (post, out) = step(
                pre,
                got(peer, id, hops, depth, DataView::NotFound),
                coin,
                fresh,
                walk,
            );
            &&& post == without(pre, pre.peers.insert(peer), id)
            &&& pre.transactions[id] matches TxView::Finding { from, key, .. } && out == seq![
                if from == pre.node_addr.node_id {
                    OutEventView::NotFound(key)
                } else {
                    note(from, id, fewer(hops), depth + 1, DataView::NotFound)
                },
            ]
        }),
{
    let post = step(pre, got(peer, id, hops, depth, DataView::NotFound), coin, fresh, walk).0;
    assert(post.transactions =~= pre.transactions.remove(id));
}

/// Word to an insertion that nothing was found, which is what it hopes for. The sender counts as
/// tried. The origin tells each of those that were tried, once, that the data is ready; any other
/// node tells the node that the request came from, whoever the origin is, and nobody else.
pub proof fn law_not_found_by_insertion(
    pre: StateView,
    peer: PublicKey,
    id: TxId,
    hops: u64,
    depth: u64,
    origin: NodeAddrView,
    from: PublicKey,
    tx_hops: u64,
    tx_depth: u64,
    key: BlobHash,
    size: u64,
    tried: Set<PublicKey>,
    coin: bool,
    fresh: TxId,
    walk: Walk,
)
    requires
        tidy(pre),
        !(hops == 1 && coin),
        pre.transactions.contains_key(id),
        pre.transactions[id] == (TxView::Inserting {
            origin,
            from,
            hops_to_live: tx_hops,
            depth: tx_depth,
            key,
            size,
            tried,
        }),
        walk_for(pre, got(peer, id, hops, depth, DataView::NotFound), coin, walk),
    ensures
        ({
            let me = pre.node_addr;
            let (post, out) = step(
                pre,
                got(peer, id, hops, depth, DataView::NotFound),
                coin,
                fresh,
                walk,
            );
            &&& post == with(
                pre,
                pre.peers.insert(peer),
                id,
                TxView::Inserting {
                    origin,
                    from,
                    hops_to_live: tx_hops,
                    depth: tx_depth,
                    key,
                    size,
                    tried: tried.insert(peer),
                },
            )
            &&& origin.node_id != me.node_id ==> out == seq![
                note(from, id, fewer(hops), depth + 1, DataView::NotFound),
            ]
            &&& origin.node_id == me.node_id ==> tells_each_once(
                out,
                tried.insert(peer),
                id,
                5,
                DataView::Ready { addr: me, data: key, size },
            )
        }),
{
    let post = step(pre, got(peer, id, hops, depth, DataView::NotFound), coin, fresh, walk).0;
    assert(post.transactions =~= pre.transactions.insert(id, post.transactions[id]));
    if origin.node_id == pre.node_addr.node_id {
        let data = DataView::Ready { addr: pre.node_addr, data: key, size };
        lemma_tells_each_once(walk.order, tried.insert(peer), id, 5, data);
    }
}

/// Whether the events are one message to each node of a set.
pub open spec fn tells_each_once(
    out: Seq<OutEventView>,
    nodes: Set<PublicKey>,
    id: TxId,
    hops: int,
    data: DataView,
) -> bool {
    &&& out.no_duplicates()
    &&& forall|i: int|
        0 <= i < out.len() ==> (#[trigger] out[i] matches OutEventView::SendMessage(to, _)
            && nodes.contains(to) && out[i] == note(to, id, hops, 0, data))
    &&& forall|p: PublicKey| #[trigger]
        nodes.contains(p) ==> out.contains(note(p, id, hops, 0, data))
}

proof fn lemma_tells_each_once(
    order: Seq<PublicKey>,
    nodes: Set<PublicKey>,
    id: TxId,
    hops: u64,
    data: DataView,
)
    requires
        order.no_duplicates(),
        order.to_set() == nodes,
    ensures
        tells_each_once(send_all(order, id, hops, data), nodes, id, hops as int, data),
{
    let out = send_all(order, id, hops, data);
    assert forall|i: int| 0 <= i < out.len() implies (
    #[trigger] out[i] matches OutEventView::SendMessage(to, _) && nodes.contains(to) && out[i]
        == note(to, id, hops as int, 0, data)) by {
        assert(order.contains(order[i]));
        assert(order.to_set().contains(order[i]));
    }
    assert forall|p: PublicKey| #[trigger] nodes.contains(p) implies out.contains(
        note(p, id, hops as int, 0, data),
    ) by {
        assert(order.to_set().contains(p));
        let i = order.index_of(p);
        assert(out[i] == note(p, id, hops as int, 0, data));
    }
}

/// Word that a peer has no more nodes to ask. The peer counts as tried. A search goes on to a
/// closest of the other peers that are neither tried nor the node that asked, whoever that is.
/// Only if there is none, it is reported as failed, or sent back to the node that asked.
pub proof fn law_continue_search(
    pre: StateView,
    peer: PublicKey,
    id: TxId,
    hops: u64,
    depth: u64,
    hops_remaining: u64,
    from: PublicKey,
    tx_hops: u64,
    tx_depth: u64,
    key: BlobHash,
    tried: Set<PublicKey>,
    coin: bool,
    fresh: TxId,
    walk: Walk,
)
    requires
        tidy(pre),
        !(hops == 1 && coin),
        pre.transactions.contains_key(id),
        pre.transactions[id] == (TxView::Finding {
            from,
            hops_to_live: tx_hops,
            depth: tx_depth,
            key,
            tried,
        }),
        peer != from,
        walk_for(
            pre,
            got(peer, id, hops, depth, DataView::Continue { hops_remaining }),
            coin,
            walk,
        ),
    ensures
        ({
            let (post, out) = step(
                pre,
                got(peer, id, hops, depth, DataView::Continue { hops_remaining }),
                coin,
                fresh,
                walk,
            );
            &&& post == with(
                pre,
                pre.peers.insert(peer),
                id,
                TxView::Finding {
                    from,
                    hops_to_live: tx_hops,
                    depth: tx_depth,
                    key,
                    tried: tried.insert(peer),
                },
            )
            &&& asks_closest(
                out,
                pre.peers,
                tried,
                from,
                peer,
                key,
                MessageView {
                    tx_id: id,
                    hops_to_live: fewer(tx_hops) as u64,
                    depth: (tx_depth + 1) as u64,
                    data: DataView::Find { key },
                },
                if from == pre.node_addr.node_id {
                    OutEventView::NotFound(key)
                } else {
                    note(
                        from,
                        id,
                        fewer(hops),
                        depth + 1,
                        DataView::Continue { hops_remaining: tx_hops },
                    )
                },
            )
        }),
{
    let data = DataView::Continue { hops_remaining };
    let (post, out) = step(pre, got(peer, id, hops, depth, data), coin, fresh, walk);
    let tx = pre.transactions[id];
    assert(post.transactions =~= pre.transactions.insert(id, post.transactions[id]));
    lemma_nearer(key);
    let set = next_candidates(pre.peers.insert(peer), tx, peer);
    assert forall|p: PublicKey| #[trigger]
        may_ask(p, pre.peers, tried, from, peer) <==> set.contains(p) by {}
    if let Some(to) = walk.pick {
        assert(set.contains(to) ==> may_ask(to, pre.peers, tried, from, peer));
    }
}

/// The same of an insertion: it goes on to a closest of the other peers that are neither tried
/// nor its origin, with the hops that the peer has left over. Only if there is none, it is
/// reported as failed, or sent back to its origin.
pub proof fn law_continue_insertion(
    pre: StateView,
    peer: PublicKey,
    id: TxId,
    hops: u64,
    depth: u64,
    hops_remaining: u64,
    origin: NodeAddrView,
    from: PublicKey,
    tx_hops: u64,
    tx_depth: u64,
    key: BlobHash,
    size: u64,
    tried: Set<PublicKey>,
    coin: bool,
    fresh: TxId,
    walk: Walk,
)
    requires
        tidy(pre),
        !(hops == 1 && coin),
        pre.transactions.contains_key(id),
        pre.transactions[id] == (TxView::Inserting {
            origin,
            from,
            hops_to_live: tx_hops,
            depth: tx_depth,
            key,
            size,
            tried,
        }),
        peer != origin.node_id,
        walk_for(
            pre,
            got(peer, id, hops, depth, DataView::Continue { hops_remaining }),
            coin,
            walk,
        ),
    ensures
        ({
            let (post, out) = step(
                pre,
                got(peer, id, hops, depth, DataView::Continue { hops_remaining }),
                coin,
                fresh,
                walk,
            );
            &&& post == with(
                pre,
                pre.peers.insert(peer),
                id,
                TxView::Inserting {
                    origin,
                    from,
                    hops_to_live: tx_hops,
                    depth: tx_depth,
                    key,
                    size,
                    tried: tried.insert(peer),
                },
            )
            &&& asks_closest(
                out,
                pre.peers,
                tried,
                origin.node_id,
                peer,
                key,
                MessageView {
                    tx_id: id,
                    hops_to_live: fewer(hops_remaining) as u64,
                    depth: (tx_depth + 1) as u64,
                    data: DataView::Insert { from: origin, key, size },
                },
                if origin.node_id == pre.node_addr.node_id {
                    OutEventView::NotInserted(key)
                } else {
                    note(
                        origin.node_id,
                        id,
                        fewer(hops),
                        depth + 1,
                        DataView::Continue { hops_remaining },
                    )
                },
            )
        }),
{
    let data = DataView::Continue { hops_remaining };
    let (post, out) = step(pre, got(peer, id, hops, depth, data), coin, fresh, walk);
    let tx = pre.transactions[id];
    assert(post.transactions =~= pre.transactions.insert(id, post.transactions[id]));
    lemma_nearer(key);
    let set = next_candidates(pre.peers.insert(peer), tx, peer);
    assert forall|p: PublicKey| #[trigger]
        may_ask(p, pre.peers, tried, origin.node_id, peer) <==> set.contains(p) by {}
    if let Some(to) = walk.pick {
        assert(set.contains(to) ==> may_ask(to, pre.peers, tried, origin.node_id, peer));
    }
}

/// Word that an insertion has succeeded: its origin reports it, and any other node tells the
/// origin.
pub proof fn law_inserted(
    pre: StateView,
    peer: PublicKey,
    id: TxId,
    hops: u64,
    depth: u64,
    coin: bool,
    fresh: TxId,
    walk: Walk,
)
    requires
        tidy(pre),
        !(hops == 1 && coin),
        pre.transactions.contains_key(id),
        pre.transactions[id] matches TxView::Inserting { origin, .. } && origin.node_id != peer,
    ensures
        ({
            let (post, out) = step(
                pre,
                got(peer, id, hops, depth, DataView::Inserted),
                coin,
                fresh,
                walk,
            );
            &&& post == StateView { peers: pre.peers.insert(peer), ..pre }
            &&& pre.transactions[id] matches TxView::Inserting { origin, key, .. } && out == seq![
                if origin.node_id == pre.node_addr.node_id {
                    OutEventView::Inserted(key)
                } else {
                    note(origin.node_id, id, fewer(hops), depth + 1, DataView::Inserted)
                },
            ]
        }),
{
    let post = step(pre, got(peer, id, hops, depth, DataView::Inserted), coin, fresh, walk).0;
    assert(post.transactions =~= pre.transactions);
}

/// Word that data is ready, from whomever: the node that has it becomes a peer and is announced.
/// A search downloads from there what is offered, and an insertion its own data from its origin.
pub proof fn law_ready(
    pre: StateView,
    peer: PublicKey,
    id: TxId,
    hops: u64,
    depth: u64,
    addr: NodeAddrView,
    data: BlobHash,
    size: u64,
    coin: bool,
    fresh: TxId,
    walk: Walk,
)
    requires
        tidy(pre),
        !(hops == 1 && coin),
        pre.transactions.contains_key(id),
        pre.transactions[id] is Finding || pre.transactions[id] is Inserting,
    ensures
        ({
            let (post, out) = step(
                pre,
                got(peer, id, hops, depth, DataView::Ready { addr, data, size }),
                coin,
                fresh,
                walk,
            );
            &&& post == StateView { peers: pre.peers.insert(peer).insert(addr.node_id), ..pre }
            &&& out == seq![
                OutEventView::PeerInfo(addr),
                match pre.transactions[id] {
                    TxView::Inserting { origin, key, .. } => OutEventView::DownloadBlob(
                        id,
                        origin,
                        key,
                        size,
                    ),
                    _ => OutEventView::DownloadBlob(id, addr, data, size),
                },
            ]
        }),
{
    let msg = DataView::Ready { addr, data, size };
    let post = step(pre, got(peer, id, hops, depth, msg), coin, fresh, walk).0;
    assert(post.transactions =~= pre.transactions);
}

// ---------------------------------------------------------------------------------------
// The other events
// ---------------------------------------------------------------------------------------

/// What concerns no transaction, or one that neither searches nor inserts, changes nothing and
/// leads to nothing.
pub proof fn law_nothing_concerned(
    pre: StateView,
    id: TxId,
    event: InEventView,
    coin: bool,
    fresh: TxId,
    walk: Walk,
)
    requires
        tidy(pre),
        match event {
            InEventView::CheckedBlob(tx_id, _) => tx_id == id,
            InEventView::DownloadedBlob(tx_id, _) => tx_id == id,
            InEventView::Timeout(tx_id, _) => tx_id == id,
            _ => false,
        },
        pre.transactions.contains_key(id) ==> pre.transactions[id] is Starting
            || pre.transactions[id] is Errored,
    ensures
        step(pre, event, coin, fresh, walk) == (pre, Seq::<OutEventView>::empty()),
{
    let post = step(pre, event, coin, fresh, walk).0;
    assert(post.transactions =~= pre.transactions);
}

/// The outcome of a look into the store for a search. Data that is stored whole is offered to the
/// node that asked. Otherwise the request goes on to some peer that is neither tried nor the node
/// that asked, and is sent back only if there is none.
pub proof fn law_checked_for_search(
    pre: StateView,
    id: TxId,
    status: BlobStatus,
    from: PublicKey,
    hops: u64,
    depth: u64,
    key: BlobHash,
    tried: Set<PublicKey>,
    coin: bool,
    fresh: TxId,
    walk: Walk,
)
    requires
        tidy(pre),
        pre.transactions.contains_key(id),
        pre.transactions[id] == (TxView::Finding {
            from,
            hops_to_live: hops,
            depth,
            key,
            tried,
        }),
        walk_for(pre, InEventView::CheckedBlob(id, status), coin, walk),
    ensures
        ({
            let me = pre.node_addr;
            let (post, out) = step(
                pre,
                InEventView::CheckedBlob(id, status),
                coin,
                fresh,
                walk,
            );
            &&& post == pre
            &&& match status {
                BlobStatus::Complete { size } => out == seq![
                    note(from, id, depth + 2, 0, DataView::Found { from: me, size }),
                    note(from, id, depth + 2, 0, DataView::Ready { addr: me, data: key, size }),
                ],
                _ => {
                    &&& out.len() == 1
                    &&& (exists|p: PublicKey| #[trigger]
                        may_ask(p, pre.peers, tried, from, from)) ==> (
                    out[0] matches OutEventView::SendMessage(to, _) && may_ask(
                        to,
                        pre.peers,
                        tried,
                        from,
                        from,
                    ) && out[0] == note(to, id, fewer(hops), depth + 1, DataView::Find { key }))
                    &&& (forall|p: PublicKey| !(#[trigger]
                    may_ask(p, pre.peers, tried, from, from))) ==> out[0] == note(
                        from,
                        id,
                        depth + 2,
                        0,
                        DataView::Continue { hops_remaining: hops },
                    )
                },
            }
        }),
{
    let post = step(pre, InEventView::CheckedBlob(id, status), coin, fresh, walk).0;
    assert(post.transactions =~= pre.transactions);
    let set = first_candidates(pre.peers, pre.transactions[id]);
    assert forall|p: PublicKey| #[trigger]
        may_ask(p, pre.peers, tried, from, from) <==> set.contains(p) by {}
    if let Some(to) = walk.pick {
        assert(set.contains(to) ==> may_ask(to, pre.peers, tried, from, from));
    }
}

/// The same for an insertion. Data that is stored whole is reported to the origin. Otherwise the
/// request goes on to a closest peer that is neither tried, nor the origin, nor the node that the
/// request came from, and is sent back to the origin only if there is none.
pub proof fn law_checked_for_insertion(
    pre: StateView,
    id: TxId,
    status: BlobStatus,
    origin: NodeAddrView,
    from: PublicKey,
    hops: u64,
    depth: u64,
    key: BlobHash,
    size: u64,
    tried: Set<PublicKey>,
    coin: bool,
    fresh: TxId,
    walk: Walk,
)
    requires
        tidy(pre),
        pre.transactions.contains_key(id),
        pre.transactions[id] == (TxView::Inserting {
            origin,
            from,
            hops_to_live: hops,
            depth,
            key,
            size,
            tried,
        }),
        walk_for(pre, InEventView::CheckedBlob(id, status), coin, walk),
    ensures
        ({
            let me = pre.node_addr;
            let (post, out) = step(
                pre,
                InEventView::CheckedBlob(id, status),
                coin,
                fresh,
                walk,
            );
            &&& post == pre
            &&& match status {
                BlobStatus::Complete { size: stored } => out == seq![
                    note(
                        origin.node_id,
                        id,
                        depth + 2,
                        0,
                        DataView::Found { from: me, size: stored },
                    ),
                ],
                _ => asks_closest(
                    out,
                    pre.peers,
                tried,
                origin.node_id,
                from,
                    key,
                    MessageView {
                        tx_id: id,
                        hops_to_live: fewer(hops) as u64,
                        depth: (depth + 1) as u64,
                        data: DataView::Insert { from: origin, key, size },
                    },
                    note(
                        origin.node_id,
                        id,
                        depth + 2,
                        0,
                        DataView::Continue { hops_remaining: hops },
                    ),
                ),
            }
        }),
{
    let post = step(pre, InEventView::CheckedBlob(id, status), coin, fresh, walk).0;
    assert(post.transactions =~= pre.transactions);
    lemma_nearer(key);
    let set = first_candidates(pre.peers, pre.transactions[id]);
    assert forall|p: PublicKey| #[trigger]
        may_ask(p, pre.peers, tried, origin.node_id, from) <==> set.contains(p) by {}
    if let Some(to) = walk.pick {
        assert(set.contains(to) ==> may_ask(to, pre.peers, tried, origin.node_id, from));
    }
}

/// A finished download of a search: it is over, and that is reported, or the data is offered to
/// the node that asked, under this node's own name.
pub proof fn law_downloaded_for_search(
    pre: StateView,
    id: TxId,
    outcome: DownloadOutcome,
    coin: bool,
    fresh: TxId,
    walk: Walk,
)
    requires
        tidy(pre),
        pre.transactions.contains_key(id),
        pre.transactions[id] is Finding,
    ensures
        ({
            let me = pre.node_addr;
            let (post, out) = step(
                pre,
                InEventView::DownloadedBlob(id, outcome),
                coin,
                fresh,
                walk,
            );
            &&& post == without(pre, pre.peers, id)
            &&& pre.transactions[id] matches TxView::Finding { from, depth, key, .. }
            &&& out == seq![
                if from == me.node_id {
                    OutEventView::Downloaded(key, outcome)
                } else {
                    note(
                        from,
                        id,
                        depth + 2,
                        0,
                        DataView::Ready { addr: me, data: key, size: outcome.local_size },
                    )
                },
            ]
        }),
{
    let post = step(pre, InEventView::DownloadedBlob(id, outcome), coin, fresh, walk).0;
    assert(post.transactions =~= pre.transactions.remove(id));
}

/// A finished download of an insertion: each node that was tried is told, once, that the data is
/// ready here; and where none was tried, the node that the request came from is told that the
/// data is inserted.
pub proof fn law_downloaded_for_insertion(
    pre: StateView,
    id: TxId,
    outcome: DownloadOutcome,
    origin: NodeAddrView,
    from: PublicKey,
    hops: u64,
    depth: u64,
    key: BlobHash,
    size: u64,
    tried: Set<PublicKey>,
    coin: bool,
    fresh: TxId,
    walk: Walk,
)
    requires
        tidy(pre),
        pre.transactions.contains_key(id),
        pre.transactions[id] == (TxView::Inserting {
            origin,
            from,
            hops_to_live: hops,
            depth,
            key,
            size,
            tried,
        }),
        walk_for(pre, InEventView::DownloadedBlob(id, outcome), coin, walk),
    ensures
        ({
            let me = pre.node_addr;
            let (post, out) = step(
                pre,
                InEventView::DownloadedBlob(id, outcome),
                coin,
                fresh,
                walk,
            );
            &&& post == pre
            &&& (exists|p: PublicKey| #[trigger] tried.contains(p)) ==> tells_each_once(
                out,
                tried,
                id,
                2,
                DataView::Ready { addr: me, data: key, size: outcome.local_size },
            )
            &&& (forall|p: PublicKey| !(#[trigger] tried.contains(p))) ==> out == seq![
                note(from, id, depth + 2, 0, DataView::Inserted),
            ]
        }),
{
    let post = step(pre, InEventView::DownloadedBlob(id, outcome), coin, fresh, walk).0;
    assert(post.transactions =~= pre.transactions);
    let data = DataView::Ready {
        addr: pre.node_addr,
        data: key,
        size: outcome.local_size,
    };
    assert(walk.order.no_duplicates() && walk.order.to_set() == tried);
    lemma_tells_each_once(walk.order, tried, id, 2, data);
    if exists|p: PublicKey| #[trigger] tried.contains(p) {
        let p = choose|p: PublicKey| #[trigger] tried.contains(p);
        assert(walk.order.to_set().contains(p));
        assert(walk.order.contains(p));
    } else if walk.order.len() > 0 {
        assert(walk.order.contains(walk.order[0]));
        assert(walk.order.to_set().contains(walk.order[0]));
    }
}

/// A peer is silent. If it has been tried, nothing happens. Otherwise a search goes on to a
/// closest peer that is neither tried nor the node that asked, whoever that is; and only if there
/// is none, it is reported as failed, or sent back to the node that asked.
pub proof fn law_silence_in_search(
    pre: StateView,
    id: TxId,
    peer: PublicKey,
    from: PublicKey,
    hops: u64,
    depth: u64,
    key: BlobHash,
    tried: Set<PublicKey>,
    coin: bool,
    fresh: TxId,
    walk: Walk,
)
    requires
        tidy(pre),
        pre.transactions.contains_key(id),
        pre.transactions[id] == (TxView::Finding {
            from,
            hops_to_live: hops,
            depth,
            key,
            tried,
        }),
        walk_for(pre, InEventView::Timeout(id, peer), coin, walk),
    ensures
        ({
            let (post, out) = step(pre, InEventView::Timeout(id, peer), coin, fresh, walk);
            &&& post == pre
            &&& tried.contains(peer) ==> out == Seq::<OutEventView>::empty()
            &&& !tried.contains(peer) ==> asks_closest(
                out,
                pre.peers,
                tried,
                from,
                from,
                key,
                MessageView {
                    tx_id: id,
                    hops_to_live: fewer(hops) as u64,
                    depth: (depth + 1) as u64,
                    data: DataView::Find { key },
                },
                if from == pre.node_addr.node_id {
                    OutEventView::NotFound(key)
                } else {
                    note(
                        from,
                        id,
                        depth + 2,
                        0,
                        DataView::Continue { hops_remaining: hops },
                    )
                },
            )
        }),
{
    let post = step(pre, InEventView::Timeout(id, peer), coin, fresh, walk).0;
    assert(post.transactions =~= pre.transactions);
    lemma_nearer(key);
    let set = retry_candidates(pre.peers, pre.transactions[id]);
    assert forall|p: PublicKey| #[trigger]
        may_ask(p, pre.peers, tried, from, from) <==> set.contains(p) by {}
    if let Some(to) = walk.pick {
        assert(set.contains(to) ==> may_ask(to, pre.peers, tried, from, from));
    }
}

/// The same of an insertion: it goes on to a closest peer that is neither tried nor its origin,
/// whether or not this node is the origin; and only if there is none, it is reported as failed,
/// or sent back to its origin.
pub proof fn law_silence_in_insertion(
    pre: StateView,
    id: TxId,
    peer: PublicKey,
    origin: NodeAddrView,
    from: PublicKey,
    hops: u64,
    depth: u64,
    key: BlobHash,
    size: u64,
    tried: Set<PublicKey>,
    coin: bool,
    fresh: TxId,
    walk: Walk,
)
    requires
        tidy(pre),
        pre.transactions.contains_key(id),
        pre.transactions[id] == (TxView::Inserting {
            origin,
            from,
            hops_to_live: hops,
            depth,
            key,
            size,
            tried,
        }),
        walk_for(pre, InEventView::Timeout(id, peer), coin, walk),
    ensures
        ({
            let (post, out) = step(pre, InEventView::Timeout(id, peer), coin, fresh, walk);
            &&& post == pre
            &&& tried.contains(peer) ==> out == Seq::<OutEventView>::empty()
            &&& !tried.contains(peer) ==> asks_closest(
                out,
                pre.peers,
                tried,
                origin.node_id,
                origin.node_id,
                key,
                MessageView {
                    tx_id: id,
                    hops_to_live: (depth + 2) as u64,
                    depth: (depth + 1) as u64,
                    data: DataView::Insert { from: origin, key, size },
                },
                if origin.node_id == pre.node_addr.node_id {
                    OutEventView::NotInserted(key)
                } else {
                    note(
                        origin.node_id,
                        id,
                        depth + 2,
                        0,
                        DataView::Continue { hops_remaining: hops },
                    )
                },
            )
        }),
{
    let post = step(pre, InEventView::Timeout(id, peer), coin, fresh, walk).0;
    assert(post.transactions =~= pre.transactions);
    lemma_nearer(key);
    let set = retry_candidates(pre.peers, pre.transactions[id]);
    assert forall|p: PublicKey| #[trigger]
        may_ask(p, pre.peers, tried, origin.node_id, origin.node_id) <==> set.contains(p) by {}
    if let Some(to) = walk.pick {
        assert(set.contains(to) ==> may_ask(to, pre.peers, tried, origin.node_id, origin.node_id));
    }
}

/// A search of this node's own is remembered, and asks some peer; without peers it is reported as
/// failed.
pub proof fn law_own_search(
    pre: StateView,
    key: BlobHash,
    coin: bool,
    fresh: TxId,
    walk: Walk,
)
    requires
        tidy(pre),
        walk_for(pre, InEventView::Find(key), coin, walk),
    ensures
        ({
            let (post, out) = step(pre, InEventView::Find(key), coin, fresh, walk);
            &&& post == with(
                pre,
                pre.peers,
                fresh,
                TxView::Finding {
                    from: pre.node_addr.node_id,
                    hops_to_live: 5,
                    depth: 0,
                    key,
                    tried: Set::empty(),
                },
            )
            &&& out.len() == 1
            &&& (exists|p: PublicKey| #[trigger] pre.peers.contains(p)) ==> (
            out[0] matches OutEventView::SendMessage(to, _) && pre.peers.contains(to) && out[0]
                == note(to, fresh, 5, 0, DataView::Find { key }))
            &&& (forall|p: PublicKey| !(#[trigger] pre.peers.contains(p))) ==> out[0]
                == OutEventView::NotFound(key)
        }),
{
    let post = step(pre, InEventView::Find(key), coin, fresh, walk).0;
    assert(post.transactions =~= pre.transactions.insert(fresh, post.transactions[fresh]));
}

/// An insertion of this node's own is remembered, and asks a closest peer; without peers it is
/// reported as failed, and nothing is remembered.
pub proof fn law_own_insertion(
    pre: StateView,
    key: BlobHash,
    size: u64,
    coin: bool,
    fresh: TxId,
    walk: Walk,
)
    requires
        tidy(pre),
        walk_for(pre, InEventView::Insert(key, size), coin, walk),
    ensures
        ({
            let me = pre.node_addr;
            let (post, out) = step(pre, InEventView::Insert(key, size), coin, fresh, walk);
            &&& out.len() == 1
            &&& (exists|p: PublicKey| #[trigger] pre.peers.contains(p)) ==> (
            out[0] matches OutEventView::SendMessage(to, _) && pre.peers.contains(to) && out[0]
                == note(to, fresh, 2, 0, DataView::Insert { from: me, key, size })
                && forall|q: PublicKey| #[trigger]
                pre.peers.contains(q) ==> !closer(q, to, key))
            &&& (forall|p: PublicKey| !(#[trigger] pre.peers.contains(p))) ==> out[0]
                == OutEventView::NotInserted(key)
            &&& (exists|p: PublicKey| #[trigger] pre.peers.contains(p)) ==> post == with(
                pre,
                pre.peers,
                fresh,
                TxView::Inserting {
                    origin: me,
                    from: me.node_id,
                    hops_to_live: 2,
                    depth: 0,
                    key,
                    size,
                    tried: Set::empty(),
                },
            )
            &&& (forall|p: PublicKey| !(#[trigger] pre.peers.contains(p))) ==> post == pre
        }),
{
    let post = step(pre, InEventView::Insert(key, size), coin, fresh, walk).0;
    lemma_nearer(key);
    if walk.pick is Some {
        assert(pre.peers.contains(walk.pick->0));
        assert(post.transactions =~= pre.transactions.insert(fresh, post.transactions[fresh]));
    } else {
        assert(post.transactions =~= pre.transactions);
    }
}

/// A peer that disconnects is no peer any more, and what it has begun is forgotten: its searches,
/// and the insertions of which it is the origin. Everything else stays, and nothing is sent.
pub proof fn law_disconnection(
    pre: StateView,
    peer: PublicKey,
    coin: bool,
    fresh: TxId,
    walk: Walk,
)
    requires
        tidy(pre),
    ensures
        ({
            let (post, out) = step(
                pre,
                InEventView::PeerDisconnected(peer),
                coin,
                fresh,
                walk,
            );
            &&& out == Seq::<OutEventView>::empty()
            &&& post == StateView {
                peers: pre.peers.remove(peer),
                transactions: post.transactions,
                ..pre
            }
            &&& forall|id: TxId| #[trigger]
                post.transactions.contains_key(id) <==> pre.transactions.contains_key(id)
                    && match pre.transactions[id] {
                    TxView::Starting { from } => from != peer,
                    TxView::Finding { from, .. } => from != peer,
                    TxView::Inserting { origin, .. } => origin.node_id != peer,
                    TxView::Errored { from } => from != peer,
                    TxView::Finished { from } => from != peer,
                }
            &&& forall|id: TxId| #[trigger]
                post.transactions.contains_key(id) ==> post.transactions[id]
                    == pre.transactions[id]
        }),
{
}

// ---------------------------------------------------------------------------------------
// What is never said
// ---------------------------------------------------------------------------------------

/// Success is claimed only where there was one: that data is inserted is said only in answer to a
/// finished download, or to pass on what another node says; that it is ready or found, only where
/// it is stored or downloaded here, where another node says that it was found, or where this node
/// inserts it.
pub proof fn law_success_is_not_made_up(
    pre: StateView,
    event: InEventView,
    coin: bool,
    fresh: TxId,
    walk: Walk,
    i: int,
)
    requires
        0 <= i < step(pre, event, coin, fresh, walk).1.len(),
    ensures
        match step(pre, event, coin, fresh, walk).1[i] {
            OutEventView::SendMessage(_, m) => {
                &&& m.data is Inserted ==> event is DownloadedBlob || (
                event matches InEventView::RecvMessage(_, n) && n.data is Inserted)
                &&& m.data is Found ==> (event matches InEventView::CheckedBlob(_, s)
                    && s is Complete) || (event matches InEventView::RecvMessage(_, n)
                    && n.data is Found)
                &&& m.data is Ready ==> event is DownloadedBlob || (
                event matches InEventView::CheckedBlob(_, s) && s is Complete) || (
                event matches InEventView::RecvMessage(_, n) && n.data is NotFound)
            },
            OutEventView::Inserted(_) => event matches InEventView::RecvMessage(_, n)
                && n.data is Inserted,
            OutEventView::Downloaded(_, o) => event matches InEventView::DownloadedBlob(_, p) && o
                == p,
            OutEventView::Found(_) => event matches InEventView::RecvMessage(_, n)
                && n.data is Found,
            _ => true,
        },
{
    let out = step(pre, event, coin, fresh, walk).1;
    assert(forall|order: Seq<PublicKey>, id: TxId, hops: u64, data: DataView, j: int|
        0 <= j < order.len() ==> (#[trigger] send_all(order, id, hops, data)[j]
            matches OutEventView::SendMessage(_, m) && m.data == data));
    assert(out[i] == out[i]);
}

// ---------------------------------------------------------------------------------------
// Which events can be handled
// ---------------------------------------------------------------------------------------

/// Whether the numbers of a transaction are ordinary ones.
pub open spec fn ordinary(tx: TxView) -> bool {
    match tx {
        TxView::Finding { hops_to_live, depth, .. } => hops_to_live >= 1 && depth
            <= 0xffff_ffff_ffff_fffd,
        TxView::Inserting { hops_to_live, depth, .. } => hops_to_live >= 1 && depth
            <= 0xffff_ffff_ffff_fffd,
        _ => true,
    }
}

/// Every event can be handled as long as all numbers are ordinary: at least one hop, and a depth
/// to which two can be added.
pub proof fn law_ordinary_events_can_be_handled(pre: StateView, event: InEventView)
    requires
        forall|id: TxId| #[trigger]
            pre.transactions.contains_key(id) ==> ordinary(pre.transactions[id]),
        event matches InEventView::RecvMessage(_, msg) ==> msg.hops_to_live >= 1 && msg.depth
            <= 0xffff_ffff_ffff_fffd && (msg.data matches DataView::Continue { hops_remaining }
            ==> hops_remaining >= 1),
    ensures
        fits(pre, event),
{
}

/// Numbers matter only where they are reckoned with. A message that has not come in on the last of
/// its hops can be handled, whatever its numbers, if it is a request, if the data is ready, if it
/// reports an error, if there is no transaction for it, or if it answers a search or an insertion
/// of this node's own and does not give it back. So can a pulse, and every event that is not about
/// a search or an insertion that is under way.
pub proof fn law_numbers_matter_only_where_used(pre: StateView, event: InEventView)
    requires
        match event {
            InEventView::RecvMessage(_, msg) => {
                ||| msg.data is Pulse
                ||| msg.hops_to_live != 1 && {
                    ||| msg.data is Find
                    ||| msg.data is Insert
                    ||| msg.data is Ready
                    ||| msg.data is Error
                    ||| !pre.transactions.contains_key(msg.tx_id)
                    ||| match pre.transactions[msg.tx_id] {
                        TxView::Finding { from, .. } => from == pre.node_addr.node_id && !(
                        msg.data is Continue),
                        TxView::Inserting { origin, .. } => origin.node_id
                            == pre.node_addr.node_id && !(msg.data is Continue),
                        _ => true,
                    }
                }
            },
            InEventView::CheckedBlob(id, _) => !pre.transactions.contains_key(id) || !(
            pre.transactions[id] is Finding || pre.transactions[id] is Inserting),
            InEventView::DownloadedBlob(id, _) => !pre.transactions.contains_key(id) || match
                pre.transactions[id] {
                TxView::Finding { from, .. } => from == pre.node_addr.node_id,
                TxView::Inserting { tried, .. } => exists|p: PublicKey| tried.contains(p),
                _ => true,
            },
            InEventView::Timeout(id, peer) => !pre.transactions.contains_key(id) || match
                pre.transactions[id] {
                TxView::Finding { tried, .. } => tried.contains(peer),
                TxView::Inserting { tried, .. } => tried.contains(peer),
                _ => true,
            },
            _ => true,
        },
    ensures
        fits(pre, event),
{
    if let InEventView::DownloadedBlob(id, _) = event {
        if pre.transactions.contains_key(id) {
            if let TxView::Inserting { tried, .. } = pre.transactions[id] {
                let p = choose|p: PublicKey| tried.contains(p);
                assert(tx_tried(pre.transactions[id]).contains(p));
            }
        }
    }
}

// ---------------------------------------------------------------------------------------
// Nothing is hidden
// ---------------------------------------------------------------------------------------

/// What an address holds is shown whole.
pub proof fn law_addresses_are_shown_whole(addr: NodeAddr)
    ensures
        addr@.node_id == addr.node_id,
        match addr.relay_url {
            Some(url) => addr@.relay_url == Some(url@),
            None => addr@.relay_url is None,
        },
        addr@.direct_addresses.len() == addr.direct_addresses@.len(),
        forall|i: int|
            0 <= i < addr.direct_addresses@.len() ==> #[trigger] addr@.direct_addresses[i]
                == addr.direct_addresses@[i]@,
{
}

/// What a message holds is shown whole.
pub proof fn law_messages_are_shown_whole(msg: Message)
    ensures
        msg@.tx_id == msg.tx_id,
        msg@.hops_to_live == msg.hops_to_live,
        msg@.depth == msg.depth,
        match msg.data {
            MessageData::Find { key: k } => msg@.data matches DataView::Find { key } && key == k,
            MessageData::Found { from: f, size: s } => msg@.data
                matches DataView::Found { from, size } && from == f@ && size == s,
            MessageData::NotFound => msg@.data is NotFound,
            MessageData::Continue { hops_remaining: h } => msg@.data
                matches DataView::Continue { hops_remaining } && hops_remaining == h,
            MessageData::Insert { from: f, key: k, size: s } => msg@.data
                matches DataView::Insert { from, key, size } && from == f@ && key == k && size == s,
            MessageData::Inserted => msg@.data is Inserted,
            MessageData::Ready { addr: a, data: d, size: s } => msg@.data
                matches DataView::Ready { addr, data, size } && addr == a@ && data == d && size
                == s,
            MessageData::Pulse => msg@.data is Pulse,
            MessageData::Error => msg@.data is Error,
        },
{
}

/// What an event holds is shown whole.
pub proof fn law_events_are_shown_whole(event: InEvent, out: OutEvent)
    ensures
        match event {
            InEvent::RecvMessage(p, m) => event@ matches InEventView::RecvMessage(peer, msg) && peer
                == p && msg == m@,
            InEvent::CheckedBlob(t, s) => event@ matches InEventView::CheckedBlob(tx_id, status)
                && tx_id == t && status == s,
            InEvent::DownloadedBlob(t, o) => event@
                matches InEventView::DownloadedBlob(tx_id, outcome) && tx_id == t && outcome == o,
            InEvent::Timeout(t, p) => event@ matches InEventView::Timeout(tx_id, peer) && tx_id == t
                && peer == p,
            InEvent::Find(k) => event@ matches InEventView::Find(key) && key == k,
            InEvent::Insert(k, s) => event@ matches InEventView::Insert(key, size) && key == k
                && size == s,
            InEvent::PeerDisconnected(p) => event@ matches InEventView::PeerDisconnected(peer)
                && peer == p,
        },
        match out {
            OutEvent::SendMessage(p, m) => out@ matches OutEventView::SendMessage(peer, msg) && peer
                == p && msg == m@,
            OutEvent::CheckBlob(t, k) => out@ matches OutEventView::CheckBlob(tx_id, key) && tx_id
                == t && key == k,
            OutEvent::DownloadBlob(t, f, k, s) => out@
                matches OutEventView::DownloadBlob(tx_id, from, key, size) && tx_id == t && from
                == f@ && key == k && size == s,
            OutEvent::PeerInfo(a) => out@ matches OutEventView::PeerInfo(addr) && addr == a@,
            OutEvent::Found(k) => out@ matches OutEventView::Found(key) && key == k,
            OutEvent::Downloaded(k, o) => out@ matches OutEventView::Downloaded(key, outcome) && key
                == k && outcome == o,
            OutEvent::NotFound(k) => out@ matches OutEventView::NotFound(key) && key == k,
            OutEvent::Inserted(k) => out@ matches OutEventView::Inserted(key) && key == k,
            OutEvent::NotInserted(k) => out@ matches OutEventView::NotInserted(key) && key == k,
            OutEvent::DisconnectPeer(p) => out@ matches OutEventView::DisconnectPeer(peer) && peer
                == p,
        },
{
}

/// What lists of events hold is shown whole, and in order.
pub proof fn law_outboxes_are_shown_whole(events: Seq<OutEvent>)
    ensures
        events_of(events).len() == events.len(),
        forall|i: int| 0 <= i < events.len() ==> #[trigger] events_of(events)[i] == events[i]@,
{
}

/// What a node remembers of a transaction is shown whole.
pub proof fn law_transactions_are_shown_whole(tx: TxState)
    ensures
        match tx {
            TxState::Starting { from: f } => tx@ matches TxView::Starting { from } && from == f,
            TxState::Finding { from: f, hops_to_live: h, depth: d, key: k, tried: t } => tx@
                matches TxView::Finding { from, hops_to_live, depth, key, tried } && from == f
                && hops_to_live == h && depth == d && key == k && tried == t@,
            TxState::Inserting {
                origin: o,
                from: f,
                hops_to_live: h,
                depth: d,
                key: k,
                size: s,
                tried: t,
            } => tx@ matches TxView::Inserting {
                origin,
                from,
                hops_to_live,
                depth,
                key,
                size,
                tried,
            } && origin == o@ && from == f && hops_to_live == h && depth == d && key == k && size
                == s && tried == t@,
            TxState::Errored { from: f } => tx@ matches TxView::Errored { from } && from == f,
            TxState::Finished { from: f } => tx@ matches TxView::Finished { from } && from == f,
        },
{
}

/// What a node remembers of all transactions is shown whole.
pub proof fn law_all_transactions_are_shown(transactions: Map<TxId, TxState>)
    ensures
        forall|id: TxId| #[trigger]
            txs_of(transactions).contains_key(id) <==> transactions.contains_key(id),
        forall|id: TxId|
            transactions.contains_key(id) ==> #[trigger] txs_of(transactions)[id]
                == transactions[id]@,
{
}

/// A transaction belongs to the node that asked for the search, or to the origin of the
/// insertion.
pub proof fn law_owner(tx: TxView)
    ensures
        match tx {
            TxView::Starting { from } => tx.owner() == from,
            TxView::Finding { from, .. } => tx.owner() == from,
            TxView::Inserting { origin, .. } => tx.owner() == origin.node_id,
            TxView::Errored { from } => tx.owner() == from,
            TxView::Finished { from } => tx.owner() == from,
        },
{
}

/// An identifier that the node draws for a transaction of its own is a random one: the bits for
/// version and variant are those of a random UUID.
pub proof fn law_own_identifiers_are_random(event: InEventView, fresh: TxId)
    requires
        fresh_for(event, fresh),
        event is Find || event is Insert,
    ensures
        (fresh >> 76u128) & 0xf == 4,
        (fresh >> 62u128) & 0x3 == 2,
{
}

} // verus!
