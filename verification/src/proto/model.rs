//! What each event does to a node, as mathematics.
//!
//! A node draws on chance in three places: a coin, new transaction identifiers, and the order
//! in which it goes through a set of peers. Every function here takes the outcome as an
//! argument; [`Walk`] is what came of going through the peers.

use vstd::prelude::*;

use crate::proto::addr::NodeAddrView;
use crate::proto::event::{BlobStatus, Config, DownloadOutcome, InEventView, OutEventView};
use crate::proto::keys::{BlobHash, PublicKey};
use crate::proto::message::{DataView, MessageView, TxId};
use crate::proto::peers::{picks, picks_nearest, untried, walks};
use crate::proto::tx::TxView;

verus! {

/// What a node holds.
#[verifier::ext_equal]
pub struct StateView {
    pub config: Config,
    pub node_addr: NodeAddrView,
    pub transactions: Map<TxId, TxView>,
    pub peers: Set<PublicKey>,
}

impl StateView {
    /// The node's own identifier.
    pub open spec fn id(self) -> PublicKey {
        self.node_addr.node_id
    }
}

/// The outcome of going through a set of peers: the one chosen to receive a request, and the
/// order in which those that are all sent something come.
pub struct Walk {
    pub pick: Option<PublicKey>,
    pub order: Seq<PublicKey>,
}

/// What handling an event of one transaction leads to.
#[verifier::ext_equal]
pub struct Outcome {
    pub peers: Set<PublicKey>,
    pub tx: TxView,
    pub out: Seq<OutEventView>,
}

/// The number of hops that a message has left after one more hop; it never falls below one.
pub open spec fn next_hops(hops: u64) -> u64 {
    if hops <= 2 {
        1
    } else {
        (hops - 1) as u64
    }
}

/// A message that is to be sent.
pub open spec fn send(
    to: PublicKey,
    tx_id: TxId,
    hops_to_live: u64,
    depth: u64,
    data: DataView,
) -> OutEventView {
    OutEventView::SendMessage(to, MessageView { tx_id, hops_to_live, depth, data })
}

/// An answer that travels back over the `depth` nodes that the request came through.
pub open spec fn reply(to: PublicKey, tx_id: TxId, depth: u64, data: DataView) -> OutEventView {
    send(to, tx_id, (depth + 2) as u64, 0, data)
}

/// An answer that is passed on one hop further than `msg` has come.
pub open spec fn pass_on(to: PublicKey, msg: MessageView, data: DataView) -> OutEventView {
    send(to, msg.tx_id, next_hops(msg.hops_to_live), (msg.depth + 1) as u64, data)
}

/// A request that is sent on to the next node.
pub open spec fn forward(
    to: PublicKey,
    tx_id: TxId,
    hops_to_live: u64,
    depth: u64,
    data: DataView,
) -> OutEventView {
    send(to, tx_id, next_hops(hops_to_live), (depth + 1) as u64, data)
}

/// The answer to a message that was not due.
pub open spec fn refusal(to: PublicKey, msg: MessageView) -> OutEventView {
    send(to, msg.tx_id, msg.depth, 0, DataView::Error)
}

/// The same message about `tx_id` for each peer of `order`.
pub open spec fn send_all(
    order: Seq<PublicKey>,
    tx_id: TxId,
    hops_to_live: u64,
    data: DataView,
) -> Seq<OutEventView> {
    order.map_values(|to: PublicKey| send(to, tx_id, hops_to_live, 0, data))
}

/// Whether the numbers of a message leave room for one more hop.
pub open spec fn can_pass_on(hops_to_live: u64, depth: u64) -> bool {
    &&& hops_to_live >= 1
    &&& depth < u64::MAX
}

/// Whether an answer can travel back over `depth` nodes.
pub open spec fn can_reply(depth: u64) -> bool {
    depth <= u64::MAX - 2
}

/// The peers that a search or an insertion may go to after `peer` sent it back.
pub open spec fn next_candidates(
    peers: Set<PublicKey>,
    tx: TxView,
    peer: PublicKey,
) -> Set<PublicKey> {
    match tx {
        TxView::Finding { from, tried, .. } => untried(peers, tried.insert(peer), from, peer),
        TxView::Inserting { origin, tried, .. } => untried(
            peers,
            tried.insert(peer),
            origin.node_id,
            peer,
        ),
        _ => Set::empty(),
    }
}

/// The peers that a request may go to when the blob is not stored here.
pub open spec fn first_candidates(peers: Set<PublicKey>, tx: TxView) -> Set<PublicKey> {
    match tx {
        TxView::Finding { from, tried, .. } => untried(peers, tried, from, from),
        TxView::Inserting { origin, from, tried, .. } => untried(
            peers,
            tried,
            origin.node_id,
            from,
        ),
        _ => Set::empty(),
    }
}

/// The peers that a request may go to after a peer did not answer in time.
pub open spec fn retry_candidates(peers: Set<PublicKey>, tx: TxView) -> Set<PublicKey> {
    match tx {
        TxView::Finding { from, tried, .. } => untried(peers, tried, from, from),
        TxView::Inserting { origin, tried, .. } => untried(
            peers,
            tried,
            origin.node_id,
            origin.node_id,
        ),
        _ => Set::empty(),
    }
}

/// The blob that a transaction is about.
pub open spec fn tx_key(tx: TxView) -> BlobHash
    recommends
        tx is Finding || tx is Inserting,
{
    match tx {
        TxView::Finding { key, .. } => key,
        TxView::Inserting { key, .. } => key,
        _ => arbitrary(),
    }
}

/// The peers that a transaction has tried.
pub open spec fn tx_tried(tx: TxView) -> Set<PublicKey> {
    match tx {
        TxView::Finding { tried, .. } => tried,
        TxView::Inserting { tried, .. } => tried,
        _ => Set::empty(),
    }
}

// ---------------------------------------------------------------------------------------
// Messages
// ---------------------------------------------------------------------------------------

/// A request for data: a new transaction looks in the local store first; an old one has been
/// violated.
pub open spec fn on_find(
    peer: PublicKey,
    peers: Set<PublicKey>,
    tx: TxView,
    msg: MessageView,
    key: BlobHash,
) -> Outcome {
    if tx is Starting {
        Outcome {
            peers,
            tx: TxView::Finding {
                from: peer,
                hops_to_live: msg.hops_to_live,
                depth: msg.depth,
                key,
                tried: Set::empty(),
            },
            out: seq![OutEventView::CheckBlob(msg.tx_id, key)],
        }
    } else {
        Outcome { peers, tx: TxView::Errored { from: peer }, out: seq![refusal(peer, msg)] }
    }
}

/// A request to insert data of the node `origin`.
pub open spec fn on_insert(
    peer: PublicKey,
    peers: Set<PublicKey>,
    tx: TxView,
    msg: MessageView,
    origin: NodeAddrView,
    key: BlobHash,
    size: u64,
) -> Outcome {
    if tx is Starting {
        Outcome {
            peers: peers.insert(origin.node_id),
            tx: TxView::Inserting {
                origin,
                from: peer,
                hops_to_live: msg.hops_to_live,
                depth: msg.depth,
                key,
                size,
                tried: Set::empty(),
            },
            out: seq![OutEventView::PeerInfo(origin), OutEventView::CheckBlob(msg.tx_id, key)],
        }
    } else {
        Outcome { peers, tx: TxView::Errored { from: peer }, out: seq![refusal(peer, msg)] }
    }
}

/// The data was found at the node `at`.
pub open spec fn on_found(
    me: NodeAddrView,
    peer: PublicKey,
    peers: Set<PublicKey>,
    tx: TxView,
    msg: MessageView,
    at: NodeAddrView,
    size: u64,
) -> Outcome {
    let answer = DataView::Found { from: me, size };
    match tx {
        TxView::Finding { from, key, .. } => {
            if from != peer {
                Outcome {
                    peers: peers.insert(at.node_id),
                    tx,
                    out: seq![
                        OutEventView::PeerInfo(at),
                        if from == me.node_id {
                            OutEventView::Found(key)
                        } else {
                            pass_on(from, msg, answer)
                        },
                    ],
                }
            } else {
                Outcome { peers, tx, out: seq![refusal(peer, msg)] }
            }
        },
        TxView::Inserting { origin, key, .. } => {
            if origin.node_id != peer {
                Outcome {
                    peers: peers.insert(at.node_id),
                    tx,
                    out: seq![
                        OutEventView::PeerInfo(at),
                        OutEventView::DownloadBlob(msg.tx_id, at, key, size),
                        if origin.node_id == me.node_id {
                            OutEventView::NotInserted(key)
                        } else {
                            pass_on(origin.node_id, msg, answer)
                        },
                    ],
                }
            } else {
                Outcome { peers, tx, out: seq![refusal(peer, msg)] }
            }
        },
        _ => Outcome { peers, tx, out: seq![refusal(peer, msg)] },
    }
}

/// The request has run out of hops.
pub open spec fn on_not_found(
    me: NodeAddrView,
    peer: PublicKey,
    peers: Set<PublicKey>,
    tx: TxView,
    msg: MessageView,
    order: Seq<PublicKey>,
) -> Outcome {
    match tx {
        TxView::Finding { from, key, .. } => {
            if from != peer {
                Outcome {
                    peers,
                    tx: TxView::Finished { from },
                    out: seq![
                        if from == me.node_id {
                            OutEventView::NotFound(key)
                        } else {
                            pass_on(from, msg, DataView::NotFound)
                        },
                    ],
                }
            } else {
                Outcome { peers, tx, out: seq![refusal(peer, msg)] }
            }
        },
        TxView::Inserting { origin, from, hops_to_live, depth, key, size, tried } => Outcome {
            peers,
            tx: TxView::Inserting {
                origin,
                from,
                hops_to_live,
                depth,
                key,
                size,
                tried: tried.insert(peer),
            },
            out: if origin.node_id == me.node_id {
                send_all(order, msg.tx_id, 5, DataView::Ready { addr: me, data: key, size })
            } else {
                seq![pass_on(from, msg, DataView::NotFound)]
            },
        },
        _ => Outcome { peers, tx, out: seq![refusal(peer, msg)] },
    }
}

/// The peer has no more nodes to ask: the request goes to the next candidate, and back if
/// there is none.
pub open spec fn on_continue(
    me: NodeAddrView,
    peer: PublicKey,
    peers: Set<PublicKey>,
    tx: TxView,
    msg: MessageView,
    hops_remaining: u64,
    pick: Option<PublicKey>,
) -> Outcome {
    match tx {
        TxView::Finding { from, hops_to_live, depth, key, tried } => {
            if from != peer {
                Outcome {
                    peers,
                    tx: TxView::Finding {
                        from,
                        hops_to_live,
                        depth,
                        key,
                        tried: tried.insert(peer),
                    },
                    out: seq![
                        match pick {
                            Some(to) => forward(
                                to,
                                msg.tx_id,
                                hops_to_live,
                                depth,
                                DataView::Find { key },
                            ),
                            None => if from == me.node_id {
                                OutEventView::NotFound(key)
                            } else {
                                pass_on(
                                    from,
                                    msg,
                                    DataView::Continue { hops_remaining: hops_to_live },
                                )
                            },
                        },
                    ],
                }
            } else {
                Outcome { peers, tx, out: seq![refusal(peer, msg)] }
            }
        },
        TxView::Inserting { origin, from, hops_to_live, depth, key, size, tried } => {
            if origin.node_id != peer {
                Outcome {
                    peers,
                    tx: TxView::Inserting {
                        origin,
                        from,
                        hops_to_live,
                        depth,
                        key,
                        size,
                        tried: tried.insert(peer),
                    },
                    out: seq![
                        match pick {
                            Some(to) => forward(
                                to,
                                msg.tx_id,
                                hops_remaining,
                                depth,
                                DataView::Insert { from: origin, key, size },
                            ),
                            None => if origin.node_id == me.node_id {
                                OutEventView::NotInserted(key)
                            } else {
                                pass_on(
                                    origin.node_id,
                                    msg,
                                    DataView::Continue { hops_remaining },
                                )
                            },
                        },
                    ],
                }
            } else {
                Outcome { peers, tx, out: seq![refusal(peer, msg)] }
            }
        },
        _ => Outcome { peers, tx, out: seq![refusal(peer, msg)] },
    }
}

/// The data has been inserted.
pub open spec fn on_inserted(
    me: NodeAddrView,
    peer: PublicKey,
    peers: Set<PublicKey>,
    tx: TxView,
    msg: MessageView,
) -> Outcome {
    match tx {
        TxView::Inserting { origin, key, .. } if origin.node_id != peer => Outcome {
            peers,
            tx,
            out: seq![
                if origin.node_id == me.node_id {
                    OutEventView::Inserted(key)
                } else {
                    pass_on(origin.node_id, msg, DataView::Inserted)
                },
            ],
        },
        _ => Outcome { peers, tx, out: seq![refusal(peer, msg)] },
    }
}

/// The data can be downloaded: an insertion takes it from its origin, a search from `addr`.
pub open spec fn on_ready(
    peer: PublicKey,
    peers: Set<PublicKey>,
    tx: TxView,
    msg: MessageView,
    addr: NodeAddrView,
    data: BlobHash,
    size: u64,
) -> Outcome {
    match tx {
        TxView::Inserting { origin, key, .. } => Outcome {
            peers: peers.insert(addr.node_id),
            tx,
            out: seq![
                OutEventView::PeerInfo(addr),
                OutEventView::DownloadBlob(msg.tx_id, origin, key, size),
            ],
        },
        TxView::Finding { .. } => Outcome {
            peers: peers.insert(addr.node_id),
            tx,
            out: seq![
                OutEventView::PeerInfo(addr),
                OutEventView::DownloadBlob(msg.tx_id, addr, data, size),
            ],
        },
        _ => Outcome { peers, tx, out: seq![refusal(peer, msg)] },
    }
}

/// What a message from `peer` does to the transaction that it belongs to.
pub open spec fn on_message(
    me: NodeAddrView,
    peer: PublicKey,
    peers: Set<PublicKey>,
    tx: TxView,
    msg: MessageView,
    walk: Walk,
) -> Outcome {
    match msg.data {
        DataView::Find { key } => on_find(peer, peers, tx, msg, key),
        DataView::Insert { from, key, size } => on_insert(peer, peers, tx, msg, from, key, size),
        DataView::Found { from, size } => on_found(me, peer, peers, tx, msg, from, size),
        DataView::NotFound => on_not_found(me, peer, peers, tx, msg, walk.order),
        DataView::Continue { hops_remaining } => on_continue(
            me,
            peer,
            peers,
            tx,
            msg,
            hops_remaining,
            walk.pick,
        ),
        DataView::Inserted => on_inserted(me, peer, peers, tx, msg),
        DataView::Ready { addr, data, size } => on_ready(peer, peers, tx, msg, addr, data, size),
        DataView::Pulse => Outcome { peers, tx, out: seq![] },
        DataView::Error => Outcome {
            peers,
            tx: TxView::Errored { from: tx.owner() },
            out: seq![],
        },
    }
}

/// Whether `walk` can come of going through the peers for a message.
pub open spec fn message_walk(
    me: NodeAddrView,
    peer: PublicKey,
    peers: Set<PublicKey>,
    tx: TxView,
    msg: MessageView,
    walk: Walk,
) -> bool {
    match msg.data {
        DataView::NotFound => tx is Inserting && tx.owner() == me.node_id ==> walks(
            walk.order,
            tx_tried(tx).insert(peer),
        ),
        DataView::Continue { .. } => (tx is Finding || tx is Inserting) && tx.owner() != peer
            ==> picks_nearest(next_candidates(peers, tx, peer), tx_key(tx), walk.pick),
        _ => true,
    }
}

/// Whether the answer to a message stays within what the counters can hold.
pub open spec fn message_fits(
    me: NodeAddrView,
    peer: PublicKey,
    peers: Set<PublicKey>,
    tx: TxView,
    msg: MessageView,
) -> bool {
    let passes = can_pass_on(msg.hops_to_live, msg.depth);
    let mine = tx.owner() == me.node_id;
    match msg.data {
        DataView::Found { .. } => (tx is Finding || tx is Inserting) && tx.owner() != peer
            && !mine ==> passes,
        DataView::NotFound => {
            &&& tx is Finding && tx.owner() != peer && !mine ==> passes
            &&& tx is Inserting && !mine ==> passes
        },
        DataView::Continue { hops_remaining } => {
            let some_left = exists|p: PublicKey| next_candidates(peers, tx, peer).contains(p);
            match tx {
                TxView::Finding { hops_to_live, depth, .. } => {
                    tx.owner() != peer ==> if some_left {
                        can_pass_on(hops_to_live, depth)
                    } else {
                        mine || passes
                    }
                },
                TxView::Inserting { depth, .. } => {
                    tx.owner() != peer ==> if some_left {
                        can_pass_on(hops_remaining, depth)
                    } else {
                        mine || passes
                    }
                },
                _ => true,
            }
        },
        DataView::Inserted => tx is Inserting && tx.owner() != peer && !mine ==> passes,
        _ => true,
    }
}

// ---------------------------------------------------------------------------------------
// The other events of a transaction
// ---------------------------------------------------------------------------------------

/// What a node sends when it has looked for a blob in its own store.
pub open spec fn on_checked(
    me: NodeAddrView,
    tx_id: TxId,
    tx: TxView,
    status: BlobStatus,
    pick: Option<PublicKey>,
) -> Seq<OutEventView> {
    match tx {
        TxView::Finding { from, hops_to_live, depth, key, .. } => match status {
            BlobStatus::Complete { size } => seq![
                reply(from, tx_id, depth, DataView::Found { from: me, size }),
                reply(from, tx_id, depth, DataView::Ready { addr: me, data: key, size }),
            ],
            _ => seq![
                match pick {
                    Some(to) => forward(to, tx_id, hops_to_live, depth, DataView::Find { key }),
                    None => reply(
                        from,
                        tx_id,
                        depth,
                        DataView::Continue { hops_remaining: hops_to_live },
                    ),
                },
            ],
        },
        TxView::Inserting { origin, hops_to_live, depth, key, size, .. } => match status {
            BlobStatus::Complete { size: stored } => seq![
                reply(origin.node_id, tx_id, depth, DataView::Found { from: me, size: stored }),
            ],
            _ => seq![
                match pick {
                    Some(to) => forward(
                        to,
                        tx_id,
                        hops_to_live,
                        depth,
                        DataView::Insert { from: origin, key, size },
                    ),
                    None => reply(
                        origin.node_id,
                        tx_id,
                        depth,
                        DataView::Continue { hops_remaining: hops_to_live },
                    ),
                },
            ],
        },
        _ => seq![],
    }
}

/// Whether `pick` can come of going through the peers once the store has been looked at: a
/// search takes any candidate, an insertion a nearest one.
pub open spec fn checked_walk(
    peers: Set<PublicKey>,
    tx: TxView,
    status: BlobStatus,
    pick: Option<PublicKey>,
) -> bool {
    match tx {
        TxView::Finding { .. } => status is Complete || picks(first_candidates(peers, tx), pick),
        TxView::Inserting { key, .. } => status is Complete || picks_nearest(
            first_candidates(peers, tx),
            key,
            pick,
        ),
        _ => true,
    }
}

/// Whether the answer stays within what the counters can hold.
pub open spec fn checked_fits(peers: Set<PublicKey>, tx: TxView, status: BlobStatus) -> bool {
    let some_left = exists|p: PublicKey| first_candidates(peers, tx).contains(p);
    match tx {
        TxView::Finding { hops_to_live, depth, .. } => {
            if status is Complete || !some_left {
                can_reply(depth)
            } else {
                can_pass_on(hops_to_live, depth)
            }
        },
        TxView::Inserting { hops_to_live, depth, .. } => {
            if status is Complete || !some_left {
                can_reply(depth)
            } else {
                can_pass_on(hops_to_live, depth)
            }
        },
        _ => true,
    }
}

/// What becomes of a transaction, and what is sent, when its blob has been downloaded.
pub open spec fn on_downloaded(
    me: NodeAddrView,
    tx_id: TxId,
    tx: TxView,
    outcome: DownloadOutcome,
    order: Seq<PublicKey>,
) -> (TxView, Seq<OutEventView>) {
    match tx {
        TxView::Finding { from, depth, key, .. } => (
            TxView::Finished { from },
            seq![
                if from == me.node_id {
                    OutEventView::Downloaded(key, outcome)
                } else {
                    reply(
                        from,
                        tx_id,
                        depth,
                        DataView::Ready { addr: me, data: key, size: outcome.local_size },
                    )
                },
            ],
        ),
        TxView::Inserting { from, depth, key, .. } => (
            tx,
            if order.len() > 0 {
                send_all(
                    order,
                    tx_id,
                    2,
                    DataView::Ready { addr: me, data: key, size: outcome.local_size },
                )
            } else {
                seq![reply(from, tx_id, depth, DataView::Inserted)]
            },
        ),
        _ => (tx, seq![]),
    }
}

/// Whether `order` goes through the peers that are told of a download.
pub open spec fn downloaded_walk(tx: TxView, order: Seq<PublicKey>) -> bool {
    tx is Inserting ==> walks(order, tx_tried(tx))
}

/// Whether the answer stays within what the counters can hold.
pub open spec fn downloaded_fits(me: NodeAddrView, tx: TxView) -> bool {
    match tx {
        TxView::Finding { from, depth, .. } => from == me.node_id || can_reply(depth),
        TxView::Inserting { depth, .. } => (exists|p: PublicKey| tx_tried(tx).contains(p))
            || can_reply(depth),
        _ => true,
    }
}

/// What is sent when `peer` has not answered in time: the request goes to a nearest candidate,
/// and back if there is none.
pub open spec fn on_timeout(
    me: NodeAddrView,
    tx_id: TxId,
    tx: TxView,
    peer: PublicKey,
    pick: Option<PublicKey>,
) -> Seq<OutEventView> {
    match tx {
        TxView::Finding { from, hops_to_live, depth, key, tried } => if !tried.contains(peer) {
            seq![
                match pick {
                    Some(to) => forward(to, tx_id, hops_to_live, depth, DataView::Find { key }),
                    None => if from == me.node_id {
                        OutEventView::NotFound(key)
                    } else {
                        reply(
                            from,
                            tx_id,
                            depth,
                            DataView::Continue { hops_remaining: hops_to_live },
                        )
                    },
                },
            ]
        } else {
            seq![]
        },
        TxView::Inserting { origin, hops_to_live, depth, key, size, tried, .. } => {
            if !tried.contains(peer) {
                seq![
                    match pick {
                        Some(to) => send(
                            to,
                            tx_id,
                            (depth + 2) as u64,
                            (depth + 1) as u64,
                            DataView::Insert { from: origin, key, size },
                        ),
                        None => if origin.node_id == me.node_id {
                            OutEventView::NotInserted(key)
                        } else {
                            reply(
                                origin.node_id,
                                tx_id,
                                depth,
                                DataView::Continue { hops_remaining: hops_to_live },
                            )
                        },
                    },
                ]
            } else {
                seq![]
            }
        },
        _ => seq![],
    }
}

/// Whether `pick` can come of going through the peers after a timeout.
pub open spec fn timeout_walk(
    peers: Set<PublicKey>,
    tx: TxView,
    peer: PublicKey,
    pick: Option<PublicKey>,
) -> bool {
    (tx is Finding || tx is Inserting) && !tx_tried(tx).contains(peer) ==> picks_nearest(
        retry_candidates(peers, tx),
        tx_key(tx),
        pick,
    )
}

/// Whether the answer stays within what the counters can hold.
pub open spec fn timeout_fits(
    me: NodeAddrView,
    peers: Set<PublicKey>,
    tx: TxView,
    peer: PublicKey,
) -> bool {
    let some_left = exists|p: PublicKey| retry_candidates(peers, tx).contains(p);
    let mine = tx.owner() == me.node_id;
    match tx {
        TxView::Finding { hops_to_live, depth, tried, .. } => tried.contains(peer)
            || if some_left {
            can_pass_on(hops_to_live, depth)
        } else {
            mine || can_reply(depth)
        },
        TxView::Inserting { depth, tried, .. } => tried.contains(peer) || if some_left {
            can_reply(depth)
        } else {
            mine || can_reply(depth)
        },
        _ => true,
    }
}

// ---------------------------------------------------------------------------------------
// The node
// ---------------------------------------------------------------------------------------

/// The transactions that are not finished.
pub open spec fn live(transactions: Map<TxId, TxView>) -> Map<TxId, TxView> {
    Map::new(
        |id: TxId| transactions.contains_key(id) && !(transactions[id] is Finished),
        |id: TxId| transactions[id],
    )
}

/// The transactions that do not belong to `peer`.
pub open spec fn without_owner(
    transactions: Map<TxId, TxView>,
    peer: PublicKey,
) -> Map<TxId, TxView> {
    Map::new(
        |id: TxId| transactions.contains_key(id) && transactions[id].owner() != peer,
        |id: TxId| transactions[id],
    )
}

/// Whether a message is dropped on the last of its hops; a coin decides.
pub open spec fn drops(msg: MessageView, coin: bool) -> bool {
    msg.hops_to_live == 1 && coin
}

/// Whether a message may open a transaction.
pub open spec fn opens(data: DataView) -> bool {
    data is Find || data is Insert
}

/// The transaction that a message is handled in; a request opens one.
pub open spec fn tx_for(
    transactions: Map<TxId, TxView>,
    peer: PublicKey,
    msg: MessageView,
) -> Option<TxView> {
    if transactions.contains_key(msg.tx_id) {
        Some(transactions[msg.tx_id])
    } else if opens(msg.data) {
        Some(TxView::Starting { from: peer })
    } else {
        None
    }
}

/// A message has come in on the last of its hops and goes no further.
pub open spec fn on_dropped(
    pre: StateView,
    peer: PublicKey,
    msg: MessageView,
) -> (StateView, Seq<OutEventView>) {
    let answer = reply(peer, msg.tx_id, msg.depth, DataView::NotFound);
    match msg.data {
        DataView::Insert { from, key, size } => (
            StateView {
                peers: pre.peers.insert(from.node_id),
                transactions: if pre.transactions.contains_key(msg.tx_id) {
                    pre.transactions
                } else {
                    pre.transactions.insert(
                        msg.tx_id,
                        TxView::Inserting {
                            origin: from,
                            from: peer,
                            hops_to_live: msg.hops_to_live,
                            depth: msg.depth,
                            key,
                            size,
                            tried: Set::empty(),
                        },
                    )
                },
                ..pre
            },
            seq![OutEventView::PeerInfo(from), answer],
        ),
        _ => (pre, seq![answer]),
    }
}

/// A message has come in.
pub open spec fn on_receive(
    pre: StateView,
    peer: PublicKey,
    msg: MessageView,
    coin: bool,
    walk: Walk,
) -> (StateView, Seq<OutEventView>) {
    if msg.data is Pulse {
        (pre, seq![])
    } else if drops(msg, coin) {
        on_dropped(pre, peer, msg)
    } else {
        match tx_for(pre.transactions, peer, msg) {
            Some(tx) => {
                let outcome = on_message(
                    pre.node_addr,
                    peer,
                    pre.peers.insert(peer),
                    tx,
                    msg,
                    walk,
                );
                (
                    StateView {
                        peers: outcome.peers,
                        transactions: pre.transactions.insert(msg.tx_id, outcome.tx),
                        ..pre
                    },
                    outcome.out,
                )
            },
            None => (pre, seq![refusal(peer, msg)]),
        }
    }
}

/// This node wants the data of `key`.
pub open spec fn on_get(
    pre: StateView,
    key: BlobHash,
    fresh: TxId,
    pick: Option<PublicKey>,
) -> (StateView, Seq<OutEventView>) {
    (
        StateView {
            transactions: pre.transactions.insert(
                fresh,
                TxView::Finding {
                    from: pre.id(),
                    hops_to_live: 5,
                    depth: 0,
                    key,
                    tried: Set::empty(),
                },
            ),
            ..pre
        },
        seq![
            match pick {
                Some(to) => send(to, fresh, 5, 0, DataView::Find { key }),
                None => OutEventView::NotFound(key),
            },
        ],
    )
}

/// This node wants its data of `key` to be inserted.
pub open spec fn on_put(
    pre: StateView,
    key: BlobHash,
    size: u64,
    fresh: TxId,
    pick: Option<PublicKey>,
) -> (StateView, Seq<OutEventView>) {
    match pick {
        Some(to) => (
            StateView {
                transactions: pre.transactions.insert(
                    fresh,
                    TxView::Inserting {
                        origin: pre.node_addr,
                        from: pre.id(),
                        hops_to_live: 2,
                        depth: 0,
                        key,
                        size,
                        tried: Set::empty(),
                    },
                ),
                ..pre
            },
            seq![send(to, fresh, 2, 0, DataView::Insert { from: pre.node_addr, key, size })],
        ),
        None => (pre, seq![OutEventView::NotInserted(key)]),
    }
}

/// What an event does, before finished transactions are forgotten.
pub open spec fn react(
    pre: StateView,
    event: InEventView,
    coin: bool,
    fresh: TxId,
    walk: Walk,
) -> (StateView, Seq<OutEventView>) {
    match event {
        InEventView::RecvMessage(peer, msg) => on_receive(pre, peer, msg, coin, walk),
        InEventView::CheckedBlob(tx_id, status) => if pre.transactions.contains_key(tx_id) {
            (
                pre,
                on_checked(pre.node_addr, tx_id, pre.transactions[tx_id], status, walk.pick),
            )
        } else {
            (pre, seq![])
        },
        InEventView::DownloadedBlob(tx_id, outcome) => if pre.transactions.contains_key(tx_id) {
            let (tx, out) = on_downloaded(
                pre.node_addr,
                tx_id,
                pre.transactions[tx_id],
                outcome,
                walk.order,
            );
            (StateView { transactions: pre.transactions.insert(tx_id, tx), ..pre }, out)
        } else {
            (pre, seq![])
        },
        InEventView::Timeout(tx_id, peer) => if pre.transactions.contains_key(tx_id) {
            (
                pre,
                on_timeout(pre.node_addr, tx_id, pre.transactions[tx_id], peer, walk.pick),
            )
        } else {
            (pre, seq![])
        },
        InEventView::Find(key) => on_get(pre, key, fresh, walk.pick),
        InEventView::Insert(key, size) => on_put(pre, key, size, fresh, walk.pick),
        InEventView::PeerDisconnected(peer) => (
            StateView {
                peers: pre.peers.remove(peer),
                transactions: without_owner(pre.transactions, peer),
                ..pre
            },
            seq![],
        ),
    }
}

/// What an event leads to: the state after it and the events that it produces.
pub open spec fn step(
    pre: StateView,
    event: InEventView,
    coin: bool,
    fresh: TxId,
    walk: Walk,
) -> (StateView, Seq<OutEventView>) {
    let (post, out) = react(pre, event, coin, fresh, walk);
    (StateView { transactions: live(post.transactions), ..post }, out)
}

/// Whether `walk` can come of going through the node's peers for this event.
pub open spec fn walk_for(
    pre: StateView,
    event: InEventView,
    coin: bool,
    walk: Walk,
) -> bool {
    match event {
        InEventView::RecvMessage(peer, msg) => {
            !(msg.data is Pulse) && !drops(msg, coin) ==> (tx_for(
                pre.transactions,
                peer,
                msg,
            ) matches Some(tx) ==> message_walk(
                pre.node_addr,
                peer,
                pre.peers.insert(peer),
                tx,
                msg,
                walk,
            ))
        },
        InEventView::CheckedBlob(tx_id, status) => pre.transactions.contains_key(tx_id)
            ==> checked_walk(pre.peers, pre.transactions[tx_id], status, walk.pick),
        InEventView::DownloadedBlob(tx_id, _) => pre.transactions.contains_key(tx_id)
            ==> downloaded_walk(pre.transactions[tx_id], walk.order),
        InEventView::Timeout(tx_id, peer) => pre.transactions.contains_key(tx_id)
            ==> timeout_walk(pre.peers, pre.transactions[tx_id], peer, walk.pick),
        InEventView::Find(_) => picks(pre.peers, walk.pick),
        InEventView::Insert(key, _) => picks_nearest(pre.peers, key, walk.pick),
        InEventView::PeerDisconnected(_) => true,
    }
}

/// Whether every number that comes up in handling this event, with this toss of the coin, is
/// one that its counter can hold.
pub open spec fn fits_with(pre: StateView, event: InEventView, coin: bool) -> bool {
    match event {
        InEventView::RecvMessage(peer, msg) => {
            if msg.data is Pulse {
                true
            } else if drops(msg, coin) {
                can_reply(msg.depth)
            } else {
                tx_for(pre.transactions, peer, msg) matches Some(tx) ==> message_fits(
                    pre.node_addr,
                    peer,
                    pre.peers.insert(peer),
                    tx,
                    msg,
                )
            }
        },
        InEventView::CheckedBlob(tx_id, status) => pre.transactions.contains_key(tx_id)
            ==> checked_fits(pre.peers, pre.transactions[tx_id], status),
        InEventView::DownloadedBlob(tx_id, _) => pre.transactions.contains_key(tx_id)
            ==> downloaded_fits(pre.node_addr, pre.transactions[tx_id]),
        InEventView::Timeout(tx_id, peer) => pre.transactions.contains_key(tx_id)
            ==> timeout_fits(pre.node_addr, pre.peers, pre.transactions[tx_id], peer),
        _ => true,
    }
}

/// Whether every number that comes up in handling this event is one that its counter can hold,
/// however the coin falls.
pub open spec fn fits(pre: StateView, event: InEventView) -> bool {
    &&& fits_with(pre, event, true)
    &&& fits_with(pre, event, false)
}

} // verus!
