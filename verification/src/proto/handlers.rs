//! How a node reacts to the events of one transaction.

use vstd::prelude::*;

use crate::proto::addr::{NodeAddr, NodeAddrView};
use crate::proto::event::{events_of, BlobStatus, DownloadOutcome, OutEvent, OutEventView};
use crate::proto::keys::{BlobHash, PublicKey};
use crate::proto::laws::{all_about, law_message_stays_in_its_transaction};
use crate::proto::message::{DataView, Message, MessageData, MessageView, TxId};
use crate::proto::model::{
    can_pass_on, can_reply, checked_fits, checked_walk, downloaded_fits, downloaded_walk,
    first_candidates, message_fits, message_walk, next_candidates, next_hops, on_checked,
    on_continue, on_downloaded, on_find, on_found, on_insert, on_inserted, on_message,
    on_not_found, on_ready, on_timeout, refusal, retry_candidates, send, send_all, timeout_fits,
    timeout_walk, tx_key, tx_tried, Walk,
};
use crate::proto::peers::{
    lemma_walk_of_nothing, lemma_walk_of_something, picks_nearest, walks, PeerSet,
};
use crate::proto::tx::{TxState, TxView};

verus! {

/// The number of hops that a message has left after one more hop.
fn next_hop(hops_to_live: u64) -> (left: u64)
    requires
        hops_to_live >= 1,
    ensures
        left == next_hops(hops_to_live),
{
    let left: u64 = hops_to_live - 1;
    if left > 1 {
        left
    } else {
        1
    }
}

/// Appends an event to the outbox.
pub(crate) fn emit(outbox: &mut Vec<OutEvent>, event: OutEvent)
    ensures
        events_of(final(outbox)@) == events_of(old(outbox)@).push(event@),
{
    outbox.push(event);
    assert(events_of(outbox@) =~= events_of(old(outbox)@).push(event@));
}

/// Appends a message that is to be sent to the outbox.
pub(crate) fn emit_message(
    outbox: &mut Vec<OutEvent>,
    to: PublicKey,
    tx_id: TxId,
    hops_to_live: u64,
    depth: u64,
    data: MessageData,
)
    ensures
        events_of(final(outbox)@) == events_of(old(outbox)@).push(
            send(to, tx_id, hops_to_live, depth, data@),
        ),
{
    emit(outbox, OutEvent::SendMessage(to, Message { tx_id, hops_to_live, depth, data }));
}

/// Answers a message that was not due.
pub(crate) fn send_error(peer_id: PublicKey, msg: &Message, outbox: &mut Vec<OutEvent>)
    ensures
        events_of(final(outbox)@) == events_of(old(outbox)@).push(refusal(peer_id, msg@)),
{
    emit_message(outbox, peer_id, msg.tx_id, msg.depth, 0, MessageData::Error);
}

/// Sends the whole of a set of peers word of where a blob can be downloaded.
fn send_ready(
    to: &PeerSet,
    tx_id: TxId,
    hops_to_live: u64,
    node_addr: &NodeAddr,
    key: BlobHash,
    size: u64,
    outbox: &mut Vec<OutEvent>,
) -> (order: Ghost<Seq<PublicKey>>)
    requires
        to.wf(),
    ensures
        walks(order@, to@),
        events_of(final(outbox)@) == events_of(old(outbox)@) + send_all(
            order@,
            tx_id,
            hops_to_live,
            DataView::Ready { addr: node_addr@, data: key, size },
        ),
{
    let order = to.to_vec();
    let ghost data = DataView::Ready { addr: node_addr@, data: key, size };
    let ghost sent = send_all(order@, tx_id, hops_to_live, data);
    let ghost before = events_of(outbox@);
    let mut i: usize = 0;
    assert(before + sent.take(0) =~= before);
    while i < order.len()
        invariant
            i <= order@.len(),
            data == (DataView::Ready { addr: node_addr@, data: key, size }),
            sent == send_all(order@, tx_id, hops_to_live, data),
            before == events_of(old(outbox)@),
            events_of(outbox@) == before + sent.take(i as int),
        decreases order@.len() - i,
    {
        emit_message(
            outbox,
            order[i],
            tx_id,
            hops_to_live,
            0,
            MessageData::Ready { addr: node_addr.clone(), data: key, size },
        );
        assert(sent[i as int] == send(order@[i as int], tx_id, hops_to_live, 0, data));
        assert(sent.take(i + 1) =~= sent.take(i as int).push(sent[i as int]));
        assert(events_of(outbox@) =~= before + sent.take(i + 1));
        i = i + 1;
    }
    assert(sent.take(i as int) =~= sent);
    Ghost(order@)
}

fn handle_find(
    peer_id: PublicKey,
    peers: &PeerSet,
    tx: TxState,
    msg: &Message,
    key: BlobHash,
    outbox: &mut Vec<OutEvent>,
) -> (next: TxState)
    ensures
        next.wf(),
        ({
            let outcome = on_find(peer_id, peers@, tx@, msg@, key);
            &&& peers@ == outcome.peers
            &&& next@ == outcome.tx
            &&& events_of(final(outbox)@) == events_of(old(outbox)@) + outcome.out
        }),
{
    let ghost before = events_of(outbox@);
    match tx {
        TxState::Starting { .. } => {
            emit(outbox, OutEvent::CheckBlob(msg.tx_id, key));
            assert(events_of(outbox@) =~= before + seq![OutEventView::CheckBlob(msg.tx_id, key)]);
            TxState::Finding {
                from: peer_id,
                hops_to_live: msg.hops_to_live,
                depth: msg.depth,
                key,
                tried: PeerSet::new(),
            }
        },
        _ => {
            send_error(peer_id, msg, outbox);
            assert(events_of(outbox@) =~= before + seq![refusal(peer_id, msg@)]);
            TxState::Errored { from: peer_id }
        },
    }
}

fn handle_insert(
    peer_id: PublicKey,
    peers: &mut PeerSet,
    tx: TxState,
    msg: &Message,
    from: &NodeAddr,
    key: BlobHash,
    size: u64,
    outbox: &mut Vec<OutEvent>,
) -> (next: TxState)
    requires
        old(peers).wf(),
    ensures
        next.wf(),
        final(peers).wf(),
        ({
            let outcome = on_insert(peer_id, old(peers)@, tx@, msg@, from@, key, size);
            &&& final(peers)@ == outcome.peers
            &&& next@ == outcome.tx
            &&& events_of(final(outbox)@) == events_of(old(outbox)@) + outcome.out
        }),
{
    let ghost before = events_of(outbox@);
    match tx {
        TxState::Starting { .. } => {
            peers.insert(from.node_id);
            emit(outbox, OutEvent::PeerInfo(from.clone()));
            emit(outbox, OutEvent::CheckBlob(msg.tx_id, key));
            assert(events_of(outbox@) =~= before + seq![
                OutEventView::PeerInfo(from@),
                OutEventView::CheckBlob(msg.tx_id, key),
            ]);
            TxState::Inserting {
                origin: from.clone(),
                from: peer_id,
                hops_to_live: msg.hops_to_live,
                depth: msg.depth,
                key,
                size,
                tried: PeerSet::new(),
            }
        },
        _ => {
            send_error(peer_id, msg, outbox);
            assert(events_of(outbox@) =~= before + seq![refusal(peer_id, msg@)]);
            TxState::Errored { from: peer_id }
        },
    }
}

fn handle_found(
    node_addr: &NodeAddr,
    peer_id: PublicKey,
    peers: &mut PeerSet,
    tx: &TxState,
    msg: &Message,
    download_from: &NodeAddr,
    size: u64,
    outbox: &mut Vec<OutEvent>,
)
    requires
        old(peers).wf(),
        (tx@ is Finding || tx@ is Inserting) && tx@.owner() != peer_id && tx@.owner()
            != node_addr@.node_id ==> can_pass_on(msg.hops_to_live, msg.depth),
    ensures
        final(peers).wf(),
        ({
            let outcome = on_found(
                node_addr@,
                peer_id,
                old(peers)@,
                tx@,
                msg@,
                download_from@,
                size,
            );
            &&& final(peers)@ == outcome.peers
            &&& tx@ == outcome.tx
            &&& events_of(final(outbox)@) == events_of(old(outbox)@) + outcome.out
        }),
{
    let ghost before = events_of(outbox@);
    let ghost outcome = on_found(
        node_addr@,
        peer_id,
        peers@,
        tx@,
        msg@,
        download_from@,
        size,
    );
    match tx {
        TxState::Finding { from, key, .. } => {
            if *from != peer_id {
                peers.insert(download_from.node_id);
                emit(outbox, OutEvent::PeerInfo(download_from.clone()));
                if *from == node_addr.node_id {
                    emit(outbox, OutEvent::Found(*key));
                } else {
                    emit_message(
                        outbox,
                        *from,
                        msg.tx_id,
                        next_hop(msg.hops_to_live),
                        msg.depth + 1,
                        MessageData::Found { from: node_addr.clone(), size },
                    );
                }
            } else {
                send_error(peer_id, msg, outbox);
            }
        },
        TxState::Inserting { origin, key, .. } => {
            if origin.node_id != peer_id {
                peers.insert(download_from.node_id);
                emit(outbox, OutEvent::PeerInfo(download_from.clone()));
                emit(
                    outbox,
                    OutEvent::DownloadBlob(msg.tx_id, download_from.clone(), *key, size),
                );
                if origin.node_id == node_addr.node_id {
                    emit(outbox, OutEvent::NotInserted(*key));
                } else {
                    emit_message(
                        outbox,
                        origin.node_id,
                        msg.tx_id,
                        next_hop(msg.hops_to_live),
                        msg.depth + 1,
                        MessageData::Found { from: node_addr.clone(), size },
                    );
                }
            } else {
                send_error(peer_id, msg, outbox);
            }
        },
        _ => {
            send_error(peer_id, msg, outbox);
        },
    }
    assert(events_of(outbox@) =~= before + outcome.out);
}

fn handle_not_found(
    node_addr: &NodeAddr,
    peer_id: PublicKey,
    peers: &PeerSet,
    tx: TxState,
    msg: &Message,
    outbox: &mut Vec<OutEvent>,
) -> (r: (TxState, Ghost<Seq<PublicKey>>))
    requires
        tx.wf(),
        msg@.data is NotFound,
        message_fits(node_addr@, peer_id, peers@, tx@, msg@),
    ensures
        r.0.wf(),
        tx@ is Inserting && tx@.owner() == node_addr@.node_id ==> walks(
            r.1@,
            tx_tried(tx@).insert(peer_id),
        ),
        ({
            let outcome = on_not_found(node_addr@, peer_id, peers@, tx@, msg@, r.1@);
            &&& r.0@ == outcome.tx
            &&& events_of(final(outbox)@) == events_of(old(outbox)@) + outcome.out
        }),
{
    let ghost before = events_of(outbox@);
    let ghost none: Seq<PublicKey> = seq![];
    match tx {
        TxState::Finding { from, hops_to_live, depth, key, tried } => {
            if from != peer_id {
                if from == node_addr.node_id {
                    emit(outbox, OutEvent::NotFound(key));
                } else {
                    emit_message(
                        outbox,
                        from,
                        msg.tx_id,
                        next_hop(msg.hops_to_live),
                        msg.depth + 1,
                        MessageData::NotFound,
                    );
                }
                assert(events_of(outbox@) =~= before + on_not_found(
                    node_addr@,
                    peer_id,
                    peers@,
                    tx@,
                    msg@,
                    seq![],
                ).out);
                (TxState::Finished { from }, Ghost(none))
            } else {
                send_error(peer_id, msg, outbox);
                assert(events_of(outbox@) =~= before + seq![refusal(peer_id, msg@)]);
                (TxState::Finding { from, hops_to_live, depth, key, tried }, Ghost(none))
            }
        },
        TxState::Inserting { origin, from, hops_to_live, depth, key, size, tried } => {
            let mut tried = tried;
            tried.insert(peer_id);
            let ghost mut order: Seq<PublicKey> = seq![];
            if origin.node_id == node_addr.node_id {
                let Ghost(walked) = send_ready(
                    &tried,
                    msg.tx_id,
                    5,
                    node_addr,
                    key,
                    size,
                    outbox,
                );
                proof {
                    order = walked;
                }
            } else {
                emit_message(
                    outbox,
                    from,
                    msg.tx_id,
                    next_hop(msg.hops_to_live),
                    msg.depth + 1,
                    MessageData::NotFound,
                );
            }
            assert(events_of(outbox@) =~= before + on_not_found(
                node_addr@,
                peer_id,
                peers@,
                tx@,
                msg@,
                order,
            ).out);
            (
                TxState::Inserting { origin, from, hops_to_live, depth, key, size, tried },
                Ghost(order),
            )
        },
        other => {
            send_error(peer_id, msg, outbox);
            assert(events_of(outbox@) =~= before + seq![refusal(peer_id, msg@)]);
            (other, Ghost(none))
        },
    }
}

fn handle_continue(
    node_addr: &NodeAddr,
    peer_id: PublicKey,
    peers: &PeerSet,
    tx: TxState,
    msg: &Message,
    hops_remaining: u64,
    outbox: &mut Vec<OutEvent>,
) -> (r: (TxState, Ghost<Option<PublicKey>>))
    requires
        tx.wf(),
        msg@.data == (DataView::Continue { hops_remaining }),
        message_fits(node_addr@, peer_id, peers@, tx@, msg@),
    ensures
        r.0.wf(),
        (tx@ is Finding || tx@ is Inserting) && tx@.owner() != peer_id ==> picks_nearest(
            next_candidates(peers@, tx@, peer_id),
            tx_key(tx@),
            r.1@,
        ),
        ({
            let outcome = on_continue(
                node_addr@,
                peer_id,
                peers@,
                tx@,
                msg@,
                hops_remaining,
                r.1@,
            );
            &&& r.0@ == outcome.tx
            &&& events_of(final(outbox)@) == events_of(old(outbox)@) + outcome.out
        }),
{
    let ghost before = events_of(outbox@);
    match tx {
        TxState::Finding { from, hops_to_live, depth, key, tried } => {
            if from != peer_id {
                let mut tried = tried;
                tried.insert(peer_id);
                let pick = peers.nearest_untried(&tried, from, peer_id, key);
                match pick {
                    Some(send_to) => {
                        assert(next_candidates(peers@, tx@, peer_id).contains(send_to));
                        emit_message(
                            outbox,
                            send_to,
                            msg.tx_id,
                            next_hop(hops_to_live),
                            depth + 1,
                            MessageData::Find { key },
                        );
                    },
                    None => {
                        if from == node_addr.node_id {
                            emit(outbox, OutEvent::NotFound(key));
                        } else {
                            emit_message(
                                outbox,
                                from,
                                msg.tx_id,
                                next_hop(msg.hops_to_live),
                                msg.depth + 1,
                                MessageData::Continue { hops_remaining: hops_to_live },
                            );
                        }
                    },
                }
                assert(events_of(outbox@) =~= before + on_continue(
                    node_addr@,
                    peer_id,
                    peers@,
                    tx@,
                    msg@,
                    hops_remaining,
                    pick,
                ).out);
                (TxState::Finding { from, hops_to_live, depth, key, tried }, Ghost(pick))
            } else {
                send_error(peer_id, msg, outbox);
                assert(events_of(outbox@) =~= before + seq![refusal(peer_id, msg@)]);
                (TxState::Finding { from, hops_to_live, depth, key, tried }, Ghost(None))
            }
        },
        TxState::Inserting { origin, from, hops_to_live, depth, key, size, tried } => {
            if origin.node_id != peer_id {
                let mut tried = tried;
                tried.insert(peer_id);
                let pick = peers.nearest_untried(&tried, origin.node_id, peer_id, key);
                match pick {
                    Some(send_to) => {
                        assert(next_candidates(peers@, tx@, peer_id).contains(send_to));
                        emit_message(
                            outbox,
                            send_to,
                            msg.tx_id,
                            next_hop(hops_remaining),
                            depth + 1,
                            MessageData::Insert { from: origin.clone(), key, size },
                        );
                    },
                    None => {
                        if origin.node_id == node_addr.node_id {
                            emit(outbox, OutEvent::NotInserted(key));
                        } else {
                            emit_message(
                                outbox,
                                origin.node_id,
                                msg.tx_id,
                                next_hop(msg.hops_to_live),
                                msg.depth + 1,
                                MessageData::Continue { hops_remaining },
                            );
                        }
                    },
                }
                assert(events_of(outbox@) =~= before + on_continue(
                    node_addr@,
                    peer_id,
                    peers@,
                    tx@,
                    msg@,
                    hops_remaining,
                    pick,
                ).out);
                (
                    TxState::Inserting { origin, from, hops_to_live, depth, key, size, tried },
                    Ghost(pick),
                )
            } else {
                send_error(peer_id, msg, outbox);
                assert(events_of(outbox@) =~= before + seq![refusal(peer_id, msg@)]);
                (
                    TxState::Inserting { origin, from, hops_to_live, depth, key, size, tried },
                    Ghost(None),
                )
            }
        },
        other => {
            send_error(peer_id, msg, outbox);
            assert(events_of(outbox@) =~= before + seq![refusal(peer_id, msg@)]);
            (other, Ghost(None))
        },
    }
}

fn handle_inserted(
    node_addr: &NodeAddr,
    peer_id: PublicKey,
    peers: &PeerSet,
    tx: &TxState,
    msg: &Message,
    outbox: &mut Vec<OutEvent>,
)
    requires
        msg@.data is Inserted,
        message_fits(node_addr@, peer_id, peers@, tx@, msg@),
    ensures
        ({
            let outcome = on_inserted(node_addr@, peer_id, peers@, tx@, msg@);
            &&& peers@ == outcome.peers
            &&& tx@ == outcome.tx
            &&& events_of(final(outbox)@) == events_of(old(outbox)@) + outcome.out
        }),
{
    let ghost before = events_of(outbox@);
    match tx {
        TxState::Inserting { origin, key, .. } => {
            if origin.node_id != peer_id {
                if origin.node_id == node_addr.node_id {
                    emit(outbox, OutEvent::Inserted(*key));
                } else {
                    emit_message(
                        outbox,
                        origin.node_id,
                        msg.tx_id,
                        next_hop(msg.hops_to_live),
                        msg.depth + 1,
                        MessageData::Inserted,
                    );
                }
            } else {
                send_error(peer_id, msg, outbox);
            }
        },
        _ => {
            send_error(peer_id, msg, outbox);
        },
    }
    assert(events_of(outbox@) =~= before + on_inserted(
        node_addr@,
        peer_id,
        peers@,
        tx@,
        msg@,
    ).out);
}

fn handle_ready(
    peer_id: PublicKey,
    peers: &mut PeerSet,
    tx: &TxState,
    msg: &Message,
    addr: &NodeAddr,
    data: BlobHash,
    size: u64,
    outbox: &mut Vec<OutEvent>,
)
    requires
        old(peers).wf(),
    ensures
        final(peers).wf(),
        ({
            let outcome = on_ready(peer_id, old(peers)@, tx@, msg@, addr@, data, size);
            &&& final(peers)@ == outcome.peers
            &&& tx@ == outcome.tx
            &&& events_of(final(outbox)@) == events_of(old(outbox)@) + outcome.out
        }),
{
    let ghost before = events_of(outbox@);
    let ghost outcome = on_ready(peer_id, peers@, tx@, msg@, addr@, data, size);
    match tx {
        TxState::Inserting { origin, key, .. } => {
            peers.insert(addr.node_id);
            emit(outbox, OutEvent::PeerInfo(addr.clone()));
            emit(outbox, OutEvent::DownloadBlob(msg.tx_id, origin.clone(), *key, size));
        },
        TxState::Finding { .. } => {
            peers.insert(addr.node_id);
            emit(outbox, OutEvent::PeerInfo(addr.clone()));
            emit(outbox, OutEvent::DownloadBlob(msg.tx_id, addr.clone(), data, size));
        },
        _ => {
            send_error(peer_id, msg, outbox);
        },
    }
    assert(events_of(outbox@) =~= before + outcome.out);
}

/// Whatever comes of going through the peers, the events of a message stay within its
/// transaction, and are those behind the ones that were there.
proof fn lemma_message_stays(
    me: NodeAddrView,
    peer: PublicKey,
    peers: Set<PublicKey>,
    tx: TxView,
    msg: MessageView,
    before: Seq<OutEventView>,
)
    ensures
        forall|walk: Walk|
            ({
                let outcome = #[trigger] on_message(me, peer, peers, tx, msg, walk);
                &&& all_about((before + outcome.out).skip(before.len() as int), msg.tx_id)
                &&& peers.subset_of(outcome.peers)
                &&& outcome.tx is Starting ==> tx is Starting
            }),
{
    assert forall|walk: Walk|
        ({
            let outcome = #[trigger] on_message(me, peer, peers, tx, msg, walk);
            &&& all_about((before + outcome.out).skip(before.len() as int), msg.tx_id)
            &&& peers.subset_of(outcome.peers)
            &&& outcome.tx is Starting ==> tx is Starting
        }) by {
        let outcome = on_message(me, peer, peers, tx, msg, walk);
        law_message_stays_in_its_transaction(me, peer, peers, tx, msg, walk);
        assert((before + outcome.out).skip(before.len() as int) =~= outcome.out);
    }
}

/// Handles a message that belongs to the transaction `tx`, and returns what becomes of it.
///
/// The second component records how the peers were gone through.
pub fn handle_message(
    node_addr: &NodeAddr,
    peer_id: PublicKey,
    peers: &mut PeerSet,
    tx: TxState,
    msg: Message,
    outbox: &mut Vec<OutEvent>,
) -> (r: (TxState, Ghost<Walk>))
    requires
        old(peers).wf(),
        tx.wf(),
        message_fits(node_addr@, peer_id, old(peers)@, tx@, msg@),
    ensures
        final(peers).wf(),
        r.0.wf(),
        message_walk(node_addr@, peer_id, old(peers)@, tx@, msg@, r.1@),
        ({
            let outcome = on_message(node_addr@, peer_id, old(peers)@, tx@, msg@, r.1@);
            &&& final(peers)@ == outcome.peers
            &&& r.0@ == outcome.tx
            &&& events_of(final(outbox)@) == events_of(old(outbox)@) + outcome.out
        }),
        events_of(old(outbox)@).is_prefix_of(events_of(final(outbox)@)),
        all_about(events_of(final(outbox)@).skip(old(outbox)@.len() as int), msg@.tx_id),
        old(peers)@.subset_of(final(peers)@),
        r.0@ is Starting ==> tx@ is Starting,
{
    let ghost idle = Walk { pick: None, order: seq![] };
    proof {
        lemma_message_stays(node_addr@, peer_id, peers@, tx@, msg@, events_of(outbox@));
    }
    match &msg.data {
        MessageData::Find { key } => {
            (handle_find(peer_id, peers, tx, &msg, *key, outbox), Ghost(idle))
        },
        MessageData::Insert { from, key, size } => {
            (handle_insert(peer_id, peers, tx, &msg, from, *key, *size, outbox), Ghost(idle))
        },
        MessageData::Found { from, size } => {
            handle_found(node_addr, peer_id, peers, &tx, &msg, from, *size, outbox);
            (tx, Ghost(idle))
        },
        MessageData::NotFound => {
            let (next, Ghost(order)) = handle_not_found(
                node_addr,
                peer_id,
                peers,
                tx,
                &msg,
                outbox,
            );
            (next, Ghost(Walk { order, ..idle }))
        },
        MessageData::Continue { hops_remaining } => {
            let (next, Ghost(pick)) = handle_continue(
                node_addr,
                peer_id,
                peers,
                tx,
                &msg,
                *hops_remaining,
                outbox,
            );
            (next, Ghost(Walk { pick, ..idle }))
        },
        MessageData::Inserted => {
            handle_inserted(node_addr, peer_id, peers, &tx, &msg, outbox);
            (tx, Ghost(idle))
        },
        MessageData::Ready { addr, data, size } => {
            handle_ready(peer_id, peers, &tx, &msg, addr, *data, *size, outbox);
            (tx, Ghost(idle))
        },
        MessageData::Pulse => {
            assert(events_of(outbox@) =~= events_of(outbox@) + seq![]);
            (tx, Ghost(idle))
        },
        MessageData::Error => {
            assert(events_of(outbox@) =~= events_of(outbox@) + seq![]);
            (TxState::Errored { from: *tx.from() }, Ghost(idle))
        },
    }
}

/// Handles the outcome of a look into the local store.
///
/// The result records which peer was chosen.
pub(crate) fn handle_checked(
    node_addr: &NodeAddr,
    peers: &PeerSet,
    tx_id: TxId,
    tx: &TxState,
    status: BlobStatus,
    outbox: &mut Vec<OutEvent>,
) -> (pick: Ghost<Option<PublicKey>>)
    requires
        checked_fits(peers@, tx@, status),
    ensures
        checked_walk(peers@, tx@, status, pick@),
        events_of(final(outbox)@) == events_of(old(outbox)@) + on_checked(
            node_addr@,
            tx_id,
            tx@,
            status,
            pick@,
        ),
{
    let ghost before = events_of(outbox@);
    let ghost mut chosen: Option<PublicKey> = None;
    match tx {
        TxState::Finding { from, hops_to_live, depth, key, tried } => {
            if let BlobStatus::Complete { size } = status {
                emit_message(
                    outbox,
                    *from,
                    tx_id,
                    *depth + 2,
                    0,
                    MessageData::Found { from: node_addr.clone(), size },
                );
                emit_message(
                    outbox,
                    *from,
                    tx_id,
                    *depth + 2,
                    0,
                    MessageData::Ready { addr: node_addr.clone(), data: *key, size },
                );
            } else {
                let pick = peers.any_untried(tried, *from, *from);
                proof {
                    chosen = pick;
                }
                if let Some(send_to) = pick {
                    assert(first_candidates(peers@, tx@).contains(send_to));
                    emit_message(
                        outbox,
                        send_to,
                        tx_id,
                        next_hop(*hops_to_live),
                        *depth + 1,
                        MessageData::Find { key: *key },
                    );
                } else {
                    emit_message(
                        outbox,
                        *from,
                        tx_id,
                        *depth + 2,
                        0,
                        MessageData::Continue { hops_remaining: *hops_to_live },
                    );
                }
            }
        },
        TxState::Inserting { origin, from, hops_to_live, depth, key, size, tried } => {
            if let BlobStatus::Complete { size: stored } = status {
                emit_message(
                    outbox,
                    origin.node_id,
                    tx_id,
                    *depth + 2,
                    0,
                    MessageData::Found { from: node_addr.clone(), size: stored },
                );
            } else {
                let pick = peers.nearest_untried(tried, origin.node_id, *from, *key);
                proof {
                    chosen = pick;
                }
                if let Some(send_to) = pick {
                    assert(first_candidates(peers@, tx@).contains(send_to));
                    emit_message(
                        outbox,
                        send_to,
                        tx_id,
                        next_hop(*hops_to_live),
                        *depth + 1,
                        MessageData::Insert { from: origin.clone(), key: *key, size: *size },
                    );
                } else {
                    emit_message(
                        outbox,
                        origin.node_id,
                        tx_id,
                        *depth + 2,
                        0,
                        MessageData::Continue { hops_remaining: *hops_to_live },
                    );
                }
            }
        },
        _ => {},
    }
    assert(events_of(outbox@) =~= before + on_checked(node_addr@, tx_id, tx@, status, chosen));
    Ghost(chosen)
}

/// Handles the end of a download, and returns what becomes of the transaction.
///
/// The second component records the order in which peers were told.
pub(crate) fn handle_downloaded(
    node_addr: &NodeAddr,
    tx_id: TxId,
    tx: TxState,
    outcome: DownloadOutcome,
    outbox: &mut Vec<OutEvent>,
) -> (r: (TxState, Ghost<Seq<PublicKey>>))
    requires
        tx.wf(),
        downloaded_fits(node_addr@, tx@),
    ensures
        r.0.wf(),
        downloaded_walk(tx@, r.1@),
        ({
            let (next, out) = on_downloaded(node_addr@, tx_id, tx@, outcome, r.1@);
            &&& r.0@ == next
            &&& events_of(final(outbox)@) == events_of(old(outbox)@) + out
        }),
{
    let ghost before = events_of(outbox@);
    let ghost none: Seq<PublicKey> = seq![];
    match tx {
        TxState::Finding { from, hops_to_live, depth, key, tried } => {
            if from == node_addr.node_id {
                emit(outbox, OutEvent::Downloaded(key, outcome));
            } else {
                emit_message(
                    outbox,
                    from,
                    tx_id,
                    depth + 2,
                    0,
                    MessageData::Ready {
                        addr: node_addr.clone(),
                        data: key,
                        size: outcome.local_size,
                    },
                );
            }
            assert(events_of(outbox@) =~= before + on_downloaded(
                node_addr@,
                tx_id,
                tx@,
                outcome,
                none,
            ).1);
            (TxState::Finished { from }, Ghost(none))
        },
        TxState::Inserting { origin, from, hops_to_live, depth, key, size, tried } => {
            let Ghost(order) = send_ready(
                &tried,
                tx_id,
                2,
                node_addr,
                key,
                outcome.local_size,
                outbox,
            );
            if tried.is_empty() {
                proof {
                    lemma_walk_of_nothing(order, tried@);
                    assert(send_all(
                        order,
                        tx_id,
                        2,
                        DataView::Ready {
                            addr: node_addr@,
                            data: key,
                            size: outcome.local_size,
                        },
                    ) =~= seq![]);
                    assert(events_of(outbox@) =~= before);
                }
                emit_message(outbox, from, tx_id, depth + 2, 0, MessageData::Inserted);
            } else {
                proof {
                    lemma_walk_of_something(order, tried@);
                }
            }
            assert(events_of(outbox@) =~= before + on_downloaded(
                node_addr@,
                tx_id,
                tx@,
                outcome,
                order,
            ).1);
            (
                TxState::Inserting { origin, from, hops_to_live, depth, key, size, tried },
                Ghost(order),
            )
        },
        other => {
            assert(events_of(outbox@) =~= before + seq![]);
            (other, Ghost(none))
        },
    }
}

/// Handles the silence of a peer.
///
/// The result records which peer was chosen.
pub(crate) fn handle_timeout(
    node_addr: &NodeAddr,
    peers: &PeerSet,
    tx_id: TxId,
    tx: &TxState,
    timeout_peer: PublicKey,
    outbox: &mut Vec<OutEvent>,
) -> (pick: Ghost<Option<PublicKey>>)
    requires
        timeout_fits(node_addr@, peers@, tx@, timeout_peer),
    ensures
        timeout_walk(peers@, tx@, timeout_peer, pick@),
        events_of(final(outbox)@) == events_of(old(outbox)@) + on_timeout(
            node_addr@,
            tx_id,
            tx@,
            timeout_peer,
            pick@,
        ),
{
    let ghost before = events_of(outbox@);
    let ghost mut chosen: Option<PublicKey> = None;
    match tx {
        TxState::Finding { from, hops_to_live, depth, key, tried } => {
            if !tried.contains(&timeout_peer) {
                let pick = peers.nearest_untried(tried, *from, *from, *key);
                proof {
                    chosen = pick;
                }
                if let Some(send_to) = pick {
                    assert(retry_candidates(peers@, tx@).contains(send_to));
                    emit_message(
                        outbox,
                        send_to,
                        tx_id,
                        next_hop(*hops_to_live),
                        *depth + 1,
                        MessageData::Find { key: *key },
                    );
                } else if *from == node_addr.node_id {
                    emit(outbox, OutEvent::NotFound(*key));
                } else {
                    emit_message(
                        outbox,
                        *from,
                        tx_id,
                        *depth + 2,
                        0,
                        MessageData::Continue { hops_remaining: *hops_to_live },
                    );
                }
            }
        },
        TxState::Inserting { origin, hops_to_live, depth, key, size, tried, .. } => {
            if !tried.contains(&timeout_peer) {
                let pick = peers.nearest_untried(tried, origin.node_id, origin.node_id, *key);
                proof {
                    chosen = pick;
                }
                if let Some(send_to) = pick {
                    assert(retry_candidates(peers@, tx@).contains(send_to));
                    emit_message(
                        outbox,
                        send_to,
                        tx_id,
                        *depth + 2,
                        *depth + 1,
                        MessageData::Insert { from: origin.clone(), key: *key, size: *size },
                    );
                } else if origin.node_id == node_addr.node_id {
                    emit(outbox, OutEvent::NotInserted(*key));
                } else {
                    emit_message(
                        outbox,
                        origin.node_id,
                        tx_id,
                        *depth + 2,
                        0,
                        MessageData::Continue { hops_remaining: *hops_to_live },
                    );
                }
            }
        },
        _ => {},
    }
    assert(events_of(outbox@) =~= before + on_timeout(
        node_addr@,
        tx_id,
        tx@,
        timeout_peer,
        chosen,
    ));
    Ghost(chosen)
}

// ---------------------------------------------------------------------------------------
// Whether an answer stays within what the counters can hold
// ---------------------------------------------------------------------------------------

fn passes_on(hops_to_live: u64, depth: u64) -> (r: bool)
    ensures
        r == can_pass_on(hops_to_live, depth),
{
    hops_to_live >= 1 && depth < u64::MAX
}

fn replies(depth: u64) -> (r: bool)
    ensures
        r == can_reply(depth),
{
    depth <= u64::MAX - 2
}

/// Whether the answer to a message stays within what the counters can hold.
pub(crate) fn message_in_range(
    node_addr: &NodeAddr,
    peer_id: PublicKey,
    peers: &PeerSet,
    tx: &TxState,
    msg: &Message,
) -> (r: bool)
    requires
        tx.wf(),
    ensures
        r == message_fits(node_addr@, peer_id, peers@, tx@, msg@),
{
    let passes = passes_on(msg.hops_to_live, msg.depth);
    let owner = *tx.from();
    let mine = owner == node_addr.node_id;
    let (finding, inserting) = match tx {
        TxState::Finding { .. } => (true, false),
        TxState::Inserting { .. } => (false, true),
        _ => (false, false),
    };
    match &msg.data {
        MessageData::Found { .. } => {
            !((finding || inserting) && owner != peer_id && !mine) || passes
        },
        MessageData::NotFound => {
            (!(finding && owner != peer_id && !mine) || passes) && (!(inserting && !mine)
                || passes)
        },
        MessageData::Continue { hops_remaining } => {
            match tx {
                TxState::Finding { from, hops_to_live, depth, key, tried } => {
                    if owner == peer_id {
                        return true;
                    }
                    let mut tried = tried.copy();
                    tried.insert(peer_id);
                    match peers.any_untried(&tried, *from, peer_id) {
                        Some(p) => {
                            assert(next_candidates(peers@, tx@, peer_id).contains(p));
                            passes_on(*hops_to_live, *depth)
                        },
                        None => mine || passes,
                    }
                },
                TxState::Inserting { origin, depth, key, tried, .. } => {
                    if owner == peer_id {
                        return true;
                    }
                    let mut tried = tried.copy();
                    tried.insert(peer_id);
                    match peers.any_untried(&tried, origin.node_id, peer_id) {
                        Some(p) => {
                            assert(next_candidates(peers@, tx@, peer_id).contains(p));
                            passes_on(*hops_remaining, *depth)
                        },
                        None => mine || passes,
                    }
                },
                _ => true,
            }
        },
        MessageData::Inserted => !(inserting && owner != peer_id && !mine) || passes,
        _ => true,
    }
}

/// Whether the answer to a look into the store stays within what the counters can hold.
pub(crate) fn checked_in_range(peers: &PeerSet, tx: &TxState, status: BlobStatus) -> (r: bool)
    ensures
        r == checked_fits(peers@, tx@, status),
{
    let complete = match status {
        BlobStatus::Complete { .. } => true,
        _ => false,
    };
    match tx {
        TxState::Finding { from, hops_to_live, depth, tried, .. } => {
            let pick = peers.any_untried(tried, *from, *from);
            match pick {
                Some(p) => {
                    assert(first_candidates(peers@, tx@).contains(p));
                    if complete {
                        replies(*depth)
                    } else {
                        passes_on(*hops_to_live, *depth)
                    }
                },
                None => replies(*depth),
            }
        },
        TxState::Inserting { origin, from, hops_to_live, depth, tried, .. } => {
            let pick = peers.any_untried(tried, origin.node_id, *from);
            match pick {
                Some(p) => {
                    assert(first_candidates(peers@, tx@).contains(p));
                    if complete {
                        replies(*depth)
                    } else {
                        passes_on(*hops_to_live, *depth)
                    }
                },
                None => replies(*depth),
            }
        },
        _ => true,
    }
}

/// Whether the answer to a download stays within what the counters can hold.
pub(crate) fn downloaded_in_range(node_addr: &NodeAddr, tx: &TxState) -> (r: bool)
    ensures
        r == downloaded_fits(node_addr@, tx@),
{
    match tx {
        TxState::Finding { from, depth, .. } => {
            if *from == node_addr.node_id {
                true
            } else {
                replies(*depth)
            }
        },
        TxState::Inserting { depth, tried, .. } => {
            if tried.is_empty() {
                replies(*depth)
            } else {
                proof {
                    let p = choose|p: PublicKey| tried@.contains(p);
                    assert(tx_tried(tx@).contains(p));
                }
                true
            }
        },
        _ => true,
    }
}

/// Whether the answer to a timeout stays within what the counters can hold.
pub(crate) fn timeout_in_range(
    node_addr: &NodeAddr,
    peers: &PeerSet,
    tx: &TxState,
    timeout_peer: PublicKey,
) -> (r: bool)
    ensures
        r == timeout_fits(node_addr@, peers@, tx@, timeout_peer),
{
    let mine = *tx.from() == node_addr.node_id;
    match tx {
        TxState::Finding { from, hops_to_live, depth, tried, .. } => {
            if tried.contains(&timeout_peer) {
                return true;
            }
            match peers.any_untried(tried, *from, *from) {
                Some(p) => {
                    assert(retry_candidates(peers@, tx@).contains(p));
                    passes_on(*hops_to_live, *depth)
                },
                None => mine || replies(*depth),
            }
        },
        TxState::Inserting { origin, depth, tried, .. } => {
            if tried.contains(&timeout_peer) {
                return true;
            }
            match peers.any_untried(tried, origin.node_id, origin.node_id) {
                Some(p) => {
                    assert(retry_candidates(peers@, tx@).contains(p));
                    replies(*depth)
                },
                None => mine || replies(*depth),
            }
        },
        _ => true,
    }
}

} // verus!
