use kreatilas::proto::handlers::handle_message;
use kreatilas::proto::peers::PeerSet;
use kreatilas::proto::tx::TxState;
use kreatilas::proto::{
    BlobHash, BlobStatus, Config, DownloadOutcome, InEvent, Message, MessageData, NodeAddr,
    OutEvent, PublicKey, State, TxId,
};
use n0_future::time::Instant;

const KEY: BlobHash = BlobHash { hi: 1000, lo: 0 };
const TX: TxId = 77;

fn id(n: u128) -> PublicKey {
    PublicKey { hi: n, lo: 0 }
}

fn addr(n: u128) -> NodeAddr {
    NodeAddr {
        node_id: id(n),
        relay_url: Some(format!("https://relay{n}.example/")),
        direct_addresses: vec![format!("10.0.0.{n}:1")],
    }
}

fn node(n: u128, peers: &[u128]) -> State {
    let mut state = State::new(
        Config {
            max_storage_use: 1000,
            max_message_size: 500,
        },
        addr(n),
    );
    for p in peers {
        state.add_peer(id(*p));
    }
    state
}

fn msg(hops_to_live: u64, depth: u64, data: MessageData) -> Message {
    Message {
        tx_id: TX,
        hops_to_live,
        depth,
        data,
    }
}

fn find(hops_to_live: u64, depth: u64) -> Message {
    msg(hops_to_live, depth, MessageData::Find { key: KEY })
}

fn insert(from: u128, hops_to_live: u64, depth: u64) -> Message {
    msg(
        hops_to_live,
        depth,
        MessageData::Insert {
            from: addr(from),
            key: KEY,
            size: 9,
        },
    )
}

/// Hands an event to a node, with tails and a fixed identifier.
fn step(state: &mut State, event: InEvent) -> Vec<OutEvent> {
    step_with(state, event, false)
}

fn step_with(state: &mut State, event: InEvent, coin: bool) -> Vec<OutEvent> {
    assert!(state.in_range(&event));
    state.handle_with(event, coin, TX)
}

fn recv(state: &mut State, from: u128, msg: Message) -> Vec<OutEvent> {
    step(state, InEvent::RecvMessage(id(from), msg))
}

fn show(out: &[OutEvent]) -> String {
    format!("{out:?}")
}

fn expect(out: &[OutEvent], expected: &[OutEvent]) {
    assert_eq!(show(out), show(expected));
}

fn sent(to: u128, msg: Message) -> OutEvent {
    OutEvent::SendMessage(id(to), msg)
}

fn outcome(local_size: u64) -> DownloadOutcome {
    DownloadOutcome {
        local_size,
        downloaded_size: 3,
    }
}

#[test]
fn limits_are_those_of_the_configuration() {
    let state = node(1, &[]);
    assert_eq!(state.max_message_size(), 500);
    assert_eq!(state.max_storage_use(), 1000);
    assert_eq!(state.config.max_message_size, 500);
}

#[test]
fn pulse_is_a_random_message_that_does_nothing() {
    let a = Message::pulse();
    let b = Message::pulse();
    assert_ne!(a.transaction(), b.transaction());
    assert_eq!((a.transaction() >> 76) & 0xf, 4);
    assert_eq!((a.transaction() >> 62) & 0x3, 2);
    assert_eq!((a.hops_to_live, a.depth), (1, 0));
    assert!(matches!(a.data, MessageData::Pulse));
    let mut state = node(1, &[2]);
    recv(&mut state, 2, find(5, 0));
    let before = show_state(&state);
    for coin in [true, false] {
        expect(&step_with(&mut state, InEvent::RecvMessage(id(3), a.clone()), coin), &[]);
    }
    assert_eq!(show_state(&state), before);
}

fn show_state(state: &State) -> String {
    format!("{state:?}")
}

#[test]
fn search_asks_a_peer() {
    let mut state = node(1, &[2]);
    expect(&step(&mut state, InEvent::Find(KEY)), &[sent(2, find(5, 0))]);
}

#[test]
fn search_without_peers_finds_nothing() {
    let mut state = node(1, &[]);
    expect(&step(&mut state, InEvent::Find(KEY)), &[OutEvent::NotFound(KEY)]);
}

#[test]
fn insertion_asks_the_nearest_peer() {
    let mut state = node(1, &[5, 900, 2000, 40]);
    expect(&step(&mut state, InEvent::Insert(KEY, 9)), &[sent(900, insert(1, 2, 0))]);
}

#[test]
fn insertion_without_peers_fails() {
    let mut state = node(1, &[]);
    expect(&step(&mut state, InEvent::Insert(KEY, 9)), &[OutEvent::NotInserted(KEY)]);
}

#[test]
fn handle_draws_identifiers() {
    let mut state = node(1, &[2]);
    let mut ids = Vec::new();
    for _ in 0..3 {
        match &state.handle(InEvent::Find(KEY), Instant::now())[..] {
            [OutEvent::SendMessage(to, m)] => {
                assert_eq!(*to, id(2));
                assert_eq!((m.tx_id >> 76) & 0xf, 4);
                assert_eq!((m.tx_id >> 62) & 0x3, 2);
                ids.push(m.tx_id);
            }
            other => panic!("{other:?}"),
        }
    }
    assert!(ids[0] != ids[1] && ids[1] != ids[2] && ids[0] != ids[2]);
}

#[test]
fn handle_tosses_a_coin_on_the_last_hop() {
    let (mut dropped, mut kept) = (0, 0);
    for _ in 0..200 {
        let mut state = node(1, &[2]);
        let out = state.handle(InEvent::RecvMessage(id(2), find(1, 4)), Instant::now());
        if show(&out) == show(&[sent(2, msg(6, 0, MessageData::NotFound))]) {
            dropped += 1;
        } else {
            expect(&out, &[OutEvent::CheckBlob(TX, KEY)]);
            kept += 1;
        }
    }
    assert!(dropped > 20 && kept > 20);
}

#[test]
fn handle_never_drops_before_the_last_hop() {
    for _ in 0..50 {
        let mut state = node(1, &[2]);
        let out = state.handle(InEvent::RecvMessage(id(2), find(2, 4)), Instant::now());
        expect(&out, &[OutEvent::CheckBlob(TX, KEY)]);
    }
}

#[test]
fn dropped_search_is_answered() {
    let mut state = node(1, &[]);
    let out = step_with(&mut state, InEvent::RecvMessage(id(2), find(1, 3)), true);
    expect(&out, &[sent(2, msg(5, 0, MessageData::NotFound))]);
    // The sender of a dropped message does not become a peer.
    expect(&step(&mut state, InEvent::Find(KEY)), &[OutEvent::NotFound(KEY)]);
}

#[test]
fn dropped_insertion_is_answered_and_remembered() {
    let mut state = node(3, &[]);
    let out = step_with(&mut state, InEvent::RecvMessage(id(2), insert(1, 1, 1)), true);
    expect(
        &out,
        &[OutEvent::PeerInfo(addr(1)), sent(2, msg(3, 0, MessageData::NotFound))],
    );
    let ready = msg(
        2,
        0,
        MessageData::Ready {
            addr: addr(2),
            data: KEY,
            size: 9,
        },
    );
    expect(
        &recv(&mut state, 2, ready),
        &[
            OutEvent::PeerInfo(addr(2)),
            OutEvent::DownloadBlob(TX, addr(1), KEY, 9),
        ],
    );
    expect(
        &step(&mut state, InEvent::DownloadedBlob(TX, outcome(9))),
        &[sent(2, msg(3, 0, MessageData::Inserted))],
    );
}

#[test]
fn message_of_no_transaction_is_refused() {
    let kinds = vec![
        MessageData::Found {
            from: addr(9),
            size: 1,
        },
        MessageData::NotFound,
        MessageData::Continue { hops_remaining: 3 },
        MessageData::Inserted,
        MessageData::Ready {
            addr: addr(9),
            data: KEY,
            size: 1,
        },
        MessageData::Error,
    ];
    for data in kinds {
        let mut state = node(1, &[2]);
        let before = show_state(&state);
        let out = recv(&mut state, 7, msg(5, 4, data));
        expect(&out, &[sent(7, msg(4, 0, MessageData::Error))]);
        assert_eq!(show_state(&state), before);
    }
}

#[test]
fn second_request_violates_the_transaction() {
    let mut state = node(1, &[]);
    recv(&mut state, 2, find(5, 0));
    let refused = sent(3, msg(8, 0, MessageData::Error));
    expect(&recv(&mut state, 3, find(5, 8)), &[refused]);
    // Whatever comes next, the transaction stays violated.
    let out = recv(&mut state, 4, msg(5, 2, MessageData::NotFound));
    expect(&out, &[sent(4, msg(2, 0, MessageData::Error))]);
    let status = BlobStatus::Complete { size: 4 };
    expect(&step(&mut state, InEvent::CheckedBlob(TX, status)), &[]);
    expect(&recv(&mut state, 2, insert(2, 5, 6)), &[sent(2, msg(6, 0, MessageData::Error))]);
}

#[test]
fn error_violates_the_transaction() {
    let mut state = node(1, &[2]);
    step(&mut state, InEvent::Find(KEY));
    expect(&recv(&mut state, 2, msg(5, 0, MessageData::Error)), &[]);
    let out = recv(&mut state, 2, msg(5, 1, MessageData::NotFound));
    expect(&out, &[sent(2, msg(1, 0, MessageData::Error))]);
}

#[test]
fn stored_data_is_offered() {
    let mut state = node(2, &[1]);
    expect(&recv(&mut state, 1, find(4, 3)), &[OutEvent::CheckBlob(TX, KEY)]);
    let out = step(&mut state, InEvent::CheckedBlob(TX, BlobStatus::Complete { size: 12 }));
    let found = MessageData::Found {
        from: addr(2),
        size: 12,
    };
    let ready = MessageData::Ready {
        addr: addr(2),
        data: KEY,
        size: 12,
    };
    expect(&out, &[sent(1, msg(5, 0, found)), sent(1, msg(5, 0, ready))]);
}

#[test]
fn search_for_missing_data_goes_on() {
    for status in [
        BlobStatus::NotFound,
        BlobStatus::Partial { size: None },
        BlobStatus::Partial { size: Some(4) },
    ] {
        let mut state = node(2, &[1, 3]);
        recv(&mut state, 1, find(4, 3));
        let out = step(&mut state, InEvent::CheckedBlob(TX, status));
        expect(&out, &[sent(3, find(3, 4))]);
    }
}

#[test]
fn hops_never_fall_below_one() {
    for (hops, left) in [(1, 1), (2, 1), (3, 2), (5, 4)] {
        let mut state = node(2, &[1, 3]);
        recv(&mut state, 1, find(hops, 0));
        let out = step(&mut state, InEvent::CheckedBlob(TX, BlobStatus::NotFound));
        expect(&out, &[sent(3, find(left, 1))]);
    }
}

#[test]
fn search_without_other_peers_is_sent_back() {
    let mut state = node(2, &[1]);
    recv(&mut state, 1, find(4, 3));
    let out = step(&mut state, InEvent::CheckedBlob(TX, BlobStatus::NotFound));
    expect(&out, &[sent(1, msg(5, 0, MessageData::Continue { hops_remaining: 4 }))]);
}

#[test]
fn stored_data_ends_an_insertion() {
    let mut state = node(3, &[2]);
    recv(&mut state, 2, insert(1, 2, 1));
    let out = step(&mut state, InEvent::CheckedBlob(TX, BlobStatus::Complete { size: 12 }));
    let found = MessageData::Found {
        from: addr(3),
        size: 12,
    };
    expect(&out, &[sent(1, msg(3, 0, found))]);
}

#[test]
fn insertion_goes_on_to_the_nearest_other_peer() {
    let mut state = node(3, &[2, 999, 950, 1]);
    let out = recv(&mut state, 2, insert(1, 2, 1));
    expect(&out, &[OutEvent::PeerInfo(addr(1)), OutEvent::CheckBlob(TX, KEY)]);
    let out = step(&mut state, InEvent::CheckedBlob(TX, BlobStatus::NotFound));
    expect(&out, &[sent(999, insert(1, 1, 2))]);
}

#[test]
fn insertion_without_other_peers_is_sent_back() {
    let mut state = node(3, &[]);
    recv(&mut state, 2, insert(1, 2, 1));
    let out = step(&mut state, InEvent::CheckedBlob(TX, BlobStatus::NotFound));
    expect(&out, &[sent(1, msg(3, 0, MessageData::Continue { hops_remaining: 2 }))]);
}

#[test]
fn status_of_unknown_transaction_is_ignored() {
    let mut state = node(3, &[2]);
    let status = BlobStatus::Complete { size: 1 };
    expect(&step(&mut state, InEvent::CheckedBlob(5, status)), &[]);
    expect(&step(&mut state, InEvent::DownloadedBlob(5, outcome(1))), &[]);
    expect(&step(&mut state, InEvent::Timeout(5, id(2))), &[]);
}

#[test]
fn found_data_is_reported() {
    let mut state = node(1, &[2]);
    step(&mut state, InEvent::Find(KEY));
    let found = MessageData::Found {
        from: addr(9),
        size: 12,
    };
    let out = recv(&mut state, 2, msg(3, 0, found));
    expect(&out, &[OutEvent::PeerInfo(addr(9)), OutEvent::Found(KEY)]);
}

#[test]
fn found_data_is_passed_on_under_this_nodes_name() {
    let mut state = node(2, &[3]);
    recv(&mut state, 1, find(4, 3));
    let found = |n: u128| MessageData::Found {
        from: addr(n),
        size: 12,
    };
    let out = recv(&mut state, 3, msg(5, 1, found(9)));
    expect(
        &out,
        &[OutEvent::PeerInfo(addr(9)), sent(1, msg(4, 2, found(2)))],
    );
    // The node that asked cannot have found it.
    let out = recv(&mut state, 1, msg(5, 1, found(9)));
    expect(&out, &[sent(1, msg(1, 0, MessageData::Error))]);
}

#[test]
fn data_found_during_an_insertion_is_downloaded() {
    let found = |n: u128| MessageData::Found {
        from: addr(n),
        size: 12,
    };
    let mut state = node(1, &[2]);
    step(&mut state, InEvent::Insert(KEY, 9));
    let out = recv(&mut state, 2, msg(5, 1, found(9)));
    expect(
        &out,
        &[
            OutEvent::PeerInfo(addr(9)),
            OutEvent::DownloadBlob(TX, addr(9), KEY, 12),
            OutEvent::NotInserted(KEY),
        ],
    );
    let mut state = node(3, &[]);
    recv(&mut state, 2, insert(1, 2, 1));
    let out = recv(&mut state, 4, msg(5, 1, found(9)));
    expect(
        &out,
        &[
            OutEvent::PeerInfo(addr(9)),
            OutEvent::DownloadBlob(TX, addr(9), KEY, 12),
            sent(1, msg(4, 2, found(3))),
        ],
    );
    let out = recv(&mut state, 1, msg(5, 1, found(9)));
    expect(&out, &[sent(1, msg(1, 0, MessageData::Error))]);
}

#[test]
fn failed_search_is_over() {
    let mut state = node(1, &[2]);
    step(&mut state, InEvent::Find(KEY));
    let out = recv(&mut state, 2, msg(3, 0, MessageData::NotFound));
    expect(&out, &[OutEvent::NotFound(KEY)]);
    // The transaction is forgotten.
    let out = recv(&mut state, 2, msg(3, 0, MessageData::NotFound));
    expect(&out, &[sent(2, msg(0, 0, MessageData::Error))]);
}

#[test]
fn failed_search_is_passed_on() {
    let mut state = node(2, &[3]);
    recv(&mut state, 1, find(4, 3));
    let out = recv(&mut state, 1, msg(3, 4, MessageData::NotFound));
    expect(&out, &[sent(1, msg(4, 0, MessageData::Error))]);
    let out = recv(&mut state, 3, msg(2, 6, MessageData::NotFound));
    expect(&out, &[sent(1, msg(1, 7, MessageData::NotFound))]);
    let out = recv(&mut state, 3, msg(2, 6, MessageData::NotFound));
    expect(&out, &[sent(3, msg(6, 0, MessageData::Error))]);
}

#[test]
fn insertion_that_went_far_enough_is_announced_to_all_that_were_tried() {
    let mut state = node(1, &[2]);
    step(&mut state, InEvent::Insert(KEY, 9));
    let ready = MessageData::Ready {
        addr: addr(1),
        data: KEY,
        size: 9,
    };
    let out = recv(&mut state, 2, msg(3, 0, MessageData::NotFound));
    expect(&out, &[sent(2, msg(5, 0, ready.clone()))]);
    let out = recv(&mut state, 4, msg(3, 0, MessageData::NotFound));
    assert_eq!(out.len(), 2);
    let mut shown: Vec<String> = out.iter().map(|e| format!("{e:?}")).collect();
    let mut expected = vec![
        format!("{:?}", sent(2, msg(5, 0, ready.clone()))),
        format!("{:?}", sent(4, msg(5, 0, ready))),
    ];
    shown.sort();
    expected.sort();
    assert_eq!(shown, expected);
}

#[test]
fn search_that_is_sent_back_goes_to_untried_peers() {
    let back = || msg(7, 1, MessageData::Continue { hops_remaining: 4 });
    let mut state = node(1, &[2, 3, 900]);
    step(&mut state, InEvent::Find(KEY));
    // The nearest of the others is asked, then the other one, then none is left.
    let mut order = Vec::new();
    let mut last = 2;
    for _ in 0..2 {
        match &recv(&mut state, last, back())[..] {
            [OutEvent::SendMessage(to, m)] => {
                assert_eq!(format!("{m:?}"), format!("{:?}", find(4, 1)));
                order.push(to.hi);
                last = to.hi;
            }
            other => panic!("{other:?}"),
        }
    }
    assert_eq!(order, vec![900, 3]);
    expect(&recv(&mut state, last, back()), &[OutEvent::NotFound(KEY)]);
}

#[test]
fn search_that_is_sent_back_is_passed_back() {
    let mut state = node(2, &[]);
    recv(&mut state, 1, find(4, 3));
    let back = msg(7, 1, MessageData::Continue { hops_remaining: 9 });
    let out = recv(&mut state, 3, back.clone());
    expect(&out, &[sent(1, msg(6, 2, MessageData::Continue { hops_remaining: 4 }))]);
    let out = recv(&mut state, 1, back);
    expect(&out, &[sent(1, msg(1, 0, MessageData::Error))]);
}

#[test]
fn insertion_that_is_sent_back_goes_to_untried_peers() {
    let back = |hops_remaining| msg(7, 1, MessageData::Continue { hops_remaining });
    let mut state = node(1, &[2, 3]);
    match &step(&mut state, InEvent::Insert(KEY, 9))[..] {
        [OutEvent::SendMessage(to, _)] => assert_eq!(*to, id(3)),
        other => panic!("{other:?}"),
    }
    expect(&recv(&mut state, 3, back(6)), &[sent(2, insert(1, 5, 1))]);
    expect(&recv(&mut state, 2, back(6)), &[OutEvent::NotInserted(KEY)]);

    let mut state = node(3, &[]);
    recv(&mut state, 2, insert(1, 2, 1));
    // The node that passed the request on is a peer like any other here.
    expect(&recv(&mut state, 4, back(6)), &[sent(2, insert(1, 5, 2))]);
    let out = recv(&mut state, 2, back(6));
    expect(&out, &[sent(1, msg(6, 2, MessageData::Continue { hops_remaining: 6 }))]);
    let out = recv(&mut state, 1, back(6));
    expect(&out, &[sent(1, msg(1, 0, MessageData::Error))]);
}

#[test]
fn insertion_is_reported() {
    let mut state = node(1, &[2]);
    step(&mut state, InEvent::Insert(KEY, 9));
    let out = recv(&mut state, 2, msg(3, 0, MessageData::Inserted));
    expect(&out, &[OutEvent::Inserted(KEY)]);
    let mut state = node(3, &[]);
    recv(&mut state, 2, insert(1, 2, 1));
    let out = recv(&mut state, 4, msg(3, 5, MessageData::Inserted));
    expect(&out, &[sent(1, msg(2, 6, MessageData::Inserted))]);
    let out = recv(&mut state, 1, msg(3, 5, MessageData::Inserted));
    expect(&out, &[sent(1, msg(5, 0, MessageData::Error))]);
    // A search cannot be answered so.
    let mut state = node(1, &[2]);
    step(&mut state, InEvent::Find(KEY));
    let out = recv(&mut state, 2, msg(3, 5, MessageData::Inserted));
    expect(&out, &[sent(2, msg(5, 0, MessageData::Error))]);
}

#[test]
fn data_that_is_ready_is_downloaded() {
    let other = BlobHash { hi: 5, lo: 5 };
    let ready = msg(
        2,
        0,
        MessageData::Ready {
            addr: addr(9),
            data: other,
            size: 4,
        },
    );
    // A search takes what is offered.
    let mut state = node(1, &[2]);
    step(&mut state, InEvent::Find(KEY));
    expect(
        &recv(&mut state, 2, ready.clone()),
        &[
            OutEvent::PeerInfo(addr(9)),
            OutEvent::DownloadBlob(TX, addr(9), other, 4),
        ],
    );
    // An insertion takes its own data from its origin.
    let mut state = node(3, &[]);
    recv(&mut state, 2, insert(1, 2, 1));
    expect(
        &recv(&mut state, 2, ready),
        &[
            OutEvent::PeerInfo(addr(9)),
            OutEvent::DownloadBlob(TX, addr(1), KEY, 4),
        ],
    );
}

#[test]
fn download_ends_a_search() {
    let mut state = node(1, &[2]);
    step(&mut state, InEvent::Find(KEY));
    match &step(&mut state, InEvent::DownloadedBlob(TX, outcome(8)))[..] {
        [OutEvent::Downloaded(key, o)] => {
            assert_eq!(*key, KEY);
            assert_eq!((o.local_size, o.downloaded_size), (8, 3));
        }
        other => panic!("{other:?}"),
    }
    expect(&step(&mut state, InEvent::DownloadedBlob(TX, outcome(8))), &[]);

    let mut state = node(2, &[3]);
    recv(&mut state, 1, find(4, 3));
    let ready = MessageData::Ready {
        addr: addr(2),
        data: KEY,
        size: 8,
    };
    let out = step(&mut state, InEvent::DownloadedBlob(TX, outcome(8)));
    expect(&out, &[sent(1, msg(5, 0, ready))]);
    expect(&step(&mut state, InEvent::DownloadedBlob(TX, outcome(8))), &[]);
}

#[test]
fn silent_peer_is_passed_over() {
    let mut state = node(1, &[2, 950]);
    step(&mut state, InEvent::Find(KEY));
    expect(&step(&mut state, InEvent::Timeout(TX, id(2))), &[sent(950, find(4, 1))]);
    // A peer that has answered in the meantime does not count.
    recv(&mut state, 2, msg(7, 1, MessageData::Continue { hops_remaining: 4 }));
    expect(&step(&mut state, InEvent::Timeout(TX, id(2))), &[]);

    let mut state = node(1, &[2]);
    step(&mut state, InEvent::Insert(KEY, 9));
    expect(&step(&mut state, InEvent::Timeout(TX, id(2))), &[sent(2, insert(1, 2, 1))]);
}

#[test]
fn silence_of_the_last_peer_ends_the_attempt() {
    let mut state = node(1, &[2]);
    step(&mut state, InEvent::Find(KEY));
    step(&mut state, InEvent::PeerDisconnected(id(2)));
    expect(&step(&mut state, InEvent::Timeout(TX, id(2))), &[OutEvent::NotFound(KEY)]);

    let mut state = node(1, &[2]);
    step(&mut state, InEvent::Insert(KEY, 9));
    step(&mut state, InEvent::PeerDisconnected(id(2)));
    expect(&step(&mut state, InEvent::Timeout(TX, id(2))), &[OutEvent::NotInserted(KEY)]);

    let mut state = node(2, &[]);
    recv(&mut state, 1, find(4, 3));
    let out = step(&mut state, InEvent::Timeout(TX, id(7)));
    expect(&out, &[sent(1, msg(5, 0, MessageData::Continue { hops_remaining: 4 }))]);

    let mut state = node(3, &[]);
    recv(&mut state, 1, insert(1, 2, 1));
    let out = step(&mut state, InEvent::Timeout(TX, id(7)));
    expect(&out, &[sent(1, msg(3, 0, MessageData::Continue { hops_remaining: 2 }))]);
}

#[test]
fn disconnected_peer_and_its_transactions_are_forgotten() {
    let mut state = node(2, &[]);
    recv(&mut state, 1, find(4, 3));
    expect(&step(&mut state, InEvent::PeerDisconnected(id(1))), &[]);
    expect(&step(&mut state, InEvent::Find(KEY)), &[OutEvent::NotFound(KEY)]);
    let mut state = node(2, &[]);
    recv(&mut state, 1, find(4, 3));
    recv(&mut state, 3, Message::pulse());
    step(&mut state, InEvent::PeerDisconnected(id(1)));
    let status = BlobStatus::Complete { size: 1 };
    expect(&step(&mut state, InEvent::CheckedBlob(TX, status)), &[]);
}

#[test]
fn transactions_do_not_touch_each_other() {
    let mut state = node(2, &[]);
    recv(&mut state, 1, find(4, 3));
    let other = Message {
        tx_id: 5,
        ..insert(7, 2, 0)
    };
    recv(&mut state, 7, other);
    let bad = Message {
        tx_id: 5,
        ..find(2, 0)
    };
    recv(&mut state, 7, bad);
    let out = step(&mut state, InEvent::CheckedBlob(TX, BlobStatus::Complete { size: 1 }));
    assert_eq!(out.len(), 2);
}

#[test]
fn counters_that_would_run_over_are_told() {
    let mut state = node(2, &[3]);
    recv(&mut state, 1, find(0, 0));
    // A request without hops cannot be passed on.
    assert!(!state.in_range(&InEvent::CheckedBlob(TX, BlobStatus::NotFound)));
    assert!(state.in_range(&InEvent::CheckedBlob(TX, BlobStatus::Complete { size: 1 })));
    let mut state = node(2, &[3]);
    recv(&mut state, 1, find(4, u64::MAX));
    assert!(!state.in_range(&InEvent::CheckedBlob(TX, BlobStatus::Complete { size: 1 })));
    assert!(!state.in_range(&InEvent::CheckedBlob(TX, BlobStatus::NotFound)));
    assert!(!state.in_range(&InEvent::Timeout(TX, id(3))));
    assert!(!state.in_range(&InEvent::DownloadedBlob(TX, outcome(1))));
    let late = InEvent::RecvMessage(id(3), msg(1, u64::MAX - 1, MessageData::NotFound));
    assert!(!state.in_range(&late));
    let fine = InEvent::RecvMessage(id(3), msg(2, u64::MAX - 1, MessageData::NotFound));
    assert!(state.in_range(&fine));
    let over = InEvent::RecvMessage(id(3), msg(2, u64::MAX, MessageData::NotFound));
    assert!(!state.in_range(&over));
}

#[test]
fn stored_data_is_retrieved_from_a_peer() {
    let mut a = node(1, &[2]);
    let mut b = node(2, &[]);
    let asked = step(&mut a, InEvent::Find(KEY));
    let OutEvent::SendMessage(to, request) = &asked[0] else {
        panic!("{asked:?}")
    };
    assert_eq!(*to, id(2));
    expect(&recv(&mut b, 1, request.clone()), &[OutEvent::CheckBlob(TX, KEY)]);
    let offers = step(&mut b, InEvent::CheckedBlob(TX, BlobStatus::Complete { size: 9 }));
    let mut heard = Vec::new();
    for offer in offers {
        let OutEvent::SendMessage(to, m) = offer else {
            panic!("{offer:?}")
        };
        assert_eq!(to, id(1));
        heard.extend(recv(&mut a, 2, m));
    }
    expect(
        &heard,
        &[
            OutEvent::PeerInfo(addr(2)),
            OutEvent::Found(KEY),
            OutEvent::PeerInfo(addr(2)),
            OutEvent::DownloadBlob(TX, addr(2), KEY, 9),
        ],
    );
    let out = step(&mut a, InEvent::DownloadedBlob(TX, outcome(9)));
    assert!(matches!(&out[..], [OutEvent::Downloaded(key, _)] if *key == KEY));
}

#[test]
fn data_is_inserted_over_two_nodes() {
    let mut a = node(1, &[2]);
    let mut b = node(2, &[3]);
    let mut c = node(3, &[]);
    expect(&step(&mut a, InEvent::Insert(KEY, 9)), &[sent(2, insert(1, 2, 0))]);
    recv(&mut b, 1, insert(1, 2, 0));
    let out = step(&mut b, InEvent::CheckedBlob(TX, BlobStatus::NotFound));
    expect(&out, &[sent(3, insert(1, 1, 1))]);
    let out = step_with(&mut c, InEvent::RecvMessage(id(2), insert(1, 1, 1)), true);
    let nothing = msg(3, 0, MessageData::NotFound);
    expect(&out, &[OutEvent::PeerInfo(addr(1)), sent(2, nothing.clone())]);
    let nothing_further = msg(2, 1, MessageData::NotFound);
    expect(&recv(&mut b, 3, nothing), &[sent(1, nothing_further.clone())]);
    let from_a = msg(
        5,
        0,
        MessageData::Ready {
            addr: addr(1),
            data: KEY,
            size: 9,
        },
    );
    expect(&recv(&mut a, 2, nothing_further), &[sent(2, from_a.clone())]);
    expect(
        &recv(&mut b, 1, from_a),
        &[
            OutEvent::PeerInfo(addr(1)),
            OutEvent::DownloadBlob(TX, addr(1), KEY, 9),
        ],
    );
    let from_b = msg(
        2,
        0,
        MessageData::Ready {
            addr: addr(2),
            data: KEY,
            size: 9,
        },
    );
    let out = step(&mut b, InEvent::DownloadedBlob(TX, outcome(9)));
    expect(&out, &[sent(3, from_b.clone())]);
    expect(
        &recv(&mut c, 2, from_b),
        &[
            OutEvent::PeerInfo(addr(2)),
            OutEvent::DownloadBlob(TX, addr(1), KEY, 9),
        ],
    );
    let inserted = msg(3, 0, MessageData::Inserted);
    let out = step(&mut c, InEvent::DownloadedBlob(TX, outcome(9)));
    expect(&out, &[sent(2, inserted.clone())]);
    let inserted_further = msg(2, 1, MessageData::Inserted);
    expect(&recv(&mut b, 3, inserted), &[sent(1, inserted_further.clone())]);
    expect(&recv(&mut a, 2, inserted_further), &[OutEvent::Inserted(KEY)]);
}

/// A few messages of each kind, and the identifiers in what they yield.
#[test]
fn everything_stays_in_its_transaction() {
    let kinds = || {
        vec![
            MessageData::Find { key: KEY },
            MessageData::Found {
                from: addr(9),
                size: 1,
            },
            MessageData::NotFound,
            MessageData::Continue { hops_remaining: 3 },
            MessageData::Insert {
                from: addr(8),
                key: KEY,
                size: 1,
            },
            MessageData::Inserted,
            MessageData::Ready {
                addr: addr(9),
                data: KEY,
                size: 1,
            },
            MessageData::Error,
        ]
    };
    for first in kinds() {
        for second in kinds() {
            let mut state = node(1, &[2, 3]);
            let mut out = recv(&mut state, 4, msg(5, 1, first.clone()));
            out.extend(recv(&mut state, 5, msg(5, 1, second)));
            for event in out {
                match event {
                    OutEvent::SendMessage(_, m) => assert_eq!(m.tx_id, TX),
                    OutEvent::CheckBlob(tx_id, _) => assert_eq!(tx_id, TX),
                    OutEvent::DownloadBlob(tx_id, _, _, _) => assert_eq!(tx_id, TX),
                    OutEvent::DisconnectPeer(_) => panic!("a peer is disconnected"),
                    _ => {}
                }
            }
        }
    }
}

#[test]
fn discovered_recipient_was_announced() {
    let mut state = node(1, &[]);
    step(&mut state, InEvent::Find(KEY));
    // The address of node 9 comes inside a message of node 2.
    let found = MessageData::Found {
        from: addr(9),
        size: 1,
    };
    let heard = recv(&mut state, 2, msg(5, 0, found));
    assert!(matches!(&heard[0], OutEvent::PeerInfo(a) if a.node_id == id(9)));
    step(&mut state, InEvent::PeerDisconnected(id(2)));
    expect(&step(&mut state, InEvent::Timeout(TX, id(2))), &[sent(9, find(4, 1))]);
}

#[test]
fn data_is_retrieved_over_a_relay() {
    let mut a = node(1, &[2]);
    let mut b = node(2, &[3]);
    let mut c = node(3, &[]);
    let found = |n: u128| MessageData::Found {
        from: addr(n),
        size: 9,
    };
    let ready = |n: u128, size: u64| MessageData::Ready {
        addr: addr(n),
        data: KEY,
        size,
    };
    expect(&step(&mut a, InEvent::Find(KEY)), &[sent(2, find(5, 0))]);
    expect(&recv(&mut b, 1, find(5, 0)), &[OutEvent::CheckBlob(TX, KEY)]);
    let out = step(&mut b, InEvent::CheckedBlob(TX, BlobStatus::NotFound));
    expect(&out, &[sent(3, find(4, 1))]);
    expect(&recv(&mut c, 2, find(4, 1)), &[OutEvent::CheckBlob(TX, KEY)]);
    let out = step(&mut c, InEvent::CheckedBlob(TX, BlobStatus::Complete { size: 9 }));
    expect(&out, &[sent(2, msg(3, 0, found(3))), sent(2, msg(3, 0, ready(3, 9)))]);
    expect(
        &recv(&mut b, 3, msg(3, 0, found(3))),
        &[OutEvent::PeerInfo(addr(3)), sent(1, msg(2, 1, found(2)))],
    );
    expect(
        &recv(&mut b, 3, msg(3, 0, ready(3, 9))),
        &[
            OutEvent::PeerInfo(addr(3)),
            OutEvent::DownloadBlob(TX, addr(3), KEY, 9),
        ],
    );
    let out = step(&mut b, InEvent::DownloadedBlob(TX, outcome(8)));
    expect(&out, &[sent(1, msg(2, 0, ready(2, 8)))]);
    expect(
        &recv(&mut a, 2, msg(2, 1, found(2))),
        &[OutEvent::PeerInfo(addr(2)), OutEvent::Found(KEY)],
    );
    expect(
        &recv(&mut a, 2, msg(2, 0, ready(2, 8))),
        &[
            OutEvent::PeerInfo(addr(2)),
            OutEvent::DownloadBlob(TX, addr(2), KEY, 8),
        ],
    );
    let out = step(&mut a, InEvent::DownloadedBlob(TX, outcome(8)));
    assert!(matches!(&out[..], [OutEvent::Downloaded(key, _)] if *key == KEY));
    // Both have forgotten the transaction.
    expect(&step(&mut a, InEvent::DownloadedBlob(TX, outcome(8))), &[]);
    expect(&step(&mut b, InEvent::DownloadedBlob(TX, outcome(8))), &[]);
}

#[test]
fn message_is_handled_behind_what_is_in_the_outbox() {
    let mut peers = PeerSet::new();
    peers.insert(id(2));
    let mut outbox = vec![OutEvent::NotFound(KEY)];
    let start = TxState::Starting { from: id(4) };
    let (tx, _) = handle_message(&addr(1), id(4), &mut peers, start, find(5, 2), &mut outbox);
    expect(&outbox, &[OutEvent::NotFound(KEY), OutEvent::CheckBlob(TX, KEY)]);
    assert!(peers.contains(&id(2)));
    assert!(matches!(tx, TxState::Finding { hops_to_live: 5, depth: 2, .. }));
    let insert = insert(7, 5, 2);
    let (tx, _) = handle_message(&addr(1), id(4), &mut peers, tx, insert, &mut outbox);
    assert!(matches!(tx, TxState::Errored { from } if from == id(4)));
    assert!(!peers.contains(&id(7)));
    assert_eq!(outbox.len(), 3);
}
