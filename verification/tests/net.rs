use bytes::BytesMut;
use kreatilas::net::connection::{
    combine, opens_stream, report_message, SendLoop, SendStep,
};
use kreatilas::net::frame::{message_size, start_frame, take_message, FrameError};
use kreatilas::net::peer::remove_conn;
use kreatilas::net::{Action, Actor, Builder, ConnOrigin, Dialer, Occurrence, PeerState};
use kreatilas::proto::{
    BlobHash, BlobStatus, Config, DownloadOutcome, InEvent, Message, MessageData, NodeAddr,
    OutEvent, PublicKey,
};
use n0_future::time::Instant;

const KEY: BlobHash = BlobHash { hi: 1000, lo: 0 };

/// Requests and dials are told apart by text.
type Node = Actor<&'static str>;
type Acts = Vec<Action<&'static str, &'static str>>;

fn id(n: u128) -> PublicKey {
    PublicKey { hi: n, lo: 0 }
}

fn addr(n: u128) -> NodeAddr {
    NodeAddr {
        node_id: id(n),
        relay_url: None,
        direct_addresses: vec![format!("10.0.0.{n}:1")],
    }
}

fn actor() -> Node {
    Actor::new(
        Config {
            max_storage_use: 1000,
            max_message_size: 500,
        },
        addr(1),
    )
}

fn find(tx_id: u128) -> Message {
    Message {
        tx_id,
        hops_to_live: 5,
        depth: 0,
        data: MessageData::Find { key: KEY },
    }
}

fn happens(node: &mut Node, occurrence: Occurrence<&'static str, &'static str>) -> Acts {
    let (go_on, actions) = node.event_loop(occurrence, Instant::now());
    assert!(go_on);
    actions
}

fn asks(node: &mut Node, events: Vec<OutEvent>) -> Acts {
    node.handle_out_events(events)
}

fn expect(actions: &Acts, expected: Acts) {
    assert_eq!(format!("{actions:?}"), format!("{expected:?}"));
}

fn timer(tx_id: u128, peer: u128) -> Action<&'static str, &'static str> {
    Action::SetTimer {
        tx_id,
        peer_id: id(peer),
        secs: 3,
    }
}

fn run(
    peer: u128,
    conn_id: usize,
    origin: ConnOrigin,
    queue: Vec<Message>,
) -> Action<&'static str, &'static str> {
    Action::RunConnection {
        peer_id: id(peer),
        conn_id,
        origin,
        queue,
        max_message_size: 500,
    }
}

fn dial(peer: u128, result: Option<&'static str>) -> Action<&'static str, &'static str> {
    Action::Dial {
        peer_id: id(peer),
        result,
    }
}

#[test]
fn builder_has_defaults_and_changes_one_setting_at_a_time() {
    let builder = Builder::default();
    assert_eq!(builder.config.max_storage_use, 104857600);
    assert_eq!(builder.config.max_message_size, 65536);
    let builder = builder.max_message_size(7);
    assert_eq!(builder.config.max_storage_use, 104857600);
    assert_eq!(builder.config.max_message_size, 7);
    let builder = builder.max_storage_use(8);
    assert_eq!(builder.config.max_storage_use, 8);
    assert_eq!(builder.config.max_message_size, 7);
    assert_eq!(kreatilas::ALPN.as_bytes(), b"/kreatilas/1");
}

#[test]
fn frame_starts_with_the_length() {
    let mut buffer = BytesMut::from(&b"old contents"[..]);
    let prefix = start_frame(&mut buffer, 0x0304, 0x0304).unwrap();
    assert_eq!(prefix, [0, 0, 3, 4]);
    assert_eq!(buffer.len(), 0x0304);
    assert!(buffer.iter().all(|b| *b == 0));
    assert_eq!(start_frame(&mut buffer, 0, 10), Ok([0, 0, 0, 0]));
    assert!(buffer.is_empty());
}

#[test]
fn frame_that_is_too_long_is_not_started() {
    let mut buffer = BytesMut::from(&b"kept"[..]);
    assert_eq!(
        start_frame(&mut buffer, 11, 10),
        Err(FrameError::WouldBeTooLarge {
            size: 11,
            max_message_size: 10
        })
    );
    assert_eq!(&buffer[..], b"kept");
}

#[test]
fn announced_size_is_checked() {
    assert_eq!(message_size(&[0, 0, 1, 0], 256), Ok(256));
    assert_eq!(
        message_size(&[0, 0, 1, 1], 256),
        Err(FrameError::TooLarge {
            size: 257,
            max_message_size: 256
        })
    );
    assert_eq!(message_size(&[255; 4], usize::MAX), Ok(u32::MAX as usize));
    assert_eq!(message_size(&[0; 4], 0), Ok(0));
}

#[test]
fn message_is_taken_from_the_front() {
    let mut buffer = BytesMut::from(&b"messagerest"[..]);
    assert_eq!(&take_message(&mut buffer, 7)[..], b"message");
    assert_eq!(&buffer[..], b"rest");
    assert_eq!(&take_message(&mut buffer, 0)[..], b"");
    assert_eq!(&take_message(&mut buffer, 4)[..], b"rest");
}

#[test]
fn what_is_sent_is_read_back() {
    for len in [0usize, 1, 255, 256, 65535, 65536, 70000] {
        let payload: Vec<u8> = (0..len).map(|i| (i % 251) as u8).collect();
        let mut buffer = BytesMut::new();
        let prefix = start_frame(&mut buffer, len, 70000).unwrap();
        buffer.copy_from_slice(&payload);
        let mut stream = prefix.to_vec();
        stream.extend_from_slice(&buffer);
        stream.extend_from_slice(b"next");
        let mut head = [0u8; 4];
        head.copy_from_slice(&stream[..4]);
        let size = message_size(&head, 70000).unwrap();
        assert_eq!(size, len);
        let mut received = BytesMut::from(&stream[4..]);
        assert_eq!(&take_message(&mut received, size)[..], &payload[..]);
        assert_eq!(&received[..], b"next");
    }
}

#[test]
fn first_connection_gets_the_queue() {
    let mut peer = PeerState::default();
    assert!(matches!(&peer, PeerState::Pending { queue } if queue.is_empty()));
    if let PeerState::Pending { queue } = &mut peer {
        queue.push(find(1));
        queue.push(find(2));
    }
    let (queue, replaced) = peer.accept_conn(10);
    assert_eq!(queue.iter().map(|m| m.tx_id).collect::<Vec<_>>(), vec![1, 2]);
    assert_eq!(replaced, None);
    let (queue, replaced) = peer.accept_conn(11);
    assert!(queue.is_empty());
    assert_eq!(replaced, Some(10));
    let (_, replaced) = peer.accept_conn(12);
    assert_eq!(replaced, Some(11));
    match peer {
        PeerState::Active {
            conn_id,
            other_conns,
        } => {
            assert_eq!(conn_id, 12);
            assert_eq!(other_conns, vec![10, 11]);
        }
        other => panic!("{other:?}"),
    }
}

#[test]
fn ended_connection_is_taken_out() {
    assert_eq!(remove_conn(&vec![1, 2, 1, 3], 1), vec![2, 3]);
    assert_eq!(remove_conn(&vec![1, 2], 7), vec![1, 2]);
    assert!(remove_conn(&vec![], 7).is_empty());
}

#[test]
fn peer_is_dialed_once_at_a_time() {
    let mut dialer = Dialer::new();
    assert!(!dialer.is_pending(&id(2)));
    assert!(dialer.queue_dial(id(2)));
    assert!(dialer.is_pending(&id(2)));
    assert!(!dialer.queue_dial(id(2)));
    assert!(dialer.queue_dial(id(3)));
    dialer.dialed(&id(2));
    assert!(!dialer.is_pending(&id(2)));
    assert!(dialer.is_pending(&id(3)));
    assert!(dialer.queue_dial(id(2)));
}

#[test]
fn message_waits_for_a_connection() {
    let mut node = actor();
    let actions = asks(
        &mut node,
        vec![
            OutEvent::SendMessage(id(2), find(1)),
            OutEvent::SendMessage(id(2), find(2)),
            OutEvent::SendMessage(id(3), find(3)),
        ],
    );
    expect(
        &actions,
        vec![timer(1, 2), dial(2, None), timer(2, 2), timer(3, 3), dial(3, None)],
    );
    let actions = happens(&mut node, Occurrence::Dialed(id(2), Some(10)));
    expect(&actions, vec![run(2, 10, ConnOrigin::Dial, vec![find(1), find(2)])]);
    let actions = asks(&mut node, vec![OutEvent::SendMessage(id(2), find(4))]);
    expect(
        &actions,
        vec![
            timer(4, 2),
            Action::Send {
                conn_id: 10,
                msg: find(4),
            },
        ],
    );
}

#[test]
fn message_goes_over_the_latest_connection() {
    let mut node = actor();
    let actions = happens(&mut node, Occurrence::Connection(id(2), 10, ConnOrigin::Accept));
    expect(&actions, vec![run(2, 10, ConnOrigin::Accept, vec![])]);
    let actions = happens(&mut node, Occurrence::Connection(id(2), 11, ConnOrigin::Accept));
    expect(
        &actions,
        vec![
            Action::StopSending { conn_id: 10 },
            run(2, 11, ConnOrigin::Accept, vec![]),
        ],
    );
    // The end of the older connection changes nothing.
    expect(&happens(&mut node, Occurrence::ConnectionEnded(id(2), 10)), vec![]);
    let actions = asks(&mut node, vec![OutEvent::SendMessage(id(2), find(4))]);
    expect(
        &actions,
        vec![
            timer(4, 2),
            Action::Send {
                conn_id: 11,
                msg: find(4),
            },
        ],
    );
}

#[test]
fn failed_dial_leaves_the_messages_waiting() {
    let mut node = actor();
    asks(&mut node, vec![OutEvent::SendMessage(id(2), find(1))]);
    expect(&happens(&mut node, Occurrence::Dialed(id(2), None)), vec![]);
    // Messages wait, so the peer is not dialed for another one.
    let actions = asks(&mut node, vec![OutEvent::SendMessage(id(2), find(2))]);
    expect(&actions, vec![timer(2, 2)]);
    let actions = happens(&mut node, Occurrence::Connection(id(2), 5, ConnOrigin::Accept));
    expect(&actions, vec![run(2, 5, ConnOrigin::Accept, vec![find(1), find(2)])]);
}

#[test]
fn events_of_the_protocol_are_performed() {
    let mut node = actor();
    let actions = asks(
        &mut node,
        vec![
            OutEvent::CheckBlob(7, KEY),
            OutEvent::DownloadBlob(8, addr(4), KEY, 99),
            OutEvent::PeerInfo(addr(5)),
            OutEvent::Found(KEY),
            OutEvent::Inserted(KEY),
            OutEvent::DisconnectPeer(id(9)),
        ],
    );
    expect(
        &actions,
        vec![
            Action::CheckBlob { tx_id: 7, key: KEY },
            Action::DownloadBlob {
                tx_id: 8,
                from: addr(4),
                key: KEY,
                size: 99,
                max_storage_use: 1000,
            },
            Action::AddNodeAddr(addr(5)),
        ],
    );
}

#[test]
fn disconnected_peer_gets_no_more_messages() {
    let mut node = actor();
    happens(&mut node, Occurrence::Connection(id(2), 10, ConnOrigin::Accept));
    let actions = asks(&mut node, vec![OutEvent::DisconnectPeer(id(2))]);
    expect(&actions, vec![Action::StopSending { conn_id: 10 }]);
    let actions = asks(&mut node, vec![OutEvent::SendMessage(id(2), find(4))]);
    expect(&actions, vec![timer(4, 2), dial(2, None)]);
}

#[test]
fn search_without_peers_is_answered_at_once() {
    let mut node = actor();
    let actions = happens(
        &mut node,
        Occurrence::Get {
            key: KEY,
            result: "get",
        },
    );
    expect(
        &actions,
        vec![Action::Reply {
            result: "get",
            success: false,
        }],
    );
    // The request has been answered.
    expect(&asks(&mut node, vec![OutEvent::NotFound(KEY)]), vec![]);
}

#[test]
fn insertion_without_peers_or_data_is_answered_at_once() {
    let statuses = [
        BlobStatus::NotFound,
        BlobStatus::Partial { size: Some(4) },
        BlobStatus::Complete { size: 4 },
    ];
    for status in statuses {
        let mut node = actor();
        let actions = happens(
            &mut node,
            Occurrence::Put {
                key: KEY,
                status,
                result: "put",
            },
        );
        expect(
            &actions,
            vec![Action::Reply {
                result: "put",
                success: false,
            }],
        );
    }
}

#[test]
fn incomplete_data_is_not_inserted() {
    let mut node = actor();
    happens(&mut node, Occurrence::Connection(id(2), 10, ConnOrigin::Accept));
    let actions = happens(
        &mut node,
        Occurrence::Put {
            key: KEY,
            status: BlobStatus::Partial { size: None },
            result: "put",
        },
    );
    expect(
        &actions,
        vec![Action::Reply {
            result: "put",
            success: false,
        }],
    );
}

#[test]
fn request_is_answered_with_the_outcome_once() {
    let outcome = DownloadOutcome {
        local_size: 1,
        downloaded_size: 1,
    };
    let reports = [
        (OutEvent::Downloaded(KEY, outcome), true),
        (OutEvent::Inserted(KEY), true),
        (OutEvent::NotFound(KEY), false),
        (OutEvent::NotInserted(KEY), false),
    ];
    for (report, success) in reports {
        let mut node = actor();
        happens(&mut node, Occurrence::Connection(id(2), 10, ConnOrigin::Accept));
        let actions = happens(
            &mut node,
            Occurrence::Get {
                key: KEY,
                result: "get",
            },
        );
        match &actions[..] {
            [Action::SetTimer { peer_id, .. }, Action::Send { conn_id, msg }] => {
                assert_eq!((*peer_id, *conn_id), (id(2), 10));
                assert!(matches!(msg.data, MessageData::Find { key } if key == KEY));
            }
            other => panic!("{other:?}"),
        }
        let other = BlobHash { hi: 1, lo: 1 };
        expect(&asks(&mut node, vec![OutEvent::NotFound(other)]), vec![]);
        expect(
            &asks(&mut node, vec![report.clone()]),
            vec![Action::Reply {
                result: "get",
                success,
            }],
        );
        expect(&asks(&mut node, vec![report]), vec![]);
    }
}

#[test]
fn later_request_for_the_same_data_takes_the_place_of_the_earlier() {
    let mut node = actor();
    happens(&mut node, Occurrence::Connection(id(2), 10, ConnOrigin::Accept));
    for result in ["first", "second"] {
        happens(&mut node, Occurrence::Get { key: KEY, result });
    }
    expect(
        &asks(&mut node, vec![OutEvent::NotFound(KEY)]),
        vec![Action::Reply {
            result: "second",
            success: false,
        }],
    );
}

#[test]
fn added_peer_is_dialed() {
    let mut node = actor();
    let actions = happens(
        &mut node,
        Occurrence::AddPeer {
            node_addr: addr(2),
            result: "added",
        },
    );
    expect(&actions, vec![Action::AddNodeAddr(addr(2)), dial(2, Some("added"))]);
    // While messages wait, it is not dialed again.
    let actions = happens(
        &mut node,
        Occurrence::AddPeer {
            node_addr: addr(2),
            result: "again",
        },
    );
    expect(&actions, vec![]);
    let actions = happens(&mut node, Occurrence::Dialed(id(2), Some(10)));
    match &actions[..] {
        [Action::RunConnection { queue, origin, .. }] => {
            assert_eq!(*origin, ConnOrigin::Dial);
            assert_eq!(queue.len(), 2);
            assert!(queue.iter().all(|m| matches!(m.data, MessageData::Pulse)));
        }
        other => panic!("{other:?}"),
    }
    let actions = happens(
        &mut node,
        Occurrence::AddPeer {
            node_addr: addr(2),
            result: "connected",
        },
    );
    expect(&actions, vec![]);
    // The protocol knows the peer.
    let actions = happens(
        &mut node,
        Occurrence::Get {
            key: KEY,
            result: "get",
        },
    );
    assert!(matches!(&actions[..], [Action::SetTimer { .. }, Action::Send { conn_id: 10, .. }]));
}

#[test]
fn peer_that_is_being_dialed_is_not_dialed_for_another_reason() {
    let mut node = actor();
    asks(&mut node, vec![OutEvent::SendMessage(id(2), find(1))]);
    // An incoming connection takes the message while the dial goes on.
    happens(&mut node, Occurrence::Connection(id(2), 3, ConnOrigin::Accept));
    asks(&mut node, vec![OutEvent::DisconnectPeer(id(2))]);
    let actions = node.add_peer_with(addr(2), "added", find(9));
    expect(&actions, vec![Action::AddNodeAddr(addr(2))]);
}

#[test]
fn end_of_the_connection_disconnects_the_peer() {
    let mut node = actor();
    happens(&mut node, Occurrence::Connection(id(2), 10, ConnOrigin::Accept));
    expect(&happens(&mut node, Occurrence::ConnectionEnded(id(2), 10)), vec![]);
    expect(&happens(&mut node, Occurrence::ConnectionEnded(id(5), 10)), vec![]);
    let actions = happens(
        &mut node,
        Occurrence::Get {
            key: KEY,
            result: "get",
        },
    );
    expect(
        &actions,
        vec![Action::Reply {
            result: "get",
            success: false,
        }],
    );
}

#[test]
fn received_message_reaches_the_protocol() {
    let mut node = actor();
    let event = InEvent::RecvMessage(id(2), find(6));
    assert!(node.in_range(&event));
    let actions = happens(&mut node, Occurrence::Event(event));
    expect(&actions, vec![Action::CheckBlob { tx_id: 6, key: KEY }]);
    let status = BlobStatus::Complete { size: 4 };
    let actions = happens(&mut node, Occurrence::Event(InEvent::CheckedBlob(6, status)));
    expect(&actions, vec![timer(6, 2), dial(2, None), timer(6, 2)]);
}

#[test]
fn node_stops_when_nobody_is_left() {
    let mut node = actor();
    let (go_on, actions) = node.event_loop::<&'static str>(Occurrence::Closed, Instant::now());
    assert!(!go_on);
    assert!(actions.is_empty());
}

#[test]
fn waiting_messages_are_written_first() {
    let mut steps = SendLoop::new(vec![find(1), find(2)]);
    for n in [1, 2] {
        match steps.next() {
            SendStep::Write(msg) => assert_eq!(msg.tx_id, n),
            other => panic!("{other:?}"),
        }
    }
    assert!(matches!(steps.next(), SendStep::Receive));
    assert!(matches!(steps.received(Some(find(3))), SendStep::Write(msg) if msg.tx_id == 3));
    assert!(matches!(steps.next(), SendStep::Receive));
    assert!(matches!(steps.received(None), SendStep::Finish));
}

#[test]
fn dialing_side_opens_the_stream() {
    assert!(opens_stream(ConnOrigin::Dial));
    assert!(!opens_stream(ConnOrigin::Accept));
}

#[test]
fn messages_are_reported_until_the_stream_ends() {
    match report_message(id(4), Some(find(9))) {
        Some(InEvent::RecvMessage(peer, msg)) => assert_eq!((peer, msg.tx_id), (id(4), 9)),
        other => panic!("{other:?}"),
    }
    assert!(report_message(id(4), None).is_none());
}

#[test]
fn failure_to_send_outweighs_failure_to_receive() {
    assert_eq!(combine::<&str>(Ok(()), Ok(())), Ok(()));
    assert_eq!(combine(Ok(()), Err("received")), Err("received"));
    assert_eq!(combine(Err("sent"), Ok(())), Err("sent"));
    assert_eq!(combine(Err("sent"), Err("received")), Err("sent"));
}

#[test]
fn messages_are_read_back_in_order() {
    let messages: [&[u8]; 4] = [b"first", b"", b"third", &[7; 300]];
    let mut stream = Vec::new();
    let mut buffer = BytesMut::new();
    for message in messages {
        let prefix = start_frame(&mut buffer, message.len(), 300).unwrap();
        buffer.copy_from_slice(message);
        stream.extend_from_slice(&prefix);
        stream.extend_from_slice(&buffer);
    }
    let mut rest = &stream[..];
    let mut buffer = BytesMut::new();
    for message in messages {
        let size = message_size(rest[..4].try_into().unwrap(), 300).unwrap();
        buffer.extend_from_slice(&rest[4..4 + size]);
        assert_eq!(&take_message(&mut buffer, size)[..], message);
        assert!(buffer.is_empty());
        rest = &rest[4 + size..];
    }
    assert!(rest.is_empty());
}

#[test]
fn download_is_told_the_configured_limit() {
    let mut node: Node = Actor::new(
        Config {
            max_storage_use: 77,
            max_message_size: 500,
        },
        addr(1),
    );
    let actions = asks(&mut node, vec![OutEvent::DownloadBlob(1, addr(2), KEY, 5)]);
    assert!(matches!(
        &actions[..],
        [Action::DownloadBlob { size: 5, max_storage_use: 77, .. }]
    ));
}
