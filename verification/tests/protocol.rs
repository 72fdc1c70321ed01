use peer2peer::{
    check_join, connection_step, incoming_step, join_reply, peer_list, peer_list_reply,
    should_dial, trim_after_rewire, ConnectionAction, ConnectionTable, IncomingAction, IpAddress, ReadFailure,
    Message, PeerAddr, PeerError, MAX_CONNECTIONS,
};

fn addr(last: u32, port: u16) -> PeerAddr {
    PeerAddr::new(IpAddress::V4(0x0a00_0000 | last), port)
}

#[test]
fn incoming_join_accepted_with_announced_port() {
    let remote = addr(5, 51234);
    let a = incoming_step(3, remote, &Message::Join(8998));
    assert_eq!(a, IncomingAction::Accept(addr(5, 8998)));
}

#[test]
fn incoming_join_denied_when_full() {
    let a = incoming_step(MAX_CONNECTIONS, addr(5, 1), &Message::Join(8998));
    assert_eq!(a, IncomingAction::Deny);
    let b = incoming_step(MAX_CONNECTIONS - 1, addr(5, 1), &Message::Join(8998));
    assert_eq!(b, IncomingAction::Accept(addr(5, 8998)));
}

#[test]
fn incoming_peer_list_request_and_others() {
    assert_eq!(incoming_step(0, addr(1, 1), &Message::PeerListRequest), IncomingAction::SendPeerList);
    assert_eq!(incoming_step(0, addr(1, 1), &Message::HeartBeat), IncomingAction::Reject);
    assert_eq!(incoming_step(0, addr(1, 1), &Message::Flood("x".to_string())), IncomingAction::Reject);
    assert_eq!(incoming_step(0, addr(1, 1), &Message::JoinAccepted), IncomingAction::Reject);
}

#[test]
fn join_check_refuses_full_table_and_known_peer() {
    let mut t: ConnectionTable<()> = ConnectionTable::new();
    assert_eq!(check_join(&t, &addr(1, 1)), Ok(()));
    t.insert(addr(1, 1), ());
    assert_eq!(check_join(&t, &addr(1, 1)), Err(PeerError::MaxConnections));
    for i in 2..=(MAX_CONNECTIONS as u32) {
        t.insert(addr(i, 1), ());
    }
    assert_eq!(t.len(), MAX_CONNECTIONS);
    assert_eq!(check_join(&t, &addr(100, 1)), Err(PeerError::MaxConnections));
}

#[test]
fn join_replies() {
    assert_eq!(join_reply(&Message::JoinAccepted), Ok(()));
    assert_eq!(join_reply(&Message::JoinDenied), Err(PeerError::JoinDenied));
    assert_eq!(join_reply(&Message::HeartBeat), Err(PeerError::UnexpectedMessage));
}

#[test]
fn only_unexpected_messages_close_the_connection() {
    assert!(PeerError::UnexpectedMessage.closes_connection());
    assert!(!PeerError::JoinDenied.closes_connection());
    assert!(!PeerError::MaxConnections.closes_connection());
}

#[test]
fn peer_list_replies() {
    let list = vec![addr(1, 1), addr(2, 2)];
    assert_eq!(peer_list_reply(Message::PeerList(list.clone())), Ok(list));
    assert_eq!(peer_list_reply(Message::JoinDenied), Err(PeerError::UnexpectedMessage));
}

#[test]
fn connection_steps() {
    assert!(matches!(connection_step(Ok(Message::Join(1))), ConnectionAction::Terminate));
    assert!(matches!(connection_step(Ok(Message::JoinDenied)), ConnectionAction::Terminate));
    assert!(matches!(connection_step(Ok(Message::JoinAccepted)), ConnectionAction::Terminate));
    assert!(matches!(connection_step(Ok(Message::PeerListRequest)), ConnectionAction::SendPeerList));
    assert!(matches!(connection_step(Ok(Message::HeartBeat)), ConnectionAction::Ignore));
    assert!(matches!(connection_step(Err(ReadFailure::EndOfStream)), ConnectionAction::Disconnect));
    assert!(matches!(connection_step(Err(ReadFailure::Other)), ConnectionAction::Stop));
    match connection_step(Ok(Message::Flood("Monkey".to_string()))) {
        ConnectionAction::Deliver(t) => assert_eq!(t, "Monkey"),
        other => panic!("unexpected {:?}", other),
    }
}

#[test]
fn rewire_order_is_a_shuffle() {
    let list: Vec<PeerAddr> = (0..50).map(|i| addr(i, 7)).collect();
    match connection_step(Ok(Message::PeerList(list.clone()))) {
        ConnectionAction::Rewire(order) => {
            let mut sorted = order.clone();
            sorted.sort_by_key(|a| match a.ip {
                IpAddress::V4(x) => x,
                IpAddress::V6 { .. } => 0,
            });
            assert_eq!(sorted, list);
        },
        other => panic!("unexpected {:?}", other),
    }
}

#[test]
fn dial_only_new_peers_other_than_self() {
    let own = addr(0, 8998);
    let mut t: ConnectionTable<()> = ConnectionTable::new();
    t.insert(addr(1, 8998), ());
    assert!(!should_dial(&t, &own, &own));
    assert!(!should_dial(&t, &own, &addr(1, 8998)));
    assert!(should_dial(&t, &own, &addr(2, 8998)));
    assert!(should_dial(&t, &own, &addr(0, 8999)));
}

#[test]
fn trim_after_rewire_keeps_half() {
    let mut t: ConnectionTable<u32> = ConnectionTable::new();
    for i in 0..12 {
        t.insert(addr(i, 1), i);
    }
    trim_after_rewire(&mut t);
    assert_eq!(t.len(), MAX_CONNECTIONS / 2);
}

#[test]
fn peer_list_message_lists_connections() {
    let mut t: ConnectionTable<()> = ConnectionTable::new();
    t.insert(addr(1, 1), ());
    t.insert(addr(2, 2), ());
    match peer_list(&t) {
        Message::PeerList(mut v) => {
            v.sort_by_key(|a| a.port);
            assert_eq!(v, vec![addr(1, 1), addr(2, 2)]);
        },
        other => panic!("unexpected {:?}", other),
    }
}
