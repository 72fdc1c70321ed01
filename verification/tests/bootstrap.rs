use peer2peer::{Bootstrap, IpAddress, PeerAddr};

fn addr(last: u32) -> PeerAddr {
    PeerAddr::new(IpAddress::V4(0xc0a8_0000 | last), 8998)
}

#[test]
fn bootstrap_first_round_asks_seed() {
    let mut b = Bootstrap::new(addr(0), addr(1));
    assert!(b.start_round(0));
    assert_eq!(b.next_target(), Some(addr(1)));
    assert_eq!(b.next_target(), None);
    assert!(!b.connected());
}

#[test]
fn bootstrap_does_not_start_with_enough_connections() {
    let mut b = Bootstrap::new(addr(0), addr(1));
    assert!(!b.start_round(7));
    assert!(b.start_round(6));
}

#[test]
fn bootstrap_spreads_to_unvisited_peers() {
    let own = addr(0);
    let mut b = Bootstrap::new(own, addr(1));
    assert!(b.start_round(0));
    assert_eq!(b.next_target(), Some(addr(1)));
    // the seed knows us, peer 2 and peer 3
    b.record_peers(&vec![own, addr(2), addr(3)]);
    assert!(b.connected());
    // 3 reported addresses: still below half the maximum
    assert_eq!(b.next_target(), None);
    b.end_round();
    assert!(b.start_round(1));
    let mut asked = Vec::new();
    while let Some(p) = b.next_target() {
        assert_ne!(p, own);
        asked.push(p);
        b.record_peers(&vec![own, addr(1)]);
    }
    asked.sort_by_key(|a| a.ip == IpAddress::V4(0xc0a8_0003));
    assert_eq!(asked, vec![addr(2), addr(3)]);
    b.end_round();
    // the seed itself was never marked as seen, so both answers bring it back
    assert!(b.start_round(1));
    assert_eq!(b.next_target(), Some(addr(1)));
    b.record_peers(&vec![own, addr(2), addr(3)]);
    assert_eq!(b.next_target(), Some(addr(1)));
    b.end_round();
    // nothing new was found: the bootstrap is over
    assert!(!b.start_round(1));
}

#[test]
fn bootstrap_round_stops_at_half_the_maximum() {
    let mut b = Bootstrap::new(addr(0), addr(1));
    assert!(b.start_round(0));
    assert_eq!(b.next_target(), Some(addr(1)));
    b.record_peers(&(2..10).map(addr).collect());
    b.end_round();
    assert!(b.start_round(0));
    // the first answer reports 8 addresses, which reaches half the maximum
    assert!(b.next_target().is_some());
    b.record_peers(&(10..18).map(addr).collect());
    assert_eq!(b.next_target(), None);
}

#[test]
fn bootstrap_without_answers_fails() {
    let mut b = Bootstrap::new(addr(0), addr(1));
    assert!(b.start_round(0));
    assert_eq!(b.next_target(), Some(addr(1)));
    b.end_round();
    assert!(!b.start_round(0));
    assert!(!b.connected());
}
