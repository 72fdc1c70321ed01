use peer2peer::{ConnectionTable, IpAddress, PeerAddr};

fn v6(addr: u128, scope_id: u32) -> IpAddress {
    IpAddress::V6 { addr, flowinfo: 0, scope_id }
}

fn addr(last: u32, port: u16) -> PeerAddr {
    PeerAddr::new(IpAddress::V4(0x7f00_0000 | last), port)
}

#[test]
fn table_insert_get_remove() {
    let mut t: ConnectionTable<&str> = ConnectionTable::new();
    assert_eq!(t.len(), 0);
    assert_eq!(t.insert(addr(1, 8000), "a"), None);
    assert_eq!(t.insert(addr(2, 8000), "b"), None);
    assert_eq!(t.len(), 2);
    assert!(t.contains(&addr(1, 8000)));
    assert!(!t.contains(&addr(1, 8001)));
    assert_eq!(t.get(&addr(2, 8000)), Some(&"b"));
    assert_eq!(t.get(&addr(3, 8000)), None);
    assert_eq!(t.insert(addr(1, 8000), "c"), Some("a"));
    assert_eq!(t.len(), 2);
    assert_eq!(t.get(&addr(1, 8000)), Some(&"c"));
    assert_eq!(t.remove(&addr(1, 8000)), Some("c"));
    assert_eq!(t.remove(&addr(1, 8000)), None);
    assert_eq!(t.len(), 1);
    assert!(!t.contains(&addr(1, 8000)));
    assert_eq!(t.get(&addr(2, 8000)), Some(&"b"));
}

#[test]
fn table_addresses_lists_each_once() {
    let mut t: ConnectionTable<u32> = ConnectionTable::new();
    for i in 0..5 {
        t.insert(addr(i, 9000), i);
    }
    t.insert(addr(3, 9000), 33);
    let mut v = t.addresses();
    v.sort_by_key(|a| match a.ip {
        IpAddress::V4(x) => x,
        IpAddress::V6 { .. } => 0,
    });
    let expected: Vec<PeerAddr> = (0..5).map(|i| addr(i, 9000)).collect();
    assert_eq!(v, expected);
}

#[test]
fn table_distinguishes_ip_versions() {
    let mut t: ConnectionTable<u8> = ConnectionTable::new();
    t.insert(PeerAddr::new(IpAddress::V4(1), 1), 4);
    t.insert(PeerAddr::new(v6(1, 0), 1), 6);
    assert_eq!(t.len(), 2);
    assert_eq!(t.get(&PeerAddr::new(v6(1, 0), 1)), Some(&6));
}

#[test]
fn table_distinguishes_ipv6_scopes() {
    let mut t: ConnectionTable<u8> = ConnectionTable::new();
    let link_local: u128 = 0xfe80 << 112 | 1;
    t.insert(PeerAddr::new(v6(link_local, 1), 8998), 1);
    t.insert(PeerAddr::new(v6(link_local, 2), 8998), 2);
    assert_eq!(t.len(), 2);
    assert_eq!(t.get(&PeerAddr::new(v6(link_local, 2), 8998)), Some(&2));
    let flow = PeerAddr::new(IpAddress::V6 { addr: link_local, flowinfo: 7, scope_id: 1 }, 8998);
    assert!(!t.contains(&flow));
}

#[test]
fn trim_random_keeps_limit_of_old_entries() {
    let mut t: ConnectionTable<u32> = ConnectionTable::new();
    for i in 0..20 {
        t.insert(addr(i, 1), i);
    }
    t.trim_random(6);
    assert_eq!(t.len(), 6);
    for a in t.addresses() {
        let i = match a.ip {
            IpAddress::V4(x) => x & 0xff,
            IpAddress::V6 { .. } => panic!("unexpected address"),
        };
        assert!(i < 20);
        assert_eq!(t.get(&a), Some(&i));
    }
}

#[test]
fn trim_random_leaves_small_table_alone() {
    let mut t: ConnectionTable<u32> = ConnectionTable::new();
    for i in 0..4 {
        t.insert(addr(i, 1), i);
    }
    t.trim_random(6);
    assert_eq!(t.len(), 4);
    t.trim_random(0);
    assert_eq!(t.len(), 0);
}

#[test]
fn random_address_is_in_table() {
    let mut t: ConnectionTable<u32> = ConnectionTable::new();
    for i in 0..10 {
        t.insert(addr(i, 1), i);
    }
    for _ in 0..200 {
        let a = t.random_address();
        assert!(t.contains(&a));
        assert!(t.get(&a).is_some());
    }
}

#[test]
fn peer_addr_with_port() {
    let a = PeerAddr::new(v6(42, 3), 1);
    let b = a.with_port(8998);
    assert_eq!(b.ip, v6(42, 3));
    assert_eq!(b.port, 8998);
}

#[test]
fn remove_undoes_insert() {
    let mut t: ConnectionTable<u32> = ConnectionTable::new();
    t.insert(addr(1, 1), 1);
    t.insert(addr(2, 1), 2);
    let before = t.addresses();
    t.insert(addr(3, 1), 3);
    assert_eq!(t.remove(&addr(3, 1)), Some(3));
    let mut after = t.addresses();
    let mut expected = before.clone();
    after.sort_by_key(|a| a.port as u32 + match a.ip { IpAddress::V4(x) => x, IpAddress::V6 { .. } => 0 });
    expected.sort_by_key(|a| a.port as u32 + match a.ip { IpAddress::V4(x) => x, IpAddress::V6 { .. } => 0 });
    assert_eq!(after, expected);
    assert_eq!(t.get(&addr(1, 1)), Some(&1));
    assert_eq!(t.get(&addr(2, 1)), Some(&2));
}
