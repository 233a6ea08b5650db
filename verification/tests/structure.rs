use rustdds::structure::guid::{EntityId, EntityKind, GuidPrefix, GUID};
use rustdds::structure::locator::{
    copy_locators, IpAddr, Ipv4Addr, Ipv6Addr, Locator, SocketAddr,
};
use rustdds::structure::sequence_number::SequenceNumber;
use rustdds::structure::sorted_map::SortedMap;
use rustdds::structure::time::{Duration, Timestamp};

fn sn(n: i64) -> SequenceNumber {
    SequenceNumber::new(n)
}

#[test]
fn sorted_map_keeps_order() {
    let mut m: SortedMap<SequenceNumber, char> = SortedMap::new();
    assert!(m.is_empty());
    for (n, c) in [(5, 'e'), (1, 'a'), (3, 'c'), (4, 'd'), (2, 'b')] {
        m.insert(sn(n), c);
    }
    m.insert(sn(3), 'C');
    assert_eq!(m.len(), 5);
    assert_eq!(m.key_list(), vec![sn(1), sn(2), sn(3), sn(4), sn(5)]);
    assert_eq!(m.get(&sn(3)), Some(&'C'));
    assert_eq!(m.get(&sn(9)), None);
    assert_eq!(m.first_key(), Some(sn(1)));
    assert_eq!(m.last_key(), Some(sn(5)));
    assert_eq!(m.key_at(1), sn(2));
    assert_eq!(*m.value_at(1), 'b');
    assert_eq!(m.remove(&sn(2)), Some('b'));
    assert_eq!(m.remove(&sn(2)), None);
    assert!(!m.contains_key(&sn(2)));
    m.drop_before(&sn(3));
    assert_eq!(m.key_list(), vec![sn(3), sn(4), sn(5)]);
    m.drop_from(&sn(5));
    assert_eq!(m.key_list(), vec![sn(3), sn(4)]);
    m.drop_range(&sn(4), &sn(9));
    assert_eq!(m.key_list(), vec![sn(3)]);
}

#[test]
fn sorted_map_is_cut_at_either_end() {
    let mut m: SortedMap<SequenceNumber, ()> = SortedMap::new();
    for n in 1..=10 {
        m.insert(sn(n), ());
    }
    m.keep_newest(4);
    assert_eq!(m.key_list(), vec![sn(7), sn(8), sn(9), sn(10)]);
    m.keep_oldest(2);
    assert_eq!(m.key_list(), vec![sn(7), sn(8)]);
    m.keep_newest(9);
    assert_eq!(m.len(), 2);
}

#[test]
fn guids_are_ordered_by_their_bytes() {
    let a = GuidPrefix::new(&[0, 0, 0, 0, 0, 0, 0, 0, 0, 0, 0, 1]);
    let b = GuidPrefix::new(&[1, 0, 0, 0, 0, 0, 0, 0, 0, 0, 0, 0]);
    let mut m: SortedMap<GUID, u8> = SortedMap::new();
    m.insert(GUID::new(b, EntityId::unknown()), 3);
    m.insert(GUID::new(a, EntityId::max()), 2);
    m.insert(GUID::new(a, EntityId::unknown()), 1);
    assert_eq!(*m.value_at(0), 1);
    assert_eq!(*m.value_at(1), 2);
    assert_eq!(*m.value_at(2), 3);
}

#[test]
fn entity_kinds_tell_roles() {
    let w = EntityKind { value: 0xC2 };
    assert!(w.is_built_in() && w.is_writer() && !w.is_reader() && !w.is_user_defined());
    let r = EntityKind::reader_no_key_user_defined();
    assert!(r.is_user_defined() && r.is_reader() && !r.is_writer() && !r.is_built_in());
    let publisher = EntityKind { value: 0x08 };
    assert!(!publisher.is_writer() && !publisher.is_reader());
    assert_eq!(EntityId::spdp_builtin_participant_writer().kind(), w);
}

#[test]
fn durations_divide_towards_zero() {
    assert_eq!(Duration::from_secs(3).divided_by(3), Duration::from_secs(1));
    assert_eq!(Duration { ticks: -7 }.divided_by(2), Duration { ticks: -3 });
    assert_eq!(Duration::from_millis(500).ticks, 0x8000_0000);
    assert_eq!(Duration::zero().shorter(Duration::from_secs(1)), Duration::zero());
    let a = Timestamp { seconds: 1, fraction: 9 };
    let b = Timestamp { seconds: 2, fraction: 0 };
    assert!(a.is_before(&b) && !b.is_before(&a) && !a.is_before(&a));
}

#[test]
fn locators_know_their_kind() {
    let v4 = Locator::from(SocketAddr::new(IpAddr::V4(Ipv4Addr::new(127, 1, 2, 3)), 1));
    let v6 = Locator::from(SocketAddr::new(IpAddr::V6(Ipv6Addr { high: 0, low: 1 }), 2));
    assert!(v4.is_udp() && v4.is_loopback());
    assert!(v6.is_udp() && v6.is_loopback());
    assert!(IpAddr::V4(Ipv4Addr::new(239, 255, 0, 1)).is_multicast());
    assert!(IpAddr::V6(Ipv6Addr { high: 0xFF02_0000_0000_0000, low: 1 }).is_multicast());
    assert!(IpAddr::V4(Ipv4Addr::unspecified()).is_unspecified());
    let list = vec![v4, v6];
    assert_eq!(copy_locators(&list), list);
    assert_eq!(v6.socket_addr().unwrap().port(), 2);
}
