use rustdds::rtps::constant::MAX_TRACKED_CHANGES_PER_WRITER;
use rustdds::rtps::discovered::{DiscoveredWriterData, WriterProxy};
use rustdds::rtps::rtps_writer_proxy::RtpsWriterProxy;
use rustdds::structure::guid::{EntityId, GuidPrefix, GUID};
use rustdds::structure::locator::{Ipv4Addr, Locator, SocketAddrV4};
use rustdds::structure::sequence_number::SequenceNumber;
use rustdds::structure::time::Timestamp;

fn test_proxy() -> RtpsWriterProxy {
    RtpsWriterProxy::new(
        GUID::new(GuidPrefix::unknown(), EntityId::unknown()),
        vec![],
        vec![],
        EntityId::unknown(),
    )
}

fn sn(n: i64) -> SequenceNumber {
    SequenceNumber::new(n)
}

fn udp(ip: [u8; 4], port: u16) -> Locator {
    Locator::UdpV4(SocketAddrV4 { ip: Ipv4Addr::new(ip[0], ip[1], ip[2], ip[3]), port })
}

#[test]
fn changes_map_does_not_grow_on_contiguous_delivery() {
    let mut wp = test_proxy();
    let n: i64 = 50_000;
    for i in 1..=n {
        wp.received_changes_add(SequenceNumber::new(i), Timestamp::invalid());
    }
    // Everything received in order: the base has advanced past the last sample.
    assert_eq!(wp.all_ackable_before(), SequenceNumber::new(n + 1));
    assert!(
        wp.tracked_changes_count() <= 1,
        "changes map grew unbounded on contiguous delivery: {} entries",
        wp.tracked_changes_count()
    );
}

#[test]
fn changes_map_bounded_with_permanent_gap() {
    let mut wp = test_proxy();
    // Sample 1 is never delivered; a long run above it is.
    let n: i64 = MAX_TRACKED_CHANGES_PER_WRITER as i64 * 4;
    for i in 2..=n {
        wp.received_changes_add(SequenceNumber::new(i), Timestamp::invalid());
    }
    assert!(
        wp.tracked_changes_count() <= MAX_TRACKED_CHANGES_PER_WRITER,
        "changes map exceeded cap {} under a permanent gap: {} entries",
        MAX_TRACKED_CHANGES_PER_WRITER,
        wp.tracked_changes_count()
    );
}

#[test]
fn missing_numbers_are_those_not_received() {
    let mut wp = test_proxy();
    wp.received_changes_add(sn(1), Timestamp::zero());
    wp.received_changes_add(sn(3), Timestamp::zero());
    assert_eq!(wp.all_ackable_before(), sn(2));
    assert_eq!(wp.missing_seqnums(sn(1), sn(5)), vec![sn(2), sn(4), sn(5)]);
    assert!(wp.should_ignore_change(sn(1)));
    assert!(wp.should_ignore_change(sn(3)));
    assert!(!wp.should_ignore_change(sn(2)));
    wp.received_changes_add(sn(2), Timestamp::zero());
    assert_eq!(wp.all_ackable_before(), sn(4));
}

#[test]
fn irrelevant_numbers_count_as_received() {
    let mut wp = test_proxy();
    assert!(wp.no_changes_received());
    wp.set_irrelevant_change(sn(1));
    assert_eq!(wp.all_ackable_before(), sn(2));
    wp.irrelevant_changes_range(sn(3), sn(5));
    assert_eq!(wp.all_ackable_before(), sn(2));
    assert!(wp.no_changes_received());
    wp.received_changes_add(sn(2), Timestamp::zero());
    assert_eq!(wp.all_ackable_before(), sn(5));
    assert!(!wp.no_changes_received());
    wp.irrelevant_changes_up_to(sn(9));
    assert_eq!(wp.all_ackable_before(), sn(9));
}

#[test]
fn acknack_counts_go_up() {
    let mut wp = test_proxy();
    let first = wp.next_ack_nack_sequence_number();
    assert_eq!(wp.next_ack_nack_sequence_number(), first + 1);
}

#[test]
fn announced_locators_go_before_defaults() {
    let guid = GUID::new(GuidPrefix::new(&[4; 12]), EntityId::unknown());
    let announced = DiscoveredWriterData {
        writer_proxy: WriterProxy {
            remote_writer_guid: guid,
            unicast_locator_list: vec![udp([10, 0, 0, 1], 7411)],
            multicast_locator_list: vec![],
        },
    };
    let p = RtpsWriterProxy::from_discovered_writer_data(
        &announced,
        &vec![udp([10, 0, 0, 2], 7411)],
        &vec![udp([239, 255, 0, 1], 7401)],
    );
    assert_eq!(p.remote_writer_guid, guid);
    assert_eq!(p.unicast_locator_list, vec![udp([10, 0, 0, 1], 7411)]);
    assert_eq!(p.multicast_locator_list, vec![udp([239, 255, 0, 1], 7401)]);
}

#[test]
fn update_keeps_what_was_received() {
    let mut wp = test_proxy();
    assert_eq!(wp.last_change_timestamp(), None);
    let t = Timestamp { seconds: 4, fraction: 0 };
    wp.received_changes_add(sn(2), t);
    assert_eq!(wp.last_change_timestamp(), Some(t));
    wp.received_changes_add(sn(1), Timestamp::zero());
    assert_eq!(wp.last_change_timestamp(), Some(t));
    let other = RtpsWriterProxy::new(
        GUID::new(GuidPrefix::new(&[9; 12]), EntityId::unknown()),
        vec![udp([10, 0, 0, 7], 7411)],
        vec![],
        EntityId::max(),
    );
    wp.update_contents(other);
    assert_eq!(wp.unicast_locator_list, vec![udp([10, 0, 0, 7], 7411)]);
    assert_eq!(wp.remote_group_entity_id, EntityId::max());
    assert_eq!(wp.remote_writer_guid.prefix, GuidPrefix::unknown());
    assert_eq!(wp.all_ackable_before(), sn(3));
}

#[test]
fn new_proxy_has_received_nothing() {
    let mut wp = test_proxy();
    assert!(wp.no_changes_received());
    wp.received_changes_add(sn(1), Timestamp::zero());
    assert!(!wp.no_changes_received());
}

#[test]
fn base_is_the_least_unknown_number() {
    let mut wp = test_proxy();
    let mut before = wp.all_ackable_before();
    for n in [3, 1, 7, 2, 5, 4, 4, 6] {
        if n % 2 == 0 {
            wp.set_irrelevant_change(sn(n));
        } else {
            wp.received_changes_add(sn(n), Timestamp::zero());
        }
        let base = wp.all_ackable_before();
        assert!(before <= base);
        assert!(!wp.should_ignore_change(base));
        for k in 1..base.value {
            assert!(wp.should_ignore_change(sn(k)));
        }
        before = base;
    }
    assert_eq!(before, sn(8));
}

#[test]
fn last_timestamp_is_that_of_the_highest_number() {
    let mut wp = test_proxy();
    let at = |seconds| Timestamp { seconds, fraction: 0 };
    for (n, t) in [(2, 10), (5, 20), (3, 30), (5, 40), (1, 50)] {
        wp.received_changes_add(sn(n), at(t));
        wp.set_irrelevant_change(sn(n + 10));
    }
    assert_eq!(wp.last_change_timestamp(), Some(at(20)));
}

#[test]
fn states_of_numbers_are_final() {
    let mut wp = test_proxy();
    let early = Timestamp { seconds: 1, fraction: 0 };
    let late = Timestamp { seconds: 2, fraction: 0 };
    wp.received_changes_add(sn(5), early);
    wp.set_irrelevant_change(sn(5));
    wp.irrelevant_changes_range(sn(4), sn(7));
    wp.received_changes_add(sn(5), late);
    wp.received_changes_add(sn(6), late);
    assert_eq!(wp.changes.get(&sn(4)), Some(&None));
    assert_eq!(wp.changes.get(&sn(5)), Some(&Some(early)));
    assert_eq!(wp.changes.get(&sn(6)), Some(&None));
    assert_eq!(wp.all_ackable_before(), sn(1));
}
