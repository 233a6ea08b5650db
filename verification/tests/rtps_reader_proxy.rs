use std::collections::HashMap;

use rustdds::dds::qos::QosPolicies;
use rustdds::network::util::IfAddr;
use rustdds::rtps::constant::{
    DISCOVERY_LISTENER_TOKEN, FALLBACK_MAX_AGGREGATED_DATAGRAM_SIZE, MAX_UNSENT_CHANGES_PER_READER,
    USER_TRAFFIC_LISTENER_TOKEN, USER_TRAFFIC_MUL_LISTENER_TOKEN,
};
use rustdds::rtps::discovered::{DiscoveredReaderData, ReaderProxy};
use rustdds::rtps::rtps_reader_proxy::{AckNack, AckSubmessage, NackFrag, RtpsReaderProxy};
use rustdds::rtps::transmit::{DefaultRouteSelector, InterfaceObservations, InterfaceSelector};
use rustdds::structure::guid::{EntityId, GuidPrefix, GUID};
use rustdds::structure::locator::{IpAddr, Ipv4Addr, Locator, SocketAddr, SocketAddrV4};
use rustdds::structure::sequence_number::{
    FragmentNumber, FragmentNumberSet, SequenceNumber, SequenceNumberSet,
};

fn sn(n: i64) -> SequenceNumber {
    SequenceNumber::new(n)
}

fn test_proxy() -> RtpsReaderProxy {
    let guid = GUID::new(GuidPrefix::unknown(), EntityId::unknown());
    RtpsReaderProxy::new(guid, QosPolicies::default(), false)
}

fn udp(ip: [u8; 4], port: u16) -> Locator {
    Locator::UdpV4(SocketAddrV4 { ip: Ipv4Addr::new(ip[0], ip[1], ip[2], ip[3]), port })
}

fn iface(ip: [u8; 4]) -> InterfaceSelector {
    InterfaceSelector::Ip(IpAddr::V4(Ipv4Addr::new(ip[0], ip[1], ip[2], ip[3])))
}

fn proxy_with_prefix(prefix: GuidPrefix) -> RtpsReaderProxy {
    let guid = GUID::new(prefix, EntityId::unknown());
    RtpsReaderProxy::new(guid, QosPolicies::default(), false)
}

#[test]
fn unsent_changes_do_not_grow_when_pruned_on_push() {
    let mut rp = test_proxy();
    for i in 1..=50_000 {
        let sn = SequenceNumber::new(i);
        rp.notify_new_cache_change(sn);
        rp.mark_change_sent(sn);
    }
    assert_eq!(
        rp.unsent_changes_count(),
        0,
        "unsent_changes should be empty after every sample is marked sent"
    );
}

#[test]
fn unsent_changes_bounded_by_hard_cap() {
    let mut rp = test_proxy();
    let n = (MAX_UNSENT_CHANGES_PER_READER as i64) * 4;
    for i in 1..=n {
        rp.notify_new_cache_change(SequenceNumber::new(i));
    }
    assert!(
        rp.unsent_changes_count() <= MAX_UNSENT_CHANGES_PER_READER,
        "unsent_changes exceeded cap {}: {} entries",
        MAX_UNSENT_CHANGES_PER_READER,
        rp.unsent_changes_count()
    );
}

#[test]
fn mark_all_frags_requested_huge_frag_count_does_not_panic() {
    let mut rp = test_proxy();
    rp.mark_all_frags_requested(SequenceNumber::new(1), u32::MAX);
}

fn acknack(base: SequenceNumber) -> AckSubmessage {
    AckSubmessage::AckNack(AckNack {
        reader_id: EntityId::unknown(),
        writer_id: EntityId::unknown(),
        reader_sn_state: SequenceNumberSet::new_empty(base),
        count: 1,
    })
}

#[test]
fn acknack_with_base_beyond_sent_data_does_not_advance_all_acked_before() {
    let mut rp = test_proxy();
    rp.all_acked_before = SequenceNumber::new(10);

    let forged_base = SequenceNumber::new(4_611_686_018_427_387_993);
    rp.handle_ack_nack(&acknack(forged_base), SequenceNumber::new(100));

    assert_eq!(rp.all_acked_before, SequenceNumber::new(10));
}

#[test]
fn acknack_with_valid_base_updates_all_acked_before() {
    let mut rp = test_proxy();

    rp.handle_ack_nack(&acknack(SequenceNumber::new(50)), SequenceNumber::new(100));

    assert_eq!(rp.all_acked_before, SequenceNumber::new(50));
}

#[test]
fn resolve_falls_back_without_observation() {
    let mut rp = proxy_with_prefix(GuidPrefix::unknown());
    rp.unicast_locator_list = vec![udp([10, 0, 0, 5], 7410)];
    let observations = InterfaceObservations::new();
    rp.resolve_send_route(
        &observations,
        &vec![iface([10, 0, 0, 1])],
        &DefaultRouteSelector::default(),
    );
    assert!(rp.send_route().fallback);
}

#[test]
fn resolve_narrows_with_observation() {
    let prefix = GuidPrefix::new(&[9; 12]);
    let mut rp = proxy_with_prefix(prefix);
    rp.unicast_locator_list = vec![udp([10, 0, 0, 5], 7410)];
    rp.multicast_locator_list = vec![udp([239, 255, 0, 1], 7401)];

    let mut observations = InterfaceObservations::new();
    observations.record(
        prefix,
        Some(iface([10, 0, 0, 1])),
        SocketAddr::new(IpAddr::V4(Ipv4Addr::new(10, 0, 0, 5)), 7410),
    );

    rp.resolve_send_route(
        &observations,
        &vec![iface([10, 0, 0, 1])],
        &DefaultRouteSelector::default(),
    );

    let route = rp.send_route();
    assert!(!route.fallback);
    assert_eq!(route.unicast, Some(udp([10, 0, 0, 5], 7410)));
    assert_eq!(route.multicast, Some((udp([239, 255, 0, 1], 7401), iface([10, 0, 0, 1]))));
}

#[test]
fn update_partitions_loopback_into_bucket() {
    let prefix = GuidPrefix::new(&[7; 12]);
    let mut rp = proxy_with_prefix(prefix);

    let mut update = proxy_with_prefix(prefix);
    update.unicast_locator_list = vec![udp([127, 0, 0, 1], 7413), udp([10, 0, 0, 5], 7413)];

    rp.update(&update);

    assert_eq!(rp.unicast_locator_list, vec![udp([10, 0, 0, 5], 7413)]);
    assert_eq!(rp.loopback_unicast_locators, vec![udp([127, 0, 0, 1], 7413)]);
}

#[test]
fn normalize_loopback_moves_inline_loopback_to_bucket() {
    let mut rp = proxy_with_prefix(GuidPrefix::new(&[5; 12]));
    rp.unicast_locator_list = vec![udp([127, 0, 0, 1], 7410), udp([10, 0, 0, 5], 7410)];
    rp.normalize_loopback();
    assert_eq!(rp.unicast_locator_list, vec![udp([10, 0, 0, 5], 7410)]);
    assert_eq!(rp.loopback_unicast_locators, vec![udp([127, 0, 0, 1], 7410)]);
    // A second time changes nothing.
    rp.normalize_loopback();
    assert_eq!(rp.unicast_locator_list, vec![udp([10, 0, 0, 5], 7410)]);
    assert_eq!(rp.loopback_unicast_locators, vec![udp([127, 0, 0, 1], 7410)]);
}

#[test]
fn same_host_route_selects_bucket_loopback() {
    let prefix = GuidPrefix::new(&[8; 12]);
    let mut rp = proxy_with_prefix(prefix);
    rp.unicast_locator_list = vec![udp([10, 0, 0, 5], 7413)];
    rp.loopback_unicast_locators = vec![udp([127, 0, 0, 1], 7413)];

    let mut observations = InterfaceObservations::new();
    observations.record(
        prefix,
        None,
        SocketAddr::new(IpAddr::V4(Ipv4Addr::localhost()), 7410),
    );

    rp.resolve_send_route(&observations, &vec![], &DefaultRouteSelector::default());

    let route = rp.send_route();
    assert!(!route.fallback);
    assert_eq!(route.unicast, Some(udp([127, 0, 0, 1], 7413)));
}

#[test]
fn acknowledged_samples_are_no_longer_unsent() {
    let mut rp = test_proxy();
    for i in 1..=5 {
        rp.notify_new_cache_change(sn(i));
    }
    assert_eq!(rp.first_unsent_change(), Some(sn(1)));
    let mut state = SequenceNumberSet::new_empty(sn(3));
    state.members.push(sn(4));
    rp.handle_ack_nack(
        &AckSubmessage::AckNack(AckNack {
            reader_id: EntityId::unknown(),
            writer_id: EntityId::unknown(),
            reader_sn_state: state,
            count: 1,
        }),
        sn(5),
    );
    assert_eq!(rp.acked_up_to_before(), sn(3));
    let unsent = rp.unsent_changes_debug();
    assert!(unsent.contains(&sn(4)));
    assert!(!unsent.contains(&sn(1)));
    assert!(!unsent.contains(&sn(2)));
    rp.remove_from_unsent_set_all_before(sn(5));
    assert!(!rp.unsent_changes_debug().contains(&sn(4)));
}

#[test]
fn gaps_go_when_they_are_acknowledged() {
    let mut rp = test_proxy();
    rp.insert_pending_gap(sn(2));
    rp.insert_pending_gap(sn(7));
    assert_eq!(rp.get_pending_gap(), vec![sn(2), sn(7)]);
    rp.handle_ack_nack(&acknack(sn(5)), sn(10));
    assert_eq!(rp.get_pending_gap(), vec![sn(7)]);
}

#[test]
fn requested_fragments_are_walked_in_order() {
    let mut rp = test_proxy();
    assert!(!rp.repair_frags_requested());
    let wanted = FragmentNumberSet {
        base: FragmentNumber::new(1),
        members: vec![FragmentNumber::new(2), FragmentNumber::new(70)],
    };
    rp.mark_frags_requested(sn(3), &wanted);
    assert!(rp.repair_frags_requested());
    let mut it = rp.frags_requested_iterator();
    assert_eq!(it.next(), Some((sn(3), FragmentNumber::new(2))));
    assert_eq!(it.next(), Some((sn(3), FragmentNumber::new(70))));
    assert_eq!(it.next(), None);
    rp.mark_frag_sent(sn(3), &FragmentNumber::new(2));
    let mut it = rp.frags_requested_iterator();
    assert_eq!(it.next(), Some((sn(3), FragmentNumber::new(70))));
    rp.mark_frag_sent(sn(3), &FragmentNumber::new(70));
    assert!(!rp.repair_frags_requested());
}

#[test]
fn request_for_fragments_acknowledges_nothing() {
    let mut rp = test_proxy();
    rp.notify_new_cache_change(sn(1));
    let before = rp.acked_up_to_before();
    let wanted = NackFrag {
        reader_id: EntityId::unknown(),
        writer_id: EntityId::unknown(),
        writer_sn: sn(1),
        fragment_number_state: FragmentNumberSet {
            base: FragmentNumber::new(1),
            members: vec![FragmentNumber::new(1)],
        },
        count: 1,
    };
    rp.handle_ack_nack(&AckSubmessage::NackFrag(wanted), sn(1));
    assert_eq!(rp.acked_up_to_before(), before);
    assert_eq!(rp.unsent_changes_debug(), vec![sn(1)]);
}

#[test]
fn all_fragments_of_a_sample_can_be_requested() {
    let mut rp = test_proxy();
    rp.mark_all_frags_requested(sn(9), 3);
    let mut it = rp.frags_requested_iterator();
    assert_eq!(it.next(), Some((sn(9), FragmentNumber::new(1))));
    assert_eq!(it.next(), Some((sn(9), FragmentNumber::new(2))));
    assert_eq!(it.next(), Some((sn(9), FragmentNumber::new(3))));
    assert_eq!(it.next(), None);
}

#[test]
fn local_reader_is_reached_at_own_listeners() {
    let guid = GUID::new(
        GuidPrefix::new(&[3; 12]),
        EntityId::new([0, 0, 1], rustdds::structure::guid::EntityKind::reader_no_key_user_defined()),
    );
    let mut own: HashMap<usize, Vec<Locator>> = HashMap::new();
    own.insert(USER_TRAFFIC_LISTENER_TOKEN, vec![udp([10, 0, 0, 1], 7411)]);
    own.insert(DISCOVERY_LISTENER_TOKEN, vec![udp([10, 0, 0, 1], 7410)]);
    own.insert(USER_TRAFFIC_MUL_LISTENER_TOKEN, vec![udp([239, 255, 0, 1], 7401)]);
    let rp = RtpsReaderProxy::from_reader(guid, QosPolicies::qos_none(), &own);
    assert_eq!(rp.unicast_locator_list, vec![udp([10, 0, 0, 1], 7411)]);
    assert_eq!(rp.multicast_locator_list, vec![udp([239, 255, 0, 1], 7401)]);
}

#[test]
fn discovered_reader_takes_defaults_where_it_announced_nothing() {
    let guid = GUID::new(GuidPrefix::new(&[3; 12]), EntityId::unknown());
    let found = DiscoveredReaderData {
        reader_proxy: ReaderProxy {
            remote_reader_guid: guid,
            expects_inline_qos: true,
            unicast_locator_list: vec![],
            multicast_locator_list: vec![udp([239, 255, 0, 1], 7401)],
        },
        qos: QosPolicies::qos_none(),
    };
    let rp = RtpsReaderProxy::from_discovered_reader_data(
        &found,
        &vec![udp([10, 0, 0, 9], 7411)],
        &vec![],
    );
    assert_eq!(rp.remote_reader_guid, guid);
    assert!(rp.expects_inline_qos());
    assert_eq!(rp.unicast_locator_list, vec![udp([10, 0, 0, 9], 7411)]);
    assert_eq!(rp.multicast_locator_list, vec![udp([239, 255, 0, 1], 7401)]);
}

#[test]
fn path_mtu_follows_the_route() {
    let prefix = GuidPrefix::new(&[9; 12]);
    let mut rp = proxy_with_prefix(prefix);
    rp.unicast_locator_list = vec![udp([10, 0, 0, 5], 7410)];
    let table = vec![IfAddr {
        ip: IpAddr::V4(Ipv4Addr::new(10, 0, 0, 1)),
        index: 1,
        is_loopback: false,
        is_multicast: true,
        netmask: Some(Ipv4Addr::new(255, 255, 255, 0)),
        mtu: Some(9000),
    }];
    assert_eq!(rp.max_datagram_payload(), FALLBACK_MAX_AGGREGATED_DATAGRAM_SIZE);
    let mut observations = InterfaceObservations::new();
    observations.record(
        prefix,
        None,
        SocketAddr::new(IpAddr::V4(Ipv4Addr::new(10, 0, 0, 5)), 7410),
    );
    rp.resolve_send_route(&observations, &vec![], &DefaultRouteSelector::default());
    rp.resolve_path_mtu(&table);
    assert_eq!(rp.max_datagram_payload(), 9000 - 48);
    observations.remove(prefix);
    rp.resolve_send_route(&observations, &vec![], &DefaultRouteSelector::default());
    assert!(rp.send_route().fallback);
}

#[test]
fn loopback_is_not_taken_where_it_is_not_preferred() {
    let prefix = GuidPrefix::new(&[8; 12]);
    let mut rp = proxy_with_prefix(prefix);
    rp.unicast_locator_list = vec![udp([10, 0, 0, 5], 7413)];
    rp.loopback_unicast_locators = vec![udp([127, 0, 0, 1], 7413)];
    let mut observations = InterfaceObservations::new();
    observations.record(
        prefix,
        None,
        SocketAddr::new(IpAddr::V4(Ipv4Addr::localhost()), 7410),
    );
    rp.resolve_send_route(&observations, &vec![], &DefaultRouteSelector::new(false));
    assert!(rp.send_route().fallback);
}

#[test]
fn update_takes_over_loopback_locators() {
    let prefix = GuidPrefix::new(&[7; 12]);
    let mut rp = proxy_with_prefix(prefix);
    rp.unicast_locator_list = vec![udp([10, 0, 0, 5], 7413)];
    rp.loopback_unicast_locators = vec![udp([127, 0, 0, 1], 7411)];
    rp.notify_new_cache_change(sn(4));
    let mut update = proxy_with_prefix(prefix);
    update.unicast_locator_list = vec![udp([10, 0, 0, 5], 7413)];
    update.loopback_unicast_locators = vec![udp([127, 0, 0, 1], 7413)];
    rp.update(&update);
    assert_eq!(rp.unicast_locator_list, update.unicast_locator_list);
    assert_eq!(rp.loopback_unicast_locators, update.loopback_unicast_locators);
    assert_eq!(rp.unsent_changes_debug(), vec![sn(4)]);
}
