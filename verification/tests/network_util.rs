use rustdds::network::constant::{
    has_multicast_ports, has_unicast_ports, spdp_well_known_multicast_port,
    spdp_well_known_unicast_port, user_traffic_multicast_port, user_traffic_unicast_port,
};
use rustdds::network::util::{
    build_ifindex_map_inner, build_ifindex_to_interface_map, enumerate_interfaces,
    get_local_multicast_ip_addrs_filtered, get_local_multicast_ip_addrs_inner,
    get_local_multicast_locators, get_local_unicast_locators_filtered,
    get_local_unicast_locators_inner, local_interface_table, localhost_spdp_peer_locators,
    path_mtu_payload_for_peer, IfAddr, Interface,
};
use rustdds::rtps::constant::{payload_budget_for_mtu, FALLBACK_MAX_AGGREGATED_DATAGRAM_SIZE};
use rustdds::rtps::transmit::InterfaceSelector;
use rustdds::structure::locator::{IpAddr, Ipv4Addr, Ipv6Addr, Locator, SocketAddr};

fn v4(a: u8, b: u8, c: u8, d: u8) -> IpAddr {
    IpAddr::V4(Ipv4Addr::new(a, b, c, d))
}

fn v6_localhost() -> IpAddr {
    IpAddr::V6(Ipv6Addr { high: 0, low: 1 })
}

fn iface(ip: IpAddr, index: u32, is_loopback: bool, is_multicast: bool) -> IfAddr {
    IfAddr { ip, index, is_loopback, is_multicast, netmask: None, mtu: None }
}

fn iface_v4(a: u8, b: u8, c: u8, d: u8, prefix: u8, mtu: u32, is_loopback: bool) -> IfAddr {
    let mask = if prefix == 0 { 0u32 } else { u32::MAX << (32 - u32::from(prefix)) };
    IfAddr {
        ip: v4(a, b, c, d),
        index: 1,
        is_loopback,
        is_multicast: !is_loopback,
        netmask: Some(Ipv4Addr { bits: mask }),
        mtu: Some(mtu),
    }
}

#[test]
fn test_get_local_multicast_ip_addrs() {
    let ifaces = vec![
        iface(IpAddr::V4(Ipv4Addr::localhost()), 0, true, false),
        iface(v6_localhost(), 0, true, false),
        iface(v4(192, 168, 0, 137), 1, false, true),
        iface(IpAddr::V6(Ipv6Addr { high: 0xfd73_40a2_1c3e_0000, low: 0 }), 1, false, true),
    ];

    let ips = get_local_multicast_ip_addrs_inner(&ifaces, None);

    assert_eq!(ips.len(), 1, "should only contain the non-loopback iface");
    assert!(ips.contains(&v4(192, 168, 0, 137)));
}

#[test]
fn no_multicast() {
    // Whatever the last part of each address is.
    for last in 0..=255u8 {
        let mut ifaces = Vec::new();
        for index in 0..10 {
            let last = last.wrapping_add(index as u8 * 23);
            ifaces.push(iface(v4(192, 168, 0, last), index + 1, false, false));
        }

        let ips = get_local_multicast_ip_addrs_inner(&ifaces, None);
        assert!(ips.is_empty(), "we only want interfaces w/ multicast support");
    }
}

#[test]
fn empty_interfaces() {
    let ips = get_local_multicast_ip_addrs_inner(&vec![], None);
    assert!(ips.is_empty(), "blank iface list should result in empty list of ips");
}

#[test]
fn multicast_filter_respects_only_networks() {
    let ifaces = vec![
        iface(v4(192, 168, 0, 10), 1, false, true),
        iface(v4(10, 0, 0, 10), 2, false, true),
    ];

    let only_networks = vec![v4(10, 0, 0, 10)];
    let ips = get_local_multicast_ip_addrs_inner(&ifaces, Some(&only_networks));

    assert_eq!(ips, vec![v4(10, 0, 0, 10)]);
}

#[test]
fn unicast_filter_respects_only_networks() {
    let only_networks = vec![v4(10, 0, 0, 10)];
    let ifaces = vec![
        iface(v4(192, 168, 0, 10), 1, false, true),
        iface(v4(10, 0, 0, 10), 2, false, true),
    ];

    let filtered = get_local_unicast_locators_inner(&ifaces, 7412, Some(&only_networks));

    assert_eq!(filtered, vec![Locator::from(SocketAddr::new(v4(10, 0, 0, 10), 7412))]);
}

#[test]
fn ifindex_map_prefers_ipv4_and_skips_index_zero() {
    let ifaces = vec![
        iface(IpAddr::V4(Ipv4Addr::localhost()), 0, true, false),
        iface(IpAddr::V6(Ipv6Addr { high: 0xfe80_0000_0000_0000, low: 1 }), 3, false, true),
        iface(v4(10, 0, 0, 7), 3, false, true),
    ];

    let map = build_ifindex_map_inner(&ifaces);
    assert!(!map.contains_key(&0), "index 0 must be skipped");
    assert_eq!(
        map.get(&3),
        Some(&InterfaceSelector::Ip(v4(10, 0, 0, 7))),
        "should prefer the IPv4 address"
    );
}

#[test]
fn path_mtu_same_subnet_uses_iface_mtu() {
    let ifaces = vec![
        iface_v4(127, 0, 0, 1, 8, 16384, true),
        iface_v4(192, 168, 1, 10, 24, 1500, false),
    ];
    assert_eq!(path_mtu_payload_for_peer(&ifaces, v4(192, 168, 1, 55)), 1500 - 48);
}

#[test]
fn path_mtu_loopback_peer_uses_loopback_mtu() {
    let ifaces = vec![
        iface_v4(127, 0, 0, 1, 8, 16384, true),
        iface_v4(192, 168, 1, 10, 24, 1500, false),
    ];
    assert_eq!(path_mtu_payload_for_peer(&ifaces, v4(127, 0, 0, 1)), 16384 - 48);
}

#[test]
fn path_mtu_behind_router_uses_default() {
    let ifaces = vec![iface_v4(192, 168, 1, 10, 24, 1500, false)];
    assert_eq!(
        path_mtu_payload_for_peer(&ifaces, v4(10, 20, 30, 40)),
        FALLBACK_MAX_AGGREGATED_DATAGRAM_SIZE
    );
}

#[test]
fn path_mtu_ipv6_peer_uses_default() {
    let ifaces = vec![iface_v4(192, 168, 1, 10, 24, 9000, false)];
    assert_eq!(
        path_mtu_payload_for_peer(&ifaces, v6_localhost()),
        FALLBACK_MAX_AGGREGATED_DATAGRAM_SIZE
    );
}

#[test]
fn path_mtu_jumbo_frame() {
    let ifaces = vec![iface_v4(10, 0, 0, 1, 8, 9000, false)];
    assert_eq!(path_mtu_payload_for_peer(&ifaces, v4(10, 1, 2, 3)), 9000 - 48);
}

#[test]
fn path_mtu_empty_table_uses_default() {
    assert_eq!(
        path_mtu_payload_for_peer(&vec![], v4(192, 168, 1, 1)),
        FALLBACK_MAX_AGGREGATED_DATAGRAM_SIZE
    );
}

#[test]
fn localhost_spdp_peers_cover_range_excluding_self() {
    let domain = 0;
    let own = 2;
    let peers = localhost_spdp_peer_locators(domain, own, 4);
    let expected: Vec<Locator> = [0u16, 1, 3]
        .iter()
        .map(|pid| {
            Locator::from(SocketAddr::new(
                IpAddr::V4(Ipv4Addr::localhost()),
                spdp_well_known_unicast_port(domain, *pid),
            ))
        })
        .collect();
    assert_eq!(peers, expected);
    assert!(peers.iter().all(|l| l.socket_addr().unwrap().ip().is_loopback()));
}

#[test]
fn well_known_ports() {
    assert_eq!(spdp_well_known_multicast_port(0), 7400);
    assert_eq!(spdp_well_known_unicast_port(0, 1), 7412);
    assert_eq!(user_traffic_multicast_port(1), 7651);
    assert_eq!(user_traffic_unicast_port(5, 0), 8661);
}

#[test]
fn payload_budget_leaves_room_for_headers() {
    assert_eq!(payload_budget_for_mtu(1500), FALLBACK_MAX_AGGREGATED_DATAGRAM_SIZE);
    assert_eq!(payload_budget_for_mtu(47), 0);
}

#[test]
fn interfaces_are_listed_address_by_address() {
    let loopback = Interface {
        index: 1,
        is_loopback: true,
        is_multicast: false,
        mtu: Some(65536),
        ipv4: vec![(Ipv4Addr::localhost(), Ipv4Addr::new(255, 0, 0, 0))],
        ipv6: vec![Ipv6Addr { high: 0, low: 1 }],
    };
    let list = enumerate_interfaces(&vec![loopback]);
    assert_eq!(list.len(), 2);
    assert_eq!(list[0].ip, IpAddr::V4(Ipv4Addr::localhost()));
    assert_eq!(list[0].netmask, Some(Ipv4Addr::new(255, 0, 0, 0)));
    assert_eq!(list[1].ip, v6_localhost());
    assert_eq!(list[1].netmask, None);
    assert_eq!(list[1].mtu, Some(65536));
    assert_eq!(local_interface_table(None), vec![]);
    assert_eq!(local_interface_table(Some(vec![list[0]])), vec![list[0]]);
}

#[test]
fn failed_enumeration_gives_nothing() {
    assert_eq!(get_local_unicast_locators_filtered(None, 7411, None), vec![]);
    assert_eq!(get_local_multicast_ip_addrs_filtered(None, None), None);
    assert!(build_ifindex_to_interface_map(None).is_empty());
}

#[test]
fn multicast_group_is_the_same_on_every_port() {
    assert_eq!(
        get_local_multicast_locators(7400),
        vec![Locator::from(SocketAddr::new(v4(239, 255, 0, 1), 7400))]
    );
}

#[test]
fn ports_of_participants_differ() {
    let mut ports = vec![spdp_well_known_multicast_port(3), user_traffic_multicast_port(3)];
    for pid in 0..120 {
        ports.push(spdp_well_known_unicast_port(3, pid));
        ports.push(user_traffic_unicast_port(3, pid));
    }
    let count = ports.len();
    ports.sort();
    ports.dedup();
    assert_eq!(ports.len(), count);
}

#[test]
fn last_domain_has_ports_for_its_first_participants() {
    assert!(has_multicast_ports(232));
    assert!(!has_multicast_ports(233));
    assert!(has_unicast_ports(0, 0));
    assert!(has_unicast_ports(231, 119));
    assert!(has_unicast_ports(232, 62));
    assert!(!has_unicast_ports(232, 63));
    assert!(!has_unicast_ports(u16::MAX, u16::MAX));
    assert_eq!(spdp_well_known_unicast_port(232, 62), 65534);
    assert_eq!(user_traffic_unicast_port(232, 62), 65535);
}
