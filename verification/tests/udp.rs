use std::collections::HashMap;

use bytes::Bytes;
use rustdds::network::udp_listener::{
    padding_needed_for_alignment_4, PacketInfo, PacketOrigin, Received, UDPListener,
    MAX_MESSAGE_SIZE,
};
use rustdds::network::udp_sender::{
    blocked_sockets, bulk_send_one, raw_send_outcome, UDPSender,
};
use rustdds::network::util::IfAddr;
use rustdds::rtps::outbound::{SendOutcome, SocketId};
use rustdds::rtps::transmit::InterfaceSelector;
use rustdds::structure::locator::{IpAddr, Ipv4Addr, Locator, SocketAddr};

fn ip(a: u8, b: u8, c: u8, d: u8) -> IpAddr {
    IpAddr::V4(Ipv4Addr::new(a, b, c, d))
}

fn locator(a: u8, b: u8, c: u8, d: u8, port: u16) -> Locator {
    Locator::from(SocketAddr::new(ip(a, b, c, d), port))
}

#[test]
fn received_datagrams_are_cut_out_and_padded() {
    let mut l = UDPListener::new_unicast_with_buf_size(HashMap::new());
    let mut messages: Vec<(Bytes, PacketOrigin)> = Vec::new();
    let origin = PacketOrigin {
        source: Some(SocketAddr::new(ip(10, 0, 0, 1), 7410)),
        local_if: None,
    };
    {
        let space = l.receive_space();
        assert_eq!(space.len(), MAX_MESSAGE_SIZE);
        space[..5].copy_from_slice(&[1, 2, 3, 4, 5]);
    }
    assert!(l.take_received(&mut messages, Received::Datagram { nbytes: 5, origin }));
    {
        let space = l.receive_space();
        space[..4].copy_from_slice(&[9, 8, 7, 6]);
    }
    assert!(l.take_received(&mut messages, Received::Datagram { nbytes: 4, origin }));
    l.receive_space();
    assert!(!l.take_received(&mut messages, Received::WouldBlock));
    assert!(!l.take_received(&mut messages, Received::Failed));
    assert_eq!(messages.len(), 2);
    assert_eq!(&messages[0].0[..5], &[1u8, 2, 3, 4, 5][..]);
    assert_eq!(messages[0].1, origin);
    assert_eq!(&messages[1].0[..], &[9u8, 8, 7, 6][..]);
    assert!(l.receive_buffer.is_empty());
}

#[test]
fn many_datagrams_fit_through_one_buffer() {
    let mut l = UDPListener::new_unicast_with_buf_size(HashMap::new());
    let mut messages: Vec<(Bytes, PacketOrigin)> = Vec::new();
    for i in 0..100u8 {
        assert!(UDPListener::wants_more(messages.len(), 100));
        let space = l.receive_space();
        space[0] = i;
        let received =
            Received::Datagram { nbytes: 8000, origin: PacketOrigin::unknown() };
        assert!(l.take_received(&mut messages, received));
    }
    assert!(!UDPListener::wants_more(messages.len(), 100));
    for (i, (m, _)) in messages.iter().enumerate() {
        assert_eq!(m[0] as usize, i);
        assert_eq!(m.len(), 8000);
    }
}

#[test]
fn padding_fills_up_to_four() {
    assert_eq!(padding_needed_for_alignment_4(0), 0);
    assert_eq!(padding_needed_for_alignment_4(1), 3);
    assert_eq!(padding_needed_for_alignment_4(2), 2);
    assert_eq!(padding_needed_for_alignment_4(3), 1);
    assert_eq!(padding_needed_for_alignment_4(4), 0);
}

#[test]
fn origin_names_the_interface() {
    let mut map = HashMap::new();
    map.insert(3, InterfaceSelector::Ip(ip(10, 0, 0, 7)));
    let l = UDPListener::new_unicast_with_buf_size(map);
    let by_address =
        vec![PacketInfo { ifindex: 3, spec_dst: Ipv4Addr::new(10, 0, 0, 2) }];
    let by_index = vec![PacketInfo { ifindex: 3, spec_dst: Ipv4Addr::unspecified() }];
    assert_eq!(
        l.origin_of(None, &by_address).local_if,
        Some(InterfaceSelector::Ip(ip(10, 0, 0, 2)))
    );
    assert_eq!(
        l.origin_of(None, &by_index).local_if,
        Some(InterfaceSelector::Ip(ip(10, 0, 0, 7)))
    );
    assert_eq!(l.origin_of(None, &vec![]), PacketOrigin::unknown());
}

#[test]
fn listener_tells_where_it_is_reached() {
    let group = Ipv4Addr::new(239, 255, 0, 1);
    assert!(UDPListener::new_multicast_with_buf_size(
        Ipv4Addr::new(10, 0, 0, 1),
        &vec![true],
        HashMap::new()
    )
    .is_none());
    let joined =
        UDPListener::new_multicast_with_buf_size(group, &vec![false, true], HashMap::new()).unwrap();
    assert_eq!(joined.to_locator_address(7400, None, None), vec![locator(239, 255, 0, 1, 7400)]);
    let alone =
        UDPListener::new_multicast_with_buf_size(group, &vec![false], HashMap::new()).unwrap();
    assert!(alone.to_locator_address(7400, None, None).is_empty());
    let unicast = UDPListener::new_unicast_with_buf_size(HashMap::new());
    let iface = IfAddr {
        ip: ip(10, 0, 0, 1),
        index: 1,
        is_loopback: false,
        is_multicast: true,
        netmask: None,
        mtu: None,
    };
    assert_eq!(
        unicast.to_locator_address(7411, Some(vec![iface]), None),
        vec![locator(10, 0, 0, 1, 7411)]
    );
}

#[test]
fn multicast_goes_over_every_interface() {
    let first = InterfaceSelector::Ip(ip(10, 0, 0, 1));
    let second = InterfaceSelector::Ip(ip(10, 0, 1, 1));
    let s = UDPSender::new_with_networks(vec![first, second]);
    assert_eq!(
        s.socket_ids(),
        vec![SocketId::Unicast, SocketId::Multicast(0), SocketId::Multicast(1)]
    );
    assert_eq!(s.multicast_interfaces(), vec![first, second]);
    let group = locator(239, 255, 0, 1, 7400);
    let both = vec![SocketId::Multicast(0), SocketId::Multicast(1)];
    assert_eq!(s.targets_of(&group).unwrap().sockets, both);
    assert_eq!(s.targets_via(&group, &second).unwrap().sockets, vec![SocketId::Multicast(1)]);
    let other = InterfaceSelector::Ip(ip(10, 0, 2, 1));
    assert_eq!(s.targets_via(&group, &other).unwrap().sockets, both);
    let host = locator(10, 0, 0, 9, 7411);
    assert_eq!(s.targets_of(&host).unwrap().sockets, vec![SocketId::Unicast]);
    assert_eq!(s.targets_via(&host, &first).unwrap().addr.port(), 7411);
}

#[test]
fn outcomes_follow_from_what_the_system_says() {
    assert_eq!(raw_send_outcome(true, false), SendOutcome::Sent);
    assert_eq!(raw_send_outcome(false, true), SendOutcome::WouldBlock);
    assert_eq!(raw_send_outcome(false, false), SendOutcome::Dropped);
    assert_eq!(bulk_send_one(false, SendOutcome::Sent), SendOutcome::WouldBlock);
    assert_eq!(bulk_send_one(true, SendOutcome::Sent), SendOutcome::Sent);
    let sockets = vec![SocketId::Unicast, SocketId::Multicast(0), SocketId::Multicast(1)];
    let outcomes = vec![SendOutcome::WouldBlock, SendOutcome::Dropped, SendOutcome::WouldBlock];
    assert_eq!(
        blocked_sockets(&sockets, &outcomes),
        vec![SocketId::Unicast, SocketId::Multicast(1)]
    );
}
