//! The local network interfaces and what can be reached over them.

use std::collections::HashMap;

use vstd::prelude::*;

use crate::network::constant::{spdp_well_known_unicast_port, spec_spdp_well_known_unicast_port};
use crate::rtps::constant::{
    payload_budget_for_mtu, spec_payload_budget_for_mtu, DATAGRAM_HEADER_OVERHEAD,
    FALLBACK_MAX_AGGREGATED_DATAGRAM_SIZE,
};
use crate::rtps::transmit::InterfaceSelector;
use crate::structure::lists::{lemma_pushed, lemma_sifted};
use crate::structure::locator::{
    IpAddr, Ipv4Addr, Ipv6Addr, Locator, SocketAddr, SocketAddrV4, SocketAddrV6,
};

verus! {

/// One address of a network interface.
#[derive(Clone, Copy, Debug, PartialEq, Eq, Structural)]
pub struct IfAddr {
    /// An IP address bound to the interface.
    pub ip: IpAddr,
    /// Index of the interface; zero when unknown.
    pub index: u32,
    pub is_loopback: bool,
    /// Is the interface capable of multicast?
    pub is_multicast: bool,
    /// Subnet mask, of an IPv4 address only.
    pub netmask: Option<Ipv4Addr>,
    /// MTU of the interface in bytes, where it is known.
    pub mtu: Option<u32>,
}

/// A network interface as the operating system lists it.
pub struct Interface {
    pub index: u32,
    pub is_loopback: bool,
    pub is_multicast: bool,
    pub mtu: Option<u32>,
    /// IPv4 addresses with their subnet masks.
    pub ipv4: Vec<(Ipv4Addr, Ipv4Addr)>,
    pub ipv6: Vec<Ipv6Addr>,
}

impl Interface {
    pub open spec fn v4_entry(self, net: (Ipv4Addr, Ipv4Addr)) -> IfAddr {
        IfAddr {
            ip: IpAddr::V4(net.0),
            index: self.index,
            is_loopback: self.is_loopback,
            is_multicast: self.is_multicast,
            netmask: Some(net.1),
            mtu: self.mtu,
        }
    }

    pub open spec fn v6_entry(self, ip: Ipv6Addr) -> IfAddr {
        IfAddr {
            ip: IpAddr::V6(ip),
            index: self.index,
            is_loopback: self.is_loopback,
            is_multicast: self.is_multicast,
            netmask: None,
            mtu: self.mtu,
        }
    }

    /// One entry per address: first those of IPv4, then those of IPv6.
    pub open spec fn entries(self) -> Seq<IfAddr> {
        self.ipv4@.map_values(|net: (Ipv4Addr, Ipv4Addr)| self.v4_entry(net))
            + self.ipv6@.map_values(|ip: Ipv6Addr| self.v6_entry(ip))
    }
}

/// The entries of all interfaces, one interface after the other.
pub open spec fn all_entries(interfaces: Seq<Interface>) -> Seq<IfAddr>
    decreases interfaces.len(),
{
    if interfaces.len() == 0 {
        Seq::empty()
    } else {
        all_entries(interfaces.drop_last()) + interfaces.last().entries()
    }
}

/// Lists the addresses of all interfaces, one entry per address.
pub fn enumerate_interfaces(interfaces: &Vec<Interface>) -> (result: Vec<IfAddr>)
    ensures
        result@ == all_entries(interfaces@),
{
    let mut result: Vec<IfAddr> = Vec::new();
    let mut k: usize = 0;
    while k < interfaces.len()
        invariant
            k <= interfaces@.len(),
            result@ == all_entries(interfaces@.take(k as int)),
        decreases interfaces@.len() - k,
    {
        let iface: &Interface = &interfaces[k];
        let ghost before = result@;
        let ghost v4 = iface.ipv4@.map_values(|net: (Ipv4Addr, Ipv4Addr)| iface.v4_entry(net));
        let ghost v6 = iface.ipv6@.map_values(|ip: Ipv6Addr| iface.v6_entry(ip));
        let mut i: usize = 0;
        while i < iface.ipv4.len()
            invariant
                i <= iface.ipv4@.len(),
                v4 == iface.ipv4@.map_values(|net: (Ipv4Addr, Ipv4Addr)| iface.v4_entry(net)),
                result@ == before + v4.take(i as int),
            decreases iface.ipv4@.len() - i,
        {
            let net: (Ipv4Addr, Ipv4Addr) = iface.ipv4[i];
            result.push(
                IfAddr {
                    ip: IpAddr::V4(net.0),
                    index: iface.index,
                    is_loopback: iface.is_loopback,
                    is_multicast: iface.is_multicast,
                    netmask: Some(net.1),
                    mtu: iface.mtu,
                },
            );
            i += 1;
            assert(v4.take(i as int) =~= v4.take(i - 1).push(v4[i - 1]));
            assert(result@ =~= before + v4.take(i as int));
        }
        let mut j: usize = 0;
        assert(result@ =~= before + v4 + v6.take(0));
        while j < iface.ipv6.len()
            invariant
                j <= iface.ipv6@.len(),
                v6 == iface.ipv6@.map_values(|ip: Ipv6Addr| iface.v6_entry(ip)),
                result@ == before + v4 + v6.take(j as int),
            decreases iface.ipv6@.len() - j,
        {
            result.push(
                IfAddr {
                    ip: IpAddr::V6(iface.ipv6[j]),
                    index: iface.index,
                    is_loopback: iface.is_loopback,
                    is_multicast: iface.is_multicast,
                    netmask: None,
                    mtu: iface.mtu,
                },
            );
            j += 1;
            assert(v6.take(j as int) =~= v6.take(j - 1).push(v6[j - 1]));
            assert(result@ =~= before + v4 + v6.take(j as int));
        }
        k += 1;
        assert(interfaces@.take(k as int).drop_last() =~= interfaces@.take(k - 1));
        assert(v6.take(j as int) =~= v6);
        assert(result@ =~= before + iface.entries());
    }
    assert(interfaces@.take(k as int) =~= interfaces@);
    result
}

/// The table of local interfaces; empty where they could not be listed.
pub fn local_interface_table(enumerated: Option<Vec<IfAddr>>) -> (table: Vec<IfAddr>)
    ensures
        table@ == (match enumerated {
            Some(ifaces) => ifaces@,
            None => Seq::empty(),
        }),
{
    match enumerated {
        Some(ifaces) => ifaces,
        None => Vec::new(),
    }
}

/// Do two IPv4 addresses share the subnet that `mask` defines?
pub open spec fn spec_same_subnet_v4(local: Ipv4Addr, mask: Ipv4Addr, peer: Ipv4Addr) -> bool {
    local.bits & mask.bits == peer.bits & mask.bits
}

fn same_subnet_v4(local: Ipv4Addr, mask: Ipv4Addr, peer: Ipv4Addr) -> (r: bool)
    ensures
        r == spec_same_subnet_v4(local, mask, peer),
{
    (local.bits & mask.bits) == (peer.bits & mask.bits)
}

/// The MTU of an interface entry, where the peer is on its subnet.
pub open spec fn mtu_towards(ifa: IfAddr, peer: Ipv4Addr) -> Option<u32> {
    match (ifa.ip, ifa.netmask) {
        (IpAddr::V4(local), Some(mask)) if spec_same_subnet_v4(local, mask, peer) => ifa.mtu,
        _ => None,
    }
}

/// The MTU of the first interface that has one and reaches the peer in one hop.
pub open spec fn egress_mtu(ifaces: Seq<IfAddr>, peer: Ipv4Addr) -> Option<u32>
    decreases ifaces.len(),
{
    if ifaces.len() == 0 {
        None
    } else if mtu_towards(ifaces[0], peer) is Some {
        mtu_towards(ifaces[0], peer)
    } else {
        egress_mtu(ifaces.skip(1), peer)
    }
}

/// Bytes for submessages in a datagram to a peer: as the MTU of the interface allows
/// that reaches it in one hop, else a conservative default.
pub open spec fn spec_path_mtu_payload_for_peer(ifaces: Seq<IfAddr>, peer_ip: IpAddr) -> int {
    match peer_ip {
        IpAddr::V4(peer) => match egress_mtu(ifaces, peer) {
            Some(mtu) => spec_payload_budget_for_mtu(mtu as int),
            None => FALLBACK_MAX_AGGREGATED_DATAGRAM_SIZE as int,
        },
        IpAddr::V6(_) => FALLBACK_MAX_AGGREGATED_DATAGRAM_SIZE as int,
    }
}

pub fn path_mtu_payload_for_peer(ifaces: &Vec<IfAddr>, peer_ip: IpAddr) -> (n: usize)
    ensures
        n == spec_path_mtu_payload_for_peer(ifaces@, peer_ip),
{
    if let IpAddr::V4(peer) = peer_ip {
        let mut i: usize = 0;
        assert(ifaces@.skip(0) =~= ifaces@);
        while i < ifaces.len()
            invariant
                i <= ifaces@.len(),
                peer_ip == IpAddr::V4(peer),
                egress_mtu(ifaces@, peer) == egress_mtu(ifaces@.skip(i as int), peer),
            decreases ifaces@.len() - i,
        {
            let ifa: IfAddr = ifaces[i];
            assert(ifaces@.skip(i as int)[0] == ifa);
            assert(ifaces@.skip(i as int).skip(1) =~= ifaces@.skip(i + 1));
            match (ifa.ip, ifa.netmask) {
                (IpAddr::V4(local), Some(mask)) => {
                    if same_subnet_v4(local, mask, peer) {
                        if let Some(mtu) = ifa.mtu {
                            return payload_budget_for_mtu(mtu);
                        }
                    }
                },
                _ => {},
            }
            i += 1;
        }
    }
    FALLBACK_MAX_AGGREGATED_DATAGRAM_SIZE
}

/// The multicast locator on which the participants of a domain listen.
pub fn get_local_multicast_locators(port: u16) -> (r: Vec<Locator>)
    ensures
        r@ == seq![
            Locator::UdpV4(
                SocketAddrV4 {
                    ip: Ipv4Addr { bits: 0xEFFF_0001 },
                    port,
                },
            ),
        ],
{
    let group: Ipv4Addr = Ipv4Addr::new(239, 255, 0, 1);
    let mut r: Vec<Locator> = Vec::new();
    r.push(Locator::from(SocketAddr::new(IpAddr::V4(group), port)));
    r
}

/// Where participant number `pid` on this host hears unicast discovery.
pub open spec fn localhost_spdp_peer(domain_id: int, pid: int) -> Locator {
    Locator::UdpV4(
        SocketAddrV4 {
            ip: Ipv4Addr::localhost(),
            port: spec_spdp_well_known_unicast_port(domain_id, pid) as u16,
        },
    )
}

/// Where the participants with numbers below `max` hear unicast discovery on this host,
/// without number `own`.
pub open spec fn localhost_spdp_peers(domain_id: int, own: int, max: int) -> Seq<Locator>
    decreases max,
{
    if max <= 0 {
        Seq::empty()
    } else if max - 1 == own {
        localhost_spdp_peers(domain_id, own, max - 1)
    } else {
        localhost_spdp_peers(domain_id, own, max - 1).push(localhost_spdp_peer(domain_id, max - 1))
    }
}

/// Lists where the other participants on this host may hear unicast discovery, so that
/// they are found without any external network.
pub fn localhost_spdp_peer_locators(
    domain_id: u16,
    own_participant_id: u16,
    max_participants: u16,
) -> (r: Vec<Locator>)
    requires
        forall|pid: int|
            0 <= pid < max_participants && pid != own_participant_id
                ==> #[trigger] spec_spdp_well_known_unicast_port(domain_id as int, pid) <= u16::MAX,
    ensures
        r@ == localhost_spdp_peers(
            domain_id as int,
            own_participant_id as int,
            max_participants as int,
        ),
{
    let mut r: Vec<Locator> = Vec::new();
    let mut pid: u16 = 0;
    while pid < max_participants
        invariant
            pid <= max_participants,
            forall|pid: int|
                0 <= pid < max_participants && pid != own_participant_id
                    ==> #[trigger] spec_spdp_well_known_unicast_port(domain_id as int, pid)
                    <= u16::MAX,
            r@ == localhost_spdp_peers(domain_id as int, own_participant_id as int, pid as int),
        decreases max_participants - pid,
    {
        if pid != own_participant_id {
            assert(spec_spdp_well_known_unicast_port(domain_id as int, pid as int) <= u16::MAX);
            let port: u16 = spdp_well_known_unicast_port(domain_id, pid);
            r.push(Locator::from(SocketAddr::new(IpAddr::V4(Ipv4Addr::localhost()), port)));
        }
        pid += 1;
    }
    r
}

/// Is the address among those that the application wants to use?
pub open spec fn wanted(only_networks: Option<Seq<IpAddr>>, ip: IpAddr) -> bool {
    match only_networks {
        None => true,
        Some(nets) => nets.contains(ip),
    }
}

/// The addresses that the application wants to use, if it said so.
pub open spec fn nets_of(only_networks: Option<&Vec<IpAddr>>) -> Option<Seq<IpAddr>> {
    match only_networks {
        None => None,
        Some(nets) => Some(nets@),
    }
}

fn is_wanted(only_networks: Option<&Vec<IpAddr>>, ip: IpAddr) -> (r: bool)
    ensures
        r == wanted(nets_of(only_networks), ip),
{
    match only_networks {
        None => true,
        Some(nets) => {
            let mut i: usize = 0;
            while i < nets.len()
                invariant
                    i <= nets@.len(),
                    nets_of(only_networks) == Some(nets@),
                    forall|j: int| 0 <= j < i ==> nets@[j] != ip,
                decreases nets@.len() - i,
            {
                if nets[i] == ip {
                    assert(nets@[i as int] == ip);
                    return true;
                }
                i += 1;
            }
            false
        },
    }
}

/// The unicast locators of a participant: one per wanted interface address, in the order
/// of the interfaces.
pub open spec fn unicast_locators(
    ifaces: Seq<IfAddr>,
    port: u16,
    only_networks: Option<Seq<IpAddr>>,
) -> Seq<Locator> {
    ifaces.filter(|ifa: IfAddr| wanted(only_networks, ifa.ip)).map_values(
        |ifa: IfAddr| Locator::spec_from_socket_addr(SocketAddr::spec_new(ifa.ip, port)),
    )
}

pub fn get_local_unicast_locators_inner(
    ifaces: &Vec<IfAddr>,
    port: u16,
    only_networks: Option<&Vec<IpAddr>>,
) -> (r: Vec<Locator>)
    ensures
        r@ == unicast_locators(ifaces@, port, nets_of(only_networks)),
{
    let ghost nets = nets_of(only_networks);
    let ghost keep = |ifa: IfAddr| wanted(nets, ifa.ip);
    let mut r: Vec<Locator> = Vec::new();
    let mut i: usize = 0;
    assert(ifaces@.take(0) =~= Seq::empty());
    assert(unicast_locators(ifaces@.take(0), port, nets) =~= Seq::empty()) by {
        reveal(Seq::filter);
    }
    while i < ifaces.len()
        invariant
            i <= ifaces@.len(),
            nets == nets_of(only_networks),
            keep == (|ifa: IfAddr| wanted(nets, ifa.ip)),
            r@ == unicast_locators(ifaces@.take(i as int), port, nets),
        decreases ifaces@.len() - i,
    {
        let ifa: IfAddr = ifaces[i];
        let ghost before = r@;
        if is_wanted(only_networks, ifa.ip) {
            r.push(Locator::from(SocketAddr::new(ifa.ip, port)));
        }
        i += 1;
        proof {
            let shorter = ifaces@.take(i - 1);
            let longer = ifaces@.take(i as int);
            assert(longer.drop_last() =~= shorter);
            assert(longer.last() == ifa);
            reveal(Seq::filter);
            assert(longer.filter(keep) == (if keep(ifa) {
                shorter.filter(keep).push(ifa)
            } else {
                shorter.filter(keep)
            }));
            assert(r@ =~= unicast_locators(longer, port, nets));
        }
    }
    assert(ifaces@.take(i as int) =~= ifaces@);
    r
}

/// The unicast locators of a participant; none where the interfaces could not be listed.
pub fn get_local_unicast_locators_filtered(
    enumerated: Option<Vec<IfAddr>>,
    port: u16,
    only_networks: Option<&Vec<IpAddr>>,
) -> (r: Vec<Locator>)
    ensures
        r@ == (match enumerated {
            Some(ifaces) => unicast_locators(ifaces@, port, nets_of(only_networks)),
            None => Seq::empty(),
        }),
{
    match enumerated {
        Some(ifaces) => get_local_unicast_locators_inner(&ifaces, port, only_networks),
        None => Vec::new(),
    }
}

/// Can multicast go out over this interface address, and is it wanted?
pub open spec fn multicasts(ifa: IfAddr, only_networks: Option<Seq<IpAddr>>) -> bool {
    ifa.is_multicast && wanted(only_networks, ifa.ip) && ifa.ip is V4
}

/// The addresses to multicast from, in the order of the interfaces.
pub open spec fn multicast_ip_addrs(
    ifaces: Seq<IfAddr>,
    only_networks: Option<Seq<IpAddr>>,
) -> Seq<IpAddr> {
    ifaces.filter(|ifa: IfAddr| multicasts(ifa, only_networks)).map_values(|ifa: IfAddr| ifa.ip)
}

pub fn get_local_multicast_ip_addrs_inner(
    ifaces: &Vec<IfAddr>,
    only_networks: Option<&Vec<IpAddr>>,
) -> (r: Vec<IpAddr>)
    ensures
        r@ == multicast_ip_addrs(ifaces@, nets_of(only_networks)),
{
    let ghost nets = nets_of(only_networks);
    let ghost keep = |ifa: IfAddr| multicasts(ifa, nets);
    let mut r: Vec<IpAddr> = Vec::new();
    let mut i: usize = 0;
    assert(multicast_ip_addrs(ifaces@.take(0), nets) =~= Seq::empty()) by {
        assert(ifaces@.take(0) =~= Seq::empty());
        reveal(Seq::filter);
    }
    while i < ifaces.len()
        invariant
            i <= ifaces@.len(),
            nets == nets_of(only_networks),
            keep == (|ifa: IfAddr| multicasts(ifa, nets)),
            r@ == multicast_ip_addrs(ifaces@.take(i as int), nets),
        decreases ifaces@.len() - i,
    {
        let ifa: IfAddr = ifaces[i];
        let v4: bool = match ifa.ip {
            IpAddr::V4(_) => true,
            IpAddr::V6(_) => false,
        };
        if ifa.is_multicast && is_wanted(only_networks, ifa.ip) && v4 {
            r.push(ifa.ip);
        }
        i += 1;
        proof {
            let shorter = ifaces@.take(i - 1);
            let longer = ifaces@.take(i as int);
            assert(longer.drop_last() =~= shorter);
            assert(longer.last() == ifa);
            reveal(Seq::filter);
            assert(longer.filter(keep) == (if keep(ifa) {
                shorter.filter(keep).push(ifa)
            } else {
                shorter.filter(keep)
            }));
            assert(r@ =~= multicast_ip_addrs(longer, nets));
        }
    }
    assert(ifaces@.take(i as int) =~= ifaces@);
    r
}

/// The addresses to multicast from; `None` where the interfaces could not be listed.
pub fn get_local_multicast_ip_addrs_filtered(
    enumerated: Option<Vec<IfAddr>>,
    only_networks: Option<&Vec<IpAddr>>,
) -> (r: Option<Vec<IpAddr>>)
    ensures
        r is Some <==> enumerated is Some,
        r matches Some(addrs) ==> addrs@ == multicast_ip_addrs(
            enumerated->0@,
            nets_of(only_networks),
        ),
{
    match enumerated {
        Some(ifaces) => Some(get_local_multicast_ip_addrs_inner(&ifaces, only_networks)),
        None => None,
    }
}

/// Which interface stands for each index: the first address that has the index, but an
/// IPv4 address in place of one of IPv6. Index zero stands for no interface.
pub open spec fn ifindex_map(ifaces: Seq<IfAddr>) -> Map<u32, InterfaceSelector>
    decreases ifaces.len(),
{
    if ifaces.len() == 0 {
        Map::empty()
    } else {
        let map = ifindex_map(ifaces.drop_last());
        let ifa = ifaces.last();
        let better = !map.contains_key(ifa.index) || (ifa.ip is V4 && map[ifa.index]->Ip_0 is V6);
        if ifa.index != 0 && better {
            map.insert(ifa.index, InterfaceSelector::Ip(ifa.ip))
        } else {
            map
        }
    }
}

pub fn build_ifindex_map_inner(ifaces: &Vec<IfAddr>) -> (map: HashMap<u32, InterfaceSelector>)
    ensures
        map@ == ifindex_map(ifaces@),
{
    broadcast use vstd::std_specs::hash::group_hash_axioms;

    let mut map: HashMap<u32, InterfaceSelector> = HashMap::new();
    let mut i: usize = 0;
    assert(ifaces@.take(0) =~= Seq::empty());
    while i < ifaces.len()
        invariant
            i <= ifaces@.len(),
            map@ == ifindex_map(ifaces@.take(i as int)),
        decreases ifaces@.len() - i,
    {
        let ifa: IfAddr = ifaces[i];
        i += 1;
        assert(ifaces@.take(i as int).drop_last() =~= ifaces@.take(i - 1));
        assert(ifaces@.take(i as int).last() == ifa);
        if ifa.index != 0 {
            let better: bool = match map.get(&ifa.index) {
                None => true,
                Some(InterfaceSelector::Ip(existing)) => match (ifa.ip, existing) {
                    (IpAddr::V4(_), IpAddr::V6(_)) => true,
                    _ => false,
                },
            };
            if better {
                map.insert(ifa.index, InterfaceSelector::Ip(ifa.ip));
            }
        }
    }
    assert(ifaces@.take(i as int) =~= ifaces@);
    map
}

/// Which interface stands for each index; none where the interfaces could not be listed.
pub fn build_ifindex_to_interface_map(
    enumerated: Option<Vec<IfAddr>>,
) -> (map: HashMap<u32, InterfaceSelector>)
    ensures
        map@ == (match enumerated {
            Some(ifaces) => ifindex_map(ifaces@),
            None => Map::empty(),
        }),
{
    broadcast use vstd::std_specs::hash::group_hash_axioms;

    match enumerated {
        Some(ifaces) => build_ifindex_map_inner(&ifaces),
        None => HashMap::new(),
    }
}

/// The entry leads straight to the peer, over a link of known size.
pub open spec fn leads_to(ifa: IfAddr, peer: Ipv4Addr) -> bool {
    &&& ifa.mtu is Some
    &&& ifa.ip matches IpAddr::V4(local) && ifa.netmask matches Some(mask) && local.bits & mask.bits
        == peer.bits & mask.bits
}

/// A datagram to a peer on one of the local subnets is sized by the link of the first
/// interface that leads there, headers included; any other by the conservative default.
pub proof fn law_datagram_fits_the_link(ifaces: Seq<IfAddr>, peer: Ipv4Addr, other: Ipv6Addr)
    ensures
        spec_path_mtu_payload_for_peer(ifaces, IpAddr::V6(other))
            == FALLBACK_MAX_AGGREGATED_DATAGRAM_SIZE,
        (forall|i: int| 0 <= i < ifaces.len() ==> !leads_to(#[trigger] ifaces[i], peer))
            ==> spec_path_mtu_payload_for_peer(ifaces, IpAddr::V4(peer))
            == FALLBACK_MAX_AGGREGATED_DATAGRAM_SIZE,
        forall|i: int|
            0 <= i < ifaces.len() && leads_to(#[trigger] ifaces[i], peer) && (forall|j: int|
                0 <= j < i ==> !leads_to(#[trigger] ifaces[j], peer)) ==> {
                let n = spec_path_mtu_payload_for_peer(ifaces, IpAddr::V4(peer));
                let mtu = ifaces[i].mtu->0;
                if mtu >= DATAGRAM_HEADER_OVERHEAD {
                    n + DATAGRAM_HEADER_OVERHEAD == mtu
                } else {
                    n == 0
                }
            },
{
    lemma_egress_mtu(ifaces, peer);
}

proof fn lemma_egress_mtu(ifaces: Seq<IfAddr>, peer: Ipv4Addr)
    ensures
        egress_mtu(ifaces, peer) is None <==> forall|i: int|
            0 <= i < ifaces.len() ==> !leads_to(#[trigger] ifaces[i], peer),
        forall|i: int|
            0 <= i < ifaces.len() && leads_to(#[trigger] ifaces[i], peer) && (forall|j: int|
                0 <= j < i ==> !leads_to(#[trigger] ifaces[j], peer)) ==> egress_mtu(ifaces, peer)
                == ifaces[i].mtu,
    decreases ifaces.len(),
{
    if ifaces.len() > 0 {
        let rest = ifaces.skip(1);
        lemma_egress_mtu(rest, peer);
        assert(mtu_towards(ifaces[0], peer) is Some <==> leads_to(ifaces[0], peer));
        if leads_to(ifaces[0], peer) {
            assert(egress_mtu(ifaces, peer) == ifaces[0].mtu);
        } else {
            assert forall|i: int|
                0 <= i < ifaces.len() && leads_to(#[trigger] ifaces[i], peer) && (forall|j: int|
                    0 <= j < i ==> !leads_to(#[trigger] ifaces[j], peer)) implies egress_mtu(
                ifaces,
                peer,
            ) == ifaces[i].mtu by {
                assert(rest[i - 1] == ifaces[i]);
                assert forall|j: int| 0 <= j < i - 1 implies !leads_to(#[trigger] rest[j], peer) by {
                    assert(rest[j] == ifaces[j + 1]);
                }
            }
            if egress_mtu(ifaces, peer) is None {
                assert forall|i: int| 0 <= i < ifaces.len() implies !leads_to(
                    #[trigger] ifaces[i],
                    peer,
                ) by {
                    if i > 0 {
                        assert(rest[i - 1] == ifaces[i]);
                    }
                }
            } else {
                let i = choose|i: int| 0 <= i < rest.len() && leads_to(#[trigger] rest[i], peer);
                assert(ifaces[i + 1] == rest[i]);
            }
        }
    }
}

/// The discovery of every other participant on this host is told, at its own port, and that
/// of this one is not.
pub proof fn law_every_other_participant_is_told(
    domain_id: int,
    own: int,
    max: int,
    pid: int,
    l: Locator,
)
    ensures
        localhost_spdp_peers(domain_id, own, max).contains(l) <==> exists|p: int|
            0 <= p < max && p != own && l == #[trigger] localhost_spdp_peer(domain_id, p),
        localhost_spdp_peer(domain_id, pid) matches Locator::UdpV4(a) && a.ip.bits == 0x7F00_0001
            && (0 <= 7410 + 250 * domain_id + 2 * pid <= u16::MAX ==> a.port == 7410 + 250
            * domain_id + 2 * pid),
    decreases max,
{
    if max > 0 {
        law_every_other_participant_is_told(domain_id, own, max - 1, pid, l);
        let before = localhost_spdp_peers(domain_id, own, max - 1);
        let last = localhost_spdp_peer(domain_id, max - 1);
        lemma_pushed(before, last, l);
        if max - 1 != own && l == last {
            assert(0 <= max - 1 < max && max - 1 != own && l == localhost_spdp_peer(
                domain_id,
                max - 1,
            ));
        }
    }
}

/// An address may be used where the application did not say which it wants, or wants it.
pub open spec fn is_usable(only_networks: Option<Seq<IpAddr>>, ip: IpAddr) -> bool {
    only_networks matches Some(nets) ==> nets.contains(ip)
}

/// A participant is reached at its port on just those local addresses that may be used.
pub proof fn law_listed_locators_are_the_usable_addresses(
    ifaces: Seq<IfAddr>,
    port: u16,
    only_networks: Option<Seq<IpAddr>>,
    l: Locator,
)
    ensures
        unicast_locators(ifaces, port, only_networks).contains(l) <==> exists|i: int|
            0 <= i < ifaces.len() && is_usable(only_networks, (#[trigger] ifaces[i]).ip) && (
            match ifaces[i].ip {
                IpAddr::V4(ip) => l == Locator::UdpV4(SocketAddrV4 { ip, port }),
                IpAddr::V6(ip) => l == Locator::UdpV6(
                    SocketAddrV6 { ip, port, flowinfo: 0, scope_id: 0 },
                ),
            }),
{
    let keep = |ifa: IfAddr| wanted(only_networks, ifa.ip);
    let text = |ifa: IfAddr| Locator::spec_from_socket_addr(SocketAddr::spec_new(ifa.ip, port));
    let kept = ifaces.filter(keep);
    let list = kept.map_values(text);
    assert(list == unicast_locators(ifaces, port, only_networks));
    if list.contains(l) {
        let k = choose|k: int| 0 <= k < list.len() && list[k] == l;
        let ifa = kept[k];
        assert(kept.contains(ifa));
        lemma_sifted(ifaces, keep, ifa);
        let i = choose|i: int| 0 <= i < ifaces.len() && ifaces[i] == ifa;
        assert(is_usable(only_networks, ifaces[i].ip));
    }
    if exists|i: int|
        0 <= i < ifaces.len() && is_usable(only_networks, (#[trigger] ifaces[i]).ip) && (
        match ifaces[i].ip {
            IpAddr::V4(ip) => l == Locator::UdpV4(SocketAddrV4 { ip, port }),
            IpAddr::V6(ip) => l == Locator::UdpV6(
                SocketAddrV6 { ip, port, flowinfo: 0, scope_id: 0 },
            ),
        }) {
        let i = choose|i: int|
            0 <= i < ifaces.len() && is_usable(only_networks, (#[trigger] ifaces[i]).ip) && (
            match ifaces[i].ip {
                IpAddr::V4(ip) => l == Locator::UdpV4(SocketAddrV4 { ip, port }),
                IpAddr::V6(ip) => l == Locator::UdpV6(
                    SocketAddrV6 { ip, port, flowinfo: 0, scope_id: 0 },
                ),
            });
        let ifa = ifaces[i];
        lemma_sifted(ifaces, keep, ifa);
        assert(ifaces.contains(ifa));
        let k = choose|k: int| 0 <= k < kept.len() && kept[k] == ifa;
        assert(list[k] == l);
    }
}

/// Multicast goes out from just those IPv4 addresses that may be used, of interfaces that
/// are capable of it.
pub proof fn law_multicast_goes_out_from_usable_addresses(
    ifaces: Seq<IfAddr>,
    only_networks: Option<Seq<IpAddr>>,
    ip: IpAddr,
)
    ensures
        multicast_ip_addrs(ifaces, only_networks).contains(ip) <==> ip is V4 && is_usable(
            only_networks,
            ip,
        ) && exists|i: int|
            0 <= i < ifaces.len() && (#[trigger] ifaces[i]).ip == ip && ifaces[i].is_multicast,
{
    let keep = |ifa: IfAddr| multicasts(ifa, only_networks);
    let text = |ifa: IfAddr| ifa.ip;
    let kept = ifaces.filter(keep);
    let list = kept.map_values(text);
    assert(list == multicast_ip_addrs(ifaces, only_networks));
    if list.contains(ip) {
        let k = choose|k: int| 0 <= k < list.len() && list[k] == ip;
        let ifa = kept[k];
        assert(kept.contains(ifa));
        lemma_sifted(ifaces, keep, ifa);
        let i = choose|i: int| 0 <= i < ifaces.len() && ifaces[i] == ifa;
        assert(ifaces[i].ip == ip);
    }
    if ip is V4 && is_usable(only_networks, ip) && exists|i: int|
        0 <= i < ifaces.len() && (#[trigger] ifaces[i]).ip == ip && ifaces[i].is_multicast {
        let i = choose|i: int|
            0 <= i < ifaces.len() && (#[trigger] ifaces[i]).ip == ip && ifaces[i].is_multicast;
        let ifa = ifaces[i];
        lemma_sifted(ifaces, keep, ifa);
        assert(ifaces.contains(ifa));
        let k = choose|k: int| 0 <= k < kept.len() && kept[k] == ifa;
        assert(list[k] == ip);
    }
}

/// Each index of an interface stands for an address of that interface, for one of IPv4
/// where it has one. Index zero stands for none.
pub proof fn law_index_stands_for_its_interface(ifaces: Seq<IfAddr>, index: u32)
    ensures
        !ifindex_map(ifaces).contains_key(0),
        ifindex_map(ifaces).contains_key(index) <==> index != 0 && exists|i: int|
            0 <= i < ifaces.len() && (#[trigger] ifaces[i]).index == index,
        ifindex_map(ifaces).contains_key(index) ==> {
            let ip = ifindex_map(ifaces)[index]->Ip_0;
            &&& exists|i: int|
                0 <= i < ifaces.len() && (#[trigger] ifaces[i]).index == index && ifaces[i].ip == ip
            &&& (exists|i: int|
                0 <= i < ifaces.len() && (#[trigger] ifaces[i]).index == index
                    && ifaces[i].ip is V4) ==> ip is V4
        },
    decreases ifaces.len(),
{
    if ifaces.len() > 0 {
        let rest = ifaces.drop_last();
        let n = ifaces.len() - 1;
        let map = ifindex_map(rest);
        law_index_stands_for_its_interface(rest, index);
        law_index_stands_for_its_interface(rest, ifaces[n].index);
        assert(ifaces[n] == ifaces.last());
        assert(forall|i: int| 0 <= i < n ==> #[trigger] ifaces[i] == rest[i]);
        if map.contains_key(index) {
            let ip = map[index]->Ip_0;
            let i = choose|i: int|
                0 <= i < rest.len() && (#[trigger] rest[i]).index == index && rest[i].ip == ip;
            assert(ifaces[i].index == index);
        }
        if exists|i: int| 0 <= i < ifaces.len() && (#[trigger] ifaces[i]).index == index {
            let i = choose|i: int| 0 <= i < ifaces.len() && (#[trigger] ifaces[i]).index == index;
            if i < n {
                assert(rest[i].index == index);
            }
        }
        if exists|i: int|
            0 <= i < ifaces.len() && (#[trigger] ifaces[i]).index == index && ifaces[i].ip is V4 {
            let i = choose|i: int|
                0 <= i < ifaces.len() && (#[trigger] ifaces[i]).index == index
                    && ifaces[i].ip is V4;
            if i < n {
                assert(rest[i].index == index && rest[i].ip is V4);
            }
        }
    }
}

} // verus!
