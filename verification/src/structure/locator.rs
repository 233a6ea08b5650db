//! Network addresses and transport locators.

use vstd::prelude::*;

verus! {

/// An IPv4 address, its four octets held as one big-endian word.
#[derive(Clone, Copy, Debug, PartialEq, Eq, Structural, Hash, PartialOrd, Ord)]
pub struct Ipv4Addr {
    pub bits: u32,
}

impl Ipv4Addr {
    pub fn new(a: u8, b: u8, c: u8, d: u8) -> (ip: Ipv4Addr)
        ensures
            ip.bits == a * 0x100_0000 + b * 0x1_0000 + c * 0x100 + d,
    {
        Ipv4Addr {
            bits: a as u32 * 0x100_0000 + b as u32 * 0x1_0000 + c as u32 * 0x100 + d as u32,
        }
    }

    /// 127.0.0.1
    #[verifier::allow_in_spec]
    pub fn localhost() -> (r: Ipv4Addr)
        returns
            (Ipv4Addr { bits: 0x7F00_0001 }),
    {
        Ipv4Addr { bits: 0x7F00_0001 }
    }

    /// 0.0.0.0
    #[verifier::allow_in_spec]
    pub fn unspecified() -> (r: Ipv4Addr)
        returns
            (Ipv4Addr { bits: 0 }),
    {
        Ipv4Addr { bits: 0 }
    }

    /// 127.0.0.0/8
    pub open spec fn spec_is_loopback(self) -> bool {
        0x7F00_0000 <= self.bits <= 0x7FFF_FFFF
    }

    pub fn is_loopback(&self) -> (r: bool)
        ensures
            r == self.spec_is_loopback(),
    {
        0x7F00_0000 <= self.bits && self.bits <= 0x7FFF_FFFF
    }

    /// 224.0.0.0/4
    pub open spec fn spec_is_multicast(self) -> bool {
        0xE000_0000 <= self.bits <= 0xEFFF_FFFF
    }

    pub fn is_multicast(&self) -> (r: bool)
        ensures
            r == self.spec_is_multicast(),
    {
        0xE000_0000 <= self.bits && self.bits <= 0xEFFF_FFFF
    }

    pub open spec fn spec_is_unspecified(self) -> bool {
        self.bits == 0
    }

    pub fn is_unspecified(&self) -> (r: bool)
        ensures
            r == self.spec_is_unspecified(),
    {
        self.bits == 0
    }
}

/// An IPv6 address, its sixteen octets held as two big-endian words.
#[derive(Clone, Copy, Debug, PartialEq, Eq, Structural, Hash, PartialOrd, Ord)]
pub struct Ipv6Addr {
    pub high: u64,
    pub low: u64,
}

impl Ipv6Addr {
    /// ::1
    pub open spec fn spec_is_loopback(self) -> bool {
        self.high == 0 && self.low == 1
    }

    pub fn is_loopback(&self) -> (r: bool)
        ensures
            r == self.spec_is_loopback(),
    {
        self.high == 0 && self.low == 1
    }

    /// ff00::/8
    pub open spec fn spec_is_multicast(self) -> bool {
        self.high >= 0xFF00_0000_0000_0000
    }

    pub fn is_multicast(&self) -> (r: bool)
        ensures
            r == self.spec_is_multicast(),
    {
        self.high >= 0xFF00_0000_0000_0000
    }

    pub open spec fn spec_is_unspecified(self) -> bool {
        self.high == 0 && self.low == 0
    }

    pub fn is_unspecified(&self) -> (r: bool)
        ensures
            r == self.spec_is_unspecified(),
    {
        self.high == 0 && self.low == 0
    }
}

#[derive(Clone, Copy, Debug, PartialEq, Eq, Structural, Hash, PartialOrd, Ord)]
pub enum IpAddr {
    V4(Ipv4Addr),
    V6(Ipv6Addr),
}

impl IpAddr {
    pub open spec fn spec_is_loopback(self) -> bool {
        match self {
            IpAddr::V4(a) => a.spec_is_loopback(),
            IpAddr::V6(a) => a.spec_is_loopback(),
        }
    }

    pub fn is_loopback(&self) -> (r: bool)
        ensures
            r == self.spec_is_loopback(),
    {
        match self {
            IpAddr::V4(a) => a.is_loopback(),
            IpAddr::V6(a) => a.is_loopback(),
        }
    }

    pub open spec fn spec_is_multicast(self) -> bool {
        match self {
            IpAddr::V4(a) => a.spec_is_multicast(),
            IpAddr::V6(a) => a.spec_is_multicast(),
        }
    }

    pub fn is_multicast(&self) -> (r: bool)
        ensures
            r == self.spec_is_multicast(),
    {
        match self {
            IpAddr::V4(a) => a.is_multicast(),
            IpAddr::V6(a) => a.is_multicast(),
        }
    }

    pub open spec fn spec_is_unspecified(self) -> bool {
        match self {
            IpAddr::V4(a) => a.spec_is_unspecified(),
            IpAddr::V6(a) => a.spec_is_unspecified(),
        }
    }

    pub fn is_unspecified(&self) -> (r: bool)
        ensures
            r == self.spec_is_unspecified(),
    {
        match self {
            IpAddr::V4(a) => a.is_unspecified(),
            IpAddr::V6(a) => a.is_unspecified(),
        }
    }
}

#[derive(Clone, Copy, Debug, PartialEq, Eq, Structural, Hash, PartialOrd, Ord)]
pub struct SocketAddrV4 {
    pub ip: Ipv4Addr,
    pub port: u16,
}

#[derive(Clone, Copy, Debug, PartialEq, Eq, Structural, Hash, PartialOrd, Ord)]
pub struct SocketAddrV6 {
    pub ip: Ipv6Addr,
    pub port: u16,
    pub flowinfo: u32,
    pub scope_id: u32,
}

/// An IP address and a port.
#[derive(Clone, Copy, Debug, PartialEq, Eq, Structural, Hash, PartialOrd, Ord)]
pub enum SocketAddr {
    V4(SocketAddrV4),
    V6(SocketAddrV6),
}

impl SocketAddr {
    pub open spec fn spec_new(ip: IpAddr, port: u16) -> SocketAddr {
        match ip {
            IpAddr::V4(ip) => SocketAddr::V4(SocketAddrV4 { ip, port }),
            IpAddr::V6(ip) => SocketAddr::V6(SocketAddrV6 { ip, port, flowinfo: 0, scope_id: 0 }),
        }
    }

    pub fn new(ip: IpAddr, port: u16) -> (a: SocketAddr)
        ensures
            a == SocketAddr::spec_new(ip, port),
    {
        match ip {
            IpAddr::V4(ip) => SocketAddr::V4(SocketAddrV4 { ip, port }),
            IpAddr::V6(ip) => SocketAddr::V6(SocketAddrV6 { ip, port, flowinfo: 0, scope_id: 0 }),
        }
    }

    pub open spec fn spec_ip(self) -> IpAddr {
        match self {
            SocketAddr::V4(a) => IpAddr::V4(a.ip),
            SocketAddr::V6(a) => IpAddr::V6(a.ip),
        }
    }

    pub fn ip(&self) -> (ip: IpAddr)
        ensures
            ip == self.spec_ip(),
    {
        match self {
            SocketAddr::V4(a) => IpAddr::V4(a.ip),
            SocketAddr::V6(a) => IpAddr::V6(a.ip),
        }
    }

    pub open spec fn spec_port(self) -> u16 {
        match self {
            SocketAddr::V4(a) => a.port,
            SocketAddr::V6(a) => a.port,
        }
    }

    pub fn port(&self) -> (port: u16)
        ensures
            port == self.spec_port(),
    {
        match self {
            SocketAddr::V4(a) => a.port,
            SocketAddr::V6(a) => a.port,
        }
    }
}

/// Where a message can be sent to. Locators of other transports are carried along
/// unread.
#[derive(Clone, Copy, Debug, PartialEq, Eq, Structural, Hash, PartialOrd, Ord)]
pub enum Locator {
    Invalid,
    Reserved,
    UdpV4(SocketAddrV4),
    UdpV6(SocketAddrV6),
    Other { kind: i32, port: u32, address_high: u64, address_low: u64 },
}

impl Locator {
    pub open spec fn spec_from_socket_addr(address: SocketAddr) -> Locator {
        match address {
            SocketAddr::V4(a) => Locator::UdpV4(a),
            SocketAddr::V6(a) => Locator::UdpV6(a),
        }
    }

    /// The UDP destination that this locator stands for.
    pub open spec fn spec_socket_addr(self) -> Option<SocketAddr> {
        match self {
            Locator::UdpV4(a) => Some(SocketAddr::V4(a)),
            Locator::UdpV6(a) => Some(SocketAddr::V6(a)),
            _ => None,
        }
    }

    pub fn socket_addr(&self) -> (r: Option<SocketAddr>)
        ensures
            r == self.spec_socket_addr(),
    {
        match self {
            Locator::UdpV4(a) => Some(SocketAddr::V4(*a)),
            Locator::UdpV6(a) => Some(SocketAddr::V6(*a)),
            _ => None,
        }
    }

    pub open spec fn spec_is_udp(self) -> bool {
        self is UdpV4 || self is UdpV6
    }

    pub fn is_udp(&self) -> (r: bool)
        ensures
            r == self.spec_is_udp(),
    {
        match self {
            Locator::UdpV4(_) => true,
            Locator::UdpV6(_) => true,
            _ => false,
        }
    }

    pub open spec fn spec_is_loopback(self) -> bool {
        match self.spec_socket_addr() {
            Some(a) => a.spec_ip().spec_is_loopback(),
            None => false,
        }
    }

    pub fn is_loopback(&self) -> (r: bool)
        ensures
            r == self.spec_is_loopback(),
    {
        match self.socket_addr() {
            Some(a) => a.ip().is_loopback(),
            None => false,
        }
    }
}

impl From<SocketAddr> for Locator {
    fn from(address: SocketAddr) -> (r: Locator) {
        match address {
            SocketAddr::V4(a) => Locator::UdpV4(a),
            SocketAddr::V6(a) => Locator::UdpV6(a),
        }
    }
}

impl vstd::std_specs::convert::FromSpecImpl<SocketAddr> for Locator {
    open spec fn obeys_from_spec() -> bool {
        true
    }

    open spec fn from_spec(address: SocketAddr) -> Locator {
        Locator::spec_from_socket_addr(address)
    }
}

/// A copy of a list of locators.
pub fn copy_locators(locators: &Vec<Locator>) -> (copy: Vec<Locator>)
    ensures
        copy@ == locators@,
{
    let mut copy: Vec<Locator> = Vec::new();
    let mut i: usize = 0;
    while i < locators.len()
        invariant
            i <= locators@.len(),
            copy@ == locators@.take(i as int),
        decreases locators@.len() - i,
    {
        copy.push(locators[i]);
        i += 1;
        assert(locators@.take(i as int) =~= locators@.take(i - 1).push(locators@[i - 1]));
    }
    assert(locators@.take(i as int) =~= locators@);
    copy
}

} // verus!
