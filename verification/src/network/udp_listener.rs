//! Cutting received datagrams out of a receive buffer, and telling where they came from.

use std::collections::HashMap;

use bytes::{Bytes, BytesMut};
use vstd::prelude::*;
use vstd::slice::slice_subrange;

use crate::network::util::{
    get_local_multicast_locators, get_local_unicast_locators_filtered, is_usable,
    law_listed_locators_are_the_usable_addresses, nets_of, unicast_locators, IfAddr,
};
use crate::rtps::transmit::{is_at, InterfaceSelector};
use crate::structure::locator::{IpAddr, Ipv4Addr, Locator, SocketAddr, SocketAddrV4};
use crate::structure::octets::{
    buffer_as_mut, buffer_capacity, buffer_clear, buffer_extend, buffer_freeze, buffer_len,
    buffer_of, buffer_resize, buffer_split_to, buffer_truncate, buffer_with_capacity, bytes_of,
};

verus! {

/// The largest message that UDP can deliver.
pub const MAX_MESSAGE_SIZE: usize = 65536;

/// How much is allocated at a time for messages.
pub const MESSAGE_BUFFER_ALLOCATION_CHUNK: usize = 262144;

/// Where a datagram came from and how it reached us.
#[derive(Clone, Copy, Debug, PartialEq, Eq, Structural)]
pub struct PacketOrigin {
    /// The address of the sender, if it is known.
    pub source: Option<SocketAddr>,
    /// The local interface on which it came in, if it is known.
    pub local_if: Option<InterfaceSelector>,
}

impl PacketOrigin {
    #[verifier::allow_in_spec]
    pub fn unknown() -> (r: PacketOrigin)
        returns
            (PacketOrigin { source: None, local_if: None }),
    {
        PacketOrigin { source: None, local_if: None }
    }
}

/// What the system tells about how a datagram came in.
#[derive(Clone, Copy, Debug, PartialEq, Eq, Structural)]
pub struct PacketInfo {
    pub ifindex: u32,
    /// The local address that it came to.
    pub spec_dst: Ipv4Addr,
}

/// What came of an attempt to receive a datagram.
pub enum Received {
    /// This many bytes are at the start of the buffer.
    Datagram { nbytes: usize, origin: PacketOrigin },
    /// There is none.
    WouldBlock,
    /// The socket failed.
    Failed,
}

/// How many bytes it takes to fill up to a multiple of four.
pub open spec fn padding(n: int) -> int {
    (4 - n % 4) % 4
}

pub fn padding_needed_for_alignment_4(n: usize) -> (pad: usize)
    ensures
        pad == padding(n as int),
        pad < 4,
        (n + pad) % 4 == 0,
{
    (4 - n % 4) % 4
}

/// The state of a listener besides its socket.
pub struct UDPListener {
    pub receive_buffer: BytesMut,
    pub multicast_group: Option<Ipv4Addr>,
    pub has_multicast_join: bool,
    /// Which interface stands for each index.
    pub ifindex_map: HashMap<u32, InterfaceSelector>,
}

/// The index of the interface that the last report names; zero if there is none.
pub open spec fn last_ifindex(infos: Seq<PacketInfo>) -> u32 {
    if infos.len() == 0 {
        0
    } else {
        infos.last().ifindex
    }
}

/// The local address that the last report names that names one.
pub open spec fn last_spec_dst(infos: Seq<PacketInfo>) -> Option<Ipv4Addr>
    decreases infos.len(),
{
    if infos.len() == 0 {
        None
    } else if infos.last().spec_dst.spec_is_unspecified() {
        last_spec_dst(infos.drop_last())
    } else {
        Some(infos.last().spec_dst)
    }
}

impl UDPListener {
    /// Nothing is in the receive buffer.
    pub open spec fn wf(self) -> bool {
        buffer_of(self.receive_buffer).len() == 0
    }

    /// Everything but the receive buffer is as in `other`.
    pub open spec fn same_listener(self, other: Self) -> bool {
        &&& self.multicast_group == other.multicast_group
        &&& self.has_multicast_join == other.has_multicast_join
        &&& self.ifindex_map == other.ifindex_map
    }

    /// A listener for unicast.
    pub fn new_unicast_with_buf_size(ifindex_map: HashMap<u32, InterfaceSelector>) -> (l: Self)
        ensures
            l.wf(),
            l.multicast_group is None,
            !l.has_multicast_join,
            l.ifindex_map == ifindex_map,
    {
        UDPListener {
            receive_buffer: buffer_with_capacity(MESSAGE_BUFFER_ALLOCATION_CHUNK),
            multicast_group: None,
            has_multicast_join: false,
            ifindex_map,
        }
    }

    /// A listener for a multicast group; `joins` tells for each interface whether the group
    /// could be joined on it. There is none for an address that is not of a group.
    pub fn new_multicast_with_buf_size(
        multicast_group: Ipv4Addr,
        joins: &Vec<bool>,
        ifindex_map: HashMap<u32, InterfaceSelector>,
    ) -> (r: Option<Self>)
        ensures
            r is Some <==> multicast_group.spec_is_multicast(),
            r matches Some(l) ==> l.wf() && l.multicast_group == Some(multicast_group)
                && l.has_multicast_join == joins@.contains(true) && l.ifindex_map == ifindex_map,
    {
        if !multicast_group.is_multicast() {
            return None;
        }
        let mut joined_multicast: bool = false;
        let mut i: usize = 0;
        while i < joins.len()
            invariant
                i <= joins@.len(),
                joined_multicast == joins@.take(i as int).contains(true),
            decreases joins@.len() - i,
        {
            let ghost shorter = joins@.take(i as int);
            if joins[i] {
                joined_multicast = true;
            }
            i += 1;
            proof {
                let longer = joins@.take(i as int);
                assert(longer[i - 1] == joins@[i - 1]);
                if shorter.contains(true) {
                    let j = choose|j: int| 0 <= j < shorter.len() && shorter[j] == true;
                    assert(longer[j] == true);
                }
                if longer.contains(true) && !joins@[i - 1] {
                    let j = choose|j: int| 0 <= j < longer.len() && longer[j] == true;
                    assert(shorter[j] == true);
                }
            }
        }
        assert(joins@.take(i as int) =~= joins@);
        Some(
            UDPListener {
                receive_buffer: buffer_with_capacity(MESSAGE_BUFFER_ALLOCATION_CHUNK),
                multicast_group: Some(multicast_group),
                has_multicast_join: joined_multicast,
                ifindex_map,
            },
        )
    }

    /// The locators under which the listener is reached: for a group that was joined the
    /// group, for one that was not none, else the wanted addresses of this host.
    pub fn to_locator_address(
        &self,
        local_port: u16,
        enumerated: Option<Vec<IfAddr>>,
        only_networks: Option<&Vec<IpAddr>>,
    ) -> (r: Vec<Locator>)
        ensures
            r@ == (match self.multicast_group {
                Some(_) => if self.has_multicast_join {
                    seq![
                        Locator::UdpV4(
                            SocketAddrV4 { ip: Ipv4Addr { bits: 0xEFFF_0001 }, port: local_port },
                        ),
                    ]
                } else {
                    Seq::empty()
                },
                None => match enumerated {
                    Some(ifaces) => unicast_locators(ifaces@, local_port, nets_of(only_networks)),
                    None => Seq::empty(),
                },
            }),
    {
        match self.multicast_group {
            Some(_) => if self.has_multicast_join {
                get_local_multicast_locators(local_port)
            } else {
                Vec::new()
            },
            None => get_local_unicast_locators_filtered(enumerated, local_port, only_networks),
        }
    }

    /// Makes room for the next datagram. The bytes of the buffer are then written in place.
    pub fn receive_space(&mut self) -> (space: &mut [u8])
        requires
            old(self).wf(),
        ensures
            space@.len() == MAX_MESSAGE_SIZE,
            buffer_of(final(self).receive_buffer) == final(space)@,
            final(self).same_listener(*old(self)),
    {
        if buffer_capacity(&self.receive_buffer) < MAX_MESSAGE_SIZE {
            self.receive_buffer = buffer_with_capacity(MESSAGE_BUFFER_ALLOCATION_CHUNK);
        }
        buffer_resize(&mut self.receive_buffer, MAX_MESSAGE_SIZE, 0);
        buffer_as_mut(&mut self.receive_buffer)
    }

    /// Cuts the datagram out that is at the start of the buffer. The buffer goes on at a
    /// multiple of four bytes.
    fn cut_out(&mut self, nbytes: usize) -> (message: Bytes)
        requires
            nbytes <= buffer_of(old(self).receive_buffer).len(),
            nbytes <= MAX_MESSAGE_SIZE,
        ensures
            final(self).wf(),
            final(self).same_listener(*old(self)),
            bytes_of(message) == buffer_of(old(self).receive_buffer).take(nbytes as int),
    {
        let ghost received = buffer_of(self.receive_buffer).take(nbytes as int);
        buffer_truncate(&mut self.receive_buffer, nbytes);
        let pad: usize = padding_needed_for_alignment_4(nbytes);
        let filler: [u8; 4] = [0xCC, 0xCC, 0xCC, 0xCC];
        if pad != 0 {
            buffer_extend(&mut self.receive_buffer, slice_subrange(&filler, 0, pad));
            assert(buffer_of(self.receive_buffer).take(nbytes as int) =~= received);
        }
        let all: usize = buffer_len(&self.receive_buffer);
        let mut message: BytesMut = buffer_split_to(&mut self.receive_buffer, all);
        buffer_truncate(&mut message, nbytes);
        assert(buffer_of(message) =~= received);
        buffer_freeze(message)
    }

    /// Takes what was received. Gives whether there may be more.
    pub fn take_received(
        &mut self,
        messages: &mut Vec<(Bytes, PacketOrigin)>,
        received: Received,
    ) -> (go_on: bool)
        requires
            received matches Received::Datagram { nbytes, .. } ==> nbytes <= buffer_of(
                old(self).receive_buffer,
            ).len() && nbytes <= MAX_MESSAGE_SIZE,
        ensures
            final(self).wf(),
            final(self).same_listener(*old(self)),
            go_on == received is Datagram,
            match received {
                Received::Datagram { nbytes, origin } => {
                    &&& final(messages)@.len() == old(messages)@.len() + 1
                    &&& final(messages)@.drop_last() == old(messages)@
                    &&& bytes_of(final(messages)@.last().0) == buffer_of(
                        old(self).receive_buffer,
                    ).take(nbytes as int)
                    &&& final(messages)@.last().1 == origin
                },
                _ => final(messages)@ == old(messages)@,
            },
    {
        match received {
            Received::Datagram { nbytes, origin } => {
                let message: Bytes = self.cut_out(nbytes);
                messages.push((message, origin));
                assert(messages@.drop_last() =~= old(messages)@);
                true
            },
            Received::WouldBlock => {
                buffer_clear(&mut self.receive_buffer);
                false
            },
            Received::Failed => {
                buffer_clear(&mut self.receive_buffer);
                false
            },
        }
    }

    /// Is another datagram to be received, where at most `max_messages` are wanted?
    pub fn wants_more(count: usize, max_messages: usize) -> (r: bool)
        ensures
            r == (count < max_messages),
    {
        count < max_messages
    }

    /// Where a datagram came from. The interface is the one with the local address that it
    /// came to, else the one with the index that the system names.
    pub fn origin_of(&self, source: Option<SocketAddr>, infos: &Vec<PacketInfo>) -> (o: PacketOrigin)
        ensures
            o.source == source,
            o.local_if == (match last_spec_dst(infos@) {
                Some(addr) => Some(InterfaceSelector::Ip(IpAddr::V4(addr))),
                None => if self.ifindex_map@.contains_key(last_ifindex(infos@)) {
                    Some(self.ifindex_map@[last_ifindex(infos@)])
                } else {
                    None
                },
            }),
    {
        broadcast use vstd::std_specs::hash::group_hash_axioms;

        let mut ifindex: u32 = 0;
        let mut spec_dst: Option<Ipv4Addr> = None;
        let mut i: usize = 0;
        while i < infos.len()
            invariant
                i <= infos@.len(),
                ifindex == last_ifindex(infos@.take(i as int)),
                spec_dst == last_spec_dst(infos@.take(i as int)),
            decreases infos@.len() - i,
        {
            let info: PacketInfo = infos[i];
            i += 1;
            assert(infos@.take(i as int).drop_last() =~= infos@.take(i - 1));
            assert(infos@.take(i as int).last() == info);
            ifindex = info.ifindex;
            if !info.spec_dst.is_unspecified() {
                spec_dst = Some(info.spec_dst);
            }
        }
        assert(infos@.take(i as int) =~= infos@);
        let local_if: Option<InterfaceSelector> = match spec_dst {
            Some(addr) => Some(InterfaceSelector::Ip(IpAddr::V4(addr))),
            None => match self.ifindex_map.get(&ifindex) {
                Some(iface) => Some(*iface),
                None => None,
            },
        };
        PacketOrigin { source, local_if }
    }
}

/// A datagram came in on the interface with the local address that the last report names
/// which names one; where none does, on the interface with the index of the last report.
pub proof fn law_origin_is_the_last_report(
    listener: UDPListener,
    source: Option<SocketAddr>,
    infos: Vec<PacketInfo>,
    origin: PacketOrigin,
)
    requires
        call_ensures(UDPListener::origin_of, (&listener, source, &infos), origin),
    ensures
        origin.source == source,
        forall|i: int|
            0 <= i < infos@.len() && (#[trigger] infos@[i]).spec_dst.bits != 0 && (forall|j: int|
                i < j < infos@.len() ==> (#[trigger] infos@[j]).spec_dst.bits == 0)
                ==> origin.local_if == Some(
                InterfaceSelector::Ip(IpAddr::V4(infos@[i].spec_dst)),
            ),
        (forall|i: int| 0 <= i < infos@.len() ==> (#[trigger] infos@[i]).spec_dst.bits == 0) ==> {
            let index = if infos@.len() > 0 {
                infos@[infos@.len() - 1].ifindex
            } else {
                0
            };
            &&& origin.local_if is Some <==> listener.ifindex_map@.contains_key(index)
            &&& origin.local_if matches Some(iface) ==> listener.ifindex_map@[index] == iface
        },
{
    lemma_last_spec_dst(infos@);
}

proof fn lemma_last_spec_dst(infos: Seq<PacketInfo>)
    ensures
        forall|i: int|
            0 <= i < infos.len() && (#[trigger] infos[i]).spec_dst.bits != 0 && (forall|j: int|
                i < j < infos.len() ==> (#[trigger] infos[j]).spec_dst.bits == 0)
                ==> last_spec_dst(infos) == Some(infos[i].spec_dst),
        (forall|i: int| 0 <= i < infos.len() ==> (#[trigger] infos[i]).spec_dst.bits == 0)
            ==> last_spec_dst(infos) is None,
    decreases infos.len(),
{
    if infos.len() > 0 {
        let rest = infos.drop_last();
        let n = infos.len() - 1;
        lemma_last_spec_dst(rest);
        assert(infos[n] == infos.last());
        assert(forall|i: int| 0 <= i < n ==> #[trigger] infos[i] == rest[i]);
        if infos[n].spec_dst.bits == 0 {
            assert forall|i: int|
                0 <= i < infos.len() && (#[trigger] infos[i]).spec_dst.bits != 0 && (forall|
                    j: int,
                |
                    i < j < infos.len() ==> (
                    #[trigger] infos[j]).spec_dst.bits == 0) implies last_spec_dst(infos) == Some(
                infos[i].spec_dst,
            ) by {
                assert(rest[i] == infos[i]);
                assert forall|j: int| i < j < rest.len() implies (
                #[trigger] rest[j]).spec_dst.bits == 0 by {
                    assert(infos[j] == rest[j]);
                }
            }
        }
    }
}

/// A listener of a group that could be joined on some interface is reached at the group, and
/// of one that could not nowhere; any other at those local addresses that may be used.
pub proof fn law_listener_is_reached_where_it_listens(
    listener: UDPListener,
    port: u16,
    enumerated: Option<Vec<IfAddr>>,
    only_networks: Option<&Vec<IpAddr>>,
    locators: Vec<Locator>,
    l: Locator,
)
    requires
        call_ensures(
            UDPListener::to_locator_address,
            (&listener, port, enumerated, only_networks),
            locators,
        ),
    ensures
        listener.multicast_group is Some && listener.has_multicast_join ==> locators@.len() == 1 && (
        locators@[0] matches Locator::UdpV4(a) && a.ip.spec_is_multicast() && a.port == port),
        listener.multicast_group is Some && !listener.has_multicast_join ==> locators@.len() == 0,
        listener.multicast_group is None ==> (locators@.contains(l) ==> (
        enumerated matches Some(ifaces) && exists|i: int|
            0 <= i < ifaces@.len() && is_usable(
                nets_of(only_networks),
                (#[trigger] ifaces@[i]).ip,
            ) && is_at(l, ifaces@[i].ip))),
{
    if let Some(ifaces) = enumerated {
        law_listed_locators_are_the_usable_addresses(
            ifaces@,
            port,
            nets_of(only_networks),
            l,
        );
    }
}

} // verus!
