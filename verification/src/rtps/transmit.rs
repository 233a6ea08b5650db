//! Choosing where to send to.

use vstd::prelude::*;

use crate::structure::guid::GuidPrefix;
use crate::structure::locator::{IpAddr, Locator, SocketAddr};
use crate::structure::sorted_map::{SortKey, SortedMap};

verus! {

/// Names a local network interface.
#[derive(Clone, Copy, Debug, PartialEq, Eq, Structural, Hash, PartialOrd, Ord)]
pub enum InterfaceSelector {
    /// The interface that has this address.
    Ip(IpAddr),
}

/// Where to send to reach a reader.
#[derive(Clone, Copy, Debug, PartialEq, Eq)]
pub struct SendRoute {
    pub unicast: Option<Locator>,
    pub multicast: Option<(Locator, InterfaceSelector)>,
    /// Nothing definite is known: send to every locator over every interface.
    pub fallback: bool,
}

impl Default for SendRoute {
    fn default() -> (r: SendRoute)
        ensures
            r == (SendRoute { unicast: None, multicast: None, fallback: true }),
    {
        SendRoute { unicast: None, multicast: None, fallback: true }
    }
}

/// How the messages of a participant last came in.
#[derive(Clone, Copy, Debug, PartialEq, Eq, Structural)]
pub struct Observation {
    /// The local interface on which they came in, if it is known.
    pub interface: Option<InterfaceSelector>,
    /// The address from which they came.
    pub source: SocketAddr,
}

/// How the messages of each participant last came in.
pub struct InterfaceObservations {
    pub by_participant: SortedMap<GuidPrefix, Observation>,
}

impl InterfaceObservations {
    pub fn new() -> (o: Self)
        ensures
            o.by_participant@ == Map::<int, Observation>::empty(),
    {
        InterfaceObservations { by_participant: SortedMap::new() }
    }

    pub fn record(
        &mut self,
        prefix: GuidPrefix,
        interface: Option<InterfaceSelector>,
        source: SocketAddr,
    )
        ensures
            final(self).by_participant@ == old(self).by_participant@.insert(
                prefix.rank(),
                (Observation { interface, source }),
            ),
    {
        self.by_participant.insert(prefix, Observation { interface, source });
    }

    /// Forgets a participant that has left.
    pub fn remove(&mut self, prefix: GuidPrefix)
        ensures
            final(self).by_participant@ == old(self).by_participant@.remove(prefix.rank()),
    {
        let _gone: Option<Observation> = self.by_participant.remove(&prefix);
    }

    pub open spec fn spec_get(self, prefix: GuidPrefix) -> Option<Observation> {
        if self.by_participant@.contains_key(prefix.rank()) {
            Some(self.by_participant@[prefix.rank()])
        } else {
            None
        }
    }

    pub fn get(&self, prefix: GuidPrefix) -> (r: Option<Observation>)
        ensures
            r == self.spec_get(prefix),
    {
        match self.by_participant.get(&prefix) {
            Some(o) => Some(*o),
            None => None,
        }
    }
}

/// The first UDP locator of the list.
pub open spec fn first_udp(locators: Seq<Locator>) -> Option<Locator>
    decreases locators.len(),
{
    if locators.len() == 0 {
        None
    } else if locators[0].spec_is_udp() {
        Some(locators[0])
    } else {
        first_udp(locators.skip(1))
    }
}

pub fn find_udp(locators: &Vec<Locator>) -> (r: Option<Locator>)
    ensures
        r == first_udp(locators@),
{
    let mut i: usize = 0;
    assert(locators@.skip(0) =~= locators@);
    while i < locators.len()
        invariant
            i <= locators@.len(),
            first_udp(locators@) == first_udp(locators@.skip(i as int)),
        decreases locators@.len() - i,
    {
        assert(locators@.skip(i as int)[0] == locators@[i as int]);
        assert(locators@.skip(i as int).skip(1) =~= locators@.skip(i + 1));
        if locators[i].is_udp() {
            return Some(locators[i]);
        }
        i += 1;
    }
    None
}

/// The first UDP locator of the list that has the given address.
pub open spec fn first_with_ip(locators: Seq<Locator>, ip: IpAddr) -> Option<Locator>
    decreases locators.len(),
{
    if locators.len() == 0 {
        None
    } else if locators[0].spec_socket_addr() matches Some(a) && a.spec_ip() == ip {
        Some(locators[0])
    } else {
        first_with_ip(locators.skip(1), ip)
    }
}

fn find_with_ip(locators: &Vec<Locator>, ip: IpAddr) -> (r: Option<Locator>)
    ensures
        r == first_with_ip(locators@, ip),
{
    let mut i: usize = 0;
    assert(locators@.skip(0) =~= locators@);
    while i < locators.len()
        invariant
            i <= locators@.len(),
            first_with_ip(locators@, ip) == first_with_ip(locators@.skip(i as int), ip),
        decreases locators@.len() - i,
    {
        assert(locators@.skip(i as int)[0] == locators@[i as int]);
        assert(locators@.skip(i as int).skip(1) =~= locators@.skip(i + 1));
        if let Some(a) = locators[i].socket_addr() {
            if a.ip() == ip {
                return Some(locators[i]);
            }
        }
        i += 1;
    }
    None
}

fn has_interface(ifaces: &Vec<InterfaceSelector>, wanted: InterfaceSelector) -> (r: bool)
    ensures
        r == ifaces@.contains(wanted),
{
    let mut i: usize = 0;
    while i < ifaces.len()
        invariant
            i <= ifaces@.len(),
            forall|j: int| 0 <= j < i ==> ifaces@[j] != wanted,
        decreases ifaces@.len() - i,
    {
        if ifaces[i] == wanted {
            assert(ifaces@[i as int] == wanted);
            return true;
        }
        i += 1;
    }
    false
}

/// Chooses routes from what was observed of a participant.
#[derive(Clone, Copy, Debug, PartialEq, Eq, Structural)]
pub struct DefaultRouteSelector {
    /// May a peer on the same host be reached over the loopback interface?
    pub prefer_loopback_same_host: bool,
}

impl Default for DefaultRouteSelector {
    fn default() -> (s: Self)
        ensures
            s.prefer_loopback_same_host,
    {
        DefaultRouteSelector { prefer_loopback_same_host: true }
    }
}

impl DefaultRouteSelector {
    pub fn new(prefer_loopback_same_host: bool) -> (s: Self)
        ensures
            s.prefer_loopback_same_host == prefer_loopback_same_host,
    {
        DefaultRouteSelector { prefer_loopback_same_host }
    }

    /// The route to a reader. Messages that came over the loopback interface prove that
    /// the peer is on this host. Else the unicast locator with the address that the
    /// messages came from is taken, and for multicast the interface they came in on.
    /// Where neither is known, the route is the fallback.
    pub open spec fn route(
        self,
        unicast: Seq<Locator>,
        multicast: Seq<Locator>,
        loopback: Seq<Locator>,
        observed: Option<Observation>,
        local_multicast_ifaces: Seq<InterfaceSelector>,
    ) -> SendRoute {
        match observed {
            None => SendRoute { unicast: None, multicast: None, fallback: true },
            Some(o) => {
                let same_host = self.prefer_loopback_same_host
                    && o.source.spec_ip().spec_is_loopback() && first_udp(loopback) is Some;
                let uc = if same_host {
                    first_udp(loopback)
                } else {
                    first_with_ip(unicast, o.source.spec_ip())
                };
                let mc = match (o.interface, first_udp(multicast)) {
                    (Some(iface), Some(loc)) if local_multicast_ifaces.contains(iface) => Some(
                        (loc, iface),
                    ),
                    _ => None,
                };
                SendRoute { unicast: uc, multicast: mc, fallback: uc is None && mc is None }
            },
        }
    }

    pub fn select(
        &self,
        unicast: &Vec<Locator>,
        multicast: &Vec<Locator>,
        loopback: &Vec<Locator>,
        observed: Option<Observation>,
        local_multicast_ifaces: &Vec<InterfaceSelector>,
    ) -> (r: SendRoute)
        ensures
            r == self.route(
                unicast@,
                multicast@,
                loopback@,
                observed,
                local_multicast_ifaces@,
            ),
            is_route_for(
                r,
                self.prefer_loopback_same_host,
                unicast@,
                multicast@,
                loopback@,
                observed,
                local_multicast_ifaces@,
            ),
    {
        proof {
            law_route_goes_back_the_way_messages_came(
                *self,
                unicast@,
                multicast@,
                loopback@,
                observed,
                local_multicast_ifaces@,
            );
        }
        match observed {
            None => SendRoute::default(),
            Some(o) => {
                let confirmed: bool = self.prefer_loopback_same_host
                    && o.source.ip().is_loopback();
                let local: Option<Locator> = if confirmed {
                    find_udp(loopback)
                } else {
                    None
                };
                let uc: Option<Locator> = match local {
                    Some(l) => Some(l),
                    None => find_with_ip(unicast, o.source.ip()),
                };
                let mc: Option<(Locator, InterfaceSelector)> = match (
                    o.interface,
                    find_udp(multicast),
                ) {
                    (Some(iface), Some(loc)) => if has_interface(local_multicast_ifaces, iface) {
                        Some((loc, iface))
                    } else {
                        None
                    },
                    _ => None,
                };
                let fallback: bool = uc.is_none() && mc.is_none();
                SendRoute { unicast: uc, multicast: mc, fallback }
            },
        }
    }
}

/// Can the locator be sent to over UDP at this address?
pub open spec fn is_at(locator: Locator, ip: IpAddr) -> bool {
    match locator {
        Locator::UdpV4(a) => ip == IpAddr::V4(a.ip),
        Locator::UdpV6(a) => ip == IpAddr::V6(a.ip),
        _ => false,
    }
}

/// The locator is the first of the list that will do.
pub open spec fn is_first(
    locator: Locator,
    list: Seq<Locator>,
    will_do: spec_fn(Locator) -> bool,
) -> bool {
    exists|i: int|
        0 <= i < list.len() && #[trigger] list[i] == locator && will_do(locator) && forall|j: int|
            0 <= j < i ==> !will_do(#[trigger] list[j])
}

/// The route goes where the messages of the peer came from. One that was heard over the
/// loopback interface, where that may be used, is reached at a loopback locator if it has
/// one; else a peer is reached at a locator that it announced with the address from which
/// it was heard. A group that it announced is used over the interface on which it was heard
/// if groups can be reached there. Without any of these, nothing definite is known.
pub open spec fn is_route_for(
    route: SendRoute,
    prefer_loopback: bool,
    unicast: Seq<Locator>,
    multicast: Seq<Locator>,
    loopback: Seq<Locator>,
    observed: Option<Observation>,
    ifaces: Seq<InterfaceSelector>,
) -> bool {
    let udp = |l: Locator| l is UdpV4 || l is UdpV6;
    &&& route.fallback <==> route.unicast is None && route.multicast is None
    &&& match observed {
        None => route.fallback,
        Some(o) => {
            let source = match o.source {
                SocketAddr::V4(a) => IpAddr::V4(a.ip),
                SocketAddr::V6(a) => IpAddr::V6(a.ip),
            };
            let local = prefer_loopback && source.spec_is_loopback() && exists|i: int|
                0 <= i < loopback.len() && udp(#[trigger] loopback[i]);
            &&& local ==> (route.unicast matches Some(l) && is_first(l, loopback, udp))
            &&& !local ==> match route.unicast {
                Some(l) => is_first(l, unicast, |x: Locator| is_at(x, source)),
                None => forall|i: int| 0 <= i < unicast.len() ==> !is_at(
                    #[trigger] unicast[i],
                    source,
                ),
            }
            &&& match route.multicast {
                Some((group, iface)) => {
                    &&& is_first(group, multicast, udp)
                    &&& o.interface == Some(iface)
                    &&& ifaces.contains(iface)
                },
                None => {
                    ||| o.interface is None
                    ||| !ifaces.contains(o.interface->0)
                    ||| forall|i: int| 0 <= i < multicast.len() ==> !udp(#[trigger] multicast[i])
                },
            }
        },
    }
}

proof fn lemma_first_udp(list: Seq<Locator>)
    ensures
        ({
            let udp = |l: Locator| l is UdpV4 || l is UdpV6;
            match first_udp(list) {
                Some(l) => is_first(l, list, udp),
                None => forall|i: int| 0 <= i < list.len() ==> !udp(#[trigger] list[i]),
            }
        }),
    decreases list.len(),
{
    let udp = |l: Locator| l is UdpV4 || l is UdpV6;
    if list.len() > 0 && !udp(list[0]) {
        let rest = list.skip(1);
        lemma_first_udp(rest);
        lemma_first_of_rest(list, udp, first_udp(rest));
    } else if list.len() > 0 {
        assert(list[0] == first_udp(list)->0);
    }
}

proof fn lemma_first_with_ip(list: Seq<Locator>, ip: IpAddr)
    ensures
        ({
            let there = |l: Locator| is_at(l, ip);
            match first_with_ip(list, ip) {
                Some(l) => is_first(l, list, there),
                None => forall|i: int| 0 <= i < list.len() ==> !is_at(#[trigger] list[i], ip),
            }
        }),
    decreases list.len(),
{
    let there = |l: Locator| is_at(l, ip);
    if list.len() > 0 && !there(list[0]) {
        let rest = list.skip(1);
        lemma_first_with_ip(rest, ip);
        if first_with_ip(rest, ip) is None {
            assert forall|i: int| 0 <= i < rest.len() implies !there(#[trigger] rest[i]) by {
                assert(!is_at(rest[i], ip));
            }
        }
        lemma_first_of_rest(list, there, first_with_ip(rest, ip));
        if first_with_ip(list, ip) is None {
            assert forall|i: int| 0 <= i < list.len() implies !is_at(#[trigger] list[i], ip) by {
                assert(!there(list[i]));
            }
        }
    } else if list.len() > 0 {
        assert(list[0] == first_with_ip(list, ip)->0);
    }
}

proof fn lemma_first_of_rest(
    list: Seq<Locator>,
    will_do: spec_fn(Locator) -> bool,
    found: Option<Locator>,
)
    requires
        list.len() > 0,
        !will_do(list[0]),
        match found {
            Some(l) => is_first(l, list.skip(1), will_do),
            None => forall|i: int|
                0 <= i < list.skip(1).len() ==> !will_do(#[trigger] list.skip(1)[i]),
        },
    ensures
        match found {
            Some(l) => is_first(l, list, will_do),
            None => forall|i: int| 0 <= i < list.len() ==> !will_do(#[trigger] list[i]),
        },
{
    let rest = list.skip(1);
    match found {
        Some(l) => {
            let i = choose|i: int|
                0 <= i < rest.len() && #[trigger] rest[i] == l && will_do(l) && forall|j: int|
                    0 <= j < i ==> !will_do(#[trigger] rest[j]);
            assert(list[i + 1] == l);
            assert forall|j: int| 0 <= j < i + 1 implies !will_do(#[trigger] list[j]) by {
                if j > 0 {
                    assert(list[j] == rest[j - 1]);
                }
            }
        },
        None => {
            assert forall|i: int| 0 <= i < list.len() implies !will_do(#[trigger] list[i]) by {
                if i > 0 {
                    assert(list[i] == rest[i - 1]);
                }
            }
        },
    }
}

/// The route to a reader goes by how its participant was heard, and leads to a place that
/// the reader announced.
pub proof fn law_route_goes_back_the_way_messages_came(
    selector: DefaultRouteSelector,
    unicast: Seq<Locator>,
    multicast: Seq<Locator>,
    loopback: Seq<Locator>,
    observed: Option<Observation>,
    ifaces: Seq<InterfaceSelector>,
)
    ensures
        is_route_for(
            selector.route(unicast, multicast, loopback, observed, ifaces),
            selector.prefer_loopback_same_host,
            unicast,
            multicast,
            loopback,
            observed,
            ifaces,
        ),
{
    if let Some(o) = observed {
        lemma_first_udp(loopback);
        lemma_first_udp(multicast);
        lemma_first_with_ip(unicast, o.source.spec_ip());
        let udp = |l: Locator| l is UdpV4 || l is UdpV6;
        if let Some(l) = first_udp(loopback) {
            let i = choose|i: int|
                0 <= i < loopback.len() && #[trigger] loopback[i] == l && udp(l) && forall|j: int|
                    0 <= j < i ==> !udp(#[trigger] loopback[j]);
            assert(udp(loopback[i]));
        }
    }
}

/// What was last heard of a participant is what its routes go by, until it is forgotten;
/// nothing that is heard of one changes what is known of another.
pub proof fn law_observations_are_of_each_participant(
    before: InterfaceObservations,
    recorded: InterfaceObservations,
    removed: InterfaceObservations,
    prefix: GuidPrefix,
    observation: Observation,
    other: GuidPrefix,
)
    requires
        recorded.by_participant@ == before.by_participant@.insert(prefix.rank(), observation),
        removed.by_participant@ == before.by_participant@.remove(prefix.rank()),
        other.rank() != prefix.rank(),
    ensures
        recorded.spec_get(prefix) == Some(observation),
        recorded.spec_get(other) == before.spec_get(other),
        removed.spec_get(prefix) is None,
        removed.spec_get(other) == before.spec_get(other),
{
}

} // verus!
