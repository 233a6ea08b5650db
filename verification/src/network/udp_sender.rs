//! Deciding which sockets a datagram goes out on, and in which order.
//!
//! Handing a datagram to a socket is left to the caller, who reports what came of it.

use std::collections::VecDeque;

use vstd::prelude::*;

use crate::rtps::outbound::{Datagram, SendOutcome, SocketId};
use crate::rtps::transmit::InterfaceSelector;
use crate::structure::lists::lemma_pushed;
use crate::structure::locator::{Locator, SocketAddr};
use crate::structure::sorted_map::{SortKey, SortedMap};

verus! {

/// The sockets of a sender, and the control datagrams that wait for them.
///
/// There is one socket for unicast, and for multicast one per interface.
pub struct UDPSender {
    /// The interface of each multicast socket.
    pub interfaces: Vec<InterfaceSelector>,
    /// Control datagrams that a congested socket could not take yet.
    pub control_queues: SortedMap<SocketId, VecDeque<Datagram>>,
}

/// All multicast sockets.
pub open spec fn all_multicast(count: nat) -> Seq<SocketId> {
    Seq::new(count, |i: int| SocketId::Multicast(i as usize))
}

/// The position of an interface in a list.
pub open spec fn position(ifaces: Seq<InterfaceSelector>, wanted: InterfaceSelector) -> Option<int>
    decreases ifaces.len(),
{
    if ifaces.len() == 0 {
        None
    } else {
        match position(ifaces.drop_last(), wanted) {
            Some(i) => Some(i),
            None => if ifaces.last() == wanted {
                Some(ifaces.len() - 1)
            } else {
                None
            },
        }
    }
}

/// The address that a datagram is sent to, and the sockets that it is sent on.
pub struct Targets {
    pub addr: SocketAddr,
    pub sockets: Vec<SocketId>,
}

/// The sockets for an address: for multicast all of that kind, else the one for unicast.
pub open spec fn sockets_for(addr: SocketAddr, count: nat) -> Seq<SocketId> {
    if addr.spec_ip().spec_is_multicast() {
        all_multicast(count)
    } else {
        seq![SocketId::Unicast]
    }
}

/// The sockets for an address where multicast goes over one interface; over all where
/// there is no such interface, so that nothing is lost.
pub open spec fn sockets_via(
    addr: SocketAddr,
    ifaces: Seq<InterfaceSelector>,
    interface: InterfaceSelector,
) -> Seq<SocketId> {
    if addr.spec_ip().spec_is_multicast() {
        match position(ifaces, interface) {
            Some(i) => seq![SocketId::Multicast(i as usize)],
            None => all_multicast(ifaces.len()),
        }
    } else {
        seq![SocketId::Unicast]
    }
}

/// What is to be done with a control datagram.
pub enum ControlStep {
    /// Hand it to the socket, and report what came of it.
    SendNow(Datagram),
    /// It waits behind others.
    Queued,
}

impl UDPSender {
    pub open spec fn wf(self) -> bool {
        self.control_queues@.dom().finite()
    }

    /// The control datagrams that wait for a socket, the oldest first.
    pub open spec fn waiting(self, id: SocketId) -> Seq<Datagram> {
        if self.control_queues@.contains_key(id.rank()) {
            self.control_queues@[id.rank()]@
        } else {
            Seq::empty()
        }
    }

    /// Nothing but what waits for socket `id` differs from `before`.
    pub open spec fn same_but_for(self, before: Self, id: SocketId) -> bool {
        &&& self.interfaces == before.interfaces
        &&& forall|other: SocketId| other != id ==> #[trigger] self.waiting(other)
            == before.waiting(other)
    }

    /// `self` is `before` once a control datagram was to go to socket `id`, and `step` is what
    /// is to be done with it. Where others wait it waits behind them.
    pub open spec fn has_offered(
        self,
        before: Self,
        id: SocketId,
        datagram: Datagram,
        step: ControlStep,
    ) -> bool {
        if before.waiting(id).len() > 0 {
            &&& step is Queued
            &&& self.waiting(id) == before.waiting(id).push(datagram)
            &&& self.same_but_for(before, id)
        } else {
            &&& step == ControlStep::SendNow(datagram)
            &&& self == before
        }
    }

    /// `self` is `before` once it was reported what came of a control datagram. One that the
    /// socket could not take now waits.
    pub open spec fn has_heard(
        self,
        before: Self,
        id: SocketId,
        datagram: Datagram,
        outcome: SendOutcome,
    ) -> bool {
        if outcome == SendOutcome::WouldBlock {
            &&& self.waiting(id) == before.waiting(id).push(datagram)
            &&& self.same_but_for(before, id)
        } else {
            self == before
        }
    }

    /// `self` is `before` once it was reported what came of the oldest control datagram that
    /// waited. It goes on waiting where the socket could not take it now.
    pub open spec fn has_retried(self, before: Self, id: SocketId, outcome: SendOutcome) -> bool {
        if outcome == SendOutcome::WouldBlock {
            self == before
        } else {
            &&& self.waiting(id) == before.waiting(id).skip(1)
            &&& self.same_but_for(before, id)
        }
    }

    pub fn new_with_networks(interfaces: Vec<InterfaceSelector>) -> (s: Self)
        ensures
            s.wf(),
            s.interfaces == interfaces,
            forall|id: SocketId| #[trigger] s.waiting(id) == Seq::<Datagram>::empty(),
    {
        UDPSender { interfaces, control_queues: SortedMap::new() }
    }

    /// All sockets of the sender.
    pub fn socket_ids(&self) -> (ids: Vec<SocketId>)
        ensures
            ids@ == seq![SocketId::Unicast] + all_multicast(self.interfaces@.len()),
    {
        let mut ids: Vec<SocketId> = Vec::new();
        ids.push(SocketId::Unicast);
        let mut rest: Vec<SocketId> = self.multicast_sockets();
        ids.append(&mut rest);
        assert(ids@ =~= seq![SocketId::Unicast] + all_multicast(self.interfaces@.len()));
        ids
    }

    fn multicast_sockets(&self) -> (ids: Vec<SocketId>)
        ensures
            ids@ == all_multicast(self.interfaces@.len()),
    {
        let mut ids: Vec<SocketId> = Vec::new();
        let mut i: usize = 0;
        while i < self.interfaces.len()
            invariant
                i <= self.interfaces@.len(),
                ids@ == all_multicast(i as nat),
            decreases self.interfaces@.len() - i,
        {
            ids.push(SocketId::Multicast(i));
            i += 1;
            assert(ids@ =~= all_multicast(i as nat));
        }
        ids
    }

    /// The interfaces that multicast can go out on.
    pub fn multicast_interfaces(&self) -> (ifaces: Vec<InterfaceSelector>)
        ensures
            ifaces@ == self.interfaces@,
    {
        let mut copy: Vec<InterfaceSelector> = Vec::new();
        let mut i: usize = 0;
        while i < self.interfaces.len()
            invariant
                i <= self.interfaces@.len(),
                copy@ == self.interfaces@.take(i as int),
            decreases self.interfaces@.len() - i,
        {
            copy.push(self.interfaces[i]);
            i += 1;
            assert(self.interfaces@.take(i as int) =~= self.interfaces@.take(i - 1).push(
                self.interfaces@[i - 1],
            ));
        }
        assert(self.interfaces@.take(i as int) =~= self.interfaces@);
        copy
    }

    /// The socket for multicast over an interface.
    fn multicast_socket_id_for(&self, interface: &InterfaceSelector) -> (r: Option<SocketId>)
        ensures
            r == (match position(self.interfaces@, *interface) {
                Some(i) => Some(SocketId::Multicast(i as usize)),
                None => None,
            }),
            position(self.interfaces@, *interface) matches Some(i) ==> 0 <= i
                < self.interfaces@.len(),
    {
        let mut found: Option<usize> = None;
        let mut i: usize = 0;
        while i < self.interfaces.len()
            invariant
                i <= self.interfaces@.len(),
                match found {
                    Some(k) => k < i && position(self.interfaces@.take(i as int), *interface)
                        == Some(k as int),
                    None => position(self.interfaces@.take(i as int), *interface) is None,
                },
            decreases self.interfaces@.len() - i,
        {
            let here: bool = self.interfaces[i] == *interface;
            i += 1;
            assert(self.interfaces@.take(i as int).drop_last() =~= self.interfaces@.take(i - 1));
            assert(self.interfaces@.take(i as int).last() == self.interfaces@[i - 1]);
            if found.is_none() && here {
                found = Some(i - 1);
            }
        }
        assert(self.interfaces@.take(i as int) =~= self.interfaces@);
        match found {
            Some(k) => Some(SocketId::Multicast(k)),
            None => None,
        }
    }

    /// Where a datagram for a locator goes. There is no place for one that is not of UDP.
    pub fn targets_of(&self, locator: &Locator) -> (r: Option<Targets>)
        ensures
            r is Some <==> locator.spec_socket_addr() is Some,
            r matches Some(t) ==> locator.spec_socket_addr() == Some(t.addr) && t.sockets@
                == sockets_for(t.addr, self.interfaces@.len()),
    {
        match locator.socket_addr() {
            None => None,
            Some(addr) => {
                let sockets: Vec<SocketId> = if addr.ip().is_multicast() {
                    self.multicast_sockets()
                } else {
                    unicast_only()
                };
                Some(Targets { addr, sockets })
            },
        }
    }

    /// Where a datagram for a locator goes that is to go out over one interface.
    pub fn targets_via(&self, locator: &Locator, interface: &InterfaceSelector) -> (r: Option<
        Targets,
    >)
        ensures
            r is Some <==> locator.spec_socket_addr() is Some,
            r matches Some(t) ==> locator.spec_socket_addr() == Some(t.addr) && t.sockets@
                == sockets_via(t.addr, self.interfaces@, *interface),
    {
        match locator.socket_addr() {
            None => None,
            Some(addr) => {
                let sockets: Vec<SocketId> = if addr.ip().is_multicast() {
                    match self.multicast_socket_id_for(interface) {
                        Some(id) => {
                            let mut one: Vec<SocketId> = Vec::new();
                            one.push(id);
                            assert(one@ =~= seq![id]);
                            one
                        },
                        None => self.multicast_sockets(),
                    }
                } else {
                    unicast_only()
                };
                Some(Targets { addr, sockets })
            },
        }
    }

    /// Does control wait for this socket?
    pub fn control_queue_nonempty(&self, id: SocketId) -> (r: bool)
        ensures
            r == (self.waiting(id).len() > 0),
    {
        match self.control_queues.get(&id) {
            Some(q) => q.len() > 0,
            None => false,
        }
    }

    /// Appends a datagram to what waits for a socket.
    fn enqueue(&mut self, id: SocketId, datagram: Datagram)
        requires
            old(self).wf(),
        ensures
            final(self).wf(),
            final(self).waiting(id) == old(self).waiting(id).push(datagram),
            final(self).same_but_for(*old(self), id),
    {
        let mut queue: VecDeque<Datagram> = match self.control_queues.remove(&id) {
            Some(q) => q,
            None => VecDeque::new(),
        };
        queue.push_back(datagram);
        self.control_queues.insert(id, queue);
        proof {
            assert forall|other: SocketId| other != id implies #[trigger] self.waiting(other)
                == old(self).waiting(other) by {
                SocketId::lemma_rank_injective(other, id);
            }
        }
    }

    /// A control datagram goes to a socket. Where others wait it waits behind them, so
    /// that the order is kept.
    pub fn control_send_one(&mut self, id: SocketId, datagram: Datagram) -> (step: ControlStep)
        requires
            old(self).wf(),
        ensures
            final(self).wf(),
            final(self).has_offered(*old(self), id, datagram, step),
    {
        if self.control_queue_nonempty(id) {
            self.enqueue(id, datagram);
            ControlStep::Queued
        } else {
            ControlStep::SendNow(datagram)
        }
    }

    /// Takes the report on a control datagram that was handed to a socket. One that the
    /// socket could not take now waits.
    pub fn control_sent(&mut self, id: SocketId, datagram: Datagram, outcome: SendOutcome)
        requires
            old(self).wf(),
        ensures
            final(self).wf(),
            final(self).has_heard(*old(self), id, datagram, outcome),
    {
        match outcome {
            SendOutcome::Sent => {},
            SendOutcome::Dropped => {},
            SendOutcome::WouldBlock => {
                self.enqueue(id, datagram);
            },
        }
    }

    /// The oldest control datagram that waits for a socket.
    pub fn next_control(&self, id: SocketId) -> (r: Option<&Datagram>)
        ensures
            r is Some <==> self.waiting(id).len() > 0,
            r matches Some(d) ==> *d == self.waiting(id)[0],
    {
        match self.control_queues.get(&id) {
            Some(q) => if q.len() > 0 {
                Some(&q[0])
            } else {
                None
            },
            None => None,
        }
    }

    /// Takes the report on the oldest control datagram that waited for a socket. Gives
    /// whether to go on with the next one.
    pub fn flush_control(&mut self, id: SocketId, outcome: SendOutcome) -> (go_on: bool)
        requires
            old(self).wf(),
            old(self).waiting(id).len() > 0,
        ensures
            final(self).wf(),
            go_on == (outcome != SendOutcome::WouldBlock),
            final(self).has_retried(*old(self), id, outcome),
    {
        match outcome {
            SendOutcome::WouldBlock => false,
            _ => {
                if let Some(mut queue) = self.control_queues.remove(&id) {
                    let _front: Option<Datagram> = queue.pop_front();
                    self.control_queues.insert(id, queue);
                }
                proof {
                    assert(self.waiting(id) =~= old(self).waiting(id).skip(1));
                    assert forall|other: SocketId| other != id implies #[trigger] self.waiting(
                        other,
                    ) == old(self).waiting(other) by {
                        SocketId::lemma_rank_injective(other, id);
                    }
                }
                true
            },
        }
    }

    /// The sockets that control waits for, in order.
    pub fn pending_control_sockets(&self) -> (ids: Vec<SocketId>)
        ensures
            ids@.no_duplicates(),
            forall|id: SocketId| #[trigger]
                ids@.contains(id) <==> self.waiting(id).len() > 0,
    {
        let keys: Vec<SocketId> = self.control_queues.key_list();
        let mut ids: Vec<SocketId> = Vec::new();
        let mut i: usize = 0;
        while i < keys.len()
            invariant
                i <= keys@.len(),
                forall|j: int, k: int|
                    0 <= j < k < keys@.len() ==> keys@[j].rank() < keys@[k].rank(),
                ids@.no_duplicates(),
                forall|id: SocketId| #[trigger]
                    ids@.contains(id) <==> self.waiting(id).len() > 0 && keys@.take(
                        i as int,
                    ).contains(id),
            decreases keys@.len() - i,
        {
            let id: SocketId = keys[i];
            let ghost before = ids@;
            let ghost shorter = keys@.take(i as int);
            proof {
                assert(!shorter.contains(id)) by {
                    if shorter.contains(id) {
                        let j = choose|j: int| 0 <= j < shorter.len() && shorter[j] == id;
                        assert(keys@[j].rank() < keys@[i as int].rank());
                    }
                }
            }
            proof {
                assert(!before.contains(id));
                assert forall|k: int| 0 <= k < before.len() implies before[k] != id by {
                    assert(before.contains(before[k]));
                }
            }
            if self.control_queue_nonempty(id) {
                ids.push(id);
            }
            i += 1;
            proof {
                let longer = keys@.take(i as int);
                assert forall|x: SocketId| #[trigger] longer.contains(x) <==> shorter.contains(x)
                    || x == id by {
                    if shorter.contains(x) {
                        let j = choose|j: int| 0 <= j < shorter.len() && shorter[j] == x;
                        assert(longer[j] == x);
                    }
                    assert(longer[i - 1] == id);
                }
                assert forall|x: SocketId| #[trigger] before.push(id).contains(x)
                    <==> before.contains(x) || x == id by {
                    if before.contains(x) {
                        let j = choose|j: int| 0 <= j < before.len() && before[j] == x;
                        assert(before.push(id)[j] == x);
                    }
                    assert(before.push(id)[before.len() as int] == id);
                }
            }
        }
        proof {
            assert(keys@.take(i as int) =~= keys@);
            assert forall|id: SocketId| self.waiting(id).len() > 0 implies #[trigger] keys@.contains(
                id,
            ) by {
                let j = choose|j: int|
                    0 <= j < self.control_queues.keys().len() && (
                    #[trigger] self.control_queues.keys()[j]).rank() == id.rank();
                SocketId::lemma_rank_injective(keys@[j], id);
                assert(keys@[j] == id);
            }
        }
        ids
    }

    /// May a bulk datagram be handed to this socket? Control goes first.
    pub fn bulk_may_send(&self, id: SocketId) -> (r: bool)
        ensures
            r == (self.waiting(id).len() == 0),
    {
        !self.control_queue_nonempty(id)
    }
}

/// What happens to the control datagrams of a socket.
pub enum ControlEvent {
    /// One is to go to the socket, and waits behind others.
    Queued { datagram: Datagram },
    /// One is to go to the socket, and is handed to it at once.
    Tried { datagram: Datagram, outcome: SendOutcome },
    /// The oldest that waits is handed to the socket.
    Retried { outcome: SendOutcome },
}

/// `after` is `before` once something happened to the control datagrams of socket `id`.
pub open spec fn is_control_event(
    before: UDPSender,
    event: ControlEvent,
    after: UDPSender,
    id: SocketId,
) -> bool {
    match event {
        ControlEvent::Queued { datagram } => after.has_offered(
            before,
            id,
            datagram,
            ControlStep::Queued,
        ),
        ControlEvent::Tried { datagram, outcome } => before.has_offered(
            before,
            id,
            datagram,
            ControlStep::SendNow(datagram),
        ) && after.has_heard(before, id, datagram, outcome),
        ControlEvent::Retried { outcome } => before.waiting(id).len() > 0 && after.has_retried(
            before,
            id,
            outcome,
        ),
    }
}

/// The control datagrams that were to go to a socket in the first `n` events.
pub open spec fn handed_in(events: Seq<ControlEvent>, n: int) -> Seq<Datagram>
    decreases n,
{
    if n <= 0 {
        Seq::empty()
    } else {
        match events[n - 1] {
            ControlEvent::Queued { datagram } => handed_in(events, n - 1).push(datagram),
            ControlEvent::Tried { datagram, .. } => handed_in(events, n - 1).push(datagram),
            ControlEvent::Retried { .. } => handed_in(events, n - 1),
        }
    }
}

/// The control datagrams that socket `id` took, or refused for good, in the first `n`
/// events.
pub open spec fn done_with(
    states: Seq<UDPSender>,
    events: Seq<ControlEvent>,
    id: SocketId,
    n: int,
) -> Seq<Datagram>
    decreases n,
{
    if n <= 0 {
        Seq::empty()
    } else {
        let before = done_with(states, events, id, n - 1);
        match events[n - 1] {
            ControlEvent::Tried { datagram, outcome } if outcome != SendOutcome::WouldBlock => {
                before.push(datagram)
            },
            ControlEvent::Retried { outcome } if outcome != SendOutcome::WouldBlock => {
                before.push(states[n - 1].waiting(id)[0])
            },
            _ => before,
        }
    }
}

/// Control datagrams are never lost and keep their order: those that a socket is done with,
/// and after them those that wait for it, are what was to go to it, in the order in which
/// it came.
pub proof fn law_control_is_kept_in_order(
    states: Seq<UDPSender>,
    events: Seq<ControlEvent>,
    id: SocketId,
    n: int,
)
    requires
        0 <= n <= events.len(),
        states.len() == events.len() + 1,
        states[0].waiting(id) == Seq::<Datagram>::empty(),
        forall|i: int|
            0 <= i < events.len() ==> is_control_event(
                states[i],
                #[trigger] events[i],
                states[i + 1],
                id,
            ),
    ensures
        done_with(states, events, id, n) + states[n].waiting(id) == handed_in(events, n),
    decreases n,
{
    if n > 0 {
        law_control_is_kept_in_order(states, events, id, n - 1);
        assert(is_control_event(states[n - 1], events[n - 1], states[n], id));
        let waiting = states[n - 1].waiting(id);
        let done = done_with(states, events, id, n - 1);
        match events[n - 1] {
            ControlEvent::Retried { outcome } => {
                if outcome != SendOutcome::WouldBlock {
                    assert(done.push(waiting[0]) + waiting.skip(1) =~= done + waiting);
                }
            },
            ControlEvent::Queued { datagram } => {
                assert(done + waiting.push(datagram) =~= (done + waiting).push(datagram));
            },
            ControlEvent::Tried { datagram, outcome } => {
                assert(waiting =~= Seq::empty());
                assert(done + waiting.push(datagram) =~= (done + waiting).push(datagram));
                assert(done.push(datagram) + waiting =~= (done + waiting).push(datagram));
            },
        }
    }
}

/// What came of one bulk datagram: the socket could not take it where control waits for
/// it, else what the socket reported.
pub fn bulk_send_one(may_send: bool, reported: SendOutcome) -> (outcome: SendOutcome)
    ensures
        outcome == (if may_send {
            reported
        } else {
            SendOutcome::WouldBlock
        }),
{
    if may_send {
        reported
    } else {
        SendOutcome::WouldBlock
    }
}

/// What came of handing a datagram to a socket, from what the system says: whether it was
/// taken, and if not, whether it may be taken later.
pub fn raw_send_outcome(taken: bool, would_block: bool) -> (outcome: SendOutcome)
    ensures
        outcome == (if taken {
            SendOutcome::Sent
        } else if would_block {
            SendOutcome::WouldBlock
        } else {
            SendOutcome::Dropped
        }),
{
    if taken {
        SendOutcome::Sent
    } else if would_block {
        SendOutcome::WouldBlock
    } else {
        SendOutcome::Dropped
    }
}

/// The sockets of a list that could not take a datagram now, in order.
pub open spec fn blocked_of(sockets: Seq<SocketId>, outcomes: Seq<SendOutcome>) -> Seq<SocketId>
    decreases sockets.len(),
{
    if sockets.len() == 0 || outcomes.len() < sockets.len() {
        Seq::empty()
    } else {
        let before = blocked_of(sockets.drop_last(), outcomes);
        if outcomes[sockets.len() - 1] == SendOutcome::WouldBlock {
            before.push(sockets.last())
        } else {
            before
        }
    }
}

/// Which sockets could not take a bulk datagram now, given what came of each.
pub fn blocked_sockets(sockets: &Vec<SocketId>, outcomes: &Vec<SendOutcome>) -> (blocked: Vec<
    SocketId,
>)
    requires
        outcomes@.len() == sockets@.len(),
    ensures
        blocked@ == blocked_of(sockets@, outcomes@),
{
    let mut blocked: Vec<SocketId> = Vec::new();
    let mut i: usize = 0;
    while i < sockets.len()
        invariant
            i <= sockets@.len(),
            outcomes@.len() == sockets@.len(),
            blocked@ == blocked_of(sockets@.take(i as int), outcomes@),
        decreases sockets@.len() - i,
    {
        let outcome: SendOutcome = outcomes[i];
        if outcome == SendOutcome::WouldBlock {
            blocked.push(sockets[i]);
        }
        i += 1;
        assert(sockets@.take(i as int).drop_last() =~= sockets@.take(i - 1));
    }
    assert(sockets@.take(i as int) =~= sockets@);
    blocked
}

fn unicast_only() -> (ids: Vec<SocketId>)
    ensures
        ids@ == seq![SocketId::Unicast],
{
    let mut ids: Vec<SocketId> = Vec::new();
    ids.push(SocketId::Unicast);
    assert(ids@ =~= seq![SocketId::Unicast]);
    ids
}

proof fn lemma_position(ifaces: Seq<InterfaceSelector>, wanted: InterfaceSelector)
    ensures
        match position(ifaces, wanted) {
            Some(i) => 0 <= i < ifaces.len() && ifaces[i] == wanted && forall|j: int|
                0 <= j < i ==> #[trigger] ifaces[j] != wanted,
            None => !ifaces.contains(wanted),
        },
    decreases ifaces.len(),
{
    if ifaces.len() > 0 {
        let rest = ifaces.drop_last();
        let n = ifaces.len() - 1;
        lemma_position(rest, wanted);
        assert(forall|j: int| 0 <= j < n ==> #[trigger] ifaces[j] == rest[j]);
        assert(ifaces[n] == ifaces.last());
        if position(rest, wanted) is None {
            assert forall|j: int| 0 <= j < n implies #[trigger] ifaces[j] != wanted by {
                assert(rest[j] == ifaces[j]);
                assert(rest.contains(rest[j]));
            }
        }
    }
}

/// A datagram to a group goes out over every interface, or over the one that is asked for
/// where there is such a one; any other over the socket for unicast. The address is that of
/// the locator.
pub proof fn law_datagrams_go_out_where_they_are_heard(
    sender: UDPSender,
    locator: Locator,
    interface: InterfaceSelector,
    everywhere: Option<Targets>,
    narrowed: Option<Targets>,
    id: SocketId,
)
    requires
        call_ensures(UDPSender::targets_of, (&sender, &locator), everywhere),
        call_ensures(UDPSender::targets_via, (&sender, &locator, &interface), narrowed),
        sender.interfaces@.len() <= usize::MAX,
    ensures
        everywhere is Some <==> locator is UdpV4 || locator is UdpV6,
        narrowed is Some <==> locator is UdpV4 || locator is UdpV6,
        everywhere matches Some(t) ==> {
            let group = t.addr.spec_ip().spec_is_multicast();
            &&& locator.spec_socket_addr() == Some(t.addr)
            &&& t.sockets@.contains(id) <==> match id {
                SocketId::Unicast => !group,
                SocketId::Multicast(i) => group && i < sender.interfaces@.len(),
            }
        },
        narrowed matches Some(t) ==> {
            let group = t.addr.spec_ip().spec_is_multicast();
            let there = sender.interfaces@.contains(interface);
            &&& locator.spec_socket_addr() == Some(t.addr)
            &&& !group ==> t.sockets@ == seq![SocketId::Unicast]
            &&& group && there ==> t.sockets@.len() == 1 && (
            t.sockets@[0] matches SocketId::Multicast(i) && i < sender.interfaces@.len()
                && sender.interfaces@[i as int] == interface)
            &&& group && !there ==> (t.sockets@.contains(id) <==> (
            id matches SocketId::Multicast(i) && i < sender.interfaces@.len()))
        },
{
    let n = sender.interfaces@.len();
    let all = all_multicast(n);
    lemma_position(sender.interfaces@, interface);
    assert(all.contains(id) <==> (id matches SocketId::Multicast(i) && i < n)) by {
        if all.contains(id) {
            let k = choose|k: int| 0 <= k < all.len() && all[k] == id;
        }
        if id is Multicast && id->Multicast_0 < n {
            assert(all[id->Multicast_0 as int] == id);
        }
    }
    let one = seq![SocketId::Unicast];
    assert(one.contains(id) <==> id is Unicast) by {
        assert(one[0] is Unicast);
    }
    if let Some(i) = position(sender.interfaces@, interface) {
        assert(sender.interfaces@.contains(sender.interfaces@[i]));
    }
}

/// Just those sockets are reported as blocked that could not take the datagram now.
pub proof fn law_blocked_sockets_are_reported(
    sockets: Seq<SocketId>,
    outcomes: Seq<SendOutcome>,
    id: SocketId,
)
    requires
        outcomes.len() >= sockets.len(),
    ensures
        blocked_of(sockets, outcomes).contains(id) <==> exists|i: int|
            0 <= i < sockets.len() && #[trigger] sockets[i] == id && outcomes[i]
                == SendOutcome::WouldBlock,
        blocked_of(sockets, outcomes).len() <= sockets.len(),
    decreases sockets.len(),
{
    if sockets.len() > 0 {
        let rest = sockets.drop_last();
        let n = sockets.len() - 1;
        law_blocked_sockets_are_reported(rest, outcomes, id);
        let before = blocked_of(rest, outcomes);
        assert(sockets[n] == sockets.last());
        lemma_pushed(before, sockets[n], id);
        if before.contains(id) {
            let i = choose|i: int|
                0 <= i < rest.len() && #[trigger] rest[i] == id && outcomes[i]
                    == SendOutcome::WouldBlock;
            assert(sockets[i] == id);
        }
        if exists|i: int|
            0 <= i < sockets.len() && #[trigger] sockets[i] == id && outcomes[i]
                == SendOutcome::WouldBlock {
            let i = choose|i: int|
                0 <= i < sockets.len() && #[trigger] sockets[i] == id && outcomes[i]
                    == SendOutcome::WouldBlock;
            if i < n {
                assert(rest[i] == id);
            }
        }
    }
}

} // verus!
