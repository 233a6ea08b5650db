//! The decisions of the event loop of a participant.
//!
//! Waiting for events, channels, timers and sockets are left to the caller, who hands in
//! what happened and performs what is decided here.

use std::collections::VecDeque;

use vstd::prelude::*;

use crate::dds::qos::Reliability;
use crate::network::constant::{spec_spdp_well_known_unicast_port, SPDP_LOCALHOST_PEER_COUNT};
use crate::network::udp_sender::{all_multicast, UDPSender};
use crate::network::util::{localhost_spdp_peer_locators, localhost_spdp_peers, IfAddr};
use crate::rtps::constant::{
    ACKNACK_MESSAGE_TO_LOCAL_WRITER_TOKEN, ADD_READER_TOKEN, ADD_WRITER_TOKEN,
    CACHE_CLEAN_PERIOD_SECONDS, DISCOVERY_LISTENER_TOKEN, DISCOVERY_MUL_LISTENER_TOKEN,
    DISCOVERY_UPDATE_NOTIFICATION_TOKEN, DPEV_TIMER_TOKEN, MAX_LISTENER_MESSAGES_PER_POLL,
    POLL_TIMEOUT_IDLE_MILLIS, POLL_TIMEOUT_PENDING_MILLIS, PREEMPTIVE_ACKNACK_PERIOD_SECONDS,
    REMOVE_READER_TOKEN, REMOVE_WRITER_TOKEN, STOP_POLL_TOKEN, USER_TRAFFIC_LISTENER_TOKEN,
    USER_TRAFFIC_MUL_LISTENER_TOKEN,
};
use crate::rtps::event_token::{sender_writable_socket_id, socket_of, TokenDecode};
use crate::rtps::outbound::SocketId;
use crate::rtps::transmit::{InterfaceObservations, Observation};
use crate::rtps::writer::{TimedEvent, TimerRequest, Writer, WriterIngredients};
use crate::structure::guid::{EntityId, GuidPrefix, GUID};
use crate::structure::lists::lemma_pushed;
use crate::structure::locator::Locator;
use crate::structure::sorted_map::{SortKey, SortedMap};
use crate::structure::time::Duration;

verus! {

/// Which participant of which domain this is.
#[derive(Clone, Copy, Debug, PartialEq, Eq, Structural)]
pub struct DomainInfo {
    pub domain_participant_guid: GUID,
    pub domain_id: u16,
    pub participant_id: u16,
}

/// A command of the application to the event loop.
#[derive(Clone, Copy, Debug, PartialEq, Eq, Structural)]
pub enum EventLoopCommand {
    Stop,
    PrepareStop,
}

/// What a look into the channel of commands gave.
#[derive(Clone, Copy, Debug, PartialEq, Eq, Structural)]
pub enum CommandRead {
    Command(EventLoopCommand),
    /// There is no command now.
    Empty,
    /// There never will be a command again: the application is gone.
    Disconnected,
}

/// What to do after a look into the channel of commands.
#[derive(Clone, Copy, Debug, PartialEq, Eq, Structural)]
pub enum CommandStep {
    /// Look for another command.
    ReadMore,
    /// Go on with other events.
    Done,
    /// Leave the event loop.
    Quit,
}

/// What the timer of the event loop tells.
#[derive(Clone, Copy, Debug, PartialEq, Eq, Structural)]
pub enum DpTimerEvent {
    PreemptiveAcknack,
    CacheGc,
    /// A reader is to look for missed deadlines.
    Reader { entity_id: EntityId },
    Writer { entity_id: EntityId, event: TimedEvent },
}

/// An event that the timer is to tell after a while.
#[derive(Clone, Copy, Debug, PartialEq, Eq, Structural)]
pub struct DpTimerRequest {
    pub after: Duration,
    pub event: DpTimerEvent,
}

/// What to do about a timed event.
#[derive(Clone, Copy, Debug, PartialEq, Eq, Structural)]
pub enum TimerAction {
    SendPreemptiveAcknacks,
    CollectGarbage,
    /// Hand it to this reader, if it is still there.
    ToReader(EntityId),
    /// Hand it to this writer.
    ToWriter(EntityId, TimedEvent),
    /// The writer is gone.
    Nothing,
}

/// How a source of events is watched.
#[derive(Clone, Copy, Debug, PartialEq, Eq, Structural)]
pub struct Registration {
    pub token: usize,
    /// Is it told again and again while there is something to read, or only when
    /// something comes?
    pub level: bool,
}

/// What to do about an event.
#[derive(Clone, Copy, Debug, PartialEq, Eq, Structural)]
pub enum EventAction {
    /// Look into the channel of commands.
    ReadCommands,
    /// Handle at most so many datagrams of the listener with this token.
    Receive { listener: usize, limit: usize },
    AddReaders,
    CollectReaderRemovals,
    AddWriters,
    CollectWriterRemovals,
    HandleAckNacks,
    HandleDiscoveryUpdates,
    HandleTimers,
    /// A socket can take messages.
    ServeSocket(SocketId),
    /// A local reader has a command.
    ReaderCommand(EntityId),
    /// A local writer has samples to send.
    WriterDoorbell(EntityId),
    /// Nobody registered such an event.
    Unexpected,
}

/// What an event from a fixed source asks for.
pub open spec fn fixed_action(token: usize) -> EventAction {
    if token == STOP_POLL_TOKEN {
        EventAction::ReadCommands
    } else if token == DISCOVERY_LISTENER_TOKEN || token == DISCOVERY_MUL_LISTENER_TOKEN || token
        == USER_TRAFFIC_LISTENER_TOKEN || token == USER_TRAFFIC_MUL_LISTENER_TOKEN {
        EventAction::Receive { listener: token, limit: MAX_LISTENER_MESSAGES_PER_POLL }
    } else if token == ADD_READER_TOKEN {
        EventAction::AddReaders
    } else if token == REMOVE_READER_TOKEN {
        EventAction::CollectReaderRemovals
    } else if token == ADD_WRITER_TOKEN {
        EventAction::AddWriters
    } else if token == REMOVE_WRITER_TOKEN {
        EventAction::CollectWriterRemovals
    } else if token == ACKNACK_MESSAGE_TO_LOCAL_WRITER_TOKEN {
        EventAction::HandleAckNacks
    } else if token == DISCOVERY_UPDATE_NOTIFICATION_TOKEN {
        EventAction::HandleDiscoveryUpdates
    } else if token == DPEV_TIMER_TOKEN {
        EventAction::HandleTimers
    } else {
        match socket_of(token as int) {
            Some(id) => EventAction::ServeSocket(id),
            None => EventAction::Unexpected,
        }
    }
}

/// What an event asks for.
pub open spec fn action_for(source: TokenDecode) -> EventAction {
    match source {
        TokenDecode::FixedToken(token) => fixed_action(token),
        TokenDecode::Entity(id) => if id.entity_kind.spec_is_reader() {
            EventAction::ReaderCommand(id)
        } else if id.entity_kind.spec_is_writer() {
            EventAction::WriterDoorbell(id)
        } else {
            EventAction::Unexpected
        },
        TokenDecode::AltEntity(_) => EventAction::Unexpected,
    }
}

/// Tells what an event asks for.
pub fn dispatch(source: TokenDecode) -> (action: EventAction)
    ensures
        action == action_for(source),
{
    match source {
        TokenDecode::FixedToken(token) => {
            if token == STOP_POLL_TOKEN {
                EventAction::ReadCommands
            } else if token == DISCOVERY_LISTENER_TOKEN || token == DISCOVERY_MUL_LISTENER_TOKEN
                || token == USER_TRAFFIC_LISTENER_TOKEN || token
                == USER_TRAFFIC_MUL_LISTENER_TOKEN {
                EventAction::Receive { listener: token, limit: MAX_LISTENER_MESSAGES_PER_POLL }
            } else if token == ADD_READER_TOKEN {
                EventAction::AddReaders
            } else if token == REMOVE_READER_TOKEN {
                EventAction::CollectReaderRemovals
            } else if token == ADD_WRITER_TOKEN {
                EventAction::AddWriters
            } else if token == REMOVE_WRITER_TOKEN {
                EventAction::CollectWriterRemovals
            } else if token == ACKNACK_MESSAGE_TO_LOCAL_WRITER_TOKEN {
                EventAction::HandleAckNacks
            } else if token == DISCOVERY_UPDATE_NOTIFICATION_TOKEN {
                EventAction::HandleDiscoveryUpdates
            } else if token == DPEV_TIMER_TOKEN {
                EventAction::HandleTimers
            } else {
                match sender_writable_socket_id(token) {
                    Some(id) => EventAction::ServeSocket(id),
                    None => EventAction::Unexpected,
                }
            }
        },
        TokenDecode::Entity(id) => {
            if id.kind().is_reader() {
                EventAction::ReaderCommand(id)
            } else if id.kind().is_writer() {
                EventAction::WriterDoorbell(id)
            } else {
                EventAction::Unexpected
            }
        },
        TokenDecode::AltEntity(_) => EventAction::Unexpected,
    }
}

/// The sources that every event loop watches besides its listeners.
pub fn registrations() -> (list: Vec<Registration>)
    ensures
        list@ == seq![
            Registration { token: ADD_READER_TOKEN, level: false },
            Registration { token: REMOVE_READER_TOKEN, level: false },
            Registration { token: ADD_WRITER_TOKEN, level: false },
            Registration { token: REMOVE_WRITER_TOKEN, level: false },
            Registration { token: STOP_POLL_TOKEN, level: false },
            Registration { token: ACKNACK_MESSAGE_TO_LOCAL_WRITER_TOKEN, level: false },
            Registration { token: DISCOVERY_UPDATE_NOTIFICATION_TOKEN, level: false },
            Registration { token: DPEV_TIMER_TOKEN, level: true },
        ],
{
    let list: Vec<Registration> = vec![
        Registration { token: ADD_READER_TOKEN, level: false },
        Registration { token: REMOVE_READER_TOKEN, level: false },
        Registration { token: ADD_WRITER_TOKEN, level: false },
        Registration { token: REMOVE_WRITER_TOKEN, level: false },
        Registration { token: STOP_POLL_TOKEN, level: false },
        Registration { token: ACKNACK_MESSAGE_TO_LOCAL_WRITER_TOKEN, level: false },
        Registration { token: DISCOVERY_UPDATE_NOTIFICATION_TOKEN, level: false },
        Registration { token: DPEV_TIMER_TOKEN, level: true },
    ];
    list
}

/// How a listener is watched: while datagrams are left, it is told again, so that the
/// bound on the datagrams handled at a time loses none.
pub fn listener_registration(token: usize) -> (r: Registration)
    ensures
        r == (Registration { token, level: true }),
{
    Registration { token, level: true }
}

/// Every source that is watched asks for something.
pub proof fn law_no_registration_is_unexpected(token: usize)
    requires
        token == ADD_READER_TOKEN || token == REMOVE_READER_TOKEN || token == ADD_WRITER_TOKEN
            || token == REMOVE_WRITER_TOKEN || token == STOP_POLL_TOKEN || token
            == ACKNACK_MESSAGE_TO_LOCAL_WRITER_TOKEN || token
            == DISCOVERY_UPDATE_NOTIFICATION_TOKEN || token == DPEV_TIMER_TOKEN || token
            == DISCOVERY_LISTENER_TOKEN || token == DISCOVERY_MUL_LISTENER_TOKEN || token
            == USER_TRAFFIC_LISTENER_TOKEN || token == USER_TRAFFIC_MUL_LISTENER_TOKEN
            || socket_of(token as int) is Some,
    ensures
        !(action_for(TokenDecode::FixedToken(token)) is Unexpected),
{
}

/// The period of acknowledgements that are sent before anything was received.
pub open spec fn preemptive_acknack_request() -> DpTimerRequest {
    DpTimerRequest {
        after: Duration {
            ticks: (PREEMPTIVE_ACKNACK_PERIOD_SECONDS * 0x1_0000_0000) as i64,
        },
        event: DpTimerEvent::PreemptiveAcknack,
    }
}

/// The period of the collection of samples that no reader needs.
pub open spec fn cache_gc_request() -> DpTimerRequest {
    DpTimerRequest {
        after: Duration { ticks: (CACHE_CLEAN_PERIOD_SECONDS * 0x1_0000_0000) as i64 },
        event: DpTimerEvent::CacheGc,
    }
}

/// The state of the event loop of a participant.
pub struct DPEventLoop {
    pub domain_info: DomainInfo,
    /// The local writers, by entity id.
    pub writers: SortedMap<EntityId, Writer>,
    /// For each socket that could not take what a writer has to send: the writers that
    /// wait for it, in the order in which they get a turn.
    pub bulk_ready: SortedMap<SocketId, VecDeque<EntityId>>,
    /// The sockets that are watched for being able to take messages.
    pub writable_armed: SortedMap<SocketId, ()>,
    /// How the messages of remote participants came in.
    pub interface_observations: InterfaceObservations,
    /// The network interfaces of this host.
    pub local_interfaces: Vec<IfAddr>,
    /// Are participants on this host reached over the loopback interface?
    pub same_host_loopback: bool,
    /// Is the application about to leave?
    pub preparing_to_stop: bool,
    /// Readers to remove when all events at hand are handled.
    pub readers_to_remove: Vec<GUID>,
    /// Writers to remove when all events at hand are handled.
    pub writers_to_remove: Vec<GUID>,
}

/// A change in the watching of a socket.
#[derive(Clone, Copy, Debug, PartialEq, Eq, Structural)]
pub enum InterestChange {
    /// Start to watch it, and report when that was done.
    Arm(SocketId),
    /// No longer watch it.
    Disarm(SocketId),
}

/// A queue in which an entity waits once.
pub open spec fn with_entity(queue: Seq<EntityId>, id: EntityId) -> Seq<EntityId> {
    if queue.contains(id) {
        queue
    } else {
        queue.push(id)
    }
}

/// Is the entity in the queue?
fn queue_has(queue: &VecDeque<EntityId>, id: EntityId) -> (r: bool)
    ensures
        r == queue@.contains(id),
{
    let mut i: usize = 0;
    while i < queue.len()
        invariant
            i <= queue@.len(),
            forall|j: int| 0 <= j < i ==> queue@[j] != id,
        decreases queue@.len() - i,
    {
        if queue[i] == id {
            assert(queue@[i as int] == id);
            return true;
        }
        i += 1;
    }
    false
}

/// Is the socket in the list?
fn list_has(list: &Vec<SocketId>, id: SocketId) -> (r: bool)
    ensures
        r == list@.contains(id),
{
    let mut i: usize = 0;
    while i < list.len()
        invariant
            i <= list@.len(),
            forall|j: int| 0 <= j < i ==> list@[j] != id,
        decreases list@.len() - i,
    {
        if list[i] == id {
            assert(list@[i as int] == id);
            return true;
        }
        i += 1;
    }
    false
}

impl DPEventLoop {
    /// Each writer is found under its own id, and no writer waits twice for a socket.
    pub open spec fn wf(self) -> bool {
        &&& forall|k: int| #[trigger]
            self.writers@.contains_key(k) ==> self.writers@[k].wf()
                && self.writers@[k].my_guid.entity_id.rank() == k
        &&& forall|id: SocketId| (#[trigger] self.willing(id)).no_duplicates()
    }

    /// The writers that wait for a socket, in the order in which they get a turn.
    pub open spec fn willing(self, id: SocketId) -> Seq<EntityId> {
        if self.bulk_ready@.contains_key(id.rank()) {
            self.bulk_ready@[id.rank()]@
        } else {
            Seq::empty()
        }
    }

    /// Nothing but the queues of waiting writers differs from `before`.
    pub open spec fn same_but_for_queues(self, before: Self) -> bool {
        self == (DPEventLoop { bulk_ready: self.bulk_ready, ..before })
    }

    /// The loop without writers, and what its timer is to tell first.
    pub fn new(
        domain_info: DomainInfo,
        local_interfaces: Vec<IfAddr>,
        same_host_loopback: bool,
    ) -> (r: (Self, Vec<DpTimerRequest>))
        ensures
            r.0.wf(),
            r.0.domain_info == domain_info,
            r.0.local_interfaces == local_interfaces,
            r.0.same_host_loopback == same_host_loopback,
            r.0.writers@ == Map::<int, Writer>::empty(),
            forall|id: SocketId| #[trigger] r.0.willing(id) == Seq::<EntityId>::empty(),
            r.0.writable_armed@ == Map::<int, ()>::empty(),
            r.0.interface_observations.by_participant@ == Map::<
                int,
                Observation,
            >::empty(),
            !r.0.preparing_to_stop,
            r.0.readers_to_remove@ == Seq::<GUID>::empty(),
            r.0.writers_to_remove@ == Seq::<GUID>::empty(),
            r.1@ == seq![preemptive_acknack_request(), cache_gc_request()],
    {
        let state = DPEventLoop {
            domain_info,
            writers: SortedMap::new(),
            bulk_ready: SortedMap::new(),
            writable_armed: SortedMap::new(),
            interface_observations: InterfaceObservations::new(),
            local_interfaces,
            same_host_loopback,
            preparing_to_stop: false,
            readers_to_remove: Vec::new(),
            writers_to_remove: Vec::new(),
        };
        let timers: Vec<DpTimerRequest> = vec![
            DpTimerRequest {
                after: Duration::from_secs(PREEMPTIVE_ACKNACK_PERIOD_SECONDS),
                event: DpTimerEvent::PreemptiveAcknack,
            },
            DpTimerRequest {
                after: Duration::from_secs(CACHE_CLEAN_PERIOD_SECONDS),
                event: DpTimerEvent::CacheGc,
            },
        ];
        assert(timers@ =~= seq![preemptive_acknack_request(), cache_gc_request()]);
        (state, timers)
    }

    /// Takes what a look into the channel of commands gave.
    pub fn handle_command(&mut self, read: CommandRead) -> (step: CommandStep)
        ensures
            step == (match read {
                CommandRead::Command(EventLoopCommand::PrepareStop) => CommandStep::ReadMore,
                CommandRead::Command(EventLoopCommand::Stop) => CommandStep::Quit,
                CommandRead::Empty => CommandStep::Done,
                CommandRead::Disconnected => CommandStep::Quit,
            }),
            *final(self) == (DPEventLoop {
                preparing_to_stop: old(self).preparing_to_stop || read == CommandRead::Command(
                    EventLoopCommand::PrepareStop,
                ),
                ..*old(self)
            }),
    {
        match read {
            CommandRead::Command(EventLoopCommand::PrepareStop) => {
                self.preparing_to_stop = true;
                CommandStep::ReadMore
            },
            CommandRead::Command(EventLoopCommand::Stop) => CommandStep::Quit,
            CommandRead::Empty => CommandStep::Done,
            CommandRead::Disconnected => CommandStep::Quit,
        }
    }

    /// What to do about a timed event.
    pub open spec fn timer_action(self, event: DpTimerEvent) -> TimerAction {
        match event {
            DpTimerEvent::PreemptiveAcknack => TimerAction::SendPreemptiveAcknacks,
            DpTimerEvent::CacheGc => TimerAction::CollectGarbage,
            DpTimerEvent::Reader { entity_id } => TimerAction::ToReader(entity_id),
            DpTimerEvent::Writer { entity_id, event } => if self.writers@.contains_key(
                entity_id.rank(),
            ) {
                TimerAction::ToWriter(entity_id, event)
            } else {
                TimerAction::Nothing
            },
        }
    }

    /// Tells what to do about a timed event, and what the timer is to tell later. An
    /// event of a writer that is gone does no harm.
    pub fn handle_timer(&self, event: DpTimerEvent) -> (r: (TimerAction, Option<DpTimerRequest>))
        ensures
            r.0 == self.timer_action(event),
            r.1 == (match event {
                DpTimerEvent::PreemptiveAcknack => Some(preemptive_acknack_request()),
                DpTimerEvent::CacheGc => Some(cache_gc_request()),
                _ => None,
            }),
    {
        match event {
            DpTimerEvent::PreemptiveAcknack => (
                TimerAction::SendPreemptiveAcknacks,
                Some(
                    DpTimerRequest {
                        after: Duration::from_secs(PREEMPTIVE_ACKNACK_PERIOD_SECONDS),
                        event: DpTimerEvent::PreemptiveAcknack,
                    },
                ),
            ),
            DpTimerEvent::CacheGc => (
                TimerAction::CollectGarbage,
                Some(
                    DpTimerRequest {
                        after: Duration::from_secs(CACHE_CLEAN_PERIOD_SECONDS),
                        event: DpTimerEvent::CacheGc,
                    },
                ),
            ),
            DpTimerEvent::Reader { entity_id } => (TimerAction::ToReader(entity_id), None),
            DpTimerEvent::Writer { entity_id, event } => {
                if self.writers.contains_key(&entity_id) {
                    (TimerAction::ToWriter(entity_id, event), None)
                } else {
                    (TimerAction::Nothing, None)
                }
            },
        }
    }

    /// Queues a writer for a turn on a socket, unless it waits for that socket already.
    pub fn mark_writer_willing(&mut self, sid: SocketId, eid: EntityId)
        requires
            old(self).wf(),
        ensures
            final(self).wf(),
            final(self).same_but_for_queues(*old(self)),
            final(self).willing(sid) == with_entity(old(self).willing(sid), eid),
            forall|other: SocketId| other != sid ==> #[trigger] final(self).willing(other) == old(
                self,
            ).willing(other),
    {
        let mut queue: VecDeque<EntityId> = match self.bulk_ready.remove(&sid) {
            Some(q) => q,
            None => VecDeque::new(),
        };
        if !queue_has(&queue, eid) {
            queue.push_back(eid);
        }
        self.bulk_ready.insert(sid, queue);
        proof {
            assert forall|other: SocketId| other != sid implies #[trigger] self.willing(other)
                == old(self).willing(other) by {
                SocketId::lemma_rank_injective(other, sid);
            }
            let before = old(self).willing(sid);
            assert(before.no_duplicates());
            assert forall|id: SocketId| (#[trigger] self.willing(id)).no_duplicates() by {
                if id != sid {
                    assert(old(self).willing(id).no_duplicates());
                } else {
                    assert forall|i: int, j: int|
                        0 <= i < j < self.willing(sid).len() implies self.willing(sid)[i]
                        != self.willing(sid)[j] by {
                        if j == before.len() {
                            assert(before.contains(before[i]));
                        }
                    }
                }
            }
        }
    }

    /// Queues a writer for each socket that could not take what it has to send.
    pub fn mark_blocked(&mut self, blocked: &Vec<SocketId>, eid: EntityId)
        requires
            old(self).wf(),
        ensures
            final(self).wf(),
            final(self).same_but_for_queues(*old(self)),
            forall|id: SocketId| #[trigger]
                final(self).willing(id) == (if blocked@.contains(id) {
                    with_entity(old(self).willing(id), eid)
                } else {
                    old(self).willing(id)
                }),
    {
        let mut i: usize = 0;
        while i < blocked.len()
            invariant
                i <= blocked@.len(),
                self.wf(),
                self.same_but_for_queues(*old(self)),
                forall|id: SocketId| #[trigger]
                    self.willing(id) == (if blocked@.take(i as int).contains(id) {
                        with_entity(old(self).willing(id), eid)
                    } else {
                        old(self).willing(id)
                    }),
            decreases blocked@.len() - i,
        {
            let sid: SocketId = blocked[i];
            let ghost before = *self;
            self.mark_writer_willing(sid, eid);
            i += 1;
            proof {
                let shorter = blocked@.take(i - 1);
                let longer = blocked@.take(i as int);
                assert(longer =~= shorter.push(sid));
                assert forall|id: SocketId| #[trigger] self.willing(id) == (if longer.contains(id) {
                    with_entity(old(self).willing(id), eid)
                } else {
                    old(self).willing(id)
                }) by {
                    assert(longer[i - 1] == sid);
                    if shorter.contains(id) {
                        let j = choose|j: int| 0 <= j < shorter.len() && shorter[j] == id;
                        assert(longer[j] == id);
                    }
                    assert(before.willing(id) == before.willing(id));
                    let queue = old(self).willing(sid);
                    if !queue.contains(eid) {
                        assert(queue.push(eid)[queue.len() as int] == eid);
                    }
                    assert(with_entity(with_entity(queue, eid), eid) == with_entity(queue, eid));
                }
            }
        }
        assert(blocked@.take(i as int) =~= blocked@);
    }

    /// Does anything wait for a socket?
    pub open spec fn outbound_pending(self, sender: UDPSender) -> bool {
        exists|id: SocketId| self.pending_for(sender, id)
    }

    /// Does control or a writer wait for this socket?
    pub open spec fn pending_for(self, sender: UDPSender, id: SocketId) -> bool {
        sender.waiting(id).len() > 0 || self.willing(id).len() > 0
    }

    /// Does a writer wait for this socket?
    fn has_willing(&self, id: SocketId) -> (r: bool)
        ensures
            r == (self.willing(id).len() > 0),
    {
        match self.bulk_ready.get(&id) {
            Some(q) => q.len() > 0,
            None => false,
        }
    }

    /// Tells whether anything waits for a socket.
    pub fn has_pending_outbound(&self, sender: &UDPSender) -> (r: bool)
        ensures
            r == self.outbound_pending(*sender),
    {
        let control: Vec<SocketId> = sender.pending_control_sockets();
        if control.len() > 0 {
            assert(control@.contains(control@[0]));
            assert(self.pending_for(*sender, control@[0]));
            return true;
        }
        let keys: Vec<SocketId> = self.bulk_ready.key_list();
        let mut i: usize = 0;
        while i < keys.len()
            invariant
                i <= keys@.len(),
                forall|j: int| 0 <= j < i ==> self.willing(#[trigger] keys@[j]).len() == 0,
            decreases keys@.len() - i,
        {
            if self.has_willing(keys[i]) {
                assert(self.pending_for(*sender, keys@[i as int]));
                return true;
            }
            i += 1;
        }
        proof {
            assert forall|id: SocketId| !self.pending_for(*sender, id) by {
                assert(!control@.contains(id));
                if self.willing(id).len() > 0 {
                    assert(self.bulk_ready@.contains_key(id.rank()));
                    let j = choose|j: int|
                        0 <= j < self.bulk_ready.keys().len() && (
                        #[trigger] self.bulk_ready.keys()[j]).rank() == id.rank();
                    SocketId::lemma_rank_injective(keys@[j], id);
                    assert(self.willing(keys@[j]).len() == 0);
                }
            }
        }
        false
    }

    /// How long to wait for events, in milliseconds. Where the system tells when a socket
    /// can take more, there is no need to look again soon.
    pub fn poll_timeout_millis(&self, sender: &UDPSender, tells_writable: bool) -> (millis: u64)
        ensures
            millis == (if tells_writable || !self.outbound_pending(*sender) {
                POLL_TIMEOUT_IDLE_MILLIS
            } else {
                POLL_TIMEOUT_PENDING_MILLIS
            }),
    {
        if tells_writable || !self.has_pending_outbound(sender) {
            POLL_TIMEOUT_IDLE_MILLIS
        } else {
            POLL_TIMEOUT_PENDING_MILLIS
        }
    }

    /// The writer whose turn it is on a socket, taken from its queue.
    pub fn next_willing(&mut self, sid: SocketId) -> (r: Option<EntityId>)
        requires
            old(self).wf(),
        ensures
            final(self).wf(),
            final(self).same_but_for_queues(*old(self)),
            r == (if old(self).willing(sid).len() > 0 {
                Some(old(self).willing(sid)[0])
            } else {
                None
            }),
            final(self).willing(sid) == (if old(self).willing(sid).len() > 0 {
                old(self).willing(sid).skip(1)
            } else {
                old(self).willing(sid)
            }),
            forall|other: SocketId| other != sid ==> #[trigger] final(self).willing(other) == old(
                self,
            ).willing(other),
    {
        let mut queue: VecDeque<EntityId> = match self.bulk_ready.remove(&sid) {
            Some(q) => q,
            None => VecDeque::new(),
        };
        let front: Option<EntityId> = queue.pop_front();
        self.bulk_ready.insert(sid, queue);
        proof {
            let before = old(self).willing(sid);
            assert(before.no_duplicates());
            assert(self.willing(sid) =~= (if before.len() > 0 {
                before.skip(1)
            } else {
                before
            }));
            assert forall|other: SocketId| other != sid implies #[trigger] self.willing(other)
                == old(self).willing(other) by {
                SocketId::lemma_rank_injective(other, sid);
            }
            assert forall|id: SocketId| (#[trigger] self.willing(id)).no_duplicates() by {
                if id != sid {
                    assert(old(self).willing(id).no_duplicates());
                }
            }
        }
        front
    }

    /// May writers get a turn on a socket, now that its control was tried? Not while
    /// control still waits.
    pub fn may_serve_writers(&self, sender: &UDPSender, sid: SocketId) -> (r: bool)
        ensures
            r == (sender.waiting(sid).len() == 0),
    {
        !sender.control_queue_nonempty(sid)
    }

    /// A writer had its turn on a socket, and these sockets could not take what it has to
    /// send. Gives whether the next writer gets a turn.
    pub fn turn_taken(&mut self, sid: SocketId, eid: EntityId, blocked: &Vec<SocketId>) -> (go_on:
        bool)
        requires
            old(self).wf(),
        ensures
            final(self).wf(),
            final(self).same_but_for_queues(*old(self)),
            go_on == !blocked@.contains(sid),
            forall|id: SocketId| #[trigger]
                final(self).willing(id) == (if blocked@.contains(id) {
                    with_entity(old(self).willing(id), eid)
                } else {
                    old(self).willing(id)
                }),
    {
        let filled: bool = list_has(blocked, sid);
        self.mark_blocked(blocked, eid);
        !filled
    }

    /// Is the socket watched for being able to take messages?
    pub open spec fn armed(self, id: SocketId) -> bool {
        self.writable_armed@.contains_key(id.rank())
    }

    /// The changes in the watching of some sockets, so that those are watched that
    /// something waits for.
    pub open spec fn changes_for(self, sender: UDPSender, ids: Seq<SocketId>) -> Seq<InterestChange>
        decreases ids.len(),
    {
        if ids.len() == 0 {
            Seq::empty()
        } else {
            let before = self.changes_for(sender, ids.drop_last());
            let id = ids.last();
            if self.pending_for(sender, id) && !self.armed(id) {
                before.push(InterestChange::Arm(id))
            } else if !self.pending_for(sender, id) && self.armed(id) {
                before.push(InterestChange::Disarm(id))
            } else {
                before
            }
        }
    }

    /// Brings the watching of the sockets in line with what waits for them. A socket is
    /// taken as watched only when that is reported.
    pub fn reconcile_writable_interest(&mut self, sender: &UDPSender) -> (changes: Vec<
        InterestChange,
    >)
        ensures
            changes@ == old(self).changes_for(
                *sender,
                seq![SocketId::Unicast] + all_multicast(sender.interfaces@.len()),
            ),
            *final(self) == (DPEventLoop {
                writable_armed: final(self).writable_armed,
                ..*old(self)
            }),
            forall|id: SocketId| #[trigger]
                final(self).armed(id) <==> old(self).armed(id) && !((seq![SocketId::Unicast]
                    + all_multicast(sender.interfaces@.len())).contains(id) && !old(
                    self,
                ).pending_for(*sender, id)),
    {
        let ids: Vec<SocketId> = sender.socket_ids();
        let mut changes: Vec<InterestChange> = Vec::new();
        let mut i: usize = 0;
        while i < ids.len()
            invariant
                i <= ids@.len(),
                ids@ == seq![SocketId::Unicast] + all_multicast(sender.interfaces@.len()),
                *self == (DPEventLoop { writable_armed: self.writable_armed, ..*old(self) }),
                forall|id: SocketId| #[trigger]
                    self.armed(id) <==> old(self).armed(id) && !(ids@.take(i as int).contains(id)
                        && !old(self).pending_for(*sender, id)),
                changes@ == old(self).changes_for(*sender, ids@.take(i as int)),
            decreases ids@.len() - i,
        {
            let id: SocketId = ids[i];
            proof {
                assert(!ids@.take(i as int).contains(id)) by {
                    if ids@.take(i as int).contains(id) {
                        let j = choose|j: int| 0 <= j < i && ids@.take(i as int)[j] == id;
                        assert(ids@[j] == ids@[i as int]);
                        if j > 0 {
                            assert(ids@[j] == SocketId::Multicast((j - 1) as usize));
                        }
                        assert(ids@[i as int] == SocketId::Multicast((i - 1) as usize));
                    }
                }
            }
            let want: bool = sender.control_queue_nonempty(id) || self.has_willing(id);
            let armed: bool = self.writable_armed.contains_key(&id);
            assert(self.armed(id) == old(self).armed(id));
            assert(self.willing(id) == old(self).willing(id));
            assert(want == old(self).pending_for(*sender, id));
            let ghost before = *self;
            if want && !armed {
                changes.push(InterestChange::Arm(id));
            } else if !want && armed {
                let _gone: Option<()> = self.writable_armed.remove(&id);
                changes.push(InterestChange::Disarm(id));
            }
            i += 1;
            proof {
                let shorter = ids@.take(i - 1);
                let longer = ids@.take(i as int);
                assert(longer.drop_last() =~= shorter);
                assert(longer.last() == id);
                assert forall|x: SocketId| #[trigger] self.armed(x) <==> old(self).armed(x) && !(
                longer.contains(x) && !old(self).pending_for(*sender, x)) by {
                    SocketId::lemma_rank_injective(x, id);
                    assert(before.armed(x) <==> old(self).armed(x) && !(shorter.contains(x)
                        && !old(self).pending_for(*sender, x)));
                    assert(longer[i - 1] == id);
                    if shorter.contains(x) {
                        let j = choose|j: int| 0 <= j < shorter.len() && shorter[j] == x;
                        assert(longer[j] == x);
                    }
                }
            }
        }
        assert(ids@.take(i as int) =~= ids@);
        changes
    }

    /// Takes the report that a socket is watched.
    pub fn interest_armed(&mut self, sid: SocketId)
        ensures
            *final(self) == (DPEventLoop {
                writable_armed: final(self).writable_armed,
                ..*old(self)
            }),
            final(self).writable_armed@ == old(self).writable_armed@.insert(sid.rank(), ()),
    {
        self.writable_armed.insert(sid, ());
    }

    /// A reader is to be removed once the events at hand are handled: some of them may
    /// still be for it.
    pub fn defer_reader_removal(&mut self, guid: GUID)
        ensures
            *final(self) == (DPEventLoop {
                readers_to_remove: final(self).readers_to_remove,
                ..*old(self)
            }),
            final(self).readers_to_remove@ == old(self).readers_to_remove@.push(guid),
    {
        self.readers_to_remove.push(guid);
    }

    /// A writer is to be removed once the events at hand are handled.
    pub fn defer_writer_removal(&mut self, guid: GUID)
        ensures
            *final(self) == (DPEventLoop {
                writers_to_remove: final(self).writers_to_remove,
                ..*old(self)
            }),
            final(self).writers_to_remove@ == old(self).writers_to_remove@.push(guid),
    {
        self.writers_to_remove.push(guid);
    }

    /// The writers without those of some endpoints.
    pub open spec fn writers_without(writers: Map<int, Writer>, gone: Seq<GUID>) -> Map<int, Writer>
        decreases gone.len(),
    {
        if gone.len() == 0 {
            writers
        } else {
            Self::writers_without(writers, gone.drop_last()).remove(gone.last().entity_id.rank())
        }
    }

    /// The ids of those endpoints that are found among the writers, in order, each once.
    pub open spec fn found_of(writers: Map<int, Writer>, gone: Seq<GUID>) -> Seq<EntityId>
        decreases gone.len(),
    {
        if gone.len() == 0 {
            Seq::empty()
        } else {
            let before = Self::found_of(writers, gone.drop_last());
            if Self::writers_without(writers, gone.drop_last()).contains_key(
                gone.last().entity_id.rank(),
            ) {
                before.push(gone.last().entity_id)
            } else {
                before
            }
        }
    }

    /// All events at hand are handled: removes the writers that were to be removed. Gives
    /// the readers to remove, and the writers that are gone.
    pub fn apply_removals(&mut self) -> (r: (Vec<GUID>, Vec<EntityId>))
        requires
            old(self).wf(),
        ensures
            final(self).wf(),
            r.0@ == old(self).readers_to_remove@,
            r.1@ == Self::found_of(old(self).writers@, old(self).writers_to_remove@),
            final(self).readers_to_remove@ == Seq::<GUID>::empty(),
            final(self).writers_to_remove@ == Seq::<GUID>::empty(),
            final(self).writers@ == Self::writers_without(
                old(self).writers@,
                old(self).writers_to_remove@,
            ),
            *final(self) == (DPEventLoop {
                readers_to_remove: final(self).readers_to_remove,
                writers_to_remove: final(self).writers_to_remove,
                writers: final(self).writers,
                ..*old(self)
            }),
    {
        let mut readers: Vec<GUID> = Vec::new();
        readers.append(&mut self.readers_to_remove);
        let mut writers: Vec<GUID> = Vec::new();
        writers.append(&mut self.writers_to_remove);
        assert(readers@ =~= old(self).readers_to_remove@);
        assert(writers@ =~= old(self).writers_to_remove@);
        let mut gone: Vec<EntityId> = Vec::new();
        let mut i: usize = 0;
        while i < writers.len()
            invariant
                i <= writers@.len(),
                self.writers@ == Self::writers_without(old(self).writers@, writers@.take(i as int)),
                gone@ == Self::found_of(old(self).writers@, writers@.take(i as int)),
                forall|k: int| #[trigger]
                    self.writers@.contains_key(k) ==> old(self).writers@.contains_key(k)
                        && self.writers@[k] == old(self).writers@[k],
                self.readers_to_remove@ == Seq::<GUID>::empty(),
                self.writers_to_remove@ == Seq::<GUID>::empty(),
                *self == (DPEventLoop {
                    readers_to_remove: self.readers_to_remove,
                    writers_to_remove: self.writers_to_remove,
                    writers: self.writers,
                    ..*old(self)
                }),
            decreases writers@.len() - i,
        {
            let id: EntityId = writers[i].entity_id;
            if self.remove_local_writer(id) {
                gone.push(id);
            }
            i += 1;
            assert(writers@.take(i as int).drop_last() =~= writers@.take(i - 1));
        }
        assert(writers@.take(i as int) =~= writers@);
        assert(self.bulk_ready == old(self).bulk_ready);
        assert forall|id: SocketId| (#[trigger] self.willing(id)).no_duplicates() by {
            assert(old(self).willing(id).no_duplicates());
        }
        (readers, gone)
    }

    /// Removes a writer. Gives whether it was there.
    fn remove_local_writer(&mut self, id: EntityId) -> (found: bool)
        ensures
            found == old(self).writers@.contains_key(id.rank()),
            final(self).writers@ == old(self).writers@.remove(id.rank()),
            *final(self) == (DPEventLoop { writers: final(self).writers, ..*old(self) }),
    {
        self.writers.remove(&id).is_some()
    }

    /// The writer that an acknowledgement from outside is for. A best-effort writer takes
    /// none.
    pub fn acknack_target(&self, writer_id: EntityId) -> (r: Option<EntityId>)
        ensures
            r == (if self.writers@.contains_key(writer_id.rank())
                && self.writers@[writer_id.rank()].qos_policies.spec_is_reliable() {
                Some(writer_id)
            } else {
                None
            }),
    {
        match self.writers.get(&writer_id) {
            Some(writer) => if writer.is_reliable() {
                Some(writer_id)
            } else {
                None
            },
            None => None,
        }
    }

    /// Is this the writer by which participants announce themselves, and does it tell
    /// participants on this host over the loopback interface?
    pub open spec fn announces_on_host(self, guid: GUID) -> bool {
        self.same_host_loopback && guid.entity_id == EntityId::spdp_builtin_participant_writer()
    }

    /// Adds a writer. Gives what the timer is to tell for it.
    pub fn add_local_writer(&mut self, ingredients: WriterIngredients) -> (timers: Vec<
        TimerRequest,
    >)
        requires
            old(self).wf(),
            !(ingredients.like_stateless && ingredients.qos_policies.spec_is_reliable()),
            old(self).announces_on_host(ingredients.guid) ==> forall|pid: int|
                0 <= pid < SPDP_LOCALHOST_PEER_COUNT && pid
                    != old(self).domain_info.participant_id
                    ==> #[trigger] spec_spdp_well_known_unicast_port(
                    old(self).domain_info.domain_id as int,
                    pid,
                ) <= u16::MAX,
        ensures
            final(self).wf(),
            *final(self) == (DPEventLoop { writers: final(self).writers, ..*old(self) }),
            ({
                let key = ingredients.guid.entity_id.rank();
                let added = final(self).writers@[key];
                &&& final(self).writers@ == old(self).writers@.insert(key, added)
                &&& exists|made: (Writer, Vec<TimerRequest>)|
                    {
                        &&& #[trigger] call_ensures(Writer::new, (ingredients,), made)
                        &&& timers == made.1
                        &&& added == (Writer {
                            prefer_loopback_same_host: old(self).same_host_loopback,
                            extra_unicast_destinations: added.extra_unicast_destinations,
                            ..made.0
                        })
                        &&& added.extra_unicast_destinations@ == (if old(self).announces_on_host(
                            ingredients.guid,
                        ) {
                            localhost_spdp_peers(
                                old(self).domain_info.domain_id as int,
                                old(self).domain_info.participant_id as int,
                                SPDP_LOCALHOST_PEER_COUNT as int,
                            )
                        } else {
                            Seq::<Locator>::empty()
                        })
                    }
            }),
    {
        let guid: GUID = ingredients.guid;
        let made: (Writer, Vec<TimerRequest>) = Writer::new(ingredients);
        let ghost fresh = made;
        let (mut writer, timers) = made;
        writer.set_prefer_loopback_same_host(self.same_host_loopback);
        if self.same_host_loopback && guid.entity_id
            == EntityId::spdp_builtin_participant_writer() {
            writer.set_extra_unicast_destinations(
                localhost_spdp_peer_locators(
                    self.domain_info.domain_id,
                    self.domain_info.participant_id,
                    SPDP_LOCALHOST_PEER_COUNT,
                ),
            );
        }
        self.writers.insert(guid.entity_id, writer);
        assert(call_ensures(Writer::new, (ingredients,), fresh));
        assert forall|id: SocketId| (#[trigger] self.willing(id)).no_duplicates() by {
            assert(old(self).willing(id).no_duplicates());
        }
        timers
    }

    /// Takes a writer out, so that it can be worked on.
    pub fn take_writer(&mut self, id: EntityId) -> (r: Option<Writer>)
        requires
            old(self).wf(),
        ensures
            final(self).wf(),
            r is Some <==> old(self).writers@.contains_key(id.rank()),
            r matches Some(w) ==> w == old(self).writers@[id.rank()] && w.wf()
                && w.my_guid.entity_id == id,
            final(self).writers@ == old(self).writers@.remove(id.rank()),
            *final(self) == (DPEventLoop { writers: final(self).writers, ..*old(self) }),
    {
        let taken: Option<Writer> = self.writers.remove(&id);
        proof {
            assert forall|sid: SocketId| (#[trigger] self.willing(sid)).no_duplicates() by {
                assert(old(self).willing(sid).no_duplicates());
            }
            if let Some(ref w) = taken {
                EntityId::lemma_rank_injective(w.my_guid.entity_id, id);
            }
        }
        taken
    }

    /// Puts a writer back.
    pub fn put_writer(&mut self, writer: Writer)
        requires
            old(self).wf(),
            writer.wf(),
        ensures
            final(self).wf(),
            final(self).writers@ == old(self).writers@.insert(
                writer.my_guid.entity_id.rank(),
                writer,
            ),
            *final(self) == (DPEventLoop { writers: final(self).writers, ..*old(self) }),
    {
        self.writers.insert(writer.entity_id(), writer);
        proof {
            assert forall|sid: SocketId| (#[trigger] self.willing(sid)).no_duplicates() by {
                assert(old(self).willing(sid).no_duplicates());
            }
        }
    }

    /// A remote participant is gone: forgets how its messages came in. Gives the writers
    /// that are to forget its readers, which are all.
    pub fn remote_participant_lost(&mut self, prefix: GuidPrefix) -> (told: Vec<EntityId>)
        ensures
            told@ == old(self).writers.keys(),
            *final(self) == (DPEventLoop {
                interface_observations: final(self).interface_observations,
                ..*old(self)
            }),
            final(self).interface_observations.by_participant@ == old(
                self,
            ).interface_observations.by_participant@.remove(prefix.rank()),
    {
        self.interface_observations.remove(prefix);
        self.writers.key_list()
    }
}

/// Once every socket that is to be watched is reported as watched, those are watched that
/// something waits for, and no others.
pub proof fn law_reconciled_interest_follows_pending(
    state: DPEventLoop,
    sender: UDPSender,
    ids: Seq<SocketId>,
    id: SocketId,
)
    requires
        ids.contains(id),
    ensures
        ({
            let changes = state.changes_for(sender, ids);
            ((state.armed(id) && !changes.contains(InterestChange::Disarm(id)))
                || changes.contains(InterestChange::Arm(id))) <==> state.pending_for(sender, id)
        }),
{
    lemma_change(state, sender, ids, id);
}

proof fn lemma_change(state: DPEventLoop, sender: UDPSender, ids: Seq<SocketId>, id: SocketId)
    ensures
        state.changes_for(sender, ids).contains(InterestChange::Arm(id)) <==> ids.contains(id)
            && state.pending_for(sender, id) && !state.armed(id),
        state.changes_for(sender, ids).contains(InterestChange::Disarm(id)) <==> ids.contains(id)
            && !state.pending_for(sender, id) && state.armed(id),
    decreases ids.len(),
{
    if ids.len() > 0 {
        lemma_change(state, sender, ids.drop_last(), id);
        let before = state.changes_for(sender, ids.drop_last());
        let after = state.changes_for(sender, ids);
        assert forall|c: InterestChange, x: InterestChange| #[trigger] before.push(c).contains(
            x,
        ) <==> before.contains(x) || x == c by {
            assert(before.push(c)[before.len() as int] == c);
            if before.contains(x) {
                let j = choose|j: int| 0 <= j < before.len() && before[j] == x;
                assert(before.push(c)[j] == x);
            }
        }
        assert(ids.contains(id) <==> ids.drop_last().contains(id) || id == ids.last()) by {
            assert(ids[ids.len() - 1] == ids.last());
            if ids.drop_last().contains(id) {
                let j = choose|j: int| 0 <= j < ids.len() - 1 && ids.drop_last()[j] == id;
                assert(ids[j] == id);
            }
            if ids.contains(id) && id != ids.last() {
                let j = choose|j: int| 0 <= j < ids.len() && ids[j] == id;
                assert(ids.drop_last()[j] == id);
            }
        }
        assert(after == before || after == before.push(InterestChange::Arm(ids.last())) || after
            == before.push(InterestChange::Disarm(ids.last())));
    }
}

/// Writers take turns: while another one has its turn, whether it has to wait again or
/// not, a writer that waits moves up by one place.
pub proof fn law_waiting_writer_moves_up(queue: Seq<EntityId>, place: int)
    requires
        0 < place < queue.len(),
    ensures
        queue.skip(1)[place - 1] == queue[place],
        with_entity(queue.skip(1), queue[0])[place - 1] == queue[place],
{
}

/// Every source of events has its own action: each channel that of what comes through it,
/// a listener the receiving of a bounded number of its datagrams, a socket its own service,
/// and a local endpoint what it asks for.
pub proof fn law_each_source_has_its_action(listener: usize, socket: usize, id: EntityId)
    requires
        listener == DISCOVERY_LISTENER_TOKEN || listener == DISCOVERY_MUL_LISTENER_TOKEN
            || listener == USER_TRAFFIC_LISTENER_TOKEN || listener
            == USER_TRAFFIC_MUL_LISTENER_TOKEN,
        socket_of(socket as int) is Some,
    ensures
        action_for(TokenDecode::FixedToken(STOP_POLL_TOKEN)) is ReadCommands,
        action_for(TokenDecode::FixedToken(ADD_READER_TOKEN)) is AddReaders,
        action_for(TokenDecode::FixedToken(REMOVE_READER_TOKEN)) is CollectReaderRemovals,
        action_for(TokenDecode::FixedToken(ADD_WRITER_TOKEN)) is AddWriters,
        action_for(TokenDecode::FixedToken(REMOVE_WRITER_TOKEN)) is CollectWriterRemovals,
        action_for(TokenDecode::FixedToken(ACKNACK_MESSAGE_TO_LOCAL_WRITER_TOKEN))
            is HandleAckNacks,
        action_for(TokenDecode::FixedToken(DISCOVERY_UPDATE_NOTIFICATION_TOKEN))
            is HandleDiscoveryUpdates,
        action_for(TokenDecode::FixedToken(DPEV_TIMER_TOKEN)) is HandleTimers,
        action_for(TokenDecode::FixedToken(listener)) == (EventAction::Receive {
            listener,
            limit: MAX_LISTENER_MESSAGES_PER_POLL,
        }),
        action_for(TokenDecode::FixedToken(socket)) == EventAction::ServeSocket(
            socket_of(socket as int)->0,
        ),
        id.entity_kind.spec_is_reader() ==> action_for(TokenDecode::Entity(id))
            == EventAction::ReaderCommand(id),
        id.entity_kind.spec_is_writer() && !id.entity_kind.spec_is_reader() ==> action_for(
            TokenDecode::Entity(id),
        ) == EventAction::WriterDoorbell(id),
{
}

/// A timed event goes to whom it is for, and only one that recurs is asked for again.
pub proof fn law_timed_events_go_to_whom_they_are_for(
    state: DPEventLoop,
    event: DpTimerEvent,
    r: (TimerAction, Option<DpTimerRequest>),
)
    requires
        call_ensures(DPEventLoop::handle_timer, (&state, event), r),
    ensures
        match event {
            DpTimerEvent::PreemptiveAcknack => r.0 is SendPreemptiveAcknacks,
            DpTimerEvent::CacheGc => r.0 is CollectGarbage,
            DpTimerEvent::Reader { entity_id } => r.0 == TimerAction::ToReader(entity_id),
            DpTimerEvent::Writer { entity_id, event: timed } => if state.writers@.contains_key(
                entity_id.rank(),
            ) {
                r.0 == TimerAction::ToWriter(entity_id, timed)
            } else {
                r.0 is Nothing
            },
        },
        r.1 is Some <==> event is PreemptiveAcknack || event is CacheGc,
        r.1 matches Some(again) ==> again.event == event && again.after.ticks > 0,
        event is PreemptiveAcknack ==> r.1->0.after.ticks == PREEMPTIVE_ACKNACK_PERIOD_SECONDS
            * 0x1_0000_0000,
        event is CacheGc ==> r.1->0.after.ticks == CACHE_CLEAN_PERIOD_SECONDS * 0x1_0000_0000,
{
}

/// A writer that is queued waits behind those that wait already, once, and nobody loses a
/// place.
pub proof fn law_queueing_keeps_the_order(queue: Seq<EntityId>, id: EntityId, i: int)
    ensures
        with_entity(queue, id).contains(id),
        0 <= i < queue.len() ==> with_entity(queue, id)[i] == queue[i],
        queue.len() <= with_entity(queue, id).len() <= queue.len() + 1,
        queue.contains(id) ==> with_entity(queue, id).len() == queue.len(),
        with_entity(with_entity(queue, id), id) == with_entity(queue, id),
{
    lemma_pushed(queue, id, id);
}

/// Just those writers go that are to be removed, and those that were there are reported,
/// each once.
pub proof fn law_just_the_removed_writers_go(
    writers: Map<int, Writer>,
    gone: Seq<GUID>,
    k: int,
    id: EntityId,
)
    ensures
        ({
            let left = DPEventLoop::writers_without(writers, gone);
            let found = DPEventLoop::found_of(writers, gone);
            &&& left.contains_key(k) <==> writers.contains_key(k) && forall|i: int|
                0 <= i < gone.len() ==> (#[trigger] gone[i]).entity_id.rank() != k
            &&& left.contains_key(k) ==> left[k] == writers[k]
            &&& found.contains(id) <==> writers.contains_key(id.rank()) && exists|i: int|
                0 <= i < gone.len() && (#[trigger] gone[i]).entity_id == id
            &&& found.no_duplicates()
        }),
    decreases gone.len(),
{
    if gone.len() > 0 {
        let rest = gone.drop_last();
        let n = gone.len() - 1;
        let last = gone[n].entity_id;
        law_just_the_removed_writers_go(writers, rest, k, id);
        law_just_the_removed_writers_go(writers, rest, last.rank(), last);
        assert(forall|i: int| 0 <= i < n ==> #[trigger] rest[i] == gone[i]);
        let before = DPEventLoop::found_of(writers, rest);
        let left = DPEventLoop::writers_without(writers, rest);
        lemma_pushed(before, last, id);
        let after = DPEventLoop::writers_without(writers, gone);
        if after.contains_key(k) {
            assert forall|i: int| 0 <= i < gone.len() implies (
            #[trigger] gone[i]).entity_id.rank() != k by {
                if i < n {
                    assert(rest[i] == gone[i]);
                }
            }
        }
        if writers.contains_key(k) && !after.contains_key(k) && k != last.rank() {
            let i = choose|i: int|
                0 <= i < rest.len() && (#[trigger] rest[i]).entity_id.rank() == k;
            assert(gone[i] == rest[i]);
        }
        if exists|i: int| 0 <= i < rest.len() && (#[trigger] rest[i]).entity_id == id {
            let i = choose|i: int| 0 <= i < rest.len() && (#[trigger] rest[i]).entity_id == id;
            assert(gone[i].entity_id == id);
        }
        if exists|i: int| 0 <= i < gone.len() && (#[trigger] gone[i]).entity_id == id {
            let i = choose|i: int| 0 <= i < gone.len() && (#[trigger] gone[i]).entity_id == id;
            if i < n {
                assert(rest[i].entity_id == id);
            }
        }
        if writers.contains_key(last.rank()) && !left.contains_key(last.rank()) {
            let i = choose|i: int|
                0 <= i < rest.len() && (#[trigger] rest[i]).entity_id.rank() == last.rank();
            EntityId::lemma_rank_injective(rest[i].entity_id, last);
            assert(before.contains(last));
        }
        if left.contains_key(last.rank()) {
            assert(!before.contains(last)) by {
                if before.contains(last) {
                    let i = choose|i: int|
                        0 <= i < rest.len() && (#[trigger] rest[i]).entity_id == last;
                    assert(rest[i].entity_id.rank() == last.rank());
                }
            }
        }
    }
}

/// An acknowledgement goes to the writer that it names, if that is there and reliable.
pub proof fn law_acknowledgements_go_to_reliable_writers(
    state: DPEventLoop,
    id: EntityId,
    target: Option<EntityId>,
)
    requires
        call_ensures(DPEventLoop::acknack_target, (&state, id), target),
    ensures
        target is Some <==> state.writers@.contains_key(id.rank()) && (
        state.writers@[id.rank()].qos_policies.reliability matches Some(
            Reliability::Reliable { .. },
        )),
        target matches Some(t) ==> t == id,
{
}

/// Events are waited for only a short while where something waits for a socket of which the
/// system does not tell when it can take more. Writers get a turn on a socket only when no
/// control waits for it.
pub proof fn law_control_and_waiting_writers_are_served(
    state: DPEventLoop,
    sender: UDPSender,
    tells_writable: bool,
    millis: u64,
    sid: SocketId,
    may: bool,
)
    requires
        call_ensures(DPEventLoop::poll_timeout_millis, (&state, &sender, tells_writable), millis),
        call_ensures(DPEventLoop::may_serve_writers, (&state, &sender, sid), may),
    ensures
        !tells_writable && (sender.waiting(sid).len() > 0 || state.willing(sid).len() > 0)
            ==> millis == POLL_TIMEOUT_PENDING_MILLIS,
        tells_writable ==> millis == POLL_TIMEOUT_IDLE_MILLIS,
        millis == POLL_TIMEOUT_IDLE_MILLIS && !tells_writable ==> sender.waiting(sid).len() == 0
            && state.willing(sid).len() == 0,
        may <==> sender.waiting(sid).len() == 0,
{
    if sender.waiting(sid).len() > 0 || state.willing(sid).len() > 0 {
        assert(state.pending_for(sender, sid));
    }
}

} // verus!
