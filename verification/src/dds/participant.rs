//! Participants of a domain.

use vstd::prelude::*;
use vstd::std_specs::cmp::PartialEqSpec;

use crate::dds::pubsub::{Publisher, Subscriber};
use crate::dds::qos::QosPolicies;
use crate::dds::result::{text_with, CreateError, WriteError};
use crate::dds::topic::{DiscoveredTopicData, Topic, TopicKind};
use crate::network::constant::{
    spdp_well_known_multicast_port, spdp_well_known_unicast_port,
    spec_spdp_well_known_multicast_port, spec_spdp_well_known_unicast_port,
    spec_user_traffic_multicast_port, spec_user_traffic_unicast_port, user_traffic_multicast_port,
    user_traffic_unicast_port,
};
use crate::rtps::constant::{
    DISCOVERY_LISTENER_TOKEN, DISCOVERY_MUL_LISTENER_TOKEN, USER_TRAFFIC_LISTENER_TOKEN,
    USER_TRAFFIC_MUL_LISTENER_TOKEN,
};
use crate::rtps::dp_event_loop::DomainInfo;
use crate::structure::guid::{EntityId, EntityKind, GUID};
use crate::structure::locator::{IpAddr, Locator};

verus! {

/// Collects how a participant is set up.
#[derive(Debug)]
pub struct DomainParticipantBuilder {
    pub domain_id: u16,
    /// The addresses of this host that are used; all where this is not set.
    pub only_networks: Option<Vec<IpAddr>>,
    /// Are participants on this host reached over the loopback interface?
    pub same_host_loopback: bool,
    pub socket_receive_buffer_size: usize,
    pub socket_send_buffer_size: usize,
}

impl DomainParticipantBuilder {
    pub const DEFAULT_SOCKET_RECEIVE_BUFFER_SIZE: usize = 0x80_0000;

    pub const DEFAULT_SOCKET_SEND_BUFFER_SIZE: usize = 0x80_0000;

    pub fn new(domain_id: u16) -> (b: DomainParticipantBuilder)
        ensures
            b == (DomainParticipantBuilder {
                domain_id,
                only_networks: None,
                same_host_loopback: true,
                socket_receive_buffer_size: 0x80_0000,
                socket_send_buffer_size: 0x80_0000,
            }),
    {
        DomainParticipantBuilder {
            domain_id,
            only_networks: None,
            same_host_loopback: true,
            socket_receive_buffer_size: Self::DEFAULT_SOCKET_RECEIVE_BUFFER_SIZE,
            socket_send_buffer_size: Self::DEFAULT_SOCKET_SEND_BUFFER_SIZE,
        }
    }

    /// Only the interfaces with these addresses are used for multicast and told to
    /// others.
    pub fn with_only_networks(self, addrs: Vec<IpAddr>) -> (b: Self)
        ensures
            b == (DomainParticipantBuilder { only_networks: Some(addrs), ..self }),
    {
        DomainParticipantBuilder { only_networks: Some(addrs), ..self }
    }

    pub fn same_host_loopback(self, enabled: bool) -> (b: Self)
        ensures
            b == (DomainParticipantBuilder { same_host_loopback: enabled, ..self }),
    {
        DomainParticipantBuilder { same_host_loopback: enabled, ..self }
    }

    pub fn socket_receive_buffer_size(self, size: usize) -> (b: Self)
        ensures
            b == (DomainParticipantBuilder { socket_receive_buffer_size: size, ..self }),
    {
        DomainParticipantBuilder { socket_receive_buffer_size: size, ..self }
    }

    pub fn socket_send_buffer_size(self, size: usize) -> (b: Self)
        ensures
            b == (DomainParticipantBuilder { socket_send_buffer_size: size, ..self }),
    {
        DomainParticipantBuilder { socket_send_buffer_size: size, ..self }
    }
}

/// What the security plugins are asked next while a participant is made.
#[derive(Clone, Copy, Debug, PartialEq, Eq, Structural)]
pub enum SecuritySetup {
    ValidateIdentity,
    ValidatePermissions { guid: GUID },
    CheckCreate { guid: GUID },
    Register { guid: GUID },
    /// The participant may be made under this id.
    Done { guid: GUID },
}

/// What an access check gave.
#[derive(Debug)]
pub enum AccessAnswer {
    Allowed,
    Denied,
    /// The check could not be made.
    Failed { msg: String },
}

impl SecuritySetup {
    /// Without security there is nothing to ask: the participant gets the id that was
    /// drawn for it.
    pub fn start(security: bool, candidate: GUID) -> (step: Self)
        ensures
            step == (if security {
                SecuritySetup::ValidateIdentity
            } else {
                SecuritySetup::Done { guid: candidate }
            }),
    {
        if security {
            SecuritySetup::ValidateIdentity
        } else {
            SecuritySetup::Done { guid: candidate }
        }
    }

    /// The identity was validated, which may change the id, or it was not.
    pub fn identity_validated(answer: Result<GUID, String>) -> (r: Result<Self, CreateError>)
        ensures
            match answer {
                Ok(guid) => r == Ok::<Self, CreateError>(SecuritySetup::ValidatePermissions { guid }),
                Err(msg) => r matches Err(CreateError::NotAllowedBySecurity { reason }) && reason@
                    == "Validating local identity failed: "@ + msg@,
            },
    {
        match answer {
            Ok(guid) => Ok(SecuritySetup::ValidatePermissions { guid }),
            Err(msg) => Err(
                CreateError::NotAllowedBySecurity {
                    reason: text_with("Validating local identity failed: ", &msg),
                },
            ),
        }
    }

    /// The permissions were validated, or they were not.
    pub fn permissions_validated(guid: GUID, answer: Result<(), String>) -> (r: Result<
        Self,
        CreateError,
    >)
        ensures
            match answer {
                Ok(_) => r == Ok::<Self, CreateError>(SecuritySetup::CheckCreate { guid }),
                Err(msg) => r matches Err(CreateError::NotAllowedBySecurity { reason }) && reason@
                    == "Validating local permissions failed: "@ + msg@,
            },
    {
        match answer {
            Ok(_) => Ok(SecuritySetup::CheckCreate { guid }),
            Err(msg) => Err(
                CreateError::NotAllowedBySecurity {
                    reason: text_with("Validating local permissions failed: ", &msg),
                },
            ),
        }
    }

    /// It was checked whether such a participant may be made.
    pub fn create_checked(guid: GUID, answer: AccessAnswer) -> (r: Result<Self, CreateError>)
        ensures
            match answer {
                AccessAnswer::Allowed => r == Ok::<Self, CreateError>(
                    SecuritySetup::Register { guid },
                ),
                AccessAnswer::Denied => r matches Err(CreateError::NotAllowedBySecurity { reason })
                    && reason@ == "Access control does not allow to create the local participant"@,
                AccessAnswer::Failed { msg } => r matches Err(CreateError::Internal { reason })
                    && reason@
                    == "Something went wrong in checking local participant permissions: "@ + msg@,
            },
    {
        match answer {
            AccessAnswer::Allowed => Ok(SecuritySetup::Register { guid }),
            AccessAnswer::Denied => Err(
                CreateError::NotAllowedBySecurity {
                    reason: "Access control does not allow to create the local participant".to_owned(),
                },
            ),
            AccessAnswer::Failed { msg } => Err(
                CreateError::Internal {
                    reason: text_with(
                        "Something went wrong in checking local participant permissions: ",
                        &msg,
                    ),
                },
            ),
        }
    }

    /// The participant was registered for encryption, or it was not.
    pub fn registered(guid: GUID, answer: Result<(), String>) -> (r: Result<Self, CreateError>)
        ensures
            match answer {
                Ok(_) => r == Ok::<Self, CreateError>(SecuritySetup::Done { guid }),
                Err(msg) => r matches Err(CreateError::Internal { reason }) && reason@
                    == "Could not register participant with crypto plugin "@ + msg@,
            },
    {
        match answer {
            Ok(_) => Ok(SecuritySetup::Done { guid }),
            Err(msg) => Err(
                CreateError::Internal {
                    reason: text_with("Could not register participant with crypto plugin ", &msg),
                },
            ),
        }
    }
}

/// One more than the largest number that a participant of a domain can have on one host.
pub const MAX_PARTICIPANT_ID: u16 = 120;

/// The search for a participant number that is free on this host.
#[derive(Clone, Copy, Debug, PartialEq, Eq, Structural)]
pub enum IdSearch {
    /// Try to open the discovery port of this number.
    Try { participant_id: u16 },
    /// This number is free, and its port is open now.
    Found { participant_id: u16 },
}

impl IdSearch {
    #[verifier::allow_in_spec]
    pub fn start() -> (s: Self)
        returns
            (IdSearch::Try { participant_id: 0 }),
    {
        IdSearch::Try { participant_id: 0 }
    }

    /// The search after one port was tried.
    pub open spec fn after(participant_id: u16, opened: bool) -> Option<Self> {
        if opened {
            Some(IdSearch::Found { participant_id })
        } else if participant_id + 1 < MAX_PARTICIPANT_ID {
            Some(IdSearch::Try { participant_id: (participant_id + 1) as u16 })
        } else {
            None
        }
    }

    /// Goes on with the search after one port was tried.
    pub fn tried(participant_id: u16, opened: bool) -> (r: Result<Self, CreateError>)
        ensures
            match Self::after(participant_id, opened) {
                Some(next) => r == Ok::<Self, CreateError>(next),
                None => r matches Err(CreateError::OutOfResources { reason }) && reason@
                    == "Could not find free ParticipantId"@,
            },
    {
        if opened {
            Ok(IdSearch::Found { participant_id })
        } else if participant_id < MAX_PARTICIPANT_ID - 1 {
            Ok(IdSearch::Try { participant_id: participant_id + 1 })
        } else {
            Err(
                CreateError::OutOfResources {
                    reason: "Could not find free ParticipantId".to_owned(),
                },
            )
        }
    }

    /// The number that a search ends with which has come to `participant_id`, where `free`
    /// tells which ports can be opened.
    pub open spec fn outcome(participant_id: u16, free: spec_fn(u16) -> bool) -> Option<u16>
        decreases MAX_PARTICIPANT_ID - participant_id,
    {
        match Self::after(participant_id, free(participant_id)) {
            Some(IdSearch::Found { participant_id: id }) => Some(id),
            Some(IdSearch::Try { participant_id: id }) => Self::outcome(id, free),
            None => None,
        }
    }
}

/// The search ends with the smallest number that is free, and in vain only where none is.
pub proof fn law_smallest_free_id_is_found(from: u16, free: spec_fn(u16) -> bool)
    requires
        from < MAX_PARTICIPANT_ID,
    ensures
        match IdSearch::outcome(from, free) {
            Some(id) => from <= id < MAX_PARTICIPANT_ID && free(id) && forall|other: u16|
                from <= other < id ==> !#[trigger] free(other),
            None => forall|other: u16|
                from <= other < MAX_PARTICIPANT_ID ==> !#[trigger] free(other),
        },
    decreases MAX_PARTICIPANT_ID - from,
{
    if !free(from) && from + 1 < MAX_PARTICIPANT_ID {
        law_smallest_free_id_is_found((from + 1) as u16, free);
    }
}

/// A listener to open: its token and the port.
#[derive(Clone, Copy, Debug, PartialEq, Eq, Structural)]
pub struct ListenerPlan {
    pub token: usize,
    pub port: u16,
    /// Does it join the group of all participants? If so, it can be done without.
    pub multicast: bool,
}

/// The listener of multicast discovery.
pub fn discovery_multicast_plan(domain_id: u16) -> (plan: ListenerPlan)
    requires
        spec_spdp_well_known_multicast_port(domain_id as int) <= u16::MAX,
    ensures
        plan.token == DISCOVERY_MUL_LISTENER_TOKEN,
        plan.port == spec_spdp_well_known_multicast_port(domain_id as int),
        plan.multicast,
{
    ListenerPlan {
        token: DISCOVERY_MUL_LISTENER_TOKEN,
        port: spdp_well_known_multicast_port(domain_id),
        multicast: true,
    }
}

/// The listener of unicast discovery, for a number that the search tries.
pub fn discovery_unicast_plan(domain_id: u16, participant_id: u16) -> (plan: ListenerPlan)
    requires
        spec_spdp_well_known_unicast_port(domain_id as int, participant_id as int) <= u16::MAX,
    ensures
        plan.token == DISCOVERY_LISTENER_TOKEN,
        plan.port == spec_spdp_well_known_unicast_port(domain_id as int, participant_id as int),
        !plan.multicast,
{
    ListenerPlan {
        token: DISCOVERY_LISTENER_TOKEN,
        port: spdp_well_known_unicast_port(domain_id, participant_id),
        multicast: false,
    }
}

/// The listener of multicast data.
pub fn user_multicast_plan(domain_id: u16) -> (plan: ListenerPlan)
    requires
        spec_user_traffic_multicast_port(domain_id as int) <= u16::MAX,
    ensures
        plan.token == USER_TRAFFIC_MUL_LISTENER_TOKEN,
        plan.port == spec_user_traffic_multicast_port(domain_id as int),
        plan.multicast,
{
    ListenerPlan {
        token: USER_TRAFFIC_MUL_LISTENER_TOKEN,
        port: user_traffic_multicast_port(domain_id),
        multicast: true,
    }
}

/// The listener of unicast data.
pub fn user_unicast_plan(domain_id: u16, participant_id: u16) -> (plan: ListenerPlan)
    requires
        spec_user_traffic_unicast_port(domain_id as int, participant_id as int) <= u16::MAX,
    ensures
        plan.token == USER_TRAFFIC_LISTENER_TOKEN,
        plan.port == spec_user_traffic_unicast_port(domain_id as int, participant_id as int),
        !plan.multicast,
{
    ListenerPlan {
        token: USER_TRAFFIC_LISTENER_TOKEN,
        port: user_traffic_unicast_port(domain_id, participant_id),
        multicast: false,
    }
}

/// The listener of unicast data could not be opened. Where its port is taken any port
/// will do, which `0` stands for, unless that was what was tried.
pub fn user_unicast_refused(tried: ListenerPlan, in_use: bool, msg: String) -> (r: Result<
    ListenerPlan,
    CreateError,
>)
    ensures
        if tried.port == 0 {
            r matches Err(CreateError::OutOfResources { reason }) && reason@
                == "Could not open unicast user traffic listener, any port number: "@ + msg@
        } else if in_use {
            r == Ok::<ListenerPlan, CreateError>(ListenerPlan { port: 0, ..tried })
        } else {
            r matches Err(CreateError::OutOfResources { reason }) && reason@
                == "Could not open unicast user traffic listener: "@ + msg@
        },
{
    if tried.port == 0 {
        Err(
            CreateError::OutOfResources {
                reason: text_with(
                    "Could not open unicast user traffic listener, any port number: ",
                    &msg,
                ),
            },
        )
    } else if in_use {
        Ok(ListenerPlan { port: 0, ..tried })
    } else {
        Err(
            CreateError::OutOfResources {
                reason: text_with("Could not open unicast user traffic listener: ", &msg),
            },
        )
    }
}

/// Where a listener is reached.
pub struct ListenerLocators {
    pub token: usize,
    pub locators: Vec<Locator>,
}

/// A participant of a domain.
pub struct DomainParticipant {
    pub domain_info: DomainInfo,
    pub qos: QosPolicies,
    pub only_networks: Option<Vec<IpAddr>>,
    /// Where each listener of the participant is reached.
    pub self_locators: Vec<ListenerLocators>,
    /// What the next id of an entity is made of.
    pub entity_id_generator: u32,
}

/// The octets of the ids that a participant gives out, in order.
pub open spec fn entity_key_number(id: EntityId) -> int {
    id.key_0 * 0x1_0000 + id.key_1 * 0x100 + id.key_2
}

impl DomainParticipant {
    pub fn new(
        domain_info: DomainInfo,
        qos: QosPolicies,
        only_networks: Option<Vec<IpAddr>>,
        self_locators: Vec<ListenerLocators>,
    ) -> (p: Self)
        ensures
            p == (DomainParticipant {
                domain_info,
                qos,
                only_networks,
                self_locators,
                entity_id_generator: 0,
            }),
    {
        DomainParticipant {
            domain_info,
            qos,
            only_networks,
            self_locators,
            entity_id_generator: 0,
        }
    }

    pub fn guid(&self) -> (g: GUID)
        ensures
            g == self.domain_info.domain_participant_guid,
    {
        self.domain_info.domain_participant_guid
    }

    pub fn domain_id(&self) -> (id: u16)
        ensures
            id == self.domain_info.domain_id,
    {
        self.domain_info.domain_id
    }

    pub fn participant_id(&self) -> (id: u16)
        ensures
            id == self.domain_info.participant_id,
    {
        self.domain_info.participant_id
    }

    /// Gives out an id of an entity of this kind. Ids are told apart by three octets that
    /// count up.
    pub fn new_entity_id(&mut self, entity_kind: EntityKind) -> (id: EntityId)
        ensures
            id.entity_kind == entity_kind,
            entity_key_number(id) == old(self).entity_id_generator % 0x100_0000,
            *final(self) == (DomainParticipant {
                entity_id_generator: ((old(self).entity_id_generator + 1)
                    % 0x1_0000_0000) as u32,
                ..*old(self)
            }),
    {
        let n: u32 = self.entity_id_generator;
        self.entity_id_generator = n.wrapping_add(1);
        let papa: u32 = (n / 0x1_0000) % 0x100;
        let mama: u32 = (n / 0x100) % 0x100;
        let baby: u32 = n % 0x100;
        EntityId::new([papa as u8, mama as u8, baby as u8], entity_kind)
    }

    /// A publisher with these policies, which are also those that its writers start from.
    /// It gets an id of its own.
    pub fn create_publisher(&mut self, qos: &QosPolicies) -> (p: Publisher)
        ensures
            p.my_qos_policies == *qos,
            p.default_datawriter_qos == *qos,
            p.id.entity_kind == EntityKind::unknown_built_in(),
            entity_key_number(p.id) == old(self).entity_id_generator % 0x100_0000,
            *final(self) == (DomainParticipant {
                entity_id_generator: ((old(self).entity_id_generator + 1)
                    % 0x1_0000_0000) as u32,
                ..*old(self)
            }),
    {
        let id: EntityId = self.new_entity_id(EntityKind::unknown_built_in());
        Publisher::new(id, *qos, *qos)
    }

    /// A subscriber with these policies, which are also those that its readers start from.
    pub fn create_subscriber(&self, qos: &QosPolicies) -> (s: Subscriber)
        ensures
            s == (Subscriber { qos: *qos }),
    {
        Subscriber::new(*qos)
    }

    /// A topic. Where security is in use, access control has a say.
    pub fn create_topic(
        &self,
        name: String,
        type_desc: String,
        qos: &QosPolicies,
        topic_kind: TopicKind,
        access: AccessAnswer,
    ) -> (r: Result<Topic, CreateError>)
        ensures
            match access {
                AccessAnswer::Allowed => r == Ok::<Topic, CreateError>(
                    Topic { name, type_desc, qos: *qos, kind: topic_kind },
                ),
                AccessAnswer::Denied => r matches Err(CreateError::NotAllowedBySecurity { reason })
                    && reason@ == "Not allowed to create the topic "@ + name@,
                AccessAnswer::Failed { msg } => r matches Err(CreateError::Internal { reason })
                    && reason@ == "Failed to check Topic rights from Access control: "@ + msg@,
            },
    {
        match access {
            AccessAnswer::Allowed => Ok(
                Topic { name, type_desc, qos: *qos, kind: topic_kind },
            ),
            AccessAnswer::Denied => Err(
                CreateError::NotAllowedBySecurity {
                    reason: text_with("Not allowed to create the topic ", &name),
                },
            ),
            AccessAnswer::Failed { msg } => Err(
                CreateError::Internal {
                    reason: text_with("Failed to check Topic rights from Access control: ", &msg),
                },
            ),
        }
    }

    /// The topic that another participant told of, where one did.
    pub fn topic_from_discovery(
        &self,
        found: Option<&DiscoveredTopicData>,
        access: AccessAnswer,
    ) -> (r: Result<Option<Topic>, CreateError>)
        ensures
            found is None ==> r == Ok::<Option<Topic>, CreateError>(None),
            found matches Some(d) ==> match access {
                AccessAnswer::Allowed => r matches Ok(Some(topic)) && topic.name@ == d.topic_name@
                    && topic.type_desc@ == d.type_desc@ && topic.qos == d.qos && topic.kind == (
                if d.has_key {
                    TopicKind::WithKey
                } else {
                    TopicKind::NoKey
                }),
                AccessAnswer::Denied => r matches Err(CreateError::NotAllowedBySecurity { reason })
                    && reason@ == "Not allowed to create the topic "@ + d.topic_name@,
                AccessAnswer::Failed { msg } => r matches Err(CreateError::Internal { reason })
                    && reason@ == "Failed to check Topic rights from Access control: "@ + msg@,
            },
    {
        match found {
            None => Ok(None),
            Some(d) => {
                let topic: Topic = d.to_topic();
                match self.create_topic(
                    topic.name,
                    topic.type_desc,
                    &topic.qos,
                    topic.kind,
                    access,
                ) {
                    Ok(t) => Ok(Some(t)),
                    Err(e) => Err(e),
                }
            },
        }
    }
}

impl PartialEq for DomainParticipant {
    fn eq(&self, other: &Self) -> (r: bool) {
        self.guid() == other.guid() && self.domain_id() == other.domain_id()
            && self.participant_id() == other.participant_id()
    }
}

impl vstd::std_specs::cmp::PartialEqSpecImpl for DomainParticipant {
    open spec fn obeys_eq_spec() -> bool {
        true
    }

    open spec fn eq_spec(&self, other: &Self) -> bool {
        self.domain_info == other.domain_info
    }
}

/// Ids that a participant gives out differ, unless it has given out more than sixteen
/// million in between.
pub proof fn law_entity_ids_are_unique(first: EntityId, second: EntityId, start: u32, later: int)
    requires
        0 < later < 0x100_0000,
        entity_key_number(first) == start % 0x100_0000,
        entity_key_number(second) == (start + later) % 0x100_0000,
    ensures
        first != second,
{
}

/// Two publishers that a participant makes are told apart, unless it has given out more
/// than sixteen million ids in between; a copy is not told from what it was made from.
pub proof fn law_publishers_are_told_apart(
    first: Publisher,
    second: Publisher,
    start: u32,
    later: int,
)
    requires
        0 < later < 0x100_0000,
        entity_key_number(first.id) == start % 0x100_0000,
        entity_key_number(second.id) == (start + later) % 0x100_0000,
    ensures
        !first.eq_spec(&second),
        first.eq_spec(&first),
{
}

/// What to do in a search for a topic, after news from discovery were waited for.
#[derive(Clone, Copy, Debug, PartialEq, Eq, Structural)]
pub enum FindTopicStep {
    LookAgain,
    GiveUp,
}

/// Goes on with a search for a topic. News are worth a look even when time is up.
pub fn find_topic_step(news: bool, time_is_up: bool) -> (step: FindTopicStep)
    ensures
        step == (if !news && time_is_up {
            FindTopicStep::GiveUp
        } else {
            FindTopicStep::LookAgain
        }),
{
    if news {
        FindTopicStep::LookAgain
    } else if time_is_up {
        FindTopicStep::GiveUp
    } else {
        FindTopicStep::LookAgain
    }
}

/// What came of telling discovery that the participant is alive.
pub fn assert_liveliness_result(sent: bool) -> (r: Result<(), WriteError>)
    ensures
        r is Ok <==> sent,
        r matches Err(e) ==> e is WouldBlock,
{
    if sent {
        Ok(())
    } else {
        Err(WriteError::WouldBlock)
    }
}

/// What came of the start of a background thread.
#[derive(Debug)]
pub enum ThreadStart {
    Started,
    /// The thread told why it could not start.
    Refused { msg: String },
    /// The thread told nothing.
    Silent { msg: String },
}

/// Tells whether the discovery thread runs.
pub fn discovery_started(start: ThreadStart) -> (r: Result<(), CreateError>)
    ensures
        match start {
            ThreadStart::Started => r is Ok,
            ThreadStart::Refused { msg } => r matches Err(CreateError::Poisoned { reason })
                && reason@ == "Failed to start discovery thread: "@ + msg@,
            ThreadStart::Silent { msg } => r matches Err(CreateError::Poisoned { reason })
                && reason@ == "Discovery thread channel error: "@ + msg@,
        },
{
    match start {
        ThreadStart::Started => Ok(()),
        ThreadStart::Refused { msg } => Err(
            CreateError::Poisoned {
                reason: text_with("Failed to start discovery thread: ", &msg),
            },
        ),
        ThreadStart::Silent { msg } => Err(
            CreateError::Poisoned { reason: text_with("Discovery thread channel error: ", &msg) },
        ),
    }
}

/// What a look into a channel of status events gave.
pub enum StatusRead<T> {
    Event(T),
    /// There is no event now.
    Empty,
    /// There never will be an event again.
    Disconnected,
}

/// What the reader of a stream of status events gets.
pub enum StatusPoll<T> {
    /// An event, or the end of the stream.
    Ready(Option<T>),
    /// Nothing yet: keep the waker and wake it with the next event.
    Pending,
}

/// Tells what the reader of a stream of status events gets.
pub fn poll_next<T>(read: StatusRead<T>) -> (poll: StatusPoll<T>)
    ensures
        poll == (match read {
            StatusRead::Event(t) => StatusPoll::Ready(Some(t)),
            StatusRead::Empty => StatusPoll::Pending,
            StatusRead::Disconnected => StatusPoll::Ready(None),
        }),
{
    match read {
        StatusRead::Event(t) => StatusPoll::Ready(Some(t)),
        StatusRead::Empty => StatusPoll::Pending,
        StatusRead::Disconnected => StatusPoll::Ready(None),
    }
}

/// Where security is in use a participant is made only if its identity and permissions are
/// valid, access control allows it and it could be registered, and then under the id that
/// came out of the first; a single refusal ends it. Without security nobody is asked.
pub proof fn law_participant_needs_every_answer(
    candidate: GUID,
    identity: Result<GUID, String>,
    permissions: Result<(), String>,
    access: AccessAnswer,
    registration: Result<(), String>,
    open: SecuritySetup,
    first: SecuritySetup,
    second: Result<SecuritySetup, CreateError>,
    third: Result<SecuritySetup, CreateError>,
    fourth: Result<SecuritySetup, CreateError>,
    fifth: Result<SecuritySetup, CreateError>,
)
    requires
        call_ensures(SecuritySetup::start, (false, candidate), open),
        call_ensures(SecuritySetup::start, (true, candidate), first),
        call_ensures(SecuritySetup::identity_validated, (identity,), second),
        second matches Ok(SecuritySetup::ValidatePermissions { guid }) ==> call_ensures(
            SecuritySetup::permissions_validated,
            (guid, permissions),
            third,
        ),
        third matches Ok(SecuritySetup::CheckCreate { guid }) ==> call_ensures(
            SecuritySetup::create_checked,
            (guid, access),
            fourth,
        ),
        fourth matches Ok(SecuritySetup::Register { guid }) ==> call_ensures(
            SecuritySetup::registered,
            (guid, registration),
            fifth,
        ),
        second is Err ==> third is Err,
        third is Err ==> fourth is Err,
        fourth is Err ==> fifth is Err,
    ensures
        open == (SecuritySetup::Done { guid: candidate }),
        first is ValidateIdentity,
        fifth is Ok <==> identity is Ok && permissions is Ok && access is Allowed
            && registration is Ok,
        fifth matches Ok(step) ==> step == (SecuritySetup::Done { guid: identity->Ok_0 }),
{
}

/// Each listener has the port that its name says, and joins the group only where that is
/// what it is for.
pub proof fn law_listeners_have_their_ports(
    domain_id: u16,
    participant_id: u16,
    discovery_group: ListenerPlan,
    discovery_own: ListenerPlan,
    data_group: ListenerPlan,
    data_own: ListenerPlan,
)
    requires
        call_ensures(discovery_multicast_plan, (domain_id,), discovery_group),
        call_ensures(discovery_unicast_plan, (domain_id, participant_id), discovery_own),
        call_ensures(user_multicast_plan, (domain_id,), data_group),
        call_ensures(user_unicast_plan, (domain_id, participant_id), data_own),
    ensures
        discovery_group.port == 7400 + 250 * domain_id,
        data_group.port == discovery_group.port + 1,
        discovery_own.port == discovery_group.port + 10 + 2 * participant_id,
        data_own.port == discovery_own.port + 1,
        discovery_group.multicast,
        data_group.multicast,
        !discovery_own.multicast,
        !data_own.multicast,
        discovery_group.token == DISCOVERY_MUL_LISTENER_TOKEN,
        discovery_own.token == DISCOVERY_LISTENER_TOKEN,
        data_group.token == USER_TRAFFIC_MUL_LISTENER_TOKEN,
        data_own.token == USER_TRAFFIC_LISTENER_TOKEN,
{
}

/// A search for a topic ends only when there are no news and time is up; a stream of events
/// ends only when there will be no more.
pub proof fn law_waiting_ends_only_without_hope<T>(
    news: bool,
    time_is_up: bool,
    step: FindTopicStep,
    read: StatusRead<T>,
    poll: StatusPoll<T>,
)
    requires
        call_ensures(find_topic_step, (news, time_is_up), step),
        call_ensures(poll_next::<T>, (read,), poll),
    ensures
        step is GiveUp <==> time_is_up && !news,
        poll is Pending <==> read is Empty,
        poll matches StatusPoll::Ready(None) ==> read is Disconnected,
        read matches StatusRead::Event(t) ==> poll == StatusPoll::Ready(Some(t)),
{
}

} // verus!
