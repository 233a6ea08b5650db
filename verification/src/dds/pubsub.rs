//! Publishers and subscribers.

use vstd::prelude::*;

use crate::dds::participant::{entity_key_number, AccessAnswer, DomainParticipant};
use crate::dds::qos::{Durability, History, QosPolicies, Reliability};
use crate::dds::result::{text_about, text_with, CreateError};
use crate::dds::topic::{Topic, TopicKind};
use crate::dds::with_key::datawriter::{is_manual_by_participant, DataWriter, WriteOptions};
use crate::rtps::constant::DEFAULT_WRITER_MAX_SAMPLES;
use crate::rtps::endpoint_matching::EndpointSecurityInfo;
use crate::rtps::writer::WriterIngredients;
use crate::rtps::writer_send_buffer::{
    at_least_one, law_only_full_limits_hold_back, WriterSendBuffer,
};
use crate::structure::guid::{EntityId, EntityKind, GUID};

verus! {

/// A collection of data writers.
#[derive(Clone, Copy, Debug)]
pub struct Publisher {
    /// Tells it from the other publishers of its participant.
    pub id: EntityId,
    pub my_qos_policies: QosPolicies,
    /// The policies that its writers start from.
    pub default_datawriter_qos: QosPolicies,
}

/// A collection of data readers.
#[derive(Clone, Copy, Debug)]
pub struct Subscriber {
    /// The policies that its readers start from.
    pub qos: QosPolicies,
}

/// The policies of an endpoint: those of its publisher or subscriber, changed by those of
/// its topic, changed by its own.
pub open spec fn layered(
    base: QosPolicies,
    topic: QosPolicies,
    own: Option<QosPolicies>,
) -> QosPolicies {
    match own {
        Some(q) => base.spec_modify_by(topic).spec_modify_by(q),
        None => base.spec_modify_by(topic),
    }
}

fn layer(base: &QosPolicies, topic: &QosPolicies, own: Option<QosPolicies>) -> (q: QosPolicies)
    ensures
        q == layered(*base, *topic, own),
{
    let own: QosPolicies = match own {
        Some(q) => q,
        None => QosPolicies::qos_none(),
    };
    base.modify_by(topic).modify_by(&own)
}

/// A policy that the endpoint sets itself holds, one that only the topic sets is taken
/// from there, and one that neither sets from the publisher or subscriber.
pub proof fn law_nearest_policy_wins(base: QosPolicies, topic: QosPolicies, own: QosPolicies)
    ensures
        own.history is Some ==> layered(base, topic, Some(own)).history == own.history,
        own.history is None && topic.history is Some ==> layered(base, topic, Some(own)).history
            == topic.history,
        own.history is None && topic.history is None ==> layered(base, topic, Some(own)).history
            == base.history,
        own.reliability is Some ==> layered(base, topic, Some(own)).reliability == own.reliability,
        own.reliability is None && topic.reliability is Some ==> layered(
            base,
            topic,
            Some(own),
        ).reliability == topic.reliability,
        own.reliability is None && topic.reliability is None ==> layered(
            base,
            topic,
            Some(own),
        ).reliability == base.reliability,
        layered(base, topic, None) == layered(base, topic, Some(QosPolicies::qos_none())),
{
}

/// How many samples a writer may have unacknowledged, or unsent: as many as its resource
/// limits say.
pub open spec fn window_limit_of(qos: QosPolicies) -> usize {
    match qos.spec_max_samples() {
        Some(m) => m,
        None => DEFAULT_WRITER_MAX_SAMPLES,
    }
}

/// A depth as a number of samples, at least one. A negative depth stands for no bound that
/// matters: it counts down from the largest number there is.
pub open spec fn depth_of(depth: i32) -> int {
    if depth < 0 {
        usize::MAX + 1 + depth
    } else if depth == 0 {
        1
    } else {
        depth as int
    }
}

/// How many samples a writer retains where nobody can ask for a repair: as many as its
/// history says, within its resource limits.
pub open spec fn max_retain_of(qos: QosPolicies) -> int {
    match qos.history {
        Some(History::KeepLast { depth }) => match qos.spec_max_samples() {
            Some(m) if m <= depth_of(depth) => m as int,
            _ => depth_of(depth),
        },
        _ => window_limit_of(qos) as int,
    }
}

fn window_limit(qos: &QosPolicies) -> (n: usize)
    ensures
        n == window_limit_of(*qos),
{
    match qos.max_samples() {
        Some(m) => m,
        None => DEFAULT_WRITER_MAX_SAMPLES,
    }
}

fn max_retain(qos: &QosPolicies) -> (n: usize)
    ensures
        n == max_retain_of(*qos),
        n >= 1,
{
    match qos.history {
        Some(History::KeepLast { depth }) => {
            let d: usize = if depth < 0 {
                let above: i32 = -(depth + 1);
                usize::MAX - above as usize
            } else if depth == 0 {
                1
            } else {
                depth as usize
            };
            match qos.max_samples() {
                Some(m) => if m <= d {
                    m
                } else {
                    d
                },
                None => d,
            }
        },
        _ => window_limit(qos),
    }
}

/// The depth of the history bounds what is retained, not how many samples may be
/// unacknowledged.
pub proof fn law_depth_does_not_narrow_the_window(qos: QosPolicies, history: Option<History>)
    ensures
        window_limit_of(QosPolicies { history, ..qos }) == window_limit_of(qos),
{
}

/// A writer retains no more than its resource limits allow, and always something.
pub proof fn law_retention_stays_within_limits(qos: QosPolicies)
    ensures
        1 <= max_retain_of(qos),
        qos.spec_max_samples() matches Some(m) ==> max_retain_of(qos) <= m,
{
}

/// A new writer: its side for the application, the buffer that it shares with the sending
/// side, and what that side is made from.
pub struct NewWriter {
    pub data_writer: DataWriter,
    pub send_buffer: WriterSendBuffer,
    pub ingredients: WriterIngredients,
    /// What others are told about its protection.
    pub security_info: Option<EndpointSecurityInfo>,
    /// Is discovery to be told at once that the participant is alive?
    pub refresh: bool,
}

/// What a new reader is made from.
#[derive(Debug)]
pub struct ReaderIngredients {
    pub guid: GUID,
    pub topic_name: String,
    pub like_stateless: bool,
    pub qos_policy: QosPolicies,
}

/// The buffer of a new writer is empty, and its limits follow from the policies.
pub open spec fn is_new_buffer(b: WriterSendBuffer, guid: GUID, topic: Topic, qos: QosPolicies) -> bool {
    &&& b.wf()
    &&& b.last_seq@ == 0
    &&& b.first_seq@ == 1
    &&& b.acked_before@ == 1
    &&& b.sent_frontier@ == 0
    &&& !b.reliable_readers_present
    &&& b.wakers@.len() == 0
    &&& b.writer_guid == guid
    &&& b.topic_name@ == topic.name@
    &&& b.reliable_writer == qos.spec_is_reliable()
    &&& b.is_builtin == guid.entity_id.entity_kind.spec_is_built_in()
    &&& b.volatile == qos.spec_is_volatile()
    &&& b.window_limit == window_limit_of(qos)
    &&& b.backlog_limit == window_limit_of(qos)
    &&& b.max_retain == max_retain_of(qos)
}

/// The writer that a publisher makes under an id, with these policies.
pub open spec fn is_new_writer(
    w: NewWriter,
    publisher: Publisher,
    guid: GUID,
    topic: Topic,
    qos: QosPolicies,
    like_stateless: bool,
) -> bool {
    &&& w.data_writer.my_publisher == publisher
    &&& w.data_writer.my_topic.same(topic)
    &&& w.data_writer.qos_policy == qos
    &&& w.data_writer.my_guid == guid
    &&& is_new_buffer(w.send_buffer, guid, topic, qos)
    &&& w.ingredients.guid == guid
    &&& w.ingredients.topic_name@ == topic.name@
    &&& w.ingredients.like_stateless == like_stateless
    &&& w.ingredients.qos_policies == qos
    &&& w.refresh == is_manual_by_participant(qos)
}

/// The id of a new endpoint: the one that is asked for, else a fresh one.
pub open spec fn is_endpoint_id(
    id: EntityId,
    asked: Option<EntityId>,
    kind: EntityKind,
    before: DomainParticipant,
) -> bool {
    match asked {
        Some(a) => id == a,
        None => id.entity_kind == kind && entity_key_number(id) == before.entity_id_generator
            % 0x100_0000,
    }
}

/// The participant after the id of a new endpoint was settled.
pub open spec fn after_endpoint_id(
    before: DomainParticipant,
    asked: Option<EntityId>,
) -> DomainParticipant {
    match asked {
        Some(_) => before,
        None => DomainParticipant {
            entity_id_generator: ((before.entity_id_generator + 1) % 0x1_0000_0000) as u32,
            ..before
        },
    }
}

/// Settles the id of a new endpoint.
pub fn unwrap_or_new_entity_id(
    participant: &mut DomainParticipant,
    entity_id_opt: Option<EntityId>,
    entity_kind: EntityKind,
) -> (id: EntityId)
    ensures
        is_endpoint_id(id, entity_id_opt, entity_kind, *old(participant)),
        *final(participant) == after_endpoint_id(*old(participant), entity_id_opt),
{
    match entity_id_opt {
        Some(id) => id,
        None => participant.new_entity_id(entity_kind),
    }
}

/// The error where the participant of a publisher or subscriber is gone.
pub fn participant_gone() -> (e: CreateError)
    ensures
        e matches CreateError::ResourceDropped { reason } && reason@
            == "Where is my DomainParticipant? upgrade fail"@,
{
    CreateError::ResourceDropped {
        reason: "Where is my DomainParticipant? upgrade fail".to_owned(),
    }
}

/// What the security plugins say to a new endpoint.
pub struct EndpointSecurity {
    /// May it be made?
    pub access: AccessAnswer,
    /// Was it registered for encryption?
    pub registered: Result<(), String>,
    /// How is it protected?
    pub info: Result<EndpointSecurityInfo, String>,
    /// Its identifier as it is printed.
    pub printed_guid: String,
}

impl Publisher {
    pub fn new(id: EntityId, qos: QosPolicies, default_dw_qos: QosPolicies) -> (p: Self)
        ensures
            p == (Publisher {
                id,
                my_qos_policies: qos,
                default_datawriter_qos: default_dw_qos,
            }),
    {
        Publisher {
            id,
            my_qos_policies: qos,
            default_datawriter_qos: default_dw_qos,
        }
    }

    pub fn get_default_datawriter_qos(&self) -> (q: QosPolicies)
        ensures
            q == self.default_datawriter_qos,
    {
        self.default_datawriter_qos
    }

    pub fn set_default_datawriter_qos(&mut self, q: &QosPolicies)
        ensures
            *final(self) == (Publisher { default_datawriter_qos: *q, ..*old(self) }),
    {
        self.default_datawriter_qos = *q;
    }

    pub fn identity(&self) -> (id: EntityId)
        ensures
            id == self.id,
    {
        self.id
    }

    /// The id and the policies of a new writer.
    pub fn plan_datawriter(
        &self,
        participant: &mut DomainParticipant,
        entity_id_opt: Option<EntityId>,
        topic: &Topic,
        optional_qos: Option<QosPolicies>,
    ) -> (r: (GUID, QosPolicies))
        ensures
            r.0.prefix == old(participant).domain_info.domain_participant_guid.prefix,
            is_endpoint_id(
                r.0.entity_id,
                entity_id_opt,
                EntityKind::writer_with_key_user_defined(),
                *old(participant),
            ),
            *final(participant) == after_endpoint_id(*old(participant), entity_id_opt),
            r.1 == layered(self.default_datawriter_qos, topic.qos, optional_qos),
    {
        let qos: QosPolicies = layer(&self.default_datawriter_qos, &topic.qos, optional_qos);
        let entity_id: EntityId = unwrap_or_new_entity_id(
            participant,
            entity_id_opt,
            EntityKind::writer_with_key_user_defined(),
        );
        (GUID::new_with_prefix_and_id(participant.guid().prefix, entity_id), qos)
    }

    /// Makes a writer whose id and policies are settled.
    fn make_datawriter(
        &self,
        guid: GUID,
        qos: QosPolicies,
        topic: &Topic,
        writer_like_stateless: bool,
        security: bool,
        security_info: Option<EndpointSecurityInfo>,
    ) -> (w: NewWriter)
        ensures
            is_new_writer(w, *self, guid, *topic, qos, writer_like_stateless),
            w.ingredients.security == security,
            w.security_info == security_info,
    {
        let limit: usize = window_limit(&qos);
        let retain: usize = max_retain(&qos);
        assert(at_least_one(limit) == limit);
        assert(at_least_one(retain) == retain);
        let send_buffer: WriterSendBuffer = WriterSendBuffer::new(
            guid,
            topic.name.clone(),
            qos.is_reliable(),
            guid.entity_id.kind().is_built_in(),
            qos.is_volatile(),
            limit,
            limit,
            retain,
        );
        let (data_writer, refresh) = DataWriter::new(*self, topic.clone(), qos, guid);
        let ingredients = WriterIngredients {
            guid,
            topic_name: topic.name.clone(),
            like_stateless: writer_like_stateless,
            qos_policies: qos,
            security,
        };
        NewWriter { data_writer, send_buffer, ingredients, security_info, refresh }
    }

    /// Makes a writer whose id and policies are settled, where security is in use. Only
    /// the protection of writers of the application is told to others.
    pub fn create_secure_datawriter(
        &self,
        guid: GUID,
        qos: QosPolicies,
        topic: &Topic,
        writer_like_stateless: bool,
        security: EndpointSecurity,
    ) -> (r: Result<NewWriter, CreateError>)
        ensures
            match security.access {
                AccessAnswer::Denied => r matches Err(CreateError::NotAllowedBySecurity { reason })
                    && reason@ == "Not allowed to create a DataWriter to topic "@ + topic.name@,
                AccessAnswer::Failed { msg } => r matches Err(CreateError::Internal { reason })
                    && reason@ == "Failed to check DataWriter rights from Access control: "@ + msg@,
                AccessAnswer::Allowed => match security.registered {
                    Err(msg) => r matches Err(CreateError::Internal { reason }) && reason@
                        == "Failed to register writer to crypto plugin: "@ + msg@ + " . GUID: "@
                        + security.printed_guid@,
                    Ok(_) => if guid.entity_id.entity_kind.spec_is_user_defined() {
                        match security.info {
                            Err(msg) => r matches Err(CreateError::Internal { reason }) && reason@
                                == "Failed to get security info for writer: "@ + msg@ + ". Guid: "@
                                + security.printed_guid@,
                            Ok(info) => r matches Ok(w) && is_new_writer(
                                w,
                                *self,
                                guid,
                                *topic,
                                qos,
                                writer_like_stateless,
                            ) && w.ingredients.security && w.security_info == Some(info),
                        }
                    } else {
                        r matches Ok(w) && is_new_writer(
                            w,
                            *self,
                            guid,
                            *topic,
                            qos,
                            writer_like_stateless,
                        ) && w.ingredients.security && w.security_info is None
                    },
                },
            },
    {
        match endpoint_security_info(
            guid,
            security,
            "Not allowed to create a DataWriter to topic ",
            &topic.name,
            "Failed to check DataWriter rights from Access control: ",
            "Failed to register writer to crypto plugin: ",
            "Failed to get security info for writer: ",
        ) {
            Err(e) => Err(e),
            Ok(info) => Ok(
                self.make_datawriter(guid, qos, topic, writer_like_stateless, true, info),
            ),
        }
    }

    /// Makes a writer for a topic with keys, where security is not in use.
    pub fn create_datawriter(
        &self,
        participant: &mut DomainParticipant,
        entity_id_opt: Option<EntityId>,
        topic: &Topic,
        optional_qos: Option<QosPolicies>,
        writer_like_stateless: bool,
    ) -> (w: NewWriter)
        ensures
            *final(participant) == after_endpoint_id(*old(participant), entity_id_opt),
            is_endpoint_id(
                w.data_writer.my_guid.entity_id,
                entity_id_opt,
                EntityKind::writer_with_key_user_defined(),
                *old(participant),
            ),
            w.data_writer.my_guid.prefix == old(
                participant,
            ).domain_info.domain_participant_guid.prefix,
            is_new_writer(
                w,
                *self,
                w.data_writer.my_guid,
                *topic,
                layered(self.default_datawriter_qos, topic.qos, optional_qos),
                writer_like_stateless,
            ),
            !w.ingredients.security,
            w.security_info is None,
    {
        let (guid, qos) = self.plan_datawriter(participant, entity_id_opt, topic, optional_qos);
        self.make_datawriter(guid, qos, topic, writer_like_stateless, false, None)
    }

    /// Makes a writer for a topic without keys, where security is not in use.
    pub fn create_datawriter_no_key(
        &self,
        participant: &mut DomainParticipant,
        entity_id_opt: Option<EntityId>,
        topic: &Topic,
        optional_qos: Option<QosPolicies>,
        writer_like_stateless: bool,
    ) -> (w: NewWriter)
        ensures
            *final(participant) == after_endpoint_id(*old(participant), entity_id_opt),
            is_endpoint_id(
                w.data_writer.my_guid.entity_id,
                entity_id_opt,
                EntityKind::writer_no_key_user_defined(),
                *old(participant),
            ),
            w.data_writer.my_guid.prefix == old(
                participant,
            ).domain_info.domain_participant_guid.prefix,
            is_new_writer(
                w,
                *self,
                w.data_writer.my_guid,
                *topic,
                layered(self.default_datawriter_qos, topic.qos, optional_qos),
                writer_like_stateless,
            ),
            !w.ingredients.security,
            w.security_info is None,
    {
        let entity_id: EntityId = unwrap_or_new_entity_id(
            participant,
            entity_id_opt,
            EntityKind::writer_no_key_user_defined(),
        );
        self.create_datawriter(
            participant,
            Some(entity_id),
            topic,
            optional_qos,
            writer_like_stateless,
        )
    }
}

/// What others are told about the protection of a new endpoint, or why it cannot be made.
fn endpoint_security_info(
    guid: GUID,
    security: EndpointSecurity,
    denied: &str,
    topic_name: &String,
    failed: &str,
    unregistered: &str,
    unknown: &str,
) -> (r: Result<Option<EndpointSecurityInfo>, CreateError>)
    ensures
        match security.access {
            AccessAnswer::Denied => r matches Err(CreateError::NotAllowedBySecurity { reason })
                && reason@ == denied@ + topic_name@,
            AccessAnswer::Failed { msg } => r matches Err(CreateError::Internal { reason })
                && reason@ == failed@ + msg@,
            AccessAnswer::Allowed => match security.registered {
                Err(msg) => r matches Err(CreateError::Internal { reason }) && reason@
                    == unregistered@ + msg@ + " . GUID: "@ + security.printed_guid@,
                Ok(_) => if guid.entity_id.entity_kind.spec_is_user_defined() {
                    match security.info {
                        Err(msg) => r matches Err(CreateError::Internal { reason }) && reason@
                            == unknown@ + msg@ + ". Guid: "@ + security.printed_guid@,
                        Ok(info) => r == Ok::<Option<EndpointSecurityInfo>, CreateError>(
                            Some(info),
                        ),
                    }
                } else {
                    r == Ok::<Option<EndpointSecurityInfo>, CreateError>(None)
                },
            },
        },
{
    match security.access {
        AccessAnswer::Denied => Err(
            CreateError::NotAllowedBySecurity { reason: text_with(denied, topic_name) },
        ),
        AccessAnswer::Failed { msg } => Err(
            CreateError::Internal { reason: text_with(failed, &msg) },
        ),
        AccessAnswer::Allowed => match security.registered {
            Err(msg) => Err(
                CreateError::Internal {
                    reason: text_about(unregistered, &msg, " . GUID: ", &security.printed_guid),
                },
            ),
            Ok(_) => {
                if guid.entity_id.kind().is_user_defined() {
                    match security.info {
                        Err(msg) => Err(
                            CreateError::Internal {
                                reason: text_about(
                                    unknown,
                                    &msg,
                                    ". Guid: ",
                                    &security.printed_guid,
                                ),
                            },
                        ),
                        Ok(info) => Ok(Some(info)),
                    }
                } else {
                    Ok(None)
                }
            },
        },
    }
}

impl PartialEq for Publisher {
    fn eq(&self, other: &Self) -> (r: bool) {
        self.identity() == other.identity()
    }
}

impl vstd::std_specs::cmp::PartialEqSpecImpl for Publisher {
    open spec fn obeys_eq_spec() -> bool {
        true
    }

    open spec fn eq_spec(&self, other: &Self) -> bool {
        self.id == other.id
    }
}

/// The reader that a subscriber makes.
pub open spec fn is_new_reader(
    r: ReaderIngredients,
    subscriber: Subscriber,
    before: DomainParticipant,
    asked: Option<EntityId>,
    kind: EntityKind,
    topic: Topic,
    own: Option<QosPolicies>,
    like_stateless: bool,
) -> bool {
    &&& r.guid.prefix == before.domain_info.domain_participant_guid.prefix
    &&& is_endpoint_id(r.guid.entity_id, asked, kind, before)
    &&& r.topic_name@ == topic.name@
    &&& r.like_stateless == like_stateless
    &&& r.qos_policy == layered(subscriber.qos, topic.qos, own)
}

impl Subscriber {
    pub fn new(qos: QosPolicies) -> (s: Self)
        ensures
            s == (Subscriber { qos }),
    {
        Subscriber { qos }
    }

    /// What a new reader is made from.
    pub fn create_simple_datareader_internal(
        &self,
        participant: &mut DomainParticipant,
        entity_id_opt: Option<EntityId>,
        topic: &Topic,
        optional_qos: Option<QosPolicies>,
        reader_like_stateless: bool,
    ) -> (r: ReaderIngredients)
        ensures
            *final(participant) == after_endpoint_id(*old(participant), entity_id_opt),
            is_new_reader(
                r,
                *self,
                *old(participant),
                entity_id_opt,
                EntityKind::reader_with_key_user_defined(),
                *topic,
                optional_qos,
                reader_like_stateless,
            ),
    {
        let qos_policy: QosPolicies = layer(&self.qos, &topic.qos, optional_qos);
        let entity_id: EntityId = unwrap_or_new_entity_id(
            participant,
            entity_id_opt,
            EntityKind::reader_with_key_user_defined(),
        );
        ReaderIngredients {
            guid: GUID::new_with_prefix_and_id(participant.guid().prefix, entity_id),
            topic_name: topic.name.clone(),
            like_stateless: reader_like_stateless,
            qos_policy,
        }
    }

    /// What others are told about the protection of a new reader, or why it cannot be
    /// made, where security is in use.
    pub fn reader_security(
        &self,
        guid: GUID,
        topic: &Topic,
        security: EndpointSecurity,
    ) -> (r: Result<Option<EndpointSecurityInfo>, CreateError>)
        ensures
            match security.access {
                AccessAnswer::Denied => r matches Err(CreateError::NotAllowedBySecurity { reason })
                    && reason@ == "Not allowed to create a DataReader to topic "@ + topic.name@,
                AccessAnswer::Failed { msg } => r matches Err(CreateError::Internal { reason })
                    && reason@ == "Failed to check DataReader rights from Access control: "@ + msg@,
                AccessAnswer::Allowed => match security.registered {
                    Err(msg) => r matches Err(CreateError::Internal { reason }) && reason@
                        == "Failed to register reader to crypto plugin: "@ + msg@ + " . GUID: "@
                        + security.printed_guid@,
                    Ok(_) => if guid.entity_id.entity_kind.spec_is_user_defined() {
                        match security.info {
                            Err(msg) => r matches Err(CreateError::Internal { reason }) && reason@
                                == "Failed to get security info for reader: "@ + msg@ + ". Guid: "@
                                + security.printed_guid@,
                            Ok(info) => r == Ok::<Option<EndpointSecurityInfo>, CreateError>(
                                Some(info),
                            ),
                        }
                    } else {
                        r == Ok::<Option<EndpointSecurityInfo>, CreateError>(None)
                    },
                },
            },
    {
        endpoint_security_info(
            guid,
            security,
            "Not allowed to create a DataReader to topic ",
            &topic.name,
            "Failed to check DataReader rights from Access control: ",
            "Failed to register reader to crypto plugin: ",
            "Failed to get security info for reader: ",
        )
    }

    /// A reader for a topic with keys.
    pub fn create_datareader(
        &self,
        participant: &mut DomainParticipant,
        topic: &Topic,
        entity_id: Option<EntityId>,
        qos: Option<QosPolicies>,
        reader_like_stateless: bool,
    ) -> (r: Result<ReaderIngredients, CreateError>)
        ensures
            if topic.kind == TopicKind::WithKey {
                &&& *final(participant) == after_endpoint_id(*old(participant), entity_id)
                &&& r matches Ok(i) && is_new_reader(
                    i,
                    *self,
                    *old(participant),
                    entity_id,
                    EntityKind::reader_with_key_user_defined(),
                    *topic,
                    qos,
                    reader_like_stateless,
                )
            } else {
                &&& *final(participant) == *old(participant)
                &&& r == Err::<ReaderIngredients, CreateError>(
                    CreateError::TopicKind(TopicKind::WithKey),
                )
            },
    {
        if topic.kind != TopicKind::WithKey {
            return Err(CreateError::TopicKind(TopicKind::WithKey));
        }
        Ok(
            self.create_simple_datareader_internal(
                participant,
                entity_id,
                topic,
                qos,
                reader_like_stateless,
            ),
        )
    }

    /// A reader for a topic without keys.
    pub fn create_datareader_no_key(
        &self,
        participant: &mut DomainParticipant,
        topic: &Topic,
        entity_id_opt: Option<EntityId>,
        qos: Option<QosPolicies>,
        reader_like_stateless: bool,
    ) -> (r: Result<ReaderIngredients, CreateError>)
        ensures
            if topic.kind == TopicKind::NoKey {
                &&& *final(participant) == after_endpoint_id(*old(participant), entity_id_opt)
                &&& r matches Ok(i) && is_new_reader(
                    i,
                    *self,
                    *old(participant),
                    entity_id_opt,
                    EntityKind::reader_no_key_user_defined(),
                    *topic,
                    qos,
                    reader_like_stateless,
                )
            } else {
                &&& *final(participant) == *old(participant)
                &&& r == Err::<ReaderIngredients, CreateError>(
                    CreateError::TopicKind(TopicKind::NoKey),
                )
            },
    {
        if topic.kind != TopicKind::NoKey {
            return Err(CreateError::TopicKind(TopicKind::NoKey));
        }
        let entity_id: EntityId = unwrap_or_new_entity_id(
            participant,
            entity_id_opt,
            EntityKind::reader_no_key_user_defined(),
        );
        Ok(
            self.create_simple_datareader_internal(
                participant,
                Some(entity_id),
                topic,
                qos,
                reader_like_stateless,
            ),
        )
    }

    /// A plain reader for a topic without keys.
    pub fn create_simple_datareader_no_key(
        &self,
        participant: &mut DomainParticipant,
        topic: &Topic,
        entity_id_opt: Option<EntityId>,
        qos: Option<QosPolicies>,
    ) -> (r: Result<ReaderIngredients, CreateError>)
        ensures
            if topic.kind == TopicKind::NoKey {
                &&& *final(participant) == after_endpoint_id(*old(participant), entity_id_opt)
                &&& r matches Ok(i) && is_new_reader(
                    i,
                    *self,
                    *old(participant),
                    entity_id_opt,
                    EntityKind::reader_no_key_user_defined(),
                    *topic,
                    qos,
                    false,
                )
            } else {
                &&& *final(participant) == *old(participant)
                &&& r == Err::<ReaderIngredients, CreateError>(
                    CreateError::TopicKind(TopicKind::NoKey),
                )
            },
    {
        self.create_datareader_no_key(participant, topic, entity_id_opt, qos, false)
    }
}

/// A policy of the endpoint where it sets it, else of the topic where that does, else of the
/// publisher or subscriber.
pub open spec fn is_nearest<T>(
    held: Option<T>,
    base: Option<T>,
    topic: Option<T>,
    own: Option<T>,
) -> bool {
    &&& own is Some ==> held == own
    &&& own is None && topic is Some ==> held == topic
    &&& own is None && topic is None ==> held == base
}

/// Each policy of an endpoint is the nearest that is set.
pub proof fn law_every_policy_is_the_nearest(
    base: QosPolicies,
    topic: QosPolicies,
    own: Option<QosPolicies>,
)
    ensures
        ({
            let q = layered(base, topic, own);
            let mine = match own {
                Some(set) => set,
                None => QosPolicies::qos_none(),
            };
            &&& is_nearest(q.durability, base.durability, topic.durability, mine.durability)
            &&& is_nearest(q.presentation, base.presentation, topic.presentation, mine.presentation)
            &&& is_nearest(q.deadline, base.deadline, topic.deadline, mine.deadline)
            &&& is_nearest(
                q.latency_budget,
                base.latency_budget,
                topic.latency_budget,
                mine.latency_budget,
            )
            &&& is_nearest(q.ownership, base.ownership, topic.ownership, mine.ownership)
            &&& is_nearest(q.liveliness, base.liveliness, topic.liveliness, mine.liveliness)
            &&& is_nearest(
                q.time_based_filter,
                base.time_based_filter,
                topic.time_based_filter,
                mine.time_based_filter,
            )
            &&& is_nearest(q.reliability, base.reliability, topic.reliability, mine.reliability)
            &&& is_nearest(
                q.destination_order,
                base.destination_order,
                topic.destination_order,
                mine.destination_order,
            )
            &&& is_nearest(q.history, base.history, topic.history, mine.history)
            &&& is_nearest(
                q.resource_limits,
                base.resource_limits,
                topic.resource_limits,
                mine.resource_limits,
            )
            &&& is_nearest(q.lifespan, base.lifespan, topic.lifespan, mine.lifespan)
        }),
{
}

/// The limits of a new writer follow from its policies. As many samples may be unsent, or
/// unacknowledged, as its resource limits say. As many of the latest are retained as its
/// history is deep, but no more than the resource limits allow; without a depth as many as
/// those allow.
pub proof fn law_limits_of_a_new_writer(
    w: NewWriter,
    publisher: Publisher,
    guid: GUID,
    topic: Topic,
    qos: QosPolicies,
    like_stateless: bool,
)
    requires
        is_new_writer(w, publisher, guid, topic, qos, like_stateless),
    ensures
        ({
            let b = w.send_buffer;
            let allowed: int = match qos.resource_limits {
                Some(limits) if limits.max_samples > 0 => limits.max_samples as int,
                _ => DEFAULT_WRITER_MAX_SAMPLES as int,
            };
            let limited = qos.resource_limits matches Some(limits) && limits.max_samples > 0;
            &&& b.window_limit == allowed
            &&& b.backlog_limit == allowed
            &&& match qos.history {
                Some(History::KeepLast { depth }) => depth >= 1 ==> b.max_retain == (if limited
                    && allowed < depth {
                    allowed
                } else {
                    depth as int
                }),
                _ => b.max_retain == allowed,
            }
            &&& b.reliable_writer <==> (qos.reliability matches Some(Reliability::Reliable { .. }))
            &&& b.volatile <==> qos.durability is None || qos.durability == Some(
                Durability::Volatile,
            )
            &&& b.is_builtin <==> guid.entity_id.entity_kind.value >= 0xC0
        }),
        w.data_writer.my_guid == w.ingredients.guid,
        w.data_writer.my_guid == w.send_buffer.writer_guid,
        w.data_writer.qos_policy == w.ingredients.qos_policies,
        w.ingredients.like_stateless == like_stateless,
        forall|options: WriteOptions| #[trigger]
            w.send_buffer.room(w.send_buffer.may_block(options)),
{
    assert forall|options: WriteOptions| #[trigger]
        w.send_buffer.room(w.send_buffer.may_block(options)) by {
        law_only_full_limits_hold_back(w.send_buffer, options);
    }
}

/// Where security is in use an endpoint is made only if access control allows it, it could
/// be registered, and for one of the application its protection is known. Only the
/// protection of endpoints of the application is told to others.
pub proof fn law_endpoint_needs_every_answer(
    publisher: Publisher,
    subscriber: Subscriber,
    guid: GUID,
    qos: QosPolicies,
    topic: Topic,
    like_stateless: bool,
    security: EndpointSecurity,
    writer: Result<NewWriter, CreateError>,
    reader: Result<Option<EndpointSecurityInfo>, CreateError>,
)
    requires
        call_ensures(
            Publisher::create_secure_datawriter,
            (&publisher, guid, qos, &topic, like_stateless, security),
            writer,
        ),
        call_ensures(Subscriber::reader_security, (&subscriber, guid, &topic, security), reader),
    ensures
        ({
            let of_application = guid.entity_id.entity_kind.value < 0x40;
            let granted = security.access is Allowed && security.registered is Ok && (of_application
                ==> security.info is Ok);
            &&& writer is Ok <==> granted
            &&& reader is Ok <==> granted
            &&& writer matches Ok(w) ==> {
                &&& w.data_writer.my_guid == guid
                &&& w.ingredients.security
                &&& w.security_info == (if of_application {
                    Some(security.info->Ok_0)
                } else {
                    None
                })
            }
            &&& reader matches Ok(info) ==> info == (if of_application {
                Some(security.info->Ok_0)
            } else {
                None
            })
            &&& security.access is Denied ==> (writer matches Err(
                CreateError::NotAllowedBySecurity { .. },
            )) && (reader matches Err(CreateError::NotAllowedBySecurity { .. }))
        }),
{
}

/// A new reader is of the participant that makes it, on the topic that it is for, with the
/// nearest policies and an id of its own unless one was asked for.
pub proof fn law_new_reader_is_as_asked(
    r: ReaderIngredients,
    subscriber: Subscriber,
    before: DomainParticipant,
    asked: Option<EntityId>,
    kind: EntityKind,
    topic: Topic,
    own: Option<QosPolicies>,
    like_stateless: bool,
)
    requires
        is_new_reader(r, subscriber, before, asked, kind, topic, own, like_stateless),
    ensures
        r.guid.prefix == before.domain_info.domain_participant_guid.prefix,
        asked matches Some(id) ==> r.guid.entity_id == id,
        asked is None ==> r.guid.entity_id.entity_kind == kind,
        asked is None && before.entity_id_generator < 0x100_0000 ==> r.guid.entity_id.key_0
            * 0x1_0000 + r.guid.entity_id.key_1 * 0x100 + r.guid.entity_id.key_2
            == before.entity_id_generator,
        r.topic_name@ == topic.name@,
        r.like_stateless == like_stateless,
        is_nearest(
            r.qos_policy.reliability,
            subscriber.qos.reliability,
            topic.qos.reliability,
            match own {
                Some(q) => q.reliability,
                None => None,
            },
        ),
        is_nearest(
            r.qos_policy.durability,
            subscriber.qos.durability,
            topic.qos.durability,
            match own {
                Some(q) => q.durability,
                None => None,
            },
        ),
{
}

} // verus!
