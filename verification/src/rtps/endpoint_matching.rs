//! Deciding which local endpoints talk to which remote ones.

use vstd::prelude::*;

use crate::dds::qos::{QosPolicies, Reliability};
use crate::rtps::dp_event_loop::DPEventLoop;
use crate::rtps::writer::Writer;
use crate::structure::guid::{EntityId, GuidPrefix, GUID};
use crate::structure::lists::{lemma_joined, lemma_pushed, lemma_sifted};
use crate::structure::sorted_map::{SortKey, SortedMap};

verus! {

/// A set of security attributes, with a flag that tells whether it means anything.
#[derive(Clone, Copy, Debug, PartialEq, Eq, Structural)]
pub struct SecurityAttributesMask {
    pub bits: u32,
}

impl SecurityAttributesMask {
    /// The flag is the top bit.
    pub open spec fn spec_is_valid(self) -> bool {
        self.bits >= 0x8000_0000
    }

    pub fn is_valid(&self) -> (r: bool)
        ensures
            r == self.spec_is_valid(),
    {
        self.bits >= 0x8000_0000
    }
}

/// How an endpoint is protected.
#[derive(Clone, Copy, Debug, PartialEq, Eq, Structural)]
pub struct EndpointSecurityInfo {
    pub endpoint_security_attributes: SecurityAttributesMask,
    pub plugin_endpoint_security_attributes: SecurityAttributesMask,
}

/// Do both masks mean something?
pub open spec fn masks_valid(info: EndpointSecurityInfo) -> bool {
    info.endpoint_security_attributes.spec_is_valid()
        && info.plugin_endpoint_security_attributes.spec_is_valid()
}

/// Two endpoints may talk if neither is protected, or both in the same way, with masks
/// that all mean something.
pub open spec fn securities_compatible(
    local: Option<EndpointSecurityInfo>,
    remote: Option<EndpointSecurityInfo>,
) -> bool {
    match (local, remote) {
        (None, None) => true,
        (Some(l), Some(r)) => masks_valid(l) && masks_valid(r) && l == r,
        _ => false,
    }
}

/// Tells whether two endpoints may talk as far as their protection goes.
pub fn check_are_endpoints_securities_compatible(
    local_info_opt: Option<EndpointSecurityInfo>,
    remote_info_opt: Option<EndpointSecurityInfo>,
) -> (r: bool)
    ensures
        r == securities_compatible(local_info_opt, remote_info_opt),
{
    match (local_info_opt, remote_info_opt) {
        (None, None) => true,
        (Some(local), Some(remote)) => {
            if local.endpoint_security_attributes.is_valid()
                && local.plugin_endpoint_security_attributes.is_valid()
                && remote.endpoint_security_attributes.is_valid()
                && remote.plugin_endpoint_security_attributes.is_valid() {
                local == remote
            } else {
                false
            }
        },
        _ => false,
    }
}

/// Whether two endpoints may talk does not depend on which one asks.
pub proof fn law_security_compatibility_is_mutual(
    a: Option<EndpointSecurityInfo>,
    b: Option<EndpointSecurityInfo>,
)
    ensures
        securities_compatible(a, b) == securities_compatible(b, a),
{
}

/// What is known of the protection of the endpoints where security is in use.
pub struct MatchSecurity {
    /// The protection of local endpoints; an endpoint that is missing here is not
    /// protected.
    pub local: SortedMap<EntityId, EndpointSecurityInfo>,
    /// The protection of the remote endpoint.
    pub remote: Option<EndpointSecurityInfo>,
}

impl MatchSecurity {
    /// The protection of a local endpoint.
    pub open spec fn local_info(self, id: EntityId) -> Option<EndpointSecurityInfo> {
        if self.local@.contains_key(id.rank()) {
            Some(self.local@[id.rank()])
        } else {
            None
        }
    }

    /// May this local endpoint talk to the remote one?
    pub open spec fn allows(self, id: EntityId) -> bool {
        securities_compatible(self.local_info(id), self.remote)
    }

    fn check(&self, id: EntityId) -> (r: bool)
        ensures
            r == self.allows(id),
    {
        let local: Option<EndpointSecurityInfo> = match self.local.get(&id) {
            Some(info) => Some(*info),
            None => None,
        };
        check_are_endpoints_securities_compatible(local, self.remote)
    }
}

/// A local reader: its id and the name of its topic.
pub struct LocalReader {
    pub entity_id: EntityId,
    pub topic_name: String,
}

/// Does a local endpoint talk to a remote one on a topic?
pub open spec fn matches_remote(
    id: EntityId,
    local_topic: Seq<char>,
    remote_topic: Seq<char>,
    security: Option<MatchSecurity>,
) -> bool {
    local_topic == remote_topic && (security matches Some(s) ==> s.allows(id))
}

/// Those writers, out of a list of ids, that talk to a remote reader.
pub open spec fn matching_writers(
    ids: Seq<EntityId>,
    writers: Map<int, Writer>,
    topic: Seq<char>,
    security: Option<MatchSecurity>,
) -> Seq<EntityId> {
    ids.filter(|id: EntityId| matches_remote(id, writers[id.rank()].my_topic_name@, topic, security))
}

/// Those readers, out of a list, that talk to a remote writer.
pub open spec fn matching_readers(
    readers: Seq<LocalReader>,
    topic: Seq<char>,
    security: Option<MatchSecurity>,
) -> Seq<LocalReader> {
    readers.filter(|r: LocalReader| matches_remote(r.entity_id, r.topic_name@, topic, security))
}

/// What an optional reference refers to.
pub open spec fn security_of(security: Option<&MatchSecurity>) -> Option<MatchSecurity> {
    match security {
        Some(s) => Some(*s),
        None => None,
    }
}

fn allowed(security: Option<&MatchSecurity>, id: EntityId) -> (r: bool)
    ensures
        r == (security_of(security) matches Some(s) ==> s.allows(id)),
{
    match security {
        Some(s) => s.check(id),
        None => true,
    }
}

impl DPEventLoop {
    /// A remote reader on a topic was found: gives the writers that are to match it, in
    /// ascending order. Where security is in use, keys are exchanged for each of them.
    pub fn remote_reader_discovered(
        &self,
        topic_name: &String,
        security: Option<&MatchSecurity>,
    ) -> (ids: Vec<EntityId>)
        requires
            self.wf(),
        ensures
            ids@ == matching_writers(
                self.writers.keys(),
                self.writers@,
                topic_name@,
                security_of(security),
            ),
    {
        let keys: Vec<EntityId> = self.writers.key_list();
        let ghost test = |id: EntityId|
            matches_remote(
                id,
                self.writers@[id.rank()].my_topic_name@,
                topic_name@,
                security_of(security),
            );
        let mut ids: Vec<EntityId> = Vec::new();
        let mut i: usize = 0;
        proof {
            reveal(Seq::filter);
        }
        while i < keys.len()
            invariant
                i <= keys@.len(),
                keys@ == self.writers.keys(),
                self.writers.listed(),
                test == (|id: EntityId|
                    matches_remote(
                        id,
                        self.writers@[id.rank()].my_topic_name@,
                        topic_name@,
                        security_of(security),
                    )),
                ids@ == keys@.take(i as int).filter(test),
            decreases keys@.len() - i,
        {
            let id: EntityId = keys[i];
            assert(self.writers@.contains_key(self.writers.keys()[i as int].rank()));
            let wanted: bool = match self.writers.get(&id) {
                Some(w) => w.my_topic_name.eq(topic_name) && allowed(security, id),
                None => false,
            };
            assert(wanted == test(id));
            if wanted {
                ids.push(id);
            }
            i += 1;
            proof {
                reveal(Seq::filter);
                assert(keys@.take(i as int).drop_last() =~= keys@.take(i - 1));
            }
        }
        assert(keys@.take(i as int) =~= keys@);
        ids
    }

    /// A remote reader is gone: gives the writers that are to forget it, which are all.
    pub fn remote_reader_lost(&self) -> (told: Vec<EntityId>)
        ensures
            told@ == self.writers.keys(),
    {
        self.writers.key_list()
    }
}

/// The ids of some readers.
pub open spec fn reader_ids(readers: Seq<LocalReader>) -> Seq<EntityId> {
    readers.map_values(|r: LocalReader| r.entity_id)
}

/// A remote writer on a topic was found: gives the readers that are to match it, in order.
/// Where security is in use, keys are exchanged for each of them.
pub fn remote_writer_discovered(
    readers: &Vec<LocalReader>,
    topic_name: &String,
    security: Option<&MatchSecurity>,
) -> (ids: Vec<EntityId>)
    ensures
        ids@ == reader_ids(matching_readers(readers@, topic_name@, security_of(security))),
{
    let ghost test = |r: LocalReader|
        matches_remote(r.entity_id, r.topic_name@, topic_name@, security_of(security));
    let mut ids: Vec<EntityId> = Vec::new();
    let mut i: usize = 0;
    proof {
        reveal(Seq::filter);
        assert(ids@ =~= reader_ids(readers@.take(0).filter(test)));
    }
    while i < readers.len()
        invariant
            i <= readers@.len(),
            test == (|r: LocalReader|
                matches_remote(r.entity_id, r.topic_name@, topic_name@, security_of(security))),
            ids@ == reader_ids(readers@.take(i as int).filter(test)),
        decreases readers@.len() - i,
    {
        let reader: &LocalReader = &readers[i];
        let wanted: bool = reader.topic_name.eq(topic_name) && allowed(security, reader.entity_id);
        assert(wanted == test(*reader));
        if wanted {
            ids.push(reader.entity_id);
        }
        i += 1;
        proof {
            reveal(Seq::filter);
            assert(readers@.take(i as int).drop_last() =~= readers@.take(i - 1));
            assert(ids@ =~= reader_ids(readers@.take(i as int).filter(test)));
        }
    }
    assert(readers@.take(i as int) =~= readers@);
    ids
}

/// How far a remote participant has come in proving who it is.
#[derive(Clone, Copy, Debug, PartialEq, Eq, Structural)]
pub enum AuthenticationStatus {
    Authenticating,
    Authenticated,
    /// It proves nothing, and is allowed to.
    Unauthenticated,
    Rejected,
}

/// Two built-in endpoints that talk to each other, one of which is remote.
#[derive(Clone, Copy, Debug, PartialEq, Eq, Structural)]
pub struct BuiltinPair {
    pub writer_id: EntityId,
    pub reader_id: EntityId,
    /// The bit by which a participant tells that it has the remote one.
    pub endpoint: u32,
    /// The policies of the remote one.
    pub qos: QosPolicies,
}

/// The built-in pairs, by when they are matched.
pub struct BuiltinPairs {
    pub standard: Vec<BuiltinPair>,
    pub authentication: Vec<BuiltinPair>,
    pub secure: Vec<BuiltinPair>,
}

impl BuiltinPairs {
    /// The pairs to match with a participant: the standard ones where security is not in
    /// use. Else those for authentication while that lasts, all but those when it has
    /// succeeded, and the standard ones where there is none.
    pub open spec fn selected(
        self,
        security: bool,
        status: Option<AuthenticationStatus>,
    ) -> Seq<BuiltinPair> {
        if !security {
            self.standard@
        } else {
            match status {
                Some(AuthenticationStatus::Authenticating) => self.authentication@,
                Some(AuthenticationStatus::Authenticated) => self.standard@ + self.secure@,
                Some(AuthenticationStatus::Unauthenticated) => self.standard@,
                Some(AuthenticationStatus::Rejected) => Seq::empty(),
                None => Seq::empty(),
            }
        }
    }

    /// Lists the pairs to match with a participant.
    pub fn select(&self, security: bool, status: Option<AuthenticationStatus>) -> (list: Vec<
        BuiltinPair,
    >)
        ensures
            list@ == self.selected(security, status),
    {
        let mut list: Vec<BuiltinPair> = Vec::new();
        if !security {
            append_pairs(&mut list, &self.standard);
        } else {
            match status {
                Some(AuthenticationStatus::Authenticating) => {
                    append_pairs(&mut list, &self.authentication);
                },
                Some(AuthenticationStatus::Authenticated) => {
                    append_pairs(&mut list, &self.standard);
                    append_pairs(&mut list, &self.secure);
                },
                Some(AuthenticationStatus::Unauthenticated) => {
                    append_pairs(&mut list, &self.standard);
                },
                Some(AuthenticationStatus::Rejected) => {},
                None => {},
            }
        }
        assert(list@ =~= self.selected(security, status));
        list
    }
}

fn append_pairs(list: &mut Vec<BuiltinPair>, more: &Vec<BuiltinPair>)
    ensures
        final(list)@ == old(list)@ + more@,
{
    let mut i: usize = 0;
    while i < more.len()
        invariant
            i <= more@.len(),
            list@ == old(list)@ + more@.take(i as int),
        decreases more@.len() - i,
    {
        list.push(more[i]);
        i += 1;
        assert(list@ =~= old(list)@ + more@.take(i as int));
    }
    assert(more@.take(i as int) =~= more@);
}

/// What a remote participant tells of its built-in endpoints.
#[derive(Clone, Copy, Debug, PartialEq, Eq, Structural)]
pub struct ParticipantEndpoints {
    pub prefix: GuidPrefix,
    /// One bit for each that it has.
    pub available: u32,
    /// Does its reader of participant messages acknowledge nothing?
    pub best_effort_messages: bool,
}

impl ParticipantEndpoints {
    /// Does it have this endpoint?
    pub open spec fn has(self, endpoint: u32) -> bool {
        self.available & endpoint == endpoint
    }
}

/// A local writer is to match a remote built-in reader that asks for these policies.
#[derive(Clone, Copy, Debug, PartialEq, Eq, Structural)]
pub struct ReaderUpdate {
    pub writer_id: EntityId,
    pub reader_guid: GUID,
    pub qos: QosPolicies,
}

/// A local reader is to match a remote built-in writer that offers these policies.
#[derive(Clone, Copy, Debug, PartialEq, Eq, Structural)]
pub struct WriterUpdate {
    pub reader_id: EntityId,
    pub writer_guid: GUID,
    pub qos: QosPolicies,
}

/// The policies that a remote built-in reader asks for. A reader of participant messages
/// that acknowledges nothing is best-effort, so that no writer waits for it.
pub open spec fn requested_qos(pair: BuiltinPair, remote: ParticipantEndpoints) -> QosPolicies {
    if pair.reader_id == EntityId::p2p_builtin_participant_message_reader()
        && remote.best_effort_messages {
        QosPolicies { reliability: Some(Reliability::BestEffort), ..pair.qos }
    } else {
        pair.qos
    }
}

/// The updates of local writers for a remote participant: of those writers that are there,
/// with those readers that it has.
pub open spec fn reader_updates(
    pairs: Seq<BuiltinPair>,
    remote: ParticipantEndpoints,
    writers: Map<int, Writer>,
) -> Seq<ReaderUpdate>
    decreases pairs.len(),
{
    if pairs.len() == 0 {
        Seq::empty()
    } else {
        let before = reader_updates(pairs.drop_last(), remote, writers);
        let pair = pairs.last();
        if writers.contains_key(pair.writer_id.rank()) && remote.has(pair.endpoint) {
            before.push(
                ReaderUpdate {
                    writer_id: pair.writer_id,
                    reader_guid: GUID { prefix: remote.prefix, entity_id: pair.reader_id },
                    qos: requested_qos(pair, remote),
                },
            )
        } else {
            before
        }
    }
}

/// The updates of local readers for a remote participant.
pub open spec fn writer_updates(
    pairs: Seq<BuiltinPair>,
    remote: ParticipantEndpoints,
    readers: Seq<EntityId>,
) -> Seq<WriterUpdate>
    decreases pairs.len(),
{
    if pairs.len() == 0 {
        Seq::empty()
    } else {
        let before = writer_updates(pairs.drop_last(), remote, readers);
        let pair = pairs.last();
        if readers.contains(pair.reader_id) && remote.has(pair.endpoint) {
            before.push(
                WriterUpdate {
                    reader_id: pair.reader_id,
                    writer_guid: GUID { prefix: remote.prefix, entity_id: pair.writer_id },
                    qos: pair.qos,
                },
            )
        } else {
            before
        }
    }
}

/// What follows from news about a remote participant.
pub struct ParticipantUpdate {
    pub reader_updates: Vec<ReaderUpdate>,
    pub writer_updates: Vec<WriterUpdate>,
    /// The writers that are to choose anew how they reach the readers of the participant.
    pub rerouted: Vec<EntityId>,
}

fn id_in(list: &Vec<EntityId>, id: EntityId) -> (r: bool)
    ensures
        r == list@.contains(id),
{
    let mut i: usize = 0;
    while i < list.len()
        invariant
            i <= list@.len(),
            forall|j: int| 0 <= j < i ==> list@[j] != id,
        decreases list@.len() - i,
    {
        if list[i] == id {
            assert(list@[i as int] == id);
            return true;
        }
        i += 1;
    }
    false
}

impl DPEventLoop {
    fn remote_reader_updates(
        &self,
        remote: ParticipantEndpoints,
        reader_pairs: &Vec<BuiltinPair>,
    ) -> (readers: Vec<ReaderUpdate>)
        ensures
            readers@ == reader_updates(reader_pairs@, remote, self.writers@),
    {
        let mut readers: Vec<ReaderUpdate> = Vec::new();
        let mut i: usize = 0;
        while i < reader_pairs.len()
            invariant
                i <= reader_pairs@.len(),
                readers@ == reader_updates(reader_pairs@.take(i as int), remote, self.writers@),
            decreases reader_pairs@.len() - i,
        {
            let pair: BuiltinPair = reader_pairs[i];
            if self.writers.contains_key(&pair.writer_id) && (remote.available & pair.endpoint)
                == pair.endpoint {
                let mut qos: QosPolicies = pair.qos;
                if pair.reader_id == EntityId::p2p_builtin_participant_message_reader()
                    && remote.best_effort_messages {
                    qos.reliability = Some(Reliability::BestEffort);
                }
                readers.push(
                    ReaderUpdate {
                        writer_id: pair.writer_id,
                        reader_guid: GUID::new(remote.prefix, pair.reader_id),
                        qos,
                    },
                );
            }
            i += 1;
            assert(reader_pairs@.take(i as int).drop_last() =~= reader_pairs@.take(i - 1));
        }
        assert(reader_pairs@.take(i as int) =~= reader_pairs@);
        readers
    }

    /// There is news about a participant, which may be this one: gives the local built-in
    /// endpoints to update, and all writers, which choose anew how they reach its readers.
    /// No writer is matched with a reader of this participant: it knows its own endpoints,
    /// and such a reader would acknowledge nothing.
    pub fn update_participant(
        &self,
        remote: ParticipantEndpoints,
        reader_pairs: &Vec<BuiltinPair>,
        writer_pairs: &Vec<BuiltinPair>,
        local_readers: &Vec<EntityId>,
    ) -> (update: ParticipantUpdate)
        ensures
            update.reader_updates@ == (if remote.prefix
                == self.domain_info.domain_participant_guid.prefix {
                Seq::empty()
            } else {
                reader_updates(reader_pairs@, remote, self.writers@)
            }),
            update.writer_updates@ == writer_updates(writer_pairs@, remote, local_readers@),
            update.rerouted@ == self.writers.keys(),
    {
        let readers: Vec<ReaderUpdate> = if remote.prefix
            == self.domain_info.domain_participant_guid.prefix {
            Vec::new()
        } else {
            self.remote_reader_updates(remote, reader_pairs)
        };
        let mut writers: Vec<WriterUpdate> = Vec::new();
        let mut k: usize = 0;
        while k < writer_pairs.len()
            invariant
                k <= writer_pairs@.len(),
                writers@ == writer_updates(writer_pairs@.take(k as int), remote, local_readers@),
            decreases writer_pairs@.len() - k,
        {
            let pair: BuiltinPair = writer_pairs[k];
            if id_in(local_readers, pair.reader_id) && (remote.available & pair.endpoint)
                == pair.endpoint {
                writers.push(
                    WriterUpdate {
                        reader_id: pair.reader_id,
                        writer_guid: GUID::new(remote.prefix, pair.writer_id),
                        qos: pair.qos,
                    },
                );
            }
            k += 1;
            assert(writer_pairs@.take(k as int).drop_last() =~= writer_pairs@.take(k - 1));
        }
        assert(writer_pairs@.take(k as int) =~= writer_pairs@);
        ParticipantUpdate {
            reader_updates: readers,
            writer_updates: writers,
            rerouted: self.writers.key_list(),
        }
    }
}

/// Every update of a writer is of one that is there, and matches a reader of the
/// participant that the news is about.
pub proof fn law_updates_go_to_the_remote(
    pairs: Seq<BuiltinPair>,
    remote: ParticipantEndpoints,
    writers: Map<int, Writer>,
    i: int,
)
    requires
        0 <= i < reader_updates(pairs, remote, writers).len(),
    ensures
        reader_updates(pairs, remote, writers)[i].reader_guid.prefix == remote.prefix,
        writers.contains_key(reader_updates(pairs, remote, writers)[i].writer_id.rank()),
    decreases pairs.len(),
{
    if i < reader_updates(pairs.drop_last(), remote, writers).len() {
        law_updates_go_to_the_remote(pairs.drop_last(), remote, writers, i);
    }
}

/// May two endpoints talk as far as their protection goes? Where neither is protected they
/// may, and where both are, if all masks have their top bit set and are the same.
pub open spec fn may_talk(
    local: Option<EndpointSecurityInfo>,
    remote: Option<EndpointSecurityInfo>,
) -> bool {
    &&& local is Some <==> remote is Some
    &&& local matches Some(l) ==> {
        &&& l.endpoint_security_attributes.bits >= 0x8000_0000
        &&& l.plugin_endpoint_security_attributes.bits >= 0x8000_0000
        &&& l.endpoint_security_attributes.bits == remote->0.endpoint_security_attributes.bits
        &&& l.plugin_endpoint_security_attributes.bits
            == remote->0.plugin_endpoint_security_attributes.bits
    }
}

/// Protected endpoints talk only to endpoints that are protected in just the same way.
pub proof fn law_protection_has_to_be_the_same(
    local: Option<EndpointSecurityInfo>,
    remote: Option<EndpointSecurityInfo>,
)
    ensures
        securities_compatible(local, remote) <==> may_talk(local, remote),
{
}

/// A remote reader is matched by just those writers that are on its topic and whose
/// protection is the same as its own, where security is in use.
pub proof fn law_writers_on_the_topic_match(
    state: DPEventLoop,
    topic: Seq<char>,
    security: Option<MatchSecurity>,
    id: EntityId,
)
    requires
        state.writers.listed(),
    ensures
        matching_writers(state.writers.keys(), state.writers@, topic, security).contains(id) <==> {
            &&& state.writers@.contains_key(id.rank())
            &&& state.writers@[id.rank()].my_topic_name@ == topic
            &&& security matches Some(s) ==> may_talk(
                if s.local@.contains_key(id.rank()) {
                    Some(s.local@[id.rank()])
                } else {
                    None
                },
                s.remote,
            )
        },
{
    let keys = state.writers.keys();
    lemma_sifted(
        keys,
        |x: EntityId| matches_remote(x, state.writers@[x.rank()].my_topic_name@, topic, security),
        id,
    );
    if keys.contains(id) {
        let i = choose|i: int| 0 <= i < keys.len() && keys[i] == id;
        assert(state.writers@.contains_key(keys[i].rank()));
    }
    if state.writers@.contains_key(id.rank()) {
        let i = choose|i: int| 0 <= i < keys.len() && (#[trigger] keys[i]).rank() == id.rank();
        EntityId::lemma_rank_injective(keys[i], id);
        assert(keys.contains(id));
    }
}

/// A remote writer is matched by just those readers that are on its topic and whose
/// protection is the same as its own, where security is in use.
pub proof fn law_readers_on_the_topic_match(
    readers: Seq<LocalReader>,
    topic: Seq<char>,
    security: Option<MatchSecurity>,
    reader: LocalReader,
)
    ensures
        matching_readers(readers, topic, security).contains(reader) <==> {
            &&& readers.contains(reader)
            &&& reader.topic_name@ == topic
            &&& security matches Some(s) ==> may_talk(
                if s.local@.contains_key(reader.entity_id.rank()) {
                    Some(s.local@[reader.entity_id.rank()])
                } else {
                    None
                },
                s.remote,
            )
        },
{
    lemma_sifted(
        readers,
        |r: LocalReader| matches_remote(r.entity_id, r.topic_name@, topic, security),
        reader,
    );
}

/// Protected pairs are matched only with a participant that has proved who it is, and those
/// by which it does so only while it does. One that was rejected, or of which nothing is
/// known, is matched in nothing. Without security the standard pairs are matched.
pub proof fn law_pairs_go_by_authentication(
    pairs: BuiltinPairs,
    security: bool,
    status: Option<AuthenticationStatus>,
    pair: BuiltinPair,
)
    ensures
        pairs.selected(security, status).contains(pair) <==> {
            let authenticated = status == Some(AuthenticationStatus::Authenticated);
            ||| pairs.standard@.contains(pair) && (!security || authenticated || status == Some(
                AuthenticationStatus::Unauthenticated,
            ))
            ||| pairs.secure@.contains(pair) && security && authenticated
            ||| pairs.authentication@.contains(pair) && security && status == Some(
                AuthenticationStatus::Authenticating,
            )
        },
{
    lemma_joined(pairs.standard@, pairs.secure@, pair);
}

/// The update matches the writer and the reader of the pair, which are both there: the
/// writer here, and the reader as the participant tells. The reader asks for the policies of
/// the pair, but where it acknowledges nothing it is best-effort.
pub open spec fn joins_reader(
    update: ReaderUpdate,
    pair: BuiltinPair,
    remote: ParticipantEndpoints,
    writers: Map<int, Writer>,
) -> bool {
    &&& update.writer_id == pair.writer_id
    &&& writers.contains_key(pair.writer_id.rank())
    &&& remote.available & pair.endpoint == pair.endpoint
    &&& update.reader_guid.prefix == remote.prefix
    &&& update.reader_guid.entity_id == pair.reader_id
    &&& if remote.best_effort_messages && pair.reader_id
        == EntityId::p2p_builtin_participant_message_reader() {
        update.qos == (QosPolicies { reliability: Some(Reliability::BestEffort), ..pair.qos })
    } else {
        update.qos == pair.qos
    }
}

/// The update matches the reader and the writer of the pair, which are both there.
pub open spec fn joins_writer(
    update: WriterUpdate,
    pair: BuiltinPair,
    remote: ParticipantEndpoints,
    readers: Seq<EntityId>,
) -> bool {
    &&& update.reader_id == pair.reader_id
    &&& readers.contains(pair.reader_id)
    &&& remote.available & pair.endpoint == pair.endpoint
    &&& update.writer_guid.prefix == remote.prefix
    &&& update.writer_guid.entity_id == pair.writer_id
    &&& update.qos == pair.qos
}

/// A local writer is to match a built-in reader of a remote participant exactly if both are
/// there.
pub proof fn law_builtin_readers_are_matched(
    pairs: Seq<BuiltinPair>,
    remote: ParticipantEndpoints,
    writers: Map<int, Writer>,
    update: ReaderUpdate,
)
    ensures
        reader_updates(pairs, remote, writers).contains(update) <==> exists|i: int|
            0 <= i < pairs.len() && joins_reader(update, #[trigger] pairs[i], remote, writers),
    decreases pairs.len(),
{
    if pairs.len() > 0 {
        let rest = pairs.drop_last();
        let n = pairs.len() - 1;
        law_builtin_readers_are_matched(rest, remote, writers, update);
        assert(pairs[n] == pairs.last());
        let before = reader_updates(rest, remote, writers);
        let fresh = ReaderUpdate {
            writer_id: pairs[n].writer_id,
            reader_guid: GUID { prefix: remote.prefix, entity_id: pairs[n].reader_id },
            qos: requested_qos(pairs[n], remote),
        };
        lemma_pushed(before, fresh, update);
        if before.contains(update) {
            let i = choose|i: int|
                0 <= i < rest.len() && joins_reader(update, #[trigger] rest[i], remote, writers);
            assert(pairs[i] == rest[i]);
        }
        if exists|i: int|
            0 <= i < pairs.len() && joins_reader(update, #[trigger] pairs[i], remote, writers) {
            let i = choose|i: int|
                0 <= i < pairs.len() && joins_reader(update, #[trigger] pairs[i], remote, writers);
            if i < n {
                assert(rest[i] == pairs[i]);
            } else {
                assert(update == fresh);
            }
        }
    }
}

/// A local reader is to match a built-in writer of a remote participant exactly if both are
/// there.
pub proof fn law_builtin_writers_are_matched(
    pairs: Seq<BuiltinPair>,
    remote: ParticipantEndpoints,
    readers: Seq<EntityId>,
    update: WriterUpdate,
)
    ensures
        writer_updates(pairs, remote, readers).contains(update) <==> exists|i: int|
            0 <= i < pairs.len() && joins_writer(update, #[trigger] pairs[i], remote, readers),
    decreases pairs.len(),
{
    if pairs.len() > 0 {
        let rest = pairs.drop_last();
        let n = pairs.len() - 1;
        law_builtin_writers_are_matched(rest, remote, readers, update);
        assert(pairs[n] == pairs.last());
        let before = writer_updates(rest, remote, readers);
        let fresh = WriterUpdate {
            reader_id: pairs[n].reader_id,
            writer_guid: GUID { prefix: remote.prefix, entity_id: pairs[n].writer_id },
            qos: pairs[n].qos,
        };
        lemma_pushed(before, fresh, update);
        if before.contains(update) {
            let i = choose|i: int|
                0 <= i < rest.len() && joins_writer(update, #[trigger] rest[i], remote, readers);
            assert(pairs[i] == rest[i]);
        }
        if exists|i: int|
            0 <= i < pairs.len() && joins_writer(update, #[trigger] pairs[i], remote, readers) {
            let i = choose|i: int|
                0 <= i < pairs.len() && joins_writer(update, #[trigger] pairs[i], remote, readers);
            if i < n {
                assert(rest[i] == pairs[i]);
            } else {
                assert(update == fresh);
            }
        }
    }
}

/// What to do when the authentication of a remote participant has come further.
#[derive(Clone, Copy, Debug, PartialEq, Eq, Structural)]
pub struct AuthenticationStep {
    /// The status to tell the application.
    pub report: Option<AuthenticationStatus>,
    /// Match its built-in endpoints.
    pub update_participant: bool,
    /// After that exchange keys with it.
    pub start_key_exchange: bool,
}

/// Tells what to do when the authentication of a remote participant has come further.
pub fn on_remote_participant_authentication_status_changed(
    status: Option<AuthenticationStatus>,
) -> (step: AuthenticationStep)
    ensures
        step.report == status,
        step.update_participant <==> status == Some(AuthenticationStatus::Authenticated) || status
            == Some(AuthenticationStatus::Authenticating),
        step.start_key_exchange <==> status == Some(AuthenticationStatus::Authenticated),
{
    match status {
        Some(AuthenticationStatus::Authenticated) => AuthenticationStep {
            report: status,
            update_participant: true,
            start_key_exchange: true,
        },
        Some(AuthenticationStatus::Authenticating) => AuthenticationStep {
            report: status,
            update_participant: true,
            start_key_exchange: false,
        },
        _ => AuthenticationStep {
            report: status,
            update_participant: false,
            start_key_exchange: false,
        },
    }
}

/// What discovery is told about a new local endpoint.
#[derive(Clone, Copy, Debug, PartialEq, Eq, Structural)]
pub enum DiscoveryCommand {
    AddLocalWriter { guid: GUID },
    AddLocalReader { guid: GUID },
}

/// Tells what discovery is told about a new local endpoint.
pub fn inform_discovery_about_new_local_endpoint(guid: GUID) -> (command: DiscoveryCommand)
    ensures
        command == (if guid.entity_id.entity_kind.spec_is_writer() {
            DiscoveryCommand::AddLocalWriter { guid }
        } else {
            DiscoveryCommand::AddLocalReader { guid }
        }),
{
    if guid.entity_id.kind().is_writer() {
        DiscoveryCommand::AddLocalWriter { guid }
    } else {
        DiscoveryCommand::AddLocalReader { guid }
    }
}

/// Only a participant that proves who it is, or has proved it, is matched when that comes
/// further, and only with one that has proved it keys are exchanged.
pub proof fn law_keys_go_to_the_authenticated(
    status: Option<AuthenticationStatus>,
    step: AuthenticationStep,
    guid: GUID,
    command: DiscoveryCommand,
)
    requires
        call_ensures(on_remote_participant_authentication_status_changed, (status,), step),
        call_ensures(inform_discovery_about_new_local_endpoint, (guid,), command),
    ensures
        step.report == status,
        step.start_key_exchange <==> (status matches Some(s) && s is Authenticated),
        step.update_participant <==> (status matches Some(s) && (s is Authenticated
            || s is Authenticating)),
        command is AddLocalWriter <==> guid.entity_id.entity_kind.spec_is_writer(),
        command matches DiscoveryCommand::AddLocalWriter { guid: told } ==> told == guid,
        command matches DiscoveryCommand::AddLocalReader { guid: told } ==> told == guid,
{
}

} // verus!
