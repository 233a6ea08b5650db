//! The sending side of a data writer.

use vstd::prelude::*;

use crate::dds::qos::{History, Liveliness, QosPolicies, Reliability};
use crate::rtps::constant::{
    CACHE_CLEANING_PERIOD_SECONDS, DEFAULT_WRITER_MAX_SAMPLES, FALLBACK_MAX_AGGREGATED_DATAGRAM_SIZE, FRAGMENT_SIZE,
    HEARTBEAT_PERIOD_FAST_MILLIS, HEARTBEAT_PERIOD_SLOW_MILLIS, MAX_UNSENT_CHANGES_PER_READER, NACK_RESPONSE_DELAY_MILLIS,
    NACK_SUPPRESSION_DURATION_MILLIS, REPAIRFRAGS_CONTINUE_DELAY_MILLIS,
};
use crate::rtps::fragment_assembler::{fragments_needed, lesser};
use crate::rtps::fragmentation::frags_of;
use crate::rtps::message::HEARTBEAT_SUBMESSAGE_SERIALIZED_SIZE;
use crate::rtps::outbound::SocketId;
use crate::rtps::rtps_reader_proxy::RtpsReaderProxy;
use crate::rtps::send_plan::{in_order, lemma_place};
use crate::rtps::writer_send_buffer::{greater, WakerId, WriterSendBuffer};
use crate::structure::guid::{EntityId, GUID};
use crate::structure::locator::Locator;
use crate::structure::sequence_number::{FragmentNumber, SequenceNumber};
use crate::structure::sorted_map::{newest, SortKey, SortedMap};
use crate::structure::time::Duration;

verus! {

/// Bytes of a DATA submessage besides the serialized payload, on the safe side.
pub const DATA_SUBMESSAGE_OVERHEAD: usize = 48;

/// How far into the sample that is being sent the transmission has come.
#[derive(Clone, Copy, Debug, PartialEq, Eq, Structural)]
pub enum SampleCursor {
    /// Nothing of it has been sent.
    Fresh,
    /// The fragments from this one on, and the closing HEARTBEAT, are to be sent.
    Frag(FragmentNumber),
    /// Only the closing HEARTBEAT is to be sent.
    Heartbeat,
}

/// What a writer wants to do at a later time.
#[derive(Clone, Copy, Debug, PartialEq, Eq, Structural)]
pub enum TimedEvent {
    Heartbeat,
    CacheCleaning,
    SendRepairData { to_reader: GUID },
    SendRepairFrags { to_reader: GUID },
}

/// An event to be delivered to the writer after some time.
#[derive(Clone, Copy, Debug, PartialEq, Eq, Structural)]
pub struct TimerRequest {
    pub after: Duration,
    pub event: TimedEvent,
}

/// What it takes to make a writer.
pub struct WriterIngredients {
    pub guid: GUID,
    pub topic_name: String,
    pub like_stateless: bool,
    pub qos_policies: QosPolicies,
    /// Are messages encrypted or signed for each reader?
    pub security: bool,
}

/// The state of the sending side of a data writer.
pub struct Writer {
    pub my_guid: GUID,
    /// The count for the next HEARTBEAT.
    pub heartbeat_message_counter: i32,
    /// Are samples sent to the readers unasked, or only announced?
    pub push_mode: bool,
    /// Period of heartbeats; none for a best-effort writer.
    pub heartbeat_period: Option<Duration>,
    /// Period of heartbeats while some reader is behind.
    pub heartbeat_period_fast: Option<Duration>,
    pub cache_cleaning_period: Duration,
    pub nack_response_delay: Duration,
    pub nackfrag_response_delay: Duration,
    pub repairfrags_continue_delay: Duration,
    pub nack_suppression_duration: Duration,
    pub data_max_size_serialized: usize,
    /// The matched readers.
    pub readers: SortedMap<GUID, RtpsReaderProxy>,
    /// How many readers were ever matched.
    pub matched_readers_count_total: i32,
    /// How often a reader asked for policies that the writer does not offer.
    pub requested_incompatible_qos_count: i32,
    /// Destinations that every message also goes to.
    pub extra_unicast_destinations: Vec<Locator>,
    /// May a reader on the same host be reached over the loopback interface?
    pub prefer_loopback_same_host: bool,
    /// Bytes for submessages in a datagram to all readers.
    pub min_datagram_payload: usize,
    /// Are the readers mere destinations, with nothing tracked of them?
    pub like_stateless: bool,
    pub my_topic_name: String,
    /// The highest number of a sample that was sent, dropped or skipped.
    pub last_sent: SequenceNumber,
    /// How far the sample after that has come.
    pub sample_cursor: SampleCursor,
    /// Sockets that could not take what was last sent.
    pub blocked_sockets: SortedMap<SocketId, ()>,
    pub qos_policies: QosPolicies,
    pub security: bool,
}

/// The period of heartbeats that the policies ask for. A writer whose liveliness the
/// application asserts by topic sends them three times per lease.
pub open spec fn heartbeat_period_of(qos: QosPolicies) -> Option<Duration> {
    if !qos.spec_is_reliable() {
        None
    } else {
        match qos.liveliness {
            Some(Liveliness::ManualByTopic { lease_duration }) => Some(
                Duration { ticks: lease_duration.spec_divided_by(3) as i64 },
            ),
            _ => Some(slow_period()),
        }
    }
}

pub open spec fn slow_period() -> Duration {
    Duration { ticks: ((HEARTBEAT_PERIOD_SLOW_MILLIS * 0x1_0000_0000) / 1000) as i64 }
}

pub open spec fn fast_period() -> Duration {
    Duration { ticks: ((HEARTBEAT_PERIOD_FAST_MILLIS * 0x1_0000_0000) / 1000) as i64 }
}

/// How many fragments a payload is cut into. Sizes are 32 bits wide on the wire.
pub open spec fn num_frags_of(payload_size: usize) -> int {
    fragments_needed((payload_size as u32) as int, FRAGMENT_SIZE as int)
}

/// `a` less `b`, but no less than zero.
pub open spec fn less(a: int, b: int) -> int {
    if a >= b {
        a - b
    } else {
        0
    }
}

impl Writer {
    pub open spec fn wf(self) -> bool {
        &&& self.readers@.dom().finite()
        &&& forall|k: int| #[trigger]
            self.readers@.contains_key(k) ==> self.readers@[k].remote_reader_guid.rank() == k
        &&& 0 <= self.last_sent@
    }

    pub fn new(i: WriterIngredients) -> (r: (Self, Vec<TimerRequest>))
        requires
            !(i.like_stateless && i.qos_policies.spec_is_reliable()),
        ensures
            r.0.wf(),
            r.0.my_guid == i.guid,
            r.0.heartbeat_message_counter == 1,
            r.0.push_mode,
            r.0.heartbeat_period == heartbeat_period_of(i.qos_policies),
            r.0.heartbeat_period_fast == (match heartbeat_period_of(i.qos_policies) {
                Some(slow) if slow.ticks < fast_period().ticks => Some(slow),
                Some(_) => Some(fast_period()),
                None => None,
            }),
            r.0.cache_cleaning_period.ticks == CACHE_CLEANING_PERIOD_SECONDS * 0x1_0000_0000,
            r.0.nack_response_delay.ticks == (NACK_RESPONSE_DELAY_MILLIS * 0x1_0000_0000) / 1000,
            r.0.nackfrag_response_delay == r.0.nack_response_delay,
            r.0.repairfrags_continue_delay.ticks == (REPAIRFRAGS_CONTINUE_DELAY_MILLIS
                * 0x1_0000_0000) / 1000,
            r.0.nack_suppression_duration.ticks == (NACK_SUPPRESSION_DURATION_MILLIS
                * 0x1_0000_0000) / 1000,
            r.0.data_max_size_serialized == FALLBACK_MAX_AGGREGATED_DATAGRAM_SIZE,
            r.0.readers@ == Map::<int, RtpsReaderProxy>::empty(),
            r.0.matched_readers_count_total == 0,
            r.0.requested_incompatible_qos_count == 0,
            r.0.extra_unicast_destinations@ == Seq::<Locator>::empty(),
            r.0.prefer_loopback_same_host,
            r.0.min_datagram_payload == FALLBACK_MAX_AGGREGATED_DATAGRAM_SIZE,
            r.0.like_stateless == i.like_stateless,
            r.0.my_topic_name == i.topic_name,
            r.0.last_sent@ == 0,
            r.0.sample_cursor == SampleCursor::Fresh,
            r.0.blocked_sockets@ == Map::<int, ()>::empty(),
            r.0.qos_policies == i.qos_policies,
            r.0.security == i.security,
            r.1@ == (match heartbeat_period_of(i.qos_policies) {
                Some(period) => seq![
                    TimerRequest { after: period, event: TimedEvent::Heartbeat },
                    TimerRequest {
                        after: r.0.cache_cleaning_period,
                        event: TimedEvent::CacheCleaning,
                    },
                ],
                None => seq![
                    TimerRequest {
                        after: r.0.cache_cleaning_period,
                        event: TimedEvent::CacheCleaning,
                    },
                ],
            }),
    {
        let heartbeat_period: Option<Duration> = if i.qos_policies.is_reliable() {
            match i.qos_policies.liveliness {
                Some(Liveliness::ManualByTopic { lease_duration }) => Some(
                    lease_duration.divided_by(3),
                ),
                _ => Some(Duration::from_millis(HEARTBEAT_PERIOD_SLOW_MILLIS)),
            }
        } else {
            None
        };
        let heartbeat_period_fast: Option<Duration> = match heartbeat_period {
            Some(slow) => Some(
                Duration::from_millis(HEARTBEAT_PERIOD_FAST_MILLIS).shorter(slow),
            ),
            None => None,
        };
        let cache_cleaning_period: Duration = Duration::from_secs(CACHE_CLEANING_PERIOD_SECONDS);
        let mut timers: Vec<TimerRequest> = Vec::new();
        if let Some(period) = heartbeat_period {
            timers.push(TimerRequest { after: period, event: TimedEvent::Heartbeat });
        }
        timers.push(
            TimerRequest { after: cache_cleaning_period, event: TimedEvent::CacheCleaning },
        );
        let writer = Writer {
            my_guid: i.guid,
            heartbeat_message_counter: 1,
            push_mode: true,
            heartbeat_period,
            heartbeat_period_fast,
            cache_cleaning_period,
            nack_response_delay: Duration::from_millis(NACK_RESPONSE_DELAY_MILLIS),
            nackfrag_response_delay: Duration::from_millis(NACK_RESPONSE_DELAY_MILLIS),
            repairfrags_continue_delay: Duration::from_millis(REPAIRFRAGS_CONTINUE_DELAY_MILLIS),
            nack_suppression_duration: Duration::from_millis(NACK_SUPPRESSION_DURATION_MILLIS),
            data_max_size_serialized: FALLBACK_MAX_AGGREGATED_DATAGRAM_SIZE,
            readers: SortedMap::new(),
            matched_readers_count_total: 0,
            requested_incompatible_qos_count: 0,
            extra_unicast_destinations: Vec::new(),
            prefer_loopback_same_host: true,
            min_datagram_payload: FALLBACK_MAX_AGGREGATED_DATAGRAM_SIZE,
            like_stateless: i.like_stateless,
            my_topic_name: i.topic_name,
            last_sent: SequenceNumber::zero(),
            sample_cursor: SampleCursor::Fresh,
            blocked_sockets: SortedMap::new(),
            qos_policies: i.qos_policies,
            security: i.security,
        };
        (writer, timers)
    }

    pub fn is_reliable(&self) -> (r: bool)
        ensures
            r == self.qos_policies.spec_is_reliable(),
    {
        self.qos_policies.is_reliable()
    }

    pub fn entity_id(&self) -> (id: EntityId)
        ensures
            id == self.my_guid.entity_id,
    {
        self.my_guid.entity_id
    }

    /// The matched readers of the same participant, in ascending order.
    pub fn local_readers(&self) -> (list: Vec<EntityId>)
        requires
            self.wf(),
        ensures
            forall|i: int, j: int|
                0 <= i < j < list@.len() ==> list@[i].number() < list@[j].number(),
            forall|id: EntityId| #[trigger]
                list@.contains(id) <==> self.readers@.contains_key(
                    (GUID { prefix: self.my_guid.prefix, entity_id: id }).rank(),
                ),
    {
        let mut list: Vec<EntityId> = Vec::new();
        let keys: Vec<GUID> = self.readers.key_list();
        let ghost mine = self.my_guid.prefix;
        let mut k: usize = 0;
        while k < keys.len()
            invariant
                k <= keys@.len(),
                mine == self.my_guid.prefix,
                forall|i: int, j: int|
                    0 <= i < j < keys@.len() ==> keys@[i].rank() < keys@[j].rank(),
                forall|i: int, j: int|
                    0 <= i < j < list@.len() ==> list@[i].number() < list@[j].number(),
                forall|i: int|
                    0 <= i < list@.len() ==> keys@.take(k as int).contains(
                        (GUID { prefix: mine, entity_id: #[trigger] list@[i] }),
                    ),
                forall|j: int|
                    0 <= j < k && (#[trigger] keys@[j]).prefix == mine ==> list@.contains(
                        keys@[j].entity_id,
                    ),
            decreases keys@.len() - k,
        {
            let guid: GUID = keys[k];
            let ghost before = list@;
            let ghost shorter = keys@.take(k as int);
            if guid.prefix == self.my_guid.prefix {
                proof {
                    assert forall|i: int| 0 <= i < before.len() implies (
                    #[trigger] before[i]).number() < guid.entity_id.number() by {
                        let g = GUID { prefix: mine, entity_id: before[i] };
                        let j = choose|j: int| 0 <= j < shorter.len() && shorter[j] == g;
                        assert(keys@[j].rank() < keys@[k as int].rank());
                    }
                }
                list.push(guid.entity_id);
                assert(list@.last() == guid.entity_id);
            }
            k += 1;
            proof {
                let longer = keys@.take(k as int);
                assert forall|i: int| 0 <= i < list@.len() implies longer.contains(
                    (GUID { prefix: mine, entity_id: #[trigger] list@[i] }),
                ) by {
                    let g = GUID { prefix: mine, entity_id: list@[i] };
                    if i < before.len() {
                        assert(before[i] == list@[i]);
                        let j = choose|j: int| 0 <= j < shorter.len() && shorter[j] == g;
                        assert(longer[j] == g);
                    } else {
                        assert(longer[k - 1] == g);
                    }
                }
                assert forall|j: int|
                    0 <= j < k && (#[trigger] keys@[j]).prefix == mine implies list@.contains(
                    keys@[j].entity_id,
                ) by {
                    if j < k - 1 {
                        let i = choose|i: int| 0 <= i < before.len() && before[i] == keys@[j].entity_id;
                        assert(list@[i] == keys@[j].entity_id);
                    }
                }
            }
        }
        proof {
            assert(keys@.take(k as int) =~= keys@);
            assert forall|id: EntityId| #[trigger]
                list@.contains(id) <==> self.readers@.contains_key(
                    (GUID { prefix: mine, entity_id: id }).rank(),
                ) by {
                let g = GUID { prefix: mine, entity_id: id };
                if list@.contains(id) {
                    let i = choose|i: int| 0 <= i < list@.len() && list@[i] == id;
                    let j = choose|j: int| 0 <= j < keys@.len() && keys@[j] == g;
                    assert(self.readers@.contains_key(self.readers.keys()[j].rank()));
                }
                if self.readers@.contains_key(g.rank()) {
                    let j = choose|j: int|
                        0 <= j < self.readers.keys().len() && (
                        #[trigger] self.readers.keys()[j]).rank() == g.rank();
                    GUID::lemma_rank_injective(keys@[j], g);
                    assert(keys@[j].prefix == mine);
                }
            }
        }
        list
    }

    /// Bytes for submessages in a datagram: as one reader allows, or as all do.
    pub open spec fn budget(self, target: Option<RtpsReaderProxy>) -> usize {
        match target {
            Some(reader) => reader.max_datagram_payload,
            None => self.min_datagram_payload,
        }
    }

    /// Bytes that are kept free for a closing HEARTBEAT.
    pub open spec fn heartbeat_reserve(self) -> int {
        if self.qos_policies.spec_is_reliable() && !self.like_stateless {
            HEARTBEAT_SUBMESSAGE_SERIALIZED_SIZE as int
        } else {
            0
        }
    }

    /// The largest payload that goes out in one piece.
    pub open spec fn max_unfragmented(self, target: Option<RtpsReaderProxy>) -> int {
        less(
            less(self.budget(target) as int, self.heartbeat_reserve()),
            DATA_SUBMESSAGE_OVERHEAD as int,
        )
    }

    pub fn datagram_budget(&self, target_reader_opt: Option<&RtpsReaderProxy>) -> (n: usize)
        ensures
            n == self.budget(opt_deref(target_reader_opt)),
    {
        match target_reader_opt {
            Some(reader) => reader.max_datagram_payload(),
            None => self.min_datagram_payload,
        }
    }

    pub(crate) fn hb_reserve(&self) -> (n: usize)
        ensures
            n == self.heartbeat_reserve(),
    {
        if self.is_reliable() && !self.like_stateless {
            HEARTBEAT_SUBMESSAGE_SERIALIZED_SIZE
        } else {
            0
        }
    }

    pub fn max_unfragmented_serialized_payload(
        &self,
        target_reader_opt: Option<&RtpsReaderProxy>,
    ) -> (n: usize)
        ensures
            n == self.max_unfragmented(opt_deref(target_reader_opt)),
    {
        let budget: usize = self.datagram_budget(target_reader_opt);
        let hb_reserve: usize = self.hb_reserve();
        let left: usize = if budget >= hb_reserve {
            budget - hb_reserve
        } else {
            0
        };
        if left >= DATA_SUBMESSAGE_OVERHEAD {
            left - DATA_SUBMESSAGE_OVERHEAD
        } else {
            0
        }
    }

    /// How many fragments a payload is cut into, and their size.
    pub fn num_frags_and_frag_size(&self, payload_size: usize) -> (r: (u32, u16))
        ensures
            r.0 == num_frags_of(payload_size),
            r.1 == FRAGMENT_SIZE,
    {
        frags_of(payload_size)
    }

    /// The count for the next HEARTBEAT.
    pub fn next_heartbeat_count(&mut self) -> (c: i32)
        ensures
            c == old(self).heartbeat_message_counter,
            *final(self) == (Writer {
                heartbeat_message_counter: next_count(c),
                ..*old(self)
            }),
    {
        let c: i32 = self.heartbeat_message_counter;
        self.heartbeat_message_counter = count_after(c);
        c
    }
}

/// The smaller of two numbers, either of which may be missing.
pub open spec fn earlier(
    a: Option<SequenceNumber>,
    b: Option<SequenceNumber>,
) -> Option<SequenceNumber> {
    match (a, b) {
        (Some(x), Some(y)) => if y@ < x@ {
            b
        } else {
            a
        },
        (None, _) => b,
        (_, None) => a,
    }
}

/// Up to where all readers of a list have acknowledged everything, or all reliable ones;
/// `None` if there is none.
pub open spec fn acked_by_all(
    readers: Seq<RtpsReaderProxy>,
    reliable_only: bool,
) -> Option<SequenceNumber>
    decreases readers.len(),
{
    if readers.len() == 0 {
        None
    } else {
        let before = acked_by_all(readers.drop_last(), reliable_only);
        let rp = readers.last();
        if reliable_only && !rp.qos.spec_is_reliable() {
            before
        } else {
            earlier(before, Some(rp.all_acked_before))
        }
    }
}

/// What all readers have acknowledged is what each of them has.
pub proof fn law_frontier_is_acknowledged_by_each(
    readers: Seq<RtpsReaderProxy>,
    reliable_only: bool,
    i: int,
)
    requires
        0 <= i < readers.len(),
        reliable_only ==> readers[i].qos.spec_is_reliable(),
    ensures
        acked_by_all(readers, reliable_only) matches Some(sn) && sn@
            <= readers[i].all_acked_before@,
    decreases readers.len(),
{
    if i < readers.len() - 1 {
        law_frontier_is_acknowledged_by_each(readers.drop_last(), reliable_only, i);
    }
}

fn min_acked(readers: &SortedMap<GUID, RtpsReaderProxy>, reliable_only: bool) -> (r: Option<
    SequenceNumber,
>)
    ensures
        r == acked_by_all(in_order(*readers), reliable_only),
{
    let ghost all = in_order(*readers);
    let mut r: Option<SequenceNumber> = None;
    let n: usize = readers.len();
    let mut i: usize = 0;
    while i < n
        invariant
            i <= n,
            n == readers.keys().len(),
            all == in_order(*readers),
            r == acked_by_all(all.take(i as int), reliable_only),
        decreases n - i,
    {
        let rp: &RtpsReaderProxy = readers.value_at(i);
        i += 1;
        proof {
            assert(all.take(i as int).drop_last() =~= all.take(i - 1));
            assert(all.take(i as int).last() == *rp);
        }
        if !reliable_only || rp.qos().is_reliable() {
            let acked: SequenceNumber = rp.acked_up_to_before();
            r = match r {
                Some(x) => if acked.value < x.value {
                    Some(acked)
                } else {
                    Some(x)
                },
                None => Some(acked),
            };
        }
    }
    assert(all.take(i as int) =~= all);
    r
}

/// `after` is `before` with sample `sn` marked as sent.
pub open spec fn is_marked_sent(before: RtpsReaderProxy, after: RtpsReaderProxy, sn: int) -> bool {
    &&& after.unsent() == before.unsent().remove(sn)
    &&& after.gaps() == before.gaps()
    &&& after.requested() == before.requested()
    &&& after.all_acked_before == before.all_acked_before
    &&& after.repair_mode == before.repair_mode
    &&& after.same_profile(before)
}

/// `after` is `before` with sample `sn` noted as new; where the sample is for another
/// reader only, also as one that this reader will not get.
pub open spec fn is_notified(
    before: RtpsReaderProxy,
    after: RtpsReaderProxy,
    sn: int,
    single: Option<GUID>,
) -> bool {
    &&& after.unsent() == newest(
        before.unsent_changes@.insert(sn, ()),
        MAX_UNSENT_CHANGES_PER_READER as nat,
    ).dom()
    &&& after.gaps() == (if single matches Some(g) && g != before.remote_reader_guid {
        before.gaps().insert(sn)
    } else {
        before.gaps()
    })
    &&& after.requested() == before.requested()
    &&& after.all_acked_before == before.all_acked_before
    &&& after.repair_mode == before.repair_mode
    &&& after.same_profile(before)
}

pub open spec fn all_marked_sent(
    before: Map<int, RtpsReaderProxy>,
    after: Map<int, RtpsReaderProxy>,
    sn: int,
) -> bool {
    &&& after.dom() == before.dom()
    &&& forall|k: int| #[trigger]
        before.contains_key(k) ==> is_marked_sent(before[k], after[k], sn)
}

pub open spec fn all_notified(
    before: Map<int, RtpsReaderProxy>,
    after: Map<int, RtpsReaderProxy>,
    sn: int,
    single: Option<GUID>,
) -> bool {
    &&& after.dom() == before.dom()
    &&& forall|k: int| #[trigger]
        before.contains_key(k) ==> is_notified(before[k], after[k], sn, single)
}

pub(crate) fn mark_sent(readers: &mut SortedMap<GUID, RtpsReaderProxy>, sn: SequenceNumber)
    requires
        old(readers)@.dom().finite(),
    ensures
        all_marked_sent(old(readers)@, final(readers)@, sn@),
        final(readers)@.dom().finite(),
{
    let keys: Vec<GUID> = readers.key_list();
    let ghost before = readers@;
    let mut i: usize = 0;
    while i < keys.len()
        invariant
            i <= keys@.len(),
            before == old(readers)@,
            readers@.dom() == before.dom(),
            readers@.dom().finite(),
            forall|j: int, k: int| 0 <= j < k < keys@.len() ==> keys@[j].rank() < keys@[k].rank(),
            forall|j: int|
                0 <= j < keys@.len() ==> before.contains_key((#[trigger] keys@[j]).rank()),
            forall|j: int|
                0 <= j < i ==> is_marked_sent(
                    before[(#[trigger] keys@[j]).rank()],
                    readers@[keys@[j].rank()],
                    sn@,
                ),
            forall|j: int|
                i <= j < keys@.len() ==> readers@[(#[trigger] keys@[j]).rank()]
                    == before[keys@[j].rank()],
        decreases keys@.len() - i,
    {
        let key: GUID = keys[i];
        assert(before.contains_key(keys@[i as int].rank()));
        if let Some(mut rp) = readers.remove(&key) {
            rp.mark_change_sent(sn);
            readers.insert(key, rp);
        }
        assert(readers@.dom() =~= before.dom());
        i += 1;
    }
    proof {
        assert forall|k: int| #[trigger] before.contains_key(k) implies is_marked_sent(
            before[k],
            readers@[k],
            sn@,
        ) by {
            let j = choose|j: int| 0 <= j < keys@.len() && (#[trigger] keys@[j]).rank() == k;
            assert(is_marked_sent(before[keys@[j].rank()], readers@[keys@[j].rank()], sn@));
        }
    }
}

pub(crate) fn notify_all(
    readers: &mut SortedMap<GUID, RtpsReaderProxy>,
    sn: SequenceNumber,
    single: Option<GUID>,
)
    requires
        old(readers)@.dom().finite(),
    ensures
        all_notified(old(readers)@, final(readers)@, sn@, single),
        final(readers)@.dom().finite(),
{
    let keys: Vec<GUID> = readers.key_list();
    let ghost before = readers@;
    let mut i: usize = 0;
    while i < keys.len()
        invariant
            i <= keys@.len(),
            before == old(readers)@,
            readers@.dom() == before.dom(),
            readers@.dom().finite(),
            forall|j: int, k: int| 0 <= j < k < keys@.len() ==> keys@[j].rank() < keys@[k].rank(),
            forall|j: int|
                0 <= j < keys@.len() ==> before.contains_key((#[trigger] keys@[j]).rank()),
            forall|j: int|
                0 <= j < i ==> is_notified(
                    before[(#[trigger] keys@[j]).rank()],
                    readers@[keys@[j].rank()],
                    sn@,
                    single,
                ),
            forall|j: int|
                i <= j < keys@.len() ==> readers@[(#[trigger] keys@[j]).rank()]
                    == before[keys@[j].rank()],
        decreases keys@.len() - i,
    {
        let key: GUID = keys[i];
        assert(before.contains_key(keys@[i as int].rank()));
        if let Some(mut rp) = readers.remove(&key) {
            rp.notify_new_cache_change(sn);
            if let Some(single_reader_guid) = single {
                if rp.remote_reader_guid != single_reader_guid {
                    rp.insert_pending_gap(sn);
                }
            }
            readers.insert(key, rp);
        }
        assert(readers@.dom() =~= before.dom());
        i += 1;
    }
    proof {
        assert forall|k: int| #[trigger] before.contains_key(k) implies is_notified(
            before[k],
            readers@[k],
            sn@,
            single,
        ) by {
            let j = choose|j: int| 0 <= j < keys@.len() && (#[trigger] keys@[j]).rank() == k;
            assert(is_notified(before[keys@[j].rank()], readers@[keys@[j].rank()], sn@, single));
        }
    }
}

impl Writer {
    /// How far the matched reliable readers have acknowledged, as the send buffer wants to
    /// know it.
    pub open spec fn acked_frontier(self) -> Option<SequenceNumber> {
        if self.like_stateless {
            None
        } else {
            acked_by_all(in_order(self.readers), true)
        }
    }

    /// Tells the send buffer how far the reliable readers have acknowledged. Gives the
    /// tasks to wake.
    pub fn refresh_acked_frontier(&self, send_buffer: &mut WriterSendBuffer) -> (woken: Option<
        Vec<WakerId>,
    >)
        requires
            old(send_buffer).wf(),
        ensures
            final(send_buffer).wf(),
            final(send_buffer).has_frontier(*old(send_buffer), self.acked_frontier(), woken),
    {
        if self.like_stateless {
            return send_buffer.set_acked_frontier(None);
        }
        let frontier: Option<SequenceNumber> = min_acked(&self.readers, true);
        send_buffer.set_acked_frontier(frontier)
    }

    /// The first sample that is kept when the buffer is cleaned.
    ///
    /// What some reader has not acknowledged is kept, and of what all have, as many of the
    /// latest as the history depth asks for. A writer without state goes by the depth
    /// alone. But never are more samples kept than the resource limit allows.
    pub open spec fn first_keeper(
        self,
        buffer: WriterSendBuffer,
        depth: Option<i64>,
        resource_limit: i64,
    ) -> int {
        let first = buffer.first_seq@;
        let last = buffer.last_seq@;
        let kept = if !self.like_stateless {
            let acked = match acked_by_all(in_order(self.readers), false) {
                Some(sn) => sn@,
                None => 0,
            };
            let by_depth = match depth {
                Some(d) => greater(acked - d, first),
                None => first,
            };
            lesser(by_depth, acked)
        } else {
            let d = match depth {
                Some(d) => d as int,
                None => 0,
            };
            greater(last - d, first)
        };
        greater(greater(kept, last - resource_limit + 1), 0)
    }

    fn first_kept(
        &self,
        send_buffer: &WriterSendBuffer,
        depth: Option<i64>,
        resource_limit: i64,
    ) -> (r: i128)
        requires
            send_buffer.wf(),
        ensures
            r == self.first_keeper(*send_buffer, depth, resource_limit),
    {
        let first: i128 = send_buffer.first_change_sequence_number().value as i128;
        let last: i128 = send_buffer.last_change_sequence_number().value as i128;
        let kept: i128 = if !self.like_stateless {
            let acked: i128 = match min_acked(&self.readers, false) {
                Some(sn) => sn.value as i128,
                None => 0,
            };
            let by_depth: i128 = match depth {
                Some(d) => if acked - d as i128 >= first {
                    acked - d as i128
                } else {
                    first
                },
                None => first,
            };
            if by_depth <= acked {
                by_depth
            } else {
                acked
            }
        } else {
            let d: i128 = match depth {
                Some(d) => d as i128,
                None => 0,
            };
            if last - d >= first {
                last - d
            } else {
                first
            }
        };
        let first_allowed: i128 = last - resource_limit as i128 + 1;
        let limited: i128 = if kept >= first_allowed {
            kept
        } else {
            first_allowed
        };
        if limited >= 0 {
            limited
        } else {
            0
        }
    }

    /// Evicts the samples that no reader needs any more, down to the history depth.
    fn remove_all_acked_changes_but_keep_depth(
        &self,
        send_buffer: &mut WriterSendBuffer,
        depth: Option<i64>,
        resource_limit: i64,
    )
        requires
            old(send_buffer).wf(),
            self.first_keeper(*old(send_buffer), depth, resource_limit) <= i64::MAX,
        ensures
            final(send_buffer).wf(),
            final(send_buffer).has_removed_before(
                *old(send_buffer),
                self.first_keeper(*old(send_buffer), depth, resource_limit),
            ),
    {
        let first_keeper: i128 = self.first_kept(send_buffer, depth, resource_limit);
        send_buffer.remove_changes_before(SequenceNumber::new(first_keeper as i64));
    }

    /// How many of the latest samples the history policy wants kept; `None` for all.
    pub open spec fn history_depth(self) -> Option<i64> {
        match self.qos_policies.history {
            None => Some(1),
            Some(History::KeepAll) => None,
            Some(History::KeepLast { depth }) => Some(depth as i64),
        }
    }

    /// How many samples are kept at most.
    pub open spec fn sample_limit(self) -> i64 {
        match self.qos_policies.spec_max_samples() {
            Some(n) => n as i64,
            None => DEFAULT_WRITER_MAX_SAMPLES as i64,
        }
    }

    fn cleaning_bounds(&self) -> (r: (Option<i64>, i64))
        ensures
            r.0 == self.history_depth(),
            r.1 == self.sample_limit(),
    {
        let depth: Option<i64> = match self.qos_policies.history {
            None => Some(1),
            Some(History::KeepAll) => None,
            Some(History::KeepLast { depth }) => Some(depth as i64),
        };
        let resource_limit: i64 = match self.qos_policies.max_samples() {
            Some(n) => n as i64,
            None => DEFAULT_WRITER_MAX_SAMPLES as i64,
        };
        (depth, resource_limit)
    }

    /// Do the samples that cleaning keeps start with a number that there is?
    pub(crate) fn can_clean(&self, send_buffer: &WriterSendBuffer) -> (r: bool)
        requires
            send_buffer.wf(),
        ensures
            r == (self.first_keeper(*send_buffer, self.history_depth(), self.sample_limit())
                <= i64::MAX),
    {
        let (depth, resource_limit) = self.cleaning_bounds();
        self.first_kept(send_buffer, depth, resource_limit) <= i64::MAX as i128
    }

    /// Evicts the samples that are no longer needed, as the policies say.
    pub fn handle_cache_cleaning(&self, send_buffer: &mut WriterSendBuffer)
        requires
            old(send_buffer).wf(),
            self.first_keeper(*old(send_buffer), self.history_depth(), self.sample_limit())
                <= i64::MAX,
        ensures
            final(send_buffer).wf(),
            final(send_buffer).has_removed_before(
                *old(send_buffer),
                self.first_keeper(*old(send_buffer), self.history_depth(), self.sample_limit()),
            ),
            exists|acked: int| #[trigger]
                is_acked_by_all(self.readers@, acked) && is_cleaned(
                    *old(send_buffer),
                    *final(send_buffer),
                    self.qos_policies,
                    self.like_stateless,
                    acked,
                ),
    {
        let (depth, resource_limit) = self.cleaning_bounds();
        let ghost before = *send_buffer;
        self.remove_all_acked_changes_but_keep_depth(send_buffer, depth, resource_limit);
        // The readers are listed, each in one place, so the least of what they acknowledged is
        // that of one of them.
        let _readers: usize = self.readers.len();
        proof {
            lemma_acked_by_matched(self.readers);
            let acked = match acked_by_all(in_order(self.readers), false) {
                Some(sn) => sn@,
                None => 0,
            };
            law_cleaning_keeps_the_history(*self, before, *send_buffer, acked);
        }
    }
}

/// Cleaning evicts nothing that some reader has not acknowledged, unless the resource
/// limit forces it to.
pub proof fn law_cleaning_spares_the_unacknowledged(
    writer: Writer,
    before: WriterSendBuffer,
    after: WriterSendBuffer,
    depth: Option<i64>,
    resource_limit: i64,
)
    requires
        !writer.like_stateless,
        before.wf(),
        after.has_removed_before(before, writer.first_keeper(before, depth, resource_limit)),
    ensures
        forall|s: int| #[trigger]
            before.changes@.contains_key(s) && s > before.last_seq@ - resource_limit && (
            match acked_by_all(in_order(writer.readers), false) {
                Some(sn) => s >= sn@,
                None => true,
            }) ==> after.changes@.contains_key(s) && after.changes@[s] == before.changes@[s],
        after.last_seq == before.last_seq,
{
}

/// After cleaning no more samples are left than the resource limit allows.
pub proof fn law_cleaning_respects_the_resource_limit(
    writer: Writer,
    before: WriterSendBuffer,
    after: WriterSendBuffer,
    depth: Option<i64>,
    resource_limit: i64,
)
    requires
        before.wf(),
        resource_limit >= 1,
        after.has_removed_before(before, writer.first_keeper(before, depth, resource_limit)),
    ensures
        after.changes@.dom().len() <= resource_limit,
{
    let low = before.last_seq@ - resource_limit + 1;
    let high = before.last_seq@ + 1;
    vstd::set_lib::lemma_int_range(low, high);
    assert forall|s: int| #[trigger] after.changes@.dom().contains(s) implies
        vstd::set_lib::set_int_range(low, high).contains(s) by {
        assert(before.changes@.contains_key(s));
    }
    vstd::set_lib::lemma_len_subset(
        after.changes@.dom(),
        vstd::set_lib::set_int_range(low, high),
    );
}

/// Every reader has acknowledged what is below `acked`, and some reader no more than that.
/// Without readers nothing counts as acknowledged.
pub open spec fn is_acked_by_all(readers: Map<int, RtpsReaderProxy>, acked: int) -> bool {
    if readers.dom() == Set::<int>::empty() {
        acked == 0
    } else {
        &&& forall|k: int| #[trigger]
            readers.contains_key(k) ==> acked <= readers[k].all_acked_before@
        &&& exists|k: int| #[trigger]
            readers.contains_key(k) && readers[k].all_acked_before@ == acked
    }
}

/// `after` is `before` once it was cleaned. A sample stays, with its content, exactly if it
/// is among as many of the latest as the resource limit allows, and
/// - for a writer that tracks its readers: some reader has not acknowledged it, or it is
///   not further below what all have acknowledged than the history is deep, or all history
///   is kept;
/// - for one that does not: it is not further below the last one than the history is deep.
///
/// The depth of the history is one where the policies say nothing, and there is always some
/// limit.
pub open spec fn is_cleaned(
    before: WriterSendBuffer,
    after: WriterSendBuffer,
    qos: QosPolicies,
    like_stateless: bool,
    acked: int,
) -> bool {
    let last = before.last_seq@;
    let limit = match qos.resource_limits {
        Some(limits) if limits.max_samples > 0 => limits.max_samples as int,
        _ => DEFAULT_WRITER_MAX_SAMPLES as int,
    };
    &&& after.last_seq == before.last_seq
    &&& forall|s: int| #[trigger]
        after.changes@.contains_key(s) ==> before.changes@.contains_key(s) && after.changes@[s]
            == before.changes@[s]
    &&& forall|s: int| #[trigger]
        before.changes@.contains_key(s) ==> (after.changes@.contains_key(s) <==> last - limit < s
            && match qos.history {
            None => if like_stateless {
                last - 1 <= s
            } else {
                acked - 1 <= s
            },
            Some(History::KeepLast { depth }) => if like_stateless {
                last - depth <= s
            } else {
                acked - depth <= s || acked <= s
            },
            Some(History::KeepAll) => like_stateless ==> last <= s,
        })
}

proof fn lemma_acked_by_all(readers: Seq<RtpsReaderProxy>)
    ensures
        acked_by_all(readers, false) is None <==> readers.len() == 0,
        acked_by_all(readers, false) matches Some(sn) ==> {
            &&& forall|i: int|
                0 <= i < readers.len() ==> sn@ <= (#[trigger] readers[i]).all_acked_before@
            &&& exists|i: int|
                0 <= i < readers.len() && (#[trigger] readers[i]).all_acked_before == sn
        },
    decreases readers.len(),
{
    if readers.len() > 0 {
        let rest = readers.drop_last();
        let n = readers.len() - 1;
        lemma_acked_by_all(rest);
        assert(readers[n] == readers.last());
        let sn = acked_by_all(readers, false)->0;
        assert forall|i: int| 0 <= i < readers.len() implies sn@ <= (
        #[trigger] readers[i]).all_acked_before@ by {
            if i < n {
                assert(readers[i] == rest[i]);
            }
        }
        if acked_by_all(rest, false) is Some && sn != readers[n].all_acked_before {
            let i = choose|i: int|
                0 <= i < rest.len() && (#[trigger] rest[i]).all_acked_before == sn;
            assert(readers[i] == rest[i]);
        }
    }
}

proof fn lemma_acked_by_matched(readers: SortedMap<GUID, RtpsReaderProxy>)
    requires
        readers.listed(),
    ensures
        is_acked_by_all(
            readers@,
            match acked_by_all(in_order(readers), false) {
                Some(sn) => sn@,
                None => 0,
            },
        ),
{
    let all = in_order(readers);
    lemma_acked_by_all(all);
    if all.len() == 0 {
        assert forall|k: int| !readers@.dom().contains(k) by {
            if readers@.contains_key(k) {
                let i = lemma_place(readers, k);
            }
        }
        assert(readers@.dom() =~= Set::empty());
    } else {
        let sn = acked_by_all(all, false)->0;
        let i = choose|i: int| 0 <= i < all.len() && (#[trigger] all[i]).all_acked_before == sn;
        let k = readers.keys()[i].rank();
        assert(readers@.contains_key(k) && readers@[k].all_acked_before@ == sn@);
        assert(readers@.dom().contains(k));
        assert forall|k: int| #[trigger] readers@.contains_key(k) implies sn@
            <= readers@[k].all_acked_before@ by {
            let i = lemma_place(readers, k);
            assert(sn@ <= all[i].all_acked_before@);
        }
    }
}

/// Cleaning keeps what some reader has not acknowledged, of the rest as many of the latest
/// as the history is deep, and never more than the resource limit allows. All else is gone.
pub proof fn law_cleaning_keeps_the_history(
    writer: Writer,
    before: WriterSendBuffer,
    after: WriterSendBuffer,
    acked: int,
)
    requires
        before.wf(),
        writer.readers.listed(),
        is_acked_by_all(writer.readers@, acked),
        after.has_removed_before(
            before,
            writer.first_keeper(before, writer.history_depth(), writer.sample_limit()),
        ),
    ensures
        is_cleaned(before, after, writer.qos_policies, writer.like_stateless, acked),
{
    lemma_acked_by_matched(writer.readers);
    let found = match acked_by_all(in_order(writer.readers), false) {
        Some(sn) => sn@,
        None => 0,
    };
    if writer.readers@.dom() != Set::<int>::empty() {
        let k = choose|k: int| #[trigger]
            writer.readers@.contains_key(k) && writer.readers@[k].all_acked_before@ == acked;
        let l = choose|k: int| #[trigger]
            writer.readers@.contains_key(k) && writer.readers@[k].all_acked_before@ == found;
        assert(writer.readers@.contains_key(k) && writer.readers@.contains_key(l));
    }
    assert(acked == found);
    reveal(WriterSendBuffer::no_holes);
}

proof fn lemma_acked_by_reliable(readers: Seq<RtpsReaderProxy>, t: int)
    ensures
        acked_by_all(readers, true) is None <==> forall|i: int|
            0 <= i < readers.len() ==> !(
            (#[trigger] readers[i]).qos.reliability matches Some(Reliability::Reliable { .. })),
        acked_by_all(readers, true) matches Some(sn) ==> (t < sn@ <==> forall|i: int|
            0 <= i < readers.len() && (
            (#[trigger] readers[i]).qos.reliability matches Some(Reliability::Reliable { .. })) ==> t
                < readers[i].all_acked_before@),
    decreases readers.len(),
{
    if readers.len() > 0 {
        let rest = readers.drop_last();
        let n = readers.len() - 1;
        lemma_acked_by_reliable(rest, t);
        assert(readers[n] == readers.last());
        assert(forall|i: int| 0 <= i < n ==> #[trigger] rest[i] == readers[i]);
        if acked_by_all(rest, true) is None {
            assert forall|i: int| 0 <= i < n implies !(
            (#[trigger] readers[i]).qos.reliability matches Some(Reliability::Reliable { .. })) by {
                assert(rest[i] == readers[i]);
            }
        } else {
            let i = choose|i: int|
                0 <= i < rest.len() && ((#[trigger] rest[i]).qos.reliability matches Some(
                    Reliability::Reliable { .. },
                ));
            assert(readers[i] == rest[i]);
            let sn = acked_by_all(rest, true)->0;
            if t < sn@ {
                assert forall|i: int|
                    0 <= i < n && ((#[trigger] readers[i]).qos.reliability matches Some(
                        Reliability::Reliable { .. },
                    )) implies t < readers[i].all_acked_before@ by {
                    assert(rest[i] == readers[i]);
                }
            } else {
                let i = choose|i: int|
                    0 <= i < rest.len() && ((#[trigger] rest[i]).qos.reliability matches Some(
                        Reliability::Reliable { .. },
                    )) && !(t < rest[i].all_acked_before@);
                assert(readers[i] == rest[i]);
            }
        }
    }
}

/// Once the send buffer is told how far the readers have acknowledged, a number counts as
/// acknowledged exactly if every reliable reader has acknowledged it. Best-effort readers
/// do not count, nor does any reader of a writer that does not track them.
pub proof fn law_every_reliable_reader_has_to_acknowledge(
    writer: Writer,
    before: WriterSendBuffer,
    after: WriterSendBuffer,
    woken: Option<Vec<WakerId>>,
    target: int,
)
    requires
        writer.readers.listed(),
        after.has_frontier(before, writer.acked_frontier(), woken),
    ensures
        after.acked_through(target) <==> writer.like_stateless || forall|k: int| #[trigger]
            writer.readers@.contains_key(k) && (writer.readers@[k].qos.reliability matches Some(
                Reliability::Reliable { .. },
            )) ==> target < writer.readers@[k].all_acked_before@,
        after.reliable_readers_present <==> !writer.like_stateless && exists|k: int| #[trigger]
            writer.readers@.contains_key(k) && (writer.readers@[k].qos.reliability matches Some(
                Reliability::Reliable { .. },
            )),
{
    let all = in_order(writer.readers);
    lemma_acked_by_reliable(all, target);
    if !writer.like_stateless {
        assert forall|k: int| #[trigger] writer.readers@.contains_key(k) implies exists|i: int|
            0 <= i < all.len() && #[trigger] all[i] == writer.readers@[k] by {
            let i = lemma_place(writer.readers, k);
            assert(all[i] == writer.readers@[k]);
        }
        assert forall|i: int| 0 <= i < all.len() implies writer.readers@.contains_key(
            writer.readers.keys()[i].rank(),
        ) && #[trigger] all[i] == writer.readers@[writer.readers.keys()[i].rank()] by {}
    }
}

/// A reliable writer sends heartbeats, and no other does: where the application asserts its
/// liveliness by topic three in each lease, else at the fixed slow period. While a reader is
/// behind they come no slower than that.
pub proof fn law_reliable_writers_have_heartbeats(
    ingredients: WriterIngredients,
    writer: Writer,
    timers: Vec<TimerRequest>,
)
    requires
        call_ensures(Writer::new, (ingredients,), (writer, timers)),
    ensures
        writer.heartbeat_period is Some <==> (ingredients.qos_policies.reliability matches Some(
            Reliability::Reliable { .. },
        )),
        writer.heartbeat_period_fast is Some <==> writer.heartbeat_period is Some,
        writer.heartbeat_period matches Some(period) ==> {
            &&& writer.heartbeat_period_fast->0.ticks <= period.ticks
            &&& match ingredients.qos_policies.liveliness {
                Some(Liveliness::ManualByTopic { lease_duration }) => lease_duration.ticks >= 0
                    ==> 3 * period.ticks <= lease_duration.ticks < 3 * (period.ticks + 1),
                _ => 1000 * period.ticks <= HEARTBEAT_PERIOD_SLOW_MILLIS * 0x1_0000_0000 < 1000 * (
                period.ticks + 1),
            }
        },
        forall|i: int|
            0 <= i < timers@.len() && (#[trigger] timers@[i]).event is Heartbeat ==> Some(
                timers@[i].after,
            ) == writer.heartbeat_period,
        (exists|i: int| 0 <= i < timers@.len() && (#[trigger] timers@[i]).event is Heartbeat)
            <==> writer.heartbeat_period is Some,
        exists|i: int|
            0 <= i < timers@.len() && (#[trigger] timers@[i]).event is CacheCleaning
                && timers@[i].after == writer.cache_cleaning_period,
{
    let n = timers@.len() - 1;
    assert(timers@[n].event is CacheCleaning);
    if writer.heartbeat_period is Some {
        assert(timers@[0].event is Heartbeat);
    }
}

/// No two successive HEARTBEATs of a writer have the same count, and the count goes up by
/// one each time until it is used up.
pub proof fn law_heartbeat_counts_go_up(count: i32)
    ensures
        next_count(count) != count,
        count < i32::MAX ==> next_count(count) == count + 1,
        count == i32::MAX ==> next_count(count) == i32::MIN,
{
}

/// A payload is cut into just as many fragments as it takes to hold it.
pub proof fn law_fragments_hold_the_payload(payload_size: usize)
    requires
        payload_size <= u32::MAX,
    ensures
        payload_size <= num_frags_of(payload_size) * FRAGMENT_SIZE,
        payload_size > 0 ==> (num_frags_of(payload_size) - 1) * FRAGMENT_SIZE < payload_size,
        payload_size == 0 ==> num_frags_of(payload_size) == 0,
{
}

/// The count after this one; it starts over below zero when it is used up.
pub open spec fn next_count(c: i32) -> i32 {
    if c == i32::MAX {
        i32::MIN
    } else {
        (c + 1) as i32
    }
}

pub(crate) fn count_after(c: i32) -> (n: i32)
    ensures
        n == next_count(c),
{
    if c == i32::MAX {
        i32::MIN
    } else {
        c + 1
    }
}

pub open spec fn opt_deref<T>(o: Option<&T>) -> Option<T> {
    match o {
        Some(t) => Some(*t),
        None => None,
    }
}

} // verus!
