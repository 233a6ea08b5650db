//! Sending the samples of a writer that were not sent yet.
//!
//! Sending goes step by step. Each step says what is to be sent; whoever sends it reports
//! back which sockets could not take it, and the writer decides how to go on.

use vstd::prelude::*;

use crate::dds::qos::Reliability;
use crate::rtps::constant::MAX_UNSENT_CHANGES_PER_READER;
use crate::rtps::fragmentation::{
    is_sample_in, law_sample_goes_out_completely, FragmentationIter,
};
use crate::rtps::message::{
    Message, SubmessageView, HEARTBEAT_SUBMESSAGE_SERIALIZED_SIZE, INFO_TS_INVALIDATE_SIZE,
    INFO_TS_SIZE, RTPS_HEADER_SIZE,
};
use crate::rtps::message_walk::{
    heartbeats_are_true, lemma_parts_len_of_two, lemma_samples_in_two, lemma_stamp_of_part,
    parts_len, run_of_numbers, sample_of, samples_in, stamp_at, well_stamped,
};
use crate::rtps::outbound::{SocketId, TrafficClass};
use crate::rtps::rtps_reader_proxy::RtpsReaderProxy;
use crate::rtps::send_plan::{
    in_order, is_plan_for, is_reached, law_plan_reaches_all_matched, law_plan_reaches_each_reader,
    plan_for_all, plan_for_one, reaches_all, send_plan, DeliveryMode, Emission,
};
use crate::rtps::writer::{
    all_marked_sent, all_notified, is_marked_sent, is_notified, mark_sent, next_count,
    notify_all, SampleCursor, Writer, DATA_SUBMESSAGE_OVERHEAD,
};
use crate::rtps::writer_send_buffer::{WakerId, WriterSendBuffer};
use crate::structure::cache_change::CacheChange;
use crate::structure::guid::{EntityId, GUID};
use crate::structure::sequence_number::SequenceNumber;
use crate::structure::sorted_map::{SortKey, SortedMap};

verus! {

/// Several whole samples in one datagram.
pub struct BatchPlan {
    pub message: Message,
    pub emissions: Vec<Emission>,
    /// The last sample in the datagram.
    pub last_seq: SequenceNumber,
    /// Is the datagram kept for later where a socket cannot take it, or dropped?
    pub may_block: bool,
}

/// One sample, sent on its own.
pub struct SamplePlan {
    pub sequence_number: SequenceNumber,
    /// The messages that carry it.
    pub messages: FragmentationIter,
    /// Where each of them goes.
    pub emissions: Vec<Emission>,
    pub class: TrafficClass,
    /// Is the rest kept for later where a socket cannot take it, or dropped?
    pub may_block: bool,
}

/// What is to be done next to send the samples that were not sent yet.
pub enum PendingStep {
    /// Everything was sent.
    Idle,
    /// There was nothing to send for the next sample.
    Skipped { woken: Option<Vec<WakerId>> },
    /// Samples are to be sent together.
    Batch(BatchPlan),
    /// A sample is to be sent on its own.
    Sample(SamplePlan),
    /// A sample is only to be announced.
    Announce { message: Message, emissions: Vec<Emission>, woken: Option<Vec<WakerId>> },
}

/// How far the sending of one sample got.
pub enum SendProgress {
    Complete,
    /// Some sockets could not take the message from which `cursor` resumes.
    Blocked { cursor: SampleCursor, blocked: Vec<SocketId> },
}

/// Whether sending goes on after a report.
pub enum Continuation {
    /// The sample or batch is done with.
    GoOn { woken: Option<Vec<WakerId>> },
    /// Sending stops until a socket can take more.
    Stop,
}

/// The samples that go into one datagram so far.
pub struct BatchView {
    pub parts: Seq<SubmessageView>,
    /// Bytes of the message.
    pub len: int,
    /// Does a source timestamp apply to what follows?
    pub ts_active: bool,
    pub last_seq: int,
    pub count: int,
    pub may_block: bool,
}

/// The parts of a message that carry one sample in a batch. A timestamp applies to all
/// that follows, so a sample without one has to withdraw an earlier one.
pub open spec fn sample_parts(cc: CacheChange, ts_active: bool) -> Seq<SubmessageView> {
    let data = SubmessageView::Data {
        reader: EntityId::unknown(),
        writer_sn: cc.sequence_number@,
    };
    match cc.write_options.source_timestamp {
        Some(ts) => seq![SubmessageView::InfoTimestamp(Some(ts)), data],
        None => if ts_active {
            seq![SubmessageView::InfoTimestamp(None), data]
        } else {
            seq![data]
        },
    }
}

/// Bytes of those parts.
pub open spec fn sample_parts_len(cc: CacheChange, ts_active: bool) -> int {
    let stamp = match cc.write_options.source_timestamp {
        Some(_) => INFO_TS_SIZE as int,
        None => if ts_active {
            INFO_TS_INVALIDATE_SIZE as int
        } else {
            0
        },
    };
    stamp + cc.spec_data_submessage_len()
}

impl BatchView {
    pub open spec fn with_sample(self, cc: CacheChange) -> BatchView {
        BatchView {
            parts: self.parts + sample_parts(cc, self.ts_active),
            len: self.len + sample_parts_len(cc, self.ts_active),
            ts_active: cc.write_options.source_timestamp is Some,
            last_seq: cc.sequence_number@,
            count: self.count + 1,
            may_block: self.may_block || cc.write_options.best_effort_may_block,
        }
    }
}

impl Writer {
    /// Can this sample go out in a datagram with others? It has to be whole, and for all
    /// readers.
    pub open spec fn aggregatable(self, cc: CacheChange) -> bool {
        &&& cc.data_value.spec_payload_size() <= self.max_unfragmented(None)
        &&& cc.write_options.to_single_reader is None
    }

    pub fn is_aggregatable(&self, cc: &CacheChange) -> (r: bool)
        requires
            cc.data_value.spec_payload_size() <= usize::MAX,
        ensures
            r == self.aggregatable(*cc),
    {
        cc.data_value.payload_size() <= self.max_unfragmented_serialized_payload(None)
            && cc.write_options.to_single_reader().is_none()
    }

    /// Does the sample fit into the datagram? The first one always goes in.
    pub open spec fn fits(self, b: BatchView, cc: CacheChange) -> bool {
        b.count == 0 || b.len + sample_parts_len(cc, b.ts_active) + self.heartbeat_reserve()
            <= self.min_datagram_payload
    }

    /// The batch `b` with the samples from `seq` on, up to the first one that is missing,
    /// has to go on its own, or does not fit.
    pub open spec fn batch_from(
        self,
        changes: Map<int, CacheChange>,
        seq: int,
        last_available: int,
        b: BatchView,
    ) -> BatchView
        decreases last_available - seq + 1,
    {
        if seq > last_available || !changes.contains_key(seq) || !self.aggregatable(changes[seq])
            || !self.fits(b, changes[seq]) {
            b
        } else {
            self.batch_from(changes, seq + 1, last_available, b.with_sample(changes[seq]))
        }
    }

    pub open spec fn empty_batch(self, first_seq: int) -> BatchView {
        BatchView {
            parts: Seq::empty(),
            len: RTPS_HEADER_SIZE as int,
            ts_active: false,
            last_seq: first_seq,
            count: 0,
            may_block: self.qos_policies.spec_is_reliable(),
        }
    }

    /// The samples from `first_seq` on that go out in one datagram.
    pub open spec fn batch(
        self,
        changes: Map<int, CacheChange>,
        first_seq: int,
        last_available: int,
    ) -> BatchView {
        self.batch_from(changes, first_seq, last_available, self.empty_batch(first_seq))
    }

    /// The HEARTBEAT at the end of a batch, of a reliable writer only.
    pub open spec fn batch_closing(self, buffer: WriterSendBuffer) -> Seq<SubmessageView> {
        if self.heartbeat_reserve() > 0 {
            seq![
                SubmessageView::Heartbeat {
                    reader: EntityId::unknown(),
                    first: buffer.first_seq@,
                    last: buffer.last_seq@,
                    count: self.heartbeat_message_counter,
                    final_flag: false,
                    liveliness_flag: false,
                },
            ]
        } else {
            Seq::empty()
        }
    }

    /// `plan` sends the samples from `first_seq` on that fit in one datagram.
    pub open spec fn is_batch_plan(
        self,
        plan: BatchPlan,
        buffer: WriterSendBuffer,
        first_seq: int,
        last_available: int,
    ) -> bool {
        let b = self.batch(buffer.changes@, first_seq, last_available);
        &&& plan.message@ == b.parts + self.batch_closing(buffer)
        &&& plan.last_seq@ == b.last_seq
        &&& plan.may_block == b.may_block
        &&& plan.emissions@ == send_plan(
            DeliveryMode::Multicast,
            in_order(self.readers),
            self.extra_unicast_destinations@,
        )
    }

    /// The datagram with the samples from `first_seq` on that can go together. There is
    /// none where the first of them is gone or has to go on its own.
    pub fn try_send_aggregated_batch(
        &mut self,
        send_buffer: &WriterSendBuffer,
        first_seq: SequenceNumber,
        last_available: SequenceNumber,
    ) -> (r: Option<BatchPlan>)
        requires
            send_buffer.wf(),
            first_seq@ <= last_available@ < i64::MAX,
        ensures
            r is Some <==> send_buffer.changes@.contains_key(first_seq@) && old(self).aggregatable(
                send_buffer.changes@[first_seq@],
            ),
            r matches Some(plan) ==> old(self).is_batch_plan(
                plan,
                *send_buffer,
                first_seq@,
                last_available@,
            ) && first_seq@ <= plan.last_seq@ <= last_available@,
            *final(self) == (Writer {
                heartbeat_message_counter: if r is Some && old(self).heartbeat_reserve() > 0 {
                    next_count(old(self).heartbeat_message_counter)
                } else {
                    old(self).heartbeat_message_counter
                },
                ..*old(self)
            }),
    {
        match send_buffer.changes.get(&first_seq) {
            None => {
                return None;
            },
            Some(cc) => {
                if !self.is_aggregatable(cc) {
                    return None;
                }
            },
        }
        let ghost changes = send_buffer.changes@;
        let is_reliable: bool = self.is_reliable();
        let hb_reserve: u128 = self.hb_reserve() as u128;
        let mut message: Message = Message::new();
        let mut len: u128 = RTPS_HEADER_SIZE as u128;
        let mut last_seq: SequenceNumber = first_seq;
        let mut empty: bool = true;
        let mut may_block: bool = is_reliable;
        let mut ts_active: bool = false;
        let mut seq: SequenceNumber = first_seq;
        let ghost mut b = self.empty_batch(first_seq@);
        loop
            invariant_except_break
                self.batch(changes, first_seq@, last_available@) == self.batch_from(
                    changes,
                    seq@,
                    last_available@,
                    b,
                ),
            invariant
                send_buffer.wf(),
                changes == send_buffer.changes@,
                *self == *old(self),
                first_seq@ <= seq@ <= last_available@ + 1,
                last_available@ < i64::MAX,
                changes.contains_key(first_seq@),
                self.aggregatable(changes[first_seq@]),
                hb_reserve == self.heartbeat_reserve(),
                b.parts == message@,
                b.len == len,
                b.ts_active == ts_active,
                b.last_seq == last_seq@,
                b.may_block == may_block,
                b.count >= 0,
                empty == (b.count == 0),
                first_seq@ <= last_available@,
                empty ==> seq == first_seq && last_seq == first_seq && len == RTPS_HEADER_SIZE,
                !empty ==> last_seq@ == seq@ - 1 && seq@ > first_seq@,
                len <= 0x2_0000_0000_0000_0000,
            ensures
                self.batch(changes, first_seq@, last_available@) == b,
                first_seq@ <= last_seq@ <= last_available@,
            decreases last_available@ - seq@ + 1,
        {
            if seq.value > last_available.value {
                break ;
            }
            let cc: &CacheChange = match send_buffer.changes.get(&seq) {
                None => {
                    break ;
                },
                Some(cc) => cc,
            };
            if !self.is_aggregatable(cc) {
                break ;
            }
            let stamp: u128 = match cc.write_options.source_timestamp() {
                Some(_) => INFO_TS_SIZE as u128,
                None => if ts_active {
                    INFO_TS_INVALIDATE_SIZE as u128
                } else {
                    0
                },
            };
            let sample_len: u128 = stamp + cc.data_submessage_len();
            if !empty && len + sample_len + hb_reserve > self.min_datagram_payload as u128 {
                break ;
            }
            let ghost before = message@;
            match cc.write_options.source_timestamp() {
                Some(ts) => {
                    message = message.ts_msg(Some(ts));
                },
                None => {
                    if ts_active {
                        message = message.ts_msg(None);
                    }
                },
            }
            message = message.data_msg(EntityId::unknown(), cc.sequence_number);
            assert(message@ =~= before + sample_parts(*cc, ts_active));
            ts_active = cc.write_options.source_timestamp().is_some();
            len = len + sample_len;
            last_seq = seq;
            empty = false;
            if cc.write_options.best_effort_may_block() {
                may_block = true;
            }
            proof {
                b = b.with_sample(changes[seq@]);
            }
            seq = seq.plus_1();
        }
        let ghost parts = message@;
        if hb_reserve > 0 {
            let count: i32 = self.next_heartbeat_count();
            message = message.heartbeat_msg(
                EntityId::unknown(),
                send_buffer.first_change_sequence_number(),
                send_buffer.last_change_sequence_number(),
                count,
                false,
                false,
            );
        }
        assert(message@ =~= parts + old(self).batch_closing(*send_buffer));
        let emissions: Vec<Emission> = plan_for_all(
            DeliveryMode::Multicast,
            &self.readers,
            &self.extra_unicast_destinations,
        );
        Some(BatchPlan { message, emissions, last_seq, may_block })
    }
}

/// What came of sending a batch. The datagram goes out whole or not at all.
pub enum BatchOutcome {
    /// Every socket took it.
    Sent { last_seq: SequenceNumber },
    /// Some sockets could not take it, and it is to be sent later.
    Blocked { blocked: Vec<SocketId> },
    /// Some sockets could not take it, and it is not sent again.
    Dropped { last_seq: SequenceNumber },
}

/// What became of a batch, given the sockets that could not take it.
pub open spec fn outcome_of(
    last_seq: SequenceNumber,
    may_block: bool,
    blocked: Vec<SocketId>,
) -> BatchOutcome {
    if blocked@.len() == 0 {
        BatchOutcome::Sent { last_seq }
    } else if may_block {
        BatchOutcome::Blocked { blocked }
    } else {
        BatchOutcome::Dropped { last_seq }
    }
}

/// Judges the report on a batch.
pub fn batch_outcome(
    last_seq: SequenceNumber,
    may_block: bool,
    blocked: Vec<SocketId>,
) -> (r: BatchOutcome)
    ensures
        r == outcome_of(last_seq, may_block, blocked),
{
    if blocked.len() == 0 {
        BatchOutcome::Sent { last_seq }
    } else if may_block {
        BatchOutcome::Blocked { blocked }
    } else {
        BatchOutcome::Dropped { last_seq }
    }
}

/// The ranks of the sockets in a list.
pub open spec fn socket_ranks(sockets: Seq<SocketId>) -> Set<int> {
    Set::new(|r: int| exists|i: int| 0 <= i < sockets.len() && (#[trigger] sockets[i]).rank() == r)
}

/// Adds sockets to a set of sockets.
pub(crate) fn add_sockets(set: &mut SortedMap<SocketId, ()>, sockets: &Vec<SocketId>)
    ensures
        final(set)@.dom() == old(set)@.dom().union(socket_ranks(sockets@)),
{
    let ghost before = set@.dom();
    let mut i: usize = 0;
    while i < sockets.len()
        invariant
            i <= sockets@.len(),
            forall|r: int| #[trigger]
                set@.dom().contains(r) <==> before.contains(r) || exists|j: int|
                    0 <= j < i && (#[trigger] sockets@[j]).rank() == r,
        decreases sockets@.len() - i,
    {
        let ghost so_far = set@.dom();
        set.insert(sockets[i], ());
        i += 1;
        proof {
            assert forall|r: int| #[trigger]
                set@.dom().contains(r) <==> before.contains(r) || exists|j: int|
                    0 <= j < i && (#[trigger] sockets@[j]).rank() == r by {
                assert(set@.dom().contains(r) <==> so_far.contains(r) || r == sockets@[i - 1].rank());
                if so_far.contains(r) && !before.contains(r) {
                    let j = choose|j: int| 0 <= j < i - 1 && (#[trigger] sockets@[j]).rank() == r;
                    assert(sockets@[j].rank() == r);
                }
            }
        }
    }
    assert(set@.dom() =~= before.union(socket_ranks(sockets@)));
}

/// Where a sample is noted with the readers: when its sending starts, and not for a
/// writer without state.
pub open spec fn readers_notified(
    before: Writer,
    after: Map<int, RtpsReaderProxy>,
    sn: int,
    single: Option<GUID>,
) -> bool {
    if before.sample_cursor == SampleCursor::Fresh && !before.like_stateless {
        all_notified(before.readers@, after, sn, single)
    } else {
        after == before.readers@
    }
}

/// Where a sample is marked as sent with the readers: not for a writer without state.
pub open spec fn readers_marked(
    like_stateless: bool,
    before: Map<int, RtpsReaderProxy>,
    after: Map<int, RtpsReaderProxy>,
    sn: int,
) -> bool {
    if like_stateless {
        after == before
    } else {
        all_marked_sent(before, after, sn)
    }
}

impl Writer {
    /// Everything but the given progress and the readers is as in `before`.
    pub open spec fn has_advanced_to(self, before: Writer, sn: int) -> bool {
        &&& self.last_sent@ == sn
        &&& self.sample_cursor == SampleCursor::Fresh
        &&& self == (Writer {
            last_sent: self.last_sent,
            sample_cursor: self.sample_cursor,
            readers: self.readers,
            heartbeat_message_counter: self.heartbeat_message_counter,
            ..before
        })
    }

    /// Marks a sample as sent with every reader.
    fn mark_change_sent_to_all_readers(&mut self, sequence_number: SequenceNumber)
        requires
            old(self).wf(),
        ensures
            final(self).wf(),
            readers_marked(
                old(self).like_stateless,
                old(self).readers@,
                final(self).readers@,
                sequence_number@,
            ),
            *final(self) == (Writer { readers: final(self).readers, ..*old(self) }),
    {
        if self.like_stateless {
            return;
        }
        mark_sent(&mut self.readers, sequence_number);
    }

    /// Goes on from the report on a batch.
    pub fn finish_batch(
        &mut self,
        send_buffer: &mut WriterSendBuffer,
        outcome: BatchOutcome,
    ) -> (r: Continuation)
        requires
            old(self).wf(),
            old(send_buffer).wf(),
            match outcome {
                BatchOutcome::Sent { last_seq } => 0 <= last_seq@,
                BatchOutcome::Dropped { last_seq } => 0 <= last_seq@,
                BatchOutcome::Blocked { .. } => true,
            },
        ensures
            final(self).wf(),
            final(send_buffer).wf(),
            is_batch_end(
                *old(self),
                *old(send_buffer),
                outcome,
                *final(self),
                *final(send_buffer),
                r,
            ),
    {
        match outcome {
            BatchOutcome::Sent { last_seq } => {
                self.last_sent = last_seq;
                self.sample_cursor = SampleCursor::Fresh;
                Continuation::GoOn { woken: send_buffer.set_sent_frontier(last_seq) }
            },
            BatchOutcome::Dropped { last_seq } => {
                self.last_sent = last_seq;
                self.sample_cursor = SampleCursor::Fresh;
                Continuation::GoOn { woken: send_buffer.set_sent_frontier(last_seq) }
            },
            BatchOutcome::Blocked { blocked } => {
                add_sockets(&mut self.blocked_sockets, &blocked);
                Continuation::Stop
            },
        }
    }

    /// Is the next sample to be sent together with others?
    pub open spec fn sends_batch(self, buffer: WriterSendBuffer) -> bool {
        let sn = self.last_sent@ + 1;
        &&& self.push_mode
        &&& self.sample_cursor == SampleCursor::Fresh
        &&& !self.security
        &&& buffer.changes@.contains_key(sn)
        &&& self.aggregatable(buffer.changes@[sn])
    }

    /// Is there a reader for this sample? One that is for a single reader needs that
    /// reader to be matched.
    pub open spec fn deliverable(self, cc: CacheChange) -> bool {
        cc.write_options.to_single_reader matches Some(g) ==> self.readers@.contains_key(g.rank())
    }

    /// The reader that a sample is sent to alone.
    pub open spec fn sole_reader(self, cc: CacheChange) -> Option<RtpsReaderProxy> {
        match cc.write_options.to_single_reader {
            Some(g) => Some(self.readers@[g.rank()]),
            None => None,
        }
    }

    /// Where a sample goes that is sent on its own.
    pub open spec fn sample_emissions(self, cc: CacheChange) -> Seq<Emission> {
        match self.sole_reader(cc) {
            Some(rp) => send_plan(
                DeliveryMode::Unicast,
                seq![rp],
                self.extra_unicast_destinations@,
            ),
            None => send_plan(
                DeliveryMode::Multicast,
                in_order(self.readers),
                self.extra_unicast_destinations@,
            ),
        }
    }

    /// `plan` sends the sample `cc` on its own, resuming at `cursor`. Samples of discovery
    /// are never dropped.
    pub open spec fn is_sample_plan(
        self,
        plan: SamplePlan,
        cc: CacheChange,
        cursor: SampleCursor,
    ) -> bool {
        &&& plan.sequence_number == cc.sequence_number
        &&& plan.messages.wf()
        &&& plan.messages.is_start(
            self,
            cc,
            self.sole_reader(cc),
            self.qos_policies.spec_is_reliable(),
            cursor,
        )
        &&& plan.emissions@ == self.sample_emissions(cc)
        &&& plan.class == (if self.my_guid.entity_id.entity_kind.spec_is_built_in() {
            TrafficClass::Control
        } else {
            TrafficClass::Bulk
        })
        &&& plan.may_block == (self.qos_policies.spec_is_reliable()
            || cc.write_options.best_effort_may_block)
    }

    /// Leaves a sample behind without sending it.
    fn pass_over(
        &mut self,
        send_buffer: &mut WriterSendBuffer,
        sequence_number: SequenceNumber,
    ) -> (woken: Option<Vec<WakerId>>)
        requires
            old(self).wf(),
            old(send_buffer).wf(),
            0 <= sequence_number@,
        ensures
            final(self).wf(),
            final(send_buffer).wf(),
            final(self).has_advanced_to(*old(self), sequence_number@),
            final(self).heartbeat_message_counter == old(self).heartbeat_message_counter,
            final(send_buffer).has_sent(*old(send_buffer), sequence_number@, woken),
            readers_marked(
                old(self).like_stateless,
                old(self).readers@,
                final(self).readers@,
                sequence_number@,
            ),
    {
        self.last_sent = sequence_number;
        self.sample_cursor = SampleCursor::Fresh;
        let woken: Option<Vec<WakerId>> = send_buffer.set_sent_frontier(sequence_number);
        self.mark_change_sent_to_all_readers(sequence_number);
        woken
    }

    /// How a sample is sent on its own.
    fn plan_sample(
        &self,
        cc: &CacheChange,
        target: Option<&RtpsReaderProxy>,
        cursor: SampleCursor,
    ) -> (plan: SamplePlan)
        requires
            self.wf(),
            cc.data_value.spec_payload_size() <= usize::MAX,
            cursor matches SampleCursor::Frag(n) ==> n@ >= 1,
            match target {
                Some(rp) => self.sole_reader(*cc) == Some(*rp),
                None => self.sole_reader(*cc) is None,
            },
        ensures
            self.is_sample_plan(plan, *cc, cursor),
    {
        let messages: FragmentationIter = FragmentationIter::new_resume(
            self,
            cc,
            target,
            self.is_reliable(),
            cursor,
        );
        let emissions: Vec<Emission> = match target {
            Some(rp) => plan_for_one(
                DeliveryMode::Unicast,
                rp,
                &self.extra_unicast_destinations,
            ),
            None => plan_for_all(
                DeliveryMode::Multicast,
                &self.readers,
                &self.extra_unicast_destinations,
            ),
        };
        let class: TrafficClass = if self.my_guid.entity_id.kind().is_built_in() {
            TrafficClass::Control
        } else {
            TrafficClass::Bulk
        };
        let may_block: bool = self.is_reliable() || cc.write_options.best_effort_may_block();
        SamplePlan {
            sequence_number: cc.sequence_number,
            messages,
            emissions,
            class,
            may_block,
        }
    }

    /// Announces a sample in place of sending it.
    fn announce(
        &mut self,
        send_buffer: &mut WriterSendBuffer,
        sequence_number: SequenceNumber,
    ) -> (step: PendingStep)
        requires
            old(self).wf(),
            old(send_buffer).wf(),
            0 <= sequence_number@,
        ensures
            final(self).wf(),
            final(send_buffer).wf(),
            final(self).has_advanced_to(*old(self), sequence_number@),
            final(self).heartbeat_message_counter == next_count(
                old(self).heartbeat_message_counter,
            ),
            final(self).readers == old(self).readers,
            step matches PendingStep::Announce { message, emissions, woken } && {
                &&& final(send_buffer).has_sent(*old(send_buffer), sequence_number@, woken)
                &&& message@ == seq![
                    SubmessageView::Heartbeat {
                        reader: EntityId::unknown(),
                        first: old(send_buffer).first_seq@,
                        last: old(send_buffer).last_seq@,
                        count: old(self).heartbeat_message_counter,
                        final_flag: false,
                        liveliness_flag: false,
                    },
                ]
                &&& emissions@ == send_plan(
                    DeliveryMode::Multicast,
                    in_order(old(self).readers),
                    old(self).extra_unicast_destinations@,
                )
            },
    {
        let count: i32 = self.next_heartbeat_count();
        let message: Message = Message::new().heartbeat_msg(
            EntityId::unknown(),
            send_buffer.first_change_sequence_number(),
            send_buffer.last_change_sequence_number(),
            count,
            false,
            false,
        );
        let emissions: Vec<Emission> = plan_for_all(
            DeliveryMode::Multicast,
            &self.readers,
            &self.extra_unicast_destinations,
        );
        self.last_sent = sequence_number;
        self.sample_cursor = SampleCursor::Fresh;
        let woken: Option<Vec<WakerId>> = send_buffer.set_sent_frontier(sequence_number);
        PendingStep::Announce { message, emissions, woken }
    }

    /// One step towards having sent everything.
    pub fn process_pending(&mut self, send_buffer: &mut WriterSendBuffer) -> (r: PendingStep)
        requires
            old(self).wf(),
            old(send_buffer).wf(),
            old(send_buffer).last_seq@ < i64::MAX,
            old(self).sample_cursor matches SampleCursor::Frag(n) ==> n@ >= 1,
        ensures
            final(self).wf(),
            final(send_buffer).wf(),
            is_pending_step(
                *old(self),
                *old(send_buffer),
                *final(self),
                *final(send_buffer),
                r,
            ),
            r matches PendingStep::Batch(plan) ==> is_message_of(
                plan.message@,
                *old(self),
                *old(send_buffer),
                old(self).last_sent@ + 1,
                plan.last_seq@,
            ),
    {
        let last_available: SequenceNumber = send_buffer.last_change_sequence_number();
        if self.last_sent.value >= last_available.value {
            return PendingStep::Idle;
        }
        let sequence_number: SequenceNumber = self.last_sent.plus_1();
        if self.push_mode && self.sample_cursor == SampleCursor::Fresh && !self.security {
            match self.try_send_aggregated_batch(send_buffer, sequence_number, last_available) {
                Some(plan) => {
                    proof {
                        law_batch_says_what_was_written(
                            *old(self),
                            *old(send_buffer),
                            *self,
                            *send_buffer,
                            plan,
                        );
                    }
                    return PendingStep::Batch(plan);
                },
                None => {},
            }
        }
        let cc: &CacheChange = match send_buffer.changes.get(&sequence_number) {
            Some(cc) => cc,
            None => {
                let woken: Option<Vec<WakerId>> = self.pass_over(send_buffer, sequence_number);
                return PendingStep::Skipped { woken };
            },
        };
        let single: Option<GUID> = cc.write_options.to_single_reader();
        let cursor: SampleCursor = self.sample_cursor;
        if cursor == SampleCursor::Fresh && !self.like_stateless {
            notify_all(&mut self.readers, sequence_number, single);
        }
        assert(readers_notified(*old(self), self.readers@, sequence_number@, single));
        assert(self.readers@.dom() == old(self).readers@.dom());
        if self.push_mode {
            let target: Option<&RtpsReaderProxy> = match single {
                Some(guid) => match self.readers.get(&guid) {
                    Some(rp) => Some(rp),
                    None => {
                        let ghost noted = self.readers@;
                        let woken: Option<Vec<WakerId>> = self.pass_over(
                            send_buffer,
                            sequence_number,
                        );
                        assert(readers_marked(
                            old(self).like_stateless,
                            noted,
                            self.readers@,
                            sequence_number@,
                        ));
                        return PendingStep::Skipped { woken };
                    },
                },
                None => None,
            };
            PendingStep::Sample(self.plan_sample(cc, target, cursor))
        } else {
            self.announce(send_buffer, sequence_number)
        }
    }

    /// Goes on from the report on a sample that was sent on its own.
    pub fn finish_sample(
        &mut self,
        send_buffer: &mut WriterSendBuffer,
        sequence_number: SequenceNumber,
        may_block: bool,
        progress: SendProgress,
    ) -> (r: Continuation)
        requires
            old(self).wf(),
            old(send_buffer).wf(),
            0 <= sequence_number@,
        ensures
            final(self).wf(),
            final(send_buffer).wf(),
            is_sample_end(
                *old(self),
                *old(send_buffer),
                sequence_number,
                may_block,
                progress,
                *final(self),
                *final(send_buffer),
                r,
            ),
    {
        match progress {
            SendProgress::Blocked { cursor, blocked } => {
                if may_block {
                    self.sample_cursor = cursor;
                    add_sockets(&mut self.blocked_sockets, &blocked);
                    return Continuation::Stop;
                }
            },
            SendProgress::Complete => {},
        }
        self.last_sent = sequence_number;
        self.sample_cursor = SampleCursor::Fresh;
        let woken: Option<Vec<WakerId>> = send_buffer.set_sent_frontier(sequence_number);
        self.mark_change_sent_to_all_readers(sequence_number);
        Continuation::GoOn { woken }
    }

    /// Hands out the sockets that could not take what was last sent, in order.
    pub fn take_blocked_sockets(&mut self) -> (sockets: Vec<SocketId>)
        ensures
            sockets@ == old(self).blocked_sockets.keys(),
            old(self).blocked_sockets.listed(),
            final(self).blocked_sockets@ == Map::<int, ()>::empty(),
            *final(self) == (Writer {
                blocked_sockets: final(self).blocked_sockets,
                ..*old(self)
            }),
    {
        let sockets: Vec<SocketId> = self.blocked_sockets.key_list();
        self.blocked_sockets = SortedMap::new();
        sockets
    }
}

/// `step` is what is to be done next, and `after` and `buffer_after` are what comes of
/// deciding it.
pub open spec fn is_pending_step(
    before: Writer,
    buffer: WriterSendBuffer,
    after: Writer,
    buffer_after: WriterSendBuffer,
    step: PendingStep,
) -> bool {
    let sn = before.last_sent@ + 1;
    let idle = before.last_sent@ >= buffer.last_seq@;
    let present = buffer.changes@.contains_key(sn);
    let cc = buffer.changes@[sn];
    let single = cc.write_options.to_single_reader;
    let batch = before.sends_batch(buffer);
    &&& step is Idle <==> idle
    &&& step is Batch <==> !idle && batch
    &&& step is Announce <==> !idle && present && !before.push_mode
    &&& step is Sample <==> !idle && present && before.push_mode && !batch && before.deliverable(cc)
    &&& step is Skipped <==> !idle && (!present || (before.push_mode && !batch
        && !before.deliverable(cc)))
    &&& match step {
        PendingStep::Idle => after == before && buffer_after == buffer,
        PendingStep::Batch(plan) => {
            &&& before.is_batch_plan(
                plan,
                buffer,
                sn,
                buffer.last_seq@,
            )
            &&& sn <= plan.last_seq@ <= buffer.last_seq@
            &&& after == (Writer {
                heartbeat_message_counter: if before.heartbeat_reserve() > 0 {
                    next_count(before.heartbeat_message_counter)
                } else {
                    before.heartbeat_message_counter
                },
                ..before
            })
            &&& buffer_after == buffer
        },
        PendingStep::Skipped { woken } => {
            &&& after.has_advanced_to(before, sn)
            &&& after.heartbeat_message_counter == before.heartbeat_message_counter
            &&& buffer_after.has_sent(buffer, sn, woken)
            &&& if present {
                exists|noted: Map<int, RtpsReaderProxy>|
                    readers_notified(before, noted, sn, single)
                        && #[trigger] readers_marked(
                        before.like_stateless,
                        noted,
                        after.readers@,
                        sn,
                    )
            } else {
                readers_marked(
                    before.like_stateless,
                    before.readers@,
                    after.readers@,
                    sn,
                )
            }
        },
        PendingStep::Sample(plan) => {
            &&& readers_notified(before, after.readers@, sn, single)
            &&& after == (Writer { readers: after.readers, ..before })
            &&& buffer_after == buffer
            &&& after.is_sample_plan(plan, cc, before.sample_cursor)
            &&& plan.sequence_number@ == sn
        },
        PendingStep::Announce { message, emissions, woken } => {
            &&& readers_notified(before, after.readers@, sn, single)
            &&& after.has_advanced_to(before, sn)
            &&& after.heartbeat_message_counter == next_count(
                before.heartbeat_message_counter,
            )
            &&& buffer_after.has_sent(buffer, sn, woken)
            &&& message@ == seq![
                SubmessageView::Heartbeat {
                    reader: EntityId::unknown(),
                    first: buffer.first_seq@,
                    last: buffer.last_seq@,
                    count: before.heartbeat_message_counter,
                    final_flag: false,
                    liveliness_flag: false,
                },
            ]
            &&& emissions@ == send_plan(
                DeliveryMode::Multicast,
                in_order(after.readers),
                before.extra_unicast_destinations@,
            )
        },
    }
}

/// `after`, `buffer_after` and `r` are what comes of the report on a batch.
pub open spec fn is_batch_end(
    before: Writer,
    buffer: WriterSendBuffer,
    outcome: BatchOutcome,
    after: Writer,
    buffer_after: WriterSendBuffer,
    r: Continuation,
) -> bool {
    match outcome {
        BatchOutcome::Blocked { blocked } => {
            &&& r is Stop
            &&& buffer_after == buffer
            &&& after == (Writer { blocked_sockets: after.blocked_sockets, ..before })
            &&& after.blocked_sockets@.dom() == before.blocked_sockets@.dom().union(
                socket_ranks(blocked@),
            )
        },
        BatchOutcome::Sent { last_seq } => {
            &&& r matches Continuation::GoOn { woken } && buffer_after.has_sent(
                buffer,
                last_seq@,
                woken,
            )
            &&& after == (Writer {
                last_sent: last_seq,
                sample_cursor: SampleCursor::Fresh,
                ..before
            })
        },
        BatchOutcome::Dropped { last_seq } => {
            &&& r matches Continuation::GoOn { woken } && buffer_after.has_sent(
                buffer,
                last_seq@,
                woken,
            )
            &&& after == (Writer {
                last_sent: last_seq,
                sample_cursor: SampleCursor::Fresh,
                ..before
            })
        },
    }
}

/// `after`, `buffer_after` and `r` are what comes of the report on a sample that was sent
/// on its own.
pub open spec fn is_sample_end(
    before: Writer,
    buffer: WriterSendBuffer,
    sequence_number: SequenceNumber,
    may_block: bool,
    progress: SendProgress,
    after: Writer,
    buffer_after: WriterSendBuffer,
    r: Continuation,
) -> bool {
    &&& r is Stop <==> may_block && progress is Blocked
    &&& r is Stop ==> {
        &&& buffer_after == buffer
        &&& after == (Writer {
            sample_cursor: progress->cursor,
            blocked_sockets: after.blocked_sockets,
            ..before
        })
        &&& after.blocked_sockets@.dom() == before.blocked_sockets@.dom().union(
            socket_ranks(progress->blocked@),
        )
    }
    &&& r matches Continuation::GoOn { woken } ==> {
        &&& after.has_advanced_to(before, sequence_number@)
        &&& after.heartbeat_message_counter == before.heartbeat_message_counter
        &&& buffer_after.has_sent(buffer, sequence_number@, woken)
        &&& readers_marked(
            before.like_stateless,
            before.readers@,
            after.readers@,
            sequence_number@,
        )
    }
}

/// A batch of more than one sample fits in a datagram to every reader, with room for the
/// closing HEARTBEAT.
pub proof fn law_batch_fits_the_datagram(
    writer: Writer,
    changes: Map<int, CacheChange>,
    seq: int,
    last_available: int,
    b: BatchView,
)
    requires
        0 <= b.count,
        b.count > 1 ==> b.len + writer.heartbeat_reserve() <= writer.min_datagram_payload,
    ensures
        ({
            let r = writer.batch_from(changes, seq, last_available, b);
            r.count > 1 ==> r.len + writer.heartbeat_reserve() <= writer.min_datagram_payload
        }),
    decreases last_available - seq + 1,
{
    if !(seq > last_available || !changes.contains_key(seq) || !writer.aggregatable(changes[seq])
        || !writer.fits(b, changes[seq])) {
        law_batch_fits_the_datagram(
            writer,
            changes,
            seq + 1,
            last_available,
            b.with_sample(changes[seq]),
        );
    }
}

/// A batch carries consecutive samples: as many as its last number is past its first.
pub proof fn law_batch_is_consecutive(
    writer: Writer,
    changes: Map<int, CacheChange>,
    seq: int,
    last_available: int,
    b: BatchView,
)
    requires
        forall|s: int| #[trigger] changes.contains_key(s) ==> changes[s].sequence_number@ == s,
        b.count >= 1 ==> b.last_seq == seq - 1,
    ensures
        ({
            let r = writer.batch_from(changes, seq, last_available, b);
            &&& r.count >= b.count
            &&& r.count == b.count ==> r == b
            &&& r.count > b.count ==> r.last_seq == seq + (r.count - b.count) - 1
            &&& r.count > b.count ==> forall|s: int|
                seq <= s <= r.last_seq ==> #[trigger] changes.contains_key(s)
                    && writer.aggregatable(changes[s])
        }),
    decreases last_available - seq + 1,
{
    if !(seq > last_available || !changes.contains_key(seq) || !writer.aggregatable(changes[seq])
        || !writer.fits(b, changes[seq])) {
        law_batch_is_consecutive(
            writer,
            changes,
            seq + 1,
            last_available,
            b.with_sample(changes[seq]),
        );
    }
}

/// `after` and `buffer_after` are what comes of a step once it is done, whatever the
/// sockets took of it; `stopped` tells whether sending stops.
pub open spec fn is_done(
    before: Writer,
    buffer: WriterSendBuffer,
    step: PendingStep,
    after: Writer,
    buffer_after: WriterSendBuffer,
    stopped: bool,
) -> bool {
    match step {
        PendingStep::Idle => false,
        PendingStep::Skipped { .. } => after == before && buffer_after == buffer && !stopped,
        PendingStep::Announce { .. } => after == before && buffer_after == buffer && !stopped,
        PendingStep::Batch(plan) => exists|blocked: Vec<SocketId>, r: Continuation|
            #[trigger] is_batch_end(
                before,
                buffer,
                outcome_of(plan.last_seq, plan.may_block, blocked),
                after,
                buffer_after,
                r,
            ) && stopped == r is Stop,
        PendingStep::Sample(plan) => exists|count: i32, progress: SendProgress, r: Continuation|
            #[trigger] is_sample_end(
                (Writer { heartbeat_message_counter: count, ..before }),
                buffer,
                plan.sequence_number,
                plan.may_block,
                progress,
                after,
                buffer_after,
                r,
            ) && (progress is Blocked ==> progress->blocked@.len() > 0) && stopped == r is Stop,
    }
}

/// One round of sending: a step is decided and done.
pub open spec fn is_round(
    before: Writer,
    buffer: WriterSendBuffer,
    after: Writer,
    buffer_after: WriterSendBuffer,
    stopped: bool,
) -> bool {
    exists|mid: Writer, buffer_mid: WriterSendBuffer, step: PendingStep|
        #[trigger] is_pending_step(before, buffer, mid, buffer_mid, step) && is_done(
            mid,
            buffer_mid,
            step,
            after,
            buffer_after,
            stopped,
        )
}

/// What was reported as sent is what the writer has sent.
pub open spec fn in_step(writer: Writer, buffer: WriterSendBuffer) -> bool {
    buffer.sent_frontier == writer.last_sent
}

/// May none of the samples be kept for later where a socket cannot take it?
pub open spec fn never_blocks(writer: Writer, buffer: WriterSendBuffer) -> bool {
    &&& !writer.qos_policies.spec_is_reliable()
    &&& forall|s: int| #[trigger]
        buffer.changes@.contains_key(s)
            ==> !buffer.changes@[s].write_options.best_effort_may_block
}

proof fn lemma_batch_never_blocks(
    writer: Writer,
    buffer: WriterSendBuffer,
    seq: int,
    b: BatchView,
)
    requires
        never_blocks(writer, buffer),
        !b.may_block,
    ensures
        !writer.batch_from(buffer.changes@, seq, buffer.last_seq@, b).may_block,
    decreases buffer.last_seq@ - seq + 1,
{
    let changes = buffer.changes@;
    if !(seq > buffer.last_seq@ || !changes.contains_key(seq) || !writer.aggregatable(changes[seq])
        || !writer.fits(b, changes[seq])) {
        lemma_batch_never_blocks(writer, buffer, seq + 1, b.with_sample(changes[seq]));
    }
}

proof fn lemma_some_socket(sockets: Seq<SocketId>, before: Set<int>)
    requires
        sockets.len() > 0,
    ensures
        before.union(socket_ranks(sockets)) != Set::<int>::empty(),
{
    let r = sockets[0].rank();
    assert(socket_ranks(sockets).contains(r));
    assert(before.union(socket_ranks(sockets)).contains(r));
}

/// A round either moves on, past at least one sample and never past the last, and leaves
/// no socket blocked that was not; or it stops, with a socket blocked, and moves nothing.
/// Where no sample may be kept for later it does not stop.
pub proof fn law_round_moves_on_or_blocks(
    before: Writer,
    buffer: WriterSendBuffer,
    after: Writer,
    buffer_after: WriterSendBuffer,
    stopped: bool,
)
    requires
        buffer.wf(),
        in_step(before, buffer),
        is_round(before, buffer, after, buffer_after, stopped),
    ensures
        in_step(after, buffer_after),
        buffer_after.last_seq == buffer.last_seq,
        before.last_sent@ < buffer.last_seq@,
        !stopped ==> {
            &&& before.last_sent@ < after.last_sent@ <= buffer.last_seq@
            &&& after.blocked_sockets == before.blocked_sockets
        },
        stopped ==> {
            &&& after.last_sent == before.last_sent
            &&& after.blocked_sockets@.dom() != Set::<int>::empty()
        },
        never_blocks(before, buffer) ==> !stopped,
{
    let (mid, buffer_mid, step) = choose|
        mid: Writer,
        buffer_mid: WriterSendBuffer,
        step: PendingStep,
    |
        #[trigger] is_pending_step(before, buffer, mid, buffer_mid, step) && is_done(
            mid,
            buffer_mid,
            step,
            after,
            buffer_after,
            stopped,
        );
    match step {
        PendingStep::Batch(plan) => {
            let (blocked, r) = choose|blocked: Vec<SocketId>, r: Continuation|
                #[trigger] is_batch_end(
                    mid,
                    buffer_mid,
                    outcome_of(plan.last_seq, plan.may_block, blocked),
                    after,
                    buffer_after,
                    r,
                ) && stopped == r is Stop;
            if stopped {
                lemma_some_socket(blocked@, mid.blocked_sockets@.dom());
            }
            if never_blocks(before, buffer) {
                let sn = before.last_sent@ + 1;
                lemma_batch_never_blocks(before, buffer, sn, before.empty_batch(sn));
            }
        },
        PendingStep::Sample(plan) => {
            let (count, progress, r) = choose|
                count: i32,
                progress: SendProgress,
                r: Continuation,
            |
                #[trigger] is_sample_end(
                    (Writer { heartbeat_message_counter: count, ..mid }),
                    buffer_mid,
                    plan.sequence_number,
                    plan.may_block,
                    progress,
                    after,
                    buffer_after,
                    r,
                ) && (progress is Blocked ==> progress->blocked@.len() > 0) && stopped
                    == r is Stop;
            if stopped {
                lemma_some_socket(progress->blocked@, mid.blocked_sockets@.dom());
            }
            assert(mid.last_sent == before.last_sent);
        },
        _ => {},
    }
}

/// What the application does to a buffer between two rounds: it may write more.
pub open spec fn has_grown(before: WriterSendBuffer, after: WriterSendBuffer) -> bool {
    &&& after.wf()
    &&& after.sent_frontier == before.sent_frontier
    &&& before.last_seq@ <= after.last_seq@
}

/// The states of a writer and its buffer before each round of sending and at the end,
/// which is reached when all is sent, or when a round stops.
pub open spec fn is_run(states: Seq<(Writer, WriterSendBuffer)>, stopped: bool) -> bool {
    let n = states.len() - 1;
    &&& n >= 0
    &&& states[0].1.wf()
    &&& in_step(states[0].0, states[0].1)
    &&& states[0].0.last_sent@ <= states[0].1.last_seq@
    &&& states[0].0.blocked_sockets@.dom() == Set::<int>::empty()
    &&& forall|i: int|
        0 <= i < n ==> is_link(#[trigger] states[i], states[i + 1], stopped && i == n - 1)
    &&& if stopped {
        n >= 1
    } else {
        states[n].0.last_sent@ >= states[n].1.last_seq@
    }
}

/// One round leads from a state to the next, in which the buffer may hold more.
pub open spec fn is_link(
    before: (Writer, WriterSendBuffer),
    after: (Writer, WriterSendBuffer),
    stopped: bool,
) -> bool {
    exists|b: WriterSendBuffer|
        #[trigger] is_round(before.0, before.1, after.0, b, stopped) && has_grown(b, after.1)
}

proof fn lemma_run(states: Seq<(Writer, WriterSendBuffer)>, stopped: bool, i: int)
    requires
        is_run(states, stopped),
        0 <= i < states.len(),
    ensures
        states[i].1.wf(),
        in_step(states[i].0, states[i].1),
        states[i].0.last_sent@ <= states[i].1.last_seq@,
        !(stopped && i == states.len() - 1) ==> states[i].0.blocked_sockets@.dom() == Set::<
            int,
        >::empty(),
        stopped && i == states.len() - 1 ==> states[i].0.blocked_sockets@.dom() != Set::<
            int,
        >::empty() && states[i].0.last_sent@ < states[i].1.last_seq@,
        stopped && i == states.len() - 1 ==> !never_blocks(states[i - 1].0, states[i - 1].1),
    decreases i,
{
    if i > 0 {
        lemma_run(states, stopped, i - 1);
        let last = stopped && i == states.len() - 1;
        assert(is_link(states[i - 1], states[i], last));
        let b = choose|b: WriterSendBuffer|
            #[trigger] is_round(states[i - 1].0, states[i - 1].1, states[i].0, b, last)
                && has_grown(b, states[i].1);
        law_round_moves_on_or_blocks(states[i - 1].0, states[i - 1].1, states[i].0, b, last);
    }
}

/// At the end of sending no socket is blocked exactly when every sample up to the last is
/// done with and was reported as sent. A writer none of whose samples may be kept for
/// later always comes to that.
pub proof fn law_sending_ends_done_or_blocked(
    states: Seq<(Writer, WriterSendBuffer)>,
    stopped: bool,
)
    requires
        is_run(states, stopped),
    ensures
        ({
            let (writer, buffer) = states.last();
            let all_sent = writer.last_sent == buffer.last_seq && buffer.sent_frontier
                == buffer.last_seq;
            &&& writer.blocked_sockets@.dom() == Set::<int>::empty() <==> all_sent
            &&& (forall|i: int|
                0 <= i < states.len() ==> never_blocks(
                    (#[trigger] states[i]).0,
                    states[i].1,
                )) ==> all_sent
        }),
{
    let n = states.len() - 1;
    lemma_run(states, stopped, n);
    if stopped {
        assert(!never_blocks(states[n - 1].0, states[n - 1].1));
    }
}

/// A batch with the samples from `first` to below `seq`, as its message is read.
spec fn is_batch_so_far(
    b: BatchView,
    changes: Map<int, CacheChange>,
    first: int,
    seq: int,
) -> bool {
    &&& b.count == seq - first
    &&& b.count >= 0
    &&& b.count > 0 ==> b.last_seq == seq - 1
    &&& b.len == RTPS_HEADER_SIZE + parts_len(b.parts, changes)
    &&& b.ts_active == stamp_at(b.parts, b.parts.len() as int) is Some
    &&& well_stamped(b.parts, changes)
    &&& samples_in(b.parts) == run_of_numbers(first, seq - 1)
    &&& forall|i: int| 0 <= i < b.parts.len() ==> !(#[trigger] b.parts[i] is Heartbeat)
}

proof fn lemma_sample_parts(cc: CacheChange, ts_active: bool, changes: Map<int, CacheChange>)
    requires
        changes.contains_key(cc.sequence_number@),
        changes[cc.sequence_number@] == cc,
    ensures
        ({
            let parts = sample_parts(cc, ts_active);
            let n = parts.len() as int;
            &&& 1 <= n <= 2
            &&& samples_in(parts) == seq![cc.sequence_number@]
            &&& parts_len(parts, changes) == sample_parts_len(cc, ts_active)
            &&& sample_of(parts[n - 1]) == Some(cc.sequence_number@)
            &&& n == 2 ==> parts[0] == SubmessageView::InfoTimestamp(
                cc.write_options.source_timestamp,
            )
            &&& n == 1 ==> cc.write_options.source_timestamp is None && !ts_active
            &&& forall|i: int| 0 <= i < n ==> !(#[trigger] parts[i] is Heartbeat)
        }),
{
    let parts = sample_parts(cc, ts_active);
    let n = parts.len() as int;
    let head = parts.drop_last();
    assert(parts.last() == parts[n - 1]);
    if n == 2 {
        assert(head.last() == parts[0]);
        assert(head.drop_last() =~= Seq::empty());
    } else {
        assert(head =~= Seq::empty());
    }
    reveal_with_fuel(samples_in, 3);
    reveal_with_fuel(parts_len, 3);
    assert(samples_in(parts) =~= seq![cc.sequence_number@]);
}

proof fn lemma_batch_grows(
    b: BatchView,
    changes: Map<int, CacheChange>,
    first: int,
    seq: int,
)
    requires
        is_batch_so_far(b, changes, first, seq),
        changes.contains_key(seq),
        changes[seq].sequence_number@ == seq,
    ensures
        is_batch_so_far(b.with_sample(changes[seq]), changes, first, seq + 1),
{
    let cc = changes[seq];
    let more = sample_parts(cc, b.ts_active);
    let r = b.with_sample(cc);
    let k = b.parts.len() as int;
    let n = r.parts.len() as int;
    lemma_sample_parts(cc, b.ts_active, changes);
    lemma_samples_in_two(b.parts, more);
    lemma_parts_len_of_two(b.parts, more, changes);
    assert(run_of_numbers(first, seq - 1) + seq![seq] =~= run_of_numbers(first, seq));
    lemma_stamp_of_part(b.parts, more, k);
    assert(r.parts[k] == more[0]);
    assert(r.parts[n - 1] == more[more.len() - 1]);
    reveal_with_fuel(stamp_at, 3);
    assert(stamp_at(r.parts, n - 1) == cc.write_options.source_timestamp);
    assert forall|i: int|
        0 <= i < n implies (sample_of(#[trigger] r.parts[i]) matches Some(sn)
        ==> changes.contains_key(sn) && stamp_at(r.parts, i)
        == changes[sn].write_options.source_timestamp) by {
        if i < k {
            assert(r.parts[i] == b.parts[i]);
            lemma_stamp_of_part(b.parts, more, i);
        }
    }
    assert forall|i: int| 0 <= i < n implies !(#[trigger] r.parts[i] is Heartbeat) by {
        if i < k {
            assert(r.parts[i] == b.parts[i]);
        } else {
            assert(r.parts[i] == more[i - k]);
        }
    }
}

proof fn lemma_batch(
    writer: Writer,
    changes: Map<int, CacheChange>,
    first: int,
    seq: int,
    last_available: int,
    b: BatchView,
)
    requires
        forall|s: int| #[trigger] changes.contains_key(s) ==> changes[s].sequence_number@ == s,
        is_batch_so_far(b, changes, first, seq),
        seq <= last_available + 1,
        b.count > 1 ==> b.len + writer.heartbeat_reserve() <= writer.min_datagram_payload,
        forall|s: int|
            first <= s < seq ==> #[trigger] changes.contains_key(s) && writer.aggregatable(
                changes[s],
            ),
    ensures
        ({
            let r = writer.batch_from(changes, seq, last_available, b);
            let end = first + r.count;
            &&& is_batch_so_far(r, changes, first, end)
            &&& seq <= end <= last_available + 1
            &&& r.count > 1 ==> r.len + writer.heartbeat_reserve() <= writer.min_datagram_payload
            &&& forall|s: int|
                first <= s < end ==> #[trigger] changes.contains_key(s) && writer.aggregatable(
                    changes[s],
                )
            &&& end > last_available || !changes.contains_key(end) || !writer.aggregatable(
                changes[end],
            ) || !writer.fits(r, changes[end])
        }),
    decreases last_available - seq + 1,
{
    let r = writer.batch_from(changes, seq, last_available, b);
    let end = first + r.count;
    if !(seq > last_available || !changes.contains_key(seq) || !writer.aggregatable(changes[seq])
        || !writer.fits(b, changes[seq])) {
        lemma_batch_grows(b, changes, first, seq);
        lemma_batch(
            writer,
            changes,
            first,
            seq + 1,
            last_available,
            b.with_sample(changes[seq]),
        );
    } else {
        assert(first + b.count == seq);
        assert(end == seq);
    }
    assert(end > last_available || !changes.contains_key(end) || !writer.aggregatable(changes[end])
        || !writer.fits(r, changes[end]));
}

/// The message of a batch, as it is read: the samples from the first one on, each once and
/// in order, each with the timestamp that it was written with; and at the end, for a
/// reliable writer that tracks its readers, a HEARTBEAT of what the buffer retains.
pub open spec fn is_message_of(
    message: Seq<SubmessageView>,
    writer: Writer,
    buffer: WriterSendBuffer,
    first: int,
    last: int,
) -> bool {
    &&& samples_in(message) == run_of_numbers(first, last)
    &&& well_stamped(message, buffer.changes@)
    &&& heartbeats_are_true(message, buffer)
    &&& message.len() > 0
    &&& message.last() is Heartbeat <==> wants_acknowledgement(writer)
    &&& forall|i: int| 0 <= i < message.len() - 1 ==> !(#[trigger] message[i] is Heartbeat)
}

/// A batch carries the samples from the next one on, without a hole, each with the source
/// timestamp that it was written with, and what its HEARTBEAT advertises is what the buffer
/// retains. More than one sample goes into a datagram only where the whole message fits in
/// what every reader can take, and where one more would have fit, the batch has it.
pub proof fn law_batch_says_what_was_written(
    before: Writer,
    buffer: WriterSendBuffer,
    after: Writer,
    buffer_after: WriterSendBuffer,
    plan: BatchPlan,
)
    requires
        buffer.wf(),
        is_pending_step(before, buffer, after, buffer_after, PendingStep::Batch(plan)),
    ensures
        is_message_of(
            plan.message@,
            before,
            buffer,
            before.last_sent@ + 1,
            plan.last_seq@,
        ),
        before.last_sent@ < plan.last_seq@ <= buffer.last_seq@,
        plan.last_seq@ > before.last_sent@ + 1 ==> RTPS_HEADER_SIZE + parts_len(
            plan.message@,
            buffer.changes@,
        ) <= before.min_datagram_payload,
        forall|s: int|
            before.last_sent@ < s <= plan.last_seq@ ==> (
            #[trigger] buffer.changes@[s]).write_options.to_single_reader is None,
        plan.may_block <==> (before.qos_policies.reliability matches Some(
            Reliability::Reliable { .. },
        )) || exists|s: int|
            before.last_sent@ < s <= plan.last_seq@ && (
            #[trigger] buffer.changes@[s]).write_options.best_effort_may_block,
        ({
            let next = plan.last_seq@ + 1;
            let cc = buffer.changes@[next];
            let message = plan.message@;
            let heartbeat: int = if message.last() is Heartbeat {
                HEARTBEAT_SUBMESSAGE_SERIALIZED_SIZE as int
            } else {
                0
            };
            let stamp: int = if cc.write_options.source_timestamp is Some {
                INFO_TS_SIZE as int
            } else if stamp_at(message, message.len() as int) is Some {
                INFO_TS_INVALIDATE_SIZE as int
            } else {
                0
            };
            buffer.changes@.contains_key(next) && cc.write_options.to_single_reader is None
                && cc.data_value.spec_payload_size() + DATA_SUBMESSAGE_OVERHEAD + heartbeat
                <= before.min_datagram_payload ==> RTPS_HEADER_SIZE + parts_len(
                message,
                buffer.changes@,
            ) + stamp + cc.spec_data_submessage_len() > before.min_datagram_payload
        }),
{
    let changes = buffer.changes@;
    let first = before.last_sent@ + 1;
    let b = before.batch(changes, first, buffer.last_seq@);
    let start = before.empty_batch(first);
    let closing = before.batch_closing(buffer);
    let message = plan.message@;
    assert(run_of_numbers(first, first - 1) =~= Seq::empty());
    assert(is_batch_so_far(start, changes, first, first));
    lemma_batch(before, changes, first, first, buffer.last_seq@, start);
    assert(before.fits(start, changes[first]));
    assert(b.count >= 1);
    assert(message == b.parts + closing);
    lemma_samples_in_two(b.parts, closing);
    lemma_parts_len_of_two(b.parts, closing, changes);
    assert(samples_in(closing) =~= Seq::empty() && parts_len(closing, changes)
        == before.heartbeat_reserve()) by {
        reveal_with_fuel(samples_in, 2);
        reveal_with_fuel(parts_len, 2);
        if before.heartbeat_reserve() > 0 {
            assert(closing.drop_last() =~= Seq::empty());
        }
    }
    assert(samples_in(b.parts) + Seq::<int>::empty() =~= samples_in(b.parts));
    assert forall|i: int|
        0 <= i < message.len() implies (sample_of(#[trigger] message[i]) matches Some(sn)
        ==> changes.contains_key(sn) && stamp_at(message, i)
        == changes[sn].write_options.source_timestamp) by {
        if i < b.parts.len() {
            assert(message[i] == b.parts[i]);
            lemma_stamp_of_part(b.parts, closing, i);
        }
    }
    assert forall|i: int| 0 <= i < b.parts.len() implies !(#[trigger] message[i] is Heartbeat) by {
        assert(message[i] == b.parts[i]);
    }
    reveal(WriterSendBuffer::no_holes);
    if b.parts.len() == 0 {
        assert(samples_in(b.parts).len() == 0);
    }
    assert forall|s: int| first <= s <= plan.last_seq@ implies (
    #[trigger] changes[s]).write_options.to_single_reader is None by {
        assert(changes.contains_key(s));
    }
    lemma_may_block(before, buffer, first, start);
    lemma_stamp_of_part(b.parts, closing, b.parts.len() as int);
    assert(stamp_at(message, message.len() as int) == stamp_at(b.parts, b.parts.len() as int)) by {
        reveal_with_fuel(stamp_at, 2);
    }
}

/// A batch may be kept for later where the writer is reliable or one of its samples asks
/// for it.
proof fn lemma_may_block(writer: Writer, buffer: WriterSendBuffer, seq: int, b: BatchView)
    requires
        buffer.wf(),
        b.count > 0 ==> b.last_seq == seq - 1,
        b.count >= 0,
    ensures
        ({
            let r = writer.batch_from(buffer.changes@, seq, buffer.last_seq@, b);
            &&& r.count > b.count ==> r.last_seq == seq + (r.count - b.count) - 1
            &&& r.count >= b.count
            &&& r.count == b.count ==> r == b
            &&& r.may_block <==> b.may_block || exists|s: int|
                seq <= s < seq + (r.count - b.count) && (
                #[trigger] buffer.changes@[s]).write_options.best_effort_may_block
        }),
    decreases buffer.last_seq@ - seq + 1,
{
    let changes = buffer.changes@;
    let r = writer.batch_from(changes, seq, buffer.last_seq@, b);
    if !(seq > buffer.last_seq@ || !changes.contains_key(seq) || !writer.aggregatable(changes[seq])
        || !writer.fits(b, changes[seq])) {
        let more = b.with_sample(changes[seq]);
        lemma_may_block(writer, buffer, seq + 1, more);
        let n = r.count - b.count;
        if changes[seq].write_options.best_effort_may_block {
            assert(seq <= seq < seq + n);
        }
        if r.may_block && !b.may_block && !changes[seq].write_options.best_effort_may_block {
            let s = choose|s: int|
                seq + 1 <= s < seq + n && (
                #[trigger] changes[s]).write_options.best_effort_may_block;
            assert(seq <= s < seq + n);
        }
        assert forall|s: int|
            seq <= s < seq + n && (
            #[trigger] changes[s]).write_options.best_effort_may_block implies r.may_block by {
            if s > seq {
                assert(seq + 1 <= s < seq + 1 + (r.count - more.count));
            }
        }
    }
}

/// Does a reader that is sent a sample have to acknowledge it?
pub open spec fn wants_acknowledgement(writer: Writer) -> bool {
    (writer.qos_policies.reliability matches Some(Reliability::Reliable { .. }))
        && !writer.like_stateless
}

/// Which step is next follows from the next sample. One that is gone is skipped. One that
/// is retained is sent, unless it is for a single reader that is not matched; a writer that
/// does not push only announces it. Only whole samples for everybody go out in a batch, and
/// only where nothing of the first was sent yet and messages need not be encoded for each
/// reader.
pub proof fn law_next_sample_decides_the_step(
    before: Writer,
    buffer: WriterSendBuffer,
    after: Writer,
    buffer_after: WriterSendBuffer,
    step: PendingStep,
)
    requires
        is_pending_step(before, buffer, after, buffer_after, step),
    ensures
        ({
            let sn = before.last_sent@ + 1;
            let retained = buffer.changes@.contains_key(sn);
            let single = buffer.changes@[sn].write_options.to_single_reader;
            let whole = buffer.changes@[sn].data_value.spec_payload_size()
                + DATA_SUBMESSAGE_OVERHEAD + (if wants_acknowledgement(before) {
                HEARTBEAT_SUBMESSAGE_SERIALIZED_SIZE as int
            } else {
                0
            }) <= before.min_datagram_payload;
            if buffer.last_seq@ <= before.last_sent@ {
                step is Idle && after == before && buffer_after == buffer
            } else if !retained {
                step is Skipped && after.last_sent@ == sn
            } else if !before.push_mode {
                step is Announce && after.last_sent@ == sn
            } else {
                match single {
                    Some(guid) => if before.readers@.contains_key(guid.rank()) {
                        step is Sample && after.last_sent == before.last_sent
                    } else {
                        step is Skipped && after.last_sent@ == sn
                    },
                    None => {
                        &&& step is Batch || step is Sample
                        &&& after.last_sent == before.last_sent
                        &&& step is Batch ==> before.sample_cursor == SampleCursor::Fresh
                            && !before.security
                        &&& whole && before.sample_cursor == SampleCursor::Fresh
                            && !before.security ==> step is Batch
                    },
                }
            }
        }),
{
}

/// A sample that is sent on its own goes out completely from where sending had come, with
/// the timestamp that it was written with, to the one reader that it is for or to all.
/// Samples of discovery are control traffic.
pub proof fn law_sample_says_what_was_written(
    before: Writer,
    buffer: WriterSendBuffer,
    after: Writer,
    buffer_after: WriterSendBuffer,
    plan: SamplePlan,
    count: i32,
)
    requires
        buffer.wf(),
        after.readers.listed(),
        before.sample_cursor matches SampleCursor::Frag(n) ==> n@ >= 1,
        is_pending_step(before, buffer, after, buffer_after, PendingStep::Sample(plan)),
        buffer.changes@[before.last_sent@ + 1].data_value.spec_payload_size() <= u32::MAX,
    ensures
        ({
            let sn = before.last_sent@ + 1;
            let cc = buffer.changes@[sn];
            let single = cc.write_options.to_single_reader;
            let target = match single {
                Some(guid) => Some(after.readers@[guid.rank()]),
                None => None,
            };
            let budget = match target {
                Some(rp) => rp.max_datagram_payload,
                None => before.min_datagram_payload,
            };
            let size = cc.data_value.spec_payload_size();
            let whole = size == 0 || size + DATA_SUBMESSAGE_OVERHEAD + (if wants_acknowledgement(
                before,
            ) {
                HEARTBEAT_SUBMESSAGE_SERIALIZED_SIZE as int
            } else {
                0
            }) <= budget;
            &&& buffer.changes@.contains_key(sn)
            &&& plan.sequence_number@ == sn
            &&& is_sample_in(
                plan.messages.rest(buffer.first_seq@, buffer.last_seq@, count),
                cc,
                target,
                buffer,
                whole,
                before.sample_cursor,
                wants_acknowledgement(before),
            )
            &&& match target {
                Some(rp) => is_plan_for(
                    plan.emissions@,
                    DeliveryMode::Unicast,
                    seq![rp],
                    before.extra_unicast_destinations@,
                ) && is_reached(plan.emissions@, DeliveryMode::Unicast, rp),
                None => is_plan_for(
                    plan.emissions@,
                    DeliveryMode::Multicast,
                    in_order(after.readers),
                    before.extra_unicast_destinations@,
                ) && reaches_all(plan.emissions@, DeliveryMode::Multicast, after.readers@),
            }
            &&& plan.may_block <==> (before.qos_policies.reliability matches Some(
                Reliability::Reliable { .. },
            )) || cc.write_options.best_effort_may_block
            &&& plan.class is Control <==> before.my_guid.entity_id.entity_kind.spec_is_built_in()
        }),
{
    let cc = buffer.changes@[before.last_sent@ + 1];
    let target = after.sole_reader(cc);
    let extra = after.extra_unicast_destinations@;
    law_sample_goes_out_completely(
        after,
        cc,
        target,
        after.qos_policies.spec_is_reliable(),
        before.sample_cursor,
        plan.messages,
        buffer,
        count,
    );
    match target {
        Some(rp) => {
            law_plan_reaches_each_reader(DeliveryMode::Unicast, seq![rp], extra);
            assert(seq![rp][0] == rp);
        },
        None => {
            law_plan_reaches_each_reader(
                DeliveryMode::Multicast,
                in_order(after.readers),
                extra,
            );
            law_plan_reaches_all_matched(DeliveryMode::Multicast, after.readers, extra);
        },
    }
}

/// A batch goes to every reader, and to nobody else but the fixed extra destinations.
pub proof fn law_batch_reaches_every_reader(
    before: Writer,
    buffer: WriterSendBuffer,
    after: Writer,
    buffer_after: WriterSendBuffer,
    plan: BatchPlan,
)
    requires
        before.readers.listed(),
        is_pending_step(before, buffer, after, buffer_after, PendingStep::Batch(plan)),
    ensures
        reaches_all(plan.emissions@, DeliveryMode::Multicast, before.readers@),
        is_plan_for(
            plan.emissions@,
            DeliveryMode::Multicast,
            in_order(before.readers),
            before.extra_unicast_destinations@,
        ),
{
    law_plan_reaches_each_reader(
        DeliveryMode::Multicast,
        in_order(before.readers),
        before.extra_unicast_destinations@,
    );
    law_plan_reaches_all_matched(
        DeliveryMode::Multicast,
        before.readers,
        before.extra_unicast_destinations@,
    );
}

/// In place of a sample that is not pushed, every reader gets a HEARTBEAT that advertises
/// exactly what is retained, the sample among it.
pub proof fn law_announcement_advertises_the_sample(
    before: Writer,
    buffer: WriterSendBuffer,
    after: Writer,
    buffer_after: WriterSendBuffer,
    message: Message,
    emissions: Vec<Emission>,
    woken: Option<Vec<WakerId>>,
)
    requires
        buffer.wf(),
        after.readers.listed(),
        is_pending_step(
            before,
            buffer,
            after,
            buffer_after,
            (PendingStep::Announce { message, emissions, woken }),
        ),
    ensures
        message@.len() == 1,
        message@[0] matches SubmessageView::Heartbeat { reader, first, last, final_flag, .. } && {
            &&& reader == EntityId::unknown()
            &&& !final_flag
            &&& first <= before.last_sent@ + 1 <= last
        },
        heartbeats_are_true(message@, buffer),
        reaches_all(emissions@, DeliveryMode::Multicast, after.readers@),
{
    reveal(WriterSendBuffer::no_holes);
    law_plan_reaches_all_matched(
        DeliveryMode::Multicast,
        after.readers,
        before.extra_unicast_destinations@,
    );
}

/// Where sending of a sample starts at a writer that tracks its readers, each reader is to
/// be sent it, the rest of what it is to be sent staying as it is while there is room; a
/// reader that it is not for is to be told so, and nothing else about gaps changes.
pub proof fn law_readers_are_told_of_a_sample_once_it_starts(
    before: Writer,
    after: Map<int, RtpsReaderProxy>,
    sn: int,
    single: Option<GUID>,
    k: int,
)
    requires
        before.wf(),
        readers_notified(before, after, sn, single),
        before.readers@.contains_key(k),
        before.readers@[k].unsent().finite(),
    ensures
        after.contains_key(k),
        after[k].all_acked_before == before.readers@[k].all_acked_before,
        after[k].same_profile(before.readers@[k]),
        before.like_stateless || before.sample_cursor != SampleCursor::Fresh ==> after[k]
            == before.readers@[k],
        !before.like_stateless && before.sample_cursor == SampleCursor::Fresh ==> {
            let rp = before.readers@[k];
            &&& forall|s: int| #[trigger]
                after[k].gaps().contains(s) <==> rp.gaps().contains(s) || (s == sn && (
                single matches Some(guid) && guid != rp.remote_reader_guid))
            &&& rp.unsent().len() < MAX_UNSENT_CHANGES_PER_READER ==> after[k].unsent()
                == rp.unsent().insert(sn)
            &&& forall|s: int| #[trigger]
                after[k].unsent().contains(s) ==> rp.unsent().contains(s) || s == sn
        },
{
    if !before.like_stateless && before.sample_cursor == SampleCursor::Fresh {
        let rp = before.readers@[k];
        let all = rp.unsent_changes@.insert(sn, ());
        assert(is_notified(rp, after[k], sn, single));
        assert(all.dom() =~= rp.unsent().insert(sn));
        assert(forall|s: int| #[trigger]
            after[k].unsent().contains(s) ==> all.dom().contains(s));
    }
}

/// Once a sample is done with, no reader is to be sent it any more; all else that they are
/// to be sent, and the rest of what is tracked of them, stays.
pub proof fn law_done_sample_is_not_sent_again(
    like_stateless: bool,
    before: Map<int, RtpsReaderProxy>,
    after: Map<int, RtpsReaderProxy>,
    sn: int,
    k: int,
)
    requires
        readers_marked(like_stateless, before, after, sn),
        before.contains_key(k),
        !like_stateless,
    ensures
        after.contains_key(k),
        forall|s: int| #[trigger]
            after[k].unsent().contains(s) <==> before[k].unsent().contains(s) && s != sn,
        after[k].gaps() == before[k].gaps(),
        after[k].all_acked_before == before[k].all_acked_before,
        after[k].requested() == before[k].requested(),
        after[k].same_profile(before[k]),
{
    assert(is_marked_sent(before[k], after[k], sn));
}

/// After the report on a batch, sending goes on behind its last sample where the datagram
/// went out, or was not to be kept; where it is kept it is sent again as it was, once one of
/// the sockets that could not take it can.
pub proof fn law_batch_is_sent_dropped_or_kept(
    before: Writer,
    buffer: WriterSendBuffer,
    plan: BatchPlan,
    blocked: Vec<SocketId>,
    after: Writer,
    buffer_after: WriterSendBuffer,
    r: Continuation,
    id: SocketId,
)
    requires
        is_batch_end(
            before,
            buffer,
            outcome_of(plan.last_seq, plan.may_block, blocked),
            after,
            buffer_after,
            r,
        ),
    ensures
        r is Stop <==> blocked@.len() > 0 && plan.may_block,
        after.readers == before.readers,
        buffer_after.changes@ == buffer.changes@,
        r is Stop ==> {
            &&& after.last_sent == before.last_sent
            &&& after.sample_cursor == before.sample_cursor
            &&& buffer_after == buffer
            &&& blocked@.contains(id) ==> after.blocked_sockets@.contains_key(id.rank())
        },
        !(r is Stop) ==> {
            &&& after.last_sent == plan.last_seq
            &&& after.sample_cursor == SampleCursor::Fresh
            &&& after.blocked_sockets == before.blocked_sockets
            &&& buffer_after.sent_frontier@ >= plan.last_seq@
        },
{
    if r is Stop && blocked@.contains(id) {
        let i = choose|i: int| 0 <= i < blocked@.len() && blocked@[i] == id;
        assert(blocked@[i].rank() == id.rank());
        assert(socket_ranks(blocked@).contains(id.rank()));
        assert(after.blocked_sockets@.dom().contains(id.rank()));
    }
}

/// After the report on a sample, sending goes on behind it where all of it went out, or was
/// not to be kept; else it resumes with the message that could not be taken.
pub proof fn law_sample_is_sent_dropped_or_resumed(
    before: Writer,
    buffer: WriterSendBuffer,
    sequence_number: SequenceNumber,
    may_block: bool,
    progress: SendProgress,
    after: Writer,
    buffer_after: WriterSendBuffer,
    r: Continuation,
    id: SocketId,
)
    requires
        is_sample_end(
            before,
            buffer,
            sequence_number,
            may_block,
            progress,
            after,
            buffer_after,
            r,
        ),
    ensures
        buffer_after.changes@ == buffer.changes@,
        match progress {
            SendProgress::Blocked { cursor, blocked } if may_block => {
                &&& r is Stop
                &&& after.last_sent == before.last_sent
                &&& after.sample_cursor == cursor
                &&& after.readers == before.readers
                &&& buffer_after == buffer
                &&& blocked@.contains(id) ==> after.blocked_sockets@.contains_key(id.rank())
            },
            _ => {
                &&& r is GoOn
                &&& after.last_sent@ == sequence_number@
                &&& after.sample_cursor == SampleCursor::Fresh
                &&& after.blocked_sockets == before.blocked_sockets
                &&& buffer_after.sent_frontier@ >= sequence_number@
            },
        },
{
    if r is Stop && progress->blocked@.contains(id) {
        let blocked = progress->blocked@;
        let i = choose|i: int| 0 <= i < blocked.len() && blocked[i] == id;
        assert(blocked[i].rank() == id.rank());
        assert(socket_ranks(blocked).contains(id.rank()));
        assert(after.blocked_sockets@.dom().contains(id.rank()));
    }
}

} // verus!
