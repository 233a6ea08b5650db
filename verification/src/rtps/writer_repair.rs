//! Keeping the readers of a writer up to date: heartbeats, acknowledgements and repairs.

use vstd::prelude::*;

use crate::dds::qos::{QosPolicies, QosPolicyId, Reliability};
use crate::rtps::constant::FRAGMENT_SIZE;
use crate::rtps::fragmentation::{
    is_sample_in, law_sample_goes_out_completely, lemma_left_is_the_rest, FragmentationIter,
};
use crate::rtps::message::{
    numbers_of, Message, SubmessageView, HEARTBEAT_SUBMESSAGE_SERIALIZED_SIZE,
};
use crate::rtps::message_walk::{
    advertises, heartbeat_count, heartbeats_are_true, lemma_one_message, lemma_one_part,
    sample_of, samples_in, stamp_at, times_carried, times_in_message,
};
use crate::rtps::rtps_reader_proxy::{
    lemma_bits_needed, names_fragment, next_set, some_bit, with_frags_set, AckNack,
    AckSubmessage, FragBitVecIterator, NackFrag, Progress, RtpsReaderProxy,
};
use crate::rtps::send_plan::{
    in_order, is_reached, law_plan_reaches_all_matched, law_plan_reaches_each_reader,
    lemma_place, plan_for_all, plan_for_one, send_plan, DeliveryMode, Emission,
};
use crate::rtps::writer::{
    is_acked_by_all, is_cleaned, law_cleaning_keeps_the_history,
    law_every_reliable_reader_has_to_acknowledge, next_count, num_frags_of, SampleCursor,
    TimedEvent, TimerRequest, Writer, DATA_SUBMESSAGE_OVERHEAD,
};
use crate::rtps::writer_send_buffer::{WakerId, WriterSendBuffer};
use crate::structure::bits::bits_of;
use crate::structure::cache_change::CacheChange;
use crate::structure::guid::{EntityId, GuidPrefix, GUID};
use crate::structure::locator::Locator;
use crate::structure::sequence_number::{FragmentNumber, SequenceNumber};
use crate::structure::sorted_map::{lemma_has_minimum, SortKey};
use crate::structure::time::{Duration, Timestamp};

verus! {

/// A count with how much it has changed.
#[derive(Clone, Copy, Debug, PartialEq, Eq, Structural)]
pub struct CountWithChange {
    pub count: i32,
    pub change: i32,
}

/// What a data writer hears about its readers.
#[derive(Clone, Copy, Debug, PartialEq, Eq, Structural)]
pub enum DataWriterStatus {
    /// A reader was matched or lost.
    PublicationMatched {
        /// Matches ever.
        total: CountWithChange,
        /// Matches at present.
        current: CountWithChange,
        reader: GUID,
    },
    /// A reader asks for policies that the writer does not offer.
    OfferedIncompatibleQos {
        count: CountWithChange,
        last_policy_id: QosPolicyId,
        reader: GUID,
        requested_qos: QosPolicies,
        offered_qos: QosPolicies,
    },
}

/// What a participant hears about the readers of its writers.
#[derive(Clone, Copy, Debug, PartialEq, Eq, Structural)]
pub enum ParticipantStatusEvent {
    RemoteReaderMatched { local_writer: GUID, remote_reader: GUID },
    RemoteReaderQosIncompatible {
        local_writer: GUID,
        remote_reader: GUID,
        requested_qos: QosPolicies,
        offered_qos: QosPolicies,
    },
}

/// Something that a writer wants done.
pub enum WriterAction {
    /// Send a message to one reader, or to all where none is named; it must not be dropped.
    Send { message: Message, to: Option<GUID>, emissions: Vec<Emission> },
    /// Deliver an event later.
    SetTimer(TimerRequest),
    /// Wake tasks.
    Wake(Vec<WakerId>),
    /// Tell the data writer.
    Status(DataWriterStatus),
    /// Tell the participant.
    ParticipantStatus(ParticipantStatusEvent),
    /// Tell the security plugins that nothing is encoded for a reader any more.
    UnregisterReader(GUID),
}

/// Something that a writer wants done, in terms of what it says.
#[verifier::ext_equal]
pub enum ActionView {
    Send { message: Seq<SubmessageView>, to: Option<GUID>, emissions: Seq<Emission> },
    SetTimer(TimerRequest),
    Wake(Seq<WakerId>),
    Status(DataWriterStatus),
    ParticipantStatus(ParticipantStatusEvent),
    UnregisterReader(GUID),
}

impl View for WriterAction {
    type V = ActionView;

    open spec fn view(&self) -> ActionView {
        match self {
            WriterAction::Send { message, to, emissions } => ActionView::Send {
                message: message@,
                to: *to,
                emissions: emissions@,
            },
            WriterAction::SetTimer(t) => ActionView::SetTimer(*t),
            WriterAction::Wake(w) => ActionView::Wake(w@),
            WriterAction::Status(status) => ActionView::Status(*status),
            WriterAction::ParticipantStatus(event) => ActionView::ParticipantStatus(*event),
            WriterAction::UnregisterReader(guid) => ActionView::UnregisterReader(*guid),
        }
    }
}

pub open spec fn views(actions: Seq<WriterAction>) -> Seq<ActionView> {
    actions.map_values(|a: WriterAction| a@)
}

pub(crate) fn act(actions: &mut Vec<WriterAction>, action: WriterAction)
    ensures
        views(final(actions)@) == views(old(actions)@).push(action@),
{
    actions.push(action);
    assert(views(actions@) =~= views(old(actions)@).push(action@));
}

/// What one reader that is behind is sent alone.
pub open spec fn heartbeats_to_behind(
    readers: Seq<RtpsReaderProxy>,
    last_change: int,
    message: Seq<SubmessageView>,
    extra: Seq<Locator>,
) -> Seq<ActionView>
    decreases readers.len(),
{
    if readers.len() == 0 {
        Seq::empty()
    } else {
        let before = heartbeats_to_behind(readers.drop_last(), last_change, message, extra);
        let rp = readers.last();
        if last_change < rp.all_acked_before@ {
            before
        } else {
            before.push(
                ActionView::Send {
                    message,
                    to: Some(rp.remote_reader_guid),
                    emissions: send_plan(DeliveryMode::Unicast, seq![rp], extra),
                },
            )
        }
    }
}

impl Writer {
    /// Has some reader not acknowledged everything?
    pub open spec fn readers_behind(self, buffer: WriterSendBuffer) -> bool {
        exists|k: int| #[trigger]
            self.readers@.contains_key(k) && buffer.last_seq@ >= self.readers@[k].all_acked_before@
    }

    /// What a HEARTBEAT says that is sent on its own.
    pub open spec fn heartbeat_message(
        self,
        buffer: WriterSendBuffer,
        now: Timestamp,
        liveliness_flag: bool,
    ) -> Seq<SubmessageView> {
        seq![
            SubmessageView::InfoTimestamp(Some(now)),
            SubmessageView::Heartbeat {
                reader: EntityId::unknown(),
                first: buffer.first_seq@,
                last: buffer.last_seq@,
                count: self.heartbeat_message_counter,
                final_flag: false,
                liveliness_flag,
            },
        ]
    }

    /// Does a heartbeat go out? Not where every reader has everything, and never from a
    /// writer without state.
    pub open spec fn heartbeat_due(self, buffer: WriterSendBuffer) -> bool {
        !self.like_stateless && self.readers_behind(buffer)
    }

    /// What is sent when a heartbeat is due. The writer of the key exchange must not send
    /// to several readers at once.
    pub open spec fn heartbeat_actions(
        self,
        buffer: WriterSendBuffer,
        now: Timestamp,
        liveliness_flag: bool,
    ) -> Seq<ActionView> {
        let message = self.heartbeat_message(buffer, now, liveliness_flag);
        if !self.heartbeat_due(buffer) {
            Seq::empty()
        } else if self.my_guid.entity_id
            == EntityId::p2p_builtin_participant_volatile_secure_writer() {
            heartbeats_to_behind(
                in_order(self.readers),
                buffer.last_seq@,
                message,
                self.extra_unicast_destinations@,
            )
        } else {
            seq![
                ActionView::Send {
                    message,
                    to: None,
                    emissions: send_plan(
                        DeliveryMode::Multicast,
                        in_order(self.readers),
                        self.extra_unicast_destinations@,
                    ),
                },
            ]
        }
    }

    fn some_reader_behind(&self, last_change: SequenceNumber) -> (r: bool)
        ensures
            r == (exists|k: int| #[trigger]
                self.readers@.contains_key(k) && last_change@
                    >= self.readers@[k].all_acked_before@),
    {
        let n: usize = self.readers.len();
        let mut i: usize = 0;
        while i < n
            invariant
                i <= n,
                n == self.readers.keys().len(),
                self.readers.listed(),
                forall|j: int|
                    0 <= j < i ==> last_change@ < self.readers@[(
                    #[trigger] self.readers.keys()[j]).rank()].all_acked_before@,
            decreases n - i,
        {
            let rp: &RtpsReaderProxy = self.readers.value_at(i);
            if last_change.value >= rp.all_acked_before.value {
                assert(self.readers@.contains_key(self.readers.keys()[i as int].rank()));
                return true;
            }
            i += 1;
        }
        assert forall|k: int| #[trigger] self.readers@.contains_key(k) implies last_change@
            < self.readers@[k].all_acked_before@ by {
            let j = choose|j: int|
                0 <= j < self.readers.keys().len() && (#[trigger] self.readers.keys()[j]).rank()
                    == k;
            assert(last_change@ < self.readers@[self.readers.keys()[j].rank()].all_acked_before@);
        }
        false
    }

    /// Prompts the readers that are behind. Gives whether any is.
    pub fn handle_heartbeat_tick(
        &mut self,
        send_buffer: &WriterSendBuffer,
        is_manual_assertion: bool,
        now: Timestamp,
    ) -> (r: (bool, Vec<WriterAction>))
        ensures
            r.0 == old(self).heartbeat_due(*send_buffer),
            views(r.1@) == old(self).heartbeat_actions(*send_buffer, now, is_manual_assertion),
            send_buffer.wf() ==> is_prompting(
                views(r.1@),
                *old(self),
                *send_buffer,
                now,
                is_manual_assertion,
            ),
            *final(self) == (Writer {
                heartbeat_message_counter: if r.0 {
                    next_count(old(self).heartbeat_message_counter)
                } else {
                    old(self).heartbeat_message_counter
                },
                ..*old(self)
            }),
    {
        let mut actions: Vec<WriterAction> = Vec::new();
        assert(views(actions@) =~= Seq::empty());
        let n: usize = self.readers.len();
        proof {
            if send_buffer.wf() {
                law_heartbeats_prompt_whoever_is_behind(
                    *self,
                    *send_buffer,
                    now,
                    is_manual_assertion,
                );
            }
        }
        if self.like_stateless {
            return (false, actions);
        }
        let first_change: SequenceNumber = send_buffer.first_change_sequence_number();
        let last_change: SequenceNumber = send_buffer.last_change_sequence_number();
        if !self.some_reader_behind(last_change) {
            return (false, actions);
        }
        let count: i32 = self.next_heartbeat_count();
        let ghost text = old(self).heartbeat_message(*send_buffer, now, is_manual_assertion);
        if self.entity_id() == EntityId::p2p_builtin_participant_volatile_secure_writer() {
            let ghost all = in_order(self.readers);
            let ghost extra = self.extra_unicast_destinations@;
            let mut i: usize = 0;
            while i < n
                invariant
                    i <= n,
                    n == self.readers.keys().len(),
                    all == in_order(self.readers),
                    extra == self.extra_unicast_destinations@,
                    last_change == send_buffer.last_seq,
                    first_change == send_buffer.first_seq,
                    count == old(self).heartbeat_message_counter,
                    text == old(self).heartbeat_message(*send_buffer, now, is_manual_assertion),
                    views(actions@) == heartbeats_to_behind(
                        all.take(i as int),
                        last_change@,
                        text,
                        extra,
                    ),
                decreases n - i,
            {
                let rp: &RtpsReaderProxy = self.readers.value_at(i);
                i += 1;
                proof {
                    assert(all.take(i as int).drop_last() =~= all.take(i - 1));
                    assert(all.take(i as int).last() == *rp);
                }
                if last_change.value >= rp.all_acked_before.value {
                    let message: Message = Message::new().ts_msg(Some(now)).heartbeat_msg(
                        EntityId::unknown(),
                        first_change,
                        last_change,
                        count,
                        false,
                        is_manual_assertion,
                    );
                    assert(message@ =~= text);
                    let emissions: Vec<Emission> = plan_for_one(
                        DeliveryMode::Unicast,
                        rp,
                        &self.extra_unicast_destinations,
                    );
                    let to: Option<GUID> = Some(rp.remote_reader_guid);
                    act(&mut actions, WriterAction::Send { message, to, emissions });
                }
            }
            assert(all.take(i as int) =~= all);
        } else {
            let message: Message = Message::new().ts_msg(Some(now)).heartbeat_msg(
                EntityId::unknown(),
                first_change,
                last_change,
                count,
                false,
                is_manual_assertion,
            );
            assert(message@ =~= text);
            let emissions: Vec<Emission> = plan_for_all(
                DeliveryMode::Multicast,
                &self.readers,
                &self.extra_unicast_destinations,
            );
            act(&mut actions, WriterAction::Send { message, to: None, emissions });
            assert(views(actions@) =~= old(self).heartbeat_actions(
                *send_buffer,
                now,
                is_manual_assertion,
            ));
        }
        (true, actions)
    }
}

/// `u` is the smallest number in the set.
pub open spec fn is_lowest(set: Set<int>, u: int) -> bool {
    set.contains(u) && forall|s: int| #[trigger] set.contains(s) ==> u <= s
}

pub open spec fn lowest(set: Set<int>) -> int {
    choose|u: int| is_lowest(set, u)
}

/// What a reader gets that has a sample to be sent to it.
pub enum Remedy {
    /// There is nothing to be sent.
    Nothing,
    /// The sample is older than what is retained.
    TooOld,
    /// The sample is not for this reader.
    Withheld,
    /// The sample is sent.
    Resend,
    /// The sample is gone.
    Missing,
}

pub open spec fn remedy_for(p: Progress, buffer: WriterSendBuffer) -> Remedy {
    let u = lowest(p.unsent);
    if p.unsent == Set::<int>::empty() {
        Remedy::Nothing
    } else if u < buffer.first_seq@ {
        Remedy::TooOld
    } else if p.gaps.contains(u) {
        Remedy::Withheld
    } else if buffer.changes@.contains_key(u) {
        Remedy::Resend
    } else {
        Remedy::Missing
    }
}

/// Is this sample meant for another reader only?
pub open spec fn is_for_another(cc: CacheChange, guid: GUID) -> bool {
    cc.write_options.to_single_reader matches Some(g) && g != guid
}

impl Writer {
    /// Is the sample sent to the reader in fragments?
    pub open spec fn resent_in_fragments(self, rp: RtpsReaderProxy, cc: CacheChange) -> bool {
        &&& !is_for_another(cc, rp.remote_reader_guid)
        &&& cc.data_value.spec_payload_size() > self.max_unfragmented(Some(rp))
    }

    /// The progress of a reader after one step of its repair.
    pub open spec fn repaired(
        self,
        rp: RtpsReaderProxy,
        buffer: WriterSendBuffer,
    ) -> Progress {
        let p = rp.progress();
        let u = lowest(p.unsent);
        match remedy_for(p, buffer) {
            Remedy::Nothing => Progress { repair_mode: false, ..p },
            Remedy::TooOld => Progress {
                unsent: p.unsent.filter(|s: int| s >= buffer.first_seq@).difference(p.gaps),
                ..p
            },
            Remedy::Withheld => Progress { unsent: p.unsent.difference(p.gaps), ..p },
            Remedy::Resend => {
                let cc = buffer.changes@[u];
                Progress {
                    unsent: p.unsent.remove(u),
                    requested: if self.resent_in_fragments(rp, cc) {
                        p.requested.insert(
                            u,
                            Seq::new(
                                num_frags_of(cc.data_value.spec_payload_size() as usize) as nat,
                                |i: int| true,
                            ),
                        )
                    } else {
                        p.requested
                    },
                    ..p
                }
            },
            Remedy::Missing => Progress { unsent: p.unsent.remove(u), ..p },
        }
    }

    /// Where a message goes that is for one reader.
    pub open spec fn emissions_to(self, rp: RtpsReaderProxy) -> Seq<Emission> {
        send_plan(DeliveryMode::Unicast, seq![rp], self.extra_unicast_destinations@)
    }

    /// `actions` are what one step of the repair of a reader has done.
    pub open spec fn is_repair(
        self,
        actions: Seq<ActionView>,
        rp: RtpsReaderProxy,
        buffer: WriterSendBuffer,
    ) -> bool {
        let p = rp.progress();
        let guid = rp.remote_reader_guid;
        let u = lowest(p.unsent);
        let address = SubmessageView::InfoDestination(guid.prefix);
        let gap = SubmessageView::Gap { reader_guid: guid, numbers: p.gaps };
        match remedy_for(p, buffer) {
            Remedy::Nothing => actions == Seq::<ActionView>::empty(),
            Remedy::TooOld => {
                let before = SubmessageView::GapBefore {
                    reader_guid: guid,
                    before: buffer.first_seq@,
                };
                actions == seq![
                    ActionView::Send {
                        message: if p.gaps == Set::<int>::empty() {
                            seq![address, before]
                        } else {
                            seq![address, before, gap]
                        },
                        to: Some(guid),
                        emissions: self.emissions_to(rp),
                    },
                ]
            },
            Remedy::Withheld => actions == seq![
                ActionView::Send {
                    message: seq![address, gap],
                    to: Some(guid),
                    emissions: self.emissions_to(rp),
                },
            ],
            Remedy::Missing => actions == seq![
                ActionView::Send {
                    message: seq![
                        address,
                        SubmessageView::Gap { reader_guid: guid, numbers: set![u] },
                    ],
                    to: Some(guid),
                    emissions: self.emissions_to(rp),
                },
            ],
            Remedy::Resend => {
                let cc = buffer.changes@[u];
                let timer = ActionView::SetTimer(
                    TimerRequest {
                        after: self.repairfrags_continue_delay,
                        event: TimedEvent::SendRepairFrags { to_reader: guid },
                    },
                );
                if is_for_another(cc, guid) {
                    actions == Seq::<ActionView>::empty()
                } else {
                    exists|it: FragmentationIter|
                        #[trigger] it.is_start(self, cc, Some(rp), false, SampleCursor::Fresh)
                            && actions == sends(
                        it.left(),
                        rp.remote_reader_guid,
                        self.emissions_to(rp),
                    ) + (
                        if self.resent_in_fragments(rp, cc) {
                            seq![timer]
                        } else {
                            Seq::empty()
                        })
                }
            },
        }
    }

    /// One step of the repair of a reader that has samples to be sent to it: the lowest of
    /// them is sent, or the reader is told that it will not get it.
    fn handle_repair_data_send_worker(
        &self,
        send_buffer: &WriterSendBuffer,
        reader_proxy: &mut RtpsReaderProxy,
    ) -> (actions: Vec<WriterAction>)
        requires
            send_buffer.wf(),
        ensures
            final(reader_proxy).same_profile(*old(reader_proxy)),
            final(reader_proxy).progress() == self.repaired(*old(reader_proxy), *send_buffer),
            self.is_repair(views(actions@), *old(reader_proxy), *send_buffer),
    {
        let mut actions: Vec<WriterAction> = Vec::new();
        assert(views(actions@) =~= Seq::empty());
        let ghost start = *reader_proxy;
        let ghost p = start.progress();
        let reader_guid: GUID = reader_proxy.remote_reader_guid;
        let unsent_sn: SequenceNumber = match reader_proxy.first_unsent_change() {
            None => {
                reader_proxy.repair_mode = false;
                assert(reader_proxy.progress() =~= self.repaired(start, *send_buffer));
                return actions;
            },
            Some(sn) => sn,
        };
        proof {
            lemma_lowest(p.unsent, unsent_sn@);
            assert(p.unsent.contains(unsent_sn@));
            assert(p.unsent != Set::<int>::empty());
        }
        let emissions: Vec<Emission> = plan_for_one(
            DeliveryMode::Unicast,
            reader_proxy,
            &self.extra_unicast_destinations,
        );
        let first_available: SequenceNumber = send_buffer.first_change_sequence_number();
        let too_old: bool = unsent_sn.value < first_available.value;
        let withheld: bool = reader_proxy.pending_gap.contains_key(&unsent_sn);
        if too_old || withheld {
            let gap_list: Vec<SequenceNumber> = reader_proxy.get_pending_gap();
            let no_gaps: bool = gap_list.len() == 0;
            proof {
                if no_gaps {
                    assert(p.gaps =~= Set::empty());
                } else {
                    assert(p.gaps.contains(gap_list@[0]@));
                }
            }
            let mut message: Message = Message::new().dst_submessage(reader_guid.prefix);
            if too_old {
                message = message.gap_msg_before(first_available, reader_guid);
                reader_proxy.remove_from_unsent_set_all_before(first_available);
            }
            if !no_gaps {
                mark_list_sent(reader_proxy, &gap_list);
                message = message.gap_msg(gap_list, reader_guid);
            }
            act(&mut actions, WriterAction::Send { message, to: Some(reader_guid), emissions });
            proof {
                let address = SubmessageView::InfoDestination(reader_guid.prefix);
                let gap = SubmessageView::Gap { reader_guid, numbers: p.gaps };
                let before = SubmessageView::GapBefore { reader_guid, before: first_available@ };
                if too_old {
                    if no_gaps {
                        assert(message@ =~= seq![address, before]);
                    } else {
                        assert(message@ =~= seq![address, before, gap]);
                    }
                } else {
                    assert(message@ =~= seq![address, gap]);
                }
                assert(reader_proxy.progress() =~= self.repaired(start, *send_buffer));
                assert(views(actions@) =~= seq![
                    ActionView::Send {
                        message: message@,
                        to: Some(reader_guid),
                        emissions: self.emissions_to(start),
                    },
                ]);
            }
            return actions;
        }
        match send_buffer.changes.get(&unsent_sn) {
            Some(cc) => {
                let for_another: bool = match cc.write_options.to_single_reader() {
                    Some(g) => g != reader_guid,
                    None => false,
                };
                if !for_another {
                    let it: FragmentationIter = FragmentationIter::new_resume(
                        self,
                        cc,
                        Some(reader_proxy),
                        false,
                        SampleCursor::Fresh,
                    );
                    let data_was_fragmented: bool = it.fragmentation_needed();
                    let ghost first = it;
                    let messages: Vec<Message> = it.drain(send_buffer);
                    send_all(&mut actions, messages, reader_guid, &emissions);
                    assert(views(actions@) =~= sends(
                        first.left(),
                        reader_guid,
                        self.emissions_to(start),
                    ));
                    if data_was_fragmented {
                        let (num_frags, _frag_size): (u32, u16) = self.num_frags_and_frag_size(
                            cc.data_value.payload_size(),
                        );
                        reader_proxy.mark_all_frags_requested(unsent_sn, num_frags);
                        act(
                            &mut actions,
                            WriterAction::SetTimer(
                                TimerRequest {
                                    after: self.repairfrags_continue_delay,
                                    event: TimedEvent::SendRepairFrags { to_reader: reader_guid },
                                },
                            ),
                        );
                    }
                    assert(first.is_start(*self, *cc, Some(start), false, SampleCursor::Fresh));
                    assert(views(actions@) =~= sends(
                        first.left(),
                        reader_guid,
                        self.emissions_to(start),
                    ) + (
                    if self.resent_in_fragments(start, *cc) {
                        seq![
                            ActionView::SetTimer(
                                TimerRequest {
                                    after: self.repairfrags_continue_delay,
                                    event: TimedEvent::SendRepairFrags { to_reader: reader_guid },
                                },
                            ),
                        ]
                    } else {
                        Seq::empty()
                    }));
                }
                reader_proxy.mark_change_sent(unsent_sn);
                assert(reader_proxy.progress() =~= self.repaired(start, *send_buffer));
            },
            None => {
                let mut numbers: Vec<SequenceNumber> = Vec::new();
                numbers.push(unsent_sn);
                reader_proxy.mark_change_sent(unsent_sn);
                let message: Message = Message::new().dst_submessage(reader_guid.prefix).gap_msg(
                    numbers,
                    reader_guid,
                );
                act(&mut actions, WriterAction::Send { message, to: Some(reader_guid), emissions });
                proof {
                    assert(numbers@[0] == unsent_sn);
                    assert(numbers_of(numbers@) =~= set![unsent_sn@]);
                    assert(message@ =~= seq![
                        SubmessageView::InfoDestination(reader_guid.prefix),
                        SubmessageView::Gap { reader_guid, numbers: set![unsent_sn@] },
                    ]);
                    assert(reader_proxy.progress() =~= self.repaired(start, *send_buffer));
                    assert(views(actions@) =~= seq![
                        ActionView::Send {
                            message: message@,
                            to: Some(reader_guid),
                            emissions: self.emissions_to(start),
                        },
                    ]);
                }
            },
        }
        actions
    }

    /// One step of the repair of a matched reader.
    pub fn handle_repair_data_send(
        &mut self,
        send_buffer: &WriterSendBuffer,
        to_reader: GUID,
    ) -> (actions: Vec<WriterAction>)
        requires
            old(self).wf(),
            send_buffer.wf(),
        ensures
            final(self).wf(),
            *final(self) == (Writer { readers: final(self).readers, ..*old(self) }),
            ({
                let k = to_reader.rank();
                let rp = old(self).readers@[k];
                if old(self).like_stateless || !old(self).readers@.contains_key(k) {
                    &&& final(self).readers@ == old(self).readers@
                    &&& views(actions@) == Seq::<ActionView>::empty()
                } else {
                    &&& final(self).readers@.dom() == old(self).readers@.dom()
                    &&& final(self).readers@.remove(k) == old(self).readers@.remove(k)
                    &&& final(self).readers@[k].same_profile(rp)
                    &&& final(self).readers@[k].progress() == old(self).repaired(rp, *send_buffer)
                    &&& old(self).is_repair(views(actions@), rp, *send_buffer)
                }
            }),
    {
        if self.like_stateless {
            let actions: Vec<WriterAction> = Vec::new();
            assert(views(actions@) =~= Seq::empty());
            return actions;
        }
        match self.readers.remove(&to_reader) {
            None => {
                let actions: Vec<WriterAction> = Vec::new();
                assert(views(actions@) =~= Seq::empty());
                assert(self.readers@ =~= old(self).readers@);
                actions
            },
            Some(mut reader_proxy) => {
                let ghost rp = reader_proxy;
                proof {
                    GUID::lemma_rank_injective(rp.remote_reader_guid, to_reader);
                }
                let actions: Vec<WriterAction> = self.handle_repair_data_send_worker(
                    send_buffer,
                    &mut reader_proxy,
                );
                proof {
                    self.lemma_repair_ignores_readers(*old(self), views(actions@), rp, *send_buffer);
                }
                self.readers.insert(reader_proxy.remote_reader_guid, reader_proxy);
                assert(self.readers@.dom() =~= old(self).readers@.dom());
                assert(self.readers@.remove(to_reader.rank()) =~= old(self).readers@.remove(
                    to_reader.rank(),
                ));
                actions
            },
        }
    }

    /// The repair of one reader does not depend on the others.
    proof fn lemma_repair_ignores_readers(
        self,
        other: Writer,
        actions: Seq<ActionView>,
        rp: RtpsReaderProxy,
        buffer: WriterSendBuffer,
    )
        requires
            self == (Writer { readers: self.readers, ..other }),
        ensures
            self.repaired(rp, buffer) == other.repaired(rp, buffer),
            self.is_repair(actions, rp, buffer) ==> other.is_repair(actions, rp, buffer),
    {
        if self.is_repair(actions, rp, buffer) {
            let u = lowest(rp.progress().unsent);
            let cc = buffer.changes@[u];
            if remedy_for(rp.progress(), buffer) is Resend && !is_for_another(
                cc,
                rp.remote_reader_guid,
            ) {
                let timer = ActionView::SetTimer(
                    TimerRequest {
                        after: self.repairfrags_continue_delay,
                        event: TimedEvent::SendRepairFrags { to_reader: rp.remote_reader_guid },
                    },
                );
                let it = choose|it: FragmentationIter|
                    #[trigger] it.is_start(self, cc, Some(rp), false, SampleCursor::Fresh)
                        && actions == sends(
                        it.left(),
                        rp.remote_reader_guid,
                        self.emissions_to(rp),
                    ) + (
                    if self.resent_in_fragments(rp, cc) {
                        seq![timer]
                    } else {
                        Seq::empty()
                    });
                assert(it.is_start(other, cc, Some(rp), false, SampleCursor::Fresh));
            }
        }
    }
}

proof fn lemma_lowest(set: Set<int>, u: int)
    requires
        is_lowest(set, u),
    ensures
        lowest(set) == u,
{
    let l = lowest(set);
    assert(is_lowest(set, l));
    assert(set.contains(u) && set.contains(l));
}

fn numbered_from_one(numbers: &Vec<FragmentNumber>) -> (r: bool)
    ensures
        r == forall|i: int| 0 <= i < numbers@.len() ==> (#[trigger] numbers@[i])@ >= 1,
{
    let mut i: usize = 0;
    while i < numbers.len()
        invariant
            i <= numbers@.len(),
            forall|j: int| 0 <= j < i ==> (#[trigger] numbers@[j])@ >= 1,
        decreases numbers@.len() - i,
    {
        if numbers[i].value < 1 {
            assert(!(numbers@[i as int]@ >= 1));
            return false;
        }
        i += 1;
    }
    true
}

/// Sending several messages to the same reader.
pub open spec fn sends(
    messages: Seq<Seq<SubmessageView>>,
    reader: GUID,
    emissions: Seq<Emission>,
) -> Seq<ActionView> {
    messages.map_values(
        |m: Seq<SubmessageView>| ActionView::Send { message: m, to: Some(reader), emissions },
    )
}

fn copy_emissions(emissions: &Vec<Emission>) -> (copy: Vec<Emission>)
    ensures
        copy@ == emissions@,
{
    let mut copy: Vec<Emission> = Vec::new();
    let mut i: usize = 0;
    while i < emissions.len()
        invariant
            i <= emissions@.len(),
            copy@ == emissions@.take(i as int),
        decreases emissions@.len() - i,
    {
        copy.push(emissions[i]);
        i += 1;
        assert(emissions@.take(i as int) =~= emissions@.take(i - 1).push(emissions@[i - 1]));
    }
    assert(emissions@.take(i as int) =~= emissions@);
    copy
}

fn send_all(
    actions: &mut Vec<WriterAction>,
    messages: Vec<Message>,
    reader: GUID,
    emissions: &Vec<Emission>,
)
    ensures
        views(final(actions)@) == views(old(actions)@) + sends(
            messages@.map_values(|m: Message| m@),
            reader,
            emissions@,
        ),
{
    let ghost texts = messages@.map_values(|m: Message| m@);
    let ghost all = sends(texts, reader, emissions@);
    let mut rest: Vec<Message> = messages;
    let mut reversed: Vec<Message> = Vec::new();
    while rest.len() > 0
        invariant
            rest@ + reversed@.reverse() == messages@,
        decreases rest@.len(),
    {
        let ghost before = rest@;
        let ghost moved = reversed@;
        if let Some(m) = rest.pop() {
            reversed.push(m);
            proof {
                assert(reversed@.reverse() =~= seq![m] + moved.reverse());
                assert(before =~= rest@.push(m));
                assert(rest@ + reversed@.reverse() =~= before + moved.reverse());
            }
        }
    }
    assert(reversed@.reverse() =~= messages@);
    let ghost mut sent: int = 0;
    assert(all.take(0) =~= Seq::empty());
    assert(views(actions@) =~= views(old(actions)@) + all.take(0));
    while reversed.len() > 0
        invariant
            0 <= sent <= messages@.len(),
            texts == messages@.map_values(|m: Message| m@),
            all == sends(texts, reader, emissions@),
            reversed@.len() == messages@.len() - sent,
            forall|j: int|
                0 <= j < reversed@.len() ==> #[trigger] reversed@[j] == messages@[messages@.len() - 1
                    - j],
            views(actions@) == views(old(actions)@) + all.take(sent),
        decreases reversed@.len(),
    {
        let ghost last = reversed@.len() - 1;
        assert(reversed@[last] == messages@[sent]);
        if let Some(message) = reversed.pop() {
            let copy: Vec<Emission> = copy_emissions(emissions);
            act(actions, WriterAction::Send { message, to: Some(reader), emissions: copy });
            proof {
                sent = sent + 1;
                assert(all.take(sent) =~= all.take(sent - 1).push(all[sent - 1]));
                assert(views(actions@) =~= views(old(actions)@) + all.take(sent));
            }
        }
    }
    assert(all.take(sent) =~= all);
}

/// Marks all samples of a list as sent to a reader.
fn mark_list_sent(rp: &mut RtpsReaderProxy, list: &Vec<SequenceNumber>)
    ensures
        final(rp).same_profile(*old(rp)),
        final(rp).progress() == (Progress {
            unsent: old(rp).unsent().difference(numbers_of(list@)),
            ..old(rp).progress()
        }),
{
    let ghost start = *rp;
    let mut i: usize = 0;
    assert(rp.unsent() =~= start.unsent().difference(numbers_of(list@.take(0))));
    while i < list.len()
        invariant
            i <= list@.len(),
            rp.same_profile(start),
            rp.gaps() == start.gaps(),
            rp.requested() == start.requested(),
            rp.all_acked_before == start.all_acked_before,
            rp.repair_mode == start.repair_mode,
            rp.unsent() == start.unsent().difference(numbers_of(list@.take(i as int))),
        decreases list@.len() - i,
    {
        rp.mark_change_sent(list[i]);
        i += 1;
        proof {
            let shorter = list@.take(i - 1);
            let longer = list@.take(i as int);
            assert forall|s: int| #[trigger] numbers_of(longer).contains(s) <==> numbers_of(
                shorter,
            ).contains(s) || s == list@[i - 1]@ by {
                if numbers_of(shorter).contains(s) {
                    let k = choose|k: int| 0 <= k < shorter.len() && (#[trigger] shorter[k])@ == s;
                    assert(longer[k]@ == s);
                }
                if numbers_of(longer).contains(s) && s != list@[i - 1]@ {
                    let k = choose|k: int| 0 <= k < longer.len() && (#[trigger] longer[k])@ == s;
                    assert(shorter[k]@ == s);
                }
                assert(longer[i - 1] == list@[i - 1]);
            }
            assert(rp.unsent() =~= start.unsent().difference(numbers_of(longer)));
        }
    }
    assert(list@.take(i as int) =~= list@);
}

/// How many fragments are sent in one burst.
pub const MAX_REPAIR_FRAGS: usize = 8;

/// The first `n` positions at or after `from` where a bit is set.
pub open spec fn first_set(bits: Seq<bool>, from: int, n: nat) -> Seq<int>
    decreases n,
{
    if n == 0 {
        Seq::empty()
    } else {
        match next_set(bits, from) {
            None => Seq::empty(),
            Some(i) => seq![i] + first_set(bits, i + 1, (n - 1) as nat),
        }
    }
}

/// `bits` with those at the given positions cleared.
pub open spec fn cleared(bits: Seq<bool>, positions: Seq<int>) -> Seq<bool> {
    Seq::new(bits.len(), |i: int| bits[i] && !positions.contains(i))
}

/// What is asked for once the fragments at the given positions of a sample were sent.
pub open spec fn requested_after(
    requested: Map<int, Seq<bool>>,
    sn: int,
    positions: Seq<int>,
) -> Map<int, Seq<bool>> {
    let left = cleared(requested[sn], positions);
    if positions.len() == 0 {
        requested
    } else if some_bit(left) {
        requested.insert(sn, left)
    } else {
        requested.remove(sn)
    }
}

proof fn lemma_next_set(bits: Seq<bool>, from: int)
    requires
        0 <= from,
    ensures
        next_set(bits, from) matches Some(i) ==> from <= i < bits.len() && bits[i],
    decreases bits.len() - from,
{
    if from < bits.len() && !bits[from] {
        lemma_next_set(bits, from + 1);
    }
}

impl Writer {
    /// The fragments of the first sample of which any are asked for that go out next.
    pub open spec fn burst(p: Progress) -> Seq<int> {
        first_set(p.requested[lowest(p.requested.dom())], 0, MAX_REPAIR_FRAGS as nat)
    }

    /// Is there a burst to send, or to give up on? Not where nothing is asked for, nor
    /// where the sample is for another reader.
    pub open spec fn has_burst(rp: RtpsReaderProxy, buffer: WriterSendBuffer) -> bool {
        let p = rp.progress();
        let sn = lowest(p.requested.dom());
        &&& p.requested != Map::<int, Seq<bool>>::empty()
        &&& Self::burst(p).len() > 0
        &&& !(buffer.changes@.contains_key(sn) && is_for_another(
            buffer.changes@[sn],
            rp.remote_reader_guid,
        ))
    }

    /// The progress of a reader after one burst of fragments.
    pub open spec fn frags_repaired(rp: RtpsReaderProxy, buffer: WriterSendBuffer) -> Progress {
        let p = rp.progress();
        if Self::has_burst(rp, buffer) {
            Progress {
                requested: requested_after(
                    p.requested,
                    lowest(p.requested.dom()),
                    Self::burst(p),
                ),
                ..p
            }
        } else {
            p
        }
    }

    /// The message that carries one fragment that was asked for.
    pub open spec fn frag_message(cc: CacheChange, reader: EntityId, position: int) -> Seq<
        SubmessageView,
    > {
        let frag = SubmessageView::DataFrag {
            reader,
            writer_sn: cc.sequence_number@,
            start: position + 1,
            fragments: 1,
            fragment_size: FRAGMENT_SIZE as int,
            sample_size: ((cc.data_value.spec_payload_size() as usize) as u32) as int,
        };
        match cc.write_options.source_timestamp {
            Some(ts) => seq![SubmessageView::InfoTimestamp(Some(ts)), frag],
            None => seq![frag],
        }
    }

    /// What is sent in one burst of fragments. Nothing is sent of a sample that is gone.
    pub open spec fn frag_repair_actions(
        self,
        rp: RtpsReaderProxy,
        buffer: WriterSendBuffer,
    ) -> Seq<ActionView> {
        let p = rp.progress();
        let sn = lowest(p.requested.dom());
        if Self::has_burst(rp, buffer) && buffer.changes@.contains_key(sn) {
            sends(
                Self::burst(p).map_values(
                    |i: int|
                        Self::frag_message(
                            buffer.changes@[sn],
                            rp.remote_reader_guid.entity_id,
                            i,
                        ),
                ),
                rp.remote_reader_guid,
                self.emissions_to(rp),
            )
        } else {
            Seq::empty()
        }
    }

    /// One burst of fragments that a reader asked for.
    fn handle_repair_frags_send_worker(
        &self,
        send_buffer: &WriterSendBuffer,
        reader_proxy: &mut RtpsReaderProxy,
    ) -> (actions: Vec<WriterAction>)
        requires
            send_buffer.wf(),
            forall|s: int| #[trigger]
                old(reader_proxy).requested().contains_key(s) ==> old(
                    reader_proxy,
                ).requested()[s].len() < u32::MAX,
        ensures
            final(reader_proxy).same_profile(*old(reader_proxy)),
            final(reader_proxy).progress() == Self::frags_repaired(
                *old(reader_proxy),
                *send_buffer,
            ),
            views(actions@) == self.frag_repair_actions(*old(reader_proxy), *send_buffer),
    {
        let mut actions: Vec<WriterAction> = Vec::new();
        let ghost start = *reader_proxy;
        let ghost p = start.progress();
        let reader_guid: GUID = reader_proxy.remote_reader_guid;
        let emissions: Vec<Emission> = plan_for_one(
            DeliveryMode::Unicast,
            reader_proxy,
            &self.extra_unicast_destinations,
        );
        let mut it: FragBitVecIterator = reader_proxy.frags_requested_iterator();
        let ghost bits = bits_of(it.bitvec);
        let ghost sn = it.sequence_number@;
        let ghost some = p.requested != Map::<int, Seq<bool>>::empty();
        let ghost burst = first_set(bits, 0, MAX_REPAIR_FRAGS as nat);
        let ghost present = send_buffer.changes@.contains_key(sn);
        let ghost cc0 = send_buffer.changes@[sn];
        let ghost texts = |positions: Seq<int>|
            positions.map_values(|i: int| Self::frag_message(cc0, reader_guid.entity_id, i));
        proof {
            if some {
                assert forall|s: int| #[trigger] p.requested.dom().contains(s) implies sn <= s by {
                    assert(start.requested().contains_key(s));
                }
                lemma_lowest(p.requested.dom(), sn);
                assert(burst == Self::burst(p));
            }
        }
        let ghost mut done = Seq::<int>::empty();
        let mut n: usize = 0;
        assert(views(actions@) =~= Seq::empty());
        assert(burst =~= done + burst);
        assert(sends(texts(done), reader_guid, emissions@) =~= Seq::empty());
        loop
            invariant_except_break
                burst == done + first_set(
                    bits,
                    it.frag_count@ - 1,
                    (MAX_REPAIR_FRAGS - n) as nat,
                ),
            invariant
                n <= MAX_REPAIR_FRAGS,
                n == done.len(),
                send_buffer.wf(),
                start == *old(reader_proxy),
                p == start.progress(),
                some == (p.requested != Map::<int, Seq<bool>>::empty()),
                some ==> p.requested.contains_key(sn) && p.requested[sn] == bits,
                !some ==> bits == Seq::<bool>::empty(),
                bits_of(it.bitvec) == bits,
                bits.len() < u32::MAX,
                it.sequence_number@ == sn,
                it.frag_count@ >= 1,
                reader_guid == start.remote_reader_guid,
                present == send_buffer.changes@.contains_key(sn),
                cc0 == send_buffer.changes@[sn],
                emissions@ == self.emissions_to(start),
                texts == (|positions: Seq<int>|
                    positions.map_values(
                        |i: int| Self::frag_message(cc0, reader_guid.entity_id, i),
                    )),
                reader_proxy.same_profile(start),
                reader_proxy.progress() == (Progress {
                    requested: requested_after(p.requested, sn, done),
                    ..p
                }),
                forall|j: int|
                    0 <= j < done.len() ==> 0 <= #[trigger] done[j] < it.frag_count@ - 1,
                n > 0 ==> some && !(present && is_for_another(cc0, reader_guid)),
                present ==> views(actions@) == sends(texts(done), reader_guid, emissions@),
                !present ==> views(actions@) == Seq::<ActionView>::empty(),
            ensures
                burst == done || (done.len() == 0 && present && is_for_another(cc0, reader_guid)),
            decreases MAX_REPAIR_FRAGS - n,
        {
            if n >= MAX_REPAIR_FRAGS {
                assert(done + Seq::<int>::empty() =~= done);
                break ;
            }
            let ghost from = it.frag_count@ - 1;
            proof {
                lemma_next_set(bits, from);
            }
            match it.next() {
                None => {
                    assert(done + Seq::<int>::empty() =~= done);
                    break ;
                },
                Some((seq_num, frag_num)) => {
                    let ghost i = frag_num@ - 1;
                    assert(some);
                    if let Some(cache_change) = send_buffer.changes.get(&seq_num) {
                        let for_another: bool = match cache_change.write_options.to_single_reader() {
                            Some(g) => g != reader_guid,
                            None => false,
                        };
                        if for_another {
                            break ;
                        }
                        let mut message: Message = Message::new();
                        if let Some(ts) = cache_change.write_options.source_timestamp() {
                            message = message.ts_msg(Some(ts));
                        }
                        let data_size: u32 = cache_change.data_value.payload_size() as u32;
                        message = message.data_frag_msg(
                            reader_guid.entity_id,
                            cache_change.sequence_number,
                            frag_num,
                            1,
                            FRAGMENT_SIZE,
                            data_size,
                        );
                        assert(message@ =~= Self::frag_message(cc0, reader_guid.entity_id, i));
                        let copy: Vec<Emission> = copy_emissions(&emissions);
                        act(
                            &mut actions,
                            WriterAction::Send { message, to: Some(reader_guid), emissions: copy },
                        );
                        assert(sends(texts(done.push(i)), reader_guid, emissions@) =~= sends(
                            texts(done),
                            reader_guid,
                            emissions@,
                        ).push(
                            ActionView::Send {
                                message: message@,
                                to: Some(reader_guid),
                                emissions: emissions@,
                            },
                        ));
                    }
                    proof {
                        assert(!done.contains(i));
                        let left = cleared(bits, done);
                        assert(left[i]);
                        assert(some_bit(left));
                        if done.len() == 0 {
                            assert(left =~= bits);
                        }
                        assert(reader_proxy.requested().contains_key(sn));
                        assert(reader_proxy.requested()[sn] == left);
                        assert(cleared(bits, done.push(i)) =~= left.update(i, false)) by {
                            assert forall|x: int| #[trigger] done.push(i).contains(x) <==> done.contains(
                                x,
                            ) || x == i by {
                                if done.contains(x) {
                                    let k = choose|k: int| 0 <= k < done.len() && done[k] == x;
                                    assert(done.push(i)[k] == x);
                                }
                                assert(done.push(i)[done.len() as int] == i);
                            }
                        }
                    }
                    let ghost before = reader_proxy.requested();
                    reader_proxy.mark_frag_sent(seq_num, &frag_num);
                    proof {
                        let more = done.push(i);
                        assert(reader_proxy.requested() =~= requested_after(p.requested, sn, more));
                        assert(reader_proxy.progress() =~= (Progress {
                            requested: requested_after(p.requested, sn, more),
                            ..p
                        }));
                        assert(done + (seq![i] + first_set(
                            bits,
                            i + 1,
                            (MAX_REPAIR_FRAGS - n - 1) as nat,
                        )) =~= more + first_set(bits, i + 1, (MAX_REPAIR_FRAGS - n - 1) as nat));
                        done = more;
                    }
                    n += 1;
                },
            }
        }
        proof {
            if !some {
                assert(burst.len() == 0) by {
                    reveal_with_fuel(first_set, 2);
                }
                assert(done.len() == 0);
            }
            assert(reader_proxy.progress() =~= Self::frags_repaired(start, *send_buffer));
            if done.len() == 0 {
                assert(sends(texts(done), reader_guid, emissions@) =~= Seq::empty());
            }
            assert(views(actions@) =~= self.frag_repair_actions(start, *send_buffer));
        }
        actions
    }

    /// One burst of fragments that a matched reader asked for.
    pub fn handle_repair_frags_send(
        &mut self,
        send_buffer: &WriterSendBuffer,
        to_reader: GUID,
    ) -> (actions: Vec<WriterAction>)
        requires
            old(self).wf(),
            send_buffer.wf(),
            old(self).readers@.contains_key(to_reader.rank()) ==> old(
                self,
            ).readers@[to_reader.rank()].frags_numbered(),
        ensures
            final(self).wf(),
            *final(self) == (Writer { readers: final(self).readers, ..*old(self) }),
            ({
                let k = to_reader.rank();
                let rp = old(self).readers@[k];
                if old(self).like_stateless || !old(self).readers@.contains_key(k) {
                    &&& final(self).readers@ == old(self).readers@
                    &&& views(actions@) == Seq::<ActionView>::empty()
                } else {
                    &&& final(self).readers@.dom() == old(self).readers@.dom()
                    &&& final(self).readers@.remove(k) == old(self).readers@.remove(k)
                    &&& final(self).readers@[k].same_profile(rp)
                    &&& final(self).readers@[k].progress() == Self::frags_repaired(rp, *send_buffer)
                    &&& views(actions@) == old(self).frag_repair_actions(rp, *send_buffer)
                }
            }),
    {
        if self.like_stateless {
            let actions: Vec<WriterAction> = Vec::new();
            assert(views(actions@) =~= Seq::empty());
            return actions;
        }
        match self.readers.remove(&to_reader) {
            None => {
                let actions: Vec<WriterAction> = Vec::new();
                assert(views(actions@) =~= Seq::empty());
                assert(self.readers@ =~= old(self).readers@);
                actions
            },
            Some(mut reader_proxy) => {
                proof {
                    GUID::lemma_rank_injective(reader_proxy.remote_reader_guid, to_reader);
                }
                let actions: Vec<WriterAction> = self.handle_repair_frags_send_worker(
                    send_buffer,
                    &mut reader_proxy,
                );
                self.readers.insert(reader_proxy.remote_reader_guid, reader_proxy);
                assert(self.readers@.dom() =~= old(self).readers@.dom());
                assert(self.readers@.remove(to_reader.rank()) =~= old(self).readers@.remove(
                    to_reader.rank(),
                ));
                actions
            },
        }
    }
}

/// The wake-ups that are due, if any.
pub open spec fn wake_view(woken: Option<Vec<WakerId>>) -> Seq<ActionView> {
    match woken {
        Some(w) => seq![ActionView::Wake(w@)],
        None => Seq::empty(),
    }
}

pub open spec fn timer(after: Duration, event: TimedEvent) -> Seq<ActionView> {
    seq![ActionView::SetTimer(TimerRequest { after, event })]
}

/// `mid` is reader `rp` once an acknowledgement was taken in. The reader is in repair
/// unless it has everything.
pub open spec fn is_acked(
    mid: RtpsReaderProxy,
    rp: RtpsReaderProxy,
    an: AckNack,
    last_seq: int,
) -> bool {
    let p = rp.progress().acked(an, last_seq);
    &&& mid.same_profile(rp)
    &&& mid.progress() == (Progress { repair_mode: p.all_acked_before@ <= last_seq, ..p })
}

impl Writer {
    /// Is a reader of this writer repaired at once? Those of discovery are, so that
    /// discovery never waits for a timer.
    pub open spec fn repairs_at_once(self, mid: RtpsReaderProxy) -> bool {
        self.my_guid.entity_id.entity_kind.spec_is_built_in() && mid.repair_mode
    }

    /// What is done at once for a reader whose acknowledgement was taken in: a repair is
    /// scheduled, and the reader is told what it will not get.
    pub open spec fn ack_response(self, mid: RtpsReaderProxy) -> Seq<ActionView> {
        let guid = mid.remote_reader_guid;
        let schedule = if mid.repair_mode && !self.repairs_at_once(mid) {
            timer(self.nack_response_delay, TimedEvent::SendRepairData { to_reader: guid })
        } else {
            Seq::empty()
        };
        let gap = if mid.gaps() == Set::<int>::empty() {
            Seq::empty()
        } else {
            seq![
                ActionView::Send {
                    message: seq![
                        SubmessageView::Gap { reader_guid: guid, numbers: mid.gaps() },
                    ],
                    to: Some(guid),
                    emissions: self.emissions_to(mid),
                },
            ]
        };
        schedule + gap
    }

    /// `after` and `actions` are what comes of an acknowledgement.
    pub open spec fn is_ack_result(
        self,
        after: Writer,
        actions: Seq<ActionView>,
        buffer: WriterSendBuffer,
        reader: GUID,
        an: AckNack,
    ) -> bool {
        let k = reader.rank();
        let rp = self.readers@[k];
        &&& after == (Writer { readers: after.readers, ..self })
        &&& if !self.readers@.contains_key(k) {
            &&& after.readers@ == self.readers@
            &&& actions == Seq::<ActionView>::empty()
        } else {
            &&& after.readers@.dom() == self.readers@.dom()
            &&& after.readers@.remove(k) == self.readers@.remove(k)
            &&& after.readers@[k].same_profile(rp)
            &&& exists|mid: RtpsReaderProxy, repair: Seq<ActionView>| #[trigger]
                self.is_served(mid, repair, rp, after.readers@[k], actions, buffer, an)
        }
    }

    /// `served` and `actions` are what comes of an acknowledgement of reader `rp`, which
    /// with it taken in is `mid`, where `repair` is done at once.
    pub open spec fn is_served(
        self,
        mid: RtpsReaderProxy,
        repair: Seq<ActionView>,
        rp: RtpsReaderProxy,
        served: RtpsReaderProxy,
        actions: Seq<ActionView>,
        buffer: WriterSendBuffer,
        an: AckNack,
    ) -> bool {
        &&& is_acked(mid, rp, an, buffer.last_seq@)
        &&& actions == self.ack_response(mid) + repair
        &&& if self.repairs_at_once(mid) {
            &&& self.is_repair(repair, mid, buffer)
            &&& served.progress() == self.repaired(mid, buffer)
        } else {
            &&& repair == Seq::<ActionView>::empty()
            &&& served.progress() == mid.progress()
        }
    }

    fn take_ack(
        &mut self,
        send_buffer: &WriterSendBuffer,
        reader_guid: GUID,
        ack_submessage: &AckSubmessage,
    ) -> (actions: Vec<WriterAction>)
        requires
            old(self).wf(),
            !old(self).like_stateless,
            send_buffer.wf(),
            send_buffer.last_seq@ < i64::MAX,
            ack_submessage is AckNack,
        ensures
            final(self).wf(),
            old(self).is_ack_result(
                *final(self),
                views(actions@),
                *send_buffer,
                reader_guid,
                ack_submessage->AckNack_0,
            ),
    {
        let ghost k = reader_guid.rank();
        let ghost an = ack_submessage->AckNack_0;
        let mut actions: Vec<WriterAction> = Vec::new();
        assert(views(actions@) =~= Seq::empty());
        let last_seq: SequenceNumber = send_buffer.last_change_sequence_number();
        let built_in: bool = self.my_guid.entity_id.kind().is_built_in();
        let mut reader_proxy: RtpsReaderProxy = match self.readers.remove(&reader_guid) {
            None => {
                assert(self.readers@ =~= old(self).readers@);
                return actions;
            },
            Some(rp) => rp,
        };
        let ghost rp = reader_proxy;
        proof {
            GUID::lemma_rank_injective(rp.remote_reader_guid, reader_guid);
        }
        reader_proxy.handle_ack_nack(ack_submessage, last_seq);
        let caught_up: bool = reader_proxy.all_acked_before.value > last_seq.value;
        reader_proxy.repair_mode = !caught_up;
        let ghost mid = reader_proxy;
        assert(mid.progress() =~= (Progress {
            repair_mode: rp.progress().acked(an, last_seq@).all_acked_before@ <= last_seq@,
            ..rp.progress().acked(an, last_seq@)
        }));
        assert(is_acked(mid, rp, an, last_seq@));
        let at_once: bool = built_in && !caught_up;
        if !caught_up && !at_once {
            act(
                &mut actions,
                WriterAction::SetTimer(
                    TimerRequest {
                        after: self.nack_response_delay,
                        event: TimedEvent::SendRepairData { to_reader: reader_guid },
                    },
                ),
            );
        }
        let gap_list: Vec<SequenceNumber> = reader_proxy.get_pending_gap();
        if gap_list.len() > 0 {
            assert(mid.gaps().contains(gap_list@[0]@));
            let message: Message = Message::new().gap_msg(gap_list, reader_guid);
            assert(message@ =~= seq![
                SubmessageView::Gap { reader_guid, numbers: mid.gaps() },
            ]);
            let emissions: Vec<Emission> = plan_for_one(
                DeliveryMode::Unicast,
                &reader_proxy,
                &self.extra_unicast_destinations,
            );
            act(&mut actions, WriterAction::Send { message, to: Some(reader_guid), emissions });
        } else {
            assert(mid.gaps() =~= Set::empty());
        }
        assert(views(actions@) =~= old(self).ack_response(mid));
        self.readers.insert(reader_guid, reader_proxy);
        assert(self.readers@.dom() =~= old(self).readers@.dom());
        assert(self.readers@.remove(k) =~= old(self).readers@.remove(k));
        let ghost between = *self;
        let ghost response = views(actions@);
        let ghost mut repair = Seq::<ActionView>::empty();
        if at_once {
            let mut more: Vec<WriterAction> = self.handle_repair_data_send(
                send_buffer,
                reader_guid,
            );
            proof {
                repair = views(more@);
                between.lemma_repair_ignores_readers(*old(self), repair, mid, *send_buffer);
            }
            let ghost tail = more@;
            actions.append(&mut more);
            assert(views(actions@) =~= response + repair);
        } else {
            assert(views(actions@) =~= response + repair);
        }
        proof {
            assert(old(self).is_served(
                mid,
                repair,
                rp,
                self.readers@[k],
                views(actions@),
                *send_buffer,
                an,
            ));
            assert(self.readers@.remove(k) =~= old(self).readers@.remove(k));
        }
        actions
    }

    /// What comes of a request for fragments: they are noted, and a burst is scheduled.
    pub open spec fn is_nack_frag_result(
        self,
        after: Writer,
        actions: Seq<ActionView>,
        reader: GUID,
        nf: NackFrag,
    ) -> bool {
        let k = reader.rank();
        let rp = self.readers@[k];
        let sn = nf.writer_sn@;
        &&& after == (Writer { readers: after.readers, ..self })
        &&& actions == timer(
            self.nackfrag_response_delay,
            TimedEvent::SendRepairFrags { to_reader: reader },
        )
        &&& if !self.readers@.contains_key(k) {
            after.readers@ == self.readers@
        } else {
            &&& after.readers@.dom() == self.readers@.dom()
            &&& after.readers@.remove(k) == self.readers@.remove(k)
            &&& after.readers@[k].same_profile(rp)
            &&& after.readers@[k].progress() == (Progress {
                requested: rp.requested().insert(
                    sn,
                    with_frags_set(
                        if rp.requested().contains_key(sn) {
                            rp.requested()[sn]
                        } else {
                            Seq::empty()
                        },
                        nf.fragment_number_state.members@,
                    ),
                ),
                ..rp.progress()
            })
        }
    }

    fn take_nack_frag(&mut self, reader_guid: GUID, nackfrag: &NackFrag) -> (actions: Vec<
        WriterAction,
    >)
        requires
            old(self).wf(),
            old(self).readers@.contains_key(reader_guid.rank()) ==> forall|i: int|
                0 <= i < nackfrag.fragment_number_state.members@.len() ==> (
                #[trigger] nackfrag.fragment_number_state.members@[i])@ >= 1,
        ensures
            final(self).wf(),
            old(self).is_nack_frag_result(*final(self), views(actions@), reader_guid, *nackfrag),
    {
        let ghost k = reader_guid.rank();
        match self.readers.remove(&reader_guid) {
            None => {
                assert(self.readers@ =~= old(self).readers@);
            },
            Some(mut rp) => {
                let ghost start = rp;
                proof {
                    GUID::lemma_rank_injective(rp.remote_reader_guid, reader_guid);
                }
                rp.mark_frags_requested(nackfrag.writer_sn, &nackfrag.fragment_number_state);
                self.readers.insert(reader_guid, rp);
                assert(self.readers@.dom() =~= old(self).readers@.dom());
                assert(self.readers@.remove(k) =~= old(self).readers@.remove(k));
            },
        }
        let mut actions: Vec<WriterAction> = Vec::new();
        act(
            &mut actions,
            WriterAction::SetTimer(
                TimerRequest {
                    after: self.nackfrag_response_delay,
                    event: TimedEvent::SendRepairFrags { to_reader: reader_guid },
                },
            ),
        );
        assert(views(actions@) =~= timer(
            self.nackfrag_response_delay,
            TimedEvent::SendRepairFrags { to_reader: reader_guid },
        ));
        actions
    }

    /// `after` and `response` are what comes of what a reader has and asks for.
    pub open spec fn is_reply(
        self,
        after: Writer,
        response: Seq<ActionView>,
        buffer: WriterSendBuffer,
        prefix: GuidPrefix,
        ack: AckSubmessage,
    ) -> bool {
        match ack {
            AckSubmessage::AckNack(an) => self.is_ack_result(
                after,
                response,
                buffer,
                (GUID { prefix, entity_id: an.reader_id }),
                an,
            ),
            AckSubmessage::NackFrag(nf) => self.is_nack_frag_result(
                after,
                response,
                (GUID { prefix, entity_id: nf.reader_id }),
                nf,
            ),
        }
    }

    /// Are the fragments that a reader asks for numbered from one on? It matters where the
    /// request is taken in: by a reliable writer, from a reader that is matched.
    pub open spec fn can_take(self, prefix: GuidPrefix, ack: AckSubmessage) -> bool {
        ack matches AckSubmessage::NackFrag(nf) ==> self.qos_policies.spec_is_reliable()
            && !self.like_stateless && self.readers@.contains_key(
            (GUID { prefix, entity_id: nf.reader_id }).rank(),
        ) ==> forall|i: int|
            0 <= i < nf.fragment_number_state.members@.len() ==> (
            #[trigger] nf.fragment_number_state.members@[i])@ >= 1
    }

    /// Tells whether what a reader has and asks for can be taken in.
    pub fn is_ready_to_take(
        &self,
        reader_guid_prefix: GuidPrefix,
        ack_submessage: &AckSubmessage,
    ) -> (r: bool)
        ensures
            r == self.can_take(reader_guid_prefix, *ack_submessage),
    {
        match ack_submessage {
            AckSubmessage::AckNack(_) => true,
            AckSubmessage::NackFrag(nf) => {
                let reader_guid: GUID = GUID::new(reader_guid_prefix, nf.reader_id);
                !self.is_reliable() || self.like_stateless || !self.readers.contains_key(
                    &reader_guid,
                ) || numbered_from_one(&nf.fragment_number_state.members)
            },
        }
    }

    /// `after`, `buffer_after` and `actions` are what comes of what a reader has and asks for:
    /// nothing for a writer that is not reliable or does not track its readers; else the
    /// reply, and then the wake-ups that the acknowledgements are due.
    pub open spec fn is_ack_handled(
        self,
        buffer: WriterSendBuffer,
        prefix: GuidPrefix,
        ack: AckSubmessage,
        after: Writer,
        buffer_after: WriterSendBuffer,
        actions: Seq<ActionView>,
    ) -> bool {
        if !self.qos_policies.spec_is_reliable() || self.like_stateless {
            &&& after == self
            &&& buffer_after == buffer
            &&& actions == Seq::<ActionView>::empty()
        } else {
            exists|response: Seq<ActionView>, woken: Option<Vec<WakerId>>|
                actions == response + #[trigger] wake_view(woken) && buffer_after.has_frontier(
                    buffer,
                    after.acked_frontier(),
                    woken,
                ) && #[trigger] self.is_reply(after, response, buffer, prefix, ack)
        }
    }

    /// Takes in what a reader has and what it asks for. A writer that is not reliable
    /// ignores it. In the end the send buffer is told how far the readers have
    /// acknowledged.
    pub fn handle_ack_nack(
        &mut self,
        send_buffer: &mut WriterSendBuffer,
        reader_guid_prefix: GuidPrefix,
        ack_submessage: &AckSubmessage,
    ) -> (actions: Vec<WriterAction>)
        requires
            old(self).wf(),
            old(send_buffer).wf(),
            old(send_buffer).last_seq@ < i64::MAX,
            old(self).can_take(reader_guid_prefix, *ack_submessage),
        ensures
            final(self).wf(),
            final(send_buffer).wf(),
            old(self).is_ack_handled(
                *old(send_buffer),
                reader_guid_prefix,
                *ack_submessage,
                *final(self),
                *final(send_buffer),
                views(actions@),
            ),
    {
        if !self.is_reliable() || self.like_stateless {
            let actions: Vec<WriterAction> = Vec::new();
            assert(views(actions@) =~= Seq::empty());
            return actions;
        }
        let mut actions: Vec<WriterAction> = match ack_submessage {
            AckSubmessage::AckNack(an) => {
                let reader_guid: GUID = GUID::new(reader_guid_prefix, an.reader_id);
                self.take_ack(send_buffer, reader_guid, ack_submessage)
            },
            AckSubmessage::NackFrag(nackfrag) => {
                let reader_guid: GUID = GUID::new(reader_guid_prefix, nackfrag.reader_id);
                self.take_nack_frag(reader_guid, nackfrag)
            },
        };
        let ghost response = views(actions@);
        let woken: Option<Vec<WakerId>> = self.refresh_acked_frontier(send_buffer);
        let ghost w = woken;
        if let Some(tasks) = woken {
            act(&mut actions, WriterAction::Wake(tasks));
        }
        assert(views(actions@) =~= response + wake_view(w));
        assert(old(self).is_reply(
            *self,
            response,
            *old(send_buffer),
            reader_guid_prefix,
            *ack_submessage,
        ));
        actions
    }

    /// The delay until the next step of a repair.
    pub open spec fn repair_delay(self) -> Duration {
        let period = match self.qos_policies.deadline {
            Some(deadline) => deadline,
            None => Duration { ticks: (0x1_0000_0000int / 1000) as i64 },
        };
        Duration { ticks: period.spec_divided_by(5) as i64 }
    }

    /// Does everything that a timed event leads to stay within the numbers there are? A
    /// history of negative depth may lead beyond them, and so may a request for more
    /// fragments than can be numbered.
    pub open spec fn can_handle(self, buffer: WriterSendBuffer, event: TimedEvent) -> bool {
        match event {
            TimedEvent::CacheCleaning => self.first_keeper(
                buffer,
                self.history_depth(),
                self.sample_limit(),
            ) <= i64::MAX,
            TimedEvent::SendRepairFrags { to_reader } => self.readers@.contains_key(
                to_reader.rank(),
            ) ==> self.readers@[to_reader.rank()].frags_numbered(),
            _ => true,
        }
    }

    /// Tells whether a timed event can be handled.
    pub fn is_ready_for(&self, send_buffer: &WriterSendBuffer, event: TimedEvent) -> (r: bool)
        requires
            send_buffer.wf(),
        ensures
            r == self.can_handle(*send_buffer, event),
    {
        match event {
            TimedEvent::CacheCleaning => self.can_clean(send_buffer),
            TimedEvent::SendRepairFrags { to_reader } => match self.readers.get(&to_reader) {
                Some(rp) => rp.frags_in_range(),
                None => true,
            },
            _ => true,
        }
    }

    /// `after`, `buffer_after` and `actions` are what comes of a timed event: a heartbeat comes
    /// again, sooner while some reader is behind; cleaning comes again; a repair goes on as
    /// long as there is something to send.
    pub open spec fn is_timed_result(
        self,
        buffer: WriterSendBuffer,
        event: TimedEvent,
        now: Timestamp,
        after: Writer,
        buffer_after: WriterSendBuffer,
        actions: Seq<ActionView>,
    ) -> bool {
        &&& !(event is CacheCleaning) ==> buffer_after == buffer
        &&& match event {
            TimedEvent::Heartbeat => {
                let behind = self.heartbeat_due(buffer);
                let next = if behind && self.heartbeat_period_fast is Some {
                    self.heartbeat_period_fast
                } else {
                    self.heartbeat_period
                };
                &&& actions == self.heartbeat_actions(
                    buffer,
                    now,
                    false,
                ) + match next {
                    Some(period) => timer(period, TimedEvent::Heartbeat),
                    None => Seq::empty(),
                }
                &&& after == (Writer {
                    heartbeat_message_counter: if behind {
                        next_count(self.heartbeat_message_counter)
                    } else {
                        self.heartbeat_message_counter
                    },
                    ..self
                })
            },
            TimedEvent::CacheCleaning => {
                &&& buffer_after.has_removed_before(
                    buffer,
                    self.first_keeper(
                        buffer,
                        self.history_depth(),
                        self.sample_limit(),
                    ),
                )
                &&& actions == timer(
                    self.cache_cleaning_period,
                    TimedEvent::CacheCleaning,
                )
                &&& after == self
            },
            TimedEvent::SendRepairData { to_reader } => {
                let k = to_reader.rank();
                let rp = self.readers@[k];
                let matched = self.readers@.contains_key(k);
                let again = if matched && after.readers@[k].repair_mode {
                    timer(self.repair_delay(), event)
                } else {
                    Seq::empty()
                };
                &&& after == (Writer { readers: after.readers, ..self })
                &&& if self.like_stateless || !matched {
                    &&& after.readers@ == self.readers@
                    &&& actions == again
                } else {
                    &&& after.readers@.dom() == self.readers@.dom()
                    &&& after.readers@.remove(k) == self.readers@.remove(k)
                    &&& after.readers@[k].same_profile(rp)
                    &&& after.readers@[k].progress() == self.repaired(
                        rp,
                        buffer,
                    )
                    &&& exists|repair: Seq<ActionView>|
                        actions == repair + again && #[trigger] self.is_repair(
                            repair,
                            rp,
                            buffer,
                        )
                }
            },
            TimedEvent::SendRepairFrags { to_reader } => {
                let k = to_reader.rank();
                let rp = self.readers@[k];
                let matched = self.readers@.contains_key(k);
                let more = exists|s: int| #[trigger]
                    after.readers@[k].requested().contains_key(s) && some_bit(
                        after.readers@[k].requested()[s],
                    );
                let again = if matched && more {
                    timer(self.repairfrags_continue_delay, event)
                } else {
                    Seq::empty()
                };
                &&& after == (Writer { readers: after.readers, ..self })
                &&& if self.like_stateless || !matched {
                    &&& after.readers@ == self.readers@
                    &&& actions == again
                } else {
                    &&& after.readers@.dom() == self.readers@.dom()
                    &&& after.readers@.remove(k) == self.readers@.remove(k)
                    &&& after.readers@[k].same_profile(rp)
                    &&& after.readers@[k].progress() == Self::frags_repaired(
                        rp,
                        buffer,
                    )
                    &&& actions == self.frag_repair_actions(
                        rp,
                        buffer,
                    ) + again
                }
            },
        }
    }

    /// Handles an event that the writer asked for earlier, and asks for the next one.
    pub fn handle_timed_event(
        &mut self,
        send_buffer: &mut WriterSendBuffer,
        event: TimedEvent,
        now: Timestamp,
    ) -> (actions: Vec<WriterAction>)
        requires
            old(self).wf(),
            old(send_buffer).wf(),
            old(self).can_handle(*old(send_buffer), event),
        ensures
            final(self).wf(),
            final(send_buffer).wf(),
            old(self).is_timed_result(
                *old(send_buffer),
                event,
                now,
                *final(self),
                *final(send_buffer),
                views(actions@),
            ),
    {
        match event {
            TimedEvent::Heartbeat => {
                let (readers_behind, mut actions): (bool, Vec<WriterAction>) =
                    self.handle_heartbeat_tick(send_buffer, false, now);
                let ghost sent = views(actions@);
                let next_period: Option<Duration> = if readers_behind
                    && self.heartbeat_period_fast.is_some() {
                    self.heartbeat_period_fast
                } else {
                    self.heartbeat_period
                };
                if let Some(period) = next_period {
                    act(
                        &mut actions,
                        WriterAction::SetTimer(
                            TimerRequest { after: period, event: TimedEvent::Heartbeat },
                        ),
                    );
                    assert(views(actions@) =~= sent + timer(period, TimedEvent::Heartbeat));
                } else {
                    assert(views(actions@) =~= sent + Seq::<ActionView>::empty());
                }
                actions
            },
            TimedEvent::CacheCleaning => {
                self.handle_cache_cleaning(send_buffer);
                let mut actions: Vec<WriterAction> = Vec::new();
                act(
                    &mut actions,
                    WriterAction::SetTimer(
                        TimerRequest {
                            after: self.cache_cleaning_period,
                            event: TimedEvent::CacheCleaning,
                        },
                    ),
                );
                assert(views(actions@) =~= timer(
                    self.cache_cleaning_period,
                    TimedEvent::CacheCleaning,
                ));
                actions
            },
            TimedEvent::SendRepairData { to_reader } => {
                let mut actions: Vec<WriterAction> = self.handle_repair_data_send(
                    send_buffer,
                    to_reader,
                );
                let ghost repair = views(actions@);
                let again: bool = match self.readers.get(&to_reader) {
                    Some(rp) => rp.repair_mode,
                    None => false,
                };
                if again {
                    let period: Duration = match self.qos_policies.deadline {
                        Some(deadline) => deadline,
                        None => Duration::from_millis(1),
                    };
                    act(
                        &mut actions,
                        WriterAction::SetTimer(
                            TimerRequest {
                                after: period.divided_by(5),
                                event: TimedEvent::SendRepairData { to_reader },
                            },
                        ),
                    );
                    assert(views(actions@) =~= repair + timer(self.repair_delay(), event));
                } else {
                    assert(views(actions@) =~= repair + Seq::<ActionView>::empty());
                }
                assert(Seq::<ActionView>::empty() + timer(self.repair_delay(), event) =~= timer(
                    self.repair_delay(),
                    event,
                ));
                actions
            },
            TimedEvent::SendRepairFrags { to_reader } => {
                let mut actions: Vec<WriterAction> = self.handle_repair_frags_send(
                    send_buffer,
                    to_reader,
                );
                let ghost repair = views(actions@);
                let again: bool = match self.readers.get(&to_reader) {
                    Some(rp) => rp.repair_frags_requested(),
                    None => false,
                };
                if again {
                    act(
                        &mut actions,
                        WriterAction::SetTimer(
                            TimerRequest {
                                after: self.repairfrags_continue_delay,
                                event: TimedEvent::SendRepairFrags { to_reader },
                            },
                        ),
                    );
                    assert(views(actions@) =~= repair + timer(
                        self.repairfrags_continue_delay,
                        event,
                    ));
                } else {
                    assert(views(actions@) =~= repair + Seq::<ActionView>::empty());
                }
                assert(Seq::<ActionView>::empty() + timer(self.repairfrags_continue_delay, event)
                    =~= timer(self.repairfrags_continue_delay, event));
                actions
            },
        }
    }
}

/// Each step of the repair of a reader takes something off the list of what it is to be
/// sent, or ends the repair where the list is empty. So a repair comes to an end.
pub proof fn law_repair_makes_progress(writer: Writer, rp: RtpsReaderProxy, buffer: WriterSendBuffer)
    requires
        rp.unsent().finite(),
    ensures
        ({
            let before = rp.progress();
            let after = writer.repaired(rp, buffer);
            if before.unsent == Set::<int>::empty() {
                after.unsent == before.unsent && !after.repair_mode
            } else {
                after.unsent.subset_of(before.unsent) && after.unsent.len() < before.unsent.len()
            }
        }),
{
    let before = rp.progress();
    let after = writer.repaired(rp, buffer);
    if before.unsent != Set::<int>::empty() {
        assert(before.unsent.len() > 0) by {
            if before.unsent.len() == 0 {
                assert(before.unsent =~= Set::empty());
            }
        }
        let least = lemma_has_minimum(before.unsent);
        lemma_lowest(before.unsent, least);
        assert(before.unsent.contains(least));
        assert(!after.unsent.contains(least));
        assert(after.unsent.subset_of(before.unsent.remove(least)));
        vstd::set_lib::lemma_len_subset(after.unsent, before.unsent.remove(least));
    }
}

/// The message is a HEARTBEAT on its own: it says at what time it was sent, advertises
/// exactly what the buffer retains, and wants an answer.
pub open spec fn is_prompt(
    message: Seq<SubmessageView>,
    buffer: WriterSendBuffer,
    now: Timestamp,
    liveliness: bool,
) -> bool {
    &&& heartbeat_count(message) == 1
    &&& heartbeats_are_true(message, buffer)
    &&& forall|i: int|
        0 <= i < message.len() ==> match #[trigger] message[i] {
            SubmessageView::InfoTimestamp(_) => true,
            SubmessageView::Heartbeat { reader, final_flag, liveliness_flag, .. } => {
                &&& stamp_at(message, i) == Some(now)
                &&& reader == EntityId::unknown()
                &&& !final_flag
                &&& liveliness_flag == liveliness
            },
            _ => false,
        }
}

/// The action sends a message to the reader, alone or with the others, at a place where it
/// is reached.
pub open spec fn is_sent_to(action: ActionView, rp: RtpsReaderProxy) -> bool {
    match action {
        ActionView::Send { to: None, emissions, .. } => is_reached(
            emissions,
            DeliveryMode::Multicast,
            rp,
        ),
        ActionView::Send { to: Some(guid), emissions, .. } => guid == rp.remote_reader_guid
            && is_reached(emissions, DeliveryMode::Unicast, rp) && emissions.no_duplicates(),
        _ => false,
    }
}

/// Has the reader not acknowledged all that was written?
pub open spec fn is_behind(rp: RtpsReaderProxy, buffer: WriterSendBuffer) -> bool {
    rp.all_acked_before@ <= buffer.last_seq@
}

/// The actions prompt every reader that is behind, and do nothing but prompt. Where no
/// reader is behind, and from a writer that does not track its readers, nothing is sent.
pub open spec fn is_prompting(
    actions: Seq<ActionView>,
    writer: Writer,
    buffer: WriterSendBuffer,
    now: Timestamp,
    liveliness: bool,
) -> bool {
    &&& forall|i: int|
        0 <= i < actions.len() ==> (#[trigger] actions[i] matches ActionView::Send {
            message,
            ..
        } && is_prompt(message, buffer, now, liveliness))
    &&& !writer.like_stateless ==> forall|k: int| #[trigger]
        writer.readers@.contains_key(k) && is_behind(writer.readers@[k], buffer) ==> exists|
            i: int,
        |
            0 <= i < actions.len() && is_sent_to(#[trigger] actions[i], writer.readers@[k])
    &&& actions.len() > 0 ==> !writer.like_stateless && exists|k: int| #[trigger]
        writer.readers@.contains_key(k) && is_behind(writer.readers@[k], buffer)
}

pub(crate) proof fn lemma_heartbeat_message(
    writer: Writer,
    buffer: WriterSendBuffer,
    now: Timestamp,
    liveliness: bool,
)
    requires
        buffer.wf(),
    ensures
        is_prompt(writer.heartbeat_message(buffer, now, liveliness), buffer, now, liveliness),
{
    let m = writer.heartbeat_message(buffer, now, liveliness);
    assert(m.drop_last() =~= seq![m[0]]);
    assert(m.last() == m[1]);
    lemma_one_part(m[0], 0);
    assert(heartbeat_count(m) == 1);
    reveal(WriterSendBuffer::no_holes);
    assert(stamp_at(m, 1) == Some(now)) by {
        reveal_with_fuel(stamp_at, 2);
    }
    assert(advertises(buffer.first_seq@, buffer.last_seq@, buffer));
}

proof fn lemma_heartbeats_to_behind(
    readers: Seq<RtpsReaderProxy>,
    buffer: WriterSendBuffer,
    message: Seq<SubmessageView>,
    extra: Seq<Locator>,
    r: int,
)
    ensures
        ({
            let actions = heartbeats_to_behind(readers, buffer.last_seq@, message, extra);
            &&& forall|i: int|
                0 <= i < actions.len() ==> (#[trigger] actions[i] matches ActionView::Send {
                    message: m,
                    ..
                } && m == message)
            &&& 0 <= r < readers.len() && is_behind(readers[r], buffer) ==> exists|i: int|
                0 <= i < actions.len() && is_sent_to(#[trigger] actions[i], readers[r])
        }),
    decreases readers.len(),
{
    if readers.len() > 0 {
        let n = readers.len() - 1;
        let rest = readers.drop_last();
        let rp = readers.last();
        let before = heartbeats_to_behind(rest, buffer.last_seq@, message, extra);
        let actions = heartbeats_to_behind(readers, buffer.last_seq@, message, extra);
        lemma_heartbeats_to_behind(rest, buffer, message, extra, r);
        law_plan_reaches_each_reader(DeliveryMode::Unicast, seq![rp], extra);
        assert(seq![rp][0] == rp);
        assert(readers[n] == rp);
        if is_behind(rp, buffer) {
            assert(is_sent_to(actions[before.len() as int], rp));
        }
        if 0 <= r < n && is_behind(readers[r], buffer) {
            assert(readers[r] == rest[r]);
            let i = choose|i: int|
                0 <= i < before.len() && is_sent_to(#[trigger] before[i], rest[r]);
            assert(actions[i] == before[i]);
        }
    }
}

/// When heartbeats are due, every reader that has not acknowledged all is reached by one
/// that advertises exactly what is retained, so every retained sample that it lacks is in
/// the range; where all have acknowledged all, nothing is sent.
pub proof fn law_heartbeats_prompt_whoever_is_behind(
    writer: Writer,
    buffer: WriterSendBuffer,
    now: Timestamp,
    liveliness: bool,
)
    requires
        buffer.wf(),
        writer.readers.listed(),
    ensures
        is_prompting(
            writer.heartbeat_actions(buffer, now, liveliness),
            writer,
            buffer,
            now,
            liveliness,
        ),
{
    let message = writer.heartbeat_message(buffer, now, liveliness);
    let actions = writer.heartbeat_actions(buffer, now, liveliness);
    let extra = writer.extra_unicast_destinations@;
    let all = in_order(writer.readers);
    lemma_heartbeat_message(writer, buffer, now, liveliness);
    law_plan_reaches_all_matched(DeliveryMode::Multicast, writer.readers, extra);
    lemma_heartbeats_to_behind(all, buffer, message, extra, 0);
    if !writer.like_stateless {
        assert forall|k: int| #[trigger]
            writer.readers@.contains_key(k) && is_behind(
                writer.readers@[k],
                buffer,
            ) implies exists|i: int|
            0 <= i < actions.len() && is_sent_to(#[trigger] actions[i], writer.readers@[k]) by {
            assert(writer.heartbeat_due(buffer));
            if writer.my_guid.entity_id
                == EntityId::p2p_builtin_participant_volatile_secure_writer() {
                let r = lemma_place(writer.readers, k);
                lemma_heartbeats_to_behind(all, buffer, message, extra, r);
            } else {
                assert(is_sent_to(actions[0], writer.readers@[k]));
            }
        }
    }
    if writer.heartbeat_due(buffer) {
        let k = choose|k: int| #[trigger]
            writer.readers@.contains_key(k) && buffer.last_seq@
                >= writer.readers@[k].all_acked_before@;
        assert(writer.readers@.contains_key(k) && is_behind(writer.readers@[k], buffer));
    }
}

/// The messages that are sent by the actions, in order.
pub open spec fn messages_in(actions: Seq<ActionView>) -> Seq<Seq<SubmessageView>>
    decreases actions.len(),
{
    if actions.len() == 0 {
        Seq::empty()
    } else {
        let before = messages_in(actions.drop_last());
        match actions.last() {
            ActionView::Send { message, .. } => before.push(message),
            _ => before,
        }
    }
}

proof fn lemma_messages_of_sends(
    messages: Seq<Seq<SubmessageView>>,
    reader: GUID,
    emissions: Seq<Emission>,
)
    ensures
        messages_in(sends(messages, reader, emissions)) == messages,
    decreases messages.len(),
{
    let actions = sends(messages, reader, emissions);
    if messages.len() > 0 {
        let rest = messages.drop_last();
        assert(actions.drop_last() =~= sends(rest, reader, emissions));
        lemma_messages_of_sends(rest, reader, emissions);
        assert(messages =~= rest.push(messages.last()));
    } else {
        assert(messages =~= Seq::empty());
    }
}

/// Nothing that the reader is to get and the buffer retains is declared lost to it.
pub open spec fn declares_no_loss(
    message: Seq<SubmessageView>,
    rp: RtpsReaderProxy,
    buffer: WriterSendBuffer,
) -> bool {
    forall|i: int|
        0 <= i < message.len() ==> match #[trigger] message[i] {
            SubmessageView::Gap { reader_guid, numbers } => {
                &&& reader_guid == rp.remote_reader_guid
                &&& forall|s: int| #[trigger]
                    numbers.contains(s) ==> rp.gaps().contains(s)
                        || !buffer.changes@.contains_key(s)
            },
            SubmessageView::GapBefore { reader_guid, before } => {
                &&& reader_guid == rp.remote_reader_guid
                &&& forall|s: int| #[trigger] buffer.changes@.contains_key(s) ==> before <= s
            },
            _ => true,
        }
}

/// The message tells the reader that it will not get sample `s`.
pub open spec fn declares_lost(message: Seq<SubmessageView>, s: int) -> bool {
    exists|i: int|
        0 <= i < message.len() && match #[trigger] message[i] {
            SubmessageView::Gap { numbers, .. } => numbers.contains(s),
            SubmessageView::GapBefore { before, .. } => s < before,
            _ => false,
        }
}

/// The actions answer a reader that is to be sent sample `u` next. A sample that is
/// retained and meant for it is sent completely. Of one that is not to be had any more, or
/// not meant for it, it is told so; where another reader alone is to get it, nothing is
/// done. Whatever is sent goes to this reader, and nothing is declared lost to it that it
/// can still get.
pub open spec fn is_answer(
    actions: Seq<ActionView>,
    writer: Writer,
    rp: RtpsReaderProxy,
    buffer: WriterSendBuffer,
    u: int,
) -> bool {
    let messages = messages_in(actions);
    let retained = buffer.changes@.contains_key(u);
    let cc = buffer.changes@[u];
    let size = cc.data_value.spec_payload_size();
    let heartbeat: int = if (writer.qos_policies.reliability matches Some(
        Reliability::Reliable { .. },
    )) && !writer.like_stateless {
        HEARTBEAT_SUBMESSAGE_SERIALIZED_SIZE as int
    } else {
        0
    };
    let whole = size == 0 || size + DATA_SUBMESSAGE_OVERHEAD + heartbeat
        <= rp.max_datagram_payload;
    &&& forall|i: int|
        0 <= i < actions.len() && #[trigger] actions[i] is Send ==> is_sent_to(actions[i], rp)
            && declares_no_loss(actions[i]->message, rp, buffer)
    &&& retained && !rp.gaps().contains(u) && !(cc.write_options.to_single_reader matches Some(g)
        && g != rp.remote_reader_guid) ==> is_sample_in(
        messages,
        cc,
        Some(rp),
        buffer,
        whole,
        SampleCursor::Fresh,
        false,
    )
    &&& retained && !rp.gaps().contains(u) && (cc.write_options.to_single_reader matches Some(g)
        && g != rp.remote_reader_guid) ==> messages.len() == 0
    &&& !retained || rp.gaps().contains(u) ==> {
        &&& messages.len() == 1
        &&& declares_lost(messages[0], u)
        &&& samples_in(messages[0]) == Seq::<int>::empty()
        &&& forall|f: int| #[trigger] times_carried(messages, f) == 0
    }
}

/// A step of a repair answers the reader: the lowest sample that it is to be sent goes out
/// to it completely if it is retained and meant for it, and else the reader learns that it
/// will not get it. A sample whose size does not fit in 32 bits cannot be sent.
pub proof fn law_repair_answers_the_reader(
    writer: Writer,
    rp: RtpsReaderProxy,
    buffer: WriterSendBuffer,
    actions: Seq<ActionView>,
    u: int,
)
    requires
        buffer.wf(),
        is_lowest(rp.unsent(), u),
        buffer.changes@.contains_key(u) ==> buffer.changes@[u].data_value.spec_payload_size()
            <= u32::MAX,
        writer.is_repair(actions, rp, buffer),
    ensures
        is_answer(actions, writer, rp, buffer, u),
{
    let p = rp.progress();
    let guid = rp.remote_reader_guid;
    let cc = buffer.changes@[u];
    let emissions = writer.emissions_to(rp);
    let messages = messages_in(actions);
    lemma_lowest(p.unsent, u);
    assert(p.unsent.contains(u));
    reveal(WriterSendBuffer::no_holes);
    law_plan_reaches_each_reader(
        DeliveryMode::Unicast,
        seq![rp],
        writer.extra_unicast_destinations@,
    );
    assert(seq![rp][0] == rp);
    assert(is_reached(emissions, DeliveryMode::Unicast, rp));
    if remedy_for(p, buffer) is Resend {
        if is_for_another(cc, guid) {
            assert(messages =~= Seq::empty());
        } else {
            let timer = ActionView::SetTimer(
                TimerRequest {
                    after: writer.repairfrags_continue_delay,
                    event: TimedEvent::SendRepairFrags { to_reader: guid },
                },
            );
            let tail = if writer.resent_in_fragments(rp, cc) {
                seq![timer]
            } else {
                Seq::empty()
            };
            let it = choose|it: FragmentationIter|
                #[trigger] it.is_start(writer, cc, Some(rp), false, SampleCursor::Fresh)
                    && actions == sends(it.left(), guid, emissions) + tail;
            let front = sends(it.left(), guid, emissions);
            lemma_messages_of_sends(it.left(), guid, emissions);
            if tail.len() > 0 {
                assert(actions.drop_last() =~= front);
                assert(actions.last() == timer);
            } else {
                assert(actions =~= front);
            }
            assert(messages == it.left());
            lemma_left_is_the_rest(it, buffer.first_seq@, buffer.last_seq@, 0);
            law_sample_goes_out_completely(
                writer,
                cc,
                Some(rp),
                false,
                SampleCursor::Fresh,
                it,
                buffer,
                0,
            );
            assert forall|i: int|
                0 <= i < actions.len() && #[trigger] actions[i] is Send implies is_sent_to(
                actions[i],
                rp,
            ) && declares_no_loss(actions[i]->message, rp, buffer) by {
                assert(actions[i] == front[i]);
                assert(actions[i]->message == messages[i]);
            }
        }
    } else {
        let m = actions[0]->message;
        assert(actions =~= seq![actions[0]]);
        assert(actions.drop_last() =~= Seq::empty());
        assert(messages =~= seq![m]) by {
            reveal_with_fuel(messages_in, 2);
        }
        reveal_with_fuel(samples_in, 4);
        assert(samples_in(m) =~= Seq::empty()) by {
            assert(m.drop_last().len() == m.len() - 1);
            if m.len() == 3 {
                assert(m.drop_last() =~= seq![m[0], m[1]]);
            }
            assert(seq![m[0], m[1]].drop_last() =~= seq![m[0]]);
            assert(seq![m[0]].drop_last() =~= Seq::empty());
        }
        assert forall|f: int| #[trigger] times_carried(messages, f) == 0 by {
            lemma_one_message(m, f);
            reveal_with_fuel(times_in_message, 4);
            if m.len() == 3 {
                assert(m.drop_last() =~= seq![m[0], m[1]]);
            } else {
                assert(m =~= seq![m[0], m[1]]);
            }
            assert(seq![m[0], m[1]].drop_last() =~= seq![m[0]]);
            assert(seq![m[0]].drop_last() =~= Seq::empty());
        }
        assert(declares_lost(m, u)) by {
            match m[1] {
                SubmessageView::Gap { numbers, .. } => {
                    assert(numbers.contains(u));
                },
                SubmessageView::GapBefore { before, .. } => {
                    assert(u < before);
                },
                _ => {},
            }
        }
    }
}

/// A step of a repair is done with the sample that it answers for and with those that it
/// declares lost, and with no other; what the reader has acknowledged and what it will not
/// get stay as they are. A sample that goes out in fragments is noted, so that each of its
/// fragments is sent again.
pub proof fn law_repair_forgets_only_what_it_answers(
    writer: Writer,
    rp: RtpsReaderProxy,
    buffer: WriterSendBuffer,
    actions: Seq<ActionView>,
    u: int,
)
    requires
        buffer.wf(),
        is_lowest(rp.unsent(), u),
        buffer.changes@.contains_key(u) ==> buffer.changes@[u].data_value.spec_payload_size()
            <= u32::MAX,
        writer.is_repair(actions, rp, buffer),
    ensures
        ({
            let after = writer.repaired(rp, buffer);
            let messages = messages_in(actions);
            let size = buffer.changes@[u].data_value.spec_payload_size();
            &&& !after.unsent.contains(u)
            &&& forall|s: int| #[trigger]
                after.unsent.contains(s) ==> rp.unsent().contains(s)
            &&& forall|s: int| #[trigger]
                rp.unsent().contains(s) && !after.unsent.contains(s) && s != u ==> messages.len()
                    == 1 && declares_lost(messages[0], s)
            &&& after.all_acked_before == rp.all_acked_before
            &&& after.gaps == rp.gaps()
            &&& after.repair_mode == rp.repair_mode
            &&& forall|s: int|
                s != u ==> (#[trigger] after.requested.contains_key(s)
                    <==> rp.requested().contains_key(s))
            &&& forall|s: int| #[trigger]
                after.requested.contains_key(s) && s != u ==> after.requested[s]
                    == rp.requested()[s]
            &&& times_carried(messages, 1) == 1 ==> after.requested.contains_key(u) && forall|
                f: int,
            |
                1 <= f ==> ((f - 1) * FRAGMENT_SIZE < size <==> f <= after.requested[u].len()
                    && #[trigger] after.requested[u][f - 1])
            &&& times_carried(messages, 1) == 0 ==> after.requested == rp.requested()
        }),
{
    let p = rp.progress();
    let after = writer.repaired(rp, buffer);
    let messages = messages_in(actions);
    lemma_lowest(p.unsent, u);
    assert(p.unsent.contains(u));
    reveal(WriterSendBuffer::no_holes);
    law_repair_answers_the_reader(writer, rp, buffer, actions, u);
    if remedy_for(p, buffer) is Resend && is_for_another(
        buffer.changes@[u],
        rp.remote_reader_guid,
    ) {
        assert(messages =~= Seq::empty());
    }
    if remedy_for(p, buffer) is TooOld || remedy_for(p, buffer) is Withheld {
        let m = actions[0]->message;
        assert(actions =~= seq![actions[0]]);
        assert(actions.drop_last() =~= Seq::empty());
        assert(messages =~= seq![m]) by {
            reveal_with_fuel(messages_in, 2);
        }
        assert forall|s: int| #[trigger]
            rp.unsent().contains(s) && !after.unsent.contains(s) implies declares_lost(m, s) by {
            if remedy_for(p, buffer) is TooOld {
                if s < buffer.first_seq@ {
                    assert(m[1] is GapBefore);
                } else {
                    assert(p.gaps.contains(s));
                    assert(m[2] is Gap);
                }
            } else {
                assert(m[1] is Gap);
            }
        }
    }
}

/// A reader without anything to be sent to it leaves the repair, and nothing is sent.
pub proof fn law_repair_ends_when_all_is_answered(
    writer: Writer,
    rp: RtpsReaderProxy,
    buffer: WriterSendBuffer,
    actions: Seq<ActionView>,
)
    requires
        rp.unsent() == Set::<int>::empty(),
        writer.is_repair(actions, rp, buffer),
    ensures
        actions.len() == 0,
        !writer.repaired(rp, buffer).repair_mode,
        writer.repaired(rp, buffer).unsent == Set::<int>::empty(),
{
}

/// What a reader was sent and acknowledged after an acknowledgement of all before `base`
/// that asks for some samples, where the last sample written is `last`: what is asked for
/// and was written is to be sent, and what was to be sent and is not acknowledged still is;
/// of what the reader will not get, it is reminded as long as it does not acknowledge. The
/// reader is in repair unless it has everything.
pub open spec fn is_acknowledged(
    before: RtpsReaderProxy,
    after: RtpsReaderProxy,
    base: int,
    asked: Set<int>,
    last: int,
) -> bool {
    &&& after.all_acked_before@ == base
    &&& forall|s: int| asked.contains(s) && s <= last ==> #[trigger] after.unsent().contains(s)
    &&& forall|s: int|
        before.unsent().contains(s) && base <= s <= last ==> #[trigger] after.unsent().contains(s)
    &&& forall|s: int| #[trigger]
        after.unsent().contains(s) ==> s <= last && (asked.contains(s) || (before.unsent().contains(
            s,
        ) && base <= s))
    &&& forall|s: int| #[trigger] after.gaps().contains(s) <==> before.gaps().contains(s) && base
        <= s
    &&& after.repair_mode <==> base <= last
    &&& after.requested() == before.requested()
}

/// An acknowledgement of what was never written changes nothing but whether the reader is
/// in repair. Any other is taken over: what is acknowledged is no longer tracked, and what
/// is asked for is to be sent.
pub proof fn law_acknowledgement_is_taken_over(
    mid: RtpsReaderProxy,
    rp: RtpsReaderProxy,
    an: AckNack,
    last: int,
)
    requires
        is_acked(mid, rp, an, last),
        0 <= last < i64::MAX,
    ensures
        ({
            let base = if an.reader_sn_state.base@ >= 1 {
                an.reader_sn_state.base@
            } else {
                1
            };
            let asked = numbers_of(an.reader_sn_state.members@);
            if base <= last + 1 {
                is_acknowledged(rp, mid, base, asked, last)
            } else {
                &&& mid.all_acked_before == rp.all_acked_before
                &&& mid.unsent() == rp.unsent()
                &&& mid.gaps() == rp.gaps()
                &&& mid.requested() == rp.requested()
                &&& mid.repair_mode <==> rp.all_acked_before@ <= last
            }
        }),
        mid.same_profile(rp),
{
    let asked = numbers_of(an.reader_sn_state.members@);
    assert forall|s: int| #[trigger] asked.contains(s) <==> an.reader_sn_state.has(s) by {}
    let p = mid.progress();
    assert(p.unsent == mid.unsent() && p.gaps == mid.gaps());
}

/// The positions come in ascending order, no more than `n` of them; each has its bit set,
/// and where one that is set is left out, there are `n` and all of them are lower.
proof fn lemma_first_set(bits: Seq<bool>, from: int, n: nat)
    requires
        0 <= from,
    ensures
        ({
            let p = first_set(bits, from, n);
            &&& p.len() <= n
            &&& forall|i: int, j: int| 0 <= i < j < p.len() ==> p[i] < p[j]
            &&& forall|i: int|
                0 <= i < p.len() ==> from <= #[trigger] p[i] < bits.len() && bits[p[i]]
            &&& forall|x: int|
                from <= x < bits.len() && #[trigger] bits[x] && !p.contains(x) ==> p.len() == n
                    && forall|i: int| 0 <= i < p.len() ==> #[trigger] p[i] < x
        }),
    decreases n,
{
    let p = first_set(bits, from, n);
    if n > 0 {
        lemma_next_set(bits, from);
        lemma_none_before_next(bits, from);
        match next_set(bits, from) {
            None => {},
            Some(k) => {
                let rest = first_set(bits, k + 1, (n - 1) as nat);
                lemma_first_set(bits, k + 1, (n - 1) as nat);
                assert(p == seq![k] + rest);
                assert forall|i: int| 0 <= i < p.len() implies from <= #[trigger] p[i]
                    < bits.len() && bits[p[i]] by {
                    if i > 0 {
                        assert(p[i] == rest[i - 1]);
                    }
                }
                assert forall|i: int, j: int| 0 <= i < j < p.len() implies p[i] < p[j] by {
                    assert(p[j] == rest[j - 1]);
                    if i > 0 {
                        assert(p[i] == rest[i - 1]);
                    }
                }
                assert forall|x: int|
                    from <= x < bits.len() && #[trigger] bits[x] && !p.contains(x) implies p.len()
                    == n && forall|i: int| 0 <= i < p.len() ==> #[trigger] p[i] < x by {
                    assert(p[0] == k);
                    assert(x > k);
                    if rest.contains(x) {
                        let j = choose|j: int| 0 <= j < rest.len() && rest[j] == x;
                        assert(p[j + 1] == x);
                    }
                    assert forall|i: int| 0 <= i < p.len() implies #[trigger] p[i] < x by {
                        if i > 0 {
                            assert(p[i] == rest[i - 1]);
                        }
                    }
                }
            },
        }
    }
}

proof fn lemma_none_before_next(bits: Seq<bool>, from: int)
    requires
        0 <= from,
    ensures
        forall|x: int|
            from <= x < bits.len() && #[trigger] bits[x] ==> (next_set(bits, from) matches Some(k)
                && k <= x),
    decreases bits.len() - from,
{
    if from < bits.len() && !bits[from] {
        lemma_none_before_next(bits, from + 1);
    }
}

proof fn lemma_frag_message(cc: CacheChange, reader: EntityId, position: int, f: int)
    ensures
        ({
            let m = Writer::frag_message(cc, reader, position);
            let n = m.len() as int;
            &&& times_in_message(m, f) == (if f == position + 1 {
                1nat
            } else {
                0nat
            })
            &&& n >= 1
            &&& sample_of(m[n - 1]) == Some(cc.sequence_number@)
            &&& stamp_at(m, n - 1) == cc.write_options.source_timestamp
            &&& forall|i: int| 0 <= i < n - 1 ==> sample_of(#[trigger] m[i]) is None
        }),
{
    let m = Writer::frag_message(cc, reader, position);
    reveal_with_fuel(times_in_message, 3);
    reveal_with_fuel(stamp_at, 2);
    if m.len() == 2 {
        assert(m.drop_last() =~= seq![m[0]]);
        assert(seq![m[0]].drop_last() =~= Seq::empty());
    } else {
        assert(m.drop_last() =~= Seq::empty());
    }
}

proof fn lemma_times_of_frags(cc: CacheChange, reader: EntityId, positions: Seq<int>, f: int)
    requires
        forall|i: int, j: int| 0 <= i < j < positions.len() ==> positions[i] < positions[j],
    ensures
        times_carried(
            positions.map_values(|i: int| Writer::frag_message(cc, reader, i)),
            f,
        ) == (if positions.contains(f - 1) {
            1nat
        } else {
            0nat
        }),
    decreases positions.len(),
{
    let text = |i: int| Writer::frag_message(cc, reader, i);
    let ms = positions.map_values(text);
    if positions.len() > 0 {
        let rest = positions.drop_last();
        let last = positions.last();
        lemma_times_of_frags(cc, reader, rest, f);
        lemma_frag_message(cc, reader, last, f);
        assert(ms.drop_last() =~= rest.map_values(text));
        assert(ms.last() == Writer::frag_message(cc, reader, last));
        assert(positions[positions.len() - 1] == last);
        if rest.contains(f - 1) {
            let k = choose|k: int| 0 <= k < rest.len() && rest[k] == f - 1;
            assert(positions[k] == f - 1);
        } else if positions.contains(f - 1) {
            let k = choose|k: int| 0 <= k < positions.len() && positions[k] == f - 1;
            if k < rest.len() {
                assert(rest[k] == f - 1);
            }
        }
    }
}

/// What is sent in one burst of a sample of which a reader asked for fragments, and what
/// it still waits for then. Each fragment that goes out was asked for, goes out once, and
/// then is no longer waited for; what is not sent still is. As many go out as may in one
/// burst, the lowest first.
pub open spec fn is_burst(
    messages: Seq<Seq<SubmessageView>>,
    cc: CacheChange,
    reader: EntityId,
    asked: Seq<bool>,
    left: Seq<bool>,
) -> bool {
    &&& messages.len() <= MAX_REPAIR_FRAGS
    &&& forall|f: int| #[trigger] times_carried(messages, f) <= 1
    &&& forall|f: int| #[trigger]
        times_carried(messages, f) == 1 ==> 1 <= f <= asked.len() && asked[f - 1]
    &&& left.len() == asked.len()
    &&& forall|f: int|
        1 <= f <= asked.len() ==> (left[f - 1] <==> asked[f - 1] && #[trigger] times_carried(
            messages,
            f,
        ) == 0)
    &&& forall|f: int, g: int|
        #![trigger times_carried(messages, f), times_carried(messages, g)]
        1 <= f <= asked.len() && left[f - 1] && times_carried(messages, g) == 1 ==> g < f
            && messages.len() == MAX_REPAIR_FRAGS
    &&& forall|j: int|
        0 <= j < messages.len() ==> is_fragment_of(#[trigger] messages[j], cc, reader)
}

/// The message carries a fragment of the sample, with the timestamp that it was written
/// with, for the given reader.
pub open spec fn is_fragment_of(
    message: Seq<SubmessageView>,
    cc: CacheChange,
    reader: EntityId,
) -> bool {
    let n = message.len() as int;
    &&& n >= 1
    &&& forall|i: int| 0 <= i < n - 1 ==> sample_of(#[trigger] message[i]) is None
    &&& stamp_at(message, n - 1) == cc.write_options.source_timestamp
    &&& message[n - 1] matches SubmessageView::DataFrag {
        reader: id,
        writer_sn,
        fragments,
        fragment_size,
        sample_size,
        ..
    } && {
        &&& id == reader
        &&& writer_sn == cc.sequence_number@
        &&& fragments == 1
        &&& fragment_size == FRAGMENT_SIZE
        &&& cc.data_value.spec_payload_size() <= u32::MAX ==> sample_size
            == cc.data_value.spec_payload_size()
    }
}

/// A reader that asked for fragments gets those of its lowest sample, the lowest first, a
/// burst at a time and each once; nothing of what it asked for is forgotten before it was
/// sent. Fragments of a sample that is meant for another are not sent.
pub proof fn law_fragments_are_sent_as_asked(
    writer: Writer,
    rp: RtpsReaderProxy,
    buffer: WriterSendBuffer,
    sn: int,
)
    requires
        buffer.wf(),
        is_lowest(rp.requested().dom(), sn),
        buffer.changes@.contains_key(sn),
    ensures
        ({
            let cc = buffer.changes@[sn];
            let actions = writer.frag_repair_actions(rp, buffer);
            let after = Writer::frags_repaired(rp, buffer);
            let asked = rp.requested()[sn];
            let left = if after.requested.contains_key(sn) {
                after.requested[sn]
            } else {
                Seq::new(asked.len(), |i: int| false)
            };
            let for_another = cc.write_options.to_single_reader matches Some(g) && g
                != rp.remote_reader_guid;
            &&& for_another ==> actions.len() == 0 && after == rp.progress()
            &&& !for_another ==> is_burst(
                messages_in(actions),
                cc,
                rp.remote_reader_guid.entity_id,
                asked,
                left,
            )
            &&& forall|i: int| 0 <= i < actions.len() ==> is_sent_to(#[trigger] actions[i], rp)
            &&& after.unsent == rp.unsent()
            &&& after.gaps == rp.gaps()
            &&& after.all_acked_before == rp.all_acked_before
            &&& after.repair_mode == rp.repair_mode
            &&& forall|s: int|
                s != sn ==> (#[trigger] after.requested.contains_key(s)
                    <==> rp.requested().contains_key(s))
            &&& forall|s: int| #[trigger]
                after.requested.contains_key(s) && s != sn ==> after.requested[s]
                    == rp.requested()[s]
        }),
{
    let p = rp.progress();
    let cc = buffer.changes@[sn];
    let asked = rp.requested()[sn];
    let actions = writer.frag_repair_actions(rp, buffer);
    let after = Writer::frags_repaired(rp, buffer);
    let reader = rp.remote_reader_guid.entity_id;
    let burst = Writer::burst(p);
    let text = |i: int| Writer::frag_message(cc, reader, i);
    let ms = burst.map_values(text);
    let emissions = writer.emissions_to(rp);
    lemma_lowest(rp.requested().dom(), sn);
    assert(rp.requested().dom().contains(sn));
    assert(p.requested != Map::<int, Seq<bool>>::empty());
    lemma_first_set(asked, 0, MAX_REPAIR_FRAGS as nat);
    law_plan_reaches_each_reader(
        DeliveryMode::Unicast,
        seq![rp],
        writer.extra_unicast_destinations@,
    );
    assert(seq![rp][0] == rp);
    if !is_for_another(cc, rp.remote_reader_guid) {
        if burst.len() > 0 {
            assert(actions == sends(ms, rp.remote_reader_guid, emissions));
        } else {
            assert(ms =~= Seq::empty());
            assert(actions =~= sends(ms, rp.remote_reader_guid, emissions));
        }
        lemma_messages_of_sends(ms, rp.remote_reader_guid, emissions);
        assert forall|f: int| #[trigger]
            times_carried(ms, f) == (if burst.contains(f - 1) {
                1nat
            } else {
                0nat
            }) by {
            lemma_times_of_frags(cc, reader, burst, f);
        }
        assert forall|j: int| 0 <= j < ms.len() implies is_fragment_of(
            #[trigger] ms[j],
            cc,
            reader,
        ) by {
            lemma_frag_message(cc, reader, burst[j], 0);
        }
        let left = if after.requested.contains_key(sn) {
            after.requested[sn]
        } else {
            Seq::new(asked.len(), |i: int| false)
        };
        let cut = cleared(asked, burst);
        assert forall|f: int|
            1 <= f <= asked.len() implies (left[f - 1] <==> asked[f - 1]
            && #[trigger] times_carried(ms, f) == 0) by {
            assert(cut[f - 1] <==> asked[f - 1] && !burst.contains(f - 1));
            if burst.len() > 0 && !some_bit(cut) {
                assert(!cut[f - 1]);
            }
        }
        assert forall|f: int, g: int|
            #![trigger times_carried(ms, f), times_carried(ms, g)]
            1 <= f <= asked.len() && left[f - 1] && times_carried(ms, g) == 1 implies g < f
            && ms.len() == MAX_REPAIR_FRAGS by {
            assert(asked[f - 1] && !burst.contains(f - 1));
            let k = choose|k: int| 0 <= k < burst.len() && burst[k] == g - 1;
            assert(burst[k] < f - 1);
        }
    }
}

/// After a request for fragments each of them is waited for, with what was waited for
/// before and nothing else; and a burst is due after the response delay.
pub proof fn law_requested_fragments_are_waited_for(
    before: Writer,
    after: Writer,
    actions: Seq<ActionView>,
    reader: GUID,
    nf: NackFrag,
    f: int,
)
    requires
        before.is_nack_frag_result(after, actions, reader, nf),
        before.readers@.contains_key(reader.rank()),
        f >= 1,
        forall|i: int|
            0 <= i < nf.fragment_number_state.members@.len() ==> (
            #[trigger] nf.fragment_number_state.members@[i])@ >= 1,
    ensures
        ({
            let k = reader.rank();
            let sn = nf.writer_sn@;
            let asked = after.readers@[k].requested()[sn];
            let old_asked = before.readers@[k].requested()[sn];
            &&& after.readers@[k].requested().contains_key(sn)
            &&& f <= asked.len() && asked[f - 1] <==> names_fragment(
                nf.fragment_number_state.members@,
                f,
            ) || (before.readers@[k].requested().contains_key(sn) && f <= old_asked.len()
                && old_asked[f - 1])
            &&& after.readers@[k].unsent() == before.readers@[k].unsent()
            &&& after.readers@[k].gaps() == before.readers@[k].gaps()
            &&& after.readers@[k].all_acked_before == before.readers@[k].all_acked_before
        }),
        actions.len() == 1,
        actions[0] matches ActionView::SetTimer(t) && t.after == before.nackfrag_response_delay
            && t.event == (TimedEvent::SendRepairFrags { to_reader: reader }),
        forall|k: int| #[trigger]
            before.readers@.contains_key(k) && k != reader.rank() ==> after.readers@.contains_key(k)
                && after.readers@[k] == before.readers@[k],
{
    let k = reader.rank();
    let sn = nf.writer_sn@;
    let numbers = nf.fragment_number_state.members@;
    let rp = before.readers@[k];
    let start = if rp.requested().contains_key(sn) {
        rp.requested()[sn]
    } else {
        Seq::empty()
    };
    lemma_bits_needed(start.len(), numbers);
    let p = after.readers@[k].progress();
    assert(p.requested == after.readers@[k].requested());
    assert forall|j: int| #[trigger]
        before.readers@.contains_key(j) && j != k implies after.readers@.contains_key(j)
        && after.readers@[j] == before.readers@[j] by {
        assert(before.readers@.remove(k).contains_key(j));
        assert(before.readers@.remove(k)[j] == before.readers@[j]);
        assert(after.readers@.remove(k)[j] == after.readers@[j]);
    }
}

/// After an acknowledgement a reader that still lacks something is served: at once for
/// discovery, else after the response delay; and it is told again what it will not get. No
/// other reader is touched.
pub proof fn law_acknowledgement_is_answered(
    before: Writer,
    after: Writer,
    actions: Seq<ActionView>,
    buffer: WriterSendBuffer,
    reader: GUID,
    an: AckNack,
) -> (mid: RtpsReaderProxy)
    requires
        before.wf(),
        before.is_ack_result(after, actions, buffer, reader, an),
        before.readers@.contains_key(reader.rank()),
    ensures
        is_acked(mid, before.readers@[reader.rank()], an, buffer.last_seq@),
        mid.remote_reader_guid == reader,
        ({
            let built_in = before.my_guid.entity_id.entity_kind.spec_is_built_in();
            let lacks = mid.all_acked_before@ <= buffer.last_seq@;
            let told = mid.gaps() != Set::<int>::empty();
            let head: int = if lacks && !built_in {
                1
            } else {
                0
            };
            &&& lacks && !built_in ==> actions.len() >= 1 && (actions[0] matches ActionView::SetTimer(
                t,
            ) && t.after == before.nack_response_delay && t.event == (TimedEvent::SendRepairData {
                to_reader: reader,
            }))
            &&& told ==> {
                &&& actions.len() > head
                &&& is_sent_to(actions[head], mid)
                &&& actions[head]->message == seq![
                    SubmessageView::Gap { reader_guid: reader, numbers: mid.gaps() },
                ]
            }
            &&& lacks && built_in ==> exists|repair: Seq<ActionView>| #[trigger]
                before.is_repair(repair, mid, buffer) && actions.skip(
                    if told {
                        1
                    } else {
                        0
                    },
                ) == repair
            &&& !(lacks && built_in) ==> after.readers@[reader.rank()].progress()
                == mid.progress() && actions.len() == head + (if told {
                1int
            } else {
                0
            })
        }),
        forall|k: int| #[trigger]
            before.readers@.contains_key(k) && k != reader.rank() ==> after.readers@.contains_key(k)
                && after.readers@[k] == before.readers@[k],
{
    let k = reader.rank();
    let (mid, repair) = choose|mid: RtpsReaderProxy, repair: Seq<ActionView>| #[trigger]
        before.is_served(
            mid,
            repair,
            before.readers@[k],
            after.readers@[k],
            actions,
            buffer,
            an,
        );
    GUID::lemma_rank_injective(mid.remote_reader_guid, reader);
    law_plan_reaches_each_reader(
        DeliveryMode::Unicast,
        seq![mid],
        before.extra_unicast_destinations@,
    );
    assert(seq![mid][0] == mid);
    if before.repairs_at_once(mid) {
        let n = if mid.gaps() != Set::<int>::empty() {
            1
        } else {
            0
        };
        assert(actions.skip(n) =~= repair);
    }
    assert forall|j: int| #[trigger]
        before.readers@.contains_key(j) && j != k implies after.readers@.contains_key(j)
        && after.readers@[j] == before.readers@[j] by {
        assert(before.readers@.remove(k).contains_key(j));
        assert(before.readers@.remove(k)[j] == before.readers@[j]);
        assert(after.readers@.remove(k)[j] == after.readers@[j]);
    }
    mid
}

/// Heartbeats come again and again: at the fast period, where there is one, as long as some
/// reader is behind, and else at the usual one. Each time whoever is behind is prompted.
pub proof fn law_heartbeats_recur(
    before: Writer,
    buffer: WriterSendBuffer,
    now: Timestamp,
    after: Writer,
    buffer_after: WriterSendBuffer,
    actions: Seq<ActionView>,
)
    requires
        buffer.wf(),
        before.readers.listed(),
        before.is_timed_result(
            buffer,
            TimedEvent::Heartbeat,
            now,
            after,
            buffer_after,
            actions,
        ),
    ensures
        ({
            let behind = !before.like_stateless && exists|k: int| #[trigger]
                before.readers@.contains_key(k) && is_behind(before.readers@[k], buffer);
            let period = if behind && before.heartbeat_period_fast is Some {
                before.heartbeat_period_fast
            } else {
                before.heartbeat_period
            };
            &&& match period {
                Some(d) => {
                    &&& actions.len() > 0
                    &&& actions.last() == ActionView::SetTimer(
                        TimerRequest { after: d, event: TimedEvent::Heartbeat },
                    )
                    &&& is_prompting(actions.drop_last(), before, buffer, now, false)
                },
                None => is_prompting(actions, before, buffer, now, false),
            }
            &&& buffer_after == buffer
            &&& after.readers == before.readers
            &&& behind ==> after.heartbeat_message_counter != before.heartbeat_message_counter
        }),
{
    law_heartbeats_prompt_whoever_is_behind(before, buffer, now, false);
    let sent = before.heartbeat_actions(buffer, now, false);
    if before.readers_behind(buffer) {
        let k = choose|k: int| #[trigger]
            before.readers@.contains_key(k) && buffer.last_seq@
                >= before.readers@[k].all_acked_before@;
        assert(before.readers@.contains_key(k) && is_behind(before.readers@[k], buffer));
    }
    if actions.len() > sent.len() {
        assert(actions.drop_last() =~= sent);
    } else {
        assert(actions =~= sent);
    }
}

/// Cleaning comes again after its period, each time with what the policies leave.
pub proof fn law_cleaning_recurs(
    before: Writer,
    buffer: WriterSendBuffer,
    now: Timestamp,
    after: Writer,
    buffer_after: WriterSendBuffer,
    actions: Seq<ActionView>,
    acked: int,
)
    requires
        buffer.wf(),
        before.readers.listed(),
        is_acked_by_all(before.readers@, acked),
        before.is_timed_result(
            buffer,
            TimedEvent::CacheCleaning,
            now,
            after,
            buffer_after,
            actions,
        ),
    ensures
        is_cleaned(buffer, buffer_after, before.qos_policies, before.like_stateless, acked),
        actions == seq![
            ActionView::SetTimer(
                TimerRequest {
                    after: before.cache_cleaning_period,
                    event: TimedEvent::CacheCleaning,
                },
            ),
        ],
        after == before,
{
    law_cleaning_keeps_the_history(before, buffer, buffer_after, acked);
}

/// A repair of a matched reader goes on, a fifth of its deadline later, until there is
/// nothing more to be sent to it; no other reader is touched.
pub proof fn law_repair_goes_on_until_done(
    before: Writer,
    buffer: WriterSendBuffer,
    now: Timestamp,
    to_reader: GUID,
    after: Writer,
    buffer_after: WriterSendBuffer,
    actions: Seq<ActionView>,
) -> (repair: Seq<ActionView>)
    requires
        !before.like_stateless,
        before.readers@.contains_key(to_reader.rank()),
        before.is_timed_result(
            buffer,
            (TimedEvent::SendRepairData { to_reader }),
            now,
            after,
            buffer_after,
            actions,
        ),
    ensures
        ({
            let k = to_reader.rank();
            let rp = before.readers@[k];
            let served = after.readers@[k];
            let period = match before.qos_policies.deadline {
                Some(deadline) => deadline.ticks as int,
                None => 0x1_0000_0000int / 1000,
            };
            &&& before.is_repair(repair, rp, buffer)
            &&& served.progress() == before.repaired(rp, buffer)
            &&& served.repair_mode <==> rp.repair_mode && rp.unsent() != Set::<int>::empty()
            &&& !served.repair_mode ==> actions == repair
            &&& served.repair_mode ==> actions.len() > 0 && actions.drop_last() == repair && (
            actions.last() matches ActionView::SetTimer(t) && t.event
                == (TimedEvent::SendRepairData { to_reader }) && (period >= 0 ==> 5 * t.after.ticks
                <= period < 5 * (t.after.ticks + 1)))
            &&& forall|j: int| #[trigger]
                before.readers@.contains_key(j) && j != k ==> after.readers@.contains_key(j)
                    && after.readers@[j] == before.readers@[j]
        }),
{
    let k = to_reader.rank();
    let rp = before.readers@[k];
    let event = TimedEvent::SendRepairData { to_reader };
    let again = if after.readers@[k].repair_mode {
        timer(before.repair_delay(), event)
    } else {
        Seq::empty()
    };
    let repair = choose|repair: Seq<ActionView>|
        actions == repair + again && #[trigger] before.is_repair(repair, rp, buffer);
    let p = after.readers@[k].progress();
    assert(p.repair_mode == after.readers@[k].repair_mode);
    if after.readers@[k].repair_mode {
        assert(actions.drop_last() =~= repair);
    } else {
        assert(actions =~= repair);
    }
    assert forall|j: int| #[trigger]
        before.readers@.contains_key(j) && j != k implies after.readers@.contains_key(j)
        && after.readers@[j] == before.readers@[j] by {
        assert(before.readers@.remove(k).contains_key(j));
        assert(before.readers@.remove(k)[j] == before.readers@[j]);
        assert(after.readers@.remove(k)[j] == after.readers@[j]);
    }
    repair
}

/// Bursts of fragments go on, after the delay between them, until the reader waits for none.
pub proof fn law_bursts_go_on_until_done(
    before: Writer,
    buffer: WriterSendBuffer,
    now: Timestamp,
    to_reader: GUID,
    after: Writer,
    buffer_after: WriterSendBuffer,
    actions: Seq<ActionView>,
)
    requires
        !before.like_stateless,
        before.readers@.contains_key(to_reader.rank()),
        before.is_timed_result(
            buffer,
            (TimedEvent::SendRepairFrags { to_reader }),
            now,
            after,
            buffer_after,
            actions,
        ),
    ensures
        ({
            let k = to_reader.rank();
            let rp = before.readers@[k];
            let served = after.readers@[k];
            let sent = before.frag_repair_actions(rp, buffer);
            let waits = exists|s: int, i: int|
                #![trigger served.requested()[s][i]]
                served.requested().contains_key(s) && 0 <= i < served.requested()[s].len()
                    && served.requested()[s][i];
            &&& served.progress() == Writer::frags_repaired(rp, buffer)
            &&& !waits ==> actions == sent
            &&& waits ==> actions.len() > 0 && actions.drop_last() == sent && actions.last()
                == ActionView::SetTimer(
                TimerRequest {
                    after: before.repairfrags_continue_delay,
                    event: TimedEvent::SendRepairFrags { to_reader },
                },
            )
            &&& forall|j: int| #[trigger]
                before.readers@.contains_key(j) && j != k ==> after.readers@.contains_key(j)
                    && after.readers@[j] == before.readers@[j]
        }),
{
    let k = to_reader.rank();
    let served = after.readers@[k];
    let sent = before.frag_repair_actions(before.readers@[k], buffer);
    if exists|s: int| #[trigger]
        served.requested().contains_key(s) && some_bit(served.requested()[s]) {
        let s = choose|s: int| #[trigger]
            served.requested().contains_key(s) && some_bit(served.requested()[s]);
        let i = choose|i: int|
            0 <= i < served.requested()[s].len() && #[trigger] served.requested()[s][i];
        assert(served.requested()[s][i]);
        assert(actions.drop_last() =~= sent);
    } else {
        assert forall|s: int, i: int|
            #![trigger served.requested()[s][i]]
            !(served.requested().contains_key(s) && 0 <= i < served.requested()[s].len()
                && served.requested()[s][i]) by {
            if served.requested().contains_key(s) {
                assert(!some_bit(served.requested()[s]));
            }
        }
        assert(actions =~= sent);
    }
    assert forall|j: int| #[trigger]
        before.readers@.contains_key(j) && j != k implies after.readers@.contains_key(j)
        && after.readers@[j] == before.readers@[j] by {
        assert(before.readers@.remove(k).contains_key(j));
        assert(before.readers@.remove(k)[j] == before.readers@[j]);
        assert(after.readers@.remove(k)[j] == after.readers@[j]);
    }
}

/// What a reader has and asks for is taken in by a reliable writer that tracks its readers,
/// and by no other, for the reader that it comes from. After that a number counts as
/// acknowledged exactly if every reliable reader has acknowledged it.
pub proof fn law_acknowledgements_count_for_their_reader(
    before: Writer,
    buffer: WriterSendBuffer,
    prefix: GuidPrefix,
    ack: AckSubmessage,
    after: Writer,
    buffer_after: WriterSendBuffer,
    actions: Seq<ActionView>,
    target: int,
) -> (response: Seq<ActionView>)
    requires
        after.readers.listed(),
        before.is_ack_handled(buffer, prefix, ack, after, buffer_after, actions),
    ensures
        ({
            let takes = (before.qos_policies.reliability matches Some(
                Reliability::Reliable { .. },
            )) && !before.like_stateless;
            &&& !takes ==> after == before && buffer_after == buffer && actions.len() == 0
            &&& takes ==> match ack {
                AckSubmessage::AckNack(an) => before.is_ack_result(
                    after,
                    response,
                    buffer,
                    (GUID { prefix, entity_id: an.reader_id }),
                    an,
                ),
                AckSubmessage::NackFrag(nf) => before.is_nack_frag_result(
                    after,
                    response,
                    (GUID { prefix, entity_id: nf.reader_id }),
                    nf,
                ),
            }
            &&& takes ==> response.len() <= actions.len() && forall|i: int|
                0 <= i < response.len() ==> #[trigger] actions[i] == response[i]
            &&& takes ==> forall|i: int|
                response.len() <= i < actions.len() ==> #[trigger] actions[i] is Wake
            &&& takes ==> (buffer_after.acked_through(target) <==> forall|k: int| #[trigger]
                after.readers@.contains_key(k) && (
                after.readers@[k].qos.reliability matches Some(Reliability::Reliable { .. }))
                    ==> target < after.readers@[k].all_acked_before@)
            &&& buffer_after.changes@ == buffer.changes@
        }),
{
    if before.qos_policies.spec_is_reliable() && !before.like_stateless {
        let (response, woken) = choose|
            response: Seq<ActionView>,
            woken: Option<Vec<WakerId>>,
        |
            actions == response + #[trigger] wake_view(woken) && buffer_after.has_frontier(
                buffer,
                after.acked_frontier(),
                woken,
            ) && #[trigger] before.is_reply(after, response, buffer, prefix, ack);
        law_every_reliable_reader_has_to_acknowledge(after, buffer, buffer_after, woken, target);
        response
    } else {
        Seq::empty()
    }
}

} // verus!
