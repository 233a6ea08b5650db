//! Matching a writer with readers, and losing them.

use vstd::prelude::*;

use crate::dds::qos::{is_changed, Durability, QosPolicies, QosPolicyId, Reliability};
use crate::network::util::{spec_path_mtu_payload_for_peer, IfAddr};
use crate::rtps::constant::FALLBACK_MAX_AGGREGATED_DATAGRAM_SIZE;
use crate::rtps::message::Message;
use crate::rtps::message_walk::{times_carried, whole_samples};
use crate::rtps::rtps_reader_proxy::{
    external_part, has_loopback, law_budget_fits_every_locator,
    law_parts_are_by_the_loopback_interface, loopback_part, smallest_budget, Progress,
    RtpsReaderProxy,
};
use crate::rtps::send_plan::{
    in_order, law_plan_reaches_each_reader, lemma_place, plan_for_one, DeliveryMode, Emission,
};
use crate::rtps::transmit::{
    is_route_for, law_route_goes_back_the_way_messages_came, DefaultRouteSelector,
    InterfaceObservations, InterfaceSelector,
};
use crate::rtps::writer::{law_every_reliable_reader_has_to_acknowledge, next_count, Writer};
use crate::rtps::writer_repair::{
    act, declares_lost, is_answer, is_lowest, is_prompt, is_sent_to,
    law_repair_answers_the_reader, lemma_heartbeat_message, messages_in, views, wake_view,
    ActionView, CountWithChange, DataWriterStatus, ParticipantStatusEvent, WriterAction,
};
use crate::rtps::writer_send_buffer::{WakerId, WriterSendBuffer};
use crate::structure::guid::{EntityId, GuidPrefix, GUID};
use crate::structure::lists::lemma_joined;
use crate::structure::locator::Locator;
use crate::structure::sorted_map::SortKey;
use crate::structure::time::Timestamp;

verus! {

/// What is known of the network, from which routes are chosen.
pub struct Surroundings {
    pub observations: InterfaceObservations,
    pub multicast_ifaces: Vec<InterfaceSelector>,
    pub local_interfaces: Vec<IfAddr>,
}

/// The smallest datagram budget of the readers of a list.
pub open spec fn smallest_payload(readers: Seq<RtpsReaderProxy>) -> Option<usize>
    decreases readers.len(),
{
    if readers.len() == 0 {
        None
    } else {
        match smallest_payload(readers.drop_last()) {
            Some(n) if n <= readers.last().max_datagram_payload => Some(n),
            _ => Some(readers.last().max_datagram_payload),
        }
    }
}

/// The route and the budget of a reader are chosen from where it is reached.
pub open spec fn is_routed(
    rp: RtpsReaderProxy,
    surroundings: Surroundings,
    prefer_loopback_same_host: bool,
) -> bool {
    &&& rp.send_route == (DefaultRouteSelector { prefer_loopback_same_host }).route(
        rp.unicast_locator_list@,
        rp.multicast_locator_list@,
        rp.loopback_unicast_locators@,
        surroundings.observations.spec_get(rp.remote_reader_guid.prefix),
        surroundings.multicast_ifaces@,
    )
    &&& rp.max_datagram_payload == match smallest_budget(
        rp.unicast_locator_list@ + rp.loopback_unicast_locators@,
        surroundings.local_interfaces@,
    ) {
        Some(budget) => budget,
        None => FALLBACK_MAX_AGGREGATED_DATAGRAM_SIZE as int,
    }
}

/// `after` is reader `before` with what discovery tells anew.
pub open spec fn is_updated(
    after: RtpsReaderProxy,
    before: RtpsReaderProxy,
    update: RtpsReaderProxy,
) -> bool {
    &&& after.same_identity(before)
    &&& after.same_progress(before)
    &&& after.expects_in_line_qos == update.expects_in_line_qos
    &&& after.qos == before.qos.spec_modify_by(update.qos)
    &&& after.unicast_locator_list@ == external_part(update.all_unicast())
    &&& after.loopback_unicast_locators@ == loopback_part(update.all_unicast())
    &&& after.multicast_locator_list@ == update.multicast_locator_list@
}

/// `after` is the new reader `update` as it is taken in: the loopback locators apart, and
/// for a volatile writer nothing of what was written before.
pub open spec fn is_taken_in(
    after: RtpsReaderProxy,
    update: RtpsReaderProxy,
    volatile: bool,
    last_seq: int,
) -> bool {
    let all = update.unicast_locator_list@ + update.loopback_unicast_locators@;
    &&& after.same_identity(update)
    &&& after.same_policies(update)
    &&& after.multicast_locator_list@ == update.multicast_locator_list@
    &&& has_loopback(update.unicast_locator_list@) ==> after.unicast_locator_list@
        == external_part(all) && after.loopback_unicast_locators@ == loopback_part(all)
    &&& !has_loopback(update.unicast_locator_list@) ==> after.same_places(update)
    &&& after.progress() == (Progress {
        gaps: if volatile {
            update.gaps().union(Set::new(|s: int| 1 <= s <= last_seq))
        } else {
            update.gaps()
        },
        ..update.progress()
    })
}

impl Writer {
    pub open spec fn min_payload_of_readers(self) -> usize {
        match smallest_payload(in_order(self.readers)) {
            Some(n) => n,
            None => FALLBACK_MAX_AGGREGATED_DATAGRAM_SIZE,
        }
    }

    /// Computes anew how many bytes fit in a datagram to all readers.
    fn recompute_min_datagram_payload(&mut self)
        ensures
            *final(self) == (Writer {
                min_datagram_payload: old(self).min_payload_of_readers(),
                ..*old(self)
            }),
    {
        let ghost all = in_order(self.readers);
        let mut least: Option<usize> = None;
        let n: usize = self.readers.len();
        let mut i: usize = 0;
        while i < n
            invariant
                i <= n,
                n == self.readers.keys().len(),
                all == in_order(self.readers),
                least == smallest_payload(all.take(i as int)),
            decreases n - i,
        {
            let payload: usize = self.readers.value_at(i).max_datagram_payload();
            i += 1;
            proof {
                assert(all.take(i as int).drop_last() =~= all.take(i - 1));
                assert(all.take(i as int).last() == all[i - 1]);
            }
            least = match least {
                Some(m) => if m <= payload {
                    Some(m)
                } else {
                    Some(payload)
                },
                None => Some(payload),
            };
        }
        assert(all.take(i as int) =~= all);
        self.min_datagram_payload = match least {
            Some(m) => m,
            None => FALLBACK_MAX_AGGREGATED_DATAGRAM_SIZE,
        };
    }

    /// Takes a reader in, or what discovery tells anew about a matched one; what is
    /// tracked of it is kept. Gives whether the reader is new.
    fn matched_reader_update(
        &mut self,
        send_buffer: &WriterSendBuffer,
        updated_reader_proxy: RtpsReaderProxy,
        surroundings: &Surroundings,
    ) -> (is_new: bool)
        requires
            old(self).wf(),
        ensures
            final(self).wf(),
            ({
                let k = updated_reader_proxy.remote_reader_guid.rank();
                let rp = final(self).readers@[k];
                &&& is_new == !old(self).readers@.contains_key(k)
                &&& final(self).readers@.dom() == old(self).readers@.dom().insert(k)
                &&& final(self).readers@.remove(k) == old(self).readers@.remove(k)
                &&& is_routed(rp, *surroundings, old(self).prefer_loopback_same_host)
                &&& is_new ==> is_taken_in(
                    rp,
                    updated_reader_proxy,
                    old(self).qos_policies.spec_is_volatile(),
                    send_buffer.last_seq@,
                )
                &&& is_new ==> joins(
                    rp,
                    updated_reader_proxy,
                    old(self).qos_policies,
                    send_buffer.last_seq@,
                )
                &&& !is_new ==> is_updated(rp, old(self).readers@[k], updated_reader_proxy)
                &&& rp.remote_reader_guid == updated_reader_proxy.remote_reader_guid
            }),
            *final(self) == (Writer {
                readers: final(self).readers,
                min_datagram_payload: final(self).min_payload_of_readers(),
                ..*old(self)
            }),
    {
        let guid: GUID = updated_reader_proxy.remote_reader_guid;
        let ghost k = guid.rank();
        let selector: DefaultRouteSelector = DefaultRouteSelector::new(
            self.prefer_loopback_same_host,
        );
        let mut is_new: bool = false;
        let mut reader_proxy: RtpsReaderProxy = match self.readers.remove(&guid) {
            Some(mut rp) => {
                proof {
                    GUID::lemma_rank_injective(rp.remote_reader_guid, guid);
                }
                rp.update(&updated_reader_proxy);
                rp
            },
            None => {
                is_new = true;
                let mut new_proxy: RtpsReaderProxy = updated_reader_proxy;
                new_proxy.normalize_loopback();
                if self.qos_policies.is_volatile() {
                    new_proxy.set_pending_gap_up_to(send_buffer.last_change_sequence_number());
                }
                assert(new_proxy.progress() =~= (Progress {
                    gaps: if self.qos_policies.spec_is_volatile() {
                        updated_reader_proxy.gaps().union(
                            Set::new(|s: int| 1 <= s <= send_buffer.last_seq@),
                        )
                    } else {
                        updated_reader_proxy.gaps()
                    },
                    ..updated_reader_proxy.progress()
                }));
                new_proxy
            },
        };
        let ghost settled = reader_proxy;
        let ghost last = send_buffer.last_seq@;
        reader_proxy.resolve_send_route(
            &surroundings.observations,
            &surroundings.multicast_ifaces,
            &selector,
        );
        reader_proxy.resolve_path_mtu(&surroundings.local_interfaces);
        assert(reader_proxy.progress() =~= settled.progress());
        proof {
            if is_new {
                law_late_joiner_gets_what_is_durable(
                    reader_proxy,
                    updated_reader_proxy,
                    *self,
                    last,
                );
            }
        }
        self.readers.insert(guid, reader_proxy);
        assert(self.readers@.dom() =~= old(self).readers@.dom().insert(k));
        assert(self.readers@.remove(k) =~= old(self).readers@.remove(k));
        self.recompute_min_datagram_payload();
        is_new
    }

    pub fn set_extra_unicast_destinations(&mut self, locators: Vec<Locator>)
        ensures
            *final(self) == (Writer { extra_unicast_destinations: locators, ..*old(self) }),
    {
        self.extra_unicast_destinations = locators;
    }

    pub fn set_prefer_loopback_same_host(&mut self, enabled: bool)
        ensures
            *final(self) == (Writer { prefer_loopback_same_host: enabled, ..*old(self) }),
    {
        self.prefer_loopback_same_host = enabled;
    }

    /// What is told about a reader that was matched, and what it is sent: a reliable
    /// writer prompts it at once to ask for what it misses.
    pub open spec fn match_actions(
        self,
        buffer: WriterSendBuffer,
        rp: RtpsReaderProxy,
        readers: nat,
        now: Timestamp,
    ) -> Seq<ActionView> {
        let told = seq![
            ActionView::Status(
                DataWriterStatus::PublicationMatched {
                    total: CountWithChange {
                        count: (self.matched_readers_count_total + 1) as i32,
                        change: 1,
                    },
                    current: CountWithChange { count: (readers as usize) as i32, change: 1 },
                    reader: rp.remote_reader_guid,
                },
            ),
            ActionView::ParticipantStatus(
                ParticipantStatusEvent::RemoteReaderMatched {
                    local_writer: self.my_guid,
                    remote_reader: rp.remote_reader_guid,
                },
            ),
        ];
        if self.qos_policies.spec_is_reliable() && !self.like_stateless {
            told.push(
                ActionView::Send {
                    message: self.heartbeat_message(buffer, now, false),
                    to: Some(rp.remote_reader_guid),
                    emissions: self.emissions_to(rp),
                },
            )
        } else {
            told
        }
    }

    /// What is told about a reader that asks for policies that the writer does not offer.
    pub open spec fn mismatch_actions(
        self,
        reader: GUID,
        requested_qos: QosPolicies,
        policy: QosPolicyId,
    ) -> Seq<ActionView> {
        seq![
            ActionView::Status(
                DataWriterStatus::OfferedIncompatibleQos {
                    count: CountWithChange {
                        count: (self.requested_incompatible_qos_count + 1) as i32,
                        change: 1,
                    },
                    last_policy_id: policy,
                    reader,
                    requested_qos,
                    offered_qos: self.qos_policies,
                },
            ),
            ActionView::ParticipantStatus(
                ParticipantStatusEvent::RemoteReaderQosIncompatible {
                    local_writer: self.my_guid,
                    remote_reader: reader,
                    requested_qos,
                    offered_qos: self.qos_policies,
                },
            ),
        ]
    }

    /// `after`, `buffer_after` and `actions` are what comes of what discovery tells about a
    /// reader.
    pub open spec fn is_match_result(
        self,
        buffer: WriterSendBuffer,
        update: RtpsReaderProxy,
        requested_qos: QosPolicies,
        failure: Option<QosPolicyId>,
        surroundings: Surroundings,
        now: Timestamp,
        after: Writer,
        buffer_after: WriterSendBuffer,
        actions: Seq<ActionView>,
    ) -> bool {
        match failure {
            Some(policy) => {
                &&& after == (Writer {
                    requested_incompatible_qos_count: (self.requested_incompatible_qos_count
                        + 1) as i32,
                    ..self
                })
                &&& buffer_after == buffer
                &&& actions == self.mismatch_actions(
                    update.remote_reader_guid,
                    requested_qos,
                    policy,
                )
            },
            None => {
                let k = update.remote_reader_guid.rank();
                let is_new = !self.readers@.contains_key(k);
                let rp = after.readers@[k];
                let reliable = self.qos_policies.spec_is_reliable() && !self.like_stateless;
                &&& after.readers@.dom() == self.readers@.dom().insert(k)
                &&& after.readers@.remove(k) == self.readers@.remove(k)
                &&& is_routed(rp, surroundings, self.prefer_loopback_same_host)
                &&& is_new ==> is_taken_in(
                    rp,
                    update,
                    self.qos_policies.spec_is_volatile(),
                    buffer.last_seq@,
                )
                &&& is_new ==> joins(
                    rp,
                    update,
                    self.qos_policies,
                    buffer.last_seq@,
                )
                &&& !is_new ==> is_updated(rp, self.readers@[k], update)
                &&& after == (Writer {
                    readers: after.readers,
                    min_datagram_payload: after.min_payload_of_readers(),
                    matched_readers_count_total: if is_new {
                        (self.matched_readers_count_total + 1) as i32
                    } else {
                        self.matched_readers_count_total
                    },
                    heartbeat_message_counter: if is_new && reliable {
                        next_count(self.heartbeat_message_counter)
                    } else {
                        self.heartbeat_message_counter
                    },
                    ..self
                })
                &&& exists|woken: Option<Vec<WakerId>>|
                    buffer_after.has_frontier(
                        buffer,
                        after.acked_frontier(),
                        woken,
                    ) && actions == #[trigger] wake_view(woken) + (if is_new {
                        self.match_actions(
                            buffer,
                            rp,
                            after.readers@.dom().len(),
                            now,
                        )
                    } else {
                        Seq::empty()
                    })
            },
        }
    }

    /// Matches a reader with the writer, or takes in what discovery tells anew about it.
    /// `failure` is the policy over which the two disagree, if they do.
    pub fn update_reader_proxy(
        &mut self,
        send_buffer: &mut WriterSendBuffer,
        reader_proxy: RtpsReaderProxy,
        requested_qos: &QosPolicies,
        failure: Option<QosPolicyId>,
        surroundings: &Surroundings,
        now: Timestamp,
    ) -> (actions: Vec<WriterAction>)
        requires
            old(self).wf(),
            old(send_buffer).wf(),
            failure is None ==> old(self).matched_readers_count_total < i32::MAX,
            failure is Some ==> old(self).requested_incompatible_qos_count < i32::MAX,
        ensures
            final(self).wf(),
            final(send_buffer).wf(),
            old(self).is_match_result(
                *old(send_buffer),
                reader_proxy,
                *requested_qos,
                failure,
                *surroundings,
                now,
                *final(self),
                *final(send_buffer),
                views(actions@),
            ),
    {
        let guid: GUID = reader_proxy.remote_reader_guid;
        let mut actions: Vec<WriterAction> = Vec::new();
        assert(views(actions@) =~= Seq::empty());
        match failure {
            Some(bad_policy_id) => {
                self.requested_incompatible_qos_count = self.requested_incompatible_qos_count + 1;
                act(
                    &mut actions,
                    WriterAction::Status(
                        DataWriterStatus::OfferedIncompatibleQos {
                            count: CountWithChange {
                                count: self.requested_incompatible_qos_count,
                                change: 1,
                            },
                            last_policy_id: bad_policy_id,
                            reader: guid,
                            requested_qos: *requested_qos,
                            offered_qos: self.qos_policies,
                        },
                    ),
                );
                act(
                    &mut actions,
                    WriterAction::ParticipantStatus(
                        ParticipantStatusEvent::RemoteReaderQosIncompatible {
                            local_writer: self.my_guid,
                            remote_reader: guid,
                            requested_qos: *requested_qos,
                            offered_qos: self.qos_policies,
                        },
                    ),
                );
                assert(views(actions@) =~= old(self).mismatch_actions(
                    guid,
                    *requested_qos,
                    bad_policy_id,
                ));
            },
            None => {
                let is_new: bool = self.matched_reader_update(
                    send_buffer,
                    reader_proxy,
                    surroundings,
                );
                let woken: Option<Vec<WakerId>> = self.refresh_acked_frontier(send_buffer);
                let ghost w = woken;
                if let Some(tasks) = woken {
                    act(&mut actions, WriterAction::Wake(tasks));
                }
                assert(views(actions@) =~= wake_view(w));
                if is_new {
                    self.matched_readers_count_total = self.matched_readers_count_total + 1;
                    let n: usize = self.readers.len();
                    act(
                        &mut actions,
                        WriterAction::Status(
                            DataWriterStatus::PublicationMatched {
                                total: CountWithChange {
                                    count: self.matched_readers_count_total,
                                    change: 1,
                                },
                                current: CountWithChange { count: n as i32, change: 1 },
                                reader: guid,
                            },
                        ),
                    );
                    act(
                        &mut actions,
                        WriterAction::ParticipantStatus(
                            ParticipantStatusEvent::RemoteReaderMatched {
                                local_writer: self.my_guid,
                                remote_reader: guid,
                            },
                        ),
                    );
                    if self.is_reliable() && !self.like_stateless {
                        let count: i32 = self.next_heartbeat_count();
                        let message: Message = Message::new().ts_msg(Some(now)).heartbeat_msg(
                            EntityId::unknown(),
                            send_buffer.first_change_sequence_number(),
                            send_buffer.last_change_sequence_number(),
                            count,
                            false,
                            false,
                        );
                        assert(message@ =~= old(self).heartbeat_message(
                            *old(send_buffer),
                            now,
                            false,
                        ));
                        if let Some(rp) = self.readers.get(&guid) {
                            let emissions: Vec<Emission> = plan_for_one(
                                DeliveryMode::Unicast,
                                rp,
                                &self.extra_unicast_destinations,
                            );
                            act(&mut actions, WriterAction::Send { message, to: Some(guid), emissions });
                        }
                    }
                    assert(views(actions@) =~= wake_view(w) + old(self).match_actions(
                        *old(send_buffer),
                        self.readers@[guid.rank()],
                        self.readers@.dom().len(),
                        now,
                    ));
                } else {
                    assert(views(actions@) =~= wake_view(w) + Seq::<ActionView>::empty());
                }
            },
        }
        actions
    }
}

/// The routes of the readers of one participant are chosen anew; the others are as before.
pub open spec fn is_rerouted(
    before: RtpsReaderProxy,
    after: RtpsReaderProxy,
    prefix: GuidPrefix,
    surroundings: Surroundings,
    prefer_loopback_same_host: bool,
) -> bool {
    if before.remote_reader_guid.prefix == prefix {
        &&& after.same_identity(before)
        &&& after.same_places(before)
        &&& after.same_policies(before)
        &&& after.same_progress(before)
        &&& is_routed(after, surroundings, prefer_loopback_same_host)
    } else {
        after == before
    }
}

/// The readers of `readers` that are not of the given participant.
pub open spec fn without_participant(
    readers: Map<int, RtpsReaderProxy>,
    prefix: GuidPrefix,
) -> Map<int, RtpsReaderProxy> {
    readers.restrict(Set::new(|k: int| readers[k].remote_reader_guid.prefix != prefix))
}

impl Writer {
    /// Chooses the routes to the readers of a participant anew, after fresh messages from
    /// it may have told more about the way to it.
    pub fn recompute_routes_for(&mut self, prefix: GuidPrefix, surroundings: &Surroundings)
        requires
            old(self).wf(),
        ensures
            final(self).wf(),
            final(self).readers@.dom() == old(self).readers@.dom(),
            forall|k: int| #[trigger]
                old(self).readers@.contains_key(k) ==> is_rerouted(
                    old(self).readers@[k],
                    final(self).readers@[k],
                    prefix,
                    *surroundings,
                    old(self).prefer_loopback_same_host,
                ),
            *final(self) == (Writer {
                readers: final(self).readers,
                min_datagram_payload: final(self).min_payload_of_readers(),
                ..*old(self)
            }),
    {
        let selector: DefaultRouteSelector = DefaultRouteSelector::new(
            self.prefer_loopback_same_host,
        );
        let keys: Vec<GUID> = self.readers.key_list();
        let ghost before = self.readers@;
        let ghost prefer = self.prefer_loopback_same_host;
        let mut i: usize = 0;
        while i < keys.len()
            invariant
                i <= keys@.len(),
                before == old(self).readers@,
                prefer == old(self).prefer_loopback_same_host,
                selector.prefer_loopback_same_host == prefer,
                self.wf(),
                *self == (Writer { readers: self.readers, ..*old(self) }),
                self.readers@.dom() == before.dom(),
                forall|j: int, k: int|
                    0 <= j < k < keys@.len() ==> keys@[j].rank() < keys@[k].rank(),
                forall|j: int|
                    0 <= j < keys@.len() ==> before.contains_key((#[trigger] keys@[j]).rank())
                        && before[keys@[j].rank()].remote_reader_guid.rank() == keys@[j].rank(),
                forall|j: int|
                    0 <= j < i ==> is_rerouted(
                        before[(#[trigger] keys@[j]).rank()],
                        self.readers@[keys@[j].rank()],
                        prefix,
                        *surroundings,
                        prefer,
                    ),
                forall|j: int|
                    i <= j < keys@.len() ==> self.readers@[(#[trigger] keys@[j]).rank()]
                        == before[keys@[j].rank()],
            decreases keys@.len() - i,
        {
            let key: GUID = keys[i];
            assert(before.contains_key(keys@[i as int].rank()));
            proof {
                GUID::lemma_rank_injective(before[key.rank()].remote_reader_guid, key);
            }
            if key.prefix == prefix {
                if let Some(mut rp) = self.readers.remove(&key) {
                    rp.resolve_send_route(
                        &surroundings.observations,
                        &surroundings.multicast_ifaces,
                        &selector,
                    );
                    rp.resolve_path_mtu(&surroundings.local_interfaces);
                    self.readers.insert(key, rp);
                }
            }
            assert(self.readers@.dom() =~= before.dom());
            i += 1;
        }
        proof {
            assert forall|k: int| #[trigger] before.contains_key(k) implies is_rerouted(
                before[k],
                self.readers@[k],
                prefix,
                *surroundings,
                prefer,
            ) by {
                let j = choose|j: int| 0 <= j < keys@.len() && (#[trigger] keys@[j]).rank() == k;
                assert(is_rerouted(
                    before[keys@[j].rank()],
                    self.readers@[keys@[j].rank()],
                    prefix,
                    *surroundings,
                    prefer,
                ));
            }
        }
        self.recompute_min_datagram_payload();
    }

    fn matched_reader_remove(&mut self, guid: GUID) -> (removed: Option<RtpsReaderProxy>)
        requires
            old(self).wf(),
        ensures
            final(self).wf(),
            final(self).readers@ == old(self).readers@.remove(guid.rank()),
            removed is Some <==> old(self).readers@.contains_key(guid.rank()),
            removed matches Some(rp) ==> rp == old(self).readers@[guid.rank()],
            *final(self) == (Writer { readers: final(self).readers, ..*old(self) }),
    {
        self.readers.remove(&guid)
    }

    /// What is told about a reader that was lost, with `left` readers left.
    pub open spec fn loss_status(self, reader: GUID, left: nat) -> ActionView {
        ActionView::Status(
            DataWriterStatus::PublicationMatched {
                total: CountWithChange { count: self.matched_readers_count_total, change: 0 },
                current: CountWithChange { count: (left as usize) as i32, change: -1i32 },
                reader,
            },
        )
    }

    /// What is told about a matched reader that was lost, with `left` readers left: first
    /// the security plugins, where security is in use.
    pub open spec fn loss_told(self, reader: GUID, left: nat) -> Seq<ActionView> {
        if self.security {
            seq![ActionView::UnregisterReader(reader), self.loss_status(reader, left)]
        } else {
            seq![self.loss_status(reader, left)]
        }
    }

    /// `after`, `buffer_after` and `actions` are what comes of the loss of one reader.
    pub open spec fn loses(
        self,
        buffer: WriterSendBuffer,
        guid: GUID,
        after: Writer,
        buffer_after: WriterSendBuffer,
        actions: Seq<ActionView>,
    ) -> bool {
        let matched = self.readers@.contains_key(guid.rank());
        &&& after.readers@ == self.readers@.remove(guid.rank())
        &&& after == (Writer {
            readers: after.readers,
            min_datagram_payload: if matched {
                after.min_payload_of_readers()
            } else {
                self.min_datagram_payload
            },
            ..self
        })
        &&& exists|woken: Option<Vec<WakerId>>|
            buffer_after.has_frontier(buffer, after.acked_frontier(), woken) && actions == (
            if matched {
                self.loss_told(guid, after.readers@.dom().len())
            } else {
                Seq::empty()
            }) + #[trigger] wake_view(woken)
    }

    /// `after`, `buffer_after` and `actions` are what comes of the loss of several readers,
    /// one after the other.
    pub open spec fn loses_all(
        self,
        buffer: WriterSendBuffer,
        guids: Seq<GUID>,
        after: Writer,
        buffer_after: WriterSendBuffer,
        actions: Seq<ActionView>,
    ) -> bool
        decreases guids.len(),
    {
        if guids.len() == 0 {
            &&& after == self
            &&& buffer_after == buffer
            &&& actions == Seq::<ActionView>::empty()
        } else {
            exists|w: Writer, b: WriterSendBuffer, n: int|
                0 <= n <= actions.len() && #[trigger] w.loses(
                    b,
                    guids.last(),
                    after,
                    buffer_after,
                    actions.skip(n),
                ) && self.loses_all(buffer, guids.drop_last(), w, b, actions.take(n))
        }
    }

    /// The matched readers of a participant, in ascending order.
    pub open spec fn readers_of(self, prefix: GuidPrefix) -> Seq<GUID> {
        self.readers.keys().filter(|g: GUID| g.prefix == prefix)
    }

    /// A reader is gone. Whoever waited for its acknowledgements need not wait any more.
    pub fn reader_lost(&mut self, send_buffer: &mut WriterSendBuffer, guid: GUID) -> (actions: Vec<
        WriterAction,
    >)
        requires
            old(self).wf(),
            old(send_buffer).wf(),
        ensures
            final(self).wf(),
            final(send_buffer).wf(),
            old(self).loses(
                *old(send_buffer),
                guid,
                *final(self),
                *final(send_buffer),
                views(actions@),
            ),
    {
        let mut actions: Vec<WriterAction> = Vec::new();
        assert(views(actions@) =~= Seq::empty());
        if self.readers.contains_key(&guid) {
            let _removed: Option<RtpsReaderProxy> = self.matched_reader_remove(guid);
            if self.security {
                act(&mut actions, WriterAction::UnregisterReader(guid));
            }
            self.recompute_min_datagram_payload();
            let n: usize = self.readers.len();
            act(
                &mut actions,
                WriterAction::Status(
                    DataWriterStatus::PublicationMatched {
                        total: CountWithChange {
                            count: self.matched_readers_count_total,
                            change: 0,
                        },
                        current: CountWithChange { count: n as i32, change: -1 },
                        reader: guid,
                    },
                ),
            );
            assert(views(actions@) =~= old(self).loss_told(guid, self.readers@.dom().len()));
        } else {
            assert(old(self).readers@.remove(guid.rank()) =~= old(self).readers@);
        }
        let ghost told = views(actions@);
        let woken: Option<Vec<WakerId>> = self.refresh_acked_frontier(send_buffer);
        let ghost w = woken;
        if let Some(tasks) = woken {
            act(&mut actions, WriterAction::Wake(tasks));
        }
        assert(views(actions@) =~= told + wake_view(w));
        actions
    }

    /// A participant is gone, and all its readers with it.
    pub fn participant_lost(
        &mut self,
        send_buffer: &mut WriterSendBuffer,
        guid_prefix: GuidPrefix,
    ) -> (actions: Vec<WriterAction>)
        requires
            old(self).wf(),
            old(send_buffer).wf(),
        ensures
            final(self).wf(),
            final(send_buffer).wf(),
            old(self).loses_all(
                *old(send_buffer),
                old(self).readers_of(guid_prefix),
                *final(self),
                *final(send_buffer),
                views(actions@),
            ),
            final(self).readers@ == without_participant(old(self).readers@, guid_prefix),
    {
        let keys: Vec<GUID> = self.readers.key_list();
        let ghost before = self.readers@;
        let ghost of_participant = |g: GUID| g.prefix == guid_prefix;
        let mut actions: Vec<WriterAction> = Vec::new();
        let mut i: usize = 0;
        assert(views(actions@) =~= Seq::empty());
        assert(keys@.take(0).filter(of_participant) =~= Seq::empty()) by {
            reveal(Seq::filter);
        }
        proof {
            assert forall|j: int| 0 <= j < keys@.len() implies before[(
            #[trigger] keys@[j]).rank()].remote_reader_guid == keys@[j] by {
                GUID::lemma_rank_injective(before[keys@[j].rank()].remote_reader_guid, keys@[j]);
            }
        }
        while i < keys.len()
            invariant
                i <= keys@.len(),
                before == old(self).readers@,
                of_participant == (|g: GUID| g.prefix == guid_prefix),
                self.wf(),
                send_buffer.wf(),
                forall|j: int, k: int|
                    0 <= j < k < keys@.len() ==> keys@[j].rank() < keys@[k].rank(),
                forall|j: int|
                    0 <= j < keys@.len() ==> before.contains_key((#[trigger] keys@[j]).rank())
                        && before[keys@[j].rank()].remote_reader_guid == keys@[j],
                forall|j: int|
                    0 <= j < i ==> (self.readers@.contains_key((#[trigger] keys@[j]).rank()) <==>
                    keys@[j].prefix != guid_prefix),
                forall|j: int|
                    i <= j < keys@.len() ==> self.readers@.contains_key(
                        (#[trigger] keys@[j]).rank(),
                    ),
                forall|k: int| #[trigger]
                    self.readers@.contains_key(k) ==> before.contains_key(k) && self.readers@[k]
                        == before[k],
                old(self).loses_all(
                    *old(send_buffer),
                    keys@.take(i as int).filter(of_participant),
                    *self,
                    *send_buffer,
                    views(actions@),
                ),
            decreases keys@.len() - i,
        {
            let key: GUID = keys[i];
            let ghost w = *self;
            let ghost b = *send_buffer;
            let ghost told = views(actions@);
            let ghost shorter = keys@.take(i as int);
            assert(keys@[i as int] == key);
            if key.prefix == guid_prefix {
                let mut more: Vec<WriterAction> = self.reader_lost(send_buffer, key);
                let ghost fresh = views(more@);
                actions.append(&mut more);
                proof {
                    let longer = keys@.take(i + 1);
                    assert(views(actions@) =~= told + fresh);
                    assert(longer.drop_last() =~= shorter);
                    let guids = longer.filter(of_participant);
                    assert(guids == shorter.filter(of_participant).push(key)) by {
                        reveal(Seq::filter);
                    }
                    assert(guids.drop_last() =~= shorter.filter(of_participant));
                    assert(guids.last() == key);
                    let n = told.len() as int;
                    assert(views(actions@).take(n) =~= told);
                    assert(views(actions@).skip(n) =~= fresh);
                    assert(w.loses(
                        b,
                        guids.last(),
                        *self,
                        *send_buffer,
                        views(actions@).skip(n),
                    ));
                    assert(old(self).loses_all(
                        *old(send_buffer),
                        guids.drop_last(),
                        w,
                        b,
                        views(actions@).take(n),
                    ));
                    assert(old(self).loses_all(
                        *old(send_buffer),
                        guids,
                        *self,
                        *send_buffer,
                        views(actions@),
                    ));
                }
            } else {
                proof {
                    let longer = keys@.take(i + 1);
                    assert(longer.drop_last() =~= shorter);
                    assert(longer.filter(of_participant) == shorter.filter(of_participant)) by {
                        reveal(Seq::filter);
                    }
                }
            }
            i += 1;
        }
        proof {
            assert(keys@.take(i as int) =~= keys@);
            assert forall|k: int| before.contains_key(k) implies (
            #[trigger] self.readers@.contains_key(k) <==> before[k].remote_reader_guid.prefix
                != guid_prefix) by {
                let j = choose|j: int| 0 <= j < keys@.len() && (#[trigger] keys@[j]).rank() == k;
                assert(before[keys@[j].rank()].remote_reader_guid == keys@[j]);
            }
            assert(self.readers@ =~= without_participant(before, guid_prefix));
        }
        actions
    }
}

/// A reader that is new gets, of what was written before, what the durability of the
/// writer says: of a volatile writer nothing, so every number up to the last is a gap to
/// it; of any other all that is retained, so it comes with no other gaps than it had.
pub open spec fn joins(
    rp: RtpsReaderProxy,
    update: RtpsReaderProxy,
    qos: QosPolicies,
    last: int,
) -> bool {
    &&& match qos.durability {
        None => forall|s: int| #[trigger]
            rp.gaps().contains(s) <==> update.gaps().contains(s) || 1 <= s <= last,
        Some(Durability::Volatile) => forall|s: int| #[trigger]
            rp.gaps().contains(s) <==> update.gaps().contains(s) || 1 <= s <= last,
        Some(_) => forall|s: int| #[trigger]
            rp.gaps().contains(s) <==> update.gaps().contains(s),
    }
    &&& rp.unsent() == update.unsent()
    &&& rp.all_acked_before == update.all_acked_before
    &&& rp.repair_mode == update.repair_mode
    &&& rp.requested() == update.requested()
}

/// The durability of a writer decides what a late joiner gets.
pub proof fn law_late_joiner_gets_what_is_durable(
    rp: RtpsReaderProxy,
    update: RtpsReaderProxy,
    writer: Writer,
    last: int,
)
    requires
        is_taken_in(rp, update, writer.qos_policies.spec_is_volatile(), last),
    ensures
        joins(rp, update, writer.qos_policies, last),
{
    let p = rp.progress();
    assert(p.gaps == rp.gaps() && p.unsent == rp.unsent() && p.requested == rp.requested());
}

/// A late joiner of a writer that is not volatile is sent every retained sample that it
/// asks for and that is not meant for another; one of a volatile writer is told of every
/// sample written before that it will not get it.
pub proof fn law_late_joiner_is_answered(
    rp: RtpsReaderProxy,
    update: RtpsReaderProxy,
    asking: RtpsReaderProxy,
    writer: Writer,
    buffer: WriterSendBuffer,
    actions: Seq<ActionView>,
    u: int,
)
    requires
        buffer.wf(),
        is_taken_in(rp, update, writer.qos_policies.spec_is_volatile(), buffer.last_seq@),
        update.gaps() == Set::<int>::empty(),
        asking.gaps() == rp.gaps(),
        asking.same_profile(rp),
        is_lowest(asking.unsent(), u),
        buffer.changes@.contains_key(u),
        buffer.changes@[u].data_value.spec_payload_size() <= u32::MAX,
        writer.is_repair(actions, asking, buffer),
    ensures
        is_answer(actions, writer, asking, buffer, u),
        match writer.qos_policies.durability {
            None => messages_in(actions).len() == 1 && declares_lost(messages_in(actions)[0], u),
            Some(Durability::Volatile) => messages_in(actions).len() == 1 && declares_lost(
                messages_in(actions)[0],
                u,
            ),
            Some(_) => buffer.changes@[u].write_options.to_single_reader is None
                ==> whole_samples(messages_in(actions)) == seq![u] || times_carried(
                messages_in(actions),
                1,
            ) == 1,
        },
{
    law_late_joiner_gets_what_is_durable(rp, update, writer, buffer.last_seq@);
    law_repair_answers_the_reader(writer, asking, buffer, actions, u);
    reveal(WriterSendBuffer::no_holes);
    assert(asking.gaps().contains(u) <==> rp.gaps().contains(u));
}

/// What is done for a reader that is newly matched: a reliable writer that tracks its
/// readers sends it at once a HEARTBEAT of all that is retained; any other sends nothing.
/// The match is reported once to the data writer and once to the participant, with the
/// number of readers that there are.
pub open spec fn is_greeting(
    actions: Seq<ActionView>,
    writer: Writer,
    buffer: WriterSendBuffer,
    rp: RtpsReaderProxy,
    readers: nat,
    now: Timestamp,
) -> bool {
    let greets = (writer.qos_policies.reliability matches Some(Reliability::Reliable { .. }))
        && !writer.like_stateless;
    &&& actions.len() == (if greets {
        3nat
    } else {
        2nat
    })
    &&& actions[0] matches ActionView::Status(
        DataWriterStatus::PublicationMatched { total, current, reader },
    ) && {
        &&& total.count == writer.matched_readers_count_total + 1
        &&& total.change == 1
        &&& readers <= i32::MAX ==> current.count == readers
        &&& current.change == 1
        &&& reader == rp.remote_reader_guid
    }
    &&& actions[1] matches ActionView::ParticipantStatus(
        ParticipantStatusEvent::RemoteReaderMatched { local_writer, remote_reader },
    ) && local_writer == writer.my_guid && remote_reader == rp.remote_reader_guid
    &&& greets ==> {
        &&& is_sent_to(actions[2], rp)
        &&& actions[2]->to == Some(rp.remote_reader_guid)
        &&& is_prompt(actions[2]->message, buffer, now, false)
    }
}

/// A newly matched reader is greeted: told at once, by a reliable writer, which samples
/// there are for it to ask for.
pub proof fn law_new_reader_is_greeted(
    writer: Writer,
    buffer: WriterSendBuffer,
    rp: RtpsReaderProxy,
    readers: nat,
    now: Timestamp,
)
    requires
        buffer.wf(),
        writer.matched_readers_count_total < i32::MAX,
    ensures
        is_greeting(
            writer.match_actions(buffer, rp, readers, now),
            writer,
            buffer,
            rp,
            readers,
            now,
        ),
{
    lemma_heartbeat_message(writer, buffer, now, false);
    law_plan_reaches_each_reader(
        DeliveryMode::Unicast,
        seq![rp],
        writer.extra_unicast_destinations@,
    );
    assert(seq![rp][0] == rp);
}

proof fn lemma_smallest_payload(readers: Seq<RtpsReaderProxy>)
    ensures
        smallest_payload(readers) is None <==> readers.len() == 0,
        smallest_payload(readers) matches Some(n) ==> {
            &&& forall|i: int|
                0 <= i < readers.len() ==> n <= (#[trigger] readers[i]).max_datagram_payload
            &&& exists|i: int|
                0 <= i < readers.len() && (#[trigger] readers[i]).max_datagram_payload == n
        },
    decreases readers.len(),
{
    if readers.len() > 0 {
        let rest = readers.drop_last();
        let last = readers.len() - 1;
        lemma_smallest_payload(rest);
        assert(readers[last] == readers.last());
        let n = smallest_payload(readers)->0;
        assert forall|i: int| 0 <= i < readers.len() implies n <= (
        #[trigger] readers[i]).max_datagram_payload by {
            if i < last {
                assert(readers[i] == rest[i]);
            }
        }
        if n != readers[last].max_datagram_payload {
            let i = choose|i: int|
                0 <= i < rest.len() && (#[trigger] rest[i]).max_datagram_payload == n;
            assert(readers[i] == rest[i]);
        }
    }
}

/// What is sent to all readers at once is sized so that each of them can take it, and no
/// smaller than that.
pub proof fn law_datagrams_fit_every_reader(writer: Writer)
    requires
        writer.readers.listed(),
    ensures
        forall|k: int| #[trigger]
            writer.readers@.contains_key(k) ==> writer.min_payload_of_readers()
                <= writer.readers@[k].max_datagram_payload,
        writer.readers@.dom() != Set::<int>::empty() ==> exists|k: int| #[trigger]
            writer.readers@.contains_key(k) && writer.readers@[k].max_datagram_payload
                == writer.min_payload_of_readers(),
        writer.readers@.dom() == Set::<int>::empty() ==> writer.min_payload_of_readers()
            == FALLBACK_MAX_AGGREGATED_DATAGRAM_SIZE,
{
    let all = in_order(writer.readers);
    lemma_smallest_payload(all);
    assert forall|k: int| #[trigger]
        writer.readers@.contains_key(k) implies writer.min_payload_of_readers()
        <= writer.readers@[k].max_datagram_payload by {
        let i = lemma_place(writer.readers, k);
        assert(all[i] == writer.readers@[k]);
    }
    if all.len() > 0 {
        let i = choose|i: int|
            0 <= i < all.len() && (#[trigger] all[i]).max_datagram_payload
                == writer.min_payload_of_readers();
        let k = writer.readers.keys()[i].rank();
        assert(writer.readers@.contains_key(k));
        assert(writer.readers@[k] == all[i]);
        assert(writer.readers@.dom().contains(k));
    } else {
        assert forall|k: int| !writer.readers@.dom().contains(k) by {
            if writer.readers@.contains_key(k) {
                let i = lemma_place(writer.readers, k);
            }
        }
        assert(writer.readers@.dom() =~= Set::empty());
    }
}

/// What discovery tells anew about a matched reader changes where it is reached and what
/// its policies are, and nothing of what it was sent, acknowledged or will not get. It is
/// reached at the locators that were announced, those of the loopback interface apart.
pub proof fn law_update_keeps_what_is_tracked(
    after: RtpsReaderProxy,
    before: RtpsReaderProxy,
    update: RtpsReaderProxy,
    l: Locator,
)
    requires
        is_updated(after, before, update),
    ensures
        after.remote_reader_guid == before.remote_reader_guid,
        after.unsent() == before.unsent(),
        after.gaps() == before.gaps(),
        after.all_acked_before == before.all_acked_before,
        after.repair_mode == before.repair_mode,
        after.requested() == before.requested(),
        after.expects_in_line_qos == update.expects_in_line_qos,
        is_changed(after.qos.reliability, before.qos.reliability, update.qos.reliability),
        is_changed(after.qos.durability, before.qos.durability, update.qos.durability),
        is_changed(after.qos.history, before.qos.history, update.qos.history),
        is_changed(after.qos.deadline, before.qos.deadline, update.qos.deadline),
        after.multicast_locator_list@ == update.multicast_locator_list@,
        after.unicast_locator_list@.contains(l) <==> (update.unicast_locator_list@.contains(l)
            || update.loopback_unicast_locators@.contains(l)) && !l.spec_is_loopback(),
        after.loopback_unicast_locators@.contains(l) <==> (update.unicast_locator_list@.contains(l)
            || update.loopback_unicast_locators@.contains(l)) && l.spec_is_loopback(),
{
    let a = update.unicast_locator_list@;
    let b = update.loopback_unicast_locators@;
    law_parts_are_by_the_loopback_interface(a + b, l);
    lemma_joined(a, b, l);
}

/// A newly matched reader is reached at the locators that were announced for it, none lost
/// and none added; none of the loopback interface is for general use.
pub proof fn law_new_reader_is_where_it_was_announced(
    rp: RtpsReaderProxy,
    update: RtpsReaderProxy,
    volatile: bool,
    last: int,
    l: Locator,
)
    requires
        is_taken_in(rp, update, volatile, last),
    ensures
        rp.remote_reader_guid == update.remote_reader_guid,
        rp.qos == update.qos,
        rp.multicast_locator_list@ == update.multicast_locator_list@,
        rp.unicast_locator_list@.contains(l) || rp.loopback_unicast_locators@.contains(l)
            <==> update.unicast_locator_list@.contains(l)
            || update.loopback_unicast_locators@.contains(l),
        rp.unicast_locator_list@.contains(l) ==> !l.spec_is_loopback(),
{
    let a = update.unicast_locator_list@;
    let b = update.loopback_unicast_locators@;
    law_parts_are_by_the_loopback_interface(a + b, l);
    lemma_joined(a, b, l);
    if !has_loopback(a) && a.contains(l) {
        let i = choose|i: int| 0 <= i < a.len() && a[i] == l;
        assert(!a[i].spec_is_loopback());
    }
}

/// A reader that is lost is no longer sent to, and no other is touched. The data writer is
/// told once, with the number of readers that are left; whoever waited for the lost reader
/// alone to acknowledge waits no more.
pub proof fn law_lost_reader_is_gone(
    before: Writer,
    buffer: WriterSendBuffer,
    guid: GUID,
    after: Writer,
    buffer_after: WriterSendBuffer,
    actions: Seq<ActionView>,
    target: int,
)
    requires
        before.loses(buffer, guid, after, buffer_after, actions),
        after.readers.listed(),
    ensures
        !after.readers@.contains_key(guid.rank()),
        forall|k: int| #[trigger]
            before.readers@.contains_key(k) && k != guid.rank() ==> after.readers@.contains_key(k)
                && after.readers@[k] == before.readers@[k],
        forall|k: int| #[trigger]
            after.readers@.contains_key(k) ==> before.readers@.contains_key(k),
        after.matched_readers_count_total == before.matched_readers_count_total,
        before.readers@.contains_key(guid.rank()) ==> ({
            let n: int = if before.security {
                1
            } else {
                0
            };
            &&& before.security ==> actions[0] == ActionView::UnregisterReader(guid)
            &&& actions.len() > n
            &&& actions[n] matches ActionView::Status(
                DataWriterStatus::PublicationMatched { total, current, reader },
            ) && {
                &&& reader == guid
                &&& current.change == -1
                &&& after.readers@.dom().len() <= i32::MAX ==> current.count
                    == after.readers@.dom().len()
                &&& total.change == 0
                &&& total.count == before.matched_readers_count_total
            }
        }),
        !before.readers@.contains_key(guid.rank()) ==> forall|i: int|
            0 <= i < actions.len() ==> #[trigger] actions[i] is Wake,
        buffer_after.acked_through(target) <==> after.like_stateless || forall|k: int| #[trigger]
            after.readers@.contains_key(k) && (after.readers@[k].qos.reliability matches Some(
                Reliability::Reliable { .. },
            )) ==> target < after.readers@[k].all_acked_before@,
{
    let woken = choose|woken: Option<Vec<WakerId>>|
        buffer_after.has_frontier(buffer, after.acked_frontier(), woken) && actions == (
        if before.readers@.contains_key(guid.rank()) {
            before.loss_told(guid, after.readers@.dom().len())
        } else {
            Seq::empty()
        }) + #[trigger] wake_view(woken);
    law_every_reliable_reader_has_to_acknowledge(after, buffer, buffer_after, woken, target);
}

/// The route of a reader goes by how the messages of its own participant came in, and a
/// datagram to it is sized to fit wherever it is reached.
pub proof fn law_reader_is_routed_by_its_participant(
    rp: RtpsReaderProxy,
    surroundings: Surroundings,
    prefer_loopback: bool,
    i: int,
)
    requires
        is_routed(rp, surroundings, prefer_loopback),
    ensures
        ({
            let k = rp.remote_reader_guid.prefix.rank();
            let heard = surroundings.observations.by_participant@;
            let all = rp.unicast_locator_list@ + rp.loopback_unicast_locators@;
            &&& is_route_for(
                rp.send_route,
                prefer_loopback,
                rp.unicast_locator_list@,
                rp.multicast_locator_list@,
                rp.loopback_unicast_locators@,
                if heard.contains_key(k) {
                    Some(heard[k])
                } else {
                    None
                },
                surroundings.multicast_ifaces@,
            )
            &&& 0 <= i < all.len() ==> (all[i].spec_socket_addr() matches Some(a)
                ==> rp.max_datagram_payload <= spec_path_mtu_payload_for_peer(
                surroundings.local_interfaces@,
                a.spec_ip(),
            ))
            &&& (forall|j: int|
                0 <= j < all.len() ==> (#[trigger] all[j]).spec_socket_addr() is None)
                ==> rp.max_datagram_payload == FALLBACK_MAX_AGGREGATED_DATAGRAM_SIZE
        }),
{
    law_route_goes_back_the_way_messages_came(
        DefaultRouteSelector { prefer_loopback_same_host: prefer_loopback },
        rp.unicast_locator_list@,
        rp.multicast_locator_list@,
        rp.loopback_unicast_locators@,
        surroundings.observations.spec_get(rp.remote_reader_guid.prefix),
        surroundings.multicast_ifaces@,
    );
    law_budget_fits_every_locator(
        rp.unicast_locator_list@ + rp.loopback_unicast_locators@,
        surroundings.local_interfaces@,
    );
}

/// Choosing routes anew touches the readers of the one participant alone, and nothing of
/// what is tracked of them.
pub proof fn law_rerouting_changes_routes_alone(
    before: RtpsReaderProxy,
    after: RtpsReaderProxy,
    prefix: GuidPrefix,
    surroundings: Surroundings,
    prefer_loopback: bool,
)
    requires
        is_rerouted(before, after, prefix, surroundings, prefer_loopback),
    ensures
        before.remote_reader_guid.prefix != prefix ==> after == before,
        before.remote_reader_guid.prefix == prefix ==> is_routed(
            after,
            surroundings,
            prefer_loopback,
        ),
        after.remote_reader_guid == before.remote_reader_guid,
        after.unsent() == before.unsent(),
        after.gaps() == before.gaps(),
        after.requested() == before.requested(),
        after.all_acked_before == before.all_acked_before,
        after.repair_mode == before.repair_mode,
        after.qos == before.qos,
        after.unicast_locator_list@ == before.unicast_locator_list@,
        after.multicast_locator_list@ == before.multicast_locator_list@,
        after.loopback_unicast_locators@ == before.loopback_unicast_locators@,
{
}

/// With a participant just its own readers go.
pub proof fn law_lost_participant_takes_its_readers(
    readers: Map<int, RtpsReaderProxy>,
    prefix: GuidPrefix,
    k: int,
)
    ensures
        without_participant(readers, prefix).contains_key(k) <==> readers.contains_key(k)
            && readers[k].remote_reader_guid.prefix != prefix,
        without_participant(readers, prefix).contains_key(k) ==> without_participant(
            readers,
            prefix,
        )[k] == readers[k],
{
}

/// A reader that asks for what is not offered is not matched: the data writer and the
/// participant are told, with both policies, and nothing is sent.
pub proof fn law_mismatch_is_told(
    writer: Writer,
    guid: GUID,
    requested: QosPolicies,
    policy: QosPolicyId,
)
    requires
        writer.requested_incompatible_qos_count < i32::MAX,
    ensures
        ({
            let actions = writer.mismatch_actions(guid, requested, policy);
            &&& actions.len() == 2
            &&& actions[0] matches ActionView::Status(
                DataWriterStatus::OfferedIncompatibleQos {
                    count,
                    last_policy_id,
                    reader,
                    requested_qos,
                    offered_qos,
                },
            ) && {
                &&& count.count == writer.requested_incompatible_qos_count + 1
                &&& count.change == 1
                &&& last_policy_id == policy
                &&& reader == guid
                &&& requested_qos == requested
                &&& offered_qos == writer.qos_policies
            }
            &&& actions[1] matches ActionView::ParticipantStatus(
                ParticipantStatusEvent::RemoteReaderQosIncompatible {
                    local_writer,
                    remote_reader,
                    requested_qos,
                    offered_qos,
                },
            ) && {
                &&& local_writer == writer.my_guid
                &&& remote_reader == guid
                &&& requested_qos == requested
                &&& offered_qos == writer.qos_policies
            }
        }),
{
}

/// What discovery tells about a reader touches no other. A reader whose policies do not go
/// with those of the writer is not matched. One that is new joins with what the durability
/// of the writer gives it, counts as matched, and is greeted; one that was matched keeps
/// what is tracked of it, and nothing is sent. In the end every reliable reader has to
/// acknowledge, the new one too.
pub proof fn law_discovery_matches_one_reader(
    before: Writer,
    buffer: WriterSendBuffer,
    update: RtpsReaderProxy,
    requested_qos: QosPolicies,
    failure: Option<QosPolicyId>,
    surroundings: Surroundings,
    now: Timestamp,
    after: Writer,
    buffer_after: WriterSendBuffer,
    actions: Seq<ActionView>,
    target: int,
) -> (woken: Option<Vec<WakerId>>)
    requires
        buffer.wf(),
        after.readers.listed(),
        failure is None ==> before.matched_readers_count_total < i32::MAX,
        before.is_match_result(
            buffer,
            update,
            requested_qos,
            failure,
            surroundings,
            now,
            after,
            buffer_after,
            actions,
        ),
    ensures
        ({
            let k = update.remote_reader_guid.rank();
            let rp = after.readers@[k];
            &&& forall|j: int| #[trigger]
                before.readers@.contains_key(j) && j != k ==> after.readers@.contains_key(j)
                    && after.readers@[j] == before.readers@[j]
            &&& forall|j: int| #[trigger]
                after.readers@.contains_key(j) && j != k ==> before.readers@.contains_key(j)
            &&& buffer_after.changes@ == buffer.changes@
            &&& failure is Some ==> after.readers == before.readers && buffer_after == buffer
            &&& failure is None ==> {
                &&& after.readers@.contains_key(k)
                &&& is_routed(rp, surroundings, before.prefer_loopback_same_host)
                &&& buffer_after.acked_through(target) <==> after.like_stateless || forall|
                    j: int,
                | #[trigger]
                    after.readers@.contains_key(j) && (
                    after.readers@[j].qos.reliability matches Some(Reliability::Reliable { .. }))
                        ==> target < after.readers@[j].all_acked_before@
            }
            &&& failure is None && !before.readers@.contains_key(k) ==> {
                &&& joins(rp, update, before.qos_policies, buffer.last_seq@)
                &&& after.matched_readers_count_total == before.matched_readers_count_total + 1
                &&& is_greeting(
                    actions.skip(wake_view(woken).len() as int),
                    before,
                    buffer,
                    rp,
                    after.readers@.dom().len(),
                    now,
                )
                &&& rp.qos == update.qos
            }
            &&& failure is None && before.readers@.contains_key(k) ==> {
                &&& is_updated(rp, before.readers@[k], update)
                &&& after.matched_readers_count_total == before.matched_readers_count_total
                &&& actions == wake_view(woken)
            }
        }),
{
    let k = update.remote_reader_guid.rank();
    let rp = after.readers@[k];
    let is_new = !before.readers@.contains_key(k);
    if failure is None {
        assert forall|j: int| #[trigger]
            before.readers@.contains_key(j) && j != k implies after.readers@.contains_key(j)
            && after.readers@[j] == before.readers@[j] by {
            assert(before.readers@.remove(k).contains_key(j));
            assert(before.readers@.remove(k)[j] == before.readers@[j]);
            assert(after.readers@.remove(k)[j] == after.readers@[j]);
        }
        assert forall|j: int| #[trigger]
            after.readers@.contains_key(j) && j != k implies before.readers@.contains_key(j) by {
            assert(after.readers@.dom().contains(j));
        }
        assert(after.readers@.dom().contains(k));
        let readers = after.readers@.dom().len();
        let woken = choose|woken: Option<Vec<WakerId>>|
            buffer_after.has_frontier(buffer, after.acked_frontier(), woken) && actions
                == #[trigger] wake_view(woken) + (if is_new {
                before.match_actions(buffer, rp, readers, now)
            } else {
                Seq::empty()
            });
        law_every_reliable_reader_has_to_acknowledge(after, buffer, buffer_after, woken, target);
        if is_new {
            law_new_reader_is_greeted(before, buffer, rp, readers, now);
            assert(actions.skip(wake_view(woken).len() as int) =~= before.match_actions(
                buffer,
                rp,
                readers,
                now,
            ));
        } else {
            assert(actions =~= wake_view(woken));
        }
        woken
    } else {
        None
    }
}

} // verus!
