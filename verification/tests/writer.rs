use bytes::Bytes;
use rustdds::dds::ddsdata::{DDSData, RepresentationIdentifier, SerializedPayload};
use rustdds::dds::qos::{History, QosPolicies, QosPolicyId, Reliability, ResourceLimits};
use rustdds::dds::with_key::datawriter::WriteOptionsBuilder;
use rustdds::rtps::fragment_assembler::{DataFrag, FragmentAssembler};
use rustdds::rtps::fragmentation::FragmentationIter;
use rustdds::rtps::message::{Message, Submessage};
use rustdds::rtps::outbound::{SocketId, TrafficClass};
use rustdds::rtps::rtps_reader_proxy::{AckNack, AckSubmessage, NackFrag, RtpsReaderProxy};
use rustdds::rtps::secure_message::join_encoded;
use rustdds::rtps::send_plan::{plan_for_one, DeliveryMode, Emission};
use rustdds::rtps::transmit::{InterfaceObservations, SendRoute};
use rustdds::rtps::writer::{SampleCursor, TimedEvent, Writer, WriterIngredients};
use rustdds::rtps::writer_match::Surroundings;
use rustdds::rtps::writer_pending::{
    batch_outcome, BatchOutcome, Continuation, PendingStep, SendProgress,
};
use rustdds::rtps::writer_repair::{DataWriterStatus, WriterAction};
use rustdds::rtps::writer_send_buffer::{Admission, WriterSendBuffer};
use rustdds::structure::guid::{EntityId, EntityKind, GuidPrefix, GUID};
use rustdds::structure::locator::{Ipv4Addr, Locator, SocketAddrV4};
use rustdds::structure::sequence_number::{
    FragmentNumber, FragmentNumberSet, SequenceNumber, SequenceNumberSet,
};
use rustdds::structure::time::{Duration, Timestamp};

fn sn(n: i64) -> SequenceNumber {
    SequenceNumber::new(n)
}

fn now() -> Timestamp {
    Timestamp { seconds: 1, fraction: 0 }
}

fn udp(ip: [u8; 4], port: u16) -> Locator {
    Locator::UdpV4(SocketAddrV4 { ip: Ipv4Addr::new(ip[0], ip[1], ip[2], ip[3]), port })
}

fn reliable() -> QosPolicies {
    QosPolicies {
        reliability: Some(Reliability::Reliable { max_blocking_time: Duration::zero() }),
        ..QosPolicies::qos_none()
    }
}

fn writer_guid() -> GUID {
    GUID::new(
        GuidPrefix::new(&[1; 12]),
        EntityId::new([0, 0, 1], EntityKind::writer_no_key_user_defined()),
    )
}

fn reader_guid(n: u8) -> GUID {
    GUID::new(
        GuidPrefix::new(&[n; 12]),
        EntityId::new([0, 0, 2], EntityKind::reader_no_key_user_defined()),
    )
}

fn writer(qos: QosPolicies) -> (Writer, WriterSendBuffer) {
    let (w, _timers) = Writer::new(WriterIngredients {
        guid: writer_guid(),
        topic_name: "t".to_string(),
        like_stateless: false,
        qos_policies: qos,
        security: false,
    });
    let b = WriterSendBuffer::new(
        writer_guid(),
        "t".to_string(),
        qos.is_reliable(),
        false,
        true,
        100,
        100,
        100,
    );
    (w, b)
}

fn surroundings() -> Surroundings {
    Surroundings {
        observations: InterfaceObservations::new(),
        multicast_ifaces: vec![],
        local_interfaces: vec![],
    }
}

fn matched(w: &mut Writer, b: &mut WriterSendBuffer, n: u8, qos: QosPolicies) -> Vec<WriterAction> {
    let mut rp = RtpsReaderProxy::new(reader_guid(n), qos, false);
    rp.unicast_locator_list = vec![udp([10, 0, 0, n], 7411)];
    w.update_reader_proxy(b, rp, &qos, None, &surroundings(), now())
}

fn put_sample(b: &mut WriterSendBuffer, len: usize) {
    let data = DDSData::new(SerializedPayload::new(RepresentationIdentifier::cdr_le(), vec![3; len]));
    match b.admit_blocking(WriteOptionsBuilder::new().build(), data, true) {
        Admission::Admitted(_) => {}
        _ => panic!("no room"),
    }
}

fn data_numbers(m: &Message) -> Vec<SequenceNumber> {
    m.submessages
        .iter()
        .filter_map(|s| match s {
            Submessage::Data { writer_sn, .. } => Some(*writer_sn),
            _ => None,
        })
        .collect()
}

#[test]
fn new_writer_sets_its_timers() {
    let (w, timers) = Writer::new(WriterIngredients {
        guid: writer_guid(),
        topic_name: "t".to_string(),
        like_stateless: false,
        qos_policies: reliable(),
        security: false,
    });
    assert!(w.is_reliable());
    assert_eq!(timers.len(), 2);
    assert_eq!(timers[0].event, TimedEvent::Heartbeat);
    assert_eq!(timers[1].event, TimedEvent::CacheCleaning);
    let (_, timers) = Writer::new(WriterIngredients {
        guid: writer_guid(),
        topic_name: "t".to_string(),
        like_stateless: false,
        qos_policies: QosPolicies::qos_none(),
        security: false,
    });
    assert_eq!(timers.len(), 1);
}

#[test]
fn small_samples_go_out_together() {
    let (mut w, mut b) = writer(QosPolicies::qos_none());
    matched(&mut w, &mut b, 5, QosPolicies::qos_none());
    for _ in 0..3 {
        put_sample(&mut b, 100);
    }
    match w.process_pending(&mut b) {
        PendingStep::Batch(plan) => {
            assert_eq!(data_numbers(&plan.message), vec![sn(1), sn(2), sn(3)]);
            assert_eq!(plan.last_seq, sn(3));
            assert_eq!(plan.emissions, vec![Emission::Everywhere(udp([10, 0, 0, 5], 7411))]);
            assert!(!plan.may_block);
            let outcome = batch_outcome(plan.last_seq, plan.may_block, vec![]);
            assert!(matches!(w.finish_batch(&mut b, outcome), Continuation::GoOn { .. }));
        }
        _ => panic!("no batch"),
    }
    assert_eq!(w.last_sent, sn(3));
    assert!(matches!(w.process_pending(&mut b), PendingStep::Idle));
}

#[test]
fn batch_stops_at_the_datagram_limit() {
    let (mut w, mut b) = writer(QosPolicies::qos_none());
    matched(&mut w, &mut b, 5, QosPolicies::qos_none());
    for _ in 0..4 {
        put_sample(&mut b, 400);
    }
    match w.process_pending(&mut b) {
        // 20 bytes of header and 428 per sample, of 1452.
        PendingStep::Batch(plan) => assert_eq!(plan.last_seq, sn(3)),
        _ => panic!("no batch"),
    }
}

#[test]
fn blocked_batch_is_dropped_or_kept() {
    assert!(matches!(
        batch_outcome(sn(4), false, vec![SocketId::Unicast]),
        BatchOutcome::Dropped { last_seq } if last_seq == sn(4)
    ));
    assert!(matches!(
        batch_outcome(sn(4), true, vec![SocketId::Unicast]),
        BatchOutcome::Blocked { .. }
    ));
    let (mut w, mut b) = writer(reliable());
    matched(&mut w, &mut b, 5, reliable());
    put_sample(&mut b, 10);
    let before = w.last_sent;
    let outcome = BatchOutcome::Blocked { blocked: vec![SocketId::Multicast(1)] };
    assert!(matches!(w.finish_batch(&mut b, outcome), Continuation::Stop));
    assert_eq!(w.last_sent, before);
    assert_eq!(w.take_blocked_sockets(), vec![SocketId::Multicast(1)]);
    assert!(w.take_blocked_sockets().is_empty());
}

#[test]
fn large_sample_goes_out_in_fragments() {
    let (mut w, mut b) = writer(QosPolicies::qos_none());
    matched(&mut w, &mut b, 5, QosPolicies::qos_none());
    put_sample(&mut b, 5000);
    match w.process_pending(&mut b) {
        PendingStep::Sample(plan) => {
            assert_eq!(plan.sequence_number, sn(1));
            assert_eq!(plan.class, TrafficClass::Bulk);
            assert!(plan.messages.fragmentation_needed());
            let messages = plan.messages.drain(&b);
            let mut next: u32 = 1;
            for m in &messages {
                for s in &m.submessages {
                    if let Submessage::DataFrag {
                        fragment_starting_num,
                        fragments_in_submessage,
                        sample_size,
                        ..
                    } = s
                    {
                        assert_eq!(*fragment_starting_num, FragmentNumber::new(next));
                        assert_eq!(*sample_size, 5004);
                        next += *fragments_in_submessage as u32;
                    }
                }
            }
            assert_eq!(next, 6);
            assert!(matches!(
                w.finish_sample(&mut b, sn(1), plan.may_block, SendProgress::Complete),
                Continuation::GoOn { .. }
            ));
        }
        _ => panic!("no sample"),
    }
    assert!(matches!(w.process_pending(&mut b), PendingStep::Idle));
}

#[test]
fn blocked_sample_resumes_where_it_stopped() {
    let (mut w, mut b) = writer(reliable());
    matched(&mut w, &mut b, 5, reliable());
    put_sample(&mut b, 5000);
    match w.process_pending(&mut b) {
        PendingStep::Sample(mut plan) => {
            let mut count = w.heartbeat_message_counter;
            let first = plan.messages.next(&b, &mut count);
            assert!(matches!(first, Some((SampleCursor::Fresh, _))) || first.is_some());
            let (cursor, second) = plan.messages.next(&b, &mut count).unwrap();
            assert!(plan.may_block);
            let progress = SendProgress::Blocked { cursor, blocked: vec![SocketId::Unicast] };
            assert!(matches!(
                w.finish_sample(&mut b, sn(1), plan.may_block, progress),
                Continuation::Stop
            ));
            assert_eq!(w.sample_cursor, cursor);
            let rest = FragmentationIter::new_resume(
                &w,
                &b.get_by_sn(sn(1)).unwrap(),
                None,
                true,
                cursor,
            );
            let mut rest = rest;
            let mut resumed = Vec::new();
            let mut again = count;
            while let Some((c, m)) = rest.next(&b, &mut again) {
                resumed.push((c, format!("{:?}", m)));
            }
            let mut straight = vec![(cursor, format!("{:?}", second))];
            while let Some((c, m)) = plan.messages.next(&b, &mut count) {
                straight.push((c, format!("{:?}", m)));
            }
            assert_eq!(resumed, straight);
            assert!(matches!(resumed.last(), Some((SampleCursor::Heartbeat, _))));
        }
        _ => panic!("no sample"),
    }
}

fn ack(base: i64, wanted: Vec<SequenceNumber>) -> AckSubmessage {
    AckSubmessage::AckNack(AckNack {
        reader_id: reader_guid(5).entity_id,
        writer_id: writer_guid().entity_id,
        reader_sn_state: SequenceNumberSet { base: sn(base), members: wanted },
        count: 1,
    })
}

fn send_all(w: &mut Writer, b: &mut WriterSendBuffer) {
    loop {
        match w.process_pending(b) {
            PendingStep::Idle => return,
            PendingStep::Batch(plan) => {
                let outcome = batch_outcome(plan.last_seq, plan.may_block, vec![]);
                w.finish_batch(b, outcome);
            }
            PendingStep::Sample(plan) => {
                w.finish_sample(b, plan.sequence_number, plan.may_block, SendProgress::Complete);
            }
            PendingStep::Skipped { .. } => {}
            PendingStep::Announce { .. } => {}
        }
    }
}

#[test]
fn missing_sample_is_sent_again_after_a_delay() {
    let (mut w, mut b) = writer(reliable());
    matched(&mut w, &mut b, 5, reliable());
    put_sample(&mut b, 10);
    put_sample(&mut b, 10);
    send_all(&mut w, &mut b);
    let actions = w.handle_ack_nack(&mut b, reader_guid(5).prefix, &ack(1, vec![sn(1)]));
    assert!(actions.iter().any(|a| matches!(
        a,
        WriterAction::SetTimer(t) if t.event == TimedEvent::SendRepairData { to_reader: reader_guid(5) }
    )));
    let actions = w.handle_timed_event(
        &mut b,
        TimedEvent::SendRepairData { to_reader: reader_guid(5) },
        now(),
    );
    assert!(actions.iter().any(|a| matches!(
        a,
        WriterAction::Send { message, to, emissions } if data_numbers(message) == vec![sn(1)]
            && *to == Some(reader_guid(5))
            && !emissions.is_empty()
    )));
}

#[test]
fn acknowledged_samples_are_cleaned_up() {
    let qos = QosPolicies { history: Some(History::KeepLast { depth: 1 }), ..reliable() };
    let (mut w, mut b) = writer(qos);
    matched(&mut w, &mut b, 5, reliable());
    for _ in 0..4 {
        put_sample(&mut b, 10);
    }
    send_all(&mut w, &mut b);
    w.handle_cache_cleaning(&mut b);
    assert_eq!(b.retained_len(), 4);
    w.handle_ack_nack(&mut b, reader_guid(5).prefix, &ack(4, vec![]));
    assert!(b.is_acked_through(sn(3)));
    assert!(!b.is_acked_through(sn(4)));
    w.handle_cache_cleaning(&mut b);
    assert_eq!(b.first_change_sequence_number(), sn(3));
    assert_eq!(b.retained_len(), 2);
}

#[test]
fn resource_limit_overrides_missing_acknowledgements() {
    let qos = QosPolicies {
        history: Some(History::KeepAll),
        resource_limits: Some(ResourceLimits {
            max_samples: 2,
            max_instances: 1,
            max_samples_per_instance: 2,
        }),
        ..reliable()
    };
    let (mut w, mut b) = writer(qos);
    matched(&mut w, &mut b, 5, reliable());
    for _ in 0..6 {
        put_sample(&mut b, 10);
    }
    w.handle_cache_cleaning(&mut b);
    assert_eq!(b.first_change_sequence_number(), sn(5));
    assert_eq!(b.retained_len(), 2);
}

#[test]
fn heartbeats_go_to_readers_that_are_behind() {
    let (mut w, mut b) = writer(reliable());
    matched(&mut w, &mut b, 5, reliable());
    // A reader that has acknowledged nothing yet, not even that there is nothing.
    assert!(w.handle_heartbeat_tick(&b, false, now()).0);
    w.handle_ack_nack(&mut b, reader_guid(5).prefix, &ack(1, vec![]));
    let (due, actions) = w.handle_heartbeat_tick(&b, false, now());
    assert!(!due);
    assert!(actions.is_empty());
    put_sample(&mut b, 10);
    let count = w.heartbeat_message_counter;
    let (due, actions) = w.handle_heartbeat_tick(&b, true, now());
    assert!(due);
    assert_eq!(actions.len(), 1);
    match &actions[0] {
        WriterAction::Send { message, to, .. } => {
            assert_eq!(*to, None);
            assert!(message.submessages.iter().any(|s| matches!(
                s,
                Submessage::Heartbeat { first, last, count: c, liveliness_flag: true, .. }
                    if *first == sn(1) && *last == sn(1) && *c == count
            )));
        }
        _ => panic!("nothing sent"),
    }
    assert_eq!(w.next_heartbeat_count(), count + 1);
}

#[test]
fn requested_fragments_are_sent_again() {
    let (mut w, mut b) = writer(reliable());
    matched(&mut w, &mut b, 5, reliable());
    put_sample(&mut b, 5000);
    send_all(&mut w, &mut b);
    let wanted = AckSubmessage::NackFrag(NackFrag {
        reader_id: reader_guid(5).entity_id,
        writer_id: writer_guid().entity_id,
        writer_sn: sn(1),
        fragment_number_state: FragmentNumberSet {
            base: FragmentNumber::new(1),
            members: vec![FragmentNumber::new(2), FragmentNumber::new(4)],
        },
        count: 1,
    });
    let actions = w.handle_ack_nack(&mut b, reader_guid(5).prefix, &wanted);
    assert!(actions.iter().any(|a| matches!(
        a,
        WriterAction::SetTimer(t) if t.event == TimedEvent::SendRepairFrags { to_reader: reader_guid(5) }
    )));
    let actions = w.handle_repair_frags_send(&b, reader_guid(5));
    let mut starts: Vec<u32> = Vec::new();
    for a in &actions {
        if let WriterAction::Send { message, .. } = a {
            for s in &message.submessages {
                if let Submessage::DataFrag { fragment_starting_num, .. } = s {
                    starts.push(fragment_starting_num.value);
                }
            }
        }
    }
    assert_eq!(starts, vec![2, 4]);
    assert!(w.handle_repair_data_send(&b, reader_guid(6)).is_empty());
}

#[test]
fn matching_and_losing_readers_is_told() {
    let (mut w, mut b) = writer(reliable());
    let actions = matched(&mut w, &mut b, 5, reliable());
    assert!(actions.iter().any(|a| matches!(
        a,
        WriterAction::Status(DataWriterStatus::PublicationMatched { total, current, reader })
            if total.count == 1 && current.count == 1 && current.change == 1
                && *reader == reader_guid(5)
    )));
    matched(&mut w, &mut b, 6, reliable());
    let actions = w.reader_lost(&mut b, reader_guid(5));
    assert!(actions.iter().any(|a| matches!(
        a,
        WriterAction::Status(DataWriterStatus::PublicationMatched { total, current, .. })
            if total.count == 2 && current.count == 1 && current.change == -1
    )));
    assert!(!actions.iter().any(|a| matches!(a, WriterAction::UnregisterReader(_))));
    w.security = true;
    let actions = w.participant_lost(&mut b, reader_guid(6).prefix);
    assert!(matches!(&actions[0], WriterAction::UnregisterReader(g) if *g == reader_guid(6)));
    assert!(matches!(&actions[1], WriterAction::Status(_)));
    assert!(w.reader_lost(&mut b, reader_guid(7)).is_empty());
    assert!(w.readers.is_empty());
    assert!(b.is_acked_through(sn(100)));
}

#[test]
fn incompatible_reader_is_not_matched() {
    let (mut w, mut b) = writer(QosPolicies::qos_none());
    let rp = RtpsReaderProxy::new(reader_guid(5), reliable(), false);
    let actions = w.update_reader_proxy(
        &mut b,
        rp,
        &reliable(),
        Some(QosPolicyId::Reliability),
        &surroundings(),
        now(),
    );
    assert!(w.readers.is_empty());
    assert!(actions.iter().any(|a| matches!(
        a,
        WriterAction::Status(DataWriterStatus::OfferedIncompatibleQos { last_policy_id, .. })
            if *last_policy_id == QosPolicyId::Reliability
    )));
}

#[test]
fn readers_of_the_same_participant_are_local() {
    let (mut w, mut b) = writer(QosPolicies::qos_none());
    matched(&mut w, &mut b, 5, QosPolicies::qos_none());
    assert!(w.local_readers().is_empty());
    matched(&mut w, &mut b, 1, QosPolicies::qos_none());
    assert_eq!(w.local_readers(), vec![reader_guid(1).entity_id]);
}

#[test]
fn sizes_of_fragments() {
    let (w, _b) = writer(QosPolicies::qos_none());
    assert_eq!(w.num_frags_and_frag_size(5004), (5, 1024));
    assert_eq!(w.datagram_budget(None), 1452);
    assert!(w.max_unfragmented_serialized_payload(None) < 1452);
}

#[test]
fn timed_events_stay_within_numbers() {
    let (w, b) = writer(reliable());
    assert!(w.is_ready_for(&b, TimedEvent::Heartbeat));
    assert!(w.is_ready_for(&b, TimedEvent::CacheCleaning));
    assert!(w.is_ready_for(&b, TimedEvent::SendRepairFrags { to_reader: reader_guid(5) }));
    let qos = QosPolicies { history: Some(History::KeepLast { depth: -1 }), ..reliable() };
    let (w, b) = writer(qos);
    assert!(w.is_ready_for(&b, TimedEvent::CacheCleaning));
    let qos = QosPolicies {
        history: Some(History::KeepLast { depth: -2 }),
        ..QosPolicies::qos_none()
    };
    let (mut w, mut b) = writer(qos);
    w.like_stateless = true;
    assert!(w.is_ready_for(&b, TimedEvent::CacheCleaning));
    b.first_seq = sn(i64::MAX);
    b.last_seq = sn(i64::MAX - 1);
    assert!(!w.is_ready_for(&b, TimedEvent::CacheCleaning));
}

#[test]
fn unmatched_reader_may_ask_for_fragment_zero() {
    let (mut w, mut b) = writer(reliable());
    let wanted = AckSubmessage::NackFrag(NackFrag {
        reader_id: reader_guid(5).entity_id,
        writer_id: writer_guid().entity_id,
        writer_sn: sn(1),
        fragment_number_state: FragmentNumberSet {
            base: FragmentNumber::new(1),
            members: vec![FragmentNumber::new(0)],
        },
        count: 1,
    });
    let prefix = reader_guid(5).prefix;
    assert!(w.is_ready_to_take(prefix, &wanted));
    let actions = w.handle_ack_nack(&mut b, prefix, &wanted);
    assert!(actions.iter().any(|a| matches!(a, WriterAction::SetTimer(_))));
    matched(&mut w, &mut b, 5, reliable());
    assert!(!w.is_ready_to_take(prefix, &wanted));
    assert!(w.is_ready_to_take(prefix, &ack(1, vec![])));
}

#[test]
fn repair_comes_to_an_end() {
    let (mut w, mut b) = writer(reliable());
    matched(&mut w, &mut b, 5, reliable());
    for _ in 0..3 {
        put_sample(&mut b, 10);
    }
    send_all(&mut w, &mut b);
    w.handle_ack_nack(&mut b, reader_guid(5).prefix, &ack(1, vec![sn(1), sn(2), sn(3)]));
    let mut steps = 0;
    loop {
        w.handle_repair_data_send(&b, reader_guid(5));
        steps += 1;
        if !w.readers.get(&reader_guid(5)).unwrap().repair_mode {
            break;
        }
        assert!(steps < 10);
    }
    assert_eq!(steps, 4);
}

#[test]
fn datagrams_are_not_sent_twice() {
    let (mut w, mut b) = writer(QosPolicies::qos_none());
    let qos = QosPolicies::qos_none();
    for n in [5, 6] {
        let mut rp = RtpsReaderProxy::new(reader_guid(n), qos, false);
        rp.unicast_locator_list = vec![udp([10, 0, 0, n], 7411)];
        rp.multicast_locator_list = vec![udp([239, 255, 0, 1], 7401)];
        w.update_reader_proxy(&mut b, rp, &qos, None, &surroundings(), now());
    }
    w.set_extra_unicast_destinations(vec![udp([127, 0, 0, 1], 7410), udp([239, 255, 0, 1], 7401)]);
    put_sample(&mut b, 10);
    match w.process_pending(&mut b) {
        PendingStep::Batch(plan) => assert_eq!(
            plan.emissions,
            vec![
                Emission::Everywhere(udp([239, 255, 0, 1], 7401)),
                Emission::Everywhere(udp([127, 0, 0, 1], 7410)),
            ]
        ),
        _ => panic!("no batch"),
    }
}

#[test]
fn reached_extra_destination_gets_nothing_more() {
    let mut rp = RtpsReaderProxy::new(reader_guid(5), QosPolicies::qos_none(), false);
    let near = udp([127, 0, 0, 1], 7410);
    let other = udp([127, 0, 0, 1], 7412);
    rp.send_route = SendRoute { unicast: Some(near), multicast: None, fallback: false };
    assert_eq!(
        plan_for_one(DeliveryMode::Unicast, &rp, &vec![near, other, other]),
        vec![Emission::Unicast(near), Emission::Everywhere(other)]
    );
}

#[test]
fn cut_sample_is_put_together() {
    let (mut w, mut b) = writer(QosPolicies::qos_none());
    matched(&mut w, &mut b, 5, QosPolicies::qos_none());
    let value: Vec<u8> = (0..5000u32).map(|i| (i % 241) as u8).collect();
    let data = DDSData::new(SerializedPayload::new(
        RepresentationIdentifier::cdr_le(),
        value.clone(),
    ));
    assert!(matches!(
        b.admit_blocking(WriteOptionsBuilder::new().build(), data, true),
        Admission::Admitted(_)
    ));
    let mut wire = vec![0u8, 1, 0, 0];
    wire.extend_from_slice(&value);
    let messages = match w.process_pending(&mut b) {
        PendingStep::Sample(plan) => plan.messages.drain(&b),
        _ => panic!("no sample"),
    };
    let mut assembler = FragmentAssembler::new(1024, true);
    let mut put_together = None;
    for m in messages.iter().rev() {
        for s in &m.submessages {
            if let Submessage::DataFrag {
                reader,
                writer_sn,
                fragment_starting_num,
                fragments_in_submessage,
                fragment_size,
                sample_size,
            } = s
            {
                let from = (fragment_starting_num.value as usize - 1) * *fragment_size as usize;
                let to = from + *fragments_in_submessage as usize * *fragment_size as usize;
                let frag = DataFrag {
                    reader_id: *reader,
                    writer_id: writer_guid().entity_id,
                    writer_sn: *writer_sn,
                    fragment_starting_num: *fragment_starting_num,
                    fragments_in_submessage: *fragments_in_submessage,
                    data_size: *sample_size,
                    fragment_size: *fragment_size,
                    serialized_payload: Bytes::from(wire[from..to.min(wire.len())].to_vec()),
                };
                assert!(put_together.is_none());
                put_together = assembler.new_datafrag(&frag, false, now());
            }
        }
    }
    match put_together {
        Some(DDSData::Data { serialized_payload }) => {
            assert_eq!(&serialized_payload.value[..], &value[..])
        }
        _ => panic!("not put together"),
    }
}

#[test]
fn secure_messages_are_encoded_for_their_readers() {
    let (mut w, mut b) = writer(QosPolicies::qos_none());
    matched(&mut w, &mut b, 5, QosPolicies::qos_none());
    matched(&mut w, &mut b, 6, QosPolicies::qos_none());
    assert!(w.encoding_targets(None).is_none());
    w.security = true;
    let all = w.encoding_targets(None).unwrap();
    assert_eq!(all.source, writer_guid());
    assert_eq!(all.readers, vec![reader_guid(5), reader_guid(6)]);
    assert_eq!(all.prefixes, vec![reader_guid(5).prefix, reader_guid(6).prefix]);
    let one = w.encoding_targets(Some(reader_guid(6))).unwrap();
    assert_eq!(one.readers, vec![reader_guid(6)]);
    assert_eq!(one.source_prefix, writer_guid().prefix);
}

#[test]
fn message_is_sent_only_if_every_part_is_encoded() {
    let parts = vec![Some(vec![1, 2, 3]), Some(vec![4]), Some(vec![])];
    assert_eq!(join_encoded(parts.into()), Some(vec![1, 2, 3, 4]));
    let parts = vec![Some(vec![1]), None, Some(vec![2])];
    assert_eq!(join_encoded(parts.into()), None);
}

#[test]
fn sending_ends_done_or_blocked() {
    // Best effort: a full socket drops the batch, and all is done.
    let (mut w, mut b) = writer(QosPolicies::qos_none());
    matched(&mut w, &mut b, 5, QosPolicies::qos_none());
    put_sample(&mut b, 10);
    match w.process_pending(&mut b) {
        PendingStep::Batch(plan) => {
            let outcome = batch_outcome(plan.last_seq, plan.may_block, vec![SocketId::Unicast]);
            assert!(matches!(w.finish_batch(&mut b, outcome), Continuation::GoOn { .. }));
        }
        _ => panic!("no batch"),
    }
    assert!(w.take_blocked_sockets().is_empty());
    assert_eq!(b.sent_frontier, b.last_change_sequence_number());
    // Reliable: it stays to be sent, and the socket is blocked.
    let (mut w, mut b) = writer(reliable());
    matched(&mut w, &mut b, 5, reliable());
    put_sample(&mut b, 10);
    match w.process_pending(&mut b) {
        PendingStep::Batch(plan) => {
            let outcome = batch_outcome(plan.last_seq, plan.may_block, vec![SocketId::Unicast]);
            assert!(matches!(w.finish_batch(&mut b, outcome), Continuation::Stop));
        }
        _ => panic!("no batch"),
    }
    assert_eq!(w.take_blocked_sockets(), vec![SocketId::Unicast]);
    assert_eq!(b.sent_frontier, sn(0));
}
