use rustdds::dds::ddsdata::{ChangeKind, DDSData, RepresentationIdentifier};
use rustdds::dds::participant::{
    assert_liveliness_result, discovery_multicast_plan, discovery_started, discovery_unicast_plan,
    find_topic_step, poll_next, user_multicast_plan, user_unicast_plan, user_unicast_refused,
    AccessAnswer, DomainParticipant, DomainParticipantBuilder, FindTopicStep, IdSearch,
    ListenerPlan, SecuritySetup, StatusPoll, StatusRead, ThreadStart,
};
use rustdds::dds::pubsub::{participant_gone, EndpointSecurity};
use rustdds::dds::qos::{
    Durability, History, Liveliness, QosPolicies, Reliability, ResourceLimits,
};
use rustdds::dds::result::{CreateError, WriteError};
use rustdds::dds::topic::{DiscoveredTopicData, Topic, TopicKind};
use rustdds::dds::with_key::datawriter::{
    AsyncWaitForAcknowledgments, AsyncWrite, AsyncWriteStep, WriteOptions, WriteOptionsBuilder,
    WriteStep,
};
use rustdds::rtps::constant::{
    DEFAULT_WRITER_MAX_SAMPLES, DISCOVERY_LISTENER_TOKEN, DISCOVERY_MUL_LISTENER_TOKEN,
    USER_TRAFFIC_LISTENER_TOKEN, USER_TRAFFIC_MUL_LISTENER_TOKEN,
};
use rustdds::rtps::dp_event_loop::DomainInfo;
use rustdds::rtps::endpoint_matching::{EndpointSecurityInfo, SecurityAttributesMask};
use rustdds::rtps::writer_send_buffer::{AckWait, WakerId};
use rustdds::structure::guid::{EntityId, EntityKind, GuidPrefix, GUID};
use rustdds::structure::locator::{IpAddr, Ipv4Addr};
use rustdds::structure::rpc::SampleIdentity;
use rustdds::structure::sequence_number::SequenceNumber;
use rustdds::structure::time::{Duration, Timestamp};

fn participant() -> DomainParticipant {
    DomainParticipant::new(
        DomainInfo {
            domain_participant_guid: GUID::new(
                GuidPrefix::new(&[1, 2, 3, 4, 5, 6, 7, 8, 9, 10, 11, 12]),
                EntityId::new([0, 0, 1], EntityKind { value: 0xC1 }),
            ),
            domain_id: 0,
            participant_id: 3,
        },
        QosPolicies::qos_none(),
        None,
        vec![],
    )
}

fn topic(dp: &DomainParticipant, kind: TopicKind) -> Topic {
    dp.create_topic(
        "Aasii".to_string(),
        "Huh?".to_string(),
        &QosPolicies::qos_none(),
        kind,
        AccessAnswer::Allowed,
    )
    .expect("Failed to create topic")
}

fn reliable_qos() -> QosPolicies {
    QosPolicies {
        reliability: Some(Reliability::Reliable {
            max_blocking_time: Duration::from_millis(250),
        }),
        ..QosPolicies::qos_none()
    }
}

fn le() -> RepresentationIdentifier {
    RepresentationIdentifier::cdr_le()
}

#[test]
fn dp_writer_heartbeat_test() {
    let mut domain_participant = participant();
    let qos = QosPolicies::qos_none();
    let publisher = domain_participant.create_publisher(&qos);
    let topic = domain_participant
        .create_topic(
            "Aasii".to_string(),
            "RandomData".to_string(),
            &qos,
            TopicKind::WithKey,
            AccessAnswer::Allowed,
        )
        .expect("Failed to create topic");
    let w = publisher.create_datawriter(&mut domain_participant, None, &topic, None, false);
    assert_eq!(w.data_writer.guid().prefix, domain_participant.guid().prefix);
}

#[test]
fn dw_write_test() {
    let mut domain_participant = participant();
    let qos = QosPolicies::qos_none();
    let publisher = domain_participant.create_publisher(&qos);
    let topic = topic(&domain_participant, TopicKind::WithKey);
    let mut w = publisher.create_datawriter(&mut domain_participant, None, &topic, None, false);

    let first = w.data_writer.write(&mut w.send_buffer, le(), Ok(vec![4, 0, 0, 0]), None, true);
    match first {
        Ok(WriteStep::Written { identity, refresh }) => {
            assert_eq!(identity.writer_guid, w.data_writer.guid());
            assert_eq!(identity.sequence_number, SequenceNumber::new(1));
            assert!(!refresh);
        }
        _ => panic!("Unable to write data"),
    }

    let timestamp = Timestamp { seconds: 7, fraction: 0 };
    let second =
        w.data_writer.write(&mut w.send_buffer, le(), Ok(vec![5, 0, 0, 0]), Some(timestamp), true);
    assert!(matches!(second, Ok(WriteStep::Written { .. })), "Unable to write data with timestamp");
    let cc = w.send_buffer.get_by_sn(SequenceNumber::new(2)).unwrap();
    assert_eq!(cc.write_options.source_timestamp(), Some(timestamp));
}

#[test]
fn dw_dispose_test() {
    let mut domain_participant = participant();
    let qos = QosPolicies::qos_none();
    let publisher = domain_participant.create_publisher(&qos);
    let topic = topic(&domain_participant, TopicKind::WithKey);
    let mut w = publisher.create_datawriter(&mut domain_participant, None, &topic, None, false);
    let written = w.data_writer.write(&mut w.send_buffer, le(), Ok(vec![4, 0, 0, 0]), None, true);
    assert!(matches!(written, Ok(WriteStep::Written { .. })), "Unable to write data");
    let now = Timestamp { seconds: 9, fraction: 5 };
    let disposed =
        w.data_writer.dispose(&mut w.send_buffer, le(), Ok(vec![4, 0]), None, now, true);
    match disposed {
        Ok(WriteStep::Written { identity, .. }) => {
            let cc = w.send_buffer.get_by_sn(identity.sequence_number).unwrap();
            assert_eq!(cc.write_options.source_timestamp(), Some(now));
            match cc.data_value {
                DDSData::DisposeByKey { change_kind, key } => {
                    assert_eq!(change_kind, ChangeKind::NotAliveDisposed);
                    assert_eq!(&key.value[..], &[4u8, 0][..]);
                }
                _ => panic!("not a disposal"),
            }
        }
        _ => panic!("Unable to dispose data"),
    }
}

#[test]
fn dw_wait_for_ack_test() {
    let mut domain_participant = participant();
    let qos = QosPolicies::qos_none();
    let publisher = domain_participant.create_publisher(&qos);
    let topic = topic(&domain_participant, TopicKind::WithKey);
    let mut w = publisher.create_datawriter(&mut domain_participant, None, &topic, None, false);
    let written = w.data_writer.write(&mut w.send_buffer, le(), Ok(vec![4, 0, 0, 0]), None, true);
    assert!(matches!(written, Ok(WriteStep::Written { .. })), "Unable to write data");
    let target = w.data_writer.acknowledgment_target(&w.send_buffer);
    // At once, because there is no reliable policy.
    assert_eq!(
        w.data_writer.wait_for_acknowledgments(&w.send_buffer, target, false),
        AckWait::Acked
    );
}

#[test]
fn reliable_writer_waits_for_acknowledgments() {
    let mut dp = participant();
    let publisher = dp.create_publisher(&reliable_qos());
    let topic = topic(&dp, TopicKind::WithKey);
    let mut w = publisher.create_datawriter(&mut dp, None, &topic, None, false);
    assert_eq!(w.data_writer.max_blocking_time(), Some(Duration::from_millis(250)));
    w.send_buffer.set_acked_frontier(Some(SequenceNumber::new(1)));
    let written = w.data_writer.write(&mut w.send_buffer, le(), Ok(vec![1]), None, true);
    assert!(matches!(written, Ok(WriteStep::Written { .. })));
    let target = w.data_writer.acknowledgment_target(&w.send_buffer);
    assert_eq!(target, Some(SequenceNumber::new(1)));
    assert_eq!(
        w.data_writer.wait_for_acknowledgments(&w.send_buffer, target, false),
        AckWait::Wait
    );
    assert_eq!(
        w.data_writer.wait_for_acknowledgments(&w.send_buffer, target, true),
        AckWait::TimedOut
    );
    let wait = AsyncWaitForAcknowledgments { target: target.unwrap() };
    assert!(!wait.poll(&mut w.send_buffer, WakerId { id: 3 }));
    assert_eq!(
        w.send_buffer.set_acked_frontier(Some(SequenceNumber::new(2))),
        Some(vec![WakerId { id: 3 }])
    );
    assert!(wait.poll(&mut w.send_buffer, WakerId { id: 3 }));
}

#[test]
fn full_window_blocks_a_write() {
    let mut dp = participant();
    let qos = QosPolicies {
        resource_limits: Some(ResourceLimits {
            max_samples: 1,
            max_instances: 1,
            max_samples_per_instance: 1,
        }),
        ..reliable_qos()
    };
    let publisher = dp.create_publisher(&qos);
    let topic = topic(&dp, TopicKind::WithKey);
    let mut w = publisher.create_datawriter(&mut dp, None, &topic, None, false);
    w.send_buffer.set_acked_frontier(Some(SequenceNumber::new(1)));
    assert!(matches!(
        w.data_writer.write(&mut w.send_buffer, le(), Ok(vec![1]), None, false),
        Ok(WriteStep::Written { .. })
    ));
    let blocked = w.data_writer.write(&mut w.send_buffer, le(), Ok(vec![2]), None, true);
    assert!(matches!(blocked, Ok(WriteStep::WouldBlock)));
    match w.data_writer.write(&mut w.send_buffer, le(), Ok(vec![2]), None, false) {
        Ok(WriteStep::Wait { write_options, data }) => {
            w.send_buffer.set_acked_frontier(Some(SequenceNumber::new(2)));
            w.send_buffer.set_sent_frontier(SequenceNumber::new(1));
            match w.data_writer.attempt(&mut w.send_buffer, write_options, data, false) {
                WriteStep::Written { identity, .. } => {
                    assert_eq!(identity.sequence_number, SequenceNumber::new(2))
                }
                _ => panic!("still no room"),
            }
        }
        _ => panic!("no wait"),
    }
}

#[test]
fn failed_serialization_writes_nothing() {
    let mut dp = participant();
    let publisher = dp.create_publisher(&QosPolicies::qos_none());
    let topic = topic(&dp, TopicKind::WithKey);
    let mut w = publisher.create_datawriter(&mut dp, None, &topic, None, false);
    match w.data_writer.write(&mut w.send_buffer, le(), Err("bad".to_string()), None, true) {
        Err(WriteError::Serialization { reason }) => assert_eq!(reason, "bad"),
        _ => panic!("no error"),
    }
    let key = Err("key".to_string());
    match w.data_writer.dispose(&mut w.send_buffer, le(), key, None, Timestamp::zero(), true) {
        Err(WriteError::Serialization { reason }) => assert_eq!(reason, "key"),
        _ => panic!("no error"),
    }
    assert_eq!(w.send_buffer.retained_len(), 0);
}

#[test]
fn disposal_keeps_the_time_that_is_given() {
    let mut dp = participant();
    let publisher = dp.create_publisher(&QosPolicies::qos_none());
    let topic = topic(&dp, TopicKind::WithKey);
    let mut w = publisher.create_datawriter(&mut dp, None, &topic, None, false);
    let given = Timestamp { seconds: 3, fraction: 0 };
    let now = Timestamp { seconds: 9, fraction: 5 };
    let disposed =
        w.data_writer.dispose(&mut w.send_buffer, le(), Ok(vec![4]), Some(given), now, true);
    assert!(matches!(disposed, Ok(WriteStep::Written { .. })));
    let cc = w.send_buffer.get_by_sn(SequenceNumber::new(1)).unwrap();
    assert_eq!(cc.write_options.source_timestamp(), Some(given));
}

#[test]
fn async_write_ends_once() {
    let mut dp = participant();
    let publisher = dp.create_publisher(&QosPolicies::qos_none());
    let topic = topic(&dp, TopicKind::WithKey);
    let mut w = publisher.create_datawriter(&mut dp, None, &topic, None, false);
    assert_eq!(w.data_writer.async_blocking_time(), Duration::from_millis(100));
    let data = DDSData::new(rustdds::dds::ddsdata::SerializedPayload::new(le(), vec![1, 2]));
    let mut write = AsyncWrite { pending: Some((WriteOptionsBuilder::new().build(), data)) };
    let waker = WakerId { id: 1 };
    match write.poll(&w.data_writer, &mut w.send_buffer, waker, false) {
        AsyncWriteStep::Written { identity, .. } => {
            assert_eq!(identity.sequence_number, SequenceNumber::new(1))
        }
        _ => panic!("not written"),
    }
    match write.poll(&w.data_writer, &mut w.send_buffer, waker, false) {
        AsyncWriteStep::Failed(WriteError::Internal { reason }) => {
            assert_eq!(reason, "AsyncWrite polled after completion")
        }
        _ => panic!("no error"),
    }
}

#[test]
fn async_write_waits_and_times_out() {
    let mut dp = participant();
    let publisher = dp.create_publisher(&reliable_qos());
    let topic = topic(&dp, TopicKind::WithKey);
    let limits = QosPolicies {
        resource_limits: Some(ResourceLimits {
            max_samples: 1,
            max_instances: 1,
            max_samples_per_instance: 1,
        }),
        ..QosPolicies::qos_none()
    };
    let mut w = publisher.create_datawriter(&mut dp, None, &topic, Some(limits), false);
    w.send_buffer.set_acked_frontier(Some(SequenceNumber::new(1)));
    assert!(matches!(
        w.data_writer.write(&mut w.send_buffer, le(), Ok(vec![1]), None, true),
        Ok(WriteStep::Written { .. })
    ));
    let data = DDSData::new(rustdds::dds::ddsdata::SerializedPayload::new(le(), vec![2]));
    let mut write = AsyncWrite { pending: Some((WriteOptionsBuilder::new().build(), data)) };
    let waker = WakerId { id: 9 };
    assert!(matches!(
        write.poll(&w.data_writer, &mut w.send_buffer, waker, false),
        AsyncWriteStep::Pending
    ));
    assert!(matches!(
        write.poll(&w.data_writer, &mut w.send_buffer, waker, true),
        AsyncWriteStep::Failed(WriteError::WouldBlock)
    ));
    assert!(write.pending.is_none());
}

#[test]
fn liveliness_is_asserted_as_the_policy_says() {
    let mut dp = participant();
    let topic = topic(&dp, TopicKind::WithKey);
    let lease_duration = Duration::from_secs(1);
    let by_participant = QosPolicies {
        liveliness: Some(Liveliness::ManualByParticipant { lease_duration }),
        ..QosPolicies::qos_none()
    };
    let by_topic = QosPolicies {
        liveliness: Some(Liveliness::ManualByTopic { lease_duration }),
        ..QosPolicies::qos_none()
    };
    let publisher = dp.create_publisher(&QosPolicies::qos_none());
    let a = publisher.create_datawriter(&mut dp, None, &topic, Some(by_participant), false);
    assert!(a.refresh);
    let asserted = a.data_writer.assert_liveliness();
    assert!(asserted.participant);
    assert_eq!(asserted.topic, None);
    let b = publisher.create_datawriter(&mut dp, None, &topic, Some(by_topic), false);
    assert!(!b.refresh);
    let asserted = b.data_writer.assert_liveliness();
    assert!(!asserted.participant);
    assert_eq!(asserted.topic, Some(b.data_writer.guid()));
    assert!(assert_liveliness_result(true).is_ok());
    assert!(matches!(assert_liveliness_result(false), Err(WriteError::WouldBlock)));
}

#[test]
fn window_comes_from_the_limits_and_retention_from_the_history() {
    let mut dp = participant();
    let topic = topic(&dp, TopicKind::WithKey);
    let publisher = dp.create_publisher(&reliable_qos());
    let keep = |depth| QosPolicies {
        history: Some(History::KeepLast { depth }),
        ..QosPolicies::qos_none()
    };
    let limited = |depth, max_samples| QosPolicies {
        resource_limits: Some(ResourceLimits {
            max_samples,
            max_instances: 10,
            max_samples_per_instance: 10,
        }),
        ..keep(depth)
    };
    let w = publisher.create_datawriter(&mut dp, None, &topic, Some(keep(1)), false);
    assert_eq!(w.send_buffer.window_limit, DEFAULT_WRITER_MAX_SAMPLES);
    assert_eq!(w.send_buffer.backlog_limit, DEFAULT_WRITER_MAX_SAMPLES);
    assert_eq!(w.send_buffer.max_retain, 1);
    assert!(w.send_buffer.volatile);
    let w = publisher.create_datawriter(&mut dp, None, &topic, Some(limited(50, 7)), false);
    assert_eq!(w.send_buffer.window_limit, 7);
    assert_eq!(w.send_buffer.max_retain, 7);
    let w = publisher.create_datawriter(&mut dp, None, &topic, Some(limited(5, -1)), false);
    assert_eq!(w.send_buffer.window_limit, DEFAULT_WRITER_MAX_SAMPLES);
    assert_eq!(w.send_buffer.max_retain, 5);
    let w = publisher.create_datawriter(&mut dp, None, &topic, Some(keep(0)), false);
    assert_eq!(w.send_buffer.max_retain, 1);
    let w = publisher.create_datawriter(&mut dp, None, &topic, Some(keep(-1)), false);
    assert_eq!(w.send_buffer.max_retain, usize::MAX);
    let durable = QosPolicies {
        durability: Some(Durability::TransientLocal),
        history: Some(History::KeepAll),
        ..QosPolicies::qos_none()
    };
    let w = publisher.create_datawriter(&mut dp, None, &topic, Some(durable), false);
    assert!(!w.send_buffer.volatile);
    assert_eq!(w.send_buffer.max_retain, DEFAULT_WRITER_MAX_SAMPLES);
}

#[test]
fn policies_of_the_endpoint_go_before_those_of_the_topic() {
    let mut dp = participant();
    let mut publisher = dp.create_publisher(&reliable_qos());
    let mut t = topic(&dp, TopicKind::WithKey);
    t.qos = QosPolicies {
        reliability: Some(Reliability::BestEffort),
        history: Some(History::KeepAll),
        ..QosPolicies::qos_none()
    };
    let w = publisher.create_datawriter(&mut dp, None, &t, None, false);
    assert_eq!(w.data_writer.qos().reliability, Some(Reliability::BestEffort));
    let w = publisher.create_datawriter(&mut dp, None, &t, Some(reliable_qos()), false);
    assert_eq!(w.data_writer.qos().reliability, reliable_qos().reliability);
    assert_eq!(w.data_writer.qos().history, Some(History::KeepAll));
    assert_eq!(publisher.get_default_datawriter_qos(), reliable_qos());
    publisher.set_default_datawriter_qos(&QosPolicies::qos_none());
    assert_eq!(publisher.get_default_datawriter_qos(), QosPolicies::qos_none());
}

#[test]
fn entity_ids_count_up() {
    let mut dp = participant();
    let topic = topic(&dp, TopicKind::WithKey);
    let publisher = dp.create_publisher(&QosPolicies::qos_none());
    let kind = EntityKind::writer_with_key_user_defined();
    let a = publisher.create_datawriter(&mut dp, None, &topic, None, false);
    assert_eq!(a.data_writer.guid().entity_id, EntityId::new([0, 0, 1], kind));
    let b = publisher.create_datawriter_no_key(&mut dp, None, &topic, None, false);
    assert_eq!(
        b.data_writer.guid().entity_id,
        EntityId::new([0, 0, 2], EntityKind::writer_no_key_user_defined())
    );
    let fixed = EntityId::spdp_builtin_participant_writer();
    let c = publisher.create_datawriter(&mut dp, Some(fixed), &topic, None, true);
    assert_eq!(c.data_writer.guid().entity_id, fixed);
    assert!(c.send_buffer.is_builtin);
    assert!(c.ingredients.like_stateless);
    dp.entity_id_generator = 0x0102_0304;
    assert_eq!(dp.new_entity_id(kind), EntityId::new([2, 3, 4], kind));
    dp.entity_id_generator = u32::MAX;
    assert_eq!(dp.new_entity_id(kind), EntityId::new([255, 255, 255], kind));
    assert_eq!(dp.new_entity_id(kind), EntityId::new([0, 0, 0], kind));
}

#[test]
fn readers_need_a_topic_of_their_kind() {
    let mut dp = participant();
    let keyed = topic(&dp, TopicKind::WithKey);
    let plain = topic(&dp, TopicKind::NoKey);
    let subscriber = dp.create_subscriber(&reliable_qos());
    let r = subscriber.create_datareader(&mut dp, &keyed, None, None, false).unwrap();
    assert_eq!(r.qos_policy, reliable_qos());
    assert_eq!(
        r.guid.entity_id,
        EntityId::new([0, 0, 0], EntityKind::reader_with_key_user_defined())
    );
    assert_eq!(r.topic_name, "Aasii");
    assert!(matches!(
        subscriber.create_datareader(&mut dp, &plain, None, None, false),
        Err(CreateError::TopicKind(TopicKind::WithKey))
    ));
    let r = subscriber.create_datareader_no_key(&mut dp, &plain, None, None, true).unwrap();
    assert!(r.like_stateless);
    assert_eq!(
        r.guid.entity_id,
        EntityId::new([0, 0, 1], EntityKind::reader_no_key_user_defined())
    );
    assert!(matches!(
        subscriber.create_datareader_no_key(&mut dp, &keyed, None, None, false),
        Err(CreateError::TopicKind(TopicKind::NoKey))
    ));
    assert!(subscriber.create_simple_datareader_no_key(&mut dp, &plain, None, None).is_ok());
    assert!(matches!(
        subscriber.create_simple_datareader_no_key(&mut dp, &keyed, None, None),
        Err(CreateError::TopicKind(TopicKind::NoKey))
    ));
}

fn info() -> EndpointSecurityInfo {
    EndpointSecurityInfo {
        endpoint_security_attributes: SecurityAttributesMask { bits: 0x8000_0001 },
        plugin_endpoint_security_attributes: SecurityAttributesMask { bits: 0x8000_0000 },
    }
}

#[test]
fn security_has_a_say_in_new_endpoints() {
    let mut dp = participant();
    let t = topic(&dp, TopicKind::WithKey);
    let publisher = dp.create_publisher(&QosPolicies::qos_none());
    let (guid, qos) = publisher.plan_datawriter(&mut dp, None, &t, None);
    let answer = |access, registered, info| EndpointSecurity {
        access,
        registered,
        info,
        printed_guid: "G".to_string(),
    };
    match publisher.create_secure_datawriter(
        guid,
        qos,
        &t,
        false,
        answer(AccessAnswer::Denied, Ok(()), Ok(info())),
    ) {
        Err(CreateError::NotAllowedBySecurity { reason }) => {
            assert_eq!(reason, "Not allowed to create a DataWriter to topic Aasii")
        }
        _ => panic!("allowed"),
    }
    match publisher.create_secure_datawriter(
        guid,
        qos,
        &t,
        false,
        answer(AccessAnswer::Failed { msg: "x".to_string() }, Ok(()), Ok(info())),
    ) {
        Err(CreateError::Internal { reason }) => {
            assert_eq!(reason, "Failed to check DataWriter rights from Access control: x")
        }
        _ => panic!("allowed"),
    }
    match publisher.create_secure_datawriter(
        guid,
        qos,
        &t,
        false,
        answer(AccessAnswer::Allowed, Err("y".to_string()), Ok(info())),
    ) {
        Err(CreateError::Internal { reason }) => {
            assert_eq!(reason, "Failed to register writer to crypto plugin: y . GUID: G")
        }
        _ => panic!("registered"),
    }
    match publisher.create_secure_datawriter(
        guid,
        qos,
        &t,
        false,
        answer(AccessAnswer::Allowed, Ok(()), Err("z".to_string())),
    ) {
        Err(CreateError::Internal { reason }) => {
            assert_eq!(reason, "Failed to get security info for writer: z. Guid: G")
        }
        _ => panic!("known"),
    }
    let w = publisher
        .create_secure_datawriter(
            guid,
            qos,
            &t,
            false,
            answer(AccessAnswer::Allowed, Ok(()), Ok(info())),
        )
        .ok()
        .unwrap();
    assert_eq!(w.security_info, Some(info()));
    assert!(w.ingredients.security);
    let builtin = GUID::new(guid.prefix, EntityId::spdp_builtin_participant_writer());
    let w = publisher
        .create_secure_datawriter(
            builtin,
            qos,
            &t,
            false,
            answer(AccessAnswer::Allowed, Ok(()), Err("z".to_string())),
        )
        .ok()
        .unwrap();
    assert_eq!(w.security_info, None);
    let subscriber = dp.create_subscriber(&QosPolicies::qos_none());
    match subscriber.reader_security(guid, &t, answer(AccessAnswer::Denied, Ok(()), Ok(info()))) {
        Err(CreateError::NotAllowedBySecurity { reason }) => {
            assert_eq!(reason, "Not allowed to create a DataReader to topic Aasii")
        }
        _ => panic!("allowed"),
    }
}

#[test]
fn security_has_a_say_in_new_participants() {
    let candidate = GUID::unknown();
    let other = GUID::new(GuidPrefix::new(&[9; 12]), EntityId::unknown());
    assert_eq!(SecuritySetup::start(false, candidate), SecuritySetup::Done { guid: candidate });
    assert_eq!(SecuritySetup::start(true, candidate), SecuritySetup::ValidateIdentity);
    assert_eq!(
        SecuritySetup::identity_validated(Ok(other)).unwrap(),
        SecuritySetup::ValidatePermissions { guid: other }
    );
    match SecuritySetup::identity_validated(Err("who".to_string())) {
        Err(CreateError::NotAllowedBySecurity { reason }) => {
            assert_eq!(reason, "Validating local identity failed: who")
        }
        _ => panic!("validated"),
    }
    assert_eq!(
        SecuritySetup::permissions_validated(other, Ok(())).unwrap(),
        SecuritySetup::CheckCreate { guid: other }
    );
    assert!(matches!(
        SecuritySetup::permissions_validated(other, Err("no".to_string())),
        Err(CreateError::NotAllowedBySecurity { .. })
    ));
    assert_eq!(
        SecuritySetup::create_checked(other, AccessAnswer::Allowed).unwrap(),
        SecuritySetup::Register { guid: other }
    );
    assert!(matches!(
        SecuritySetup::create_checked(other, AccessAnswer::Denied),
        Err(CreateError::NotAllowedBySecurity { .. })
    ));
    assert!(matches!(
        SecuritySetup::create_checked(other, AccessAnswer::Failed { msg: "e".to_string() }),
        Err(CreateError::Internal { .. })
    ));
    assert_eq!(
        SecuritySetup::registered(other, Ok(())).unwrap(),
        SecuritySetup::Done { guid: other }
    );
    assert!(matches!(
        SecuritySetup::registered(other, Err("e".to_string())),
        Err(CreateError::Internal { .. })
    ));
}

#[test]
fn builder_has_defaults() {
    let b = DomainParticipantBuilder::new(4);
    assert_eq!(b.domain_id, 4);
    assert!(b.only_networks.is_none());
    assert!(b.same_host_loopback);
    assert_eq!(b.socket_receive_buffer_size, 8 * 1024 * 1024);
    assert_eq!(b.socket_send_buffer_size, 8 * 1024 * 1024);
    let ip = IpAddr::V4(Ipv4Addr::new(10, 0, 0, 1));
    let b = b
        .with_only_networks(vec![ip])
        .same_host_loopback(false)
        .socket_receive_buffer_size(1)
        .socket_send_buffer_size(2);
    assert_eq!(b.only_networks, Some(vec![ip]));
    assert!(!b.same_host_loopback);
    assert_eq!(b.socket_receive_buffer_size, 1);
    assert_eq!(b.socket_send_buffer_size, 2);
}

#[test]
fn smallest_free_participant_number_is_taken() {
    let mut search = IdSearch::start();
    let found = loop {
        match search {
            IdSearch::Try { participant_id } => {
                search = IdSearch::tried(participant_id, participant_id == 3).unwrap();
            }
            IdSearch::Found { participant_id } => break participant_id,
        }
    };
    assert_eq!(found, 3);
    assert_eq!(IdSearch::tried(118, false).unwrap(), IdSearch::Try { participant_id: 119 });
    match IdSearch::tried(119, false) {
        Err(CreateError::OutOfResources { reason }) => {
            assert_eq!(reason, "Could not find free ParticipantId")
        }
        _ => panic!("found"),
    }
}

#[test]
fn listeners_are_on_well_known_ports() {
    assert_eq!(
        discovery_multicast_plan(0),
        ListenerPlan { token: DISCOVERY_MUL_LISTENER_TOKEN, port: 7400, multicast: true }
    );
    assert_eq!(
        discovery_unicast_plan(0, 2),
        ListenerPlan { token: DISCOVERY_LISTENER_TOKEN, port: 7414, multicast: false }
    );
    assert_eq!(
        user_multicast_plan(0),
        ListenerPlan { token: USER_TRAFFIC_MUL_LISTENER_TOKEN, port: 7401, multicast: true }
    );
    let plan = user_unicast_plan(0, 2);
    assert_eq!(plan, ListenerPlan { token: USER_TRAFFIC_LISTENER_TOKEN, port: 7415, multicast: false });
    let any = user_unicast_refused(plan, true, "in use".to_string()).unwrap();
    assert_eq!(any.port, 0);
    assert!(matches!(
        user_unicast_refused(plan, false, "denied".to_string()),
        Err(CreateError::OutOfResources { .. })
    ));
    assert!(matches!(
        user_unicast_refused(any, true, "in use".to_string()),
        Err(CreateError::OutOfResources { .. })
    ));
}

#[test]
fn topics_are_made_as_discovered() {
    let dp = participant();
    let found = DiscoveredTopicData {
        topic_name: "Square".to_string(),
        type_desc: "ShapeType".to_string(),
        qos: reliable_qos(),
        has_key: true,
    };
    let t = dp.topic_from_discovery(Some(&found), AccessAnswer::Allowed).unwrap().unwrap();
    assert_eq!(t.name, "Square");
    assert_eq!(t.type_desc, "ShapeType");
    assert_eq!(t.kind, TopicKind::WithKey);
    assert_eq!(t.qos, reliable_qos());
    assert!(dp.topic_from_discovery(None, AccessAnswer::Allowed).unwrap().is_none());
    match dp.topic_from_discovery(Some(&found), AccessAnswer::Denied) {
        Err(CreateError::NotAllowedBySecurity { reason }) => {
            assert_eq!(reason, "Not allowed to create the topic Square")
        }
        _ => panic!("allowed"),
    }
    assert_eq!(find_topic_step(true, true), FindTopicStep::LookAgain);
    assert_eq!(find_topic_step(false, false), FindTopicStep::LookAgain);
    assert_eq!(find_topic_step(false, true), FindTopicStep::GiveUp);
}

#[test]
fn participants_and_publishers_are_told_apart_by_id() {
    let a = participant();
    let mut b = participant();
    assert!(a == b);
    b.domain_info.participant_id = 4;
    assert!(a != b);
    assert_eq!(a.participant_id(), 3);
    assert_eq!(a.domain_id(), 0);
    let mut a = a;
    let p = a.create_publisher(&QosPolicies::qos_none());
    let q = a.create_publisher(&QosPolicies::qos_none());
    let copy = p.clone();
    assert!(p == copy);
    assert!(p != q);
    assert_ne!(p.identity(), q.identity());
    match participant_gone() {
        CreateError::ResourceDropped { reason } => {
            assert_eq!(reason, "Where is my DomainParticipant? upgrade fail")
        }
        _ => panic!("another error"),
    }
}

#[test]
fn background_threads_report_their_start() {
    assert!(discovery_started(ThreadStart::Started).is_ok());
    match discovery_started(ThreadStart::Refused { msg: "r".to_string() }) {
        Err(CreateError::Poisoned { reason }) => {
            assert_eq!(reason, "Failed to start discovery thread: r")
        }
        _ => panic!("started"),
    }
    match discovery_started(ThreadStart::Silent { msg: "s".to_string() }) {
        Err(CreateError::Poisoned { reason }) => {
            assert_eq!(reason, "Discovery thread channel error: s")
        }
        _ => panic!("started"),
    }
    assert!(matches!(poll_next(StatusRead::Event(5)), StatusPoll::Ready(Some(5))));
    assert!(matches!(poll_next::<u8>(StatusRead::Empty), StatusPoll::Pending));
    assert!(matches!(poll_next::<u8>(StatusRead::Disconnected), StatusPoll::Ready(None)));
}

#[test]
fn write_options_are_collected() {
    let id = SampleIdentity {
        writer_guid: GUID::unknown(),
        sequence_number: SequenceNumber::new(4),
    };
    let reader = GUID::new(GuidPrefix::new(&[2; 12]), EntityId::unknown());
    let t = Timestamp { seconds: 1, fraction: 2 };
    let o = WriteOptionsBuilder::new()
        .related_sample_identity(id)
        .source_timestamp(t)
        .to_single_reader(reader)
        .best_effort_may_block(true)
        .build();
    assert_eq!(o.related_sample_identity(), Some(id));
    assert_eq!(o.source_timestamp(), Some(t));
    assert_eq!(o.to_single_reader(), Some(reader));
    assert!(o.best_effort_may_block());
    let plain = WriteOptions::from(Some(t));
    assert_eq!(plain.source_timestamp(), Some(t));
    assert_eq!(plain.related_sample_identity(), None);
    assert!(!plain.best_effort_may_block());
    let none = WriteOptionsBuilder::new().related_sample_identity_opt(None).build();
    assert_eq!(none, WriteOptionsBuilder::default().build());
}

/// Looks for a topic among those that were announced, and gives up where it is not there.
fn find_topic(
    dp: &DomainParticipant,
    announced: &[DiscoveredTopicData],
    name: &str,
) -> Result<Option<Topic>, CreateError> {
    loop {
        let found = announced.iter().find(|d| d.topic_name == name);
        match dp.topic_from_discovery(found, AccessAnswer::Allowed)? {
            Some(topic) => return Ok(Some(topic)),
            None => match find_topic_step(false, true) {
                FindTopicStep::LookAgain => {}
                FindTopicStep::GiveUp => return Ok(None),
            },
        }
    }
}

fn announce(topic: &Topic) -> DiscoveredTopicData {
    DiscoveredTopicData {
        topic_name: topic.name.clone(),
        type_desc: topic.type_desc.clone(),
        qos: topic.qos,
        has_key: topic.kind == TopicKind::WithKey,
    }
}

#[test]
fn find_topic_can_be_reused_after_timeout() {
    let dp = participant();
    for attempt in 1..=2 {
        let found = find_topic(&dp, &[], "find_topic_missing")
            .unwrap_or_else(|e| panic!("missing-topic lookup {attempt} failed: {e:?}"));
        assert!(found.is_none(), "the topic should not exist");
    }
}

#[test]
fn find_topic_can_be_reused_after_success() {
    let mut dp = participant();
    let name = "find_topic_existing";
    let qos = QosPolicies {
        reliability: Some(Reliability::BestEffort),
        durability: Some(Durability::Volatile),
        history: Some(History::KeepLast { depth: 1 }),
        ..QosPolicies::qos_none()
    };
    let topic = dp
        .create_topic(
            name.to_string(),
            "Sample".to_string(),
            &qos,
            TopicKind::NoKey,
            AccessAnswer::Allowed,
        )
        .expect("failed to create Topic");
    let publisher = dp.create_publisher(&qos);
    let _writer = publisher.create_datawriter_no_key(&mut dp, None, &topic, None, false);
    let announced = [announce(&topic)];
    for attempt in 1..=2 {
        let found = find_topic(&dp, &announced, name)
            .unwrap_or_else(|e| panic!("existing-topic lookup {attempt} failed: {e:?}"));
        let found = found.expect("the topic should remain discoverable");
        assert_eq!(found.name, name);
        assert_eq!(found.kind, TopicKind::NoKey);
        assert_eq!(found.qos, qos);
    }
}

#[test]
fn find_topic_can_be_reused_after_timeout_and_success() {
    let dp = participant();
    let name = "lock_order_reusable_find_topic";
    for _ in 0..2 {
        assert!(find_topic(&dp, &[], name)
            .expect("lookup of a missing topic failed")
            .is_none());
    }
    let topic = dp
        .create_topic(
            name.to_string(),
            "Sample".to_string(),
            &QosPolicies::qos_none(),
            TopicKind::NoKey,
            AccessAnswer::Allowed,
        )
        .expect("failed to create Topic");
    let announced = [announce(&topic)];
    for _ in 0..2 {
        assert!(find_topic(&dp, &announced, name)
            .expect("lookup of an existing topic failed")
            .is_some());
    }
}
