use rustdds::dds::qos::{QosPolicies, Reliability};
use rustdds::network::udp_sender::{ControlStep, UDPSender};
use rustdds::network::util::localhost_spdp_peer_locators;
use rustdds::rtps::constant::{
    ACKNACK_MESSAGE_TO_LOCAL_WRITER_TOKEN, ADD_READER_TOKEN, ADD_WRITER_TOKEN,
    DISCOVERY_LISTENER_TOKEN, DISCOVERY_UPDATE_NOTIFICATION_TOKEN, DPEV_TIMER_TOKEN,
    MAX_LISTENER_MESSAGES_PER_POLL, REMOVE_READER_TOKEN, REMOVE_WRITER_TOKEN, STOP_POLL_TOKEN,
};
use rustdds::rtps::dp_event_loop::{
    dispatch, listener_registration, registrations, CommandRead, CommandStep, DPEventLoop,
    DomainInfo, DpTimerEvent, EventAction, EventLoopCommand, InterestChange, TimerAction,
};
use rustdds::rtps::endpoint_matching::{
    check_are_endpoints_securities_compatible, inform_discovery_about_new_local_endpoint,
    on_remote_participant_authentication_status_changed, remote_writer_discovered,
    AuthenticationStatus, BuiltinPair, BuiltinPairs, DiscoveryCommand, EndpointSecurityInfo,
    LocalReader, MatchSecurity, ParticipantEndpoints, SecurityAttributesMask,
};
use rustdds::rtps::event_token::{
    entity_token, from_token, sender_writable_socket_id, sender_writable_token, TokenDecode,
};
use rustdds::rtps::outbound::{Datagram, SendOutcome, SocketId};
use rustdds::rtps::transmit::InterfaceSelector;
use rustdds::rtps::writer::{TimedEvent, WriterIngredients};
use rustdds::structure::guid::{EntityId, EntityKind, GuidPrefix, GUID};
use rustdds::structure::locator::{IpAddr, Ipv4Addr, SocketAddr};
use rustdds::structure::sorted_map::SortedMap;
use rustdds::structure::time::Duration;

fn own() -> GUID {
    GUID::new(
        GuidPrefix::new(&[1; 12]),
        EntityId::new([0, 0, 1], EntityKind { value: 0xC1 }),
    )
}

fn event_loop(same_host_loopback: bool) -> DPEventLoop {
    DPEventLoop::new(
        DomainInfo { domain_participant_guid: own(), domain_id: 0, participant_id: 2 },
        vec![],
        same_host_loopback,
    )
    .0
}

fn wid(n: u8) -> EntityId {
    EntityId::new([0, 0, n], EntityKind::writer_no_key_user_defined())
}

fn reliable() -> QosPolicies {
    QosPolicies {
        reliability: Some(Reliability::Reliable { max_blocking_time: Duration::zero() }),
        ..QosPolicies::qos_none()
    }
}

fn ingredients(id: EntityId, topic: &str, qos: QosPolicies) -> WriterIngredients {
    WriterIngredients {
        guid: GUID::new(own().prefix, id),
        topic_name: topic.to_string(),
        like_stateless: false,
        qos_policies: qos,
        security: false,
    }
}

fn sender() -> UDPSender {
    UDPSender::new_with_networks(vec![
        InterfaceSelector::Ip(IpAddr::V4(Ipv4Addr::new(10, 0, 0, 1))),
        InterfaceSelector::Ip(IpAddr::V4(Ipv4Addr::new(10, 0, 1, 1))),
    ])
}

fn datagram(n: u8) -> Datagram {
    Datagram {
        addr: SocketAddr::new(IpAddr::V4(Ipv4Addr::new(10, 0, 0, 9)), 7411),
        bytes: vec![n],
    }
}

#[test]
fn tokens_stand_for_their_sources() {
    let id = EntityId::new([1, 2, 3], EntityKind { value: 0xC2 });
    assert_eq!(entity_token(id), 0x1_0102_03C2);
    assert_eq!(from_token(entity_token(id)), TokenDecode::Entity(id));
    assert_eq!(from_token(7), TokenDecode::FixedToken(7));
    assert_eq!(from_token(0x2_0102_03C2), TokenDecode::AltEntity(id));
    let sid = SocketId::Multicast(3);
    let token = sender_writable_token(sid).unwrap();
    assert_eq!(sender_writable_socket_id(token), Some(sid));
    assert_eq!(
        sender_writable_socket_id(sender_writable_token(SocketId::Unicast).unwrap()),
        Some(SocketId::Unicast)
    );
    assert_eq!(sender_writable_token(SocketId::Multicast(usize::MAX)), None);
    assert_eq!(sender_writable_socket_id(STOP_POLL_TOKEN), None);
}

#[test]
fn events_are_dispatched_by_token() {
    let fixed = |t| dispatch(TokenDecode::FixedToken(t));
    assert_eq!(fixed(STOP_POLL_TOKEN), EventAction::ReadCommands);
    assert_eq!(
        fixed(DISCOVERY_LISTENER_TOKEN),
        EventAction::Receive {
            listener: DISCOVERY_LISTENER_TOKEN,
            limit: MAX_LISTENER_MESSAGES_PER_POLL
        }
    );
    assert_eq!(fixed(ADD_READER_TOKEN), EventAction::AddReaders);
    assert_eq!(fixed(REMOVE_READER_TOKEN), EventAction::CollectReaderRemovals);
    assert_eq!(fixed(ADD_WRITER_TOKEN), EventAction::AddWriters);
    assert_eq!(fixed(REMOVE_WRITER_TOKEN), EventAction::CollectWriterRemovals);
    assert_eq!(fixed(ACKNACK_MESSAGE_TO_LOCAL_WRITER_TOKEN), EventAction::HandleAckNacks);
    assert_eq!(fixed(DISCOVERY_UPDATE_NOTIFICATION_TOKEN), EventAction::HandleDiscoveryUpdates);
    assert_eq!(fixed(DPEV_TIMER_TOKEN), EventAction::HandleTimers);
    assert_eq!(
        fixed(sender_writable_token(SocketId::Unicast).unwrap()),
        EventAction::ServeSocket(SocketId::Unicast)
    );
    assert_eq!(fixed(999), EventAction::Unexpected);
    assert_eq!(dispatch(TokenDecode::Entity(wid(1))), EventAction::WriterDoorbell(wid(1)));
    let rid = EntityId::new([0, 0, 1], EntityKind::reader_with_key_user_defined());
    assert_eq!(dispatch(TokenDecode::Entity(rid)), EventAction::ReaderCommand(rid));
    assert_eq!(dispatch(TokenDecode::Entity(own().entity_id)), EventAction::Unexpected);
    assert_eq!(dispatch(TokenDecode::AltEntity(rid)), EventAction::Unexpected);
    for r in registrations() {
        assert_ne!(fixed(r.token), EventAction::Unexpected);
    }
    assert!(listener_registration(DISCOVERY_LISTENER_TOKEN).level);
}

#[test]
fn commands_end_the_loop() {
    let mut ev = event_loop(false);
    let cmd = CommandRead::Command;
    assert_eq!(ev.handle_command(CommandRead::Empty), CommandStep::Done);
    assert!(!ev.preparing_to_stop);
    assert_eq!(ev.handle_command(cmd(EventLoopCommand::PrepareStop)), CommandStep::ReadMore);
    assert!(ev.preparing_to_stop);
    assert_eq!(ev.handle_command(cmd(EventLoopCommand::Stop)), CommandStep::Quit);
    assert_eq!(ev.handle_command(CommandRead::Disconnected), CommandStep::Quit);
}

#[test]
fn periodic_events_are_set_again() {
    let (mut ev, timers) = DPEventLoop::new(
        DomainInfo { domain_participant_guid: own(), domain_id: 0, participant_id: 2 },
        vec![],
        false,
    );
    assert_eq!(timers.len(), 2);
    for t in timers {
        let (action, again) = ev.handle_timer(t.event);
        assert_eq!(again, Some(t));
        assert!(matches!(
            action,
            TimerAction::SendPreemptiveAcknacks | TimerAction::CollectGarbage
        ));
    }
    let event = DpTimerEvent::Writer { entity_id: wid(1), event: TimedEvent::Heartbeat };
    assert_eq!(ev.handle_timer(event), (TimerAction::Nothing, None));
    ev.add_local_writer(ingredients(wid(1), "t", reliable()));
    assert_eq!(
        ev.handle_timer(event),
        (TimerAction::ToWriter(wid(1), TimedEvent::Heartbeat), None)
    );
}

#[test]
fn writers_take_turns_on_a_socket() {
    let mut ev = event_loop(false);
    let s = sender();
    let uni = SocketId::Unicast;
    assert!(!ev.has_pending_outbound(&s));
    ev.mark_writer_willing(uni, wid(1));
    ev.mark_writer_willing(uni, wid(2));
    ev.mark_writer_willing(uni, wid(1));
    assert!(ev.has_pending_outbound(&s));
    assert!(ev.may_serve_writers(&s, uni));
    assert_eq!(ev.next_willing(uni), Some(wid(1)));
    // The socket is full again: the writer goes to the end of the queue.
    assert!(!ev.turn_taken(uni, wid(1), &vec![uni, SocketId::Multicast(0)]));
    assert_eq!(ev.next_willing(uni), Some(wid(2)));
    assert!(ev.turn_taken(uni, wid(2), &vec![]));
    assert_eq!(ev.next_willing(uni), Some(wid(1)));
    assert_eq!(ev.next_willing(uni), None);
    assert_eq!(ev.next_willing(SocketId::Multicast(0)), Some(wid(1)));
    assert_eq!(ev.poll_timeout_millis(&s, false), 2000);
    ev.mark_blocked(&vec![uni], wid(3));
    assert_eq!(ev.poll_timeout_millis(&s, false), 2);
    assert_eq!(ev.poll_timeout_millis(&s, true), 2000);
}

#[test]
fn sockets_are_watched_while_something_waits() {
    let mut ev = event_loop(false);
    let mut s = sender();
    assert_eq!(ev.reconcile_writable_interest(&s), vec![]);
    let m1 = SocketId::Multicast(1);
    ev.mark_writer_willing(m1, wid(1));
    s.control_sent(SocketId::Unicast, datagram(1), SendOutcome::WouldBlock);
    assert!(!ev.may_serve_writers(&s, SocketId::Unicast));
    let arm = vec![InterestChange::Arm(SocketId::Unicast), InterestChange::Arm(m1)];
    assert_eq!(ev.reconcile_writable_interest(&s), arm);
    ev.interest_armed(m1);
    assert_eq!(
        ev.reconcile_writable_interest(&s),
        vec![InterestChange::Arm(SocketId::Unicast)]
    );
    assert_eq!(ev.next_willing(m1), Some(wid(1)));
    assert_eq!(
        ev.reconcile_writable_interest(&s),
        vec![InterestChange::Arm(SocketId::Unicast), InterestChange::Disarm(m1)]
    );
}

#[test]
fn control_keeps_its_order() {
    let mut s = sender();
    let id = SocketId::Unicast;
    match s.control_send_one(id, datagram(1)) {
        ControlStep::SendNow(d) => s.control_sent(id, d, SendOutcome::WouldBlock),
        ControlStep::Queued => panic!("nothing waits yet"),
    }
    assert!(matches!(s.control_send_one(id, datagram(2)), ControlStep::Queued));
    assert!(!s.bulk_may_send(id));
    assert_eq!(s.pending_control_sockets(), vec![id]);
    assert_eq!(s.next_control(id).unwrap().bytes, vec![1]);
    assert!(!s.flush_control(id, SendOutcome::WouldBlock));
    assert!(s.flush_control(id, SendOutcome::Sent));
    assert_eq!(s.next_control(id).unwrap().bytes, vec![2]);
    assert!(s.flush_control(id, SendOutcome::Dropped));
    assert!(s.next_control(id).is_none());
    assert!(s.bulk_may_send(id));
}

#[test]
fn removals_wait_for_the_end_of_the_batch() {
    let mut ev = event_loop(false);
    ev.add_local_writer(ingredients(wid(1), "t", reliable()));
    ev.add_local_writer(ingredients(wid(2), "t", reliable()));
    let reader = GUID::new(own().prefix, wid(9));
    ev.defer_reader_removal(reader);
    ev.defer_writer_removal(GUID::new(own().prefix, wid(1)));
    ev.defer_writer_removal(GUID::new(own().prefix, wid(7)));
    assert_eq!(ev.acknack_target(wid(1)), Some(wid(1)));
    let (readers, writers) = ev.apply_removals();
    assert_eq!(readers, vec![reader]);
    assert_eq!(writers, vec![wid(1)]);
    assert_eq!(ev.acknack_target(wid(1)), None);
    assert_eq!(ev.acknack_target(wid(2)), Some(wid(2)));
    let (readers, writers) = ev.apply_removals();
    assert!(readers.is_empty() && writers.is_empty());
}

#[test]
fn best_effort_writers_take_no_acknowledgements() {
    let mut ev = event_loop(false);
    ev.add_local_writer(ingredients(wid(1), "t", QosPolicies::qos_none()));
    assert_eq!(ev.acknack_target(wid(1)), None);
    let w = ev.take_writer(wid(1)).unwrap();
    assert!(ev.take_writer(wid(1)).is_none());
    ev.put_writer(w);
    assert!(ev.take_writer(wid(1)).is_some());
}

#[test]
fn announcements_go_to_peers_on_this_host() {
    let spdp = EntityId::spdp_builtin_participant_writer();
    let mut ev = event_loop(true);
    let timers = ev.add_local_writer(ingredients(spdp, "DCPSParticipant", QosPolicies::qos_none()));
    assert_eq!(timers.len(), 1);
    let w = ev.take_writer(spdp).unwrap();
    assert!(w.prefer_loopback_same_host);
    assert_eq!(w.extra_unicast_destinations, localhost_spdp_peer_locators(0, 2, 32));
    ev.add_local_writer(ingredients(wid(1), "t", QosPolicies::qos_none()));
    assert!(ev.take_writer(wid(1)).unwrap().extra_unicast_destinations.is_empty());
    let mut ev = event_loop(false);
    ev.add_local_writer(ingredients(spdp, "DCPSParticipant", QosPolicies::qos_none()));
    let w = ev.take_writer(spdp).unwrap();
    assert!(!w.prefer_loopback_same_host);
    assert!(w.extra_unicast_destinations.is_empty());
}

fn protected(bits: u32) -> EndpointSecurityInfo {
    EndpointSecurityInfo {
        endpoint_security_attributes: SecurityAttributesMask { bits },
        plugin_endpoint_security_attributes: SecurityAttributesMask { bits: 0x8000_0000 },
    }
}

#[test]
fn protections_have_to_agree() {
    let a = Some(protected(0x8000_0001));
    let b = Some(protected(0x8000_0002));
    let invalid = Some(protected(0x0000_0001));
    assert!(check_are_endpoints_securities_compatible(None, None));
    assert!(check_are_endpoints_securities_compatible(a, a));
    assert!(!check_are_endpoints_securities_compatible(a, b));
    assert!(!check_are_endpoints_securities_compatible(a, None));
    assert!(!check_are_endpoints_securities_compatible(None, a));
    assert!(!check_are_endpoints_securities_compatible(invalid, invalid));
}

#[test]
fn remote_endpoints_are_matched_by_topic() {
    let mut ev = event_loop(false);
    ev.add_local_writer(ingredients(wid(1), "Square", reliable()));
    ev.add_local_writer(ingredients(wid(2), "Circle", reliable()));
    ev.add_local_writer(ingredients(wid(3), "Square", reliable()));
    let square = "Square".to_string();
    assert_eq!(ev.remote_reader_discovered(&square, None), vec![wid(1), wid(3)]);
    assert_eq!(ev.remote_reader_lost(), vec![wid(1), wid(2), wid(3)]);
    let mut local = SortedMap::new();
    local.insert(wid(3), protected(0x8000_0001));
    let security = MatchSecurity { local, remote: Some(protected(0x8000_0001)) };
    assert_eq!(ev.remote_reader_discovered(&square, Some(&security)), vec![wid(3)]);
    let readers = vec![
        LocalReader { entity_id: wid(5), topic_name: "Square".to_string() },
        LocalReader { entity_id: wid(6), topic_name: "Circle".to_string() },
    ];
    assert_eq!(remote_writer_discovered(&readers, &square, None), vec![wid(5)]);
    assert_eq!(remote_writer_discovered(&readers, &square, Some(&security)), vec![]);
}

fn pair(writer_id: EntityId, reader_id: EntityId, endpoint: u32) -> BuiltinPair {
    BuiltinPair { writer_id, reader_id, endpoint, qos: reliable() }
}

#[test]
fn builtin_endpoints_are_matched_as_announced() {
    let mut ev = event_loop(false);
    let message_writer = EntityId::p2p_builtin_participant_message_writer();
    let message_reader = EntityId::p2p_builtin_participant_message_reader();
    ev.add_local_writer(ingredients(message_writer, "DCPSParticipantMessage", reliable()));
    let pairs = vec![pair(message_writer, message_reader, 0b100), pair(wid(1), wid(2), 0b1)];
    let prefix = GuidPrefix::new(&[7; 12]);
    let remote = ParticipantEndpoints { prefix, available: 0b101, best_effort_messages: true };
    let update = ev.update_participant(remote, &pairs, &pairs, &vec![message_reader]);
    assert_eq!(update.reader_updates.len(), 1);
    assert_eq!(update.reader_updates[0].writer_id, message_writer);
    assert_eq!(update.reader_updates[0].reader_guid, GUID::new(prefix, message_reader));
    assert_eq!(update.reader_updates[0].qos.reliability, Some(Reliability::BestEffort));
    assert_eq!(update.writer_updates.len(), 1);
    assert_eq!(update.writer_updates[0].writer_guid, GUID::new(prefix, message_writer));
    assert_eq!(update.writer_updates[0].qos, reliable());
    assert_eq!(update.rerouted, vec![message_writer]);
    let without = ParticipantEndpoints { available: 0b1, ..remote };
    let update = ev.update_participant(without, &pairs, &pairs, &vec![message_reader]);
    assert!(update.reader_updates.is_empty());
    assert!(update.writer_updates.is_empty());
}

#[test]
fn nothing_is_sent_to_the_own_participant() {
    let mut ev = event_loop(false);
    let message_writer = EntityId::p2p_builtin_participant_message_writer();
    let message_reader = EntityId::p2p_builtin_participant_message_reader();
    ev.add_local_writer(ingredients(message_writer, "DCPSParticipantMessage", reliable()));
    let pairs = vec![pair(message_writer, message_reader, 0b100)];
    let myself = ParticipantEndpoints {
        prefix: own().prefix,
        available: 0b100,
        best_effort_messages: false,
    };
    let update = ev.update_participant(myself, &pairs, &pairs, &vec![message_reader]);
    assert!(update.reader_updates.is_empty());
    assert_eq!(update.writer_updates.len(), 1);
    assert_eq!(update.rerouted, vec![message_writer]);
    let other = ParticipantEndpoints { prefix: GuidPrefix::new(&[7; 12]), ..myself };
    let update = ev.update_participant(other, &pairs, &pairs, &vec![message_reader]);
    assert_eq!(update.reader_updates.len(), 1);
    assert_eq!(update.reader_updates[0].qos, reliable());
}

#[test]
fn authentication_decides_which_endpoints_are_matched() {
    let a = pair(wid(1), wid(2), 1);
    let b = pair(wid(3), wid(4), 2);
    let c = pair(wid(5), wid(6), 4);
    let pairs =
        BuiltinPairs { standard: vec![a], authentication: vec![b], secure: vec![c] };
    assert_eq!(pairs.select(false, None), vec![a]);
    assert_eq!(pairs.select(true, None), vec![]);
    assert_eq!(pairs.select(true, Some(AuthenticationStatus::Authenticating)), vec![b]);
    assert_eq!(pairs.select(true, Some(AuthenticationStatus::Authenticated)), vec![a, c]);
    assert_eq!(pairs.select(true, Some(AuthenticationStatus::Unauthenticated)), vec![a]);
    assert_eq!(pairs.select(true, Some(AuthenticationStatus::Rejected)), vec![]);
    let step = on_remote_participant_authentication_status_changed;
    let s = step(Some(AuthenticationStatus::Authenticated));
    assert!(s.update_participant && s.start_key_exchange);
    let s = step(Some(AuthenticationStatus::Authenticating));
    assert!(s.update_participant && !s.start_key_exchange);
    let s = step(Some(AuthenticationStatus::Rejected));
    assert!(!s.update_participant && !s.start_key_exchange);
    assert_eq!(s.report, Some(AuthenticationStatus::Rejected));
    assert_eq!(step(None).report, None);
}

#[test]
fn discovery_hears_about_new_endpoints() {
    let w = GUID::new(own().prefix, wid(1));
    let r = GUID::new(
        own().prefix,
        EntityId::new([0, 0, 1], EntityKind::reader_with_key_user_defined()),
    );
    assert_eq!(
        inform_discovery_about_new_local_endpoint(w),
        DiscoveryCommand::AddLocalWriter { guid: w }
    );
    assert_eq!(
        inform_discovery_about_new_local_endpoint(r),
        DiscoveryCommand::AddLocalReader { guid: r }
    );
}

#[test]
fn lost_participant_is_forgotten() {
    let mut ev = event_loop(false);
    ev.add_local_writer(ingredients(wid(1), "t", reliable()));
    let prefix = GuidPrefix::new(&[7; 12]);
    let source = SocketAddr::new(IpAddr::V4(Ipv4Addr::new(10, 0, 0, 9)), 7410);
    ev.interface_observations.record(prefix, None, source);
    assert!(ev.interface_observations.get(prefix).is_some());
    assert_eq!(ev.remote_participant_lost(prefix), vec![wid(1)]);
    assert!(ev.interface_observations.get(prefix).is_none());
}
