use rustdds::dds::ddsdata::{DDSData, RepresentationIdentifier, SerializedPayload};
use rustdds::dds::with_key::datawriter::{WriteOptions, WriteOptionsBuilder};
use rustdds::rtps::writer_send_buffer::{AckWait, Admission, WakerId, WriterSendBuffer};
use rustdds::structure::guid::GUID;
use rustdds::structure::sequence_number::SequenceNumber;

fn sample() -> DDSData {
    DDSData::new(SerializedPayload::new(RepresentationIdentifier::cdr_le(), vec![0u8; 8]))
}

fn admit_now(buf: &mut WriterSendBuffer, opts: WriteOptions) -> bool {
    matches!(buf.admit_blocking(opts, sample(), true), Admission::Admitted(_))
}

fn default_opts() -> WriteOptions {
    WriteOptionsBuilder::new().build()
}

fn may_block_opts() -> WriteOptions {
    WriteOptionsBuilder::new().best_effort_may_block(true).build()
}

#[test]
fn backlog_limit_backpressures_best_effort_when_may_block() {
    let mut buf = WriterSendBuffer::new(
        GUID::unknown(),
        "t".to_string(),
        /* reliable_writer */ false,
        /* is_builtin */ false,
        /* volatile */ true,
        /* window_limit */ 1000,
        /* backlog_limit */ 2,
        /* max_retain */ 1000,
    );

    // Nothing sent yet: the backlog is full after two admissions.
    assert!(admit_now(&mut buf, may_block_opts()));
    assert!(admit_now(&mut buf, may_block_opts()));
    assert!(!admit_now(&mut buf, may_block_opts()));

    // The first one goes out: there is room for one more.
    buf.set_sent_frontier(SequenceNumber::new(1));
    assert!(admit_now(&mut buf, may_block_opts()));
    assert!(!admit_now(&mut buf, may_block_opts()));
}

#[test]
fn backlog_limit_ignored_for_best_effort_by_default() {
    let mut buf = WriterSendBuffer::new(
        GUID::unknown(),
        "t".to_string(),
        /* reliable_writer */ false,
        /* is_builtin */ false,
        /* volatile */ true,
        /* window_limit */ 1000,
        /* backlog_limit */ 1,
        /* max_retain */ 1000,
    );
    assert!(admit_now(&mut buf, default_opts()));
    assert!(admit_now(&mut buf, default_opts()));
    assert!(admit_now(&mut buf, default_opts()));
}

#[test]
fn backlog_limit_exempts_builtin() {
    let mut buf = WriterSendBuffer::new(
        GUID::unknown(),
        "t".to_string(),
        false,
        /* is_builtin */ true,
        /* volatile */ true,
        1000,
        /* backlog_limit */ 1,
        /* max_retain */ 1000,
    );
    assert!(admit_now(&mut buf, may_block_opts()));
    assert!(admit_now(&mut buf, may_block_opts()));
    assert!(admit_now(&mut buf, may_block_opts()));
}

#[test]
fn best_effort_default_bounded_by_max_retain() {
    let max_retain = 4;
    let mut buf = WriterSendBuffer::new(
        GUID::unknown(),
        "t".to_string(),
        /* reliable_writer */ false,
        /* is_builtin */ false,
        /* volatile */ true,
        /* window_limit */ 1000,
        /* backlog_limit */ 1000,
        max_retain,
    );

    for _ in 0..100 {
        assert!(admit_now(&mut buf, default_opts()));
        assert!(buf.retained_len() <= max_retain);
    }

    // Exactly `max_retain` are retained, and they are the newest.
    assert_eq!(buf.retained_len(), max_retain);
    let last = buf.last_change_sequence_number();
    assert_eq!(last, SequenceNumber::new(100));
    let first = buf.first_change_sequence_number();
    assert_eq!(first, SequenceNumber::new(100 - max_retain as i64 + 1));
    assert!(buf.get_by_sn(last).is_some());
    assert!(buf.get_by_sn(SequenceNumber::new(1)).is_none());
}

#[test]
fn durable_reliable_writer_not_trimmed_before_match() {
    let max_retain = 2;
    let mut buf = WriterSendBuffer::new(
        GUID::unknown(),
        "t".to_string(),
        /* reliable_writer */ true,
        /* is_builtin */ false,
        /* volatile */ false,
        /* window_limit */ 1000,
        /* backlog_limit */ 1000,
        max_retain,
    );
    for _ in 0..10 {
        assert!(admit_now(&mut buf, default_opts()));
    }
    assert_eq!(buf.retained_len(), 10);
}

#[test]
fn volatile_reliable_writer_trimmed_until_reader_matches() {
    let max_retain = 4;
    let mut buf = WriterSendBuffer::new(
        GUID::unknown(),
        "t".to_string(),
        /* reliable_writer */ true,
        /* is_builtin */ false,
        /* volatile */ true,
        /* window_limit */ 1000,
        /* backlog_limit */ 1000,
        max_retain,
    );
    for _ in 0..100 {
        assert!(admit_now(&mut buf, default_opts()));
        assert!(buf.retained_len() <= max_retain);
    }
    assert_eq!(buf.retained_len(), max_retain);

    // A reliable reader matches: from now on nothing is trimmed.
    buf.set_acked_frontier(Some(SequenceNumber::new(101)));
    for _ in 0..10 {
        assert!(admit_now(&mut buf, default_opts()));
    }
    assert_eq!(buf.retained_len(), max_retain + 10);
}

fn reliable(window: usize) -> WriterSendBuffer {
    WriterSendBuffer::new(GUID::unknown(), "t".to_string(), true, false, false, window, 1000, 1000)
}

#[test]
fn window_limit_holds_a_reliable_writer_back() {
    let mut buf = reliable(2);
    buf.set_acked_frontier(Some(SequenceNumber::new(1)));
    assert!(admit_now(&mut buf, default_opts()));
    assert!(admit_now(&mut buf, default_opts()));
    assert!(matches!(
        buf.admit_blocking(default_opts(), sample(), true),
        Admission::WouldBlock
    ));
    assert!(matches!(
        buf.admit_blocking(default_opts(), sample(), false),
        Admission::Wait { .. }
    ));
    buf.set_acked_frontier(Some(SequenceNumber::new(2)));
    assert!(admit_now(&mut buf, default_opts()));
}

#[test]
fn admitted_sample_is_found_under_its_number() {
    let mut buf = reliable(10);
    let guid = buf.writer_guid;
    let data = DDSData::new(SerializedPayload::new(
        RepresentationIdentifier::cdr_le(),
        vec![7u8, 8, 9],
    ));
    match buf.admit_blocking(may_block_opts(), data, true) {
        Admission::Admitted(n) => {
            assert_eq!(n, SequenceNumber::new(1));
            let cc = buf.get_by_sn(n).unwrap();
            assert_eq!(cc.writer_guid, guid);
            assert_eq!(cc.write_options, may_block_opts());
            match cc.data_value {
                DDSData::Data { serialized_payload } => {
                    assert_eq!(&serialized_payload.value[..], &[7u8, 8, 9][..]);
                }
                _ => panic!("not a value"),
            }
        }
        _ => panic!("not admitted"),
    }
}

#[test]
fn full_window_keeps_a_waker_once_and_progress_wakes_it() {
    let mut buf = reliable(1);
    buf.set_acked_frontier(Some(SequenceNumber::new(1)));
    let waker = WakerId { id: 5 };
    assert!(matches!(
        buf.try_admit(default_opts(), sample(), waker),
        Ok(n) if n == SequenceNumber::new(1)
    ));
    assert!(buf.try_admit(default_opts(), sample(), waker).is_err());
    assert!(buf.try_admit(default_opts(), sample(), waker).is_err());
    assert_eq!(buf.set_acked_frontier(Some(SequenceNumber::new(1))), None);
    assert_eq!(buf.set_acked_frontier(Some(SequenceNumber::new(2))), Some(vec![waker]));
    assert!(buf.try_admit(default_opts(), sample(), waker).is_ok());
}

#[test]
fn without_reliable_readers_everything_is_acknowledged() {
    let mut buf = reliable(10);
    assert!(admit_now(&mut buf, default_opts()));
    let last = buf.last_change_sequence_number();
    assert!(buf.is_acked_through(last));
    buf.set_acked_frontier(Some(SequenceNumber::new(1)));
    assert!(!buf.is_acked_through(last));
    assert_eq!(buf.wait_for_acked_through(last, false), AckWait::Wait);
    assert_eq!(buf.wait_for_acked_through(last, true), AckWait::TimedOut);
    buf.set_acked_frontier(Some(SequenceNumber::new(2)));
    assert_eq!(buf.wait_for_acked_through(last, true), AckWait::Acked);
}

#[test]
fn removed_samples_are_gone() {
    let mut buf = reliable(10);
    for _ in 0..5 {
        assert!(admit_now(&mut buf, default_opts()));
    }
    buf.remove_changes_before(SequenceNumber::new(4));
    assert_eq!(buf.retained_len(), 2);
    assert_eq!(buf.first_change_sequence_number(), SequenceNumber::new(4));
    assert!(buf.get_by_sn(SequenceNumber::new(3)).is_none());
    assert!(buf.get_by_sn(SequenceNumber::new(4)).is_some());
}

#[test]
fn ack_wakers_are_woken_by_the_sent_frontier_too() {
    let mut buf = reliable(10);
    buf.register_ack_waker(WakerId { id: 1 });
    buf.register_ack_waker(WakerId { id: 1 });
    buf.register_ack_waker(WakerId { id: 2 });
    assert_eq!(
        buf.set_sent_frontier(SequenceNumber::new(1)),
        Some(vec![WakerId { id: 1 }, WakerId { id: 2 }])
    );
    assert_eq!(buf.set_sent_frontier(SequenceNumber::new(1)), None);
}

#[test]
fn empty_buffer_starts_with_the_next_number() {
    let mut buf =
        WriterSendBuffer::new(GUID::unknown(), "t".to_string(), false, false, true, 1000, 1000, 1000);
    buf.remove_changes_before(SequenceNumber::new(10));
    assert_eq!(buf.first_change_sequence_number(), SequenceNumber::new(1));
    assert!(admit_now(&mut buf, default_opts()));
    assert_eq!(buf.first_change_sequence_number(), SequenceNumber::new(1));
    buf.remove_changes_before(SequenceNumber::new(10));
    assert_eq!(buf.retained_len(), 0);
    assert_eq!(buf.first_change_sequence_number(), SequenceNumber::new(2));
}

#[test]
fn largest_limits_hold_nobody_back() {
    let mut buf = WriterSendBuffer::new(
        GUID::unknown(),
        "t".to_string(),
        true,
        false,
        true,
        usize::MAX,
        usize::MAX,
        1,
    );
    buf.set_acked_frontier(Some(SequenceNumber::new(1)));
    for _ in 0..3 {
        assert!(admit_now(&mut buf, default_opts()));
    }
    assert_eq!(buf.retained_len(), 3);
}
