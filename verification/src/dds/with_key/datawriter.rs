//! Writing samples of topics with keys.

use vstd::prelude::*;

use crate::dds::ddsdata::{ChangeKind, DDSData, RepresentationIdentifier, SerializedPayload};
use crate::dds::pubsub::Publisher;
use crate::dds::qos::{Liveliness, QosPolicies, Reliability};
use crate::dds::result::WriteError;
use crate::dds::topic::Topic;
use crate::rtps::writer_send_buffer::{
    law_admitted_sample_is_retained, law_only_full_limits_hold_back, with_waker, AckWait,
    Admission, WakerId, WriterSendBuffer,
};
use crate::structure::guid::GUID;
use crate::structure::octets::bytes_of;
use crate::structure::rpc::SampleIdentity;
use crate::structure::sequence_number::SequenceNumber;
use crate::structure::time::{Duration, Timestamp};

verus! {

/// Collects the options of a write.
#[derive(Clone, Copy, Debug, PartialEq, Eq, Structural)]
pub struct WriteOptionsBuilder {
    pub related_sample_identity: Option<SampleIdentity>,
    pub source_timestamp: Option<Timestamp>,
    pub to_single_reader: Option<GUID>,
    pub best_effort_may_block: bool,
}

impl Default for WriteOptionsBuilder {
    fn default() -> (b: Self)
        ensures
            b == (WriteOptionsBuilder {
                related_sample_identity: None,
                source_timestamp: None,
                to_single_reader: None,
                best_effort_may_block: false,
            }),
    {
        WriteOptionsBuilder {
            related_sample_identity: None,
            source_timestamp: None,
            to_single_reader: None,
            best_effort_may_block: false,
        }
    }
}

impl WriteOptionsBuilder {
    pub fn new() -> (b: Self)
        ensures
            b == (WriteOptionsBuilder {
                related_sample_identity: None,
                source_timestamp: None,
                to_single_reader: None,
                best_effort_may_block: false,
            }),
    {
        Self::default()
    }

    pub fn build(self) -> (o: WriteOptions)
        ensures
            o == (WriteOptions {
                related_sample_identity: self.related_sample_identity,
                source_timestamp: self.source_timestamp,
                to_single_reader: self.to_single_reader,
                best_effort_may_block: self.best_effort_may_block,
            }),
    {
        WriteOptions {
            related_sample_identity: self.related_sample_identity,
            source_timestamp: self.source_timestamp,
            to_single_reader: self.to_single_reader,
            best_effort_may_block: self.best_effort_may_block,
        }
    }

    #[must_use]
    pub fn related_sample_identity(self, related_sample_identity: SampleIdentity) -> (b: Self)
        ensures
            b == (WriteOptionsBuilder {
                related_sample_identity: Some(related_sample_identity),
                ..self
            }),
    {
        WriteOptionsBuilder { related_sample_identity: Some(related_sample_identity), ..self }
    }

    #[must_use]
    pub fn related_sample_identity_opt(
        self,
        related_sample_identity_opt: Option<SampleIdentity>,
    ) -> (b: Self)
        ensures
            b == (WriteOptionsBuilder {
                related_sample_identity: related_sample_identity_opt,
                ..self
            }),
    {
        WriteOptionsBuilder { related_sample_identity: related_sample_identity_opt, ..self }
    }

    #[must_use]
    pub fn source_timestamp(self, source_timestamp: Timestamp) -> (b: Self)
        ensures
            b == (WriteOptionsBuilder { source_timestamp: Some(source_timestamp), ..self }),
    {
        WriteOptionsBuilder { source_timestamp: Some(source_timestamp), ..self }
    }

    #[must_use]
    pub fn to_single_reader(self, reader: GUID) -> (b: Self)
        ensures
            b == (WriteOptionsBuilder { to_single_reader: Some(reader), ..self }),
    {
        WriteOptionsBuilder { to_single_reader: Some(reader), ..self }
    }

    /// Lets a best-effort write block while the send socket is congested, instead of
    /// dropping the sample. Reliable writers block in any case.
    #[must_use]
    pub fn best_effort_may_block(self, may_block: bool) -> (b: Self)
        ensures
            b == (WriteOptionsBuilder { best_effort_may_block: may_block, ..self }),
    {
        WriteOptionsBuilder { best_effort_may_block: may_block, ..self }
    }
}

/// The options of a write. Use [`WriteOptionsBuilder`] to make them.
#[derive(Clone, Copy, Debug, PartialEq, Eq, Structural, PartialOrd, Ord)]
pub struct WriteOptions {
    pub related_sample_identity: Option<SampleIdentity>,
    pub source_timestamp: Option<Timestamp>,
    pub to_single_reader: Option<GUID>,
    pub best_effort_may_block: bool,
}

impl Default for WriteOptions {
    fn default() -> (o: Self)
        ensures
            o == (WriteOptions {
                related_sample_identity: None,
                source_timestamp: None,
                to_single_reader: None,
                best_effort_may_block: false,
            }),
    {
        WriteOptions {
            related_sample_identity: None,
            source_timestamp: None,
            to_single_reader: None,
            best_effort_may_block: false,
        }
    }
}

impl WriteOptions {
    pub fn related_sample_identity(&self) -> (r: Option<SampleIdentity>)
        ensures
            r == self.related_sample_identity,
    {
        self.related_sample_identity
    }

    pub fn source_timestamp(&self) -> (r: Option<Timestamp>)
        ensures
            r == self.source_timestamp,
    {
        self.source_timestamp
    }

    pub fn to_single_reader(&self) -> (r: Option<GUID>)
        ensures
            r == self.to_single_reader,
    {
        self.to_single_reader
    }

    pub fn best_effort_may_block(&self) -> (r: bool)
        ensures
            r == self.best_effort_may_block,
    {
        self.best_effort_may_block
    }
}

impl From<Option<Timestamp>> for WriteOptions {
    fn from(source_timestamp: Option<Timestamp>) -> (o: Self) {
        WriteOptions {
            related_sample_identity: None,
            source_timestamp,
            to_single_reader: None,
            best_effort_may_block: false,
        }
    }
}

impl vstd::std_specs::convert::FromSpecImpl<Option<Timestamp>> for WriteOptions {
    open spec fn obeys_from_spec() -> bool {
        true
    }

    open spec fn from_spec(source_timestamp: Option<Timestamp>) -> WriteOptions {
        WriteOptions {
            related_sample_identity: None,
            source_timestamp,
            to_single_reader: None,
            best_effort_may_block: false,
        }
    }
}

/// How long an asynchronous write waits for room where the policies do not tell, in
/// milliseconds.
pub const TIMEOUT_FALLBACK_MILLIS: u32 = 100;

/// Writes samples to a topic.
///
/// The samples go through the send buffer of the writer, which it shares with the sending
/// side.
pub struct DataWriter {
    pub my_publisher: Publisher,
    pub my_topic: Topic,
    pub qos_policy: QosPolicies,
    pub my_guid: GUID,
}

/// What came of an attempt to write.
pub enum WriteStep {
    /// The sample has this identity. Wake the sending side, and where `refresh` is set
    /// tell discovery that the participant is alive.
    Written { identity: SampleIdentity, refresh: bool },
    /// There was no room in time.
    WouldBlock,
    /// There is no room yet: try again with these once there was progress.
    Wait { write_options: WriteOptions, data: DDSData },
}

/// What discovery is told when the application says that a writer is alive.
#[derive(Clone, Copy, Debug, PartialEq, Eq, Structural)]
pub struct LivelinessAssertion {
    /// The participant is alive.
    pub participant: bool,
    /// This writer is alive.
    pub topic: Option<GUID>,
}

/// Is the liveliness of all writers of the participant asserted together?
pub open spec fn is_manual_by_participant(qos: QosPolicies) -> bool {
    qos.liveliness matches Some(Liveliness::ManualByParticipant { .. })
}

/// Is the liveliness of the writer asserted by the application?
pub open spec fn is_manual_by_topic(qos: QosPolicies) -> bool {
    qos.liveliness matches Some(Liveliness::ManualByTopic { .. })
}

/// The sample with these bytes.
pub open spec fn is_sample(data: DDSData, encoding: RepresentationIdentifier, bytes: Seq<u8>) -> bool {
    data matches DDSData::Data { serialized_payload: p } && is_payload(p, encoding, bytes)
}

/// The end of the instance with the key of these bytes.
pub open spec fn is_disposal(
    data: DDSData,
    encoding: RepresentationIdentifier,
    bytes: Seq<u8>,
) -> bool {
    data matches DDSData::DisposeByKey { change_kind, key } && change_kind
        == ChangeKind::NotAliveDisposed && is_payload(key, encoding, bytes)
}

/// The payload with these bytes.
pub open spec fn is_payload(
    p: SerializedPayload,
    encoding: RepresentationIdentifier,
    bytes: Seq<u8>,
) -> bool {
    p.representation_identifier == encoding && p.option_0 == 0 && p.option_1 == 0 && bytes_of(
        p.value,
    ) == bytes
}

impl DataWriter {
    /// A writer, and whether discovery is to be told at once that the participant is
    /// alive.
    pub fn new(publisher: Publisher, topic: Topic, qos: QosPolicies, guid: GUID) -> (r: (Self, bool))
        ensures
            r.0 == (DataWriter {
                my_publisher: publisher,
                my_topic: topic,
                qos_policy: qos,
                my_guid: guid,
            }),
            r.1 == is_manual_by_participant(qos),
    {
        let writer = DataWriter {
            my_publisher: publisher,
            my_topic: topic,
            qos_policy: qos,
            my_guid: guid,
        };
        let refresh: bool = writer.refresh_manual_liveliness();
        (writer, refresh)
    }

    pub fn guid(&self) -> (g: GUID)
        ensures
            g == self.my_guid,
    {
        self.my_guid
    }

    pub fn qos(&self) -> (q: QosPolicies)
        ensures
            q == self.qos_policy,
    {
        self.qos_policy
    }

    pub fn topic(&self) -> (t: &Topic)
        ensures
            *t == self.my_topic,
    {
        &self.my_topic
    }

    pub fn publisher(&self) -> (p: &Publisher)
        ensures
            *p == self.my_publisher,
    {
        &self.my_publisher
    }

    /// Is discovery to be told that the participant is alive?
    pub fn refresh_manual_liveliness(&self) -> (r: bool)
        ensures
            r == is_manual_by_participant(self.qos_policy),
    {
        match self.qos_policy.liveliness {
            Some(Liveliness::ManualByParticipant { .. }) => true,
            _ => false,
        }
    }

    /// How long a write waits for room. Without a time it waits until there is room.
    pub fn max_blocking_time(&self) -> (r: Option<Duration>)
        ensures
            r == (match self.qos_policy.reliability {
                Some(Reliability::Reliable { max_blocking_time }) => Some(max_blocking_time),
                _ => None,
            }),
    {
        match self.qos_policy.reliability {
            Some(Reliability::Reliable { max_blocking_time }) => Some(max_blocking_time),
            _ => None,
        }
    }

    /// How long an asynchronous write waits for room.
    pub fn async_blocking_time(&self) -> (d: Duration)
        ensures
            match self.qos_policy.reliability {
                Some(Reliability::Reliable { max_blocking_time }) => d == max_blocking_time,
                _ => d.ticks == (TIMEOUT_FALLBACK_MILLIS * 0x1_0000_0000) / 1000,
            },
    {
        match self.max_blocking_time() {
            Some(d) => d,
            None => Duration::from_millis(TIMEOUT_FALLBACK_MILLIS),
        }
    }

    /// What one attempt to put a sample into the buffer comes to.
    pub open spec fn is_attempt(
        self,
        before: WriterSendBuffer,
        after: WriterSendBuffer,
        write_options: WriteOptions,
        data: DDSData,
        expired: bool,
        step: WriteStep,
    ) -> bool {
        if before.room(before.may_block(write_options)) {
            &&& step == WriteStep::Written {
                identity: SampleIdentity {
                    writer_guid: self.my_guid,
                    sequence_number: after.last_seq,
                },
                refresh: is_manual_by_participant(self.qos_policy),
            }
            &&& after.has_inserted(before, write_options, data)
        } else {
            &&& after == before
            &&& if expired {
                step is WouldBlock
            } else {
                step == WriteStep::Wait { write_options, data }
            }
        }
    }

    /// One attempt to put a sample into the buffer. `expired` tells whether the time to
    /// wait for room is over.
    pub fn attempt(
        &self,
        send_buffer: &mut WriterSendBuffer,
        write_options: WriteOptions,
        data: DDSData,
        expired: bool,
    ) -> (step: WriteStep)
        requires
            old(send_buffer).wf(),
            old(send_buffer).last_seq@ < i64::MAX,
            data.spec_payload_size() <= usize::MAX,
        ensures
            final(send_buffer).wf(),
            self.is_attempt(
                *old(send_buffer),
                *final(send_buffer),
                write_options,
                data,
                expired,
                step,
            ),
            step matches WriteStep::Written { identity, .. } ==> {
                let cc = final(send_buffer).changes@[identity.sequence_number@];
                &&& identity.writer_guid == self.my_guid
                &&& identity.sequence_number@ == old(send_buffer).last_seq@ + 1
                &&& final(send_buffer).changes@.contains_key(identity.sequence_number@)
                &&& cc.write_options == write_options
                &&& cc.data_value == data
            },
    {
        let ghost before = *send_buffer;
        match send_buffer.admit_blocking(write_options, data, expired) {
            Admission::Admitted(sequence_number) => {
                proof {
                    law_admitted_sample_is_retained(before, *send_buffer, write_options, data);
                }
                WriteStep::Written {
                    identity: SampleIdentity { writer_guid: self.my_guid, sequence_number },
                    refresh: self.refresh_manual_liveliness(),
                }
            },
            Admission::WouldBlock => WriteStep::WouldBlock,
            Admission::Wait { write_options: o, data: d } => WriteStep::Wait {
                write_options: o,
                data: d,
            },
        }
    }

    /// Writes a sample, given what came of its serialization.
    pub fn write_with_options(
        &self,
        send_buffer: &mut WriterSendBuffer,
        encoding: RepresentationIdentifier,
        serialized: Result<Vec<u8>, String>,
        write_options: WriteOptions,
        expired: bool,
    ) -> (r: Result<WriteStep, WriteError>)
        requires
            old(send_buffer).wf(),
            old(send_buffer).last_seq@ < i64::MAX,
            serialized matches Ok(bytes) ==> bytes@.len() + 4 <= usize::MAX,
        ensures
            final(send_buffer).wf(),
            match serialized {
                Err(msg) => *final(send_buffer) == *old(send_buffer) && r == Err::<
                    WriteStep,
                    WriteError,
                >(WriteError::Serialization { reason: msg }),
                Ok(bytes) => r matches Ok(step) && exists|data: DDSData|
                    {
                        &&& #[trigger] is_sample(data, encoding, bytes@)
                        &&& self.is_attempt(
                            *old(send_buffer),
                            *final(send_buffer),
                            write_options,
                            data,
                            expired,
                            step,
                        )
                    },
            },
            serialized matches Ok(bytes) ==> (r matches Ok(WriteStep::Written { identity, .. }) ==> {
                let cc = final(send_buffer).changes@[identity.sequence_number@];
                &&& identity.writer_guid == self.my_guid
                &&& identity.sequence_number@ == old(send_buffer).last_seq@ + 1
                &&& final(send_buffer).changes@.contains_key(identity.sequence_number@)
                &&& cc.write_options == write_options
                &&& is_sample(cc.data_value, encoding, bytes@)
            }),
    {
        match serialized {
            Err(reason) => Err(WriteError::Serialization { reason }),
            Ok(bytes) => {
                let data: DDSData = DDSData::new(SerializedPayload::new(encoding, bytes));
                assert(is_sample(data, encoding, bytes@));
                Ok(self.attempt(send_buffer, write_options, data, expired))
            },
        }
    }

    /// Writes a sample without options but a time stamp.
    pub fn write(
        &self,
        send_buffer: &mut WriterSendBuffer,
        encoding: RepresentationIdentifier,
        serialized: Result<Vec<u8>, String>,
        source_timestamp: Option<Timestamp>,
        expired: bool,
    ) -> (r: Result<WriteStep, WriteError>)
        requires
            old(send_buffer).wf(),
            old(send_buffer).last_seq@ < i64::MAX,
            serialized matches Ok(bytes) ==> bytes@.len() + 4 <= usize::MAX,
        ensures
            final(send_buffer).wf(),
            match serialized {
                Err(msg) => *final(send_buffer) == *old(send_buffer) && r == Err::<
                    WriteStep,
                    WriteError,
                >(WriteError::Serialization { reason: msg }),
                Ok(bytes) => r matches Ok(step) && exists|data: DDSData|
                    {
                        &&& #[trigger] is_sample(data, encoding, bytes@)
                        &&& self.is_attempt(
                            *old(send_buffer),
                            *final(send_buffer),
                            stamped(source_timestamp),
                            data,
                            expired,
                            step,
                        )
                    },
            },
            serialized matches Ok(bytes) ==> (r matches Ok(WriteStep::Written { identity, .. }) ==> {
                let cc = final(send_buffer).changes@[identity.sequence_number@];
                &&& identity.writer_guid == self.my_guid
                &&& identity.sequence_number@ == old(send_buffer).last_seq@ + 1
                &&& final(send_buffer).changes@.contains_key(identity.sequence_number@)
                &&& cc.write_options.source_timestamp == source_timestamp
                &&& cc.write_options.to_single_reader is None
                &&& cc.write_options.related_sample_identity is None
                &&& is_sample(cc.data_value, encoding, bytes@)
            }),
    {
        self.write_with_options(
            send_buffer,
            encoding,
            serialized,
            WriteOptions::from(source_timestamp),
            expired,
        )
    }

    /// Ends the instance with a key, given what came of the serialization of the key. Where
    /// no time stamp is given, the time is now.
    pub fn dispose(
        &self,
        send_buffer: &mut WriterSendBuffer,
        encoding: RepresentationIdentifier,
        serialized_key: Result<Vec<u8>, String>,
        source_timestamp: Option<Timestamp>,
        now: Timestamp,
        expired: bool,
    ) -> (r: Result<WriteStep, WriteError>)
        requires
            old(send_buffer).wf(),
            old(send_buffer).last_seq@ < i64::MAX,
            serialized_key matches Ok(bytes) ==> bytes@.len() + 4 <= usize::MAX,
        ensures
            final(send_buffer).wf(),
            match serialized_key {
                Err(msg) => *final(send_buffer) == *old(send_buffer) && r == Err::<
                    WriteStep,
                    WriteError,
                >(WriteError::Serialization { reason: msg }),
                Ok(bytes) => r matches Ok(step) && exists|data: DDSData|
                    {
                        &&& #[trigger] is_disposal(data, encoding, bytes@)
                        &&& self.is_attempt(
                            *old(send_buffer),
                            *final(send_buffer),
                            stamped(
                                Some(
                                    match source_timestamp {
                                        Some(t) => t,
                                        None => now,
                                    },
                                ),
                            ),
                            data,
                            expired,
                            step,
                        )
                    },
            },
            serialized_key matches Ok(bytes) ==> (r matches Ok(
                WriteStep::Written { identity, .. },
            ) ==> {
                let cc = final(send_buffer).changes@[identity.sequence_number@];
                &&& identity.writer_guid == self.my_guid
                &&& identity.sequence_number@ == old(send_buffer).last_seq@ + 1
                &&& final(send_buffer).changes@.contains_key(identity.sequence_number@)
                &&& source_timestamp is Some ==> cc.write_options.source_timestamp
                    == source_timestamp
                &&& source_timestamp is None ==> cc.write_options.source_timestamp == Some(now)
                &&& cc.write_options.to_single_reader is None
                &&& is_disposal(cc.data_value, encoding, bytes@)
            }),
    {
        match serialized_key {
            Err(reason) => Err(WriteError::Serialization { reason }),
            Ok(bytes) => {
                let data: DDSData = DDSData::new_disposed_by_key(
                    ChangeKind::NotAliveDisposed,
                    SerializedPayload::new(encoding, bytes),
                );
                assert(is_disposal(data, encoding, bytes@));
                let time: Timestamp = match source_timestamp {
                    Some(t) => t,
                    None => now,
                };
                Ok(self.attempt(send_buffer, WriteOptions::from(Some(time)), data, expired))
            },
        }
    }

    /// Up to where the readers have to acknowledge before a wait for acknowledgements is
    /// over: everything that was written so far. Nobody acknowledges what a best-effort
    /// writer writes.
    pub fn acknowledgment_target(&self, send_buffer: &WriterSendBuffer) -> (r: Option<
        SequenceNumber,
    >)
        ensures
            r == (if self.qos_policy.spec_is_reliable() {
                Some(send_buffer.last_seq)
            } else {
                None
            }),
    {
        match self.qos_policy.reliability {
            Some(Reliability::Reliable { .. }) => Some(send_buffer.last_change_sequence_number()),
            _ => None,
        }
    }

    /// One look at whether the readers have acknowledged what they have to. `expired`
    /// tells whether the time to wait is over.
    pub fn wait_for_acknowledgments(
        &self,
        send_buffer: &WriterSendBuffer,
        target: Option<SequenceNumber>,
        expired: bool,
    ) -> (r: AckWait)
        ensures
            r == (match target {
                Some(sn) => if send_buffer.acked_through(sn@) {
                    AckWait::Acked
                } else if expired {
                    AckWait::TimedOut
                } else {
                    AckWait::Wait
                },
                None => AckWait::Acked,
            }),
    {
        match target {
            Some(sn) => send_buffer.wait_for_acked_through(sn, expired),
            None => AckWait::Acked,
        }
    }

    /// The application says that the writer is alive.
    pub fn assert_liveliness(&self) -> (a: LivelinessAssertion)
        ensures
            a.participant == is_manual_by_participant(self.qos_policy),
            a.topic == (if is_manual_by_topic(self.qos_policy) {
                Some(self.my_guid)
            } else {
                None
            }),
    {
        let participant: bool = self.refresh_manual_liveliness();
        let topic: Option<GUID> = match self.qos_policy.liveliness {
            Some(Liveliness::ManualByTopic { .. }) => Some(self.my_guid),
            _ => None,
        };
        LivelinessAssertion { participant, topic }
    }
}

/// The options of a write with nothing but a time stamp.
pub open spec fn stamped(source_timestamp: Option<Timestamp>) -> WriteOptions {
    WriteOptions {
        related_sample_identity: None,
        source_timestamp,
        to_single_reader: None,
        best_effort_may_block: false,
    }
}

/// An asynchronous write.
pub struct AsyncWrite {
    /// What is to be written, until it is or time is up.
    pub pending: Option<(WriteOptions, DDSData)>,
}

/// What came of a look at an asynchronous write.
pub enum AsyncWriteStep {
    Written { identity: SampleIdentity, refresh: bool },
    Failed(WriteError),
    /// The waker is kept and will be woken.
    Pending,
}

/// `after`, `buffer_after` and `step` are what comes of a look at the asynchronous write of
/// what is in `before`.
pub open spec fn is_polled(
    before: Option<(WriteOptions, DDSData)>,
    writer: DataWriter,
    buffer: WriterSendBuffer,
    waker: WakerId,
    expired: bool,
    after: Option<(WriteOptions, DDSData)>,
    buffer_after: WriterSendBuffer,
    step: AsyncWriteStep,
) -> bool {
    match before {
        None => {
            &&& step matches AsyncWriteStep::Failed(WriteError::Internal { reason })
                && reason@ == "AsyncWrite polled after completion"@
            &&& after is None
            &&& buffer_after == buffer
        },
        Some((o, d)) => if buffer.room(buffer.may_block(o)) {
            &&& step == (AsyncWriteStep::Written {
                identity: SampleIdentity {
                    writer_guid: writer.my_guid,
                    sequence_number: buffer_after.last_seq,
                },
                refresh: is_manual_by_participant(writer.qos_policy),
            })
            &&& after is None
            &&& buffer_after.has_inserted(buffer, o, d)
        } else {
            &&& buffer_after.same_samples(buffer)
            &&& buffer_after.same_frontiers(buffer)
            &&& buffer_after.same_config(buffer)
            &&& buffer_after.wakers@ == with_waker(buffer.wakers@, waker)
            &&& if expired {
                &&& step == AsyncWriteStep::Failed(WriteError::WouldBlock)
                &&& after is None
            } else {
                &&& step is Pending
                &&& after == before
            }
        },
    }
}

impl AsyncWrite {
    /// Takes a look at the write. `expired` tells whether the time to wait for room is
    /// over. After the write is done there is nothing to look at.
    pub fn poll(
        &mut self,
        writer: &DataWriter,
        send_buffer: &mut WriterSendBuffer,
        waker: WakerId,
        expired: bool,
    ) -> (step: AsyncWriteStep)
        requires
            old(send_buffer).wf(),
            old(send_buffer).last_seq@ < i64::MAX,
            old(self).pending matches Some(p) ==> p.1.spec_payload_size() <= usize::MAX,
        ensures
            final(send_buffer).wf(),
            is_polled(
                old(self).pending,
                *writer,
                *old(send_buffer),
                waker,
                expired,
                final(self).pending,
                *final(send_buffer),
                step,
            ),
    {
        let mut pending: Option<(WriteOptions, DDSData)> = None;
        std::mem::swap(&mut pending, &mut self.pending);
        match pending {
            None => AsyncWriteStep::Failed(
                WriteError::Internal { reason: "AsyncWrite polled after completion".to_owned() },
            ),
            Some((write_options, data)) => match send_buffer.try_admit(write_options, data, waker) {
                Ok(sequence_number) => AsyncWriteStep::Written {
                    identity: SampleIdentity { writer_guid: writer.my_guid, sequence_number },
                    refresh: writer.refresh_manual_liveliness(),
                },
                Err((o, d)) => {
                    if expired {
                        AsyncWriteStep::Failed(WriteError::WouldBlock)
                    } else {
                        self.pending = Some((o, d));
                        AsyncWriteStep::Pending
                    }
                },
            },
        }
    }
}

/// An asynchronous wait for acknowledgements. There is no end to it but that they come.
#[derive(Clone, Copy, Debug, PartialEq, Eq, Structural)]
pub struct AsyncWaitForAcknowledgments {
    pub target: SequenceNumber,
}

impl AsyncWaitForAcknowledgments {
    /// Takes a look at whether the wait is over. Where it is not the waker is kept and
    /// will be woken.
    pub fn poll(&self, send_buffer: &mut WriterSendBuffer, waker: WakerId) -> (over: bool)
        requires
            old(send_buffer).wf(),
        ensures
            final(send_buffer).wf(),
            over == old(send_buffer).acked_through(self.target@),
            over ==> *final(send_buffer) == *old(send_buffer),
            !over ==> {
                &&& final(send_buffer).same_samples(*old(send_buffer))
                &&& final(send_buffer).same_frontiers(*old(send_buffer))
                &&& final(send_buffer).same_config(*old(send_buffer))
                &&& final(send_buffer).wakers@ == with_waker(old(send_buffer).wakers@, waker)
            },
    {
        if send_buffer.is_acked_through(self.target) {
            true
        } else {
            send_buffer.register_ack_waker(waker);
            send_buffer.is_acked_through(self.target)
        }
    }
}

/// A writer that nobody has to acknowledge never waits for acknowledgements, and neither
/// does one without reliable readers.
pub proof fn law_wait_succeeds_at_once(
    writer: DataWriter,
    send_buffer: WriterSendBuffer,
    target: Option<SequenceNumber>,
    expired: bool,
    r: AckWait,
)
    requires
        call_ensures(DataWriter::acknowledgment_target, (&writer, &send_buffer), target),
        call_ensures(
            DataWriter::wait_for_acknowledgments,
            (&writer, &send_buffer, target, expired),
            r,
        ),
        !writer.qos_policy.spec_is_reliable() || !send_buffer.reliable_readers_present,
    ensures
        r is Acked,
{
}

/// The buffer holds the sample with this identity: the latest one, with the given content
/// and time stamp, for all readers.
pub open spec fn is_written(
    before: WriterSendBuffer,
    after: WriterSendBuffer,
    writer: GUID,
    identity: SampleIdentity,
    source_timestamp: Option<Timestamp>,
) -> bool {
    let sn = identity.sequence_number@;
    let cc = after.changes@[sn];
    &&& identity.writer_guid == writer
    &&& sn == before.last_seq@ + 1
    &&& after.last_seq@ == sn
    &&& after.changes@.contains_key(sn)
    &&& cc.sequence_number@ == sn
    &&& cc.write_options.source_timestamp == source_timestamp
    &&& cc.write_options.to_single_reader is None
    &&& cc.write_options.related_sample_identity is None
    &&& !cc.write_options.best_effort_may_block
}

/// A write that came through is in the buffer, with the next number, the content and the
/// time stamp that it was given. One that did not changes nothing, and where there is still
/// time it can be tried again with all that it was given.
pub proof fn law_write_is_kept_as_given(
    writer: DataWriter,
    before: WriterSendBuffer,
    after: WriterSendBuffer,
    source_timestamp: Option<Timestamp>,
    data: DDSData,
    expired: bool,
    step: WriteStep,
)
    requires
        before.wf(),
        before.last_seq@ < i64::MAX,
        writer.is_attempt(before, after, stamped(source_timestamp), data, expired, step),
    ensures
        match step {
            WriteStep::Written { identity, refresh } => {
                &&& is_written(before, after, writer.my_guid, identity, source_timestamp)
                &&& after.changes@[identity.sequence_number@].data_value == data
                &&& refresh <==> writer.qos_policy.liveliness matches Some(
                    Liveliness::ManualByParticipant { .. },
                )
            },
            WriteStep::WouldBlock => after == before && expired,
            WriteStep::Wait { write_options, data: kept } => {
                &&& after == before
                &&& !expired
                &&& kept == data
                &&& write_options.source_timestamp == source_timestamp
                &&& write_options.to_single_reader is None
                &&& write_options.related_sample_identity is None
                &&& !write_options.best_effort_may_block
            },
        },
        step is Written <==> !(!before.is_builtin && before.reliable_writer && (
        before.sent_frontier@ + before.backlog_limit <= before.last_seq@ || (
        before.reliable_readers_present && before.acked_before@ + before.window_limit
            <= before.last_seq@ + 1))),
{
    let options = stamped(source_timestamp);
    law_only_full_limits_hold_back(before, options);
    if step is Written {
        law_admitted_sample_is_retained(before, after, options, data);
    }
}

/// Whatever is set on a builder is in the options that it builds, and nothing else is.
pub proof fn law_built_options_are_as_set(
    builder: WriteOptionsBuilder,
    related: SampleIdentity,
    related_opt: Option<SampleIdentity>,
    stamp: Timestamp,
    reader: GUID,
    may_block: bool,
    with_related: WriteOptionsBuilder,
    with_related_opt: WriteOptionsBuilder,
    with_stamp: WriteOptionsBuilder,
    with_reader: WriteOptionsBuilder,
    with_block: WriteOptionsBuilder,
    built: WriteOptions,
)
    requires
        call_ensures(
            WriteOptionsBuilder::related_sample_identity,
            (builder, related),
            with_related,
        ),
        call_ensures(
            WriteOptionsBuilder::related_sample_identity_opt,
            (builder, related_opt),
            with_related_opt,
        ),
        call_ensures(WriteOptionsBuilder::source_timestamp, (builder, stamp), with_stamp),
        call_ensures(WriteOptionsBuilder::to_single_reader, (builder, reader), with_reader),
        call_ensures(
            WriteOptionsBuilder::best_effort_may_block,
            (builder, may_block),
            with_block,
        ),
        call_ensures(WriteOptionsBuilder::build, (builder,), built),
    ensures
        with_related == (WriteOptionsBuilder { related_sample_identity: Some(related), ..builder }),
        with_related_opt == (WriteOptionsBuilder {
            related_sample_identity: related_opt,
            ..builder
        }),
        with_stamp == (WriteOptionsBuilder { source_timestamp: Some(stamp), ..builder }),
        with_reader == (WriteOptionsBuilder { to_single_reader: Some(reader), ..builder }),
        with_block == (WriteOptionsBuilder { best_effort_may_block: may_block, ..builder }),
        built.related_sample_identity == builder.related_sample_identity,
        built.source_timestamp == builder.source_timestamp,
        built.to_single_reader == builder.to_single_reader,
        built.best_effort_may_block == builder.best_effort_may_block,
{
}

/// A wait for acknowledgements ends exactly when every sample written before it is
/// acknowledged, when nobody has to acknowledge, or when time is up.
pub proof fn law_wait_ends_with_the_last_acknowledgement(
    writer: DataWriter,
    at_start: WriterSendBuffer,
    now: WriterSendBuffer,
    target: Option<SequenceNumber>,
    expired: bool,
    r: AckWait,
)
    requires
        call_ensures(DataWriter::acknowledgment_target, (&writer, &at_start), target),
        call_ensures(
            DataWriter::wait_for_acknowledgments,
            (&writer, &now, target, expired),
            r,
        ),
    ensures
        ({
            let open = (writer.qos_policy.reliability matches Some(Reliability::Reliable { .. }))
                && now.reliable_readers_present && now.acked_before@ <= at_start.last_seq@;
            &&& r is Acked <==> !open
            &&& r is TimedOut <==> open && expired
            &&& r is Wait <==> open && !expired
        }),
{
}

/// A blocking write of a reliable writer waits as long as its reliability says, and an
/// asynchronous one of any other the fixed time; liveliness is asserted as it is offered.
pub proof fn law_writer_goes_by_its_policies(
    writer: DataWriter,
    blocking: Option<Duration>,
    async_blocking: Duration,
    assertion: LivelinessAssertion,
)
    requires
        call_ensures(DataWriter::max_blocking_time, (&writer,), blocking),
        call_ensures(DataWriter::async_blocking_time, (&writer,), async_blocking),
        call_ensures(DataWriter::assert_liveliness, (&writer,), assertion),
    ensures
        match writer.qos_policy.reliability {
            Some(Reliability::Reliable { max_blocking_time }) => blocking == Some(
                max_blocking_time,
            ) && async_blocking == max_blocking_time,
            _ => blocking is None && async_blocking.ticks * 1000
                <= TIMEOUT_FALLBACK_MILLIS * 0x1_0000_0000 < (async_blocking.ticks + 1) * 1000,
        },
        match writer.qos_policy.liveliness {
            Some(Liveliness::ManualByParticipant { .. }) => assertion.participant
                && assertion.topic is None,
            Some(Liveliness::ManualByTopic { .. }) => !assertion.participant && assertion.topic
                == Some(writer.my_guid),
            _ => !assertion.participant && assertion.topic is None,
        },
{
}

/// An asynchronous write ends once: with the sample in the buffer as it was given, or, when
/// time is up and there is no room, with nothing written. Until then it keeps what it was
/// given, and is woken when there may be room.
pub proof fn law_asynchronous_write_ends_once(
    options: WriteOptions,
    data: DDSData,
    writer: DataWriter,
    buffer: WriterSendBuffer,
    waker: WakerId,
    expired: bool,
    after: Option<(WriteOptions, DDSData)>,
    buffer_after: WriterSendBuffer,
    step: AsyncWriteStep,
)
    requires
        buffer.wf(),
        buffer.last_seq@ < i64::MAX,
        is_polled(
            Some((options, data)),
            writer,
            buffer,
            waker,
            expired,
            after,
            buffer_after,
            step,
        ),
    ensures
        match step {
            AsyncWriteStep::Written { identity, .. } => {
                let cc = buffer_after.changes@[identity.sequence_number@];
                &&& after is None
                &&& identity.writer_guid == writer.my_guid
                &&& identity.sequence_number@ == buffer.last_seq@ + 1
                &&& buffer_after.changes@.contains_key(identity.sequence_number@)
                &&& cc.write_options == options
                &&& cc.data_value == data
            },
            AsyncWriteStep::Failed(e) => {
                &&& e is WouldBlock
                &&& expired
                &&& after is None
                &&& buffer_after.changes@ == buffer.changes@
            },
            AsyncWriteStep::Pending => {
                &&& !expired
                &&& after == Some((options, data))
                &&& buffer_after.changes@ == buffer.changes@
                &&& buffer_after.wakers@.contains(waker)
            },
        },
        step is Written <==> !(!buffer.is_builtin && (buffer.reliable_writer
            || options.best_effort_may_block) && (buffer.sent_frontier@ + buffer.backlog_limit
            <= buffer.last_seq@ || (buffer.reliable_writer && buffer.reliable_readers_present
            && buffer.acked_before@ + buffer.window_limit <= buffer.last_seq@ + 1))),
{
    law_only_full_limits_hold_back(buffer, options);
    if step is Written {
        law_admitted_sample_is_retained(buffer, buffer_after, options, data);
    }
    if !buffer.wakers@.contains(waker) {
        assert(buffer.wakers@.push(waker)[buffer.wakers@.len() as int] == waker);
    }
}

} // verus!
