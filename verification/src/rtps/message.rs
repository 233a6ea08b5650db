//! Messages of a writer, as lists of what goes into them.

use vstd::prelude::*;

use crate::structure::guid::{EntityId, GuidPrefix, GUID};
use crate::structure::sequence_number::{FragmentNumber, SequenceNumber};
use crate::structure::time::Timestamp;

verus! {

/// Length of the header of every message.
pub const RTPS_HEADER_SIZE: usize = 20;

/// Length of a submessage that sets the source timestamp.
pub const INFO_TS_SIZE: usize = 12;

/// Length of a submessage that withdraws the source timestamp.
pub const INFO_TS_INVALIDATE_SIZE: usize = 4;

/// Length of a submessage that names the destination participant.
pub const INFO_DST_SIZE: usize = 16;

/// Length of a HEARTBEAT submessage.
pub const HEARTBEAT_SUBMESSAGE_SERIALIZED_SIZE: usize = 32;

/// One part of a message. The bytes of samples are not in it; they are taken from the
/// send buffer, under the sequence number.
#[derive(Debug)]
pub enum Submessage {
    /// Source timestamp of what follows; `None` withdraws an earlier one.
    InfoTimestamp(Option<Timestamp>),
    /// The participant that what follows is meant for.
    InfoDestination(GuidPrefix),
    /// A whole sample.
    Data { reader: EntityId, writer_sn: SequenceNumber },
    /// A run of fragments of a sample.
    DataFrag {
        reader: EntityId,
        writer_sn: SequenceNumber,
        fragment_starting_num: FragmentNumber,
        fragments_in_submessage: u16,
        fragment_size: u16,
        sample_size: u32,
    },
    /// Samples that the reader will not get; their order says nothing.
    Gap { reader_guid: GUID, numbers: Vec<SequenceNumber> },
    /// Nothing before this number will be sent any more.
    GapBefore { reader_guid: GUID, before: SequenceNumber },
    /// What the writer has to offer.
    Heartbeat {
        reader: EntityId,
        first: SequenceNumber,
        last: SequenceNumber,
        count: i32,
        final_flag: bool,
        liveliness_flag: bool,
    },
}

/// One part of a message in terms of what it says.
pub enum SubmessageView {
    InfoTimestamp(Option<Timestamp>),
    InfoDestination(GuidPrefix),
    Data { reader: EntityId, writer_sn: int },
    DataFrag {
        reader: EntityId,
        writer_sn: int,
        start: int,
        fragments: int,
        fragment_size: int,
        sample_size: int,
    },
    Gap { reader_guid: GUID, numbers: Set<int> },
    GapBefore { reader_guid: GUID, before: int },
    Heartbeat {
        reader: EntityId,
        first: int,
        last: int,
        count: i32,
        final_flag: bool,
        liveliness_flag: bool,
    },
}

/// The numbers in a list.
pub open spec fn numbers_of(list: Seq<SequenceNumber>) -> Set<int> {
    Set::new(|s: int| exists|i: int| 0 <= i < list.len() && (#[trigger] list[i])@ == s)
}

impl View for Submessage {
    type V = SubmessageView;

    open spec fn view(&self) -> SubmessageView {
        match self {
            Submessage::InfoTimestamp(t) => SubmessageView::InfoTimestamp(*t),
            Submessage::InfoDestination(p) => SubmessageView::InfoDestination(*p),
            Submessage::Data { reader, writer_sn } => SubmessageView::Data {
                reader: *reader,
                writer_sn: writer_sn@,
            },
            Submessage::DataFrag {
                reader,
                writer_sn,
                fragment_starting_num,
                fragments_in_submessage,
                fragment_size,
                sample_size,
            } => SubmessageView::DataFrag {
                reader: *reader,
                writer_sn: writer_sn@,
                start: fragment_starting_num@,
                fragments: *fragments_in_submessage as int,
                fragment_size: *fragment_size as int,
                sample_size: *sample_size as int,
            },
            Submessage::Gap { reader_guid, numbers } => SubmessageView::Gap {
                reader_guid: *reader_guid,
                numbers: numbers_of(numbers@),
            },
            Submessage::GapBefore { reader_guid, before } => SubmessageView::GapBefore {
                reader_guid: *reader_guid,
                before: before@,
            },
            Submessage::Heartbeat { reader, first, last, count, final_flag, liveliness_flag } =>
                SubmessageView::Heartbeat {
                    reader: *reader,
                    first: first@,
                    last: last@,
                    count: *count,
                    final_flag: *final_flag,
                    liveliness_flag: *liveliness_flag,
                },
        }
    }
}

/// A message from a writer.
#[derive(Debug)]
pub struct Message {
    pub submessages: Vec<Submessage>,
}

impl View for Message {
    type V = Seq<SubmessageView>;

    open spec fn view(&self) -> Seq<SubmessageView> {
        self.submessages@.map_values(|s: Submessage| s@)
    }
}

impl Message {
    pub fn new() -> (m: Message)
        ensures
            m@ == Seq::<SubmessageView>::empty(),
    {
        let m = Message { submessages: Vec::new() };
        assert(m@ =~= Seq::empty());
        m
    }

    /// This message with one more part at its end.
    pub fn with(self, part: Submessage) -> (m: Message)
        ensures
            m@ == self@.push(part@),
    {
        let ghost before = self@;
        let mut submessages: Vec<Submessage> = self.submessages;
        submessages.push(part);
        let m = Message { submessages };
        assert(m@ =~= before.push(part@));
        m
    }

    pub fn ts_msg(self, timestamp: Option<Timestamp>) -> (m: Message)
        ensures
            m@ == self@.push(SubmessageView::InfoTimestamp(timestamp)),
    {
        self.with(Submessage::InfoTimestamp(timestamp))
    }

    pub fn dst_submessage(self, prefix: GuidPrefix) -> (m: Message)
        ensures
            m@ == self@.push(SubmessageView::InfoDestination(prefix)),
    {
        self.with(Submessage::InfoDestination(prefix))
    }

    pub fn data_msg(self, reader: EntityId, writer_sn: SequenceNumber) -> (m: Message)
        ensures
            m@ == self@.push(SubmessageView::Data { reader, writer_sn: writer_sn@ }),
    {
        self.with(Submessage::Data { reader, writer_sn })
    }

    pub fn gap_msg(self, numbers: Vec<SequenceNumber>, reader_guid: GUID) -> (m: Message)
        ensures
            m@ == self@.push(SubmessageView::Gap { reader_guid, numbers: numbers_of(numbers@) }),
    {
        self.with(Submessage::Gap { reader_guid, numbers })
    }

    pub fn gap_msg_before(self, before: SequenceNumber, reader_guid: GUID) -> (m: Message)
        ensures
            m@ == self@.push(SubmessageView::GapBefore { reader_guid, before: before@ }),
    {
        self.with(Submessage::GapBefore { reader_guid, before })
    }

    pub fn data_frag_msg(
        self,
        reader: EntityId,
        writer_sn: SequenceNumber,
        fragment_starting_num: FragmentNumber,
        fragments_in_submessage: u16,
        fragment_size: u16,
        sample_size: u32,
    ) -> (m: Message)
        ensures
            m@ == self@.push(
                SubmessageView::DataFrag {
                    reader,
                    writer_sn: writer_sn@,
                    start: fragment_starting_num@,
                    fragments: fragments_in_submessage as int,
                    fragment_size: fragment_size as int,
                    sample_size: sample_size as int,
                },
            ),
    {
        self.with(
            Submessage::DataFrag {
                reader,
                writer_sn,
                fragment_starting_num,
                fragments_in_submessage,
                fragment_size,
                sample_size,
            },
        )
    }

    pub fn heartbeat_msg(
        self,
        reader: EntityId,
        first: SequenceNumber,
        last: SequenceNumber,
        count: i32,
        final_flag: bool,
        liveliness_flag: bool,
    ) -> (m: Message)
        ensures
            m@ == self@.push(
                SubmessageView::Heartbeat {
                    reader,
                    first: first@,
                    last: last@,
                    count,
                    final_flag,
                    liveliness_flag,
                },
            ),
    {
        self.with(
            Submessage::Heartbeat { reader, first, last, count, final_flag, liveliness_flag },
        )
    }
}

} // verus!
