//! Cutting a sample into the messages that carry it.

use vstd::prelude::*;

use crate::dds::qos::Reliability;
use crate::rtps::constant::FRAGMENT_SIZE;
use crate::rtps::fragment_assembler::lesser;
use crate::rtps::message::{
    numbers_of, Message, SubmessageView, HEARTBEAT_SUBMESSAGE_SERIALIZED_SIZE, INFO_DST_SIZE,
    INFO_TS_SIZE, RTPS_HEADER_SIZE,
};
use crate::rtps::message_walk::{
    advertises, destination_at, entity_of, gaps_are, heartbeat_count, heartbeats_are_true,
    heartbeats_in, heartbeats_prompt, lemma_counts_of_two, lemma_messages_in_two,
    lemma_one_message, lemma_one_part, lemma_samples_in_two, sample_of, samples_in, speaks_of,
    stamp_at, tells_gaps, times_carried, times_in_message, whole_samples,
};
use crate::rtps::rtps_reader_proxy::RtpsReaderProxy;
use crate::rtps::writer::{
    count_after, less, next_count, num_frags_of, opt_deref, SampleCursor, Writer,
    DATA_SUBMESSAGE_OVERHEAD,
};
use crate::rtps::writer_send_buffer::WriterSendBuffer;
use crate::structure::cache_change::CacheChange;
use crate::structure::guid::{EntityId, GUID};
use crate::structure::sequence_number::{FragmentNumber, SequenceNumber};
use crate::structure::time::Timestamp;

verus! {

/// Bytes of a DATAFRAG submessage besides the fragments.
pub const DATAFRAG_SUBMESSAGE_OVERHEAD: usize = 36;

/// Bytes for fragments in a datagram of which `header_len` bytes are taken.
pub open spec fn fragment_room(header_len: int, budget: int) -> int {
    less(less(budget, header_len), DATAFRAG_SUBMESSAGE_OVERHEAD as int)
}

/// Bytes from the start of a fragment to the end of the sample.
pub open spec fn bytes_from(start: int, fragment_size: int, data_size: int) -> int {
    less(data_size, (start - 1) * fragment_size)
}

/// How many fragments from number `start` on go into one datagram: all that are left if
/// they fit, else as many whole ones as fit, but at least one.
pub open spec fn run_length(
    header_len: int,
    budget: int,
    start: int,
    num_frags: int,
    fragment_size: int,
    data_size: int,
) -> int {
    let left = num_frags - (start - 1);
    let room = fragment_room(header_len, budget);
    if room >= bytes_from(start, fragment_size, data_size) {
        left
    } else {
        let whole = room / fragment_size;
        let k = if whole < 1 {
            1
        } else {
            whole
        };
        if k <= left {
            k
        } else {
            left
        }
    }
}

pub fn frags_per_datafrag(
    header_len: usize,
    budget: usize,
    start: u32,
    num_frags: u32,
    fragment_size: u16,
    data_size: usize,
) -> (k: u32)
    requires
        1 <= start,
        start - 1 <= num_frags,
        fragment_size >= 1 || fragment_room(header_len as int, budget as int) >= data_size,
    ensures
        k == run_length(
            header_len as int,
            budget as int,
            start as int,
            num_frags as int,
            fragment_size as int,
            data_size as int,
        ),
{
    let remaining_frags: u32 = num_frags - (start - 1);
    let after_header: usize = if budget >= header_len {
        budget - header_len
    } else {
        0
    };
    let payload_cap: usize = if after_header >= DATAFRAG_SUBMESSAGE_OVERHEAD {
        after_header - DATAFRAG_SUBMESSAGE_OVERHEAD
    } else {
        0
    };
    assert(0 <= (start - 1) * fragment_size <= 0xFFFF_FFFF * 0xFFFF) by (nonlinear_arith)
        requires
            0 <= start - 1 <= 0xFFFF_FFFF,
            0 <= fragment_size <= 0xFFFF,
    ;
    let start_byte: u64 = (start as u64 - 1) * fragment_size as u64;
    let size: u64 = data_size as u64;
    let bytes_to_end: u64 = if size >= start_byte {
        size - start_byte
    } else {
        0
    };
    if payload_cap as u64 >= bytes_to_end {
        remaining_frags
    } else {
        let whole: usize = payload_cap / fragment_size as usize;
        let k: usize = if whole < 1 {
            1
        } else {
            whole
        };
        if k <= remaining_frags as usize {
            k as u32
        } else {
            remaining_frags
        }
    }
}

/// A run of fragments makes progress and stays within the sample.
pub proof fn law_run_makes_progress(
    header_len: int,
    budget: int,
    start: int,
    num_frags: int,
    fragment_size: int,
    data_size: int,
)
    requires
        1 <= start <= num_frags,
    ensures
        1 <= run_length(header_len, budget, start, num_frags, fragment_size, data_size)
            <= num_frags - (start - 1),
{
}

/// A run of more than one fragment fits in the datagram.
pub proof fn law_run_fits_the_datagram(
    header_len: int,
    budget: int,
    start: int,
    num_frags: int,
    fragment_size: int,
    data_size: int,
)
    requires
        1 <= start <= num_frags,
        1 <= fragment_size,
        0 <= header_len,
    ensures
        ({
            let k = run_length(header_len, budget, start, num_frags, fragment_size, data_size);
            let room = fragment_room(header_len, budget);
            k > 1 ==> k * fragment_size <= room || bytes_from(start, fragment_size, data_size)
                <= room
        }),
{
    let room = fragment_room(header_len, budget);
    let k = run_length(header_len, budget, start, num_frags, fragment_size, data_size);
    if room < bytes_from(start, fragment_size, data_size) && k > 1 {
        let whole = room / fragment_size;
        assert(0 <= whole <= room) by (nonlinear_arith)
            requires
                whole == room / fragment_size,
                room >= 0,
                fragment_size >= 1,
        ;
        assert(k <= whole);
        vstd::arithmetic::div_mod::lemma_fundamental_div_mod(room, fragment_size);
        assert(k * fragment_size <= room) by (nonlinear_arith)
            requires
                k <= whole,
                room == fragment_size * whole + room % fragment_size,
                room % fragment_size >= 0,
                fragment_size >= 1,
        ;
    }
}

/// The most fragments that a submessage can announce.
pub const MAX_FRAGMENTS_IN_SUBMESSAGE: u32 = 65535;

/// The reader that a sample is sent to alone.
pub struct SendTarget {
    pub reader_guid: GUID,
    /// Samples that the reader will not get.
    pub pending_gap: Vec<SequenceNumber>,
}

#[derive(Clone, Copy, Debug, PartialEq, Eq, Structural)]
pub enum FragmentationIterState {
    /// The sample goes out in one piece.
    Unfragmented,
    /// A reader that is sent the fragments alone is first told what it will not get.
    TargetReader,
    /// Fragments from number `next` on are to be sent.
    Fragments { next: u32, num_frags: u32, fragment_size: u16 },
    /// Only the closing HEARTBEAT is to be sent.
    Heartbeat,
}

/// Gives the messages that carry a sample, one by one.
pub struct FragmentationIter {
    pub writer_sn: SequenceNumber,
    pub source_timestamp: Option<Timestamp>,
    pub target: Option<SendTarget>,
    /// Bytes for submessages in a datagram.
    pub budget: usize,
    pub data_size: usize,
    /// Does a HEARTBEAT close the sample?
    pub heartbeat: bool,
    pub finished: bool,
    pub state: FragmentationIterState,
}

impl FragmentationIter {
    pub open spec fn wf(self) -> bool {
        match self.state {
            FragmentationIterState::Fragments { next, num_frags, fragment_size } => {
                &&& 1 <= next
                &&& num_frags == num_frags_of(self.data_size)
                &&& fragment_size == FRAGMENT_SIZE
            },
            _ => true,
        }
    }

    /// What the messages carry and where they go is as in `other`.
    pub open spec fn same_sample(self, other: Self) -> bool {
        &&& self.writer_sn == other.writer_sn
        &&& self.source_timestamp == other.source_timestamp
        &&& self.target == other.target
        &&& self.budget == other.budget
        &&& self.data_size == other.data_size
        &&& self.heartbeat == other.heartbeat
    }

    pub open spec fn reader(self) -> EntityId {
        match self.target {
            Some(t) => t.reader_guid.entity_id,
            None => EntityId::unknown(),
        }
    }

    pub open spec fn stamp(self) -> Seq<SubmessageView> {
        match self.source_timestamp {
            Some(ts) => seq![SubmessageView::InfoTimestamp(Some(ts))],
            None => Seq::empty(),
        }
    }

    pub open spec fn address(self) -> Seq<SubmessageView> {
        match self.target {
            Some(t) => seq![SubmessageView::InfoDestination(t.reader_guid.prefix)],
            None => Seq::empty(),
        }
    }

    /// Is there anything that the target will not get?
    pub open spec fn has_gap(self) -> bool {
        self.target matches Some(t) && t.pending_gap@.len() > 0
    }

    pub open spec fn gap(self) -> Seq<SubmessageView> {
        if self.has_gap() {
            seq![
                SubmessageView::Gap {
                    reader_guid: self.target->0.reader_guid,
                    numbers: numbers_of(self.target->0.pending_gap@),
                },
            ]
        } else {
            Seq::empty()
        }
    }

    pub open spec fn closing(self, first: int, last: int, count: i32) -> Seq<SubmessageView> {
        if self.heartbeat {
            seq![
                SubmessageView::Heartbeat {
                    reader: self.reader(),
                    first,
                    last,
                    count,
                    final_flag: false,
                    liveliness_flag: false,
                },
            ]
        } else {
            Seq::empty()
        }
    }

    /// The message that carries the sample in one piece.
    pub open spec fn whole_message(self, first: int, last: int, count: i32) -> Seq<SubmessageView> {
        self.stamp() + self.address() + self.gap() + seq![
            SubmessageView::Data { reader: self.reader(), writer_sn: self.writer_sn@ },
        ] + self.closing(first, last, count)
    }

    /// Bytes of a message before its fragments.
    pub open spec fn header_len(self) -> int {
        RTPS_HEADER_SIZE + (if self.source_timestamp is Some {
            INFO_TS_SIZE as int
        } else {
            0
        }) + (if self.target is Some {
            INFO_DST_SIZE as int
        } else {
            0
        })
    }

    /// How many fragments the message has that starts with fragment `start`: as many as go
    /// into the datagram, and no more than can be announced.
    pub open spec fn fragments_at(self, start: int) -> int {
        lesser(
            run_length(
                self.header_len(),
                self.budget as int,
                start,
                num_frags_of(self.data_size),
                FRAGMENT_SIZE as int,
                self.data_size as int,
            ),
            MAX_FRAGMENTS_IN_SUBMESSAGE as int,
        )
    }

    /// The message that carries the fragments from `start` on.
    pub open spec fn run_message(self, start: int) -> Seq<SubmessageView> {
        self.stamp() + self.address() + seq![
            SubmessageView::DataFrag {
                reader: self.reader(),
                writer_sn: self.writer_sn@,
                start,
                fragments: self.fragments_at(start),
                fragment_size: FRAGMENT_SIZE as int,
                sample_size: self.data_size as int,
            },
        ]
    }

    /// The state in which fragment `next` is due, or the end if there is none.
    pub open spec fn due(self, next: int) -> FragmentationIterState {
        if next <= num_frags_of(self.data_size) {
            FragmentationIterState::Fragments {
                next: next as u32,
                num_frags: num_frags_of(self.data_size) as u32,
                fragment_size: FRAGMENT_SIZE,
            }
        } else {
            FragmentationIterState::Heartbeat
        }
    }

    /// The state in which the next message is made.
    pub open spec fn settled(self) -> FragmentationIterState {
        match self.state {
            FragmentationIterState::TargetReader => if self.has_gap() {
                self.state
            } else {
                self.due(1)
            },
            FragmentationIterState::Fragments { next, .. } => self.due(next as int),
            _ => self.state,
        }
    }

    /// Is this the start of the messages that carry a sample, from `cursor` on?
    pub open spec fn is_start(
        self,
        writer: Writer,
        cc: CacheChange,
        target: Option<RtpsReaderProxy>,
        send_heartbeat: bool,
        cursor: SampleCursor,
    ) -> bool {
        &&& self.writer_sn == cc.sequence_number
        &&& self.source_timestamp == cc.write_options.source_timestamp
        &&& self.target is Some <==> target is Some
        &&& target matches Some(p) ==> self.target->0.reader_guid == p.remote_reader_guid
            && numbers_of(self.target->0.pending_gap@) == p.gaps()
        &&& self.budget == writer.budget(target)
        &&& self.data_size == cc.data_value.spec_payload_size()
        &&& self.heartbeat == (send_heartbeat && !writer.like_stateless)
        &&& !self.finished
        &&& self.state == (if self.data_size <= writer.max_unfragmented(target) {
            FragmentationIterState::Unfragmented
        } else {
            match cursor {
                SampleCursor::Fresh => FragmentationIterState::TargetReader,
                SampleCursor::Frag(start) => FragmentationIterState::Fragments {
                    next: start.value,
                    num_frags: num_frags_of(self.data_size) as u32,
                    fragment_size: FRAGMENT_SIZE,
                },
                SampleCursor::Heartbeat => FragmentationIterState::Heartbeat,
            }
        })
    }

    /// A sample that starts from `cursor`. `target` is the reader that it is sent to
    /// alone, if it is.
    pub fn new_resume(
        writer: &Writer,
        cache_change: &CacheChange,
        target_reader_opt: Option<&RtpsReaderProxy>,
        send_heartbeat: bool,
        cursor: SampleCursor,
    ) -> (it: Self)
        requires
            cache_change.data_value.spec_payload_size() <= usize::MAX,
            cursor matches SampleCursor::Frag(n) ==> n@ >= 1,
        ensures
            it.wf(),
            it.is_start(
                *writer,
                *cache_change,
                opt_deref(target_reader_opt),
                send_heartbeat,
                cursor,
            ),
    {
        let target: Option<SendTarget> = match target_reader_opt {
            Some(p) => {
                let pending_gap: Vec<SequenceNumber> = p.get_pending_gap();
                Some(SendTarget { reader_guid: p.remote_reader_guid, pending_gap })
            },
            None => None,
        };
        let data_size: usize = cache_change.data_value.payload_size();
        let fragmentation_needed: bool = data_size
            > writer.max_unfragmented_serialized_payload(target_reader_opt);
        let state: FragmentationIterState = if fragmentation_needed {
            match cursor {
                SampleCursor::Fresh => FragmentationIterState::TargetReader,
                SampleCursor::Frag(start) => {
                    let (num_frags, fragment_size): (u32, u16) = writer.num_frags_and_frag_size(
                        data_size,
                    );
                    FragmentationIterState::Fragments {
                        next: start.value,
                        num_frags,
                        fragment_size,
                    }
                },
                SampleCursor::Heartbeat => FragmentationIterState::Heartbeat,
            }
        } else {
            FragmentationIterState::Unfragmented
        };
        FragmentationIter {
            writer_sn: cache_change.sequence_number,
            source_timestamp: cache_change.write_options.source_timestamp(),
            target,
            budget: writer.datagram_budget(target_reader_opt),
            data_size,
            heartbeat: send_heartbeat && !writer.like_stateless,
            finished: false,
            state,
        }
    }

    /// Is the sample cut into fragments?
    pub fn fragmentation_needed(&self) -> (r: bool)
        ensures
            r == !(self.state is Unfragmented),
    {
        match self.state {
            FragmentationIterState::Unfragmented => false,
            _ => true,
        }
    }

    fn head(&self) -> (m: Message)
        ensures
            m@ == self.stamp() + self.address(),
    {
        let mut m: Message = Message::new();
        if let Some(ts) = self.source_timestamp {
            m = m.ts_msg(Some(ts));
        }
        if let Some(t) = &self.target {
            m = m.dst_submessage(t.reader_guid.prefix);
        }
        assert(m@ =~= self.stamp() + self.address());
        m
    }

    fn reader_id(&self) -> (id: EntityId)
        ensures
            id == self.reader(),
    {
        match &self.target {
            Some(t) => t.reader_guid.entity_id,
            None => EntityId::unknown(),
        }
    }

    /// `after` and `item` are what one step gives, where the buffer holds the samples from
    /// `first` to `last`; `count` is that of the next HEARTBEAT before, and `count_after`
    /// after it.
    pub open spec fn steps_to(
        self,
        after: Self,
        item: Option<(SampleCursor, Seq<SubmessageView>)>,
        first: int,
        last: int,
        count: i32,
        count_after: i32,
    ) -> bool {
        &&& after.same_sample(self)
        &&& if self.finished {
            item is None && after == self && count_after == count
        } else {
            match self.settled() {
                FragmentationIterState::Unfragmented => {
                    &&& item == Some((SampleCursor::Fresh, self.whole_message(first, last, count)))
                    &&& after.finished
                    &&& after.state == self.state
                    &&& count_after == self.count_after_closing(count)
                },
                FragmentationIterState::TargetReader => {
                    &&& item == Some((SampleCursor::Fresh, self.address() + self.gap()))
                    &&& !after.finished
                    &&& after.state == (FragmentationIterState::Fragments {
                        next: 1,
                        num_frags: num_frags_of(self.data_size) as u32,
                        fragment_size: FRAGMENT_SIZE,
                    })
                    &&& count_after == count
                },
                FragmentationIterState::Fragments { next, num_frags, fragment_size } => {
                    &&& item == (if self.data_size <= u32::MAX {
                        Some(
                            (
                                SampleCursor::Frag(FragmentNumber { value: next }),
                                self.run_message(next as int),
                            ),
                        )
                    } else {
                        None
                    })
                    &&& !after.finished
                    &&& after.state == (FragmentationIterState::Fragments {
                        next: if item is Some {
                            (next + self.fragments_at(next as int)) as u32
                        } else {
                            next
                        },
                        num_frags,
                        fragment_size,
                    })
                    &&& count_after == count
                },
                FragmentationIterState::Heartbeat => {
                    &&& item == (if self.heartbeat {
                        Some((SampleCursor::Heartbeat, self.closing(first, last, count)))
                    } else {
                        None
                    })
                    &&& after.finished
                    &&& after.state == FragmentationIterState::Heartbeat
                    &&& count_after == self.count_after_closing(count)
                },
            }
        }
    }

    /// The count of the next HEARTBEAT once the sample is closed.
    pub open spec fn count_after_closing(self, count: i32) -> i32 {
        if self.heartbeat {
            next_count(count)
        } else {
            count
        }
    }

    /// The next message, with the place from which to resume if it cannot be sent. The
    /// count for heartbeats goes on where one is sent.
    pub fn next(
        &mut self,
        send_buffer: &WriterSendBuffer,
        heartbeat_counter: &mut i32,
    ) -> (r: Option<(SampleCursor, Message)>)
        requires
            old(self).wf(),
        ensures
            final(self).wf(),
            old(self).steps_to(
                *final(self),
                item_view(r),
                send_buffer.first_seq@,
                send_buffer.last_seq@,
                *old(heartbeat_counter),
                *final(heartbeat_counter),
            ),
    {
        if self.finished {
            return None;
        }
        if self.state == FragmentationIterState::Unfragmented {
            let mut m: Message = self.head();
            if let Some(t) = &self.target {
                if t.pending_gap.len() > 0 {
                    m = m.gap_msg(copy_numbers(&t.pending_gap), t.reader_guid);
                }
            }
            m = m.data_msg(self.reader_id(), self.writer_sn);
            let ghost count = *heartbeat_counter;
            if self.heartbeat {
                m = m.heartbeat_msg(
                    self.reader_id(),
                    send_buffer.first_change_sequence_number(),
                    send_buffer.last_change_sequence_number(),
                    *heartbeat_counter,
                    false,
                    false,
                );
                *heartbeat_counter = count_after(*heartbeat_counter);
            }
            assert(m@ =~= self.whole_message(
                send_buffer.first_seq@,
                send_buffer.last_seq@,
                count,
            ));
            self.finished = true;
            return Some((SampleCursor::Fresh, m));
        }
        if self.state == FragmentationIterState::TargetReader {
            let (num_frags, fragment_size): (u32, u16) = frags_of(self.data_size);
            self.state = FragmentationIterState::Fragments { next: 1, num_frags, fragment_size };
            if let Some(t) = &self.target {
                if t.pending_gap.len() > 0 {
                    let m: Message = Message::new().dst_submessage(t.reader_guid.prefix).gap_msg(
                        copy_numbers(&t.pending_gap),
                        t.reader_guid,
                    );
                    assert(m@ =~= self.address() + self.gap());
                    return Some((SampleCursor::Fresh, m));
                }
            }
        }
        if let FragmentationIterState::Fragments { next, num_frags, fragment_size } = self.state {
            if next <= num_frags {
                let header_len: usize = RTPS_HEADER_SIZE + (if self.source_timestamp.is_some() {
                    INFO_TS_SIZE
                } else {
                    0
                }) + (if self.target.is_some() {
                    INFO_DST_SIZE
                } else {
                    0
                });
                let fitting: u32 = frags_per_datafrag(
                    header_len,
                    self.budget,
                    next,
                    num_frags,
                    fragment_size,
                    self.data_size,
                );
                if self.data_size > 0xFFFF_FFFF {
                    return None;
                }
                let k: u32 = if fitting <= MAX_FRAGMENTS_IN_SUBMESSAGE {
                    fitting
                } else {
                    MAX_FRAGMENTS_IN_SUBMESSAGE
                };
                proof {
                    law_run_makes_progress(
                        header_len as int,
                        self.budget as int,
                        next as int,
                        num_frags as int,
                        fragment_size as int,
                        self.data_size as int,
                    );
                }
                let m: Message = self.head().data_frag_msg(
                    self.reader_id(),
                    self.writer_sn,
                    FragmentNumber::new(next),
                    k as u16,
                    fragment_size,
                    self.data_size as u32,
                );
                assert(m@ =~= self.run_message(next as int));
                self.state = FragmentationIterState::Fragments {
                    next: next + k,
                    num_frags,
                    fragment_size,
                };
                return Some((SampleCursor::Frag(FragmentNumber::new(next)), m));
            }
            self.state = FragmentationIterState::Heartbeat;
        }
        self.finished = true;
        if self.heartbeat {
            let ghost count = *heartbeat_counter;
            let m: Message = Message::new().heartbeat_msg(
                self.reader_id(),
                send_buffer.first_change_sequence_number(),
                send_buffer.last_change_sequence_number(),
                *heartbeat_counter,
                false,
                false,
            );
            *heartbeat_counter = count_after(*heartbeat_counter);
            assert(m@ =~= self.closing(send_buffer.first_seq@, send_buffer.last_seq@, count));
            return Some((SampleCursor::Heartbeat, m));
        }
        None
    }
}

impl FragmentationIter {
    /// The runs of fragments that go out from number `start` on: the first fragment of
    /// each and how many it has.
    pub open spec fn runs_from(self, start: int) -> Seq<(int, int)>
        decreases num_frags_of(self.data_size) - start + 1,
    {
        let k = self.fragments_at(start);
        if start < 1 || start > num_frags_of(self.data_size) || k < 1 {
            Seq::empty()
        } else {
            seq![(start, k)] + self.runs_from(start + k)
        }
    }

    /// The messages that carry the fragments from number `start` on. A sample whose size
    /// does not fit in 32 bits cannot be sent.
    pub open spec fn run_messages(self, start: int) -> Seq<Seq<SubmessageView>> {
        if self.data_size > u32::MAX {
            Seq::empty()
        } else {
            self.runs_from(start).map_values(|run: (int, int)| self.run_message(run.0))
        }
    }

    /// The messages that are still to come of a sample without a closing HEARTBEAT.
    pub open spec fn left(self) -> Seq<Seq<SubmessageView>> {
        if self.finished {
            Seq::empty()
        } else {
            match self.state {
                FragmentationIterState::Unfragmented => seq![self.whole_message(0, 0, 0)],
                FragmentationIterState::TargetReader => if self.has_gap() {
                    seq![self.address() + self.gap()] + self.run_messages(1)
                } else {
                    self.run_messages(1)
                },
                FragmentationIterState::Fragments { next, .. } => self.run_messages(next as int),
                FragmentationIterState::Heartbeat => Seq::empty(),
            }
        }
    }

    /// A bound on how many messages are still to come.
    spec fn steps(self) -> int {
        if self.finished {
            0
        } else {
            match self.state {
                FragmentationIterState::TargetReader => num_frags_of(self.data_size) + 3,
                FragmentationIterState::Fragments { next, .. } => if next <= num_frags_of(
                    self.data_size,
                ) {
                    num_frags_of(self.data_size) - next + 2
                } else {
                    1
                },
                _ => 1,
            }
        }
    }

    proof fn lemma_runs_of_same_sample(self, other: Self, start: int)
        requires
            self.same_sample(other),
        ensures
            self.runs_from(start) == other.runs_from(start),
            self.run_messages(start) == other.run_messages(start),
        decreases num_frags_of(self.data_size) - start + 1,
    {
        assert forall|n: int| self.run_message(n) == other.run_message(n) by {}
        let k = self.fragments_at(start);
        if !(start < 1 || start > num_frags_of(self.data_size) || k < 1) {
            self.lemma_runs_of_same_sample(other, start + k);
        }
        assert(self.run_messages(start) =~= other.run_messages(start));
    }

    /// What one step of the iterator does to what is still to come.
    proof fn lemma_step_left(self, after: Self)
        requires
            self.wf(),
            after.wf(),
            after.same_sample(self),
            !self.heartbeat,
            self.finished ==> after == self,
            !self.finished ==> match self.settled() {
                FragmentationIterState::Unfragmented => after.finished,
                FragmentationIterState::TargetReader => !after.finished && after.state == (
                FragmentationIterState::Fragments {
                    next: 1,
                    num_frags: num_frags_of(self.data_size) as u32,
                    fragment_size: FRAGMENT_SIZE,
                }),
                FragmentationIterState::Fragments { next, num_frags, fragment_size } => {
                    &&& !after.finished
                    &&& after.state == (FragmentationIterState::Fragments {
                        next: if self.data_size <= u32::MAX {
                            (next + self.fragments_at(next as int)) as u32
                        } else {
                            next
                        },
                        num_frags,
                        fragment_size,
                    })
                },
                FragmentationIterState::Heartbeat => after.finished && after.state
                    == FragmentationIterState::Heartbeat,
            },
        ensures
            self.finished ==> after.left() == Seq::<Seq<SubmessageView>>::empty(),
            !self.finished ==> match self.settled() {
                FragmentationIterState::Unfragmented => {
                    &&& self.left() == seq![self.whole_message(0, 0, 0)] + after.left()
                    &&& after.steps() < self.steps()
                },
                FragmentationIterState::TargetReader => {
                    &&& self.left() == seq![self.address() + self.gap()] + after.left()
                    &&& after.steps() < self.steps()
                },
                FragmentationIterState::Fragments { next, .. } => if self.data_size <= u32::MAX {
                    &&& self.left() == seq![self.run_message(next as int)] + after.left()
                    &&& after.steps() < self.steps()
                } else {
                    &&& self.left() == Seq::<Seq<SubmessageView>>::empty()
                    &&& after.left() == Seq::<Seq<SubmessageView>>::empty()
                },
                FragmentationIterState::Heartbeat => after.left() == Seq::<
                    Seq<SubmessageView>,
                >::empty() && self.left() == Seq::<Seq<SubmessageView>>::empty(),
            },
    {
        if !self.finished {
            match self.settled() {
                FragmentationIterState::Unfragmented => {},
                FragmentationIterState::TargetReader => {
                    after.lemma_runs_of_same_sample(self, 1);
                },
                FragmentationIterState::Fragments { next, num_frags, fragment_size } => {
                    let start = next as int;
                    let k = self.fragments_at(start);
                    law_run_makes_progress(
                        self.header_len(),
                        self.budget as int,
                        start,
                        num_frags as int,
                        FRAGMENT_SIZE as int,
                        self.data_size as int,
                    );
                    assert(self.left() == self.run_messages(start));
                    after.lemma_runs_of_same_sample(self, start + k);
                    after.lemma_runs_of_same_sample(self, start);
                    if self.data_size <= u32::MAX {
                        assert(self.run_messages(start) =~= seq![self.run_message(start)]
                            + self.run_messages(start + k));
                    }
                },
                FragmentationIterState::Heartbeat => {
                    assert(self.left() =~= Seq::empty());
                },
            }
        }
    }

    /// All messages that are still to come of a sample without a closing HEARTBEAT.
    pub fn drain(self, send_buffer: &WriterSendBuffer) -> (messages: Vec<Message>)
        requires
            self.wf(),
            !self.heartbeat,
        ensures
            messages@.map_values(|m: Message| m@) == self.left(),
    {
        let ghost all = self.left();
        let mut it: FragmentationIter = self;
        let mut counter: i32 = 0;
        let mut messages: Vec<Message> = Vec::new();
        assert(messages@.map_values(|m: Message| m@) + it.left() =~= all);
        loop
            invariant
                it.wf(),
                !it.heartbeat,
                messages@.map_values(|m: Message| m@) + it.left() == all,
            ensures
                it.left() == Seq::<Seq<SubmessageView>>::empty(),
            decreases it.steps(),
        {
            let ghost before = it;
            let ghost sent = messages@;
            match it.next(send_buffer, &mut counter) {
                None => {
                    proof {
                        before.lemma_step_left(it);
                    }
                    break ;
                },
                Some((_cursor, m)) => {
                    messages.push(m);
                    proof {
                        before.lemma_step_left(it);
                        assert(before.left() == seq![m@] + it.left());
                        assert(messages@.map_values(|m: Message| m@) =~= sent.map_values(
                            |m: Message| m@,
                        ).push(m@));
                        assert(messages@.map_values(|m: Message| m@) + it.left() =~= all);
                    }
                },
            }
        }
        assert(messages@.map_values(|m: Message| m@) =~= all);
        messages
    }
}

/// A message with the place from which to resume, in terms of what it says.
pub open spec fn item_view(item: Option<(SampleCursor, Message)>) -> Option<
    (SampleCursor, Seq<SubmessageView>),
> {
    match item {
        Some((cursor, m)) => Some((cursor, m@)),
        None => None,
    }
}

impl FragmentationIter {
    /// The closing HEARTBEAT as a message of its own, if there is one.
    pub open spec fn closing_messages(self, first: int, last: int, count: i32) -> Seq<
        Seq<SubmessageView>,
    > {
        if self.heartbeat {
            seq![self.closing(first, last, count)]
        } else {
            Seq::empty()
        }
    }

    /// All messages that are still to come, the closing HEARTBEAT among them.
    pub open spec fn rest(self, first: int, last: int, count: i32) -> Seq<Seq<SubmessageView>> {
        let closing = if self.data_size <= u32::MAX {
            self.closing_messages(first, last, count)
        } else {
            Seq::empty()
        };
        if self.finished {
            Seq::empty()
        } else {
            match self.settled() {
                FragmentationIterState::Unfragmented => seq![
                    self.whole_message(first, last, count),
                ],
                FragmentationIterState::TargetReader => seq![self.address() + self.gap()]
                    + self.run_messages(1) + (if num_frags_of(self.data_size) >= 1 {
                    closing
                } else {
                    self.closing_messages(first, last, count)
                }),
                FragmentationIterState::Fragments { next, .. } => self.run_messages(next as int)
                    + closing,
                FragmentationIterState::Heartbeat => self.closing_messages(first, last, count),
            }
        }
    }

    /// What the messages carry and where they go is, in terms of what they say, as in
    /// `other`.
    pub open spec fn alike(self, other: Self) -> bool {
        &&& self.writer_sn == other.writer_sn
        &&& self.source_timestamp == other.source_timestamp
        &&& self.budget == other.budget
        &&& self.data_size == other.data_size
        &&& self.heartbeat == other.heartbeat
        &&& self.target is Some <==> other.target is Some
        &&& self.target matches Some(t) ==> t.reader_guid == other.target->0.reader_guid
            && numbers_of(t.pending_gap@) == numbers_of(other.target->0.pending_gap@)
    }

    proof fn lemma_alike(self, other: Self)
        requires
            self.alike(other),
        ensures
            self.has_gap() == other.has_gap(),
            self.gap() == other.gap(),
            self.address() == other.address(),
            self.stamp() == other.stamp(),
            self.reader() == other.reader(),
            self.header_len() == other.header_len(),
            forall|n: int| self.run_message(n) == other.run_message(n),
            forall|n: int| self.fragments_at(n) == other.fragments_at(n),
            forall|a: int, b: int, c: i32|
                self.closing_messages(a, b, c) == other.closing_messages(a, b, c),
            forall|a: int, b: int, c: i32|
                self.whole_message(a, b, c) == other.whole_message(a, b, c),
    {
        if self.target is Some {
            let mine = self.target->0.pending_gap@;
            let theirs = other.target->0.pending_gap@;
            if mine.len() > 0 {
                assert(numbers_of(mine).contains(mine[0]@));
            }
            if theirs.len() > 0 {
                assert(numbers_of(theirs).contains(theirs[0]@));
            }
            assert(self.has_gap() == other.has_gap());
        }
    }

    proof fn lemma_runs_of_alike(self, other: Self, start: int)
        requires
            self.alike(other),
        ensures
            self.runs_from(start) == other.runs_from(start),
            self.run_messages(start) == other.run_messages(start),
        decreases num_frags_of(self.data_size) - start + 1,
    {
        self.lemma_alike(other);
        let k = self.fragments_at(start);
        assert(k == other.fragments_at(start));
        if !(start < 1 || start > num_frags_of(self.data_size) || k < 1) {
            self.lemma_runs_of_alike(other, start + k);
        }
        assert(self.run_messages(start) =~= other.run_messages(start));
    }
}

/// What is still to come is the next message, and then what is still to come after it.
pub proof fn law_next_is_the_first_of_the_rest(
    it: FragmentationIter,
    after: FragmentationIter,
    item: Option<(SampleCursor, Seq<SubmessageView>)>,
    first: int,
    last: int,
    count: i32,
    count_after: i32,
)
    requires
        it.wf(),
        after.wf(),
        it.steps_to(after, item, first, last, count, count_after),
    ensures
        it.rest(first, last, count) == (match item {
            Some((_, m)) => seq![m] + after.rest(first, last, count_after),
            None => Seq::<Seq<SubmessageView>>::empty(),
        }),
{
    assert(after.alike(it));
    after.lemma_alike(it);
    if !it.finished {
        match it.settled() {
            FragmentationIterState::Unfragmented => {
                assert(it.rest(first, last, count) =~= seq![(item->0).1] + after.rest(
                    first,
                    last,
                    count_after,
                ));
            },
            FragmentationIterState::TargetReader => {
                after.lemma_runs_of_alike(it, 1);
                if num_frags_of(it.data_size) < 1 {
                    assert(it.run_messages(1) =~= Seq::empty());
                }
                assert(it.rest(first, last, count) =~= seq![(item->0).1] + after.rest(
                    first,
                    last,
                    count_after,
                ));
            },
            FragmentationIterState::Fragments { next, num_frags, .. } => {
                let start = next as int;
                let k = it.fragments_at(start);
                law_run_makes_progress(
                    it.header_len(),
                    it.budget as int,
                    start,
                    num_frags as int,
                    FRAGMENT_SIZE as int,
                    it.data_size as int,
                );
                after.lemma_runs_of_alike(it, start + k);
                if it.data_size <= u32::MAX {
                    assert(it.run_messages(start) =~= seq![it.run_message(start)]
                        + it.run_messages(start + k));
                    if start + k > num_frags {
                        assert(it.run_messages(start + k) =~= Seq::empty());
                    }
                    assert(it.rest(first, last, count) =~= seq![(item->0).1] + after.rest(
                        first,
                        last,
                        count_after,
                    ));
                } else {
                    assert(it.rest(first, last, count) =~= Seq::empty());
                }
            },
            FragmentationIterState::Heartbeat => {
                if it.heartbeat {
                    assert(it.rest(first, last, count) =~= seq![(item->0).1] + after.rest(
                        first,
                        last,
                        count_after,
                    ));
                }
            },
        }
    }
}

/// Where a message could not be sent, sending that resumes from the place which came with
/// it gives that message again, and then the same as would have come after it, the closing
/// HEARTBEAT included.
pub proof fn law_resuming_gives_the_same_rest(
    writer: Writer,
    cc: CacheChange,
    target: Option<RtpsReaderProxy>,
    send_heartbeat: bool,
    began_at: SampleCursor,
    start: FragmentationIter,
    it: FragmentationIter,
    after: FragmentationIter,
    item: (SampleCursor, Seq<SubmessageView>),
    first: int,
    last: int,
    count: i32,
    count_after: i32,
    resumed: FragmentationIter,
)
    requires
        start.is_start(writer, cc, target, send_heartbeat, began_at),
        it.wf(),
        it.same_sample(start),
        it.state is Unfragmented <==> start.state is Unfragmented,
        after.wf(),
        it.steps_to(after, Some(item), first, last, count, count_after),
        resumed.wf(),
        resumed.is_start(writer, cc, target, send_heartbeat, item.0),
    ensures
        resumed.rest(first, last, count) == seq![item.1] + after.rest(first, last, count_after),
{
    law_next_is_the_first_of_the_rest(it, after, Some(item), first, last, count, count_after);
    assert(resumed.alike(it));
    resumed.lemma_alike(it);
    match it.settled() {
        FragmentationIterState::TargetReader => {
            resumed.lemma_runs_of_alike(it, 1);
        },
        FragmentationIterState::Fragments { next, .. } => {
            resumed.lemma_runs_of_alike(it, next as int);
        },
        _ => {},
    }
    assert(resumed.settled() == it.settled());
    assert(resumed.rest(first, last, count) == it.rest(first, last, count));
}

/// The runs of fragments of a sample cover it without a hole and without an overlap: the
/// first starts where the sending starts, each next one where the one before ends, and
/// the last ends with the last fragment.
pub proof fn law_runs_cover_the_sample(it: FragmentationIter, start: int)
    requires
        1 <= start <= num_frags_of(it.data_size),
    ensures
        ({
            let runs = it.runs_from(start);
            &&& runs.len() > 0
            &&& runs[0].0 == start
            &&& forall|i: int| 0 <= i < runs.len() ==> 1 <= (#[trigger] runs[i]).1
            &&& forall|i: int, j: int|
                #![trigger runs[i], runs[j]]
                0 <= i && j == i + 1 && j < runs.len() ==> runs[j].0 == runs[i].0 + runs[i].1
            &&& runs.last().0 + runs.last().1 == num_frags_of(it.data_size) + 1
        }),
    decreases num_frags_of(it.data_size) - start + 1,
{
    let n = num_frags_of(it.data_size);
    let k = it.fragments_at(start);
    law_run_makes_progress(
        it.header_len(),
        it.budget as int,
        start,
        n,
        FRAGMENT_SIZE as int,
        it.data_size as int,
    );
    let rest = it.runs_from(start + k);
    let runs = it.runs_from(start);
    assert(runs == seq![(start, k)] + rest);
    if start + k <= n {
        law_runs_cover_the_sample(it, start + k);
        assert(runs.last() == rest.last());
        assert forall|i: int| 0 <= i < runs.len() implies 1 <= (#[trigger] runs[i]).1 by {
            if i > 0 {
                assert(runs[i] == rest[i - 1]);
            }
        }
        assert forall|i: int, j: int|
            #![trigger runs[i], runs[j]]
            0 <= i && j == i + 1 && j < runs.len() implies runs[j].0 == runs[i].0 + runs[i].1 by {
            assert(runs[j] == rest[j - 1]);
            if i > 0 {
                assert(runs[i] == rest[i - 1]);
            }
        }
    }
}

/// The reader that a sample is sent to alone, if it is.
pub open spec fn guid_of(target: Option<RtpsReaderProxy>) -> Option<GUID> {
    match target {
        Some(rp) => Some(rp.remote_reader_guid),
        None => None,
    }
}

/// The samples that the reader to which a sample is sent alone will not get.
pub open spec fn gaps_of(target: Option<RtpsReaderProxy>) -> Set<int> {
    match target {
        Some(rp) => rp.gaps(),
        None => Set::empty(),
    }
}

/// A message that carries the sample `cc` or a part of it to a reader, or to all, as it is
/// read: nothing but that sample is in it, with the timestamp that it was written with; its
/// HEARTBEATs advertise what the buffer retains; its GAPs tell what the reader will not get.
pub open spec fn is_message_about(
    message: Seq<SubmessageView>,
    cc: CacheChange,
    target: Option<RtpsReaderProxy>,
    buffer: WriterSendBuffer,
) -> bool {
    &&& speaks_of(message, cc, guid_of(target))
    &&& heartbeats_are_true(message, buffer)
    &&& heartbeats_prompt(message, guid_of(target))
    &&& gaps_are(message, guid_of(target), gaps_of(target))
}

impl FragmentationIter {
    /// These are messages of sample `cc` to `target`.
    spec fn is_about(self, cc: CacheChange, target: Option<RtpsReaderProxy>) -> bool {
        &&& self.writer_sn == cc.sequence_number
        &&& self.source_timestamp == cc.write_options.source_timestamp
        &&& self.data_size == cc.data_value.spec_payload_size()
        &&& self.target is Some <==> target is Some
        &&& target matches Some(p) ==> self.target->0.reader_guid == p.remote_reader_guid
            && numbers_of(self.target->0.pending_gap@) == p.gaps()
    }

    proof fn lemma_whole_message(
        self,
        cc: CacheChange,
        target: Option<RtpsReaderProxy>,
        buffer: WriterSendBuffer,
        count: i32,
        f: int,
    )
        requires
            buffer.wf(),
            self.is_about(cc, target),
        ensures
            ({
                let m = self.whole_message(buffer.first_seq@, buffer.last_seq@, count);
                &&& is_message_about(m, cc, target, buffer)
                &&& samples_in(m) == seq![cc.sequence_number@]
                &&& times_in_message(m, f) == 0
                &&& heartbeat_count(m) == (if self.heartbeat {
                    1nat
                } else {
                    0nat
                })
                &&& self.has_gap() ==> tells_gaps(m)
            }),
    {
        let m = self.whole_message(buffer.first_seq@, buffer.last_seq@, count);
        let stamp = self.stamp();
        let address = self.address();
        let gap = self.gap();
        let part = SubmessageView::Data { reader: self.reader(), writer_sn: self.writer_sn@ };
        let data = seq![part];
        let closing = self.closing(buffer.first_seq@, buffer.last_seq@, count);
        self.lemma_small_parts(f);
        lemma_one_part(part, f);
        assert(samples_in(closing) =~= Seq::empty() && times_in_message(closing, f) == 0
            && heartbeat_count(closing) == (if self.heartbeat {
            1nat
        } else {
            0nat
        })) by {
            if self.heartbeat {
                lemma_one_part(closing[0], f);
                assert(closing =~= seq![closing[0]]);
            }
        }
        lemma_samples_in_two(stamp, address);
        lemma_samples_in_two(stamp + address, gap);
        lemma_samples_in_two(stamp + address + gap, data);
        lemma_samples_in_two(stamp + address + gap + data, closing);
        lemma_counts_of_two(stamp, address, f);
        lemma_counts_of_two(stamp + address, gap, f);
        lemma_counts_of_two(stamp + address + gap, data, f);
        lemma_counts_of_two(stamp + address + gap + data, closing, f);
        assert(samples_in(m) =~= seq![cc.sequence_number@]);
        let d = (stamp.len() + address.len() + gap.len()) as int;
        assert(m[d] == part);
        assert(stamp_at(m, d) == self.source_timestamp) by {
            reveal_with_fuel(stamp_at, 4);
        }
        assert(destination_at(m, d) == (match self.target {
            Some(t) => Some(t.reader_guid.prefix),
            None => None,
        })) by {
            reveal_with_fuel(destination_at, 4);
        }
        assert forall|i: int| 0 <= i < m.len() && sample_of(#[trigger] m[i]) is Some implies i
            == d by {}
        reveal(WriterSendBuffer::no_holes);
        assert(advertises(buffer.first_seq@, buffer.last_seq@, buffer));
        if self.has_gap() {
            assert(m[(stamp.len() + address.len()) as int] is Gap);
        }
        assert(self.reader() == entity_of(guid_of(target)));
        assert(gaps_are(m, guid_of(target), gaps_of(target)));
        assert(heartbeats_prompt(m, guid_of(target)));
        assert(heartbeats_are_true(m, buffer));
        assert(speaks_of(m, cc, guid_of(target)));
    }

    proof fn lemma_small_parts(self, f: int)
        ensures
            samples_in(self.stamp()) == Seq::<int>::empty(),
            samples_in(self.address()) == Seq::<int>::empty(),
            samples_in(self.gap()) == Seq::<int>::empty(),
            times_in_message(self.stamp(), f) == 0,
            times_in_message(self.address(), f) == 0,
            times_in_message(self.gap(), f) == 0,
            heartbeat_count(self.stamp()) == 0,
            heartbeat_count(self.address()) == 0,
            heartbeat_count(self.gap()) == 0,
    {
        let stamp = self.stamp();
        let address = self.address();
        let gap = self.gap();
        if stamp.len() > 0 {
            lemma_one_part(stamp[0], f);
            assert(stamp =~= seq![stamp[0]]);
        }
        if address.len() > 0 {
            lemma_one_part(address[0], f);
            assert(address =~= seq![address[0]]);
        }
        if gap.len() > 0 {
            lemma_one_part(gap[0], f);
            assert(gap =~= seq![gap[0]]);
        }
    }

    proof fn lemma_run_message(
        self,
        cc: CacheChange,
        target: Option<RtpsReaderProxy>,
        buffer: WriterSendBuffer,
        start: int,
        f: int,
    )
        requires
            self.is_about(cc, target),
        ensures
            ({
                let m = self.run_message(start);
                &&& is_message_about(m, cc, target, buffer)
                &&& samples_in(m) == Seq::<int>::empty()
                &&& times_in_message(m, f) == (if start <= f < start + self.fragments_at(start) {
                    1nat
                } else {
                    0nat
                })
                &&& heartbeat_count(m) == 0
            }),
    {
        let m = self.run_message(start);
        let stamp = self.stamp();
        let address = self.address();
        let d = (stamp.len() + address.len()) as int;
        let part = m[d];
        self.lemma_small_parts(f);
        lemma_one_part(part, f);
        lemma_samples_in_two(stamp, address);
        lemma_samples_in_two(stamp + address, seq![part]);
        lemma_counts_of_two(stamp, address, f);
        lemma_counts_of_two(stamp + address, seq![part], f);
        assert(m =~= stamp + address + seq![part]);
        assert(samples_in(m) =~= Seq::empty());
        assert(stamp_at(m, d) == self.source_timestamp) by {
            reveal_with_fuel(stamp_at, 3);
        }
        assert(destination_at(m, d) == (match self.target {
            Some(t) => Some(t.reader_guid.prefix),
            None => None,
        })) by {
            reveal_with_fuel(destination_at, 3);
        }
        assert forall|i: int| 0 <= i < m.len() && sample_of(#[trigger] m[i]) is Some implies i
            == d by {}
        assert(self.reader() == entity_of(guid_of(target)));
        assert(speaks_of(m, cc, guid_of(target)));
    }

    proof fn lemma_run_messages(
        self,
        cc: CacheChange,
        target: Option<RtpsReaderProxy>,
        buffer: WriterSendBuffer,
        start: int,
        f: int,
    )
        requires
            self.is_about(cc, target),
            self.data_size <= u32::MAX,
            1 <= start,
        ensures
            ({
                let ms = self.run_messages(start);
                &&& forall|j: int|
                    0 <= j < ms.len() ==> is_message_about(#[trigger] ms[j], cc, target, buffer)
                &&& whole_samples(ms) == Seq::<int>::empty()
                &&& times_carried(ms, f) == (if start <= f <= num_frags_of(self.data_size) {
                    1nat
                } else {
                    0nat
                })
                &&& heartbeats_in(ms) == 0
            }),
        decreases num_frags_of(self.data_size) - start + 1,
    {
        let n = num_frags_of(self.data_size);
        let ms = self.run_messages(start);
        if start > n {
            assert(ms =~= Seq::empty());
        } else {
            let k = self.fragments_at(start);
            law_run_makes_progress(
                self.header_len(),
                self.budget as int,
                start,
                n,
                FRAGMENT_SIZE as int,
                self.data_size as int,
            );
            let m = self.run_message(start);
            let rest = self.run_messages(start + k);
            assert(ms =~= seq![m] + rest);
            self.lemma_run_messages(cc, target, buffer, start + k, f);
            self.lemma_run_message(cc, target, buffer, start, f);
            lemma_one_message(m, f);
            lemma_messages_in_two(seq![m], rest, f);
            assert(whole_samples(ms) =~= Seq::empty());
            assert forall|j: int| 0 <= j < ms.len() implies is_message_about(
                #[trigger] ms[j],
                cc,
                target,
                buffer,
            ) by {
                if j > 0 {
                    assert(ms[j] == rest[j - 1]);
                }
            }
        }
    }
}

/// The first fragment that is still to be sent.
pub open spec fn first_fragment(cursor: SampleCursor) -> Option<int> {
    match cursor {
        SampleCursor::Fresh => Some(1),
        SampleCursor::Frag(start) => Some(start@),
        SampleCursor::Heartbeat => None,
    }
}

/// The messages carry the sample `cc` from `cursor` on: whole in one message, or every
/// fragment from there on exactly once, a fragment being there where the sample has a byte
/// in it. A HEARTBEAT ends them where one is wanted, and there is no other.
pub open spec fn is_sample_in(
    messages: Seq<Seq<SubmessageView>>,
    cc: CacheChange,
    target: Option<RtpsReaderProxy>,
    buffer: WriterSendBuffer,
    whole: bool,
    cursor: SampleCursor,
    heartbeat: bool,
) -> bool {
    &&& forall|j: int|
        0 <= j < messages.len() ==> is_message_about(#[trigger] messages[j], cc, target, buffer)
    &&& whole_samples(messages) == (if whole {
        seq![cc.sequence_number@]
    } else {
        Seq::empty()
    })
    &&& forall|f: int| #[trigger]
        times_carried(messages, f) == (if !whole && (first_fragment(cursor) matches Some(from)
            && from <= f) && (f - 1) * FRAGMENT_SIZE < cc.data_value.spec_payload_size() {
            1nat
        } else {
            0nat
        })
    &&& heartbeats_in(messages) == (if heartbeat {
        1nat
    } else {
        0nat
    })
    &&& heartbeat ==> messages.len() > 0 && messages.last().len() > 0
        && messages.last().last() is Heartbeat
    &&& (whole || cursor == SampleCursor::Fresh) && gaps_of(target) != Set::<int>::empty()
        ==> messages.len() > 0 && tells_gaps(messages[0])
}

/// A sample that is sent on its own goes out completely: in one message where it fits in
/// one datagram with room for a HEARTBEAT, else in fragments, each of which goes out once.
/// The messages have the timestamp that the sample was written with and go to the reader
/// that it is for. The last of them asks for an acknowledgement where that is wanted. A
/// sample whose size does not fit in 32 bits cannot be cut.
pub proof fn law_sample_goes_out_completely(
    writer: Writer,
    cc: CacheChange,
    target: Option<RtpsReaderProxy>,
    send_heartbeat: bool,
    cursor: SampleCursor,
    it: FragmentationIter,
    buffer: WriterSendBuffer,
    count: i32,
)
    requires
        buffer.wf(),
        it.wf(),
        it.is_start(writer, cc, target, send_heartbeat, cursor),
        cursor matches SampleCursor::Frag(n) ==> n@ >= 1,
        cc.data_value.spec_payload_size() <= u32::MAX,
    ensures
        ({
            let budget = match target {
                Some(rp) => rp.max_datagram_payload,
                None => writer.min_datagram_payload,
            };
            let heartbeat: int = if (writer.qos_policies.reliability matches Some(
                Reliability::Reliable { .. },
            )) && !writer.like_stateless {
                HEARTBEAT_SUBMESSAGE_SERIALIZED_SIZE as int
            } else {
                0
            };
            let size = cc.data_value.spec_payload_size();
            is_sample_in(
                it.rest(buffer.first_seq@, buffer.last_seq@, count),
                cc,
                target,
                buffer,
                size == 0 || size + DATA_SUBMESSAGE_OVERHEAD + heartbeat <= budget,
                cursor,
                send_heartbeat && !writer.like_stateless,
            )
        }),
{
    let first = buffer.first_seq@;
    let last = buffer.last_seq@;
    let ms = it.rest(first, last, count);
    let n = num_frags_of(it.data_size);
    let size = cc.data_value.spec_payload_size();
    let whole = it.state is Unfragmented;
    if target is Some {
        let mine = it.target->0.pending_gap@;
        if mine.len() > 0 {
            assert(numbers_of(mine).contains(mine[0]@));
        } else {
            assert(numbers_of(mine) =~= Set::empty());
        }
    }
    assert(it.has_gap() <==> gaps_of(target) != Set::<int>::empty());
    it.lemma_closing(cc, target, buffer, count);
    if it.has_gap() {
        it.lemma_gap_message(cc, target, buffer);
    }
    assert forall|f: int| #[trigger]
        times_carried(ms, f) == (if !whole && (first_fragment(cursor) matches Some(from)
            && from <= f) && (f - 1) * FRAGMENT_SIZE < size {
            1nat
        } else {
            0nat
        }) by {
        assert(f <= n <==> (f - 1) * FRAGMENT_SIZE < size);
        it.lemma_rest(cc, target, buffer, cursor, count, f);
    }
    it.lemma_rest(cc, target, buffer, cursor, count, 1);
}

/// The messages of a sample without a closing HEARTBEAT do not depend on what the buffer
/// holds.
pub(crate) proof fn lemma_left_is_the_rest(
    it: FragmentationIter,
    first: int,
    last: int,
    count: i32,
)
    requires
        it.wf(),
        !it.heartbeat,
    ensures
        it.left() == it.rest(first, last, count),
{
    assert(it.whole_message(first, last, count) =~= it.whole_message(0, 0, 0));
    assert(it.left() =~= it.rest(first, last, count)) by {
        if !it.finished {
            match it.state {
                FragmentationIterState::TargetReader => {
                    if num_frags_of(it.data_size) < 1 {
                        assert(it.run_messages(1) =~= Seq::empty());
                    }
                },
                FragmentationIterState::Fragments { next, .. } => {
                    if next > num_frags_of(it.data_size) {
                        assert(it.run_messages(next as int) =~= Seq::empty());
                    }
                },
                _ => {},
            }
        }
    }
}

impl FragmentationIter {
    proof fn lemma_closing(
        self,
        cc: CacheChange,
        target: Option<RtpsReaderProxy>,
        buffer: WriterSendBuffer,
        count: i32,
    )
        requires
            buffer.wf(),
            self.is_about(cc, target),
        ensures
            ({
                let ms = self.closing_messages(buffer.first_seq@, buffer.last_seq@, count);
                &&& forall|j: int|
                    0 <= j < ms.len() ==> is_message_about(#[trigger] ms[j], cc, target, buffer)
                &&& whole_samples(ms) == Seq::<int>::empty()
                &&& forall|f: int| #[trigger] times_carried(ms, f) == 0
                &&& heartbeats_in(ms) == (if self.heartbeat {
                    1nat
                } else {
                    0nat
                })
                &&& self.heartbeat ==> ms.len() == 1 && ms[0].len() == 1 && ms[0][0] is Heartbeat
            }),
    {
        let ms = self.closing_messages(buffer.first_seq@, buffer.last_seq@, count);
        reveal(WriterSendBuffer::no_holes);
        assert(advertises(buffer.first_seq@, buffer.last_seq@, buffer));
        if self.heartbeat {
            let m = ms[0];
            assert(ms =~= seq![m]);
            assert(m =~= seq![m[0]]);
            assert forall|f: int| #[trigger] times_carried(ms, f) == 0 by {
                lemma_one_part(m[0], f);
                lemma_one_message(m, f);
            }
            lemma_one_part(m[0], 0);
            lemma_one_message(m, 0);
            assert(self.reader() == entity_of(guid_of(target)));
            assert(is_message_about(m, cc, target, buffer));
        }
    }

    proof fn lemma_gap_message(
        self,
        cc: CacheChange,
        target: Option<RtpsReaderProxy>,
        buffer: WriterSendBuffer,
    )
        requires
            self.is_about(cc, target),
            self.has_gap(),
        ensures
            ({
                let m = self.address() + self.gap();
                &&& is_message_about(m, cc, target, buffer)
                &&& samples_in(m) == Seq::<int>::empty()
                &&& forall|f: int| #[trigger] times_in_message(m, f) == 0
                &&& heartbeat_count(m) == 0
                &&& tells_gaps(m)
            }),
    {
        let m = self.address() + self.gap();
        assert(m[1] is Gap);
        assert forall|f: int| #[trigger] times_in_message(m, f) == 0 by {
            self.lemma_small_parts(f);
            lemma_counts_of_two(self.address(), self.gap(), f);
        }
        self.lemma_small_parts(0);
        lemma_counts_of_two(self.address(), self.gap(), 0);
        lemma_samples_in_two(self.address(), self.gap());
        assert(samples_in(m) =~= Seq::empty());
        assert(is_message_about(m, cc, target, buffer));
    }

    proof fn lemma_rest(
        self,
        cc: CacheChange,
        target: Option<RtpsReaderProxy>,
        buffer: WriterSendBuffer,
        cursor: SampleCursor,
        count: i32,
        f: int,
    )
        requires
            buffer.wf(),
            self.wf(),
            self.is_about(cc, target),
            !self.finished,
            self.data_size <= u32::MAX,
            cursor matches SampleCursor::Frag(n) ==> n@ >= 1,
            !(self.state is Unfragmented) ==> self.data_size > 0 && self.state == (match cursor {
                SampleCursor::Fresh => FragmentationIterState::TargetReader,
                SampleCursor::Frag(start) => FragmentationIterState::Fragments {
                    next: start.value,
                    num_frags: num_frags_of(self.data_size) as u32,
                    fragment_size: FRAGMENT_SIZE,
                },
                SampleCursor::Heartbeat => FragmentationIterState::Heartbeat,
            }),
        ensures
            ({
                let ms = self.rest(buffer.first_seq@, buffer.last_seq@, count);
                let whole = self.state is Unfragmented;
                &&& forall|j: int|
                    0 <= j < ms.len() ==> is_message_about(#[trigger] ms[j], cc, target, buffer)
                &&& whole_samples(ms) == (if whole {
                    seq![cc.sequence_number@]
                } else {
                    Seq::empty()
                })
                &&& times_carried(ms, f) == (if !whole && (first_fragment(cursor) matches Some(from)
                    && from <= f) && f <= num_frags_of(self.data_size) {
                    1nat
                } else {
                    0nat
                })
                &&& heartbeats_in(ms) == (if self.heartbeat {
                    1nat
                } else {
                    0nat
                })
                &&& self.heartbeat ==> ms.len() > 0 && ms.last().len() > 0
                    && ms.last().last() is Heartbeat
                &&& (whole || cursor == SampleCursor::Fresh) && self.has_gap() ==> ms.len() > 0
                    && tells_gaps(ms[0])
            }),
    {
        let first = buffer.first_seq@;
        let last = buffer.last_seq@;
        let ms = self.rest(first, last, count);
        let n = num_frags_of(self.data_size);
        let closing = self.closing_messages(first, last, count);
        self.lemma_closing(cc, target, buffer, count);
        match self.settled() {
            FragmentationIterState::Unfragmented => {
                let m = self.whole_message(first, last, count);
                self.lemma_whole_message(cc, target, buffer, count, f);
                lemma_one_message(m, f);
            },
            FragmentationIterState::TargetReader => {
                let m = self.address() + self.gap();
                let runs = self.run_messages(1);
                assert(n >= 1);
                self.lemma_gap_message(cc, target, buffer);
                self.lemma_run_messages(cc, target, buffer, 1, f);
                lemma_one_message(m, f);
                lemma_messages_in_two(seq![m], runs, f);
                lemma_messages_in_two(seq![m] + runs, closing, f);
                assert(ms == seq![m] + runs + closing);
                assert(whole_samples(ms) =~= Seq::empty());
                assert forall|j: int| 0 <= j < ms.len() implies is_message_about(
                    #[trigger] ms[j],
                    cc,
                    target,
                    buffer,
                ) by {
                    if j > runs.len() {
                        assert(ms[j] == closing[j - 1 - runs.len()]);
                    } else if j > 0 {
                        assert(ms[j] == runs[j - 1]);
                    } else {
                        assert(ms[j] == m);
                    }
                }
                assert(ms[0] == m);
                if self.heartbeat {
                    assert(ms.last() == closing[0]);
                }
            },
            FragmentationIterState::Fragments { next, .. } => {
                let start = next as int;
                let runs = self.run_messages(start);
                self.lemma_run_messages(cc, target, buffer, start, f);
                lemma_messages_in_two(runs, closing, f);
                assert(ms == runs + closing);
                assert(whole_samples(ms) =~= Seq::empty());
                assert forall|j: int| 0 <= j < ms.len() implies is_message_about(
                    #[trigger] ms[j],
                    cc,
                    target,
                    buffer,
                ) by {
                    if j >= runs.len() {
                        assert(ms[j] == closing[j - runs.len()]);
                    } else {
                        assert(ms[j] == runs[j]);
                    }
                }
                if self.heartbeat {
                    assert(ms.last() == closing[0]);
                }
            },
            FragmentationIterState::Heartbeat => {
                if self.heartbeat {
                    assert(ms.last() == closing[0]);
                }
            },
        }
    }
}

/// Bytes of a message with `k` fragments from number `start` on.
pub open spec fn run_bytes(it: FragmentationIter, start: int, k: int) -> int {
    let stamp: int = if it.source_timestamp is Some {
        INFO_TS_SIZE as int
    } else {
        0
    };
    let address: int = if it.target is Some {
        INFO_DST_SIZE as int
    } else {
        0
    };
    let left = it.data_size - (start - 1) * FRAGMENT_SIZE;
    let carried = if k * FRAGMENT_SIZE <= left {
        k * FRAGMENT_SIZE
    } else {
        left
    };
    RTPS_HEADER_SIZE + stamp + address + DATAFRAG_SUBMESSAGE_OVERHEAD + carried
}

/// Fragments go out as many at a time as fit in a datagram, headers included: never more,
/// unless it is a single one, and never one fewer than would still fit, unless they are all
/// that are left, or as many as can be announced.
pub proof fn law_runs_fill_the_datagram(it: FragmentationIter, start: int)
    requires
        it.data_size <= u32::MAX,
        1 <= start,
        (start - 1) * FRAGMENT_SIZE < it.data_size,
    ensures
        it.run_message(start).last() matches SubmessageView::DataFrag {
            start: from,
            fragments,
            ..
        } && {
            &&& from == start
            &&& 1 <= fragments <= MAX_FRAGMENTS_IN_SUBMESSAGE
            &&& (start + fragments - 2) * FRAGMENT_SIZE < it.data_size
            &&& fragments > 1 ==> run_bytes(it, start, fragments) <= it.budget
            &&& fragments < MAX_FRAGMENTS_IN_SUBMESSAGE && (start + fragments - 1) * FRAGMENT_SIZE
                < it.data_size ==> it.budget < run_bytes(it, start, fragments + 1)
        },
{
    let n = num_frags_of(it.data_size);
    let k = it.fragments_at(start);
    let room = fragment_room(it.header_len(), it.budget as int);
    assert(start <= n);
    law_run_makes_progress(
        it.header_len(),
        it.budget as int,
        start,
        n,
        FRAGMENT_SIZE as int,
        it.data_size as int,
    );
    assert(it.run_message(start).last() == SubmessageView::DataFrag {
        reader: it.reader(),
        writer_sn: it.writer_sn@,
        start,
        fragments: k,
        fragment_size: FRAGMENT_SIZE as int,
        sample_size: it.data_size as int,
    });
}

/// A copy of a list of numbers.
pub(crate) fn copy_numbers(list: &Vec<SequenceNumber>) -> (copy: Vec<SequenceNumber>)
    ensures
        copy@ == list@,
{
    let mut copy: Vec<SequenceNumber> = Vec::new();
    let mut i: usize = 0;
    while i < list.len()
        invariant
            i <= list@.len(),
            copy@ == list@.take(i as int),
        decreases list@.len() - i,
    {
        copy.push(list[i]);
        i += 1;
        assert(list@.take(i as int) =~= list@.take(i - 1).push(list@[i - 1]));
    }
    assert(list@.take(i as int) =~= list@);
    copy
}

/// How many fragments a payload is cut into, and their size.
pub fn frags_of(payload_size: usize) -> (r: (u32, u16))
    ensures
        r.0 == num_frags_of(payload_size),
        r.1 == FRAGMENT_SIZE,
{
    let fragment_size: u32 = FRAGMENT_SIZE as u32;
    let data_size: u32 = payload_size as u32;
    let whole: u32 = data_size / fragment_size;
    if data_size % fragment_size == 0 {
        (whole, FRAGMENT_SIZE)
    } else {
        (whole + 1, FRAGMENT_SIZE)
    }
}

} // verus!
