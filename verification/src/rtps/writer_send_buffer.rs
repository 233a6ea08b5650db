//! The flow-controlled buffer between a data writer and the sending of its samples.

use vstd::prelude::*;

use crate::dds::ddsdata::DDSData;
use crate::dds::with_key::datawriter::WriteOptions;
use crate::rtps::fragment_assembler::lesser;
use crate::structure::cache_change::CacheChange;
use crate::structure::guid::GUID;
use crate::structure::sequence_number::SequenceNumber;
use crate::structure::sorted_map::{
    from_bound, lemma_newest_bound_exists, newest, newest_bound, SortedMap,
};

verus! {

/// Names a task that waits for room in the buffer or for acknowledgements.
#[derive(Clone, Copy, Debug, PartialEq, Eq, Structural, Hash)]
pub struct WakerId {
    pub id: u64,
}

/// What came of an attempt to put a sample into the buffer.
pub enum Admission {
    /// The sample is in the buffer, under this number.
    Admitted(SequenceNumber),
    /// There was no room and the time to wait for it is over. The sample is not stored.
    WouldBlock,
    /// There is no room yet. The caller gets the sample back and tries again once
    /// somebody reports progress.
    Wait { write_options: WriteOptions, data: DDSData },
}

/// What came of an attempt to see everything acknowledged.
#[derive(Clone, Copy, Debug, PartialEq, Eq, Structural)]
pub enum AckWait {
    Acked,
    TimedOut,
    Wait,
}

/// The samples of one writer that may still have to be sent or sent again.
///
/// The application puts samples in; the sending side reports how far it got on the wire
/// and what the readers acknowledged, and evicts what is no longer needed. Whoever gets
/// a list of wakers back from an operation owes each of them a wake-up.
pub struct WriterSendBuffer {
    pub changes: SortedMap<SequenceNumber, CacheChange>,
    /// The oldest number that is still retained; the next one to be given out if there is
    /// none.
    pub first_seq: SequenceNumber,
    /// The latest number that was given out; zero if there was none.
    pub last_seq: SequenceNumber,
    /// How many samples may be unacknowledged before a reliable writer has to wait.
    pub window_limit: usize,
    /// Every matched reliable reader has acknowledged everything before this number.
    pub acked_before: SequenceNumber,
    pub reliable_readers_present: bool,
    /// How many samples may be unsent before a writer that may block has to wait.
    pub backlog_limit: usize,
    /// The highest number that went out on the wire.
    pub sent_frontier: SequenceNumber,
    /// How many samples are retained where nobody can ask for a repair.
    pub max_retain: usize,
    /// Tasks that wait for progress.
    pub wakers: Vec<WakerId>,
    pub writer_guid: GUID,
    pub reliable_writer: bool,
    pub is_builtin: bool,
    pub volatile: bool,
    pub topic_name: String,
}

impl WriterSendBuffer {
    pub open spec fn wf(self) -> bool {
        &&& self.changes@.dom().finite()
        &&& forall|s: int| #[trigger] self.changes@.contains_key(s) ==> 1 <= s <= self.last_seq@
        &&& forall|s: int| #[trigger]
            self.changes@.contains_key(s) ==> self.changes@[s].sequence_number@ == s
                && self.changes@[s].data_value.spec_payload_size() <= usize::MAX
        &&& 0 <= self.last_seq@
        &&& 0 <= self.sent_frontier@
        &&& 1 <= self.window_limit
        &&& 1 <= self.backlog_limit
        &&& 1 <= self.max_retain
        &&& self.no_holes()
    }

    /// Every sample from the first retained number to the last one is there.
    #[verifier::opaque]
    pub open spec fn no_holes(self) -> bool {
        &&& self.first_seq@ <= self.last_seq@ + 1
        &&& forall|s: int| #[trigger]
            self.changes@.contains_key(s) <==> self.first_seq@ <= s <= self.last_seq@
    }

    /// What the writer is and its limits are as in `other`.
    pub open spec fn same_config(self, other: Self) -> bool {
        &&& self.window_limit == other.window_limit
        &&& self.backlog_limit == other.backlog_limit
        &&& self.max_retain == other.max_retain
        &&& self.writer_guid == other.writer_guid
        &&& self.reliable_writer == other.reliable_writer
        &&& self.is_builtin == other.is_builtin
        &&& self.volatile == other.volatile
        &&& self.topic_name == other.topic_name
    }

    /// The samples are as in `other`.
    pub open spec fn same_samples(self, other: Self) -> bool {
        &&& self.changes@ == other.changes@
        &&& self.first_seq == other.first_seq
        &&& self.last_seq == other.last_seq
    }

    /// What was sent and acknowledged is as in `other`.
    pub open spec fn same_frontiers(self, other: Self) -> bool {
        &&& self.acked_before == other.acked_before
        &&& self.reliable_readers_present == other.reliable_readers_present
        &&& self.sent_frontier == other.sent_frontier
    }

    /// May a write with these options be held back?
    pub open spec fn may_block(self, write_options: WriteOptions) -> bool {
        self.reliable_writer || write_options.best_effort_may_block
    }

    /// Samples that were given a number and are not on the wire.
    pub open spec fn unsent(self) -> int {
        self.last_seq@ - self.sent_frontier@
    }

    /// Samples that some matched reliable reader has not acknowledged.
    pub open spec fn unacked(self) -> int {
        self.last_seq@ - self.acked_before@ + 1
    }

    /// Is there room for one more sample?
    ///
    /// Discovery is never held back, nor is a write that must not block. All others wait
    /// while the unsent backlog is full, and reliable ones also while the window of
    /// unacknowledged samples is full.
    pub open spec fn room(self, may_block: bool) -> bool {
        if self.is_builtin || !may_block {
            true
        } else if self.unsent() >= self.backlog_limit {
            false
        } else if !self.reliable_writer || !self.reliable_readers_present {
            true
        } else {
            self.unacked() < self.window_limit
        }
    }

    /// Does a new sample push out the oldest ones?
    ///
    /// It does where nobody can ask for a repair: for writes that must not block, and for
    /// a volatile reliable writer as long as no reliable reader is matched. It never does
    /// for discovery.
    pub open spec fn trims(self, may_block: bool) -> bool {
        &&& !self.is_builtin
        &&& !may_block || (self.reliable_writer && self.volatile && !self.reliable_readers_present)
    }

    /// `self` is `before` with one more sample in it.
    pub open spec fn has_inserted(
        self,
        before: Self,
        write_options: WriteOptions,
        data: DDSData,
    ) -> bool {
        let seq = before.last_seq@ + 1;
        let sample = CacheChange {
            writer_guid: before.writer_guid,
            sequence_number: SequenceNumber { value: seq as i64 },
            write_options,
            data_value: data,
        };
        let all = before.changes@.insert(seq, sample);
        let kept = before.max_retain as nat;
        let trimmed = before.trims(before.may_block(write_options)) && all.dom().len() > kept;
        &&& self.last_seq@ == seq
        &&& self.changes@ == (if trimmed {
            newest(all, kept)
        } else {
            all
        })
        &&& self.first_seq@ == (if trimmed {
            newest_bound(all, kept)
        } else {
            before.first_seq@
        })
        &&& self.same_config(before)
        &&& self.same_frontiers(before)
        &&& self.wakers == before.wakers
    }

    /// `self` is `before` with the frontier of acknowledgements set, and `woken` are the
    /// tasks to wake for it.
    pub open spec fn has_frontier(
        self,
        before: Self,
        acked_before: Option<SequenceNumber>,
        woken: Option<Vec<WakerId>>,
    ) -> bool {
        &&& self.same_samples(before)
        &&& self.same_config(before)
        &&& self.sent_frontier == before.sent_frontier
        &&& self.reliable_readers_present == acked_before is Some
        &&& self.acked_before == (match acked_before {
            Some(sn) => sn,
            None => before.acked_before,
        })
        &&& woken is Some <==> match acked_before {
            Some(sn) => sn@ > before.acked_before@ || !before.reliable_readers_present,
            None => before.reliable_readers_present,
        }
        &&& woken matches Some(w) ==> w@ == before.wakers@ && self.wakers@ == Seq::<
            WakerId,
        >::empty()
        &&& woken is None ==> self.wakers == before.wakers
    }

    /// `self` is `before` with what was sent taken over, and `woken` are the tasks to wake
    /// for it.
    pub open spec fn has_sent(
        self,
        before: Self,
        sent_frontier: int,
        woken: Option<Vec<WakerId>>,
    ) -> bool {
        &&& self.same_samples(before)
        &&& self.same_config(before)
        &&& self.acked_before == before.acked_before
        &&& self.reliable_readers_present == before.reliable_readers_present
        &&& self.sent_frontier@ == (if sent_frontier > before.sent_frontier@ {
            sent_frontier
        } else {
            before.sent_frontier@
        })
        &&& woken is Some <==> sent_frontier > before.sent_frontier@
        &&& woken matches Some(w) ==> w@ == before.wakers@ && self.wakers@ == Seq::<
            WakerId,
        >::empty()
        &&& woken is None ==> self.wakers == before.wakers
    }

    /// `self` is `before` with the samples below `remove_before` evicted. Where nothing is
    /// left, the first number is the next one to be given out.
    pub open spec fn has_removed_before(self, before: Self, remove_before: int) -> bool {
        &&& self.changes@ == from_bound(before.changes@, remove_before)
        &&& self.first_seq@ == lesser(
            greater(before.first_seq@, remove_before),
            before.last_seq@ + 1,
        )
        &&& self.last_seq == before.last_seq
        &&& self.same_config(before)
        &&& self.same_frontiers(before)
        &&& self.wakers == before.wakers
    }

    pub fn new(
        writer_guid: GUID,
        topic_name: String,
        reliable_writer: bool,
        is_builtin: bool,
        volatile: bool,
        window_limit: usize,
        backlog_limit: usize,
        max_retain: usize,
    ) -> (b: Self)
        ensures
            b.wf(),
            b.changes@ == Map::<int, CacheChange>::empty(),
            b.first_seq@ == 1,
            b.last_seq@ == 0,
            b.acked_before@ == 1,
            !b.reliable_readers_present,
            b.sent_frontier@ == 0,
            b.window_limit == at_least_one(window_limit),
            b.backlog_limit == at_least_one(backlog_limit),
            b.max_retain == at_least_one(max_retain),
            b.wakers@ == Seq::<WakerId>::empty(),
            b.writer_guid == writer_guid,
            b.reliable_writer == reliable_writer,
            b.is_builtin == is_builtin,
            b.volatile == volatile,
            b.topic_name == topic_name,
    {
        proof {
            reveal(WriterSendBuffer::no_holes);
        }
        WriterSendBuffer {
            changes: SortedMap::new(),
            first_seq: SequenceNumber::new(1),
            last_seq: SequenceNumber::new(0),
            window_limit: if window_limit == 0 { 1 } else { window_limit },
            acked_before: SequenceNumber::new(1),
            reliable_readers_present: false,
            backlog_limit: if backlog_limit == 0 { 1 } else { backlog_limit },
            sent_frontier: SequenceNumber::new(0),
            max_retain: if max_retain == 0 { 1 } else { max_retain },
            wakers: Vec::new(),
            writer_guid,
            reliable_writer,
            is_builtin,
            volatile,
            topic_name,
        }
    }

    fn has_room(&self, may_block: bool) -> (r: bool)
        ensures
            r == self.room(may_block),
    {
        if self.is_builtin {
            return true;
        }
        if !may_block {
            return true;
        }
        let unsent: i128 = self.last_seq.value as i128 - self.sent_frontier.value as i128;
        if unsent >= self.backlog_limit as i128 {
            return false;
        }
        if !self.reliable_writer || !self.reliable_readers_present {
            return true;
        }
        let unacked: i128 = self.last_seq.value as i128 - self.acked_before.value as i128 + 1;
        unacked < self.window_limit as i128
    }

    /// Hands out the tasks that wait, so that the caller can wake them.
    fn wake_all(&mut self) -> (woken: Vec<WakerId>)
        ensures
            woken@ == old(self).wakers@,
            final(self).wakers@ == Seq::<WakerId>::empty(),
            final(self).same_samples(*old(self)),
            final(self).same_frontiers(*old(self)),
            final(self).same_config(*old(self)),
    {
        let mut woken: Vec<WakerId> = Vec::new();
        std::mem::swap(&mut woken, &mut self.wakers);
        woken
    }

    /// Admission of a sample by a writer that is ready to wait. `expired` tells whether
    /// the time to wait is over; where it is not, a full buffer gives the sample back and
    /// the caller tries again once there was progress.
    pub fn admit_blocking(
        &mut self,
        write_options: WriteOptions,
        data: DDSData,
        expired: bool,
    ) -> (r: Admission)
        requires
            old(self).wf(),
            old(self).last_seq@ < i64::MAX,
            data.spec_payload_size() <= usize::MAX,
        ensures
            final(self).wf(),
            r is Admitted <==> old(self).room(old(self).may_block(write_options)),
            r matches Admission::Admitted(sn) ==> sn == final(self).last_seq
                && final(self).has_inserted(*old(self), write_options, data),
            r is WouldBlock <==> expired && !old(self).room(old(self).may_block(write_options)),
            r matches Admission::Wait { write_options: o, data: d } ==> o == write_options && d
                == data,
            !(r is Admitted) ==> *final(self) == *old(self),
    {
        proof {
            reveal(WriterSendBuffer::no_holes);
        }
        let may_block: bool = self.reliable_writer || write_options.best_effort_may_block();
        if self.has_room(may_block) {
            let seq: SequenceNumber = self.insert_locked(write_options, data, may_block);
            Admission::Admitted(seq)
        } else if expired {
            Admission::WouldBlock
        } else {
            Admission::Wait { write_options, data }
        }
    }

    /// Admission of a sample by a writer that does not wait. Where there is no room, the
    /// caller gets the sample back and `waker` is kept, to be woken once there was
    /// progress.
    pub fn try_admit(
        &mut self,
        write_options: WriteOptions,
        data: DDSData,
        waker: WakerId,
    ) -> (r: Result<SequenceNumber, (WriteOptions, DDSData)>)
        requires
            old(self).wf(),
            old(self).last_seq@ < i64::MAX,
            data.spec_payload_size() <= usize::MAX,
        ensures
            final(self).wf(),
            r is Ok <==> old(self).room(old(self).may_block(write_options)),
            r matches Ok(sn) ==> sn == final(self).last_seq && final(self).has_inserted(
                *old(self),
                write_options,
                data,
            ),
            r matches Err((o, d)) ==> o == write_options && d == data && final(self).same_samples(
                *old(self),
            ) && final(self).same_frontiers(*old(self)) && final(self).same_config(*old(self))
                && final(self).wakers@ == with_waker(old(self).wakers@, waker),
    {
        proof {
            reveal(WriterSendBuffer::no_holes);
        }
        let may_block: bool = self.reliable_writer || write_options.best_effort_may_block();
        if self.has_room(may_block) {
            Ok(self.insert_locked(write_options, data, may_block))
        } else {
            register_waker(&mut self.wakers, waker);
            Err((write_options, data))
        }
    }

    fn insert_locked(
        &mut self,
        write_options: WriteOptions,
        data: DDSData,
        may_block: bool,
    ) -> (seq: SequenceNumber)
        requires
            old(self).wf(),
            old(self).last_seq@ < i64::MAX,
            data.spec_payload_size() <= usize::MAX,
            may_block == old(self).may_block(write_options),
        ensures
            final(self).wf(),
            seq == final(self).last_seq,
            final(self).has_inserted(*old(self), write_options, data),
    {
        proof {
            reveal(WriterSendBuffer::no_holes);
        }
        let seq: SequenceNumber = self.last_seq.plus_1();
        let cc: CacheChange = CacheChange::new(self.writer_guid, seq, write_options, data);
        self.changes.insert(seq, cc);
        self.last_seq = seq;
        let ghost all = self.changes@;
        let trim_keep_last: bool = !self.is_builtin && (!may_block || (self.reliable_writer
            && self.volatile && !self.reliable_readers_present));
        if trim_keep_last {
            let kept: usize = self.max_retain;
            if let Some(oldest) = self.changes.keep_newest(kept) {
                assert(all.contains_key(oldest@));
                assert(oldest@ < seq@) by {
                    if oldest@ == seq@ {
                        assert(from_bound(all, oldest@ + 1).dom() =~= Set::empty());
                    }
                }
                self.first_seq = oldest.plus_1();
                assert(self.changes@ == from_bound(all, self.first_seq@));
            }
        }
        seq
    }

    /// Takes over how far the matched reliable readers have acknowledged: all of them
    /// everything before `acked_before`; `None` if there is no reliable reader. Gives the
    /// tasks to wake where this may let somebody go on.
    pub fn set_acked_frontier(&mut self, acked_before: Option<SequenceNumber>) -> (woken: Option<
        Vec<WakerId>,
    >)
        requires
            old(self).wf(),
        ensures
            final(self).wf(),
            final(self).has_frontier(*old(self), acked_before, woken),
    {
        proof {
            reveal(WriterSendBuffer::no_holes);
        }
        let advanced: bool = match acked_before {
            Some(sn) => {
                let adv: bool = sn.value > self.acked_before.value
                    || !self.reliable_readers_present;
                self.acked_before = sn;
                self.reliable_readers_present = true;
                adv
            },
            None => {
                let adv: bool = self.reliable_readers_present;
                self.reliable_readers_present = false;
                adv
            },
        };
        if advanced {
            Some(self.wake_all())
        } else {
            None
        }
    }

    /// Takes over how far the samples went out on the wire. Gives the tasks to wake where
    /// this is progress.
    pub fn set_sent_frontier(&mut self, sent_frontier: SequenceNumber) -> (woken: Option<
        Vec<WakerId>,
    >)
        requires
            old(self).wf(),
        ensures
            final(self).wf(),
            final(self).has_sent(*old(self), sent_frontier@, woken),
    {
        proof {
            reveal(WriterSendBuffer::no_holes);
        }
        if sent_frontier.value > self.sent_frontier.value {
            self.sent_frontier = sent_frontier;
            Some(self.wake_all())
        } else {
            None
        }
    }

    /// The number of the latest sample; zero if there was none.
    pub fn last_change_sequence_number(&self) -> (sn: SequenceNumber)
        ensures
            sn == self.last_seq,
    {
        self.last_seq
    }

    /// How many samples are retained.
    pub fn retained_len(&self) -> (n: usize)
        ensures
            n == self.changes@.dom().len(),
    {
        self.changes.len()
    }

    /// The lowest number that is still retained, or the next one to be written if none
    /// is.
    pub fn first_change_sequence_number(&self) -> (sn: SequenceNumber)
        ensures
            sn == self.first_seq,
    {
        self.first_seq
    }

    /// A copy of the sample with the given number, if it is retained.
    pub fn get_by_sn(&self, sn: SequenceNumber) -> (r: Option<CacheChange>)
        ensures
            r is Some <==> self.changes@.contains_key(sn@),
            r matches Some(cc) ==> cc.same_content(self.changes@[sn@]),
    {
        match self.changes.get(&sn) {
            Some(cc) => Some(cc.clone()),
            None => None,
        }
    }

    /// Evicts the samples with numbers below `remove_before`.
    pub fn remove_changes_before(&mut self, remove_before: SequenceNumber)
        requires
            old(self).wf(),
        ensures
            final(self).wf(),
            final(self).has_removed_before(*old(self), remove_before@),
    {
        proof {
            reveal(WriterSendBuffer::no_holes);
        }
        self.changes.drop_before(&remove_before);
        if remove_before.value > self.first_seq.value {
            self.first_seq = remove_before;
        }
        if self.first_seq.value > self.last_seq.value {
            self.first_seq = self.last_seq.plus_1();
        }
    }

    /// Has every matched reliable reader acknowledged everything up to and with `target`?
    pub open spec fn acked_through(self, target: int) -> bool {
        !self.reliable_readers_present || self.acked_before@ > target
    }

    pub fn is_acked_through(&self, target: SequenceNumber) -> (r: bool)
        ensures
            r == self.acked_through(target@),
    {
        !self.reliable_readers_present || self.acked_before.value > target.value
    }

    /// One look at whether everything up to `target` is acknowledged, by a caller that is
    /// ready to wait. `expired` tells whether the time to wait is over.
    pub fn wait_for_acked_through(&self, target: SequenceNumber, expired: bool) -> (r: AckWait)
        ensures
            r is Acked <==> self.acked_through(target@),
            r is TimedOut <==> !self.acked_through(target@) && expired,
            r is Wait <==> !self.acked_through(target@) && !expired,
    {
        if self.is_acked_through(target) {
            AckWait::Acked
        } else if expired {
            AckWait::TimedOut
        } else {
            AckWait::Wait
        }
    }

    /// Keeps `waker`, to be woken when acknowledgements come in.
    pub fn register_ack_waker(&mut self, waker: WakerId)
        requires
            old(self).wf(),
        ensures
            final(self).wf(),
            final(self).same_samples(*old(self)),
            final(self).same_frontiers(*old(self)),
            final(self).same_config(*old(self)),
            final(self).wakers@ == with_waker(old(self).wakers@, waker),
    {
        proof {
            reveal(WriterSendBuffer::no_holes);
        }
        register_waker(&mut self.wakers, waker);
    }
}

/// The greater of two numbers.
pub open spec fn greater(a: int, b: int) -> int {
    if a >= b {
        a
    } else {
        b
    }
}

/// A limit of zero counts as one.
pub open spec fn at_least_one(limit: usize) -> usize {
    if limit == 0 {
        1
    } else {
        limit
    }
}

/// `wakers` with `waker` among them, once.
pub open spec fn with_waker(wakers: Seq<WakerId>, waker: WakerId) -> Seq<WakerId> {
    if wakers.contains(waker) {
        wakers
    } else {
        wakers.push(waker)
    }
}

/// Adds a waker to the list, unless it is there already.
pub fn register_waker(wakers: &mut Vec<WakerId>, waker: WakerId)
    ensures
        final(wakers)@ == with_waker(old(wakers)@, waker),
{
    let mut i: usize = 0;
    while i < wakers.len()
        invariant
            wakers@ == old(wakers)@,
            i <= wakers@.len(),
            forall|j: int| 0 <= j < i ==> wakers@[j] != waker,
        decreases wakers@.len() - i,
    {
        if wakers[i] == waker {
            assert(wakers@[i as int] == waker);
            return;
        }
        i += 1;
    }
    wakers.push(waker);
}

/// A sample that was admitted can be fetched again under its number, with the options
/// and the content that it was written with.
pub proof fn law_admitted_sample_is_retained(
    before: WriterSendBuffer,
    after: WriterSendBuffer,
    write_options: WriteOptions,
    data: DDSData,
)
    requires
        before.wf(),
        before.last_seq@ < i64::MAX,
        after.has_inserted(before, write_options, data),
    ensures
        after.changes@.contains_key(after.last_seq@),
        after.changes@[after.last_seq@].sequence_number == after.last_seq,
        after.changes@[after.last_seq@].write_options == write_options,
        after.changes@[after.last_seq@].data_value == data,
{
    let seq = before.last_seq@ + 1;
    let sample = CacheChange {
        writer_guid: before.writer_guid,
        sequence_number: SequenceNumber { value: seq as i64 },
        write_options,
        data_value: data,
    };
    let all = before.changes@.insert(seq, sample);
    let kept = before.max_retain as nat;
    if all.dom().len() > kept {
        lemma_newest_bound_exists(all, kept);
        let b = newest_bound(all, kept);
        if b == seq + 1 {
            assert(from_bound(all, b).dom() =~= Set::empty());
        }
    }
}

/// A write that must not block, or one of discovery, is never held back, however many
/// samples are unsent or unacknowledged.
pub proof fn law_never_throttled(buffer: WriterSendBuffer, write_options: WriteOptions)
    requires
        buffer.is_builtin || !buffer.may_block(write_options),
    ensures
        buffer.room(buffer.may_block(write_options)),
{
}

/// Where a new sample pushes out the oldest ones, no more samples are retained than the
/// retain limit allows, and those retained are the newest: whatever is gone has a lower
/// number than whatever is left.
pub proof fn law_trimming_keeps_the_newest(
    before: WriterSendBuffer,
    after: WriterSendBuffer,
    write_options: WriteOptions,
    data: DDSData,
)
    requires
        before.wf(),
        before.last_seq@ < i64::MAX,
        before.trims(before.may_block(write_options)),
        after.has_inserted(before, write_options, data),
    ensures
        after.changes@.dom().len() <= after.max_retain,
        forall|gone: int, left: int|
            before.changes@.contains_key(gone) && !after.changes@.contains_key(gone)
                && after.changes@.contains_key(left) ==> gone < left,
{
    let seq = before.last_seq@ + 1;
    let sample = CacheChange {
        writer_guid: before.writer_guid,
        sequence_number: SequenceNumber { value: seq as i64 },
        write_options,
        data_value: data,
    };
    let all = before.changes@.insert(seq, sample);
    let kept = before.max_retain as nat;
    if all.dom().len() > kept {
        lemma_newest_bound_exists(all, kept);
    }
}

/// Where a new sample pushes nothing out, everything that was retained still is.
pub proof fn law_without_trimming_nothing_is_lost(
    before: WriterSendBuffer,
    after: WriterSendBuffer,
    write_options: WriteOptions,
    data: DDSData,
)
    requires
        before.wf(),
        !before.trims(before.may_block(write_options)),
        after.has_inserted(before, write_options, data),
    ensures
        forall|s: int| #[trigger]
            before.changes@.contains_key(s) ==> after.changes@.contains_key(s)
                && after.changes@[s] == before.changes@[s],
        after.changes@.dom().len() == before.changes@.dom().len() + 1,
        after.first_seq == before.first_seq,
{
}

/// A sample that a reliable writer had room for leaves no more samples unacknowledged
/// than the window allows, and no more unsent than the backlog limit allows.
pub proof fn law_admission_respects_the_limits(
    before: WriterSendBuffer,
    after: WriterSendBuffer,
    write_options: WriteOptions,
    data: DDSData,
)
    requires
        before.wf(),
        !before.is_builtin,
        before.may_block(write_options),
        before.backlog_limit <= i64::MAX,
        before.window_limit <= i64::MAX,
        before.room(true),
        after.has_inserted(before, write_options, data),
    ensures
        after.unsent() <= after.backlog_limit,
        after.reliable_writer && after.reliable_readers_present ==> after.unacked()
            <= after.window_limit,
{
}

/// The first number is the lowest that is retained, or the next one to be given out where
/// nothing is.
pub proof fn law_first_number_is_the_lowest(buffer: WriterSendBuffer)
    requires
        buffer.wf(),
    ensures
        buffer.changes@ == Map::<int, CacheChange>::empty() ==> buffer.first_seq@
            == buffer.last_seq@ + 1,
        buffer.changes@ != Map::<int, CacheChange>::empty() ==> buffer.changes@.contains_key(
            buffer.first_seq@,
        ),
        forall|s: int| #[trigger] buffer.changes@.contains_key(s) ==> buffer.first_seq@ <= s,
{
    reveal(WriterSendBuffer::no_holes);
    if buffer.changes@ == Map::<int, CacheChange>::empty() {
        assert(!buffer.changes@.contains_key(buffer.first_seq@));
    } else if !buffer.changes@.contains_key(buffer.first_seq@) {
        assert(buffer.changes@ =~= Map::<int, CacheChange>::empty());
    }
}

/// Numbers are given out one after the other, and none twice.
pub proof fn law_numbers_go_up(
    before: WriterSendBuffer,
    after: WriterSendBuffer,
    write_options: WriteOptions,
    data: DDSData,
)
    requires
        before.wf(),
        after.has_inserted(before, write_options, data),
    ensures
        after.last_seq@ == before.last_seq@ + 1,
        !before.changes@.contains_key(after.last_seq@),
{
}

/// No waiter is forgotten: where acknowledgements make room, or complete what somebody
/// waits for, everybody who waits is woken.
pub proof fn law_acknowledgements_wake_the_waiters(
    before: WriterSendBuffer,
    after: WriterSendBuffer,
    acked_before: Option<SequenceNumber>,
    woken: Option<Vec<WakerId>>,
    target: int,
)
    requires
        after.has_frontier(before, acked_before, woken),
        (!before.room(true) && after.room(true)) || (!before.acked_through(target)
            && after.acked_through(target)),
    ensures
        woken matches Some(w) && w@ == before.wakers@,
{
}

/// Where sending makes room, everybody who waits is woken.
pub proof fn law_sending_wakes_the_waiters(
    before: WriterSendBuffer,
    after: WriterSendBuffer,
    sent_frontier: int,
    woken: Option<Vec<WakerId>>,
)
    requires
        after.has_sent(before, sent_frontier, woken),
        !before.room(true) && after.room(true),
    ensures
        woken matches Some(w) && w@ == before.wakers@,
{
}

/// A sample is held back in two cases only: where as many samples as the backlog takes are
/// not on the wire yet, or where as many as the window takes are not acknowledged by some
/// reliable reader. Only a write that may wait is held back, and never one of discovery.
pub proof fn law_only_full_limits_hold_back(buffer: WriterSendBuffer, write_options: WriteOptions)
    ensures
        ({
            let waits = !buffer.is_builtin && (buffer.reliable_writer
                || write_options.best_effort_may_block);
            let backlog_full = buffer.sent_frontier@ + buffer.backlog_limit <= buffer.last_seq@;
            let window_full = buffer.reliable_writer && buffer.reliable_readers_present
                && buffer.acked_before@ + buffer.window_limit <= buffer.last_seq@ + 1;
            buffer.room(buffer.may_block(write_options)) <==> !(waits && (backlog_full
                || window_full))
        }),
{
}

/// A new sample pushes older ones out only where nobody can ask for them again: where the
/// write must not wait, or where a reliable writer that is volatile has no reliable reader.
/// Even there as many samples stay as the retain limit allows. Discovery keeps everything.
pub proof fn law_samples_stay_while_they_may_be_asked_for(
    before: WriterSendBuffer,
    after: WriterSendBuffer,
    write_options: WriteOptions,
    data: DDSData,
)
    requires
        before.wf(),
        before.last_seq@ < i64::MAX,
        after.has_inserted(before, write_options, data),
    ensures
        ({
            let waits = before.reliable_writer || write_options.best_effort_may_block;
            let pushes = !before.is_builtin && (!waits || (before.reliable_writer
                && before.volatile && !before.reliable_readers_present));
            let all = before.changes@.dom().len() + 1;
            &&& after.changes@.dom().len() == (if pushes && all > before.max_retain {
                before.max_retain as nat
            } else {
                all
            })
            &&& !pushes ==> forall|s: int| #[trigger]
                before.changes@.contains_key(s) ==> after.changes@.contains_key(s)
            &&& forall|s: int| #[trigger]
                after.changes@.contains_key(s) && s != after.last_seq@
                    ==> before.changes@.contains_key(s) && after.changes@[s] == before.changes@[s]
        }),
{
    law_admitted_sample_is_retained(before, after, write_options, data);
    let seq = before.last_seq@ + 1;
    let sample = CacheChange {
        writer_guid: before.writer_guid,
        sequence_number: SequenceNumber { value: seq as i64 },
        write_options,
        data_value: data,
    };
    let all = before.changes@.insert(seq, sample);
    assert(!before.changes@.contains_key(seq));
    assert(all.dom() =~= before.changes@.dom().insert(seq));
    let kept = before.max_retain as nat;
    if all.dom().len() > kept {
        lemma_newest_bound_exists(all, kept);
    }
}

/// Everything up to a number counts as acknowledged exactly if all before a higher number
/// was reported as acknowledged, or if there is no reliable reader. What was reported as
/// sent never goes back.
pub proof fn law_frontiers_are_as_reported(
    before: WriterSendBuffer,
    after: WriterSendBuffer,
    acked_before: Option<SequenceNumber>,
    woken: Option<Vec<WakerId>>,
    sent: WriterSendBuffer,
    sent_frontier: int,
    sent_woken: Option<Vec<WakerId>>,
    target: int,
)
    requires
        after.has_frontier(before, acked_before, woken),
        sent.has_sent(before, sent_frontier, sent_woken),
    ensures
        after.acked_through(target) <==> (acked_before matches Some(sn) ==> target < sn@),
        after.changes@ == before.changes@,
        sent.changes@ == before.changes@,
        sent.sent_frontier@ >= before.sent_frontier@,
        sent.sent_frontier@ >= sent_frontier,
        sent.sent_frontier@ == before.sent_frontier@ || sent.sent_frontier@ == sent_frontier,
        sent.acked_through(target) == before.acked_through(target),
{
}

/// Everybody who waits is woken once at most, and whoever is not woken still waits.
pub proof fn law_no_waiter_is_forgotten(
    before: WriterSendBuffer,
    after: WriterSendBuffer,
    acked_before: Option<SequenceNumber>,
    woken: Option<Vec<WakerId>>,
    waker: WakerId,
)
    requires
        after.has_frontier(before, acked_before, woken),
    ensures
        before.wakers@.contains(waker) ==> after.wakers@.contains(waker) || (woken matches Some(w)
            && w@.contains(waker)),
        with_waker(before.wakers@, waker).contains(waker),
        forall|w: WakerId| #[trigger]
            before.wakers@.contains(w) ==> with_waker(before.wakers@, waker).contains(w),
{
    let more = with_waker(before.wakers@, waker);
    assert(more.contains(waker)) by {
        if !before.wakers@.contains(waker) {
            assert(more[before.wakers@.len() as int] == waker);
        }
    }
    assert forall|w: WakerId| #[trigger] before.wakers@.contains(w) implies more.contains(w) by {
        let i = choose|i: int| 0 <= i < before.wakers@.len() && before.wakers@[i] == w;
        assert(more[i] == w);
    }
}

/// Eviction takes exactly the samples below a number, and leaves the rest as it is.
pub proof fn law_eviction_takes_what_is_below(
    before: WriterSendBuffer,
    after: WriterSendBuffer,
    bound: int,
)
    requires
        before.wf(),
        after.has_removed_before(before, bound),
    ensures
        forall|s: int| #[trigger]
            after.changes@.contains_key(s) <==> before.changes@.contains_key(s) && bound <= s,
        forall|s: int| #[trigger]
            after.changes@.contains_key(s) ==> after.changes@[s] == before.changes@[s],
        after.last_seq == before.last_seq,
        after.first_seq@ <= after.last_seq@ + 1,
        forall|s: int| #[trigger]
            after.changes@.contains_key(s) <==> after.first_seq@ <= s <= after.last_seq@,
{
    reveal(WriterSendBuffer::no_holes);
}

} // verus!
