//! What a message says, read part by part as a reader of it would.

use vstd::prelude::*;

use crate::rtps::constant::FRAGMENT_SIZE;
use crate::rtps::message::{
    SubmessageView, HEARTBEAT_SUBMESSAGE_SERIALIZED_SIZE, INFO_DST_SIZE, INFO_TS_INVALIDATE_SIZE,
    INFO_TS_SIZE,
};
use crate::rtps::writer_send_buffer::WriterSendBuffer;
use crate::structure::cache_change::CacheChange;
use crate::structure::guid::{EntityId, GuidPrefix, GUID};
use crate::structure::time::Timestamp;

verus! {

/// The source timestamp that is in force before part `i`: that of the nearest part before
/// it that sets or withdraws one.
pub open spec fn stamp_at(message: Seq<SubmessageView>, i: int) -> Option<Timestamp>
    decreases i,
{
    if i <= 0 {
        None
    } else {
        match message[i - 1] {
            SubmessageView::InfoTimestamp(stamp) => stamp,
            _ => stamp_at(message, i - 1),
        }
    }
}

/// The participant that part `i` is meant for: the one that the nearest part before it
/// names, or any.
pub open spec fn destination_at(message: Seq<SubmessageView>, i: int) -> Option<GuidPrefix>
    decreases i,
{
    if i <= 0 {
        None
    } else {
        match message[i - 1] {
            SubmessageView::InfoDestination(prefix) => Some(prefix),
            _ => destination_at(message, i - 1),
        }
    }
}

/// The number of the sample that a part carries, whole or in fragments.
pub open spec fn sample_of(part: SubmessageView) -> Option<int> {
    match part {
        SubmessageView::Data { writer_sn, .. } => Some(writer_sn),
        SubmessageView::DataFrag { writer_sn, .. } => Some(writer_sn),
        _ => None,
    }
}

/// Every sample in the message is one of `changes` and has the timestamp that it was
/// written with.
pub open spec fn well_stamped(
    message: Seq<SubmessageView>,
    changes: Map<int, CacheChange>,
) -> bool {
    forall|i: int|
        0 <= i < message.len() ==> (sample_of(#[trigger] message[i]) matches Some(sn)
            ==> changes.contains_key(sn) && stamp_at(message, i)
            == changes[sn].write_options.source_timestamp)
}

/// The numbers of the samples that go out whole, in the order of the message.
pub open spec fn samples_in(message: Seq<SubmessageView>) -> Seq<int>
    decreases message.len(),
{
    if message.len() == 0 {
        Seq::empty()
    } else {
        let before = samples_in(message.drop_last());
        match message.last() {
            SubmessageView::Data { writer_sn, .. } => before.push(writer_sn),
            _ => before,
        }
    }
}

/// The numbers from `first` to `last`.
pub open spec fn run_of_numbers(first: int, last: int) -> Seq<int> {
    Seq::new((last - first + 1) as nat, |i: int| first + i)
}

/// Bytes of one part of a message that has no fragments and tells of no gaps.
pub open spec fn part_len(part: SubmessageView, changes: Map<int, CacheChange>) -> int {
    match part {
        SubmessageView::InfoTimestamp(Some(_)) => INFO_TS_SIZE as int,
        SubmessageView::InfoTimestamp(None) => INFO_TS_INVALIDATE_SIZE as int,
        SubmessageView::InfoDestination(_) => INFO_DST_SIZE as int,
        SubmessageView::Data { writer_sn, .. } => changes[writer_sn].spec_data_submessage_len(),
        SubmessageView::Heartbeat { .. } => HEARTBEAT_SUBMESSAGE_SERIALIZED_SIZE as int,
        _ => 0,
    }
}

/// Bytes of all parts of such a message.
pub open spec fn parts_len(message: Seq<SubmessageView>, changes: Map<int, CacheChange>) -> int
    decreases message.len(),
{
    if message.len() == 0 {
        0
    } else {
        parts_len(message.drop_last(), changes) + part_len(message.last(), changes)
    }
}

/// A range of numbers names exactly the samples that the buffer retains, up to the last
/// number that was given out.
pub open spec fn advertises(first: int, last: int, buffer: WriterSendBuffer) -> bool {
    &&& last == buffer.last_seq@
    &&& first <= last + 1
    &&& forall|s: int| first <= s <= last <==> #[trigger] buffer.changes@.contains_key(s)
}

/// Every HEARTBEAT in the message advertises exactly what the buffer retains.
pub open spec fn heartbeats_are_true(
    message: Seq<SubmessageView>,
    buffer: WriterSendBuffer,
) -> bool {
    forall|i: int|
        0 <= i < message.len() ==> (#[trigger] message[i] matches SubmessageView::Heartbeat {
            first,
            last,
            ..
        } ==> advertises(first, last, buffer))
}

/// How many HEARTBEATs the message has.
pub open spec fn heartbeat_count(message: Seq<SubmessageView>) -> nat
    decreases message.len(),
{
    if message.len() == 0 {
        0
    } else {
        heartbeat_count(message.drop_last()) + (if message.last() is Heartbeat {
            1nat
        } else {
            0nat
        })
    }
}

/// Every sample or fragment in the message is of sample `cc`, with its timestamp and its
/// size, and is addressed to the given reader, or to any.
pub open spec fn speaks_of(
    message: Seq<SubmessageView>,
    cc: CacheChange,
    reader: Option<GUID>,
) -> bool {
    forall|i: int|
        0 <= i < message.len() && sample_of(#[trigger] message[i]) is Some ==> {
            &&& sample_of(message[i]) == Some(cc.sequence_number@)
            &&& stamp_at(message, i) == cc.write_options.source_timestamp
            &&& destination_at(message, i) == (match reader {
                Some(guid) => Some(guid.prefix),
                None => None,
            })
            &&& match message[i] {
                SubmessageView::Data { reader: id, .. } => id == entity_of(reader),
                SubmessageView::DataFrag { reader: id, fragment_size, sample_size, .. } => {
                    &&& id == entity_of(reader)
                    &&& fragment_size == FRAGMENT_SIZE
                    &&& sample_size == cc.data_value.spec_payload_size()
                },
                _ => true,
            }
        }
}

/// The reader that a part names: a certain one, or any.
pub open spec fn entity_of(reader: Option<GUID>) -> EntityId {
    match reader {
        Some(guid) => guid.entity_id,
        None => EntityId::unknown(),
    }
}

/// How often fragment `f` is in the message.
pub open spec fn times_in_message(message: Seq<SubmessageView>, f: int) -> nat
    decreases message.len(),
{
    if message.len() == 0 {
        0
    } else {
        times_in_message(message.drop_last(), f) + (match message.last() {
            SubmessageView::DataFrag { start, fragments, .. } => if start <= f < start + fragments {
                1nat
            } else {
                0nat
            },
            _ => 0nat,
        })
    }
}

/// How often fragment `f` is in all the messages.
pub open spec fn times_carried(messages: Seq<Seq<SubmessageView>>, f: int) -> nat
    decreases messages.len(),
{
    if messages.len() == 0 {
        0
    } else {
        times_carried(messages.drop_last(), f) + times_in_message(messages.last(), f)
    }
}

/// The numbers of the samples that go out whole in all the messages.
pub open spec fn whole_samples(messages: Seq<Seq<SubmessageView>>) -> Seq<int>
    decreases messages.len(),
{
    if messages.len() == 0 {
        Seq::empty()
    } else {
        whole_samples(messages.drop_last()) + samples_in(messages.last())
    }
}

pub(crate) proof fn lemma_stamp_of_part(a: Seq<SubmessageView>, b: Seq<SubmessageView>, i: int)
    requires
        0 <= i <= a.len(),
    ensures
        stamp_at(a + b, i) == stamp_at(a, i),
    decreases i,
{
    if i > 0 {
        assert((a + b)[i - 1] == a[i - 1]);
        lemma_stamp_of_part(a, b, i - 1);
    }
}

pub(crate) proof fn lemma_samples_in_two(a: Seq<SubmessageView>, b: Seq<SubmessageView>)
    ensures
        samples_in(a + b) == samples_in(a) + samples_in(b),
    decreases b.len(),
{
    if b.len() == 0 {
        assert(a + b =~= a);
        assert(samples_in(a) + samples_in(b) =~= samples_in(a));
    } else {
        assert((a + b).drop_last() =~= a + b.drop_last());
        assert((a + b).last() == b.last());
        lemma_samples_in_two(a, b.drop_last());
        assert(samples_in(a + b) =~= samples_in(a) + samples_in(b));
    }
}

pub(crate) proof fn lemma_parts_len_of_two(
    a: Seq<SubmessageView>,
    b: Seq<SubmessageView>,
    changes: Map<int, CacheChange>,
)
    ensures
        parts_len(a + b, changes) == parts_len(a, changes) + parts_len(b, changes),
    decreases b.len(),
{
    if b.len() == 0 {
        assert(a + b =~= a);
    } else {
        assert((a + b).drop_last() =~= a + b.drop_last());
        assert((a + b).last() == b.last());
        lemma_parts_len_of_two(a, b.drop_last(), changes);
    }
}

/// How many HEARTBEATs all the messages have.
pub open spec fn heartbeats_in(messages: Seq<Seq<SubmessageView>>) -> nat
    decreases messages.len(),
{
    if messages.len() == 0 {
        0
    } else {
        heartbeats_in(messages.drop_last()) + heartbeat_count(messages.last())
    }
}

/// Every HEARTBEAT in the message wants an answer from the given reader, or from any.
pub open spec fn heartbeats_prompt(message: Seq<SubmessageView>, reader: Option<GUID>) -> bool {
    forall|i: int|
        0 <= i < message.len() ==> (#[trigger] message[i] matches SubmessageView::Heartbeat {
            reader: id,
            final_flag,
            liveliness_flag,
            ..
        } ==> id == entity_of(reader) && !final_flag && !liveliness_flag)
}

/// Every GAP in the message tells the given reader of just the given numbers.
pub open spec fn gaps_are(
    message: Seq<SubmessageView>,
    reader: Option<GUID>,
    numbers: Set<int>,
) -> bool {
    forall|i: int|
        0 <= i < message.len() ==> match #[trigger] message[i] {
            SubmessageView::Gap { reader_guid, numbers: told } => reader == Some(reader_guid)
                && told == numbers,
            SubmessageView::GapBefore { .. } => false,
            _ => true,
        }
}

/// Does the message tell of samples that a reader will not get?
pub open spec fn tells_gaps(message: Seq<SubmessageView>) -> bool {
    exists|i: int| 0 <= i < message.len() && #[trigger] message[i] is Gap
}

pub(crate) proof fn lemma_counts_of_two(a: Seq<SubmessageView>, b: Seq<SubmessageView>, f: int)
    ensures
        times_in_message(a + b, f) == times_in_message(a, f) + times_in_message(b, f),
        heartbeat_count(a + b) == heartbeat_count(a) + heartbeat_count(b),
    decreases b.len(),
{
    if b.len() == 0 {
        assert(a + b =~= a);
    } else {
        assert((a + b).drop_last() =~= a + b.drop_last());
        assert((a + b).last() == b.last());
        lemma_counts_of_two(a, b.drop_last(), f);
    }
}

pub(crate) proof fn lemma_messages_in_two(
    a: Seq<Seq<SubmessageView>>,
    b: Seq<Seq<SubmessageView>>,
    f: int,
)
    ensures
        times_carried(a + b, f) == times_carried(a, f) + times_carried(b, f),
        heartbeats_in(a + b) == heartbeats_in(a) + heartbeats_in(b),
        whole_samples(a + b) == whole_samples(a) + whole_samples(b),
    decreases b.len(),
{
    if b.len() == 0 {
        assert(a + b =~= a);
        assert(whole_samples(a) + whole_samples(b) =~= whole_samples(a));
    } else {
        assert((a + b).drop_last() =~= a + b.drop_last());
        assert((a + b).last() == b.last());
        lemma_messages_in_two(a, b.drop_last(), f);
        assert(whole_samples(a + b) =~= whole_samples(a) + whole_samples(b));
    }
}

pub(crate) proof fn lemma_one_part(part: SubmessageView, f: int)
    ensures
        samples_in(seq![part]) == (match part {
            SubmessageView::Data { writer_sn, .. } => seq![writer_sn],
            _ => Seq::empty(),
        }),
        heartbeat_count(seq![part]) == (if part is Heartbeat {
            1nat
        } else {
            0nat
        }),
        times_in_message(seq![part], f) == (match part {
            SubmessageView::DataFrag { start, fragments, .. } => if start <= f < start + fragments {
                1nat
            } else {
                0nat
            },
            _ => 0nat,
        }),
{
    let m = seq![part];
    assert(m.drop_last() =~= Seq::empty());
    assert(m.last() == part);
    reveal_with_fuel(samples_in, 2);
    reveal_with_fuel(heartbeat_count, 2);
    reveal_with_fuel(times_in_message, 2);
    assert(Seq::<int>::empty().push(sample_of(part)->0) =~= seq![sample_of(part)->0]);
}

pub(crate) proof fn lemma_one_message(m: Seq<SubmessageView>, f: int)
    ensures
        whole_samples(seq![m]) == samples_in(m),
        heartbeats_in(seq![m]) == heartbeat_count(m),
        times_carried(seq![m], f) == times_in_message(m, f),
{
    let ms = seq![m];
    assert(ms.drop_last() =~= Seq::empty());
    assert(ms.last() == m);
    reveal_with_fuel(whole_samples, 2);
    reveal_with_fuel(heartbeats_in, 2);
    reveal_with_fuel(times_carried, 2);
    assert(Seq::<int>::empty() + samples_in(m) =~= samples_in(m));
}

} // verus!
