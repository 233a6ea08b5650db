//! What a reader knows about one matched remote writer.

use vstd::prelude::*;

use crate::rtps::constant::MAX_TRACKED_CHANGES_PER_WRITER;
use crate::rtps::discovered::{announced_or_default, discovered_or_default, DiscoveredWriterData};
use crate::structure::guid::{EntityId, GUID};
use crate::structure::locator::Locator;
use crate::structure::sequence_number::SequenceNumber;
use crate::structure::sorted_map::{from_bound, newest_bound, SortedMap};
use crate::structure::time::Timestamp;

verus! {

/// What a reader tracks of the samples of one writer.
///
/// Every sequence number below the acknowledgement base is accounted for. At or above
/// it, a number is accounted for when it is in the map of changes: with a timestamp if
/// the sample was received, without one if the writer said that it is not available.
pub struct RtpsWriterProxy {
    /// Identifies the remote matched writer.
    pub remote_writer_guid: GUID,
    /// Addresses for unicast to the writer.
    pub unicast_locator_list: Vec<Locator>,
    /// Addresses for multicast to the writer.
    pub multicast_locator_list: Vec<Locator>,
    /// Identifies the group to which the writer belongs.
    pub remote_group_entity_id: EntityId,
    pub received_heartbeat_count: i32,
    pub sent_ack_nack_count: i32,
    /// The numbers at or above the acknowledgement base that are accounted for.
    pub changes: SortedMap<SequenceNumber, Option<Timestamp>>,
    /// Everything below this number can be acknowledged.
    pub ack_base: SequenceNumber,
    /// The highest number of a received sample; zero if there was none.
    pub last_received_sequence_number: SequenceNumber,
    /// When the sample with the highest number came in.
    pub last_received_timestamp: Timestamp,
}

/// `b` is the first number at or above `base` that is not a key of `changes`.
pub open spec fn is_first_missing<V>(changes: Map<int, V>, base: int, b: int) -> bool {
    &&& base <= b
    &&& !changes.contains_key(b)
    &&& forall|s: int| base <= s < b ==> #[trigger] changes.contains_key(s)
}

pub open spec fn first_missing<V>(changes: Map<int, V>, base: int) -> int {
    choose|b: int| is_first_missing(changes, base, b)
}

/// `changes` with a number accounted for. One that was received stays received, and one
/// that is not available stays so.
pub open spec fn with_state(
    changes: Map<int, Option<Timestamp>>,
    sn: int,
    state: Option<Timestamp>,
) -> Map<int, Option<Timestamp>> {
    if changes.contains_key(sn) {
        changes
    } else {
        changes.insert(sn, state)
    }
}

/// `changes` with the numbers from `from` up to but not with `to` marked as not
/// available, but for those that are accounted for already.
pub open spec fn with_range(
    changes: Map<int, Option<Timestamp>>,
    from: int,
    to: int,
) -> Map<int, Option<Timestamp>> {
    Map::new(
        |s: int| changes.contains_key(s) || from <= s < to,
        |s: int|
            if changes.contains_key(s) {
                changes[s]
            } else {
                None
            },
    )
}

/// Where the acknowledgement base is once the cap on `changes` is enforced: it moves
/// only where there are too many changes, and then past the oldest ones.
pub open spec fn capped_base<V>(changes: Map<int, V>, base: int) -> int {
    let cap = MAX_TRACKED_CHANGES_PER_WRITER as nat;
    if changes.dom().len() <= cap || newest_bound(changes, cap) <= base {
        base
    } else {
        newest_bound(changes, cap)
    }
}

proof fn lemma_first_missing_unique<V>(changes: Map<int, V>, base: int, b: int)
    requires
        is_first_missing(changes, base, b),
    ensures
        first_missing(changes, base) == b,
{
    let c = first_missing(changes, base);
    assert(is_first_missing(changes, base, c));
    if c < b {
        assert(changes.contains_key(c));
    } else if b < c {
        assert(changes.contains_key(b));
    }
}

impl RtpsWriterProxy {
    pub open spec fn wf(self) -> bool {
        &&& self.changes@.dom().finite()
        &&& forall|s: int| #[trigger]
            self.changes@.contains_key(s) ==> self.ack_base@ <= s < i64::MAX
        &&& 1 <= self.ack_base@
        &&& 0 <= self.last_received_sequence_number@
        &&& forall|s: int| #[trigger]
            self.changes@.contains_key(s) && self.changes@[s] is Some ==> s
                <= self.last_received_sequence_number@
    }

    /// Is the acknowledgement base the first number that is not accounted for? It is,
    /// unless the cap on the tracked changes has moved it.
    pub open spec fn settled(self) -> bool {
        !self.changes@.contains_key(self.ack_base@)
    }

    /// The changes after a sample was received, before the cap on them is enforced, and
    /// the acknowledgement base.
    pub open spec fn with_received(self, sn: int, t: Timestamp) -> (
        Map<int, Option<Timestamp>>,
        int,
    ) {
        let added = with_state(self.changes@, sn, Some(t));
        if sn == self.ack_base@ {
            let base = first_missing(added, sn);
            (from_bound(added, base), base)
        } else {
            (added, self.ack_base@)
        }
    }

    /// `self` is `before` after a sample was received.
    pub open spec fn has_received(self, before: Self, sn: int, t: Timestamp) -> bool {
        let (held, base) = before.with_received(sn, t);
        &&& self.ack_base@ == capped_base(held, base)
        &&& self.changes@ == from_bound(held, self.ack_base@)
        &&& if sn > before.last_received_sequence_number@ {
            &&& self.last_received_sequence_number@ == sn
            &&& self.last_received_timestamp == t
        } else {
            self.same_deadline(before)
        }
        &&& self.same_profile(before)
    }

    /// `self` is `before` after a number was announced as not available.
    pub open spec fn has_noted(self, before: Self, sn: int) -> bool {
        let added = with_state(before.changes@, sn, None);
        &&& if sn < before.ack_base@ {
            self.ack_base@ == before.ack_base@ && self.changes@ == before.changes@
        } else if sn > before.ack_base@ {
            self.ack_base@ == before.ack_base@ && self.changes@ == added
        } else {
            &&& self.ack_base@ == first_missing(added, sn)
            &&& self.changes@ == from_bound(added, self.ack_base@)
        }
        &&& self.same_deadline(before)
        &&& self.same_profile(before)
    }

    /// `self` is `before` after the numbers from `from` up to but not with `to` were
    /// announced as not available.
    pub open spec fn has_noted_range(self, before: Self, from: int, to: int) -> bool {
        &&& if from > to || (from <= before.ack_base@ && to <= before.ack_base@) {
            self.ack_base@ == before.ack_base@ && self.changes@ == before.changes@
        } else if from <= before.ack_base@ {
            &&& self.ack_base@ == first_missing(from_bound(before.changes@, to), to)
            &&& self.changes@ == from_bound(before.changes@, self.ack_base@)
        } else {
            let marked = with_range(before.changes@, from, to);
            &&& self.ack_base@ == capped_base(marked, before.ack_base@)
            &&& self.changes@ == from_bound(marked, self.ack_base@)
        }
        &&& self.same_deadline(before)
        &&& self.same_profile(before)
    }

    /// Is this sequence number accounted for, as received or as not available?
    pub open spec fn known(self, sn: int) -> bool {
        sn < self.ack_base@ || self.changes@.contains_key(sn)
    }

    /// Who and where the writer is, and the counts of protocol messages, are as in
    /// `other`.
    pub open spec fn same_profile(self, other: Self) -> bool {
        &&& self.remote_writer_guid == other.remote_writer_guid
        &&& self.unicast_locator_list == other.unicast_locator_list
        &&& self.multicast_locator_list == other.multicast_locator_list
        &&& self.remote_group_entity_id == other.remote_group_entity_id
        &&& self.received_heartbeat_count == other.received_heartbeat_count
        &&& self.sent_ack_nack_count == other.sent_ack_nack_count
    }

    /// The tracking of samples is as in `other`.
    pub open spec fn same_tracking(self, other: Self) -> bool {
        &&& self.changes@ == other.changes@
        &&& self.ack_base@ == other.ack_base@
        &&& self.last_received_sequence_number@ == other.last_received_sequence_number@
        &&& self.last_received_timestamp == other.last_received_timestamp
    }

    /// The time of the last received sample is as in `other`.
    pub open spec fn same_deadline(self, other: Self) -> bool {
        &&& self.last_received_sequence_number@ == other.last_received_sequence_number@
        &&& self.last_received_timestamp == other.last_received_timestamp
    }

    pub fn new(
        remote_writer_guid: GUID,
        unicast_locator_list: Vec<Locator>,
        multicast_locator_list: Vec<Locator>,
        remote_group_entity_id: EntityId,
    ) -> (p: Self)
        ensures
            p.wf(),
            p.remote_writer_guid == remote_writer_guid,
            p.unicast_locator_list == unicast_locator_list,
            p.multicast_locator_list == multicast_locator_list,
            p.remote_group_entity_id == remote_group_entity_id,
            p.received_heartbeat_count == 0,
            p.sent_ack_nack_count == 0,
            p.changes@ == Map::<int, Option<Timestamp>>::empty(),
            p.ack_base@ == 1,
            p.last_received_sequence_number@ == 0,
            p.last_received_timestamp == Timestamp::invalid(),
    {
        RtpsWriterProxy {
            remote_writer_guid,
            unicast_locator_list,
            multicast_locator_list,
            remote_group_entity_id,
            received_heartbeat_count: 0,
            sent_ack_nack_count: 0,
            changes: SortedMap::new(),
            ack_base: SequenceNumber::new(1),
            last_received_sequence_number: SequenceNumber::new(0),
            last_received_timestamp: Timestamp::invalid(),
        }
    }

    /// The count for the next ACKNACK message.
    pub fn next_ack_nack_sequence_number(&mut self) -> (c: i32)
        requires
            old(self).sent_ack_nack_count < i32::MAX,
        ensures
            c == old(self).sent_ack_nack_count,
            final(self).sent_ack_nack_count == c + 1,
            final(self).same_tracking(*old(self)),
            final(self).remote_writer_guid == old(self).remote_writer_guid,
            final(self).unicast_locator_list == old(self).unicast_locator_list,
            final(self).multicast_locator_list == old(self).multicast_locator_list,
            final(self).remote_group_entity_id == old(self).remote_group_entity_id,
            final(self).received_heartbeat_count == old(self).received_heartbeat_count,
    {
        let c: i32 = self.sent_ack_nack_count;
        self.sent_ack_nack_count = c + 1;
        c
    }

    /// A bound below which everything can be acknowledged: it was received as DATA or
    /// announced in a GAP.
    pub fn all_ackable_before(&self) -> (sn: SequenceNumber)
        ensures
            sn@ == self.ack_base@,
    {
        self.ack_base
    }

    /// Takes over where the writer can be reached and its group.
    pub fn update_contents(&mut self, other: Self)
        ensures
            final(self).unicast_locator_list == other.unicast_locator_list,
            final(self).multicast_locator_list == other.multicast_locator_list,
            final(self).remote_group_entity_id == other.remote_group_entity_id,
            final(self).remote_writer_guid == old(self).remote_writer_guid,
            final(self).received_heartbeat_count == old(self).received_heartbeat_count,
            final(self).sent_ack_nack_count == old(self).sent_ack_nack_count,
            final(self).same_tracking(*old(self)),
    {
        self.unicast_locator_list = other.unicast_locator_list;
        self.multicast_locator_list = other.multicast_locator_list;
        self.remote_group_entity_id = other.remote_group_entity_id;
    }

    /// When the latest sample came in, for the deadline policy.
    pub fn last_change_timestamp(&self) -> (r: Option<Timestamp>)
        ensures
            r == (if self.last_received_sequence_number@ > 0 {
                Some(self.last_received_timestamp)
            } else {
                None
            }),
    {
        if self.last_received_sequence_number.value > 0 {
            Some(self.last_received_timestamp)
        } else {
            None
        }
    }

    /// Was no sample received yet? Numbers that were announced as not available do not
    /// count as received.
    pub fn no_changes_received(&self) -> (r: bool)
        requires
            self.wf(),
        ensures
            r == (self.last_received_sequence_number@ == 0),
            r ==> forall|s: int| #[trigger]
                self.changes@.contains_key(s) ==> self.changes@[s] is None,
    {
        self.last_received_sequence_number.value == 0
    }

    /// Given the range of numbers that a HEARTBEAT advertises, lists in ascending order
    /// those that are not accounted for.
    pub fn missing_seqnums(
        &self,
        hb_first_sn: SequenceNumber,
        hb_last_sn: SequenceNumber,
    ) -> (missing: Vec<SequenceNumber>)
        ensures
            forall|i: int, j: int| 0 <= i < j < missing@.len() ==> missing@[i]@ < missing@[j]@,
            forall|sn: SequenceNumber| #[trigger]
                missing@.contains(sn) <==> hb_first_sn@ <= sn@ <= hb_last_sn@ && !self.known(sn@),
    {
        let mut missing: Vec<SequenceNumber> = Vec::with_capacity(32);
        if hb_first_sn.value > hb_last_sn.value {
            return missing;
        }
        let first: i64 = if hb_first_sn.value < self.ack_base.value {
            self.ack_base.value
        } else {
            hb_first_sn.value
        };
        if first > hb_last_sn.value {
            return missing;
        }
        let mut s: i64 = first;
        loop
            invariant_except_break
                forall|i: int| 0 <= i < missing@.len() ==> (#[trigger] missing@[i])@ < s,
                forall|sn: SequenceNumber| #[trigger]
                    missing@.contains(sn) <==> first <= sn@ < s && !self.known(sn@),
            invariant
                first <= s <= hb_last_sn@,
                first == (if hb_first_sn@ < self.ack_base@ {
                    self.ack_base@
                } else {
                    hb_first_sn@
                }),
                forall|i: int, j: int| 0 <= i < j < missing@.len() ==> missing@[i]@ < missing@[j]@,
            ensures
                forall|i: int, j: int| 0 <= i < j < missing@.len() ==> missing@[i]@ < missing@[j]@,
                forall|sn: SequenceNumber| #[trigger]
                    missing@.contains(sn) <==> first <= sn@ <= hb_last_sn@ && !self.known(sn@),
            decreases hb_last_sn@ - s,
        {
            let sn = SequenceNumber::new(s);
            let ghost before = missing@;
            if !self.changes.contains_key(&sn) {
                missing.push(sn);
                assert(missing@.last() == sn);
                assert forall|x: SequenceNumber| #[trigger]
                    missing@.contains(x) <==> before.contains(x) || x == sn by {
                    if before.contains(x) {
                        let k = choose|k: int| 0 <= k < before.len() && before[k] == x;
                        assert(missing@[k] == x);
                    }
                }
            }
            if s == hb_last_sn.value {
                break ;
            }
            s = s + 1;
        }
        missing
    }

    /// Was this sample received already, or announced as not available?
    pub fn should_ignore_change(&self, seqnum: SequenceNumber) -> (r: bool)
        ensures
            r == self.known(seqnum@),
    {
        seqnum.value < self.ack_base.value || self.changes.contains_key(&seqnum)
    }

    /// Marks a sample as received.
    pub fn received_changes_add(&mut self, seq_num: SequenceNumber, receive_timestamp: Timestamp)
        requires
            old(self).wf(),
            seq_num@ < i64::MAX,
        ensures
            final(self).wf(),
            final(self).has_received(*old(self), seq_num@, receive_timestamp),
            old(self).ack_base@ <= final(self).ack_base@,
            final(self).known(seq_num@),
            forall|sn: int| old(self).known(sn) ==> #[trigger] final(self).known(sn),
            final(self).changes@.dom().len() <= MAX_TRACKED_CHANGES_PER_WRITER,
    {
        if !self.changes.contains_key(&seq_num) {
            self.changes.insert(seq_num, Some(receive_timestamp));
        }
        if seq_num.value > self.last_received_sequence_number.value {
            self.last_received_sequence_number = seq_num;
            self.last_received_timestamp = receive_timestamp;
        }
        if seq_num.value == self.ack_base.value {
            self.advance_ack_base();
        }
        self.enforce_change_map_cap();
    }

    /// Marks one number of a GAP message as not available.
    pub fn set_irrelevant_change(&mut self, seq_num: SequenceNumber)
        requires
            old(self).wf(),
            seq_num@ < i64::MAX,
        ensures
            final(self).wf(),
            final(self).has_noted(*old(self), seq_num@),
            old(self).ack_base@ <= final(self).ack_base@,
            final(self).known(seq_num@),
            forall|sn: int| old(self).known(sn) ==> #[trigger] final(self).known(sn),
    {
        if seq_num.value >= self.ack_base.value && !self.changes.contains_key(&seq_num) {
            self.changes.insert(seq_num, None);
        }
        if seq_num.value == self.ack_base.value {
            self.advance_ack_base();
        }
    }

    /// Marks the numbers from `remove_from` up to but not with `remove_until_before` as
    /// not available: those of a GAP message, or those that a HEARTBEAT no longer offers.
    pub fn irrelevant_changes_range(
        &mut self,
        remove_from: SequenceNumber,
        remove_until_before: SequenceNumber,
    )
        requires
            old(self).wf(),
        ensures
            final(self).wf(),
            final(self).has_noted_range(*old(self), remove_from@, remove_until_before@),
            old(self).ack_base@ <= final(self).ack_base@,
            forall|sn: int|
                remove_from@ <= sn < remove_until_before@ ==> #[trigger] final(self).known(sn),
            forall|sn: int| old(self).known(sn) ==> #[trigger] final(self).known(sn),
    {
        if remove_from.value > remove_until_before.value {
            return;
        }
        let ghost start = *self;
        if remove_from.value <= self.ack_base.value {
            self.changes.drop_range(&remove_from, &remove_until_before);
            if remove_until_before.value > self.ack_base.value {
                self.ack_base = remove_until_before;
                assert(self.changes@ =~= from_bound(start.changes@, remove_until_before@));
                self.advance_ack_base();
                assert(self.changes@ =~= from_bound(start.changes@, self.ack_base@));
            } else {
                assert(self.changes@ =~= start.changes@);
            }
        } else {
            let mut na: SequenceNumber = remove_from;
            assert(self.changes@ =~= with_range(start.changes@, remove_from@, na@));
            while na.value < remove_until_before.value
                invariant
                    remove_from@ <= na@ <= remove_until_before@,
                    self.changes@ == with_range(start.changes@, remove_from@, na@),
                    self.changes@.dom().finite(),
                    self.ack_base == start.ack_base,
                    self.same_deadline(start),
                    self.same_profile(start),
                decreases remove_until_before@ - na@,
            {
                if !self.changes.contains_key(&na) {
                    self.changes.insert(na, None);
                }
                na = na.plus_1();
                assert(self.changes@ =~= with_range(start.changes@, remove_from@, na@));
            }
            self.enforce_change_map_cap();
        }
    }

    /// Marks everything below `smallest_seqnum` as not available, because a HEARTBEAT
    /// offers nothing older.
    pub fn irrelevant_changes_up_to(&mut self, smallest_seqnum: SequenceNumber)
        requires
            old(self).wf(),
        ensures
            final(self).wf(),
            forall|sn: int| sn < smallest_seqnum@ ==> #[trigger] final(self).known(sn),
            final(self).has_noted_range(*old(self), 0, smallest_seqnum@),
            old(self).ack_base@ <= final(self).ack_base@,
            forall|sn: int| old(self).known(sn) ==> #[trigger] final(self).known(sn),
    {
        self.irrelevant_changes_range(SequenceNumber::new(0), smallest_seqnum);
    }

    /// The writer as discovery announces it, with the locators of its participant where
    /// it announces none of its own.
    pub fn from_discovered_writer_data(
        discovered_writer_data: &DiscoveredWriterData,
        default_unicast_locators: &Vec<Locator>,
        default_multicast_locators: &Vec<Locator>,
    ) -> (p: RtpsWriterProxy)
        ensures
            p.wf(),
            p.remote_writer_guid == discovered_writer_data.writer_proxy.remote_writer_guid,
            p.remote_group_entity_id == EntityId::unknown(),
            p.unicast_locator_list@ == announced_or_default(
                discovered_writer_data.writer_proxy.unicast_locator_list@,
                default_unicast_locators@,
            ),
            p.multicast_locator_list@ == announced_or_default(
                discovered_writer_data.writer_proxy.multicast_locator_list@,
                default_multicast_locators@,
            ),
            p.received_heartbeat_count == 0,
            p.sent_ack_nack_count == 0,
            p.changes@ == Map::<int, Option<Timestamp>>::empty(),
            p.ack_base@ == 1,
            p.last_received_sequence_number@ == 0,
            p.last_received_timestamp == Timestamp::invalid(),
    {
        let unicast_locator_list = discovered_or_default(
            &discovered_writer_data.writer_proxy.unicast_locator_list,
            default_unicast_locators,
        );
        let multicast_locator_list = discovered_or_default(
            &discovered_writer_data.writer_proxy.multicast_locator_list,
            default_multicast_locators,
        );
        RtpsWriterProxy {
            remote_writer_guid: discovered_writer_data.writer_proxy.remote_writer_guid,
            unicast_locator_list,
            multicast_locator_list,
            remote_group_entity_id: EntityId::unknown(),
            received_heartbeat_count: 0,
            sent_ack_nack_count: 0,
            changes: SortedMap::new(),
            ack_base: SequenceNumber::default(),
            last_received_sequence_number: SequenceNumber::new(0),
            last_received_timestamp: Timestamp::invalid(),
        }
    }

    /// Moves the acknowledgement base past the run of accounted numbers that starts at
    /// it.
    fn advance_ack_base(&mut self)
        requires
            old(self).changes@.dom().finite(),
            forall|s: int| #[trigger] old(self).changes@.contains_key(s) ==> s < i64::MAX,
        ensures
            final(self).ack_base@ == first_missing(old(self).changes@, old(self).ack_base@),
            is_first_missing(old(self).changes@, old(self).ack_base@, final(self).ack_base@),
            final(self).changes@ == from_bound(old(self).changes@, final(self).ack_base@),
            final(self).changes@.dom().finite(),
            final(self).same_deadline(*old(self)),
            final(self).same_profile(*old(self)),
    {
        let mut test_sn: SequenceNumber = self.ack_base;
        loop
            invariant
                self.changes@ == old(self).changes@,
                self.ack_base == old(self).ack_base,
                self.same_deadline(*old(self)),
                self.same_profile(*old(self)),
                forall|s: int| #[trigger] old(self).changes@.contains_key(s) ==> s < i64::MAX,
                self.ack_base@ <= test_sn@,
                forall|s: int|
                    self.ack_base@ <= s < test_sn@ ==> #[trigger] old(self).changes@.contains_key(s),
            ensures
                is_first_missing(old(self).changes@, old(self).ack_base@, test_sn@),
            decreases i64::MAX - test_sn@,
        {
            if !self.changes.contains_key(&test_sn) {
                break ;
            }
            test_sn = test_sn.plus_1();
        }
        proof {
            lemma_first_missing_unique(self.changes@, self.ack_base@, test_sn@);
        }
        self.ack_base = test_sn;
        self.prune_below_ack_base();
    }

    /// Drops the tracked changes below the acknowledgement base.
    fn prune_below_ack_base(&mut self)
        requires
            old(self).changes@.dom().finite(),
        ensures
            final(self).changes@ == from_bound(old(self).changes@, old(self).ack_base@),
            final(self).changes@.dom().finite(),
            final(self).ack_base == old(self).ack_base,
            final(self).same_deadline(*old(self)),
            final(self).same_profile(*old(self)),
    {
        let ghost before = self.changes@;
        proof {
            assert(from_bound(before, self.ack_base@).dom().subset_of(before.dom()));
            vstd::set_lib::lemma_set_subset_finite(
                before.dom(),
                from_bound(before, self.ack_base@).dom(),
            );
        }
        let stale: bool = match self.changes.first_key() {
            Some(first) => first.value < self.ack_base.value,
            None => false,
        };
        if stale {
            let bound: SequenceNumber = self.ack_base;
            self.changes.drop_before(&bound);
            assert(self.changes@ =~= from_bound(before, self.ack_base@));
        } else {
            assert(before =~= from_bound(before, self.ack_base@));
        }
    }

    /// Where too many changes are tracked, gives up on the oldest: the acknowledgement
    /// base moves past them.
    fn enforce_change_map_cap(&mut self)
        requires
            old(self).changes@.dom().finite(),
            forall|s: int| #[trigger] old(self).changes@.contains_key(s) ==> s < i64::MAX,
        ensures
            final(self).ack_base@ == capped_base(old(self).changes@, old(self).ack_base@),
            final(self).ack_base@ >= old(self).ack_base@,
            final(self).changes@ == from_bound(old(self).changes@, final(self).ack_base@),
            final(self).changes@.dom().finite(),
            final(self).changes@.dom().len() <= MAX_TRACKED_CHANGES_PER_WRITER,
            final(self).same_deadline(*old(self)),
            final(self).same_profile(*old(self)),
    {
        let ghost all = self.changes@;
        if let Some(dropped) = self.changes.keep_newest(MAX_TRACKED_CHANGES_PER_WRITER) {
            assert(all.contains_key(dropped@));
            if self.ack_base.value <= dropped.value {
                self.ack_base = dropped.plus_1();
            }
        }
        let ghost kept = self.changes@;
        self.prune_below_ack_base();
        proof {
            assert(self.changes@ =~= from_bound(all, self.ack_base@));
            assert(self.changes@.dom().subset_of(kept.dom()));
            vstd::set_lib::lemma_len_subset(self.changes@.dom(), kept.dom());
        }
    }

    /// How many changes are tracked at or above the acknowledgement base.
    pub fn tracked_changes_count(&self) -> (n: usize)
        ensures
            n == self.changes@.dom().len(),
    {
        self.changes.len()
    }
}

/// In-order delivery leaves nothing to track: when the sample at the acknowledgement
/// base comes in and no other is ahead of it, the base moves on by one and the map of
/// changes is empty again.
pub proof fn law_contiguous_delivery_tracks_nothing<V>(base: int, value: V)
    ensures
        first_missing(Map::<int, V>::empty().insert(base, value), base) == base + 1,
        from_bound(Map::<int, V>::empty().insert(base, value), base + 1) == Map::<int, V>::empty(),
{
    let changes = Map::<int, V>::empty().insert(base, value);
    assert(is_first_missing(changes, base, base + 1));
    lemma_first_missing_unique(changes, base, base + 1);
    assert(from_bound(changes, base + 1) =~= Map::<int, V>::empty());
}

/// What a reader hears from a writer.
pub enum News {
    /// A sample came in.
    Data { sn: SequenceNumber, received: Timestamp },
    /// A number is not available.
    Gap { sn: SequenceNumber },
    /// The numbers from one up to but not with another are not available.
    GapRange { from: SequenceNumber, to: SequenceNumber },
}

/// `after` is `before` once the news was taken in.
pub open spec fn takes_in(before: RtpsWriterProxy, news: News, after: RtpsWriterProxy) -> bool {
    match news {
        News::Data { sn, received } => after.has_received(before, sn@, received),
        News::Gap { sn } => after.has_noted(before, sn@),
        News::GapRange { from, to } => after.has_noted_range(before, from@, to@),
    }
}

/// Does the news make more changes to be tracked than the cap allows?
pub open spec fn overflows(before: RtpsWriterProxy, news: News) -> bool {
    let cap = MAX_TRACKED_CHANGES_PER_WRITER as nat;
    match news {
        News::Data { sn, received } => before.with_received(sn@, received).0.dom().len() > cap,
        News::Gap { .. } => false,
        News::GapRange { from, to } => before.ack_base@ < from@ <= to@ && with_range(
            before.changes@,
            from@,
            to@,
        ).dom().len() > cap,
    }
}

/// `states` are those of a proxy from its making on, as one news after the other is taken
/// in.
pub open spec fn is_history(states: Seq<RtpsWriterProxy>, news: Seq<News>) -> bool {
    &&& states.len() == news.len() + 1
    &&& states[0].changes@ == Map::<int, Option<Timestamp>>::empty()
    &&& states[0].last_received_sequence_number@ == 0
    &&& forall|i: int| 0 <= i < states.len() ==> (#[trigger] states[i]).wf()
    &&& forall|i: int|
        0 <= i < news.len() ==> takes_in(states[i], #[trigger] news[i], states[i + 1])
}

/// From any number on, some first one is missing.
proof fn lemma_first_missing_exists<V>(changes: Map<int, V>, base: int)
    requires
        changes.dom().finite(),
    ensures
        is_first_missing(changes, base, first_missing(changes, base)),
    decreases changes.dom().len(),
{
    if !changes.contains_key(base) {
        assert(is_first_missing(changes, base, base));
    } else {
        let rest = changes.remove(base);
        lemma_first_missing_exists(rest, base + 1);
        let b = first_missing(rest, base + 1);
        assert forall|s: int| base <= s < b implies #[trigger] changes.contains_key(s) by {
            if s > base {
                assert(rest.contains_key(s));
            }
        }
        assert(is_first_missing(changes, base, b));
    }
}

/// The acknowledgement base never goes back, whatever comes in.
pub proof fn law_base_never_goes_back(before: RtpsWriterProxy, news: News, after: RtpsWriterProxy)
    requires
        before.wf(),
        takes_in(before, news, after),
    ensures
        before.ack_base@ <= after.ack_base@,
{
    match news {
        News::Data { sn, received } => {
            lemma_first_missing_exists(
                with_state(before.changes@, sn@, Some(received)),
                before.ack_base@,
            );
        },
        News::Gap { sn } => {
            lemma_first_missing_exists(with_state(before.changes@, sn@, None), before.ack_base@);
        },
        News::GapRange { from, to } => {
            lemma_bounded_is_finite(before.changes@, to@);
            lemma_first_missing_exists(from_bound(before.changes@, to@), to@);
        },
    }
}

/// A number that is accounted for stays so, whatever comes in. As long as it is tracked,
/// one that was received stays received, at the same time, and one that is not available
/// stays not available.
pub proof fn law_states_are_final(
    before: RtpsWriterProxy,
    news: News,
    after: RtpsWriterProxy,
    sn: int,
)
    requires
        before.wf(),
        takes_in(before, news, after),
        before.known(sn),
    ensures
        after.known(sn),
        before.changes@.contains_key(sn) && after.changes@.contains_key(sn)
            ==> after.changes@[sn] == before.changes@[sn],
{
    law_base_never_goes_back(before, news, after);
}

proof fn lemma_bounded_is_finite<V>(changes: Map<int, V>, bound: int)
    requires
        changes.dom().finite(),
    ensures
        from_bound(changes, bound).dom().finite(),
{
    assert(from_bound(changes, bound).dom().subset_of(changes.dom()));
    vstd::set_lib::lemma_set_subset_finite(changes.dom(), from_bound(changes, bound).dom());
}

/// As long as no more changes are tracked than the cap allows, the acknowledgement base is
/// the least number that is neither received nor announced as not available.
pub proof fn law_base_is_the_least_unknown(
    states: Seq<RtpsWriterProxy>,
    news: Seq<News>,
    n: int,
)
    requires
        is_history(states, news),
        0 <= n < states.len(),
        forall|i: int| 0 <= i < n ==> !overflows(states[i], #[trigger] news[i]),
    ensures
        states[n].settled(),
        !states[n].known(states[n].ack_base@),
        forall|s: int| s < states[n].ack_base@ ==> #[trigger] states[n].known(s),
    decreases n,
{
    if n > 0 {
        law_base_is_the_least_unknown(states, news, n - 1);
        let before = states[n - 1];
        assert(takes_in(before, news[n - 1], states[n]));
        assert(!overflows(before, news[n - 1]));
        match news[n - 1] {
            News::Data { sn, received } => {
                lemma_first_missing_exists(
                    with_state(before.changes@, sn@, Some(received)),
                    before.ack_base@,
                );
            },
            News::Gap { sn } => {
                lemma_first_missing_exists(with_state(before.changes@, sn@, None), before.ack_base@);
            },
            News::GapRange { from, to } => {
                lemma_bounded_is_finite(before.changes@, to@);
                lemma_first_missing_exists(from_bound(before.changes@, to@), to@);
                let marked = with_range(before.changes@, from@, to@);
                assert(before.ack_base@ < from@ ==> !marked.contains_key(before.ack_base@));
            },
        }
    }
}

/// Is the news the first that brought the sample with the highest number, of the first
/// `n`?
pub open spec fn is_latest(news: Seq<News>, n: int, m: int) -> bool {
    &&& 0 <= m < n
    &&& news[m] is Data
    &&& forall|i: int|
        0 <= i < n && (#[trigger] news[i]) is Data ==> if i < m {
            news[i]->Data_sn@ < news[m]->Data_sn@
        } else {
            news[i]->Data_sn@ <= news[m]->Data_sn@
        }
}

/// The last timestamp is that of the highest number received so far, of the first time
/// that it came. Late lower numbers, repeats and gaps do not change it.
pub proof fn law_last_timestamp_is_of_the_highest(
    states: Seq<RtpsWriterProxy>,
    news: Seq<News>,
    n: int,
) -> (m: int)
    requires
        is_history(states, news),
        0 <= n < states.len(),
        forall|i: int| 0 <= i < n && (#[trigger] news[i]) is Data ==> news[i]->Data_sn@ > 0,
    ensures
        if exists|i: int| 0 <= i < n && (#[trigger] news[i]) is Data {
            &&& is_latest(news, n, m)
            &&& states[n].last_received_sequence_number == news[m]->Data_sn
            &&& states[n].last_received_timestamp == news[m]->Data_received
        } else {
            states[n].last_received_sequence_number@ == 0
        },
    decreases n,
{
    if n == 0 {
        0
    } else {
        let m = law_last_timestamp_is_of_the_highest(states, news, n - 1);
        assert(takes_in(states[n - 1], news[n - 1], states[n]));
        if news[n - 1] is Data && news[n - 1]->Data_sn@
            > states[n - 1].last_received_sequence_number@ {
            n - 1
        } else {
            if exists|i: int| 0 <= i < n && (#[trigger] news[i]) is Data {
                let i = choose|i: int| 0 <= i < n && (#[trigger] news[i]) is Data;
                if i == n - 1 {
                    assert(states[n - 1].last_received_sequence_number@ > 0);
                }
                assert(exists|i: int| 0 <= i < n - 1 && (#[trigger] news[i]) is Data);
            }
            m
        }
    }
}

/// Does the news account for the number?
pub open spec fn tells_of(news: News, s: int) -> bool {
    match news {
        News::Data { sn, .. } => s == sn@,
        News::Gap { sn } => s == sn@,
        News::GapRange { from, to } => from@ <= s < to@,
    }
}

/// News account for just the numbers that they tell of: what else is known or not stays as
/// it is, as long as no more is tracked than the cap allows. A sample that came in is
/// tracked with the time at which it came, and one that is not available without.
pub proof fn law_news_accounts_for_what_it_tells(
    before: RtpsWriterProxy,
    news: News,
    after: RtpsWriterProxy,
    s: int,
)
    requires
        before.wf(),
        takes_in(before, news, after),
        !overflows(before, news),
    ensures
        after.known(s) <==> before.known(s) || tells_of(news, s),
        !before.known(s) && after.changes@.contains_key(s) ==> match news {
            News::Data { received, .. } => after.changes@[s] == Some(received),
            _ => after.changes@[s] is None,
        },
        after.remote_writer_guid == before.remote_writer_guid,
{
    match news {
        News::Data { sn, received } => {
            lemma_first_missing_exists(
                with_state(before.changes@, sn@, Some(received)),
                before.ack_base@,
            );
        },
        News::Gap { sn } => {
            lemma_first_missing_exists(with_state(before.changes@, sn@, None), before.ack_base@);
        },
        News::GapRange { from, to } => {
            lemma_bounded_is_finite(before.changes@, to@);
            lemma_first_missing_exists(from_bound(before.changes@, to@), to@);
            let b = first_missing(from_bound(before.changes@, to@), to@);
            if to@ <= s < b {
                assert(from_bound(before.changes@, to@).contains_key(s));
            }
        },
    }
}

/// What a reader asks for is just what was advertised and is not accounted for, so nothing
/// that it has is asked for again.
pub proof fn law_missing_is_what_is_not_known(
    proxy: RtpsWriterProxy,
    first: SequenceNumber,
    last: SequenceNumber,
    missing: Vec<SequenceNumber>,
    sn: SequenceNumber,
    ignored: bool,
)
    requires
        call_ensures(RtpsWriterProxy::missing_seqnums, (&proxy, first, last), missing),
        call_ensures(RtpsWriterProxy::should_ignore_change, (&proxy, sn), ignored),
    ensures
        missing@.contains(sn) <==> !ignored && first@ <= sn@ <= last@,
        sn@ < proxy.ack_base@ ==> ignored,
        sn@ >= proxy.ack_base@ ==> (ignored <==> proxy.changes@.contains_key(sn@)),
{
}

} // verus!
