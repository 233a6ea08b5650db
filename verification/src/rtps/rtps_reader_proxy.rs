//! What a writer knows about one matched remote reader.

use std::collections::HashMap;

use bit_vec::BitVec;
use vstd::prelude::*;

use crate::dds::qos::QosPolicies;
use crate::network::util::{path_mtu_payload_for_peer, spec_path_mtu_payload_for_peer, IfAddr};
use crate::rtps::constant::{
    DISCOVERY_LISTENER_TOKEN, DISCOVERY_MUL_LISTENER_TOKEN, FALLBACK_MAX_AGGREGATED_DATAGRAM_SIZE,
    MAX_UNSENT_CHANGES_PER_READER, USER_TRAFFIC_LISTENER_TOKEN, USER_TRAFFIC_MUL_LISTENER_TOKEN,
};
use crate::rtps::discovered::{announced_or_default, discovered_or_default, DiscoveredReaderData};
use crate::rtps::message::numbers_of;
use crate::rtps::transmit::{
    DefaultRouteSelector, InterfaceObservations, InterfaceSelector, SendRoute,
};
use crate::structure::bits::{
    bits_any, bits_clone, bits_from_elem, bits_get, bits_grow, bits_len, bits_new, bits_none,
    bits_of, bits_set, bits_with_capacity,
};
use crate::structure::guid::{EntityId, GUID};
use crate::structure::lists::lemma_pushed;
use crate::structure::locator::{copy_locators, Locator};
use crate::structure::sequence_number::{
    FragmentNumber, FragmentNumberSet, SequenceNumber, SequenceNumberSet,
};
use crate::structure::sorted_map::{newest, SortKey, SortedMap};

verus! {

/// A reader acknowledges what it has, and asks for what it misses.
pub struct AckNack {
    pub reader_id: EntityId,
    pub writer_id: EntityId,
    /// Everything below the base is acknowledged; the members are asked for.
    pub reader_sn_state: SequenceNumberSet,
    pub count: i32,
}

/// A reader asks for fragments of a sample.
pub struct NackFrag {
    pub reader_id: EntityId,
    pub writer_id: EntityId,
    pub writer_sn: SequenceNumber,
    pub fragment_number_state: FragmentNumberSet,
    pub count: i32,
}

pub enum AckSubmessage {
    AckNack(AckNack),
    NackFrag(NackFrag),
}

/// What a writer tracks of one matched reader.
pub struct RtpsReaderProxy {
    /// Identifies the remote matched reader.
    pub remote_reader_guid: GUID,
    /// Identifies the group to which the reader belongs.
    pub remote_group_entity_id: EntityId,
    /// Addresses for unicast to the reader, those of the loopback interface left out.
    pub unicast_locator_list: Vec<Locator>,
    /// Addresses for multicast to the reader.
    pub multicast_locator_list: Vec<Locator>,
    /// Addresses of the loopback interface, for use once the reader is known to be on
    /// this host.
    pub loopback_unicast_locators: Vec<Locator>,
    pub expects_in_line_qos: bool,
    pub is_active: bool,
    /// The reader has acknowledged everything before this number.
    pub all_acked_before: SequenceNumber,
    /// Samples to be sent to the reader, because they are new or because it asked.
    pub unsent_changes: SortedMap<SequenceNumber, ()>,
    /// Samples that will not be sent to the reader; it is told so until it acknowledges.
    pub pending_gap: SortedMap<SequenceNumber, ()>,
    /// Is the reader being sent samples again that it asked for?
    pub repair_mode: bool,
    pub qos: QosPolicies,
    /// Fragments that the reader asked for and was not sent yet, by sample.
    pub frags_requested: SortedMap<SequenceNumber, BitVec<u32>>,
    /// Where to send to, as far as it is known.
    pub send_route: SendRoute,
    /// Bytes for submessages in a datagram to the reader.
    pub max_datagram_payload: usize,
}

/// What a reader was sent, acknowledged and asked for.
#[verifier::ext_equal]
pub struct Progress {
    pub all_acked_before: SequenceNumber,
    pub unsent: Set<int>,
    pub gaps: Set<int>,
    pub repair_mode: bool,
    pub requested: Map<int, Seq<bool>>,
}

impl Progress {
    /// The progress once an acknowledgement came in. One that acknowledges more than was
    /// ever written changes nothing.
    pub open spec fn acked(self, an: AckNack, last_available: int) -> Progress {
        if acked_by(an) > last_available + 1 {
            self
        } else {
            Progress {
                all_acked_before: SequenceNumber { value: acked_by(an) as i64 },
                unsent: Set::new(
                    |s: int|
                        s <= last_available && (an.reader_sn_state.has(s) || (self.unsent.contains(
                            s,
                        ) && s >= acked_by(an))),
                ),
                gaps: self.gaps.filter(|s: int| s >= acked_by(an)),
                ..self
            }
        }
    }
}

/// The locators that are not of the loopback interface, in order.
pub open spec fn external_part(locators: Seq<Locator>) -> Seq<Locator> {
    locators.filter(|l: Locator| !l.spec_is_loopback())
}

/// The locators of the loopback interface, in order.
pub open spec fn loopback_part(locators: Seq<Locator>) -> Seq<Locator> {
    locators.filter(|l: Locator| l.spec_is_loopback())
}

/// Does the list hold a locator of the loopback interface?
pub open spec fn has_loopback(locators: Seq<Locator>) -> bool {
    exists|i: int| 0 <= i < locators.len() && (#[trigger] locators[i]).spec_is_loopback()
}

/// The locators for general use and those for this host, the latter set apart.
pub open spec fn normalized(unicast: Seq<Locator>, loopback: Seq<Locator>) -> (
    Seq<Locator>,
    Seq<Locator>,
) {
    if has_loopback(unicast) {
        (external_part(unicast + loopback), loopback_part(unicast + loopback))
    } else {
        (unicast, loopback)
    }
}

/// Parts locators into those that are not of the loopback interface and those that are.
fn split_loopback(locators: &Vec<Locator>) -> (r: (Vec<Locator>, Vec<Locator>))
    ensures
        r.0@ == external_part(locators@),
        r.1@ == loopback_part(locators@),
{
    let mut external: Vec<Locator> = Vec::new();
    let mut loopback: Vec<Locator> = Vec::new();
    let mut i: usize = 0;
    assert(external_part(locators@.take(0)) =~= Seq::empty() && loopback_part(locators@.take(0))
        =~= Seq::empty()) by {
        reveal(Seq::filter);
    }
    while i < locators.len()
        invariant
            i <= locators@.len(),
            external@ == external_part(locators@.take(i as int)),
            loopback@ == loopback_part(locators@.take(i as int)),
        decreases locators@.len() - i,
    {
        let l: Locator = locators[i];
        if l.is_loopback() {
            loopback.push(l);
        } else {
            external.push(l);
        }
        i += 1;
        proof {
            assert(locators@.take(i as int).drop_last() =~= locators@.take(i - 1));
            assert(locators@.take(i as int).last() == l);
            reveal(Seq::filter);
        }
    }
    assert(locators@.take(i as int) =~= locators@);
    (external, loopback)
}

/// Two lists of locators, one after the other.
fn joined(a: &Vec<Locator>, b: &Vec<Locator>) -> (r: Vec<Locator>)
    ensures
        r@ == a@ + b@,
{
    let mut r: Vec<Locator> = copy_locators(a);
    let mut tail: Vec<Locator> = copy_locators(b);
    r.append(&mut tail);
    r
}

/// The smallest datagram budget over the UDP locators of a list.
pub open spec fn smallest_budget(locators: Seq<Locator>, ifaces: Seq<IfAddr>) -> Option<int>
    decreases locators.len(),
{
    if locators.len() == 0 {
        None
    } else {
        let before = smallest_budget(locators.drop_last(), ifaces);
        match locators.last().spec_socket_addr() {
            None => before,
            Some(a) => {
                let budget = spec_path_mtu_payload_for_peer(ifaces, a.spec_ip());
                match before {
                    Some(b) if b <= budget => before,
                    _ => Some(budget),
                }
            },
        }
    }
}

/// How many bits it takes to hold `start` bits and one for each fragment number.
pub open spec fn bits_needed(start: nat, numbers: Seq<FragmentNumber>) -> nat
    decreases numbers.len(),
{
    if numbers.len() == 0 {
        start
    } else {
        let before = bits_needed(start, numbers.drop_last());
        if numbers.last()@ > before {
            numbers.last()@ as nat
        } else {
            before
        }
    }
}

pub(crate) proof fn lemma_bits_needed(start: nat, numbers: Seq<FragmentNumber>)
    ensures
        bits_needed(start, numbers) >= start,
        forall|k: int|
            0 <= k < numbers.len() ==> (#[trigger] numbers[k])@ <= bits_needed(start, numbers),
    decreases numbers.len(),
{
    if numbers.len() > 0 {
        lemma_bits_needed(start, numbers.drop_last());
        assert forall|k: int| 0 <= k < numbers.len() implies (#[trigger] numbers[k])@
            <= bits_needed(start, numbers) by {
            if k < numbers.len() - 1 {
                assert(numbers.drop_last()[k] == numbers[k]);
            }
        }
    }
}

/// `bits` with the bits of all given fragment numbers set.
pub open spec fn with_frags_set(bits: Seq<bool>, numbers: Seq<FragmentNumber>) -> Seq<bool> {
    Seq::new(
        bits_needed(bits.len(), numbers),
        |i: int| (i < bits.len() && bits[i]) || names_fragment(numbers, i + 1),
    )
}

/// Is the fragment with this number among those given?
pub open spec fn names_fragment(numbers: Seq<FragmentNumber>, n: int) -> bool {
    exists|k: int| 0 <= k < numbers.len() && (#[trigger] numbers[k])@ == n
}

pub open spec fn some_bit(bits: Seq<bool>) -> bool {
    exists|i: int| 0 <= i < bits.len() && #[trigger] bits[i]
}

impl RtpsReaderProxy {
    /// The numbers of the samples to be sent to the reader.
    pub open spec fn unsent(self) -> Set<int> {
        self.unsent_changes@.dom()
    }

    /// The numbers of the samples that the reader will not get.
    pub open spec fn gaps(self) -> Set<int> {
        self.pending_gap@.dom()
    }

    /// The fragments that the reader asked for, by sample.
    pub open spec fn requested(self) -> Map<int, Seq<bool>> {
        self.frags_requested@.map_values(|v: BitVec<u32>| bits_of(v))
    }

    /// What the reader was sent, acknowledged and asked for.
    pub open spec fn progress(self) -> Progress {
        Progress {
            all_acked_before: self.all_acked_before,
            unsent: self.unsent(),
            gaps: self.gaps(),
            repair_mode: self.repair_mode,
            requested: self.requested(),
        }
    }

    /// Who the reader is and what it expects are as in `other`.
    pub open spec fn same_identity(self, other: Self) -> bool {
        &&& self.remote_reader_guid == other.remote_reader_guid
        &&& self.remote_group_entity_id == other.remote_group_entity_id
        &&& self.is_active == other.is_active
    }

    /// Where the reader is reached is as in `other`.
    pub open spec fn same_places(self, other: Self) -> bool {
        &&& self.unicast_locator_list@ == other.unicast_locator_list@
        &&& self.multicast_locator_list@ == other.multicast_locator_list@
        &&& self.loopback_unicast_locators@ == other.loopback_unicast_locators@
    }

    /// The route and the budget are as in `other`.
    pub open spec fn same_route(self, other: Self) -> bool {
        &&& self.send_route == other.send_route
        &&& self.max_datagram_payload == other.max_datagram_payload
    }

    /// What the reader was sent and acknowledged is as in `other`.
    pub open spec fn same_progress(self, other: Self) -> bool {
        &&& self.all_acked_before == other.all_acked_before
        &&& self.unsent() == other.unsent()
        &&& self.gaps() == other.gaps()
        &&& self.repair_mode == other.repair_mode
        &&& self.requested() == other.requested()
    }

    /// The policies of the reader are as in `other`.
    pub open spec fn same_policies(self, other: Self) -> bool {
        &&& self.qos == other.qos
        &&& self.expects_in_line_qos == other.expects_in_line_qos
    }

    /// Everything but what the reader was sent and acknowledged is as in `other`.
    pub open spec fn same_profile(self, other: Self) -> bool {
        &&& self.same_identity(other)
        &&& self.same_places(other)
        &&& self.same_route(other)
        &&& self.same_policies(other)
    }

    /// Nothing was sent to the reader, acknowledged by it or asked for by it.
    pub open spec fn untouched(self) -> bool {
        &&& self.is_active
        &&& self.all_acked_before@ == 0
        &&& self.unsent() == Set::<int>::empty()
        &&& self.gaps() == Set::<int>::empty()
        &&& !self.repair_mode
        &&& self.requested() == Map::<int, Seq<bool>>::empty()
        &&& self.send_route == (SendRoute { unicast: None, multicast: None, fallback: true })
        &&& self.max_datagram_payload == FALLBACK_MAX_AGGREGATED_DATAGRAM_SIZE
    }

    /// No locator of the loopback interface is in the list for general use, and no other
    /// in the list for this host.
    pub open spec fn loopback_apart(self) -> bool {
        &&& !has_loopback(self.unicast_locator_list@)
        &&& forall|i: int|
            0 <= i < self.loopback_unicast_locators@.len() ==> (
            #[trigger] self.loopback_unicast_locators@[i]).spec_is_loopback()
    }

    /// All unicast locators, wherever they are kept.
    pub open spec fn all_unicast(self) -> Seq<Locator> {
        self.unicast_locator_list@ + self.loopback_unicast_locators@
    }

    fn with_places(
        remote_reader_guid: GUID,
        unicast_locator_list: Vec<Locator>,
        multicast_locator_list: Vec<Locator>,
        loopback_unicast_locators: Vec<Locator>,
        expects_in_line_qos: bool,
        qos: QosPolicies,
    ) -> (p: Self)
        ensures
            p.untouched(),
            p.remote_reader_guid == remote_reader_guid,
            p.remote_group_entity_id == EntityId::unknown(),
            p.unicast_locator_list == unicast_locator_list,
            p.multicast_locator_list == multicast_locator_list,
            p.loopback_unicast_locators == loopback_unicast_locators,
            p.expects_in_line_qos == expects_in_line_qos,
            p.qos == qos,
    {
        let p = RtpsReaderProxy {
            remote_reader_guid,
            remote_group_entity_id: EntityId::unknown(),
            unicast_locator_list,
            multicast_locator_list,
            loopback_unicast_locators,
            expects_in_line_qos,
            is_active: true,
            all_acked_before: SequenceNumber::zero(),
            unsent_changes: SortedMap::new(),
            pending_gap: SortedMap::new(),
            repair_mode: false,
            qos,
            frags_requested: SortedMap::new(),
            send_route: SendRoute::default(),
            max_datagram_payload: FALLBACK_MAX_AGGREGATED_DATAGRAM_SIZE,
        };
        assert(p.unsent() =~= Set::empty());
        assert(p.gaps() =~= Set::empty());
        assert(p.requested() =~= Map::empty());
        p
    }

    pub fn new(remote_reader_guid: GUID, qos: QosPolicies, expects_in_line_qos: bool) -> (p: Self)
        ensures
            p.untouched(),
            p.remote_reader_guid == remote_reader_guid,
            p.remote_group_entity_id == EntityId::unknown(),
            p.unicast_locator_list@ == Seq::<Locator>::empty(),
            p.multicast_locator_list@ == Seq::<Locator>::empty(),
            p.loopback_unicast_locators@ == Seq::<Locator>::empty(),
            p.expects_in_line_qos == expects_in_line_qos,
            p.qos == qos,
    {
        Self::with_places(
            remote_reader_guid,
            Vec::new(),
            Vec::new(),
            Vec::new(),
            expects_in_line_qos,
            qos,
        )
    }

    /// Takes over what discovery tells anew about the reader and keeps what was tracked
    /// of it. The reader and its group stay who they are.
    pub fn update(&mut self, update: &Self)
        ensures
            final(self).same_identity(*old(self)),
            final(self).same_route(*old(self)),
            final(self).same_progress(*old(self)),
            final(self).expects_in_line_qos == update.expects_in_line_qos,
            final(self).qos == old(self).qos.spec_modify_by(update.qos),
            final(self).unicast_locator_list@ == external_part(update.all_unicast()),
            final(self).loopback_unicast_locators@ == loopback_part(update.all_unicast()),
            final(self).multicast_locator_list@ == update.multicast_locator_list@,
            final(self).loopback_apart(),
            update.loopback_apart() ==> final(self).unicast_locator_list@
                == update.unicast_locator_list@ && final(self).loopback_unicast_locators@
                == update.loopback_unicast_locators@,
    {
        let combined: Vec<Locator> = joined(
            &update.unicast_locator_list,
            &update.loopback_unicast_locators,
        );
        let (unicasts, loopbacks) = split_loopback(&combined);
        proof {
            lemma_parts_are_apart(combined@);
            lemma_parts_of_proxy(*update);
        }
        self.unicast_locator_list = unicasts;
        self.loopback_unicast_locators = loopbacks;
        self.multicast_locator_list = copy_locators(&update.multicast_locator_list);
        self.expects_in_line_qos = update.expects_in_line_qos;
        self.qos = self.qos.modify_by(&update.qos);
    }

    pub fn qos(&self) -> (q: QosPolicies)
        ensures
            q == self.qos,
    {
        self.qos
    }

    pub fn expects_inline_qos(&self) -> (r: bool)
        ensures
            r == self.expects_in_line_qos,
    {
        self.expects_in_line_qos
    }

    /// The numbers of the samples to be sent, in ascending order.
    pub fn unsent_changes_debug(&self) -> (list: Vec<SequenceNumber>)
        ensures
            forall|i: int, j: int| 0 <= i < j < list@.len() ==> list@[i]@ < list@[j]@,
            numbers_of(list@) == self.unsent(),
    {
        numbers_in(&self.unsent_changes)
    }

    /// The lowest number of a sample to be sent.
    pub fn first_unsent_change(&self) -> (r: Option<SequenceNumber>)
        ensures
            r is None <==> self.unsent() == Set::<int>::empty(),
            r matches Some(sn) ==> self.unsent().contains(sn@) && forall|s: int| #[trigger]
                self.unsent().contains(s) ==> sn@ <= s,
    {
        let r: Option<SequenceNumber> = self.unsent_changes.first_key();
        proof {
            if r is None {
                assert(self.unsent() =~= Set::empty());
            } else {
                assert(self.unsent_changes@.contains_key(r->0@));
                assert(forall|s: int| self.unsent().contains(s) ==> self.unsent_changes@.contains_key(s));
            }
        }
        r
    }

    pub fn mark_change_sent(&mut self, seq_num: SequenceNumber)
        ensures
            final(self).unsent() == old(self).unsent().remove(seq_num@),
            final(self).unsent().finite(),
            final(self).gaps() == old(self).gaps(),
            final(self).requested() == old(self).requested(),
            final(self).all_acked_before == old(self).all_acked_before,
            final(self).repair_mode == old(self).repair_mode,
            final(self).same_profile(*old(self)),
    {
        self.unsent_changes.remove(&seq_num);
        assert(self.unsent() =~= old(self).unsent().remove(seq_num@));
    }

    /// Takes the samples with numbers below `before_seq_num` off the list to be sent:
    /// they were sent, acknowledged, or reported as gone.
    pub fn remove_from_unsent_set_all_before(&mut self, before_seq_num: SequenceNumber)
        ensures
            final(self).unsent() == old(self).unsent().filter(|s: int| s >= before_seq_num@),
            final(self).unsent().finite(),
            final(self).gaps() == old(self).gaps(),
            final(self).requested() == old(self).requested(),
            final(self).all_acked_before == old(self).all_acked_before,
            final(self).repair_mode == old(self).repair_mode,
            final(self).same_profile(*old(self)),
    {
        self.unsent_changes.drop_before(&before_seq_num);
        assert(self.unsent() =~= old(self).unsent().filter(|s: int| s >= before_seq_num@));
    }

    /// The proxy under which a local reader is announced, reachable at the listeners of
    /// user data or of discovery, as the reader is of the application or built in. The
    /// loopback locators stay where they are: nothing is sent to this proxy.
    pub fn from_reader(
        guid: GUID,
        qos: QosPolicies,
        self_locators: &HashMap<usize, Vec<Locator>>,
    ) -> (p: Self)
        ensures
            p.untouched(),
            p.remote_reader_guid == guid,
            p.remote_group_entity_id == EntityId::unknown(),
            !p.expects_in_line_qos,
            p.qos == qos,
            p.loopback_unicast_locators@ == Seq::<Locator>::empty(),
            p.unicast_locator_list@ == locators_at(
                self_locators@,
                if guid.entity_id.entity_kind.spec_is_user_defined() {
                    USER_TRAFFIC_LISTENER_TOKEN
                } else {
                    DISCOVERY_LISTENER_TOKEN
                },
            ),
            p.multicast_locator_list@ == locators_at(
                self_locators@,
                if guid.entity_id.entity_kind.spec_is_user_defined() {
                    USER_TRAFFIC_MUL_LISTENER_TOKEN
                } else {
                    DISCOVERY_MUL_LISTENER_TOKEN
                },
            ),
    {
        let (unicast_token, multicast_token): (usize, usize) =
            if guid.entity_id.kind().is_user_defined() {
            (USER_TRAFFIC_LISTENER_TOKEN, USER_TRAFFIC_MUL_LISTENER_TOKEN)
        } else {
            (DISCOVERY_LISTENER_TOKEN, DISCOVERY_MUL_LISTENER_TOKEN)
        };
        let unicast_locator_list: Vec<Locator> = find_locators_at(self_locators, unicast_token);
        let multicast_locator_list: Vec<Locator> = find_locators_at(
            self_locators,
            multicast_token,
        );
        Self::with_places(
            guid,
            unicast_locator_list,
            multicast_locator_list,
            Vec::new(),
            false,
            qos,
        )
    }

    /// Moves the locators of the loopback interface out of the list for general use.
    pub fn normalize_loopback(&mut self)
        ensures
            !has_loopback(final(self).unicast_locator_list@),
            (final(self).unicast_locator_list@, final(self).loopback_unicast_locators@)
                == normalized(
                old(self).unicast_locator_list@,
                old(self).loopback_unicast_locators@,
            ),
            final(self).multicast_locator_list@ == old(self).multicast_locator_list@,
            !has_loopback(old(self).unicast_locator_list@) ==> final(self).same_places(*old(self)),
            final(self).same_identity(*old(self)),
            final(self).same_route(*old(self)),
            final(self).same_policies(*old(self)),
            final(self).same_progress(*old(self)),
    {
        let mut i: usize = 0;
        let mut found: bool = false;
        while i < self.unicast_locator_list.len()
            invariant
                i <= self.unicast_locator_list@.len(),
                found ==> has_loopback(self.unicast_locator_list@),
                !found ==> forall|j: int|
                    0 <= j < i ==> !(#[trigger] self.unicast_locator_list@[j]).spec_is_loopback(),
            decreases self.unicast_locator_list@.len() - i,
        {
            if self.unicast_locator_list[i].is_loopback() {
                assert(self.unicast_locator_list@[i as int].spec_is_loopback());
                found = true;
            }
            i += 1;
        }
        if found {
            let combined: Vec<Locator> = joined(
                &self.unicast_locator_list,
                &self.loopback_unicast_locators,
            );
            let (unicasts, loopbacks) = split_loopback(&combined);
            proof {
                lemma_parts_are_apart(combined@);
            }
            self.unicast_locator_list = unicasts;
            self.loopback_unicast_locators = loopbacks;
        }
    }

    /// The reader as discovery announces it, with the locators of its participant where
    /// it announces none of its own.
    pub fn from_discovered_reader_data(
        discovered_reader_data: &DiscoveredReaderData,
        default_unicast_locators: &Vec<Locator>,
        default_multicast_locators: &Vec<Locator>,
    ) -> (p: Self)
        ensures
            p.untouched(),
            p.loopback_apart(),
            p.remote_reader_guid == discovered_reader_data.reader_proxy.remote_reader_guid,
            p.remote_group_entity_id == EntityId::unknown(),
            p.expects_in_line_qos == discovered_reader_data.reader_proxy.expects_inline_qos,
            p.qos == discovered_reader_data.qos,
            ({
                let announced = announced_or_default(
                    discovered_reader_data.reader_proxy.unicast_locator_list@,
                    default_unicast_locators@,
                );
                &&& p.unicast_locator_list@ == external_part(announced)
                &&& p.loopback_unicast_locators@ == loopback_part(announced)
            }),
            p.multicast_locator_list@ == announced_or_default(
                discovered_reader_data.reader_proxy.multicast_locator_list@,
                default_multicast_locators@,
            ),
    {
        let advertised_unicast: Vec<Locator> = discovered_or_default(
            &discovered_reader_data.reader_proxy.unicast_locator_list,
            default_unicast_locators,
        );
        let (unicast_locator_list, loopback_unicast_locators) = split_loopback(
            &advertised_unicast,
        );
        proof {
            lemma_parts_are_apart(advertised_unicast@);
        }
        let multicast_locator_list: Vec<Locator> = discovered_or_default(
            &discovered_reader_data.reader_proxy.multicast_locator_list,
            default_multicast_locators,
        );
        Self::with_places(
            discovered_reader_data.reader_proxy.remote_reader_guid,
            unicast_locator_list,
            multicast_locator_list,
            loopback_unicast_locators,
            discovered_reader_data.reader_proxy.expects_inline_qos,
            discovered_reader_data.qos,
        )
    }

    pub fn send_route(&self) -> (r: SendRoute)
        ensures
            r == self.send_route,
    {
        self.send_route
    }

    /// Chooses anew where to send to, from the locators of the reader and from how the
    /// messages of its participant came in.
    pub fn resolve_send_route(
        &mut self,
        observations: &InterfaceObservations,
        local_multicast_ifaces: &Vec<InterfaceSelector>,
        selector: &DefaultRouteSelector,
    )
        ensures
            final(self).send_route == selector.route(
                old(self).unicast_locator_list@,
                old(self).multicast_locator_list@,
                old(self).loopback_unicast_locators@,
                observations.spec_get(old(self).remote_reader_guid.prefix),
                local_multicast_ifaces@,
            ),
            final(self).max_datagram_payload == old(self).max_datagram_payload,
            final(self).same_identity(*old(self)),
            final(self).same_places(*old(self)),
            final(self).same_policies(*old(self)),
            final(self).same_progress(*old(self)),
    {
        let observed = observations.get(self.remote_reader_guid.prefix);
        self.send_route = selector.select(
            &self.unicast_locator_list,
            &self.multicast_locator_list,
            &self.loopback_unicast_locators,
            observed,
            local_multicast_ifaces,
        );
    }

    pub fn max_datagram_payload(&self) -> (n: usize)
        ensures
            n == self.max_datagram_payload,
    {
        self.max_datagram_payload
    }

    /// Computes anew how many bytes fit in a datagram to the reader, whichever of its
    /// unicast locators it goes to.
    pub fn resolve_path_mtu(&mut self, local_interfaces: &Vec<IfAddr>)
        ensures
            final(self).max_datagram_payload == (match smallest_budget(
                old(self).unicast_locator_list@ + old(self).loopback_unicast_locators@,
                local_interfaces@,
            ) {
                Some(budget) => budget,
                None => FALLBACK_MAX_AGGREGATED_DATAGRAM_SIZE as int,
            }),
            final(self).send_route == old(self).send_route,
            final(self).same_identity(*old(self)),
            final(self).same_places(*old(self)),
            final(self).same_policies(*old(self)),
            final(self).same_progress(*old(self)),
    {
        let all: Vec<Locator> = joined(&self.unicast_locator_list, &self.loopback_unicast_locators);
        let mut budget: Option<usize> = None;
        let mut i: usize = 0;
        while i < all.len()
            invariant
                i <= all@.len(),
                budget is Some <==> smallest_budget(all@.take(i as int), local_interfaces@) is Some,
                budget matches Some(b) ==> b == smallest_budget(
                    all@.take(i as int),
                    local_interfaces@,
                )->0,
            decreases all@.len() - i,
        {
            let l: Locator = all[i];
            i += 1;
            assert(all@.take(i as int).drop_last() =~= all@.take(i - 1));
            assert(all@.take(i as int).last() == l);
            if let Some(a) = l.socket_addr() {
                let n: usize = path_mtu_payload_for_peer(local_interfaces, a.ip());
                budget = match budget {
                    Some(b) => if b <= n {
                        Some(b)
                    } else {
                        Some(n)
                    },
                    None => Some(n),
                };
            }
        }
        assert(all@.take(i as int) =~= all@);
        self.max_datagram_payload = match budget {
            Some(b) => b,
            None => FALLBACK_MAX_AGGREGATED_DATAGRAM_SIZE,
        };
    }

    /// Takes an acknowledgement in. One that acknowledges more than was ever written is
    /// ignored, as is one for fragments.
    pub fn handle_ack_nack(
        &mut self,
        ack_submessage: &AckSubmessage,
        last_available: SequenceNumber,
    )
        requires
            last_available@ < i64::MAX,
        ensures
            final(self).same_profile(*old(self)),
            final(self).repair_mode == old(self).repair_mode,
            final(self).requested() == old(self).requested(),
            match ack_submessage {
                AckSubmessage::NackFrag(_) => final(self).same_progress(*old(self)),
                AckSubmessage::AckNack(an) => if acked_by(*an) > last_available@ + 1 {
                    final(self).same_progress(*old(self))
                } else {
                    &&& final(self).all_acked_before@ == acked_by(*an)
                    &&& final(self).gaps() == old(self).gaps().filter(|s: int| s >= acked_by(*an))
                    &&& final(self).unsent() == Set::new(
                        |s: int|
                            s <= last_available@ && (an.reader_sn_state.has(s) || (
                            old(self).unsent().contains(s) && s >= acked_by(*an))),
                    )
                    &&& final(self).unsent().finite()
                },
            },
    {
        match ack_submessage {
            AckSubmessage::AckNack(acknack) => {
                let new_all_acked_before: SequenceNumber = if acknack.reader_sn_state.base.value
                    < 1 {
                    SequenceNumber::new(1)
                } else {
                    acknack.reader_sn_state.base
                };
                let max_plausible_acked_before: SequenceNumber = last_available.plus_1();
                if new_all_acked_before.value > max_plausible_acked_before.value {
                    return;
                }
                self.remove_from_unsent_set_all_before(new_all_acked_before);
                self.all_acked_before = new_all_acked_before;
                let ghost kept = self.unsent();
                let ghost start = *self;
                let members: &Vec<SequenceNumber> = &acknack.reader_sn_state.members;
                let mut i: usize = 0;
                while i < members.len()
                    invariant
                        i <= members@.len(),
                        self.same_profile(start),
                        self.all_acked_before == start.all_acked_before,
                        self.repair_mode == start.repair_mode,
                        self.gaps() == start.gaps(),
                        self.requested() == start.requested(),
                        forall|s: int| #[trigger]
                            self.unsent().contains(s) <==> kept.contains(s) || exists|j: int|
                                0 <= j < i && (#[trigger] members@[j])@ == s,
                    decreases members@.len() - i,
                {
                    let ghost before = self.unsent();
                    self.unsent_changes.insert(members[i], ());
                    i += 1;
                    proof {
                        assert forall|s: int| #[trigger]
                            self.unsent().contains(s) <==> kept.contains(s) || exists|j: int|
                                0 <= j < i && (#[trigger] members@[j])@ == s by {
                            assert(self.unsent().contains(s) <==> before.contains(s) || s
                                == members@[i - 1]@);
                            if before.contains(s) && !kept.contains(s) {
                                let j = choose|j: int| 0 <= j < i - 1 && (#[trigger] members@[j])@ == s;
                                assert(members@[j]@ == s);
                            }
                        }
                    }
                }
                let too_high: bool = match self.unsent_changes.last_key() {
                    Some(high) => high.value > last_available.value,
                    None => false,
                };
                let ghost asked = self.unsent_changes@;
                assert(asked.dom() == self.unsent());
                assert forall|s: int| #[trigger] asked.contains_key(s) <==> kept.contains(s)
                    || acknack.reader_sn_state.has(s) by {
                    assert(asked.contains_key(s) <==> self.unsent().contains(s));
                }
                if too_high {
                    self.unsent_changes.drop_from(&max_plausible_acked_before);
                }
                let bound: SequenceNumber = self.all_acked_before;
                self.pending_gap.drop_before(&bound);
                proof {
                    let an = *acknack;
                    assert(self.gaps() =~= old(self).gaps().filter(|s: int| s >= acked_by(an)));
                    assert forall|s: int| #[trigger] self.unsent().contains(s) <==> s
                        <= last_available@ && asked.contains_key(s) by {
                        assert(asked.contains_key(s) <==> asked.dom().contains(s));
                    }
                    assert(self.unsent() =~= Set::new(
                        |s: int|
                            s <= last_available@ && (an.reader_sn_state.has(s) || (
                            old(self).unsent().contains(s) && s >= acked_by(an))),
                    ));
                }
            },
            AckSubmessage::NackFrag(_nack_frag) => {},
        }
    }

    /// Notes that the reader will not get this sample.
    pub fn insert_pending_gap(&mut self, seq_num: SequenceNumber)
        ensures
            final(self).gaps() == old(self).gaps().insert(seq_num@),
            final(self).unsent() == old(self).unsent(),
            final(self).requested() == old(self).requested(),
            final(self).all_acked_before == old(self).all_acked_before,
            final(self).repair_mode == old(self).repair_mode,
            final(self).same_profile(*old(self)),
    {
        self.pending_gap.insert(seq_num, ());
        assert(self.gaps() =~= old(self).gaps().insert(seq_num@));
    }

    /// Notes that the reader will not get the samples from the first to `last_gap_sn`.
    pub fn set_pending_gap_up_to(&mut self, last_gap_sn: SequenceNumber)
        ensures
            final(self).gaps() == old(self).gaps().union(
                Set::new(|s: int| 1 <= s <= last_gap_sn@),
            ),
            final(self).unsent() == old(self).unsent(),
            final(self).requested() == old(self).requested(),
            final(self).all_acked_before == old(self).all_acked_before,
            final(self).repair_mode == old(self).repair_mode,
            final(self).same_profile(*old(self)),
    {
        let ghost start = self.gaps();
        if last_gap_sn.value < 1 {
            assert(start =~= start.union(Set::new(|s: int| 1 <= s <= last_gap_sn@)));
            return;
        }
        let mut s: i64 = 1;
        loop
            invariant_except_break
                self.gaps() =~= start.union(Set::new(|x: int| 1 <= x < s)),
            invariant
                1 <= s <= last_gap_sn@,
                self.unsent() == old(self).unsent(),
                self.requested() == old(self).requested(),
                self.all_acked_before == old(self).all_acked_before,
                self.repair_mode == old(self).repair_mode,
                self.same_profile(*old(self)),
            ensures
                self.gaps() =~= start.union(Set::new(|x: int| 1 <= x <= last_gap_sn@)),
            decreases last_gap_sn@ - s,
        {
            self.pending_gap.insert(SequenceNumber::new(s), ());
            if s == last_gap_sn.value {
                break ;
            }
            s = s + 1;
        }
    }

    /// The numbers of the samples that the reader will not get, in ascending order.
    pub fn get_pending_gap(&self) -> (list: Vec<SequenceNumber>)
        ensures
            forall|i: int, j: int| 0 <= i < j < list@.len() ==> list@[i]@ < list@[j]@,
            numbers_of(list@) == self.gaps(),
    {
        numbers_in(&self.pending_gap)
    }

    /// Notes that a new sample is to be sent. Only so many are kept in mind: beyond that
    /// the oldest are forgotten.
    pub fn notify_new_cache_change(&mut self, sequence_number: SequenceNumber)
        ensures
            final(self).unsent() == newest(
                old(self).unsent_changes@.insert(sequence_number@, ()),
                MAX_UNSENT_CHANGES_PER_READER as nat,
            ).dom(),
            final(self).unsent().finite(),
            final(self).unsent().len() <= MAX_UNSENT_CHANGES_PER_READER,
            final(self).gaps() == old(self).gaps(),
            final(self).requested() == old(self).requested(),
            final(self).all_acked_before == old(self).all_acked_before,
            final(self).repair_mode == old(self).repair_mode,
            final(self).same_profile(*old(self)),
    {
        self.unsent_changes.insert(sequence_number, ());
        let _dropped: Option<SequenceNumber> = self.unsent_changes.keep_newest(
            MAX_UNSENT_CHANGES_PER_READER,
        );
    }

    /// How many samples are to be sent to the reader.
    pub fn unsent_changes_count(&self) -> (n: usize)
        ensures
            n == self.unsent().len(),
    {
        self.unsent_changes.len()
    }

    pub fn acked_up_to_before(&self) -> (sn: SequenceNumber)
        ensures
            sn == self.all_acked_before,
    {
        self.all_acked_before
    }

    /// Notes that all fragments of a sample are asked for.
    pub fn mark_all_frags_requested(&mut self, seq_num: SequenceNumber, frag_count: u32)
        ensures
            final(self).requested() == old(self).requested().insert(
                seq_num@,
                Seq::new(frag_count as nat, |i: int| true),
            ),
            final(self).unsent() == old(self).unsent(),
            final(self).gaps() == old(self).gaps(),
            final(self).all_acked_before == old(self).all_acked_before,
            final(self).repair_mode == old(self).repair_mode,
            final(self).same_profile(*old(self)),
    {
        self.frags_requested.insert(seq_num, bits_from_elem(frag_count as usize, true));
        assert(self.requested() =~= old(self).requested().insert(
            seq_num@,
            Seq::new(frag_count as nat, |i: int| true),
        ));
    }

    /// Notes that some fragments of a sample are asked for. Fragments are numbered from
    /// one.
    pub fn mark_frags_requested(&mut self, seq_num: SequenceNumber, frag_nums: &FragmentNumberSet)
        requires
            forall|i: int| 0 <= i < frag_nums.members@.len() ==> (
            #[trigger] frag_nums.members@[i])@ >= 1,
        ensures
            final(self).requested() == old(self).requested().insert(
                seq_num@,
                with_frags_set(
                    if old(self).requested().contains_key(seq_num@) {
                        old(self).requested()[seq_num@]
                    } else {
                        Seq::empty()
                    },
                    frag_nums.members@,
                ),
            ),
            final(self).unsent() == old(self).unsent(),
            final(self).gaps() == old(self).gaps(),
            final(self).all_acked_before == old(self).all_acked_before,
            final(self).repair_mode == old(self).repair_mode,
            final(self).same_profile(*old(self)),
    {
        let mut req_set: BitVec<u32> = match self.frags_requested.remove(&seq_num) {
            Some(bits) => bits,
            None => bits_with_capacity(64),
        };
        let ghost start = bits_of(req_set);
        let members: &Vec<FragmentNumber> = &frag_nums.members;
        let mut i: usize = 0;
        assert(with_frags_set(start, members@.take(0)) =~= start);
        while i < members.len()
            invariant
                i <= members@.len(),
                forall|k: int| 0 <= k < members@.len() ==> (#[trigger] members@[k])@ >= 1,
                bits_of(req_set) == with_frags_set(start, members@.take(i as int)),
            decreases members@.len() - i,
        {
            assert(members@[i as int]@ >= 1);
            let f: FragmentNumber = members[i];
            let idx: usize = f.value as usize - 1;
            let len: usize = bits_len(&req_set);
            let ghost before = bits_of(req_set);
            if idx >= len {
                bits_grow(&mut req_set, idx + 1 - len, false);
            }
            bits_set(&mut req_set, idx, true);
            i += 1;
            proof {
                let shorter = members@.take(i - 1);
                let longer = members@.take(i as int);
                assert(longer.drop_last() =~= shorter);
                assert(longer.last() == f);
                assert(longer =~= shorter.push(f));
                assert forall|n: int| #[trigger]
                    names_fragment(longer, n) <==> names_fragment(shorter, n) || n == f@ by {
                    if names_fragment(shorter, n) {
                        let k = choose|k: int| 0 <= k < shorter.len() && (#[trigger] shorter[k])@ == n;
                        assert(longer[k]@ == n);
                    }
                    if names_fragment(longer, n) && n != f@ {
                        let k = choose|k: int| 0 <= k < longer.len() && (#[trigger] longer[k])@ == n;
                        assert(shorter[k]@ == n);
                    }
                    assert(longer[i - 1] == f);
                }
                lemma_bits_needed(start.len(), shorter);
                assert(bits_of(req_set) =~= with_frags_set(start, longer));
            }
        }
        assert(members@.take(i as int) =~= members@);
        self.frags_requested.insert(seq_num, req_set);
        assert(self.requested() =~= old(self).requested().insert(seq_num@, bits_of(req_set)));
    }

    /// Notes that a fragment was sent. A sample with no more fragments to send is taken
    /// off the list.
    pub fn mark_frag_sent(&mut self, seq_num: SequenceNumber, frag_num: &FragmentNumber)
        requires
            old(self).requested().contains_key(seq_num@) ==> 1 <= frag_num@ <= old(
                self,
            ).requested()[seq_num@].len(),
        ensures
            ({
                let left = old(self).requested()[seq_num@].update(frag_num@ - 1, false);
                final(self).requested() == (if !old(self).requested().contains_key(seq_num@) {
                    old(self).requested()
                } else if some_bit(left) {
                    old(self).requested().insert(seq_num@, left)
                } else {
                    old(self).requested().remove(seq_num@)
                })
            }),
            final(self).unsent() == old(self).unsent(),
            final(self).gaps() == old(self).gaps(),
            final(self).all_acked_before == old(self).all_acked_before,
            final(self).repair_mode == old(self).repair_mode,
            final(self).same_profile(*old(self)),
    {
        assert(self.requested().contains_key(seq_num@) <==> self.frags_requested@.contains_key(
            seq_num@,
        ));
        match self.frags_requested.remove(&seq_num) {
            None => {
                assert(self.requested() =~= old(self).requested());
            },
            Some(mut frag_map) => {
                bits_set(&mut frag_map, frag_num.value as usize - 1, false);
                let ghost left = bits_of(frag_map);
                if bits_none(&frag_map) {
                    assert(!some_bit(left));
                    assert(self.requested() =~= old(self).requested().remove(seq_num@));
                } else {
                    assert(some_bit(left));
                    self.frags_requested.insert(seq_num, frag_map);
                    assert(self.requested() =~= old(self).requested().insert(seq_num@, left));
                }
            },
        }
    }

    /// The fragments to be sent of the first sample of which any are asked for. Whoever
    /// has sent them looks again for those of other samples.
    pub fn frags_requested_iterator(&self) -> (it: FragBitVecIterator)
        ensures
            it.frag_count@ == 1,
            self.requested() == Map::<int, Seq<bool>>::empty() ==> bits_of(it.bitvec) == Seq::<
                bool,
            >::empty(),
            self.requested() != Map::<int, Seq<bool>>::empty() ==> ({
                let sn = it.sequence_number@;
                &&& self.requested().contains_key(sn)
                &&& bits_of(it.bitvec) == self.requested()[sn]
                &&& forall|s: int| #[trigger] self.requested().contains_key(s) ==> sn <= s
            }),
    {
        match self.frags_requested.first_key() {
            None => {
                assert(self.requested() =~= Map::empty());
                FragBitVecIterator::new(SequenceNumber::default(), bits_new())
            },
            Some(sn) => {
                assert(self.requested().contains_key(sn@));
                assert(forall|s: int| #[trigger]
                    self.requested().contains_key(s) ==> self.frags_requested@.contains_key(s));
                match self.frags_requested.get(&sn) {
                    Some(bv) => FragBitVecIterator::new(sn, bits_clone(bv)),
                    None => FragBitVecIterator::new(sn, bits_new()),
                }
            },
        }
    }

    /// Is any fragment of any sample to be sent?
    pub fn repair_frags_requested(&self) -> (r: bool)
        ensures
            r == (exists|s: int| #[trigger]
                self.requested().contains_key(s) && some_bit(self.requested()[s])),
    {
        let n: usize = self.frags_requested.len();
        let mut i: usize = 0;
        while i < n
            invariant
                i <= n,
                n == self.frags_requested.keys().len(),
                self.frags_requested.listed(),
                forall|j: int|
                    0 <= j < i ==> !some_bit(
                        self.requested()[(#[trigger] self.frags_requested.keys()[j]).rank()],
                    ),
            decreases n - i,
        {
            let ghost s = self.frags_requested.keys()[i as int].rank();
            let v: &BitVec<u32> = self.frags_requested.value_at(i);
            assert(self.requested().contains_key(s));
            assert(self.requested()[s] == bits_of(*v));
            if bits_any(v) {
                assert(some_bit(self.requested()[s]));
                return true;
            }
            i += 1;
        }
        proof {
            assert forall|s: int| #[trigger]
                self.requested().contains_key(s) implies !some_bit(self.requested()[s]) by {
                assert(self.frags_requested@.contains_key(s));
                let j = choose|j: int|
                    0 <= j < self.frags_requested.keys().len() && (
                    #[trigger] self.frags_requested.keys()[j]).rank() == s;
                assert(!some_bit(self.requested()[self.frags_requested.keys()[j].rank()]));
            }
        }
        false
    }

    /// Can every fragment that is asked for, and the one after it, be numbered?
    pub open spec fn frags_numbered(self) -> bool {
        forall|s: int| #[trigger]
            self.requested().contains_key(s) ==> self.requested()[s].len() < u32::MAX
    }

    /// Tells whether every fragment that is asked for, and the one after it, can be
    /// numbered.
    pub fn frags_in_range(&self) -> (r: bool)
        ensures
            r == self.frags_numbered(),
    {
        let n: usize = self.frags_requested.len();
        let mut i: usize = 0;
        while i < n
            invariant
                i <= n,
                n == self.frags_requested.keys().len(),
                self.frags_requested.listed(),
                forall|j: int|
                    0 <= j < i ==> self.requested()[(
                    #[trigger] self.frags_requested.keys()[j]).rank()].len() < u32::MAX,
            decreases n - i,
        {
            let ghost s = self.frags_requested.keys()[i as int].rank();
            let v: &BitVec<u32> = self.frags_requested.value_at(i);
            assert(self.requested().contains_key(s));
            assert(self.requested()[s] == bits_of(*v));
            if bits_len(v) >= u32::MAX as usize {
                return false;
            }
            i += 1;
        }
        proof {
            assert forall|s: int| #[trigger]
                self.requested().contains_key(s) implies self.requested()[s].len() < u32::MAX by {
                assert(self.frags_requested@.contains_key(s));
                let j = choose|j: int|
                    0 <= j < self.frags_requested.keys().len() && (
                    #[trigger] self.frags_requested.keys()[j]).rank() == s;
                assert(self.requested()[self.frags_requested.keys()[j].rank()].len() < u32::MAX);
            }
        }
        true
    }
}

/// A filter that keeps everything changes nothing, and one that keeps nothing leaves
/// nothing.
proof fn lemma_filter_all(list: Seq<Locator>, keep: spec_fn(Locator) -> bool, all: bool)
    requires
        forall|i: int| 0 <= i < list.len() ==> keep(#[trigger] list[i]) == all,
    ensures
        list.filter(keep) == (if all {
            list
        } else {
            Seq::<Locator>::empty()
        }),
    decreases list.len(),
{
    reveal(Seq::filter);
    if list.len() > 0 {
        let rest = list.drop_last();
        assert forall|i: int| 0 <= i < rest.len() implies keep(#[trigger] rest[i]) == all by {
            assert(rest[i] == list[i]);
        }
        lemma_filter_all(rest, keep, all);
        assert(keep(list[list.len() - 1]) == all);
        assert(rest.push(list.last()) =~= list);
    } else {
        assert(list =~= Seq::empty());
    }
}

/// Lists that are apart already are the parts of what they make together.
proof fn lemma_parts_of_proxy(p: RtpsReaderProxy)
    ensures
        p.loopback_apart() ==> external_part(p.all_unicast()) == p.unicast_locator_list@
            && loopback_part(p.all_unicast()) == p.loopback_unicast_locators@,
{
    if p.loopback_apart() {
        let u = p.unicast_locator_list@;
        let l = p.loopback_unicast_locators@;
        let outer = |x: Locator| !x.spec_is_loopback();
        let inner = |x: Locator| x.spec_is_loopback();
        assert forall|i: int| 0 <= i < u.len() implies !(#[trigger] u[i]).spec_is_loopback() by {
            assert(!has_loopback(u));
        }
        lemma_filter_all(u, outer, true);
        lemma_filter_all(u, inner, false);
        lemma_filter_all(l, outer, false);
        lemma_filter_all(l, inner, true);
        Seq::filter_distributes_over_add(u, l, outer);
        Seq::filter_distributes_over_add(u, l, inner);
        assert(u + Seq::<Locator>::empty() =~= u);
        assert(Seq::<Locator>::empty() + l =~= l);
    }
}

/// The parts of a list of locators are what they are called.
proof fn lemma_parts_are_apart(locators: Seq<Locator>)
    ensures
        !has_loopback(external_part(locators)),
        forall|i: int|
            0 <= i < loopback_part(locators).len() ==> (
            #[trigger] loopback_part(locators)[i]).spec_is_loopback(),
{
    let outer = |l: Locator| !l.spec_is_loopback();
    let inner = |l: Locator| l.spec_is_loopback();
    assert forall|i: int| 0 <= i < external_part(locators).len() implies !(
    #[trigger] external_part(locators)[i]).spec_is_loopback() by {
        locators.lemma_filter_pred(outer, i);
    }
    assert forall|i: int| 0 <= i < loopback_part(locators).len() implies (
    #[trigger] loopback_part(locators)[i]).spec_is_loopback() by {
        locators.lemma_filter_pred(inner, i);
    }
}

/// The keys of a set of sequence numbers in ascending order.
pub(crate) fn numbers_in(set: &SortedMap<SequenceNumber, ()>) -> (list: Vec<SequenceNumber>)
    ensures
        forall|i: int, j: int| 0 <= i < j < list@.len() ==> list@[i]@ < list@[j]@,
        numbers_of(list@) == set@.dom(),
{
    let list: Vec<SequenceNumber> = set.key_list();
    proof {
        assert forall|i: int, j: int| 0 <= i < j < list@.len() implies list@[i]@ < list@[j]@ by {
            assert(set.keys()[i].rank() < set.keys()[j].rank());
        }
        assert forall|s: int| numbers_of(list@).contains(s) <==> set@.dom().contains(s) by {
            if numbers_of(list@).contains(s) {
                let i = choose|i: int| 0 <= i < list@.len() && (#[trigger] list@[i])@ == s;
                assert(set@.contains_key(set.keys()[i].rank()));
            }
            if set@.dom().contains(s) {
                assert(set@.contains_key(s));
                let i = choose|i: int| 0 <= i < set.keys().len() && (#[trigger] set.keys()[i]).rank() == s;
                assert(list@[i]@ == s);
            }
        }
        assert(numbers_of(list@) =~= set@.dom());
    }
    list
}

/// What an acknowledgement acknowledges: everything before this number. Numbering starts
/// at one, so a base below one says the same as one.
pub open spec fn acked_by(an: AckNack) -> int {
    if an.reader_sn_state.base@ < 1 {
        1
    } else {
        an.reader_sn_state.base@
    }
}

/// The locators of a listener.
pub open spec fn locators_at(
    self_locators: Map<usize, Vec<Locator>>,
    token: usize,
) -> Seq<Locator> {
    if self_locators.contains_key(token) {
        self_locators[token]@
    } else {
        Seq::empty()
    }
}

fn find_locators_at(self_locators: &HashMap<usize, Vec<Locator>>, token: usize) -> (r: Vec<Locator>)
    ensures
        r@ == locators_at(self_locators@, token),
{
    broadcast use vstd::std_specs::hash::group_hash_axioms;

    match self_locators.get(&token) {
        Some(locators) => copy_locators(locators),
        None => Vec::new(),
    }
}

/// Walks through the fragments of one sample whose bits are set.
pub struct FragBitVecIterator {
    pub sequence_number: SequenceNumber,
    /// The fragment to look at next.
    pub frag_count: FragmentNumber,
    pub bitvec: BitVec<u32>,
}

/// The first position at or after `from` where a bit is set.
pub open spec fn next_set(bits: Seq<bool>, from: int) -> Option<int>
    decreases bits.len() - from,
{
    if from >= bits.len() {
        None
    } else if bits[from] {
        Some(from)
    } else {
        next_set(bits, from + 1)
    }
}

impl FragBitVecIterator {
    pub fn new(sequence_number: SequenceNumber, bv: BitVec<u32>) -> (it: FragBitVecIterator)
        ensures
            it.sequence_number == sequence_number,
            it.frag_count@ == 1,
            it.bitvec == bv,
    {
        FragBitVecIterator { sequence_number, frag_count: FragmentNumber::new(1), bitvec: bv }
    }

    /// The next fragment whose bit is set.
    pub fn next(&mut self) -> (r: Option<(SequenceNumber, FragmentNumber)>)
        requires
            old(self).frag_count@ >= 1,
            bits_of(old(self).bitvec).len() < u32::MAX,
        ensures
            final(self).sequence_number == old(self).sequence_number,
            final(self).bitvec == old(self).bitvec,
            final(self).frag_count@ >= 1,
            match next_set(bits_of(old(self).bitvec), old(self).frag_count@ - 1) {
                None => r is None && final(self).frag_count == old(self).frag_count,
                Some(i) => r matches Some((sn, f)) && sn == old(self).sequence_number && f@ == i
                    + 1 && final(self).frag_count@ == i + 2,
            },
    {
        let len: usize = bits_len(&self.bitvec);
        let mut f: u32 = self.frag_count.value;
        while f as usize <= len && bits_get(&self.bitvec, (f - 1) as usize) == Some(false)
            invariant
                f >= 1,
                len == bits_of(self.bitvec).len(),
                len < u32::MAX,
                next_set(bits_of(self.bitvec), self.frag_count@ - 1) == next_set(
                    bits_of(self.bitvec),
                    f - 1,
                ),
            decreases u32::MAX - f,
        {
            f = f + 1;
        }
        if f as usize > len {
            None
        } else {
            self.frag_count = FragmentNumber::new(f + 1);
            Some((self.sequence_number, FragmentNumber::new(f)))
        }
    }
}

proof fn lemma_parts_of_extended(locators: Seq<Locator>, l: Locator)
    ensures
        external_part(locators.push(l)) == (if l.spec_is_loopback() {
            external_part(locators)
        } else {
            external_part(locators).push(l)
        }),
        loopback_part(locators.push(l)) == (if l.spec_is_loopback() {
            loopback_part(locators).push(l)
        } else {
            loopback_part(locators)
        }),
{
    reveal(Seq::filter);
    assert(locators.push(l).drop_last() =~= locators);
}

/// Parting locators by whether they are of the loopback interface loses none and invents
/// none.
pub proof fn law_parting_keeps_every_locator(locators: Seq<Locator>)
    ensures
        external_part(locators).to_multiset().add(loopback_part(locators).to_multiset())
            == locators.to_multiset(),
    decreases locators.len(),
{
    broadcast use vstd::seq_lib::group_to_multiset_ensures;

    if locators.len() == 0 {
        assert(external_part(locators) =~= Seq::empty()) by {
            reveal(Seq::filter);
        }
        assert(loopback_part(locators) =~= Seq::empty()) by {
            reveal(Seq::filter);
        }
        assert(external_part(locators).to_multiset().add(loopback_part(locators).to_multiset())
            =~= locators.to_multiset());
    } else {
        let rest = locators.drop_last();
        let l = locators.last();
        assert(rest.push(l) =~= locators);
        law_parting_keeps_every_locator(rest);
        lemma_parts_of_extended(rest, l);
        assert(external_part(locators).to_multiset().add(loopback_part(locators).to_multiset())
            =~= rest.to_multiset().insert(l));
    }
}

/// A sample that is noted as new and then marked as sent leaves no trace, as long as the
/// list of samples to be sent is not full.
pub proof fn law_sent_sample_leaves_no_trace(unsent: Map<int, ()>, sn: int)
    requires
        unsent.dom().finite(),
        unsent.dom().len() < MAX_UNSENT_CHANGES_PER_READER,
        !unsent.contains_key(sn),
    ensures
        newest(unsent.insert(sn, ()), MAX_UNSENT_CHANGES_PER_READER as nat).dom().remove(sn)
            == unsent.dom(),
{
    assert(unsent.insert(sn, ()).dom().remove(sn) =~= unsent.dom());
}

/// A fragment that was asked for alone and sent leaves nothing to send of its sample.
pub proof fn law_sent_fragment_is_no_longer_asked_for(f: FragmentNumber)
    requires
        f@ >= 1,
    ensures
        !some_bit(with_frags_set(Seq::empty(), seq![f]).update(f@ - 1, false)),
{
    let bits = with_frags_set(Seq::empty(), seq![f]);
    assert(seq![f].drop_last() =~= Seq::empty());
    reveal_with_fuel(bits_needed, 2);
    assert(bits.len() == f@);
    assert forall|i: int| 0 <= i < bits.len() && i != f@ - 1 implies !bits[i] by {
        if names_fragment(seq![f], i + 1) {
            let k = choose|k: int| 0 <= k < 1 && (#[trigger] seq![f][k])@ == i + 1;
            assert(seq![f][k] == f);
        }
    }
}

/// Setting the loopback locators apart a second time changes nothing.
pub proof fn law_normalizing_twice_changes_nothing(unicast: Seq<Locator>, loopback: Seq<Locator>)
    ensures
        ({
            let (u, l) = normalized(unicast, loopback);
            &&& normalized(u, l) == (u, l)
            &&& !has_loopback(u)
        }),
{
    lemma_parts_are_apart(unicast + loopback);
}

/// A locator is in the one part or the other by whether it is of the loopback interface.
pub proof fn law_parts_are_by_the_loopback_interface(locators: Seq<Locator>, l: Locator)
    ensures
        external_part(locators).contains(l) <==> locators.contains(l) && !l.spec_is_loopback(),
        loopback_part(locators).contains(l) <==> locators.contains(l) && l.spec_is_loopback(),
    decreases locators.len(),
{
    if locators.len() == 0 {
        assert(external_part(locators) =~= Seq::empty() && loopback_part(locators) =~= Seq::empty())
            by {
            reveal(Seq::filter);
        }
    } else {
        let rest = locators.drop_last();
        let last = locators.last();
        law_parts_are_by_the_loopback_interface(rest, l);
        assert(locators =~= rest.push(last));
        lemma_parts_of_extended(rest, last);
        lemma_pushed(rest, last, l);
        lemma_pushed(external_part(rest), last, l);
        lemma_pushed(loopback_part(rest), last, l);
    }
}

/// A datagram to a reader is sized so that it fits whichever of its UDP locators it goes to,
/// and no smaller than that.
pub proof fn law_budget_fits_every_locator(locators: Seq<Locator>, ifaces: Seq<IfAddr>)
    ensures
        smallest_budget(locators, ifaces) is None <==> forall|i: int|
            0 <= i < locators.len() ==> (#[trigger] locators[i]).spec_socket_addr() is None,
        smallest_budget(locators, ifaces) matches Some(n) ==> {
            &&& forall|i: int|
                0 <= i < locators.len() ==> ((
                #[trigger] locators[i]).spec_socket_addr() matches Some(a) ==> n
                    <= spec_path_mtu_payload_for_peer(ifaces, a.spec_ip()))
            &&& exists|i: int|
                0 <= i < locators.len() && ((
                #[trigger] locators[i]).spec_socket_addr() matches Some(a)
                    && spec_path_mtu_payload_for_peer(ifaces, a.spec_ip()) == n)
        },
    decreases locators.len(),
{
    if locators.len() > 0 {
        let rest = locators.drop_last();
        let n = locators.len() - 1;
        law_budget_fits_every_locator(rest, ifaces);
        assert(locators[n] == locators.last());
        assert(forall|i: int| 0 <= i < n ==> #[trigger] rest[i] == locators[i]);
        let before = smallest_budget(rest, ifaces);
        let now = smallest_budget(locators, ifaces);
        if before is None {
            assert forall|i: int| 0 <= i < n implies (
            #[trigger] locators[i]).spec_socket_addr() is None by {
                assert(rest[i].spec_socket_addr() is None);
            }
        } else {
            assert forall|i: int| 0 <= i < n implies ((
            #[trigger] locators[i]).spec_socket_addr() matches Some(a) ==> before->0
                <= spec_path_mtu_payload_for_peer(ifaces, a.spec_ip())) by {
                assert(rest[i] == locators[i]);
            }
            let i = choose|i: int|
                0 <= i < rest.len() && ((#[trigger] rest[i]).spec_socket_addr() matches Some(a)
                    && spec_path_mtu_payload_for_peer(ifaces, a.spec_ip()) == before->0);
            assert(locators[i] == rest[i]);
            assert(locators[i].spec_socket_addr() is Some);
        }
    }
}

/// A reader that discovery tells of is reached where it says, or where it says nothing,
/// where its participant says; its loopback locators are set apart, and nothing was sent to
/// it, acknowledged by it or withheld from it yet.
pub proof fn law_discovered_reader_starts_afresh(
    data: DiscoveredReaderData,
    default_unicast: Vec<Locator>,
    default_multicast: Vec<Locator>,
    p: RtpsReaderProxy,
    l: Locator,
)
    requires
        call_ensures(
            RtpsReaderProxy::from_discovered_reader_data,
            (&data, &default_unicast, &default_multicast),
            p,
        ),
    ensures
        ({
            let own = data.reader_proxy.unicast_locator_list@;
            let groups = data.reader_proxy.multicast_locator_list@;
            let announced = if own.len() > 0 {
                own
            } else {
                default_unicast@
            };
            &&& p.remote_reader_guid == data.reader_proxy.remote_reader_guid
            &&& p.qos == data.qos
            &&& p.expects_in_line_qos == data.reader_proxy.expects_inline_qos
            &&& p.unicast_locator_list@.contains(l) <==> announced.contains(l)
                && !l.spec_is_loopback()
            &&& p.loopback_unicast_locators@.contains(l) <==> announced.contains(l)
                && l.spec_is_loopback()
            &&& p.multicast_locator_list@ == (if groups.len() > 0 {
                groups
            } else {
                default_multicast@
            })
            &&& p.unsent() == Set::<int>::empty()
            &&& p.gaps() == Set::<int>::empty()
            &&& p.requested() == Map::<int, Seq<bool>>::empty()
            &&& p.all_acked_before@ == 0
            &&& !p.repair_mode
            &&& p.send_route.fallback
        }),
{
    let announced = announced_or_default(
        data.reader_proxy.unicast_locator_list@,
        default_unicast@,
    );
    law_parts_are_by_the_loopback_interface(announced, l);
}

} // verus!
