//! Putting samples together again that came in fragments.

use bit_vec::BitVec;
use bytes::{Bytes, BytesMut};
use vstd::prelude::*;

use crate::dds::ddsdata::{ChangeKind, DDSData, SerializedPayload};
use crate::rtps::constant::FRAGMENT_SIZE;
use crate::rtps::fragmentation::{law_runs_cover_the_sample, FragmentationIter};
use crate::structure::bits::{bits_all, bits_from_elem, bits_get, bits_of, bits_set};
use crate::structure::guid::EntityId;
use crate::structure::octets::{
    buffer_freeze, buffer_len, buffer_of, buffer_overwrite, buffer_resize, buffer_with_capacity,
    bytes_len, bytes_of,
};
use crate::structure::sequence_number::{FragmentNumber, SequenceNumber};
use crate::structure::sorted_map::{
    below_bound, from_bound, is_newest_bound, is_oldest_bound, lemma_newest_bound_exists,
    lemma_newest_bound_unique, lemma_oldest_bound_exists, lemma_oldest_bound_unique, newest,
    newest_bound, oldest, oldest_bound, SortKey, SortedMap,
};
use crate::structure::time::Timestamp;

verus! {

/// A run of consecutive fragments of a sample.
pub struct DataFrag {
    pub reader_id: EntityId,
    pub writer_id: EntityId,
    pub writer_sn: SequenceNumber,
    /// Number of the first fragment of the run, from 1.
    pub fragment_starting_num: FragmentNumber,
    pub fragments_in_submessage: u16,
    /// Size of the whole sample in bytes.
    pub data_size: u32,
    /// Size of a fragment in bytes; the last fragment may be shorter.
    pub fragment_size: u16,
    pub serialized_payload: Bytes,
}

/// How many fragments of `fragment_size` bytes it takes to hold `data_size` bytes.
pub open spec fn fragments_needed(data_size: int, fragment_size: int) -> int {
    if data_size % fragment_size == 0 {
        data_size / fragment_size
    } else {
        data_size / fragment_size + 1
    }
}

impl DataFrag {
    /// How many fragments the whole sample has.
    pub fn total_number_of_fragments(&self) -> (n: FragmentNumber)
        requires
            self.fragment_size >= 1,
        ensures
            n@ == fragments_needed(self.data_size as int, self.fragment_size as int),
    {
        let size: u32 = self.fragment_size as u32;
        let whole: u32 = self.data_size / size;
        proof {
            let d = self.data_size as int;
            let s = size as int;
            assert(d / s <= d) by (nonlinear_arith)
                requires
                    d >= 0,
                    s >= 1,
            ;
            assert(d % s != 0 ==> d / s < d) by (nonlinear_arith)
                requires
                    d >= 0,
                    s >= 1,
            ;
        }
        if self.data_size % size == 0 {
            FragmentNumber::new(whole)
        } else {
            FragmentNumber::new(whole + 1)
        }
    }
}

/// The content of a buffer in which a sample is put together.
#[verifier::ext_equal]
pub struct Assembly {
    pub bytes: Seq<u8>,
    pub received: Seq<bool>,
    pub created_time: Timestamp,
    pub modified_time: Timestamp,
}

/// `bytes` with those from position `from` on replaced by `patch`.
pub open spec fn overlaid(bytes: Seq<u8>, from: int, patch: Seq<u8>) -> Seq<u8> {
    bytes.take(from) + patch + bytes.skip(from + patch.len())
}

pub open spec fn lesser(a: int, b: int) -> int {
    if a <= b {
        a
    } else {
        b
    }
}

impl Assembly {
    /// An empty buffer for the sample that a fragment belongs to. There is none where the
    /// fragment size is zero or exceeds the size of the sample.
    pub open spec fn fresh(d: DataFrag, now: Timestamp) -> Option<Assembly> {
        if d.fragment_size == 0 || d.fragment_size > d.data_size {
            None
        } else {
            Some(
                Assembly {
                    bytes: Seq::new(d.data_size as nat, |i: int| 0u8),
                    received: Seq::new(
                        fragments_needed(d.data_size as int, d.fragment_size as int) as nat,
                        |i: int| false,
                    ),
                    created_time: now,
                    modified_time: now,
                },
            )
        }
    }

    /// Does the run of fragments lie within the sample?
    pub open spec fn accepts(self, d: DataFrag, frag_size: int) -> bool {
        &&& d.fragments_in_submessage >= 1
        &&& d.fragment_starting_num@ >= 1
        &&& d.fragment_starting_num@ - 1 + d.fragments_in_submessage <= self.received.len()
        &&& (d.fragment_starting_num@ - 1) * frag_size <= self.bytes.len()
    }

    /// The buffer with a run of fragments copied in: as many bytes as the run announces,
    /// as it carries, and as there is room for.
    pub open spec fn with_frags(self, d: DataFrag, frag_size: int, now: Timestamp) -> Assembly {
        let first = d.fragment_starting_num@ - 1;
        let count = d.fragments_in_submessage as int;
        let from = first * frag_size;
        let carried = bytes_of(d.serialized_payload);
        let n = lesser(
            lesser(count * frag_size, carried.len() as int),
            self.bytes.len() - from,
        );
        Assembly {
            bytes: overlaid(self.bytes, from, carried.take(n)),
            received: Seq::new(
                self.received.len(),
                |i: int| self.received[i] || first <= i < first + count,
            ),
            created_time: self.created_time,
            modified_time: now,
        }
    }

    pub open spec fn complete(self) -> bool {
        forall|i: int| 0 <= i < self.received.len() ==> #[trigger] self.received[i]
    }

    /// Are some fragments here, but not all?
    pub open spec fn partial(self) -> bool {
        &&& exists|i: int| 0 <= i < self.received.len() && #[trigger] self.received[i]
        &&& !self.complete()
    }
}

/// Buffer for the assembly of a single sample.
pub struct AssemblyBuffer {
    pub buffer_bytes: BytesMut,
    pub fragment_count: usize,
    pub received_bitmap: BitVec<u32>,
    pub created_time: Timestamp,
    pub modified_time: Timestamp,
}

impl View for AssemblyBuffer {
    type V = Assembly;

    open spec fn view(&self) -> Assembly {
        Assembly {
            bytes: buffer_of(self.buffer_bytes),
            received: bits_of(self.received_bitmap),
            created_time: self.created_time,
            modified_time: self.modified_time,
        }
    }
}

impl AssemblyBuffer {
    pub open spec fn wf(self) -> bool {
        &&& self@.received.len() == self.fragment_count
        &&& self.fragment_count <= u32::MAX
    }

    /// A buffer for the sample that `datafrag` belongs to, with nothing received yet.
    pub fn new(datafrag: &DataFrag, now: Timestamp) -> (r: Option<Self>)
        requires
            datafrag.data_size <= isize::MAX,
        ensures
            r is Some <==> Assembly::fresh(*datafrag, now) is Some,
            r matches Some(ab) ==> ab.wf() && Some(ab@) == Assembly::fresh(*datafrag, now),
    {
        let data_size: usize = datafrag.data_size as usize;
        let fragment_size: u16 = datafrag.fragment_size;
        if fragment_size == 0 || fragment_size as usize > data_size {
            return None;
        }
        let mut buffer_bytes: BytesMut = buffer_with_capacity(data_size);
        buffer_resize(&mut buffer_bytes, data_size, 0);
        let fragment_count: usize = datafrag.total_number_of_fragments().value as usize;
        let ab = AssemblyBuffer {
            buffer_bytes,
            fragment_count,
            received_bitmap: bits_from_elem(fragment_count, false),
            created_time: now,
            modified_time: now,
        };
        assert(ab@ =~= Assembly::fresh(*datafrag, now)->0);
        Some(ab)
    }

    /// Copies a run of fragments in. Gives `false` and changes nothing where the run is
    /// not within the sample.
    pub fn insert_frags(&mut self, datafrag: &DataFrag, frag_size: u16, now: Timestamp) -> (r: bool)
        requires
            old(self).wf(),
        ensures
            final(self).wf(),
            final(self).fragment_count == old(self).fragment_count,
            r == old(self)@.accepts(*datafrag, frag_size as int),
            final(self)@ == (if r {
                old(self)@.with_frags(*datafrag, frag_size as int, now)
            } else {
                old(self)@
            }),
    {
        let frag_size: u64 = frag_size as u64;
        let frags_in_submessage: u64 = datafrag.fragments_in_submessage as u64;
        if frags_in_submessage == 0 {
            return false;
        }
        if datafrag.fragment_starting_num.value == 0 {
            return false;
        }
        let start_frag_from_0: u64 = datafrag.fragment_starting_num.value as u64 - 1;
        if start_frag_from_0 + frags_in_submessage > self.fragment_count as u64 {
            return false;
        }
        proof {
            assert(start_frag_from_0 * frag_size <= 0xFFFF_FFFF * 0xFFFF) by (nonlinear_arith)
                requires
                    0 <= start_frag_from_0 <= 0xFFFF_FFFF,
                    0 <= frag_size <= 0xFFFF,
            ;
            assert(0 <= start_frag_from_0 * frag_size) by (nonlinear_arith)
                requires
                    0 <= start_frag_from_0,
                    0 <= frag_size,
            ;
            assert(0 <= frags_in_submessage * frag_size <= 0xFFFF * 0xFFFF) by (nonlinear_arith)
                requires
                    0 <= frags_in_submessage <= 0xFFFF,
                    0 <= frag_size <= 0xFFFF,
            ;
        }
        let from_byte: u64 = start_frag_from_0 * frag_size;
        let buffer_size: u64 = buffer_len(&self.buffer_bytes) as u64;
        if from_byte > buffer_size {
            return false;
        }
        let announced: u64 = frags_in_submessage * frag_size;
        let carried: u64 = bytes_len(&datafrag.serialized_payload) as u64;
        let offered: u64 = if announced <= carried { announced } else { carried };
        let room: u64 = buffer_size - from_byte;
        let payload_size: u64 = if offered <= room { offered } else { room };
        let ghost before = self@;
        buffer_overwrite(
            &mut self.buffer_bytes,
            from_byte as usize,
            (from_byte + payload_size) as usize,
            &datafrag.serialized_payload,
            payload_size as usize,
        );
        let ghost first = start_frag_from_0 as int;
        let mut f: u64 = 0;
        while f < frags_in_submessage
            invariant
                f <= frags_in_submessage,
                first == start_frag_from_0,
                start_frag_from_0 + frags_in_submessage <= self.fragment_count,
                before.received.len() == self.fragment_count,
                self.fragment_count == old(self).fragment_count,
                self.created_time == before.created_time,
                self@.bytes == overlaid(
                    before.bytes,
                    from_byte as int,
                    bytes_of(datafrag.serialized_payload).take(payload_size as int),
                ),
                self@.received =~= Seq::new(
                    before.received.len(),
                    |i: int| before.received[i] || first <= i < first + f,
                ),
            decreases frags_in_submessage - f,
        {
            bits_set(&mut self.received_bitmap, (start_frag_from_0 + f) as usize, true);
            f = f + 1;
        }
        self.modified_time = now;
        assert(self@ =~= before.with_frags(*datafrag, frag_size as int, now));
        true
    }

    /// Has every fragment been received?
    pub fn is_complete(&self) -> (r: bool)
        ensures
            r == self@.complete(),
    {
        assert(self@.received == bits_of(self.received_bitmap));
        bits_all(&self.received_bitmap)
    }
}

/// How many incomplete samples of one writer are held at most.
pub const MAX_ASSEMBLY_BUFFERS: usize = 128;

/// Puts the samples of one writer together.
pub struct FragmentAssembler {
    /// Bytes per fragment. Each writer has to choose one constant value.
    pub fragment_size: u16,
    pub assembly_buffers: SortedMap<SequenceNumber, AssemblyBuffer>,
    /// Is the reader reliable? This decides which sample goes when there are too many.
    pub reliable: bool,
}

/// The buffers that are left once the limit on their number is enforced. A reliable
/// reader needs the oldest samples first and gets the others again, so the newest go; a
/// best-effort reader gets nothing again, so the oldest go.
pub open spec fn within_limit(
    buffers: Map<int, Assembly>,
    reliable: bool,
) -> Map<int, Assembly> {
    if reliable {
        oldest(buffers, MAX_ASSEMBLY_BUFFERS as nat)
    } else {
        newest(buffers, MAX_ASSEMBLY_BUFFERS as nat)
    }
}

/// The buffer that a run of fragments goes to.
pub open spec fn buffer_for(
    buffers: Map<int, Assembly>,
    d: DataFrag,
    now: Timestamp,
) -> Option<Assembly> {
    if buffers.contains_key(d.writer_sn@) {
        Some(buffers[d.writer_sn@])
    } else {
        Assembly::fresh(d, now)
    }
}

/// The bytes of the sample that a run of fragments completes, if it completes one.
pub open spec fn completed_by(
    buffers: Map<int, Assembly>,
    d: DataFrag,
    frag_size: int,
    now: Timestamp,
) -> Option<Seq<u8>> {
    match buffer_for(buffers, d, now) {
        Some(a) if a.accepts(d, frag_size) && a.with_frags(d, frag_size, now).complete() => Some(
            a.with_frags(d, frag_size, now).bytes,
        ),
        _ => None,
    }
}

/// The buffers after a run of fragments came in. A run that is not accepted leaves no
/// trace.
pub open spec fn buffers_after(
    buffers: Map<int, Assembly>,
    d: DataFrag,
    frag_size: int,
    now: Timestamp,
    reliable: bool,
) -> Map<int, Assembly> {
    match buffer_for(buffers, d, now) {
        None => buffers,
        Some(a) => if !a.accepts(d, frag_size) {
            buffers
        } else if a.with_frags(d, frag_size, now).complete() {
            buffers.remove(d.writer_sn@)
        } else {
            within_limit(
                buffers.insert(d.writer_sn@, a.with_frags(d, frag_size, now)),
                reliable,
            )
        },
    }
}

/// The buffers that were touched at this time or later.
pub open spec fn touched_since(buffers: Map<int, Assembly>, since: Timestamp) -> Map<int, Assembly> {
    buffers.restrict(Set::new(|s: int| buffers[s].modified_time.ticks() >= since.ticks()))
}

/// The sample that is made of reassembled bytes: a value, or where the fragments carried
/// a key, the end of the instance of that key.
pub open spec fn is_sample_of(data: DDSData, bytes: Seq<u8>, key_flag: bool) -> bool {
    match data {
        DDSData::Data { serialized_payload } => !key_flag && serialized_payload.wire() == bytes,
        DDSData::DisposeByKey { change_kind, key } => key_flag && change_kind
            == ChangeKind::NotAliveDisposed && key.wire() == bytes,
        DDSData::DisposeByKeyHash { .. } => false,
    }
}

impl FragmentAssembler {
    pub open spec fn wf(self) -> bool {
        &&& self.assembly_buffers@.dom().finite()
        &&& forall|s: int| #[trigger]
            self.assembly_buffers@.contains_key(s) ==> self.assembly_buffers@[s].wf()
                && self.assembly_buffers@[s]@.partial()
        &&& self.assembly_buffers@.dom().len() <= MAX_ASSEMBLY_BUFFERS
    }

    /// The samples that are being put together, by their numbers.
    pub open spec fn buffers(self) -> Map<int, Assembly> {
        self.assembly_buffers@.map_values(|ab: AssemblyBuffer| ab@)
    }

    pub fn new(fragment_size: u16, reliable: bool) -> (fa: Self)
        ensures
            fa.wf(),
            fa.fragment_size == fragment_size,
            fa.reliable == reliable,
            fa.buffers() == Map::<int, Assembly>::empty(),
    {
        let fa = FragmentAssembler { fragment_size, assembly_buffers: SortedMap::new(), reliable };
        assert(fa.buffers() =~= Map::<int, Assembly>::empty());
        fa
    }

    /// Takes a run of fragments in. Gives the sample where the run completes it; its
    /// buffer is gone then, whether or not its bytes could be read as a payload.
    pub fn new_datafrag(&mut self, datafrag: &DataFrag, key_flag: bool, now: Timestamp) -> (r: Option<
        DDSData,
    >)
        requires
            old(self).wf(),
            datafrag.data_size <= isize::MAX,
        ensures
            final(self).wf(),
            final(self).fragment_size == old(self).fragment_size,
            final(self).reliable == old(self).reliable,
            final(self).buffers() == buffers_after(
                old(self).buffers(),
                *datafrag,
                old(self).fragment_size as int,
                now,
                old(self).reliable,
            ),
            ({
                let completed = completed_by(
                    old(self).buffers(),
                    *datafrag,
                    old(self).fragment_size as int,
                    now,
                );
                &&& r is Some <==> completed is Some && completed->0.len() >= 4
                &&& r matches Some(data) ==> is_sample_of(data, completed->0, key_flag)
            }),
            r matches Some(data) ==> if key_flag {
                data is DisposeByKey
            } else {
                data is Data
            },
    {
        let sn: SequenceNumber = datafrag.writer_sn;
        let frag_size: u16 = self.fragment_size;
        let ghost held = self.assembly_buffers@;
        let ghost buffers = self.buffers();
        assert(buffers.contains_key(sn@) <==> held.contains_key(sn@));
        let known: bool = self.assembly_buffers.contains_key(&sn);
        let mut assembly_buffer: AssemblyBuffer = match self.assembly_buffers.remove(&sn) {
            Some(ab) => ab,
            None => match AssemblyBuffer::new(datafrag, now) {
                Some(ab) => ab,
                None => {
                    assert(self.buffers() =~= buffers);
                    return None;
                },
            },
        };
        let ghost start = assembly_buffer@;
        assert(buffer_for(buffers, *datafrag, now) == Some(start));
        let accepted: bool = assembly_buffer.insert_frags(datafrag, frag_size, now);
        if !accepted {
            if known {
                self.assembly_buffers.insert(sn, assembly_buffer);
            }
            assert(self.assembly_buffers@.dom() =~= held.dom());
            assert(self.buffers() =~= buffers);
            return None;
        }
        proof {
            let first = datafrag.fragment_starting_num@ - 1;
            assert(assembly_buffer@.received[first]);
        }
        if assembly_buffer.is_complete() {
            assert(self.buffers() =~= buffers.remove(sn@));
            let bytes: Bytes = buffer_freeze(assembly_buffer.buffer_bytes);
            match SerializedPayload::from_bytes(&bytes) {
                None => None,
                Some(payload) => if key_flag {
                    Some(DDSData::new_disposed_by_key(ChangeKind::NotAliveDisposed, payload))
                } else {
                    Some(DDSData::new(payload))
                },
            }
        } else {
            self.assembly_buffers.insert(sn, assembly_buffer);
            self.enforce_limit();
            proof {
                let all = buffers.insert(sn@, start.with_frags(*datafrag, frag_size as int, now));
                let grown = held.remove(sn@).insert(sn@, assembly_buffer);
                assert(grown.map_values(|ab: AssemblyBuffer| ab@) =~= all);
            }
            None
        }
    }

    /// Drops buffers until there are no more than the limit allows.
    fn enforce_limit(&mut self)
        requires
            old(self).assembly_buffers@.dom().finite(),
            forall|s: int| #[trigger]
                old(self).assembly_buffers@.contains_key(s) ==> old(self).assembly_buffers@[s].wf()
                    && old(self).assembly_buffers@[s]@.partial(),
        ensures
            final(self).wf(),
            final(self).fragment_size == old(self).fragment_size,
            final(self).reliable == old(self).reliable,
            final(self).buffers() == within_limit(old(self).buffers(), old(self).reliable),
            final(self).buffers().dom().len() <= MAX_ASSEMBLY_BUFFERS,
    {
        let ghost cap = MAX_ASSEMBLY_BUFFERS as nat;
        let ghost held = self.assembly_buffers@;
        let ghost buffers = self.buffers();
        assert(buffers.dom() =~= held.dom());
        if self.reliable {
            self.assembly_buffers.keep_oldest(MAX_ASSEMBLY_BUFFERS);
            proof {
                if held.dom().len() > cap {
                    let b = oldest_bound(held, cap);
                    assert(below_bound(buffers, b).dom()
                        =~= below_bound(held, b).dom());
                    assert(is_oldest_bound(buffers, cap, b));
                    lemma_oldest_bound_unique(buffers, cap, b);
                }
                assert(self.buffers() =~= oldest(buffers, cap));
            }
        } else {
            let dropped: Option<SequenceNumber> = self.assembly_buffers.keep_newest(
                MAX_ASSEMBLY_BUFFERS,
            );
            proof {
                if held.dom().len() > cap {
                    let b = newest_bound(held, cap);
                    assert(from_bound(buffers, b).dom() =~= from_bound(held, b).dom());
                    assert(is_newest_bound(buffers, cap, b));
                    lemma_newest_bound_unique(buffers, cap, b);
                }
                assert(self.buffers() =~= newest(buffers, cap));
            }
        }
        assert(self.buffers().dom() =~= self.assembly_buffers@.dom());
    }

    /// Drops the buffers that were last touched before `expire_before`.
    pub fn garbage_collect_before(&mut self, expire_before: Timestamp)
        requires
            old(self).wf(),
        ensures
            final(self).wf(),
            final(self).fragment_size == old(self).fragment_size,
            final(self).reliable == old(self).reliable,
            final(self).buffers() == touched_since(old(self).buffers(), expire_before),
    {
        let ghost held = self.assembly_buffers@;
        let numbers: Vec<SequenceNumber> = self.assembly_buffers.key_list();
        let mut i: usize = 0;
        while i < numbers.len()
            invariant
                i <= numbers@.len(),
                self.wf(),
                self.fragment_size == old(self).fragment_size,
                self.reliable == old(self).reliable,
                forall|j: int, k: int|
                    0 <= j < k < numbers@.len() ==> numbers@[j].rank() < numbers@[k].rank(),
                forall|j: int|
                    0 <= j < i ==> (self.assembly_buffers@.contains_key(#[trigger] numbers@[j]@) <==>
                    held[numbers@[j]@].modified_time.ticks() >= expire_before.ticks()),
                forall|j: int|
                    i <= j < numbers@.len() ==> self.assembly_buffers@.contains_key(
                        #[trigger] numbers@[j]@,
                    ),
                forall|s: int| #[trigger]
                    self.assembly_buffers@.contains_key(s) ==> held.contains_key(s)
                        && self.assembly_buffers@[s] == held[s],
            decreases numbers@.len() - i,
        {
            let sn: SequenceNumber = numbers[i];
            let stale: bool = match self.assembly_buffers.get(&sn) {
                Some(ab) => ab.modified_time.is_before(&expire_before),
                None => false,
            };
            if stale {
                self.assembly_buffers.remove(&sn);
            }
            i += 1;
        }
        proof {
            let kept = touched_since(old(self).buffers(), expire_before);
            assert forall|s: int| held.contains_key(s) implies (
            #[trigger] self.assembly_buffers@.contains_key(s) <==> held[s].modified_time.ticks()
                >= expire_before.ticks()) by {
                let j = choose|j: int| 0 <= j < numbers@.len() && (#[trigger] numbers@[j]).rank() == s;
                assert(numbers@[j]@ == s);
            }
            assert(self.buffers() =~= kept);
        }
    }

    /// Are some but not all fragments of this sample here?
    pub fn is_partially_received(&self, sn: SequenceNumber) -> (r: bool)
        requires
            self.wf(),
        ensures
            r == self.buffers().contains_key(sn@),
            r ==> self.buffers()[sn@].partial(),
    {
        self.assembly_buffers.contains_key(&sn)
    }

    /// The fragments of a partially received sample that are not here, in ascending
    /// order. Nothing is missing of a sample that is not being put together.
    pub fn missing_frags_for(&self, seq: SequenceNumber) -> (missing: Vec<FragmentNumber>)
        requires
            self.wf(),
        ensures
            forall|i: int, j: int| 0 <= i < j < missing@.len() ==> missing@[i]@ < missing@[j]@,
            forall|n: FragmentNumber| #[trigger]
                missing@.contains(n) <==> self.buffers().contains_key(seq@) && 1 <= n@
                    <= self.buffers()[seq@].received.len() && !self.buffers()[seq@].received[n@ - 1],
            missing@.len() > 0 <==> self.buffers().contains_key(seq@),
    {
        let mut missing: Vec<FragmentNumber> = Vec::new();
        match self.assembly_buffers.get(&seq) {
            None => {},
            Some(ab) => {
                let ghost received = ab@.received;
                assert(self.buffers()[seq@].received == received);
                let mut f: usize = 0;
                while f < ab.fragment_count
                    invariant
                        f <= ab.fragment_count,
                        ab.wf(),
                        received == ab@.received,
                        forall|i: int, j: int|
                            0 <= i < j < missing@.len() ==> missing@[i]@ < missing@[j]@,
                        forall|i: int| 0 <= i < missing@.len() ==> (#[trigger] missing@[i])@ <= f,
                        forall|n: FragmentNumber| #[trigger]
                            missing@.contains(n) <==> 1 <= n@ <= f && !received[n@ - 1],
                    decreases ab.fragment_count - f,
                {
                    let got: bool = match bits_get(&ab.received_bitmap, f) {
                        Some(bit) => bit,
                        None => true,
                    };
                    let ghost before = missing@;
                    if !got {
                        let n = FragmentNumber::new((f + 1) as u32);
                        missing.push(n);
                        assert(missing@.last() == n);
                        assert forall|x: FragmentNumber| #[trigger]
                            missing@.contains(x) <==> before.contains(x) || x == n by {
                            if before.contains(x) {
                                let k = choose|k: int| 0 <= k < before.len() && before[k] == x;
                                assert(missing@[k] == x);
                            }
                        }
                    }
                    f += 1;
                }
                proof {
                    assert(ab@.partial());
                    let i = choose|i: int| 0 <= i < received.len() && !#[trigger] received[i];
                    let n = FragmentNumber { value: (i + 1) as u32 };
                    assert(missing@.contains(n));
                }
            },
        }
        proof {
            if missing@.len() > 0 {
                assert(missing@.contains(missing@[0]));
            }
        }
        missing
    }
}

/// `d` carries a run of fragments of the sample `whole`, cut into fragments of
/// `frag_size` bytes.
pub open spec fn is_run_of(d: DataFrag, whole: Seq<u8>, frag_size: int) -> bool {
    let first = d.fragment_starting_num@ - 1;
    let end = first + d.fragments_in_submessage;
    &&& d.data_size == whole.len()
    &&& d.fragment_size == frag_size
    &&& 1 <= frag_size <= whole.len()
    &&& 1 <= d.fragments_in_submessage
    &&& 0 <= first
    &&& end <= fragments_needed(whole.len() as int, frag_size)
    &&& bytes_of(d.serialized_payload) == whole.subrange(
        first * frag_size,
        lesser(end * frag_size, whole.len() as int),
    )
}

/// The bytes of every fragment that was received are those of the sample `whole`.
pub open spec fn is_part_of(a: Assembly, whole: Seq<u8>, frag_size: int) -> bool {
    &&& a.bytes.len() == whole.len()
    &&& a.received.len() == fragments_needed(whole.len() as int, frag_size)
    &&& forall|p: int|
        #![trigger a.bytes[p]]
        0 <= p < whole.len() && a.received[p / frag_size] ==> a.bytes[p] == whole[p]
}

/// The fragment that byte `p` lies in, and the bounds of that fragment.
proof fn lemma_fragment_of_byte(p: int, len: int, frag_size: int)
    requires
        0 <= p < len,
        1 <= frag_size,
    ensures
        0 <= p / frag_size < fragments_needed(len, frag_size),
        (p / frag_size) * frag_size <= p < (p / frag_size + 1) * frag_size,
{
    let q = p / frag_size;
    vstd::arithmetic::div_mod::lemma_fundamental_div_mod(p, frag_size);
    vstd::arithmetic::div_mod::lemma_fundamental_div_mod(len, frag_size);
    let whole = len / frag_size;
    let rest = len % frag_size;
    assert(0 <= p % frag_size < frag_size && 0 <= rest < frag_size) by (nonlinear_arith)
        requires
            1 <= frag_size,
            rest == len % frag_size,
    ;
    assert(q * frag_size <= p < (q + 1) * frag_size) by (nonlinear_arith)
        requires
            p == frag_size * q + p % frag_size,
            0 <= p % frag_size < frag_size,
    ;
    assert(0 <= q) by (nonlinear_arith)
        requires
            0 <= p < (q + 1) * frag_size,
            1 <= frag_size,
    ;
    if rest == 0 {
        assert(q < whole) by (nonlinear_arith)
            requires
                q * frag_size <= p,
                p < len,
                len == frag_size * whole,
                1 <= frag_size,
        ;
    } else {
        assert(q <= whole) by (nonlinear_arith)
            requires
                q * frag_size <= p,
                p < len,
                len == frag_size * whole + rest,
                rest < frag_size,
                1 <= frag_size,
        ;
    }
}

/// A fresh buffer for a fragment of a sample holds nothing that is not of the sample.
pub proof fn law_fresh_buffer_is_part_of_the_sample(
    d: DataFrag,
    whole: Seq<u8>,
    frag_size: int,
    now: Timestamp,
)
    requires
        is_run_of(d, whole, frag_size),
    ensures
        Assembly::fresh(d, now) matches Some(a) && is_part_of(a, whole, frag_size),
{
    let a = Assembly::fresh(d, now)->0;
    assert(a.received.len() == fragments_needed(whole.len() as int, frag_size)) by {
        lemma_fragment_of_byte(0, whole.len() as int, frag_size);
    }
    assert forall|p: int| #![trigger a.bytes[p]] 0 <= p < whole.len() implies !a.received[p
        / frag_size] by {
        lemma_fragment_of_byte(p, whole.len() as int, frag_size);
    }
}

/// Whatever run of fragments of a sample comes in next, and however it was packed, the
/// buffer takes it and holds nothing that is not of the sample.
pub proof fn law_fragments_come_in_any_order(
    a: Assembly,
    d: DataFrag,
    whole: Seq<u8>,
    frag_size: int,
    now: Timestamp,
)
    requires
        is_part_of(a, whole, frag_size),
        is_run_of(d, whole, frag_size),
    ensures
        a.accepts(d, frag_size),
        is_part_of(a.with_frags(d, frag_size, now), whole, frag_size),
{
    let first = d.fragment_starting_num@ - 1;
    let count = d.fragments_in_submessage as int;
    let len = whole.len() as int;
    let from = first * frag_size;
    let carried = bytes_of(d.serialized_payload);
    let until = lesser((first + count) * frag_size, len);
    let b = a.with_frags(d, frag_size, now);
    assert(from < len) by {
        lemma_last_fragment_starts_inside(len, frag_size);
        assert(first * frag_size < len) by (nonlinear_arith)
            requires
                0 <= first,
                first + 1 <= fragments_needed(len, frag_size),
                (fragments_needed(len, frag_size) - 1) * frag_size < len,
                1 <= frag_size,
        ;
    }
    assert(0 <= from) by (nonlinear_arith)
        requires
            0 <= first,
            1 <= frag_size,
            from == first * frag_size,
    ;
    assert((first + count) * frag_size == from + count * frag_size) by (nonlinear_arith)
        requires
            from == first * frag_size,
    ;
    assert(count * frag_size >= 1) by (nonlinear_arith)
        requires
            count >= 1,
            frag_size >= 1,
    ;
    let n = lesser(lesser(count * frag_size, carried.len() as int), len - from);
    assert(n == until - from);
    assert(carried.take(n) =~= carried);
    assert(b.bytes.len() == len);
    assert forall|p: int|
        #![trigger b.bytes[p]]
        0 <= p < len && b.received[p / frag_size] implies b.bytes[p] == whole[p] by {
        let q = p / frag_size;
        lemma_fragment_of_byte(p, len, frag_size);
        if first <= q < first + count {
            assert(from <= p < (first + count) * frag_size) by (nonlinear_arith)
                requires
                    first <= q,
                    q + 1 <= first + count,
                    q * frag_size <= p,
                    p < (q + 1) * frag_size,
                    from == first * frag_size,
                    1 <= frag_size,
            ;
            assert(b.bytes[p] == carried[p - from]);
        } else {
            assert(!(from <= p < until)) by (nonlinear_arith)
                requires
                    q < first || first + count <= q,
                    q * frag_size <= p,
                    p < (q + 1) * frag_size,
                    from == first * frag_size,
                    until <= (first + count) * frag_size,
                    1 <= frag_size,
            ;
            assert(b.bytes[p] == a.bytes[p]);
        }
    }
}

/// The last of the needed fragments starts before the end of the sample.
proof fn lemma_last_fragment_starts_inside(len: int, frag_size: int)
    requires
        1 <= len,
        1 <= frag_size,
    ensures
        (fragments_needed(len, frag_size) - 1) * frag_size < len,
{
    lemma_fragment_of_byte(len - 1, len, frag_size);
    vstd::arithmetic::div_mod::lemma_fundamental_div_mod(len, frag_size);
    let whole = len / frag_size;
    let rest = len % frag_size;
    assert(0 <= rest) by (nonlinear_arith)
        requires
            1 <= frag_size,
            rest == len % frag_size,
    ;
    if rest == 0 {
        assert((whole - 1) * frag_size < len) by (nonlinear_arith)
            requires
                len == frag_size * whole,
                1 <= frag_size,
        ;
    } else {
        assert(whole * frag_size < len) by (nonlinear_arith)
            requires
                len == frag_size * whole + rest,
                rest > 0,
        ;
    }
}

/// A buffer that holds nothing but the sample, and all of its fragments, holds the
/// sample.
pub proof fn law_complete_buffer_is_the_sample(a: Assembly, whole: Seq<u8>, frag_size: int)
    requires
        is_part_of(a, whole, frag_size),
        a.complete(),
        1 <= frag_size,
    ensures
        a.bytes == whole,
{
    assert forall|p: int| 0 <= p < whole.len() implies a.bytes[p] == whole[p] by {
        lemma_fragment_of_byte(p, whole.len() as int, frag_size);
    }
    assert(a.bytes =~= whole);
}

/// Where all fragments of a number are of one sample, what comes out under that number
/// is that sample, and the buffer that stays behind until then holds nothing else.
pub proof fn law_reassembly_gives_the_sample(
    buffers: Map<int, Assembly>,
    d: DataFrag,
    whole: Seq<u8>,
    frag_size: int,
    now: Timestamp,
)
    requires
        is_run_of(d, whole, frag_size),
        buffers.contains_key(d.writer_sn@) ==> is_part_of(
            buffers[d.writer_sn@],
            whole,
            frag_size,
        ),
    ensures
        buffer_for(buffers, d, now) matches Some(a) && a.accepts(d, frag_size) && is_part_of(
            a.with_frags(d, frag_size, now),
            whole,
            frag_size,
        ),
        completed_by(buffers, d, frag_size, now) matches Some(bytes) ==> bytes == whole,
{
    law_fresh_buffer_is_part_of_the_sample(d, whole, frag_size, now);
    let a = buffer_for(buffers, d, now)->0;
    law_fragments_come_in_any_order(a, d, whole, frag_size, now);
    let b = a.with_frags(d, frag_size, now);
    if b.complete() {
        law_complete_buffer_is_the_sample(b, whole, frag_size);
    }
}

/// A buffer with some runs of fragments copied in, one after the other.
pub open spec fn assembled(a: Assembly, runs: Seq<DataFrag>, now: Timestamp) -> Assembly
    decreases runs.len(),
{
    if runs.len() == 0 {
        a
    } else {
        assembled(a, runs.drop_last(), now).with_frags(
            runs.last(),
            FRAGMENT_SIZE as int,
            now,
        )
    }
}

/// `frags` carry the runs of fragments that a writer cuts the sample `whole` into.
pub open spec fn are_cut_from(frags: Seq<DataFrag>, it: FragmentationIter, whole: Seq<u8>) -> bool {
    let runs = it.runs_from(1);
    &&& it.data_size == whole.len()
    &&& FRAGMENT_SIZE <= whole.len() <= u32::MAX
    &&& frags.len() == runs.len()
    &&& forall|i: int|
        0 <= i < frags.len() ==> is_run_of(#[trigger] frags[i], whole, FRAGMENT_SIZE as int)
            && frags[i].fragment_starting_num@ == runs[i].0 && frags[i].fragments_in_submessage
            == runs[i].1
}

/// After the first `n` runs the buffer holds them and nothing that is not of the sample.
proof fn lemma_assembled(
    a: Assembly,
    frags: Seq<DataFrag>,
    it: FragmentationIter,
    whole: Seq<u8>,
    now: Timestamp,
    n: int,
)
    requires
        are_cut_from(frags, it, whole),
        is_part_of(a, whole, FRAGMENT_SIZE as int),
        0 <= n <= frags.len(),
    ensures
        is_part_of(assembled(a, frags.take(n), now), whole, FRAGMENT_SIZE as int),
        n > 0 ==> forall|j: int|
            0 <= j < it.runs_from(1)[n - 1].0 + it.runs_from(1)[n - 1].1 - 1
                ==> #[trigger] assembled(a, frags.take(n), now).received[j],
    decreases n,
{
    let runs = it.runs_from(1);
    let b = assembled(a, frags.take(n), now);
    if n > 0 {
        assert(frags.take(n).drop_last() =~= frags.take(n - 1));
        assert(frags.take(n).last() == frags[n - 1]);
        lemma_assembled(a, frags, it, whole, now, n - 1);
        let before = assembled(a, frags.take(n - 1), now);
        law_fragments_come_in_any_order(
            before,
            frags[n - 1],
            whole,
            FRAGMENT_SIZE as int,
            now,
        );
        lemma_fragment_of_byte(0, whole.len() as int, FRAGMENT_SIZE as int);
        law_runs_cover_the_sample(it, 1);
        assert forall|j: int| 0 <= j < runs[n - 1].0 + runs[n - 1].1 - 1 implies
            #[trigger] b.received[j] by {
            let first = runs[n - 1].0 - 1;
            assert(j < b.received.len());
            if j < first {
                assert(n - 1 > 0);
                assert(runs[n - 1].0 == runs[n - 2].0 + runs[n - 2].1);
                assert(before.received[j]);
            }
        }
    }
}

/// A sample that a writer cuts into runs of fragments and a reader puts together again is
/// the sample that was written.
pub proof fn law_cut_sample_is_put_together(
    it: FragmentationIter,
    frags: Seq<DataFrag>,
    whole: Seq<u8>,
    now: Timestamp,
)
    requires
        are_cut_from(frags, it, whole),
    ensures
        frags.len() > 0,
        Assembly::fresh(frags[0], now) matches Some(a) && assembled(a, frags, now).complete()
            && assembled(a, frags, now).bytes == whole,
{
    let runs = it.runs_from(1);
    lemma_fragment_of_byte(0, whole.len() as int, FRAGMENT_SIZE as int);
    law_runs_cover_the_sample(it, 1);
    assert(is_run_of(frags[0], whole, FRAGMENT_SIZE as int));
    law_fresh_buffer_is_part_of_the_sample(frags[0], whole, FRAGMENT_SIZE as int, now);
    let a = Assembly::fresh(frags[0], now)->0;
    let n = frags.len() as int;
    lemma_assembled(a, frags, it, whole, now, n);
    assert(frags.take(n) =~= frags);
    let b = assembled(a, frags, now);
    assert(b.complete()) by {
        assert forall|j: int| 0 <= j < b.received.len() implies #[trigger] b.received[j] by {
            assert(runs.last() == runs[n - 1]);
        }
    }
    law_complete_buffer_is_the_sample(b, whole, FRAGMENT_SIZE as int);
}

/// Other samples that are being put together are not touched by a run of fragments; one of
/// them goes only where there are too many. For a reliable reader, which gets everything
/// again, it is a newer one than all that stay; for any other an older one.
pub proof fn law_other_samples_are_left_alone(
    buffers: Map<int, Assembly>,
    d: DataFrag,
    frag_size: int,
    now: Timestamp,
    reliable: bool,
    s: int,
    kept: int,
)
    requires
        buffers.dom().finite(),
        buffers.dom().len() <= MAX_ASSEMBLY_BUFFERS,
        buffers.contains_key(s),
        s != d.writer_sn@,
    ensures
        ({
            let after = buffers_after(buffers, d, frag_size, now, reliable);
            &&& after.contains_key(s) ==> after[s] == buffers[s]
            &&& after.contains_key(kept) && kept != d.writer_sn@ ==> buffers.contains_key(kept)
            &&& !after.contains_key(s) ==> buffers.dom().len() == MAX_ASSEMBLY_BUFFERS
                && after.dom().len() == MAX_ASSEMBLY_BUFFERS
            &&& !after.contains_key(s) && after.contains_key(kept) ==> if reliable {
                kept < s
            } else {
                s < kept
            }
        }),
{
    let after = buffers_after(buffers, d, frag_size, now, reliable);
    let cap = MAX_ASSEMBLY_BUFFERS as nat;
    if let Some(a) = buffer_for(buffers, d, now) {
        let all = buffers.insert(d.writer_sn@, a.with_frags(d, frag_size, now));
        assert(all.dom() =~= buffers.dom().insert(d.writer_sn@));
        if all.dom().len() > cap {
            lemma_newest_bound_exists(all, cap);
            lemma_oldest_bound_exists(all, cap);
        }
    }
}

/// A run of fragments that completes a sample takes its buffer away and gives its bytes
/// out; one that does not complete it stays in the buffer, unless there are too many.
pub proof fn law_sample_stays_until_complete(
    buffers: Map<int, Assembly>,
    d: DataFrag,
    frag_size: int,
    now: Timestamp,
    reliable: bool,
)
    requires
        buffers.dom().finite(),
    ensures
        ({
            let sn = d.writer_sn@;
            let after = buffers_after(buffers, d, frag_size, now, reliable);
            let completed = completed_by(buffers, d, frag_size, now);
            &&& completed is Some ==> !after.contains_key(sn) && forall|s: int|
                s != sn ==> (#[trigger] after.contains_key(s) <==> buffers.contains_key(s))
            &&& completed is None && buffers.dom().len() < MAX_ASSEMBLY_BUFFERS
                && buffers.contains_key(sn) ==> after.contains_key(sn) && forall|i: int|
                0 <= i < after[sn].received.len() ==> (#[trigger] after[sn].received[i]
                    <==> buffers[sn].received[i] || (buffers[sn].accepts(d, frag_size)
                    && d.fragment_starting_num@ <= i + 1 < d.fragment_starting_num@
                    + d.fragments_in_submessage))
        }),
{
    let sn = d.writer_sn@;
    if buffers.contains_key(sn) {
        let all = buffers.insert(sn, buffers[sn].with_frags(d, frag_size, now));
        assert(all.dom() =~= buffers.dom());
    }
}

/// Of a sample that is being put together just those fragments are missing that were not
/// received, and there is at least one; nothing is missing of any other.
pub proof fn law_missing_fragments_were_not_received(
    assembler: FragmentAssembler,
    seq: SequenceNumber,
    missing: Vec<FragmentNumber>,
    partial: bool,
    n: FragmentNumber,
)
    requires
        assembler.wf(),
        call_ensures(FragmentAssembler::missing_frags_for, (&assembler, seq), missing),
        call_ensures(FragmentAssembler::is_partially_received, (&assembler, seq), partial),
    ensures
        partial <==> assembler.assembly_buffers@.contains_key(seq@),
        partial <==> missing@.len() > 0,
        partial ==> {
            let received = assembler.assembly_buffers@[seq@]@.received;
            missing@.contains(n) <==> 1 <= n@ <= received.len() && !received[n@ - 1]
        },
{
}

/// Just those samples are given up of which nothing came in since; a run of fragments that
/// comes in keeps its sample from being given up until later.
pub proof fn law_only_stale_samples_are_given_up(
    buffers: Map<int, Assembly>,
    since: Timestamp,
    s: int,
    a: Assembly,
    d: DataFrag,
    frag_size: int,
    now: Timestamp,
)
    ensures
        touched_since(buffers, since).contains_key(s) <==> buffers.contains_key(s) && !(
        buffers[s].modified_time.ticks() < since.ticks()),
        touched_since(buffers, since).contains_key(s) ==> touched_since(buffers, since)[s]
            == buffers[s],
        a.with_frags(d, frag_size, now).modified_time == now,
        a.with_frags(d, frag_size, now).created_time == a.created_time,
        Assembly::fresh(d, now) matches Some(fresh) ==> fresh.modified_time == now
            && fresh.created_time == now,
{
}

} // verus!
