//! Messages that are encrypted or signed on their way out.
//!
//! The encoding itself is left to the caller, who asks the security plugins for it.

use std::collections::VecDeque;

use vstd::prelude::*;

use crate::rtps::rtps_reader_proxy::RtpsReaderProxy;
use crate::rtps::send_plan::{in_order, lemma_place};
use crate::rtps::writer::Writer;
use crate::structure::guid::{GuidPrefix, GUID};
use crate::structure::sorted_map::SortKey;

verus! {

/// Whom a message is encoded for: each part for readers, and the whole for participants.
pub struct EncodingTargets {
    pub source: GUID,
    pub readers: Vec<GUID>,
    pub source_prefix: GuidPrefix,
    pub prefixes: Vec<GuidPrefix>,
}

/// The identifiers of some readers, in order.
pub open spec fn guids_of(readers: Seq<RtpsReaderProxy>) -> Seq<GUID> {
    readers.map_values(|rp: RtpsReaderProxy| rp.remote_reader_guid)
}

/// The participants of some readers, in order, as often as they occur.
pub open spec fn prefixes_of(readers: Seq<RtpsReaderProxy>) -> Seq<GuidPrefix> {
    readers.map_values(|rp: RtpsReaderProxy| rp.remote_reader_guid.prefix)
}

impl Writer {
    /// Whom a message is encoded for that goes to one reader, or to all where none is named.
    /// Nobody where security is not in use: the message goes out as it is.
    pub fn encoding_targets(&self, to: Option<GUID>) -> (r: Option<EncodingTargets>)
        requires
            self.wf(),
        ensures
            r is Some <==> self.security,
            r matches Some(t) ==> {
                &&& t.source == self.my_guid
                &&& t.source_prefix == self.my_guid.prefix
                &&& match to {
                    Some(reader) => t.readers@ == seq![reader] && t.prefixes@ == seq![
                        reader.prefix,
                    ],
                    None => t.readers@ == guids_of(in_order(self.readers)) && t.prefixes@
                        == prefixes_of(in_order(self.readers)),
                }
            },
    {
        if !self.security {
            return None;
        }
        let source: GUID = self.my_guid;
        let source_prefix: GuidPrefix = self.my_guid.prefix;
        if let Some(reader) = to {
            let readers: Vec<GUID> = vec![reader];
            let prefixes: Vec<GuidPrefix> = vec![reader.prefix];
            return Some(EncodingTargets { source, readers, source_prefix, prefixes });
        }
        let n: usize = self.readers.len();
        let ghost all = in_order(self.readers);
        let mut readers: Vec<GUID> = Vec::new();
        let mut prefixes: Vec<GuidPrefix> = Vec::new();
        let mut i: usize = 0;
        assert(readers@ =~= guids_of(all.take(0)));
        assert(prefixes@ =~= prefixes_of(all.take(0)));
        while i < n
            invariant
                i <= n,
                n == self.readers.keys().len(),
                all == in_order(self.readers),
                readers@ == guids_of(all.take(i as int)),
                prefixes@ == prefixes_of(all.take(i as int)),
            decreases n - i,
        {
            let guid: GUID = self.readers.value_at(i).remote_reader_guid;
            readers.push(guid);
            prefixes.push(guid.prefix);
            i += 1;
            assert(all.take(i as int) =~= all.take(i - 1).push(all[i - 1]));
            assert(readers@ =~= guids_of(all.take(i as int)));
            assert(prefixes@ =~= prefixes_of(all.take(i as int)));
        }
        assert(all.take(i as int) =~= all);
        Some(EncodingTargets { source, readers, source_prefix, prefixes })
    }
}

/// What became of the parts of a message, as far as they could be encoded.
pub open spec fn contents<T>(parts: Seq<Option<Vec<T>>>) -> Seq<T>
    decreases parts.len(),
{
    if parts.len() == 0 {
        Seq::empty()
    } else {
        match parts[0] {
            Some(list) => list@ + contents(parts.skip(1)),
            None => contents(parts.skip(1)),
        }
    }
}

/// Puts a message together from what its parts were encoded to, each to one part or
/// several. There is no message where a part could not be encoded.
pub fn join_encoded<T>(parts: VecDeque<Option<Vec<T>>>) -> (r: Option<Vec<T>>)
    ensures
        r is Some <==> (forall|i: int| 0 <= i < parts@.len() ==> (#[trigger] parts@[i]) is Some),
        r matches Some(list) ==> list@ == contents(parts@),
{
    let ghost all = parts@;
    let ghost mut done: int = 0;
    let mut left = parts;
    let mut joined: Vec<T> = Vec::new();
    proof {
        assert(all.skip(0) =~= all);
        assert(Seq::<T>::empty() + contents(all) =~= contents(all));
    }
    while left.len() > 0
        invariant
            0 <= done <= all.len(),
            left@ == all.skip(done),
            all == parts@,
            forall|i: int| 0 <= i < done ==> (#[trigger] all[i]) is Some,
            joined@ + contents(left@) == contents(all),
        decreases left@.len(),
    {
        let ghost before = joined@;
        let ghost rest = left@;
        assert(rest[0] == all[done]);
        match left.pop_front() {
            Some(Some(list)) => {
                let mut list: Vec<T> = list;
                let ghost added = list@;
                joined.append(&mut list);
                proof {
                    assert(left@ =~= rest.skip(1));
                    assert(contents(rest) == added + contents(rest.skip(1)));
                    assert(joined@ =~= before + added);
                    assert(joined@ + contents(left@) =~= before + contents(rest));
                    done = done + 1;
                    assert(left@ =~= all.skip(done));
                }
            },
            _ => {
                assert(all[done] is None);
                return None;
            },
        }
    }
    assert(contents(left@) =~= Seq::empty());
    assert(joined@ =~= contents(all));
    Some(joined)
}

/// A message is encoded for the one reader that it goes to, or for each matched one, and for
/// its participant; and for nobody else.
pub proof fn law_messages_are_encoded_for_their_readers(
    writer: Writer,
    to: Option<GUID>,
    r: Option<EncodingTargets>,
    guid: GUID,
)
    requires
        writer.wf(),
        writer.readers.listed(),
        call_ensures(Writer::encoding_targets, (&writer, to), r),
    ensures
        r is Some <==> writer.security,
        r matches Some(t) ==> {
            &&& t.source == writer.my_guid
            &&& t.source_prefix == writer.my_guid.prefix
            &&& t.readers@.contains(guid) <==> match to {
                Some(reader) => guid == reader,
                None => writer.readers@.contains_key(guid.rank()),
            }
            &&& t.readers@.contains(guid) ==> t.prefixes@.contains(guid.prefix)
            &&& t.prefixes@.len() == t.readers@.len()
        },
{
    if let Some(t) = r {
        match to {
            Some(reader) => {
                assert(t.readers@[0] == reader);
                assert(t.prefixes@[0] == reader.prefix);
                if t.readers@.contains(guid) {
                    assert(guid == reader);
                }
            },
            None => {
                let all = in_order(writer.readers);
                let keys = writer.readers.keys();
                if t.readers@.contains(guid) {
                    let i = choose|i: int| 0 <= i < t.readers@.len() && t.readers@[i] == guid;
                    assert(writer.readers@.contains_key(keys[i].rank()));
                    assert(all[i].remote_reader_guid == guid);
                    assert(t.prefixes@[i] == guid.prefix);
                }
                if writer.readers@.contains_key(guid.rank()) {
                    let i = lemma_place(writer.readers, guid.rank());
                    GUID::lemma_rank_injective(all[i].remote_reader_guid, guid);
                    assert(t.readers@[i] == guid);
                }
            },
        }
    }
}

/// A message that could be encoded has all of its parts, in order: first those that its
/// first part was encoded to, and then those of the rest.
pub proof fn law_encoded_parts_keep_their_order<T>(first: Vec<T>, rest: Seq<Option<Vec<T>>>)
    ensures
        contents(seq![Some(first)] + rest) == first@ + contents(rest),
        contents(Seq::<Option<Vec<T>>>::empty()) == Seq::<T>::empty(),
{
    let parts = seq![Some(first)] + rest;
    assert(parts.skip(1) =~= rest);
    assert(parts[0] == Some(first));
}

} // verus!
