//! The content of a sample.

use bytes::Bytes;
use vstd::prelude::*;

use crate::structure::octets::{bytes_at, bytes_from_vec, bytes_len, bytes_of, bytes_slice_from};

verus! {

/// What happened to the instance that a sample is about.
#[derive(Clone, Copy, Debug, PartialEq, Eq, Structural, Hash, PartialOrd, Ord)]
pub enum ChangeKind {
    Alive,
    NotAliveDisposed,
    NotAliveUnregistered,
}

/// The two bytes that tell how a payload is encoded.
#[derive(Clone, Copy, Debug, PartialEq, Eq, Structural, Hash, PartialOrd, Ord)]
pub struct RepresentationIdentifier {
    pub byte_0: u8,
    pub byte_1: u8,
}

impl RepresentationIdentifier {
    #[verifier::allow_in_spec]
    pub fn cdr_le() -> (r: RepresentationIdentifier)
        returns
            (RepresentationIdentifier { byte_0: 0x00, byte_1: 0x01 }),
    {
        RepresentationIdentifier { byte_0: 0x00, byte_1: 0x01 }
    }
}

/// A serialized value with the header that says how to read it.
#[derive(Debug)]
pub struct SerializedPayload {
    pub representation_identifier: RepresentationIdentifier,
    pub option_0: u8,
    pub option_1: u8,
    pub value: Bytes,
}

impl Clone for SerializedPayload {
    fn clone(&self) -> (copy: Self)
        ensures
            copy.same_content(*self),
    {
        SerializedPayload {
            representation_identifier: self.representation_identifier,
            option_0: self.option_0,
            option_1: self.option_1,
            value: self.value.clone(),
        }
    }
}

impl SerializedPayload {
    /// The header and the bytes of the value are as in `other`.
    pub open spec fn same_content(self, other: Self) -> bool {
        &&& self.representation_identifier == other.representation_identifier
        &&& self.option_0 == other.option_0
        &&& self.option_1 == other.option_1
        &&& bytes_of(self.value) == bytes_of(other.value)
    }

    /// The payload as it goes over the wire.
    pub open spec fn wire(self) -> Seq<u8> {
        seq![
            self.representation_identifier.byte_0,
            self.representation_identifier.byte_1,
            self.option_0,
            self.option_1,
        ] + bytes_of(self.value)
    }

    pub fn new(representation_identifier: RepresentationIdentifier, value: Vec<u8>) -> (p: Self)
        ensures
            p.representation_identifier == representation_identifier,
            p.option_0 == 0,
            p.option_1 == 0,
            bytes_of(p.value) == value@,
    {
        SerializedPayload {
            representation_identifier,
            option_0: 0,
            option_1: 0,
            value: bytes_from_vec(value),
        }
    }

    /// Reads a payload from the wire. The header takes four bytes; there is no payload
    /// in fewer.
    pub fn from_bytes(bytes: &Bytes) -> (r: Option<Self>)
        ensures
            r is Some <==> bytes_of(*bytes).len() >= 4,
            r matches Some(p) ==> p.wire() == bytes_of(*bytes),
    {
        if bytes_len(bytes) < 4 {
            return None;
        }
        let p = SerializedPayload {
            representation_identifier: RepresentationIdentifier {
                byte_0: bytes_at(bytes, 0),
                byte_1: bytes_at(bytes, 1),
            },
            option_0: bytes_at(bytes, 2),
            option_1: bytes_at(bytes, 3),
            value: bytes_slice_from(bytes, 4),
        };
        assert(p.wire() =~= bytes_of(*bytes));
        Some(p)
    }

    /// The number of bytes on the wire.
    pub fn len_serialized(&self) -> (n: usize)
        requires
            bytes_of(self.value).len() + 4 <= usize::MAX,
        ensures
            n == self.wire().len(),
    {
        4 + bytes_len(&self.value)
    }
}

/// The content of a sample: a value, or the end of an instance, named by its key or by
/// the hash of its key.
#[derive(Debug)]
pub enum DDSData {
    Data { serialized_payload: SerializedPayload },
    DisposeByKey { change_kind: ChangeKind, key: SerializedPayload },
    DisposeByKeyHash { change_kind: ChangeKind, key_hash_high: u64, key_hash_low: u64 },
}

impl Clone for DDSData {
    fn clone(&self) -> (copy: Self)
        ensures
            copy.same_content(*self),
    {
        match self {
            DDSData::Data { serialized_payload } => DDSData::Data {
                serialized_payload: serialized_payload.clone(),
            },
            DDSData::DisposeByKey { change_kind, key } => DDSData::DisposeByKey {
                change_kind: *change_kind,
                key: key.clone(),
            },
            DDSData::DisposeByKeyHash { change_kind, key_hash_high, key_hash_low } =>
                DDSData::DisposeByKeyHash {
                    change_kind: *change_kind,
                    key_hash_high: *key_hash_high,
                    key_hash_low: *key_hash_low,
                },
        }
    }
}

impl DDSData {
    /// The kind of the sample and its bytes are as in `other`.
    pub open spec fn same_content(self, other: Self) -> bool {
        match (self, other) {
            (
                DDSData::Data { serialized_payload: a },
                DDSData::Data { serialized_payload: b },
            ) => a.same_content(b),
            (
                DDSData::DisposeByKey { change_kind: k, key: a },
                DDSData::DisposeByKey { change_kind: l, key: b },
            ) => k == l && a.same_content(b),
            (DDSData::DisposeByKeyHash { .. }, DDSData::DisposeByKeyHash { .. }) => self == other,
            _ => false,
        }
    }

    pub fn new(serialized_payload: SerializedPayload) -> (d: DDSData)
        ensures
            d == (DDSData::Data { serialized_payload }),
    {
        DDSData::Data { serialized_payload }
    }

    pub fn new_disposed_by_key(change_kind: ChangeKind, key: SerializedPayload) -> (d: DDSData)
        ensures
            d == (DDSData::DisposeByKey { change_kind, key }),
    {
        DDSData::DisposeByKey { change_kind, key }
    }

    /// The payload that goes out with the sample.
    pub open spec fn spec_payload_size(self) -> nat {
        match self {
            DDSData::Data { serialized_payload } => serialized_payload.wire().len(),
            DDSData::DisposeByKey { key, .. } => key.wire().len(),
            DDSData::DisposeByKeyHash { .. } => 0,
        }
    }

    pub fn payload_size(&self) -> (n: usize)
        requires
            self.spec_payload_size() <= usize::MAX,
        ensures
            n == self.spec_payload_size(),
    {
        match self {
            DDSData::Data { serialized_payload } => serialized_payload.len_serialized(),
            DDSData::DisposeByKey { key, .. } => key.len_serialized(),
            DDSData::DisposeByKeyHash { .. } => 0,
        }
    }
}

/// A payload that is read from the wire is the one that was put on it, as far as it can be
/// told apart there.
pub proof fn law_payload_survives_the_wire(
    sent: SerializedPayload,
    bytes: Bytes,
    read: Option<SerializedPayload>,
)
    requires
        call_ensures(SerializedPayload::from_bytes, (&bytes,), read),
        bytes_of(bytes) == sent.wire(),
    ensures
        read matches Some(p) && p.same_content(sent),
        sent.wire().len() == bytes_of(sent.value).len() + 4,
{
    let p = read->0;
    let a = sent.wire();
    let b = p.wire();
    assert(a[0] == b[0] && a[1] == b[1] && a[2] == b[2] && a[3] == b[3]);
    assert(bytes_of(sent.value) =~= a.skip(4));
    assert(bytes_of(p.value) =~= b.skip(4));
}

} // verus!
