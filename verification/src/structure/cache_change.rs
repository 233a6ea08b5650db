//! A sample as a writer keeps it.

use vstd::prelude::*;

use crate::dds::ddsdata::DDSData;
use crate::dds::with_key::datawriter::WriteOptions;
use crate::structure::guid::GUID;
use crate::structure::sequence_number::SequenceNumber;

verus! {

/// Bytes of a DATA submessage besides the in-line parameters and the payload.
pub const DATA_FIXED_SIZE: usize = 24;

/// A sample with the number and the options that it was written with.
#[derive(Debug)]
pub struct CacheChange {
    pub writer_guid: GUID,
    pub sequence_number: SequenceNumber,
    pub write_options: WriteOptions,
    pub data_value: DDSData,
}

impl Clone for CacheChange {
    fn clone(&self) -> (copy: Self)
        ensures
            copy.same_content(*self),
    {
        CacheChange {
            writer_guid: self.writer_guid,
            sequence_number: self.sequence_number,
            write_options: self.write_options,
            data_value: self.data_value.clone(),
        }
    }
}

impl CacheChange {
    /// Who wrote the sample and how, and its bytes, are as in `other`.
    pub open spec fn same_content(self, other: Self) -> bool {
        &&& self.writer_guid == other.writer_guid
        &&& self.sequence_number == other.sequence_number
        &&& self.write_options == other.write_options
        &&& self.data_value.same_content(other.data_value)
    }

    pub fn new(
        writer_guid: GUID,
        sequence_number: SequenceNumber,
        write_options: WriteOptions,
        data_value: DDSData,
    ) -> (cc: Self)
        ensures
            cc == (CacheChange { writer_guid, sequence_number, write_options, data_value }),
    {
        CacheChange { writer_guid, sequence_number, write_options, data_value }
    }

    /// Bytes of the in-line parameters that go out with the sample: the request that it
    /// answers, and the hash of the key where it ends an instance by it.
    pub open spec fn inline_qos_size(self) -> int {
        let identity: int = if self.write_options.related_sample_identity is Some {
            28
        } else {
            0
        };
        let key_hash: int = if self.data_value is DisposeByKeyHash {
            28
        } else {
            0
        };
        if identity + key_hash > 0 {
            identity + key_hash + 4
        } else {
            0
        }
    }

    /// Bytes of the DATA submessage that carries the sample in one piece.
    pub open spec fn spec_data_submessage_len(self) -> int {
        DATA_FIXED_SIZE + self.inline_qos_size() + self.data_value.spec_payload_size()
    }

    pub fn data_submessage_len(&self) -> (n: u128)
        requires
            self.data_value.spec_payload_size() <= usize::MAX,
        ensures
            n == self.spec_data_submessage_len(),
    {
        let identity: u128 = if self.write_options.related_sample_identity.is_some() {
            28
        } else {
            0
        };
        let key_hash: u128 = match self.data_value {
            DDSData::DisposeByKeyHash { .. } => 28,
            _ => 0,
        };
        let inline_qos: u128 = if identity + key_hash > 0 {
            identity + key_hash + 4
        } else {
            0
        };
        DATA_FIXED_SIZE as u128 + inline_qos + self.data_value.payload_size() as u128
    }
}

} // verus!
