//! Identity of a single sample.

use vstd::prelude::*;

use crate::structure::guid::GUID;
use crate::structure::sequence_number::SequenceNumber;

verus! {

/// Names one sample of one writer, such as the request that a reply belongs to.
#[derive(Clone, Copy, Debug, PartialEq, Eq, Structural, Hash, PartialOrd, Ord)]
pub struct SampleIdentity {
    pub writer_guid: GUID,
    pub sequence_number: SequenceNumber,
}

} // verus!
