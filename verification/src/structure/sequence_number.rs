//! Sample sequence numbers and fragment numbers.

use vstd::prelude::*;

use crate::structure::sorted_map::SortKey;

verus! {

/// Number of a sample in the stream of one writer. Numbering starts at 1.
#[derive(Clone, Copy, Debug, PartialEq, Eq, Structural, Hash, PartialOrd, Ord)]
pub struct SequenceNumber {
    pub value: i64,
}

impl View for SequenceNumber {
    type V = int;

    open spec fn view(&self) -> int {
        self.value as int
    }
}

impl SequenceNumber {
    pub fn new(value: i64) -> (sn: Self)
        ensures
            sn@ == value,
    {
        SequenceNumber { value }
    }

    pub fn zero() -> (sn: Self)
        ensures
            sn@ == 0,
    {
        SequenceNumber { value: 0 }
    }

    /// The number that follows this one.
    pub fn plus_1(self) -> (sn: Self)
        requires
            self@ < i64::MAX,
        ensures
            sn@ == self@ + 1,
    {
        SequenceNumber { value: self.value + 1 }
    }
}

impl Default for SequenceNumber {
    fn default() -> (sn: Self)
        ensures
            sn@ == 1,
    {
        SequenceNumber { value: 1 }
    }
}

impl SortKey for SequenceNumber {
    open spec fn rank(self) -> int {
        self@
    }

    proof fn lemma_rank_injective(a: Self, b: Self) {
    }

    fn precedes(&self, other: &Self) -> (r: bool) {
        self.value < other.value
    }
}

/// Number of a fragment of a sample. Numbering starts at 1.
#[derive(Clone, Copy, Debug, PartialEq, Eq, Structural, Hash, PartialOrd, Ord)]
pub struct FragmentNumber {
    pub value: u32,
}

impl View for FragmentNumber {
    type V = int;

    open spec fn view(&self) -> int {
        self.value as int
    }
}

impl FragmentNumber {
    pub fn new(value: u32) -> (n: Self)
        ensures
            n@ == value,
    {
        FragmentNumber { value }
    }
}

/// A set of sequence numbers, with a bound below which it says something else.
pub struct SequenceNumberSet {
    pub base: SequenceNumber,
    pub members: Vec<SequenceNumber>,
}

impl SequenceNumberSet {
    pub fn new_empty(base: SequenceNumber) -> (s: Self)
        ensures
            s.base == base,
            s.members@ == Seq::<SequenceNumber>::empty(),
    {
        SequenceNumberSet { base, members: Vec::new() }
    }

    /// Is the number in the set?
    pub open spec fn has(self, sn: int) -> bool {
        exists|i: int| 0 <= i < self.members@.len() && (#[trigger] self.members@[i])@ == sn
    }
}

/// A set of fragment numbers.
pub struct FragmentNumberSet {
    pub base: FragmentNumber,
    pub members: Vec<FragmentNumber>,
}

} // verus!
