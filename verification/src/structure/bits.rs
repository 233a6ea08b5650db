//! Bit vectors of the `bit_vec` crate.
//!
//! What the crate does is stated here and not proved.

use bit_vec::BitVec;
use vstd::prelude::*;

verus! {

#[verifier::external_type_specification]
#[verifier::external_body]
#[verifier::reject_recursive_types(B)]
pub struct ExBitVec<B>(bit_vec::BitVec<B>);

/// The bits that a bit vector holds.
pub uninterp spec fn bits_of(v: BitVec<u32>) -> Seq<bool>;

/// `BitVec::from_elem`: `n` bits, all of them equal to `bit`.
#[verifier::external_body]
pub(crate) fn bits_from_elem(n: usize, bit: bool) -> (v: BitVec<u32>)
    ensures
        bits_of(v) == Seq::new(n as nat, |i: int| bit),
{
    BitVec::from_elem(n, bit)
}

/// `BitVec::with_capacity`: no bits, room for `n`.
#[verifier::external_body]
pub(crate) fn bits_with_capacity(n: usize) -> (v: BitVec<u32>)
    ensures
        bits_of(v) == Seq::<bool>::empty(),
{
    BitVec::with_capacity(n)
}

/// `BitVec::new`: no bits.
#[verifier::external_body]
pub(crate) fn bits_new() -> (v: BitVec<u32>)
    ensures
        bits_of(v) == Seq::<bool>::empty(),
{
    BitVec::new()
}

/// `BitVec::clone`: the same bits.
#[verifier::external_body]
pub(crate) fn bits_clone(v: &BitVec<u32>) -> (copy: BitVec<u32>)
    ensures
        bits_of(copy) == bits_of(*v),
{
    v.clone()
}

/// `BitVec::len`: how many bits there are.
#[verifier::external_body]
pub(crate) fn bits_len(v: &BitVec<u32>) -> (n: usize)
    ensures
        n == bits_of(*v).len(),
{
    v.len()
}

/// `BitVec::get`: the bit at position `i`, if there is one.
#[verifier::external_body]
pub(crate) fn bits_get(v: &BitVec<u32>, i: usize) -> (bit: Option<bool>)
    ensures
        bit == (if i < bits_of(*v).len() {
            Some(bits_of(*v)[i as int])
        } else {
            None
        }),
{
    v.get(i)
}

/// `BitVec::set`: overwrites the bit at position `i`, which has to exist.
#[verifier::external_body]
pub(crate) fn bits_set(v: &mut BitVec<u32>, i: usize, bit: bool)
    requires
        i < bits_of(*old(v)).len(),
    ensures
        bits_of(*final(v)) == bits_of(*old(v)).update(i as int, bit),
{
    v.set(i, bit)
}

/// `BitVec::grow`: appends `n` bits equal to `bit`. The sum of the lengths has to fit in
/// a `usize`.
#[verifier::external_body]
pub(crate) fn bits_grow(v: &mut BitVec<u32>, n: usize, bit: bool)
    requires
        bits_of(*old(v)).len() + n <= usize::MAX,
    ensures
        bits_of(*final(v)) == bits_of(*old(v)) + Seq::new(n as nat, |i: int| bit),
{
    v.grow(n, bit)
}

/// `BitVec::all`: is every bit set?
#[verifier::external_body]
pub(crate) fn bits_all(v: &BitVec<u32>) -> (r: bool)
    ensures
        r == (forall|i: int| 0 <= i < bits_of(*v).len() ==> #[trigger] bits_of(*v)[i]),
{
    v.all()
}

/// `BitVec::none`: is no bit set?
#[verifier::external_body]
pub(crate) fn bits_none(v: &BitVec<u32>) -> (r: bool)
    ensures
        r == (forall|i: int| 0 <= i < bits_of(*v).len() ==> !(#[trigger] bits_of(*v)[i])),
{
    v.none()
}

/// `BitVec::any`: is some bit set?
#[verifier::external_body]
pub(crate) fn bits_any(v: &BitVec<u32>) -> (r: bool)
    ensures
        r == (exists|i: int| 0 <= i < bits_of(*v).len() && #[trigger] bits_of(*v)[i]),
{
    v.any()
}

} // verus!
