//! Bit vectors of the `bit-vec` crate, by what they hold.
use vstd::prelude::*;

use bit_vec::BitVec;
use std::iter::FromIterator;

verus! {

/// Declares `BitVec` of the `bit-vec` crate. What one holds is given by [`bits_of`].
#[verifier::external_type_specification]
#[verifier::external_body]
#[verifier::reject_recursive_types(B)]
pub struct ExBitVec<B>(bit_vec::BitVec<B>);

/// The bits that a bit vector holds, in order.
pub uninterp spec fn bits_of(v: BitVec<u32>) -> Seq<bool>;

/// Whether every bit is set.
pub open spec fn all_set(bits: Seq<bool>) -> bool {
    forall|i: int| 0 <= i < bits.len() ==> bits[i]
}

/// Trusted: `BitVec::from_iter` of the `bit-vec` crate. The new bit vector holds the given bits.
#[verifier::external_body]
pub(crate) fn from_flags(flags: &Vec<bool>) -> (r: BitVec<u32>)
    ensures
        bits_of(r) == flags@,
{
    BitVec::from_iter(flags.iter().cloned())
}

/// Trusted: `BitVec::from_elem` of the `bit-vec` crate. The new bit vector holds `n` times `bit`.
#[verifier::external_body]
pub(crate) fn from_elem(n: usize, bit: bool) -> (r: BitVec<u32>)
    ensures
        bits_of(r) == Seq::new(n as nat, |i: int| bit),
{
    BitVec::from_elem(n, bit)
}

/// Trusted: `BitVec::set` of the `bit-vec` crate. It replaces the bit at `i`, which has to lie
/// within the bit vector, and no other.
#[verifier::external_body]
pub(crate) fn set(v: &mut BitVec<u32>, i: usize, bit: bool)
    requires
        i < bits_of(*old(v)).len(),
    ensures
        bits_of(*final(v)) == bits_of(*old(v)).update(i as int, bit),
{
    v.set(i, bit)
}

/// Trusted: `BitVec::len` of the `bit-vec` crate, the number of bits held.
#[verifier::external_body]
pub(crate) fn len(v: &BitVec<u32>) -> (r: usize)
    ensures
        r == bits_of(*v).len(),
{
    v.len()
}

/// Trusted: `BitVec::all` of the `bit-vec` crate. It tells whether every bit is set, which of an
/// empty bit vector is true.
#[verifier::external_body]
pub(crate) fn all(v: &BitVec<u32>) -> (r: bool)
    ensures
        r == all_set(bits_of(*v)),
{
    v.all()
}

} // verus!
