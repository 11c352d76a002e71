//! The contracts of `fixedbitset::FixedBitSet`, the store of the cells.
use vstd::prelude::*;

use fixedbitset::FixedBitSet;

verus! {

#[verifier::external_type_specification]
#[verifier::external_body]
pub struct ExFixedBitSet(FixedBitSet);

/// The bits of a `FixedBitSet`, from bit 0 up to its length; `true` is a set bit.
pub uninterp spec fn bits_of(s: FixedBitSet) -> Seq<bool>;

/// Relies on `FixedBitSet::with_capacity`: `bits` bits, all clear.
pub assume_specification[ FixedBitSet::with_capacity ](bits: usize) -> (r: FixedBitSet)
    ensures
        bits_of(r) == Seq::new(bits as nat, |i: int| false),
;

/// Relies on `FixedBitSet::len`: the number of bits, set or clear.
pub assume_specification[ FixedBitSet::len ](s: &FixedBitSet) -> (r: usize)
    ensures
        r == bits_of(*s).len(),
;

/// Relies on `FixedBitSet::contains`: the value of a bit below the length.
pub assume_specification[ FixedBitSet::contains ](s: &FixedBitSet, bit: usize) -> (r: bool)
    ensures
        bit < bits_of(*s).len() ==> r == bits_of(*s)[bit as int],
;

/// Relies on `FixedBitSet::set`: writes one bit and no other; it panics past the length.
pub assume_specification[ FixedBitSet::set ](s: &mut FixedBitSet, bit: usize, enabled: bool)
    requires
        bit < bits_of(*old(s)).len(),
    ensures
        bits_of(*final(s)) == bits_of(*old(s)).update(bit as int, enabled),
;

/// Relies on `FixedBitSet::as_slice`: the `u32` blocks that hold the bits, bit `i`
/// at position `i % 32` of block `i / 32`, with as many blocks as the length needs.
pub assume_specification[ FixedBitSet::as_slice ](s: &FixedBitSet) -> (r: &[u32])
    ensures
        r@.len() == (bits_of(*s).len() + 31) / 32,
        forall|i: int|
            0 <= i < bits_of(*s).len() ==> (#[trigger] bits_of(*s)[i] <==> (r@[i / 32] & (
            1u32 << (i % 32) as u32)) != 0),
;

/// Relies on `Clone for FixedBitSet`: the copy holds the same bits.
pub assume_specification[ <FixedBitSet as Clone>::clone ](s: &FixedBitSet) -> (r: FixedBitSet)
    ensures
        bits_of(r) == bits_of(*s),
;

} // verus!
