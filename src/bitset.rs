//! The packed cell storage: `fixedbitset::FixedBitSet`, seen by the proofs as
//! the sequence of booleans it holds.
use vstd::prelude::*;

verus! {

#[verifier::external_type_specification]
#[verifier::external_body]
pub struct ExFixedBitSet(fixedbitset::FixedBitSet);

/// The bits held by a `FixedBitSet`, in index order; its length is the set's
/// length in bits.
pub uninterp spec fn bits_of(s: fixedbitset::FixedBitSet) -> Seq<bool>;

/// Relies on `FixedBitSet::with_capacity`: a set of `len` bits, all cleared.
#[verifier::external_body]
pub(crate) fn bits_cleared(len: usize) -> (r: fixedbitset::FixedBitSet)
    ensures
        bits_of(r) == Seq::new(len as nat, |i: int| false),
{
    fixedbitset::FixedBitSet::with_capacity(len)
}

/// Relies on `FixedBitSet::len`: the number of bits, set or not.
#[verifier::external_body]
pub(crate) fn bits_len(s: &fixedbitset::FixedBitSet) -> (r: usize)
    ensures
        r == bits_of(*s).len(),
{
    s.len()
}

/// Relies on `FixedBitSet::contains`: whether bit `i` is set.
#[verifier::external_body]
pub(crate) fn bits_get(s: &fixedbitset::FixedBitSet, i: usize) -> (r: bool)
    requires
        i < bits_of(*s).len(),
    ensures
        r == bits_of(*s)[i as int],
{
    s.contains(i)
}

/// Relies on `FixedBitSet::set`: bit `i` takes the value `v`, the others
/// keep theirs. It panics where `i` is not below the length.
#[verifier::external_body]
pub(crate) fn bits_set(s: &mut fixedbitset::FixedBitSet, i: usize, v: bool)
    requires
        i < bits_of(*old(s)).len(),
    ensures
        bits_of(*final(s)) == bits_of(*old(s)).update(i as int, v),
{
    s.set(i, v)
}

/// Relies on `FixedBitSet::as_slice`: the storage as `u32` blocks, bit `i`
/// being bit `i % 32` of block `i / 32`, with as many blocks as the bits need.
#[verifier::external_body]
pub(crate) fn bits_blocks(s: &fixedbitset::FixedBitSet) -> (r: &[u32])
    ensures
        r@.len() == (bits_of(*s).len() + 31) / 32,
        forall|i: int|
            0 <= i < bits_of(*s).len() ==> #[trigger] bits_of(*s)[i] == ((r@[i / 32] >> ((i
                % 32) as u32)) & 1u32 == 1u32),
{
    s.as_slice()
}

} // verus!
