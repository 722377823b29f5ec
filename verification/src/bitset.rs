//! The bit set that holds the positions of a fingerprint's one-digits.
//!
//! The set itself is `bit_set::BitSet`. Its behaviour is not proved here: each
//! function below states what the corresponding method does, over the set of
//! numbers that the bit set holds.

use bit_set::BitSet;
use vstd::prelude::*;

verus! {

#[verifier::external_type_specification]
#[verifier::external_body]
#[verifier::reject_recursive_types(B)]
pub struct ExBitSet<B>(BitSet<B>);

/// The numbers that a bit set holds.
pub uninterp spec fn members(s: BitSet) -> Set<int>;

/// The length in bits that a bit set was made with: numbers below it can be
/// inserted without the set growing.
pub uninterp spec fn span(s: BitSet) -> nat;

/// `BitSet::with_capacity`: an empty set whose bit vector has exactly `nbits` bits.
#[verifier::external_body]
pub(crate) fn with_capacity(nbits: usize) -> (s: BitSet)
    ensures
        members(s) == Set::<int>::empty(),
        span(s) == nbits,
{
    BitSet::with_capacity(nbits)
}

/// `BitSet::insert`, for a number below the set's length in bits: the number is
/// added, the length stays, and the result tells whether the number was new.
#[verifier::external_body]
pub(crate) fn insert(s: &mut BitSet, value: usize) -> (fresh: bool)
    requires
        value < span(*old(s)),
    ensures
        members(*final(s)) == members(*old(s)).insert(value as int),
        span(*final(s)) == span(*old(s)),
        fresh == !members(*old(s)).contains(value as int),
{
    s.insert(value)
}

/// `BitSet::contains`: whether the set holds the number.
#[verifier::external_body]
pub(crate) fn contains(s: &BitSet, value: usize) -> (held: bool)
    ensures
        held == members(*s).contains(value as int),
{
    s.contains(value)
}

/// `BitSet::symmetric_difference`, counted: how many numbers are held by
/// exactly one of the two sets.
#[verifier::external_body]
pub(crate) fn symmetric_difference_count(a: &BitSet, b: &BitSet) -> (n: usize)
    requires
        members(*a).finite(),
        members(*b).finite(),
    ensures
        n == (members(*a).difference(members(*b)) + members(*b).difference(members(*a))).len(),
{
    a.symmetric_difference(b).count()
}

} // verus!
