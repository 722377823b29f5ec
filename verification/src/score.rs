//! The similarity of two fingerprints: the number of positions at which they agree.
//!
//! This is the length of the fingerprints less their Hamming distance. It is the
//! one score in use: two fingerprints that differ everywhere score zero.

use crate::fingerprint::Fingerprint;
use vstd::prelude::*;
use vstd::set_lib::{
    lemma_int_range, lemma_len_subset, lemma_len_union, lemma_set_disjoint_lens, set_int_range,
};

verus! {

/// The positions at which two sequences of bits both have a bit, and the same one.
pub open spec fn agreeing_positions(a: Seq<bool>, b: Seq<bool>) -> Set<int> {
    Set::new(|i: int| 0 <= i < a.len() && i < b.len() && a[i] == b[i])
}

/// The positions at which two sequences of bits both have a bit, and not the same one.
pub open spec fn differing_positions(a: Seq<bool>, b: Seq<bool>) -> Set<int> {
    Set::new(|i: int| 0 <= i < a.len() && i < b.len() && a[i] != b[i])
}

/// The similarity of two sequences of bits: at how many positions they agree.
pub open spec fn similarity(a: Seq<bool>, b: Seq<bool>) -> nat {
    agreeing_positions(a, b).len()
}

/// The Hamming distance of two sequences of bits: at how many positions they differ.
pub open spec fn distance(a: Seq<bool>, b: Seq<bool>) -> nat {
    differing_positions(a, b).len()
}

/// Two fingerprints of different lengths, which cannot be compared.
#[derive(Debug, Clone, Copy, PartialEq, Eq, Structural)]
pub struct LengthMismatchError {
    /// The length of the first fingerprint.
    pub left: usize,
    /// The length of the second fingerprint.
    pub right: usize,
}

/// Positions of agreement and of difference are finite sets that share no
/// position and together make up every position of the two sequences.
pub proof fn lemma_positions_partition(a: Seq<bool>, b: Seq<bool>)
    requires
        a.len() == b.len(),
    ensures
        agreeing_positions(a, b).finite(),
        differing_positions(a, b).finite(),
        agreeing_positions(a, b).disjoint(differing_positions(a, b)),
        agreeing_positions(a, b) + differing_positions(a, b) == set_int_range(0, a.len() as int),
        similarity(a, b) + distance(a, b) == a.len(),
{
    let all = set_int_range(0, a.len() as int);
    let same = agreeing_positions(a, b);
    let other = differing_positions(a, b);
    lemma_int_range(0, a.len() as int);
    lemma_len_subset(same, all);
    lemma_len_subset(other, all);
    assert(same + other =~= all);
    lemma_set_disjoint_lens(same, other);
}

/// A fingerprint is as similar to itself as its length allows.
pub proof fn lemma_similarity_reflexive(a: Seq<bool>)
    ensures
        similarity(a, a) == a.len(),
{
    lemma_int_range(0, a.len() as int);
    assert(agreeing_positions(a, a) =~= set_int_range(0, a.len() as int));
}

/// Similarity does not depend on the order of the two fingerprints.
pub proof fn lemma_similarity_symmetric(a: Seq<bool>, b: Seq<bool>)
    ensures
        similarity(a, b) == similarity(b, a),
        distance(a, b) == distance(b, a),
{
    assert(agreeing_positions(a, b) =~= agreeing_positions(b, a));
    assert(differing_positions(a, b) =~= differing_positions(b, a));
}

/// Similarity lies between zero and the length of the fingerprints.
pub proof fn lemma_similarity_bounded(a: Seq<bool>, b: Seq<bool>)
    requires
        a.len() == b.len(),
    ensures
        0 <= similarity(a, b) <= a.len(),
        0 <= distance(a, b) <= a.len(),
{
    lemma_positions_partition(a, b);
}

/// Two fingerprints of one length are at distance zero exactly when they are the
/// same fingerprint.
pub proof fn lemma_distance_zero(a: Seq<bool>, b: Seq<bool>)
    requires
        a.len() == b.len(),
    ensures
        distance(a, b) == 0 <==> a == b,
{
    lemma_positions_partition(a, b);
    if a == b {
        assert(differing_positions(a, b) =~= Set::<int>::empty());
    }
    if distance(a, b) == 0 {
        differing_positions(a, b).lemma_len0_is_empty();
        assert forall|i: int| 0 <= i < a.len() implies a[i] == b[i] by {
            assert(!differing_positions(a, b).contains(i));
        }
        assert(a =~= b);
    }
}

/// The distance between two fingerprints is no more than the distances by way
/// of a third of the same length.
pub proof fn lemma_distance_triangle(a: Seq<bool>, b: Seq<bool>, c: Seq<bool>)
    requires
        a.len() == b.len(),
        b.len() == c.len(),
    ensures
        distance(a, c) <= distance(a, b) + distance(b, c),
{
    lemma_positions_partition(a, b);
    lemma_positions_partition(b, c);
    let by_way = differing_positions(a, b) + differing_positions(b, c);
    lemma_len_union(differing_positions(a, b), differing_positions(b, c));
    assert(differing_positions(a, c).subset_of(by_way));
    lemma_len_subset(differing_positions(a, c), by_way);
}

/// The similarity score of two fingerprints of the same length: the number of
/// positions at which they agree, which is their length less their Hamming
/// distance.
pub fn score_aligned(a: &Fingerprint, b: &Fingerprint) -> (s: usize)
    requires
        a@.len() == b@.len(),
    ensures
        s == similarity(a@, b@),
{
    let differing = a.count_differing(b);
    proof {
        lemma_positions_partition(a@, b@);
    }
    a.length() - differing
}

/// The similarity score of two fingerprints: the number of positions at which
/// they agree.
///
/// Fails exactly when the two differ in length, before anything is counted.
pub fn score(a: &Fingerprint, b: &Fingerprint) -> (r: Result<usize, LengthMismatchError>)
    ensures
        r is Ok <==> a@.len() == b@.len(),
        r is Ok ==> r->Ok_0 == similarity(a@, b@),
        r is Ok ==> r->Ok_0 <= a@.len(),
        r is Err ==> r->Err_0.left == a@.len() && r->Err_0.right == b@.len(),
{
    if a.length() != b.length() {
        return Err(LengthMismatchError { left: a.length(), right: b.length() });
    }
    proof {
        lemma_similarity_bounded(a@, b@);
    }
    Ok(score_aligned(a, b))
}

} // verus!
