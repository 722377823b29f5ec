//! The order in which scored entries are ranked: higher scores first, and of two
//! entries with the same score the one that stands earlier in the store first.

use vstd::prelude::*;
use vstd::relations::injective_on;
use vstd::set_lib::{
    lemma_int_range, lemma_len_subset, lemma_map_size, lemma_subset_equality, set_int_range,
};

verus! {

/// The scores of a list as integers.
pub open spec fn as_ints(scores: Seq<usize>) -> Seq<int> {
    Seq::new(scores.len(), |i: int| scores[i] as int)
}

/// Whether entry `i` is ranked before entry `j`: it has the higher score, or the
/// same score and the earlier place.
pub open spec fn precedes(scores: Seq<int>, i: int, j: int) -> bool {
    scores[i] > scores[j] || (scores[i] == scores[j] && i < j)
}

/// The entries that are ranked before entry `i`.
pub open spec fn predecessors(scores: Seq<int>, i: int) -> Set<int> {
    Set::new(|j: int| 0 <= j < scores.len() && precedes(scores, j, i))
}

/// The rank of entry `i`: how many entries are ranked before it. The best entry
/// has rank zero.
pub open spec fn rank(scores: Seq<int>, i: int) -> nat {
    predecessors(scores, i).len()
}

/// The entry of rank `k`.
pub open spec fn ranked_index(scores: Seq<int>, k: int) -> int {
    choose|i: int| 0 <= i < scores.len() && rank(scores, i) == k
}

/// Whether `run` lists the entries from `lo` up to `hi`, each once, in ranking order.
pub open spec fn is_ranked_run(scores: Seq<int>, run: Seq<usize>, lo: int, hi: int) -> bool {
    &&& run.len() == hi - lo
    &&& forall|k: int| 0 <= k < run.len() ==> lo <= #[trigger] run[k] < hi
    &&& forall|k: int, l: int|
        0 <= k < l < run.len() ==> precedes(scores, #[trigger] run[k] as int, #[trigger] run[l] as int)
    &&& forall|i: usize| lo <= i < hi ==> #[trigger] run.contains(i)
}

/// The rank of an entry is less than the number of entries.
pub proof fn lemma_rank_bounded(scores: Seq<int>, i: int)
    requires
        0 <= i < scores.len(),
    ensures
        predecessors(scores, i).finite(),
        rank(scores, i) < scores.len(),
{
    let all = set_int_range(0, scores.len() as int);
    lemma_int_range(0, scores.len() as int);
    assert(predecessors(scores, i).subset_of(all.remove(i)));
    lemma_len_subset(predecessors(scores, i), all.remove(i));
}

/// An entry that is ranked before another has the lower rank.
pub proof fn lemma_rank_monotonic(scores: Seq<int>, i: int, j: int)
    requires
        0 <= i < scores.len(),
        0 <= j < scores.len(),
        precedes(scores, i, j),
    ensures
        rank(scores, i) < rank(scores, j),
{
    lemma_rank_bounded(scores, j);
    let below = predecessors(scores, j).remove(i);
    assert(predecessors(scores, j).contains(i));
    assert(predecessors(scores, i).subset_of(below));
    lemma_len_subset(predecessors(scores, i), below);
}

/// No two entries have the same rank.
pub proof fn lemma_rank_injective(scores: Seq<int>, i: int, j: int)
    requires
        0 <= i < scores.len(),
        0 <= j < scores.len(),
        rank(scores, i) == rank(scores, j),
    ensures
        i == j,
{
    if precedes(scores, i, j) {
        lemma_rank_monotonic(scores, i, j);
    } else if precedes(scores, j, i) {
        lemma_rank_monotonic(scores, j, i);
    }
}

/// Every number below the number of entries is the rank of an entry, so that
/// the ranks number the entries from zero on without a gap.
pub proof fn lemma_rank_taken(scores: Seq<int>, k: int)
    requires
        0 <= k < scores.len(),
    ensures
        0 <= ranked_index(scores, k) < scores.len(),
        rank(scores, ranked_index(scores, k)) == k,
{
    let all = set_int_range(0, scores.len() as int);
    let rank_of = |i: int| rank(scores, i) as int;
    let taken = all.map(rank_of);
    lemma_int_range(0, scores.len() as int);
    assert(injective_on(rank_of, all)) by {
        assert forall|i: int, j: int|
            all.contains(i) && all.contains(j) && #[trigger] rank_of(i) == #[trigger] rank_of(j) implies i
            == j by {
            lemma_rank_injective(scores, i, j);
        }
    }
    lemma_map_size(all, taken, rank_of);
    assert(taken.subset_of(all)) by {
        assert forall|r: int| taken.contains(r) implies all.contains(r) by {
            let i = choose|i: int| all.contains(i) && r == rank_of(i);
            lemma_rank_bounded(scores, i);
        }
    }
    lemma_subset_equality(taken, all);
    assert(taken.contains(k));
    let i = choose|i: int| all.contains(i) && k == rank_of(i);
    assert(0 <= i < scores.len() && rank(scores, i) == k);
}

/// Of two ranks, the lower belongs to the entry that is ranked before the other.
pub proof fn lemma_ranked_index_ordered(scores: Seq<int>, k: int, l: int)
    requires
        0 <= k < l < scores.len(),
    ensures
        precedes(scores, ranked_index(scores, k), ranked_index(scores, l)),
{
    lemma_rank_taken(scores, k);
    lemma_rank_taken(scores, l);
    let i = ranked_index(scores, k);
    let j = ranked_index(scores, l);
    if precedes(scores, j, i) {
        lemma_rank_monotonic(scores, j, i);
    }
}

/// In a list of all entries in ranking order, each entry stands at its rank.
pub proof fn lemma_rank_in_ranked_run(scores: Seq<int>, order: Seq<usize>, k: int)
    requires
        scores.len() <= usize::MAX,
        is_ranked_run(scores, order, 0, scores.len() as int),
        0 <= k < order.len(),
    ensures
        rank(scores, order[k] as int) == k,
        ranked_index(scores, k) == order[k],
{
    let before = Seq::new(k as nat, |m: int| order[m] as int);
    assert(before.no_duplicates()) by {
        assert forall|m: int, n: int|
            0 <= m < before.len() && 0 <= n < before.len() && m != n implies before[m]
            != before[n] by {
            if m < n {
                assert(precedes(scores, order[m] as int, order[n] as int));
            } else {
                assert(precedes(scores, order[n] as int, order[m] as int));
            }
        }
    }
    before.unique_seq_to_set();
    assert(before.to_set() =~= predecessors(scores, order[k] as int)) by {
        assert forall|j: int| predecessors(scores, order[k] as int).contains(j) implies before.to_set().contains(j) by {
            assert(order.contains(j as usize));
            let m = choose|m: int| 0 <= m < order.len() && order[m] == j as usize;
            assert(order[m] as int == j);
            if m > k {
                assert(precedes(scores, order[k] as int, order[m] as int));
            }
            assert(m < k);
            assert(before[m] == j);
        }
        assert forall|j: int| before.to_set().contains(j) implies predecessors(scores, order[k] as int).contains(j) by {
            let m = choose|m: int| 0 <= m < before.len() && before[m] == j;
            assert(precedes(scores, order[m] as int, order[k] as int));
        }
    }
    assert(rank(scores, order[k] as int) == k);
    let i = ranked_index(scores, k);
    assert(0 <= i < scores.len() && rank(scores, i) == k);
    lemma_rank_injective(scores, i, order[k] as int);
}

/// Whether entry `i` is ranked before entry `j`.
fn comes_before(scores: &Vec<usize>, i: usize, j: usize) -> (b: bool)
    requires
        i < scores.len(),
        j < scores.len(),
    ensures
        b == precedes(as_ints(scores@), i as int, j as int),
{
    scores[i] > scores[j] || (scores[i] == scores[j] && i < j)
}

/// Merges the ranked entries from `lo` up to `mid` and those from `mid` up to
/// `hi` into the ranked entries from `lo` up to `hi`.
fn merge_runs(
    scores: &Vec<usize>,
    left: &Vec<usize>,
    right: &Vec<usize>,
    Ghost(lo): Ghost<int>,
    Ghost(mid): Ghost<int>,
    Ghost(hi): Ghost<int>,
) -> (out: Vec<usize>)
    requires
        0 <= lo <= mid <= hi <= scores.len(),
        is_ranked_run(as_ints(scores@), left@, lo, mid),
        is_ranked_run(as_ints(scores@), right@, mid, hi),
    ensures
        is_ranked_run(as_ints(scores@), out@, lo, hi),
{
    let mut out: Vec<usize> = Vec::new();
    let mut a: usize = 0;
    let mut b: usize = 0;
    while a < left.len() || b < right.len()
        invariant
            0 <= lo <= mid <= hi <= scores.len(),
            is_ranked_run(as_ints(scores@), left@, lo, mid),
            is_ranked_run(as_ints(scores@), right@, mid, hi),
            a <= left.len(),
            b <= right.len(),
            out.len() == a + b,
            forall|m: int| 0 <= m < out.len() ==> lo <= #[trigger] out[m] < hi,
            forall|k: int, l: int|
                0 <= k < l < out.len() ==> precedes(as_ints(scores@), #[trigger] out[k] as int, #[trigger] out[l] as int),
            a < left.len() ==> forall|m: int|
                0 <= m < out.len() ==> precedes(as_ints(scores@), #[trigger] out[m] as int, left[a as int] as int),
            b < right.len() ==> forall|m: int|
                0 <= m < out.len() ==> precedes(as_ints(scores@), #[trigger] out[m] as int, right[b as int] as int),
            forall|k: int| 0 <= k < a ==> out@.contains(#[trigger] left[k]),
            forall|k: int| 0 <= k < b ==> out@.contains(#[trigger] right[k]),
        decreases left.len() - a + right.len() - b,
    {
        let take_left = if a == left.len() {
            false
        } else if b == right.len() {
            true
        } else {
            comes_before(scores, left[a], right[b])
        };
        let ghost before = out@;
        if take_left {
            let x = left[a];
            out.push(x);
            proof {
                assert(out@[before.len() as int] == x);
                assert forall|k: int| 0 <= k < a + 1 implies out@.contains(#[trigger] left[k]) by {
                    if k < a {
                        let m = choose|m: int| 0 <= m < before.len() && before[m] == left[k];
                        assert(out@[m] == left[k]);
                    }
                }
                assert forall|k: int| 0 <= k < b implies out@.contains(#[trigger] right[k]) by {
                    let m = choose|m: int| 0 <= m < before.len() && before[m] == right[k];
                    assert(out@[m] == right[k]);
                }
                if a + 1 < left.len() {
                    assert(precedes(as_ints(scores@), left[a as int] as int, left[a + 1] as int));
                }
            }
            a = a + 1;
        } else {
            let x = right[b];
            out.push(x);
            proof {
                assert(out@[before.len() as int] == x);
                assert forall|k: int| 0 <= k < a implies out@.contains(#[trigger] left[k]) by {
                    let m = choose|m: int| 0 <= m < before.len() && before[m] == left[k];
                    assert(out@[m] == left[k]);
                }
                assert forall|k: int| 0 <= k < b + 1 implies out@.contains(#[trigger] right[k]) by {
                    if k < b {
                        let m = choose|m: int| 0 <= m < before.len() && before[m] == right[k];
                        assert(out@[m] == right[k]);
                    }
                }
                if b + 1 < right.len() {
                    assert(precedes(as_ints(scores@), right[b as int] as int, right[b + 1] as int));
                }
            }
            b = b + 1;
        }
    }
    proof {
        assert forall|i: usize| lo <= i < hi implies #[trigger] out@.contains(i) by {
            if i < mid {
                assert(left@.contains(i));
                let k = choose|k: int| 0 <= k < left.len() && left[k] == i;
                assert(out@.contains(left[k]));
            } else {
                assert(right@.contains(i));
                let k = choose|k: int| 0 <= k < right.len() && right[k] == i;
                assert(out@.contains(right[k]));
            }
        }
    }
    out
}

/// Ranks the entries from `lo` up to `hi` by ranking each half and merging the two.
fn rank_range(scores: &Vec<usize>, lo: usize, hi: usize) -> (run: Vec<usize>)
    requires
        lo <= hi <= scores.len(),
    ensures
        is_ranked_run(as_ints(scores@), run@, lo as int, hi as int),
    decreases hi - lo,
{
    let mut run: Vec<usize> = Vec::new();
    if hi - lo == 0 {
        run
    } else if hi - lo == 1 {
        run.push(lo);
        assert(run@[0] == lo);
        run
    } else {
        let mid: usize = lo + (hi - lo) / 2;
        let left = rank_range(scores, lo, mid);
        let right = rank_range(scores, mid, hi);
        merge_runs(scores, &left, &right, Ghost(lo as int), Ghost(mid as int), Ghost(hi as int))
    }
}

/// Ranks the entries of a list of scores: the result lists the places of the
/// entries, best first. Place `k` of the result holds the entry of rank `k`.
pub fn ranking(scores: &Vec<usize>) -> (order: Vec<usize>)
    ensures
        order.len() == scores.len(),
        forall|k: int|
            0 <= k < order.len() ==> {
                &&& #[trigger] order[k] < scores.len()
                &&& order[k] == ranked_index(as_ints(scores@), k)
                &&& rank(as_ints(scores@), order[k] as int) == k
            },
{
    let order = rank_range(scores, 0, scores.len());
    proof {
        assert forall|k: int| 0 <= k < order.len() implies #[trigger] order[k] == ranked_index(
            as_ints(scores@),
            k,
        ) && rank(as_ints(scores@), order[k] as int) == k by {
            lemma_rank_in_ranked_run(as_ints(scores@), order@, k);
        }
    }
    order
}

} // verus!
