//! Selection of the entries of a store that are most similar to a query.

use crate::fingerprint::Fingerprint;
use crate::rank::{
    as_ints, lemma_rank_monotonic, lemma_rank_taken, lemma_ranked_index_ordered, rank, ranked_index,
    ranking,
};
use crate::score::{lemma_similarity_bounded, score_aligned, similarity, LengthMismatchError};
use crate::store::{is_comparable, FingerprintStore};
use vstd::prelude::*;

verus! {

/// A stored entry and how similar it is to the query.
#[derive(Debug, PartialEq, Eq)]
pub struct MatchItem {
    /// The record identifier of the entry.
    pub record_id: String,
    /// The number of positions at which the entry's fingerprint agrees with the query.
    pub score: usize,
}

impl View for MatchItem {
    type V = (Seq<char>, nat);

    open spec fn view(&self) -> (Seq<char>, nat) {
        (self.record_id@, self.score as nat)
    }
}

impl Clone for MatchItem {
    /// A match item with the same identifier and score.
    fn clone(&self) -> (copy: Self)
        ensures
            copy@ == self@,
    {
        MatchItem { record_id: self.record_id.clone(), score: self.score }
    }
}

/// The views of a list of match items.
pub open spec fn views_of(items: Seq<MatchItem>) -> Seq<(Seq<char>, nat)> {
    Seq::new(items.len(), |k: int| items[k]@)
}

/// The similarity of each entry to the query, in the order of the entries.
pub open spec fn scores_against(entries: Seq<(Seq<char>, Seq<bool>)>, query: Seq<bool>) -> Seq<int> {
    Seq::new(entries.len(), |i: int| similarity(query, entries[i].1) as int)
}

/// The smaller of two numbers.
pub open spec fn smaller(a: nat, b: nat) -> nat {
    if a <= b {
        a
    } else {
        b
    }
}

/// The `n` entries that are most similar to the query, best first, or all of
/// them where there are no more than `n`. Of two entries that are equally
/// similar, the one that stands earlier in the store comes first.
pub open spec fn top_matches(entries: Seq<(Seq<char>, Seq<bool>)>, query: Seq<bool>, n: nat) -> Seq<
    (Seq<char>, nat),
> {
    Seq::new(
        smaller(n, entries.len()),
        |k: int|
            {
                let i = ranked_index(scores_against(entries, query), k);
                (entries[i].0, similarity(query, entries[i].1))
            },
    )
}

/// Whether the scores of a list of matches never rise from one to the next.
pub open spec fn is_descending(items: Seq<(Seq<char>, nat)>) -> bool {
    forall|k: int, l: int| 0 <= k <= l < items.len() ==> (#[trigger] items[k]).1 >= (#[trigger] items[l]).1
}

/// The matches of a query are as many as were asked for, or as the store has
/// entries where those are fewer, and their scores never rise from one to the next.
pub proof fn lemma_top_matches_descending(entries: Seq<(Seq<char>, Seq<bool>)>, query: Seq<bool>, n: nat)
    ensures
        top_matches(entries, query, n).len() == smaller(n, entries.len()),
        is_descending(top_matches(entries, query, n)),
{
    let scores = scores_against(entries, query);
    let items = top_matches(entries, query, n);
    assert forall|k: int, l: int| 0 <= k <= l < items.len() implies (#[trigger] items[k]).1 >= (
    #[trigger] items[l]).1 by {
        lemma_rank_taken(scores, k);
        lemma_rank_taken(scores, l);
        if k < l {
            lemma_ranked_index_ordered(scores, k, l);
        }
    }
}

/// Asking for no match gives none.
pub proof fn lemma_top_matches_none(entries: Seq<(Seq<char>, Seq<bool>)>, query: Seq<bool>)
    ensures
        top_matches(entries, query, 0) == Seq::<(Seq<char>, nat)>::empty(),
{
    assert(top_matches(entries, query, 0) =~= Seq::<(Seq<char>, nat)>::empty());
}

/// Each match of a query is an entry of the store with its similarity to the
/// query, and no entry is matched twice.
pub proof fn lemma_top_matches_are_entries(
    entries: Seq<(Seq<char>, Seq<bool>)>,
    query: Seq<bool>,
    n: nat,
    k: int,
)
    requires
        0 <= k < top_matches(entries, query, n).len(),
    ensures
        0 <= ranked_index(scores_against(entries, query), k) < entries.len(),
        rank(scores_against(entries, query), ranked_index(scores_against(entries, query), k)) == k,
        top_matches(entries, query, n)[k] == (
            entries[ranked_index(scores_against(entries, query), k)].0,
            similarity(query, entries[ranked_index(scores_against(entries, query), k)].1),
        ),
{
    lemma_rank_taken(scores_against(entries, query), k);
}

/// No match of a query that can be compared with every entry has a score above
/// the length of the query.
pub proof fn lemma_top_matches_bounded(
    entries: Seq<(Seq<char>, Seq<bool>)>,
    query: Seq<bool>,
    n: nat,
    k: int,
)
    requires
        is_comparable(entries, query),
        0 <= k < top_matches(entries, query, n).len(),
    ensures
        top_matches(entries, query, n)[k].1 <= query.len(),
{
    let i = ranked_index(scores_against(entries, query), k);
    lemma_rank_taken(scores_against(entries, query), k);
    assert(entries[i].1.len() == query.len());
    lemma_similarity_bounded(query, entries[i].1);
}

/// The similarity of every entry of the store to the query, in store order.
pub fn score_all(store: &FingerprintStore, query: &Fingerprint) -> (scores: Vec<usize>)
    requires
        is_comparable(store@, query@),
    ensures
        scores.len() == store@.len(),
        as_ints(scores@) == scores_against(store@, query@),
{
    let size = store.len();
    let mut scores: Vec<usize> = Vec::new();
    let mut i: usize = 0;
    while i < size
        invariant
            size == store@.len(),
            is_comparable(store@, query@),
            i <= size,
            scores.len() == i,
            forall|k: int| 0 <= k < i ==> #[trigger] scores[k] == similarity(query@, store@[k].1),
        decreases size - i,
    {
        let print = store.fingerprint(i);
        assert(store@[i as int].1.len() == query@.len());
        let s = score_aligned(query, print);
        scores.push(s);
        i = i + 1;
    }
    assert(as_ints(scores@) =~= scores_against(store@, query@));
    scores
}

/// Picks from scored entries the `n` best, best first, or all of them where
/// there are no more than `n`.
pub fn select_top(store: &FingerprintStore, scores: &Vec<usize>, n: usize) -> (items: Vec<MatchItem>)
    requires
        scores.len() == store@.len(),
    ensures
        items.len() == smaller(n as nat, store@.len()),
        forall|k: int|
            0 <= k < items.len() ==> {
                &&& 0 <= #[trigger] ranked_index(as_ints(scores@), k) < store@.len()
                &&& rank(as_ints(scores@), ranked_index(as_ints(scores@), k)) == k
            },
        forall|k: int|
            0 <= k < items.len() ==> (#[trigger] items[k])@ == (
                store@[ranked_index(as_ints(scores@), k)].0,
                scores[ranked_index(as_ints(scores@), k)] as nat,
            ),
        is_descending(views_of(items@)),
{
    let size = store.len();
    let order = ranking(scores);
    let count = if n < size {
        n
    } else {
        size
    };
    let mut items: Vec<MatchItem> = Vec::new();
    let mut k: usize = 0;
    while k < count
        invariant
            size == store@.len(),
            scores.len() == size,
            order.len() == size,
            count <= size,
            k <= count,
            items.len() == k,
            forall|m: int|
                0 <= m < order.len() ==> {
                    &&& #[trigger] order[m] < scores.len()
                    &&& order[m] == ranked_index(as_ints(scores@), m)
                    &&& rank(as_ints(scores@), order[m] as int) == m
                },
            forall|m: int|
                0 <= m < k ==> (#[trigger] items[m])@ == (
                    store@[order[m] as int].0,
                    scores[order[m] as int] as nat,
                ),
        decreases count - k,
    {
        let place = order[k];
        let id = store.record_id(place);
        items.push(MatchItem { record_id: id.to_owned(), score: scores[place] });
        k = k + 1;
    }
    proof {
        assert forall|m: int| 0 <= m < items.len() implies {
            &&& 0 <= #[trigger] ranked_index(as_ints(scores@), m) < store@.len()
            &&& rank(as_ints(scores@), ranked_index(as_ints(scores@), m)) == m
        } by {
            assert(order[m] == ranked_index(as_ints(scores@), m));
        }
        assert forall|m: int| 0 <= m < items.len() implies (#[trigger] items[m])@ == (
            store@[ranked_index(as_ints(scores@), m)].0,
            scores[ranked_index(as_ints(scores@), m)] as nat,
        ) by {
            assert(order[m] == ranked_index(as_ints(scores@), m));
        }
        let views = views_of(items@);
        assert forall|a: int, b: int| 0 <= a <= b < views.len() implies (#[trigger] views[a]).1 >= (
        #[trigger] views[b]).1 by {
            let i = order[a] as int;
            let j = order[b] as int;
            assert(views[a] == items[a]@ && views[b] == items[b]@);
            if scores[i] < scores[j] {
                assert(as_ints(scores@)[i] < as_ints(scores@)[j]);
                lemma_rank_monotonic(as_ints(scores@), j, i);
            }
        }
    }
    items
}

/// Ranks the store against a query and returns the `n` most similar entries,
/// best first, or all entries where the store holds no more than `n`. Of two
/// entries that are equally similar, the one that stands earlier in the store
/// comes first.
///
/// Fails exactly when a stored fingerprint differs in length from the query,
/// before anything is scored. An empty store gives an empty result.
pub fn top_n(store: &FingerprintStore, query: &Fingerprint, n: usize) -> (r: Result<
    Vec<MatchItem>,
    LengthMismatchError,
>)
    ensures
        r is Ok <==> is_comparable(store@, query@),
        r is Ok ==> views_of(r->Ok_0@) == top_matches(store@, query@, n as nat),
        r is Ok ==> r->Ok_0.len() == smaller(n as nat, store@.len()),
        r is Ok ==> is_descending(views_of(r->Ok_0@)),
        r is Err ==> r->Err_0.left == query@.len() && r->Err_0.right == store@[0].1.len(),
{
    let size = store.len();
    if size > 0 {
        let first = store.fingerprint(0);
        if first.length() != query.length() {
            return Err(LengthMismatchError { left: query.length(), right: first.length() });
        }
    }
    let scores = score_all(store, query);
    let items = select_top(store, &scores, n);
    proof {
        let wanted = top_matches(store@, query@, n as nat);
        assert forall|k: int| 0 <= k < wanted.len() implies views_of(items@)[k] == wanted[k] by {
            let i = ranked_index(as_ints(scores@), k);
            assert(items[k]@ == (store@[i].0, scores[i] as nat));
            assert(scores_against(store@, query@)[i] == similarity(query@, store@[i].1));
            assert(as_ints(scores@)[i] == scores[i]);
        }
        assert(views_of(items@) =~= wanted);
    }
    Ok(items)
}

} // verus!
