//! Indexing of a whole store: for every stored entry, its best matches among
//! all entries, worked out a chunk of entries at a time.

use crate::rank::as_ints;
use crate::score::{score_aligned, similarity};
use crate::select::{scores_against, select_top, top_matches, views_of, MatchItem};
use crate::store::{is_store, FingerprintStore};
use vstd::prelude::*;

verus! {

/// A stored entry and its best matches among all entries of the store.
#[derive(Debug, PartialEq, Eq)]
pub struct IndexRecord {
    /// The record identifier of the entry.
    pub record_id: String,
    /// The entries most similar to it, best first. The entry itself is among
    /// those it is compared with.
    pub matches: Vec<MatchItem>,
}

impl View for IndexRecord {
    type V = (Seq<char>, Seq<(Seq<char>, nat)>);

    open spec fn view(&self) -> Self::V {
        (self.record_id@, views_of(self.matches@))
    }
}

impl Clone for IndexRecord {
    /// An index record with the same identifier and matches.
    fn clone(&self) -> (copy: Self)
        ensures
            copy@ == self@,
    {
        let mut matches: Vec<MatchItem> = Vec::new();
        let mut k: usize = 0;
        while k < self.matches.len()
            invariant
                k <= self.matches.len(),
                matches.len() == k,
                forall|m: int| 0 <= m < k ==> (#[trigger] matches[m])@ == self.matches[m]@,
            decreases self.matches.len() - k,
        {
            matches.push(self.matches[k].clone());
            k = k + 1;
        }
        assert(views_of(matches@) =~= views_of(self.matches@));
        IndexRecord { record_id: self.record_id.clone(), matches }
    }
}

/// The views of a list of index records.
pub open spec fn records_view(records: Seq<IndexRecord>) -> Seq<(Seq<char>, Seq<(Seq<char>, nat)>)> {
    Seq::new(records.len(), |k: int| records[k]@)
}

/// The index record of the entry at place `q`: its identifier, and the `n`
/// entries of the store most similar to it.
pub open spec fn index_record(entries: Seq<(Seq<char>, Seq<bool>)>, q: int, n: nat) -> (
    Seq<char>,
    Seq<(Seq<char>, nat)>,
) {
    (entries[q].0, top_matches(entries, entries[q].1, n))
}

/// The index records of the entries from place `from` up to place `to`.
pub open spec fn index_records(entries: Seq<(Seq<char>, Seq<bool>)>, from: int, to: int, n: nat) -> Seq<
    (Seq<char>, Seq<(Seq<char>, nat)>),
> {
    Seq::new((to - from) as nat, |k: int| index_record(entries, from + k, n))
}

/// The line that is written for one indexed entry: the record identifier, a
/// hyphen between two spaces, the matches as written by the caller, and the
/// end of the line.
pub open spec fn index_line_of(record_id: Seq<char>, matches: Seq<char>) -> Seq<char> {
    record_id + seq![' ', '-', ' '] + matches + seq!['\n']
}

/// Writes the line for one indexed entry from its record identifier and the
/// text of its matches.
pub fn index_line(record_id: &str, matches: &str) -> (line: String)
    ensures
        line@ == index_line_of(record_id@, matches@),
{
    let mut line = String::new();
    line.append(record_id);
    line.append(" - ");
    line.append(matches);
    line.append("\n");
    proof {
        reveal_strlit(" - ");
        reveal_strlit("\n");
        assert(" - "@ =~= seq![' ', '-', ' ']);
        assert("\n"@ =~= seq!['\n']);
        assert(line@ =~= index_line_of(record_id@, matches@));
    }
    line
}

/// The place at which the chunk that starts at `from` ends: `chunk_size` entries
/// on, or at the end of the store where that comes first.
pub open spec fn chunk_end(size: nat, from: nat, chunk_size: nat) -> nat {
    if from >= size {
        from
    } else if from + chunk_size <= size {
        from + chunk_size
    } else {
        size
    }
}

/// Indexes the chunk of entries that starts at place `from`: each entry of the
/// chunk is a query, and the store is gone through once, each stored entry
/// being scored against every query of the chunk.
///
/// A chunk that starts at or past the end of the store is empty.
pub fn index_chunk(store: &FingerprintStore, from: usize, chunk_size: usize, n: usize) -> (records: Vec<
    IndexRecord,
>)
    ensures
        records_view(records@) == index_records(
            store@,
            from as int,
            chunk_end(store@.len(), from as nat, chunk_size as nat) as int,
            n as nat,
        ),
{
    let size = store.len();
    if from >= size {
        let none: Vec<IndexRecord> = Vec::new();
        assert(records_view(none@) =~= index_records(store@, from as int, from as int, n as nat));
        return none;
    }
    let to: usize = if chunk_size <= size - from {
        from + chunk_size
    } else {
        size
    };
    let width: usize = to - from;
    let mut candidates: Vec<Vec<usize>> = Vec::new();
    let mut q: usize = 0;
    while q < width
        invariant
            q <= width,
            candidates.len() == q,
            forall|k: int| 0 <= k < q ==> (#[trigger] candidates[k]).len() == 0,
        decreases width - q,
    {
        candidates.push(Vec::new());
        q = q + 1;
    }
    let mut s: usize = 0;
    while s < size
        invariant
            size == store@.len(),
            is_store(store@),
            from <= to <= size,
            width == to - from,
            s <= size,
            candidates.len() == width,
            forall|k: int| 0 <= k < width ==> (#[trigger] candidates[k]).len() == s,
            forall|k: int, t: int|
                0 <= k < width && 0 <= t < s ==> (#[trigger] candidates[k][t]) == similarity(
                    store@[from + k].1,
                    store@[t].1,
                ),
        decreases size - s,
    {
        let stored = store.fingerprint(s);
        let mut q: usize = 0;
        while q < width
            invariant
                size == store@.len(),
                is_store(store@),
                from <= to <= size,
                width == to - from,
                s < size,
                q <= width,
                stored@ == store@[s as int].1,
                candidates.len() == width,
                forall|k: int| 0 <= k < q ==> (#[trigger] candidates[k]).len() == s + 1,
                forall|k: int| q <= k < width ==> (#[trigger] candidates[k]).len() == s,
                forall|k: int, t: int|
                    0 <= k < width && 0 <= t < s ==> (#[trigger] candidates[k][t]) == similarity(
                        store@[from + k].1,
                        store@[t].1,
                    ),
                forall|k: int|
                    0 <= k < q ==> (#[trigger] candidates[k])[s as int] == similarity(
                        store@[from + k].1,
                        store@[s as int].1,
                    ),
            decreases width - q,
        {
            let query = store.fingerprint(from + q);
            assert(store@[from + q].1.len() == store@[s as int].1.len());
            let value = score_aligned(query, stored);
            candidates[q].push(value);
            q = q + 1;
        }
        s = s + 1;
    }
    let mut records: Vec<IndexRecord> = Vec::new();
    let mut q: usize = 0;
    while q < width
        invariant
            size == store@.len(),
            from <= to <= size,
            width == to - from,
            q <= width,
            candidates.len() == width,
            forall|k: int| 0 <= k < width ==> (#[trigger] candidates[k]).len() == size,
            forall|k: int, t: int|
                0 <= k < width && 0 <= t < size ==> (#[trigger] candidates[k][t]) == similarity(
                    store@[from + k].1,
                    store@[t].1,
                ),
            records.len() == q,
            forall|k: int| 0 <= k < q ==> (#[trigger] records[k])@ == index_record(store@, from + k, n as nat),
        decreases width - q,
    {
        let scores = &candidates[q];
        let ghost query = store@[from + q].1;
        assert(as_ints(scores@) =~= scores_against(store@, query));
        let matches = select_top(store, scores, n);
        assert(views_of(matches@) =~= top_matches(store@, query, n as nat));
        let id = store.record_id(from + q);
        records.push(IndexRecord { record_id: id.to_owned(), matches });
        q = q + 1;
    }
    assert(records_view(records@) =~= index_records(store@, from as int, to as int, n as nat));
    records
}

/// The progress of indexing a store chunk by chunk.
///
/// Each step indexes one chunk and hands its records out, so that the caller
/// can write them away before the next chunk is worked on, and can stop
/// between two chunks.
pub struct BatchIndexer {
    next: usize,
    top_n: usize,
    chunk_size: usize,
}

impl BatchIndexer {
    #[verifier::type_invariant]
    spec fn well_formed(self) -> bool {
        self.chunk_size > 0
    }

    /// The place of the first entry that is not indexed yet.
    pub closed spec fn position(&self) -> usize {
        self.next
    }

    /// How many matches are kept for each entry.
    pub closed spec fn limit(&self) -> usize {
        self.top_n
    }

    /// How many entries are indexed in one step.
    pub closed spec fn step(&self) -> usize {
        self.chunk_size
    }

    /// An indexer at the start of a store, which keeps `top_n` matches for each
    /// entry and indexes `chunk_size` entries in one step. There is none with a
    /// chunk size of zero.
    pub fn new(top_n: usize, chunk_size: usize) -> (r: Option<BatchIndexer>)
        ensures
            r is Some <==> chunk_size > 0,
            r is Some ==> r->Some_0.position() == 0 && r->Some_0.limit() == top_n && r->Some_0.step()
                == chunk_size,
    {
        if chunk_size == 0 {
            None
        } else {
            Some(BatchIndexer { next: 0, top_n, chunk_size })
        }
    }

    /// The place of the first entry that is not indexed yet.
    pub fn next_place(&self) -> (place: usize)
        ensures
            place == self.position(),
    {
        self.next
    }

    /// Indexes the next chunk of the store and moves past it. Once every entry
    /// is indexed there is no next chunk: the result is `None` and the indexer
    /// stays as it is.
    pub fn next_chunk(&mut self, store: &FingerprintStore) -> (r: Option<Vec<IndexRecord>>)
        ensures
            r is Some <==> old(self).position() < store@.len(),
            final(self).limit() == old(self).limit(),
            final(self).step() == old(self).step(),
            final(self).position() == chunk_end(
                store@.len(),
                old(self).position() as nat,
                old(self).step() as nat,
            ),
            r is Some ==> final(self).position() > old(self).position(),
            r is Some ==> records_view(r->Some_0@) == index_records(
                store@,
                old(self).position() as int,
                final(self).position() as int,
                old(self).limit() as nat,
            ),
    {
        proof {
            use_type_invariant(&*self);
        }
        let size = store.len();
        if self.next >= size {
            return None;
        }
        let records = index_chunk(store, self.next, self.chunk_size, self.top_n);
        self.next = if self.chunk_size <= size - self.next {
            self.next + self.chunk_size
        } else {
            size
        };
        Some(records)
    }
}

} // verus!
