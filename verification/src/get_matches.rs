//! The two operations that the library offers to its callers: the matches of
//! one query, and the matches of every stored entry.

use crate::batch::{index_records, records_view, BatchIndexer, IndexRecord};
use crate::fingerprint::{bits_of, is_binary, is_first_offence};
use crate::query::{resolve, text_of, QueryError};
use crate::select::{top_matches, views_of, MatchItem};
use crate::store::{has_id, is_comparable, FingerprintStore};
use vstd::prelude::*;

verus! {

/// What a query is answered with.
///
/// A record identifier that the store lacks is answered with no matches, not
/// with an error. A record identifier goes before a fingerprint text.
pub open spec fn is_answer(
    entries: Seq<(Seq<char>, Seq<bool>)>,
    record_id: Option<Seq<char>>,
    raw_fingerprint: Option<Seq<char>>,
    n: nat,
    r: Result<Seq<(Seq<char>, nat)>, QueryError>,
) -> bool {
    match record_id {
        Some(id) => if has_id(entries, id) {
            exists|i: int|
                0 <= i < entries.len() && (#[trigger] entries[i]).0 == id && r == Ok::<
                    Seq<(Seq<char>, nat)>,
                    QueryError,
                >(top_matches(entries, entries[i].1, n))
        } else {
            r == Ok::<Seq<(Seq<char>, nat)>, QueryError>(Seq::empty())
        },
        None => match raw_fingerprint {
            Some(text) => if !is_binary(text) {
                r matches Err(QueryError::Format { position }) && is_first_offence(text, position as int)
            } else if !is_comparable(entries, bits_of(text)) {
                r matches Err(QueryError::LengthMismatch { query, stored }) && query == text.len()
                    && stored == entries[0].1.len()
            } else {
                r == Ok::<Seq<(Seq<char>, nat)>, QueryError>(top_matches(entries, bits_of(text), n))
            },
            None => r == Err::<Seq<(Seq<char>, nat)>, QueryError>(QueryError::InvalidQuery),
        },
    }
}

/// The views of the matches that a query was answered with, or the error.
pub open spec fn answer_of(r: Result<Vec<MatchItem>, QueryError>) -> Result<
    Seq<(Seq<char>, nat)>,
    QueryError,
> {
    match r {
        Ok(items) => Ok(views_of(items@)),
        Err(e) => Err(e),
    }
}

/// The `top_n` stored entries that are most similar to a query, best first.
///
/// The query is the fingerprint stored under `ord_id`, or, where no identifier
/// is given, the fingerprint that `file_hash` stands for. An identifier that
/// the store lacks gives no matches.
pub fn get_matches(
    store: &FingerprintStore,
    ord_id: Option<&str>,
    file_hash: Option<&str>,
    top_n: usize,
) -> (r: Result<Vec<MatchItem>, QueryError>)
    ensures
        is_answer(store@, text_of(ord_id), text_of(file_hash), top_n as nat, answer_of(r)),
{
    let query = match resolve(store, ord_id, file_hash) {
        Ok(query) => query,
        Err(QueryError::NotFound) => {
            let none: Vec<MatchItem> = Vec::new();
            assert(views_of(none@) =~= Seq::empty());
            return Ok(none);
        },
        Err(e) => {
            return Err(e);
        },
    };
    match crate::select::top_n(store, &query, top_n) {
        Ok(items) => Ok(items),
        Err(e) => Err(QueryError::LengthMismatch { query: e.left, stored: e.right }),
    }
}

/// The matches of every stored entry against the whole store, in store order:
/// for each entry its record identifier and its `top_n` best matches.
///
/// The store is worked through in chunks of `chunk_size` entries. The size of
/// the chunks bounds the scores that are held at one time and does not change
/// the result. The records of all chunks are collected: a caller that writes
/// them away as they come steps a `BatchIndexer` itself. With a chunk size of
/// zero nothing can be indexed, and the result is `None`.
pub fn index_all_pictures(store: &FingerprintStore, top_n: usize, chunk_size: usize) -> (r: Option<
    Vec<IndexRecord>,
>)
    ensures
        r is Some <==> chunk_size > 0,
        r is Some ==> records_view(r->Some_0@) == index_records(
            store@,
            0,
            store@.len() as int,
            top_n as nat,
        ),
{
    let size = store.len();
    let mut indexer = match BatchIndexer::new(top_n, chunk_size) {
        Some(indexer) => indexer,
        None => {
            return None;
        },
    };
    let mut all: Vec<IndexRecord> = Vec::new();
    loop
        invariant
            chunk_size > 0,
            size == store@.len(),
            indexer.limit() == top_n,
            indexer.position() <= size,
            records_view(all@) == index_records(store@, 0, indexer.position() as int, top_n as nat),
        decreases size - indexer.position(),
    {
        let ghost done = all@;
        let ghost from = indexer.position();
        match indexer.next_chunk(store) {
            Some(mut records) => {
                let ghost fresh = records@;
                all.append(&mut records);
                assert(records_view(all@) =~= index_records(
                    store@,
                    0,
                    indexer.position() as int,
                    top_n as nat,
                )) by {
                    let to = indexer.position() as int;
                    let before = index_records(store@, 0, from as int, top_n as nat);
                    let added = index_records(store@, from as int, to, top_n as nat);
                    assert(all@ == done + fresh);
                    assert(records_view(done).len() == before.len());
                    assert(records_view(fresh).len() == added.len());
                    assert forall|k: int| 0 <= k < to implies records_view(all@)[k] == index_records(
                        store@,
                        0,
                        to,
                        top_n as nat,
                    )[k] by {
                        if k < from {
                            assert(all@[k] == done[k]);
                            assert(records_view(done)[k] == before[k]);
                        } else {
                            assert(all@[k] == fresh[k - from]);
                            assert(records_view(fresh)[k - from] == added[k - from]);
                        }
                    }
                }
            },
            None => {
                return Some(all);
            },
        }
    }
}

} // verus!
