//! Queries: the fingerprint to rank against, named by a record identifier or
//! given as text.

use crate::fingerprint::{bits_of, is_binary, is_first_offence, Fingerprint};
use crate::store::{has_id, is_comparable, FingerprintStore};
use vstd::prelude::*;

verus! {

/// Why a query has no fingerprint, or cannot be ranked.
#[derive(Debug, Clone, Copy, PartialEq, Eq, Structural)]
pub enum QueryError {
    /// The store has no entry with the record identifier.
    NotFound,
    /// The text of the fingerprint holds, at `position`, its first character
    /// that is no binary digit.
    Format { position: usize },
    /// Neither a record identifier nor a fingerprint was given.
    InvalidQuery,
    /// The fingerprint of the query has `query` bits, and those of the store have `stored`.
    LengthMismatch { query: usize, stored: usize },
}

/// What a query resolves to. A record identifier goes before a fingerprint
/// text: with an identifier the text is not looked at.
pub open spec fn is_resolution(
    entries: Seq<(Seq<char>, Seq<bool>)>,
    record_id: Option<Seq<char>>,
    raw_fingerprint: Option<Seq<char>>,
    r: Result<Seq<bool>, QueryError>,
) -> bool {
    match record_id {
        Some(id) => if has_id(entries, id) {
            &&& r is Ok
            &&& exists|i: int| 0 <= i < entries.len() && (#[trigger] entries[i]) == (id, r->Ok_0)
            &&& is_comparable(entries, r->Ok_0)
        } else {
            r == Err::<Seq<bool>, QueryError>(QueryError::NotFound)
        },
        None => match raw_fingerprint {
            Some(text) => if is_binary(text) {
                r == Ok::<Seq<bool>, QueryError>(bits_of(text))
            } else {
                r matches Err(QueryError::Format { position }) && is_first_offence(text, position as int)
            },
            None => r == Err::<Seq<bool>, QueryError>(QueryError::InvalidQuery),
        },
    }
}

/// The characters of a text that may be absent.
pub open spec fn text_of(text: Option<&str>) -> Option<Seq<char>> {
    match text {
        Some(t) => Some(t@),
        None => None,
    }
}

/// The bits of a resolved fingerprint, or the error.
pub open spec fn outcome_of(r: Result<Fingerprint, QueryError>) -> Result<Seq<bool>, QueryError> {
    match r {
        Ok(print) => Ok(print@),
        Err(e) => Err(e),
    }
}

/// Finds the fingerprint that a query asks about.
///
/// With a record identifier, it is the fingerprint stored under it, and
/// `NotFound` where the store has none; a fingerprint text given beside the
/// identifier is ignored. With a text alone, it is the fingerprint that the text
/// stands for, and `Format` where the text is no fingerprint. With neither, the
/// query is an `InvalidQuery`.
pub fn resolve(store: &FingerprintStore, record_id: Option<&str>, raw_fingerprint: Option<&str>) -> (r:
    Result<Fingerprint, QueryError>)
    ensures
        is_resolution(store@, text_of(record_id), text_of(raw_fingerprint), outcome_of(r)),
{
    match record_id {
        Some(id) => match store.get(id) {
            Some(print) => Ok(print.clone()),
            None => Err(QueryError::NotFound),
        },
        None => match raw_fingerprint {
            Some(text) => match Fingerprint::parse(text) {
                Ok(print) => Ok(print),
                Err(e) => Err(QueryError::Format { position: e.position }),
            },
            None => Err(QueryError::InvalidQuery),
        },
    }
}

} // verus!
