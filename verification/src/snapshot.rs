//! Snapshots: a store written down as one JSON object, which maps each record
//! identifier to the text of its fingerprint.

use crate::store::{faultless, is_first_fault, loaded, texts_of, FingerprintStore, LoadError};
use vstd::prelude::*;

verus! {

/// What `serde_json::from_str` reads from a text as a JSON object: the members
/// of the object in the order of its map, each with its key and, where its
/// value is a JSON string, that string. It is `None` where the text is no JSON
/// document, or one whose value is no object.
pub uninterp spec fn json_object_members(text: Seq<char>) -> Option<
    Seq<(Seq<char>, Option<Seq<char>>)>,
>;

/// The characters of the keys and string values of a list of members.
pub open spec fn members_view(members: Seq<(String, Option<String>)>) -> Seq<
    (Seq<char>, Option<Seq<char>>),
> {
    Seq::new(
        members.len(),
        |i: int|
            (
                members[i].0@,
                match members[i].1 {
                    Some(value) => Some(value@),
                    None => None,
                },
            ),
    )
}

/// The characters of what was read from a text as a JSON object.
pub open spec fn document_view(document: Option<Vec<(String, Option<String>)>>) -> Option<
    Seq<(Seq<char>, Option<Seq<char>>)>,
> {
    match document {
        Some(members) => Some(members_view(members@)),
        None => None,
    }
}

/// `serde_json::from_str`, for a `serde_json::Value`: reads a text as JSON and
/// hands out the members of the object that it holds. The contract gives what
/// was read a name and says no more of it.
#[verifier::external_body]
fn read_json_object(text: &str) -> (document: Option<Vec<(String, Option<String>)>>)
    ensures
        document_view(document) == json_object_members(text@),
{
    match serde_json::from_str::<serde_json::Value>(text) {
        Ok(serde_json::Value::Object(map)) => Some(
            map.into_iter().map(
                |(key, value)|
                    match value {
                        serde_json::Value::String(s) => (key, Some(s)),
                        _ => (key, None),
                    },
            ).collect(),
        ),
        _ => None,
    }
}

/// Whether every member of an object has a string as its value.
pub open spec fn has_string_values(members: Seq<(Seq<char>, Option<Seq<char>>)>) -> bool {
    forall|i: int| 0 <= i < members.len() ==> (#[trigger] members[i]).1 is Some
}

/// The keys and strings of the members of an object whose values are strings.
pub open spec fn strings_of(members: Seq<(Seq<char>, Option<Seq<char>>)>) -> Seq<
    (Seq<char>, Seq<char>),
> {
    Seq::new(members.len(), |i: int| (members[i].0, members[i].1->Some_0))
}

/// What loading gives for what was read from a snapshot.
///
/// A text that holds no JSON object, or an object with a value that is no
/// string, is a `Parse` error. The members of an object of strings are taken
/// as entries in order, and the first that cannot be stored is reported.
pub open spec fn is_load_outcome(
    document: Option<Seq<(Seq<char>, Option<Seq<char>>)>>,
    r: Result<Seq<(Seq<char>, Seq<bool>)>, LoadError>,
) -> bool {
    match document {
        None => r == Err::<Seq<(Seq<char>, Seq<bool>)>, LoadError>(LoadError::Parse),
        Some(members) => if !has_string_values(members) {
            r == Err::<Seq<(Seq<char>, Seq<bool>)>, LoadError>(LoadError::Parse)
        } else if forall|k: int| 0 <= k < members.len() ==> faultless(strings_of(members), k) {
            r == Ok::<Seq<(Seq<char>, Seq<bool>)>, LoadError>(loaded(strings_of(members)))
        } else {
            r is Err && is_first_fault(strings_of(members), r->Err_0)
        },
    }
}

/// The entries of a loaded store, or the error.
pub open spec fn load_result_view(r: Result<FingerprintStore, LoadError>) -> Result<
    Seq<(Seq<char>, Seq<bool>)>,
    LoadError,
> {
    match r {
        Ok(store) => Ok(store@),
        Err(e) => Err(e),
    }
}

/// The keys and strings of a list of members, where every value is a string.
pub fn string_entries(members: &Vec<(String, Option<String>)>) -> (r: Option<Vec<(String, String)>>)
    ensures
        r is Some <==> has_string_values(members_view(members@)),
        r is Some ==> texts_of(r->Some_0@) == strings_of(members_view(members@)),
{
    let mut entries: Vec<(String, String)> = Vec::new();
    let mut i: usize = 0;
    while i < members.len()
        invariant
            i <= members.len(),
            entries.len() == i,
            forall|k: int| 0 <= k < i ==> (#[trigger] members[k]).1 is Some,
            forall|k: int|
                0 <= k < i ==> (#[trigger] entries[k]).0@ == members[k].0@ && entries[k].1@
                    == members[k].1->Some_0@,
        decreases members.len() - i,
    {
        let member = &members[i];
        match &member.1 {
            Some(value) => {
                entries.push((member.0.clone(), value.clone()));
            },
            None => {
                assert(members_view(members@)[i as int].1 is None);
                return None;
            },
        }
        i = i + 1;
    }
    assert(has_string_values(members_view(members@))) by {
        assert forall|k: int| 0 <= k < members.len() implies (#[trigger] members_view(members@)[k]).1 is Some by {
            assert(members[k].1 is Some);
        }
    }
    assert(texts_of(entries@) =~= strings_of(members_view(members@)));
    Some(entries)
}

/// Builds a store from what was read from a snapshot.
pub fn load_document(document: &Option<Vec<(String, Option<String>)>>) -> (r: Result<FingerprintStore, LoadError>)
    ensures
        is_load_outcome(document_view(*document), load_result_view(r)),
{
    match document {
        None => Err(LoadError::Parse),
        Some(members) => match string_entries(members) {
            None => Err(LoadError::Parse),
            Some(entries) => FingerprintStore::from_entries(&entries),
        },
    }
}

/// Loads a store from the text of a snapshot: one JSON object, which maps each
/// record identifier to a string of binary digits, all of one length.
pub fn load(text: &str) -> (r: Result<FingerprintStore, LoadError>)
    ensures
        is_load_outcome(json_object_members(text@), load_result_view(r)),
{
    let document = read_json_object(text);
    load_document(&document)
}

} // verus!
