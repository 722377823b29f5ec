//! The store: fingerprints under record identifiers, built once and then only read.

use crate::fingerprint::{bits_of, is_binary, is_first_offence, Fingerprint};
use vstd::hash_map::StringHashMap;
use vstd::prelude::*;

verus! {

/// Why a list of entries is no store.
#[derive(Debug, Clone, Copy, PartialEq, Eq, Structural)]
pub enum LoadError {
    /// The snapshot is not a mapping from record identifiers to strings.
    Parse,
    /// The entry at place `entry` has the record identifier of an earlier entry.
    DuplicateId { entry: usize },
    /// The text of the entry at place `entry` holds, at `position`, its first
    /// character that is no binary digit.
    Format { entry: usize, position: usize },
    /// The fingerprint of the entry at place `entry` has `found` bits, and the
    /// first entry of the list has `expected`.
    LengthMismatch { entry: usize, expected: usize, found: usize },
}

/// Whether the entry at place `k` has the record identifier of an earlier entry.
pub open spec fn repeats_id(raw: Seq<(Seq<char>, Seq<char>)>, k: int) -> bool {
    exists|j: int| 0 <= j < k && (#[trigger] raw[j]).0 == raw[k].0
}

/// Whether the entry at place `k` can be stored after the entries before it: its
/// identifier is new, its text holds binary digits only, and it is as long as
/// the text of the first entry.
pub open spec fn faultless(raw: Seq<(Seq<char>, Seq<char>)>, k: int) -> bool {
    &&& !repeats_id(raw, k)
    &&& is_binary(raw[k].1)
    &&& raw[k].1.len() == raw[0].1.len()
}

/// The place of the entry that an error speaks of.
pub open spec fn fault_entry(e: LoadError) -> int {
    match e {
        LoadError::Parse => 0,
        LoadError::DuplicateId { entry } => entry as int,
        LoadError::Format { entry, .. } => entry as int,
        LoadError::LengthMismatch { entry, .. } => entry as int,
    }
}

/// Whether an error says what is wrong with the entry that it speaks of. Of an
/// entry the identifier is looked at first, then the digits, then the length.
pub open spec fn is_fault(raw: Seq<(Seq<char>, Seq<char>)>, e: LoadError) -> bool {
    match e {
        LoadError::Parse => false,
        LoadError::DuplicateId { entry } => entry < raw.len() && repeats_id(raw, entry as int),
        LoadError::Format { entry, position } => {
            &&& entry < raw.len()
            &&& !repeats_id(raw, entry as int)
            &&& is_first_offence(raw[entry as int].1, position as int)
        },
        LoadError::LengthMismatch { entry, expected, found } => {
            &&& entry < raw.len()
            &&& !repeats_id(raw, entry as int)
            &&& is_binary(raw[entry as int].1)
            &&& expected == raw[0].1.len()
            &&& found == raw[entry as int].1.len()
            &&& expected != found
        },
    }
}

/// Whether an error says what is wrong with the first entry that cannot be stored.
pub open spec fn is_first_fault(raw: Seq<(Seq<char>, Seq<char>)>, e: LoadError) -> bool {
    &&& is_fault(raw, e)
    &&& forall|j: int| 0 <= j < fault_entry(e) ==> faultless(raw, j)
}

/// The entries of the store that is built from a list of identifiers and texts.
pub open spec fn loaded(raw: Seq<(Seq<char>, Seq<char>)>) -> Seq<(Seq<char>, Seq<bool>)> {
    Seq::new(raw.len(), |i: int| (raw[i].0, bits_of(raw[i].1)))
}

/// The identifiers and texts of a list of entries.
pub open spec fn texts_of(entries: Seq<(String, String)>) -> Seq<(Seq<char>, Seq<char>)> {
    Seq::new(entries.len(), |i: int| (entries[i].0@, entries[i].1@))
}

/// Whether no record identifier occurs twice.
pub open spec fn has_distinct_ids(entries: Seq<(Seq<char>, Seq<bool>)>) -> bool {
    forall|i: int, j: int|
        0 <= i < entries.len() && 0 <= j < entries.len() && i != j ==> (#[trigger] entries[i]).0
            != (#[trigger] entries[j]).0
}

/// Whether all fingerprints have the same length.
pub open spec fn has_uniform_length(entries: Seq<(Seq<char>, Seq<bool>)>) -> bool {
    forall|i: int, j: int|
        0 <= i < entries.len() && 0 <= j < entries.len() ==> (#[trigger] entries[i]).1.len() == (
        #[trigger] entries[j]).1.len()
}

/// What holds of the entries of every store.
pub open spec fn is_store(entries: Seq<(Seq<char>, Seq<bool>)>) -> bool {
    has_distinct_ids(entries) && has_uniform_length(entries)
}

/// Whether some entry has the record identifier.
pub open spec fn has_id(entries: Seq<(Seq<char>, Seq<bool>)>, id: Seq<char>) -> bool {
    exists|i: int| 0 <= i < entries.len() && (#[trigger] entries[i]).0 == id
}

/// Whether a query can be compared with every entry: each stored fingerprint
/// has the length of the query.
pub open spec fn is_comparable(entries: Seq<(Seq<char>, Seq<bool>)>, query: Seq<bool>) -> bool {
    forall|i: int| 0 <= i < entries.len() ==> (#[trigger] entries[i]).1.len() == query.len()
}

/// Fingerprints under record identifiers, in the order in which they were given.
///
/// Its view is the sequence of its entries, each an identifier and the bits
/// stored under it. No identifier occurs twice, and all fingerprints have one length.
pub struct FingerprintStore {
    ids: Vec<String>,
    prints: Vec<Fingerprint>,
    places: StringHashMap<usize>,
}

impl View for FingerprintStore {
    type V = Seq<(Seq<char>, Seq<bool>)>;

    closed spec fn view(&self) -> Self::V {
        Seq::new(self.ids.len() as nat, |i: int| (self.ids[i]@, self.prints[i]@))
    }
}

impl FingerprintStore {
    #[verifier::type_invariant]
    spec fn well_formed(self) -> bool {
        &&& self.ids.len() == self.prints.len()
        &&& forall|i: int|
            0 <= i < self.ids.len() ==> self.places@.contains_key(#[trigger] self.ids[i]@)
                && self.places@[self.ids[i]@] == i
        &&& forall|id: Seq<char>| #[trigger]
            self.places@.contains_key(id) ==> self.places@[id] < self.ids.len()
                && self.ids[self.places@[id] as int]@ == id
        &&& forall|i: int, j: int|
            0 <= i < self.prints.len() && 0 <= j < self.prints.len() ==> (#[trigger] self.prints[i])@.len()
                == (#[trigger] self.prints[j])@.len()
    }

    /// Builds a store from a list of record identifiers and fingerprint texts.
    ///
    /// The entries are taken in order, and the first that cannot be stored is
    /// reported: one whose identifier an earlier entry has, whose text holds a
    /// character other than `'0'` and `'1'`, or whose text is not as long as
    /// that of the first entry.
    pub fn from_entries(entries: &Vec<(String, String)>) -> (r: Result<FingerprintStore, LoadError>)
        ensures
            r is Ok <==> forall|k: int| 0 <= k < entries.len() ==> faultless(texts_of(entries@), k),
            r is Ok ==> r->Ok_0@ == loaded(texts_of(entries@)) && is_store(r->Ok_0@),
            r is Err ==> is_first_fault(texts_of(entries@), r->Err_0),
    {
        let ghost raw = texts_of(entries@);
        let mut ids: Vec<String> = Vec::new();
        let mut prints: Vec<Fingerprint> = Vec::new();
        let mut places: StringHashMap<usize> = StringHashMap::new();
        let mut i: usize = 0;
        while i < entries.len()
            invariant
                raw == texts_of(entries@),
                i <= entries.len(),
                ids.len() == i,
                prints.len() == i,
                forall|k: int| 0 <= k < i ==> faultless(raw, k),
                forall|k: int| 0 <= k < i ==> (#[trigger] ids[k])@ == raw[k].0,
                forall|k: int| 0 <= k < i ==> (#[trigger] prints[k])@ == bits_of(raw[k].1),
                forall|k: int|
                    0 <= k < i ==> places@.contains_key(#[trigger] ids[k]@) && places@[ids[k]@] == k,
                forall|id: Seq<char>| #[trigger]
                    places@.contains_key(id) ==> places@[id] < i && ids[places@[id] as int]@ == id,
            decreases entries.len() - i,
        {
            let entry = &entries[i];
            let id = entry.0.as_str();
            let text = entry.1.as_str();
            assert(raw[i as int] == (id@, text@));
            if places.contains_key(id) {
                proof {
                    let j = places@[id@] as int;
                    assert(raw[j].0 == raw[i as int].0);
                    assert(!faultless(raw, i as int));
                }
                return Err(LoadError::DuplicateId { entry: i });
            }
            assert(!repeats_id(raw, i as int)) by {
                if repeats_id(raw, i as int) {
                    let j = choose|j: int| 0 <= j < i && (#[trigger] raw[j]).0 == raw[i as int].0;
                    assert(places@.contains_key(ids[j]@));
                }
            }
            let print = match Fingerprint::parse(text) {
                Ok(print) => print,
                Err(e) => {
                    assert(!faultless(raw, i as int));
                    return Err(LoadError::Format { entry: i, position: e.position });
                },
            };
            if i > 0 {
                let expected = prints[0].length();
                let found = print.length();
                assert(faultless(raw, 0));
                if expected != found {
                    assert(!faultless(raw, i as int));
                    return Err(LoadError::LengthMismatch { entry: i, expected, found });
                }
            }
            let owned = entry.0.clone();
            let key = entry.0.clone();
            ids.push(owned);
            prints.push(print);
            places.insert(key, i);
            i = i + 1;
        }
        assert forall|k: int, l: int| 0 <= k < prints.len() && 0 <= l < prints.len() implies (
        #[trigger] prints[k])@.len() == (#[trigger] prints[l])@.len() by {
            assert(faultless(raw, k) && faultless(raw, l));
        }
        let store = FingerprintStore { ids, prints, places };
        assert(store@ =~= loaded(raw));
        Ok(store)
    }

    /// The number of entries.
    pub fn len(&self) -> (n: usize)
        ensures
            n == self@.len(),
            is_store(self@),
    {
        proof {
            use_type_invariant(self);
        }
        self.ids.len()
    }

    /// Whether the store holds no entry.
    pub fn is_empty(&self) -> (b: bool)
        ensures
            b == (self@.len() == 0),
    {
        self.ids.len() == 0
    }

    /// The record identifier of the entry at place `i`.
    pub fn record_id(&self, i: usize) -> (id: &str)
        requires
            i < self@.len(),
        ensures
            id@ == self@[i as int].0,
    {
        self.ids[i].as_str()
    }

    /// The fingerprint of the entry at place `i`.
    pub fn fingerprint(&self, i: usize) -> (print: &Fingerprint)
        requires
            i < self@.len(),
        ensures
            print@ == self@[i as int].1,
    {
        proof {
            use_type_invariant(self);
        }
        &self.prints[i]
    }

    /// The place of the entry with the given record identifier, if there is one.
    pub fn place_of(&self, id: &str) -> (r: Option<usize>)
        ensures
            r is Some <==> has_id(self@, id@),
            r is Some ==> r->Some_0 < self@.len() && self@[r->Some_0 as int].0 == id@,
    {
        proof {
            use_type_invariant(self);
        }
        match self.places.get(id) {
            Some(place) => {
                assert(self@[*place as int].0 == id@);
                Some(*place)
            },
            None => {
                assert(!has_id(self@, id@)) by {
                    if has_id(self@, id@) {
                        let i = choose|i: int| 0 <= i < self@.len() && (#[trigger] self@[i]).0 == id@;
                        assert(self.places@.contains_key(self.ids[i]@));
                    }
                }
                None
            },
        }
    }

    /// The fingerprint stored under the given record identifier, if there is one.
    pub fn get(&self, id: &str) -> (r: Option<&Fingerprint>)
        ensures
            r is Some <==> has_id(self@, id@),
            r is Some ==> exists|i: int|
                0 <= i < self@.len() && (#[trigger] self@[i]) == (id@, r->Some_0@),
            r is Some ==> is_comparable(self@, r->Some_0@),
    {
        proof {
            use_type_invariant(self);
        }
        match self.place_of(id) {
            Some(place) => {
                let print = self.fingerprint(place);
                assert(self@[place as int] == (id@, print@));
                Some(print)
            },
            None => None,
        }
    }
}

} // verus!
