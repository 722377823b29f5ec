use similar_pictures::fingerprint::Fingerprint;
use similar_pictures::store::{FingerprintStore, LoadError};

fn entries_of(pairs: &[(&str, &str)]) -> Vec<(String, String)> {
    pairs.iter().map(|(id, text)| (id.to_string(), text.to_string())).collect()
}

fn store_of(pairs: &[(&str, &str)]) -> FingerprintStore {
    FingerprintStore::from_entries(&entries_of(pairs)).expect("a valid list of entries")
}

#[test]
fn store_keeps_entries_in_order() {
    let store = store_of(&[("b", "1100"), ("a", "1010"), ("c", "0011")]);
    assert_eq!(store.len(), 3);
    assert!(!store.is_empty());
    assert_eq!(store.record_id(0), "b");
    assert_eq!(store.record_id(1), "a");
    assert_eq!(store.record_id(2), "c");
    assert_eq!(store.fingerprint(0).to_string(), "1100");
    assert_eq!(store.fingerprint(1).to_string(), "1010");
    assert_eq!(store.fingerprint(2).to_string(), "0011");
}

#[test]
fn empty_list_gives_empty_store() {
    let store = store_of(&[]);
    assert_eq!(store.len(), 0);
    assert!(store.is_empty());
    assert!(store.get("1").is_none());
    assert_eq!(store.place_of("1"), None);
}

#[test]
fn get_finds_the_fingerprint_under_an_identifier() {
    let store = store_of(&[("1", "1100"), ("2", "1010"), ("3", "0011")]);
    assert_eq!(store.get("2").map(Fingerprint::to_string), Some("1010".to_string()));
    assert_eq!(store.get("3").map(Fingerprint::to_string), Some("0011".to_string()));
    assert_eq!(store.place_of("1"), Some(0));
    assert_eq!(store.place_of("3"), Some(2));
}

#[test]
fn get_of_an_absent_identifier_is_none() {
    let store = store_of(&[("1", "1100"), ("2", "1010")]);
    assert!(store.get("4").is_none());
    assert!(store.get("").is_none());
    assert!(store.get("11").is_none());
    assert_eq!(store.place_of("4"), None);
}

#[test]
fn from_entries_rejects_a_repeated_identifier() {
    let r = FingerprintStore::from_entries(&entries_of(&[("1", "1100"), ("2", "1010"), ("1", "0011")]));
    assert_eq!(r.err(), Some(LoadError::DuplicateId { entry: 2 }));
}

#[test]
fn from_entries_rejects_a_text_that_is_no_fingerprint() {
    let r = FingerprintStore::from_entries(&entries_of(&[("1", "1100"), ("2", "10x0")]));
    assert_eq!(r.err(), Some(LoadError::Format { entry: 1, position: 2 }));
}

#[test]
fn from_entries_rejects_a_fingerprint_of_another_length() {
    let r = FingerprintStore::from_entries(&entries_of(&[("1", "1100"), ("2", "1010"), ("3", "001")]));
    assert_eq!(r.err(), Some(LoadError::LengthMismatch { entry: 2, expected: 4, found: 3 }));
}

#[test]
fn from_entries_reports_the_first_fault() {
    let r = FingerprintStore::from_entries(&entries_of(&[("1", "1100"), ("2", "1"), ("1", "2222")]));
    assert_eq!(r.err(), Some(LoadError::LengthMismatch { entry: 1, expected: 4, found: 1 }));
}

#[test]
fn from_entries_looks_at_the_identifier_before_the_text() {
    let r = FingerprintStore::from_entries(&entries_of(&[("1", "1100"), ("1", "zz")]));
    assert_eq!(r.err(), Some(LoadError::DuplicateId { entry: 1 }));
    let r = FingerprintStore::from_entries(&entries_of(&[("1", "1100"), ("2", "zz")]));
    assert_eq!(r.err(), Some(LoadError::Format { entry: 1, position: 0 }));
}

#[test]
fn from_entries_rejects_a_first_entry_that_is_no_fingerprint() {
    let r = FingerprintStore::from_entries(&entries_of(&[("1", "11 0")]));
    assert_eq!(r.err(), Some(LoadError::Format { entry: 0, position: 2 }));
}

#[test]
fn store_of_many_entries_finds_each() {
    let mut entries = Vec::new();
    for i in 0..300usize {
        let mut text = String::new();
        for bit in 0..16 {
            text.push(if (i >> bit) & 1 == 1 { '1' } else { '0' });
        }
        entries.push((format!("id-{}", i), text));
    }
    let store = FingerprintStore::from_entries(&entries).expect("distinct identifiers");
    assert_eq!(store.len(), 300);
    for (i, (id, text)) in entries.iter().enumerate() {
        assert_eq!(store.place_of(id), Some(i));
        assert_eq!(store.get(id).map(Fingerprint::to_string), Some(text.clone()));
    }
}
