use similar_pictures::fingerprint::Fingerprint;
use similar_pictures::get_matches::get_matches;
use similar_pictures::query::{resolve, QueryError};
use similar_pictures::select::MatchItem;
use similar_pictures::store::FingerprintStore;

fn store_of(pairs: &[(&str, &str)]) -> FingerprintStore {
    let entries: Vec<(String, String)> =
        pairs.iter().map(|(id, text)| (id.to_string(), text.to_string())).collect();
    FingerprintStore::from_entries(&entries).expect("a valid list of entries")
}

fn item(id: &str, score: usize) -> MatchItem {
    MatchItem { record_id: id.to_string(), score }
}

fn sample() -> FingerprintStore {
    store_of(&[("1", "1100"), ("2", "1010"), ("3", "0011")])
}

#[test]
fn resolve_by_record_id_gives_the_stored_fingerprint() {
    let store = sample();
    let print = resolve(&store, Some("2"), None).expect("a stored identifier");
    assert_eq!(print.to_string(), "1010");
}

#[test]
fn resolve_by_text_parses_it() {
    let store = sample();
    let print = resolve(&store, None, Some("0110")).expect("a string of binary digits");
    assert_eq!(print.to_string(), "0110");
    let print = resolve(&store, None, Some("011011")).expect("a string of binary digits");
    assert_eq!(print.length(), 6);
}

#[test]
fn resolve_prefers_the_record_id() {
    let store = sample();
    let print = resolve(&store, Some("3"), Some("1111")).expect("a stored identifier");
    assert_eq!(print.to_string(), "0011");
    assert_eq!(resolve(&store, Some("9"), Some("1111")).err(), Some(QueryError::NotFound));
    let print = resolve(&store, Some("1"), Some("not a fingerprint")).expect("a stored identifier");
    assert_eq!(print.to_string(), "1100");
}

#[test]
fn resolve_of_an_absent_record_id_is_not_found() {
    let store = sample();
    assert_eq!(resolve(&store, Some("4"), None).err(), Some(QueryError::NotFound));
}

#[test]
fn resolve_of_a_bad_text_is_a_format_error() {
    let store = sample();
    assert_eq!(
        resolve(&store, None, Some("01b0")).err(),
        Some(QueryError::Format { position: 2 })
    );
}

#[test]
fn resolve_without_identifier_or_text_is_invalid() {
    let store = sample();
    assert_eq!(resolve(&store, None, None).err(), Some(QueryError::InvalidQuery));
}

#[test]
fn get_matches_by_record_id() {
    let store = sample();
    assert_eq!(get_matches(&store, Some("1"), None, 2), Ok(vec![item("1", 4), item("2", 2)]));
    assert_eq!(
        get_matches(&store, Some("3"), None, 20),
        Ok(vec![item("3", 4), item("2", 2), item("1", 0)])
    );
}

#[test]
fn get_matches_by_fingerprint_text() {
    let store = sample();
    assert_eq!(
        get_matches(&store, None, Some("1100"), 2),
        Ok(vec![item("1", 4), item("2", 2)])
    );
    assert_eq!(
        get_matches(&store, None, Some("1011"), 3),
        Ok(vec![item("2", 3), item("3", 3), item("1", 1)])
    );
}

#[test]
fn get_matches_of_an_absent_record_id_is_empty() {
    let store = sample();
    assert_eq!(get_matches(&store, Some("4"), None, 2), Ok(Vec::new()));
    assert_eq!(get_matches(&store, Some("4"), Some("1100"), 2), Ok(Vec::new()));
}

#[test]
fn get_matches_prefers_the_record_id() {
    let store = sample();
    assert_eq!(
        get_matches(&store, Some("2"), Some("0011"), 1),
        Ok(vec![item("2", 4)])
    );
}

#[test]
fn get_matches_without_identifier_or_text_is_invalid() {
    let store = sample();
    assert_eq!(get_matches(&store, None, None, 2), Err(QueryError::InvalidQuery));
}

#[test]
fn get_matches_of_a_bad_text_is_a_format_error() {
    let store = sample();
    assert_eq!(
        get_matches(&store, None, Some("11002"), 2),
        Err(QueryError::Format { position: 4 })
    );
}

#[test]
fn get_matches_of_a_text_of_another_length_is_a_mismatch() {
    let store = sample();
    assert_eq!(
        get_matches(&store, None, Some("110011"), 2),
        Err(QueryError::LengthMismatch { query: 6, stored: 4 })
    );
}

#[test]
fn get_matches_with_more_asked_than_stored_returns_all() {
    let store = store_of(&[("a", "0001"), ("b", "0011"), ("c", "0111"), ("d", "1111"), ("e", "0000")]);
    let result = get_matches(&store, Some("e"), None, 10).expect("a stored identifier");
    assert_eq!(result.len(), 5);
    assert_eq!(result[0], item("e", 4));
    assert_eq!(result[4], item("d", 0));
}

#[test]
fn get_matches_on_an_empty_store() {
    let store = store_of(&[]);
    assert_eq!(get_matches(&store, None, Some("1100"), 3), Ok(Vec::new()));
    assert_eq!(get_matches(&store, Some("1"), None, 3), Ok(Vec::new()));
}

#[test]
fn stored_fingerprint_matches_itself_best() {
    let store = sample();
    for id in ["1", "2", "3"] {
        let result = get_matches(&store, Some(id), None, 1).expect("a stored identifier");
        assert_eq!(result, vec![item(id, 4)]);
        let print: Fingerprint = resolve(&store, Some(id), None).expect("a stored identifier");
        assert_eq!(print.length(), 4);
    }
}
