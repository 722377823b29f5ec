use similar_pictures::get_matches::get_matches;
use similar_pictures::select::MatchItem;
use similar_pictures::snapshot::{load, load_document, string_entries};
use similar_pictures::store::LoadError;

#[test]
fn load_reads_a_json_object_of_fingerprints() {
    let store = load(r#"{"1": "1100", "2": "1010", "3": "0011"}"#).expect("a valid snapshot");
    assert_eq!(store.len(), 3);
    assert_eq!(store.get("1").map(|p| p.to_string()), Some("1100".to_string()));
    assert_eq!(store.get("2").map(|p| p.to_string()), Some("1010".to_string()));
    assert_eq!(store.get("3").map(|p| p.to_string()), Some("0011".to_string()));
    assert!(store.get("4").is_none());
}

#[test]
fn load_of_an_empty_object_is_an_empty_store() {
    let store = load("{}").expect("a valid snapshot");
    assert!(store.is_empty());
}

#[test]
fn load_unescapes_identifiers() {
    let store = load(r#"{"a\"b": "01", "A": "10"}"#).expect("a valid snapshot");
    assert_eq!(store.len(), 2);
    assert!(store.get("a\"b").is_some());
    assert!(store.get("A").is_some());
}

#[test]
fn load_rejects_text_that_is_no_json() {
    assert_eq!(load("").err(), Some(LoadError::Parse));
    assert_eq!(load("{").err(), Some(LoadError::Parse));
    assert_eq!(load(r#"{"1": "1100",}"#).err(), Some(LoadError::Parse));
    assert_eq!(load(r#"{"1": "1100"} x"#).err(), Some(LoadError::Parse));
}

#[test]
fn load_rejects_json_that_is_no_object() {
    assert_eq!(load(r#"["1100", "1010"]"#).err(), Some(LoadError::Parse));
    assert_eq!(load(r#""1100""#).err(), Some(LoadError::Parse));
    assert_eq!(load("12").err(), Some(LoadError::Parse));
    assert_eq!(load("null").err(), Some(LoadError::Parse));
}

#[test]
fn load_rejects_values_that_are_no_strings() {
    assert_eq!(load(r#"{"1": "1100", "2": 1010}"#).err(), Some(LoadError::Parse));
    assert_eq!(load(r#"{"1": null}"#).err(), Some(LoadError::Parse));
    assert_eq!(load(r#"{"1": {"2": "1100"}}"#).err(), Some(LoadError::Parse));
    assert_eq!(load(r#"{"1": ["1100"]}"#).err(), Some(LoadError::Parse));
}

#[test]
fn load_rejects_a_text_that_is_no_fingerprint() {
    assert_eq!(
        load(r#"{"1": "1100", "2": "1o10"}"#).err(),
        Some(LoadError::Format { entry: 1, position: 1 })
    );
}

#[test]
fn load_rejects_fingerprints_of_different_lengths() {
    assert_eq!(
        load(r#"{"1": "1100", "2": "10100"}"#).err(),
        Some(LoadError::LengthMismatch { entry: 1, expected: 4, found: 5 })
    );
}

#[test]
fn load_checks_the_values_before_the_fingerprints() {
    assert_eq!(load(r#"{"1": "11x0", "2": 7}"#).err(), Some(LoadError::Parse));
}

#[test]
fn string_entries_needs_every_value_to_be_a_string() {
    let members = vec![
        ("1".to_string(), Some("1100".to_string())),
        ("2".to_string(), Some("1010".to_string())),
    ];
    assert_eq!(
        string_entries(&members),
        Some(vec![
            ("1".to_string(), "1100".to_string()),
            ("2".to_string(), "1010".to_string())
        ])
    );
    let members = vec![("1".to_string(), Some("1100".to_string())), ("2".to_string(), None)];
    assert_eq!(string_entries(&members), None);
    assert_eq!(string_entries(&Vec::new()), Some(Vec::new()));
}

#[test]
fn load_document_builds_the_store_in_member_order() {
    let members = vec![
        ("z".to_string(), Some("1100".to_string())),
        ("a".to_string(), Some("1010".to_string())),
    ];
    let store = load_document(&Some(members)).expect("a valid document");
    assert_eq!(store.record_id(0), "z");
    assert_eq!(store.record_id(1), "a");
    assert_eq!(load_document(&None).err(), Some(LoadError::Parse));
    let members = vec![("z".to_string(), None)];
    assert_eq!(load_document(&Some(members)).err(), Some(LoadError::Parse));
    let members = vec![
        ("z".to_string(), Some("1100".to_string())),
        ("z".to_string(), Some("1010".to_string())),
    ];
    assert_eq!(load_document(&Some(members)).err(), Some(LoadError::DuplicateId { entry: 1 }));
}

#[test]
fn loaded_snapshot_answers_a_query() {
    let store = load(r#"{"1": "1100", "2": "1010", "3": "0011"}"#).expect("a valid snapshot");
    let result = get_matches(&store, None, Some("1100"), 2).expect("a string of binary digits");
    assert_eq!(result.len(), 2);
    assert_eq!(result[0], MatchItem { record_id: "1".to_string(), score: 4 });
    assert_eq!(result[1].score, 2);
    assert!(result[1].record_id == "2" || result[1].record_id == "3");
    assert_eq!(get_matches(&store, Some("7"), None, 2), Ok(Vec::new()));
}

#[test]
fn load_orders_entries_by_identifier() {
    let store = load(r#"{"b": "01", "c": "10", "a": "11"}"#).expect("a valid snapshot");
    assert_eq!(store.record_id(0), "a");
    assert_eq!(store.record_id(1), "b");
    assert_eq!(store.record_id(2), "c");
}
