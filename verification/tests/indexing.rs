use similar_pictures::batch::{index_chunk, index_line, BatchIndexer, IndexRecord};
use similar_pictures::get_matches::{get_matches, index_all_pictures};
use similar_pictures::select::MatchItem;
use similar_pictures::store::FingerprintStore;

fn store_of(pairs: &[(&str, &str)]) -> FingerprintStore {
    let entries: Vec<(String, String)> =
        pairs.iter().map(|(id, text)| (id.to_string(), text.to_string())).collect();
    FingerprintStore::from_entries(&entries).expect("a valid list of entries")
}

fn item(id: &str, score: usize) -> MatchItem {
    MatchItem { record_id: id.to_string(), score }
}

fn five() -> FingerprintStore {
    store_of(&[("a", "0001"), ("b", "0011"), ("c", "0111"), ("d", "1111"), ("e", "0000")])
}

#[test]
fn batch_with_chunks_of_two_over_five_entries() {
    let store = five();
    let records = index_all_pictures(&store, 3, 2).expect("a chunk size above zero");
    assert_eq!(records.len(), 5);
    let ids: Vec<&str> = records.iter().map(|r| r.record_id.as_str()).collect();
    assert_eq!(ids, vec!["a", "b", "c", "d", "e"]);
    for record in &records {
        assert!(record.matches.len() <= 3);
        assert_eq!(record.matches.len(), 3);
        assert_eq!(record.matches[0], item(&record.record_id, 4));
    }
}

#[test]
fn batch_records_are_the_matches_of_each_entry() {
    let store = five();
    let records = index_all_pictures(&store, 2, 2).expect("a chunk size above zero");
    assert_eq!(
        records,
        vec![
            IndexRecord { record_id: "a".to_string(), matches: vec![item("a", 4), item("b", 3)] },
            IndexRecord { record_id: "b".to_string(), matches: vec![item("b", 4), item("a", 3)] },
            IndexRecord { record_id: "c".to_string(), matches: vec![item("c", 4), item("b", 3)] },
            IndexRecord { record_id: "d".to_string(), matches: vec![item("d", 4), item("c", 3)] },
            IndexRecord { record_id: "e".to_string(), matches: vec![item("e", 4), item("a", 3)] },
        ]
    );
    for record in &records {
        let direct = get_matches(&store, Some(&record.record_id), None, 2).expect("stored");
        assert_eq!(record.matches, direct);
    }
}

#[test]
fn batch_result_does_not_depend_on_the_chunk_size() {
    let store = five();
    let whole = index_all_pictures(&store, 4, 5).expect("a chunk size above zero");
    for chunk_size in [1, 2, 3, 4, 6, 100, usize::MAX] {
        assert_eq!(index_all_pictures(&store, 4, chunk_size), Some(whole.clone()));
    }
}

#[test]
fn batch_with_chunk_size_zero_indexes_nothing() {
    let store = five();
    assert_eq!(index_all_pictures(&store, 3, 0), None);
    assert!(BatchIndexer::new(3, 0).is_none());
}

#[test]
fn batch_with_no_matches_asked_for() {
    let store = five();
    let records = index_all_pictures(&store, 0, 2).expect("a chunk size above zero");
    assert_eq!(records.len(), 5);
    for record in &records {
        assert!(record.matches.is_empty());
    }
}

#[test]
fn batch_over_an_empty_store() {
    let store = store_of(&[]);
    assert_eq!(index_all_pictures(&store, 3, 2), Some(Vec::new()));
}

#[test]
fn batch_asks_for_more_matches_than_entries() {
    let store = five();
    let records = index_all_pictures(&store, 20, 30).expect("a chunk size above zero");
    assert_eq!(records.len(), 5);
    for record in &records {
        assert_eq!(record.matches.len(), 5);
    }
}

#[test]
fn indexer_steps_chunk_by_chunk() {
    let store = five();
    let mut indexer = BatchIndexer::new(1, 2).expect("a chunk size above zero");
    assert_eq!(indexer.next_place(), 0);
    let first = indexer.next_chunk(&store).expect("entries left");
    assert_eq!(first.len(), 2);
    assert_eq!(indexer.next_place(), 2);
    let second = indexer.next_chunk(&store).expect("entries left");
    assert_eq!(second.len(), 2);
    assert_eq!(indexer.next_place(), 4);
    let third = indexer.next_chunk(&store).expect("entries left");
    assert_eq!(third.len(), 1);
    assert_eq!(third[0].record_id, "e");
    assert_eq!(indexer.next_place(), 5);
    assert!(indexer.next_chunk(&store).is_none());
    assert_eq!(indexer.next_place(), 5);
    assert!(indexer.next_chunk(&store).is_none());
}

#[test]
fn index_chunk_covers_the_entries_of_the_chunk() {
    let store = five();
    let records = index_chunk(&store, 1, 3, 1);
    let ids: Vec<&str> = records.iter().map(|r| r.record_id.as_str()).collect();
    assert_eq!(ids, vec!["b", "c", "d"]);
    let records = index_chunk(&store, 4, 3, 1);
    assert_eq!(records.len(), 1);
    assert_eq!(records[0].record_id, "e");
    assert!(index_chunk(&store, 5, 3, 1).is_empty());
    assert!(index_chunk(&store, 9, 3, 1).is_empty());
    assert!(index_chunk(&store, 2, 0, 1).is_empty());
    assert_eq!(index_chunk(&store, 3, usize::MAX, 1).len(), 2);
}

#[test]
fn batch_over_a_larger_store_in_small_chunks() {
    let mut entries = Vec::new();
    for i in 0..120usize {
        let mut text = String::new();
        for bit in 0..12 {
            text.push(if (i >> (bit % 7)) & 1 == 1 { '1' } else { '0' });
        }
        entries.push((i.to_string(), text));
    }
    let store = FingerprintStore::from_entries(&entries).expect("distinct identifiers");
    let records = index_all_pictures(&store, 5, 7).expect("a chunk size above zero");
    assert_eq!(records.len(), 120);
    for (i, record) in records.iter().enumerate() {
        assert_eq!(record.record_id, i.to_string());
        assert_eq!(record.matches.len(), 5);
        assert_eq!(record.matches[0].score, 12);
        for pair in record.matches.windows(2) {
            assert!(pair[0].score >= pair[1].score);
        }
    }
}

#[test]
fn index_line_joins_identifier_and_matches() {
    assert_eq!(index_line("17", "[]"), "17 - []\n");
    assert_eq!(
        index_line("a b", r#"[{"record_id":"a b","score":4}]"#),
        "a b - [{\"record_id\":\"a b\",\"score\":4}]\n"
    );
    assert_eq!(index_line("", ""), " - \n");
}
