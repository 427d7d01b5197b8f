use nucleus_rag::errors::{EmbedderError, StoreError};
use nucleus_rag::store::VectorStore;
use nucleus_rag::types::Document;
use nucleus_rag::vecmath::{cosine_similarity, Score};

fn score_value(s: &Score) -> f64 {
    if s.norm_a == 0 || s.norm_b == 0 {
        0.0
    } else {
        s.dot as f64 / ((s.norm_a as f64).sqrt() * (s.norm_b as f64).sqrt())
    }
}

#[test]
fn test_cosine_similarity() {
    let a = vec![1, 0, 0];
    let b = vec![1, 0, 0];
    assert_eq!(score_value(&cosine_similarity(&a, &b)), 1.0);

    let a = vec![1, 0];
    let b = vec![0, 1];
    assert_eq!(score_value(&cosine_similarity(&a, &b)), 0.0);
}

#[test]
fn test_vector_store() {
    let mut store = VectorStore::new(3);

    let doc = Document::new("1", "test", vec![1, 0, 0]);
    store.add(doc).unwrap();

    assert_eq!(store.count(), 1);

    let results = store.search(&vec![1, 0, 0], 5);
    assert_eq!(results.len(), 1);
    assert_eq!(score_value(&results[0].score), 1.0);
}

#[test]
fn cosine_similarity_degenerate_inputs_score_zero() {
    // mismatched lengths
    let s = cosine_similarity(&vec![1, 2], &vec![1, 2, 3]);
    assert_eq!(score_value(&s), 0.0);
    // zero magnitude on either side
    let s = cosine_similarity(&vec![0, 0], &vec![1, 1]);
    assert_eq!(score_value(&s), 0.0);
    let s = cosine_similarity(&vec![1, 1], &vec![0, 0]);
    assert_eq!(score_value(&s), 0.0);
}

#[test]
fn cosine_similarity_opposite_vectors_score_minus_one() {
    let s = cosine_similarity(&vec![3, 4], &vec![-3, -4]);
    assert_eq!(score_value(&s), -1.0);
}

#[test]
fn search_results_are_sorted_and_bounded() {
    let mut store = VectorStore::new(2);
    store.add(Document::new("a", "east", vec![10, 0])).unwrap();
    store.add(Document::new("b", "north", vec![0, 10])).unwrap();
    store.add(Document::new("c", "diagonal", vec![7, 7])).unwrap();
    store.add(Document::new("d", "west", vec![-10, 0])).unwrap();

    let results = store.search(&vec![1, 0], 3);
    assert_eq!(results.len(), 3);
    for w in results.windows(2) {
        assert!(score_value(&w[0].score) >= score_value(&w[1].score));
    }
    assert_eq!(results[0].document.id, "a");

    let all = store.search(&vec![1, 0], 10);
    assert_eq!(all.len(), 4);
    assert_eq!(all[3].document.id, "d");

    let none = store.search(&vec![1, 0], 0);
    assert_eq!(none.len(), 0);
}

#[test]
fn search_ties_keep_insertion_order() {
    let mut store = VectorStore::new(2);
    // Two documents pointing the same way: the earlier one wins the tie.
    store.add(Document::new("first", "x", vec![1, 0])).unwrap();
    store.add(Document::new("second", "x", vec![5, 0])).unwrap();
    let results = store.search(&vec![3, 0], 2);
    assert_eq!(results[0].document.id, "first");
    assert_eq!(results[1].document.id, "second");
}

#[test]
fn exact_match_ranks_first_with_score_one() {
    let mut store = VectorStore::new(3);
    store.add(Document::new("other", "far away", vec![9, 1, 0])).unwrap();
    store.add(Document::new("hit", "the match", vec![3, 4, 0])).unwrap();
    store.add(Document::new("noise", "noise", vec![0, 2, 5])).unwrap();

    let results = store.search(&vec![3, 4, 0], 3);
    assert_eq!(results[0].document.id, "hit");
    assert_eq!(score_value(&results[0].score), 1.0);
}

#[test]
fn add_refuses_dimension_mismatch() {
    let mut store = VectorStore::new(3);
    let r = store.add(Document::new("short", "s", vec![1, 2]));
    assert_eq!(r, Err(StoreError::DimensionMismatch));
    assert_eq!(store.count(), 0);
}

#[test]
fn count_add_and_clear() {
    let mut store = VectorStore::new(1);
    assert_eq!(store.count(), 0);
    store.add(Document::new("a", "a", vec![1])).unwrap();
    assert_eq!(store.count(), 1);
    store.add(Document::new("b", "b", vec![2])).unwrap();
    assert_eq!(store.count(), 2);
    store.clear();
    assert_eq!(store.count(), 0);
    store.clear();
    assert_eq!(store.count(), 0);
}

#[test]
fn remove_by_source_uses_path_prefix_semantics() {
    let mut store = VectorStore::new(1);
    let docs = [
        ("1", "dirA"),
        ("2", "dirA/file1.rs"),
        ("3", "dirA/sub/file2.rs"),
        ("4", "dirAx"),
        ("5", "other/file.rs"),
    ];
    for (id, source) in docs {
        let doc = Document::new(id, "text", vec![1]).with_metadata("source", source);
        store.add(doc).unwrap();
    }

    let removed = store.remove_by_source("dirA");
    assert_eq!(removed, 3);
    assert_eq!(store.count(), 2);

    let paths = store.get_indexed_paths();
    assert_eq!(paths, vec!["dirAx".to_string(), "other/file.rs".to_string()]);

    let removed = store.remove_by_source("nothing-here");
    assert_eq!(removed, 0);
    assert_eq!(store.count(), 2);
}

#[test]
fn get_indexed_paths_deduplicates_sources() {
    let mut store = VectorStore::new(1);
    for (id, source) in [("1", "a.rs"), ("2", "a.rs"), ("3", "b.rs")] {
        let doc = Document::new(id, "text", vec![1]).with_metadata("source", source);
        store.add(doc).unwrap();
    }
    let paths = store.get_indexed_paths();
    assert_eq!(paths, vec!["a.rs".to_string(), "b.rs".to_string()]);
}

#[test]
fn metadata_insert_replaces_and_get_finds() {
    let doc = Document::new("1", "text", vec![1])
        .with_metadata("source", "first")
        .with_metadata("kind", "note")
        .with_metadata("source", "second");
    assert_eq!(doc.metadata.get("source"), Some(&"second".to_string()));
    assert_eq!(doc.metadata.get("kind"), Some(&"note".to_string()));
    assert_eq!(doc.metadata.get("missing"), None);
}

#[test]
fn empty_query_scores_zero_and_keeps_insertion_order() {
    let mut store = VectorStore::new(2);
    store.add(Document::new("a", "one", vec![1, 2])).unwrap();
    store.add(Document::new("b", "two", vec![3, 4])).unwrap();
    store.add(Document::new("c", "three", vec![5, 6])).unwrap();

    let results = store.search(&Vec::new(), 3);
    let ids: Vec<&str> = results.iter().map(|r| r.document.id.as_str()).collect();
    assert_eq!(ids, vec!["a", "b", "c"]);
    for r in &results {
        assert_eq!(score_value(&r.score), 0.0);
    }
}

#[test]
fn metadata_entries_lists_every_binding_once() {
    let doc = Document::new("1", "text", vec![1])
        .with_metadata("source", "dir/file.rs")
        .with_metadata("chunk", "0");
    let mut entries = doc.metadata.entries();
    entries.sort();
    assert_eq!(
        entries,
        vec![
            ("chunk".to_string(), "0".to_string()),
            ("source".to_string(), "dir/file.rs".to_string()),
        ]
    );
}

#[test]
fn contains_id_finds_stored_identifiers() {
    let mut store = VectorStore::new(1);
    store.add(Document::new("a_0", "x", vec![1])).unwrap();
    assert!(store.contains_id("a_0"));
    assert!(!store.contains_id("a_1"));
    assert!(!store.contains_id(""));
}

#[test]
fn error_messages_name_the_failure() {
    assert_eq!(StoreError::DimensionMismatch.message(), "embedding dimensionality mismatch");
    assert_eq!(StoreError::BackendUnavailable.message(), "backend unavailable");
    assert_eq!(
        StoreError::UnsupportedOperation.message(),
        "operation not supported by this backend"
    );
    assert_eq!(EmbedderError::Unavailable.message(), "embedding service unavailable");
    assert_eq!(EmbedderError::EmptyResult.message(), "no embeddings returned");
}
