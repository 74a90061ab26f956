use rig_wasm::config::VectorStoreConfig;
use rig_wasm::cosine::{cosine_similarity, Score};
use rig_wasm::store::{IndexError, SearchResult, WasmVectorStore};

fn value(s: &Score) -> f64 {
    s.dot as f64 / (s.norms as f64).sqrt()
}

fn ids(r: &[SearchResult]) -> Vec<&str> {
    r.iter().map(|x| x.id.as_str()).collect()
}

fn three_axes() -> WasmVectorStore<&'static str> {
    let mut store = WasmVectorStore::new();
    store.add("a", vec![1, 0, 0], "first").unwrap();
    store.add("b", vec![0, 1, 0], "second").unwrap();
    store.add("c", vec![0, 0, 1], "third").unwrap();
    store
}

#[test]
fn test_add_and_get() {
    let mut store = WasmVectorStore::new();
    let vector: Vec<i8> = vec![1, 2, 3];
    store.add("test", vector.clone(), String::from("test metadata")).unwrap();
    let (v, m) = store.get("test").unwrap();
    assert_eq!(v, &vector);
    assert_eq!(m, "test metadata");
    assert!(store.get("missing").is_none());
}

#[test]
fn test_search() {
    let mut store = WasmVectorStore::new();
    store.add("1", vec![1, 0, 0], ()).unwrap();
    store.add("2", vec![0, 1, 0], ()).unwrap();
    store.add("3", vec![0, 0, 1], ()).unwrap();
    let results = store.search(&vec![1, 1, 0], 2).unwrap();
    assert_eq!(results.len(), 2);
    assert_eq!(results[0].id, "1");
    assert_eq!(results[1].id, "2");
}

#[test]
fn search_ranks_axes_with_id_tie_break() {
    let store = three_axes();
    let r = store.search(&vec![1, 1, 0], 2).unwrap();
    assert_eq!(ids(&r), vec!["a", "b"]);
    assert_eq!(r[0].score, Score { dot: 1, norms: 2 });
    assert_eq!(r[1].score, Score { dot: 1, norms: 2 });
    assert!((value(&r[0].score) - 0.7071).abs() < 1e-4);
    assert!((value(&r[1].score) - 0.7071).abs() < 1e-4);
}

#[test]
fn tie_break_does_not_follow_insertion_order() {
    let mut store = WasmVectorStore::new();
    store.add("zeta", vec![2, 0], 0u8).unwrap();
    store.add("alpha", vec![3, 0], 1u8).unwrap();
    store.add("mid", vec![0, 5], 2u8).unwrap();
    let r = store.search(&vec![1, 0], 3).unwrap();
    assert_eq!(ids(&r), vec!["alpha", "zeta", "mid"]);
    assert_eq!(value(&r[0].score), 1.0);
    assert_eq!(value(&r[2].score), 0.0);
}

#[test]
fn search_orders_negative_scores_last() {
    let mut store = WasmVectorStore::new();
    store.add("opposite", vec![-1, 0], ()).unwrap();
    store.add("same", vec![4, 0], ()).unwrap();
    store.add("diagonal", vec![1, 1], ()).unwrap();
    store.add("back_diagonal", vec![-1, 1], ()).unwrap();
    let r = store.search(&vec![1, 0], 4).unwrap();
    assert_eq!(ids(&r), vec!["same", "diagonal", "back_diagonal", "opposite"]);
    assert_eq!(value(&r[3].score), -1.0);
}

#[test]
fn empty_index_search_is_empty() {
    let store: WasmVectorStore<()> = WasmVectorStore::new();
    assert_eq!(store.search(&vec![1, 2, 3], 0).unwrap().len(), 0);
    assert_eq!(store.search(&vec![1, 2, 3], 5).unwrap().len(), 0);
    assert_eq!(store.search(&vec![], 5).unwrap().len(), 0);
}

#[test]
fn k_larger_than_entries_returns_all() {
    let store = three_axes();
    let r = store.search(&vec![0, 0, 1], 10).unwrap();
    assert_eq!(r.len(), 3);
    assert_eq!(r[0].id, "c");
}

#[test]
fn k_zero_returns_nothing() {
    let store = three_axes();
    assert_eq!(store.search(&vec![0, 0, 1], 0).unwrap().len(), 0);
}

#[test]
fn zero_query_scores_zero() {
    let store = three_axes();
    let r = store.search(&vec![0, 0, 0], 3).unwrap();
    assert_eq!(r.len(), 3);
    for x in &r {
        assert_eq!(x.score, Score { dot: 0, norms: 1 });
        assert_eq!(value(&x.score), 0.0);
        assert!(!value(&x.score).is_nan());
    }
    assert_eq!(ids(&r), vec!["a", "b", "c"]);
}

#[test]
fn zero_stored_vector_scores_zero() {
    let s = cosine_similarity(&vec![0, 0], &vec![3, 4]);
    assert_eq!(s, Score { dot: 0, norms: 1 });
}

#[test]
fn cosine_exact_values() {
    assert_eq!(cosine_similarity(&vec![3, 4], &vec![3, 4]), Score { dot: 25, norms: 625 });
    assert_eq!(cosine_similarity(&vec![1, 2, 3], &vec![-1, 0, 2]), Score { dot: 5, norms: 70 });
    let s = cosine_similarity(&vec![-128, 127], &vec![-128, -128]);
    assert_eq!(s.dot, 16384 - 16256);
    assert_eq!(s.norms, (16384 + 16129) * (16384 + 16384));
}

#[test]
fn dimension_lock_refuses_insert_and_query() {
    let mut store = WasmVectorStore::new();
    assert_eq!(store.dimension(), None);
    store.add("a", vec![1, 2, 3], 1).unwrap();
    assert_eq!(store.dimension(), Some(3));
    assert_eq!(
        store.add("b", vec![1, 2], 2),
        Err(IndexError::DimensionMismatch { expected: 3, found: 2 })
    );
    assert_eq!(store.len(), 1);
    assert!(store.get("b").is_none());
    assert_eq!(
        store.add("a", vec![9, 9, 9, 9], 3),
        Err(IndexError::DimensionMismatch { expected: 3, found: 4 })
    );
    assert_eq!(store.get("a").unwrap(), (&vec![1, 2, 3], &1));
    assert_eq!(
        store.search(&vec![1, 0, 0, 0], 1).err(),
        Some(IndexError::DimensionMismatch { expected: 3, found: 4 })
    );
}

#[test]
fn dimension_stays_after_deleting_everything() {
    let mut store = WasmVectorStore::new();
    store.add("a", vec![1, 2], ()).unwrap();
    assert!(store.delete("a"));
    assert_eq!(store.len(), 0);
    assert_eq!(store.dimension(), Some(2));
    assert!(store.add("b", vec![1, 2, 3], ()).is_err());
    assert_eq!(store.search(&vec![1, 1], 3).unwrap().len(), 0);
}

#[test]
fn delete_is_idempotent() {
    let mut store = three_axes();
    assert!(!store.delete("missing"));
    assert_eq!(store.len(), 3);
    assert!(store.delete("b"));
    assert!(!store.delete("b"));
    assert_eq!(store.len(), 2);
    assert!(store.get("b").is_none());
    assert_eq!(ids(&store.search(&vec![1, 1, 1], 5).unwrap()), vec!["a", "c"]);
}

#[test]
fn replace_keeps_second_value() {
    let mut store = WasmVectorStore::new();
    store.add("x", vec![1, 0], "old").unwrap();
    store.add("x", vec![0, 1], "new").unwrap();
    assert_eq!(store.len(), 1);
    assert_eq!(store.get("x").unwrap(), (&vec![0, 1], &"new"));
    let r = store.search(&vec![0, 1], 5).unwrap();
    assert_eq!(r.len(), 1);
    assert_eq!(r[0].score, Score { dot: 1, norms: 1 });
}

#[test]
fn ids_and_metadata_stay_paired() {
    let mut store = WasmVectorStore::new();
    for (i, id) in ["p", "q", "r", "s"].iter().enumerate() {
        store.add(id, vec![i as i8, 1], i).unwrap();
    }
    store.delete("q");
    store.add("p", vec![5, 5], 50).unwrap();
    for id in ["p", "r", "s"] {
        assert!(store.get(id).is_some());
    }
    assert!(store.get("q").is_none());
    assert_eq!(store.get("p").unwrap().1, &50);
    assert_eq!(store.len(), 3);
}

#[test]
fn configured_dimension_is_locked_up_front() {
    let config = VectorStoreConfig {
        store_type: String::from("memory"),
        store_name: String::from("docs"),
        dimension: 4,
        max_elements: None,
    };
    let mut store: WasmVectorStore<()> = WasmVectorStore::from_config(&config);
    assert_eq!(store.dimension(), Some(4));
    assert!(store.add("a", vec![1, 2, 3], ()).is_err());
    assert!(store.add("a", vec![1, 2, 3, 4], ()).is_ok());
    let fixed: WasmVectorStore<()> = WasmVectorStore::with_dimension(2);
    assert_eq!(fixed.search(&vec![1], 1).err(), Some(IndexError::DimensionMismatch { expected: 2, found: 1 }));
}
