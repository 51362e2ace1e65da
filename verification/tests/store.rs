use vector_store::Collection;
use vector_store::Score;
use vector_store::cosine_similarity;
use vector_store::EMBEDDING_SIZE;
use vector_store::TOP_N_RESULTS;

/// An embedding of full length whose first components are `head` and
/// whose remaining components are zero.
fn embedding_with_head(head: &[u8]) -> Vec<u8> {
    let mut v = vec![0u8; EMBEDDING_SIZE];
    v[..head.len()].copy_from_slice(head);
    v
}

/// The floating-point similarity a score stands for: dot product over
/// the product of the norms, zero when either norm is zero.
fn similarity_f32(s: &Score) -> f32 {
    if s.query_norm_sq == 0 || s.doc_norm_sq == 0 {
        0.0
    } else {
        s.dot as f32 / ((s.query_norm_sq as f32).sqrt() * (s.doc_norm_sq as f32).sqrt())
    }
}

/// Exact descending comparison of two scores, mirrored from the
/// library's cross-multiplied ordering.
fn score_at_least(a: &Score, b: &Score) -> bool {
    let zero = |s: &Score| s.dot == 0 || s.query_norm_sq == 0 || s.doc_norm_sq == 0;
    if zero(b) {
        true
    } else if zero(a) {
        false
    } else {
        (a.dot as u128) * (a.dot as u128) * (b.query_norm_sq as u128) * (b.doc_norm_sq as u128)
            >= (b.dot as u128) * (b.dot as u128) * (a.query_norm_sq as u128)
                * (a.doc_norm_sq as u128)
    }
}

#[test]
fn size_counts_inserted_documents() {
    let mut c = Collection::new();
    assert_eq!(c.get_length(), 0);
    for id in 0..5u128 {
        c.insert_embedding(id, embedding_with_head(&[1, 2, 3]));
    }
    assert_eq!(c.get_length(), 5);
    for id in 100..107u128 {
        c.add_embedding(id);
    }
    assert_eq!(c.get_length(), 12);
}

#[test]
fn duplicate_insert_overwrites() {
    let mut c = Collection::new();
    c.insert_embedding(7, embedding_with_head(&[9]));
    c.insert_embedding(7, embedding_with_head(&[0, 9]));
    assert_eq!(c.get_length(), 1);
    let query = embedding_with_head(&[1]);
    let r = c.search_with_embedding(&query);
    assert_eq!(r.results.len(), 1);
    assert_eq!(r.results[0].0, 7);
    // the overwritten embedding is orthogonal to the query
    assert_eq!(r.results[0].1.dot, 0);
    assert_eq!(similarity_f32(&r.results[0].1), 0.0);
}

#[test]
fn search_empty_store_returns_empty() {
    let c = Collection::new();
    let query = embedding_with_head(&[1, 2, 3]);
    assert!(c.search_with_embedding(&query).results.is_empty());
    assert!(c.search("anything").results.is_empty());
}

#[test]
fn search_result_len_is_min_of_size_and_top_n() {
    let mut c = Collection::new();
    for id in 0..3u128 {
        c.add_embedding(id);
    }
    assert_eq!(c.search("q").results.len(), 3);
    for id in 3..15u128 {
        c.add_embedding(id);
    }
    assert_eq!(c.get_length(), 15);
    assert_eq!(c.search("q").results.len(), TOP_N_RESULTS);
}

#[test]
fn scores_non_increasing() {
    let mut c = Collection::new();
    for id in 0..15u128 {
        c.add_embedding(id);
    }
    let query = embedding_with_head(&[3, 1, 4, 1, 5, 9, 2, 6]);
    let r = c.search_with_embedding(&query);
    assert_eq!(r.results.len(), TOP_N_RESULTS);
    for w in r.results.windows(2) {
        assert!(score_at_least(&w[0].1, &w[1].1));
        assert!(similarity_f32(&w[0].1) >= similarity_f32(&w[1].1));
    }
}

#[test]
fn result_ids_come_from_store() {
    let mut c = Collection::new();
    let ids: Vec<u128> = (40..60u128).collect();
    for &id in &ids {
        c.add_embedding(id);
    }
    let r = c.search("some query");
    assert_eq!(r.results.len(), TOP_N_RESULTS);
    for (id, _) in &r.results {
        assert!(ids.contains(id));
    }
}

#[test]
fn self_similarity_is_one() {
    let mut v = vec![0u8; EMBEDDING_SIZE];
    for (i, x) in v.iter_mut().enumerate() {
        *x = (i % 9) as u8;
    }
    let s = cosine_similarity(&v, &v);
    assert_eq!(s.dot, s.query_norm_sq);
    assert_eq!(s.dot, s.doc_norm_sq);
    assert!((similarity_f32(&s) - 1.0).abs() < 1e-5);
}

#[test]
fn zero_vector_similarity_is_exactly_zero() {
    let q = embedding_with_head(&[5, 3, 1]);
    let z = vec![0u8; EMBEDDING_SIZE];
    assert_eq!(similarity_f32(&cosine_similarity(&q, &z)), 0.0);
    assert_eq!(similarity_f32(&cosine_similarity(&z, &q)), 0.0);
    assert_eq!(similarity_f32(&cosine_similarity(&z, &z)), 0.0);
}

#[test]
fn ranking_scenario_three_documents() {
    let mut c = Collection::new();
    let first_axis = 11u128;
    let second_axis = 22u128;
    let diagonal = 33u128;
    c.insert_embedding(first_axis, embedding_with_head(&[9]));
    c.insert_embedding(second_axis, embedding_with_head(&[0, 9]));
    c.insert_embedding(diagonal, embedding_with_head(&[9, 9]));
    let query = embedding_with_head(&[1]);
    let r = c.search_with_embedding(&query);
    assert_eq!(r.results.len(), 3);
    // expected order: [9,0,..] (1.0), [9,9,..] (~0.707), [0,9,..] (0.0)
    assert_eq!(r.results[0].0, first_axis);
    assert_eq!(r.results[1].0, diagonal);
    assert_eq!(r.results[2].0, second_axis);
    assert_eq!(
        r.results[0].1,
        Score { dot: 9, query_norm_sq: 1, doc_norm_sq: 81 },
    );
    assert_eq!(
        r.results[1].1,
        Score { dot: 9, query_norm_sq: 1, doc_norm_sq: 162 },
    );
    assert_eq!(
        r.results[2].1,
        Score { dot: 0, query_norm_sq: 1, doc_norm_sq: 81 },
    );
    assert!((similarity_f32(&r.results[0].1) - 1.0).abs() < 1e-5);
    assert!((similarity_f32(&r.results[1].1) - 0.70710678).abs() < 1e-5);
    assert_eq!(similarity_f32(&r.results[2].1), 0.0);
}

#[test]
fn search_twice_returns_identical_results() {
    let mut c = Collection::new();
    c.insert_embedding(1, embedding_with_head(&[1, 2, 3]));
    c.insert_embedding(2, embedding_with_head(&[3, 2, 1]));
    c.insert_embedding(3, embedding_with_head(&[2, 2, 2]));
    c.insert_embedding(4, embedding_with_head(&[0, 0, 7]));
    c.insert_embedding(5, embedding_with_head(&[7]));
    let query = embedding_with_head(&[1, 1, 0, 4]);
    let r1 = c.search_with_embedding(&query);
    let r2 = c.search_with_embedding(&query);
    assert_eq!(r1.results, r2.results);
}

#[test]
fn generated_embeddings_stay_in_range() {
    let mut c = Collection::new();
    c.add_embedding(99);
    // an all-ones query reads the generated components through the scores
    let query = vec![1u8; EMBEDDING_SIZE];
    let r = c.search_with_embedding(&query);
    assert_eq!(r.results.len(), 1);
    let s = &r.results[0].1;
    assert_eq!(s.query_norm_sq as usize, EMBEDDING_SIZE);
    // components are at most 8
    assert!(s.dot as usize <= EMBEDDING_SIZE * 8);
    assert!(s.doc_norm_sq as usize <= EMBEDDING_SIZE * 64);
}

#[test]
fn tie_breaking_is_stable_by_insertion_order() {
    let mut c = Collection::new();
    // two documents with exactly equal scores against the query
    c.insert_embedding(8, embedding_with_head(&[2]));
    c.insert_embedding(4, embedding_with_head(&[4]));
    let query = embedding_with_head(&[1]);
    let r = c.search_with_embedding(&query);
    assert_eq!(r.results.len(), 2);
    // both collinear with the query: equal similarity, storage order kept
    assert_eq!(r.results[0].0, 8);
    assert_eq!(r.results[1].0, 4);
}
