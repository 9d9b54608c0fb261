use knowledge_search::ranking::{cosine_or_zero, top_k, total_order_key};
use knowledge_search::{SearchResult, VectorStore, VectorStoreError};

fn bits_of(v: &[f32]) -> Vec<u32> {
    v.iter().map(|x| x.to_bits()).collect()
}

fn norm_of(v: &[f32]) -> f32 {
    v.iter().map(|x| x * x).sum::<f32>().sqrt()
}

fn dot_of(a: &[f32], b: &[f32]) -> f32 {
    a.iter().zip(b.iter()).map(|(x, y)| x * y).sum()
}

fn put(store: &mut VectorStore, v: &[f32]) -> Result<usize, VectorStoreError> {
    store.add(&bits_of(v), norm_of(v).to_bits())
}

fn find(store: &VectorStore, query: &[f32], k: usize) -> Result<Vec<SearchResult>, VectorStoreError> {
    let query_norm = norm_of(query);
    let quotients: Vec<u32> = (0..store.len())
        .map(|i| {
            let stored: Vec<f32> = store.vector(i).iter().map(|b| f32::from_bits(*b)).collect();
            let norm = f32::from_bits(store.norm(i));
            if stored.len() == query.len() {
                (dot_of(query, &stored) / (query_norm * norm)).to_bits()
            } else {
                0
            }
        })
        .collect();
    store.search(&bits_of(query), k, query_norm.to_bits(), &quotients)
}

fn indices(r: &[SearchResult]) -> Vec<usize> {
    r.iter().map(|x| x.index).collect()
}

fn five_vector_store() -> VectorStore {
    let mut store = VectorStore::new(3);
    put(&mut store, &[3.5, 4.7, 6.8]).unwrap();
    put(&mut store, &[4.5, 4.1, 1.8]).unwrap();
    put(&mut store, &[1.5, 2.7, 1.7]).unwrap();
    put(&mut store, &[3.7, 9.7, 12.7]).unwrap();
    put(&mut store, &[8.5, 4.9, 4.0]).unwrap();
    store
}

#[test]
fn fresh_store_is_empty_for_every_k() {
    for d in [1usize, 3, 384] {
        let store = VectorStore::new(d);
        assert_eq!(store.len(), 0);
        assert!(store.is_empty());
        let query = vec![1.0f32; d];
        for k in [0usize, 1, 5, 1000] {
            assert!(find(&store, &query, k).unwrap().is_empty());
        }
    }
}

#[test]
fn indices_follow_successful_adds() {
    let mut store = VectorStore::new(2);
    assert_eq!(put(&mut store, &[1.0, 2.0]), Ok(0));
    assert_eq!(put(&mut store, &[3.0, 4.0]), Ok(1));
    assert_eq!(
        put(&mut store, &[5.0]),
        Err(VectorStoreError::DimensionMismatch { expected: 2, actual: 1 })
    );
    assert_eq!(put(&mut store, &[5.0, 6.0]), Ok(2));
    assert_eq!(store.len(), 3);
    assert_eq!(store.vector(0), bits_of(&[1.0, 2.0]).as_slice());
    assert_eq!(store.vector(1), bits_of(&[3.0, 4.0]).as_slice());
    assert_eq!(store.vector(2), bits_of(&[5.0, 6.0]).as_slice());
    assert_eq!(store.norm(1), 5.0f32.to_bits());
    let res = find(&store, &[3.0, 4.0], 1).unwrap();
    assert_eq!(indices(&res), vec![1]);
    assert_eq!(find(&store, &[3.0, 4.0], 1).unwrap(), res);
}

#[test]
fn wrong_length_is_refused_without_change() {
    let mut store = VectorStore::new(3);
    put(&mut store, &[1.0, 0.0, 0.0]).unwrap();
    assert_eq!(
        put(&mut store, &[1.0, 0.0, 0.0, 0.0]),
        Err(VectorStoreError::DimensionMismatch { expected: 3, actual: 4 })
    );
    assert_eq!(store.len(), 1);
    assert_eq!(
        find(&store, &[1.0, 0.0], 1),
        Err(VectorStoreError::DimensionMismatch { expected: 3, actual: 2 })
    );
    assert_eq!(store.len(), 1);
}

#[test]
fn self_similarity_is_one() {
    let store = five_vector_store();
    let vectors: [[f32; 3]; 5] = [
        [3.5, 4.7, 6.8],
        [4.5, 4.1, 1.8],
        [1.5, 2.7, 1.7],
        [3.7, 9.7, 12.7],
        [8.5, 4.9, 4.0],
    ];
    for (i, v) in vectors.iter().enumerate() {
        let res = find(&store, v, 1).unwrap();
        assert_eq!(res.len(), 1);
        assert_eq!(res[0].index, i);
        assert!((f32::from_bits(res[0].similarity) - 1.0).abs() <= 1e-5);
    }
}

#[test]
fn three_vectors_ranked_by_similarity() {
    let mut store = VectorStore::new(3);
    put(&mut store, &[3.5, 4.7, 6.8]).unwrap();
    put(&mut store, &[4.5, 4.1, 1.8]).unwrap();
    put(&mut store, &[1.5, 2.7, 1.7]).unwrap();
    let res = find(&store, &[4.2, 3.5, 1.0], 3).unwrap();
    assert_eq!(indices(&res), vec![1, 2, 0]);
    let sims: Vec<f32> = res.iter().map(|r| f32::from_bits(r.similarity)).collect();
    assert!(sims[0] >= sims[1] && sims[1] >= sims[2]);
}

#[test]
fn result_size_is_bounded_by_k_and_count() {
    let store = five_vector_store();
    let query = [4.2, 3.5, 1.0];
    assert_eq!(find(&store, &query, 2).unwrap().len(), 2);
    assert_eq!(find(&store, &query, 5).unwrap().len(), 5);
    assert_eq!(find(&store, &query, 12).unwrap().len(), 5);
    assert!(find(&store, &query, 0).unwrap().is_empty());
}

#[test]
fn repeated_search_is_identical() {
    let store = five_vector_store();
    let query = [4.2, 3.5, 1.0];
    let first = find(&store, &query, 3).unwrap();
    let second = find(&store, &query, 3).unwrap();
    assert_eq!(first, second);
}

#[test]
fn zero_vectors_score_zero() {
    let mut store = VectorStore::new(2);
    put(&mut store, &[0.0, 0.0]).unwrap();
    put(&mut store, &[1.0, 1.0]).unwrap();
    put(&mut store, &[-1.0, -1.0]).unwrap();
    let res = find(&store, &[1.0, 1.0], 3).unwrap();
    assert_eq!(indices(&res), vec![1, 0, 2]);
    assert_eq!(res[1].similarity, 0);
    let res = find(&store, &[0.0, 0.0], 3).unwrap();
    assert_eq!(indices(&res), vec![0, 1, 2]);
    assert!(res.iter().all(|r| r.similarity == 0));
}

#[test]
fn order_key_follows_total_order() {
    assert_eq!(total_order_key(0.0f32.to_bits()), 0x8000_0000);
    assert_eq!(total_order_key((-0.0f32).to_bits()), 0x7FFF_FFFF);
    assert_eq!(total_order_key(1.0f32.to_bits()), 0xBF80_0000);
    assert_eq!(total_order_key((-1.0f32).to_bits()), 0x407F_FFFF);
    let values = [-3.5f32, -1.0, -0.0, 0.0, 0.25, 1.0, 7.5];
    for w in values.windows(2) {
        assert!(total_order_key(w[0].to_bits()) < total_order_key(w[1].to_bits()));
    }
}

#[test]
fn top_k_orders_ties_by_index() {
    let sims = bits_of(&[0.5, 0.9, 0.5, -0.2, 0.9]);
    let res = top_k(&sims, 4);
    assert_eq!(indices(&res), vec![1, 4, 0, 2]);
    assert_eq!(res[0].similarity, 0.9f32.to_bits());
    assert_eq!(indices(&top_k(&sims, 1)), vec![1]);
    assert_eq!(indices(&top_k(&sims, 9)), vec![1, 4, 0, 2, 3]);
    assert!(top_k(&sims, 0).is_empty());
    assert!(top_k(&[], 3).is_empty());
}

#[test]
fn top_k_ranks_negative_similarities() {
    let sims = bits_of(&[-0.7, -0.1, -0.9, 0.0]);
    assert_eq!(indices(&top_k(&sims, 4)), vec![3, 1, 0, 2]);
}

#[test]
fn cosine_or_zero_applies_zero_rule() {
    let q = 0.75f32.to_bits();
    assert_eq!(cosine_or_zero(2.0f32.to_bits(), 3.0f32.to_bits(), q), q);
    assert_eq!(cosine_or_zero(0.0f32.to_bits(), 3.0f32.to_bits(), f32::NAN.to_bits()), 0);
    assert_eq!(cosine_or_zero(2.0f32.to_bits(), (-0.0f32).to_bits(), q), 0);
}
