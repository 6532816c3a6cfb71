use rand::rngs::StdRng;
use rand::{Rng, SeedableRng};
use shard_rerank::{
    accept_rerank, check_fetched, create_flat_index_options, create_index_options,
    distance_order_key, evaluate_query, fan_out, mean_recall, per_shard_sample, shard_keys,
    shard_seed, IndexConfig, Match, Recall,
};
use usearch::{new_index, Index, IndexOptions, MetricKind, ScalarKind};

const DIMS: usize = 8;

fn options(c: &IndexConfig) -> IndexOptions {
    IndexOptions {
        dimensions: c.dimensions,
        metric: MetricKind::IP,
        quantization: ScalarKind::F32,
        multi: c.multi,
        connectivity: c.connectivity,
        expansion_add: c.expansion_add,
        expansion_search: c.expansion_search,
    }
}

fn vectors(count: usize, seed: u64) -> Vec<Vec<f32>> {
    let mut rng = StdRng::seed_from_u64(seed);
    (0..count).map(|_| (0..DIMS).map(|_| rng.random::<f32>()).collect()).collect()
}

fn matches(keys: &[u64], distances: &[f32]) -> Vec<Match> {
    keys.iter()
        .zip(distances)
        .map(|(k, d)| Match { key: *k, distance: distance_order_key(d.to_bits()) })
        .collect()
}

fn build_shard(shard_id: usize, per_shard: usize) -> Index {
    let index = new_index(&options(&create_index_options(DIMS))).unwrap();
    index.reserve(per_shard).unwrap();
    let keys = shard_keys(shard_id, per_shard).unwrap();
    let vs = vectors(per_shard, shard_seed(shard_id).unwrap());
    for (key, v) in keys.iter().zip(&vs) {
        index.add(*key, v).unwrap();
    }
    index
}

#[test]
fn seeded_vector_source_is_reproducible() {
    let seed = shard_seed(2).unwrap();
    assert_eq!(vectors(50, seed), vectors(50, seed));
    assert_eq!(shard_keys(2, 50), shard_keys(2, 50));
}

#[test]
fn three_shards_rerank_matches_exact_ground_truth() {
    let per_shard = 1000;
    let shards: Vec<Index> = (0..3).map(|s| build_shard(s, per_shard)).collect();
    let queries = vectors(5, 99999);
    let k = 5;
    let mut recalls: Vec<Recall> = Vec::new();
    for query in &queries {
        let per_shard_keys: Vec<Vec<u64>> =
            shards.iter().map(|sh| sh.search(query, 10).unwrap().keys).collect();
        let candidates = fan_out(&per_shard_keys);
        assert!(candidates.len() <= 30);

        let rerank = new_index(&options(&create_flat_index_options(DIMS))).unwrap();
        rerank.reserve(candidates.len()).unwrap();
        for c in &candidates {
            let mut v = vec![0.0f32; DIMS];
            let found = shards[c.shard].get(c.key, &mut v).unwrap();
            check_fetched(c.key, c.shard, found).unwrap();
            rerank.add(c.key, &v).unwrap();
        }
        let found = rerank.exact_search(query, k).unwrap();
        let dists: Vec<u32> = found.distances.iter().map(|d| distance_order_key(d.to_bits())).collect();
        let reranked = accept_rerank(&candidates, &found.keys, &dists, k).unwrap();
        assert_eq!(reranked.len(), 5);

        let exact: Vec<Vec<Match>> = shards
            .iter()
            .map(|sh| {
                let n = per_shard_sample(per_shard, sh.size());
                let r = sh.exact_search(query, n).unwrap();
                matches(&r.keys, &r.distances)
            })
            .collect();
        let (truth, recall) = evaluate_query(&reranked, &exact, k);
        assert_eq!(truth.len(), 5);
        assert_eq!(recall, Recall { hits: 5, slots: 5 });
        recalls.push(recall);
    }
    assert_eq!(mean_recall(&recalls), Some(Recall { hits: 25, slots: 25 }));
}

fn reopened(path: &str, mapped: bool) -> Index {
    let index = new_index(&options(&create_index_options(DIMS))).unwrap();
    if mapped {
        index.view(path).unwrap();
    } else {
        index.load(path).unwrap();
    }
    index
}

#[test]
fn persisted_shard_round_trips_in_both_modes() {
    let per_shard = 200;
    let shard = build_shard(1, per_shard);
    let path = "/tmp/shard_rerank_round_trip_1.index";
    shard.save(path).unwrap();
    let keys = shard_keys(1, per_shard).unwrap();
    let inserted = vectors(per_shard, shard_seed(1).unwrap());
    for mapped in [false, true] {
        let view = reopened(path, mapped);
        assert_eq!(view.size(), per_shard);
        for (key, v) in keys.iter().zip(&inserted) {
            let mut out = vec![0.0f32; DIMS];
            let found = view.get(*key, &mut out).unwrap();
            assert_eq!(check_fetched(*key, 1, found), Ok(()));
            let bits: Vec<u32> = out.iter().map(|x| x.to_bits()).collect();
            let want: Vec<u32> = v.iter().map(|x| x.to_bits()).collect();
            assert_eq!(bits, want);
        }
        let mut out = vec![0.0f32; DIMS];
        let missing = view.get(5, &mut out).unwrap();
        assert!(check_fetched(5, 1, missing).is_err());
    }
}

#[test]
fn loaded_and_mapped_shards_answer_alike() {
    let per_shard = 300;
    let shard = build_shard(0, per_shard);
    let path = "/tmp/shard_rerank_modes_0.index";
    shard.save(path).unwrap();
    let loaded = reopened(path, false);
    let mapped = reopened(path, true);
    for query in &vectors(4, 4242) {
        let a = loaded.search(query, 10).unwrap();
        let b = mapped.search(query, 10).unwrap();
        assert_eq!(a.keys, b.keys);
        assert_eq!(matches(&a.keys, &a.distances), matches(&b.keys, &b.distances));
        let a = loaded.exact_search(query, 10).unwrap();
        let b = mapped.exact_search(query, 10).unwrap();
        assert_eq!(matches(&a.keys, &a.distances), matches(&b.keys, &b.distances));
    }
}
