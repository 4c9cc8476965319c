use face_catalog::comparator::EmbeddingComparator;
use face_catalog::layout::channel_major;
use face_catalog::score::{float_ge, order_key, unit_interval};

fn key(x: f32) -> u32 {
    order_key(x.to_bits())
}

fn ids(names: &[&str]) -> Vec<String> {
    names.iter().map(|s| s.to_string()).collect()
}

#[test]
fn order_key_follows_float_order() {
    let values = [-3.5f32, -1.0, -0.25, 0.0, 0.1, 0.5, 0.9, 1.0, 7.0];
    for w in values.windows(2) {
        assert!(key(w[0]) < key(w[1]));
    }
    assert_eq!(key(1.0), 0x3F80_0000 | 0x8000_0000);
    assert_eq!(key(-1.0), !0xBF80_0000u32);
}

#[test]
fn find_matches_scenario() {
    let corpus = ids(&["B", "C"]);
    let scores = vec![key(0.9), key(0.3)];
    let r = EmbeddingComparator::find_matches(&corpus, &scores, key(0.5));
    assert_eq!(r, vec![("B".to_string(), key(0.9))]);
}

#[test]
fn cluster_scenario() {
    let corpus = ids(&["A", "B", "C"]);
    let sims = vec![
        vec![key(1.0), key(0.9), key(0.3)],
        vec![key(0.9), key(1.0), key(0.2)],
        vec![key(0.3), key(0.2), key(1.0)],
    ];
    let r = EmbeddingComparator::cluster_embeddings(&corpus, &sims, key(0.5));
    assert_eq!(r, vec![ids(&["A", "B"]), ids(&["C"])]);
}

#[test]
fn find_matches_sorts_descending_and_keeps_ties_in_order() {
    let corpus = ids(&["p", "q", "r", "s", "t"]);
    let scores = vec![key(0.6), key(0.95), key(0.6), key(0.1), key(0.8)];
    let r = EmbeddingComparator::find_matches(&corpus, &scores, key(0.5));
    let names: Vec<&str> = r.iter().map(|m| m.0.as_str()).collect();
    assert_eq!(names, vec!["q", "t", "p", "r"]);
}

#[test]
fn find_matches_threshold_is_strict() {
    let corpus = ids(&["x"]);
    let scores = vec![key(0.5)];
    assert!(EmbeddingComparator::find_matches(&corpus, &scores, key(0.5)).is_empty());
}

#[test]
fn find_matches_monotonic_in_threshold() {
    let corpus = ids(&["a", "b", "c", "d"]);
    let scores = vec![key(0.2), key(0.7), key(0.55), key(0.9)];
    let mut last = usize::MAX;
    for t in [-1.0f32, 0.0, 0.3, 0.6, 0.8, 0.95] {
        let n = EmbeddingComparator::find_matches(&corpus, &scores, key(t)).len();
        assert!(n <= last);
        last = n;
    }
    assert_eq!(EmbeddingComparator::find_matches(&corpus, &scores, key(0.6)).len(), 2);
}

#[test]
fn empty_corpus_gives_empty_results() {
    let none: Vec<String> = Vec::new();
    assert!(EmbeddingComparator::find_matches(&none, &Vec::new(), key(0.0)).is_empty());
    assert!(EmbeddingComparator::cluster_embeddings(&none, &Vec::new(), key(0.0)).is_empty());
}

#[test]
fn single_item_is_one_cluster() {
    let corpus = ids(&["solo"]);
    let r = EmbeddingComparator::cluster_embeddings(&corpus, &vec![vec![key(1.0)]], key(0.5));
    assert_eq!(r, vec![ids(&["solo"])]);
}

#[test]
fn cluster_compares_with_seed_only() {
    // b is close to a, c is close to b but not to a: c opens its own cluster.
    let corpus = ids(&["a", "b", "c"]);
    let sims = vec![
        vec![key(1.0), key(0.8), key(0.1)],
        vec![key(0.8), key(1.0), key(0.9)],
        vec![key(0.1), key(0.9), key(1.0)],
    ];
    let r = EmbeddingComparator::cluster_embeddings(&corpus, &sims, key(0.5));
    assert_eq!(r, vec![ids(&["a", "b"]), ids(&["c"])]);
}

#[test]
fn cluster_is_a_partition() {
    let corpus = ids(&["0", "1", "2", "3", "4", "5"]);
    let s = [0.1f32, 0.7, 0.2, 0.9, 0.4, 0.6];
    let sims: Vec<Vec<u32>> = (0..6)
        .map(|i| (0..6).map(|j| key(if i == j { 1.0 } else { s[(i * 7 + j * 3) % 6] })).collect())
        .collect();
    let r = EmbeddingComparator::cluster_embeddings(&corpus, &sims, key(0.5));
    let mut seen: Vec<String> = r.iter().flatten().cloned().collect();
    assert!(r.iter().all(|c| !c.is_empty()));
    seen.sort();
    assert_eq!(seen, corpus);
}

#[test]
fn float_ge_matches_ieee() {
    let vals = [f32::NAN, -2.0, -0.0, 0.0, 0.5, 1.0, f32::INFINITY, f32::NEG_INFINITY];
    for a in vals {
        for b in vals {
            assert_eq!(float_ge(a.to_bits(), b.to_bits()), a >= b, "{} >= {}", a, b);
        }
    }
    assert!(unit_interval(0.0f32.to_bits()) && unit_interval((-0.0f32).to_bits()) && unit_interval(1.0f32.to_bits()));
    assert!(!unit_interval(1.0000001f32.to_bits()) && !unit_interval((-0.1f32).to_bits()) && !unit_interval(f32::NAN.to_bits()));
}

#[test]
fn channel_major_splits_planes() {
    let hwc = vec![1u8, 2, 3, 4, 5, 6];
    assert_eq!(channel_major(&hwc, 2), vec![1u8, 4, 2, 5, 3, 6]);
    assert!(channel_major(&Vec::new(), 0).is_empty());
}
