//! Threshold matching and seed-based clustering over similarity keys.
//!
//! Similarities are computed elsewhere and arrive as order keys (see
//! `score::order_key`): a larger key is a more similar pair.

use vstd::prelude::*;

verus! {

/// Entry `i` comes before entry `j` in a ranking: a higher score first,
/// the earlier entry first among equal scores.
pub open spec fn ranks_before(s: Seq<u32>, i: int, j: int) -> bool {
    s[i] > s[j] || (s[i] == s[j] && i < j)
}

/// The number of scores above the threshold.
pub open spec fn count_above(s: Seq<u32>, t: u32) -> nat
    decreases s.len(),
{
    if s.len() == 0 {
        0
    } else {
        count_above(s.drop_last(), t) + if s.last() > t {
            1nat
        } else {
            0nat
        }
    }
}

/// `r` lists the positions of the scores above `t`, each once, best first
/// and in corpus order among equal scores.
pub open spec fn is_ranking(s: Seq<u32>, t: u32, r: Seq<usize>) -> bool {
    &&& forall|k: int| 0 <= k < r.len() ==> r[k] < s.len() && s[r[k] as int] > t
    &&& forall|i: int|
        0 <= i < s.len() && s[i] > t ==> exists|k: int| 0 <= k < r.len() && r[k] == i
    &&& forall|a: int, b: int|
        0 <= a < b < r.len() ==> ranks_before(s, r[a] as int, r[b] as int)
    &&& r.len() == count_above(s, t)
}

/// Positions of the scores strictly above the threshold, sorted by
/// descending score; equal scores keep the corpus order.
pub fn rank_matches(scores: &Vec<u32>, threshold: u32) -> (r: Vec<usize>)
    ensures
        is_ranking(scores@, threshold, r@),
{
    let ghost s = scores@;
    let mut out: Vec<usize> = Vec::new();
    let n = scores.len();
    let mut i: usize = 0;
    while i < n
        invariant
            n == s.len(),
            s == scores@,
            0 <= i <= n,
            forall|k: int| 0 <= k < out.len() ==> out[k] < i && s[out[k] as int] > threshold,
            forall|m: int|
                0 <= m < i && s[m] > threshold ==> exists|k: int|
                    0 <= k < out.len() && out[k] == m,
            forall|a: int, b: int|
                0 <= a < b < out.len() ==> ranks_before(s, out[a] as int, out[b] as int),
            out.len() == count_above(s.take(i as int), threshold),
        decreases n - i,
    {
        assert(s.take(i + 1).drop_last() == s.take(i as int));
        if scores[i] > threshold {
            let si = scores[i];
            let mut p: usize = 0;
            while p < out.len() && scores[out[p]] >= si
                invariant
                    0 <= p <= out.len(),
                    i < n,
                    n == s.len(),
                    s == scores@,
                    si == s[i as int],
                    forall|k: int| 0 <= k < out.len() ==> out[k] < i,
                    forall|k: int| 0 <= k < p ==> s[out[k] as int] >= si,
                decreases out.len() - p,
            {
                p = p + 1;
            }
            let ghost before = out@;
            proof {
                if p < out.len() {
                    assert forall|k: int| p <= k < out.len() implies s[out[k] as int] < si by {
                        if k > p {
                            assert(ranks_before(s, out[p as int] as int, out[k] as int));
                        }
                    }
                }
            }
            out.insert(p, i);
            assert forall|m: int| 0 <= m < i + 1 && s[m] > threshold implies exists|k: int|
                0 <= k < out.len() && out[k] == m by {
                if m == i {
                    assert(out[p as int] == m);
                } else {
                    let k = choose|k: int| 0 <= k < before.len() && before[k] == m;
                    if k < p {
                        assert(out[k] == m);
                    } else {
                        assert(out[k + 1] == m);
                    }
                }
            }
        } else {
            assert forall|m: int| 0 <= m < i + 1 && s[m] > threshold implies exists|k: int|
                0 <= k < out.len() && out[k] == m by {
                if m < i {
                }
            }
        }
        i = i + 1;
    }
    assert(s.take(n as int) == s);
    out
}


/// A higher threshold never admits more matches.
pub proof fn lemma_matches_monotone(s: Seq<u32>, t1: u32, t2: u32)
    requires
        t1 <= t2,
    ensures
        count_above(s, t2) <= count_above(s, t1),
    decreases s.len(),
{
    if s.len() > 0 {
        lemma_matches_monotone(s.drop_last(), t1, t2);
    }
}

/// Raising the threshold keeps a subset of the matches: each position
/// ranked at the higher threshold is ranked at the lower one, and there are
/// no more of them.
pub proof fn lemma_rankings_nested(s: Seq<u32>, t1: u32, t2: u32, r1: Seq<usize>, r2: Seq<usize>)
    requires
        t1 <= t2,
        is_ranking(s, t1, r1),
        is_ranking(s, t2, r2),
    ensures
        r2.len() <= r1.len(),
        forall|k: int| 0 <= k < r2.len() ==> exists|j: int| 0 <= j < r1.len() && r1[j] == #[trigger] r2[k],
{
    lemma_matches_monotone(s, t1, t2);
    assert forall|k: int| 0 <= k < r2.len() implies exists|j: int| 0 <= j < r1.len() && r1[j] == #[trigger] r2[k] by {
        let i = r2[k] as int;
        assert(s[i] > t1);
    }
}

/// Item `j` joins the cluster seeded by item `i`.
pub open spec fn links(sims: Seq<Vec<u32>>, t: u32, i: int, j: int) -> bool {
    sims[i]@[j] > t
}

/// `sims` is a square table over `n` items.
pub open spec fn is_square(sims: Seq<Vec<u32>>, n: int) -> bool {
    sims.len() == n && forall|i: int| 0 <= i < n ==> #[trigger] sims[i]@.len() == n
}

/// Item `m` appears in some cluster of `r`.
pub open spec fn placed(r: Seq<Seq<usize>>, m: int) -> bool {
    exists|c: int, k: int| 0 <= c < r.len() && 0 <= k < r[c].len() && r[c][k] == m
}

/// `r` is what greedy seed-based clustering of `n` items gives: the clusters
/// are ordered by their seeds, which head them; an item joins the first
/// earlier seed that links it, and otherwise seeds a cluster of its own.
pub open spec fn is_seed_clustering(sims: Seq<Vec<u32>>, t: u32, n: int, r: Seq<Seq<usize>>) -> bool {
    &&& forall|c: int| 0 <= c < r.len() ==> #[trigger] r[c].len() > 0
    &&& forall|c: int, k: int| 0 <= c < r.len() && 0 <= k < r[c].len() ==> r[c][k] < n
    &&& forall|c: int, a: int, b: int|
        0 <= c < r.len() && 0 <= a < b < r[c].len() ==> r[c][a] < r[c][b]
    &&& forall|c: int, k: int|
        0 <= c < r.len() && 0 < k < r[c].len() ==> links(sims, t, r[c][0] as int, r[c][k] as int)
    &&& forall|c1: int, c2: int, k: int|
        0 <= c1 < c2 < r.len() && 0 <= k < r[c2].len() ==> !links(
            sims,
            t,
            r[c1][0] as int,
            r[c2][k] as int,
        )
    &&& forall|c1: int, c2: int| 0 <= c1 < c2 < r.len() ==> r[c1][0] < r[c2][0]
    &&& forall|m: int| 0 <= m < n ==> placed(r, m)
}

/// Greedy clustering by seed: items are taken in order; an item not yet in
/// a cluster seeds a new one, which then takes every later unassigned item
/// that the seed links to.
pub fn cluster_indices(sims: &Vec<Vec<u32>>, threshold: u32) -> (r: Vec<Vec<usize>>)
    requires
        is_square(sims@, sims@.len() as int),
    ensures
        is_seed_clustering(sims@, threshold, sims@.len() as int, r@.map_values(|v: Vec<usize>| v@)),
{
    let n = sims.len();
    let ghost q = sims@;
    let mut assigned: Vec<bool> = Vec::new();
    let mut z: usize = 0;
    while z < n
        invariant
            z <= n,
            assigned@.len() == z,
            forall|m: int| 0 <= m < z ==> !assigned@[m],
        decreases n - z,
    {
        assigned.push(false);
        z = z + 1;
    }
    let mut clusters: Vec<Vec<usize>> = Vec::new();
    let mut i: usize = 0;
    while i < n
        invariant
            n == q.len(),
            q == sims@,
            is_square(q, n as int),
            i <= n,
            assigned@.len() == n,
            ({
                let r = clusters@.map_values(|v: Vec<usize>| v@);
                &&& forall|c: int| 0 <= c < r.len() ==> #[trigger] r[c].len() > 0
                &&& forall|c: int, k: int| 0 <= c < r.len() && 0 <= k < r[c].len() ==> r[c][k] < n
                &&& forall|c: int, a: int, b: int|
                    0 <= c < r.len() && 0 <= a < b < r[c].len() ==> r[c][a] < r[c][b]
                &&& forall|c: int, k: int|
                    0 <= c < r.len() && 0 < k < r[c].len() ==> links(q, threshold, r[c][0] as int, r[c][k] as int)
                &&& forall|c1: int, c2: int, k: int|
                    0 <= c1 < c2 < r.len() && 0 <= k < r[c2].len() ==> !links(
                        q,
                        threshold,
                        r[c1][0] as int,
                        r[c2][k] as int,
                    )
                &&& forall|c1: int, c2: int| 0 <= c1 < c2 < r.len() ==> r[c1][0] < r[c2][0]
                &&& forall|c: int| 0 <= c < r.len() ==> r[c][0] < i
                &&& forall|m: int| 0 <= m < n ==> (assigned@[m] <==> placed(r, m))
                &&& forall|m: int| 0 <= m < i ==> assigned@[m]
                &&& forall|m: int|
                    i <= m < n ==> (assigned@[m] <==> exists|c: int|
                        0 <= c < r.len() && links(q, threshold, r[c][0] as int, m))
            }),
        decreases n - i,
    {
        let ghost r0 = clusters@.map_values(|v: Vec<usize>| v@);
        if !assigned[i] {
            let ghost a0 = assigned@;
            let mut cl: Vec<usize> = Vec::new();
            cl.push(i);
            assigned.set(i, true);
            let mut j: usize = i + 1;
            while j < n
                invariant
                    n == q.len(),
                    q == sims@,
                    is_square(q, n as int),
                    i < j <= n,
                    assigned@.len() == n,
                    a0.len() == n,
                    cl@.len() > 0,
                    cl@[0] == i,
                    forall|k: int| 0 <= k < cl@.len() ==> i <= #[trigger] cl@[k] && cl@[k] < j,
                    forall|a: int, b: int| 0 <= a < b < cl@.len() ==> cl@[a] < cl@[b],
                    forall|k: int| 0 < k < cl@.len() ==> links(q, threshold, i as int, cl@[k] as int) && !a0[cl@[k] as int],
                    forall|m: int|
                        i < m < j && !a0[m] && links(q, threshold, i as int, m) ==> exists|k: int|
                            0 <= k < cl@.len() && cl@[k] == m,
                    forall|m: int|
                        0 <= m < n ==> (#[trigger] assigned@[m] <==> (a0[m] || m == i || (i < m < j && !a0[m]
                            && links(q, threshold, i as int, m)))),
                decreases n - j,
            {
                let ghost cl0 = cl@;
                let ghost as0 = assigned@;
                let linked = sims[i][j] > threshold;
                assert(linked == links(q, threshold, i as int, j as int));
                if !assigned[j] && linked {
                    cl.push(j);
                    assigned.set(j, true);
                    assert(cl@[cl0.len() as int] == j);
                    assert forall|m: int|
                        0 <= m < n implies (assigned@[m] <==> (a0[m] || m == i || (i < m < j + 1
                            && !a0[m] && links(q, threshold, i as int, m)))) by {
                        if m == j {
                            assert(as0[m] == a0[m]);
                        } else {
                            assert(assigned@[m] == as0[m]);
                        }
                    }
                } else {
                    assert forall|m: int|
                        0 <= m < n implies (assigned@[m] <==> (a0[m] || m == i || (i < m < j + 1
                            && !a0[m] && links(q, threshold, i as int, m)))) by {
                        if m == j {
                            assert(as0[m] == a0[m]);
                        }
                    }
                }
                assert forall|m: int|
                    i < m < j + 1 && !a0[m] && links(q, threshold, i as int, m) implies exists|k: int|
                        0 <= k < cl@.len() && cl@[k] == m by {
                    if m < j {
                        let k = choose|k: int| 0 <= k < cl0.len() && cl0[k] == m;
                        assert(cl@[k] == m);
                    } else {
                        assert(cl@[cl0.len() as int] == m);
                    }
                }
                j = j + 1;
            }
            clusters.push(cl);
            let ghost r1 = clusters@.map_values(|v: Vec<usize>| v@);
            assert(r1 == r0.push(cl@));
            proof {
                assert forall|m: int| 0 <= m < n implies (assigned@[m] <==> placed(r1, m)) by {
                    if assigned@[m] {
                        if a0[m] {
                            assert(placed(r0, m));
                            let (c, k) = choose|c: int, k: int|
                                0 <= c < r0.len() && 0 <= k < r0[c].len() && r0[c][k] == m;
                            assert(r1[c] == r0[c]);
                        } else if m == i {
                            assert(r1[r0.len() as int][0] == m);
                        } else {
                            let k = choose|k: int| 0 <= k < cl@.len() && cl@[k] == m;
                            assert(r1[r0.len() as int][k] == m);
                        }
                    }
                    if placed(r1, m) {
                        let (c, k) = choose|c: int, k: int|
                            0 <= c < r1.len() && 0 <= k < r1[c].len() && r1[c][k] == m;
                        if c < r0.len() {
                            assert(r0[c][k] == m);
                            assert(placed(r0, m));
                        } else {
                            if k > 0 {
                                assert(!a0[cl@[k] as int]);
                            }
                        }
                    }
                }
                assert forall|m: int|
                    i + 1 <= m < n implies (assigned@[m] <==> exists|c: int|
                        0 <= c < r1.len() && links(q, threshold, r1[c][0] as int, m)) by {
                    if assigned@[m] {
                        if a0[m] {
                            let c = choose|c: int|
                                0 <= c < r0.len() && links(q, threshold, r0[c][0] as int, m);
                            assert(r1[c] == r0[c]);
                            assert(links(q, threshold, r1[c][0] as int, m));
                        } else {
                            assert(r1[r0.len() as int][0] == i);
                            assert(links(q, threshold, r1[r0.len() as int][0] as int, m));
                        }
                    }
                    if exists|c: int| 0 <= c < r1.len() && links(q, threshold, r1[c][0] as int, m) {
                        let c = choose|c: int|
                            0 <= c < r1.len() && links(q, threshold, r1[c][0] as int, m);
                        if c < r0.len() {
                            assert(r1[c] == r0[c]);
                            assert(links(q, threshold, r0[c][0] as int, m));
                            assert(a0[m]);
                        } else {
                            assert(r1[c][0] == i);
                        }
                    }
                }
                assert forall|c1: int, c2: int, k: int|
                    0 <= c1 < c2 < r1.len() && 0 <= k < r1[c2].len() implies !links(
                        q,
                        threshold,
                        r1[c1][0] as int,
                        r1[c2][k] as int,
                    ) by {
                    if c2 == r0.len() {
                        assert(r1[c1] == r0[c1]);
                        let m = r1[c2][k] as int;
                        assert(!a0[m]);
                        if links(q, threshold, r1[c1][0] as int, m) {
                            assert(exists|c: int| 0 <= c < r0.len() && links(q, threshold, r0[c][0] as int, m));
                        }
                    } else {
                        assert(r1[c1] == r0[c1]);
                        assert(r1[c2] == r0[c2]);
                    }
                }
                assert forall|c: int| 0 <= c < r1.len() implies #[trigger] r1[c].len() > 0 && r1[c][0] < i + 1 by {
                    if c < r0.len() {
                        assert(r1[c] == r0[c]);
                    }
                }
                assert forall|c: int, k: int| 0 <= c < r1.len() && 0 <= k < r1[c].len() implies r1[c][k] < n by {
                    if c < r0.len() {
                        assert(r1[c] == r0[c]);
                    }
                }
                assert forall|c: int, a: int, b: int|
                    0 <= c < r1.len() && 0 <= a < b < r1[c].len() implies r1[c][a] < r1[c][b] by {
                    if c < r0.len() {
                        assert(r1[c] == r0[c]);
                    }
                }
                assert forall|c1: int, c2: int| 0 <= c1 < c2 < r1.len() implies r1[c1][0] < r1[c2][0] by {
                    assert(r1[c1] == r0[c1]);
                    if c2 < r0.len() {
                        assert(r1[c2] == r0[c2]);
                    }
                }
                assert forall|c: int, k: int|
                    0 <= c < r1.len() && 0 < k < r1[c].len() implies links(q, threshold, r1[c][0] as int, r1[c][k] as int) by {
                    if c < r0.len() {
                        assert(r1[c] == r0[c]);
                    }
                }
            }
        } else {
            proof {
                assert forall|m: int|
                    i + 1 <= m < n implies (assigned@[m] <==> exists|c: int|
                        0 <= c < r0.len() && links(q, threshold, r0[c][0] as int, m)) by {
                }
            }
        }
        i = i + 1;
    }
    clusters
}


/// Seed-based clustering partitions the items: no cluster is empty, every
/// item is placed, and no item is placed twice (two places that hold the
/// same item are the same cluster and the same position).
pub proof fn lemma_clustering_partition(sims: Seq<Vec<u32>>, t: u32, n: int, r: Seq<Seq<usize>>)
    requires
        is_seed_clustering(sims, t, n, r),
    ensures
        forall|c: int| 0 <= c < r.len() ==> #[trigger] r[c].len() > 0,
        forall|m: int| 0 <= m < n ==> placed(r, m),
        forall|c1: int, k1: int, c2: int, k2: int|
            0 <= c1 < r.len() && 0 <= k1 < r[c1].len() && 0 <= c2 < r.len() && 0 <= k2 < r[c2].len()
                && r[c1][k1] == r[c2][k2] ==> c1 == c2 && k1 == k2,
{
    assert forall|c1: int, k1: int, c2: int, k2: int|
        0 <= c1 < r.len() && 0 <= k1 < r[c1].len() && 0 <= c2 < r.len() && 0 <= k2 < r[c2].len()
            && r[c1][k1] == r[c2][k2] implies c1 == c2 && k1 == k2 by {
        if c1 != c2 {
            let (a, ka, b, kb) = if c1 < c2 {
                (c1, k1, c2, k2)
            } else {
                (c2, k2, c1, k1)
            };
            if kb > 0 {
                assert(r[b][0] < r[b][kb]);
            }
            assert(r[a][0] < r[b][0]);
            if ka > 0 {
                assert(r[a][0] < r[a][ka]);
                assert(links(sims, t, r[a][0] as int, r[a][ka] as int));
                assert(!links(sims, t, r[a][0] as int, r[b][kb] as int));
            }
        } else if k1 < k2 {
            assert(r[c1][k1] < r[c1][k2]);
        } else if k2 < k1 {
            assert(r[c1][k2] < r[c1][k1]);
        }
    }
}

/// Similarity lookups over a corpus whose scores were computed beforehand.
pub struct EmbeddingComparator;

impl EmbeddingComparator {
    /// The ids whose score against the query lies strictly above the
    /// threshold, with their scores, best first; equal scores keep the
    /// corpus order. `scores[i]` is the key of the similarity between the
    /// query and the entry `ids[i]`.
    pub fn find_matches(ids: &Vec<String>, scores: &Vec<u32>, threshold: u32) -> (r: Vec<(String, u32)>)
        requires
            ids@.len() == scores@.len(),
        ensures
            r@.len() == count_above(scores@, threshold),
            exists|idx: Seq<usize>|
                {
                    &&& is_ranking(scores@, threshold, idx)
                    &&& idx.len() == r@.len()
                    &&& forall|k: int|
                        0 <= k < r@.len() ==> r@[k].0@ == ids@[idx[k] as int]@ && r@[k].1
                            == scores@[idx[k] as int]
                },
    {
        let idx = rank_matches(scores, threshold);
        let mut out: Vec<(String, u32)> = Vec::new();
        let mut k: usize = 0;
        while k < idx.len()
            invariant
                is_ranking(scores@, threshold, idx@),
                ids@.len() == scores@.len(),
                k <= idx@.len(),
                out@.len() == k,
                forall|a: int|
                    0 <= a < k ==> out@[a].0@ == ids@[idx@[a] as int]@ && out@[a].1
                        == scores@[idx@[a] as int],
            decreases idx@.len() - k,
        {
            let i = idx[k];
            out.push((ids[i].clone(), scores[i]));
            k = k + 1;
        }
        out
    }

    /// Greedy seed-based clustering: `sims[i][j]` is the key of the
    /// similarity between entries `i` and `j`, and an entry joins the
    /// cluster of the first earlier seed whose similarity to it lies
    /// strictly above the threshold.
    pub fn cluster_embeddings(ids: &Vec<String>, sims: &Vec<Vec<u32>>, threshold: u32) -> (r: Vec<Vec<String>>)
        requires
            is_square(sims@, ids@.len() as int),
        ensures
            exists|cl: Seq<Seq<usize>>|
                {
                    &&& is_seed_clustering(sims@, threshold, ids@.len() as int, cl)
                    &&& cl.len() == r@.len()
                    &&& forall|c: int|
                        0 <= c < cl.len() ==> #[trigger] r@[c]@.len() == cl[c].len()
                    &&& forall|c: int, k: int|
                        0 <= c < cl.len() && 0 <= k < cl[c].len() ==> r@[c]@[k]@
                            == ids@[cl[c][k] as int]@
                },
    {
        let cl = cluster_indices(sims, threshold);
        let ghost g = cl@.map_values(|v: Vec<usize>| v@);
        let mut out: Vec<Vec<String>> = Vec::new();
        let mut c: usize = 0;
        while c < cl.len()
            invariant
                is_seed_clustering(sims@, threshold, ids@.len() as int, g),
                g == cl@.map_values(|v: Vec<usize>| v@),
                c <= cl@.len(),
                out@.len() == c,
                forall|a: int| 0 <= a < c ==> #[trigger] out@[a]@.len() == g[a].len(),
                forall|a: int, k: int|
                    0 <= a < c && 0 <= k < g[a].len() ==> out@[a]@[k]@ == ids@[g[a][k] as int]@,
            decreases cl@.len() - c,
        {
            let members = &cl[c];
            let mut names: Vec<String> = Vec::new();
            let mut k: usize = 0;
            while k < members.len()
                invariant
                    is_seed_clustering(sims@, threshold, ids@.len() as int, g),
                    g == cl@.map_values(|v: Vec<usize>| v@),
                    c < cl@.len(),
                    members@ == g[c as int],
                    k <= members@.len(),
                    names@.len() == k,
                    forall|b: int| 0 <= b < k ==> names@[b]@ == ids@[members@[b] as int]@,
                decreases members@.len() - k,
            {
                let i = members[k];
                names.push(ids[i].clone());
                k = k + 1;
            }
            out.push(names);
            c = c + 1;
        }
        out
    }
}

} // verus!
