//! Weighted shortest paths by Dijkstra's algorithm: weights are unsigned,
//! so the closest unfinished node is always final.

use vstd::prelude::*;
use crate::graph::{GraphData, GraphError};
use crate::types::{same_node, Edge, Node};
use crate::walks::{is_walk, lemma_walk_prefix, lemma_walk_push, lemma_weight_bound, lemma_weight_prefix, reachable, walk_weight};

verus! {

/// The result of a shortest-path query.
#[derive(Debug)]
pub struct PathResult {
    /// Whether the target can be reached.
    pub found: bool,
    /// The nodes along the path, both endpoints included.
    pub path: Vec<Node>,
    /// The edges along the path, in order.
    pub edges: Vec<Edge>,
    /// Sum of the weights of `edges`.
    pub total_weight: u128,
}

/// Edge indices as integers.
pub open spec fn ints(v: Seq<usize>) -> Seq<int> {
    v.map_values(|e: usize| e as int)
}

/// Number of `false` entries.
pub open spec fn count_false(s: Seq<bool>) -> nat
    decreases s.len(),
{
    if s.len() == 0 {
        0
    } else {
        count_false(s.drop_last()) + if s.last() {
            0nat
        } else {
            1nat
        }
    }
}

/// At most every entry is `false`.
pub proof fn lemma_count_false_bound(s: Seq<bool>)
    ensures
        count_false(s) <= s.len(),
    decreases s.len(),
{
    if s.len() > 0 {
        lemma_count_false_bound(s.drop_last());
    }
}

/// Setting a `false` entry removes one `false`.
pub proof fn lemma_count_false_set(s: Seq<bool>, i: int)
    requires
        0 <= i < s.len(),
        !s[i],
    ensures
        count_false(s.update(i, true)) + 1 == count_false(s),
    decreases s.len(),
{
    let t = s.update(i, true);
    if i == s.len() - 1 {
        assert(t.drop_last() =~= s.drop_last());
    } else {
        assert(t.drop_last() =~= s.drop_last().update(i, true));
        lemma_count_false_set(s.drop_last(), i);
    }
}

/// An all-`false` sequence counts all its entries.
pub proof fn lemma_all_false(s: Seq<bool>)
    requires
        forall|i: int| 0 <= i < s.len() ==> !s[i],
    ensures
        count_false(s) == s.len(),
    decreases s.len(),
{
    if s.len() > 0 {
        lemma_all_false(s.drop_last());
    }
}

/// The state of the search from `s`: reached nodes carry a walk of their
/// recorded distance, finished nodes carry an optimal distance, and every
/// edge out of a finished node has been relaxed.
pub open spec fn search_inv(
    g: GraphData,
    s: int,
    reached: Seq<bool>,
    done: Seq<bool>,
    dist: Seq<u128>,
    paths: Seq<Vec<usize>>,
) -> bool {
    let n = g.nodes@.len();
    &&& reached.len() == n
    &&& done.len() == n
    &&& dist.len() == n
    &&& paths.len() == n
    &&& 0 <= s < n
    &&& reached[s]
    &&& dist[s] == 0
    &&& forall|v: int| 0 <= v < n && #[trigger] done[v] ==> reached[v]
    &&& forall|v: int|
        0 <= v < n && #[trigger] reached[v] ==> {
            &&& is_walk(g, ints(paths[v]@), s, v)
            &&& walk_weight(g, ints(paths[v]@)) == dist[v] as int
            &&& paths[v]@.len() + count_false(done) <= n
        }
    &&& forall|v: int, p: Seq<int>|
        0 <= v < n && done[v] && #[trigger] is_walk(g, p, s, v) ==> dist[v] <= walk_weight(g, p)
    &&& !done[s] ==> (forall|v: int| 0 <= v < n ==> !#[trigger] done[v] && (reached[v] ==> v == s))
}

/// Every edge out of a finished node into an unfinished one has been
/// relaxed, except the edges out of `u` from index `from_k` on.
pub open spec fn relaxed_except(
    g: GraphData,
    reached: Seq<bool>,
    done: Seq<bool>,
    dist: Seq<u128>,
    u: int,
    from_k: int,
) -> bool {
    forall|k: int|
        #![trigger g.arcs@[k]]
        0 <= k < g.arcs@.len() && done[g.src(k)] && !done[g.dst(k)] && (g.src(k) != u || k < from_k)
            ==> reached[g.dst(k)] && dist[g.dst(k)] <= dist[g.src(k)] + g.edges@[k].weight
}

/// On a walk from a finished node to an unfinished one there is a first
/// edge that leaves the finished nodes.
proof fn lemma_exit(g: GraphData, p: Seq<int>, s: int, t: int, done: Seq<bool>, i: int) -> (j: int)
    requires
        g.wf(),
        done.len() == g.nodes@.len(),
        is_walk(g, p, s, t),
        0 <= s < done.len(),
        done[s],
        !done[t],
        0 <= i < p.len(),
        done[g.src(p[i])],
    ensures
        i <= j < p.len(),
        done[g.src(p[j])],
        !done[g.dst(p[j])],
    decreases p.len() - i,
{
    assert(0 <= p[i] < g.edges@.len());
    assert(g.arcs@[p[i]].1 < g.nodes@.len());
    if !done[g.dst(p[i])] {
        i
    } else {
        if i == p.len() - 1 {
            assert(g.dst(p.last()) == t);
            i
        } else {
            assert(g.dst(p[i]) == g.src(p[i + 1]));
            lemma_exit(g, p, s, t, done, i + 1)
        }
    }
}

/// The closest unfinished reached node has an optimal distance.
proof fn lemma_closest_is_final(
    g: GraphData,
    s: int,
    reached: Seq<bool>,
    done: Seq<bool>,
    dist: Seq<u128>,
    paths: Seq<Vec<usize>>,
    u: int,
    p: Seq<int>,
)
    requires
        g.wf(),
        search_inv(g, s, reached, done, dist, paths),
        relaxed_except(g, reached, done, dist, -1, 0),
        0 <= u < g.nodes@.len(),
        reached[u],
        !done[u],
        forall|v: int| 0 <= v < g.nodes@.len() && #[trigger] reached[v] && !done[v] ==> dist[u] <= dist[v],
        is_walk(g, p, s, u),
    ensures
        dist[u] <= walk_weight(g, p),
{
    if !done[s] {
        assert(u == s);
        lemma_weight_prefix(g, p, 0);
        assert(p.subrange(0, 0).len() == 0);
    } else {
        assert(p.len() > 0);
        let j = lemma_exit(g, p, s, u, done, 0);
        let k = p[j];
        let x = g.src(k);
        let y = g.dst(k);
        assert(0 <= k < g.edges@.len());
        assert(g.arcs@[k].0 < g.nodes@.len() && g.arcs@[k].1 < g.nodes@.len());
        lemma_walk_prefix(g, p, s, u, j);
        let q = p.subrange(0, j);
        assert(is_walk(g, q, s, x));
        assert(dist[x] <= walk_weight(g, q));
        assert(reached[y] && dist[y] <= dist[x] + g.edges@[k].weight);
        lemma_weight_prefix(g, p, j);
        lemma_weight_prefix(g, p, j + 1);
        assert(dist[u] <= dist[y]);
    }
}

/// The reached, unfinished node of least distance, if any.
fn closest_unfinished(reached: &Vec<bool>, done: &Vec<bool>, dist: &Vec<u128>) -> (r: Option<usize>)
    requires
        reached@.len() == done@.len(),
        dist@.len() == done@.len(),
    ensures
        r matches Some(u) ==> u < done@.len() && reached@[u as int] && !done@[u as int] && forall|v: int|
            0 <= v < done@.len() && #[trigger] reached@[v] && !done@[v] ==> dist@[u as int] <= dist@[v],
        r is None ==> forall|v: int| 0 <= v < done@.len() && #[trigger] reached@[v] ==> done@[v],
{
    let mut best: Option<usize> = None;
    let mut i: usize = 0;
    while i < done.len()
        invariant
            i <= done@.len(),
            reached@.len() == done@.len(),
            dist@.len() == done@.len(),
            best matches Some(u) ==> u < i && reached@[u as int] && !done@[u as int] && forall|v: int|
                0 <= v < i && #[trigger] reached@[v] && !done@[v] ==> dist@[u as int] <= dist@[v],
            best is None ==> forall|v: int| 0 <= v < i && #[trigger] reached@[v] ==> done@[v],
        decreases done.len() - i,
    {
        if reached[i] && !done[i] {
            match best {
                Some(u) => {
                    if dist[i] < dist[u] {
                        best = Some(i);
                    }
                },
                None => {
                    best = Some(i);
                },
            }
        }
        i = i + 1;
    }
    best
}

/// The nodes along walk `p` from `s`, as copies.
fn path_nodes(g: &GraphData, s: usize, t: usize, p: &Vec<usize>) -> (r: Vec<Node>)
    requires
        g.wf(),
        s < g.nodes@.len(),
        is_walk(*g, ints(p@), s as int, t as int),
    ensures
        r@.len() == p@.len() + 1,
        same_node(r@[0], g.nodes@[s as int]),
        forall|i: int| 0 <= i < p@.len() ==> same_node(#[trigger] r@[i + 1], g.nodes@[g.dst(p@[i] as int)]),
{
    let mut r: Vec<Node> = Vec::new();
    r.push(g.nodes[s].clone());
    let mut i: usize = 0;
    while i < p.len()
        invariant
            g.wf(),
            i <= p@.len(),
            r@.len() == i + 1,
            s < g.nodes@.len(),
            is_walk(*g, ints(p@), s as int, t as int),
            same_node(r@[0], g.nodes@[s as int]),
            forall|j: int| 0 <= j < i ==> same_node(#[trigger] r@[j + 1], g.nodes@[g.dst(p@[j] as int)]),
        decreases p.len() - i,
    {
        let k = p[i];
        assert(ints(p@)[i as int] == k as int);
        assert(0 <= ints(p@)[i as int] < g.edges@.len());
        assert(g.arcs@[k as int].1 < g.nodes@.len());
        let (_, b) = g.arcs[k];
        r.push(g.nodes[b].clone());
        i = i + 1;
    }
    r
}

/// Copies of the edges with indices `p`.
fn path_edges(g: &GraphData, p: &Vec<usize>) -> (r: Vec<Edge>)
    requires
        forall|i: int| 0 <= i < p@.len() ==> (#[trigger] p@[i]) < g.edges@.len(),
    ensures
        r@.len() == p@.len(),
        forall|i: int| 0 <= i < p@.len() ==> #[trigger] r@[i] == g.edges@[p@[i] as int],
{
    let mut r: Vec<Edge> = Vec::new();
    let mut i: usize = 0;
    while i < p.len()
        invariant
            i <= p@.len(),
            r@.len() == i,
            forall|j: int| 0 <= j < p@.len() ==> (#[trigger] p@[j]) < g.edges@.len(),
            forall|j: int| 0 <= j < i ==> #[trigger] r@[j] == g.edges@[p@[j] as int],
        decreases p.len() - i,
    {
        r.push(g.edges[p[i]].clone());
        i = i + 1;
    }
    r
}

} // verus!

verus! {

/// What a shortest-path answer from node `s` to node `t` must be: found
/// exactly when `t` is reachable, and then a walk from `s` to `t` whose
/// weight is no more than that of any other such walk.
pub open spec fn path_answer(g: GraphData, s: int, t: int, res: PathResult) -> bool {
    &&& res.found == reachable(g, s, t)
    &&& res.found ==> exists|p: Seq<int>|
        {
            &&& #[trigger] is_walk(g, p, s, t)
            &&& res.total_weight == walk_weight(g, p)
            &&& res.edges@.len() == p.len()
            &&& forall|i: int| 0 <= i < p.len() ==> #[trigger] res.edges@[i] == g.edges@[p[i]]
            &&& res.path@.len() == p.len() + 1
            &&& same_node(res.path@[0], g.nodes@[s])
            &&& forall|i: int| 0 <= i < p.len() ==> same_node(#[trigger] res.path@[i + 1], g.nodes@[g.dst(p[i])])
        }
    &&& res.found ==> forall|q: Seq<int>| #[trigger] is_walk(g, q, s, t) ==> res.total_weight <= walk_weight(g, q)
    &&& !res.found ==> res.path@.len() == 0 && res.edges@.len() == 0 && res.total_weight == 0
}

proof fn lemma_ints_push(v: Seq<usize>, k: usize)
    ensures
        ints(v.push(k)) == ints(v).push(k as int),
{
    assert(ints(v.push(k)) =~= ints(v).push(k as int));
}

/// An exact copy of a list of edge indices.
pub(crate) fn copy_indices(v: &Vec<usize>) -> (r: Vec<usize>)
    ensures
        r@ == v@,
{
    let mut r: Vec<usize> = Vec::new();
    let mut i: usize = 0;
    while i < v.len()
        invariant
            i <= v@.len(),
            r@ == v@.subrange(0, i as int),
        decreases v.len() - i,
    {
        r.push(v[i]);
        i = i + 1;
    }
    r
}

/// The least-weight directed path from `from` to `to`. Fails with
/// `NotFound` when either id is absent; otherwise `found` tells whether
/// `to` is reachable, and a found path weighs no more than any walk from
/// `from` to `to`.
pub fn shortest_path(graph: &GraphData, from: &str, to: &str) -> (r: Result<PathResult, GraphError>)
    requires
        graph.wf(),
    ensures
        r is Err <==> !graph.has_id(from@) || !graph.has_id(to@),
        r matches Err(e) ==> e is NotFound,
        r matches Ok(res) ==> path_answer(*graph, graph.index_of(from@), graph.index_of(to@), res),
{
    let s = match graph.get_index(from) {
        Some(i) => i,
        None => {
            return Err(GraphError::NotFound(from.to_owned()));
        },
    };
    let t = match graph.get_index(to) {
        Some(i) => i,
        None => {
            return Err(GraphError::NotFound(to.to_owned()));
        },
    };
    let n = graph.nodes.len();
    let mut reached: Vec<bool> = Vec::new();
    let mut done: Vec<bool> = Vec::new();
    let mut dist: Vec<u128> = Vec::new();
    let mut paths: Vec<Vec<usize>> = Vec::new();
    let mut i: usize = 0;
    while i < n
        invariant
            i <= n,
            s < n,
            reached@.len() == i,
            done@.len() == i,
            dist@.len() == i,
            paths@.len() == i,
            forall|v: int| 0 <= v < i ==> (#[trigger] reached@[v] <==> v == s),
            forall|v: int| 0 <= v < i ==> !(#[trigger] done@[v]),
            forall|v: int| 0 <= v < i ==> #[trigger] dist@[v] == 0,
            forall|v: int| 0 <= v < i ==> (#[trigger] paths@[v])@.len() == 0,
        decreases n - i,
    {
        reached.push(i == s);
        done.push(false);
        dist.push(0);
        paths.push(Vec::new());
        i = i + 1;
    }
    proof {
        let g = *graph;
        let ss = s as int;
        lemma_count_false_bound(done@);
        assert(ints(paths@[ss]@) =~= Seq::<int>::empty());
        assert(is_walk(g, ints(paths@[ss]@), ss, ss));
    }
    loop
        invariant
            graph.wf(),
            n == graph.nodes@.len(),
            s < n,
            search_inv(*graph, s as int, reached@, done@, dist@, paths@),
            relaxed_except(*graph, reached@, done@, dist@, -1, 0),
        ensures
            forall|v: int| 0 <= v < n && #[trigger] reached@[v] ==> done@[v],
        decreases count_false(done@),
    {
        let u = match closest_unfinished(&reached, &done, &dist) {
            Some(u) => u,
            None => {
                break;
            },
        };
        proof {
            let g = *graph;
            assert forall|p: Seq<int>| #[trigger] is_walk(g, p, s as int, u as int) implies dist@[u as int]
                <= walk_weight(g, p) by {
                lemma_closest_is_final(g, s as int, reached@, done@, dist@, paths@, u as int, p);
            }
            lemma_count_false_set(done@, u as int);
        }
        done.set(u, true);
        let ghost cf = count_false(done@);
        proof {
            assert(done@[s as int]);
        }
        let mut k: usize = 0;
        while k < graph.edges.len()
            invariant
                graph.wf(),
                n == graph.nodes@.len(),
                s < n,
                u < n,
                k <= graph.edges@.len(),
                done@[u as int],
                done@[s as int],
                count_false(done@) == cf,
                paths@[u as int]@.len() + cf + 1 <= n,
                search_inv(*graph, s as int, reached@, done@, dist@, paths@),
                relaxed_except(*graph, reached@, done@, dist@, u as int, k as int),
            decreases graph.edges.len() - k,
        {
            let (a, b) = graph.arcs[k];
            proof {
                assert(graph.arcs@[k as int].0 < n && graph.arcs@[k as int].1 < n);
            }
            if a == u && !done[b] {
                proof {
                    let g = *graph;
                    lemma_weight_bound(g, ints(paths@[u as int]@));
                    assert(dist@[u as int] <= n * (u32::MAX as int)) by (nonlinear_arith)
                        requires
                            dist@[u as int] <= paths@[u as int]@.len() * (u32::MAX as int),
                            paths@[u as int]@.len() <= n,
                    ;
                    assert(n * (u32::MAX as int) <= (usize::MAX as int) * (u32::MAX as int)) by (nonlinear_arith)
                        requires
                            n <= usize::MAX,
                    ;
                }
                let w = graph.edges[k].weight as u128;
                let nd = dist[u] + w;
                if !reached[b] || nd < dist[b] {
                    let mut np = copy_indices(&paths[u]);
                    proof {
                        let g = *graph;
                        lemma_ints_push(np@, k);
                        lemma_walk_push(g, ints(np@), s as int, u as int, k as int);
                    }
                    np.push(k);
                    let ghost old_dist = dist@;
                    let ghost old_reached = reached@;
                    dist.set(b, nd);
                    reached.set(b, true);
                    paths.set(b, np);
                    proof {
                        let g = *graph;
                        assert(b != s);
                        assert forall|v: int, p: Seq<int>|
                            0 <= v < n && done@[v] && #[trigger] is_walk(g, p, s as int, v) implies dist@[v]
                            <= walk_weight(g, p) by {
                            assert(v != b);
                            assert(dist@[v] == old_dist[v]);
                        }
                        assert forall|v: int| 0 <= v < n && #[trigger] reached@[v] implies {
                            &&& is_walk(g, ints(paths@[v]@), s as int, v)
                            &&& walk_weight(g, ints(paths@[v]@)) == dist@[v] as int
                            &&& paths@[v]@.len() + count_false(done@) <= n
                        } by {
                            if v != b {
                                assert(old_reached[v]);
                            }
                        }
                        assert forall|kk: int|
                            #![trigger g.arcs@[kk]]
                            0 <= kk < g.arcs@.len() && done@[g.src(kk)] && !done@[g.dst(kk)] && (g.src(kk)
                                != u || kk < k + 1) implies reached@[g.dst(kk)] && dist@[g.dst(kk)] <= dist@[g.src(kk)]
                            + g.edges@[kk].weight by {
                            assert(g.src(kk) != b);
                            if kk != k {
                                assert(old_reached[g.dst(kk)] && old_dist[g.dst(kk)] <= old_dist[g.src(kk)]
                                    + g.edges@[kk].weight);
                            }
                        }
                    }
                }
            }
            k = k + 1;
        }
    }
    let ghost g = *graph;
    proof {
        assert(g.index_of(from@) == s as int);
        assert(g.index_of(to@) == t as int);
    }
    if reached[t] {
        let p = &paths[t];
        proof {
            assert(is_walk(g, ints(p@), s as int, t as int));
            assert forall|i: int| 0 <= i < p@.len() implies (#[trigger] p@[i]) < g.edges@.len() by {
                assert(ints(p@)[i] == p@[i] as int);
            }
        }
        let nodes = path_nodes(graph, s, t, p);
        let edges = path_edges(graph, p);
        let res = PathResult { found: true, path: nodes, edges, total_weight: dist[t] };
        proof {
            let q = ints(p@);
            assert(reachable(g, s as int, t as int));
            assert forall|i: int| 0 <= i < q.len() implies #[trigger] res.edges@[i] == g.edges@[q[i]] by {
                assert(q[i] == p@[i] as int);
            }
            assert forall|i: int| 0 <= i < q.len() implies same_node(
                #[trigger] res.path@[i + 1],
                g.nodes@[g.dst(q[i])],
            ) by {
                assert(q[i] == p@[i] as int);
            }
        }
        Ok(res)
    } else {
        proof {
            assert(done@[s as int]);
            assert forall|q: Seq<int>| !#[trigger] is_walk(g, q, s as int, t as int) by {
                if is_walk(g, q, s as int, t as int) {
                    assert(q.len() > 0);
                    assert(0 <= q[0] < g.edges@.len());
                    let j = lemma_exit(g, q, s as int, t as int, done@, 0);
                    assert(0 <= q[j] < g.edges@.len());
                    assert(g.arcs@[q[j]].0 < n && g.arcs@[q[j]].1 < n);
                }
            }
        }
        Ok(PathResult { found: false, path: Vec::new(), edges: Vec::new(), total_weight: 0 })
    }
}

} // verus!
