//! Prerequisites of a node in learning order: every transitive
//! prerequisite, each before the nodes that depend on it.

use vstd::prelude::*;
use crate::digraph::{arc_graph_toposort, is_topological_order, arc_graph_arcs, arc_graph_order};
use crate::graph::{GraphData, GraphError};
use crate::shortest::{count_false, lemma_all_false, lemma_count_false_bound, lemma_count_false_set};
use crate::types::{same_node, Node};
use crate::validation::{has_prerequisite_cycle, prereq_arcs, prereq_arcs_upto, prerequisite_arc_graph};
use crate::walks::is_walk;

verus! {

/// A walk that uses prerequisite edges only.
pub open spec fn is_prereq_walk(g: GraphData, p: Seq<int>, x: int, t: int) -> bool {
    &&& is_walk(g, p, x, t)
    &&& forall|i: int| 0 <= i < p.len() ==> (#[trigger] g.edges@[p[i]]).relationship is Prerequisite
}

/// Node `x` must be learned before node `t`: a non-empty chain of
/// prerequisite edges leads from `x` to `t`.
pub open spec fn prereq_ancestor(g: GraphData, x: int, t: int) -> bool {
    exists|p: Seq<int>| p.len() > 0 && #[trigger] is_prereq_walk(g, p, x, t)
}

/// The result of a prerequisite query.
#[derive(Debug)]
pub struct PrerequisitesResult {
    /// The node asked about.
    pub target: Node,
    /// Its transitive prerequisites, fundamentals first.
    pub ordered: Vec<Node>,
    /// Whether the prerequisite edges contain a cycle, in which case the
    /// order is only approximate.
    pub has_cycles: bool,
}

/// `node` copies a prerequisite ancestor of node `t` other than `t`.
pub open spec fn listed_ancestor(g: GraphData, t: int, node: Node) -> bool {
    exists|x: int|
        #![trigger prereq_ancestor(g, x, t)]
        0 <= x < g.nodes@.len() && x != t && prereq_ancestor(g, x, t) && same_node(node, g.nodes@[x])
}

/// What the answer for target `t` must be: exactly the prerequisite
/// ancestors of `t` other than `t`, each once; without cycles, every
/// prerequisite edge between two of them points forward in the list.
pub open spec fn prereq_answer(g: GraphData, t: int, res: PrerequisitesResult) -> bool {
    let ps = res.ordered@;
    &&& res.has_cycles == has_prerequisite_cycle(g)
    &&& same_node(res.target, g.nodes@[t])
    &&& forall|i: int| 0 <= i < ps.len() ==> #[trigger] listed_ancestor(g, t, ps[i])
    &&& forall|x: int|
        0 <= x < g.nodes@.len() && x != t && #[trigger] prereq_ancestor(g, x, t) ==> exists|i: int|
            0 <= i < ps.len() && (#[trigger] ps[i]).id@ == g.nodes@[x].id@
    &&& forall|i: int, j: int| 0 <= i < ps.len() && 0 <= j < ps.len() && i != j ==> (#[trigger] ps[i]).id@ != (#[trigger] ps[j]).id@
    &&& !res.has_cycles ==> forall|k: int, i: int, j: int|
        #![trigger g.edges@[k], ps[i], ps[j]]
        0 <= k < g.edges@.len() && g.edges@[k].relationship is Prerequisite && 0 <= i < ps.len() && 0 <= j
            < ps.len() && ps[i].id@ == g.edges@[k].from@ && ps[j].id@ == g.edges@[k].to@ ==> i < j
}

proof fn lemma_walk_drop_first(g: GraphData, p: Seq<int>, x: int, t: int)
    requires
        is_prereq_walk(g, p, x, t),
        p.len() > 0,
    ensures
        is_prereq_walk(g, p.drop_first(), g.dst(p[0]), t),
{
    let q = p.drop_first();
    assert forall|i: int| 0 <= i < q.len() implies q[i] == p[i + 1] by {}
    if q.len() > 0 {
        assert(q.last() == p.last());
        assert(g.dst(p[0]) == g.src(p[1]));
        assert forall|i: int| 0 <= i < q.len() - 1 implies g.dst(#[trigger] q[i]) == g.src(q[i + 1]) by {
            assert(g.dst(p[i + 1]) == g.src(p[i + 2]));
        }
        assert forall|i: int| 0 <= i < q.len() implies 0 <= #[trigger] q[i] < g.edges@.len() by {
            assert(0 <= p[i + 1] < g.edges@.len());
        }
        assert forall|i: int| 0 <= i < q.len() implies (#[trigger] g.edges@[q[i]]).relationship is Prerequisite by {
            assert(g.edges@[p[i + 1]].relationship is Prerequisite);
        }
    }
}

proof fn lemma_walk_prepend(g: GraphData, p: Seq<int>, y: int, t: int, k: int)
    requires
        is_prereq_walk(g, p, y, t),
        0 <= k < g.edges@.len(),
        g.dst(k) == y,
        g.edges@[k].relationship is Prerequisite,
    ensures
        is_prereq_walk(g, seq![k] + p, g.src(k), t),
{
    let q = seq![k] + p;
    assert forall|i: int| 0 <= i < p.len() implies q[i + 1] == p[i] by {}
    assert(q[0] == k);
    if p.len() > 0 {
        assert(q.last() == p.last());
        assert forall|i: int| 0 <= i < q.len() - 1 implies g.dst(#[trigger] q[i]) == g.src(q[i + 1]) by {
            if i > 0 {
                assert(g.dst(p[i - 1]) == g.src(p[i]));
            }
        }
    }
    assert forall|i: int| 0 <= i < q.len() implies 0 <= #[trigger] q[i] < g.edges@.len() by {
        if i > 0 {
            assert(q[i] == p[i - 1]);
        }
    }
    assert forall|i: int| 0 <= i < q.len() implies (#[trigger] g.edges@[q[i]]).relationship is Prerequisite by {
        if i > 0 {
            assert(q[i] == p[i - 1]);
        }
    }
}

/// A set of nodes that holds `t` and the source of every prerequisite edge
/// into one of its members holds every node with a prerequisite walk to `t`.
proof fn lemma_closed_holds_ancestors(g: GraphData, visited: Seq<bool>, t: int, p: Seq<int>, x: int)
    requires
        g.wf(),
        visited.len() == g.nodes@.len(),
        0 <= t < visited.len(),
        visited[t],
        forall|k: int|
            #![trigger g.arcs@[k]]
            0 <= k < g.edges@.len() && g.edges@[k].relationship is Prerequisite && visited[g.dst(k)]
                ==> visited[g.src(k)],
        is_prereq_walk(g, p, x, t),
    ensures
        visited[x],
    decreases p.len(),
{
    if p.len() > 0 {
        lemma_walk_drop_first(g, p, x, t);
        lemma_closed_holds_ancestors(g, visited, t, p.drop_first(), g.dst(p[0]));
        assert(0 <= p[0] < g.edges@.len());
        assert(g.edges@[p[0]].relationship is Prerequisite);
    }
}



/// Marks every node from which a chain of prerequisite edges leads to `t`,
/// and `t` itself; also returns the marked nodes in discovery order.
fn mark_ancestors(g: &GraphData, t: usize) -> (r: (Vec<bool>, Vec<usize>))
    requires
        g.wf(),
        t < g.nodes@.len(),
    ensures
        r.0@.len() == g.nodes@.len(),
        r.0@[t as int],
        forall|x: int| 0 <= x < g.nodes@.len() && x != t ==> (#[trigger] r.0@[x] <==> prereq_ancestor(*g, x, t as int)),
        r.1@.no_duplicates(),
        forall|i: int| 0 <= i < r.1@.len() ==> (#[trigger] r.1@[i]) < g.nodes@.len() && r.0@[r.1@[i] as int],
        forall|x: usize| x < g.nodes@.len() && #[trigger] r.0@[x as int] ==> r.1@.contains(x),
{
    let n = g.nodes.len();
    let mut visited: Vec<bool> = Vec::new();
    let mut i: usize = 0;
    while i < n
        invariant
            i <= n,
            visited@.len() == i,
            forall|j: int| 0 <= j < i ==> (#[trigger] visited@[j] <==> j == t),
        decreases n - i,
    {
        visited.push(i == t);
        i = i + 1;
    }
    let mut queue: Vec<usize> = Vec::new();
    queue.push(t);
    let ghost mut wit: Seq<Seq<int>> = Seq::new(n as nat, |v: int| Seq::<int>::empty());
    proof {
        assert(visited@ =~= Seq::new(n as nat, |v: int| v == t).update(t as int, true));
        lemma_count_false_bound(visited@.update(t as int, false));
        assert(visited@.update(t as int, false) =~= Seq::new(n as nat, |v: int| false));
        assert(count_false(visited@.update(t as int, false)) == n) by {
            let all = Seq::new(n as nat, |v: int| false);
            lemma_all_false(all);
        }
        lemma_count_false_set(visited@.update(t as int, false), t as int);
        assert(visited@.update(t as int, false).update(t as int, true) =~= visited@);
        assert(is_prereq_walk(*g, wit[t as int], t as int, t as int));
        assert(queue@[0] == t);
        assert forall|x: usize| x < n && #[trigger] visited@[x as int] implies queue@.contains(x) by {
            assert(x == t);
        }
    }
    let mut head: usize = 0;
    while head < queue.len()
        invariant
            g.wf(),
            n == g.nodes@.len(),
            t < n,
            visited@.len() == n,
            wit.len() == n,
            visited@[t as int],
            head <= queue@.len(),
            queue@.len() + count_false(visited@) == n,
            queue@.no_duplicates(),
            forall|i: int| 0 <= i < queue@.len() ==> (#[trigger] queue@[i]) < n && visited@[queue@[i] as int],
            forall|x: usize| x < n && #[trigger] visited@[x as int] ==> queue@.contains(x),
            forall|v: int| 0 <= v < n && #[trigger] visited@[v] ==> is_prereq_walk(*g, wit[v], v, t as int),
            forall|k: int|
                #![trigger g.arcs@[k]]
                0 <= k < g.edges@.len() && g.edges@[k].relationship is Prerequisite && (exists|i: int|
                    0 <= i < head && queue@[i] as int == g.dst(k)) ==> visited@[g.src(k)],
        decreases n - head,
    {
        proof {
            lemma_count_false_bound(visited@);
        }
        let y = queue[head];
        let mut k: usize = 0;
        while k < g.edges.len()
            invariant
                g.wf(),
                n == g.nodes@.len(),
                t < n,
                visited@.len() == n,
                wit.len() == n,
                visited@[t as int],
                head < queue@.len(),
                y == queue@[head as int],
                k <= g.edges@.len(),
                queue@.len() + count_false(visited@) == n,
                queue@.no_duplicates(),
                forall|i: int| 0 <= i < queue@.len() ==> (#[trigger] queue@[i]) < n && visited@[queue@[i] as int],
                forall|x: usize| x < n && #[trigger] visited@[x as int] ==> queue@.contains(x),
                forall|v: int| 0 <= v < n && #[trigger] visited@[v] ==> is_prereq_walk(*g, wit[v], v, t as int),
                forall|kk: int|
                    #![trigger g.arcs@[kk]]
                    0 <= kk < g.edges@.len() && g.edges@[kk].relationship is Prerequisite && ((exists|i: int|
                        0 <= i < head && queue@[i] as int == g.dst(kk)) || (kk < k && g.dst(kk) == y))
                        ==> visited@[g.src(kk)],
            decreases g.edges.len() - k,
        {
            let (a, b) = g.arcs[k];
            proof {
                assert(g.arcs@[k as int].0 < n && g.arcs@[k as int].1 < n);
            }
            if b == y && g.edges[k].relationship.is_prerequisite() && !visited[a] {
                proof {
                    lemma_walk_prepend(*g, wit[y as int], y as int, t as int, k as int);
                    lemma_count_false_set(visited@, a as int);
                    wit = wit.update(a as int, seq![k as int] + wit[y as int]);
                }
                let ghost old_queue = queue@;
                visited.set(a, true);
                queue.push(a);
                proof {
                    assert(queue@[queue@.len() - 1] == a);
                    assert forall|x: usize| x < n && #[trigger] visited@[x as int] implies queue@.contains(x) by {
                        if x != a {
                            assert(old_queue.contains(x));
                            let i = choose|i: int| 0 <= i < old_queue.len() && old_queue[i] == x;
                            assert(queue@[i] == x);
                        }
                    }
                    assert forall|kk: int|
                        #![trigger g.arcs@[kk]]
                        0 <= kk < g.edges@.len() && g.edges@[kk].relationship is Prerequisite && ((exists|i: int|
                            0 <= i < head && queue@[i] as int == g.dst(kk)) || (kk < k + 1 && g.dst(kk) == y))
                            implies visited@[g.src(kk)] by {
                        if exists|i: int| 0 <= i < head && queue@[i] as int == g.dst(kk) {
                            let i = choose|i: int| 0 <= i < head && queue@[i] as int == g.dst(kk);
                            assert(old_queue[i] == queue@[i]);
                        }
                    }
                    assert(queue@.no_duplicates()) by {
                        assert forall|i: int, j: int| 0 <= i < j < queue@.len() implies queue@[i] != queue@[j] by {
                            if j == queue@.len() - 1 {
                                assert(old_queue[i] != a) by {
                                    if old_queue[i] == a {
                                        assert(old_queue[i] < n);
                                    }
                                }
                            } else {
                                assert(old_queue[i] == queue@[i] && old_queue[j] == queue@[j]);
                            }
                        }
                    }
                }
            }
            k = k + 1;
        }
        proof {
            assert forall|kk: int|
                #![trigger g.arcs@[kk]]
                0 <= kk < g.edges@.len() && g.edges@[kk].relationship is Prerequisite && (exists|i: int|
                    0 <= i < head + 1 && queue@[i] as int == g.dst(kk)) implies visited@[g.src(kk)] by {
                let i = choose|i: int| 0 <= i < head + 1 && queue@[i] as int == g.dst(kk);
                if i < head as int {
                } else {
                    assert(g.dst(kk) == y);
                }
            }
        }
        head = head + 1;
    }
    proof {
        assert forall|x: int| 0 <= x < n && x != t implies (#[trigger] visited@[x] <==> prereq_ancestor(*g, x, t as int)) by {
            if visited@[x] {
                assert(is_prereq_walk(*g, wit[x], x, t as int));
                assert(wit[x].len() > 0);
            }
            if prereq_ancestor(*g, x, t as int) {
                let p = choose|p: Seq<int>| p.len() > 0 && #[trigger] is_prereq_walk(*g, p, x, t as int);
                assert forall|k: int|
                    #![trigger g.arcs@[k]]
                    0 <= k < g.edges@.len() && g.edges@[k].relationship is Prerequisite && visited@[g.dst(k)]
                        implies visited@[g.src(k)] by {
                    assert(g.arcs@[k].1 < n);
                    let d = g.dst(k) as usize;
                    assert(visited@[d as int]);
                    assert(queue@.contains(d));
                    let i = choose|i: int| 0 <= i < queue@.len() && queue@[i] == d;
                    assert(queue@[i] as int == g.dst(k));
                }
                lemma_closed_holds_ancestors(*g, visited@, t as int, p, x);
            }
        }
    }
    (visited, queue)
}


} // verus!

verus! {

/// Every prerequisite edge appears, by its endpoint indices, among the
/// prerequisite arcs of the first `m` edges once `m` passes it.
proof fn lemma_prereq_arc_listed(g: GraphData, m: int, k: int)
    requires
        0 <= k < m <= g.edges@.len(),
        g.edges@[k].relationship is Prerequisite,
    ensures
        prereq_arcs_upto(g, m).contains((g.src(k), g.dst(k))),
    decreases m,
{
    let pair = (g.src(k), g.dst(k));
    if k == m - 1 {
        let s = prereq_arcs_upto(g, m);
        assert(s[s.len() - 1] == pair);
    } else {
        lemma_prereq_arc_listed(g, m - 1, k);
        let s = prereq_arcs_upto(g, m - 1);
        let q = choose|q: int| 0 <= q < s.len() && #[trigger] s[q] == pair;
        if g.edges@[m - 1].relationship is Prerequisite {
            assert(prereq_arcs_upto(g, m)[q] == s[q]);
        }
    }
}

/// The marked nodes other than `t`, each once: in a topological order of
/// the prerequisite edges when there is one (second component `false`),
/// otherwise latest-discovered first (second component `true`).
fn learning_order(g: &GraphData, t: usize, visited: &Vec<bool>, found: &Vec<usize>) -> (r: (Vec<usize>, bool))
    requires
        g.wf(),
        t < g.nodes@.len(),
        visited@.len() == g.nodes@.len(),
        found@.no_duplicates(),
        forall|i: int| 0 <= i < found@.len() ==> (#[trigger] found@[i]) < g.nodes@.len() && visited@[found@[i] as int],
        forall|x: usize| x < g.nodes@.len() && #[trigger] visited@[x as int] ==> found@.contains(x),
    ensures
        r.1 == has_prerequisite_cycle(*g),
        r.0@.no_duplicates(),
        forall|i: int| 0 <= i < r.0@.len() ==> (#[trigger] r.0@[i]) < g.nodes@.len() && visited@[r.0@[i] as int] && r.0@[i] != t,
        forall|x: usize| x < g.nodes@.len() && x != t && #[trigger] visited@[x as int] ==> r.0@.contains(x),
        !r.1 ==> forall|k: int, i: int, j: int|
            #![trigger g.arcs@[k], r.0@[i], r.0@[j]]
            0 <= k < g.edges@.len() && g.edges@[k].relationship is Prerequisite && 0 <= i < r.0@.len() && 0
                <= j < r.0@.len() && r.0@[i] as int == g.src(k) && r.0@[j] as int == g.dst(k) ==> i < j,
{
    let n = g.nodes.len();
    let pg = prerequisite_arc_graph(g);
    let mut out: Vec<usize> = Vec::new();
    match arc_graph_toposort(&pg) {
        Some(order) => {
            let ghost arcs = arc_graph_arcs(pg);
            let ghost mut pos: Seq<int> = Seq::empty();
            let mut i: usize = 0;
            while i < order.len()
                invariant
                    n == g.nodes@.len(),
                    t < n,
                    visited@.len() == n,
                    is_topological_order(n as int, arcs, order@),
                    i <= order@.len(),
                    pos.len() == out@.len(),
                    forall|m: int| 0 <= m < pos.len() ==> 0 <= #[trigger] pos[m] < i && out@[m] == order@[pos[m]],
                    forall|m1: int, m2: int| 0 <= m1 < m2 < pos.len() ==> #[trigger] pos[m1] < #[trigger] pos[m2],
                    out@.no_duplicates(),
                    forall|m: int| 0 <= m < out@.len() ==> (#[trigger] out@[m]) < n && visited@[out@[m] as int] && out@[m] != t,
                    forall|p: int| 0 <= p < i && visited@[order@[p] as int] && order@[p] != t ==> out@.contains(#[trigger] order@[p]),
                decreases order.len() - i,
            {
                let v = order[i];
                if visited[v] && v != t {
                    let ghost old_out = out@;
                    out.push(v);
                    proof {
                        pos = pos.push(i as int);
                        assert(out@[out@.len() - 1] == v);
                        assert forall|m: int| 0 <= m < old_out.len() implies old_out[m] != v by {
                            assert(old_out[m] == order@[pos[m]]);
                            assert(pos[m] < i);
                        }
                        assert forall|p: int| 0 <= p < i + 1 && visited@[order@[p] as int] && order@[p] != t implies out@.contains(#[trigger] order@[p]) by {
                            if p < i {
                                let m = choose|m: int| 0 <= m < old_out.len() && old_out[m] == order@[p];
                                assert(out@[m] == order@[p]);
                            }
                        }
                    }
                }
                i = i + 1;
            }
            proof {
                assert forall|x: usize| x < n && x != t && #[trigger] visited@[x as int] implies out@.contains(x) by {
                    assert(order@.contains(x));
                    let p = choose|p: int| 0 <= p < order@.len() && order@[p] == x;
                    assert(out@.contains(order@[p]));
                }
                assert forall|k: int, a: int, b: int|
                    #![trigger g.arcs@[k], out@[a], out@[b]]
                    0 <= k < g.edges@.len() && g.edges@[k].relationship is Prerequisite && 0 <= a < out@.len() && 0
                        <= b < out@.len() && out@[a] as int == g.src(k) && out@[b] as int == g.dst(k) implies a < b by {
                    lemma_prereq_arc_listed(*g, g.edges@.len() as int, k);
                    let pa = prereq_arcs(*g);
                    let q = choose|q: int| 0 <= q < pa.len() && #[trigger] pa[q] == (g.src(k), g.dst(k));
                    assert(arcs[q] == (g.src(k), g.dst(k)));
                    assert(order@[pos[a]] == arcs[q].0 && order@[pos[b]] == arcs[q].1);
                    assert(pos[a] < pos[b]);
                    if a >= b {
                        if a > b {
                            assert(pos[b] < pos[a]);
                        }
                    }
                }
            }
            (out, false)
        },
        None => {
            let ghost mut pos: Seq<int> = Seq::empty();
            let mut idx: usize = found.len();
            while idx > 0
                invariant
                    n == g.nodes@.len(),
                    t < n,
                    visited@.len() == n,
                    found@.no_duplicates(),
                    forall|i: int| 0 <= i < found@.len() ==> (#[trigger] found@[i]) < n && visited@[found@[i] as int],
                    idx <= found@.len(),
                    pos.len() == out@.len(),
                    forall|m: int| 0 <= m < pos.len() ==> idx <= #[trigger] pos[m] < found@.len() && out@[m] == found@[pos[m]],
                    out@.no_duplicates(),
                    forall|m: int| 0 <= m < out@.len() ==> (#[trigger] out@[m]) < n && visited@[out@[m] as int] && out@[m] != t,
                    forall|q: int| idx <= q < found@.len() && found@[q] != t ==> out@.contains(#[trigger] found@[q]),
                decreases idx,
            {
                idx = idx - 1;
                let v = found[idx];
                if v != t {
                    let ghost old_out = out@;
                    out.push(v);
                    proof {
                        pos = pos.push(idx as int);
                        assert(out@[out@.len() - 1] == v);
                        assert forall|m: int| 0 <= m < old_out.len() implies old_out[m] != v by {
                            assert(old_out[m] == found@[pos[m]]);
                            assert(pos[m] != idx);
                        }
                        assert forall|q: int| idx <= q < found@.len() && found@[q] != t implies out@.contains(#[trigger] found@[q]) by {
                            if q > idx {
                                let m = choose|m: int| 0 <= m < old_out.len() && old_out[m] == found@[q];
                                assert(out@[m] == found@[q]);
                            }
                        }
                    }
                }
            }
            proof {
                assert forall|x: usize| x < n && x != t && #[trigger] visited@[x as int] implies out@.contains(x) by {
                    assert(found@.contains(x));
                    let q = choose|q: int| 0 <= q < found@.len() && found@[q] == x;
                    assert(out@.contains(found@[q]));
                }
            }
            (out, true)
        },
    }
}

/// Copies of the nodes at the given indices.
fn nodes_at(g: &GraphData, idx: &Vec<usize>) -> (r: Vec<Node>)
    requires
        forall|i: int| 0 <= i < idx@.len() ==> (#[trigger] idx@[i]) < g.nodes@.len(),
    ensures
        r@.len() == idx@.len(),
        forall|i: int| 0 <= i < idx@.len() ==> same_node(#[trigger] r@[i], g.nodes@[idx@[i] as int]),
{
    let mut r: Vec<Node> = Vec::new();
    let mut i: usize = 0;
    while i < idx.len()
        invariant
            i <= idx@.len(),
            r@.len() == i,
            forall|j: int| 0 <= j < idx@.len() ==> (#[trigger] idx@[j]) < g.nodes@.len(),
            forall|j: int| 0 <= j < i ==> same_node(#[trigger] r@[j], g.nodes@[idx@[j] as int]),
        decreases idx.len() - i,
    {
        r.push(g.nodes[idx[i]].clone());
        i = i + 1;
    }
    r
}

/// The pieces computed by `prerequisites_sorted` make a correct answer.
proof fn lemma_answer(g: GraphData, t: int, visited: Seq<bool>, order: Seq<usize>, res: PrerequisitesResult)
    requires
        g.wf(),
        0 <= t < g.nodes@.len(),
        visited.len() == g.nodes@.len(),
        forall|x: int| 0 <= x < g.nodes@.len() && x != t ==> (#[trigger] visited[x] <==> prereq_ancestor(g, x, t)),
        res.has_cycles == has_prerequisite_cycle(g),
        same_node(res.target, g.nodes@[t]),
        order.no_duplicates(),
        forall|i: int| 0 <= i < order.len() ==> (#[trigger] order[i]) < g.nodes@.len() && visited[order[i] as int] && order[i] != t,
        forall|x: usize| x < g.nodes@.len() && x != t && #[trigger] visited[x as int] ==> order.contains(x),
        !res.has_cycles ==> forall|k: int, i: int, j: int|
            #![trigger g.arcs@[k], order[i], order[j]]
            0 <= k < g.edges@.len() && g.edges@[k].relationship is Prerequisite && 0 <= i < order.len() && 0
                <= j < order.len() && order[i] as int == g.src(k) && order[j] as int == g.dst(k) ==> i < j,
        res.ordered@.len() == order.len(),
        forall|i: int| 0 <= i < order.len() ==> same_node(#[trigger] res.ordered@[i], g.nodes@[order[i] as int]),
    ensures
        prereq_answer(g, t, res),
{
    let ps = res.ordered@;
    assert forall|i: int| 0 <= i < ps.len() implies #[trigger] listed_ancestor(g, t, ps[i]) by {
        let x = order[i] as int;
        assert(visited[x]);
        assert(prereq_ancestor(g, x, t));
        assert(same_node(ps[i], g.nodes@[x]));
    }
    assert forall|x: int| 0 <= x < g.nodes@.len() && x != t && #[trigger] prereq_ancestor(g, x, t) implies exists|i: int|
        0 <= i < ps.len() && (#[trigger] ps[i]).id@ == g.nodes@[x].id@ by {
        assert(visited[x]);
        assert(visited[(x as usize) as int]);
        assert(order.contains(x as usize));
        let i = choose|i: int| 0 <= i < order.len() && order[i] == x as usize;
        assert(same_node(ps[i], g.nodes@[order[i] as int]));
    }
    assert forall|i: int, j: int| 0 <= i < ps.len() && 0 <= j < ps.len() && i != j implies (#[trigger] ps[i]).id@ != (#[trigger] ps[j]).id@ by {
        assert(same_node(ps[i], g.nodes@[order[i] as int]));
        assert(same_node(ps[j], g.nodes@[order[j] as int]));
        assert(order[i] != order[j]);
    }
    if !res.has_cycles {
        assert forall|k: int, i: int, j: int|
            #![trigger g.edges@[k], ps[i], ps[j]]
            0 <= k < g.edges@.len() && g.edges@[k].relationship is Prerequisite && 0 <= i < ps.len() && 0 <= j
                < ps.len() && ps[i].id@ == g.edges@[k].from@ && ps[j].id@ == g.edges@[k].to@ implies i < j by {
            assert(g.arcs@[k].0 < g.nodes@.len() && g.arcs@[k].1 < g.nodes@.len());
            assert(same_node(ps[i], g.nodes@[order[i] as int]));
            assert(same_node(ps[j], g.nodes@[order[j] as int]));
            if order[i] as int != g.src(k) {
                assert(g.nodes@[order[i] as int].id@ != g.nodes@[g.src(k)].id@);
            }
            if order[j] as int != g.dst(k) {
                assert(g.nodes@[order[j] as int].id@ != g.nodes@[g.dst(k)].id@);
            }
        }
    }
}

/// The transitive prerequisites of `id` in learning order. Fails with
/// `NotFound` when `id` is absent. `has_cycles` reports a cycle among the
/// prerequisite edges; without one, every prerequisite comes before each
/// node that depends on it.
pub fn prerequisites_sorted(graph: &GraphData, id: &str) -> (r: Result<PrerequisitesResult, GraphError>)
    requires
        graph.wf(),
    ensures
        r is Err <==> !graph.has_id(id@),
        r matches Err(e) ==> e is NotFound,
        r matches Ok(res) ==> prereq_answer(*graph, graph.index_of(id@), res),
{
    let t = match graph.get_index(id) {
        Some(i) => i,
        None => {
            return Err(GraphError::NotFound(id.to_owned()));
        },
    };
    let (visited, found) = mark_ancestors(graph, t);
    let (order, has_cycles) = learning_order(graph, t, &visited, &found);
    let ordered = nodes_at(graph, &order);
    let res = PrerequisitesResult { target: graph.nodes[t].clone(), ordered, has_cycles };
    proof {
        assert(graph.index_of(id@) == t as int);
        lemma_answer(*graph, t as int, visited@, order@, res);
    }
    Ok(res)
}

} // verus!
