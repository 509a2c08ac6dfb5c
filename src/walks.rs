//! Walks through a graph, as sequences of edge indices, and facts about
//! their weights.

use vstd::prelude::*;
use crate::graph::GraphData;

verus! {

/// `p` lists edge indices that lead, head to tail, from node `s` to node
/// `t`; the empty walk stays at `s`.
pub open spec fn is_walk(g: GraphData, p: Seq<int>, s: int, t: int) -> bool {
    if p.len() == 0 {
        s == t
    } else {
        &&& forall|i: int| 0 <= i < p.len() ==> 0 <= #[trigger] p[i] < g.edges@.len()
        &&& g.src(p[0]) == s
        &&& g.dst(p.last()) == t
        &&& forall|i: int| 0 <= i < p.len() - 1 ==> g.dst(#[trigger] p[i]) == g.src(p[i + 1])
    }
}

/// Sum of the weights of the edges of `p`.
pub open spec fn walk_weight(g: GraphData, p: Seq<int>) -> int
    decreases p.len(),
{
    if p.len() == 0 {
        0
    } else {
        walk_weight(g, p.drop_last()) + g.edges@[p.last()].weight
    }
}

/// Node `t` can be reached from node `s` along directed edges.
pub open spec fn reachable(g: GraphData, s: int, t: int) -> bool {
    exists|p: Seq<int>| #[trigger] is_walk(g, p, s, t)
}

/// Extending a walk by an edge that leaves its end gives a walk.
pub proof fn lemma_walk_push(g: GraphData, p: Seq<int>, s: int, t: int, k: int)
    requires
        is_walk(g, p, s, t),
        0 <= k < g.edges@.len(),
        g.src(k) == t,
    ensures
        is_walk(g, p.push(k), s, g.dst(k)),
        walk_weight(g, p.push(k)) == walk_weight(g, p) + g.edges@[k].weight,
{
    assert(p.push(k).drop_last() =~= p);
    if p.len() > 0 {
        assert forall|i: int| 0 <= i < p.push(k).len() - 1 implies g.dst(#[trigger] p.push(k)[i]) == g.src(
            p.push(k)[i + 1],
        ) by {
            if i < p.len() - 1 {
                assert(p.push(k)[i] == p[i] && p.push(k)[i + 1] == p[i + 1]);
            }
        }
    }
}

/// A prefix of a walk is a walk to the source of the next edge.
pub proof fn lemma_walk_prefix(g: GraphData, p: Seq<int>, s: int, t: int, j: int)
    requires
        is_walk(g, p, s, t),
        0 <= j < p.len(),
    ensures
        is_walk(g, p.subrange(0, j), s, g.src(p[j])),
{
    let q = p.subrange(0, j);
    if j > 0 {
        assert(q.last() == p[j - 1]);
        assert forall|i: int| 0 <= i < q.len() - 1 implies g.dst(#[trigger] q[i]) == g.src(q[i + 1]) by {
            assert(q[i] == p[i] && q[i + 1] == p[i + 1]);
        }
        assert forall|i: int| 0 <= i < q.len() implies 0 <= #[trigger] q[i] < g.edges@.len() by {
            assert(q[i] == p[i]);
        }
    }
}

/// Dropping edges from the end of a walk does not increase its weight.
pub proof fn lemma_weight_prefix(g: GraphData, p: Seq<int>, j: int)
    requires
        0 <= j <= p.len(),
    ensures
        walk_weight(g, p.subrange(0, j)) <= walk_weight(g, p),
        j < p.len() ==> walk_weight(g, p.subrange(0, j + 1)) == walk_weight(g, p.subrange(0, j))
            + g.edges@[p[j]].weight,
    decreases p.len() - j,
{
    if j < p.len() {
        assert(p.subrange(0, j + 1).drop_last() =~= p.subrange(0, j));
        lemma_weight_prefix(g, p, j + 1);
    } else {
        assert(p.subrange(0, j) =~= p);
    }
}

/// A walk of `m` edges weighs at most `m` times the largest edge weight.
pub proof fn lemma_weight_bound(g: GraphData, p: Seq<int>)
    ensures
        walk_weight(g, p) <= p.len() * (u32::MAX as int),
    decreases p.len(),
{
    if p.len() > 0 {
        lemma_weight_bound(g, p.drop_last());
    }
}

} // verus!
