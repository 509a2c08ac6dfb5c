//! Reachability in the undirected view of a graph, optionally ignoring one
//! edge and optionally restricted to one relationship.

use vstd::prelude::*;
use crate::graph::GraphData;
use crate::shortest::{count_false, lemma_all_false, lemma_count_false_bound, lemma_count_false_set};
use crate::types::{same_relationship, Relationship};

verus! {

/// Edge `k` passes the filter: no filter, or the same relationship.
pub open spec fn admits(g: GraphData, filter: Option<Relationship>, k: int) -> bool {
    match filter {
        None => true,
        Some(r) => same_relationship(g.edges@[k].relationship, r),
    }
}

/// Edge `k` joins nodes `a` and `b`, in either direction.
pub open spec fn joins(g: GraphData, k: int, a: int, b: int) -> bool {
    (g.src(k) == a && g.dst(k) == b) || (g.dst(k) == a && g.src(k) == b)
}

/// Some admitted edge other than `skip` joins `a` and `b`.
pub open spec fn linked(g: GraphData, a: int, b: int, skip: int, filter: Option<Relationship>) -> bool {
    exists|k: int| 0 <= k < g.edges@.len() && k != skip && admits(g, filter, k) && #[trigger] joins(g, k, a, b)
}

/// `ns` lists nodes from `x` to `y`, each linked to the next.
pub open spec fn is_uwalk(g: GraphData, ns: Seq<int>, x: int, y: int, skip: int, filter: Option<Relationship>) -> bool {
    &&& ns.len() >= 1
    &&& ns[0] == x
    &&& ns.last() == y
    &&& forall|i: int| 0 <= i < ns.len() - 1 ==> #[trigger] linked(g, ns[i], ns[i + 1], skip, filter)
}

/// `y` can be reached from `x` in the undirected view, through admitted
/// edges other than `skip`.
pub open spec fn connected(g: GraphData, x: int, y: int, skip: int, filter: Option<Relationship>) -> bool {
    exists|ns: Seq<int>| #[trigger] is_uwalk(g, ns, x, y, skip, filter)
}

proof fn lemma_uwalk_push(g: GraphData, ns: Seq<int>, x: int, y: int, z: int, skip: int, f: Option<Relationship>)
    requires
        is_uwalk(g, ns, x, y, skip, f),
        linked(g, y, z, skip, f),
    ensures
        is_uwalk(g, ns.push(z), x, z, skip, f),
{
    let m = ns.push(z);
    assert forall|i: int| 0 <= i < m.len() - 1 implies #[trigger] linked(g, m[i], m[i + 1], skip, f) by {
        if i < ns.len() - 1 {
            assert(m[i] == ns[i] && m[i + 1] == ns[i + 1]);
        } else {
            assert(m[i] == y && m[i + 1] == z);
        }
    }
}

/// A set that holds `x` and, with each member, every node linked to it,
/// holds every node of a walk from `x`.
proof fn lemma_closed_holds_walk(
    g: GraphData,
    visited: Seq<bool>,
    ns: Seq<int>,
    x: int,
    y: int,
    skip: int,
    f: Option<Relationship>,
)
    requires
        g.wf(),
        visited.len() == g.nodes@.len(),
        0 <= x < visited.len(),
        visited[x],
        forall|k: int|
            #![trigger g.arcs@[k]]
            0 <= k < g.edges@.len() && k != skip && admits(g, f, k) ==> (visited[g.src(k)] <==> visited[g.dst(k)]),
        is_uwalk(g, ns, x, y, skip, f),
    ensures
        visited[y],
    decreases ns.len(),
{
    if ns.len() > 1 {
        let p = ns.drop_last();
        assert forall|i: int| 0 <= i < p.len() - 1 implies #[trigger] linked(g, p[i], p[i + 1], skip, f) by {
            assert(p[i] == ns[i] && p[i + 1] == ns[i + 1]);
            assert(linked(g, ns[i], ns[i + 1], skip, f));
        }
        assert(is_uwalk(g, p, x, p.last(), skip, f));
        lemma_closed_holds_walk(g, visited, p, x, p.last(), skip, f);
        let last = ns.len() - 2;
        assert(linked(g, ns[last], ns[last + 1], skip, f));
        let k = choose|k: int|
            0 <= k < g.edges@.len() && k != skip && admits(g, f, k) && #[trigger] joins(g, k, ns[last], ns[last + 1]);
        assert(g.arcs@[k].0 == g.src(k) && (visited[g.src(k)] <==> visited[g.dst(k)]));
    }
}




/// Whether edge `k` passes the filter.
fn admitted(g: &GraphData, filter: &Option<Relationship>, k: usize) -> (r: bool)
    requires
        k < g.edges@.len(),
    ensures
        r == admits(*g, *filter, k as int),
{
    match filter {
        None => true,
        Some(rel) => g.edges[k].relationship == *rel,
    }
}

/// Marks every node connected to `x` through admitted edges other than
/// `skip`.
pub fn connected_from(g: &GraphData, x: usize, skip: usize, filter: &Option<Relationship>) -> (r: Vec<bool>)
    requires
        g.wf(),
        x < g.nodes@.len(),
    ensures
        r@.len() == g.nodes@.len(),
        forall|y: int| 0 <= y < g.nodes@.len() ==> (#[trigger] r@[y] <==> connected(*g, x as int, y, skip as int, *filter)),
{
    let n = g.nodes.len();
    let ghost f = *filter;
    let ghost sk = skip as int;
    let mut visited: Vec<bool> = Vec::new();
    let mut i: usize = 0;
    while i < n
        invariant
            i <= n,
            visited@.len() == i,
            forall|j: int| 0 <= j < i ==> (#[trigger] visited@[j] <==> j == x),
        decreases n - i,
    {
        visited.push(i == x);
        i = i + 1;
    }
    let mut queue: Vec<usize> = Vec::new();
    queue.push(x);
    let ghost mut wit: Seq<Seq<int>> = Seq::new(n as nat, |v: int| seq![x as int]);
    proof {
        let all = Seq::new(n as nat, |v: int| false);
        lemma_all_false(all);
        assert(visited@ =~= all.update(x as int, true));
        lemma_count_false_set(all, x as int);
        assert(queue@[0] == x);
        assert forall|v: usize| v < n && #[trigger] visited@[v as int] implies queue@.contains(v) by {
            assert(v == x);
        }
        assert(is_uwalk(*g, wit[x as int], x as int, x as int, sk, f));
    }
    let mut head: usize = 0;
    while head < queue.len()
        invariant
            g.wf(),
            n == g.nodes@.len(),
            x < n,
            f == *filter,
            sk == skip as int,
            visited@.len() == n,
            wit.len() == n,
            visited@[x as int],
            head <= queue@.len(),
            queue@.len() + count_false(visited@) == n,
            queue@.no_duplicates(),
            forall|i: int| 0 <= i < queue@.len() ==> (#[trigger] queue@[i]) < n && visited@[queue@[i] as int],
            forall|v: usize| v < n && #[trigger] visited@[v as int] ==> queue@.contains(v),
            forall|v: int| 0 <= v < n && #[trigger] visited@[v] ==> is_uwalk(*g, wit[v], x as int, v, sk, f),
            forall|k: int|
                #![trigger g.arcs@[k]]
                0 <= k < g.edges@.len() && k != sk && admits(*g, f, k) && (exists|i: int|
                    0 <= i < head && (queue@[i] as int == g.dst(k) || queue@[i] as int == g.src(k)))
                    ==> visited@[g.src(k)] && visited@[g.dst(k)],
        decreases n - head,
    {
        proof {
            lemma_count_false_bound(visited@);
        }
        let u = queue[head];
        let mut k: usize = 0;
        while k < g.edges.len()
            invariant
                g.wf(),
                n == g.nodes@.len(),
                x < n,
                f == *filter,
                sk == skip as int,
                visited@.len() == n,
                wit.len() == n,
                visited@[x as int],
                head < queue@.len(),
                u == queue@[head as int],
                k <= g.edges@.len(),
                queue@.len() + count_false(visited@) == n,
                queue@.no_duplicates(),
                forall|i: int| 0 <= i < queue@.len() ==> (#[trigger] queue@[i]) < n && visited@[queue@[i] as int],
                forall|v: usize| v < n && #[trigger] visited@[v as int] ==> queue@.contains(v),
                forall|v: int| 0 <= v < n && #[trigger] visited@[v] ==> is_uwalk(*g, wit[v], x as int, v, sk, f),
                forall|kk: int|
                    #![trigger g.arcs@[kk]]
                    0 <= kk < g.edges@.len() && kk != sk && admits(*g, f, kk) && ((exists|i: int|
                        0 <= i < head && (queue@[i] as int == g.dst(kk) || queue@[i] as int == g.src(kk))) || (kk < k
                        && (g.dst(kk) == u || g.src(kk) == u))) ==> visited@[g.src(kk)] && visited@[g.dst(kk)],
            decreases g.edges.len() - k,
        {
            let (a, b) = g.arcs[k];
            proof {
                assert(g.arcs@[k as int].0 < n && g.arcs@[k as int].1 < n);
            }
            if k != skip && admitted(g, filter, k) && (a == u || b == u) {
                let other = if a == u { b } else { a };
                if !visited[other] {
                    proof {
                        assert(joins(*g, k as int, u as int, other as int));
                        assert(linked(*g, u as int, other as int, sk, f));
                        lemma_uwalk_push(*g, wit[u as int], x as int, u as int, other as int, sk, f);
                        lemma_count_false_set(visited@, other as int);
                        wit = wit.update(other as int, wit[u as int].push(other as int));
                    }
                    let ghost old_queue = queue@;
                    visited.set(other, true);
                    queue.push(other);
                    proof {
                        assert(queue@[queue@.len() - 1] == other);
                        assert forall|v: usize| v < n && #[trigger] visited@[v as int] implies queue@.contains(v) by {
                            if v != other {
                                assert(old_queue.contains(v));
                                let i = choose|i: int| 0 <= i < old_queue.len() && old_queue[i] == v;
                                assert(queue@[i] == v);
                            }
                        }
                        assert forall|kk: int|
                            #![trigger g.arcs@[kk]]
                            0 <= kk < g.edges@.len() && kk != sk && admits(*g, f, kk) && ((exists|i: int|
                                0 <= i < head && (queue@[i] as int == g.dst(kk) || queue@[i] as int == g.src(kk))) || (kk
                                < k + 1 && (g.dst(kk) == u || g.src(kk) == u))) implies visited@[g.src(kk)]
                            && visited@[g.dst(kk)] by {
                            if exists|i: int| 0 <= i < head && (queue@[i] as int == g.dst(kk) || queue@[i] as int == g.src(kk)) {
                                let i = choose|i: int| 0 <= i < head && (queue@[i] as int == g.dst(kk) || queue@[i] as int == g.src(kk));
                                assert(old_queue[i] == queue@[i]);
                            }
                        }
                        assert(queue@.no_duplicates()) by {
                            assert forall|i: int, j: int| 0 <= i < j < queue@.len() implies queue@[i] != queue@[j] by {
                                if j < queue@.len() - 1 {
                                    assert(old_queue[i] == queue@[i] && old_queue[j] == queue@[j]);
                                }
                            }
                        }
                    }
                }
            }
            k = k + 1;
        }
        proof {
            assert forall|kk: int|
                #![trigger g.arcs@[kk]]
                0 <= kk < g.edges@.len() && kk != sk && admits(*g, f, kk) && (exists|i: int|
                    0 <= i < head + 1 && (queue@[i] as int == g.dst(kk) || queue@[i] as int == g.src(kk))) implies visited@[g.src(
                kk,
            )] && visited@[g.dst(kk)] by {
                let i = choose|i: int| 0 <= i < head + 1 && (queue@[i] as int == g.dst(kk) || queue@[i] as int == g.src(kk));
                if i == head as int {
                    assert(g.dst(kk) == u || g.src(kk) == u);
                }
            }
        }
        head = head + 1;
    }
    proof {
        assert forall|y: int| 0 <= y < n implies (#[trigger] visited@[y] <==> connected(*g, x as int, y, sk, f)) by {
            if visited@[y] {
                assert(is_uwalk(*g, wit[y], x as int, y, sk, f));
            }
            if connected(*g, x as int, y, sk, f) {
                let ns = choose|ns: Seq<int>| #[trigger] is_uwalk(*g, ns, x as int, y, sk, f);
                assert forall|k: int|
                    #![trigger g.arcs@[k]]
                    0 <= k < g.edges@.len() && k != sk && admits(*g, f, k) implies (visited@[g.src(k)] <==> visited@[g.dst(k)]) by {
                    assert(g.arcs@[k].0 < n && g.arcs@[k].1 < n);
                    let s = g.src(k) as usize;
                    let d = g.dst(k) as usize;
                    if visited@[s as int] {
                        assert(queue@.contains(s));
                        let i = choose|i: int| 0 <= i < queue@.len() && queue@[i] == s;
                        assert(queue@[i] as int == g.src(k));
                    }
                    if visited@[d as int] {
                        assert(queue@.contains(d));
                        let i = choose|i: int| 0 <= i < queue@.len() && queue@[i] == d;
                        assert(queue@[i] as int == g.dst(k));
                    }
                }
                lemma_closed_holds_walk(*g, visited@, ns, x as int, y, sk, f);
            }
        }
    }
    visited
}

/// Edge `k` is a bridge: it joins two distinct nodes that no other path
/// in the undirected view connects.
pub open spec fn is_bridge(g: GraphData, k: int) -> bool {
    g.src(k) != g.dst(k) && !connected(g, g.src(k), g.dst(k), k, None)
}

/// `r` copies, in edge order, exactly the bridges of `g`, whose indices
/// are `ks`.
pub open spec fn lists_bridges(g: GraphData, ks: Seq<int>, r: Seq<crate::types::Edge>) -> bool {
    &&& ks.len() == r.len()
    &&& forall|i: int, j: int| 0 <= i < j < ks.len() ==> #[trigger] ks[i] < #[trigger] ks[j]
    &&& forall|i: int| 0 <= i < ks.len() ==> 0 <= #[trigger] ks[i] < g.edges@.len() && is_bridge(g, ks[i]) && r[i] == g.edges@[ks[i]]
    &&& forall|k: int| 0 <= k < g.edges@.len() && #[trigger] is_bridge(g, k) ==> ks.contains(k)
}

/// The edges whose removal would disconnect their endpoints, in edge order.
pub fn find_bridges(graph: &GraphData) -> (r: Vec<crate::types::Edge>)
    requires
        graph.wf(),
    ensures
        exists|ks: Seq<int>| #[trigger] lists_bridges(*graph, ks, r@),
{
    let mut r: Vec<crate::types::Edge> = Vec::new();
    let ghost mut ks: Seq<int> = Seq::empty();
    let none: Option<Relationship> = None;
    let mut k: usize = 0;
    while k < graph.edges.len()
        invariant
            graph.wf(),
            none is None,
            k <= graph.edges@.len(),
            ks.len() == r@.len(),
            forall|i: int, j: int| 0 <= i < j < ks.len() ==> #[trigger] ks[i] < #[trigger] ks[j],
            forall|i: int| 0 <= i < ks.len() ==> 0 <= #[trigger] ks[i] < k && is_bridge(*graph, ks[i]) && r@[i] == graph.edges@[ks[i]],
            forall|kk: int| 0 <= kk < k && #[trigger] is_bridge(*graph, kk) ==> ks.contains(kk),
        decreases graph.edges.len() - k,
    {
        let (a, b) = graph.arcs[k];
        proof {
            assert(graph.arcs@[k as int].0 < graph.nodes@.len() && graph.arcs@[k as int].1 < graph.nodes@.len());
        }
        let bridge = if a == b {
            false
        } else {
            let reach = connected_from(graph, a, k, &none);
            !reach[b]
        };
        let ghost old_ks = ks;
        if bridge {
            r.push(graph.edges[k].clone());
            proof {
                ks = ks.push(k as int);
            }
        }
        proof {
            assert(bridge == is_bridge(*graph, k as int));
            assert forall|kk: int| 0 <= kk < k + 1 && #[trigger] is_bridge(*graph, kk) implies ks.contains(kk) by {
                if kk < k {
                    let i = choose|i: int| 0 <= i < old_ks.len() && old_ks[i] == kk;
                    assert(ks[i] == kk);
                } else {
                    assert(ks[ks.len() - 1] == kk);
                }
            }
        }
        k = k + 1;
    }
    proof {
        assert(lists_bridges(*graph, ks, r@));
    }
    r
}

} // verus!

verus! {

/// Node `v` is at most `d` hops from `c` through admitted edges.
pub open spec fn within(g: GraphData, c: int, v: int, d: int, f: Option<Relationship>) -> bool {
    exists|ns: Seq<int>| #[trigger] is_uwalk(g, ns, c, v, -1, f) && ns.len() <= d + 1
}

/// Node `v` is exactly `d` hops from `c`.
pub open spec fn hops(g: GraphData, c: int, v: int, d: int, f: Option<Relationship>) -> bool {
    within(g, c, v, d, f) && (d == 0 || !within(g, c, v, d - 1, f))
}

proof fn lemma_within_zero(g: GraphData, c: int, v: int, f: Option<Relationship>)
    requires
        within(g, c, v, 0, f),
    ensures
        v == c,
{
    let ns = choose|ns: Seq<int>| #[trigger] is_uwalk(g, ns, c, v, -1, f) && ns.len() <= 1;
    assert(ns.last() == ns[0]);
}

proof fn lemma_within_step(g: GraphData, c: int, u: int, v: int, d: int, f: Option<Relationship>)
    requires
        within(g, c, u, d, f),
        linked(g, u, v, -1, f),
    ensures
        within(g, c, v, d + 1, f),
{
    let ns = choose|ns: Seq<int>| #[trigger] is_uwalk(g, ns, c, u, -1, f) && ns.len() <= d + 1;
    lemma_uwalk_push(g, ns, c, u, v, -1, f);
    assert(is_uwalk(g, ns.push(v), c, v, -1, f));
}

/// A node within `d + 1` hops but not within `d` is linked to a node
/// within `d` hops: the second-to-last node of its walk.
proof fn lemma_within_last_step(g: GraphData, c: int, v: int, d: int, f: Option<Relationship>) -> (u: int)
    requires
        0 <= d,
        within(g, c, v, d + 1, f),
        !within(g, c, v, d, f),
    ensures
        within(g, c, u, d, f),
        linked(g, u, v, -1, f),
{
    let ns = choose|ns: Seq<int>| #[trigger] is_uwalk(g, ns, c, v, -1, f) && ns.len() <= d + 2;
    if ns.len() <= d + 1 {
        assert(within(g, c, v, d, f));
    }
    let p = ns.drop_last();
    let i = ns.len() - 2;
    assert(linked(g, ns[i], ns[i + 1], -1, f));
    assert forall|j: int| 0 <= j < p.len() - 1 implies #[trigger] linked(g, p[j], p[j + 1], -1, f) by {
        assert(p[j] == ns[j] && p[j + 1] == ns[j + 1]);
        assert(linked(g, ns[j], ns[j + 1], -1, f));
    }
    assert(is_uwalk(g, p, c, ns[i], -1, f));
    ns[i]
}

/// Hop distances from `c` within `radius`, through admitted edges.
fn hop_distances(g: &GraphData, c: usize, radius: usize, filter: &Option<Relationship>) -> (r: Vec<Option<usize>>)
    requires
        g.wf(),
        c < g.nodes@.len(),
    ensures
        r@.len() == g.nodes@.len(),
        forall|v: int| 0 <= v < g.nodes@.len() ==> (#[trigger] r@[v] matches Some(d) ==> d <= radius && hops(*g, c as int, v, d as int, *filter)),
        forall|v: int| 0 <= v < g.nodes@.len() && #[trigger] within(*g, c as int, v, radius as int, *filter) ==> r@[v] is Some,
{
    let n = g.nodes.len();
    let ghost f = *filter;
    let ghost gg = *g;
    let mut dist: Vec<Option<usize>> = Vec::new();
    let mut i: usize = 0;
    while i < n
        invariant
            i <= n,
            dist@.len() == i,
            forall|j: int| 0 <= j < i ==> #[trigger] dist@[j] == if j == c { Some(0usize) } else { None },
        decreases n - i,
    {
        dist.push(if i == c { Some(0) } else { None });
        i = i + 1;
    }
    let mut frontier: Vec<usize> = Vec::new();
    frontier.push(c);
    proof {
        assert(is_uwalk(gg, seq![c as int], c as int, c as int, -1, f));
        assert(within(gg, c as int, c as int, 0, f));
        assert forall|v: int| 0 <= v < n && #[trigger] within(gg, c as int, v, 0, f) implies dist@[v] is Some by {
            lemma_within_zero(gg, c as int, v, f);
        }
        assert(frontier@[0] == c);
        assert forall|v: usize| v < n && #[trigger] dist@[v as int] == Some(0usize) implies frontier@.contains(v) by {
            assert(v == c);
        }
        assert forall|v: int| 0 <= v < n implies (#[trigger] dist@[v] matches Some(d) ==> d <= 0 && hops(gg, c as int, v, d as int, f)) by {
            if v == c as int {
                assert(hops(gg, c as int, v, 0, f));
            }
        }
    }
    let mut level: usize = 0;
    while level < radius && frontier.len() > 0
        invariant
            gg == *g,
            f == *filter,
            g.wf(),
            n == g.nodes@.len(),
            c < n,
            level <= radius,
            dist@.len() == n,
            forall|v: int| 0 <= v < n ==> (#[trigger] dist@[v] matches Some(d) ==> d <= level && hops(gg, c as int, v, d as int, f)),
            forall|v: int| 0 <= v < n && #[trigger] within(gg, c as int, v, level as int, f) ==> dist@[v] is Some,
            forall|i: int| 0 <= i < frontier@.len() ==> (#[trigger] frontier@[i]) < n && dist@[frontier@[i] as int] == Some(level),
            forall|v: usize| v < n && #[trigger] dist@[v as int] == Some(level) ==> frontier@.contains(v),
        decreases radius - level,
    {
        let mut next: Vec<usize> = Vec::new();
        let mut fi: usize = 0;
        while fi < frontier.len()
            invariant
                gg == *g,
                f == *filter,
                g.wf(),
                n == g.nodes@.len(),
                c < n,
                level < radius,
                dist@.len() == n,
                fi <= frontier@.len(),
                forall|v: int| 0 <= v < n ==> (#[trigger] dist@[v] matches Some(d) ==> d <= level + 1 && hops(gg, c as int, v, d as int, f)),
                forall|v: int| 0 <= v < n && #[trigger] within(gg, c as int, v, level as int, f) ==> dist@[v] is Some,
                forall|i: int| 0 <= i < frontier@.len() ==> (#[trigger] frontier@[i]) < n && dist@[frontier@[i] as int] == Some(level),
                forall|v: usize| v < n && #[trigger] dist@[v as int] == Some(level) ==> frontier@.contains(v),
                forall|i: int| 0 <= i < next@.len() ==> (#[trigger] next@[i]) < n && dist@[next@[i] as int] == Some((level + 1) as usize),
                forall|v: usize| v < n && #[trigger] dist@[v as int] == Some((level + 1) as usize) ==> next@.contains(v),
                forall|i: int, v: int| 0 <= i < fi && 0 <= v < n && #[trigger] linked(gg, frontier@[i] as int, v, -1, f) ==> dist@[v] is Some,
            decreases frontier.len() - fi,
        {
            let u = frontier[fi];
            let mut k: usize = 0;
            while k < g.edges.len()
                invariant
                    gg == *g,
                    f == *filter,
                    g.wf(),
                    n == g.nodes@.len(),
                    c < n,
                    level < radius,
                    dist@.len() == n,
                    fi < frontier@.len(),
                    u == frontier@[fi as int],
                    k <= g.edges@.len(),
                    forall|v: int| 0 <= v < n ==> (#[trigger] dist@[v] matches Some(d) ==> d <= level + 1 && hops(gg, c as int, v, d as int, f)),
                    forall|v: int| 0 <= v < n && #[trigger] within(gg, c as int, v, level as int, f) ==> dist@[v] is Some,
                    forall|i: int| 0 <= i < frontier@.len() ==> (#[trigger] frontier@[i]) < n && dist@[frontier@[i] as int] == Some(level),
                    forall|v: usize| v < n && #[trigger] dist@[v as int] == Some(level) ==> frontier@.contains(v),
                    forall|i: int| 0 <= i < next@.len() ==> (#[trigger] next@[i]) < n && dist@[next@[i] as int] == Some((level + 1) as usize),
                    forall|v: usize| v < n && #[trigger] dist@[v as int] == Some((level + 1) as usize) ==> next@.contains(v),
                    forall|i: int, v: int| 0 <= i < fi && 0 <= v < n && #[trigger] linked(gg, frontier@[i] as int, v, -1, f) ==> dist@[v] is Some,
                    forall|kk: int, v: int|
                        0 <= kk < k && 0 <= v < n && admits(gg, f, kk) && #[trigger] joins(gg, kk, u as int, v) ==> dist@[v] is Some,
                decreases g.edges.len() - k,
            {
                let (a, b) = g.arcs[k];
                proof {
                    assert(g.arcs@[k as int].0 < n && g.arcs@[k as int].1 < n);
                }
                if admitted(g, filter, k) && (a == u || b == u) {
                    let w = if a == u { b } else { a };
                    if dist[w].is_none() {
                        proof {
                            assert(joins(gg, k as int, u as int, w as int));
                            assert(linked(gg, u as int, w as int, -1, f));
                            assert(within(gg, c as int, u as int, level as int, f));
                            lemma_within_step(gg, c as int, u as int, w as int, level as int, f);
                            assert(!within(gg, c as int, w as int, level as int, f));
                        }
                        let ghost old_next = next@;
                        dist.set(w, Some(level + 1));
                        next.push(w);
                        proof {
                            assert forall|v: usize| v < n && #[trigger] dist@[v as int] == Some((level + 1) as usize) implies next@.contains(v) by {
                                if v == w {
                                    assert(next@[next@.len() - 1] == w);
                                } else {
                                    let i = choose|i: int| 0 <= i < old_next.len() && old_next[i] == v;
                                    assert(next@[i] == v);
                                }
                            }
                            assert forall|i: int| 0 <= i < frontier@.len() implies (#[trigger] frontier@[i]) < n && dist@[frontier@[i] as int] == Some(level) by {
                                assert(frontier@[i] != w);
                            }
                        }
                    }
                }
                proof {
                    assert forall|kk: int, v: int|
                        0 <= kk < k + 1 && 0 <= v < n && admits(gg, f, kk) && #[trigger] joins(gg, kk, u as int, v) implies dist@[v] is Some by {
                        if kk == k as int {
                            assert(g.arcs@[kk] == (a, b));
                        }
                    }
                }
                k = k + 1;
            }
            proof {
                assert forall|i: int, v: int| 0 <= i < fi + 1 && 0 <= v < n && #[trigger] linked(gg, frontier@[i] as int, v, -1, f) implies dist@[v] is Some by {
                    if i == fi as int {
                        let kk = choose|kk: int| 0 <= kk < gg.edges@.len() && kk != -1 && admits(gg, f, kk) && #[trigger] joins(gg, kk, frontier@[i] as int, v);
                    }
                }
            }
            fi = fi + 1;
        }
        proof {
            assert forall|v: int| 0 <= v < n && #[trigger] within(gg, c as int, v, level + 1, f) implies dist@[v] is Some by {
                if !within(gg, c as int, v, level as int, f) {
                    let u = lemma_within_last_step(gg, c as int, v, level as int, f);
                    assert(0 <= u < n) by {
                        let kk = choose|kk: int| 0 <= kk < gg.edges@.len() && kk != -1 && admits(gg, f, kk) && #[trigger] joins(gg, kk, u, v);
                        assert(gg.arcs@[kk].0 < n && gg.arcs@[kk].1 < n);
                    }
                    assert(dist@[u] is Some);
                    let du = dist@[u].unwrap();
                    if (du as int) < level as int {
                        lemma_within_step(gg, c as int, u, v, du as int, f);
                        assert(within(gg, c as int, v, level as int, f)) by {
                            let ns = choose|ns: Seq<int>| #[trigger] is_uwalk(gg, ns, c as int, v, -1, f) && ns.len() <= du + 2;
                        }
                    } else {
                        assert(frontier@.contains(u as usize));
                        let i = choose|i: int| 0 <= i < frontier@.len() && frontier@[i] == u as usize;
                        assert(linked(gg, frontier@[i] as int, v, -1, f));
                    }
                }
            }
        }
        frontier = next;
        level = level + 1;
    }
    proof {
        if level < radius {
            // The search stopped early: no node lies exactly `level` hops
            // away, so nothing lies farther.
            assert forall|x: usize| x < n implies #[trigger] dist@[x as int] != Some(level as usize) by {
                if dist@[x as int] == Some(level as usize) {
                    assert(frontier@.contains(x));
                }
            }
            assert forall|v: int| 0 <= v < n && #[trigger] within(gg, c as int, v, radius as int, f) implies dist@[v] is Some by {
                lemma_within_beyond(gg, c as int, v, level as int, radius as int, f, dist@);
            }
        }
    }
    dist
}

/// When no node lies exactly `level` hops away, nothing lies farther
/// either: a node within `d >= level` hops is within `level` hops.
proof fn lemma_within_beyond(
    g: GraphData,
    c: int,
    v: int,
    level: int,
    d: int,
    f: Option<Relationship>,
    dist: Seq<Option<usize>>,
)
    requires
        g.wf(),
        0 <= level <= d,
        0 <= c < g.nodes@.len(),
        0 <= v < g.nodes@.len(),
        dist.len() == g.nodes@.len(),
        within(g, c, v, d, f),
        forall|x: int| 0 <= x < g.nodes@.len() && #[trigger] within(g, c, x, level, f) ==> dist[x] is Some,
        forall|x: int| 0 <= x < g.nodes@.len() ==> (#[trigger] dist[x] matches Some(e) ==> e <= level && hops(g, c, x, e as int, f)),
        forall|x: usize| x < g.nodes@.len() ==> #[trigger] dist[x as int] != Some(level as usize),
    ensures
        within(g, c, v, level, f),
    decreases d - level,
{
    if !within(g, c, v, level, f) {
        if within(g, c, v, d - 1, f) {
            lemma_within_beyond(g, c, v, level, d - 1, f, dist);
        } else {
            let u = lemma_within_last_step(g, c, v, d - 1, f);
            assert(0 <= u < g.nodes@.len()) by {
                let kk = choose|kk: int| 0 <= kk < g.edges@.len() && kk != -1 && admits(g, f, kk) && #[trigger] joins(g, kk, u, v);
                assert(g.arcs@[kk].0 < g.nodes@.len() && g.arcs@[kk].1 < g.nodes@.len());
            }
            lemma_within_beyond(g, c, u, level, d - 1, f, dist);
            let du = dist[u].unwrap();
            assert(dist[(u as usize) as int] != Some(level as usize));
            lemma_within_step(g, c, u, v, du as int, f);
            let ns = choose|ns: Seq<int>| #[trigger] is_uwalk(g, ns, c, v, -1, f) && ns.len() <= du + 2;
            assert(is_uwalk(g, ns, c, v, -1, f) && ns.len() <= level + 1);
        }
    }
}

} // verus!

verus! {

/// The result of a neighborhood query.
#[derive(Debug)]
pub struct NeighborhoodResult {
    /// The center node.
    pub center: crate::types::Node,
    /// Nodes within the radius, the center excluded.
    pub nodes: Vec<crate::types::Node>,
    /// Hop distance of each entry of `nodes`.
    pub distances: Vec<usize>,
    /// Admitted edges whose endpoints both lie within the radius.
    pub edges: Vec<crate::types::Edge>,
}

/// Edge `k` belongs to the neighborhood of `c`.
pub open spec fn in_neighborhood(g: GraphData, c: int, radius: int, f: Option<Relationship>, k: int) -> bool {
    admits(g, f, k) && within(g, c, g.src(k), radius, f) && within(g, c, g.dst(k), radius, f)
}

/// `res` is the neighborhood of `c`: the nodes listed (at indices `xs`)
/// are exactly those other than `c` within `radius` hops, each with its
/// exact hop distance, and the edges (at indices `ks`) are exactly the
/// admitted edges between such nodes, in edge order.
pub open spec fn neighborhood_answer(
    g: GraphData,
    c: int,
    radius: int,
    f: Option<Relationship>,
    xs: Seq<int>,
    ks: Seq<int>,
    res: NeighborhoodResult,
) -> bool {
    &&& crate::types::same_node(res.center, g.nodes@[c])
    &&& xs.len() == res.nodes@.len()
    &&& xs.len() == res.distances@.len()
    &&& xs.no_duplicates()
    &&& forall|i: int|
        0 <= i < xs.len() ==> 0 <= #[trigger] xs[i] < g.nodes@.len() && xs[i] != c && crate::types::same_node(
            res.nodes@[i],
            g.nodes@[xs[i]],
        ) && res.distances@[i] <= radius && hops(g, c, xs[i], res.distances@[i] as int, f)
    &&& forall|x: int| 0 <= x < g.nodes@.len() && x != c && #[trigger] within(g, c, x, radius, f) ==> xs.contains(x)
    &&& ks.len() == res.edges@.len()
    &&& forall|i: int, j: int| 0 <= i < j < ks.len() ==> #[trigger] ks[i] < #[trigger] ks[j]
    &&& forall|i: int|
        0 <= i < ks.len() ==> 0 <= #[trigger] ks[i] < g.edges@.len() && in_neighborhood(g, c, radius, f, ks[i])
            && res.edges@[i] == g.edges@[ks[i]]
    &&& forall|k: int| 0 <= k < g.edges@.len() && #[trigger] in_neighborhood(g, c, radius, f, k) ==> ks.contains(k)
}

/// The nodes within `radius` hops of `id`, through edges in either
/// direction, optionally only edges of one relationship. Fails with
/// `NotFound` when `id` is absent.
pub fn neighborhood(
    graph: &GraphData,
    id: &str,
    radius: usize,
    relationship_filter: Option<Relationship>,
) -> (r: Result<NeighborhoodResult, crate::graph::GraphError>)
    requires
        graph.wf(),
    ensures
        r is Err <==> !graph.has_id(id@),
        r matches Err(e) ==> e is NotFound,
        r matches Ok(res) ==> exists|xs: Seq<int>, ks: Seq<int>|
            #[trigger] neighborhood_answer(*graph, graph.index_of(id@), radius as int, relationship_filter, xs, ks, res),
{
    let c = match graph.get_index(id) {
        Some(i) => i,
        None => {
            return Err(crate::graph::GraphError::NotFound(id.to_owned()));
        },
    };
    let ghost g = *graph;
    let ghost f = relationship_filter;
    let dist = hop_distances(graph, c, radius, &relationship_filter);
    proof {
        assert forall|v: int| 0 <= v < g.nodes@.len() implies (#[trigger] dist@[v] is Some <==> within(g, c as int, v, radius as int, f)) by {
            if dist@[v] is Some {
                let d = dist@[v].unwrap();
                assert(within(g, c as int, v, d as int, f));
                let ns = choose|ns: Seq<int>| #[trigger] is_uwalk(g, ns, c as int, v, -1, f) && ns.len() <= d + 1;
                assert(is_uwalk(g, ns, c as int, v, -1, f) && ns.len() <= radius + 1);
            }
        }
    }
    let mut nodes: Vec<crate::types::Node> = Vec::new();
    let mut distances: Vec<usize> = Vec::new();
    let ghost mut xs: Seq<int> = Seq::empty();
    let mut v: usize = 0;
    while v < graph.nodes.len()
        invariant
            g == *graph,
            f == relationship_filter,
            g.wf(),
            c < g.nodes@.len(),
            v <= g.nodes@.len(),
            dist@.len() == g.nodes@.len(),
            forall|w: int| 0 <= w < g.nodes@.len() ==> (#[trigger] dist@[w] matches Some(d) ==> d <= radius && hops(g, c as int, w, d as int, f)),
            forall|w: int| 0 <= w < g.nodes@.len() ==> (#[trigger] dist@[w] is Some <==> within(g, c as int, w, radius as int, f)),
            xs.len() == nodes@.len(),
            xs.len() == distances@.len(),
            forall|i: int, j: int| 0 <= i < j < xs.len() ==> #[trigger] xs[i] < #[trigger] xs[j],
            forall|i: int|
                0 <= i < xs.len() ==> 0 <= #[trigger] xs[i] < v && xs[i] != c && crate::types::same_node(
                    nodes@[i],
                    g.nodes@[xs[i]],
                ) && distances@[i] <= radius && hops(g, c as int, xs[i], distances@[i] as int, f),
            forall|x: int| 0 <= x < v && x != c && #[trigger] within(g, c as int, x, radius as int, f) ==> xs.contains(x),
        decreases graph.nodes.len() - v,
    {
        let ghost old_xs = xs;
        if v != c {
            match dist[v] {
                Some(d) => {
                    nodes.push(graph.nodes[v].clone());
                    distances.push(d);
                    proof {
                        xs = xs.push(v as int);
                    }
                },
                None => {},
            }
        }
        proof {
            assert forall|x: int| 0 <= x < v + 1 && x != c && #[trigger] within(g, c as int, x, radius as int, f) implies xs.contains(x) by {
                if x < v {
                    let i = choose|i: int| 0 <= i < old_xs.len() && old_xs[i] == x;
                    assert(xs[i] == x);
                } else {
                    assert(dist@[x] is Some);
                    assert(xs[xs.len() - 1] == x);
                }
            }
        }
        v = v + 1;
    }
    let mut edges: Vec<crate::types::Edge> = Vec::new();
    let ghost mut ks: Seq<int> = Seq::empty();
    let mut k: usize = 0;
    while k < graph.edges.len()
        invariant
            g == *graph,
            f == relationship_filter,
            g.wf(),
            k <= g.edges@.len(),
            dist@.len() == g.nodes@.len(),
            forall|w: int| 0 <= w < g.nodes@.len() ==> (#[trigger] dist@[w] is Some <==> within(g, c as int, w, radius as int, f)),
            ks.len() == edges@.len(),
            forall|i: int, j: int| 0 <= i < j < ks.len() ==> #[trigger] ks[i] < #[trigger] ks[j],
            forall|i: int|
                0 <= i < ks.len() ==> 0 <= #[trigger] ks[i] < k && in_neighborhood(g, c as int, radius as int, f, ks[i])
                    && edges@[i] == g.edges@[ks[i]],
            forall|kk: int| 0 <= kk < k && #[trigger] in_neighborhood(g, c as int, radius as int, f, kk) ==> ks.contains(kk),
        decreases graph.edges.len() - k,
    {
        let (a, b) = graph.arcs[k];
        proof {
            assert(graph.arcs@[k as int].0 < graph.nodes@.len() && graph.arcs@[k as int].1 < graph.nodes@.len());
        }
        let ghost old_ks = ks;
        if admitted(graph, &relationship_filter, k) && dist[a].is_some() && dist[b].is_some() {
            edges.push(graph.edges[k].clone());
            proof {
                ks = ks.push(k as int);
            }
        }
        proof {
            assert forall|kk: int| 0 <= kk < k + 1 && #[trigger] in_neighborhood(g, c as int, radius as int, f, kk) implies ks.contains(kk) by {
                if kk < k {
                    let i = choose|i: int| 0 <= i < old_ks.len() && old_ks[i] == kk;
                    assert(ks[i] == kk);
                } else {
                    assert(ks[ks.len() - 1] == kk);
                }
            }
        }
        k = k + 1;
    }
    let res = NeighborhoodResult { center: graph.nodes[c].clone(), nodes, distances, edges };
    proof {
        assert(g.index_of(id@) == c as int);
        assert(xs.no_duplicates()) by {
            assert forall|i: int, j: int| 0 <= i < xs.len() && 0 <= j < xs.len() && i != j implies xs[i] != xs[j] by {
                if i < j {
                    assert(xs[i] < xs[j]);
                } else {
                    assert(xs[j] < xs[i]);
                }
            }
        }
        assert(neighborhood_answer(g, c as int, radius as int, f, xs, ks, res));
    }
    Ok(res)
}

} // verus!

verus! {

/// One neighbor of a node, with the relationship of the edge that joins
/// them.
#[derive(Debug)]
pub struct RelatedNode {
    /// The neighbor.
    pub node: crate::types::Node,
    /// The relationship of the joining edge.
    pub relationship: Relationship,
    /// Whether the edge points from the queried node to the neighbor.
    pub outgoing: bool,
}

/// The immediate neighbors of `id`, one entry per incident edge in edge
/// order, each with the edge's relationship and direction; a self-loop
/// counts once, as outgoing. Fails with `NotFound` when `id` is absent.
pub fn get_related(graph: &GraphData, id: &str) -> (r: Result<Vec<RelatedNode>, crate::graph::GraphError>)
    requires
        graph.wf(),
    ensures
        r is Err <==> !graph.has_id(id@),
        r matches Err(e) ==> e is NotFound,
        r matches Ok(list) ==> exists|ks: Seq<int>| #[trigger] related_answer(*graph, graph.index_of(id@), ks, list@),
{
    let c = match graph.get_index(id) {
        Some(i) => i,
        None => {
            return Err(crate::graph::GraphError::NotFound(id.to_owned()));
        },
    };
    let ghost g = *graph;
    let mut list: Vec<RelatedNode> = Vec::new();
    let ghost mut ks: Seq<int> = Seq::empty();
    let mut k: usize = 0;
    while k < graph.edges.len()
        invariant
            g == *graph,
            g.wf(),
            c < g.nodes@.len(),
            k <= g.edges@.len(),
            ks.len() == list@.len(),
            forall|i: int, j: int| 0 <= i < j < ks.len() ==> #[trigger] ks[i] < #[trigger] ks[j],
            forall|i: int| 0 <= i < ks.len() ==> 0 <= #[trigger] ks[i] < k && related_entry(g, c as int, ks[i], list@[i]),
            forall|kk: int| 0 <= kk < k && (g.src(kk) == c || g.dst(kk) == c) ==> #[trigger] ks.contains(kk),
        decreases graph.edges.len() - k,
    {
        let (a, b) = graph.arcs[k];
        proof {
            assert(graph.arcs@[k as int].0 < graph.nodes@.len() && graph.arcs@[k as int].1 < graph.nodes@.len());
        }
        let ghost old_ks = ks;
        if a == c || b == c {
            let outgoing = a == c;
            let other = if outgoing { b } else { a };
            list.push(RelatedNode {
                node: graph.nodes[other].clone(),
                relationship: graph.edges[k].relationship.clone(),
                outgoing,
            });
            proof {
                ks = ks.push(k as int);
            }
        }
        proof {
            assert forall|kk: int| 0 <= kk < k + 1 && (g.src(kk) == c || g.dst(kk) == c) implies #[trigger] ks.contains(kk) by {
                if kk < k {
                    assert(old_ks.contains(kk));
                    let i = choose|i: int| 0 <= i < old_ks.len() && old_ks[i] == kk;
                    assert(ks[i] == kk);
                } else {
                    assert(ks[ks.len() - 1] == kk);
                }
            }
        }
        k = k + 1;
    }
    proof {
        assert(g.index_of(id@) == c as int);
        assert(related_answer(*graph, graph.index_of(id@), ks, list@));
        assert(exists|w: Seq<int>| #[trigger] related_answer(*graph, graph.index_of(id@), w, list@));
    }
    let r: Result<Vec<RelatedNode>, crate::graph::GraphError> = Ok(list);
    proof {
        assert(r matches Ok(l) && l@ == list@);
    }
    r
}

/// Entry `e` describes edge `k` as seen from node `c`.
pub open spec fn related_entry(g: GraphData, c: int, k: int, e: RelatedNode) -> bool {
    &&& e.relationship == g.edges@[k].relationship
    &&& e.outgoing == (g.src(k) == c)
    &&& e.outgoing ==> crate::types::same_node(e.node, g.nodes@[g.dst(k)])
    &&& !e.outgoing ==> g.dst(k) == c && crate::types::same_node(e.node, g.nodes@[g.src(k)])
}

/// `list` describes, in edge order, exactly the edges incident to `c`
/// (at indices `ks`).
pub open spec fn related_answer(g: GraphData, c: int, ks: Seq<int>, list: Seq<RelatedNode>) -> bool {
    &&& ks.len() == list.len()
    &&& forall|i: int, j: int| 0 <= i < j < ks.len() ==> #[trigger] ks[i] < #[trigger] ks[j]
    &&& forall|i: int| 0 <= i < ks.len() ==> 0 <= #[trigger] ks[i] < g.edges@.len() && related_entry(g, c, ks[i], list[i])
    &&& forall|k: int| 0 <= k < g.edges@.len() && (g.src(k) == c || g.dst(k) == c) ==> #[trigger] ks.contains(k)
}

} // verus!

verus! {

/// `groups` partitions the entries of `list` by relationship label: labels
/// are distinct and in order of first appearance, each group lists in
/// increasing order the indices of the entries with its label, and every
/// entry is in a group.
pub open spec fn groups_entries(list: Seq<RelatedNode>, groups: Seq<(String, Vec<usize>)>) -> bool {
    &&& forall|g: int, h: int| 0 <= g < h < groups.len() ==> (#[trigger] groups[g]).0@ != (#[trigger] groups[h]).0@
    &&& forall|g: int, j: int|
        0 <= g < groups.len() && 0 <= j < groups[g].1@.len() ==> (#[trigger] groups[g].1@[j]) < list.len()
            && crate::types::relationship_name(list[groups[g].1@[j] as int].relationship) == groups[g].0@
    &&& forall|g: int, j: int, k: int|
        0 <= g < groups.len() && 0 <= j < k < groups[g].1@.len() ==> #[trigger] groups[g].1@[j] < #[trigger] groups[g].1@[k]
    &&& forall|q: int| 0 <= q < list.len() ==> #[trigger] placed(groups, q)
}

/// Entry `q` is in some group.
pub open spec fn placed(groups: Seq<(String, Vec<usize>)>, q: int) -> bool {
    exists|g: int, j: int| 0 <= g < groups.len() && 0 <= j < groups[g].1@.len() && groups[g].1@[j] == q
}

/// Groups the entries of a related-nodes list by relationship label.
pub fn group_related(list: &Vec<RelatedNode>) -> (r: Vec<(String, Vec<usize>)>)
    ensures
        groups_entries(list@, r@),
{
    let mut groups: Vec<(String, Vec<usize>)> = Vec::new();
    let mut q: usize = 0;
    while q < list.len()
        invariant
            q <= list@.len(),
            forall|g: int, h: int| 0 <= g < h < groups@.len() ==> (#[trigger] groups@[g]).0@ != (#[trigger] groups@[h]).0@,
            forall|g: int, j: int|
                0 <= g < groups@.len() && 0 <= j < groups@[g].1@.len() ==> (#[trigger] groups@[g].1@[j]) < q
                    && crate::types::relationship_name(list@[groups@[g].1@[j] as int].relationship) == groups@[g].0@,
            forall|g: int, j: int, k: int|
                0 <= g < groups@.len() && 0 <= j < k < groups@[g].1@.len() ==> #[trigger] groups@[g].1@[j]
                    < #[trigger] groups@[g].1@[k],
            forall|p: int| 0 <= p < q ==> #[trigger] placed(groups@, p),
        decreases list.len() - q,
    {
        let name = list[q].relationship.name();
        let mut g: usize = 0;
        let mut found = false;
        while g < groups.len() && !found
            invariant
                g <= groups@.len(),
                found ==> g < groups@.len() && groups@[g as int].0@ == name@,
                forall|h: int| 0 <= h < g ==> (#[trigger] groups@[h]).0@ != name@,
            decreases groups.len() - g + if found { 0int } else { 1int },
        {
            if groups[g].0 == name {
                found = true;
            } else {
                g = g + 1;
            }
        }
        let ghost old_groups = groups@;
        if found {
            let key = groups[g].0.clone();
            let mut members = crate::shortest::copy_indices(&groups[g].1);
            members.push(q);
            groups.set(g, (key, members));
        } else {
            let mut members: Vec<usize> = Vec::new();
            members.push(q);
            groups.push((name, members));
        }
        proof {
            let gi: int = if found { g as int } else { old_groups.len() as int };
            assert(groups@[gi].1@[groups@[gi].1@.len() - 1] == q);
            assert forall|h: int| 0 <= h < groups@.len() && h != gi implies #[trigger] groups@[h] == old_groups[h] by {}
            assert forall|p: int| 0 <= p < q + 1 implies #[trigger] placed(groups@, p) by {
                if p < q {
                    assert(placed(old_groups, p));
                    let (h, j) = choose|h: int, j: int| 0 <= h < old_groups.len() && 0 <= j < old_groups[h].1@.len() && old_groups[h].1@[j] == p;
                    if h == gi {
                        assert(groups@[h].1@[j] == p);
                    } else {
                        assert(groups@[h] == old_groups[h]);
                    }
                } else {
                    let j = groups@[gi].1@.len() - 1;
                    assert(groups@[gi].1@[j] == p);
                }
            }
            assert forall|a: int, b: int| 0 <= a < b < groups@.len() implies (#[trigger] groups@[a]).0@ != (#[trigger] groups@[b]).0@ by {
                if a != gi && b != gi {
                    assert(groups@[a] == old_groups[a] && groups@[b] == old_groups[b]);
                } else if a == gi {
                    assert(groups@[b] == old_groups[b]);
                    if found {
                        assert(old_groups[a].0@ == groups@[a].0@);
                    }
                } else {
                    assert(groups@[a] == old_groups[a]);
                    if found {
                        assert(old_groups[b].0@ == groups@[b].0@);
                    }
                }
            }
        }
        q = q + 1;
    }
    groups
}

} // verus!
