//! Statistics over a graph: sizes, degrees and distributions.

use vstd::prelude::*;
use crate::digraph::{arc_count, arc_graph_degree, lemma_arc_count};
use crate::graph::{int_pairs, GraphData};
use crate::text::{decimal, decimal_string};

verus! {

/// Which edges count towards a node's degree.
#[derive(Clone, Copy, Debug, PartialEq, Eq, Structural)]
pub enum DegreeDirection {
    /// Incoming edges only.
    In,
    /// Outgoing edges only.
    Out,
    /// Both directions.
    Both,
}

/// The degree of node `i`: edges entering it (`In`), leaving it (`Out`),
/// or both counted separately (`Both`).
pub open spec fn degree(g: GraphData, i: int, dir: DegreeDirection) -> nat {
    let arcs = int_pairs(g.arcs@);
    match dir {
        DegreeDirection::In => arc_count(arcs, i, true),
        DegreeDirection::Out => arc_count(arcs, i, false),
        DegreeDirection::Both => arc_count(arcs, i, true) + arc_count(arcs, i, false),
    }
}

/// The degree of every node in direction `dir`, by index, as petgraph
/// counts the edges of each node.
pub fn degrees(g: &GraphData, dir: DegreeDirection) -> (r: Vec<usize>)
    requires
        g.wf(),
        2 * g.arcs@.len() <= usize::MAX,
    ensures
        r@.len() == g.nodes@.len(),
        forall|i: int| 0 <= i < r@.len() ==> #[trigger] r@[i] == degree(*g, i, dir),
{
    let n = g.nodes.len();
    let mut r: Vec<usize> = Vec::new();
    let mut i: usize = 0;
    while i < n
        invariant
            g.wf(),
            n == g.nodes@.len(),
            2 * g.arcs@.len() <= usize::MAX,
            i <= n,
            r@.len() == i,
            forall|j: int| 0 <= j < i ==> #[trigger] r@[j] == degree(*g, j, dir),
        decreases n - i,
    {
        proof {
            lemma_arc_count(int_pairs(g.arcs@), i as int, true);
            lemma_arc_count(int_pairs(g.arcs@), i as int, false);
        }
        let d = match dir {
            DegreeDirection::In => arc_graph_degree(&g.graph, i, true),
            DegreeDirection::Out => arc_graph_degree(&g.graph, i, false),
            DegreeDirection::Both => arc_graph_degree(&g.graph, i, true) + arc_graph_degree(&g.graph, i, false),
        };
        r.push(d);
        i = i + 1;
    }
    r
}

/// A one-line size summary: `"<nodes> nodes, <edges> edges"`.
pub fn quick_summary(graph: &GraphData) -> (r: String)
    ensures
        r@ == decimal(graph.nodes@.len()) + " nodes, "@ + decimal(graph.edges@.len()) + " edges"@,
{
    let mut s = decimal_string(graph.node_count() as u64);
    s.append(" nodes, ");
    let e = decimal_string(graph.edge_count() as u64);
    s.append(e.as_str());
    s.append(" edges");
    s
}

/// `picked` lists distinct node indices in the order of a stable sort by
/// descending degree: each listed node outranks every later node, listed
/// or not, by a higher degree or by the same degree and a smaller index.
pub open spec fn ranked_prefix(g: GraphData, dir: DegreeDirection, picked: Seq<int>) -> bool {
    &&& forall|p: int| 0 <= p < picked.len() ==> 0 <= #[trigger] picked[p] < g.nodes@.len()
    &&& forall|p: int, q: int| 0 <= p < q < picked.len() ==> #[trigger] picked[p] != #[trigger] picked[q]
    &&& forall|p: int, x: int|
        #![trigger picked[p], degree(g, x, dir)]
        0 <= p < picked.len() && 0 <= x < g.nodes@.len() && !picked.subrange(0, p + 1).contains(x)
            ==> degree(g, x, dir) < degree(g, picked[p], dir) || (degree(g, x, dir) == degree(g, picked[p], dir)
            && picked[p] < x)
}

/// The `limit` nodes of highest degree in direction `dir`, highest first;
/// equal degrees keep insertion order. Each entry is a node id and its
/// degree.
pub fn top_nodes_by_degree(graph: &GraphData, limit: usize, direction: DegreeDirection) -> (r: Vec<(String, usize)>)
    requires
        graph.wf(),
        2 * graph.arcs@.len() <= usize::MAX,
    ensures
        r@.len() == if limit < graph.nodes@.len() { limit as int } else { graph.nodes@.len() as int },
        exists|picked: Seq<int>|
            {
                &&& picked.len() == r@.len()
                &&& ranked_prefix(*graph, direction, picked)
                &&& forall|p: int|
                    0 <= p < picked.len() ==> (#[trigger] r@[p]).0 == graph.nodes@[picked[p]].id && r@[p].1
                        == degree(*graph, picked[p], direction)
            },
{
    let n = graph.nodes.len();
    let deg = degrees(graph, direction);
    let mut taken: Vec<bool> = Vec::new();
    let mut i: usize = 0;
    while i < n
        invariant
            i <= n,
            taken@.len() == i,
            forall|j: int| 0 <= j < i ==> !(#[trigger] taken@[j]),
        decreases n - i,
    {
        taken.push(false);
        i = i + 1;
    }
    let want = if limit < n { limit } else { n };
    let mut r: Vec<(String, usize)> = Vec::new();
    let ghost mut picked: Seq<int> = Seq::empty();
    while r.len() < want
        invariant
            graph.wf(),
            n == graph.nodes@.len(),
            want <= n,
            deg@.len() == n,
            forall|j: int| 0 <= j < n ==> #[trigger] deg@[j] == degree(*graph, j, direction),
            taken@.len() == n,
            r@.len() <= want,
            picked.len() == r@.len(),
            ranked_prefix(*graph, direction, picked),
            forall|x: int| 0 <= x < n ==> (#[trigger] taken@[x] <==> picked.contains(x)),
            forall|p: int|
                0 <= p < picked.len() ==> (#[trigger] r@[p]).0 == graph.nodes@[picked[p]].id && r@[p].1 == degree(
                    *graph,
                    picked[p],
                    direction,
                ),
        decreases want - r.len(),
    {
        // The first untaken node of greatest degree.
        let mut best: usize = n;
        let mut x: usize = 0;
        proof {
            if picked.len() >= n {
                // Distinct indices below n cannot outnumber n.
                let s = picked.to_set();
                assert(picked.no_duplicates()) by {
                    assert forall|p: int, q: int| 0 <= p < picked.len() && 0 <= q < picked.len() && p != q implies picked[p] != picked[q] by {
                        if p < q {
                            assert(picked[p] != picked[q]);
                        } else {
                            assert(picked[q] != picked[p]);
                        }
                    }
                }
                picked.unique_seq_to_set();
                assert(s.subset_of(Set::new(|v: int| 0 <= v < n)));
                vstd::set_lib::lemma_int_range(0, n as int);
                vstd::set_lib::lemma_len_subset(s, vstd::set_lib::set_int_range(0, n as int));
                assert(false);
            }
        }
        while x < n
            invariant
                n == graph.nodes@.len(),
                deg@.len() == n,
                taken@.len() == n,
                x <= n,
                best == n || (best < x && !taken@[best as int]),
                best == n ==> forall|y: int| 0 <= y < x ==> #[trigger] taken@[y],
                best < n ==> forall|y: int| 0 <= y < x && !#[trigger] taken@[y] ==> deg@[y] < deg@[best as int] || (
                    deg@[y] == deg@[best as int] && best <= y),
            decreases n - x,
        {
            if !taken[x] {
                if best == n || deg[x] > deg[best] {
                    best = x;
                }
            }
            x = x + 1;
        }
        proof {
            if best == n {
                assert(forall|y: int| 0 <= y < n ==> #[trigger] taken@[y]);
                // every node taken contradicts picked.len() < n
                let s = picked.to_set();
                assert(picked.no_duplicates()) by {
                    assert forall|p: int, q: int| 0 <= p < picked.len() && 0 <= q < picked.len() && p != q implies picked[p] != picked[q] by {
                        if p < q {
                            assert(picked[p] != picked[q]);
                        } else {
                            assert(picked[q] != picked[p]);
                        }
                    }
                }
                picked.unique_seq_to_set();
                vstd::set_lib::lemma_int_range(0, n as int);
                assert(vstd::set_lib::set_int_range(0, n as int).subset_of(s)) by {
                    assert forall|v: int| vstd::set_lib::set_int_range(0, n as int).contains(v) implies s.contains(v) by {
                        assert(taken@[v]);
                    }
                }
                vstd::set_lib::lemma_len_subset(vstd::set_lib::set_int_range(0, n as int), s);
                assert(false);
            }
        }
        let ghost old_picked = picked;
        taken.set(best, true);
        r.push((graph.nodes[best].id.clone(), deg[best]));
        proof {
            picked = picked.push(best as int);
            assert forall|x: int| 0 <= x < n implies (#[trigger] taken@[x] <==> picked.contains(x)) by {
                if x == best as int {
                    assert(picked[picked.len() - 1] == x);
                } else if old_picked.contains(x) {
                    let p = choose|p: int| 0 <= p < old_picked.len() && old_picked[p] == x;
                    assert(picked[p] == x);
                } else if picked.contains(x) {
                    let p = choose|p: int| 0 <= p < picked.len() && picked[p] == x;
                    assert(p < old_picked.len());
                    assert(old_picked[p] == x);
                }
            }
            assert forall|p: int, q: int| 0 <= p < q < picked.len() implies #[trigger] picked[p] != #[trigger] picked[q] by {
                if q == picked.len() - 1 {
                    assert(old_picked.contains(picked[p]));
                    assert(taken@[picked[p]] || picked[p] == best as int);
                    if picked[p] == best as int {
                        assert(old_picked.contains(best as int));
                    }
                } else {
                    assert(old_picked[p] == picked[p] && old_picked[q] == picked[q]);
                }
            }
            assert forall|p: int, x: int|
                #![trigger picked[p], degree(*graph, x, direction)]
                0 <= p < picked.len() && 0 <= x < n && !picked.subrange(0, p + 1).contains(x)
                    implies degree(*graph, x, direction) < degree(*graph, picked[p], direction) || (degree(*graph, x, direction)
                    == degree(*graph, picked[p], direction) && picked[p] < x) by {
                if p < old_picked.len() {
                    assert(picked.subrange(0, p + 1) =~= old_picked.subrange(0, p + 1));
                    assert(picked[p] == old_picked[p]);
                } else {
                    assert(picked[p] == best as int);
                    assert(picked.subrange(0, p + 1)[p] == best as int);
                    assert(x != best as int);
                    if old_picked.contains(x) {
                        let q = choose|q: int| 0 <= q < old_picked.len() && old_picked[q] == x;
                        assert(picked.subrange(0, p + 1)[q] == x);
                    }
                    assert(!taken@[x] || x == best as int) by {
                        if taken@[x] && x != best as int {
                            assert(old_picked.contains(x));
                        }
                    }
                    assert(deg@[x] == degree(*graph, x, direction));
                }
            }
            assert forall|p: int|
                0 <= p < picked.len() implies (#[trigger] r@[p]).0 == graph.nodes@[picked[p]].id && r@[p].1 == degree(
                    *graph,
                    picked[p],
                    direction,
                ) by {
                if p < old_picked.len() {
                    assert(picked[p] == old_picked[p]);
                }
            }
        }
    }
    r
}

} // verus!

verus! {

/// Number of entries among the first `m` of `s` equal to `c`.
pub open spec fn count_upto(s: Seq<Seq<char>>, c: Seq<char>, m: int) -> nat
    decreases m,
{
    if m <= 0 {
        0
    } else {
        count_upto(s, c, m - 1) + if s[m - 1] == c {
            1nat
        } else {
            0nat
        }
    }
}

/// Number of entries of `s` equal to `c`.
pub open spec fn count_of(s: Seq<Seq<char>>, c: Seq<char>) -> nat {
    count_upto(s, c, s.len() as int)
}

/// `t` tallies `s`: one entry per distinct value, with its number of
/// occurrences, in order of first occurrence.
pub open spec fn is_tally(s: Seq<Seq<char>>, t: Seq<(String, usize)>) -> bool {
    &&& forall|p: int, q: int| 0 <= p < q < t.len() ==> (#[trigger] t[p]).0@ != (#[trigger] t[q]).0@
    &&& forall|p: int| 0 <= p < t.len() ==> (#[trigger] t[p]).1 == count_of(s, t[p].0@)
    &&& forall|j: int| 0 <= j < s.len() ==> exists|p: int| 0 <= p < t.len() && (#[trigger] t[p]).0@ == #[trigger] s[j]
}

proof fn lemma_count_upto_bound(s: Seq<Seq<char>>, c: Seq<char>, m: int)
    requires
        0 <= m,
    ensures
        count_upto(s, c, m) <= m,
    decreases m,
{
    if m > 0 {
        lemma_count_upto_bound(s, c, m - 1);
    }
}

/// Counts the occurrences of each distinct string.
pub fn tally(names: &Vec<String>) -> (r: Vec<(String, usize)>)
    ensures
        is_tally(crate::text::views(names@), r@),
{
    let ghost s = crate::text::views(names@);
    let mut r: Vec<(String, usize)> = Vec::new();
    let mut j: usize = 0;
    while j < names.len()
        invariant
            s == crate::text::views(names@),
            j <= names@.len(),
            forall|p: int, q: int| 0 <= p < q < r@.len() ==> (#[trigger] r@[p]).0@ != (#[trigger] r@[q]).0@,
            forall|p: int| 0 <= p < r@.len() ==> (#[trigger] r@[p]).1 == count_upto(s, r@[p].0@, j as int),
            forall|i: int| 0 <= i < j ==> exists|p: int| 0 <= p < r@.len() && (#[trigger] r@[p]).0@ == #[trigger] s[i],
            forall|c: Seq<char>| (forall|p: int| 0 <= p < r@.len() ==> (#[trigger] r@[p]).0@ != c) ==> #[trigger] count_upto(s, c, j as int) == 0,
        decreases names.len() - j,
    {
        let name = &names[j];
        assert(s[j as int] == name@);
        let mut p: usize = 0;
        let mut found = false;
        while p < r.len() && !found
            invariant
                p <= r@.len(),
                found ==> p < r@.len() && r@[p as int].0@ == name@,
                forall|q: int| 0 <= q < p ==> (#[trigger] r@[q]).0@ != name@,
            decreases r.len() - p + if found { 0int } else { 1int },
        {
            if r[p].0 == *name {
                found = true;
            } else {
                p = p + 1;
            }
        }
        let ghost old_r = r@;
        if found {
            proof {
                lemma_count_upto_bound(s, name@, j as int);
            }
            let k = r[p].0.clone();
            let c = r[p].1;
            r.set(p, (k, c + 1));
        } else {
            r.push((name.clone(), 1));
        }
        proof {
            if !found {
                assert forall|q: int| 0 <= q < old_r.len() implies (#[trigger] old_r[q]).0@ != name@ by {}
                assert(count_upto(s, name@, j as int) == 0);
            }
            assert forall|p2: int| 0 <= p2 < r@.len() implies (#[trigger] r@[p2]).1 == count_upto(s, r@[p2].0@, j + 1) by {
                if p2 < old_r.len() && p2 != p as int {
                    assert(r@[p2] == old_r[p2]);
                    if found {
                        if p2 < p as int {
                            assert(old_r[p2].0@ != old_r[p as int].0@);
                        } else {
                            assert(old_r[p as int].0@ != old_r[p2].0@);
                        }
                    }
                    assert(old_r[p2].0@ != name@);
                }
            }
            assert forall|i: int| 0 <= i < j + 1 implies exists|q: int| 0 <= q < r@.len() && (#[trigger] r@[q]).0@ == #[trigger] s[i] by {
                if i < j {
                    let q = choose|q: int| 0 <= q < old_r.len() && (#[trigger] old_r[q]).0@ == s[i];
                    assert(r@[q].0@ == old_r[q].0@);
                } else {
                    if found {
                        assert(r@[p as int].0@ == s[i]);
                    } else {
                        assert(r@[r@.len() - 1].0@ == s[i]);
                    }
                }
            }
            assert forall|c: Seq<char>| (forall|q: int| 0 <= q < r@.len() ==> (#[trigger] r@[q]).0@ != c) implies #[trigger] count_upto(s, c, j + 1) == 0 by {
                assert forall|q: int| 0 <= q < old_r.len() implies (#[trigger] old_r[q]).0@ != c by {
                    assert(r@[q].0@ == old_r[q].0@);
                }
                if found {
                    assert(r@[p as int].0@ == name@);
                } else {
                    assert(r@[r@.len() - 1].0@ == name@);
                }
                assert(count_upto(s, c, j as int) == 0);
                assert(s[j as int] != c);
            }
            assert forall|p1: int, q1: int| 0 <= p1 < q1 < r@.len() implies (#[trigger] r@[p1]).0@ != (#[trigger] r@[q1]).0@ by {
                if q1 < old_r.len() {
                    assert(r@[p1].0@ == old_r[p1].0@ && r@[q1].0@ == old_r[q1].0@);
                } else {
                    assert(r@[p1].0@ == old_r[p1].0@);
                }
            }
        }
        j = j + 1;
    }
    r
}

/// Statistics about a graph. The average degree is `total_degree` over
/// `node_count`.
#[derive(Debug)]
pub struct GraphStats {
    /// Number of nodes.
    pub node_count: usize,
    /// Number of edges.
    pub edge_count: usize,
    /// Number of canonical nodes.
    pub canonical_count: usize,
    /// Number of variant nodes.
    pub variant_count: usize,
    /// Nodes per category; a node without one counts as `uncategorized`.
    pub category_distribution: Vec<(String, usize)>,
    /// Edges per relationship label.
    pub relationship_distribution: Vec<(String, usize)>,
    /// Nodes without any edge.
    pub orphan_count: usize,
    /// Sum of all in- and out-degrees: twice the number of edges.
    pub total_degree: usize,
    /// Largest in-degree.
    pub max_in_degree: usize,
    /// Largest out-degree.
    pub max_out_degree: usize,
    /// First node, in insertion order, with the largest in-degree.
    pub most_depended_on: Option<String>,
    /// First node, in insertion order, with the largest out-degree.
    pub most_dependencies: Option<String>,
}

/// The category name a node is counted under.
pub open spec fn category_name(n: crate::types::Node) -> Seq<char> {
    match n.category {
        Some(c) => c@,
        None => "uncategorized"@,
    }
}

/// Number of canonical nodes among the first `m`.
pub open spec fn canonical_upto(g: GraphData, m: int) -> nat
    decreases m,
{
    if m <= 0 {
        0
    } else {
        canonical_upto(g, m - 1) + if g.nodes@[m - 1].is_canonical {
            1nat
        } else {
            0nat
        }
    }
}

proof fn lemma_canonical_bound(g: GraphData, m: int)
    requires
        0 <= m,
    ensures
        canonical_upto(g, m) <= m,
    decreases m,
{
    if m > 0 {
        lemma_canonical_bound(g, m - 1);
    }
}

/// `best` is the first node with the largest value of `deg`, or `None`
/// with `max` zero when there are no nodes.
pub open spec fn first_max(deg: Seq<usize>, best: Option<usize>, max: usize) -> bool {
    &&& forall|i: int| 0 <= i < deg.len() ==> #[trigger] deg[i] <= max
    &&& (deg.len() == 0 <==> best is None)
    &&& (deg.len() == 0 ==> max == 0)
    &&& best matches Some(b) ==> b < deg.len() && deg[b as int] == max && forall|i: int| 0 <= i < b ==> #[trigger] deg[i] < max
}

/// The first index of the largest entry, and that entry.
fn first_max_of(deg: &Vec<usize>) -> (r: (Option<usize>, usize))
    ensures
        first_max(deg@, r.0, r.1),
{
    let mut best: Option<usize> = None;
    let mut max: usize = 0;
    let mut i: usize = 0;
    while i < deg.len()
        invariant
            i <= deg@.len(),
            first_max(deg@.subrange(0, i as int), best, max),
        decreases deg.len() - i,
    {
        let ghost pre = deg@.subrange(0, i as int);
        match best {
            None => {
                best = Some(i);
                max = deg[i];
            },
            Some(_) => {
                if deg[i] > max {
                    best = Some(i);
                    max = deg[i];
                }
            },
        }
        proof {
            let cur = deg@.subrange(0, i + 1);
            assert forall|j: int| 0 <= j < i implies cur[j] == pre[j] by {}
        }
        i = i + 1;
    }
    proof {
        assert(deg@.subrange(0, deg@.len() as int) =~= deg@);
    }
    (best, max)
}

/// `max` is the largest degree in direction `dir` (zero without nodes),
/// and `id` names the first node, in insertion order, that has it.
pub open spec fn is_first_max(g: GraphData, dir: DegreeDirection, max: usize, id: Option<String>) -> bool {
    &&& forall|i: int| 0 <= i < g.nodes@.len() ==> degree(g, i, dir) <= max
    &&& (g.nodes@.len() == 0 <==> id is None)
    &&& (g.nodes@.len() == 0 ==> max == 0)
    &&& id matches Some(x) ==> exists|b: int|
        0 <= b < g.nodes@.len() && x == (#[trigger] g.nodes@[b]).id && degree(g, b, dir) == max && forall|i: int|
            0 <= i < b ==> degree(g, i, dir) < max
}

/// Statistics of a graph.
pub fn compute_stats(graph: &GraphData) -> (r: GraphStats)
    requires
        graph.wf(),
        2 * graph.arcs@.len() <= usize::MAX,
    ensures
        r.node_count == graph.nodes@.len(),
        r.edge_count == graph.edges@.len(),
        r.canonical_count == canonical_upto(*graph, graph.nodes@.len() as int),
        r.variant_count + r.canonical_count == graph.nodes@.len(),
        is_tally(Seq::new(graph.nodes@.len(), |i: int| category_name(graph.nodes@[i])), r.category_distribution@),
        is_tally(
            Seq::new(graph.edges@.len(), |k: int| crate::types::relationship_name(graph.edges@[k].relationship)),
            r.relationship_distribution@,
        ),
        r.orphan_count == crate::validation::orphan_ids(*graph).len(),
        r.total_degree == 2 * graph.edges@.len(),
        is_first_max(*graph, DegreeDirection::In, r.max_in_degree, r.most_depended_on),
        is_first_max(*graph, DegreeDirection::Out, r.max_out_degree, r.most_dependencies),
{
    let n = graph.nodes.len();
    let mut canonical: usize = 0;
    let mut cats: Vec<String> = Vec::new();
    let mut i: usize = 0;
    while i < n
        invariant
            n == graph.nodes@.len(),
            i <= n,
            canonical == canonical_upto(*graph, i as int),
            cats@.len() == i,
            forall|j: int| 0 <= j < i ==> (#[trigger] cats@[j])@ == category_name(graph.nodes@[j]),
        decreases n - i,
    {
        proof {
            lemma_canonical_bound(*graph, i as int);
        }
        if graph.nodes[i].is_canonical {
            canonical = canonical + 1;
        }
        let name = match &graph.nodes[i].category {
            Some(c) => c.clone(),
            None => "uncategorized".to_owned(),
        };
        cats.push(name);
        i = i + 1;
    }
    proof {
        lemma_canonical_bound(*graph, n as int);
        assert(crate::text::views(cats@) =~= Seq::new(graph.nodes@.len(), |i: int| category_name(graph.nodes@[i])));
    }
    let category_distribution = tally(&cats);
    let mut rels: Vec<String> = Vec::new();
    let mut k: usize = 0;
    while k < graph.edges.len()
        invariant
            k <= graph.edges@.len(),
            rels@.len() == k,
            forall|j: int| 0 <= j < k ==> (#[trigger] rels@[j])@ == crate::types::relationship_name(graph.edges@[j].relationship),
        decreases graph.edges.len() - k,
    {
        rels.push(graph.edges[k].relationship.name());
        k = k + 1;
    }
    proof {
        assert(crate::text::views(rels@) =~= Seq::new(
            graph.edges@.len(),
            |k: int| crate::types::relationship_name(graph.edges@[k].relationship),
        ));
    }
    let relationship_distribution = tally(&rels);
    let ins = degrees(graph, DegreeDirection::In);
    let outs = degrees(graph, DegreeDirection::Out);
    let (best_in, max_in) = first_max_of(&ins);
    let (best_out, max_out) = first_max_of(&outs);
    let most_depended_on = match best_in {
        Some(b) => Some(graph.nodes[b].id.clone()),
        None => None,
    };
    let most_dependencies = match best_out {
        Some(b) => Some(graph.nodes[b].id.clone()),
        None => None,
    };
    let orphans = crate::validation::orphan_count(graph);
    proof {
        let g = *graph;
        assert forall|i: int| 0 <= i < n implies degree(g, i, DegreeDirection::In) <= max_in by {
            assert(ins@[i] <= max_in);
        }
        assert forall|i: int| 0 <= i < n implies degree(g, i, DegreeDirection::Out) <= max_out by {
            assert(outs@[i] <= max_out);
        }
        if let Some(b) = best_in {
            assert forall|i: int| 0 <= i < b implies degree(g, i, DegreeDirection::In) < max_in by {
                assert(ins@[i] < max_in);
            }
            assert(most_depended_on == Some(g.nodes@[b as int].id));
        }
        if let Some(b) = best_out {
            assert forall|i: int| 0 <= i < b implies degree(g, i, DegreeDirection::Out) < max_out by {
                assert(outs@[i] < max_out);
            }
            assert(most_dependencies == Some(g.nodes@[b as int].id));
        }
    }
    GraphStats {
        node_count: n,
        edge_count: graph.edges.len(),
        canonical_count: canonical,
        variant_count: n - canonical,
        category_distribution,
        relationship_distribution,
        orphan_count: orphans,
        total_degree: 2 * graph.edges.len(),
        max_in_degree: max_in,
        max_out_degree: max_out,
        most_depended_on,
        most_dependencies,
    }
}

} // verus!

verus! {

/// The structural importance of one node.
#[derive(Debug)]
pub struct CentralityScore {
    /// Node id.
    pub id: String,
    /// In-degree plus out-degree.
    pub degree: usize,
    /// `degree` over the graph's largest degree, in thousandths (0 to
    /// 1000; 0 when no node has an edge).
    pub score: u32,
}

/// The normalized score of a degree against the largest degree.
pub open spec fn normalized(degree: int, max: int) -> int {
    if max == 0 {
        0
    } else {
        degree * 1000 / max
    }
}

/// `max` is the largest total degree of `g` (zero without nodes), and each
/// score is its degree normalized against `max`.
pub open spec fn scored_against(g: GraphData, r: Seq<CentralityScore>, max: int) -> bool {
    &&& forall|i: int| 0 <= i < g.nodes@.len() ==> degree(g, i, DegreeDirection::Both) <= max
    &&& (g.nodes@.len() == 0 ==> max == 0)
    &&& (g.nodes@.len() > 0 ==> exists|b: int| 0 <= b < g.nodes@.len() && #[trigger] degree(g, b, DegreeDirection::Both) == max)
    &&& forall|i: int| 0 <= i < r.len() ==> (#[trigger] r[i]).score == normalized(r[i].degree as int, max)
}

/// Degree centrality of every node, in insertion order: total degree
/// divided by the largest total degree, in thousandths.
pub fn calculate_centrality(graph: &GraphData) -> (r: Vec<CentralityScore>)
    requires
        graph.wf(),
        2 * graph.arcs@.len() <= usize::MAX,
    ensures
        r@.len() == graph.nodes@.len(),
        forall|i: int|
            0 <= i < r@.len() ==> (#[trigger] r@[i]).id == graph.nodes@[i].id && r@[i].degree == degree(
                *graph,
                i,
                DegreeDirection::Both,
            ),
        exists|max: int| #[trigger] scored_against(*graph, r@, max),
{
    let deg = degrees(graph, DegreeDirection::Both);
    let (best, max) = first_max_of(&deg);
    let mut r: Vec<CentralityScore> = Vec::new();
    let mut i: usize = 0;
    while i < deg.len()
        invariant
            deg@.len() == graph.nodes@.len(),
            forall|j: int| 0 <= j < deg@.len() ==> #[trigger] deg@[j] == degree(*graph, j, DegreeDirection::Both),
            first_max(deg@, best, max),
            i <= deg@.len(),
            r@.len() == i,
            forall|j: int|
                0 <= j < i ==> (#[trigger] r@[j]).id == graph.nodes@[j].id && r@[j].degree == deg@[j]
                    && r@[j].score == normalized(deg@[j] as int, max as int),
        decreases deg.len() - i,
    {
        let d = deg[i];
        let score: u32 = if max == 0 {
            0
        } else {
            proof {
                assert(d <= max);
                assert((d as int) * 1000 / (max as int) <= 1000) by (nonlinear_arith)
                    requires
                        d <= max,
                        max > 0,
                ;
                assert((d as int) * 1000 <= (max as int) * 1000) by (nonlinear_arith)
                    requires
                        d <= max,
                ;
            }
            ((d as u128) * 1000 / (max as u128)) as u32
        };
        r.push(CentralityScore { id: graph.nodes[i].id.clone(), degree: d, score });
        i = i + 1;
    }
    proof {
        let m = max as int;
        if let Some(b) = best {
            assert(degree(*graph, b as int, DegreeDirection::Both) == m);
        }
        assert forall|j: int| 0 <= j < graph.nodes@.len() implies degree(*graph, j, DegreeDirection::Both) <= m by {
            assert(deg@[j] <= max);
        }
        assert(scored_against(*graph, r@, m));
    }
    r
}

} // verus!
