//! An index-only directed graph of petgraph, used for its topological sort.
//! Its contents are named by a node count and a sequence of arcs.

use vstd::prelude::*;
use petgraph::graph::{DiGraph, NodeIndex};
use petgraph::Direction;

verus! {

#[verifier::external_type_specification]
#[verifier::external_body]
#[verifier::reject_recursive_types(N)]
#[verifier::reject_recursive_types(E)]
#[verifier::reject_recursive_types(Ty)]
#[verifier::reject_recursive_types(Ix)]
pub struct ExGraph<N, E, Ty, Ix>(petgraph::graph::Graph<N, E, Ty, Ix>);

#[verifier::external_type_specification]
#[verifier::external_body]
pub struct ExDirected(petgraph::Directed);

/// The index-only graph handed to petgraph.
pub type ArcGraph = DiGraph<(), (), usize>;

/// Number of nodes of an index-only graph.
pub uninterp spec fn arc_graph_order(g: DiGraph<(), (), usize>) -> nat;

/// The arcs of an index-only graph, as pairs of node indices, in insertion
/// order.
pub uninterp spec fn arc_graph_arcs(g: DiGraph<(), (), usize>) -> Seq<(int, int)>;

/// `order` lists each of the nodes `0..n` once, and every arc goes from an
/// earlier entry to a later one.
pub open spec fn is_topological_order(n: int, arcs: Seq<(int, int)>, order: Seq<usize>) -> bool {
    &&& order.len() == n
    &&& order.no_duplicates()
    &&& forall|i: int| 0 <= i < order.len() ==> (#[trigger] order[i]) < n
    &&& forall|v: usize| 0 <= v < n ==> #[trigger] order.contains(v)
    &&& forall|k: int, i: int, j: int|
        #![trigger arcs[k], order[i], order[j]]
        0 <= k < arcs.len() && 0 <= i < n && 0 <= j < n && order[i] == arcs[k].0 && order[j]
            == arcs[k].1 ==> i < j
}

/// The graph with `n` nodes and these arcs has a topological order, that
/// is, no directed cycle (a self-loop counts as a cycle).
pub open spec fn has_topological_order(n: int, arcs: Seq<(int, int)>) -> bool {
    exists|order: Seq<usize>| is_topological_order(n, arcs, order)
}

/// Number of arcs entering node `i` (when `incoming`) or leaving it.
pub open spec fn arc_count(arcs: Seq<(int, int)>, i: int, incoming: bool) -> nat
    decreases arcs.len(),
{
    if arcs.len() == 0 {
        0
    } else {
        let last = arcs.last();
        let end = if incoming { last.1 } else { last.0 };
        arc_count(arcs.drop_last(), i, incoming) + if end == i { 1nat } else { 0nat }
    }
}

/// No more arcs touch a node than there are arcs; none when no arc has it
/// at that end.
pub proof fn lemma_arc_count(arcs: Seq<(int, int)>, i: int, incoming: bool)
    ensures
        arc_count(arcs, i, incoming) <= arcs.len(),
        arc_count(arcs, i, incoming) == 0 <==> forall|k: int|
            0 <= k < arcs.len() ==> (if incoming { (#[trigger] arcs[k]).1 } else { arcs[k].0 }) != i,
    decreases arcs.len(),
{
    if arcs.len() > 0 {
        let p = arcs.drop_last();
        lemma_arc_count(p, i, incoming);
        assert forall|k: int| 0 <= k < p.len() implies #[trigger] p[k] == arcs[k] by {}
        if arc_count(arcs, i, incoming) == 0 {
            assert forall|k: int| 0 <= k < arcs.len() implies (if incoming { (#[trigger] arcs[k]).1 } else { arcs[k].0 }) != i by {
                if k < p.len() {
                    assert(p[k] == arcs[k]);
                }
            }
        }
        if forall|k: int| 0 <= k < arcs.len() ==> (if incoming { (#[trigger] arcs[k]).1 } else { arcs[k].0 }) != i {
            assert(arcs[arcs.len() - 1] == arcs.last());
            assert forall|k: int| 0 <= k < p.len() implies (if incoming { (#[trigger] p[k]).1 } else { p[k].0 }) != i by {
                assert(p[k] == arcs[k]);
            }
        }
    }
}

/// Relies on petgraph's `Graph::edges_directed` on a directed graph: it
/// yields the edges that enter node `i` (`Incoming`) or leave it
/// (`Outgoing`), self-loops included, each once; counting them gives the
/// degree.
#[verifier::external_body]
pub(crate) fn arc_graph_degree(g: &ArcGraph, i: usize, incoming: bool) -> (r: usize)
    requires
        i < arc_graph_order(*g),
    ensures
        r == arc_count(arc_graph_arcs(*g), i as int, incoming),
{
    let direction = if incoming { Direction::Incoming } else { Direction::Outgoing };
    g.edges_directed(NodeIndex::new(i), direction).count()
}

/// Relies on petgraph's `Graph::default`: a graph without nodes or edges.
#[verifier::external_body]
pub(crate) fn arc_graph_new() -> (g: ArcGraph)
    ensures
        arc_graph_order(g) == 0,
        arc_graph_arcs(g) == Seq::<(int, int)>::empty(),
{
    DiGraph::default()
}

/// Relies on petgraph's `Graph::add_node`: the new node's index is the
/// former node count, and the arcs are unchanged. With `usize` indices it
/// has no capacity panic.
#[verifier::external_body]
pub(crate) fn arc_graph_add_node(g: &mut ArcGraph) -> (i: usize)
    ensures
        i == arc_graph_order(*old(g)),
        arc_graph_order(*final(g)) == arc_graph_order(*old(g)) + 1,
        arc_graph_arcs(*final(g)) == arc_graph_arcs(*old(g)),
{
    g.add_node(()).index()
}

/// Relies on petgraph's `Graph::add_edge`: appends the arc `a -> b`; it
/// panics when either index is not a node, which `requires` rules out.
#[verifier::external_body]
pub(crate) fn arc_graph_add_edge(g: &mut ArcGraph, a: usize, b: usize)
    requires
        a < arc_graph_order(*old(g)),
        b < arc_graph_order(*old(g)),
    ensures
        arc_graph_order(*final(g)) == arc_graph_order(*old(g)),
        arc_graph_arcs(*final(g)) == arc_graph_arcs(*old(g)).push((a as int, b as int)),
{
    g.add_edge(NodeIndex::new(a), NodeIndex::new(b), ());
}

/// Relies on `petgraph::algo::toposort`: on an acyclic graph it returns
/// every node once, each before its successors; otherwise a cycle error.
#[verifier::external_body]
pub(crate) fn arc_graph_toposort(g: &ArcGraph) -> (r: Option<Vec<usize>>)
    ensures
        r is Some <==> has_topological_order(arc_graph_order(*g) as int, arc_graph_arcs(*g)),
        r matches Some(order) ==> is_topological_order(
            arc_graph_order(*g) as int,
            arc_graph_arcs(*g),
            order@,
        ),
{
    match petgraph::algo::toposort(g, None) {
        Ok(order) => Some(order.into_iter().map(|i| i.index()).collect()),
        Err(_) => None,
    }
}

} // verus!
